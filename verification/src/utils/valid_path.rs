//! Whether something can be saved at a place.

use vstd::prelude::*;
use crate::utils::file_utils::{
    is_valid_file_name, is_valid_raw_name, InvalidFilename, TargetOs,
};
#[allow(unused_imports)]
use crate::utils::file_utils::{name_problem, problem_of, raw_name_problem, NameProblem};
#[allow(unused_imports)]
use crate::utils::file_utils::{spec_is_windows_reject, InvalidWindowsFilename};
use crate::utils::numbers::push_decimal;
#[allow(unused_imports)]
use crate::utils::numbers::decimal;
use crate::utils::raw_paths::{take_apart, PathComponent};
#[allow(unused_imports)]
use crate::utils::raw_paths::{
    all_text, are_components, beginning, components_view, is_plain, is_step, segments, steps,
    ComponentModel,
};
#[allow(unused_imports)]
use vstd::utf8::decode_utf8;
use vstd::string::StringExecFns;

verus! {

/// What is wrong with a path.
#[derive(Debug, Clone)]
pub enum InvalidPath {
    Empty,
    ContainsNullByte,
    InvalidFilename(InvalidFilename),
}

/// What can be wrong with a path, in mathematical values.
pub enum PathProblem {
    Empty,
    NullByte,
    Name(NameProblem),
}

/// What an error says is wrong with a path.
pub open spec fn path_problem_of(e: InvalidPath) -> PathProblem {
    match e {
        InvalidPath::Empty => PathProblem::Empty,
        InvalidPath::ContainsNullByte => PathProblem::NullByte,
        InvalidPath::InvalidFilename(e) => PathProblem::Name(problem_of(e)),
    }
}

/// What is wrong with a part of a path. Only names can be wrong.
pub open spec fn part_problem(target: TargetOs, part: ComponentModel) -> Option<NameProblem> {
    match part {
        ComponentModel::Normal(name) => name_problem(target, name),
        ComponentModel::Raw { bytes, text } => raw_name_problem(target, bytes, text),
        _ => None,
    }
}

/// The text of a name.
pub open spec fn part_text(part: ComponentModel) -> Seq<char> {
    match part {
        ComponentModel::Normal(name) => name,
        ComponentModel::Raw { text, .. } => text,
        _ => Seq::empty(),
    }
}

/// Whether an error is the one that a name with this text is refused with: it says which
/// characters were refused, each once, or which device has the name.
pub open spec fn is_error_of(e: InvalidFilename, text: Seq<char>) -> bool {
    match e {
        InvalidFilename::Window(InvalidWindowsFilename::InvalidCharacters(found)) => {
            &&& found@.no_duplicates()
            &&& forall|c: char| #[trigger]
                found@.contains(c) <==> text.contains(c) && spec_is_windows_reject(c)
        },
        InvalidFilename::Window(InvalidWindowsFilename::ReservedName(reserved)) => reserved@
            == text,
        _ => true,
    }
}

/// Whether an error is the one that the part at place `i` is refused with, the first that
/// is.
pub open spec fn refuses(
    target: TargetOs,
    parts: Seq<ComponentModel>,
    e: InvalidFilename,
    i: int,
) -> bool {
    &&& 0 <= i < parts.len()
    &&& part_problem(target, parts[i]) == Some(problem_of(e))
    &&& is_error_of(e, part_text(parts[i]))
    &&& forall|k: int| 0 <= k < i ==> part_problem(target, #[trigger] parts[k]).is_none()
}

/// Whether something is what comes of checking a path with these parts.
pub open spec fn is_verdict(
    target: TargetOs,
    path: Seq<u8>,
    parts: Seq<ComponentModel>,
    r: Result<ValidPath, InvalidPath>,
) -> bool {
    match r {
        Ok(valid) => path_problem(target, path, parts).is_none() && valid@ == path,
        Err(e) => path_problem(target, path, parts) == Some(path_problem_of(e)) && (
        e matches InvalidPath::InvalidFilename(inner) ==> exists|i: int| #[trigger]
            refuses(target, parts, inner, i)),
    }
}

/// What is wrong with the first part of a path with which something is.
pub open spec fn parts_problem(target: TargetOs, parts: Seq<ComponentModel>) -> Option<NameProblem>
    decreases parts.len(),
{
    if parts.len() == 0 {
        None
    } else {
        match part_problem(target, parts[0]) {
            Some(problem) => Some(problem),
            None => parts_problem(target, parts.drop_first()),
        }
    }
}

/// What is wrong with a path.
pub open spec fn path_problem(
    target: TargetOs,
    path: Seq<u8>,
    parts: Seq<ComponentModel>,
) -> Option<PathProblem> {
    if path.len() == 0 {
        Some(PathProblem::Empty)
    } else if path.contains(0u8) {
        Some(PathProblem::NullByte)
    } else {
        match parts_problem(target, parts) {
            Some(problem) => Some(PathProblem::Name(problem)),
            None => None,
        }
    }
}

impl InvalidPath {
    /// What a reader is told, unless it is about a name.
    pub fn describe(&self) -> (r: Option<&'static str>)
        ensures
            match *self {
                InvalidPath::Empty => r.is_some() && r->0@ == "The path can not be empty"@,
                InvalidPath::ContainsNullByte => r.is_some() && r->0@
                    == "The filename can not contain a null byte"@,
                InvalidPath::InvalidFilename(_) => r.is_none(),
            },
    {
        match self {
            InvalidPath::Empty => Some("The path can not be empty"),
            InvalidPath::ContainsNullByte => Some("The filename can not contain a null byte"),
            InvalidPath::InvalidFilename(_) => None,
        }
    }
}

/// A path that some file or folder could have.
pub struct ValidPath {
    path: Vec<u8>,
}

impl View for ValidPath {
    type V = Seq<u8>;

    closed spec fn view(&self) -> Seq<u8> {
        self.path@
    }
}

fn check_part(part: &PathComponent, target: TargetOs) -> (r: Result<(), InvalidFilename>)
    ensures
        match r {
            Ok(()) => part_problem(target, part@).is_none(),
            Err(e) => part_problem(target, part@) == Some(problem_of(e)) && is_error_of(
                e,
                part_text(part@),
            ),
        },
{
    match part {
        PathComponent::Normal(name) => is_valid_file_name(name.as_str(), target),
        PathComponent::Raw { bytes, text } => is_valid_raw_name(
            bytes.as_slice(),
            text.as_str(),
            target,
        ),
        _ => Ok(()),
    }
}

fn has_null(path: &Vec<u8>) -> (r: bool)
    ensures
        r == path@.contains(0u8),
{
    let mut i: usize = 0;
    while i < path.len()
        invariant
            i <= path@.len(),
            forall|j: int| 0 <= j < i ==> path@[j] != 0,
        decreases path@.len() - i,
    {
        if path[i] == 0 {
            assert(path@[i as int] == 0u8);
            return true;
        }
        i += 1;
    }
    false
}

impl ValidPath {
    /// The path that bytes are on this machine, if some file or folder could have it. There
    /// is no answer where the bytes are no path on this machine, which text always is.
    pub fn from_bytes(path: Vec<u8>, target: TargetOs) -> (r: Option<Result<Self, InvalidPath>>)
        ensures
            path@.len() == 0 <==> r matches Some(Err(InvalidPath::Empty)),
            path@.len() > 0 && path@.contains(0u8) <==> r matches Some(
                Err(InvalidPath::ContainsNullByte),
            ),
            r matches Some(Ok(valid)) ==> valid@ == path@,
            path@.len() > 0 && !path@.contains(0u8) ==> exists|parts: Option<Seq<ComponentModel>>|
                #[trigger]
                are_components(path@, parts) && match parts {
                    Some(found) => r matches Some(verdict) && is_verdict(
                        target,
                        path@,
                        found,
                        verdict,
                    ),
                    None => r.is_none(),
                },
    {
        if path.len() == 0 {
            return Some(Err(InvalidPath::Empty));
        }
        if has_null(&path) {
            return Some(Err(InvalidPath::ContainsNullByte));
        }
        match take_apart(&path) {
            Some(parts) => {
                assert(are_components(path@, Some(components_view(parts@))));
                Some(ValidPath::new(path, &parts, target))
            },
            None => {
                assert(are_components(path@, None));
                None
            },
        }
    }

    /// The path, given as its bytes and as its parts, if some file or folder could have
    /// it.
    pub fn new(path: Vec<u8>, parts: &Vec<PathComponent>, target: TargetOs) -> (r: Result<
        Self,
        InvalidPath,
    >)
        ensures
            is_verdict(target, path@, components_view(parts@), r),
    {
        let ghost models = components_view(parts@);
        if path.len() == 0 {
            return Err(InvalidPath::Empty);
        }
        if has_null(&path) {
            return Err(InvalidPath::ContainsNullByte);
        }
        let mut k: usize = 0;
        assert(models.skip(0) =~= models);
        while k < parts.len()
            invariant
                k <= parts@.len(),
                models == components_view(parts@),
                path@.len() > 0,
                !path@.contains(0u8),
                forall|i: int| 0 <= i < k ==> part_problem(target, #[trigger] models[i]).is_none(),
                parts_problem(target, models.skip(k as int)) == parts_problem(target, models),
            decreases parts@.len() - k,
        {
            assert(models.skip(k as int).drop_first() =~= models.skip(k + 1));
            assert(models.skip(k as int)[0] == models[k as int]);
            assert(models[k as int] == parts@[k as int]@);
            if let Err(e) = check_part(&parts[k], target) {
                assert(refuses(target, models, e, k as int));
                return Err(InvalidPath::InvalidFilename(e));
            }
            k += 1;
        }
        assert(models.skip(k as int) =~= Seq::<ComponentModel>::empty());
        Ok(ValidPath { path })
    }

    /// The bytes of the path.
    pub fn as_bytes(&self) -> (r: &Vec<u8>)
        ensures
            r@ == self@,
    {
        &self.path
    }
}

/// A path is valid if and only if it is not empty, holds no null byte, and each of its
/// names could be the name of a file.
pub proof fn law_paths_are_as_good_as_their_names(
    target: TargetOs,
    path: Seq<u8>,
    parts: Seq<ComponentModel>,
)
    ensures
        path_problem(target, path, parts).is_none() <==> path.len() > 0 && !path.contains(0u8)
            && forall|i: int|
            0 <= i < parts.len() ==> part_problem(target, #[trigger] parts[i]).is_none(),
{
    lemma_parts(target, parts);
}

/// Whether a step of a path could be taken: two dots lead up, and anything else could be the
/// name of a file.
pub open spec fn is_good_step(target: TargetOs, step: Seq<u8>) -> bool {
    step == seq![46u8, 46u8] || name_problem(target, decode_utf8(step)).is_none()
}

/// A path that means the same everywhere is as good as what lies between its slashes, as far
/// as that is text.
pub proof fn law_plain_paths_are_as_good_as_their_steps(
    target: TargetOs,
    path: Seq<u8>,
    found: Seq<ComponentModel>,
)
    requires
        is_plain(path),
        all_text(steps(segments(path))),
        are_components(path, Some(found)),
    ensures
        path_problem(target, path, found).is_none() <==> path.len() > 0 && !path.contains(0u8)
            && forall|i: int|
            0 <= i < steps(segments(path)).len() ==> is_good_step(
                target,
                #[trigger] steps(segments(path))[i],
            ),
{
    let taken = steps(segments(path));
    let n = beginning(path).len() as int;
    law_paths_are_as_good_as_their_names(target, path, found);
    assert forall|i: int| 0 <= i < taken.len() implies (part_problem(
        target,
        #[trigger] found.skip(n)[i],
    ).is_none() <==> is_good_step(target, taken[i])) by {
        assert(is_step(found.skip(n)[i], taken[i]));
        if let ComponentModel::Normal(text) = found.skip(n)[i] {
            vstd::utf8::encode_utf8_decode_utf8(text);
        }
    }
    if forall|i: int| 0 <= i < taken.len() ==> is_good_step(target, #[trigger] taken[i]) {
        assert forall|i: int| 0 <= i < found.len() implies part_problem(
            target,
            #[trigger] found[i],
        ).is_none() by {
            if i < n {
                assert(found.take(n)[i] == beginning(path)[i]);
            } else {
                assert(found.skip(n)[i - n] == found[i]);
                assert(is_good_step(target, taken[i - n]));
            }
        }
    }
    if forall|i: int| 0 <= i < found.len() ==> part_problem(target, #[trigger] found[i]).is_none() {
        assert forall|i: int| 0 <= i < taken.len() implies is_good_step(
            target,
            #[trigger] taken[i],
        ) by {
            assert(found.skip(n)[i] == found[i + n]);
        }
    }
}

proof fn lemma_parts(target: TargetOs, parts: Seq<ComponentModel>)
    ensures
        parts_problem(target, parts).is_none() <==> forall|i: int|
            0 <= i < parts.len() ==> part_problem(target, #[trigger] parts[i]).is_none(),
    decreases parts.len(),
{
    if parts.len() > 0 {
        let rest = parts.drop_first();
        lemma_parts(target, rest);
        if parts_problem(target, parts).is_none() {
            assert forall|i: int| 0 <= i < parts.len() implies part_problem(
                target,
                #[trigger] parts[i],
            ).is_none() by {
                if i > 0 {
                    assert(rest[i - 1] == parts[i]);
                }
            }
        }
        if forall|i: int|
            0 <= i < parts.len() ==> part_problem(target, #[trigger] parts[i]).is_none() {
            assert(part_problem(target, parts[0]).is_none());
            assert forall|i: int| 0 <= i < rest.len() implies part_problem(
                target,
                #[trigger] rest[i],
            ).is_none() by {
                assert(rest[i] == parts[i + 1]);
            }
        }
    }
}

/// Why nothing can be saved at a place.
#[derive(Debug, Clone)]
pub enum SavePathError {
    Invalid(InvalidPath),
    RootDoesNotExist,
    NotADirectory,
    PermissionDenied,
}

impl SavePathError {
    /// What a reader is told, unless it is about the path itself.
    pub fn describe(&self) -> (r: Option<&'static str>)
        ensures
            match *self {
                SavePathError::Invalid(_) => r.is_none(),
                SavePathError::RootDoesNotExist => r.is_some() && r->0@
                    == "This drive does not exist"@,
                SavePathError::NotADirectory => r.is_some() && r->0@
                    == "This path exists but it's not a directory"@,
                SavePathError::PermissionDenied => r.is_some() && r->0@
                    == "You don't have write permissions for this path"@,
            },
    {
        match self {
            SavePathError::Invalid(_) => None,
            SavePathError::RootDoesNotExist => Some("This drive does not exist"),
            SavePathError::NotADirectory => Some("This path exists but it's not a directory"),
            SavePathError::PermissionDenied => Some(
                "You don't have write permissions for this path",
            ),
        }
    }
}

/// What was found at a place.
#[derive(Debug, Clone, Copy, PartialEq, Eq, Structural)]
pub enum Look {
    Directory,
    /// Something that is no directory.
    Other,
    NotFound,
    /// It could not be looked at.
    Failed,
}

/// What is to be done next to find out whether something can be saved at a place. The
/// place itself has level zero, the folder that it lies in has level one, and so on.
#[derive(Debug, Clone, Copy, PartialEq, Eq, Structural)]
pub enum SavePathStep {
    /// Look at the folder of this level.
    LookAt(usize),
    /// Try to write in the folder of this level.
    TryToWrite(usize),
    /// Something can be saved.
    Fine,
    RootDoesNotExist,
    NotADirectory,
    PermissionDenied,
}

/// What is to be done next when something was found. A place that exists must be a
/// directory. Where it does not exist, the nearest folder above it that does must be
/// one in which something can be written.
pub open spec fn step_after(level: usize, parents: usize, look: Look) -> SavePathStep {
    match look {
        Look::Directory => if level == 0 {
            SavePathStep::Fine
        } else {
            SavePathStep::TryToWrite(level)
        },
        Look::Other => SavePathStep::NotADirectory,
        Look::NotFound => if level < parents {
            SavePathStep::LookAt((level + 1) as usize)
        } else {
            SavePathStep::RootDoesNotExist
        },
        Look::Failed => SavePathStep::PermissionDenied,
    }
}

/// What is to be done next, when something was found at a level of a place above which
/// there are so many folders.
pub fn after_look(level: usize, parents: usize, look: Look) -> (r: SavePathStep)
    requires
        level <= parents,
    ensures
        r == step_after(level, parents, look),
{
    match look {
        Look::Directory => {
            if level == 0 {
                SavePathStep::Fine
            } else {
                SavePathStep::TryToWrite(level)
            }
        },
        Look::Other => SavePathStep::NotADirectory,
        Look::NotFound => {
            if level < parents {
                SavePathStep::LookAt(level + 1)
            } else {
                SavePathStep::RootDoesNotExist
            }
        },
        Look::Failed => SavePathStep::PermissionDenied,
    }
}

/// What comes of an attempt to write in a folder.
pub fn after_write(written: bool) -> (r: SavePathStep)
    ensures
        r == if written {
            SavePathStep::Fine
        } else {
            SavePathStep::PermissionDenied
        },
{
    if written {
        SavePathStep::Fine
    } else {
        SavePathStep::PermissionDenied
    }
}

/// What is to be done in the end, when this is what is found at each level from this
/// one on.
pub open spec fn walked(looks: Seq<Look>, level: nat) -> SavePathStep
    decreases looks.len() - level,
{
    if level >= looks.len() || looks.len() > usize::MAX {
        SavePathStep::RootDoesNotExist
    } else {
        match step_after(level as usize, (looks.len() - 1) as usize, looks[level as int]) {
            SavePathStep::LookAt(_) => walked(looks, level + 1),
            step => step,
        }
    }
}

/// The nearest place that exists decides. If there is none, the root does not exist.
pub proof fn law_nearest_place_decides(looks: Seq<Look>, level: nat)
    requires
        looks.len() <= usize::MAX,
        level <= looks.len(),
        forall|j: int| 0 <= j < level ==> looks[j] == Look::NotFound,
        level < looks.len() ==> looks[level as int] != Look::NotFound,
    ensures
        walked(looks, 0) == if level == looks.len() {
            SavePathStep::RootDoesNotExist
        } else {
            step_after(level as usize, (looks.len() - 1) as usize, looks[level as int])
        },
{
    lemma_walked(looks, 0, level);
}

proof fn lemma_walked(looks: Seq<Look>, from: nat, level: nat)
    requires
        looks.len() <= usize::MAX,
        from <= level <= looks.len(),
        forall|j: int| 0 <= j < level ==> looks[j] == Look::NotFound,
        level < looks.len() ==> looks[level as int] != Look::NotFound,
    ensures
        walked(looks, from) == if level == looks.len() {
            SavePathStep::RootDoesNotExist
        } else {
            step_after(level as usize, (looks.len() - 1) as usize, looks[level as int])
        },
    decreases level - from,
{
    if from < level {
        assert(looks[from as int] == Look::NotFound);
        lemma_walked(looks, from + 1, level);
    }
}

/// A number that nobody can foretell, from `rand::random`. Nothing is said of it.
#[verifier::external_body]
fn any_number() -> (n: u64) {
    rand::random::<u64>()
}

/// The name of a file that is written only to see whether one can be.
pub fn temp_name_for(number: u64) -> (r: String)
    ensures
        r@ == decimal(number as nat) + ".tmp"@,
{
    let mut name = String::new();
    push_decimal(&mut name, number);
    name.append(".tmp");
    assert(name@ =~= decimal(number as nat) + ".tmp"@);
    name
}

/// A name for a file that is written only to see whether one can be, which is hardly
/// that of another file.
pub fn temp_name() -> (r: String)
    ensures
        exists|number: u64| r@ == #[trigger] decimal(number as nat) + ".tmp"@,
{
    let number: u64 = any_number();
    temp_name_for(number)
}

} // verus!
