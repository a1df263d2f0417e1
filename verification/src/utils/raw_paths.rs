//! Paths as the machine writes them: taken apart, and put together.

use std::path::{Component, Path, PathBuf};

use os_str_bytes::{OsStrBytes, OsStringBytes};
use vstd::prelude::*;
use vstd::string::StrSliceExecFns;
#[allow(unused_imports)]
use vstd::utf8::{encode_utf8, valid_utf8};
use crate::utils::paths::{copy_bytes, ItemPath};

verus! {

/// A part of a path, as the machine takes it apart.
pub enum PathComponent {
    /// A drive or a share.
    Prefix(Vec<u8>),
    RootDir,
    CurDir,
    ParentDir,
    Normal(String),
    /// A name that is no text: its bytes, and its text with replacement characters for
    /// what of it is none.
    Raw { bytes: Vec<u8>, text: String },
}

/// A part of a path, in mathematical values.
#[allow(inconsistent_fields)]
#[verifier::ext_equal]
pub enum ComponentModel {
    Prefix(Seq<u8>),
    RootDir,
    CurDir,
    ParentDir,
    Normal(Seq<char>),
    Raw { bytes: Seq<u8>, text: Seq<char> },
}

impl View for PathComponent {
    type V = ComponentModel;

    open spec fn view(&self) -> ComponentModel {
        match *self {
            PathComponent::Prefix(bytes) => ComponentModel::Prefix(bytes@),
            PathComponent::RootDir => ComponentModel::RootDir,
            PathComponent::CurDir => ComponentModel::CurDir,
            PathComponent::ParentDir => ComponentModel::ParentDir,
            PathComponent::Normal(name) => ComponentModel::Normal(name@),
            PathComponent::Raw { bytes, text } => ComponentModel::Raw {
                bytes: bytes@,
                text: text@,
            },
        }
    }
}

/// Parts of a path, in mathematical values.
pub open spec fn components_view(parts: Seq<PathComponent>) -> Seq<ComponentModel> {
    parts.map_values(|part: PathComponent| part@)
}

/// The bytes of a part. A root is a slash on every machine.
pub open spec fn component_bytes(part: ComponentModel) -> Seq<u8> {
    match part {
        ComponentModel::Prefix(bytes) => bytes,
        ComponentModel::RootDir => seq![47u8],
        ComponentModel::CurDir => seq![46u8],
        ComponentModel::ParentDir => seq![46u8, 46u8],
        ComponentModel::Normal(name) => encode_utf8(name),
        ComponentModel::Raw { bytes, .. } => bytes,
    }
}

/// Whether a name means the same on every machine: it is no step to the folder itself or
/// the one above, and holds no byte that separates names or ends a drive somewhere.
pub open spec fn is_portable(name: Seq<u8>) -> bool {
    &&& name.len() > 0
    &&& name != seq![46u8]
    &&& name != seq![46u8, 46u8]
    &&& !name.contains(47u8)
    &&& !name.contains(92u8)
    &&& !name.contains(58u8)
}

/// Whether all names mean the same on every machine.
pub open spec fn are_portable(names: Seq<Seq<u8>>) -> bool {
    forall|i: int| 0 <= i < names.len() ==> is_portable(#[trigger] names[i])
}

/// Names with a byte between any two.
pub open spec fn between(names: Seq<Seq<u8>>, separator: u8) -> Seq<u8>
    decreases names.len(),
{
    if names.len() == 0 {
        Seq::empty()
    } else if names.len() == 1 {
        names[0]
    } else {
        between(names.drop_last(), separator) + seq![separator] + names.last()
    }
}

/// How the path of some names is written, from the root on or not.
pub open spec fn spelled(rooted: bool, names: Seq<Seq<u8>>, separator: u8) -> Seq<u8> {
    if rooted {
        seq![47u8] + between(names, separator)
    } else {
        between(names, separator)
    }
}

/// The path of some names, from the root on or not.
pub open spec fn path_of_names(rooted: bool, names: Seq<Seq<u8>>) -> Seq<Seq<u8>> {
    if rooted {
        seq![seq![47u8]] + names
    } else {
        names
    }
}

/// What lies between the slashes.
pub open spec fn segments(raw: Seq<u8>) -> Seq<Seq<u8>>
    decreases raw.len(),
{
    if raw.len() == 0 {
        seq![Seq::empty()]
    } else {
        let before = segments(raw.drop_last());
        if raw.last() == 47 {
            before.push(Seq::empty())
        } else {
            before.drop_last().push(before.last().push(raw.last()))
        }
    }
}

/// The segments that lead somewhere: those that are not empty, nor a single dot.
pub open spec fn steps(segments: Seq<Seq<u8>>) -> Seq<Seq<u8>>
    decreases segments.len(),
{
    if segments.len() == 0 {
        Seq::empty()
    } else if segments.last().len() == 0 || segments.last() == seq![46u8] {
        steps(segments.drop_last())
    } else {
        steps(segments.drop_last()).push(segments.last())
    }
}

/// What a path begins with before its steps: a root, a dot, or nothing.
pub open spec fn beginning(raw: Seq<u8>) -> Seq<ComponentModel> {
    if raw.len() > 0 && raw[0] == 47 {
        seq![ComponentModel::RootDir]
    } else if segments(raw)[0] == seq![46u8] {
        seq![ComponentModel::CurDir]
    } else {
        Seq::empty()
    }
}

/// Whether a part is a step: two dots lead up, and anything else is a name.
pub open spec fn is_step(part: ComponentModel, step: Seq<u8>) -> bool {
    if step == seq![46u8, 46u8] {
        part is ParentDir
    } else {
        match part {
            ComponentModel::Normal(text) => encode_utf8(text) == step,
            ComponentModel::Raw { bytes, .. } => bytes == step && !valid_utf8(step),
            _ => false,
        }
    }
}

/// Whether parts are these steps.
pub open spec fn are_steps(parts: Seq<ComponentModel>, steps: Seq<Seq<u8>>) -> bool {
    &&& parts.len() == steps.len()
    &&& forall|i: int| 0 <= i < steps.len() ==> is_step(#[trigger] parts[i], steps[i])
}

/// Whether bytes mean the same path on every machine: they hold no byte that parts names or
/// ends a drive only on some, and do not begin as a share does on some.
pub open spec fn is_plain(raw: Seq<u8>) -> bool {
    &&& !raw.contains(92u8)
    &&& !raw.contains(58u8)
    &&& !(raw.len() >= 2 && raw[0] == 47 && raw[1] == 47)
}

/// Whether bytes can be the path with these parts on some machine, or no path. Text is a
/// path everywhere, and what means the same path everywhere has its steps as its parts.
pub open spec fn are_components(raw: Seq<u8>, parts: Option<Seq<ComponentModel>>) -> bool {
    &&& valid_utf8(raw) ==> parts.is_some()
    &&& parts matches Some(found) ==> is_plain(raw) ==> {
        let first = beginning(raw);
        &&& first.len() <= found.len()
        &&& found.take(first.len() as int) == first
        &&& are_steps(found.skip(first.len() as int), steps(segments(raw)))
    }
}

/// The parts of the path that bytes are on this machine, if they are one.
/// `OsStringBytes::from_io_vec` makes the path, for which it takes any bytes on some
/// machines and only text on others, and `Path::components` takes it apart: at slashes
/// everywhere, leaving out empty parts and single dots but one at the beginning. What the
/// parts are where bytes mean different things on different machines is left open, and so is
/// the text of a name that is none.
#[verifier::external_body]
fn components_of(raw: Vec<u8>) -> (r: Option<Vec<PathComponent>>)
    ensures
        are_components(
            raw@,
            match r {
                Some(parts) => Some(components_view(parts@)),
                None => None,
            },
        ),
{
    let part = |c: Component<'_>| match c {
        Component::Prefix(p) => PathComponent::Prefix(p.as_os_str().to_io_bytes_lossy().into_owned()),
        Component::RootDir => PathComponent::RootDir,
        Component::CurDir => PathComponent::CurDir,
        Component::ParentDir => PathComponent::ParentDir,
        Component::Normal(name) => match name.to_str() {
            Some(text) => PathComponent::Normal(text.to_owned()),
            None => PathComponent::Raw {
                bytes: name.to_io_bytes_lossy().into_owned(),
                text: name.to_string_lossy().into_owned(),
            },
        },
    };
    PathBuf::from_io_vec(raw).map(|path| path.components().map(part).collect())
}

/// The parts of the path that bytes are on this machine, if they are one.
pub fn take_apart(raw: &Vec<u8>) -> (r: Option<Vec<PathComponent>>)
    ensures
        are_components(
            raw@,
            match r {
                Some(parts) => Some(components_view(parts@)),
                None => None,
            },
        ),
{
    components_of(copy_bytes(raw))
}

/// Whether every part of a path is text.
pub open spec fn all_text(path: Seq<Seq<u8>>) -> bool {
    forall|i: int| 0 <= i < path.len() ==> valid_utf8(#[trigger] path[i])
}

/// Whether a path can be written so on some machine. A path of text is written as text, and
/// names that mean the same everywhere are written with a slash or a backslash between
/// any two.
pub open spec fn is_written(path: Seq<Seq<u8>>, raw: Seq<u8>, text: Seq<char>) -> bool {
    &&& all_text(path) ==> raw == encode_utf8(text)
    &&& forall|rooted: bool, names: Seq<Seq<u8>>|
        #![trigger path_of_names(rooted, names)]
        are_portable(names) && path == path_of_names(rooted, names) ==> raw == spelled(
            rooted,
            names,
            47,
        ) || raw == spelled(rooted, names, 92)
}

/// The bytes of a path on this machine, and its text with replacement characters for what
/// of it is none. There are none if one of its parts is no name on this machine, which
/// text always is. `OsStrBytes::from_io_bytes` makes the parts, `PathBuf::from_iter` joins
/// them with the separator of the machine, and `OsStrBytes::to_io_bytes_lossy` and
/// `Path::to_string_lossy` give the bytes and the text. Which separator that is, is left
/// open.
#[verifier::external_body]
fn written_forms(path: &ItemPath) -> (r: Option<(Vec<u8>, String)>)
    ensures
        match r {
            Some((raw, text)) => is_written(path@, raw@, text@),
            None => !all_text(path@),
        },
{
    let parts = path.parts.iter().map(|part| Path::from_io_bytes(part));
    parts.collect::<Option<PathBuf>>().map(|whole| {
        let raw = whole.to_io_bytes_lossy().into_owned();
        (raw, whole.to_string_lossy().into_owned())
    })
}

/// Whether bytes and a text are what a path is stored as: nothing is where one of its parts
/// is no name on the machine.
#[verifier::opaque]
pub open spec fn is_stored(path: Seq<Seq<u8>>, raw: Seq<u8>, text: Seq<char>) -> bool {
    is_written(path, raw, text) || (!all_text(path) && raw.len() == 0 && text.len() == 0)
}

/// Whether bytes can be read as a path on some machine, or as none.
#[verifier::opaque]
pub open spec fn is_read(raw: Seq<u8>, path: Option<Seq<Seq<u8>>>) -> bool {
    exists|parts: Option<Seq<ComponentModel>>| #[trigger]
        are_components(raw, parts) && path == match parts {
            Some(found) => Some(found.map_values(|part: ComponentModel| component_bytes(part))),
            None => None,
        }
}

/// A path that may be missing, in mathematical values.
pub open spec fn path_view(path: Option<ItemPath>) -> Option<Seq<Seq<u8>>> {
    match path {
        Some(path) => Some(path@),
        None => None,
    }
}

impl PathComponent {
    /// The bytes of the part.
    pub fn to_bytes(&self) -> (r: Vec<u8>)
        ensures
            r@ == component_bytes(self@),
    {
        let r: Vec<u8> = match self {
            PathComponent::Prefix(bytes) => copy_bytes(bytes),
            PathComponent::RootDir => vec![47u8],
            PathComponent::CurDir => vec![46u8],
            PathComponent::ParentDir => vec![46u8, 46u8],
            PathComponent::Normal(name) => name.as_str().as_bytes_vec(),
            PathComponent::Raw { bytes, .. } => copy_bytes(bytes),
        };
        assert(r@ =~= component_bytes(self@));
        r
    }
}

impl ItemPath {
    /// The path with these parts.
    pub fn of_components(parts: &Vec<PathComponent>) -> (r: Self)
        ensures
            r@ == components_view(parts@).map_values(
                |part: ComponentModel| component_bytes(part),
            ),
    {
        let ghost whole = components_view(parts@).map_values(
            |part: ComponentModel| component_bytes(part),
        );
        let mut r = ItemPath::new();
        let mut i: usize = 0;
        assert(r@ =~= whole.take(0));
        while i < parts.len()
            invariant
                i <= parts@.len(),
                whole == components_view(parts@).map_values(
                    |part: ComponentModel| component_bytes(part),
                ),
                r@ == whole.take(i as int),
            decreases parts@.len() - i,
        {
            let ghost before = r@;
            r.parts.push(parts[i].to_bytes());
            assert(r@ =~= before.push(whole[i as int]));
            assert(whole.take(i + 1) =~= before.push(whole[i as int]));
            i += 1;
        }
        assert(whole.take(i as int) =~= whole);
        r
    }

    /// The path that bytes are on this machine, if they are one.
    pub fn from_raw(raw: &Vec<u8>) -> (r: Option<Self>)
        ensures
            is_read(raw@, path_view(r)),
    {
        reveal(is_read);
        match take_apart(raw) {
            Some(parts) => {
                let r = ItemPath::of_components(&parts);
                assert(are_components(raw@, Some(components_view(parts@))));
                Some(r)
            },
            None => {
                assert(are_components(raw@, None));
                None
            },
        }
    }

    /// What the path is stored as: its bytes, and its text.
    pub fn to_raw(&self) -> (r: (Vec<u8>, String))
        ensures
            is_stored(self@, r.0@, r.1@),
    {
        reveal(is_stored);
        match written_forms(self) {
            Some(forms) => forms,
            None => {
                let r = (Vec::new(), String::new());
                proof {
                    reveal_strlit("");
                }
                r
            },
        }
    }
}

/// The path that bytes mean on every machine.
pub open spec fn plain_path(raw: Seq<u8>) -> Seq<Seq<u8>> {
    beginning(raw).map_values(|part: ComponentModel| component_bytes(part)) + steps(segments(raw))
}

/// What means the same path everywhere is read as that path where it is read at all, whether
/// it is text or not; text always is.
pub proof fn law_plain_paths_are_read(raw: Seq<u8>, path: Option<Seq<Seq<u8>>>)
    requires
        is_plain(raw),
        is_read(raw, path),
    ensures
        valid_utf8(raw) ==> path.is_some(),
        path matches Some(p) ==> p == plain_path(raw),
{
    reveal(is_read);
    let parts = choose|parts: Option<Seq<ComponentModel>>| #[trigger]
        are_components(raw, parts) && path == match parts {
            Some(found) => Some(found.map_values(|part: ComponentModel| component_bytes(part))),
            None => None,
        };
    if parts.is_some() {
        let found = parts->0;
        let first = beginning(raw);
        let n = first.len() as int;
        assert forall|i: int| 0 <= i < found.len() implies component_bytes(
            #[trigger] found[i],
        ) == plain_path(raw)[i] by {
            if i < n {
                assert(found.take(n)[i] == first[i]);
            } else {
                assert(is_step(found.skip(n)[i - n], steps(segments(raw))[i - n]));
            }
        }
        assert(path->0 =~= plain_path(raw));
    }
}

/// What lies between the slashes of two texts, one behind the other with a slash in
/// between, is what lies between those of each.
proof fn lemma_segments_add(a: Seq<u8>, b: Seq<u8>)
    ensures
        segments(a + seq![47u8] + b) == segments(a) + segments(b),
        segments(b).len() > 0,
    decreases b.len(),
{
    let whole = a + seq![47u8] + b;
    if b.len() == 0 {
        assert(whole.drop_last() =~= a);
        assert(segments(whole) =~= segments(a) + segments(b));
    } else {
        assert(whole.drop_last() =~= a + seq![47u8] + b.drop_last());
        lemma_segments_add(a, b.drop_last());
        assert(segments(whole) =~= segments(a) + segments(b));
    }
}

proof fn lemma_one_segment(name: Seq<u8>)
    requires
        !name.contains(47u8),
    ensures
        segments(name) == seq![name],
    decreases name.len(),
{
    if name.len() > 0 {
        assert(name[name.len() - 1] != 47) by {
            assert(name.contains(name[name.len() - 1]));
        }
        assert forall|i: int| 0 <= i < name.drop_last().len() implies name.drop_last()[i]
            != 47u8 by {
            assert(name.contains(name[i]));
        }
        lemma_one_segment(name.drop_last());
        assert(name.drop_last().push(name.last()) =~= name);
        assert(segments(name) =~= seq![name]);
    } else {
        assert(name =~= Seq::<u8>::empty());
    }
}

proof fn lemma_segments_between(names: Seq<Seq<u8>>)
    requires
        are_portable(names),
        names.len() > 0,
    ensures
        segments(between(names, 47)) == names,
        between(names, 47).len() > 0,
        between(names, 47)[0] == names[0][0],
    decreases names.len(),
{
    if names.len() == 1 {
        assert(is_portable(names[0]));
        lemma_one_segment(names[0]);
        assert(segments(between(names, 47)) =~= names);
    } else {
        let fewer = names.drop_last();
        assert(are_portable(fewer)) by {
            assert forall|i: int| 0 <= i < fewer.len() implies is_portable(#[trigger] fewer[i]) by {
                assert(fewer[i] == names[i]);
            }
        }
        lemma_segments_between(fewer);
        assert(is_portable(names[names.len() - 1]));
        lemma_one_segment(names.last());
        lemma_segments_add(between(fewer, 47), names.last());
        assert(fewer + seq![names.last()] =~= names);
    }
}

proof fn lemma_portable_steps(names: Seq<Seq<u8>>)
    requires
        are_portable(names),
    ensures
        steps(names) == names,
    decreases names.len(),
{
    if names.len() > 0 {
        let fewer = names.drop_last();
        assert forall|i: int| 0 <= i < fewer.len() implies is_portable(#[trigger] fewer[i]) by {
            assert(fewer[i] == names[i]);
        }
        lemma_portable_steps(fewer);
        assert(is_portable(names[names.len() - 1]));
        assert(steps(names) =~= names);
    } else {
        assert(steps(names) =~= names);
    }
}

proof fn lemma_between_is_plain(names: Seq<Seq<u8>>)
    requires
        are_portable(names),
    ensures
        !between(names, 47).contains(92u8),
        !between(names, 47).contains(58u8),
    decreases names.len(),
{
    if names.len() == 1 {
        assert(is_portable(names[0]));
    } else if names.len() > 1 {
        let fewer = names.drop_last();
        assert forall|i: int| 0 <= i < fewer.len() implies is_portable(#[trigger] fewer[i]) by {
            assert(fewer[i] == names[i]);
        }
        lemma_between_is_plain(fewer);
        assert(is_portable(names[names.len() - 1]));
        let first = between(fewer, 47);
        let whole = between(names, 47);
        assert forall|i: int| 0 <= i < whole.len() implies whole[i] != 92u8 && whole[i] != 58u8 by {
            if i < first.len() {
                assert(first.contains(first[i]));
            } else if i > first.len() {
                assert(names.last().contains(names.last()[i - first.len() - 1]));
            }
        }
    }
}

proof fn lemma_steps_add(a: Seq<Seq<u8>>, b: Seq<Seq<u8>>)
    ensures
        steps(a + b) == steps(a) + steps(b),
    decreases b.len(),
{
    if b.len() == 0 {
        assert(a + b =~= a);
        assert(steps(a + b) =~= steps(a) + steps(b));
    } else {
        assert((a + b).drop_last() =~= a + b.drop_last());
        lemma_steps_add(a, b.drop_last());
        assert(steps(a + b) =~= steps(a) + steps(b));
    }
}

proof fn lemma_no_steps()
    ensures
        steps(segments(Seq::empty())) == Seq::<Seq<u8>>::empty(),
{
    let one = segments(Seq::empty());
    assert(one.last() == Seq::<u8>::empty());
    assert(one.drop_last() =~= Seq::<Seq<u8>>::empty());
    assert(steps(one.drop_last()) == Seq::<Seq<u8>>::empty());
}

/// The path of names that mean the same everywhere, with slashes between them, means the
/// same path everywhere: the one of these names.
pub proof fn law_slashes_part_names(rooted: bool, names: Seq<Seq<u8>>)
    requires
        are_portable(names),
    ensures
        is_plain(spelled(rooted, names, 47)),
        plain_path(spelled(rooted, names, 47)) == path_of_names(rooted, names),
{
    let raw = spelled(rooted, names, 47);
    let inner = between(names, 47);
    lemma_between_is_plain(names);
    lemma_portable_steps(names);
    if names.len() > 0 {
        lemma_segments_between(names);
        assert(is_portable(names[0]));
        assert(names[0].contains(names[0][0]));
    }
    let none = Seq::<u8>::empty();
    if rooted {
        assert(raw =~= none + seq![47u8] + inner);
        lemma_segments_add(none, inner);
        assert forall|i: int| 0 <= i < raw.len() implies raw[i] != 92u8 && raw[i] != 58u8 by {
            if i > 0 {
                assert(inner.contains(inner[i - 1]));
            }
        }
        lemma_steps_add(segments(none), segments(inner));
        lemma_no_steps();
    }
    if names.len() == 0 {
        assert(inner =~= none);
        lemma_no_steps();
    }
    assert(plain_path(raw) =~= path_of_names(rooted, names));
}

/// A path of names that mean the same everywhere that was stored with slashes reads back as
/// it was, where it is read at all.
pub proof fn law_stored_paths_read_back(
    path: Seq<Seq<u8>>,
    raw: Seq<u8>,
    text: Seq<char>,
    rooted: bool,
    names: Seq<Seq<u8>>,
    read: Option<Seq<Seq<u8>>>,
)
    requires
        is_written(path, raw, text),
        are_portable(names),
        path == path_of_names(rooted, names),
        raw != spelled(rooted, names, 92),
        is_read(raw, read),
    ensures
        all_text(path) ==> read == Some(path),
        read matches Some(p) ==> p == path,
{
    assert(raw == spelled(rooted, names, 47));
    law_slashes_part_names(rooted, names);
    law_plain_paths_are_read(raw, read);
    if all_text(path) {
        vstd::utf8::encode_utf8_valid_utf8(text);
    }
}

} // verus!
