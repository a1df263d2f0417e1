//! Which names are valid, and what is made of those that are not.

use vstd::prelude::*;
#[allow(unused_imports)]
use crate::download::file_name::candidate;
#[allow(unused_imports)]
use crate::download::items::folder_name_of;
#[allow(unused_imports)]
use crate::utils::file_utils::{
    byte_len, cleaned, fit, is_device_name, name_problem, normalized, raw_name_problem, replaced,
    spec_is_invalid_filename_char, spec_is_reserved_dos_name, spec_is_windows_reject, spec_upper,
    stem, trimmed, windows_problem, NameProblem, TargetOs,
};
#[allow(unused_imports)]
use crate::utils::paths::{spec_join, spec_parent};
#[allow(unused_imports)]
use crate::utils::raw_paths::ComponentModel;
#[allow(unused_imports)]
use crate::utils::shared_file_map::{write_problem, WriteError};
#[allow(unused_imports)]
use crate::utils::valid_path::{
    part_problem, parts_problem, step_after, Look, SavePathStep,
};

verus! {

/// A text that is cut to fit is the longest beginning of the text that does.
pub proof fn law_texts_are_cut_no_more_than_needed(s: Seq<char>, limit: nat)
    ensures
        fit(s, limit).len() <= s.len(),
        fit(s, limit) == s.subrange(0, fit(s, limit).len() as int),
        byte_len(fit(s, limit)) <= limit || fit(s, limit).len() == 0,
        fit(s, limit).len() < s.len() ==> byte_len(
            s.subrange(0, fit(s, limit).len() as int + 1),
        ) > limit,
    decreases s.len(),
{
    assert(s.subrange(0, s.len() as int) =~= s);
    if !(byte_len(s) <= limit || s.len() == 0) {
        let rest = s.drop_last();
        law_texts_are_cut_no_more_than_needed(rest, limit);
        let n = fit(rest, limit).len() as int;
        assert(rest.subrange(0, n) =~= s.subrange(0, n));
        if n < rest.len() {
            assert(rest.subrange(0, n + 1) =~= s.subrange(0, n + 1));
        } else {
            assert(s.subrange(0, n + 1) =~= s);
        }
    }
}

/// What is left of a name without the dots and spaces at its end is all that stands before
/// them.
pub proof fn law_only_dots_and_spaces_are_trimmed(s: Seq<char>)
    ensures
        trimmed(s).len() <= s.len(),
        trimmed(s) == s.subrange(0, trimmed(s).len() as int),
        forall|i: int|
            trimmed(s).len() <= i < s.len() ==> #[trigger] s[i] == '.' || s[i] == ' ',
        trimmed(s).len() > 0 ==> trimmed(s).last() != '.' && trimmed(s).last() != ' ',
    decreases s.len(),
{
    if s.len() > 0 && (s.last() == '.' || s.last() == ' ') {
        let rest = s.drop_last();
        law_only_dots_and_spaces_are_trimmed(rest);
        let n = trimmed(rest).len() as int;
        assert(rest.subrange(0, n) =~= s.subrange(0, n));
        assert forall|i: int| n <= i < s.len() implies #[trigger] s[i] == '.' || s[i] == ' ' by {
            if i < rest.len() {
                assert(rest[i] == s[i]);
            }
        }
    } else {
        assert(s.subrange(0, s.len() as int) =~= s);
    }
}

proof fn lemma_stem(s: Seq<char>)
    ensures
        stem(s).len() <= s.len(),
        stem(s) == s.subrange(0, stem(s).len() as int),
        forall|i: int| 0 <= i < stem(s).len() ==> #[trigger] s[i] != '.',
        stem(s).len() < s.len() ==> s[stem(s).len() as int] == '.',
    decreases s.len(),
{
    if s.len() > 0 && s[0] != '.' {
        let rest = s.drop_first();
        lemma_stem(rest);
        let n = stem(s).len() as int;
        assert(stem(s) =~= s.subrange(0, n));
        assert forall|i: int| 0 <= i < n implies #[trigger] s[i] != '.' by {
            if i > 0 {
                assert(rest[i - 1] == s[i]);
            }
        }
        if n < s.len() {
            assert(rest[n - 1] == s[n]);
        }
    } else {
        assert(stem(s) =~= s.subrange(0, 0));
    }
}

/// Whether a character is a small letter or the big one of it, or just the same.
pub open spec fn is_letter(c: char, small: char) -> bool {
    c == small || ('a' <= small <= 'z' && c as int == small as int - 32)
}

/// Whether a text begins, in letters of any size, with three letters, and so up to its first
/// dot, but for a digit from one to nine where `numbered` says so.
pub open spec fn reads(s: Seq<char>, a: char, b: char, c: char, numbered: bool) -> bool {
    let n: int = if numbered {
        4
    } else {
        3
    };
    &&& s.len() >= n
    &&& is_letter(s[0], a) && is_letter(s[1], b) && is_letter(s[2], c)
    &&& numbered ==> '1' <= s[3] <= '9'
    &&& s.len() == n || s[n] == '.'
}

/// Whether a name is one of those that stand for devices.
pub open spec fn stands_for_a_device(s: Seq<char>) -> bool {
    ||| reads(s, 'c', 'o', 'n', false)
    ||| reads(s, 'p', 'r', 'n', false)
    ||| reads(s, 'a', 'u', 'x', false)
    ||| reads(s, 'n', 'u', 'l', false)
    ||| reads(s, 'c', 'o', 'm', true)
    ||| reads(s, 'l', 'p', 't', true)
}

proof fn lemma_upper(c: char, small: char)
    requires
        'a' <= small <= 'z',
    ensures
        spec_upper(c) as int == small as int - 32 <==> is_letter(c, small),
{
}

proof fn lemma_upper_digit(c: char)
    ensures
        '1' <= spec_upper(c) <= '9' <==> '1' <= c <= '9',
        '1' <= c <= '9' ==> spec_upper(c) == c,
{
}

/// The names that are reserved are those that stand for devices, in big letters or small
/// ones, whatever stands behind a dot.
pub proof fn law_device_names_are_reserved(s: Seq<char>)
    ensures
        spec_is_reserved_dos_name(s) <==> stands_for_a_device(s),
{
    lemma_stem(s);
    let w = stem(s);
    let big = w.map_values(|c: char| spec_upper(c));
    if w.len() >= 3 {
        assert(s[0] == w[0] && s[1] == w[1] && s[2] == w[2]);
        lemma_upper(w[0], 'c');
        lemma_upper(w[1], 'o');
        lemma_upper(w[2], 'n');
        lemma_upper(w[0], 'p');
        lemma_upper(w[1], 'r');
        lemma_upper(w[0], 'a');
        lemma_upper(w[1], 'u');
        lemma_upper(w[2], 'x');
        lemma_upper(w[0], 'n');
        lemma_upper(w[2], 'l');
        lemma_upper(w[2], 'm');
        lemma_upper(w[0], 'l');
        lemma_upper(w[1], 'p');
        lemma_upper(w[2], 't');
        if w.len() == 4 {
            assert(s[3] == w[3]);
            lemma_upper_digit(w[3]);
        }
    }
    if is_device_name(big) {
        assert(big.len() == w.len());
        assert(big.len() == 3 || big.len() == 4);
        assert(stands_for_a_device(s));
    }
    if stands_for_a_device(s) {
        assert(s[0] != '.' && s[1] != '.' && s[2] != '.');
        assert(w.len() >= 3) by {
            if w.len() < 3 {
                assert(s[w.len() as int] == '.');
            }
        }
        if reads(s, 'c', 'o', 'm', true) || reads(s, 'l', 'p', 't', true) {
            assert(w.len() == 4) by {
                if w.len() > 4 {
                    assert(s[4] != '.');
                }
                if w.len() == 3 {
                    assert(s[3] == '.');
                }
            }
        } else {
            assert(w.len() == 3) by {
                if w.len() > 3 {
                    assert(s[3] != '.');
                }
            }
            assert(big[0] == spec_upper(w[0]) && big[1] == spec_upper(w[1]) && big[2]
                == spec_upper(w[2]));
            if reads(s, 'c', 'o', 'n', false) {
                assert(big =~= seq!['C', 'O', 'N']);
            } else if reads(s, 'p', 'r', 'n', false) {
                assert(big =~= seq!['P', 'R', 'N']);
            } else if reads(s, 'a', 'u', 'x', false) {
                assert(big =~= seq!['A', 'U', 'X']);
            } else {
                assert(big =~= seq!['N', 'U', 'L']);
            }
        }
        assert(is_device_name(big));
    }
}

/// Whether a character has no place in a name.
pub open spec fn is_forbidden(target: TargetOs, c: char) -> bool {
    ||| c == '/'
    ||| c == '\0'
    ||| target is Windows && (c == '\\' || c == '<' || c == '>' || c == ':' || c == '"' || c == '|'
        || c == '?' || c == '*' || (c as int) < 32 || c as int == 127)
}

proof fn lemma_forbidden(target: TargetOs, c: char)
    ensures
        is_forbidden(target, c) == spec_is_invalid_filename_char(target, c),
        target is Windows && spec_is_windows_reject(c) ==> is_forbidden(target, c),
{
}

/// Whether a name can be given to a file.
pub open spec fn is_good_name(target: TargetOs, s: Seq<char>) -> bool {
    &&& s.len() > 0
    &&& byte_len(s) <= 255
    &&& !(s.len() == 1 && s[0] == '.')
    &&& !(s.len() == 2 && s[0] == '.' && s[1] == '.')
    &&& forall|i: int| 0 <= i < s.len() ==> !is_forbidden(target, #[trigger] s[i])
    &&& target is Windows ==> s.last() != ' ' && s.last() != '.' && !stands_for_a_device(s)
}

/// A name is refused if and only if it cannot be given to a file.
pub proof fn law_only_bad_names_are_refused(target: TargetOs, s: Seq<char>)
    ensures
        name_problem(target, s) is None <==> is_good_name(target, s),
{
    law_device_names_are_reserved(s);
    if name_problem(target, s) is None {
        assert forall|i: int| 0 <= i < s.len() implies !is_forbidden(target, #[trigger] s[i]) by {
            assert(s.contains(s[i]));
            lemma_forbidden(target, s[i]);
        }
        if s.len() == 1 && s[0] == '.' {
            assert(s =~= seq!['.']);
        }
        if s.len() == 2 && s[0] == '.' && s[1] == '.' {
            assert(s =~= seq!['.', '.']);
        }
    }
    if is_good_name(target, s) {
        if s.contains('/') {
            let i = choose|i: int| 0 <= i < s.len() && s[i] == '/';
            assert(is_forbidden(target, s[i]));
        }
        if s.contains('\0') {
            let i = choose|i: int| 0 <= i < s.len() && s[i] == '\0';
            assert(is_forbidden(target, s[i]));
        }
        if target is Windows && s.contains('\\') {
            let i = choose|i: int| 0 <= i < s.len() && s[i] == '\\';
            assert(is_forbidden(target, s[i]));
        }
        if target is Windows && exists|i: int|
            0 <= i < s.len() && spec_is_windows_reject(#[trigger] s[i]) {
            let i = choose|i: int| 0 <= i < s.len() && spec_is_windows_reject(#[trigger] s[i]);
            lemma_forbidden(target, s[i]);
            assert(is_forbidden(target, s[i]));
        }
    }
}

/// A name is refused for what is wrong with it.
pub proof fn law_names_are_refused_for_a_reason(target: TargetOs, s: Seq<char>)
    ensures
        match name_problem(target, s) {
            Some(NameProblem::Empty) => s.len() == 0,
            Some(NameProblem::NullByte) => s.contains('\0'),
            Some(NameProblem::RelativeMarker) => s == seq!['.'] || s == seq!['.', '.'],
            Some(NameProblem::ForwardSlash) => s.contains('/'),
            Some(NameProblem::TooLong) => byte_len(s) > 255,
            Some(NameProblem::BackwardSlash) => target is Windows && s.contains('\\'),
            Some(NameProblem::InvalidCharacters) => target is Windows && exists|i: int|
                0 <= i < s.len() && is_forbidden(target, #[trigger] s[i]),
            Some(NameProblem::EndsWithSpace) => target is Windows && s.last() == ' ',
            Some(NameProblem::EndsWithDot) => target is Windows && s.last() == '.',
            Some(NameProblem::Reserved) => target is Windows && stands_for_a_device(s),
            None => true,
        },
{
    law_device_names_are_reserved(s);
    if name_problem(target, s) == Some(NameProblem::InvalidCharacters) {
        let i = choose|i: int| 0 <= i < s.len() && spec_is_windows_reject(#[trigger] s[i]);
        lemma_forbidden(target, s[i]);
        assert(is_forbidden(target, s[i]));
    }
}

/// The name of raw bytes is judged like that of text: by its bytes as far as these can tell,
/// and by its text on Windows.
pub proof fn law_raw_names_are_judged_alike(target: TargetOs, bytes: Seq<u8>, text: Seq<char>)
    ensures
        match raw_name_problem(target, bytes, text) {
            Some(NameProblem::Empty) => bytes.len() == 0,
            Some(NameProblem::NullByte) => bytes.contains(0u8),
            Some(NameProblem::RelativeMarker) => bytes == seq![46u8] || bytes == seq![46u8, 46u8],
            Some(NameProblem::ForwardSlash) => bytes.contains(47u8),
            Some(NameProblem::TooLong) => bytes.len() > 255,
            Some(_) => target is Windows && windows_problem(text) is Some,
            None => {
                &&& 0 < bytes.len() <= 255
                &&& !bytes.contains(0u8) && !bytes.contains(47u8)
                &&& bytes != seq![46u8] && bytes != seq![46u8, 46u8]
                &&& target is Windows ==> windows_problem(text) is None
            },
        },
{
}

proof fn lemma_cleaned(target: TargetOs, s: Seq<char>)
    requires
        is_good_name(target, s),
    ensures
        cleaned(target, s) == s,
{
    law_device_names_are_reserved(s);
    law_only_dots_and_spaces_are_trimmed(s);
    assert forall|i: int| 0 <= i < s.len() implies replaced(target, s)[i] == s[i] by {
        assert(!is_forbidden(target, s[i]));
        lemma_forbidden(target, s[i]);
    }
    assert(replaced(target, s) =~= s);
    if target is Windows {
        assert(s[s.len() - 1] == s.last());
        assert(trimmed(s).len() == s.len());
        assert(trimmed(s) =~= s);
    }
}

/// A name that can be given to a file is left as it is.
pub proof fn law_good_names_are_kept(target: TargetOs, s: Seq<char>)
    requires
        is_good_name(target, s),
    ensures
        normalized(target, s) == s,
{
    lemma_cleaned(target, s);
}

/// A name is changed only where it must be: where a character is forbidden a line stands in
/// its place, and nothing else is changed but that the end is cut off; only a name that
/// would stand for a device has a line in front, and one of which nothing is left is a line.
pub proof fn law_names_are_changed_only_where_they_must(target: TargetOs, s: Seq<char>)
    ensures
        ({
            let name = normalized(target, s);
            ||| name == seq!['_']
            ||| {
                &&& name.len() <= s.len()
                &&& forall|i: int|
                    0 <= i < name.len() ==> #[trigger] name[i] == if is_forbidden(target, s[i]) {
                        '_'
                    } else {
                        s[i]
                    }
            }
            ||| {
                &&& target is Windows
                &&& name.len() > 0 && name[0] == '_' && name.len() <= s.len() + 1
                &&& forall|i: int|
                    1 <= i < name.len() ==> #[trigger] name[i] == if is_forbidden(
                        target,
                        s[i - 1],
                    ) {
                        '_'
                    } else {
                        s[i - 1]
                    }
            }
        }),
{
    let plain = replaced(target, s);
    law_texts_are_cut_no_more_than_needed(plain, 255);
    let fitted = fit(plain, 255);
    law_only_dots_and_spaces_are_trimmed(fitted);
    assert forall|i: int| 0 <= i < s.len() implies spec_is_invalid_filename_char(
        target,
        #[trigger] s[i],
    ) == is_forbidden(target, s[i]) by {
        lemma_forbidden(target, s[i]);
    }
    let short = trimmed(fitted);
    let marked = seq!['_'] + short;
    law_texts_are_cut_no_more_than_needed(marked, 255);
    law_only_dots_and_spaces_are_trimmed(fit(marked, 255));
    let name = cleaned(target, s);
    if target is Windows && spec_is_reserved_dos_name(short) {
        assert forall|i: int| 1 <= i < name.len() implies #[trigger] name[i] == if is_forbidden(
            target,
            s[i - 1],
        ) {
            '_'
        } else {
            s[i - 1]
        } by {
            assert(name[i] == marked[i]);
            assert(marked[i] == short[i - 1]);
        }
        if name.len() > 0 {
            assert(name[0] == marked[0]);
        }
    }
}

/// A path is refused for the first of its parts that is.
pub proof fn law_the_first_bad_part_is_told(target: TargetOs, parts: Seq<ComponentModel>)
    ensures
        match parts_problem(target, parts) {
            Some(problem) => exists|i: int|
                0 <= i < parts.len() && part_problem(target, #[trigger] parts[i]) == Some(problem)
                    && forall|j: int|
                    0 <= j < i ==> part_problem(target, #[trigger] parts[j]) is None,
            None => forall|j: int|
                0 <= j < parts.len() ==> part_problem(target, #[trigger] parts[j]) is None,
        },
    decreases parts.len(),
{
    if parts.len() > 0 {
        let rest = parts.drop_first();
        law_the_first_bad_part_is_told(target, rest);
        if part_problem(target, parts[0]) is None {
            if let Some(problem) = parts_problem(target, rest) {
                let i = choose|i: int|
                    0 <= i < rest.len() && part_problem(target, #[trigger] rest[i]) == Some(problem)
                        && forall|j: int|
                        0 <= j < i ==> part_problem(target, #[trigger] rest[j]) is None;
                assert(parts[i + 1] == rest[i]);
                assert forall|j: int| 0 <= j < i + 1 implies part_problem(
                    target,
                    #[trigger] parts[j],
                ) is None by {
                    if j > 0 {
                        assert(parts[j] == rest[j - 1]);
                    }
                }
            } else {
                assert forall|j: int| 0 <= j < parts.len() implies part_problem(
                    target,
                    #[trigger] parts[j],
                ) is None by {
                    if j > 0 {
                        assert(parts[j] == rest[j - 1]);
                    }
                }
            }
        }
    }
}

/// Only the parts of a path that are names can be refused, and they are as such.
pub proof fn law_only_names_are_judged(target: TargetOs, part: ComponentModel)
    ensures
        match part {
            ComponentModel::Normal(name) => part_problem(target, part) == name_problem(
                target,
                name,
            ),
            ComponentModel::Raw { bytes, text } => part_problem(target, part) == raw_name_problem(
                target,
                bytes,
                text,
            ),
            _ => part_problem(target, part) is None,
        },
{
}

/// A folder that is there can be saved to; one that is not can if the nearest one above it
/// that is there can be written to. What is no folder, or cannot be looked at, cannot, and
/// neither can a path of which nothing is there.
pub proof fn law_places_are_judged_by_what_is_there(level: usize, parents: usize, look: Look)
    requires
        level <= parents,
    ensures
        ({
            let step = step_after(level, parents, look);
            &&& step is Fine <==> look is Directory && level == 0
            &&& step matches SavePathStep::TryToWrite(n) ==> n == level
            &&& step is TryToWrite <==> look is Directory && level > 0
            &&& step is NotADirectory <==> look is Other
            &&& step matches SavePathStep::LookAt(n) ==> n == level + 1
            &&& step is LookAt <==> look is NotFound && level < parents
            &&& step is RootDoesNotExist <==> look is NotFound && level == parents
            &&& step is PermissionDenied <==> look is Failed
        }),
{
}

/// A write that does not fit the file is refused: with where it would end if that can be
/// told.
pub proof fn law_writes_past_the_end_are_refused(size: u64, offset: u64, len: usize)
    ensures
        match write_problem(size, offset, len) {
            Some(WriteError::Overflow) => offset + len > u64::MAX,
            Some(WriteError::OutOfBounds { size: told, end }) => told == size && end == offset + len
                && end > size,
            Some(_) => false,
            None => offset + len <= size,
        },
{
}

/// A name that is joined to a path is the last part, and the path is what is around it.
pub proof fn law_names_are_joined_at_the_end(path: Seq<Seq<u8>>, name: Seq<char>)
    ensures
        spec_join(path, name).len() == path.len() + 1,
        spec_join(path, name).subrange(0, path.len() as int) == path,
        spec_join(path, name).last() == vstd::utf8::encode_utf8(name),
        spec_parent(path) matches Some(around) ==> path.len() > 0 && around == path.subrange(
            0,
            path.len() - 1,
        ),
        path.len() == 0 ==> spec_parent(path) is None,
{
    assert(spec_join(path, name).subrange(0, path.len() as int) =~= path);
}

/// A folder that is named well keeps its name, and so does a file.
pub proof fn law_well_named_things_keep_their_names(target: TargetOs, name: Seq<char>)
    requires
        is_good_name(target, name),
    ensures
        folder_name_of(target, name) == name,
        candidate(target, Some(name)) == Some(name),
{
    lemma_cleaned(target, name);
}

} // verus!
