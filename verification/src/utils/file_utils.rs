//! What may be the name of a file or a folder, and how other text is made one.

use vstd::prelude::*;
#[allow(unused_imports)]
use vstd::utf8::encode_utf8;
use crate::utils::text::{chars_of, string_of};
#[allow(unused_imports)]
use crate::utils::text::lemma_contains_push;

verus! {

/// The most bytes that a name may have.
pub const MAX_NAME_BYTES: usize = 255;

/// The family of operating systems whose rules a name has to follow.
#[derive(Debug, Clone, Copy, PartialEq, Eq, Structural)]
pub enum TargetOs {
    Unix,
    Windows,
}

/// Why text cannot be the name of a file or a folder.
#[derive(Debug, Clone)]
pub enum InvalidFilename {
    Empty,
    ContainsNullByte,
    /// The name is `.` or `..`.
    RelativeMarkers,
    ContainsForwardSlash,
    TooLong,
    Window(InvalidWindowsFilename),
}

/// Why text that is a name elsewhere is none on Windows.
#[derive(Debug, Clone)]
pub enum InvalidWindowsFilename {
    ContainsBackwardSlash,
    /// The offending characters, each once, in the order in which they appear.
    InvalidCharacters(Vec<char>),
    EndsWithSpace,
    EndsWithDot,
    ReservedName(String),
}

/// The rules that a name can break, in the order in which they are looked at.
pub enum NameProblem {
    Empty,
    NullByte,
    RelativeMarker,
    ForwardSlash,
    TooLong,
    BackwardSlash,
    InvalidCharacters,
    EndsWithSpace,
    EndsWithDot,
    Reserved,
}

/// The rule that an error speaks of.
pub open spec fn problem_of(e: InvalidFilename) -> NameProblem {
    match e {
        InvalidFilename::Empty => NameProblem::Empty,
        InvalidFilename::ContainsNullByte => NameProblem::NullByte,
        InvalidFilename::RelativeMarkers => NameProblem::RelativeMarker,
        InvalidFilename::ContainsForwardSlash => NameProblem::ForwardSlash,
        InvalidFilename::TooLong => NameProblem::TooLong,
        InvalidFilename::Window(w) => match w {
            InvalidWindowsFilename::ContainsBackwardSlash => NameProblem::BackwardSlash,
            InvalidWindowsFilename::InvalidCharacters(_) => NameProblem::InvalidCharacters,
            InvalidWindowsFilename::EndsWithSpace => NameProblem::EndsWithSpace,
            InvalidWindowsFilename::EndsWithDot => NameProblem::EndsWithDot,
            InvalidWindowsFilename::ReservedName(_) => NameProblem::Reserved,
        },
    }
}

/// What a reader is told of an error, unless it quotes what is wrong.
pub open spec fn name_error_text(e: InvalidFilename) -> Option<Seq<char>> {
    match e {
        InvalidFilename::Empty => Some("The filename can not be empty"@),
        InvalidFilename::ContainsNullByte => Some("The filename can not contain a null byte"@),
        InvalidFilename::RelativeMarkers => Some(
            "The filename can not be a relative marker (e.g. '.' or '..')"@,
        ),
        InvalidFilename::ContainsForwardSlash => Some(
            "The filename can not contain a slash '/'"@,
        ),
        InvalidFilename::TooLong => Some("The filename can not be longer than 255-bytes"@),
        InvalidFilename::Window(w) => match w {
            InvalidWindowsFilename::ContainsBackwardSlash => Some(
                "The filename can not contain a backward slash '\\'"@,
            ),
            InvalidWindowsFilename::EndsWithSpace => Some(
                "The filename can not end with a space"@,
            ),
            InvalidWindowsFilename::EndsWithDot => Some("The filename can not end with a dot"@),
            InvalidWindowsFilename::InvalidCharacters(_) => None,
            InvalidWindowsFilename::ReservedName(_) => None,
        },
    }
}

impl InvalidFilename {
    /// What a reader is told, unless it quotes what is wrong.
    pub fn describe(&self) -> (r: Option<&'static str>)
        ensures
            match r {
                Some(text) => name_error_text(*self) == Some(text@),
                None => name_error_text(*self).is_none(),
            },
    {
        match self {
            InvalidFilename::Empty => Some("The filename can not be empty"),
            InvalidFilename::ContainsNullByte => Some("The filename can not contain a null byte"),
            InvalidFilename::RelativeMarkers => Some(
                "The filename can not be a relative marker (e.g. '.' or '..')",
            ),
            InvalidFilename::ContainsForwardSlash => Some(
                "The filename can not contain a slash '/'",
            ),
            InvalidFilename::TooLong => Some("The filename can not be longer than 255-bytes"),
            InvalidFilename::Window(w) => match w {
                InvalidWindowsFilename::ContainsBackwardSlash => Some(
                    "The filename can not contain a backward slash '\\'",
                ),
                InvalidWindowsFilename::EndsWithSpace => Some(
                    "The filename can not end with a space",
                ),
                InvalidWindowsFilename::EndsWithDot => Some("The filename can not end with a dot"),
                InvalidWindowsFilename::InvalidCharacters(_) => None,
                InvalidWindowsFilename::ReservedName(_) => None,
            },
        }
    }
}

/// How many bytes a text takes as UTF-8.
pub open spec fn byte_len(s: Seq<char>) -> nat {
    encode_utf8(s).len()
}

/// How many bytes a character takes as UTF-8.
pub open spec fn char_bytes(c: char) -> nat {
    if c as u32 <= 0x7f {
        1
    } else if c as u32 <= 0x7ff {
        2
    } else if c as u32 <= 0xffff {
        3
    } else {
        4
    }
}

/// A text grows by the bytes of the character that is put behind it.
pub proof fn lemma_byte_len_push(s: Seq<char>, c: char)
    ensures
        byte_len(s.push(c)) == byte_len(s) + char_bytes(c),
    decreases s.len(),
{
    if s.len() == 0 {
        assert(s.push(c).drop_first() =~= Seq::<char>::empty());
        assert(encode_utf8(s.push(c).drop_first()).len() == 0);
        assert(s.push(c)[0] == c);
    } else {
        assert(s.push(c).drop_first() =~= s.drop_first().push(c));
        lemma_byte_len_push(s.drop_first(), c);
    }
}

/// A text has at least one byte for each of its characters and at most four.
pub proof fn lemma_byte_len_bounds(s: Seq<char>)
    ensures
        s.len() <= byte_len(s) <= 4 * s.len(),
    decreases s.len(),
{
    if s.len() > 0 {
        assert(s.drop_last().push(s.last()) =~= s);
        lemma_byte_len_push(s.drop_last(), s.last());
        lemma_byte_len_bounds(s.drop_last());
    }
}

/// The longest beginning of `s` that takes no more than `limit` bytes.
pub open spec fn fit(s: Seq<char>, limit: nat) -> Seq<char>
    decreases s.len(),
{
    if byte_len(s) <= limit || s.len() == 0 {
        s
    } else {
        fit(s.drop_last(), limit)
    }
}

/// What `fit` gives is a beginning of the text, fits, and is all of a text that
/// fits.
pub proof fn lemma_fit(s: Seq<char>, limit: nat)
    ensures
        fit(s, limit).len() <= s.len(),
        fit(s, limit) == s.take(fit(s, limit).len() as int),
        byte_len(fit(s, limit)) <= limit,
        byte_len(s) <= limit ==> fit(s, limit) == s,
        (s.len() > 0 && limit >= 4) ==> fit(s, limit).len() > 0,
    decreases s.len(),
{
    lemma_byte_len_bounds(s);
    if !(byte_len(s) <= limit || s.len() == 0) {
        lemma_fit(s.drop_last(), limit);
        assert(s.drop_last().take(fit(s, limit).len() as int) =~= s.take(
            fit(s, limit).len() as int,
        ));
    } else {
        assert(s.take(s.len() as int) =~= s);
    }
}

/// Whether a character is one of ASCII's control characters.
pub open spec fn spec_is_control(c: char) -> bool {
    c as u32 <= 0x1f || c as u32 == 0x7f
}

/// Whether a character is refused in names on Windows, apart from the slashes.
pub open spec fn spec_is_windows_reject(c: char) -> bool {
    spec_is_control(c) || c == '<' || c == '>' || c == ':' || c == '"' || c == '|' || c == '?' || c
        == '*'
}

/// Whether a character cannot stand in a name on `target`.
pub open spec fn spec_is_invalid_filename_char(target: TargetOs, c: char) -> bool {
    match target {
        TargetOs::Unix => c == '/' || c == '\0',
        TargetOs::Windows => c == '/' || c == '\\' || spec_is_windows_reject(c),
    }
}

fn is_windows_reject(c: char) -> (r: bool)
    ensures
        r == spec_is_windows_reject(c),
{
    let code: u32 = c as u32;
    code <= 0x1f || code == 0x7f || c == '<' || c == '>' || c == ':' || c == '"' || c == '|' || c
        == '?' || c == '*'
}

/// Whether a character cannot stand in a name on `target`.
pub fn is_invalid_filename_char(target: TargetOs, c: char) -> (r: bool)
    ensures
        r == spec_is_invalid_filename_char(target, c),
{
    match target {
        TargetOs::Unix => c == '/' || c == '\0',
        TargetOs::Windows => c == '/' || c == '\\' || is_windows_reject(c),
    }
}

/// The text with every character that `target` refuses replaced.
pub open spec fn replaced(target: TargetOs, s: Seq<char>) -> Seq<char> {
    Seq::new(
        s.len(),
        |i: int|
            if spec_is_invalid_filename_char(target, s[i]) {
                '_'
            } else {
                s[i]
            },
    )
}

/// The text without the dots and spaces at its end.
pub open spec fn trimmed(s: Seq<char>) -> Seq<char>
    decreases s.len(),
{
    if s.len() > 0 && (s.last() == '.' || s.last() == ' ') {
        trimmed(s.drop_last())
    } else {
        s
    }
}

proof fn lemma_trimmed(s: Seq<char>)
    ensures
        trimmed(s).len() <= s.len(),
        trimmed(s) == s.take(trimmed(s).len() as int),
        trimmed(s).len() > 0 ==> trimmed(s).last() != '.' && trimmed(s).last() != ' ',
        (s.len() == 0 || (s.last() != '.' && s.last() != ' ')) ==> trimmed(s) == s,
    decreases s.len(),
{
    if s.len() > 0 && (s.last() == '.' || s.last() == ' ') {
        lemma_trimmed(s.drop_last());
        assert(s.drop_last().take(trimmed(s).len() as int) =~= s.take(trimmed(s).len() as int));
    } else {
        assert(s.take(s.len() as int) =~= s);
    }
}

/// An ASCII letter in upper case, and any other character as it is.
pub open spec fn spec_upper(c: char) -> char {
    if 'a' <= c <= 'z' {
        ((c as u32 - 32) as u32) as char
    } else {
        c
    }
}

/// What stands in front of the first dot.
pub open spec fn stem(s: Seq<char>) -> Seq<char>
    decreases s.len(),
{
    if s.len() == 0 || s[0] == '.' {
        Seq::empty()
    } else {
        seq![s[0]] + stem(s.drop_first())
    }
}

/// Whether an upper-case stem is the name of a DOS device.
pub open spec fn is_device_name(s: Seq<char>) -> bool {
    ||| s =~= seq!['C', 'O', 'N']
    ||| s =~= seq!['P', 'R', 'N']
    ||| s =~= seq!['A', 'U', 'X']
    ||| s =~= seq!['N', 'U', 'L']
    ||| s.len() == 4 && s[0] == 'C' && s[1] == 'O' && s[2] == 'M' && '1' <= s[3] <= '9'
    ||| s.len() == 4 && s[0] == 'L' && s[1] == 'P' && s[2] == 'T' && '1' <= s[3] <= '9'
}

/// Whether a name is that of a DOS device: with or without an extension, and in
/// upper or lower case.
pub open spec fn spec_is_reserved_dos_name(s: Seq<char>) -> bool {
    is_device_name(stem(s).map_values(|c: char| spec_upper(c)))
}

/// What is left of a text for a name: what `target` refuses is replaced and the end
/// is cut off behind 255 bytes; on Windows, dots and spaces at the end go, and a
/// device's name gets an underscore in front.
pub open spec fn cleaned(target: TargetOs, s: Seq<char>) -> Seq<char> {
    let fitted = fit(replaced(target, s), MAX_NAME_BYTES as nat);
    match target {
        TargetOs::Unix => fitted,
        TargetOs::Windows => {
            let plain = trimmed(fitted);
            if spec_is_reserved_dos_name(plain) {
                trimmed(fit(seq!['_'] + plain, MAX_NAME_BYTES as nat))
            } else {
                plain
            }
        },
    }
}

/// Whether a text is nothing, or one of the two relative markers.
pub open spec fn names_nothing(s: Seq<char>) -> bool {
    s.len() == 0 || s =~= seq!['.'] || s =~= seq!['.', '.']
}

/// What `normalize_filename` makes of a text: what is left of it for a name, or an
/// underscore if that names nothing. Empty text stays empty.
pub open spec fn normalized(target: TargetOs, s: Seq<char>) -> Seq<char> {
    if s.len() > 0 && names_nothing(cleaned(target, s)) {
        seq!['_']
    } else {
        cleaned(target, s)
    }
}

fn char_width(c: char) -> (n: usize)
    ensures
        n as nat == char_bytes(c),
        1 <= n <= 4,
{
    let code: u32 = c as u32;
    if code <= 0x7f {
        1
    } else if code <= 0x7ff {
        2
    } else if code <= 0xffff {
        3
    } else {
        4
    }
}

/// How many of the leading characters fit into `limit` bytes.
fn fit_len(chars: &Vec<char>, limit: usize) -> (n: usize)
    requires
        limit <= 1024,
    ensures
        n <= chars@.len(),
        fit(chars@, limit as nat) == chars@.take(n as int),
{
    let mut n: usize = 0;
    let mut bytes: usize = 0;
    while n < chars.len() && bytes <= limit
        invariant
            n <= chars@.len(),
            limit <= 1024,
            bytes <= limit + 4,
            bytes as nat == byte_len(chars@.take(n as int)),
            n > 0 ==> byte_len(chars@.take(n - 1)) <= limit,
        decreases chars@.len() - n,
    {
        proof {
            assert(chars@.take(n + 1) =~= chars@.take(n as int).push(chars@[n as int]));
            lemma_byte_len_push(chars@.take(n as int), chars@[n as int]);
        }
        bytes += char_width(chars[n]);
        n += 1;
    }
    if bytes > limit {
        // The last character was one too many, and so is everything behind it.
        proof {
            lemma_byte_len_bounds(chars@.take(n as int));
            lemma_fit_of_longer(chars@, n as int, limit as nat);
            assert(chars@.take(n as int).drop_last() =~= chars@.take(n - 1));
            assert(fit(chars@.take(n - 1), limit as nat) == chars@.take(n - 1));
        }
        n - 1
    } else {
        assert(chars@.take(n as int) =~= chars@);
        n
    }
}

/// Where a beginning is already too long, the rest of the text plays no part.
proof fn lemma_fit_of_longer(s: Seq<char>, n: int, limit: nat)
    requires
        0 < n <= s.len(),
        byte_len(s.take(n)) > limit,
    ensures
        fit(s, limit) == fit(s.take(n), limit),
    decreases s.len(),
{
    if n == s.len() {
        assert(s.take(n) =~= s);
    } else {
        let t = s.drop_last();
        assert(t.take(n) =~= s.take(n));
        assert(t.push(s.last()) =~= s);
        lemma_byte_len_push(t, s.last());
        lemma_prefix_is_shorter(t, n);
        lemma_fit_of_longer(t, n, limit);
    }
}

proof fn lemma_prefix_is_shorter(s: Seq<char>, n: int)
    requires
        0 <= n <= s.len(),
    ensures
        byte_len(s.take(n)) <= byte_len(s),
    decreases s.len(),
{
    if n == s.len() {
        assert(s.take(n) =~= s);
    } else {
        let t = s.drop_last();
        assert(t.take(n) =~= s.take(n));
        assert(t.push(s.last()) =~= s);
        lemma_byte_len_push(t, s.last());
        lemma_prefix_is_shorter(t, n);
    }
}

/// How many of the leading characters are left without dots and spaces at the end.
fn trimmed_len(chars: &Vec<char>) -> (n: usize)
    ensures
        n <= chars@.len(),
        trimmed(chars@) == chars@.take(n as int),
{
    let mut n: usize = chars.len();
    assert(chars@.take(n as int) =~= chars@);
    while n > 0 && (chars[n - 1] == '.' || chars[n - 1] == ' ')
        invariant
            n <= chars@.len(),
            trimmed(chars@) == trimmed(chars@.take(n as int)),
        decreases n,
    {
        proof {
            assert(chars@.take(n as int).last() == chars@[n - 1]);
            assert(chars@.take(n as int).drop_last() =~= chars@.take(n - 1));
        }
        n -= 1;
    }
    proof {
        if n > 0 {
            assert(chars@.take(n as int).last() == chars@[n - 1]);
        }
    }
    n
}

fn upper(c: char) -> (r: char)
    ensures
        r == spec_upper(c),
{
    if 'a' <= c && c <= 'z' {
        let code: u8 = c as u8;
        (code - 32) as char
    } else {
        c
    }
}

proof fn lemma_stem_prefix(s: Seq<char>, n: int)
    requires
        0 <= n <= s.len(),
        forall|i: int| 0 <= i < n ==> s[i] != '.',
        n == s.len() || s[n] == '.',
    ensures
        stem(s) == s.take(n),
    decreases s.len(),
{
    if n > 0 {
        lemma_stem_prefix(s.drop_first(), n - 1);
        assert(seq![s[0]] + s.drop_first().take(n - 1) =~= s.take(n));
    } else {
        assert(s.take(0) =~= Seq::<char>::empty());
    }
}

/// Whether a name is that of a DOS device, which Windows keeps for itself: with
/// or without an extension, in upper or lower case.
pub fn is_reserved_dos_name(name: &str) -> (r: bool)
    ensures
        r == spec_is_reserved_dos_name(name@),
{
    let chars = chars_of(name);
    is_reserved_chars(&chars)
}

fn is_reserved_chars(chars: &Vec<char>) -> (r: bool)
    ensures
        r == spec_is_reserved_dos_name(chars@),
{
    let mut up: Vec<char> = Vec::new();
    let mut i: usize = 0;
    while i < chars.len() && chars[i] != '.'
        invariant
            i <= chars@.len(),
            up@ == chars@.take(i as int).map_values(|c: char| spec_upper(c)),
            forall|j: int| 0 <= j < i ==> chars@[j] != '.',
        decreases chars@.len() - i,
    {
        up.push(upper(chars[i]));
        i += 1;
        assert(up@ =~= chars@.take(i as int).map_values(|c: char| spec_upper(c)));
    }
    proof {
        lemma_stem_prefix(chars@, i as int);
    }
    if up.len() == 3 {
        (up[0] == 'C' && up[1] == 'O' && up[2] == 'N') || (up[0] == 'P' && up[1] == 'R' && up[2]
            == 'N') || (up[0] == 'A' && up[1] == 'U' && up[2] == 'X') || (up[0] == 'N' && up[1]
            == 'U' && up[2] == 'L')
    } else if up.len() == 4 {
        let numbered = '1' <= up[3] && up[3] <= '9';
        numbered && ((up[0] == 'C' && up[1] == 'O' && up[2] == 'M') || (up[0] == 'L' && up[1] == 'P'
            && up[2] == 'T'))
    } else {
        false
    }
}

fn prefix(chars: &Vec<char>, n: usize) -> (v: Vec<char>)
    requires
        n <= chars@.len(),
    ensures
        v@ == chars@.take(n as int),
{
    let mut v: Vec<char> = Vec::new();
    let mut i: usize = 0;
    while i < n
        invariant
            i <= n <= chars@.len(),
            v@ == chars@.take(i as int),
        decreases n - i,
    {
        v.push(chars[i]);
        i += 1;
    }
    v
}

/// What is left of a text for a name.
fn clean_chars(chars: &Vec<char>, target: TargetOs) -> (r: Vec<char>)
    ensures
        r@ == cleaned(target, chars@),
{
    let mut safe: Vec<char> = Vec::new();
    let mut i: usize = 0;
    while i < chars.len()
        invariant
            i <= chars@.len(),
            safe@ == replaced(target, chars@).take(i as int),
        decreases chars@.len() - i,
    {
        let c = chars[i];
        if is_invalid_filename_char(target, c) {
            safe.push('_');
        } else {
            safe.push(c);
        }
        i += 1;
        assert(safe@ =~= replaced(target, chars@).take(i as int));
    }
    assert(safe@ =~= replaced(target, chars@));
    let kept: usize = fit_len(&safe, MAX_NAME_BYTES);
    let fitted = prefix(&safe, kept);
    match target {
        TargetOs::Unix => fitted,
        TargetOs::Windows => {
            let plain_len: usize = trimmed_len(&fitted);
            let plain = prefix(&fitted, plain_len);
            if is_reserved_chars(&plain) {
                let mut marked: Vec<char> = Vec::new();
                marked.push('_');
                let mut j: usize = 0;
                while j < plain.len()
                    invariant
                        j <= plain@.len(),
                        marked@ == seq!['_'] + plain@.take(j as int),
                    decreases plain@.len() - j,
                {
                    marked.push(plain[j]);
                    j += 1;
                    assert(marked@ =~= seq!['_'] + plain@.take(j as int));
                }
                assert(marked@ =~= seq!['_'] + plain@);
                let marked_len: usize = fit_len(&marked, MAX_NAME_BYTES);
                let marked = prefix(&marked, marked_len);
                let end: usize = trimmed_len(&marked);
                prefix(&marked, end)
            } else {
                plain
            }
        },
    }
}

fn are_nothing(name: &Vec<char>) -> (r: bool)
    ensures
        r == names_nothing(name@),
{
    let n: usize = name.len();
    n == 0 || (n == 1 && name[0] == '.') || (n == 2 && name[0] == '.' && name[1] == '.')
}

/// Whether what is left of a text for a name is nothing, or a relative marker.
pub fn leaves_no_name(text: &str, target: TargetOs) -> (r: bool)
    ensures
        r == names_nothing(cleaned(target, text@)),
{
    let chars = chars_of(text);
    let name = clean_chars(&chars, target);
    are_nothing(&name)
}

/// Makes a text a name that is valid on `target`; empty text stays empty.
pub fn normalize_filename(filename: &str, target: TargetOs) -> (r: String)
    ensures
        r@ == normalized(target, filename@),
        filename@.len() > 0 ==> name_problem(target, r@).is_none(),
        filename@.len() == 0 ==> r@.len() == 0,
{
    let chars = chars_of(filename);
    let name = clean_chars(&chars, target);
    proof {
        law_normalize_keeps_emptiness(target, filename@);
        if filename@.len() > 0 {
            law_normalized_is_valid(target, filename@);
        }
    }
    let n: usize = name.len();
    if chars.len() > 0 && are_nothing(&name) {
        let mut r = String::new();
        r.push('_');
        assert(r@ =~= seq!['_']);
        r
    } else {
        assert(name@.subrange(0, n as int) =~= name@);
        string_of(&name, 0, n)
    }
}

/// The first rule of Windows that a name breaks.
pub open spec fn windows_problem(s: Seq<char>) -> Option<NameProblem> {
    if s.contains('\\') {
        Some(NameProblem::BackwardSlash)
    } else if exists|i: int| 0 <= i < s.len() && spec_is_windows_reject(#[trigger] s[i]) {
        Some(NameProblem::InvalidCharacters)
    } else if s.len() > 0 && s.last() == ' ' {
        Some(NameProblem::EndsWithSpace)
    } else if s.len() > 0 && s.last() == '.' {
        Some(NameProblem::EndsWithDot)
    } else if spec_is_reserved_dos_name(s) {
        Some(NameProblem::Reserved)
    } else {
        None
    }
}

/// The first rule that a name breaks on `target`, if it breaks one.
pub open spec fn name_problem(target: TargetOs, s: Seq<char>) -> Option<NameProblem> {
    if s.len() == 0 {
        Some(NameProblem::Empty)
    } else if s.contains('\0') {
        Some(NameProblem::NullByte)
    } else if s =~= seq!['.'] || s =~= seq!['.', '.'] {
        Some(NameProblem::RelativeMarker)
    } else if s.contains('/') {
        Some(NameProblem::ForwardSlash)
    } else if byte_len(s) > MAX_NAME_BYTES {
        Some(NameProblem::TooLong)
    } else {
        match target {
            TargetOs::Unix => None,
            TargetOs::Windows => windows_problem(s),
        }
    }
}

/// The first rule that a name given as raw bytes breaks on `target`. The rules of every
/// target are held against its bytes, those of Windows against what of it is text.
pub open spec fn raw_name_problem(target: TargetOs, s: Seq<u8>, text: Seq<char>) -> Option<
    NameProblem,
> {
    if s.len() == 0 {
        Some(NameProblem::Empty)
    } else if s.contains(0u8) {
        Some(NameProblem::NullByte)
    } else if s =~= seq![46u8] || s =~= seq![46u8, 46u8] {
        Some(NameProblem::RelativeMarker)
    } else if s.contains(47u8) {
        Some(NameProblem::ForwardSlash)
    } else if s.len() > MAX_NAME_BYTES {
        Some(NameProblem::TooLong)
    } else {
        match target {
            TargetOs::Unix => None,
            TargetOs::Windows => windows_problem(text),
        }
    }
}

fn has_char(chars: &Vec<char>, c: char) -> (r: bool)
    ensures
        r == chars@.contains(c),
{
    let mut i: usize = 0;
    while i < chars.len()
        invariant
            i <= chars@.len(),
            forall|j: int| 0 <= j < i ==> chars@[j] != c,
        decreases chars@.len() - i,
    {
        if chars[i] == c {
            assert(chars@[i as int] == c);
            return true;
        }
        i += 1;
    }
    false
}

fn has_byte(bytes: &[u8], b: u8) -> (r: bool)
    ensures
        r == bytes@.contains(b),
{
    let mut i: usize = 0;
    while i < bytes.len()
        invariant
            i <= bytes@.len(),
            forall|j: int| 0 <= j < i ==> bytes@[j] != b,
        decreases bytes@.len() - i,
    {
        if bytes[i] == b {
            assert(bytes@[i as int] == b);
            return true;
        }
        i += 1;
    }
    false
}

/// The characters that Windows refuses, each once, in the order in which they
/// first appear.
fn windows_rejects(chars: &Vec<char>) -> (found: Vec<char>)
    ensures
        found@.no_duplicates(),
        forall|c: char| #[trigger]
            found@.contains(c) <==> chars@.contains(c) && spec_is_windows_reject(c),
{
    let mut found: Vec<char> = Vec::new();
    let mut i: usize = 0;
    while i < chars.len()
        invariant
            i <= chars@.len(),
            found@.no_duplicates(),
            forall|c: char| #[trigger]
                found@.contains(c) <==> chars@.take(i as int).contains(c)
                    && spec_is_windows_reject(c),
        decreases chars@.len() - i,
    {
        let c = chars[i];
        let ghost before = found@;
        assert(chars@.take(i + 1) =~= chars@.take(i as int).push(c));
        if is_windows_reject(c) && !has_char(&found, c) {
            found.push(c);
        }
        proof {
            assert forall|d: char| #[trigger] found@.contains(d) <==> chars@.take(i + 1).contains(d)
                && spec_is_windows_reject(d) by {
                let prefix = chars@.take(i as int);
                assert(before.contains(d) <==> prefix.contains(d) && spec_is_windows_reject(d));
                lemma_contains_push(prefix, c, d);
                lemma_contains_push(before, c, d);
            }
        }
        i += 1;
    }
    assert(chars@.take(chars@.len() as int) =~= chars@);
    found
}

/// Whether `name` can be the name of a file or a folder on `target`, and if not,
/// which rule it breaks first.
pub fn is_valid_file_name(name: &str, target: TargetOs) -> (r: Result<(), InvalidFilename>)
    ensures
        match r {
            Ok(()) => name_problem(target, name@).is_none(),
            Err(e) => name_problem(target, name@) == Some(problem_of(e)),
        },
        r matches Err(InvalidFilename::Window(InvalidWindowsFilename::InvalidCharacters(found)))
            ==> found@.no_duplicates() && forall|c: char| #[trigger]
            found@.contains(c) <==> name@.contains(c) && spec_is_windows_reject(c),
        r matches Err(InvalidFilename::Window(InvalidWindowsFilename::ReservedName(text)))
            ==> text@ == name@,
{
    let chars = chars_of(name);
    let n: usize = chars.len();
    if n == 0 {
        return Err(InvalidFilename::Empty);
    }
    if has_char(&chars, '\0') {
        return Err(InvalidFilename::ContainsNullByte);
    }
    if (n == 1 && chars[0] == '.') || (n == 2 && chars[0] == '.' && chars[1] == '.') {
        return Err(InvalidFilename::RelativeMarkers);
    }
    if has_char(&chars, '/') {
        return Err(InvalidFilename::ContainsForwardSlash);
    }
    let kept: usize = fit_len(&chars, MAX_NAME_BYTES);
    proof {
        lemma_fit(chars@, MAX_NAME_BYTES as nat);
        assert(chars@.take(kept as int).len() == kept);
        assert(chars@.take(n as int) =~= chars@);
    }
    if kept < n {
        return Err(InvalidFilename::TooLong);
    }
    match target {
        TargetOs::Unix => Ok(()),
        TargetOs::Windows => match check_windows_name(name, &chars) {
            Ok(()) => Ok(()),
            Err(e) => Err(InvalidFilename::Window(e)),
        },
    }
}

fn check_windows_name(name: &str, chars: &Vec<char>) -> (r: Result<(), InvalidWindowsFilename>)
    requires
        chars@ == name@,
    ensures
        match r {
            Ok(()) => windows_problem(name@).is_none(),
            Err(e) => windows_problem(name@) == Some(problem_of(InvalidFilename::Window(e))),
        },
        r matches Err(InvalidWindowsFilename::InvalidCharacters(found)) ==> found@.no_duplicates()
            && forall|c: char| #[trigger]
            found@.contains(c) <==> name@.contains(c) && spec_is_windows_reject(c),
        r matches Err(InvalidWindowsFilename::ReservedName(text)) ==> text@ == name@,
{
    let n: usize = chars.len();
    if has_char(chars, '\\') {
        return Err(InvalidWindowsFilename::ContainsBackwardSlash);
    }
    let found = windows_rejects(chars);
    if found.len() > 0 {
        proof {
            assert(found@.contains(found@[0]));
            let k = choose|k: int| 0 <= k < chars@.len() && chars@[k] == found@[0];
            assert(spec_is_windows_reject(name@[k]));
        }
        return Err(InvalidWindowsFilename::InvalidCharacters(found));
    }
    proof {
        assert forall|i: int| 0 <= i < name@.len() implies !spec_is_windows_reject(
            #[trigger] name@[i],
        ) by {
            assert(name@.contains(name@[i]));
            assert(!found@.contains(name@[i]));
        }
    }
    if n > 0 && chars[n - 1] == ' ' {
        return Err(InvalidWindowsFilename::EndsWithSpace);
    }
    if n > 0 && chars[n - 1] == '.' {
        return Err(InvalidWindowsFilename::EndsWithDot);
    }
    if is_reserved_chars(chars) {
        return Err(InvalidWindowsFilename::ReservedName(name.to_owned()));
    }
    Ok(())
}

/// As `is_valid_file_name`, for a name that is no text. `text` is the name with
/// replacement characters for what of it is no text.
pub fn is_valid_raw_name(name: &[u8], text: &str, target: TargetOs) -> (r: Result<
    (),
    InvalidFilename,
>)
    ensures
        match r {
            Ok(()) => raw_name_problem(target, name@, text@).is_none(),
            Err(e) => raw_name_problem(target, name@, text@) == Some(problem_of(e)),
        },
        r matches Err(InvalidFilename::Window(InvalidWindowsFilename::InvalidCharacters(found)))
            ==> found@.no_duplicates() && forall|c: char| #[trigger]
            found@.contains(c) <==> text@.contains(c) && spec_is_windows_reject(c),
        r matches Err(InvalidFilename::Window(InvalidWindowsFilename::ReservedName(reserved)))
            ==> reserved@ == text@,
{
    let n: usize = name.len();
    if n == 0 {
        return Err(InvalidFilename::Empty);
    }
    if has_byte(name, 0) {
        return Err(InvalidFilename::ContainsNullByte);
    }
    if (n == 1 && name[0] == 46) || (n == 2 && name[0] == 46 && name[1] == 46) {
        return Err(InvalidFilename::RelativeMarkers);
    }
    if has_byte(name, 47) {
        return Err(InvalidFilename::ContainsForwardSlash);
    }
    if n > MAX_NAME_BYTES {
        return Err(InvalidFilename::TooLong);
    }
    match target {
        TargetOs::Unix => Ok(()),
        TargetOs::Windows => match check_windows_name(text, &chars_of(text)) {
            Ok(()) => Ok(()),
            Err(e) => Err(InvalidFilename::Window(e)),
        },
    }
}

proof fn lemma_stem_of(s: Seq<char>)
    ensures
        stem(s).len() <= s.len(),
        stem(s) == s.take(stem(s).len() as int),
        s.len() > 0 && s[0] != '.' ==> stem(s).len() > 0 && stem(s)[0] == s[0],
    decreases s.len(),
{
    if s.len() == 0 || s[0] == '.' {
        assert(s.take(0) =~= Seq::<char>::empty());
    } else {
        lemma_stem_of(s.drop_first());
        assert(seq![s[0]] + s.drop_first().take(stem(s.drop_first()).len() as int) =~= s.take(
            stem(s).len() as int,
        ));
    }
}

/// A beginning of a text without refused characters has none either.
proof fn lemma_replaced_is_clean(target: TargetOs, s: Seq<char>)
    ensures
        forall|i: int|
            0 <= i < s.len() ==> !spec_is_invalid_filename_char(
                target,
                #[trigger] replaced(target, s)[i],
            ),
        (forall|i: int| 0 <= i < s.len() ==> !spec_is_invalid_filename_char(target, #[trigger] s[i]))
            ==> replaced(target, s) == s,
{
    if forall|i: int| 0 <= i < s.len() ==> !spec_is_invalid_filename_char(target, #[trigger] s[i]) {
        assert(replaced(target, s) =~= s);
    }
}

/// What is left of a text for a name is clean.
proof fn lemma_cleaned_is_clean(target: TargetOs, s: Seq<char>)
    ensures
        forall|i: int|
            0 <= i < cleaned(target, s).len() ==> !spec_is_invalid_filename_char(
                target,
                #[trigger] cleaned(target, s)[i],
            ),
        byte_len(cleaned(target, s)) <= MAX_NAME_BYTES,
        target is Windows ==> trimmed(cleaned(target, s)) == cleaned(target, s)
            && !spec_is_reserved_dos_name(cleaned(target, s)),
{
    let limit = MAX_NAME_BYTES as nat;
    lemma_replaced_is_clean(target, s);
    lemma_fit(replaced(target, s), limit);
    let fitted = fit(replaced(target, s), limit);
    match target {
        TargetOs::Unix => {},
        TargetOs::Windows => {
            let plain = trimmed(fitted);
            lemma_trimmed(fitted);
            lemma_prefix_is_shorter(fitted, plain.len() as int);
            lemma_trimmed(plain);
            if spec_is_reserved_dos_name(plain) {
                let marked = seq!['_'] + plain;
                let cut = fit(marked, limit);
                lemma_fit(marked, limit);
                lemma_trimmed(cut);
                lemma_prefix_is_shorter(cut, trimmed(cut).len() as int);
                lemma_trimmed(trimmed(cut));
                assert forall|i: int| 0 <= i < marked.len() implies !spec_is_invalid_filename_char(
                    target,
                    #[trigger] marked[i],
                ) by {
                    if i > 0 {
                        assert(marked[i] == plain[i - 1]);
                    }
                }
                lemma_stem_of(trimmed(cut));
                if trimmed(cut).len() > 0 {
                    assert(trimmed(cut)[0] == '_');
                    assert(stem(trimmed(cut)).map_values(|c: char| spec_upper(c))[0] == '_');
                }
            }
        },
    }
}

/// The underscore is a name everywhere, and stays as it is.
proof fn lemma_underscore(target: TargetOs)
    ensures
        cleaned(target, seq!['_']) == seq!['_'],
        byte_len(seq!['_']) == 1,
        trimmed(seq!['_']) == seq!['_'],
        !spec_is_reserved_dos_name(seq!['_']),
{
    let one = seq!['_'];
    let none = Seq::<char>::empty();
    assert(none.push('_') =~= one);
    lemma_byte_len_push(none, '_');
    lemma_replaced_is_clean(target, one);
    lemma_fit(one, MAX_NAME_BYTES as nat);
    lemma_trimmed(one);
    lemma_stem_of(one);
    assert(stem(one).map_values(|c: char| spec_upper(c)).len() <= 1);
}

/// A normalised text holds no character that the target refuses and takes no
/// more than 255 bytes; on Windows it ends in no dot or space and is no
/// device's name.
pub proof fn law_normalized_is_clean(target: TargetOs, s: Seq<char>)
    ensures
        forall|i: int|
            0 <= i < normalized(target, s).len() ==> !spec_is_invalid_filename_char(
                target,
                #[trigger] normalized(target, s)[i],
            ),
        byte_len(normalized(target, s)) <= MAX_NAME_BYTES,
        target is Windows ==> trimmed(normalized(target, s)) == normalized(target, s)
            && !spec_is_reserved_dos_name(normalized(target, s)),
{
    lemma_cleaned_is_clean(target, s);
    lemma_underscore(target);
}

/// Normalising a second time changes nothing.
pub proof fn law_normalize_is_idempotent(target: TargetOs, s: Seq<char>)
    ensures
        normalized(target, normalized(target, s)) == normalized(target, s),
{
    let n = normalized(target, s);
    law_normalized_is_clean(target, s);
    law_normalize_keeps_emptiness(target, s);
    lemma_underscore(target);
    lemma_replaced_is_clean(target, n);
    lemma_fit(n, MAX_NAME_BYTES as nat);
    assert(cleaned(target, n) == n);
}

/// Every text but the empty one becomes a valid name.
pub proof fn law_normalized_is_valid(target: TargetOs, s: Seq<char>)
    requires
        s.len() > 0,
    ensures
        name_problem(target, normalized(target, s)).is_none(),
{
    law_normalized_is_clean(target, s);
    let n = normalized(target, s);
    assert(n.len() > 0 && !(n =~= seq!['.']) && !(n =~= seq!['.', '.'])) by {
        if names_nothing(cleaned(target, s)) {
            assert(n[0] == '_');
        }
    }
    assert(!n.contains('/'));
    assert(!n.contains('\0'));
    if target is Windows {
        assert(!n.contains('\\'));
        lemma_trimmed(n);
    }
}

/// Only empty text becomes empty.
pub proof fn law_normalize_keeps_emptiness(target: TargetOs, s: Seq<char>)
    ensures
        s.len() == 0 <==> normalized(target, s).len() == 0,
{
    lemma_fit(replaced(target, s), MAX_NAME_BYTES as nat);
    if s.len() == 0 {
        lemma_trimmed(fit(replaced(target, s), MAX_NAME_BYTES as nat));
        lemma_stem_of(Seq::<char>::empty());
        let plain = trimmed(fit(replaced(target, s), MAX_NAME_BYTES as nat));
        assert(stem(plain).map_values(|c: char| spec_upper(c)).len() == 0);
    }
}

} // verus!
