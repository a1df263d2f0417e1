//! What the answers of a server say of a file.

use vstd::prelude::*;
use crate::download::hosts::failures::{is_success, MetadataError};
#[allow(unused_imports)]
use crate::download::hosts::failures::spec_is_success;
use crate::download::hosts::jobs::MetadataResult;
use crate::download::items::FileSize;
use crate::utils::numbers::parse_number;
#[allow(unused_imports)]
use crate::utils::numbers::number_in;
use crate::utils::text::{chars_of, find_char, string_of};
#[allow(unused_imports)]
use crate::utils::text::{first_index_of, lemma_first_index_of};
#[allow(unused_imports)]
use crate::utils::urls::{before, lemma_tail_segment, tail_segment};

verus! {

/// The parts of an answer that say something of a file. Headers that are not text
/// count as missing.
pub struct Reply {
    pub status: u16,
    pub content_length: Option<u64>,
    pub accept_ranges: Option<Vec<u8>>,
    pub content_disposition: Option<String>,
    pub content_range: Option<String>,
}

/// What to make of an answer without a body.
pub enum HeadVerdict {
    /// It says all that is needed.
    Settled(Result<MetadataResult, MetadataError>),
    /// It does not, and the beginning of the file is asked for.
    AskForBody,
}

/// Whether a character is white space.
pub open spec fn is_space(c: char) -> bool {
    ||| '\u{9}' <= c <= '\u{d}'
    ||| c == ' '
    ||| c == '\u{85}'
    ||| c == '\u{a0}'
    ||| c == '\u{1680}'
    ||| '\u{2000}' <= c <= '\u{200a}'
    ||| c == '\u{2028}'
    ||| c == '\u{2029}'
    ||| c == '\u{202f}'
    ||| c == '\u{205f}'
    ||| c == '\u{3000}'
}

/// What is cut off at both ends of a text.
#[derive(Clone, Copy)]
pub enum Cut {
    Spaces,
    Quotes,
}

impl Cut {
    /// Whether a character is cut off.
    pub open spec fn takes(self, c: char) -> bool {
        match self {
            Cut::Spaces => is_space(c),
            Cut::Quotes => c == '"',
        }
    }
}

/// A text without what is cut off in front.
pub open spec fn cut_front(s: Seq<char>, cut: Cut) -> Seq<char>
    decreases s.len(),
{
    if s.len() > 0 && cut.takes(s[0]) {
        cut_front(s.drop_first(), cut)
    } else {
        s
    }
}

/// A text without what is cut off at the end.
pub open spec fn cut_back(s: Seq<char>, cut: Cut) -> Seq<char>
    decreases s.len(),
{
    if s.len() > 0 && cut.takes(s.last()) {
        cut_back(s.drop_last(), cut)
    } else {
        s
    }
}

/// A text without what is cut off at both ends.
pub open spec fn cut_both(s: Seq<char>, cut: Cut) -> Seq<char> {
    cut_back(cut_front(s, cut), cut)
}

/// Whether a part of the header names the file.
pub open spec fn is_name_part(part: Seq<char>) -> bool {
    "filename"@.is_prefix_of(cut_both(part, Cut::Spaces))
}

/// The first part of a header, between semicolons, that names the file.
pub open spec fn name_part(header: Seq<char>) -> Option<Seq<char>>
    decreases header.len(),
{
    match first_index_of(header, ';') {
        Some(i) => if is_name_part(header.take(i)) {
            Some(header.take(i))
        } else if 0 <= i < header.len() {
            name_part(header.skip(i + 1))
        } else {
            None
        },
        None => if is_name_part(header) {
            Some(header)
        } else {
            None
        },
    }
}

/// What stands behind the equals sign of a part, without spaces and then without
/// quotes around it.
pub open spec fn value_of_part(part: Seq<char>) -> Option<Seq<char>> {
    match first_index_of(part, '=') {
        Some(i) => Some(cut_both(cut_both(part.skip(i + 1), Cut::Spaces), Cut::Quotes)),
        None => None,
    }
}

/// The name that a disposition header gives a file.
pub open spec fn disposition_name(header: Seq<char>) -> Option<Seq<char>> {
    match name_part(header) {
        Some(part) => value_of_part(part),
        None => None,
    }
}

/// What stands in a URL behind the last slash and before a question mark.
pub open spec fn name_in_url(url: Seq<char>) -> Seq<char> {
    before(tail_segment(url), '?')
}

/// The name of a file: the one that the server gives it, or else the one in the URL.
pub open spec fn reply_name(reply: Reply, url: Seq<char>) -> Seq<char> {
    match reply.content_disposition {
        Some(header) => match disposition_name(header@) {
            Some(name) => name,
            None => name_in_url(url),
        },
        None => name_in_url(url),
    }
}

/// Whether a server says that it sends ranges.
pub open spec fn accepts_ranges(reply: Reply) -> bool {
    match reply.accept_ranges {
        Some(value) => value@ != seq![110u8, 111u8, 110u8, 101u8],
        None => false,
    }
}

/// The length of a file that a content range ends with.
pub open spec fn range_total(header: Seq<char>) -> Option<u64> {
    number_in(tail_segment(header))
}

/// Whether a result says this of a file that can only be fetched as a whole.
pub open spec fn says_stream(r: MetadataResult, size: FileSize, name: Seq<char>) -> bool {
    r matches MetadataResult::Stream { file_size, file_name } && file_size == size && file_name@
        == name
}

/// Whether a result says this of a file that can be fetched in ranges.
pub open spec fn says_chunked(r: MetadataResult, size: u64, name: Seq<char>) -> bool {
    r matches MetadataResult::Chunked { file_size, file_name } && file_size == size && file_name@
        == name
}

fn is_space_char(c: char) -> (r: bool)
    ensures
        r == is_space(c),
{
    ('\u{9}' <= c && c <= '\u{d}') || c == ' ' || c == '\u{85}' || c == '\u{a0}' || c == '\u{1680}'
        || ('\u{2000}' <= c && c <= '\u{200a}') || c == '\u{2028}' || c == '\u{2029}' || c
        == '\u{202f}' || c == '\u{205f}' || c == '\u{3000}'
}

fn is_cut(c: char, cut: Cut) -> (r: bool)
    ensures
        r == cut.takes(c),
{
    match cut {
        Cut::Spaces => is_space_char(c),
        Cut::Quotes => c == '"',
    }
}

fn cut_ends(chars: &Vec<char>, from: usize, to: usize, cut: Cut) -> (r: (usize, usize))
    requires
        from <= to <= chars@.len(),
    ensures
        from <= r.0 <= r.1 <= to,
        chars@.subrange(r.0 as int, r.1 as int) == cut_both(
            chars@.subrange(from as int, to as int),
            cut,
        ),
{
    let ghost all = chars@.subrange(from as int, to as int);
    let mut start: usize = from;
    while start < to && is_cut(chars[start], cut)
        invariant
            from <= start <= to <= chars@.len(),
            cut_front(chars@.subrange(start as int, to as int), cut) == cut_front(all, cut),
        decreases to - start,
    {
        assert(chars@.subrange(start as int, to as int).drop_first() =~= chars@.subrange(
            start + 1,
            to as int,
        ));
        start += 1;
    }
    let ghost rest = chars@.subrange(start as int, to as int);
    assert(cut_front(all, cut) == rest);
    let mut end: usize = to;
    while end > start && is_cut(chars[end - 1], cut)
        invariant
            from <= start <= end <= to <= chars@.len(),
            cut_back(chars@.subrange(start as int, end as int), cut) == cut_back(rest, cut),
        decreases end - start,
    {
        assert(chars@.subrange(start as int, end as int).drop_last() =~= chars@.subrange(
            start as int,
            end - 1,
        ));
        end -= 1;
    }
    (start, end)
}

fn names_file(chars: &Vec<char>, from: usize, to: usize) -> (r: bool)
    requires
        from <= to <= chars@.len(),
    ensures
        r == is_name_part(chars@.subrange(from as int, to as int)),
{
    let (start, end) = cut_ends(chars, from, to, Cut::Spaces);
    let wanted = chars_of("filename");
    let ghost part = chars@.subrange(start as int, end as int);
    if end - start < wanted.len() {
        return false;
    }
    let mut i: usize = 0;
    while i < wanted.len()
        invariant
            i <= wanted@.len() <= end - start,
            start <= end <= chars@.len(),
            part == chars@.subrange(start as int, end as int),
            forall|k: int| 0 <= k < i ==> wanted@[k] == part[k],
            wanted@ == "filename"@,
            is_name_part(chars@.subrange(from as int, to as int)) == "filename"@.is_prefix_of(part),
        decreases wanted@.len() - i,
    {
        assert(part[i as int] == chars@[start + i]);
        if chars[start + i] != wanted[i] {
            assert(part.take(wanted@.len() as int)[i as int] != wanted@[i as int]);
            return false;
        }
        i += 1;
    }
    assert(part.take(wanted@.len() as int) =~= wanted@);
    true
}

/// The name that a disposition header gives a file, if it gives one.
pub fn parse_content_disposition_filename(header: &str) -> (r: Option<String>)
    ensures
        match r {
            Some(name) => disposition_name(header@) == Some(name@),
            None => disposition_name(header@).is_none(),
        },
{
    let chars = chars_of(header);
    let n: usize = chars.len();
    let mut from: usize = 0;
    assert(chars@.skip(0) =~= chars@);
    loop
        invariant
            n == chars@.len(),
            from <= n,
            chars@ == header@,
            name_part(header@) == name_part(chars@.skip(from as int)),
        decreases n - from,
    {
        let ghost rest = chars@.skip(from as int);
        let mut end: usize = from;
        while end < n && chars[end] != ';'
            invariant
                from <= end <= n,
                n == chars@.len(),
                rest == chars@.skip(from as int),
                forall|k: int| 0 <= k < end - from ==> rest[k] != ';',
            decreases n - end,
        {
            assert(rest[end - from] == chars@[end as int]);
            end += 1;
        }
        proof {
            lemma_first_index_of(rest, ';');
            let at = first_index_of(rest, ';');
            if end < n {
                assert(rest[end - from] == ';');
                assert(rest.contains(';'));
                if at->0 < end - from {
                    assert(rest[at->0] != ';');
                }
                assert(at == Some(end - from));
                assert(rest.take(end - from) =~= chars@.subrange(from as int, end as int));
                assert(rest.skip(end - from + 1) =~= chars@.skip(end + 1));
            } else {
                if at.is_some() {
                    assert(rest[at->0] != ';');
                }
                assert(rest =~= chars@.subrange(from as int, end as int));
            }
        }
        if names_file(&chars, from, end) {
            return value_in(&chars, from, end);
        }
        if end == n {
            return None;
        }
        from = end + 1;
    }
}

fn value_in(chars: &Vec<char>, from: usize, to: usize) -> (r: Option<String>)
    requires
        from <= to <= chars@.len(),
    ensures
        match r {
            Some(value) => value_of_part(chars@.subrange(from as int, to as int)) == Some(value@),
            None => value_of_part(chars@.subrange(from as int, to as int)).is_none(),
        },
{
    let ghost part = chars@.subrange(from as int, to as int);
    let mut i: usize = from;
    proof {
        lemma_first_index_of(part, '=');
    }
    while i < to && chars[i] != '='
        invariant
            from <= i <= to <= chars@.len(),
            part == chars@.subrange(from as int, to as int),
            forall|k: int| 0 <= k < i - from ==> part[k] != '=',
        decreases to - i,
    {
        assert(part[i - from] == chars@[i as int]);
        i += 1;
    }
    let ghost at = first_index_of(part, '=');
    if i == to {
        proof {
            if at.is_some() {
                assert(part[at->0] != '=');
            }
        }
        return None;
    }
    proof {
        assert(part[i - from] == '=');
        assert(part.contains('='));
        if at->0 < i - from {
            assert(part[at->0] != '=');
        }
        assert(part.skip(i - from + 1) =~= chars@.subrange(i + 1, to as int));
    }
    let (a, b) = cut_ends(chars, i + 1, to, Cut::Spaces);
    let (start, end) = cut_ends(chars, a, b, Cut::Quotes);
    Some(string_of(chars, start, end))
}

fn tail_start(chars: &Vec<char>) -> (start: usize)
    ensures
        start <= chars@.len(),
        tail_segment(chars@) == chars@.skip(start as int),
{
    let mut start: usize = chars.len();
    while start > 0 && chars[start - 1] != '/'
        invariant
            start <= chars@.len(),
            forall|i: int| start <= i < chars@.len() ==> chars@[i] != '/',
        decreases start,
    {
        start -= 1;
    }
    proof {
        lemma_tail_segment(chars@, start as int);
    }
    start
}

/// What stands in a URL behind the last slash and before a question mark.
pub fn filename_from_url(url: &str) -> (r: String)
    ensures
        r@ == name_in_url(url@),
{
    let chars = chars_of(url);
    let start: usize = tail_start(&chars);
    let n: usize = chars.len();
    let tail = chars_of(string_of(&chars, start, n).as_str());
    assert(tail@ =~= tail_segment(url@));
    let end: usize = match find_char(&tail, '?') {
        Some(i) => i,
        None => tail.len(),
    };
    let r = string_of(&tail, 0, end);
    assert(r@ =~= name_in_url(url@));
    r
}

/// The length of a file that a content range ends with, such as the last number in
/// `bytes 0-0/1048576`.
pub fn parse_content_range(range_header: &str) -> (r: Option<u64>)
    ensures
        r == range_total(range_header@),
{
    let chars = chars_of(range_header);
    let start: usize = tail_start(&chars);
    let n: usize = chars.len();
    let tail = chars_of(string_of(&chars, start, n).as_str());
    assert(tail@ =~= tail_segment(range_header@));
    parse_number(&tail)
}

/// The name of a file: the one that the server gives it, or else the one in the URL.
pub fn extract_filename(reply: &Reply, url: &str) -> (r: String)
    ensures
        r@ == reply_name(*reply, url@),
{
    if let Some(header) = &reply.content_disposition {
        if let Some(name) = parse_content_disposition_filename(header.as_str()) {
            return name;
        }
    }
    filename_from_url(url)
}

fn server_accepts_ranges(reply: &Reply) -> (r: bool)
    ensures
        r == accepts_ranges(*reply),
{
    match &reply.accept_ranges {
        Some(value) => {
            let none = value.len() == 4 && value[0] == 110u8 && value[1] == 111u8 && value[2]
                == 110u8 && value[3] == 101u8;
            assert(none ==> value@ =~= seq![110u8, 111u8, 110u8, 101u8]);
            !none
        },
        None => false,
    }
}

/// What to make of an answer without a body, `None` if none came. A length of zero
/// is not believed.
pub fn judge_head(reply: Option<Reply>, url: &str) -> (r: HeadVerdict)
    ensures
        match reply {
            None => r is AskForBody,
            Some(a) => if !spec_is_success(a.status) {
                r == HeadVerdict::Settled(Err(MetadataError::HttpStatus(a.status)))
            } else {
                match a.content_length {
                    Some(n) => if n == 0 {
                        r is AskForBody
                    } else {
                        r matches HeadVerdict::Settled(Ok(m)) && if accepts_ranges(a) {
                            says_chunked(m, n, reply_name(a, url@))
                        } else {
                            says_stream(m, FileSize::Known(n), reply_name(a, url@))
                        }
                    },
                    None => r matches HeadVerdict::Settled(Ok(m)) && says_stream(
                        m,
                        FileSize::Unknown,
                        reply_name(a, url@),
                    ),
                }
            },
        },
{
    let reply = match reply {
        Some(reply) => reply,
        None => {
            return HeadVerdict::AskForBody;
        },
    };
    if !is_success(reply.status) {
        return HeadVerdict::Settled(Err(MetadataError::HttpStatus(reply.status)));
    }
    let file_name = extract_filename(&reply, url);
    match reply.content_length {
        Some(length) => if length == 0 {
            HeadVerdict::AskForBody
        } else if server_accepts_ranges(&reply) {
            HeadVerdict::Settled(Ok(MetadataResult::Chunked { file_size: length, file_name }))
        } else {
            HeadVerdict::Settled(
                Ok(MetadataResult::Stream { file_size: FileSize::Known(length), file_name }),
            )
        },
        None => HeadVerdict::Settled(
            Ok(MetadataResult::Stream { file_size: FileSize::Unknown, file_name }),
        ),
    }
}

/// What to make of the answer when the first byte was asked for, `None` if none
/// came.
pub fn judge_get(reply: Option<Reply>, url: &str) -> (r: Result<MetadataResult, MetadataError>)
    ensures
        match reply {
            None => r == Err::<MetadataResult, MetadataError>(MetadataError::Network),
            Some(a) => if a.status == 206 {
                r matches Ok(m) && match a.content_range {
                    Some(header) => match range_total(header@) {
                        Some(n) => says_chunked(m, n, reply_name(a, url@)),
                        None => says_stream(m, FileSize::Unknown, reply_name(a, url@)),
                    },
                    None => says_stream(m, FileSize::Unknown, reply_name(a, url@)),
                }
            } else if a.status == 200 {
                r matches Ok(m) && says_stream(
                    m,
                    match a.content_length {
                        Some(n) => FileSize::Known(n),
                        None => FileSize::Unknown,
                    },
                    reply_name(a, url@),
                )
            } else {
                r == Err::<MetadataResult, MetadataError>(MetadataError::HttpStatus(a.status))
            },
        },
{
    let reply = match reply {
        Some(reply) => reply,
        None => {
            return Err(MetadataError::Network);
        },
    };
    if reply.status == 206 {
        let file_name = extract_filename(&reply, url);
        if let Some(header) = &reply.content_range {
            if let Some(length) = parse_content_range(header.as_str()) {
                return Ok(MetadataResult::Chunked { file_size: length, file_name });
            }
        }
        Ok(MetadataResult::Stream { file_size: FileSize::Unknown, file_name })
    } else if reply.status == 200 {
        let file_name = extract_filename(&reply, url);
        let file_size = match reply.content_length {
            Some(length) => FileSize::Known(length),
            None => FileSize::Unknown,
        };
        Ok(MetadataResult::Stream { file_size, file_name })
    } else {
        Err(MetadataError::HttpStatus(reply.status))
    }
}

} // verus!
