//! What the answers of servers come to.

use vstd::prelude::*;
#[allow(unused_imports)]
use crate::download::hosts::failures::{
    spec_is_client_error, spec_is_server_error, spec_is_success, DownloadError, MetadataError,
    RangeDownloadError,
};
#[allow(unused_imports)]
use crate::download::hosts::jobs::{FailedJob, MetadataResult};
#[allow(unused_imports)]
use crate::download::hosts::manager::{
    host_after, host_answer, HostMessage, HostModel, PauseAction,
};
#[allow(unused_imports)]
use crate::download::hosts::metadata::{
    accepts_ranges, cut_back, cut_both, cut_front, is_name_part, is_space, judge_get, judge_head,
    name_in_url, name_part, range_total, reply_name, value_of_part, Cut, HeadVerdict, Reply,
};
#[allow(unused_imports)]
use crate::download::hosts::ranging::{
    asked_bytes, range_verdict, stream_verdict, total, WorkerModel, WriteRequest,
};
#[allow(unused_imports)]
use crate::download::hosts::request::{
    headers_view, is_word, small, Header, Request, RequestKind,
};
#[allow(unused_imports)]
use crate::download::hosts::retry_after::{parse_retry_after, rfc2822_moment, Moment};
#[allow(unused_imports)]
use crate::download::items::FileSize;
#[allow(unused_imports)]
use crate::download_task::{size_in_body, size_in_head, SizeResult};
#[allow(unused_imports)]
use crate::utils::name_laws::is_letter;
#[allow(unused_imports)]
use crate::utils::numbers::number_in;
#[allow(unused_imports)]
use crate::utils::text::first_index_of;
#[allow(unused_imports)]
use crate::utils::text_laws::{
    is_step, law_texts_are_cut_at_the_first, law_the_first_place_is_found,
    law_the_tail_is_behind_the_last_slash,
};
#[allow(unused_imports)]
use crate::utils::urls::{before, tail_segment};

verus! {

/// Whether a text is made of what is cut off.
pub open spec fn is_cut_off(s: Seq<char>, cut: Cut) -> bool {
    forall|i: int|
        0 <= i < s.len() ==> match cut {
            Cut::Spaces => is_space(#[trigger] s[i]),
            Cut::Quotes => s[i] == '"',
        }
}

/// Whether a character is one that is cut off.
pub open spec fn is_cut(c: char, cut: Cut) -> bool {
    match cut {
        Cut::Spaces => is_space(c),
        Cut::Quotes => c == '"',
    }
}

proof fn lemma_front(s: Seq<char>, cut: Cut) -> (off: Seq<char>)
    ensures
        s == off + cut_front(s, cut),
        is_cut_off(off, cut),
        cut_front(s, cut).len() > 0 ==> !is_cut(cut_front(s, cut)[0], cut),
    decreases s.len(),
{
    if s.len() > 0 && cut.takes(s[0]) {
        let less = lemma_front(s.drop_first(), cut);
        let off = seq![s[0]] + less;
        assert(s =~= seq![s[0]] + s.drop_first());
        assert(s =~= off + cut_front(s, cut));
        assert forall|i: int| 0 <= i < off.len() implies match cut {
            Cut::Spaces => is_space(#[trigger] off[i]),
            Cut::Quotes => off[i] == '"',
        } by {
            if i > 0 {
                assert(off[i] == less[i - 1]);
            }
        }
        off
    } else {
        assert(s =~= Seq::<char>::empty() + s);
        Seq::empty()
    }
}

proof fn lemma_back(s: Seq<char>, cut: Cut) -> (off: Seq<char>)
    ensures
        s == cut_back(s, cut) + off,
        is_cut_off(off, cut),
        cut_back(s, cut).len() > 0 ==> !is_cut(cut_back(s, cut).last(), cut),
    decreases s.len(),
{
    if s.len() > 0 && cut.takes(s.last()) {
        let less = lemma_back(s.drop_last(), cut);
        let off = less.push(s.last());
        assert(s =~= s.drop_last().push(s.last()));
        assert(s =~= cut_back(s, cut) + off);
        assert forall|i: int| 0 <= i < off.len() implies match cut {
            Cut::Spaces => is_space(#[trigger] off[i]),
            Cut::Quotes => off[i] == '"',
        } by {
            if i < less.len() {
                assert(off[i] == less[i]);
            }
        }
        off
    } else {
        assert(s =~= s + Seq::<char>::empty());
        Seq::empty()
    }
}

/// What is left of a text is what stands between two runs of what is cut off, and neither
/// begins nor ends with it.
pub proof fn law_texts_are_trimmed(s: Seq<char>, cut: Cut)
    ensures
        exists|a: Seq<char>, b: Seq<char>|
            #![trigger is_cut_off(a, cut), is_cut_off(b, cut)]
            is_cut_off(a, cut) && is_cut_off(b, cut) && s == a + cut_both(s, cut) + b,
        cut_both(s, cut).len() > 0 ==> !is_cut(cut_both(s, cut)[0], cut) && !is_cut(
            cut_both(s, cut).last(),
            cut,
        ),
{
    let a = lemma_front(s, cut);
    let middle = cut_front(s, cut);
    let b = lemma_back(middle, cut);
    assert(s =~= a + cut_both(s, cut) + b);
    if cut_both(s, cut).len() > 0 {
        assert(middle[0] == cut_both(s, cut)[0]);
    }
}

/// Whether a part of a header, from `from` up to `to`, lies between semicolons, or between
/// one and an end of the header, and holds none.
pub open spec fn is_piece(header: Seq<char>, from: int, to: int) -> bool {
    &&& 0 <= from <= to <= header.len()
    &&& from == 0 || header[from - 1] == ';'
    &&& to == header.len() || header[to] == ';'
    &&& forall|i: int| from <= i < to ==> #[trigger] header[i] != ';'
}

/// Whether a part of a header names the file: its first word is `filename`.
pub open spec fn names_the_file(header: Seq<char>, from: int, to: int) -> bool {
    "filename"@.is_prefix_of(cut_both(header.subrange(from, to), Cut::Spaces))
}

proof fn lemma_name_part(header: Seq<char>, from: int)
    requires
        0 <= from <= header.len(),
        from == 0 || header[from - 1] == ';',
    ensures
        match name_part(header.skip(from)) {
            Some(part) => exists|i: int, j: int|
                from <= i && #[trigger] is_piece(header, i, j) && part == header.subrange(i, j)
                    && names_the_file(header, i, j) && forall|k: int, l: int|
                    from <= k < i && #[trigger] is_piece(header, k, l) ==> !names_the_file(
                        header,
                        k,
                        l,
                    ),
            None => forall|k: int, l: int|
                from <= k && #[trigger] is_piece(header, k, l) ==> !names_the_file(header, k, l),
        },
    decreases header.len() - from,
{
    let rest = header.skip(from);
    law_the_first_place_is_found(rest, ';');
    let end: int = match first_index_of(rest, ';') {
        Some(i) => from + i,
        None => header.len() as int,
    };
    let first = header.subrange(from, end);
    assert(first =~= rest.take(end - from));
    assert(rest.take(rest.len() as int) =~= rest);
    assert forall|i: int| from <= i < end implies #[trigger] header[i] != ';' by {
        assert(rest[i - from] == header[i]);
    }
    if end < header.len() {
        assert(rest[end - from] == header[end]);
    }
    assert(is_piece(header, from, end));
    assert forall|k: int, l: int| from <= k <= end && #[trigger] is_piece(header, k, l) implies k
        == from && l == end by {
        if k > from {
            assert(header[k - 1] == ';');
        }
        if l < end {
            assert(header[l] == ';');
        }
        if l > end {
            assert(header[end] == ';');
        }
    }
    if !is_name_part(first) && end < header.len() {
        lemma_name_part(header, end + 1);
        assert(rest.skip(end - from + 1) =~= header.skip(end + 1));
        if let Some(part) = name_part(header.skip(end + 1)) {
            let (i, j) = choose|i: int, j: int|
                end + 1 <= i && #[trigger] is_piece(header, i, j) && part == header.subrange(i, j)
                    && names_the_file(header, i, j) && forall|k: int, l: int|
                    end + 1 <= k < i && #[trigger] is_piece(header, k, l) ==> !names_the_file(
                        header,
                        k,
                        l,
                    );
            assert forall|k: int, l: int|
                from <= k < i && #[trigger] is_piece(header, k, l) implies !names_the_file(
                header,
                k,
                l,
            ) by {
                if k <= end {
                    assert(k == from && l == end);
                }
            }
            assert(is_piece(header, i, j));
        } else {
            assert forall|k: int, l: int|
                from <= k && #[trigger] is_piece(header, k, l) implies !names_the_file(
                header,
                k,
                l,
            ) by {
                if k <= end {
                    assert(k == from && l == end);
                }
            }
        }
    } else if !is_name_part(first) {
        assert forall|k: int, l: int|
            from <= k && #[trigger] is_piece(header, k, l) implies !names_the_file(
            header,
            k,
            l,
        ) by {
            assert(k == from && l == end);
        }
    }
}

/// The name of a file is looked for in the first part of the header, between semicolons,
/// that begins with `filename`; there is none only if no part does.
pub proof fn law_the_first_name_counts(header: Seq<char>)
    ensures
        match name_part(header) {
            Some(part) => exists|i: int, j: int| #[trigger]
                is_piece(header, i, j) && part == header.subrange(i, j) && names_the_file(
                    header,
                    i,
                    j,
                ) && forall|k: int, l: int|
                    k < i && #[trigger] is_piece(header, k, l) ==> !names_the_file(header, k, l),
            None => forall|k: int, l: int| #[trigger]
                is_piece(header, k, l) ==> !names_the_file(header, k, l),
        },
{
    lemma_name_part(header, 0);
    assert(header.skip(0) =~= header);
}

/// The name is what stands behind the first equals sign of its part, without the spaces
/// and then the quotes around it; without an equals sign the header gives none.
pub proof fn law_names_stand_behind_the_equals_sign(
    part: Seq<char>,
    front: Seq<char>,
    value: Seq<char>,
)
    requires
        part == front + seq!['='] + value,
        !front.contains('='),
    ensures
        value_of_part(part) == Some(cut_both(cut_both(value, Cut::Spaces), Cut::Quotes)),
        value_of_part(front) is None,
{
    law_the_first_place_is_found(part, '=');
    law_the_first_place_is_found(front, '=');
    assert(part[front.len() as int] == '=');
    assert forall|i: int| 0 <= i < front.len() implies #[trigger] part[i] == front[i] by {}
    let i = first_index_of(part, '=')->0;
    if i < front.len() {
        assert(front[i] == '=');
    }
    assert(i == front.len());
    assert(part.skip(i + 1) =~= value);
}

/// A file has the name that the server gives it; without one it has what stands in the URL
/// behind the last slash and before a question mark.
pub proof fn law_the_name_of_the_server_counts(reply: Reply, url: Seq<char>)
    ensures
        reply.content_disposition matches Some(header) ==> (name_part(header@) matches Some(part)
            ==> (value_of_part(part) matches Some(name) ==> reply_name(reply, url) == name)),
        (reply.content_disposition matches Some(header) ==> (name_part(header@) matches Some(part)
            ==> value_of_part(part) is None)) ==> {
            let name = reply_name(reply, url);
            exists|from: int|
                #![trigger is_step(url, from, url.len() as int)]
                {
                    &&& is_step(url, from, url.len() as int)
                    &&& from + name.len() <= url.len()
                    &&& name == url.subrange(from, from + name.len())
                    &&& !name.contains('?')
                    &&& from + name.len() < url.len() ==> url[from + name.len()] == '?'
                }
        },
{
    law_the_tail_is_behind_the_last_slash(url);
    let tail = tail_segment(url);
    law_texts_are_cut_at_the_first(tail, '?');
    let from = url.len() - tail.len();
    let name = name_in_url(url);
    assert(name =~= url.subrange(from, from + name.len()));
    if name.len() < tail.len() {
        assert(tail[name.len() as int] == url[from + name.len()]);
    }
    assert(is_step(url, from, url.len() as int));
}

/// A server sends ranges if it says anything about it but `none`.
pub proof fn law_ranges_are_accepted_unless_refused(reply: Reply)
    ensures
        reply.accept_ranges is None ==> !accepts_ranges(reply),
        reply.accept_ranges matches Some(value) ==> (accepts_ranges(reply) <==> !(value@.len() == 4
            && value@[0] == 110 && value@[1] == 111 && value@[2] == 110 && value@[3] == 101)),
{
    if let Some(value) = reply.accept_ranges {
        let none = seq![110u8, 111u8, 110u8, 101u8];
        if value@.len() == 4 && value@[0] == 110 && value@[1] == 111 && value@[2] == 110
            && value@[3] == 101 {
            assert(value@ =~= none);
        }
    }
}

/// The length of a file is the number behind the last slash of a content range.
pub proof fn law_the_length_stands_behind_the_slash(front: Seq<char>, number: Seq<char>)
    requires
        !number.contains('/'),
    ensures
        range_total(front + seq!['/'] + number) == number_in(number),
{
    let header = front + seq!['/'] + number;
    law_the_tail_is_behind_the_last_slash(header);
    let tail = tail_segment(header);
    let from = header.len() - tail.len();
    let slash = front.len() as int;
    assert(header[slash] == '/');
    if from <= slash {
        assert(header[slash] != '/');
    }
    if from > slash + 1 {
        assert(header[from - 1] == '/');
        assert(number[from - 1 - slash - 1] == '/');
    }
    assert(tail =~= number);
}

/// A range asks for the bytes from its first block on, as many as are expected.
pub proof fn law_ranges_ask_for_their_bytes(start_block: usize, expected: u64)
    ensures
        ({
            let (first, last) = asked_bytes(start_block, expected);
            &&& first == start_block * 16384
            &&& expected > 0 ==> last - first + 1 == expected
            &&& expected == 0 ==> last == first
        }),
{
}

/// A server that sends what was asked for is taken at its word: a part with 206, or with
/// 200 the whole file if that was asked for, as far as its length tells. One that wants a
/// pause gets it, and any other status is an error of the side that it blames.
pub proof fn law_answers_to_ranges_are_judged(
    status: u16,
    length: Option<u64>,
    pause: Option<u64>,
    first: u64,
    last: u64,
)
    ensures
        ({
            let verdict = range_verdict(status, length, pause, first, last);
            &&& status == 206 ==> verdict is Ok
            &&& status == 200 ==> if first == 0 && (length is None || length->0 == last + 1) {
                verdict is Ok
            } else {
                verdict == Err::<(), RangeDownloadError>(RangeDownloadError::RangeNotSupported)
            }
            &&& status == 429 ==> verdict == Err::<(), RangeDownloadError>(
                RangeDownloadError::Download(DownloadError::RateLimited(pause)),
            )
            &&& 500 <= status <= 599 ==> verdict == Err::<(), RangeDownloadError>(
                RangeDownloadError::Download(DownloadError::ServerError(status)),
            )
            &&& 400 <= status <= 499 && status != 429 ==> verdict == Err::<(), RangeDownloadError>(
                RangeDownloadError::Download(DownloadError::ClientError(status)),
            )
            &&& status < 400 && status != 200 && status != 206 || status > 599 ==> verdict == Err::<
                (),
                RangeDownloadError,
            >(RangeDownloadError::UnexpectedStatus(status))
        }),
{
}

/// A whole file is taken unless the server wants a pause or says that something is wrong.
pub proof fn law_answers_to_streams_are_judged(status: u16, pause: Option<u64>)
    ensures
        ({
            let verdict = stream_verdict(status, pause);
            &&& status < 400 || status > 599 ==> verdict is Ok
            &&& status == 429 ==> verdict == Err::<(), DownloadError>(
                DownloadError::RateLimited(pause),
            )
            &&& 500 <= status <= 599 ==> verdict == Err::<(), DownloadError>(
                DownloadError::ServerError(status),
            )
            &&& 400 <= status <= 499 && status != 429 ==> verdict == Err::<(), DownloadError>(
                DownloadError::ClientError(status),
            )
        }),
{
}

/// Every status from 200 to 599 is a success, a redirection, or an error of one of the two
/// sides, and of one alone.
pub proof fn law_statuses_fall_into_hundreds(status: u16)
    ensures
        spec_is_success(status) <==> status as int / 100 == 2,
        spec_is_client_error(status) <==> status as int / 100 == 4,
        spec_is_server_error(status) <==> status as int / 100 == 5,
{
}

/// A length is believed unless it is zero or the answer is no success. An answer without
/// a body settles nothing but a length.
pub proof fn law_sizes_in_heads_are_believed(reply: Option<Reply>)
    ensures
        match size_in_head(reply) {
            Some(SizeResult::Known(size)) => size > 0 && (reply matches Some(a)
                && a.content_length == Some(size) && 200 <= a.status <= 299),
            Some(_) => false,
            None => reply matches Some(a) ==> {
                ||| a.content_length is None
                ||| a.content_length == Some(0u64)
                ||| a.status < 200
                ||| a.status > 299
            },
        },
{
}

/// The size of a file comes from the content range of a part, or from the length of the
/// whole; where none is told or it is zero, the file can only be fetched as a whole. A part
/// that does not say of what it is, no answer at all, and a server that is busy may say more
/// later; anything else never will.
pub proof fn law_sizes_in_bodies_are_believed(reply: Option<Reply>)
    ensures
        size_in_body(reply) matches SizeResult::Known(size) ==> size > 0 && (reply matches Some(a)
            && if a.status == 206 {
            a.content_range matches Some(header) && range_total(header@) == Some(size)
        } else {
            a.status == 200 && a.content_length == Some(size)
        }),
        size_in_body(reply) is Stream <==> (reply matches Some(a) && {
            ||| a.status == 200 && (a.content_length is None || a.content_length == Some(0u64))
            ||| a.status == 206 && (a.content_range matches Some(header) && (range_total(
                header@,
            ) is None || range_total(header@) == Some(0u64)))
        }),
        size_in_body(reply) matches SizeResult::Retryable(status) ==> match reply {
            None => status == 0,
            Some(a) => if a.status == 206 {
                status == 0 && a.content_range is None
            } else {
                status == a.status && (status == 429 || status == 503 || status == 504)
            },
        },
        size_in_body(reply) is PermanentFail <==> (reply matches Some(a) && a.status != 200
            && a.status != 206 && a.status != 429 && a.status != 503 && a.status != 504),
{
}

proof fn lemma_total_push(lengths: Seq<u64>, n: u64)
    ensures
        total(lengths.push(n)) == total(lengths) + n,
    decreases lengths.len(),
{
    let longer = lengths.push(n);
    if lengths.len() > 0 {
        assert(longer.drop_first() =~= lengths.drop_first().push(n));
        lemma_total_push(lengths.drop_first(), n);
    } else {
        assert(longer.drop_first() =~= Seq::<u64>::empty());
        assert(total(longer.drop_first()) == 0);
    }
}

/// What comes in is gathered, and handed on for writing as soon as there is enough of it.
/// No byte is lost, and none is on disk before its write has ended.
pub proof fn law_bytes_are_gathered_and_handed_on(m: WorkerModel, chunk: Seq<u8>)
    requires
        m.buffered + chunk.len() <= u64::MAX,
    ensures
        ({
            let after = m.receive(chunk);
            &&& after.data == m.data + chunk
            &&& after.buffered + total(after.in_flight) == m.buffered + total(m.in_flight)
                + chunk.len()
            &&& after.buffered < 1048576
            &&& m.buffered + chunk.len() < 1048576 ==> after.in_flight == m.in_flight
            &&& m.buffered + chunk.len() >= 1048576 ==> after.buffered == 0
                && after.in_flight.len() == m.in_flight.len() + 1
            &&& after.start == m.start && after.expected == m.expected && after.previous
                == m.previous && after.shown == m.shown && after.unnotified == m.unnotified
                && after.completed == m.completed
        }),
{
    lemma_total_push(m.in_flight, (m.buffered + chunk.len()) as u64);
}

/// At the end all that was gathered is handed on.
pub proof fn law_the_rest_is_handed_on(m: WorkerModel)
    requires
        m.buffered <= u64::MAX,
    ensures
        ({
            let after = m.flush();
            &&& after.buffered == 0
            &&& after.data == m.data
            &&& total(after.in_flight) == m.buffered + total(m.in_flight)
            &&& m.buffered == 0 ==> after.in_flight == m.in_flight
            &&& after.start == m.start && after.previous == m.previous && after.shown == m.shown
        }),
{
    lemma_total_push(m.in_flight, m.buffered as u64);
}

/// When the oldest write has ended, its bytes are on disk, and count towards the progress
/// of the file as far as they did not before. Clients are told when enough has come
/// together since they were.
pub proof fn law_written_bytes_count(m: WorkerModel, progress: nat, notify: bool)
    requires
        m.in_flight.len() > 0,
        m.buffered + total(m.in_flight) <= m.data.len(),
    ensures
        ({
            let after = m.acknowledge(progress, notify);
            let gained = after.added() - m.added();
            &&& after.written() == m.written() + m.in_flight[0]
            &&& after.in_flight == m.in_flight.subrange(1, m.in_flight.len() as int)
            &&& after.data == m.data && after.buffered == m.buffered
            &&& gained >= 0
            &&& m.written() >= m.previous ==> gained == m.in_flight[0]
            &&& after.written() <= m.previous ==> gained == 0
            &&& gained > 0 ==> after.shown == progress + gained
            &&& gained == 0 ==> after.shown == m.shown && after.unnotified == m.unnotified
            &&& gained > 0 ==> if notify && m.unnotified + gained >= 131072 {
                after.unnotified == 0
            } else {
                after.unnotified == m.unnotified + gained
            }
        }),
{
    assert(m.in_flight.drop_first() =~= m.in_flight.subrange(1, m.in_flight.len() as int));
}

/// A pause until a moment is as long as that is away: whole seconds, and none once it is
/// over.
pub proof fn law_pauses_last_until_the_moment(until: Moment, now: Moment)
    requires
        until.nanos < 1_000_000_000,
        now.nanos < 1_000_000_000,
    ensures
        ({
            let wait = until.seconds_from(now) as int;
            let there = until.seconds * 1_000_000_000 + until.nanos;
            let here = now.seconds * 1_000_000_000 + now.nanos;
            &&& there <= here ==> wait == 0
            &&& there > here ==> here + wait * 1_000_000_000 <= there < here + (wait + 1)
                * 1_000_000_000
        }),
{
}

/// Of headers with one name the last counts, and those with other names do not matter.
pub proof fn law_the_last_header_counts(headers: Seq<Header>, more: Header, name: Seq<char>)
    ensures
        headers_view(headers.push(more)).contains_key(more.key@),
        headers_view(headers.push(more))[more.key@] == more.value@,
        name != more.key@ ==> headers_view(headers.push(more)).contains_key(name)
            == headers_view(headers).contains_key(name),
        name != more.key@ && headers_view(headers).contains_key(name) ==> headers_view(
            headers.push(more),
        )[name] == headers_view(headers)[name],
        headers_view(Seq::<Header>::empty()) == Map::<Seq<char>, Seq<char>>::empty(),
{
    assert(headers.push(more).drop_last() =~= headers);
}

/// A job waits at the end of the queue of its kind, behind those that failed if it did, and
/// in the order in which it came; the other queues stay as they are. Only a server that
/// wants a pause, or whose pause is over, begins or ends one.
pub proof fn law_jobs_wait_with_their_kind<C>(h: HostModel<C>, message: HostMessage<C>)
    ensures
        ({
            let s = h.scheduler;
            let t = host_after(h, message).scheduler;
            let pausing = host_after(h, message).pausing;
            &&& t.metadata == match message {
                HostMessage::QueueMetadata(job) => s.metadata.push(job),
                _ => s.metadata,
            }
            &&& t.stream == match message {
                HostMessage::QueueStream(job) => s.stream.push(job),
                _ => s.stream,
            }
            &&& t.range == match message {
                HostMessage::QueueRanges(jobs) => s.range + jobs@,
                _ => s.range,
            }
            &&& t.metadata_retry == match message {
                HostMessage::RetryReady(FailedJob::Metadata(job)) => s.metadata_retry.push(job),
                _ => s.metadata_retry,
            }
            &&& t.stream_retry == match message {
                HostMessage::RetryReady(FailedJob::Stream(job)) => s.stream_retry.push(job),
                _ => s.stream_retry,
            }
            &&& t.range_retry == match message {
                HostMessage::RetryReady(FailedJob::Range(job)) => s.range_retry.push(job),
                _ => s.range_retry,
            }
            &&& message is RateLimited ==> pausing
            &&& message is RateLimitExpired ==> !pausing
            &&& !(message is RateLimited) && !(message is RateLimitExpired) ==> pausing
                == h.pausing
            &&& host_answer(h, message) is Some <==> message is RateLimited
            &&& message matches HostMessage::RateLimited(millis) ==> host_answer(h, message)
                == Some(
                if h.pausing {
                    PauseAction::Prolong(millis)
                } else {
                    PauseAction::Begin(millis)
                },
            )
        }),
{
}

/// What is made of an answer without a body: without an answer, or with a length of zero, the
/// beginning of the file is asked for; a status that is no success is an error; and else the
/// file is fetched in ranges if the server sends them and tells the length, or as a whole.
pub proof fn law_heads_are_judged(reply: Reply, url: &str, verdict: HeadVerdict)
    requires
        call_ensures(judge_head, (Some(reply), url), verdict),
    ensures
        reply.status < 200 || reply.status > 299 ==> verdict == HeadVerdict::Settled(
            Err(MetadataError::HttpStatus(reply.status)),
        ),
        200 <= reply.status <= 299 && reply.content_length == Some(0u64) ==> verdict is AskForBody,
        200 <= reply.status <= 299 && reply.content_length is None ==> (
        verdict matches HeadVerdict::Settled(Ok(MetadataResult::Stream { file_size, file_name }))
            && file_size is Unknown && file_name@ == reply_name(reply, url@)),
        200 <= reply.status <= 299 && reply.content_length is Some && reply.content_length->0 > 0
            && accepts_ranges(reply) ==> (verdict matches HeadVerdict::Settled(
            Ok(MetadataResult::Chunked { file_size, file_name }),
        ) && Some(file_size) == reply.content_length && file_name@ == reply_name(reply, url@)),
        200 <= reply.status <= 299 && reply.content_length is Some && reply.content_length->0 > 0
            && !accepts_ranges(reply) ==> (verdict matches HeadVerdict::Settled(
            Ok(MetadataResult::Stream { file_size, file_name }),
        ) && file_size == FileSize::Known(reply.content_length->0) && file_name@ == reply_name(
            reply,
            url@,
        )),
{
}

/// What is made of an answer when the first byte was asked for: a part that says how long the
/// file is can be fetched in ranges, any other part and a whole file only as a whole, with the
/// length that a whole file tells; any other status is an error, and so is no answer.
pub proof fn law_bodies_are_judged(
    reply: Option<Reply>,
    url: &str,
    verdict: Result<MetadataResult, MetadataError>,
)
    requires
        call_ensures(judge_get, (reply, url), verdict),
    ensures
        reply is None ==> verdict == Err::<MetadataResult, MetadataError>(MetadataError::Network),
        reply matches Some(a) ==> {
            let total = match a.content_range {
                Some(header) => range_total(header@),
                None => None,
            };
            &&& a.status != 200 && a.status != 206 ==> verdict == Err::<
                MetadataResult,
                MetadataError,
            >(MetadataError::HttpStatus(a.status))
            &&& a.status == 206 && total is Some ==> (verdict matches Ok(
                MetadataResult::Chunked { file_size, file_name },
            ) && Some(file_size) == total && file_name@ == reply_name(a, url@))
            &&& a.status == 206 && total is None ==> (verdict matches Ok(
                MetadataResult::Stream { file_size, file_name },
            ) && file_size is Unknown && file_name@ == reply_name(a, url@))
            &&& a.status == 200 ==> (verdict matches Ok(
                MetadataResult::Stream { file_size, file_name },
            ) && file_name@ == reply_name(a, url@) && match a.content_length {
                Some(n) => file_size == FileSize::Known(n),
                None => file_size is Unknown,
            })
        },
{
}

/// A server that wants a pause is waited for as long as it says: so many seconds, or until a
/// moment; where it says neither, nothing is known.
pub proof fn law_wanted_pauses_are_read(text: &str, now: &Moment, r: Option<u64>)
    requires
        call_ensures(parse_retry_after, (Some(text), now), r),
    ensures
        number_in(text@) matches Some(seconds) ==> r == Some(seconds),
        number_in(text@) is None && rfc2822_moment(text@) is None ==> r is None,
        number_in(text@) is None ==> (rfc2822_moment(text@) matches Some((seconds, nanos)) ==> {
            let until = Moment { seconds, nanos };
            &&& r is Some
            &&& until.seconds_from(*now) <= u64::MAX ==> r->0 == until.seconds_from(*now)
        }),
{
}

/// What is handed on for writing is what was gathered, byte for byte, and goes where it
/// belongs in the file.
pub proof fn law_bytes_are_written_where_they_belong(
    m: WorkerModel,
    chunk: Seq<u8>,
    write: WriteRequest,
    k: int,
)
    requires
        m.buffered <= m.data.len(),
        m.receive(chunk).hands_on(m, write),
        0 <= k < write.data@.len(),
    ensures
        write.data@.len() == m.buffered + chunk.len(),
        m.start + m.data.len() - m.buffered == write.offset,
        write.data@[k] == (m.data + chunk)[write.offset - m.start + k],
{
}

/// A request is sent as its method says, in big letters or small ones, if that is one of the
/// two that there are.
pub proof fn law_methods_are_read_in_any_letters(request: &Request, kind: Option<RequestKind>)
    requires
        call_ensures(Request::kind, (request,), kind),
    ensures
        ({
            let s = request@.method;
            let gets = s.len() == 3 && is_letter(s[0], 'g') && is_letter(s[1], 'e') && is_letter(
                s[2],
                't',
            );
            let posts = s.len() == 4 && is_letter(s[0], 'p') && is_letter(s[1], 'o') && is_letter(
                s[2],
                's',
            ) && is_letter(s[3], 't');
            &&& gets <==> kind == Some(RequestKind::Get)
            &&& posts <==> kind == Some(RequestKind::Post)
        }),
{
    reveal_strlit("get");
    reveal_strlit("post");
    let s = request@.method;
    let get = "get"@;
    let post = "post"@;
    if s.len() == 3 {
        lemma_small(s[0], 'g');
        lemma_small(s[1], 'e');
        lemma_small(s[2], 't');
        assert(is_word(s, get) <==> small(s[0]) == get[0] && small(s[1]) == get[1] && small(s[2])
            == get[2]);
    }
    if s.len() == 4 {
        lemma_small(s[0], 'p');
        lemma_small(s[1], 'o');
        lemma_small(s[2], 's');
        lemma_small(s[3], 't');
        assert(is_word(s, post) <==> small(s[0]) == post[0] && small(s[1]) == post[1] && small(s[2])
            == post[2] && small(s[3]) == post[3]);
    }
}

proof fn lemma_small(c: char, letter: char)
    requires
        'a' <= letter <= 'z',
    ensures
        small(c) == letter <==> is_letter(c, letter),
{
}

} // verus!
