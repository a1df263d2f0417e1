//! What cutting and reading texts comes to.

use vstd::prelude::*;
#[allow(unused_imports)]
use crate::utils::numbers::{decimal, digit_char, digits_value, is_digit, number_in};
#[allow(unused_imports)]
use crate::utils::text::first_index_of;
#[allow(unused_imports)]
use crate::utils::urls::{
    before, completed_url, host_label, last_segment, meant_host, spec_filename_from_url,
    tail_segment, HostModel,
};

verus! {

/// The first place of a character is one where it stands, and it stands nowhere before
/// that; where there is none, it does not stand in the text.
pub proof fn law_the_first_place_is_found(s: Seq<char>, c: char)
    ensures
        match first_index_of(s, c) {
            Some(i) => 0 <= i < s.len() && s[i] == c && forall|j: int|
                0 <= j < i ==> #[trigger] s[j] != c,
            None => forall|j: int| 0 <= j < s.len() ==> #[trigger] s[j] != c,
        },
    decreases s.len(),
{
    if s.len() > 0 {
        let rest = s.drop_first();
        law_the_first_place_is_found(rest, c);
        assert forall|j: int| 0 < j < s.len() implies #[trigger] s[j] == rest[j - 1] by {}
    }
}

/// What stands before a character is a beginning of the text without it, and goes as far
/// as that can.
pub proof fn law_texts_are_cut_at_the_first(s: Seq<char>, c: char)
    ensures
        before(s, c).len() <= s.len(),
        before(s, c) == s.subrange(0, before(s, c).len() as int),
        !before(s, c).contains(c),
        before(s, c).len() < s.len() ==> s[before(s, c).len() as int] == c,
{
    law_the_first_place_is_found(s, c);
}

/// Whether a part of a text, from `from` up to `to`, lies between slashes, or between one
/// and an end of the text, and holds none.
pub open spec fn is_step(s: Seq<char>, from: int, to: int) -> bool {
    &&& 0 <= from <= to <= s.len()
    &&& from == 0 || s[from - 1] == '/'
    &&& to == s.len() || s[to] == '/'
    &&& forall|i: int| from <= i < to ==> #[trigger] s[i] != '/'
}

/// What stands behind the last slash is the end of the text that holds none.
pub proof fn law_the_tail_is_behind_the_last_slash(s: Seq<char>)
    ensures
        tail_segment(s).len() <= s.len(),
        is_step(s, s.len() - tail_segment(s).len(), s.len() as int),
        tail_segment(s) == s.subrange(s.len() - tail_segment(s).len(), s.len() as int),
    decreases s.len(),
{
    if s.len() > 0 && s.last() != '/' {
        let rest = s.drop_last();
        law_the_tail_is_behind_the_last_slash(rest);
        let from = s.len() - tail_segment(s).len();
        assert forall|i: int| from <= i < s.len() implies #[trigger] s[i] != '/' by {
            if i < rest.len() {
                assert(rest[i] == s[i]);
            }
        }
        if from > 0 {
            assert(rest[from - 1] == s[from - 1]);
        }
        assert(tail_segment(s) =~= s.subrange(from, s.len() as int));
    } else {
        assert(tail_segment(s) =~= s.subrange(s.len() as int, s.len() as int));
    }
}

/// The last step of a text is one that holds something, and behind it there are only
/// slashes; a text has none only if it is made of slashes.
pub proof fn law_the_last_step_is_found(s: Seq<char>)
    ensures
        match last_segment(s) {
            Some(name) => exists|from: int, to: int| #[trigger]
                is_step(s, from, to) && from < to && name == s.subrange(from, to) && forall|i: int|
                    to <= i < s.len() ==> #[trigger] s[i] == '/',
            None => forall|i: int| 0 <= i < s.len() ==> #[trigger] s[i] == '/',
        },
    decreases s.len(),
{
    if s.len() > 0 {
        let rest = s.drop_last();
        if s.last() == '/' {
            law_the_last_step_is_found(rest);
            assert forall|i: int| 0 <= i < rest.len() implies #[trigger] s[i] == rest[i] by {}
            if let Some(name) = last_segment(rest) {
                let (from, to) = choose|from: int, to: int| #[trigger]
                    is_step(rest, from, to) && from < to && name == rest.subrange(from, to)
                        && forall|i: int| to <= i < rest.len() ==> #[trigger] rest[i] == '/';
                if to < rest.len() {
                    assert(rest[to] == s[to]);
                }
                assert forall|i: int| from <= i < to implies #[trigger] s[i] != '/' by {
                    assert(rest[i] == s[i]);
                }
                if from > 0 {
                    assert(rest[from - 1] == s[from - 1]);
                }
                assert(is_step(s, from, to));
                assert(name =~= s.subrange(from, to));
                assert forall|i: int| to <= i < s.len() implies #[trigger] s[i] == '/' by {
                    if i < rest.len() {
                        assert(rest[i] == '/');
                    }
                }
            } else {
                assert forall|i: int| 0 <= i < s.len() implies #[trigger] s[i] == '/' by {
                    if i < rest.len() {
                        assert(rest[i] == '/');
                    }
                }
            }
        } else {
            law_the_tail_is_behind_the_last_slash(s);
            assert(tail_segment(s).len() > 0);
            assert(is_step(s, s.len() - tail_segment(s).len(), s.len() as int));
        }
    }
}

/// The name that a URL suggests is the last step of what stands before a fragment and a
/// query.
pub proof fn law_names_come_from_the_path(url: Seq<char>, path: Seq<char>, rest: Seq<char>)
    requires
        url == path + rest,
        !path.contains('#'),
        !path.contains('?'),
        rest.len() > 0 ==> rest[0] == '#' || rest[0] == '?',
    ensures
        spec_filename_from_url(url) == last_segment(path),
{
    law_the_first_place_is_found(url, '#');
    let cut = before(url, '#');
    law_texts_are_cut_at_the_first(url, '#');
    law_texts_are_cut_at_the_first(cut, '?');
    let n = path.len() as int;
    assert forall|i: int| 0 <= i < n implies #[trigger] url[i] == path[i] by {}
    assert(cut.len() >= n) by {
        if cut.len() < n {
            assert(path[cut.len() as int] == '#');
        }
    }
    let name = before(cut, '?');
    assert(name.len() >= n) by {
        if name.len() < n {
            assert(cut[name.len() as int] == '?');
            assert(path[name.len() as int] == '?');
        }
    }
    if rest.len() > 0 {
        assert(url[n] == rest[0]);
        if rest[0] == '#' {
            if cut.len() > n {
                assert(cut[n] == '#');
                assert(cut.contains('#'));
            }
        } else {
            if name.len() > n {
                assert(name[n] == cut[n]);
                assert(name[n] == '?');
                assert(name.contains('?'));
            }
        }
    }
    assert(name.len() == n);
    assert(name =~= path);
}

/// A digit more makes a number ten times as great, and the digit greater.
pub proof fn law_numbers_are_read_digit_by_digit(s: Seq<char>, d: nat)
    requires
        d < 10,
        s.len() > 0,
        forall|i: int| 0 <= i < s.len() ==> '0' <= #[trigger] s[i] <= '9',
        number_in(s) is Some,
        number_in(s)->0 * 10 + d <= u64::MAX,
    ensures
        number_in(s.push(digit_char(d))) == Some((number_in(s)->0 * 10 + d) as u64),
{
    let longer = s.push(digit_char(d));
    assert(s[0] != '+');
    assert(longer[0] == s[0]);
    assert(longer.drop_last() =~= s);
    assert forall|i: int| 0 <= i < longer.len() implies is_digit(#[trigger] longer[i]) by {
        if i < s.len() {
            assert(longer[i] == s[i]);
        }
    }
}

/// A number is read from digits, with or without a plus sign in front, and from nothing
/// else.
pub proof fn law_only_digits_are_numbers(s: Seq<char>)
    ensures
        number_in(s) is Some ==> {
            let from: int = if s.len() > 0 && s[0] == '+' {
                1
            } else {
                0
            };
            &&& from < s.len()
            &&& forall|i: int| from <= i < s.len() ==> '0' <= #[trigger] s[i] <= '9'
        },
        s.len() > 0 && s[0] != '+' ==> number_in(seq!['+'] + s) == number_in(s),
        s.len() == 1 && '0' <= s[0] <= '9' ==> number_in(s) == Some((s[0] as int - 48) as u64),
{
    if s.len() > 0 && s[0] == '+' {
        let rest = s.drop_first();
        assert(forall|i: int| 1 <= i < s.len() ==> #[trigger] s[i] == rest[i - 1]);
    }
    let signed = seq!['+'] + s;
    assert(signed.drop_first() =~= s);
    if s.len() == 1 {
        assert(s.drop_last().len() == 0);
        assert(digits_value(s.drop_last()) == 0);
    }
}

/// A number is written with digits alone, and without a zero in front unless it is zero.
pub proof fn law_numbers_are_written_in_digits(n: nat)
    ensures
        decimal(n).len() > 0,
        forall|i: int| 0 <= i < decimal(n).len() ==> '0' <= #[trigger] decimal(n)[i] <= '9',
        n > 0 ==> decimal(n)[0] != '0',
        n < 10 ==> decimal(n).len() == 1,
    decreases n,
{
    if n >= 10 {
        law_numbers_are_written_in_digits(n / 10);
        let part = decimal(n / 10);
        assert(decimal(n) == part.push(digit_char(n % 10)));
        assert(decimal(n)[0] == part[0]);
        assert forall|i: int| 0 <= i < decimal(n).len() implies '0' <= #[trigger] decimal(n)[i]
            <= '9' by {
            if i < part.len() {
                assert(decimal(n)[i] == part[i]);
            }
        }
    }
}

/// A text without a scheme is taken for one of the web, and any other is left as it is.
/// The host that is meant is that of the URL, and the name itself only without one. A
/// file whose URL names no host is kept under one that tells the URLs apart.
pub proof fn law_incomplete_urls_are_completed(
    text: Seq<char>,
    other: Seq<char>,
    in_url: Option<HostModel>,
    by_name: Option<HostModel>,
)
    ensures
        completed_url(text, false) == text,
        completed_url(text, true).len() == text.len() + 8,
        completed_url(text, true).subrange(0, 8) == "https://"@,
        completed_url(text, true).skip(8) == text,
        in_url is Some ==> meant_host(in_url, by_name) == in_url,
        in_url is None ==> meant_host(in_url, by_name) == by_name,
        in_url is Some ==> Some(host_label(text, in_url)) == in_url,
        host_label(text, None) == host_label(other, None) ==> text == other,
{
    reveal_strlit("https://");
    assert(completed_url(text, true).subrange(0, 8) =~= "https://"@);
    assert(completed_url(text, true).skip(8) =~= text);
    if host_label(text, None) == host_label(other, None) {
        let front = "unknown-host ("@;
        let back = ")"@;
        let a = front + text + back;
        let b = front + other + back;
        assert(a == b) by {
            assert(host_label(text, None).text() == a);
            assert(host_label(other, None).text() == b);
        }
        let n = front.len() as int;
        assert(a.len() == n + text.len() + back.len());
        assert(b.len() == n + other.len() + back.len());
        assert(text.len() == other.len());
        assert(a.subrange(n, n + text.len()) =~= text);
        assert(b.subrange(n, n + other.len()) =~= other);
    }
}

} // verus!
