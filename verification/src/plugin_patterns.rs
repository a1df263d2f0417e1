//! The patterns by which plugins say which URLs they are for.

use regex::Regex;
use vstd::prelude::*;
use vstd::string::StringExecFns;
use crate::utils::text::{chars_of, string_of};
use crate::utils::urls::{url_host, url_path};
#[allow(unused_imports)]
use crate::utils::urls::{host_of_url, path_of_url, HostModel};

verus! {

/// Whether a text is a pattern.
pub uninterp spec fn is_pattern(text: Seq<char>) -> bool;

/// Whether `Regex::new` takes a text.
#[verifier::external_body]
pub(crate) fn check_pattern(text: &str) -> (r: bool)
    ensures
        r == is_pattern(text@),
{
    Regex::new(text).is_ok()
}

/// Whether a pattern is found in a text. A text that is no pattern is found nowhere.
pub uninterp spec fn pattern_found(pattern: Seq<char>, text: Seq<char>) -> bool;

/// `Regex::is_match` of what `Regex::new` makes of a pattern.
#[verifier::external_body]
pub(crate) fn find_pattern(pattern: &str, text: &str) -> (r: bool)
    ensures
        r == pattern_found(pattern@, text@),
        r ==> is_pattern(pattern@),
{
    Regex::new(pattern).map_or(false, |regex| regex.is_match(text))
}

/// Whether a character means something in a pattern.
pub open spec fn has_meaning(c: char) -> bool {
    c == '\\' || c == '.' || c == '+' || c == '*' || c == '?' || c == '(' || c == ')' || c == '|'
        || c == '[' || c == ']' || c == '{' || c == '}' || c == '^' || c == '$' || c == '#' || c
        == '&' || c == '-' || c == '~'
}

/// The pattern that is found where a text is: a backslash before each character that
/// would mean something.
pub open spec fn escaped(text: Seq<char>) -> Seq<char>
    decreases text.len(),
{
    if text.len() == 0 {
        Seq::empty()
    } else {
        let before = escaped(text.drop_last());
        if has_meaning(text.last()) {
            before.push('\\').push(text.last())
        } else {
            before.push(text.last())
        }
    }
}

/// `regex::escape`: a backslash is put before each character that has a meaning in a
/// pattern.
#[verifier::external_body]
fn escape_text(text: &str) -> (r: String)
    ensures
        r@ == escaped(text@),
{
    regex::escape(text)
}

/// The host without a leading `www.`.
pub open spec fn bare_host(host: Seq<char>) -> Seq<char> {
    if "www."@.len() <= host.len() && host.take("www."@.len() as int) == "www."@ {
        host.skip("www."@.len() as int)
    } else {
        host
    }
}

/// A text without the slashes at its end.
pub open spec fn without_slashes(s: Seq<char>) -> Seq<char>
    decreases s.len(),
{
    if s.len() > 0 && s.last() == '/' {
        without_slashes(s.drop_last())
    } else {
        s
    }
}

/// The pattern for a URL and everything below it, with or without `www.`, whether
/// encrypted or not.
pub open spec fn url_pattern(host: Option<Seq<char>>, path: Seq<char>) -> Seq<char> {
    let host = match host {
        Some(h) => h,
        None => Seq::empty(),
    };
    "^https?://(www\\.)?"@ + escaped(bare_host(host)) + escaped(without_slashes(path))
        + "(?:/.*)?$"@
}

fn strip_www(host: &str) -> (r: String)
    ensures
        r@ == bare_host(host@),
{
    let chars = chars_of(host);
    let n: usize = chars.len();
    proof {
        reveal_strlit("www.");
    }
    if n >= 4 && chars[0] == 'w' && chars[1] == 'w' && chars[2] == 'w' && chars[3] == '.' {
        assert(host@.take(4) =~= "www."@);
        assert(host@.skip(4) =~= chars@.subrange(4, n as int));
        string_of(&chars, 4, n)
    } else {
        proof {
            if 4 <= host@.len() && host@.take(4) == "www."@ {
                assert(host@[0] == host@.take(4)[0]);
                assert(host@[1] == host@.take(4)[1]);
                assert(host@[2] == host@.take(4)[2]);
                assert(host@[3] == host@.take(4)[3]);
            }
        }
        host.to_owned()
    }
}

fn strip_slashes(path: &str) -> (r: String)
    ensures
        r@ == without_slashes(path@),
{
    let chars = chars_of(path);
    let mut n: usize = chars.len();
    assert(chars@.take(n as int) =~= chars@);
    while n > 0 && chars[n - 1] == '/'
        invariant
            n <= chars@.len(),
            without_slashes(chars@.take(n as int)) == without_slashes(chars@),
        decreases n,
    {
        assert(chars@.take(n as int).drop_last() =~= chars@.take(n - 1));
        n -= 1;
    }
    assert(chars@.subrange(0, n as int) =~= chars@.take(n as int));
    string_of(&chars, 0, n)
}

/// The pattern for a host and a path.
pub fn pattern_for(host: Option<String>, path: &str) -> (r: String)
    ensures
        r@ == url_pattern(
            match host {
                Some(h) => Some(h@),
                None => None,
            },
            path@,
        ),
{
    let host = match host {
        Some(h) => h,
        None => String::new(),
    };
    let bare = strip_www(host.as_str());
    let path = strip_slashes(path);
    let mut r = "^https?://(www\\.)?".to_owned();
    r.append(escape_text(bare.as_str()).as_str());
    r.append(escape_text(path.as_str()).as_str());
    r.append("(?:/.*)?$");
    r
}

/// The text of a host that may be missing.
pub open spec fn host_text(host: Option<HostModel>) -> Option<Seq<char>> {
    match host {
        Some(h) => Some(h.text()),
        None => None,
    }
}

/// The pattern for a URL and everything below it, if the text is a URL.
pub fn to_regex(url: &str) -> (r: Option<String>)
    ensures
        match r {
            Some(pattern) => path_of_url(url@).is_some() && pattern@ == url_pattern(
                host_text(host_of_url(url@)),
                path_of_url(url@)->0,
            ),
            None => path_of_url(url@).is_none(),
        },
{
    match url_path(url) {
        Some(path) => {
            let host = match url_host(url) {
                Some(host) => Some(host.text().to_owned()),
                None => None,
            };
            Some(pattern_for(host, path.as_str()))
        },
        None => None,
    }
}

/// A slash at the end of the path makes no difference, and neither does `www.` before
/// the host.
pub proof fn law_patterns_ignore_slashes_and_www(host: Seq<char>, path: Seq<char>)
    requires
        bare_host(host) == host,
    ensures
        url_pattern(Some("www."@ + host), path.push('/')) == url_pattern(Some(host), path),
{
    assert(path.push('/').drop_last() =~= path);
    let long = "www."@ + host;
    assert(long.take("www."@.len() as int) =~= "www."@);
    assert(long.skip("www."@.len() as int) =~= host);
}

} // verus!
