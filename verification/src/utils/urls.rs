//! What a URL says about where it leads.

use url::{ParseError, Url};
use vstd::prelude::*;
use vstd::string::StringExecFns;
use crate::utils::text::{chars_of, find_char, string_of};
#[allow(unused_imports)]
use crate::utils::text::first_index_of;

verus! {

/// A host, told apart by what it is, with its text.
#[derive(Debug, Clone, PartialEq, Eq, Hash)]
pub enum Host {
    Domain(String),
    Ipv4(String),
    Ipv6(String),
}

/// A host, in mathematical values.
pub enum HostModel {
    Domain(Seq<char>),
    Ipv4(Seq<char>),
    Ipv6(Seq<char>),
}

impl View for Host {
    type V = HostModel;

    open spec fn view(&self) -> HostModel {
        match *self {
            Host::Domain(text) => HostModel::Domain(text@),
            Host::Ipv4(text) => HostModel::Ipv4(text@),
            Host::Ipv6(text) => HostModel::Ipv6(text@),
        }
    }
}

/// A host that may be missing, in mathematical values.
pub open spec fn host_view(host: Option<Host>) -> Option<HostModel> {
    match host {
        Some(h) => Some(h@),
        None => None,
    }
}

impl HostModel {
    /// The text of the host.
    pub open spec fn text(self) -> Seq<char> {
        match self {
            HostModel::Domain(text) => text,
            HostModel::Ipv4(text) => text,
            HostModel::Ipv6(text) => text,
        }
    }

    /// A text that only this host has: what it is, in front of its text.
    pub open spec fn key(self) -> Seq<char> {
        seq![
            match self {
                HostModel::Domain(_) => 'd',
                HostModel::Ipv4(_) => '4',
                HostModel::Ipv6(_) => '6',
            },
        ] + self.text()
    }
}

impl Host {
    /// The text of the host.
    pub fn text(&self) -> (r: &str)
        ensures
            r@ == self@.text(),
    {
        match self {
            Host::Domain(text) => text.as_str(),
            Host::Ipv4(text) => text.as_str(),
            Host::Ipv6(text) => text.as_str(),
        }
    }

    /// A text that only this host has.
    pub fn key(&self) -> (r: String)
        ensures
            r@ == self@.key(),
    {
        let mut r = String::new();
        r.push(
            match self {
                Host::Domain(_) => 'd',
                Host::Ipv4(_) => '4',
                Host::Ipv6(_) => '6',
            },
        );
        r.append(self.text());
        assert(r@ =~= self@.key());
        r
    }

    /// The same host once more.
    pub fn duplicate(&self) -> (r: Self)
        ensures
            r@ == self@,
    {
        match self {
            Host::Domain(text) => Host::Domain(text.clone()),
            Host::Ipv4(text) => Host::Ipv4(text.clone()),
            Host::Ipv6(text) => Host::Ipv6(text.clone()),
        }
    }
}

/// Hosts are told apart by their keys: a domain that reads like an address is not that
/// address.
pub proof fn law_keys_tell_hosts_apart(a: HostModel, b: HostModel)
    ensures
        a.key() == b.key() <==> a == b,
{
    if a.key() == b.key() {
        assert(a.key()[0] == b.key()[0]);
        assert(a.text() =~= a.key().skip(1));
        assert(b.text() =~= b.key().skip(1));
    }
}

/// The host that a URL names, if the URL can be read and names one.
pub uninterp spec fn host_of_url(url: Seq<char>) -> Option<HostModel>;

/// `Url::parse`, then `Url::host`, which of the three it is, and the text of it:
/// nothing where the URL cannot be read or has no host.
#[verifier::external_body]
pub(crate) fn url_host(url: &str) -> (r: Option<Host>)
    ensures
        host_view(r) == host_of_url(url@),
{
    let url = Url::parse(url).ok()?;
    let host = url.host()?;
    let text = host.to_string();
    Some(match host {
        url::Host::Domain(_) => Host::Domain(text),
        url::Host::Ipv4(_) => Host::Ipv4(text),
        url::Host::Ipv6(_) => Host::Ipv6(text),
    })
}

/// The host that a text names by itself, if it names one.
pub uninterp spec fn host_of_name(text: Seq<char>) -> Option<HostModel>;

/// `url::Host::parse`, which of the three it reads, and the text of it: nothing where
/// the text is no host.
#[verifier::external_body]
fn name_host(text: &str) -> (r: Option<Host>)
    ensures
        host_view(r) == host_of_name(text@),
{
    let host = url::Host::parse(text).ok()?;
    let text = host.to_string();
    Some(match host {
        url::Host::Domain(_) => Host::Domain(text),
        url::Host::Ipv4(_) => Host::Ipv4(text),
        url::Host::Ipv6(_) => Host::Ipv6(text),
    })
}

/// The host that is meant: the one that a URL names, or else the text itself if it is
/// one.
pub open spec fn meant_host(
    in_url: Option<HostModel>,
    by_name: Option<HostModel>,
) -> Option<HostModel> {
    match in_url {
        Some(host) => Some(host),
        None => by_name,
    }
}

/// The host that is meant by a host or by a URL.
pub fn parse_host_or_url(text: &str) -> (r: Option<Host>)
    ensures
        host_view(r) == meant_host(host_of_url(text@), host_of_name(text@)),
{
    match url_host(text) {
        Some(host) => Some(host),
        None => name_host(text),
    }
}

/// The path of a URL, and nothing if the text is none.
pub uninterp spec fn path_of_url(url: Seq<char>) -> Option<Seq<char>>;

/// `Url::parse`, and `Url::path` of what it reads: nothing where the text is no URL.
#[verifier::external_body]
pub(crate) fn url_path(url: &str) -> (r: Option<String>)
    ensures
        match r {
            Some(path) => path_of_url(url@) == Some(path@),
            None => path_of_url(url@).is_none(),
        },
{
    Url::parse(url).ok().map(|u| u.path().to_owned())
}

/// Whether a text is no URL for the reason that it names no scheme.
pub uninterp spec fn lacks_scheme(text: Seq<char>) -> bool;

/// Whether `Url::parse` fails with `ParseError::RelativeUrlWithoutBase`. Then the text
/// is no URL, and has no path.
#[verifier::external_body]
fn is_relative(text: &str) -> (r: bool)
    ensures
        r == lacks_scheme(text@),
        r ==> path_of_url(text@).is_none(),
{
    matches!(Url::parse(text), Err(ParseError::RelativeUrlWithoutBase))
}

/// What is meant by a text that may leave out the scheme of a URL.
pub open spec fn completed_url(text: Seq<char>, relative: bool) -> Seq<char> {
    if relative {
        "https://"@ + text
    } else {
        text
    }
}

/// The URL that is meant by a text, if one is. One that names no scheme is taken for
/// one of the web.
pub fn to_url(text: &str) -> (r: Option<String>)
    ensures
        ({
            let url = completed_url(text@, lacks_scheme(text@));
            match r {
                Some(u) => u@ == url && path_of_url(url).is_some(),
                None => path_of_url(url).is_none(),
            }
        }),
{
    let url = if is_relative(text) {
        let mut url = "https://".to_owned();
        url.append(text);
        url
    } else {
        text.to_owned()
    };
    if url_path(url.as_str()).is_some() {
        Some(url)
    } else {
        None
    }
}

/// The host under which a file is kept: the one its URL names, or a stand-in that
/// quotes the URL.
pub open spec fn host_label(url: Seq<char>, host: Option<HostModel>) -> HostModel {
    match host {
        Some(h) => h,
        None => HostModel::Domain("unknown-host ("@ + url + ")"@),
    }
}

/// The host under which a file is kept, from what its URL was read as.
pub fn label_of_host(url: &str, host: Option<Host>) -> (r: Host)
    ensures
        r@ == host_label(url@, host_view(host)),
{
    match host {
        Some(h) => h,
        None => {
            let mut r = "unknown-host (".to_owned();
            r.append(url);
            r.append(")");
            Host::Domain(r)
        },
    }
}

/// The host under which a file with this URL is kept.
pub fn host_or_label(url: &str) -> (r: Host)
    ensures
        r@ == host_label(url@, host_of_url(url@)),
{
    label_of_host(url, url_host(url))
}

/// What stands in front of the first `c`, or everything where there is none.
pub open spec fn before(s: Seq<char>, c: char) -> Seq<char> {
    match first_index_of(s, c) {
        Some(i) => s.take(i),
        None => s,
    }
}

/// The last stretch without a slash that holds anything.
pub open spec fn last_segment(s: Seq<char>) -> Option<Seq<char>>
    decreases s.len(),
{
    if s.len() == 0 {
        None
    } else if s.last() == '/' {
        last_segment(s.drop_last())
    } else {
        Some(tail_segment(s))
    }
}

/// What stands behind the last slash.
pub open spec fn tail_segment(s: Seq<char>) -> Seq<char>
    decreases s.len(),
{
    if s.len() == 0 || s.last() == '/' {
        Seq::empty()
    } else {
        tail_segment(s.drop_last()).push(s.last())
    }
}

/// The file name that a URL suggests: its last path segment that is not empty,
/// without fragment and query.
pub open spec fn spec_filename_from_url(url: Seq<char>) -> Option<Seq<char>> {
    last_segment(before(before(url, '#'), '?'))
}

pub proof fn lemma_tail_segment(s: Seq<char>, from: int)
    requires
        0 <= from <= s.len(),
        forall|i: int| from <= i < s.len() ==> s[i] != '/',
        from == 0 || s[from - 1] == '/',
    ensures
        tail_segment(s) == s.skip(from),
    decreases s.len(),
{
    if from < s.len() {
        lemma_tail_segment(s.drop_last(), from);
        assert(s.drop_last().skip(from).push(s.last()) =~= s.skip(from));
    } else {
        assert(s.skip(from) =~= Seq::<char>::empty());
    }
}

/// The file name that a URL suggests, if it suggests one.
pub fn filename_from_url(url: &str) -> (r: Option<String>)
    ensures
        match r {
            Some(name) => spec_filename_from_url(url@) == Some(name@),
            None => spec_filename_from_url(url@).is_none(),
        },
{
    let all = chars_of(url);
    let total: usize = all.len();
    let head = match find_char(&all, '#') {
        Some(i) => string_of(&all, 0, i),
        None => string_of(&all, 0, total),
    };
    assert(head@ =~= before(url@, '#'));
    let chars = chars_of(head.as_str());
    let mut end: usize = match find_char(&chars, '?') {
        Some(i) => i,
        None => chars.len(),
    };
    let ghost path = before(before(url@, '#'), '?');
    assert(path =~= chars@.take(end as int));
    while end > 0 && chars[end - 1] == '/'
        invariant
            end <= chars@.len(),
            last_segment(path) == last_segment(chars@.take(end as int)),
        decreases end,
    {
        assert(chars@.take(end as int).last() == '/');
        assert(chars@.take(end as int).drop_last() =~= chars@.take(end - 1));
        end -= 1;
    }
    if end == 0 {
        return None;
    }
    let mut start: usize = end;
    while start > 0 && chars[start - 1] != '/'
        invariant
            start <= end <= chars@.len(),
            forall|i: int| start <= i < end ==> chars@[i] != '/',
        decreases start,
    {
        start -= 1;
    }
    proof {
        let s = chars@.take(end as int);
        assert(s.last() == chars@[end - 1]);
        lemma_tail_segment(s, start as int);
        assert(s.skip(start as int) =~= chars@.subrange(start as int, end as int));
    }
    Some(string_of(&chars, start, end))
}

/// A suggested name is never empty and holds no slash.
pub proof fn law_suggested_name_is_one_segment(url: Seq<char>)
    ensures
        spec_filename_from_url(url) matches Some(name) ==> name.len() > 0 && !name.contains('/'),
{
    lemma_last_segment(before(before(url, '#'), '?'));
}

proof fn lemma_last_segment(s: Seq<char>)
    ensures
        last_segment(s) matches Some(name) ==> name.len() > 0 && !name.contains('/'),
    decreases s.len(),
{
    if s.len() > 0 {
        if s.last() == '/' {
            lemma_last_segment(s.drop_last());
        } else {
            lemma_tail_has_no_slash(s);
        }
    }
}

proof fn lemma_tail_has_no_slash(s: Seq<char>)
    ensures
        !tail_segment(s).contains('/'),
    decreases s.len(),
{
    if s.len() > 0 && s.last() != '/' {
        lemma_tail_has_no_slash(s.drop_last());
    }
}

} // verus!
