//! What a plugin asks of a server.

use vstd::prelude::*;
use vstd::string::StringExecFns;
use crate::utils::text::{chars_of, text_eq};

verus! {

/// A header of a request.
pub struct Header {
    pub key: String,
    pub value: String,
}

/// A request that a plugin makes.
pub struct Request {
    url: String,
    body: Option<String>,
    headers: Vec<Header>,
    method: String,
}

/// A request, in mathematical values.
#[verifier::ext_equal]
pub struct RequestModel {
    pub url: Seq<char>,
    pub body: Option<Seq<char>>,
    pub headers: Map<Seq<char>, Seq<char>>,
    pub method: Seq<char>,
}

/// Headers by name. Of several with one name, the last counts.
pub open spec fn headers_view(headers: Seq<Header>) -> Map<Seq<char>, Seq<char>>
    decreases headers.len(),
{
    if headers.len() == 0 {
        Map::empty()
    } else {
        headers_view(headers.drop_last()).insert(headers.last().key@, headers.last().value@)
    }
}

impl View for Request {
    type V = RequestModel;

    closed spec fn view(&self) -> RequestModel {
        RequestModel {
            url: self.url@,
            body: match self.body {
                Some(body) => Some(body@),
                None => None,
            },
            headers: headers_view(self.headers@),
            method: self.method@,
        }
    }
}

/// How a request is sent.
#[derive(Debug, Clone, Copy, PartialEq, Eq, Structural)]
pub enum RequestKind {
    Get,
    Post,
}

/// The small letter of a big one.
pub open spec fn small(c: char) -> char {
    if 'A' <= c && c <= 'Z' {
        ((c as u32 + 32) as u32) as char
    } else {
        c
    }
}

fn to_small(c: char) -> (r: char)
    ensures
        r == small(c),
{
    if 'A' <= c && c <= 'Z' {
        ((c as u8) + 32) as char
    } else {
        c
    }
}

/// Whether a text is a word, in small letters or big ones.
pub open spec fn is_word(text: Seq<char>, word: Seq<char>) -> bool {
    text.len() == word.len() && forall|i: int|
        0 <= i < text.len() ==> small(#[trigger] text[i]) == word[i]
}

fn matches_word(text: &str, word: &str) -> (r: bool)
    ensures
        r == is_word(text@, word@),
{
    let a = chars_of(text);
    let b = chars_of(word);
    let n: usize = a.len();
    if n != b.len() {
        return false;
    }
    let mut i: usize = 0;
    while i < n
        invariant
            i <= n,
            n == a@.len(),
            n == b@.len(),
            a@ == text@,
            b@ == word@,
            forall|k: int| 0 <= k < i ==> small(#[trigger] text@[k]) == word@[k],
        decreases n - i,
    {
        if to_small(a[i]) != b[i] {
            assert(small(text@[i as int]) != word@[i as int]);
            return false;
        }
        i += 1;
    }
    true
}

impl Request {
    /// A request that asks for what is behind a URL.
    pub fn new(url: String) -> (r: Self)
        ensures
            r@ == (RequestModel {
                url: url@,
                body: None,
                headers: Map::empty(),
                method: "get"@,
            }),
    {
        Request { url, body: None, headers: Vec::new(), method: "get".to_owned() }
    }

    /// Sends a text along.
    pub fn body(&mut self, body: String)
        ensures
            final(self)@ == (RequestModel { body: Some(body@), ..old(self)@ }),
    {
        self.body = Some(body);
    }

    /// Sets a header, in place of one with the same name.
    pub fn header(&mut self, key: String, value: String)
        ensures
            final(self)@ == (RequestModel {
                headers: old(self)@.headers.insert(key@, value@),
                ..old(self)@
            }),
    {
        let ghost before = self.headers@;
        self.headers.push(Header { key, value });
        assert(self.headers@.drop_last() =~= before);
    }

    /// Sets how the request is sent.
    pub fn method(&mut self, method: String)
        ensures
            final(self)@ == (RequestModel { method: method@, ..old(self)@ }),
    {
        self.method = method;
    }

    /// How the request is sent, if it can be.
    pub fn kind(&self) -> (r: Option<RequestKind>)
        ensures
            r == if is_word(self@.method, "get"@) {
                Some(RequestKind::Get)
            } else if is_word(self@.method, "post"@) {
                Some(RequestKind::Post)
            } else {
                None
            },
    {
        if matches_word(self.method.as_str(), "get") {
            Some(RequestKind::Get)
        } else if matches_word(self.method.as_str(), "post") {
            Some(RequestKind::Post)
        } else {
            None
        }
    }

    /// The URL that is asked.
    pub fn url(&self) -> (r: &str)
        ensures
            r@ == self@.url,
    {
        self.url.as_str()
    }

    /// The text that is sent along.
    pub fn sent_body(&self) -> (r: Option<&String>)
        ensures
            match r {
                Some(body) => self@.body == Some(body@),
                None => self@.body.is_none(),
            },
    {
        self.body.as_ref()
    }

    /// The header with a name.
    pub fn get_header(&self, key: &str) -> (r: Option<&String>)
        ensures
            match r {
                Some(value) => self@.headers.contains_key(key@) && self@.headers[key@] == value@,
                None => !self@.headers.contains_key(key@),
            },
    {
        let mut n: usize = self.headers.len();
        assert(self.headers@.take(n as int) =~= self.headers@);
        while n > 0
            invariant
                n <= self.headers@.len(),
                headers_view(self.headers@).contains_key(key@) == headers_view(
                    self.headers@.take(n as int),
                ).contains_key(key@),
                headers_view(self.headers@)[key@] == headers_view(
                    self.headers@.take(n as int),
                )[key@],
            decreases n,
        {
            let ghost part = self.headers@.take(n as int);
            assert(part.drop_last() =~= self.headers@.take(n - 1));
            assert(part.last() == self.headers@[n - 1]);
            if text_eq(self.headers[n - 1].key.as_str(), key) {
                return Some(&self.headers[n - 1].value);
            }
            n -= 1;
        }
        assert(self.headers@.take(0) =~= Seq::<Header>::empty());
        None
    }

    /// The headers, of which the last with a name counts.
    pub fn headers(&self) -> (r: &Vec<Header>)
        ensures
            headers_view(r@) == self@.headers,
    {
        &self.headers
    }
}

/// What plugins are given to work with.
pub struct Utils {}

impl Utils {
    /// The line that is logged for a message of a plugin.
    pub fn log(&self, msg: &str) -> (r: String)
        ensures
            r@ == "[PLUGIN] "@ + msg@,
    {
        let mut r = "[PLUGIN] ".to_owned();
        r.append(msg);
        r
    }

    /// A request that asks for what is behind a URL.
    pub fn request(&self, url: String) -> (r: Request)
        ensures
            r@ == (RequestModel {
                url: url@,
                body: None,
                headers: Map::empty(),
                method: "get"@,
            }),
    {
        Request::new(url)
    }
}

} // verus!
