//! Decoding of a request line into method, path and query parameters.
use vstd::prelude::*;
use vstd::string::*;
use crate::method::{method_of, Method};
use crate::query_string::{decode_query, QueryString, ValueView};
use crate::text::{
    delimiter_count, find_char, first_of, get_next_word, is_delimiter, lemma_split_word_count,
    lemma_split_word_of, same_text, split_word,
};

verus! {

/// The text that `std::str::from_utf8` decodes from `b`, or `None` where
/// `b` is not valid UTF-8.
pub uninterp spec fn utf8_decode(b: Seq<u8>) -> Option<Seq<char>>;

/// Relies on `std::str::from_utf8`: it accepts exactly the valid UTF-8
/// buffers, and the text it yields depends on the bytes alone.
#[verifier::external_body]
fn decode_utf8<'a>(buf: &'a [u8]) -> (r: Option<&'a str>)
    ensures
        match r {
            Some(s) => utf8_decode(buf@) == Some(s@),
            None => utf8_decode(buf@) is None,
        },
{
    std::str::from_utf8(buf).ok()
}

/// Why a buffer could not be decoded as a request.
#[derive(PartialEq, Eq, Structural, Clone, Copy, Debug)]
pub enum ParseError {
    InvalidRequest,
    InvalidEncoding,
    InvalidProtocol,
    InvalidMethod,
}

/// The fixed label of each error kind.
pub open spec fn label(e: ParseError) -> Seq<char> {
    match e {
        ParseError::InvalidRequest => "InvalidRequest"@,
        ParseError::InvalidEncoding => "InvalidEncoding"@,
        ParseError::InvalidProtocol => "InvalidProtocol"@,
        ParseError::InvalidMethod => "InvalidMethod"@,
    }
}

impl ParseError {
    /// The label of this error, equal to its kind's name.
    pub fn message(&self) -> (r: &str)
        ensures
            r@ == label(*self),
    {
        match self {
            ParseError::InvalidRequest => "InvalidRequest",
            ParseError::InvalidEncoding => "InvalidEncoding",
            ParseError::InvalidProtocol => "InvalidProtocol",
            ParseError::InvalidMethod => "InvalidMethod",
        }
    }
}

/// The mathematical value of a [`Request`].
pub struct RequestView {
    pub method: Method,
    pub path: Seq<char>,
    pub query: Option<Map<Seq<char>, ValueView>>,
}

/// The path of a request target: the text before its first `?`.
pub open spec fn target_path(t: Seq<char>) -> Seq<char> {
    let k = first_of(t, '?', 0);
    if k < t.len() {
        t.subrange(0, k)
    } else {
        t
    }
}

/// The query parameters of a request target, present when it holds a `?`.
pub open spec fn target_query(t: Seq<char>) -> Option<Map<Seq<char>, ValueView>> {
    let k = first_of(t, '?', 0);
    if k < t.len() {
        Some(decode_query(t.subrange(k + 1, t.len() as int)))
    } else {
        None
    }
}

/// What decoding the text of a request gives.
pub open spec fn decode_line(t: Seq<char>) -> Result<RequestView, ParseError> {
    match split_word(t) {
        None => Err(ParseError::InvalidRequest),
        Some((verb, r1)) => match split_word(r1) {
            None => Err(ParseError::InvalidRequest),
            Some((target, r2)) => match split_word(r2) {
                None => Err(ParseError::InvalidRequest),
                Some((protocol, _)) => if protocol != "HTTP/1.1"@ {
                    Err(ParseError::InvalidProtocol)
                } else {
                    match method_of(verb) {
                        None => Err(ParseError::InvalidMethod),
                        Some(method) => Ok(
                            RequestView {
                                method,
                                path: target_path(target),
                                query: target_query(target),
                            },
                        ),
                    }
                },
            },
        },
    }
}

/// What decoding a raw buffer gives.
pub open spec fn decode_request(b: Seq<u8>) -> Result<RequestView, ParseError> {
    match utf8_decode(b) {
        None => Err(ParseError::InvalidEncoding),
        Some(t) => decode_line(t),
    }
}

/// A decoded request line; its texts borrow from the decoded buffer.
#[derive(Debug)]
pub struct Request<'a> {
    path: &'a str,
    query_string: Option<QueryString<'a>>,
    method: Method,
}

impl<'a> View for Request<'a> {
    type V = RequestView;

    closed spec fn view(&self) -> RequestView {
        RequestView {
            method: self.method,
            path: self.path@,
            query: match self.query_string {
                Some(q) => Some(q@),
                None => None,
            },
        }
    }
}

/// The mathematical value of a decoding result.
pub open spec fn result_view<'a>(r: Result<Request<'a>, ParseError>) -> Result<RequestView, ParseError> {
    match r {
        Ok(q) => Ok(q@),
        Err(e) => Err(e),
    }
}

impl<'a> Request<'a> {
    pub fn path(&self) -> (r: &str)
        ensures
            r@ == self@.path,
    {
        self.path
    }

    pub fn query_string(&self) -> (r: Option<&QueryString<'a>>)
        ensures
            match r {
                Some(q) => self@.query == Some(q@),
                None => self@.query is None,
            },
    {
        self.query_string.as_ref()
    }

    pub fn method(&self) -> (r: &Method)
        ensures
            *r == self@.method,
    {
        &self.method
    }

    /// Decodes the request line at the start of `text`.
    pub fn from_text(text: &'a str) -> (r: Result<Request<'a>, ParseError>)
        ensures
            result_view(r) == decode_line(text@),
    {
        let (verb, rest) = match get_next_word(text) {
            Some(p) => p,
            None => return Err(ParseError::InvalidRequest),
        };
        let (target, rest) = match get_next_word(rest) {
            Some(p) => p,
            None => return Err(ParseError::InvalidRequest),
        };
        let (protocol, _) = match get_next_word(rest) {
            Some(p) => p,
            None => return Err(ParseError::InvalidRequest),
        };
        if !same_text(protocol, "HTTP/1.1") {
            return Err(ParseError::InvalidProtocol);
        }
        let method = match Method::from_str(verb) {
            Ok(m) => m,
            Err(_) => return Err(ParseError::InvalidMethod),
        };
        match find_char(target, '?', 0) {
            Some(i) => {
                let n = target.unicode_len();
                let query = QueryString::from(target.substring_char(i + 1, n));
                Ok(Request { path: target.substring_char(0, i), query_string: Some(query), method })
            },
            None => Ok(Request { path: target, query_string: None, method }),
        }
    }

    /// Decodes a raw buffer that starts with a request line.
    pub fn try_from(buf: &'a [u8]) -> (r: Result<Request<'a>, ParseError>)
        ensures
            result_view(r) == decode_request(buf@),
            utf8_decode(buf@) is None ==> r == Err::<Request<'a>, ParseError>(
                ParseError::InvalidEncoding,
            ),
    {
        match decode_utf8(buf) {
            Some(text) => Request::from_text(text),
            None => Err(ParseError::InvalidEncoding),
        }
    }
}

/// A buffer whose text is `verb target HTTP/1.1`, a carriage return and
/// anything after, decodes whenever the verb names a method and neither the
/// verb nor the target holds a space or carriage return; the path is the
/// target up to its first `?`.
pub proof fn lemma_request_line_decodes(
    b: Seq<u8>,
    verb: Seq<char>,
    target: Seq<char>,
    rest: Seq<char>,
)
    requires
        utf8_decode(b) == Some(
            verb + seq![' '] + target + seq![' '] + "HTTP/1.1"@ + seq!['\r'] + rest,
        ),
        method_of(verb) is Some,
        forall|j: int| 0 <= j < verb.len() ==> !is_delimiter(#[trigger] verb[j]),
        forall|j: int| 0 <= j < target.len() ==> !is_delimiter(#[trigger] target[j]),
    ensures
        decode_request(b) == Ok::<RequestView, ParseError>(
            RequestView {
                method: method_of(verb)->0,
                path: target_path(target),
                query: target_query(target),
            },
        ),
        decode_request(b)->Ok_0.path == target_path(target),
{
    reveal_strlit("HTTP/1.1");
    let protocol = "HTTP/1.1"@;
    let r2 = protocol + seq!['\r'] + rest;
    let r1 = target + seq![' '] + r2;
    let t = verb + seq![' '] + r1;
    assert(utf8_decode(b) == Some(t)) by {
        assert(t =~= verb + seq![' '] + target + seq![' '] + protocol + seq!['\r'] + rest);
    }
    lemma_split_word_of(verb, ' ', r1);
    lemma_split_word_of(target, ' ', r2);
    assert forall|j: int| 0 <= j < protocol.len() implies !is_delimiter(#[trigger] protocol[j]) by {}
    lemma_split_word_of(protocol, '\r', rest);
}

/// A buffer whose text holds fewer than three spaces and carriage returns
/// has fewer than three tokens, and fails with `InvalidRequest`.
pub proof fn lemma_too_few_tokens(b: Seq<u8>, t: Seq<char>)
    requires
        utf8_decode(b) == Some(t),
        delimiter_count(t) < 3,
    ensures
        decode_request(b) == Err::<RequestView, ParseError>(ParseError::InvalidRequest),
{
    if let Some((_, r1)) = split_word(t) {
        lemma_split_word_count(t);
        if let Some((_, r2)) = split_word(r1) {
            lemma_split_word_count(r1);
            if split_word(r2) is Some {
                lemma_split_word_count(r2);
            }
        }
    }
}

/// Decoding the same buffer twice gives equal results.
pub proof fn lemma_decode_twice<'a>(
    b: Seq<u8>,
    r1: Result<Request<'a>, ParseError>,
    r2: Result<Request<'a>, ParseError>,
)
    requires
        result_view(r1) == decode_request(b),
        result_view(r2) == decode_request(b),
    ensures
        result_view(r1) == result_view(r2),
{
}

} // verus!
