//! Request methods and the request line.
use vstd::prelude::*;

use crate::message::{version_from_spec, ParseError, Startline, Version};
use crate::text::{chars_of, push_char, slice_equals, split, split_pieces, string_of, views};

verus! {

/// The request methods this server understands.
#[derive(PartialEq, Eq, Structural, Debug, Clone, Copy)]
pub enum Method {
    Get,
    Post,
}

/// The method a token names, if any.
pub open spec fn method_from_spec(t: Seq<char>) -> Option<Method> {
    if t == "GET"@ {
        Some(Method::Get)
    } else if t == "POST"@ {
        Some(Method::Post)
    } else {
        None
    }
}

impl Method {
    pub open spec fn token_spec(self) -> Seq<char> {
        match self {
            Method::Get => "GET"@,
            Method::Post => "POST"@,
        }
    }

    /// The method's wire token.
    pub fn token(&self) -> (r: String)
        ensures
            r@ == self.token_spec(),
    {
        match self {
            Method::Get => String::from_str("GET"),
            Method::Post => String::from_str("POST"),
        }
    }

    /// The method named by a token; an unknown token is refused.
    pub fn from_token(t: &Vec<char>) -> (r: Result<Method, ParseError>)
        ensures
            r == (match method_from_spec(t@) {
                Some(m) => Ok(m),
                None => Err(ParseError::UnknownMethod),
            }),
    {
        let get = chars_of("GET");
        let post = chars_of("POST");
        if slice_equals(t, 0, t.len(), &get) {
            assert(t@.subrange(0, t@.len() as int) =~= t@);
            Ok(Method::Get)
        } else if slice_equals(t, 0, t.len(), &post) {
            assert(t@.subrange(0, t@.len() as int) =~= t@);
            Ok(Method::Post)
        } else {
            assert(t@.subrange(0, t@.len() as int) =~= t@);
            Err(ParseError::UnknownMethod)
        }
    }
}

/// Each method's token names that method, and no other.
pub proof fn lemma_method_token(m: Method)
    ensures
        method_from_spec(m.token_spec()) == Some(m),
{
    reveal_strlit("GET");
    reveal_strlit("POST");
    assert("GET"@.len() != "POST"@.len());
}

/// The first line of a request: method, target path and version.
pub struct RequestLine {
    pub method: Method,
    pub target: String,
    pub version: Version,
}

/// `<method> <target> <version>`.
pub open spec fn request_line_text(method: Method, target: Seq<char>, version: Version) -> Seq<
    char,
> {
    method.token_spec() + seq![' '] + target + seq![' '] + version.token_spec()
}

impl Startline for RequestLine {
    open spec fn text_spec(&self) -> Seq<char> {
        request_line_text(self.method, self.target@, self.version)
    }

    fn text(&self) -> (r: String) {
        let mut r = self.method.token();
        push_char(&mut r, ' ');
        r.append(self.target.as_str());
        push_char(&mut r, ' ');
        r.append(self.version.token().as_str());
        proof {
            assert(r@ =~= request_line_text(self.method, self.target@, self.version));
        }
        r
    }
}

/// What a request line parses to: exactly three space-separated tokens, a
/// known method, any target and a supported version.
pub open spec fn request_line_spec(t: Seq<char>) -> Result<(Method, Seq<char>, Version), ParseError> {
    let toks = split(t, seq![' ']);
    if toks.len() != 3 {
        Err(ParseError::MalformedStartLine)
    } else {
        match method_from_spec(toks[0]) {
            None => Err(ParseError::UnknownMethod),
            Some(m) => match version_from_spec(toks[2]) {
                None => Err(ParseError::UnsupportedVersion),
                Some(v) => Ok((m, toks[1], v)),
            },
        }
    }
}

impl RequestLine {
    pub open spec fn parts(&self) -> (Method, Seq<char>, Version) {
        (self.method, self.target@, self.version)
    }

    /// Parses a request line given as characters.
    pub fn from_chars(t: &Vec<char>) -> (r: Result<RequestLine, ParseError>)
        ensures
            match r {
                Ok(l) => request_line_spec(t@) == Ok::<_, ParseError>(l.parts()),
                Err(e) => request_line_spec(t@) == Err::<(Method, Seq<char>, Version), _>(e),
            },
    {
        let sp = vec![' '];
        let toks = split_pieces(t, &sp);
        assert(sp@ =~= seq![' ']);
        proof {
            assert(views(toks@).len() == toks@.len());
        }
        if toks.len() != 3 {
            return Err(ParseError::MalformedStartLine);
        }
        assert(views(toks@)[0] == toks@[0]@);
        assert(views(toks@)[1] == toks@[1]@);
        assert(views(toks@)[2] == toks@[2]@);
        let method = match Method::from_token(&toks[0]) {
            Ok(m) => m,
            Err(e) => {
                return Err(e);
            },
        };
        let version = match Version::from_token(&toks[2]) {
            Ok(v) => v,
            Err(e) => {
                return Err(e);
            },
        };
        let target = string_of(&toks[1], 0, toks[1].len());
        assert(toks@[1]@.subrange(0, toks@[1]@.len() as int) =~= toks@[1]@);
        Ok(RequestLine { method, target, version })
    }
}

/// Parses a request line such as `GET / HTTP/1.1`.
pub fn parse_requestline(raw: &str) -> (r: Result<RequestLine, ParseError>)
    ensures
        match r {
            Ok(l) => request_line_spec(raw@) == Ok::<_, ParseError>(l.parts()),
            Err(e) => request_line_spec(raw@) == Err::<(Method, Seq<char>, Version), _>(e),
        },
{
    let t = chars_of(raw);
    RequestLine::from_chars(&t)
}

} // verus!
