//! The server's own handlers, as functions from request and capture to a
//! response.
use vstd::prelude::*;
use vstd::utf8::encode_utf8;

use crate::message::{insert_spec, lookup, Headers, Request, Response};
use crate::response::{ClientError, Status, Successful};
use crate::text::{decimal, decimal_string};

verus! {

/// What the handlers share: the directory files are served from.
pub struct ApiContext {
    pub dir: String,
}

impl ApiContext {
    pub fn new(dir: String) -> (r: Self)
        ensures
            r.dir == dir,
    {
        Self { dir }
    }
}

/// Why a handler could not answer.
#[derive(PartialEq, Eq, Structural, Debug, Clone, Copy)]
pub enum HandlerError {
    /// A header the handler needs is absent.
    MissingHeader,
}

/// The length in bytes that `str::len` reports for text `s`.
pub open spec fn wire_len(s: Seq<char>) -> usize {
    encode_utf8(s).len() as usize
}

/// `Content-Type` and `Content-Length` headers for a body of `len` bytes.
pub open spec fn content_headers(kind: Seq<char>, len: nat) -> Seq<(Seq<char>, Seq<char>)> {
    insert_spec(
        insert_spec(Seq::empty(), "Content-Type"@, kind),
        "Content-Length"@,
        decimal(len),
    )
}

fn content_headers_exec(kind: &str, len: usize) -> (r: Headers)
    ensures
        r@ == content_headers(kind@, len as nat),
        r.wf(),
{
    let mut h = Headers::new();
    h.insert(String::from_str("Content-Type"), String::from_str(kind));
    h.insert(String::from_str("Content-Length"), decimal_string(len));
    h
}

/// The default handler: `404 Not Found`.
pub fn not_found() -> (r: Result<Response, HandlerError>)
    ensures
        r matches Ok(m) && m.is_response(Status::ClientError(ClientError::NotFound))
            && m.headers@.len() == 0 && m.body is None,
{
    Ok(Response::not_found())
}

/// `200 OK` with no headers and no body.
pub fn handle_root() -> (r: Result<Response, HandlerError>)
    ensures
        r matches Ok(m) && m.is_response(Status::Successful(Successful::OK)) && m.headers@.len()
            == 0 && m.body is None,
{
    Ok(Response::ok(Headers::new(), None))
}

/// `200 OK` whose plain-text body is the capture.
pub fn handle_echo(echo: String) -> (r: Result<Response, HandlerError>)
    ensures
        r matches Ok(m) && m.is_response(Status::Successful(Successful::OK)) && m.headers@
            == content_headers("text/plain"@, wire_len(echo@) as nat) && m.body == Some(echo),
{
    let len = echo.as_str().len();
    let headers = content_headers_exec("text/plain", len);
    Ok(Response::ok(headers, Some(echo)))
}

/// `200 OK` whose plain-text body is the request's `User-Agent`; fails
/// where the request has none.
pub fn handle_useragent(request: &Request) -> (r: Result<Response, HandlerError>)
    ensures
        lookup(request.headers@, "User-Agent"@) is None ==> r == Err::<Response, HandlerError>(
            HandlerError::MissingHeader,
        ),
        lookup(request.headers@, "User-Agent"@) matches Some(ua) ==> (r matches Ok(m) && (
        m.is_response(Status::Successful(Successful::OK)) && (m.body matches Some(b) && (b@ == ua
            && m.headers@ == content_headers("text/plain"@, wire_len(b@) as nat))))),
{
    let user_agent = match request.headers.get("User-Agent") {
        Some(v) => v,
        None => {
            return Err(HandlerError::MissingHeader);
        },
    };
    let headers = content_headers_exec("text/plain", user_agent.as_str().len());
    let mut message = Response::ok(headers, None);
    message.write(user_agent);
    Ok(message)
}

/// The answer to a file request, given the file's content where it could be
/// read: `200 OK` with the content as an octet stream, else `404 Not Found`.
pub fn file_response(content: Option<String>) -> (r: Response)
    ensures
        content is None ==> r.is_response(Status::ClientError(ClientError::NotFound))
            && r.headers@.len() == 0 && r.body is None,
        content matches Some(c) ==> r.is_response(Status::Successful(Successful::OK))
            && r.headers@ == content_headers("application/octet-stream"@, wire_len(c@) as nat)
            && r.body == Some(c),
{
    match content {
        None => Response::not_found(),
        Some(c) => {
            let headers = content_headers_exec("application/octet-stream", c.as_str().len());
            Response::ok(headers, Some(c))
        },
    }
}

} // verus!
