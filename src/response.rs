//! Response status taxonomy and the status line.
use vstd::prelude::*;

use crate::message::{Headers, HttpMessage, Startline, Version};
use crate::text::{decimal, push_char, push_decimal};

verus! {

/// Statuses of the 2xx family.
#[derive(Debug, PartialEq, Eq, Structural, Clone, Copy)]
pub enum Successful {
    OK,
    Created,
}

/// Statuses of the 5xx family.
#[derive(Debug, PartialEq, Eq, Structural, Clone, Copy)]
pub enum ServerError {
    Internal,
}

/// Statuses of the 4xx family.
#[derive(Debug, PartialEq, Eq, Structural, Clone, Copy)]
pub enum ClientError {
    NotFound,
}

/// A response status: a family and a member of it. The numeric code and the
/// reason phrase are both derived from it and never stored.
#[derive(Debug, PartialEq, Eq, Structural, Clone, Copy)]
pub enum Status {
    Successful(Successful),
    ClientError(ClientError),
    ServerError(ServerError),
}

impl Successful {
    pub open spec fn offset_spec(self) -> u16 {
        match self {
            Successful::OK => 0,
            Successful::Created => 1,
        }
    }
}

impl ServerError {
    pub open spec fn offset_spec(self) -> u16 {
        match self {
            ServerError::Internal => 0,
        }
    }
}

impl ClientError {
    pub open spec fn offset_spec(self) -> u16 {
        match self {
            ClientError::NotFound => 4,
        }
    }
}

impl Status {
    /// The numeric code: the family's base plus the member's offset.
    pub open spec fn code_spec(self) -> u16 {
        match self {
            Status::Successful(s) => (200 + s.offset_spec()) as u16,
            Status::ClientError(c) => (400 + c.offset_spec()) as u16,
            Status::ServerError(s) => (500 + s.offset_spec()) as u16,
        }
    }

    pub open spec fn reason_spec(self) -> Seq<char> {
        match self {
            Status::Successful(Successful::OK) => "OK"@,
            Status::Successful(Successful::Created) => "Created"@,
            Status::ClientError(ClientError::NotFound) => "Not Found"@,
            Status::ServerError(ServerError::Internal) => "Internal Server Error"@,
        }
    }

    pub fn code(&self) -> (r: u16)
        ensures
            r == self.code_spec(),
    {
        match self {
            Status::Successful(s) => 200 + match s {
                Successful::OK => 0,
                Successful::Created => 1,
            },
            Status::ClientError(c) => 400 + match c {
                ClientError::NotFound => 4,
            },
            Status::ServerError(s) => 500 + match s {
                ServerError::Internal => 0,
            },
        }
    }

    pub fn reason(&self) -> (r: String)
        ensures
            r@ == self.reason_spec(),
    {
        match self {
            Status::Successful(Successful::OK) => String::from_str("OK"),
            Status::Successful(Successful::Created) => String::from_str("Created"),
            Status::ClientError(ClientError::NotFound) => String::from_str("Not Found"),
            Status::ServerError(ServerError::Internal) => String::from_str(
                "Internal Server Error",
            ),
        }
    }
}

/// The standard reason phrase registered for a numeric code of the closed set.
pub open spec fn standard_reason(code: u16) -> Option<Seq<char>> {
    if code == 200 {
        Some("OK"@)
    } else if code == 201 {
        Some("Created"@)
    } else if code == 404 {
        Some("Not Found"@)
    } else if code == 500 {
        Some("Internal Server Error"@)
    } else {
        None
    }
}

/// Every status carries the code of its family and the standard phrase of
/// that code, and no two statuses share a code.
pub proof fn lemma_status_code_reason(s: Status)
    ensures
        standard_reason(s.code_spec()) == Some(s.reason_spec()),
        s is Successful <==> 200 <= s.code_spec() < 300,
        s is ClientError <==> 400 <= s.code_spec() < 500,
        s is ServerError <==> 500 <= s.code_spec() < 600,
        forall|t: Status| #[trigger] t.code_spec() == s.code_spec() ==> t == s,
{
}

/// The first line of a response: version, status code and reason phrase.
pub struct StatusLine {
    version: Version,
    status: Status,
}

impl StatusLine {
    pub fn new(version: Version, status: Status) -> (r: Self)
        ensures
            r.version() == version,
            r.status() == status,
    {
        Self { version, status }
    }

    pub closed spec fn version(&self) -> Version {
        self.version
    }

    pub closed spec fn status(&self) -> Status {
        self.status
    }

    pub fn get_status(&self) -> (r: Status)
        ensures
            r == self.status(),
    {
        self.status
    }
}

/// `<version> <code> <reason>`.
pub open spec fn status_line_text(version: Version, status: Status) -> Seq<char> {
    version.token_spec() + seq![' '] + decimal(status.code_spec() as nat) + seq![' ']
        + status.reason_spec()
}

impl Startline for StatusLine {
    open spec fn text_spec(&self) -> Seq<char> {
        status_line_text(self.version(), self.status())
    }

    fn text(&self) -> (r: String) {
        let mut r = self.version.token();
        push_char(&mut r, ' ');
        push_decimal(&mut r, self.status.code() as usize);
        push_char(&mut r, ' ');
        r.append(self.status.reason().as_str());
        proof {
            assert(r@ =~= status_line_text(self.version(), self.status()));
        }
        r
    }
}

impl HttpMessage<StatusLine> {
    /// A response whose start line is `HTTP/1.1` with `status`.
    pub open spec fn is_response(&self, status: Status) -> bool {
        self.start_line.version() == Version::Http1_1 && self.start_line.status() == status
    }

    /// `200 OK` with the given headers and body.
    pub fn ok(headers: Headers, body: Option<String>) -> (r: Self)
        ensures
            r.is_response(Status::Successful(Successful::OK)),
            r.headers == headers,
            r.body == body,
    {
        HttpMessage {
            headers,
            start_line: StatusLine::new(Version::Http1_1, Status::Successful(Successful::OK)),
            body,
        }
    }

    /// `201 Created` with the given headers and body.
    pub fn created(headers: Headers, body: Option<String>) -> (r: Self)
        ensures
            r.is_response(Status::Successful(Successful::Created)),
            r.headers == headers,
            r.body == body,
    {
        HttpMessage {
            headers,
            start_line: StatusLine::new(Version::Http1_1, Status::Successful(Successful::Created)),
            body,
        }
    }

    /// `404 Not Found` with no headers and no body.
    pub fn not_found() -> (r: Self)
        ensures
            r.is_response(Status::ClientError(ClientError::NotFound)),
            r.headers@.len() == 0,
            r.headers.wf(),
            r.body is None,
    {
        HttpMessage {
            headers: Headers::new(),
            start_line: StatusLine::new(Version::Http1_1, Status::ClientError(ClientError::NotFound)),
            body: None,
        }
    }

    /// `500 Internal Server Error` with no headers and no body.
    pub fn internal_error() -> (r: Self)
        ensures
            r.is_internal_error(),
    {
        HttpMessage {
            headers: Headers::new(),
            start_line: StatusLine::new(
                Version::Http1_1,
                Status::ServerError(ServerError::Internal),
            ),
            body: None,
        }
    }

    /// The fixed response that stands for any handler failure.
    pub open spec fn is_internal_error(&self) -> bool {
        &&& self.is_response(Status::ServerError(ServerError::Internal))
        &&& self.headers@.len() == 0
        &&& self.headers.wf()
        &&& self.body is None
    }
}

} // verus!
