use std::collections::HashMap;

use minihttp::message::{parse_headers, Headers, HttpMessage, ParseError, Request, Version};
use minihttp::request::{parse_requestline, Method, RequestLine};
use minihttp::response::{ClientError, ServerError, Status, StatusLine, Successful};

fn as_map(h: &Headers) -> HashMap<String, String> {
    h.to_vec().into_iter().collect()
}

#[test]
fn message_ok_response() {
    let status_line = StatusLine::new(Version::Http1_1, Status::Successful(Successful::OK));
    let response = HttpMessage::<StatusLine>::new(status_line, Headers::new(), None);

    assert_eq!(response.serialize(), "HTTP/1.1 200 OK\r\n\r\n");
}

#[test]
fn message_ok_response_with_headers() {
    let status_line = StatusLine::new(Version::Http1_1, Status::Successful(Successful::OK));
    let mut headers = Headers::new();
    headers.insert("Foo".to_string(), "Bar".to_string());
    let response = HttpMessage::<StatusLine>::new(status_line, headers, None);

    assert_eq!(response.serialize(), "HTTP/1.1 200 OK\r\nFoo: Bar\r\n\r\n");
}

#[test]
fn request_with_headers_and_body() {
    let request = "POST /files/number HTTP/1.1\r\nContent-Length: 5\r\n\r\nHallo";

    let message: Request = Request::parse(request).unwrap();

    assert_eq!(message.start_line.method, Method::Post);
    assert_eq!(message.start_line.target, "/files/number");
    assert_eq!(message.start_line.version, Version::Http1_1);

    assert_eq!(message.body, Some("Hallo".to_string()));
    assert_eq!(
        as_map(&message.headers),
        HashMap::from([("Content-Length".to_string(), "5".to_string())])
    );
}

#[test]
fn message_headers() {
    const HEADER: &str = "Header: Value\r\nFoo: Bar";
    let headers = parse_headers(HEADER).unwrap();
    assert_eq!(
        as_map(&headers),
        HashMap::from([
            ("Header".to_string(), "Value".to_string()),
            ("Foo".to_string(), "Bar".to_string())
        ])
    );
}

#[test]
fn request_headers() {
    const HEADER: &str = "Header: Value\r\nFoo: Bar";
    let headers = parse_headers(HEADER).unwrap();
    assert_eq!(
        as_map(&headers),
        HashMap::from([
            ("Header".to_string(), "Value".to_string()),
            ("Foo".to_string(), "Bar".to_string())
        ])
    );
}

#[test]
fn request_request_line() {
    let request_line = parse_requestline("GET / HTTP/1.1").unwrap();

    assert_eq!(request_line.method, Method::Get);
    assert_eq!(request_line.target, "/");
    assert_eq!(request_line.version, Version::Http1_1);

    let request_line = parse_requestline("POST / HTTP/1.1").unwrap();

    assert_eq!(request_line.method, Method::Post);
    assert_eq!(request_line.method.token(), "POST");
    assert_eq!(request_line.target, "/");
    assert_eq!(request_line.version.token(), "HTTP/1.1");
}

#[test]
fn request_without_headers() {
    let message = Request::parse("GET / HTTP/1.1\r\n\r\n").unwrap();
    assert_eq!(message.start_line.method, Method::Get);
    assert_eq!(message.start_line.target, "/");
    assert_eq!(message.start_line.version, Version::Http1_1);
    assert_eq!(message.headers.len(), 0);
    assert_eq!(message.body, None);
}

#[test]
fn body_trailing_bytes_ignored() {
    let message =
        Request::parse("POST /x HTTP/1.1\r\nContent-Length: 5\r\n\r\nHalloXXXX").unwrap();
    assert_eq!(message.body, Some("Hallo".to_string()));
}

#[test]
fn body_counted_in_bytes() {
    let message = Request::parse("POST /x HTTP/1.1\r\nContent-Length: 3\r\n\r\nébc").unwrap();
    assert_eq!(message.body, Some("éb".to_string()));
    let err = Request::parse("POST /x HTTP/1.1\r\nContent-Length: 1\r\n\r\né").err();
    assert_eq!(err, Some(ParseError::MisalignedBody));
}

#[test]
fn headers_without_length_have_no_body() {
    let message = Request::parse("GET /a HTTP/1.1\r\nHost: x\r\n\r\nignored").unwrap();
    assert_eq!(message.headers.get("Host"), Some("x".to_string()));
    assert_eq!(message.body, None);
}

#[test]
fn later_header_value_wins() {
    let headers = parse_headers("A: 1\r\nB: 2\r\nA: 3").unwrap();
    assert_eq!(headers.len(), 2);
    assert_eq!(headers.get("A"), Some("3".to_string()));
    assert_eq!(headers.get("B"), Some("2".to_string()));
    assert_eq!(headers.get("a"), None);
}

#[test]
fn header_value_split_at_first_separator() {
    let headers = parse_headers("Key: a: b").unwrap();
    assert_eq!(headers.get("Key"), Some("a: b".to_string()));
}

#[test]
fn parse_errors() {
    let cases: Vec<(&str, ParseError)> = vec![
        ("GET / HTTP/1.1", ParseError::MissingStartLine),
        ("GET /\r\n\r\n", ParseError::MalformedStartLine),
        ("GET / HTTP/1.1 extra\r\n\r\n", ParseError::MalformedStartLine),
        ("PUT / HTTP/1.1\r\n\r\n", ParseError::UnknownMethod),
        ("GET / HTTP/1.0\r\n\r\n", ParseError::UnsupportedVersion),
        ("GET / HTTP/1.1\r\nHost: x\r\n", ParseError::UnterminatedHeaders),
        ("GET / HTTP/1.1\r\nHost x\r\n\r\n", ParseError::MalformedHeader),
        ("POST / HTTP/1.1\r\nContent-Length: five\r\n\r\nHallo", ParseError::InvalidContentLength),
        ("POST / HTTP/1.1\r\nContent-Length: -1\r\n\r\n", ParseError::InvalidContentLength),
        (
            "POST / HTTP/1.1\r\nContent-Length: 99999999999999999999999\r\n\r\n",
            ParseError::InvalidContentLength,
        ),
        ("POST / HTTP/1.1\r\nContent-Length: 9\r\n\r\nHallo", ParseError::TruncatedBody),
    ];
    for (raw, expected) in cases {
        assert_eq!(Request::parse(raw).err(), Some(expected), "{:?}", raw);
    }
    assert_eq!(parse_headers("").err(), Some(ParseError::MalformedHeader));
}

#[test]
fn content_length_with_plus_sign() {
    let message = Request::parse("POST / HTTP/1.1\r\nContent-Length: +2\r\n\r\nabc").unwrap();
    assert_eq!(message.body, Some("ab".to_string()));
}

#[test]
fn request_round_trip() {
    let line = RequestLine {
        method: Method::Post,
        target: "/files/a.txt".to_string(),
        version: Version::Http1_1,
    };
    let mut headers = Headers::new();
    headers.insert("Host".to_string(), "localhost".to_string());
    headers.insert("Content-Length".to_string(), "4".to_string());
    let request = Request::new(line, headers, Some("data".to_string()));
    let text = request.serialize();
    let back = Request::parse(&text).unwrap();
    assert_eq!(back.start_line.method, Method::Post);
    assert_eq!(back.start_line.target, "/files/a.txt");
    assert_eq!(back.start_line.version, Version::Http1_1);
    assert_eq!(as_map(&back.headers), as_map(&request.headers));
    assert_eq!(back.body, Some("data".to_string()));
}

#[test]
fn status_codes_and_phrases() {
    let all = [
        (Status::Successful(Successful::OK), 200, "OK"),
        (Status::Successful(Successful::Created), 201, "Created"),
        (Status::ClientError(ClientError::NotFound), 404, "Not Found"),
        (Status::ServerError(ServerError::Internal), 500, "Internal Server Error"),
    ];
    for (status, code, phrase) in all {
        assert_eq!(status.code(), code);
        assert_eq!(status.reason(), phrase);
    }
}

#[test]
fn response_constructors() {
    let created = HttpMessage::<StatusLine>::created(Headers::new(), Some("x".to_string()));
    assert_eq!(created.serialize(), "HTTP/1.1 201 Created\r\n\r\nx");
    let missing = HttpMessage::<StatusLine>::not_found();
    assert_eq!(missing.serialize(), "HTTP/1.1 404 Not Found\r\n\r\n");
    let failed = HttpMessage::<StatusLine>::internal_error();
    assert_eq!(failed.serialize(), "HTTP/1.1 500 Internal Server Error\r\n\r\n");
    let mut ok = HttpMessage::<StatusLine>::ok(Headers::new(), None);
    ok.write("body".to_string());
    assert_eq!(ok.serialize(), "HTTP/1.1 200 OK\r\n\r\nbody");
}
