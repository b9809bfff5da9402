use minihttp::handlers::{
    file_response, handle_echo, handle_root, handle_useragent, not_found, ApiContext,
    HandlerError,
};
use minihttp::message::{Headers, HttpMessage, Request, Response, Version};
use minihttp::request::Method;
use minihttp::response::{ClientError, ServerError, Status, StatusLine, Successful};
use minihttp::router::{match_route, RouteError, Router};

type Handler = Box<dyn Fn(&Request, String, &ApiContext) -> Result<Response, HandlerError>>;

fn request(raw: &str) -> Request {
    Request::parse(raw).unwrap()
}

fn echo_router() -> Router<ApiContext, Handler> {
    let mut router: Router<ApiContext, Handler> =
        Router::new(Box::new(|_, _, _| not_found()), ApiContext::new("/tmp".to_string()));
    router
        .add(Method::Get, "/echo/{x}".to_string(), Box::new(|_, c, _| handle_echo(c)))
        .unwrap();
    router.add(Method::Get, "/".to_string(), Box::new(|_, _, _| handle_root())).unwrap();
    router
        .add(Method::Get, "/user-agent".to_string(), Box::new(|r, _, _| handle_useragent(r)))
        .unwrap();
    router
}

#[test]
fn static_route_matches_exactly() {
    let p = "GET/user-agent".to_string();
    assert_eq!(match_route(&p, &"GET/user-agent".to_string()), Some(String::new()));
    assert_eq!(match_route(&p, &"GET/user-agents".to_string()), None);
    assert_eq!(match_route(&p, &"POST/user-agent".to_string()), None);
}

#[test]
fn wildcard_route_captures_greedily() {
    let p = "GET/echo/{x}".to_string();
    assert_eq!(match_route(&p, &"GET/echo/hi".to_string()), Some("hi".to_string()));
    assert_eq!(match_route(&p, &"GET/echo/a/b".to_string()), Some("a/b".to_string()));
    assert_eq!(match_route(&p, &"GET/echo/".to_string()), None);
}

#[test]
fn execute_echo() {
    let router = echo_router();
    let req = request("GET /echo/hi HTTP/1.1\r\n\r\n");
    let r = router.execute(Method::Get, &"/echo/hi".to_string(), &req);
    assert_eq!(r.start_line.get_status(), Status::Successful(Successful::OK));
    assert_eq!(r.body, Some("hi".to_string()));
    assert_eq!(r.headers.get("Content-Length"), Some("2".to_string()));
    assert_eq!(r.headers.get("Content-Type"), Some("text/plain".to_string()));
}

#[test]
fn no_match_uses_default_with_empty_capture() {
    let mut router: Router<ApiContext, Handler> = Router::new(
        Box::new(|_, c, _| {
            let mut h = Headers::new();
            h.insert("Capture".to_string(), c);
            Ok(HttpMessage::new(
                StatusLine::new(Version::Http1_1, Status::ClientError(ClientError::NotFound)),
                h,
                None,
            ))
        }),
        ApiContext::new(String::new()),
    );
    router.add(Method::Get, "/".to_string(), Box::new(|_, _, _| handle_root())).unwrap();
    let req = request("GET /nothing HTTP/1.1\r\n\r\n");
    let r = router.execute(Method::Get, &"/nothing".to_string(), &req);
    assert_eq!(r.start_line.get_status(), Status::ClientError(ClientError::NotFound));
    assert_eq!(r.headers.get("Capture"), Some(String::new()));
}

#[test]
fn method_is_part_of_the_route() {
    let router = echo_router();
    let req = request("POST / HTTP/1.1\r\n\r\n");
    let r = router.execute(Method::Post, &"/".to_string(), &req);
    assert_eq!(r.start_line.get_status(), Status::ClientError(ClientError::NotFound));
}

#[test]
fn duplicate_route_is_refused() {
    let mut router = echo_router();
    let again = router.add(Method::Get, "/".to_string(), Box::new(|_, _, _| Err(HandlerError::MissingHeader)));
    assert_eq!(again, Err(RouteError::DuplicateRoute));
    let req = request("GET / HTTP/1.1\r\n\r\n");
    let r = router.execute(Method::Get, &"/".to_string(), &req);
    assert_eq!(r.start_line.get_status(), Status::Successful(Successful::OK));
    assert_eq!(router.add(Method::Post, "/".to_string(), Box::new(|_, _, _| handle_root())), Ok(()));
}

#[test]
fn handler_failure_gives_internal_error() {
    let router = echo_router();
    let req = request("GET /user-agent HTTP/1.1\r\nHost: x\r\n\r\n");
    let r = router.execute(Method::Get, &"/user-agent".to_string(), &req);
    assert_eq!(r.start_line.get_status(), Status::ServerError(ServerError::Internal));
    assert_eq!(r.headers.len(), 0);
    assert_eq!(r.body, None);
    assert_eq!(r.serialize(), "HTTP/1.1 500 Internal Server Error\r\n\r\n");
}

#[test]
fn user_agent_is_echoed() {
    let router = echo_router();
    let req = request("GET /user-agent HTTP/1.1\r\nUser-Agent: curl/8\r\n\r\n");
    let r = router.execute(Method::Get, &"/user-agent".to_string(), &req);
    assert_eq!(r.body, Some("curl/8".to_string()));
    assert_eq!(r.headers.get("Content-Length"), Some("6".to_string()));
}

#[test]
fn first_registered_route_wins() {
    let mut router: Router<ApiContext, Handler> =
        Router::new(Box::new(|_, _, _| not_found()), ApiContext::new(String::new()));
    router
        .add(Method::Get, "/files/{name}".to_string(), Box::new(|_, c, _| handle_echo(c)))
        .unwrap();
    router.add(Method::Get, "/files/index".to_string(), Box::new(|_, _, _| handle_root())).unwrap();
    let req = request("GET /files/index HTTP/1.1\r\n\r\n");
    let r = router.execute(Method::Get, &"/files/index".to_string(), &req);
    assert_eq!(r.body, Some("index".to_string()));
}

#[test]
fn file_responses() {
    let r = file_response(Some("abc".to_string()));
    assert_eq!(r.start_line.get_status(), Status::Successful(Successful::OK));
    assert_eq!(r.headers.get("Content-Length"), Some("3".to_string()));
    assert_eq!(r.headers.get("Content-Type"), Some("application/octet-stream".to_string()));
    let r = file_response(None);
    assert_eq!(r.start_line.get_status(), Status::ClientError(ClientError::NotFound));
}

#[test]
fn echo_length_counts_bytes() {
    let r = handle_echo("é".to_string()).unwrap();
    assert_eq!(r.headers.get("Content-Length"), Some("2".to_string()));
}
