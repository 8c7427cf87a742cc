use lione::body::Body;
use lione::{LioneError, Method, Request, Response, Router, StatusCode};

type Handler = fn(Request) -> Response;

fn frame(data: &[u8]) -> [u8; 1024] {
    let mut buffer = [0; 1024];
    buffer[..data.len()].copy_from_slice(data);
    buffer
}

fn hello(request: Request) -> Response {
    Response::new().text(&format!("You requested: {}", &request.path))
}

fn created(_request: Request) -> Response {
    Response::new().status(StatusCode::BadRequest).text("posted")
}

#[test]
fn method_parsing_ignores_case() {
    assert_eq!(Method::from_str("get"), Ok(Method::Get));
    assert_eq!(Method::from_str("PoSt"), Ok(Method::Post));
    assert_eq!(Method::from_str("HEAD"), Ok(Method::Head));
    assert_eq!(Method::from_str("put"), Ok(Method::Put));
    assert_eq!(Method::from_str("Delete"), Ok(Method::Delete));
    assert_eq!(Method::from_str("Options"), Err(LioneError::MethodNotFound("Options".to_string())));
}

#[test]
fn status_lines() {
    assert_eq!(StatusCode::Success.to_string(), "200 OK");
    assert_eq!(StatusCode::NotFound.to_string(), "404 Not Found");
    assert_eq!(StatusCode::BadRequest.to_string(), "400 Bad Request");
}

#[test]
fn error_messages() {
    assert_eq!(LioneError::MethodNotFound("X".to_string()).message(), "HTTP Method X wasn't found!");
    assert_eq!(LioneError::EmptyRequest.message(), "Empty request");
    assert_eq!(LioneError::IoError("e".to_string()).message(), "IoError: e");
}

#[test]
fn not_found_serialization() {
    let response = Response::new().status(StatusCode::NotFound).text("x");
    let wire = response.to_string();
    assert!(wire.starts_with("HTTP/1.1 404 Not Found\r\n"));
    let blank = wire.find("\r\n\r\n").unwrap();
    let head = &wire[..blank + 2];
    assert!(head.contains("Content-type: text/plain\r\n"));
    assert!(wire.ends_with("\r\n\r\nx"));
}

#[test]
fn exact_serialization_with_one_header() {
    let response = Response::new().header("A", "b").body(Body::Text("hi".to_string()));
    assert_eq!(response.to_string(), "HTTP/1.1 200 OK\r\nA: b\r\n\r\nhi");
    let response = Response::new().header("A", "b").header("A", "c");
    assert_eq!(response.to_string(), "HTTP/1.1 200 OK\r\nA: c\r\n\r\n");
}

#[test]
fn not_found_response() {
    let response = Response::not_found();
    assert_eq!(response.statuscode, StatusCode::NotFound);
    assert_eq!(response.body, Body::Text("Not found".to_string()));
    assert_eq!(response.headers.get("Content-type").unwrap(), "text/plain");
}

#[test]
fn router_dispatches_exact_routes() {
    let mut router: Router<Handler> = Router::new();
    router.get("/x", hello);
    let get_x = Request::decode(&frame(b"GET /x HTTP/1.1\r\n\r\n")).unwrap();
    let response = router.handle(get_x);
    assert_eq!(response.statuscode, StatusCode::Success);
    assert_eq!(response.body, Body::Text("You requested: /x".to_string()));

    let post_x = Request::decode(&frame(b"POST /x HTTP/1.1\r\n\r\n")).unwrap();
    let response = router.handle(post_x);
    assert_eq!(response.statuscode, StatusCode::NotFound);
    assert_eq!(response.body, Body::Text("Not found".to_string()));

    let get_y = Request::decode(&frame(b"GET /y HTTP/1.1\r\n\r\n")).unwrap();
    let response = router.handle(get_y);
    assert_eq!(response.statuscode, StatusCode::NotFound);
    assert_eq!(response.body, Body::Text("Not found".to_string()));
}

#[test]
fn router_later_registration_wins_and_methods_split() {
    let mut router: Router<Handler> = Router::new();
    router.post("/x", hello);
    router.post("/x", created);
    router.put("/p", hello);
    router.delete("/d", hello);
    router.match_route(vec![Method::Head, Method::Get], "/m", hello);
    let response = router.handle(Request::decode(&frame(b"POST /x HTTP/1.1\r\n\r\n")).unwrap());
    assert_eq!(response.statuscode, StatusCode::BadRequest);
    assert_eq!(response.body, Body::Text("posted".to_string()));
    let response = router.handle(Request::decode(&frame(b"PUT /p HTTP/1.1\r\n\r\n")).unwrap());
    assert_eq!(response.statuscode, StatusCode::Success);
    let response = router.handle(Request::decode(&frame(b"DELETE /d HTTP/1.1\r\n\r\n")).unwrap());
    assert_eq!(response.statuscode, StatusCode::Success);
    let response = router.handle(Request::decode(&frame(b"HEAD /m HTTP/1.1\r\n\r\n")).unwrap());
    assert_eq!(response.statuscode, StatusCode::Success);
    let response = router.handle(Request::decode(&frame(b"PUT /m HTTP/1.1\r\n\r\n")).unwrap());
    assert_eq!(response.statuscode, StatusCode::NotFound);
}

#[test]
fn respond_to_unregistered_path() {
    let router: Router<Handler> = Router::new();
    let wire = router.respond(&frame(b"GET /nowhere HTTP/1.1\r\n\r\n")).unwrap();
    assert!(wire.starts_with("HTTP/1.1 404 Not Found\r\n"));
    assert!(wire.ends_with("\r\n\r\nNot found"));
}

#[test]
fn respond_drops_undecodable_frames() {
    let mut router: Router<Handler> = Router::new();
    router.get("/", hello);
    assert_eq!(router.respond(&[0u8; 1024]), None);
    assert_eq!(router.respond(&frame(b"BREW / HTTP/1.1\r\n\r\n")), None);
    let bad_json = b"GET / HTTP/1.1\r\nContent-Type: application/json\r\nContent-Length: 3\r\n\r\n{x}";
    assert_eq!(router.respond(&frame(bad_json)), None);
    let wire = router.respond(&frame(b"GET / HTTP/1.1\r\n\r\n")).unwrap();
    assert_eq!(wire, "HTTP/1.1 200 OK\r\nContent-type: text/plain\r\n\r\nYou requested: /");
}
