use lione::body::Body;
use lione::request::{
    parse_header_line, parse_query, parse_request_line, parse_uri, FRAME_SIZE,
};
use lione::text::parse_usize;
use lione::{LioneError, Method, Request};

fn create_buffer_from_test_data(test_data: &[u8]) -> [u8; 1024] {
    let mut buffer = [0; 1024];
    buffer[..test_data.len()].copy_from_slice(test_data);
    buffer
}

fn chars(s: &str) -> Vec<char> {
    s.chars().collect()
}

#[test]
fn test_request_get_one() {
    let request_data = b"GET /path HTTP/1.1\r\nContent-Type: application/json\r\nContent-Length:  17\r\n\r\n{\"key\": \"value\"}";
    let request: Result<Request, _> = Request::decode(&create_buffer_from_test_data(request_data));
    assert!(request.is_ok());
    let request = request.unwrap();
    assert_eq!(request.method, Method::Get);
    assert_eq!(request.path, "/path");
    assert_eq!(request.headers.get("content-type").unwrap(), "application/json");
    let expected: serde_json::Value = serde_json::from_str(r#"{"key": "value"}"#).unwrap();
    assert_eq!(request.body, Body::Json(expected));
}

#[test]
fn frame_size_is_1024() {
    assert_eq!(FRAME_SIZE, 1024);
}

#[test]
fn header_names_and_values_are_lowered_and_trimmed() {
    let data = b"GET / HTTP/1.1\r\n  Content-Type :  Application/JSON  \r\nX-Name: Value\r\n\r\n";
    let request = Request::decode(&create_buffer_from_test_data(data)).unwrap();
    assert_eq!(request.headers.get("content-type").unwrap(), "application/json");
    assert_eq!(request.headers.get("x-name").unwrap(), "value");
    assert!(request.headers.get("Content-Type").is_none());
    assert_eq!(request.body, Body::Empty);
}

#[test]
fn header_line_parts() {
    let (name, value) = parse_header_line(b"Content-Type: Application/JSON\r").unwrap();
    assert_eq!(name, "content-type");
    assert_eq!(value, "application/json");
    let (name, value) = parse_header_line(b"Host: a:b").unwrap();
    assert_eq!(name, "host");
    assert_eq!(value, "a:b");
    assert_eq!(parse_header_line(b"no colon here"), Err(LioneError::TodoError));
}

#[test]
fn query_last_duplicate_wins_and_bare_keys_drop() {
    let q = parse_query(&chars(" A =1&b= 2 &a=3&flag&c="));
    assert_eq!(q.get("a").unwrap(), "3");
    assert_eq!(q.get("b").unwrap(), "2");
    assert_eq!(q.get("c").unwrap(), "");
    assert!(q.get("flag").is_none());
    assert_eq!(q.len(), 3);
}

#[test]
fn query_two_pairs() {
    let q = parse_query(&chars("K1=v1&k2=V2"));
    assert_eq!(q.get("k1").unwrap(), "v1");
    assert_eq!(q.get("k2").unwrap(), "V2");
    assert_eq!(q.len(), 2);
}

#[test]
fn uri_splits_on_first_question_mark() {
    let (path, query) = parse_uri(&chars("/a/b?x=1?2&y=2"));
    assert_eq!(path, "/a/b");
    assert_eq!(query.get("x").unwrap(), "1?2");
    assert_eq!(query.get("y").unwrap(), "2");
    let (path, query) = parse_uri(&chars("/plain"));
    assert_eq!(path, "/plain");
    assert_eq!(query.len(), 0);
}

#[test]
fn request_line_method_and_uri() {
    let (m, uri) = parse_request_line(b"delete /items?id=4 HTTP/1.1\r").unwrap();
    assert_eq!(m, Method::Delete);
    assert_eq!(uri.iter().collect::<String>(), "/items?id=4");
    assert_eq!(parse_request_line(b"GET\r"), Err(LioneError::TodoError));
    assert_eq!(parse_request_line(b"   \r"), Err(LioneError::TodoError));
    assert_eq!(
        parse_request_line(b"PATCH / HTTP/1.1\r"),
        Err(LioneError::MethodNotFound("PATCH".to_string()))
    );
}

#[test]
fn decode_query_and_path() {
    let data = b"POST /search?Q=rust&page=2 HTTP/1.1\r\n\r\n";
    let request = Request::decode(&create_buffer_from_test_data(data)).unwrap();
    assert_eq!(request.method, Method::Post);
    assert_eq!(request.path, "/search");
    assert_eq!(request.query.get("q").unwrap(), "rust");
    assert_eq!(request.query.get("page").unwrap(), "2");
}

#[test]
fn decode_empty_frames() {
    assert_eq!(Request::decode(&[]).unwrap_err(), LioneError::EmptyRequest);
    assert_eq!(Request::decode(&[0u8; 1024]).unwrap_err(), LioneError::EmptyRequest);
}

#[test]
fn decode_unknown_method() {
    let data = b"FETCH / HTTP/1.1\r\n\r\n";
    assert_eq!(
        Request::decode(&create_buffer_from_test_data(data)).unwrap_err(),
        LioneError::MethodNotFound("FETCH".to_string())
    );
}

#[test]
fn decode_malformed_header_line() {
    let data = b"GET / HTTP/1.1\r\nbroken header\r\n\r\n";
    assert_eq!(Request::decode(&create_buffer_from_test_data(data)).unwrap_err(), LioneError::TodoError);
}

#[test]
fn decode_bad_content_length() {
    let data = b"GET / HTTP/1.1\r\nContent-Length: abc\r\n\r\nxyz";
    assert_eq!(Request::decode(&create_buffer_from_test_data(data)).unwrap_err(), LioneError::EmptyRequest);
}

#[test]
fn decode_text_body_and_truncation() {
    let data = b"PUT /t HTTP/1.1\r\nContent-Length: 5\r\n\r\n  hello world";
    let request = Request::decode(&create_buffer_from_test_data(data)).unwrap();
    assert_eq!(request.body, Body::Text("hel".to_string()));
    let data = b"PUT /t HTTP/1.1\r\nContent-Length: 5000\r\n\r\nabc";
    let request = Request::decode(&create_buffer_from_test_data(data)).unwrap();
    assert_eq!(request.body, Body::Text("abc".to_string()));
}

#[test]
fn decode_invalid_json_body() {
    let data = b"POST / HTTP/1.1\r\nContent-Type: application/json\r\nContent-Length: 6\r\n\r\n{key: ";
    assert!(matches!(
        Request::decode(&create_buffer_from_test_data(data)),
        Err(LioneError::ParseError(_))
    ));
}

#[test]
fn decode_without_blank_line_is_malformed() {
    let data = b"GET / HTTP/1.1\r\nHost: x\r\n";
    assert_eq!(Request::decode(&create_buffer_from_test_data(data)).unwrap_err(), LioneError::TodoError);
}

#[test]
fn decimal_numbers() {
    assert_eq!(parse_usize(&chars("17")), Some(17));
    assert_eq!(parse_usize(&chars("+8")), Some(8));
    assert_eq!(parse_usize(&chars("")), None);
    assert_eq!(parse_usize(&chars("+")), None);
    assert_eq!(parse_usize(&chars("1x")), None);
    assert_eq!(parse_usize(&chars("18446744073709551615")), Some(usize::MAX));
    assert_eq!(parse_usize(&chars("18446744073709551616")), None);
}
