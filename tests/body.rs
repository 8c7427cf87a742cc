use lione::body::Body;
use lione::LioneError;

#[test]
fn test_parse_text() {
    let body = "This is a text".to_string();
    let result = Body::parse(body.clone(), None);
    assert_eq!(result, Ok(Body::Text(body)));
}

#[test]
fn test_parse_json() {
    let body = r#"{"key": "value"}"#.to_string();
    let result = Body::parse(body.clone(), Some("application/json"));
    assert!(matches!(result, Ok(Body::Json(_))));
}

#[test]
fn test_parse_invalid_json() {
    let body = r#"{key: "value"}"#.to_string();
    let result = Body::parse(body.clone(), Some("application/json"));
    assert!(matches!(result, Err(_)));
}

#[test]
fn json_content_type_ignores_case() {
    let result = Body::parse("[1, 2]".to_string(), Some("Application/JSON"));
    let expected: serde_json::Value = serde_json::from_str("[1,2]").unwrap();
    assert_eq!(result, Ok(Body::Json(expected)));
}

#[test]
fn invalid_json_is_parse_error() {
    let result = Body::parse("{key".to_string(), Some("application/json"));
    assert!(matches!(result, Err(LioneError::ParseError(m)) if !m.is_empty()));
}

#[test]
fn other_content_type_is_text() {
    let result = Body::parse("{\"a\": 1}".to_string(), Some("text/plain"));
    assert_eq!(result, Ok(Body::Text("{\"a\": 1}".to_string())));
}

#[test]
fn body_wire_text() {
    assert_eq!(Body::Empty.to_string(), "");
    assert_eq!(Body::Text("hi".to_string()).to_string(), "hi");
    let v: serde_json::Value = serde_json::from_str("{\"key\": \"value\"}").unwrap();
    assert_eq!(Body::Json(v).to_string(), "{\"key\":\"value\"}");
}
