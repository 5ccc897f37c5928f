use dispatch_core::json::JsonValue;
use dispatch_core::response::{ErrorCode, Response};
use dispatch_core::codec::{from_wire, json_to_string, to_wire};

fn obj(fields: Vec<(&str, JsonValue)>) -> JsonValue {
    JsonValue::Obj(fields.into_iter().map(|(k, v)| (k.to_string(), v)).collect())
}

fn s(x: &str) -> JsonValue {
    JsonValue::Str(x.to_string())
}

#[test]
fn wire_text_is_canonical_json() {
    let r = Response::Success { msg: None, data: None };
    assert_eq!(to_wire(&r), "{\"success\":true}");
    let e = Response::Error {
        code: ErrorCode::NotFound,
        msg: Some("Unrecognized resource".to_string()),
    };
    assert_eq!(
        to_wire(&e),
        "{\"success\":false,\"code\":\"NotFound\",\"message\":\"Unrecognized resource\"}"
    );
}

#[test]
fn payload_serialization_covers_every_shape() {
    let v = obj(vec![
        ("a", JsonValue::Arr(vec![
            JsonValue::Int(1),
            JsonValue::Int(-2),
            JsonValue::Null,
            JsonValue::Bool(true),
            JsonValue::Bool(false),
        ])),
        ("b", s("q\"uo\\te")),
        ("c", JsonValue::Arr(vec![])),
        ("d", obj(vec![])),
    ]);
    assert_eq!(
        json_to_string(&v),
        "{\"a\":[1,-2,null,true,false],\"b\":\"q\\\"uo\\\\te\",\"c\":[],\"d\":{}}"
    );
}

#[test]
fn round_trip_success_with_payload() {
    let r = Response::Success {
        msg: Some("done".to_string()),
        data: Some(obj(vec![
            ("id", s("42")),
            ("limits", JsonValue::Arr(vec![
                JsonValue::Int(i64::MIN),
                JsonValue::Int(i64::MAX),
                JsonValue::Int(0),
            ])),
            ("note", s("say \"hi\" \\ bye")),
        ])),
    };
    let wire = to_wire(&r);
    assert_eq!(from_wire(&wire), Some(r));
}

#[test]
fn round_trip_success_without_payload() {
    let r = Response::Success { msg: None, data: None };
    assert_eq!(from_wire(&to_wire(&r)), Some(r));
    let r2 = Response::Success { msg: Some("m".to_string()), data: None };
    assert_eq!(from_wire(&to_wire(&r2)), Some(r2));
    let r3 = Response::Success { msg: None, data: Some(JsonValue::Null) };
    assert_eq!(from_wire(&to_wire(&r3)), Some(r3));
}

#[test]
fn round_trip_every_error_code() {
    for code in [
        ErrorCode::BadRequest,
        ErrorCode::Unauthorized,
        ErrorCode::NotFound,
        ErrorCode::InternalServerError,
    ] {
        let r = Response::Error { code, msg: Some("why".to_string()) };
        assert_eq!(from_wire(&to_wire(&r)), Some(r));
        let bare = Response::Error { code, msg: None };
        assert_eq!(from_wire(&to_wire(&bare)), Some(bare));
    }
}

#[test]
fn from_wire_rejects_what_is_not_a_response() {
    assert_eq!(from_wire(""), None);
    assert_eq!(from_wire("{ \"success\": true }"), None);
    assert_eq!(from_wire("{\"success\":\"yes\"}"), None);
    assert_eq!(from_wire("{\"success\":false}"), None);
    assert_eq!(from_wire("{\"success\":false,\"code\":\"Teapot\"}"), None);
    assert_eq!(from_wire("[1,2,3]"), None);
    assert_eq!(from_wire("{\"success\":true}trailing"), None);
    assert_eq!(from_wire("{\"success\":true,\"data\":01}"), None);
}

#[test]
fn numbers_parse_within_signed_range_only() {
    assert_eq!(
        from_wire("{\"success\":true,\"data\":9223372036854775807}"),
        Some(Response::Success { msg: None, data: Some(JsonValue::Int(i64::MAX)) })
    );
    assert_eq!(
        from_wire("{\"success\":true,\"data\":-9223372036854775808}"),
        Some(Response::Success { msg: None, data: Some(JsonValue::Int(i64::MIN)) })
    );
    assert_eq!(from_wire("{\"success\":true,\"data\":9223372036854775808}"), None);
    assert_eq!(from_wire("{\"success\":true,\"data\":-9223372036854775809}"), None);
}
