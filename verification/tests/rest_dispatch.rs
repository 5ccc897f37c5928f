use dispatch_core::json::JsonValue;
use dispatch_core::response::{ErrorCode, Response};
use dispatch_core::rest::{DataIn, HttpMethod, Operation, Resource, RestRouter, parse_path};
use dispatch_core::auth::{AuthError, parse_uuid};

fn secret() -> Vec<u8> {
    b"test-signing-secret".to_vec()
}

fn token_for(subject: &str) -> String {
    cnctd_server::auth::CnctdAuth::get_jwt(secret(), subject).unwrap()
}

fn obj(fields: Vec<(&str, JsonValue)>) -> JsonValue {
    JsonValue::Obj(fields.into_iter().map(|(k, v)| (k.to_string(), v)).collect())
}

fn s(x: &str) -> JsonValue {
    JsonValue::Str(x.to_string())
}

const SUBJECT: &str = "0193a2f4-5678-7abc-8def-0123456789ab";

#[test]
fn unknown_resource_is_not_found() {
    let router = RestRouter::new(Some(secret()));
    let r = router.route(HttpMethod::Get, "/nope/by-id", &obj(vec![]), &None, None, None);
    assert_eq!(
        r,
        Response::Error {
            code: ErrorCode::NotFound,
            msg: Some("Unrecognized resource".to_string())
        }
    );
}

#[test]
fn unknown_resource_ignores_method_payload_and_token() {
    let router = RestRouter::new(None);
    let tok = Some("not even a token".to_string());
    let r = router.route(HttpMethod::Post, "/mystery", &s("junk"), &tok, None, None);
    match r {
        Response::Error { code, .. } => assert_eq!(code, ErrorCode::NotFound),
        _ => panic!("expected an error"),
    }
}

#[test]
fn empty_path_is_not_found() {
    let router = RestRouter::new(Some(secret()));
    let r = router.route(HttpMethod::Get, "", &obj(vec![]), &None, None, None);
    match r {
        Response::Error { code, .. } => assert_eq!(code, ErrorCode::NotFound),
        _ => panic!("expected an error"),
    }
}

#[test]
fn missing_token_is_unauthorized() {
    let router = RestRouter::new(Some(secret()));
    let payload = obj(vec![("id", s("42"))]);
    let r = router.route(HttpMethod::Get, "/new_resource/by-id", &payload, &None, None, None);
    assert_eq!(
        r,
        Response::Error {
            code: ErrorCode::Unauthorized,
            msg: Some("auth token required".to_string())
        }
    );
}

#[test]
fn unset_secret_fails_closed() {
    let router = RestRouter::new(None);
    let payload = obj(vec![("id", s("42"))]);
    let tok = Some(token_for(SUBJECT));
    let r = router.route(HttpMethod::Get, "/new_resource/by-id", &payload, &tok, None, None);
    assert_eq!(
        r,
        Response::Error {
            code: ErrorCode::Unauthorized,
            msg: Some("JWT secret not set".to_string())
        }
    );
}

#[test]
fn invalid_token_is_unauthorized() {
    let router = RestRouter::new(Some(secret()));
    let payload = obj(vec![("id", s("42"))]);
    let tok = Some("garbage.token.value".to_string());
    let r = router.route(HttpMethod::Get, "/new_resource/by-id", &payload, &tok, None, None);
    assert_eq!(
        r,
        Response::Error {
            code: ErrorCode::Unauthorized,
            msg: Some("invalid auth token".to_string())
        }
    );
}

#[test]
fn by_id_returns_the_id() {
    let router = RestRouter::new(Some(secret()));
    let payload = obj(vec![("id", s("42"))]);
    let tok = Some(token_for(SUBJECT));
    let r = router.route(HttpMethod::Get, "/new_resource/by-id", &payload, &tok, None, None);
    let expected = obj(vec![("id", s("42")), ("name", s("Example Resource"))]);
    assert_eq!(r, Response::Success { msg: None, data: Some(expected) });
}

#[test]
fn create_returns_generated_id_and_name() {
    let router = RestRouter::new(Some(secret()));
    let payload = obj(vec![("name", s("x"))]);
    let tok = Some(token_for(SUBJECT));
    let r = router.route(HttpMethod::Post, "/new_resource/create", &payload, &tok, None, None);
    let expected = obj(vec![("id", s("12345")), ("name", s("x"))]);
    assert_eq!(r, Response::Success { msg: None, data: Some(expected) });
}

#[test]
fn update_name_returns_both_fields() {
    let router = RestRouter::new(Some(secret()));
    let payload = obj(vec![("id", s("7")), ("name", s("renamed"))]);
    let tok = Some(token_for(SUBJECT));
    let r = router.route(HttpMethod::Put, "/new_resource/update-name", &payload, &tok, None, None);
    let expected = obj(vec![("id", s("7")), ("name", s("renamed"))]);
    assert_eq!(r, Response::Success { msg: None, data: Some(expected) });
}

#[test]
fn delete_returns_message() {
    let router = RestRouter::new(Some(secret()));
    let payload = obj(vec![("id", s("42"))]);
    let tok = Some(token_for(SUBJECT));
    let r = router.route(HttpMethod::Delete, "/new_resource/by-id", &payload, &tok, None, None);
    assert_eq!(
        r,
        Response::Success { msg: Some("Resource with id 42 deleted".to_string()), data: None }
    );
}

#[test]
fn wrong_method_for_operation_is_bad_request() {
    let router = RestRouter::new(Some(secret()));
    let payload = obj(vec![("id", s("42"))]);
    let tok = Some(token_for(SUBJECT));
    let r = router.route(HttpMethod::Post, "/new_resource/by-id", &payload, &tok, None, None);
    assert_eq!(
        r,
        Response::Error {
            code: ErrorCode::BadRequest,
            msg: Some("Invalid operation for POST".to_string())
        }
    );
}

#[test]
fn unknown_operation_is_bad_request() {
    let router = RestRouter::new(Some(secret()));
    let r = router.route(HttpMethod::Get, "/new_resource/frobnicate", &obj(vec![]), &None, None, None);
    assert_eq!(
        r,
        Response::Error {
            code: ErrorCode::BadRequest,
            msg: Some("Invalid operation for GET".to_string())
        }
    );
}

#[test]
fn non_object_payload_is_bad_request() {
    let router = RestRouter::new(Some(secret()));
    let tok = Some(token_for(SUBJECT));
    let r = router.route(HttpMethod::Get, "/new_resource/by-id", &s("nope"), &tok, None, None);
    assert_eq!(
        r,
        Response::Error {
            code: ErrorCode::BadRequest,
            msg: Some("invalid request data".to_string())
        }
    );
}

#[test]
fn wrongly_typed_field_is_bad_request() {
    let router = RestRouter::new(Some(secret()));
    let tok = Some(token_for(SUBJECT));
    let payload = obj(vec![("id", JsonValue::Int(42))]);
    let r = router.route(HttpMethod::Get, "/new_resource/by-id", &payload, &tok, None, None);
    assert_eq!(
        r,
        Response::Error {
            code: ErrorCode::BadRequest,
            msg: Some("invalid request data".to_string())
        }
    );
}

#[test]
fn empty_object_deserializes_with_defaults() {
    let router = RestRouter::new(Some(secret()));
    let tok = Some(token_for(SUBJECT));
    let r = router.route(HttpMethod::Delete, "/new_resource/by-id", &obj(vec![]), &tok, None, None);
    assert_eq!(
        r,
        Response::Error { code: ErrorCode::BadRequest, msg: Some("id required".to_string()) }
    );
}

#[test]
fn authenticate_recovers_subject_identity() {
    let tok = Some(token_for(SUBJECT));
    let id = Resource::authenticate(&Some(secret()), &tok).unwrap();
    assert_eq!(id.id, parse_uuid(SUBJECT).unwrap());
}

#[test]
fn authenticate_errors() {
    assert_eq!(
        Resource::authenticate(&None, &None).unwrap_err(),
        AuthError::ConfigurationError
    );
    assert_eq!(
        Resource::authenticate(&Some(secret()), &None).unwrap_err(),
        AuthError::MissingToken
    );
    let bad = Some("definitely-not-a-jwt".to_string());
    assert_eq!(
        Resource::authenticate(&Some(secret()), &bad).unwrap_err(),
        AuthError::InvalidToken
    );
    let other_key = cnctd_server::auth::CnctdAuth::get_jwt(b"another-secret".to_vec(), SUBJECT)
        .unwrap();
    assert_eq!(
        Resource::authenticate(&Some(secret()), &Some(other_key)).unwrap_err(),
        AuthError::InvalidToken
    );
}

#[test]
fn parse_uuid_accepts_both_forms() {
    let hyphenated = parse_uuid("0193a2f4-5678-7abc-8def-0123456789ab").unwrap();
    let simple = parse_uuid("0193a2f456787abc8def0123456789ab").unwrap();
    assert_eq!(hyphenated, simple);
    assert_eq!(parse_uuid("00000000-0000-0000-0000-000000000001").unwrap(), 1u128);
    assert!(parse_uuid("not-a-uuid").is_none());
    assert!(parse_uuid("0193a2f4-5678-7abc-8def-0123456789a").is_none());
    assert!(parse_uuid("0193a2f4-5678-7abc-8def-0123456789zz").is_none());
}

#[test]
fn parse_path_splits_segments() {
    assert_eq!(parse_path("/a/b/c"), ("a".to_string(), Some("b".to_string())));
    assert_eq!(parse_path("a"), ("a".to_string(), None));
    assert_eq!(parse_path(""), ("".to_string(), None));
    assert_eq!(parse_path("///x/y"), ("x".to_string(), Some("y".to_string())));
    assert_eq!(parse_path("/a/"), ("a".to_string(), Some("".to_string())));
}

#[test]
fn resolution_tables() {
    assert_eq!(Resource::from_str("new_resource"), Resource::NewResource);
    assert_eq!(Resource::from_str("other"), Resource::Unrecognized);
    assert_eq!(Resource::from_str(""), Resource::Unrecognized);
    assert_eq!(Operation::from_str("by-id"), Operation::ById);
    assert_eq!(Operation::from_str("create"), Operation::Create);
    assert_eq!(Operation::from_str("update-name"), Operation::UpdateName);
    assert_eq!(Operation::from_str("delete"), Operation::Unrecognized);
    assert_eq!(Operation::from_option(None), Operation::Unrecognized);
    assert_eq!(Operation::from_option(Some("create".to_string())), Operation::Create);
    assert!(Operation::ById.requires_auth());
    assert!(Operation::Create.requires_auth());
    assert!(!Operation::Unrecognized.requires_auth());
}

#[test]
fn data_in_reads_typed_fields() {
    let payload = obj(vec![
        ("id", s("1")),
        ("name", JsonValue::Null),
        ("order_number", JsonValue::Int(3)),
        ("public_flag", JsonValue::Bool(true)),
        ("extra", s("ignored")),
    ]);
    let d = DataIn::from_json(&payload).unwrap();
    assert_eq!(d.id, Some("1".to_string()));
    assert_eq!(d.name, None);
    assert_eq!(d.order_number, Some(3));
    assert_eq!(d.public_flag, Some(true));
    assert_eq!(d.token, None);
    let too_big = obj(vec![("order_number", JsonValue::Int(1 << 40))]);
    assert!(DataIn::from_json(&too_big).is_none());
}

#[test]
fn route_redirect_reports_unrecognized() {
    let router = RestRouter::new(None);
    assert_eq!(
        router.route_redirect("/anything", &JsonValue::Null),
        "Unrecognized resource: NotFound"
    );
}
