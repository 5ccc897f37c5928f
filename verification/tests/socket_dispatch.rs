use dispatch_core::json::JsonValue;
use dispatch_core::socket::{
    ChannelData, MessageToUser, SocketChannel, SocketMessage, SocketResponse, SocketRouter,
    route_socket,
};

fn obj(fields: Vec<(&str, JsonValue)>) -> JsonValue {
    JsonValue::Obj(fields.into_iter().map(|(k, v)| (k.to_string(), v)).collect())
}

fn s(x: &str) -> JsonValue {
    JsonValue::Str(x.to_string())
}

fn msg(channel: &str, data: Option<JsonValue>) -> SocketMessage {
    SocketMessage {
        channel: channel.to_string(),
        instruction: Some("do".to_string()),
        data,
        response_channel: None,
    }
}

#[test]
fn ping_answers_pong() {
    let out = route_socket(msg("ping", None), "c1".to_string());
    let reply = out.response.unwrap();
    assert!(reply.success);
    assert_eq!(reply.channel, "socket");
    assert_eq!(reply.instruction, "success");
    assert_eq!(reply.data, Some("pong".to_string()));
    assert!(out.broadcast.is_none());
}

#[test]
fn ping_ignores_payload() {
    let out = route_socket(msg("ping", Some(s("whatever"))), "c1".to_string());
    assert_eq!(out.response.unwrap().data, Some("pong".to_string()));
}

#[test]
fn broadcast_without_payload_fails_and_never_delivers() {
    let out = route_socket(msg("broadcast", None), "c1".to_string());
    let reply = out.response.unwrap();
    assert!(!reply.success);
    assert_eq!(reply.instruction, "failure");
    assert_eq!(reply.data, Some("Invalid broadcast message".to_string()));
    assert!(out.broadcast.is_none());
}

#[test]
fn broadcast_with_payload_requests_fan_out() {
    let payload = obj(vec![
        ("channel", s("news")),
        ("instruction", s("update")),
        ("data", obj(vec![("k", s("v"))])),
    ]);
    let out = route_socket(msg("broadcast", Some(payload)), "c1".to_string());
    let reply = out.response.unwrap();
    assert!(reply.success);
    assert_eq!(reply.data, None);
    let m = out.broadcast.unwrap();
    assert_eq!(m.channel, "news");
    assert_eq!(m.instruction, "update");
    assert_eq!(m.data, Some(obj(vec![("k", s("v"))])));
}

#[test]
fn malformed_broadcast_payload_is_surfaced() {
    let out = route_socket(msg("broadcast", Some(s("not a message"))), "c1".to_string());
    let reply = out.response.unwrap();
    assert!(!reply.success);
    assert_eq!(reply.data, Some("Malformed broadcast message".to_string()));
    assert!(out.broadcast.is_none());
}

#[test]
fn client_data_returns_mock_catalog() {
    let out = route_socket(
        msg("client_data", Some(obj(vec![("artist_id", s("a1"))]))),
        "c1".to_string(),
    );
    let reply = out.response.unwrap();
    assert!(reply.success);
    assert_eq!(
        reply.data,
        Some("{\"artist_id\":\"a1\",\"info\":\"Mocked artist catalog data\"}".to_string())
    );
    assert!(out.broadcast.is_none());
}

#[test]
fn client_data_without_artist_fails() {
    let out = route_socket(msg("client_data", Some(obj(vec![]))), "c1".to_string());
    assert_eq!(out.response.unwrap().data, Some("Missing artist ID".to_string()));
}

#[test]
fn client_data_is_lenient_about_shape() {
    let bad = obj(vec![("artist_id", JsonValue::Int(5))]);
    let out = route_socket(msg("client_data", Some(bad)), "c1".to_string());
    let reply = out.response.unwrap();
    assert!(!reply.success);
    assert_eq!(reply.data, Some("Missing artist ID".to_string()));
}

#[test]
fn unrecognized_channel_fails() {
    let out = route_socket(msg("telemetry", None), "c1".to_string());
    let reply = out.response.unwrap();
    assert!(!reply.success);
    assert_eq!(reply.data, Some("Unrecognized channel".to_string()));
}

#[test]
fn channel_resolution() {
    assert_eq!(SocketChannel::from_channel_str("ping"), SocketChannel::Ping);
    assert_eq!(SocketChannel::from_channel_str("broadcast"), SocketChannel::Broadcast);
    assert_eq!(SocketChannel::from_channel_str("client_data"), SocketChannel::ClientData);
    assert_eq!(SocketChannel::from_channel_str("pings"), SocketChannel::Unrecognized);
}

#[test]
fn response_constructors_fill_defaults() {
    let ok = SocketResponse::success(Some("d".to_string()), None);
    assert!(ok.success);
    assert_eq!(ok.channel, "socket");
    assert_eq!(ok.instruction, "success");
    assert_eq!(ok.data, Some("d".to_string()));
    let bad = SocketResponse::failure(None, Some("topic".to_string()));
    assert!(!bad.success);
    assert_eq!(bad.channel, "topic");
    assert_eq!(bad.instruction, "failure");
    assert_eq!(bad.data, None);
}

#[test]
fn message_to_user_holds_fields() {
    let m = MessageToUser::new("topic", "refresh", Some(s("x")));
    assert_eq!(m.channel, "topic");
    assert_eq!(m.instruction, "refresh");
    assert_eq!(m.data, Some(s("x")));
}

#[test]
fn lenient_deserialization_defaults() {
    let d = ChannelData::from_json_lenient(&None);
    assert!(d.artist_id.is_none() && d.id.is_none());
    let d2 = ChannelData::from_json_lenient(&Some(s("junk")));
    assert!(d2.artist_id.is_none());
    let d3 = ChannelData::from_json_lenient(&Some(obj(vec![
        ("artist_id", s("a")),
        ("recording_id", s("r")),
    ])));
    assert_eq!(d3.artist_id, Some("a".to_string()));
    assert_eq!(d3.recording_id, Some("r".to_string()));
}

#[test]
fn router_delegates() {
    let router = SocketRouter;
    let out = router.route(msg("ping", None), "c9".to_string());
    assert_eq!(out.response.unwrap().data, Some("pong".to_string()));
}
