use vstd::prelude::*;
use vstd::string::StringExecFns;
use crate::json::{JsonVal, JsonValue, jv, obj_get, str_eq};
use crate::response::opt_str_view;
use crate::rest::{str_field, get_str};
use crate::codec::{ser_json, json_to_string};

verus! {

/// An outbound channel message: a topic, an instruction, and an optional
/// payload. Delivery to clients, users or subscribers is the transport's
/// work, outside this core.
#[derive(Debug, PartialEq)]
pub struct MessageToUser {
    pub channel: String,
    pub instruction: String,
    pub data: Option<JsonValue>,
}

/// Mathematical model of `MessageToUser`.
pub struct MessageToUserV {
    pub channel: Seq<char>,
    pub instruction: Seq<char>,
    pub data: Option<JsonVal>,
}

impl View for MessageToUser {
    type V = MessageToUserV;

    open spec fn view(&self) -> MessageToUserV {
        MessageToUserV {
            channel: self.channel@,
            instruction: self.instruction@,
            data: crate::response::opt_jv(self.data),
        }
    }
}

impl MessageToUser {
    /// Constructs an outbound message; the payload is already JSON-shaped.
    pub fn new(channel: &str, instruction: &str, data: Option<JsonValue>) -> (r: MessageToUser)
        ensures
            r@.channel == channel@,
            r@.instruction == instruction@,
            r@.data == crate::response::opt_jv(data),
    {
        MessageToUser {
            channel: String::from_str(channel),
            instruction: String::from_str(instruction),
            data,
        }
    }
}

/// The uniform reply shape on the channel path.
#[derive(Debug, PartialEq)]
pub struct SocketResponse {
    pub success: bool,
    pub channel: String,
    pub instruction: String,
    pub data: Option<String>,
}

/// Mathematical model of `SocketResponse`.
pub struct SocketResponseV {
    pub success: bool,
    pub channel: Seq<char>,
    pub instruction: Seq<char>,
    pub data: Option<Seq<char>>,
}

impl View for SocketResponse {
    type V = SocketResponseV;

    open spec fn view(&self) -> SocketResponseV {
        SocketResponseV {
            success: self.success,
            channel: self.channel@,
            instruction: self.instruction@,
            data: opt_str_view(self.data),
        }
    }
}

pub open spec fn sock_success_spec(data: Option<Seq<char>>, channel: Option<Seq<char>>)
    -> SocketResponseV {
    SocketResponseV {
        success: true,
        channel: (match channel {
            Some(c) => c,
            None => "socket"@,
        }),
        instruction: "success"@,
        data,
    }
}

pub open spec fn sock_failure_spec(data: Option<Seq<char>>, channel: Option<Seq<char>>)
    -> SocketResponseV {
    SocketResponseV {
        success: false,
        channel: (match channel {
            Some(c) => c,
            None => "socket"@,
        }),
        instruction: "failure"@,
        data,
    }
}

impl SocketResponse {
    /// A success reply; the channel defaults to `socket`.
    pub fn success(data: Option<String>, channel: Option<String>) -> (r: SocketResponse)
        ensures
            r@ == sock_success_spec(opt_str_view(data), opt_str_view(channel)),
    {
        SocketResponse {
            success: true,
            channel: (match channel {
                Some(c) => c,
                None => String::from_str("socket"),
            }),
            instruction: String::from_str("success"),
            data,
        }
    }

    /// A failure reply; still a returned response, never a dropped message.
    pub fn failure(data: Option<String>, channel: Option<String>) -> (r: SocketResponse)
        ensures
            r@ == sock_failure_spec(opt_str_view(data), opt_str_view(channel)),
    {
        SocketResponse {
            success: false,
            channel: (match channel {
                Some(c) => c,
                None => String::from_str("socket"),
            }),
            instruction: String::from_str("failure"),
            data,
        }
    }
}

/// Logical topics on the persistent channel.
#[derive(Clone, Copy, PartialEq, Eq, Structural, Debug)]
pub enum SocketChannel {
    Ping,
    Broadcast,
    ClientData,
    Unrecognized,
}

pub open spec fn channel_of(s: Seq<char>) -> SocketChannel {
    if s == "ping"@ {
        SocketChannel::Ping
    } else if s == "broadcast"@ {
        SocketChannel::Broadcast
    } else if s == "client_data"@ {
        SocketChannel::ClientData
    } else {
        SocketChannel::Unrecognized
    }
}

impl SocketChannel {
    /// Resolves an inbound message's channel name; anything unknown is
    /// `Unrecognized`.
    pub fn from_channel_str(s: &str) -> (r: SocketChannel)
        ensures
            r == channel_of(s@),
    {
        if str_eq(s, "ping") {
            SocketChannel::Ping
        } else if str_eq(s, "broadcast") {
            SocketChannel::Broadcast
        } else if str_eq(s, "client_data") {
            SocketChannel::ClientData
        } else {
            SocketChannel::Unrecognized
        }
    }
}

/// An inbound channel message, as the transport hands it over.
pub struct SocketMessage {
    pub channel: String,
    pub instruction: Option<String>,
    pub data: Option<JsonValue>,
    pub response_channel: Option<String>,
}

/// The input shape the data-bearing channel reads; deserialization failure
/// falls back to all-absent defaults rather than aborting dispatch.
pub struct ChannelDataV {
    pub id: Option<Seq<char>>,
    pub artist_id: Option<Seq<char>>,
    pub name: Option<Seq<char>>,
    pub image_id: Option<Seq<char>>,
    pub recording_id: Option<Seq<char>>,
}

pub open spec fn channel_data_default() -> ChannelDataV {
    ChannelDataV { id: None, artist_id: None, name: None, image_id: None, recording_id: None }
}

pub open spec fn channel_data_strict(v: JsonVal) -> Option<ChannelDataV> {
    match v {
        JsonVal::Obj(o) => match (str_field(o, "id"@), str_field(o, "artist_id"@), str_field(
            o,
            "name"@,
        ), str_field(o, "image_id"@), str_field(o, "recording_id"@)) {
            (Some(id), Some(artist_id), Some(name), Some(image_id), Some(recording_id)) => Some(
                ChannelDataV { id, artist_id, name, image_id, recording_id },
            ),
            _ => None,
        },
        _ => None,
    }
}

/// Lenient deserialization: an absent payload reads as an empty object, a
/// mismatched shape reads as the default. This leniency is deliberate, in
/// contrast with the strict REST path.
pub open spec fn channel_data_lenient(data: Option<JsonVal>) -> ChannelDataV {
    let v = (match data {
        Some(d) => d,
        None => JsonVal::Obj(Seq::empty()),
    });
    match channel_data_strict(v) {
        Some(d) => d,
        None => channel_data_default(),
    }
}

/// The broadcast payload parsed as an outbound wire message.
pub open spec fn parse_message_of(v: JsonVal) -> Option<MessageToUserV> {
    match v {
        JsonVal::Obj(o) => {
            let data = (match obj_get(o, "data"@) {
                None => None,
                Some(JsonVal::Null) => None,
                Some(d) => Some(d),
            });
            match (obj_get(o, "channel"@), obj_get(o, "instruction"@)) {
                (Some(JsonVal::Str(c)), Some(JsonVal::Str(ins))) => Some(
                    MessageToUserV { channel: c, instruction: ins, data },
                ),
                _ => None,
            }
        },
        _ => None,
    }
}

/// The mock catalog reply for a data-bearing request, as wire text.
pub open spec fn client_data_reply(artist_id: Seq<char>) -> Seq<char> {
    ser_json(
        JsonVal::Obj(
            seq![
                ("artist_id"@, JsonVal::Str(artist_id)),
                ("info"@, JsonVal::Str("Mocked artist catalog data"@)),
            ],
        ),
    )
}

/// What the channel dispatcher decides: an optional reply to the sender, and
/// an optional broadcast for the transport to fan out. `None` is an explicit
/// no-reply outcome, distinct from failure.
pub struct SocketOutcome {
    pub response: Option<SocketResponse>,
    pub broadcast: Option<MessageToUser>,
}

/// Mathematical model of `SocketOutcome`.
pub struct SocketOutcomeV {
    pub response: Option<SocketResponseV>,
    pub broadcast: Option<MessageToUserV>,
}

impl View for SocketOutcome {
    type V = SocketOutcomeV;

    open spec fn view(&self) -> SocketOutcomeV {
        SocketOutcomeV {
            response: (match self.response {
                Some(r) => Some(r@),
                None => None,
            }),
            broadcast: (match self.broadcast {
                Some(m) => Some(m@),
                None => None,
            }),
        }
    }
}

/// The channel dispatch function: resolve the channel, read the payload
/// leniently, decide the reply and whether to broadcast. No channel requires
/// auth at this layer.
pub open spec fn route_socket_spec(channel: Seq<char>, data: Option<JsonVal>) -> SocketOutcomeV {
    match channel_of(channel) {
        SocketChannel::Ping => SocketOutcomeV {
            response: Some(sock_success_spec(Some("pong"@), None)),
            broadcast: None,
        },
        SocketChannel::ClientData => {
            let d = channel_data_lenient(data);
            match d.artist_id {
                Some(a) => SocketOutcomeV {
                    response: Some(sock_success_spec(Some(client_data_reply(a)), None)),
                    broadcast: None,
                },
                None => SocketOutcomeV {
                    response: Some(sock_failure_spec(Some("Missing artist ID"@), None)),
                    broadcast: None,
                },
            }
        },
        SocketChannel::Broadcast => {
            match data {
                None => SocketOutcomeV {
                    response: Some(sock_failure_spec(Some("Invalid broadcast message"@), None)),
                    broadcast: None,
                },
                Some(bv) => match parse_message_of(bv) {
                    Some(m) => SocketOutcomeV {
                        response: Some(sock_success_spec(None, None)),
                        broadcast: Some(m),
                    },
                    None => SocketOutcomeV {
                        response: Some(
                            sock_failure_spec(Some("Malformed broadcast message"@), None),
                        ),
                        broadcast: None,
                    },
                },
            }
        },
        SocketChannel::Unrecognized => SocketOutcomeV {
            response: Some(sock_failure_spec(Some("Unrecognized channel"@), None)),
            broadcast: None,
        },
    }
}

/// The input shape the data-bearing channel reads, with lenient defaults.
pub struct ChannelData {
    pub id: Option<String>,
    pub artist_id: Option<String>,
    pub name: Option<String>,
    pub image_id: Option<String>,
    pub recording_id: Option<String>,
}

impl View for ChannelData {
    type V = ChannelDataV;

    open spec fn view(&self) -> ChannelDataV {
        ChannelDataV {
            id: opt_str_view(self.id),
            artist_id: opt_str_view(self.artist_id),
            name: opt_str_view(self.name),
            image_id: opt_str_view(self.image_id),
            recording_id: opt_str_view(self.recording_id),
        }
    }
}

impl ChannelData {
    fn default_data() -> (r: ChannelData)
        ensures
            r@ == channel_data_default(),
    {
        ChannelData { id: None, artist_id: None, name: None, image_id: None, recording_id: None }
    }

    /// Lenient deserialization: any shape mismatch yields the all-absent
    /// default instead of an error.
    pub fn from_json_lenient(data: &Option<JsonValue>) -> (r: ChannelData)
        ensures
            r@ == channel_data_lenient(crate::response::opt_jv(*data)),
    {
        match data {
            None => Self::default_data(),
            Some(v) => match v {
                JsonValue::Obj(_) => {
                    let id = match get_str(v, "id") {
                        Ok(x) => x,
                        Err(_) => {
                            return Self::default_data();
                        },
                    };
                    let artist_id = match get_str(v, "artist_id") {
                        Ok(x) => x,
                        Err(_) => {
                            return Self::default_data();
                        },
                    };
                    let name = match get_str(v, "name") {
                        Ok(x) => x,
                        Err(_) => {
                            return Self::default_data();
                        },
                    };
                    let image_id = match get_str(v, "image_id") {
                        Ok(x) => x,
                        Err(_) => {
                            return Self::default_data();
                        },
                    };
                    let recording_id = match get_str(v, "recording_id") {
                        Ok(x) => x,
                        Err(_) => {
                            return Self::default_data();
                        },
                    };
                    ChannelData { id, artist_id, name, image_id, recording_id }
                },
                _ => Self::default_data(),
            },
        }
    }
}

/// Parses a broadcast payload into an outbound wire message.
fn parse_message(v: &JsonValue) -> (r: Option<MessageToUser>)
    ensures
        match r {
            Some(m) => parse_message_of(jv(*v)) == Some(m@),
            None => parse_message_of(jv(*v)) is None,
        },
{
    match v {
        JsonValue::Obj(_) => {
            let channel = match v.get_field("channel") {
                Some(f) => match f {
                    JsonValue::Str(c) => c.clone(),
                    _ => {
                        return None;
                    },
                },
                None => {
                    return None;
                },
            };
            let instruction = match v.get_field("instruction") {
                Some(f) => match f {
                    JsonValue::Str(c) => c.clone(),
                    _ => {
                        return None;
                    },
                },
                None => {
                    return None;
                },
            };
            let data = match v.get_field("data") {
                None => None,
                Some(f) => match f {
                    JsonValue::Null => None,
                    _ => Some(crate::codec::copy_json(f)),
                },
            };
            Some(MessageToUser { channel, instruction, data })
        },
        _ => None,
    }
}

/// Resolves an inbound message to its channel handler and decides the reply
/// and any broadcast. Delivery itself is the transport's work.
pub fn route_socket(msg: SocketMessage, _client_id: String) -> (r: SocketOutcome)
    ensures
        r@ == route_socket_spec(msg.channel@, crate::response::opt_jv(msg.data)),
{
    match SocketChannel::from_channel_str(msg.channel.as_str()) {
        SocketChannel::Ping => SocketOutcome {
            response: Some(SocketResponse::success(Some(String::from_str("pong")), None)),
            broadcast: None,
        },
        SocketChannel::ClientData => {
            let d = ChannelData::from_json_lenient(&msg.data);
            match d.artist_id {
                Some(a) => {
                    let reply = crate::rest::obj2(
                        "artist_id",
                        JsonValue::Str(a),
                        "info",
                        JsonValue::Str(String::from_str("Mocked artist catalog data")),
                    );
                    let text = json_to_string(&reply);
                    SocketOutcome {
                        response: Some(SocketResponse::success(Some(text), None)),
                        broadcast: None,
                    }
                },
                None => SocketOutcome {
                    response: Some(
                        SocketResponse::failure(
                            Some(String::from_str("Missing artist ID")),
                            None,
                        ),
                    ),
                    broadcast: None,
                },
            }
        },
        SocketChannel::Broadcast => {
            match msg.data {
                None => SocketOutcome {
                    response: Some(
                        SocketResponse::failure(
                            Some(String::from_str("Invalid broadcast message")),
                            None,
                        ),
                    ),
                    broadcast: None,
                },
                Some(bv) => match parse_message(&bv) {
                    Some(m) => SocketOutcome {
                        response: Some(SocketResponse::success(None, None)),
                        broadcast: Some(m),
                    },
                    None => SocketOutcome {
                        response: Some(
                            SocketResponse::failure(
                                Some(String::from_str("Malformed broadcast message")),
                                None,
                            ),
                        ),
                        broadcast: None,
                    },
                },
            }
        },
        SocketChannel::Unrecognized => SocketOutcome {
            response: Some(
                SocketResponse::failure(Some(String::from_str("Unrecognized channel")), None),
            ),
            broadcast: None,
        },
    }
}

/// The channel dispatcher.
#[derive(Clone, Copy)]
pub struct SocketRouter;

impl SocketRouter {
    /// One inbound message, one decision.
    pub fn route(&self, msg: SocketMessage, client_id: String) -> (r: SocketOutcome)
        ensures
            r@ == route_socket_spec(msg.channel@, crate::response::opt_jv(msg.data)),
    {
        route_socket(msg, client_id)
    }
}

/// A ping is always answered `pong`, whatever the payload carries, with no
/// auth check, no broadcast, and no dependence on any shared state.
pub proof fn lemma_ping_always_pong(data: Option<JsonVal>)
    ensures
        route_socket_spec("ping"@, data) == (SocketOutcomeV {
            response: Some(sock_success_spec(Some("pong"@), None)),
            broadcast: None,
        }),
{
}

/// A broadcast request without a payload is answered with a failure reply
/// and delivery is never attempted.
pub proof fn lemma_broadcast_without_payload(channel: Seq<char>)
    requires
        channel_of(channel) == SocketChannel::Broadcast,
    ensures
        route_socket_spec(channel, None) == (SocketOutcomeV {
            response: Some(sock_failure_spec(Some("Invalid broadcast message"@), None)),
            broadcast: None,
        }),
{
}

} // verus!
