use vstd::prelude::*;
use vstd::string::StringExecFns;
use crate::json::{JsonVal, JsonValue, jv};

verus! {

/// Closed taxonomy of error classifications.
#[derive(Clone, Copy, PartialEq, Eq, Structural, Debug)]
pub enum ErrorCode {
    BadRequest,
    Unauthorized,
    NotFound,
    InternalServerError,
}

/// Mathematical model of a response.
pub enum RespV {
    Success { msg: Option<Seq<char>>, data: Option<JsonVal> },
    Error { code: ErrorCode, msg: Option<Seq<char>> },
}

/// Uniform response shape: every REST dispatch terminates in exactly one of
/// these two variants.
#[derive(Debug, PartialEq)]
pub enum Response {
    Success { msg: Option<String>, data: Option<JsonValue> },
    Error { code: ErrorCode, msg: Option<String> },
}

pub open spec fn opt_str_view(s: Option<String>) -> Option<Seq<char>> {
    match s {
        Some(x) => Some(x@),
        None => None,
    }
}

pub open spec fn opt_jv(d: Option<JsonValue>) -> Option<JsonVal> {
    match d {
        Some(x) => Some(jv(x)),
        None => None,
    }
}

impl View for Response {
    type V = RespV;

    open spec fn view(&self) -> RespV {
        match *self {
            Response::Success { msg, data } => RespV::Success {
                msg: opt_str_view(msg),
                data: opt_jv(data),
            },
            Response::Error { code, msg } => RespV::Error { code, msg: opt_str_view(msg) },
        }
    }
}

pub open spec fn success_data_spec(d: JsonVal) -> RespV {
    RespV::Success { msg: None, data: Some(d) }
}

pub open spec fn success_msg_spec(m: Seq<char>) -> RespV {
    RespV::Success { msg: Some(m), data: None }
}

pub open spec fn error_spec(code: ErrorCode, m: Seq<char>) -> RespV {
    RespV::Error { code, msg: Some(m) }
}

impl Response {
    /// A success response carrying a data payload.
    pub fn of_data(data: JsonValue) -> (r: Response)
        ensures
            r@ == success_data_spec(jv(data)),
    {
        Response::Success { msg: None, data: Some(data) }
    }

    /// A success response carrying a message string.
    pub fn of_msg(msg: String) -> (r: Response)
        ensures
            r@ == success_msg_spec(msg@),
    {
        Response::Success { msg: Some(msg), data: None }
    }

    /// An error response with a classification code and a message.
    pub fn of_error(code: ErrorCode, msg: &str) -> (r: Response)
        ensures
            r@ == error_spec(code, msg@),
    {
        Response::Error { code, msg: Some(String::from_str(msg)) }
    }
}

} // verus!
