//! Request and response envelopes.
use crate::errors::KernelError;
use crate::json::{entry, json_object2, json_str, JsonValue, JsonView};
use vstd::prelude::*;
use vstd::string::*;

verus! {

/// The three request types.
#[derive(Debug, Clone, Copy, PartialEq, Eq, Structural)]
pub enum RequestType {
    Quote,
    Submit,
    Read,
}

/// A request: its id, its type, and a JSON payload.
#[derive(Debug)]
pub struct RequestEnvelope {
    pub request_id: String,
    pub request_type: RequestType,
    pub payload: JsonValue,
}

/// A response: the request id, `"ok"` or `"error"`, and a JSON payload.
#[derive(Debug)]
pub struct ResponseEnvelope {
    pub request_id: String,
    pub status: String,
    pub payload: JsonValue,
}

impl ResponseEnvelope {
    /// A successful response.
    pub fn ok(request_id: String, payload: JsonValue) -> (r: Self)
        ensures
            r.request_id == request_id,
            r.status@ == "ok"@,
            r.payload == payload,
    {
        ResponseEnvelope { request_id, status: String::from_str("ok"), payload }
    }

    /// An error response carrying the structured form of `error`.
    pub fn err_structured(request_id: String, error: &KernelError) -> (r: Self)
        ensures
            r.request_id == request_id,
            r.status@ == "error"@,
            r.payload@ == error.spec_payload(),
    {
        ResponseEnvelope {
            request_id,
            status: String::from_str("error"),
            payload: error.to_error_payload(),
        }
    }

    /// An error response from a plain message.
    pub fn err(request_id: String, message: String) -> (r: Self)
        ensures
            r.request_id == request_id,
            r.status@ == "error"@,
            r.payload@ == JsonView::Object(
                seq![
                    ("error_type"@, JsonView::String("Unknown"@)),
                    ("message"@, JsonView::String(message@)),
                ],
            ),
    {
        let ghost m = message@;
        let payload = json_object2(
            entry("error_type", json_str("Unknown")),
            entry("message", JsonValue::String(message)),
        );
        ResponseEnvelope { request_id, status: String::from_str("error"), payload }
    }
}

} // verus!
