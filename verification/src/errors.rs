//! The kernel's error type and its structured form.
use crate::json::{
    entry, i64_number_view, json_i64, json_object2, json_object3, json_object4, json_object5, json_str,
    JsonValue, JsonView,
};
use crate::text::{int_text, push_i64, push_str};
use vstd::prelude::*;
use vstd::string::*;

verus! {

/// Unified error type for kernel operations.
#[derive(Debug)]
pub enum KernelError {
    InvalidRequest(String),
    PolicyViolation(String),
    ActorNotFound(String),
    InsufficientEnergy { actor_id: String, required: i64, available: i64 },
    ActorFrozen(String),
    BoundaryViolation(String),
    AuthorizationRequired(String),
    HoldTriggered { hold_id: String, agent_id: String },
    ExecutePayloadInvalid(String),
    Sandbox(String),
    Audit(String),
    /// A failed read or write of the host, with its message.
    Io(String),
    /// A failed database operation, with its message.
    Db(String),
    /// A failed JSON conversion, with its message.
    Json(String),
}

/// Convenience alias for `Result<T, KernelError>`.
pub type KernelResult<T> = Result<T, KernelError>;

impl KernelError {
    /// The machine-readable name of the variant.
    pub open spec fn spec_error_type(&self) -> Seq<char> {
        match self {
            KernelError::InvalidRequest(_) => "InvalidRequest"@,
            KernelError::PolicyViolation(_) => "PolicyViolation"@,
            KernelError::ActorNotFound(_) => "ActorNotFound"@,
            KernelError::InsufficientEnergy { .. } => "InsufficientEnergy"@,
            KernelError::ActorFrozen(_) => "ActorFrozen"@,
            KernelError::BoundaryViolation(_) => "BoundaryViolation"@,
            KernelError::AuthorizationRequired(_) => "AuthorizationRequired"@,
            KernelError::HoldTriggered { .. } => "HoldTriggered"@,
            KernelError::ExecutePayloadInvalid(_) => "ExecutePayloadInvalid"@,
            KernelError::Sandbox(_) => "Sandbox"@,
            KernelError::Audit(_) => "Audit"@,
            KernelError::Io(_) => "Io"@,
            KernelError::Db(_) => "Db"@,
            KernelError::Json(_) => "Json"@,
        }
    }

    /// The human-readable message.
    pub open spec fn spec_message(&self) -> Seq<char> {
        match self {
            KernelError::InvalidRequest(d) => "invalid request: "@ + d@,
            KernelError::PolicyViolation(d) => "policy violation: "@ + d@,
            KernelError::ActorNotFound(d) => "actor not found: "@ + d@,
            KernelError::InsufficientEnergy { actor_id, required, available } => "insufficient energy: actor="@
                + actor_id@ + ", required="@ + int_text(*required as int) + ", available="@
                + int_text(*available as int),
            KernelError::ActorFrozen(d) => "actor frozen: "@ + d@,
            KernelError::BoundaryViolation(d) => "boundary violation: "@ + d@,
            KernelError::AuthorizationRequired(d) => "authorization required: "@ + d@,
            KernelError::HoldTriggered { hold_id, agent_id } => "hold triggered: hold_id="@ + hold_id@
                + ", agent="@ + agent_id@,
            KernelError::ExecutePayloadInvalid(d) => "execute payload invalid: "@ + d@,
            KernelError::Sandbox(d) => "sandbox error: "@ + d@,
            KernelError::Audit(d) => "audit error: "@ + d@,
            KernelError::Io(d) => d@,
            KernelError::Db(d) => d@,
            KernelError::Json(d) => d@,
        }
    }

    /// The machine-readable name of the variant.
    pub fn error_type(&self) -> (r: &'static str)
        ensures
            r@ == self.spec_error_type(),
    {
        match self {
            KernelError::InvalidRequest(_) => "InvalidRequest",
            KernelError::PolicyViolation(_) => "PolicyViolation",
            KernelError::ActorNotFound(_) => "ActorNotFound",
            KernelError::InsufficientEnergy { .. } => "InsufficientEnergy",
            KernelError::ActorFrozen(_) => "ActorFrozen",
            KernelError::BoundaryViolation(_) => "BoundaryViolation",
            KernelError::AuthorizationRequired(_) => "AuthorizationRequired",
            KernelError::HoldTriggered { .. } => "HoldTriggered",
            KernelError::ExecutePayloadInvalid(_) => "ExecutePayloadInvalid",
            KernelError::Sandbox(_) => "Sandbox",
            KernelError::Audit(_) => "Audit",
            KernelError::Io(_) => "Io",
            KernelError::Db(_) => "Db",
            KernelError::Json(_) => "Json",
        }
    }

    /// The human-readable message (what the error displays as).
    pub fn to_string(&self) -> (r: String)
        ensures
            r@ == self.spec_message(),
    {
        let mut out = String::new();
        match self {
            KernelError::InvalidRequest(d) => {
                push_str(&mut out, "invalid request: ");
                push_str(&mut out, d.as_str());
            },
            KernelError::PolicyViolation(d) => {
                push_str(&mut out, "policy violation: ");
                push_str(&mut out, d.as_str());
            },
            KernelError::ActorNotFound(d) => {
                push_str(&mut out, "actor not found: ");
                push_str(&mut out, d.as_str());
            },
            KernelError::InsufficientEnergy { actor_id, required, available } => {
                push_str(&mut out, "insufficient energy: actor=");
                push_str(&mut out, actor_id.as_str());
                push_str(&mut out, ", required=");
                push_i64(&mut out, *required);
                push_str(&mut out, ", available=");
                push_i64(&mut out, *available);
            },
            KernelError::ActorFrozen(d) => {
                push_str(&mut out, "actor frozen: ");
                push_str(&mut out, d.as_str());
            },
            KernelError::BoundaryViolation(d) => {
                push_str(&mut out, "boundary violation: ");
                push_str(&mut out, d.as_str());
            },
            KernelError::AuthorizationRequired(d) => {
                push_str(&mut out, "authorization required: ");
                push_str(&mut out, d.as_str());
            },
            KernelError::HoldTriggered { hold_id, agent_id } => {
                push_str(&mut out, "hold triggered: hold_id=");
                push_str(&mut out, hold_id.as_str());
                push_str(&mut out, ", agent=");
                push_str(&mut out, agent_id.as_str());
            },
            KernelError::ExecutePayloadInvalid(d) => {
                push_str(&mut out, "execute payload invalid: ");
                push_str(&mut out, d.as_str());
            },
            KernelError::Sandbox(d) => {
                push_str(&mut out, "sandbox error: ");
                push_str(&mut out, d.as_str());
            },
            KernelError::Audit(d) => {
                push_str(&mut out, "audit error: ");
                push_str(&mut out, d.as_str());
            },
            KernelError::Io(d) => push_str(&mut out, d.as_str()),
            KernelError::Db(d) => push_str(&mut out, d.as_str()),
            KernelError::Json(d) => push_str(&mut out, d.as_str()),
        }
        proof {
            assert(out@ =~= self.spec_message());
        }
        out
    }

    /// The fields (besides `error_type` and `message`) of the structured form,
    /// as `(key, value)` views in key order.
    pub open spec fn spec_payload(&self) -> JsonView {
        let et = ("error_type"@, JsonView::String(self.spec_error_type()));
        let msg = ("message"@, JsonView::String(self.spec_message()));
        match self {
            KernelError::ActorNotFound(a) => JsonView::Object(
                seq![("actor_id"@, JsonView::String(a@)), et, msg],
            ),
            KernelError::ActorFrozen(a) => JsonView::Object(
                seq![("actor_id"@, JsonView::String(a@)), et, msg],
            ),
            KernelError::InsufficientEnergy { actor_id, required, available } => JsonView::Object(
                seq![
                    ("actor_id"@, JsonView::String(actor_id@)),
                    ("available"@, JsonView::Number(i64_number_view(*available))),
                    et,
                    msg,
                    ("required"@, JsonView::Number(i64_number_view(*required))),
                ],
            ),
            KernelError::HoldTriggered { hold_id, agent_id } => JsonView::Object(
                seq![
                    ("agent_id"@, JsonView::String(agent_id@)),
                    et,
                    ("hold_id"@, JsonView::String(hold_id@)),
                    msg,
                ],
            ),
            KernelError::Io(_) => JsonView::Object(seq![et, msg]),
            KernelError::Db(_) => JsonView::Object(seq![et, msg]),
            KernelError::Json(_) => JsonView::Object(seq![et, msg]),
            KernelError::InvalidRequest(d) => JsonView::Object(
                seq![("detail"@, JsonView::String(d@)), et, msg],
            ),
            KernelError::PolicyViolation(d) => JsonView::Object(
                seq![("detail"@, JsonView::String(d@)), et, msg],
            ),
            KernelError::BoundaryViolation(d) => JsonView::Object(
                seq![("detail"@, JsonView::String(d@)), et, msg],
            ),
            KernelError::AuthorizationRequired(d) => JsonView::Object(
                seq![("detail"@, JsonView::String(d@)), et, msg],
            ),
            KernelError::ExecutePayloadInvalid(d) => JsonView::Object(
                seq![("detail"@, JsonView::String(d@)), et, msg],
            ),
            KernelError::Sandbox(d) => JsonView::Object(
                seq![("detail"@, JsonView::String(d@)), et, msg],
            ),
            KernelError::Audit(d) => JsonView::Object(
                seq![("detail"@, JsonView::String(d@)), et, msg],
            ),
        }
    }

    /// Structured error payload for responses: `error_type`, `message`, and the
    /// variant's fields, with keys in sorted order.
    pub fn to_error_payload(&self) -> (r: JsonValue)
        ensures
            r@ == self.spec_payload(),
    {
        let et = entry("error_type", json_str(self.error_type()));
        let msg = entry("message", JsonValue::String(self.to_string()));
        match self {
            KernelError::ActorNotFound(a) => json_object3(
                entry("actor_id", json_str(a.as_str())),
                et,
                msg,
            ),
            KernelError::ActorFrozen(a) => json_object3(
                entry("actor_id", json_str(a.as_str())),
                et,
                msg,
            ),
            KernelError::InsufficientEnergy { actor_id, required, available } => json_object5(
                entry("actor_id", json_str(actor_id.as_str())),
                entry("available", json_i64(*available)),
                et,
                msg,
                entry("required", json_i64(*required)),
            ),
            KernelError::HoldTriggered { hold_id, agent_id } => json_object4(
                entry("agent_id", json_str(agent_id.as_str())),
                et,
                entry("hold_id", json_str(hold_id.as_str())),
                msg,
            ),
            KernelError::Io(_) => json_object2(et, msg),
            KernelError::Db(_) => json_object2(et, msg),
            KernelError::Json(_) => json_object2(et, msg),
            KernelError::InvalidRequest(d) => json_object3(entry("detail", json_str(d.as_str())), et, msg),
            KernelError::PolicyViolation(d) => json_object3(entry("detail", json_str(d.as_str())), et, msg),
            KernelError::BoundaryViolation(d) => json_object3(entry("detail", json_str(d.as_str())), et, msg),
            KernelError::AuthorizationRequired(d) => json_object3(entry("detail", json_str(d.as_str())), et, msg),
            KernelError::ExecutePayloadInvalid(d) => json_object3(entry("detail", json_str(d.as_str())), et, msg),
            KernelError::Sandbox(d) => json_object3(entry("detail", json_str(d.as_str())), et, msg),
            KernelError::Audit(d) => json_object3(entry("detail", json_str(d.as_str())), et, msg),
        }
    }
}

} // verus!
