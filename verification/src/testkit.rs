//! Helpers for tests: a scratch state directory and request envelopes.
use crate::json::JsonValue;
use crate::protocol::{RequestEnvelope, RequestType};
use crate::state::{join, join_path};
use crate::text::push_str;
use vstd::prelude::*;
use vstd::string::*;

verus! {

/// A scratch state directory `<temp>/<prefix>-<uuid>`; the caller creates
/// it on disk and removes it when done.
#[derive(Debug)]
pub struct TestStateDir {
    path: String,
}

impl View for TestStateDir {
    type V = Seq<char>;

    closed spec fn view(&self) -> Seq<char> {
        self.path@
    }
}

impl TestStateDir {
    /// A fresh directory name under `temp_dir`, made of the prefix and a
    /// random UUID.
    pub fn under(temp_dir: &str, prefix: &str) -> (d: Self)
        ensures
            exists|id: Seq<char>| d@ == join_path(temp_dir@, prefix@ + "-"@ + id),
    {
        let id = crate::clock::new_uuid();
        let mut name = String::new();
        push_str(&mut name, prefix);
        push_str(&mut name, "-");
        push_str(&mut name, id.as_str());
        let d = TestStateDir { path: join(temp_dir, name.as_str()) };
        proof {
            assert(d@ == join_path(temp_dir@, prefix@ + "-"@ + id@));
        }
        d
    }

    /// The directory.
    pub fn path(&self) -> (r: &str)
        ensures
            r@ == self@,
    {
        self.path.as_str()
    }

    /// A fresh IPC endpoint name `punkgo-test-<uuid>`.
    pub fn ipc_endpoint(&self) -> (r: String)
        ensures
            exists|id: Seq<char>| r@ == "punkgo-test-"@ + id,
    {
        let id = crate::clock::new_uuid();
        let mut r = String::new();
        push_str(&mut r, "punkgo-test-");
        push_str(&mut r, id.as_str());
        r
    }
}

/// A request of the given type and payload under a fresh request id.
pub fn make_request(request_type: RequestType, payload: JsonValue) -> (r: RequestEnvelope)
    ensures
        r.request_type == request_type,
        r.payload == payload,
{
    RequestEnvelope { request_id: crate::clock::new_uuid(), request_type, payload }
}

} // verus!
