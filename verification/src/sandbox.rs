//! Execution envelopes for the process backend: what an `execute` action
//! asks to run, within which limits, and how its output is kept.
use crate::action::Action;
use crate::digest::{sha256, sha256_digest};
use crate::errors::{KernelError, KernelResult};
use crate::hex::{bytes_to_hex, hex_of};
use crate::json::JsonValue;
use crate::policy::{is_blank, is_blank_str};
use vstd::prelude::*;
use vstd::string::*;

verus! {

/// The handle of a prepared workspace, passed through the lifecycle.
#[derive(Debug)]
pub struct SnapshotHandle {
    pub workspace: String,
    /// Backend-specific data (unused by the process backend).
    pub extra: Option<String>,
}

/// What one execution runs and within which limits.  Exactly one of
/// `command` (spawn a process) and `content` (store bytes) is present.
#[derive(Debug)]
pub struct ExecutionEnvelope {
    pub actor_id: String,
    pub command: Option<String>,
    pub args: Vec<String>,
    pub content: Option<Vec<u8>>,
    /// The smaller of the requested timeout and the system limit.
    pub timeout_ms: u64,
    pub workspace_root: String,
    /// Max bytes kept of stdout and of stderr; 0 keeps everything.
    pub output_max_bytes: u64,
    /// Paths beyond the workspace the process may use; empty means none.
    pub filesystem_allowlist: Vec<String>,
}

/// The outcome of one execution.
#[derive(Debug)]
pub struct SandboxRunResult {
    pub run_id: String,
    pub exit_code: Option<i32>,
    pub stdout: String,
    pub stderr: String,
    /// SHA-256(stdout || stderr) of the full output, as hex.
    pub artifact_hash: String,
    pub timed_out: bool,
    pub stdout_truncated: bool,
    pub stderr_truncated: bool,
    pub workspace: String,
}

/// Sandbox limits; every limit 0 (or empty) means not enforced.
#[derive(Debug, Clone)]
pub struct SandboxConfig {
    /// Max bytes for stdout and for stderr; 0 = unlimited.
    pub output_max_bytes: u64,
    /// Extra paths beyond the workspace; empty = workspace only.
    pub filesystem_allowlist: Vec<String>,
}

impl SandboxConfig {
    /// No limits.
    pub fn unlimited() -> (c: Self)
        ensures
            c.output_max_bytes == 0,
            c.filesystem_allowlist@.len() == 0,
    {
        SandboxConfig { output_max_bytes: 0, filesystem_allowlist: Vec::new() }
    }
}

/// The bare operating-system process backend.
#[derive(Debug, Clone)]
pub struct ProcessBackend {
    pub workspace_root: String,
}

/// The strings of a JSON array, skipping its other items.
pub open spec fn string_items(items: Seq<JsonValue>) -> Seq<Seq<char>>
    decreases items.len(),
{
    if items.len() == 0 {
        Seq::empty()
    } else {
        let rest = string_items(items.drop_last());
        match items.last() {
            JsonValue::String(s) => rest.push(s@),
            _ => rest,
        }
    }
}

/// The requested timeout (30 s by default) capped by the system limit.
pub open spec fn effective_timeout(payload: JsonValue, limit: Option<u64>) -> u64 {
    let requested = match payload.spec_get("timeout_ms"@) {
        Some(v) => match v.spec_as_u64() {
            Some(t) => t,
            None => 30_000,
        },
        None => 30_000,
    };
    match limit {
        Some(l) => if requested < l {
            requested
        } else {
            l
        },
        None => requested,
    }
}

impl ProcessBackend {
    /// A backend whose workspaces live under `workspace_root`.
    pub fn new(workspace_root: &str) -> (b: Self)
        ensures
            b.workspace_root@ == workspace_root@,
    {
        ProcessBackend { workspace_root: String::from_str(workspace_root) }
    }

    /// The backend's name.
    pub fn name(&self) -> (r: &'static str)
        ensures
            r@ == "process"@,
    {
        "process"
    }

    /// Builds the execution envelope of an `execute` action: `command` with
    /// string `args` (other items skipped), or `content` stored as its UTF-8
    /// bytes, never both; the timeout is the requested one (30 s by default)
    /// capped by the system limit.
    pub fn envelope_from_action(action: &Action, workspace_root: &str, system_timeout_limit: Option<
        u64,
    >) -> (r: KernelResult<ExecutionEnvelope>)
        ensures
            !(action.payload is Object) ==> (r matches Err(KernelError::Sandbox(d)) && d@
                == "execute payload must be JSON object"@),
            ({
                let p = action.payload;
                let has_command = p.spec_get("command"@) is Some;
                let has_content = p.spec_get("content"@) is Some;
                &&& p is Object && has_command && has_content ==> (r matches Err(
                    KernelError::Sandbox(d),
                ) && d@ == "payload.command and payload.content are mutually exclusive"@)
                &&& p is Object && !has_command && !has_content ==> (r matches Err(
                    KernelError::Sandbox(d),
                ) && d@ == "payload must have either command or content"@)
                &&& p is Object && has_content && !has_command ==> match p.spec_get(
                    "content"@,
                )->0.spec_as_str() {
                    None => r matches Err(KernelError::Sandbox(d)) && d@
                        == "payload.content must be a string"@,
                    Some(t) => r matches Ok(env) && env.command is None && env.args@.len() == 0
                        && env.content is Some && env.content->0@
                        == vstd::utf8::encode_utf8(t) && env.timeout_ms == effective_timeout(
                        p,
                        system_timeout_limit,
                    ),
                }
                &&& p is Object && has_command && !has_content ==> match p.spec_get(
                    "command"@,
                )->0.spec_as_str() {
                    None => r matches Err(KernelError::Sandbox(d)) && d@
                        == "payload.command is required"@,
                    Some(c) => if is_blank(c) {
                        r matches Err(KernelError::Sandbox(d)) && d@
                            == "payload.command cannot be empty"@
                    } else {
                        r matches Ok(env) && env.command is Some && env.command->0@ == c
                            && env.content is None && crate::text::views_of(env.args@) == match p.spec_get(
                            "args"@,
                        ) {
                            Some(JsonValue::Array(items)) => string_items(items@),
                            _ => Seq::empty(),
                        } && env.timeout_ms == effective_timeout(p, system_timeout_limit)
                    },
                }
            }),
            r matches Ok(env) ==> env.actor_id@ == action.actor_id@ && env.workspace_root@
                == workspace_root@ && env.output_max_bytes == 0 && env.filesystem_allowlist@.len()
                == 0,
    {
        let payload = &action.payload;
        match payload {
            JsonValue::Object(_) => {},
            _ => {
                return Err(KernelError::Sandbox(String::from_str("execute payload must be JSON object")));
            },
        }
        let command_v = payload.get("command");
        let content_v = payload.get("content");
        if command_v.is_some() && content_v.is_some() {
            return Err(
                KernelError::Sandbox(
                    String::from_str("payload.command and payload.content are mutually exclusive"),
                ),
            );
        }
        if command_v.is_none() && content_v.is_none() {
            return Err(
                KernelError::Sandbox(String::from_str("payload must have either command or content")),
            );
        }
        let requested: u64 = match payload.get("timeout_ms") {
            Some(v) => match v.as_u64() {
                Some(t) => t,
                None => 30_000,
            },
            None => 30_000,
        };
        let timeout_ms: u64 = match system_timeout_limit {
            Some(limit) => if requested < limit {
                requested
            } else {
                limit
            },
            None => requested,
        };
        match content_v {
            Some(c) => {
                let text = match c.as_str() {
                    Some(t) => t,
                    None => {
                        return Err(
                            KernelError::Sandbox(String::from_str("payload.content must be a string")),
                        );
                    },
                };
                let bytes = text.as_bytes_vec();
                return Ok(
                    ExecutionEnvelope {
                        actor_id: action.actor_id.clone(),
                        command: None,
                        args: Vec::new(),
                        content: Some(bytes),
                        timeout_ms,
                        workspace_root: String::from_str(workspace_root),
                        output_max_bytes: 0,
                        filesystem_allowlist: Vec::new(),
                    },
                );
            },
            None => {},
        }
        let command = match command_v {
            Some(v) => match v.as_str() {
                Some(c) => c,
                None => {
                    return Err(KernelError::Sandbox(String::from_str("payload.command is required")));
                },
            },
            None => {
                return Err(KernelError::Sandbox(String::from_str("payload.command is required")));
            },
        };
        if is_blank_str(command) {
            return Err(KernelError::Sandbox(String::from_str("payload.command cannot be empty")));
        }
        let mut args: Vec<String> = Vec::new();
        match payload.get("args") {
            Some(JsonValue::Array(items)) => {
                let mut i: usize = 0;
                while i < items.len()
                    invariant
                        i <= items@.len(),
                        crate::text::views_of(args@) == string_items(items@.take(i as int)),
                    decreases items@.len() - i,
                {
                    proof {
                        assert(items@.take(i + 1).drop_last() =~= items@.take(i as int));
                    }
                    match &items[i] {
                        JsonValue::String(s) => {
                            let ghost before = args@;
                            args.push(s.clone());
                            proof {
                                assert(crate::text::views_of(args@) =~= crate::text::views_of(
                                    before,
                                ).push(s@));
                            }
                        },
                        _ => {},
                    }
                    i = i + 1;
                }
                proof {
                    assert(items@.take(items@.len() as int) =~= items@);
                }
            },
            _ => {
                proof {
                    assert(crate::text::views_of(args@) =~= Seq::<Seq<char>>::empty());
                }
            },
        }
        Ok(
            ExecutionEnvelope {
                actor_id: action.actor_id.clone(),
                command: Some(String::from_str(command)),
                args,
                content: None,
                timeout_ms,
                workspace_root: String::from_str(workspace_root),
                output_max_bytes: 0,
                filesystem_allowlist: Vec::new(),
            },
        )
    }
}

/// Keeps at most `limit` bytes of an output (all of it when `limit` is 0);
/// says whether anything was cut.
pub fn truncate_output(raw: &[u8], limit: u64) -> (r: (&[u8], bool))
    ensures
        limit == 0 || raw@.len() <= limit ==> r.0@ == raw@ && !r.1,
        !(limit == 0 || raw@.len() <= limit) ==> r.0@ == raw@.take(limit as int) && r.1,
{
    if limit == 0 || (raw.len() as u64) <= limit {
        (raw, false)
    } else {
        (vstd::slice::slice_subrange(raw, 0, limit as usize), true)
    }
}

/// The artifact hash of an execution: hex SHA-256 of stdout then stderr.
pub open spec fn artifact_hash_of(stdout: Seq<u8>, stderr: Seq<u8>) -> Seq<char> {
    hex_of(sha256_digest(stdout + stderr))
}

/// Computes the artifact hash of an execution's full output.
pub fn compute_artifact_hash(stdout: &[u8], stderr: &[u8]) -> (r: String)
    ensures
        r@ == artifact_hash_of(stdout@, stderr@),
{
    let mut all: Vec<u8> = Vec::new();
    let mut i: usize = 0;
    while i < stdout.len()
        invariant
            i <= stdout@.len(),
            all@ == stdout@.take(i as int),
        decreases stdout@.len() - i,
    {
        all.push(stdout[i]);
        proof {
            assert(stdout@.take(i + 1) =~= stdout@.take(i as int).push(stdout@[i as int]));
        }
        i = i + 1;
    }
    let mut j: usize = 0;
    while j < stderr.len()
        invariant
            j <= stderr@.len(),
            i == stdout@.len(),
            all@ == stdout@.take(i as int) + stderr@.take(j as int),
        decreases stderr@.len() - j,
    {
        all.push(stderr[j]);
        proof {
            assert(stderr@.take(j + 1) =~= stderr@.take(j as int).push(stderr@[j as int]));
        }
        j = j + 1;
    }
    proof {
        assert(stdout@.take(i as int) =~= stdout@);
        assert(stderr@.take(j as int) =~= stderr@);
    }
    let digest = sha256(all.as_slice());
    bytes_to_hex(digest.as_slice())
}

/// The registered backends by name, and the name of the default one.
#[derive(Debug)]
pub struct BackendRegistry {
    backends: Vec<ProcessBackend>,
    default_name: String,
}

/// Whether no two backends share a name.
pub open spec fn names_unique(bs: Seq<ProcessBackend>) -> bool {
    forall|i: int, j: int|
        0 <= i < bs.len() && 0 <= j < bs.len() && i != j ==> (#[trigger] bs[i]).spec_name() != (
        #[trigger] bs[j]).spec_name()
}

impl ProcessBackend {
    /// The name under which the backend registers.
    pub open spec fn spec_name(&self) -> Seq<char> {
        "process"@
    }
}

impl BackendRegistry {
    /// The backends, as a map from name to workspace root.
    pub closed spec fn backends_map(&self) -> Map<Seq<char>, Seq<char>> {
        Map::new(
            |name: Seq<char>|
                exists|i: int|
                    0 <= i < self.backends@.len() && (#[trigger] self.backends@[i]).spec_name()
                        == name,
            |name: Seq<char>|
                self.backends@[choose|i: int|
                    0 <= i < self.backends@.len() && (#[trigger] self.backends@[i]).spec_name()
                        == name].workspace_root@,
        )
    }

    /// The name of the default backend.
    pub closed spec fn spec_default_name(&self) -> Seq<char> {
        self.default_name@
    }

    pub closed spec fn wf(&self) -> bool {
        names_unique(self.backends@)
    }

    /// An empty registry whose default is `process`.
    pub fn new() -> (r: Self)
        ensures
            r.wf(),
            r.backends_map() == Map::<Seq<char>, Seq<char>>::empty(),
            r.spec_default_name() == "process"@,
    {
        let r = BackendRegistry { backends: Vec::new(), default_name: String::from_str("process") };
        proof {
            assert(r.backends_map() =~= Map::<Seq<char>, Seq<char>>::empty());
        }
        r
    }

    /// Registers a backend under its name, replacing one of the same name.
    pub fn register(&mut self, backend: ProcessBackend)
        requires
            old(self).wf(),
        ensures
            final(self).wf(),
            final(self).backends_map() == old(self).backends_map().insert(
                backend.spec_name(),
                backend.workspace_root@,
            ),
            final(self).spec_default_name() == old(self).spec_default_name(),
    {
        let ghost before = self.backends@;
        let ghost name = backend.spec_name();
        let ghost root = backend.workspace_root@;
        if self.backends.len() > 0 {
            // Every backend is named `process`, so at most one is registered.
            proof {
                if before.len() > 1 {
                    assert(before[0].spec_name() == before[1].spec_name());
                }
            }
            self.backends.set(0, backend);
        } else {
            self.backends.push(backend);
        }
        proof {
            assert(self.backends@.len() == 1);
            assert(self.backends@[0].spec_name() == name);
            assert(self.backends_map().dom() =~= old(self).backends_map().insert(name, root).dom());
            assert(self.backends_map() =~= old(self).backends_map().insert(name, root));
        }
    }

    /// The backend registered under `name`.
    pub fn get(&self, name: &str) -> (r: Option<&ProcessBackend>)
        requires
            self.wf(),
        ensures
            r is Some <==> self.backends_map().dom().contains(name@),
            r matches Some(b) ==> b.workspace_root@ == self.backends_map()[name@] && b.spec_name()
                == name@,
    {
        let mut i: usize = 0;
        while i < self.backends.len()
            invariant
                self.wf(),
                i <= self.backends@.len(),
                forall|j: int| 0 <= j < i ==> (#[trigger] self.backends@[j]).spec_name() != name@,
            decreases self.backends@.len() - i,
        {
            if crate::text::str_eq(self.backends[i].name(), name) {
                proof {
                    assert(self.backends@[i as int].spec_name() == name@);
                    let k = choose|k: int|
                        0 <= k < self.backends@.len() && (#[trigger] self.backends@[k]).spec_name()
                            == name@;
                    assert(k == i as int);
                }
                return Some(&self.backends[i]);
            }
            i = i + 1;
        }
        None
    }

    /// The default backend, when one is registered under the default name.
    pub fn default_backend(&self) -> (r: Option<&ProcessBackend>)
        requires
            self.wf(),
        ensures
            r is Some <==> self.backends_map().dom().contains(self.spec_default_name()),
            r matches Some(b) ==> b.workspace_root@ == self.backends_map()[self.spec_default_name()],
    {
        self.get(self.default_name.as_str())
    }

    /// Makes `name` the default.
    pub fn set_default(&mut self, name: &str)
        requires
            old(self).wf(),
        ensures
            final(self).wf(),
            final(self).spec_default_name() == name@,
            final(self).backends_map() == old(self).backends_map(),
    {
        self.default_name = String::from_str(name);
    }

    /// The names of the registered backends.
    pub fn list_backends(&self) -> (r: Vec<&'static str>)
        requires
            self.wf(),
        ensures
            r@.len() == self.backends_map().dom().len(),
            forall|i: int| 0 <= i < r@.len() ==> self.backends_map().dom().contains(#[trigger] r@[i]@),
    {
        let mut r: Vec<&'static str> = Vec::new();
        if self.backends.len() > 0 {
            r.push(self.backends[0].name());
            proof {
                if self.backends@.len() > 1 {
                    assert(self.backends@[0].spec_name() == self.backends@[1].spec_name());
                }
                assert(self.backends_map().dom() =~= set!["process"@]);
            }
        } else {
            proof {
                assert(self.backends_map().dom() =~= Set::<Seq<char>>::empty());
            }
        }
        r
    }
}

} // verus!
