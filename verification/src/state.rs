//! Where the kernel keeps its state on disk, and defaults for its
//! configuration.  Paths are joined as `std::path::PathBuf::push` joins them
//! with `/` separators: a path that starts with `/` replaces what was there.
use crate::kernel::KernelConfig;
use crate::text::push_str;
use vstd::prelude::*;
use vstd::string::*;

verus! {

/// `a` joined with `b`.
pub open spec fn join_path(a: Seq<char>, b: Seq<char>) -> Seq<char> {
    if b.len() > 0 && b[0] == '/' {
        b
    } else if a.len() == 0 {
        b
    } else if a.last() == '/' {
        a + b
    } else {
        a + "/"@ + b
    }
}

/// Joins two paths.
pub fn join(a: &str, b: &str) -> (r: String)
    ensures
        r@ == join_path(a@, b@),
{
    let bs = crate::text::chars_of(b);
    let as_ = crate::text::chars_of(a);
    let mut r = String::new();
    if bs.len() > 0 && bs[0] == '/' {
        push_str(&mut r, b);
    } else if as_.len() == 0 {
        push_str(&mut r, b);
    } else if as_[as_.len() - 1] == '/' {
        push_str(&mut r, a);
        push_str(&mut r, b);
    } else {
        push_str(&mut r, a);
        push_str(&mut r, "/");
        push_str(&mut r, b);
    }
    r
}

/// The directories and files of a state directory.
#[derive(Debug, Clone)]
pub struct StatePaths {
    pub root: String,
    pub workspace_root: String,
    pub quarantine_root: String,
    pub blobs_root: String,
    pub db_path: String,
}

impl StatePaths {
    /// The layout under `root`: `workspaces`, `quarantine`, `blobs` and the
    /// database `punkgo.db`.
    pub fn under(root: &str) -> (p: Self)
        ensures
            p.root@ == root@,
            p.workspace_root@ == join_path(root@, "workspaces"@),
            p.quarantine_root@ == join_path(root@, "quarantine"@),
            p.blobs_root@ == join_path(root@, "blobs"@),
            p.db_path@ == join_path(root@, "punkgo.db"@),
    {
        StatePaths {
            root: String::from_str(root),
            workspace_root: join(root, "workspaces"),
            quarantine_root: join(root, "quarantine"),
            blobs_root: join(root, "blobs"),
            db_path: join(root, "punkgo.db"),
        }
    }
}

/// A summary of the event log at some moment.
#[derive(Debug, Clone)]
pub struct SnapshotInfo {
    pub event_count: i64,
    pub hash: String,
    pub generated_at: String,
}

impl SnapshotInfo {
    /// The summary of an empty log.
    pub fn empty(generated_at: String) -> (s: Self)
        ensures
            s.event_count == 0,
            s.hash@ == Seq::<char>::empty(),
            s.generated_at == generated_at,
    {
        SnapshotInfo { event_count: 0, hash: String::new(), generated_at }
    }
}

/// The home directory from the environment: `HOME`, else `USERPROFILE`,
/// else `HOMEDRIVE` joined with `HOMEPATH`.
pub open spec fn home_dir_of(
    home: Option<Seq<char>>,
    user_profile: Option<Seq<char>>,
    home_drive: Option<Seq<char>>,
    home_path: Option<Seq<char>>,
) -> Option<Seq<char>> {
    match (home, user_profile, home_drive, home_path) {
        (Some(h), _, _, _) => Some(h),
        (None, Some(p), _, _) => Some(p),
        (None, None, Some(d), Some(p)) => Some(join_path(d, p)),
        _ => None,
    }
}

pub open spec fn opt_view(o: Option<&str>) -> Option<Seq<char>> {
    match o {
        Some(s) => Some(s@),
        None => None,
    }
}

/// The home directory, given the environment variables that locate it.
pub fn home_dir(
    home: Option<&str>,
    user_profile: Option<&str>,
    home_drive: Option<&str>,
    home_path: Option<&str>,
) -> (r: Option<String>)
    ensures
        match home_dir_of(opt_view(home), opt_view(user_profile), opt_view(home_drive), opt_view(home_path)) {
            Some(h) => r matches Some(s) && s@ == h,
            None => r is None,
        },
{
    if let Some(h) = home {
        return Some(String::from_str(h));
    }
    if let Some(p) = user_profile {
        return Some(String::from_str(p));
    }
    match (home_drive, home_path) {
        (Some(d), Some(p)) => Some(join(d, p)),
        _ => None,
    }
}

/// The default state directory: `<home>/.punkgo/state`, or `state` when
/// there is no home directory.
pub open spec fn default_state_dir_of(home: Option<Seq<char>>) -> Seq<char> {
    match home {
        Some(h) => join_path(join_path(h, ".punkgo"@), "state"@),
        None => "state"@,
    }
}

/// The default state directory under a home directory.
pub fn default_state_dir(home: Option<&str>) -> (r: String)
    ensures
        r@ == default_state_dir_of(opt_view(home)),
{
    match home {
        Some(h) => {
            let p = join(h, ".punkgo");
            join(p.as_str(), "state")
        },
        None => String::from_str("state"),
    }
}

/// The default IPC endpoint: a named pipe path on Windows, a plain name
/// elsewhere.
pub open spec fn default_ipc_endpoint_of(on_windows: bool) -> Seq<char> {
    if on_windows {
        "\\\\.\\pipe\\punkgo-kernel"@
    } else {
        "punkgo-kernel"@
    }
}

/// The default IPC endpoint for the platform.
pub fn default_ipc_endpoint(on_windows: bool) -> (r: String)
    ensures
        r@ == default_ipc_endpoint_of(on_windows),
{
    if on_windows {
        String::from_str("\\\\.\\pipe\\punkgo-kernel")
    } else {
        String::from_str("punkgo-kernel")
    }
}

impl KernelConfig {
    /// The configuration from the environment: `PUNKGO_STATE_DIR` or the
    /// default state directory, and `PUNKGO_IPC_ENDPOINT` or the default
    /// endpoint.
    pub fn from_env(
        state_dir_var: Option<&str>,
        endpoint_var: Option<&str>,
        home: Option<&str>,
        on_windows: bool,
    ) -> (c: Self)
        ensures
            c.state_dir@ == match state_dir_var {
                Some(s) => s@,
                None => default_state_dir_of(opt_view(home)),
            },
            c.ipc_endpoint@ == match endpoint_var {
                Some(e) => e@,
                None => default_ipc_endpoint_of(on_windows),
            },
    {
        let state_dir = match state_dir_var {
            Some(s) => String::from_str(s),
            None => default_state_dir(home),
        };
        let ipc_endpoint = match endpoint_var {
            Some(e) => String::from_str(e),
            None => default_ipc_endpoint(on_windows),
        };
        KernelConfig { state_dir, ipc_endpoint }
    }
}

} // verus!
