//! The decisions of the bridge to the Slipstream daemon: where to look for
//! its socket, and which tool a daemon request goes to.
use vstd::prelude::*;
use crate::text::{decimal, text_eq, usize_text};

verus! {

/// The socket paths to try, in order: `$SLIPSTREAM_SOCKET` when it is set,
/// then `$XDG_RUNTIME_DIR/slipstream/daemon.sock` when that is set, then
/// `/tmp/slipstream-<uid>/daemon.sock`.
pub open spec fn socket_paths(env_socket: Option<Seq<char>>, xdg_runtime_dir: Option<Seq<char>>, uid: nat) -> Seq<Seq<char>> {
    let first: Seq<Seq<char>> = match env_socket {
        Some(p) => seq![p],
        None => Seq::empty(),
    };
    let second: Seq<Seq<char>> = match xdg_runtime_dir {
        Some(d) => seq![d + "/slipstream/daemon.sock"@],
        None => Seq::empty(),
    };
    first + second + seq!["/tmp/slipstream-"@ + decimal(uid) + "/daemon.sock"@]
}

/// The text of an optional string.
pub open spec fn text_option(o: Option<String>) -> Option<Seq<char>> {
    match o {
        Some(s) => Some(s@),
        None => None,
    }
}

/// The socket paths to try, in order, given the two environment variables
/// (when set) and the user id; the first that exists is the daemon's.
pub fn socket_candidates(env_socket: Option<String>, xdg_runtime_dir: Option<String>, uid: u32) -> (r: Vec<String>)
    ensures
        r@.map_values(|s: String| s@) == socket_paths(
            text_option(env_socket),
            text_option(xdg_runtime_dir),
            uid as nat,
        ),
{
    let ghost env_view = text_option(env_socket);
    let ghost xdg_view = text_option(xdg_runtime_dir);
    let mut r: Vec<String> = Vec::new();
    match env_socket {
        Some(p) => r.push(p),
        None => {},
    }
    match xdg_runtime_dir {
        Some(d) => {
            let mut p = d;
            p.append("/slipstream/daemon.sock");
            r.push(p);
        },
        None => {},
    }
    let mut last = String::from_str("/tmp/slipstream-");
    last.append(usize_text(uid as usize).as_str());
    last.append("/daemon.sock");
    r.push(last);
    assert(r@.map_values(|s: String| s@) =~= socket_paths(env_view, xdg_view, uid as nat));
    r
}

/// Which tool a daemon request goes to.
#[derive(Debug, Clone, Copy, PartialEq, Eq, Structural)]
pub enum BridgeRoute {
    /// `fcp.session`: a session action.
    Session,
    /// `fcp.ops`: mutation operations.
    Ops,
    /// `fcp.query`: a query.
    Query,
    /// Any other method: answered with `unknown method: <method>`.
    Unknown,
}

/// Routes a daemon request by its method.
pub fn bridge_route(method: &str) -> (r: BridgeRoute)
    ensures
        r == (if method@ == "fcp.session"@ {
            BridgeRoute::Session
        } else if method@ == "fcp.ops"@ {
            BridgeRoute::Ops
        } else if method@ == "fcp.query"@ {
            BridgeRoute::Query
        } else {
            BridgeRoute::Unknown
        }),
{
    if text_eq(method, "fcp.session") {
        BridgeRoute::Session
    } else if text_eq(method, "fcp.ops") {
        BridgeRoute::Ops
    } else if text_eq(method, "fcp.query") {
        BridgeRoute::Query
    } else {
        BridgeRoute::Unknown
    }
}

/// The answer to a daemon request with an unknown method.
pub fn unknown_method_text(method: &str) -> (r: String)
    ensures
        r@ == "unknown method: "@ + method@,
{
    let mut r = String::from_str("unknown method: ");
    r.append(method);
    r
}

} // verus!
