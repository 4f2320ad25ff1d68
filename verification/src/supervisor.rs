//! Finding and supervising the daemon from a client: the descriptor it
//! publishes, what a probe of it means, the guard before killing a wedged
//! daemon, and the clients' time budgets.

use vstd::prelude::*;
use crate::config::{join, join_path};
use crate::text::{trim, trim_vec, chars_of, eq_str};

verus! {

/// What a running daemon publishes in `{data_dir}/daemon.json`: the control
/// port it bound, its per-run control token (absent from descriptors written
/// before token auth), and its pid (absent before pid tracking).
#[derive(Debug, Clone)]
pub struct RuntimeDescriptor {
    pub control_port: u16,
    pub control_token: Option<String>,
    pub pid: Option<u32>,
}

/// What discovery found.
#[derive(Debug, Clone, Copy, PartialEq, Eq, Structural)]
pub enum Discovery {
    Running { port: u16 },
    /// A descriptor that nobody answers on.
    Stale,
    NotRunning,
}

pub open spec fn spec_descriptor_path(data_dir: Seq<char>) -> Seq<char> {
    join_path(data_dir, "daemon.json"@)
}

pub fn descriptor_path(data_dir: &str) -> (r: String)
    ensures
        r@ == spec_descriptor_path(data_dir@),
{
    join(data_dir, "daemon.json")
}

/// Discovery from the descriptor (if one was read) and whether a ping on
/// its port was answered.
pub open spec fn spec_discovery(port: Option<u16>, answered: bool) -> Discovery {
    match port {
        None => Discovery::NotRunning,
        Some(p) => if answered {
            Discovery::Running { port: p }
        } else {
            Discovery::Stale
        },
    }
}

pub fn discovery(port: Option<u16>, answered: bool) -> (r: Discovery)
    ensures
        r == spec_discovery(port, answered),
{
    match port {
        None => Discovery::NotRunning,
        Some(p) => if answered {
            Discovery::Running { port: p }
        } else {
            Discovery::Stale
        },
    }
}

/// Why a wedged daemon cannot be killed.
#[derive(Debug, Clone, Copy, PartialEq, Eq, Structural)]
pub enum KillRefusal {
    /// The descriptor predates pid tracking.
    NoPid { port: u16 },
    /// The pid now belongs to another program.
    NotTheDaemon { pid: u32 },
}

/// A wedged daemon is killed only with its identity confirmed, never
/// blind: its descriptor must carry a pid.
pub fn wedged_pid(desc: &RuntimeDescriptor) -> (r: Result<u32, KillRefusal>)
    ensures
        match desc.pid {
            Some(p) => r == Ok::<u32, KillRefusal>(p),
            None => r == Err::<u32, KillRefusal>(KillRefusal::NoPid { port: desc.control_port }),
        },
{
    match desc.pid {
        Some(p) => Ok(p),
        None => Err(KillRefusal::NoPid { port: desc.control_port }),
    }
}

/// The process name a daemon runs under.
pub open spec fn daemon_comm() -> Seq<char> {
    "magneto-daemon"@
}

/// The identity check before a kill: the pid's process name, trimmed, must
/// be the daemon's (the pid may have been recycled since the descriptor).
pub fn confirm_identity(pid: u32, comm: &str) -> (r: Result<u32, KillRefusal>)
    ensures
        trim(comm@) == daemon_comm() ==> r == Ok::<u32, KillRefusal>(pid),
        trim(comm@) != daemon_comm() ==> r == Err::<u32, KillRefusal>(KillRefusal::NotTheDaemon { pid }),
{
    let t = trim_vec(chars_of(comm).as_slice());
    if eq_str(t.as_slice(), "magneto-daemon") {
        Ok(pid)
    } else {
        Err(KillRefusal::NotTheDaemon { pid })
    }
}

/// How long the daemon lets an add run before giving up, in seconds.
pub const ADD_TIMEOUT: u64 = 120;

/// How long a client waits for an add: the daemon's budget and a margin, so
/// the daemon's own timeout answers first.
pub const ADD_REQUEST_TIMEOUT: u64 = ADD_TIMEOUT + 5;

/// How long a client waits for any other request, in seconds.
pub const REQUEST_TIMEOUT: u64 = 15;

/// Clients outlast the daemon's add budget, and every other request is
/// answered well within it.
pub proof fn lemma_clients_outlast_add_budget()
    ensures
        ADD_REQUEST_TIMEOUT > ADD_TIMEOUT,
        REQUEST_TIMEOUT < ADD_TIMEOUT,
{
}

/// The control WebSocket's URL, with the token as a query parameter when
/// the daemon has one.
pub open spec fn spec_control_url(port: u16, token: Option<Seq<char>>) -> Seq<char> {
    let base = "ws://127.0.0.1:"@ + crate::library::decimal(port as nat) + "/ws"@;
    match token {
        Some(t) => base + "?token="@ + t,
        None => base,
    }
}

pub fn control_url(port: u16, token: Option<&str>) -> (r: String)
    ensures
        r@ == spec_control_url(
            port,
            match token {
                Some(t) => Some(t@),
                None => None,
            },
        ),
{
    let mut out: Vec<char> = Vec::new();
    crate::library::push_str_chars(&mut out, "ws://127.0.0.1:");
    crate::library::push_decimal(&mut out, port as u64);
    crate::library::push_str_chars(&mut out, "/ws");
    if let Some(t) = token {
        crate::library::push_str_chars(&mut out, "?token=");
        crate::library::push_str_chars(&mut out, t);
    }
    crate::text::string_of(out.as_slice())
}

/// What starting a daemon on demand does after discovery: use a daemon that
/// answers, watch a descriptor nobody answers on, or spawn one.
#[derive(Debug, Clone, Copy, PartialEq, Eq, Structural)]
pub enum EnsureStep {
    Use { port: u16 },
    WatchStale,
    Spawn,
}

pub fn ensure_step(d: Discovery) -> (s: EnsureStep)
    ensures
        s == match d {
            Discovery::Running { port } => EnsureStep::Use { port },
            Discovery::Stale => EnsureStep::WatchStale,
            Discovery::NotRunning => EnsureStep::Spawn,
        },
{
    match d {
        Discovery::Running { port } => EnsureStep::Use { port },
        Discovery::Stale => EnsureStep::WatchStale,
        Discovery::NotRunning => EnsureStep::Spawn,
    }
}

/// One look at a stale descriptor's daemon: it came up (starting or busy),
/// it let its port go (it was on its way out), it stays bound and silent
/// past the grace window (wedged: kill it), or keep watching.
#[derive(Debug, Clone, Copy, PartialEq, Eq, Structural)]
pub enum StaleStep {
    Emerged { port: u16 },
    Clear,
    Wedged,
    KeepWatching,
}

/// Before the window: `deadline_passed`; after a pause, what discovery says
/// and whether the descriptor's port is still bound.
pub fn stale_step(deadline_passed: bool, found: Discovery, port_bound: bool) -> (s: StaleStep)
    ensures
        s == if deadline_passed {
            StaleStep::Wedged
        } else {
            match found {
                Discovery::Running { port } => StaleStep::Emerged { port },
                _ => if !port_bound {
                    StaleStep::Clear
                } else {
                    StaleStep::KeepWatching
                },
            }
        },
{
    if deadline_passed {
        return StaleStep::Wedged;
    }
    match found {
        Discovery::Running { port } => StaleStep::Emerged { port },
        _ => if !port_bound {
            StaleStep::Clear
        } else {
            StaleStep::KeepWatching
        },
    }
}

/// Where a restart ended up: the desired port once a daemon is ready there,
/// else wherever a daemon answers, else nowhere.
pub fn restart_port(desired: u16, ready_at_desired: bool, found: Discovery) -> (r: Option<u16>)
    ensures
        r == if ready_at_desired {
            Some(desired)
        } else {
            match found {
                Discovery::Running { port } => Some(port),
                _ => None,
            }
        },
{
    if ready_at_desired {
        return Some(desired);
    }
    match found {
        Discovery::Running { port } => Some(port),
        _ => None,
    }
}

/// The port a stop request goes to: only a daemon that answers is asked.
pub fn stop_target(found: Discovery) -> (r: Option<u16>)
    ensures
        r == match found {
            Discovery::Running { port } => Some(port),
            _ => None,
        },
{
    match found {
        Discovery::Running { port } => Some(port),
        _ => None,
    }
}

} // verus!
