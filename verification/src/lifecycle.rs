//! The daemon's bookkeeping around a torrent's life: short hashes for logs,
//! how a shutdown ends, and what to do once a file check finishes.

use vstd::prelude::*;
use vstd::utf8::{encode_utf8, is_char_boundary};
use vstd::string::StringSliceAdditionalSpecFns;
use crate::library::{decimal, push_decimal, push_str_chars};
use crate::state::EngineState;
use crate::text::string_of;

verus! {

/// The first eight bytes of an info hash, for logs (the whole hash when it
/// is shorter, or when byte eight falls inside a character).
pub fn short(info_hash: &str) -> (r: &str)
    ensures
        ({
            let bs = encode_utf8(info_hash@);
            if bs.len() >= 8 && is_char_boundary(bs, 8) {
                r.spec_bytes() == bs.subrange(0, 8)
            } else {
                r@ == info_hash@
            }
        }),
{
    proof {
        assert(info_hash.spec_bytes() == encode_utf8(info_hash@));
    }
    let all = info_hash.as_bytes();
    if all.len() >= 8 && info_hash.is_char_boundary(8) {
        let (head, _) = info_hash.split_at(8);
        head
    } else {
        info_hash
    }
}

/// How the event loop ends.
#[derive(Debug, Clone, Copy, PartialEq, Eq, Structural)]
pub enum ShutdownKind {
    Restart,
    Stop,
}

/// Who asked for a torrent to be finalized.
#[derive(Debug, Clone, Copy, PartialEq, Eq, Structural)]
pub enum Finalize {
    /// The engine restored it (or recovered it from an error).
    Restore,
    /// Startup reconciled it.
    Boot,
    /// The user added it.
    Add,
}

/// What to do with a torrent once its file check ends. Held by the daemon so
/// a second waiter is never spawned for the same torrent, and so the
/// decision survives a waiter that outlives the torrent it was started for.
#[derive(Debug, Clone, Copy, PartialEq, Eq, Structural)]
pub struct Pending {
    pub from: Finalize,
    pub repause: bool,
}

/// The user asking beats startup, which beats the engine's own state.
pub open spec fn spec_deliberateness(from: Finalize) -> u8 {
    match from {
        Finalize::Restore => 0,
        Finalize::Boot => 1,
        Finalize::Add => 2,
    }
}

pub fn deliberateness(from: Finalize) -> (r: u8)
    ensures
        r == spec_deliberateness(from),
{
    match from {
        Finalize::Restore => 0,
        Finalize::Boot => 1,
        Finalize::Add => 2,
    }
}

/// The decision held for a torrent after another request to wait on its
/// check, and whether a waiter must be started: a torrent already waited on
/// keeps its waiter, and its decision is replaced only by a more deliberate
/// one, so a re-add during a boot check applies the add policy.
pub open spec fn spec_register_check(existing: Option<Pending>, from: Finalize, repause: bool) -> (Pending, bool) {
    match existing {
        Some(p) => if spec_deliberateness(from) > spec_deliberateness(p.from) {
            (Pending { from, repause }, false)
        } else {
            (p, false)
        },
        None => (Pending { from, repause }, true),
    }
}

pub fn register_check(existing: Option<Pending>, from: Finalize, repause: bool) -> (r: (Pending, bool))
    ensures
        r == spec_register_check(existing, from, repause),
{
    match existing {
        Some(p) => {
            if deliberateness(from) > deliberateness(p.from) {
                (Pending { from, repause }, false)
            } else {
                (p, false)
            }
        },
        None => (Pending { from, repause }, true),
    }
}

/// Once registered, a decision only ever grows more deliberate: whatever
/// requests follow, the one held is at least as deliberate as before.
pub proof fn lemma_register_check_monotone(existing: Pending, from: Finalize, repause: bool)
    ensures
        spec_deliberateness(spec_register_check(Some(existing), from, repause).0.from) >= spec_deliberateness(existing.from),
        spec_deliberateness(spec_register_check(Some(existing), from, repause).0.from) >= spec_deliberateness(from),
        !spec_register_check(Some(existing), from, repause).1,
{
}

/// How long a new torrent may take to resolve its metadata, in seconds.
pub const METADATA_TIMEOUT: u64 = 120;

/// One look at a torrent waiting for its metadata.
#[derive(Debug, PartialEq, Eq)]
pub enum MetadataWatch {
    /// Give up, with the reason.
    Failed(String),
    /// The metadata is known: finalize now.
    Resolved,
    /// Look again later.
    Wait,
}

/// `timed_out`: the wait outlasted `METADATA_TIMEOUT`; `state`: the
/// engine's state of the torrent (`None` while it is not in the session);
/// `metadata`: whether the engine has its metadata.
pub fn metadata_watch(timed_out: bool, state: Option<EngineState>, metadata: bool) -> (r: MetadataWatch)
    ensures
        timed_out ==> (r matches MetadataWatch::Failed(m) && m@ == "metadata not resolved within "@ + decimal(
            METADATA_TIMEOUT as nat,
        ) + "s"@),
        !timed_out && state == Some(EngineState::Error) ==> (r matches MetadataWatch::Failed(m) && m@
            == "torrent entered error state"@),
        !timed_out && state != Some(EngineState::Error) ==> r == if state is Some && state != Some(
            EngineState::Initializing,
        ) && metadata {
            MetadataWatch::Resolved
        } else {
            MetadataWatch::Wait
        },
{
    if timed_out {
        let mut out: Vec<char> = Vec::new();
        push_str_chars(&mut out, "metadata not resolved within ");
        push_decimal(&mut out, METADATA_TIMEOUT);
        push_str_chars(&mut out, "s");
        return MetadataWatch::Failed(string_of(out.as_slice()));
    }
    match state {
        None => MetadataWatch::Wait,
        Some(EngineState::Initializing) => MetadataWatch::Wait,
        Some(EngineState::Error) => MetadataWatch::Failed("torrent entered error state".to_owned()),
        Some(_) => if metadata {
            MetadataWatch::Resolved
        } else {
            MetadataWatch::Wait
        },
    }
}

} // verus!
