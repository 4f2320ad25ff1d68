//! Stopping to track a torrent: when a removal goes ahead, and what happens
//! to its bytes.

use vstd::prelude::*;
use crate::library::push_str_chars;
use crate::protocol::RemovalReason;
use crate::text::string_of;

verus! {

/// What a removal does with the torrent's bytes.
#[derive(Debug, Clone, Copy, PartialEq, Eq, Structural)]
pub enum Files {
    Keep,
    /// magneto's own: the file map, its selected subtitles, and the empty
    /// files the engine created for the rest. Bytes from before the add stay.
    Managed,
    All,
}

/// How a removal starts, given whether the engine holds the torrent.
#[derive(Debug, PartialEq, Eq)]
pub enum RemovalStart {
    /// Go ahead.
    Proceed,
    /// Not in the session and not asked by the user: the record stays, and
    /// startup re-adds the torrent from its saved file.
    KeepRecord,
    /// The user asked to remove a torrent the engine does not hold.
    Refuse(String),
}

pub fn removal_start(in_session: bool, reason: RemovalReason, info_hash: &str) -> (r: RemovalStart)
    ensures
        in_session ==> r == RemovalStart::Proceed,
        !in_session && reason == RemovalReason::User ==> (r matches RemovalStart::Refuse(m) && m@
            == "no torrent with info_hash "@ + info_hash@),
        !in_session && reason != RemovalReason::User ==> r == RemovalStart::KeepRecord,
{
    if in_session {
        return RemovalStart::Proceed;
    }
    match reason {
        RemovalReason::User => {
            let mut out: Vec<char> = Vec::new();
            push_str_chars(&mut out, "no torrent with info_hash ");
            push_str_chars(&mut out, info_hash);
            RemovalStart::Refuse(string_of(out.as_slice()))
        },
        _ => RemovalStart::KeepRecord,
    }
}

/// What the engine and magneto each delete in a removal.
#[derive(Debug, Clone, Copy, PartialEq, Eq, Structural)]
pub struct Deletion {
    /// The engine deletes every file of the torrent.
    pub engine_deletes_files: bool,
    /// magneto deletes its managed files itself.
    pub reclaim_managed: bool,
}

pub fn deletion(files: Files) -> (d: Deletion)
    ensures
        d.engine_deletes_files == (files == Files::All),
        d.reclaim_managed == (files == Files::Managed),
{
    match files {
        Files::Keep => Deletion { engine_deletes_files: false, reclaim_managed: false },
        Files::Managed => Deletion { engine_deletes_files: false, reclaim_managed: true },
        Files::All => Deletion { engine_deletes_files: true, reclaim_managed: false },
    }
}

} // verus!
