//! What magneto records per torrent beyond the engine's own state: where it
//! came from, when, which of its files are media, and the user's choices
//! for each of them.

use vstd::prelude::*;
use crate::protocol::SourceKind;
use crate::config::{join, join_path};

verus! {

/// The user's choices for one media file.
#[derive(Debug, Clone, Copy, PartialEq, Eq, Structural)]
pub struct FileMetadata {
    pub persisted: bool,
    pub shared: bool,
    pub paused: bool,
}

/// One torrent's record. `files` maps each media file index to its
/// choices, in ascending index order; `added_at` is RFC 3339 text.
#[derive(Debug, Clone)]
pub struct TorrentMetadata {
    pub source: String,
    pub source_kind: SourceKind,
    pub added_at: String,
    pub files: Vec<(u32, FileMetadata)>,
    pub finalized: bool,
}

/// The file map lists each index once, in ascending order.
pub open spec fn files_wf(files: Seq<(u32, FileMetadata)>) -> bool {
    forall|i: int, j: int| 0 <= i < j < files.len() ==> files[i].0 < files[j].0
}

/// The media indices of a file map.
pub open spec fn file_keys(files: Seq<(u32, FileMetadata)>) -> Seq<u32> {
    files.map_values(|e: (u32, FileMetadata)| e.0)
}

/// The choices recorded for file `idx`, if any.
pub open spec fn file_entry(files: Seq<(u32, FileMetadata)>, idx: u32) -> Option<FileMetadata> {
    if exists|k: int| 0 <= k < files.len() && files[k].0 == idx {
        Some(files[choose|k: int| 0 <= k < files.len() && files[k].0 == idx].1)
    } else {
        None
    }
}

/// A record read without the `finalized` field counts as finalized: it
/// predates the field, and every record from then finished its check.
pub fn default_finalized() -> (r: bool)
    ensures
        r,
{
    true
}

/// Whether policy allows magneto to drop this torrent's bytes: its check
/// finished, it has a file map, and the user kept none of its files.
pub open spec fn spec_disposable(e: TorrentMetadata) -> bool {
    &&& e.finalized
    &&& e.files@.len() > 0
    &&& forall|k: int| 0 <= k < e.files@.len() ==> !(#[trigger] e.files@[k]).1.persisted
}

pub fn disposable(entry: &TorrentMetadata) -> (r: bool)
    ensures
        r == spec_disposable(*entry),
{
    if !entry.finalized || entry.files.len() == 0 {
        return false;
    }
    let mut k: usize = 0;
    while k < entry.files.len()
        invariant
            k <= entry.files@.len(),
            forall|j: int| 0 <= j < k ==> !(#[trigger] entry.files@[j]).1.persisted,
        decreases entry.files@.len() - k,
    {
        if entry.files[k].1.persisted {
            return false;
        }
        k += 1;
    }
    true
}

/// Whether any of the torrent's files is shared on the LAN.
pub open spec fn spec_any_shared(e: TorrentMetadata) -> bool {
    exists|k: int| 0 <= k < e.files@.len() && (#[trigger] e.files@[k]).1.shared
}

pub fn any_shared(entry: &TorrentMetadata) -> (r: bool)
    ensures
        r == spec_any_shared(*entry),
{
    let mut k: usize = 0;
    while k < entry.files.len()
        invariant
            k <= entry.files@.len(),
            forall|j: int| 0 <= j < k ==> !(#[trigger] entry.files@[j]).1.shared,
        decreases entry.files@.len() - k,
    {
        if entry.files[k].1.shared {
            return true;
        }
        k += 1;
    }
    false
}

/// The media indices a record lists (none without a record), ascending.
pub fn media_indices(meta: Option<&TorrentMetadata>) -> (r: Vec<u32>)
    ensures
        r@ == match meta {
            Some(e) => file_keys(e.files@),
            None => Seq::empty(),
        },
{
    let mut out: Vec<u32> = Vec::new();
    if let Some(e) = meta {
        let mut k: usize = 0;
        while k < e.files.len()
            invariant
                k <= e.files@.len(),
                out@ == file_keys(e.files@).subrange(0, k as int),
            decreases e.files@.len() - k,
        {
            out.push(e.files[k].0);
            k += 1;
            assert(out@ =~= file_keys(e.files@).subrange(0, k as int));
        }
        assert(file_keys(e.files@).subrange(0, e.files@.len() as int) =~= file_keys(e.files@));
    }
    out
}

/// The choices recorded for file `idx`.
pub fn file_choice(files: &[(u32, FileMetadata)], idx: u32) -> (r: Option<FileMetadata>)
    requires
        files_wf(files@),
    ensures
        r == file_entry(files@, idx),
{
    let mut k: usize = 0;
    while k < files.len()
        invariant
            k <= files@.len(),
            files_wf(files@),
            forall|j: int| 0 <= j < k ==> (#[trigger] files@[j]).0 != idx,
        decreases files@.len() - k,
    {
        if files[k].0 == idx {
            proof {
                let c = choose|c: int| 0 <= c < files@.len() && files@[c].0 == idx;
                assert(files@[k as int].0 == idx);
                if c < k {
                    assert(files@[c].0 < files@[k as int].0);
                } else if c > k {
                    assert(files@[k as int].0 < files@[c].0);
                }
            }
            return Some(files[k].1);
        }
        k += 1;
    }
    None
}

/// The file map after setting the pause intent of `indices` to `paused`;
/// indices without an entry are left alone.
pub open spec fn spec_set_paused(files: Seq<(u32, FileMetadata)>, indices: Seq<u32>, paused: bool) -> Seq<
    (u32, FileMetadata),
> {
    files.map_values(
        |e: (u32, FileMetadata)|
            if indices.contains(e.0) {
                (e.0, FileMetadata { paused, ..e.1 })
            } else {
                e
            },
    )
}

/// Set or clear the pause intent for `indices`. Only the displayed state
/// (Paused rather than Idle) depends on it, never what downloads.
pub fn set_paused_flag(entry: &mut TorrentMetadata, indices: &[u32], paused: bool)
    ensures
        final(entry).files@ == spec_set_paused(old(entry).files@, indices@, paused),
        final(entry).source == old(entry).source,
        final(entry).source_kind == old(entry).source_kind,
        final(entry).added_at == old(entry).added_at,
        final(entry).finalized == old(entry).finalized,
{
    let ghost start = entry.files@;
    let mut next: Vec<(u32, FileMetadata)> = Vec::new();
    let mut k: usize = 0;
    while k < entry.files.len()
        invariant
            k <= entry.files@.len(),
            entry.files@ == start,
            next@ == spec_set_paused(start, indices@, paused).subrange(0, k as int),
        decreases entry.files@.len() - k,
    {
        let (idx, f) = entry.files[k];
        let e = if crate::state::contains_u32(indices, idx) {
            (idx, FileMetadata { persisted: f.persisted, shared: f.shared, paused })
        } else {
            (idx, f)
        };
        next.push(e);
        k += 1;
        assert(next@ =~= spec_set_paused(start, indices@, paused).subrange(0, k as int));
    }
    assert(spec_set_paused(start, indices@, paused).subrange(0, start.len() as int) =~= spec_set_paused(
        start,
        indices@,
        paused,
    ));
    entry.files = next;
}

/// Where saved `.torrent` files live under the data directory.
pub fn torrents_dir(data_dir: &str) -> (r: String)
    ensures
        r@ == join_path(data_dir@, "torrents"@),
{
    join(data_dir, "torrents")
}

/// The saved `.torrent` file of a torrent.
pub open spec fn spec_torrent_file_path(data_dir: Seq<char>, info_hash: Seq<char>) -> Seq<char> {
    join_path(join_path(data_dir, "torrents"@), info_hash + ".torrent"@)
}

pub fn torrent_file_path(data_dir: &str, info_hash: &str) -> (r: String)
    ensures
        r@ == spec_torrent_file_path(data_dir@, info_hash@),
{
    let dir = torrents_dir(data_dir);
    let mut name: Vec<char> = Vec::new();
    crate::library::push_str_chars(&mut name, info_hash);
    crate::library::push_str_chars(&mut name, ".torrent");
    let file = crate::text::string_of(name.as_slice());
    join(dir.as_str(), file.as_str())
}

} // verus!
