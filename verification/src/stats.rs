//! The decisions of the once-a-second stats tick: which files count as
//! actively downloading, which torrents just finished or failed, and which
//! changes are worth a patch on the wire.

use std::collections::{HashMap, HashSet};
use vstd::prelude::*;
use vstd::std_specs::cmp::PartialEqSpec;
use crate::bootstrap::same_text;
use crate::text::string_views;
use crate::protocol::{FileState, FileStatsDelta, SourceKind, TorrentState};

verus! {

broadcast use vstd::std_specs::hash::group_hash_axioms;

/// A file lit as downloading stays lit until this many gainless ticks pass.
pub const ACTIVE_GRACE_TICKS: u32 = 4;

/// One file's place in the recently-active window after a tick.
#[derive(Debug, Clone, Copy, PartialEq, Eq, Structural)]
pub struct FileActivity {
    /// Ticks since the file last gained bytes.
    pub ticks_since_gain: u32,
    /// Whether the file counts as downloading.
    pub lit: bool,
}

/// Ticks since the last gain: none on a gain, else one more than before
/// (saturating), with a file never seen before counting as long idle.
pub open spec fn spec_ticks(gained: bool, prev_ticks: Option<u32>) -> u32 {
    if gained {
        0
    } else {
        match prev_ticks {
            Some(t) => if t == u32::MAX {
                u32::MAX
            } else {
                (t + 1) as u32
            },
            None => ACTIVE_GRACE_TICKS,
        }
    }
}

/// A file lights up only after gaining bytes on two consecutive ticks, and
/// a lit file stays lit while its gainless streak is inside the grace window.
pub open spec fn spec_file_activity(
    downloaded: u64,
    prev_downloaded: Option<u64>,
    prev_ticks: Option<u32>,
    was_lit: bool,
) -> FileActivity {
    let prev = match prev_downloaded {
        Some(d) => d,
        None => 0,
    };
    let gained = downloaded > prev;
    let ticks = spec_ticks(gained, prev_ticks);
    FileActivity {
        ticks_since_gain: ticks,
        lit: if was_lit {
            ticks < ACTIVE_GRACE_TICKS
        } else {
            gained && prev_ticks == Some(0u32)
        },
    }
}

pub fn file_activity(downloaded: u64, prev_downloaded: Option<u64>, prev_ticks: Option<u32>, was_lit: bool) -> (r:
    FileActivity)
    ensures
        r == spec_file_activity(downloaded, prev_downloaded, prev_ticks, was_lit),
{
    let prev = match prev_downloaded {
        Some(d) => d,
        None => 0,
    };
    let gained = downloaded > prev;
    let ticks = if gained {
        0
    } else {
        match prev_ticks {
            Some(t) => t.saturating_add(1),
            None => ACTIVE_GRACE_TICKS,
        }
    };
    let lit = if was_lit {
        ticks < ACTIVE_GRACE_TICKS
    } else {
        gained && prev_ticks == Some(0u32)
    };
    FileActivity { ticks_since_gain: ticks, lit }
}

/// A file seen for the first time does not light up on its first gain,
/// and does on a second consecutive one: a single piece of spillover never
/// flashes a file as downloading.
pub proof fn lemma_lights_after_two_gains(d1: u64, d2: u64)
    requires
        0 < d1 < d2,
    ensures
        !spec_file_activity(d1, None, None, false).lit,
        spec_file_activity(d2, Some(d1), Some(spec_file_activity(d1, None, None, false).ticks_since_gain), false).lit,
{
}

/// A lit file stays lit through its gainless ticks while their count stays
/// inside the grace window, and goes dark once it reaches it.
pub proof fn lemma_lit_file_grace(d: u64, gainless: u32)
    requires
        gainless < ACTIVE_GRACE_TICKS,
    ensures
        spec_file_activity(d, Some(d), Some(gainless), true).lit == (gainless + 1 < ACTIVE_GRACE_TICKS),
        spec_file_activity(d, Some(d), Some(gainless), true).ticks_since_gain == gainless + 1,
{
}

/// Complete is announced only on an observed transition out of
/// downloading: a torrent first seen complete finished in an earlier life.
pub open spec fn spec_completed_now(state: TorrentState, last: Option<TorrentState>) -> bool {
    state == TorrentState::Complete && last == Some(TorrentState::Downloading)
}

pub fn completed_now(state: TorrentState, last: Option<TorrentState>) -> (r: bool)
    ensures
        r == spec_completed_now(state, last),
{
    match (state, last) {
        (TorrentState::Complete, Some(TorrentState::Downloading)) => true,
        _ => false,
    }
}

/// A torrent found in error needs a re-check, whether it errored just now
/// or was already errored when this daemon started.
pub open spec fn spec_errored_now(state: TorrentState, last: Option<TorrentState>) -> bool {
    state == TorrentState::Error && last != Some(TorrentState::Error)
}

pub fn errored_now(state: TorrentState, last: Option<TorrentState>) -> (r: bool)
    ensures
        r == spec_errored_now(state, last),
{
    match (state, last) {
        (TorrentState::Error, Some(TorrentState::Error)) => false,
        (TorrentState::Error, _) => true,
        _ => false,
    }
}

/// The distance between two byte counts.
pub open spec fn abs_diff(a: u64, b: u64) -> u64 {
    if a >= b {
        (a - b) as u64
    } else {
        (b - a) as u64
    }
}

/// Whether a file's row goes out on this tick: its bytes moved by the
/// threshold (or at all while downloading), or its state changed since the
/// last row sent.
pub open spec fn spec_file_delta_due(
    downloaded: u64,
    last_sent: Option<u64>,
    threshold: u64,
    state: FileState,
    prev_state: Option<FileState>,
) -> bool {
    let last = match last_sent {
        Some(d) => d,
        None => 0,
    };
    let diff = abs_diff(downloaded, last);
    diff >= threshold || (diff > 0 && state == FileState::Downloading) || prev_state != Some(state)
}

pub fn file_delta_due(
    downloaded: u64,
    last_sent: Option<u64>,
    threshold: u64,
    state: FileState,
    prev_state: Option<FileState>,
) -> (r: bool)
    ensures
        r == spec_file_delta_due(downloaded, last_sent, threshold, state, prev_state),
{
    let last = match last_sent {
        Some(d) => d,
        None => 0,
    };
    let diff = if downloaded >= last {
        downloaded - last
    } else {
        last - downloaded
    };
    let downloading = match state {
        FileState::Downloading => true,
        _ => false,
    };
    let state_changed = match prev_state {
        Some(p) => p != state,
        None => true,
    };
    diff >= threshold || (diff > 0 && downloading) || state_changed
}

/// Whether a summary's byte progress goes out: always for a torrent with no
/// history, when it moved by the threshold, and on any movement while
/// downloading or when the state changed.
pub open spec fn spec_progress_due(
    fresh: bool,
    downloaded: u64,
    last_sent: Option<u64>,
    threshold: u64,
    state: TorrentState,
    state_changed: bool,
) -> bool {
    let diff = match last_sent {
        Some(d) => abs_diff(downloaded, d),
        None => 0,
    };
    fresh || diff >= threshold || (diff > 0 && (state == TorrentState::Downloading || state_changed))
}

pub fn progress_due(
    fresh: bool,
    downloaded: u64,
    last_sent: Option<u64>,
    threshold: u64,
    state: TorrentState,
    state_changed: bool,
) -> (r: bool)
    ensures
        r == spec_progress_due(fresh, downloaded, last_sent, threshold, state, state_changed),
{
    let diff = match last_sent {
        Some(d) => if downloaded >= d {
            downloaded - d
        } else {
            d - downloaded
        },
        None => 0,
    };
    let downloading = match state {
        TorrentState::Downloading => true,
        _ => false,
    };
    fresh || diff >= threshold || (diff > 0 && (downloading || state_changed))
}

/// The value to remember as sent: the new one when it went out, else the
/// one sent before (the new one when nothing was).
pub fn pick<T>(sent_now: bool, next: T, sent: Option<T>) -> (r: T)
    ensures
        r == if sent_now {
            next
        } else {
            match sent {
                Some(s) => s,
                None => next,
            }
        },
{
    if sent_now {
        next
    } else {
        match sent {
            Some(s) => s,
            None => next,
        }
    }
}

/// Whether a field differs from what was last sent (always, when nothing was).
pub fn changed<T: PartialEq>(sent: Option<&T>, next: &T) -> (r: bool)
    ensures
        T::obeys_eq_spec() ==> r == match sent {
            Some(s) => !s.eq_spec(next),
            None => true,
        },
{
    match sent {
        Some(s) => !(*s == *next),
        None => true,
    }
}

/// What the tick remembers of a torrent's files from one tick to the next.
#[derive(Debug)]
pub struct FileHistory {
    /// The bytes last sent for each file.
    pub sent: HashMap<u32, u64>,
    /// The bytes seen on the previous tick for each file.
    pub seen: HashMap<u32, u64>,
    /// The state last sent for each file.
    pub state: HashMap<u32, FileState>,
    /// Ticks since each file last gained bytes.
    pub ticks_since_gain: HashMap<u32, u32>,
}

/// The value `m` holds for `k`, if any.
pub open spec fn lookup<V>(m: Map<u32, V>, k: u32) -> Option<V> {
    if m.contains_key(k) {
        Some(m[k])
    } else {
        None
    }
}

/// The recently-active window over `progress` (file index, bytes held), one
/// file after another: the files lit as downloading, and each file's ticks
/// since its last gain.
pub open spec fn window(
    progress: Seq<(u32, u64)>,
    seen: Map<u32, u64>,
    ticks: Map<u32, u32>,
    state: Map<u32, FileState>,
) -> (Set<u32>, Map<u32, u32>)
    decreases progress.len(),
{
    if progress.len() == 0 {
        (Set::empty(), Map::empty())
    } else {
        let (lit, next) = window(progress.drop_last(), seen, ticks, state);
        let idx = progress.last().0;
        let a = spec_file_activity(
            progress.last().1,
            lookup(seen, idx),
            lookup(ticks, idx),
            lookup(state, idx) == Some(FileState::Downloading),
        );
        (
            if a.lit {
                lit.insert(idx)
            } else {
                lit
            },
            next.insert(idx, a.ticks_since_gain),
        )
    }
}

fn get_u64(m: &HashMap<u32, u64>, k: u32) -> (r: Option<u64>)
    ensures
        r == lookup(m@, k),
{
    match m.get(&k) {
        Some(v) => Some(*v),
        None => None,
    }
}

fn get_u32(m: &HashMap<u32, u32>, k: u32) -> (r: Option<u32>)
    ensures
        r == lookup(m@, k),
{
    match m.get(&k) {
        Some(v) => Some(*v),
        None => None,
    }
}

fn get_state(m: &HashMap<u32, FileState>, k: u32) -> (r: Option<FileState>)
    ensures
        r == lookup(m@, k),
{
    match m.get(&k) {
        Some(v) => Some(*v),
        None => None,
    }
}

fn is_downloading(s: Option<FileState>) -> (r: bool)
    ensures
        r == (s == Some(FileState::Downloading)),
{
    match s {
        Some(FileState::Downloading) => true,
        _ => false,
    }
}

/// The files counted as actively downloading after this tick, and each
/// file's ticks since its last gain. When none is lit while the engine is
/// receiving, the head of the queue (`receiving_head`) is.
pub fn activity_window(progress: &[(u32, u64)], history: &FileHistory, receiving_head: Option<u32>) -> (r: (
    HashSet<u32>,
    HashMap<u32, u32>,
))
    ensures
        ({
            let (lit, ticks) = window(progress@, history.seen@, history.ticks_since_gain@, history.state@);
            &&& r.1@ == ticks
            &&& r.0@ == if lit.len() == 0 && receiving_head is Some {
                lit.insert(receiving_head->0)
            } else {
                lit
            }
        }),
{
    let ghost seen = history.seen@;
    let ghost ticks = history.ticks_since_gain@;
    let ghost state = history.state@;
    let mut lit: HashSet<u32> = HashSet::new();
    let mut next: HashMap<u32, u32> = HashMap::new();
    let mut k: usize = 0;
    while k < progress.len()
        invariant
            k <= progress@.len(),
            seen == history.seen@,
            ticks == history.ticks_since_gain@,
            state == history.state@,
            lit@ == window(progress@.subrange(0, k as int), seen, ticks, state).0,
            next@ == window(progress@.subrange(0, k as int), seen, ticks, state).1,
            lit@.finite(),
        decreases progress@.len() - k,
    {
        proof {
            let sub = progress@.subrange(0, k as int + 1);
            assert(sub.drop_last() =~= progress@.subrange(0, k as int));
        }
        let (idx, down) = progress[k];
        let a = file_activity(
            down,
            get_u64(&history.seen, idx),
            get_u32(&history.ticks_since_gain, idx),
            is_downloading(get_state(&history.state, idx)),
        );
        if a.lit {
            lit.insert(idx);
        }
        next.insert(idx, a.ticks_since_gain);
        k += 1;
    }
    assert(progress@.subrange(0, progress@.len() as int) =~= progress@);
    if lit.len() == 0 {
        if let Some(h) = receiving_head {
            proof {
                assert(lit@ =~= Set::<u32>::empty());
            }
            lit.insert(h);
        }
    } else {
        proof {
            assert(lit@.len() > 0);
        }
    }
    (lit, next)
}

/// A file row as the tick renders it: its index, the bytes held, its state,
/// and the byte change worth a patch.
#[derive(Debug, Clone, Copy, PartialEq, Eq, Structural)]
pub struct FileRow {
    pub index: u32,
    pub downloaded: u64,
    pub state: FileState,
    pub threshold: u64,
}

/// The file patches of a tick over `rows`, as (index, bytes, state), and
/// what is remembered after it: the bytes sent (a file not patched keeps
/// what was sent before, 0 when nothing was), the bytes seen, the states.
pub open spec fn file_patches(rows: Seq<FileRow>, sent: Map<u32, u64>, state: Map<u32, FileState>) -> (
    Seq<(u32, u64, FileState)>,
    Map<u32, u64>,
    Map<u32, u64>,
    Map<u32, FileState>,
)
    decreases rows.len(),
{
    if rows.len() == 0 {
        (Seq::empty(), Map::empty(), Map::empty(), Map::empty())
    } else {
        let (out, new_sent, new_seen, new_state) = file_patches(rows.drop_last(), sent, state);
        let f = rows.last();
        let due = spec_file_delta_due(f.downloaded, lookup(sent, f.index), f.threshold, f.state, lookup(state, f.index));
        let last = match lookup(sent, f.index) {
            Some(d) => d,
            None => 0,
        };
        (
            if due {
                out.push((f.index, f.downloaded, f.state))
            } else {
                out
            },
            new_sent.insert(
                f.index,
                if due {
                    f.downloaded
                } else {
                    last
                },
            ),
            new_seen.insert(f.index, f.downloaded),
            new_state.insert(f.index, f.state),
        )
    }
}

/// A patch as (index, bytes, state).
pub open spec fn patch_view(d: FileStatsDelta) -> (u32, u64, FileState) {
    (d.file_index, d.downloaded_bytes, d.state)
}

/// The tick's file patches for one torrent, and its file history after
/// the tick (the ticks since a gain come from `activity_window`).
pub fn file_deltas(info_hash: &str, rows: &[FileRow], history: &FileHistory, ticks: HashMap<u32, u32>) -> (r: (
    Vec<FileStatsDelta>,
    FileHistory,
))
    ensures
        ({
            let (out, sent, seen, state) = file_patches(rows@, history.sent@, history.state@);
            &&& r.0@.map_values(|d: FileStatsDelta| patch_view(d)) == out
            &&& forall|i: int| 0 <= i < r.0@.len() ==> (#[trigger] r.0@[i]).info_hash@ == info_hash@
            &&& r.1.sent@ == sent
            &&& r.1.seen@ == seen
            &&& r.1.state@ == state
            &&& r.1.ticks_since_gain@ == ticks@
        }),
{
    let ghost sent0 = history.sent@;
    let ghost state0 = history.state@;
    let mut out: Vec<FileStatsDelta> = Vec::new();
    let mut sent: HashMap<u32, u64> = HashMap::new();
    let mut seen: HashMap<u32, u64> = HashMap::new();
    let mut state: HashMap<u32, FileState> = HashMap::new();
    let mut k: usize = 0;
    while k < rows.len()
        invariant
            k <= rows@.len(),
            sent0 == history.sent@,
            state0 == history.state@,
            out@.map_values(|d: FileStatsDelta| patch_view(d)) == file_patches(rows@.subrange(0, k as int), sent0, state0).0,
            forall|i: int| 0 <= i < out@.len() ==> (#[trigger] out@[i]).info_hash@ == info_hash@,
            sent@ == file_patches(rows@.subrange(0, k as int), sent0, state0).1,
            seen@ == file_patches(rows@.subrange(0, k as int), sent0, state0).2,
            state@ == file_patches(rows@.subrange(0, k as int), sent0, state0).3,
        decreases rows@.len() - k,
    {
        proof {
            let sub = rows@.subrange(0, k as int + 1);
            assert(sub.drop_last() =~= rows@.subrange(0, k as int));
        }
        let f = rows[k];
        let prev = get_u64(&history.sent, f.index);
        let due = file_delta_due(f.downloaded, prev, f.threshold, f.state, get_state(&history.state, f.index));
        let last = match prev {
            Some(d) => d,
            None => 0,
        };
        state.insert(f.index, f.state);
        seen.insert(f.index, f.downloaded);
        let ghost before = out@;
        if due {
            sent.insert(f.index, f.downloaded);
            out.push(FileStatsDelta {
                info_hash: info_hash.to_owned(),
                file_index: f.index,
                downloaded_bytes: f.downloaded,
                state: f.state,
            });
            proof {
                assert(out@.map_values(|d: FileStatsDelta| patch_view(d)) =~= before.map_values(
                    |d: FileStatsDelta| patch_view(d),
                ).push((f.index, f.downloaded, f.state)));
            }
        } else {
            sent.insert(f.index, last);
        }
        k += 1;
    }
    assert(rows@.subrange(0, rows@.len() as int) =~= rows@);
    (out, FileHistory { sent, seen, state, ticks_since_gain: ticks })
}

/// The non-speed fields of a torrent's summary, as the tick compares them
/// with what it last sent. The two speeds are measured in fractional bytes
/// per second and are compared by the tick's driver.
#[derive(Debug)]
pub struct SummaryFields {
    pub info_hash: String,
    pub name: Option<String>,
    pub source: Option<String>,
    pub source_kind: Option<SourceKind>,
    pub state: TorrentState,
    pub error: Option<String>,
    pub total_bytes_all: u64,
    pub total_bytes_selected: u64,
    pub downloaded_bytes: u64,
    pub file_count: u32,
    pub complete_count: u32,
    pub selected_count: u32,
    pub persisted_count: u32,
    pub shared_count: u32,
    pub is_paused: bool,
    pub added_at: String,
}

/// The patch for one torrent: each field that is `Some` goes on the wire.
#[derive(Debug)]
pub struct SummaryPatch {
    pub info_hash: String,
    pub name: Option<Option<String>>,
    pub source: Option<Option<String>>,
    pub source_kind: Option<Option<SourceKind>>,
    pub state: Option<TorrentState>,
    pub error: Option<Option<String>>,
    pub total_bytes_all: Option<u64>,
    pub total_bytes_selected: Option<u64>,
    pub downloaded_bytes: Option<u64>,
    pub file_count: Option<u32>,
    pub complete_count: Option<u32>,
    pub selected_count: Option<u32>,
    pub persisted_count: Option<u32>,
    pub shared_count: Option<u32>,
    pub is_paused: Option<bool>,
    pub added_at: Option<String>,
}

pub open spec fn opt_text(o: Option<String>) -> Option<Seq<char>> {
    match o {
        Some(s) => Some(s@),
        None => None,
    }
}

pub open spec fn opt_opt_text(o: Option<Option<String>>) -> Option<Option<Seq<char>>> {
    match o {
        Some(v) => Some(opt_text(v)),
        None => None,
    }
}

pub struct SummaryView {
    pub info_hash: Seq<char>,
    pub name: Option<Seq<char>>,
    pub source: Option<Seq<char>>,
    pub source_kind: Option<SourceKind>,
    pub state: TorrentState,
    pub error: Option<Seq<char>>,
    pub total_bytes_all: u64,
    pub total_bytes_selected: u64,
    pub downloaded_bytes: u64,
    pub file_count: u32,
    pub complete_count: u32,
    pub selected_count: u32,
    pub persisted_count: u32,
    pub shared_count: u32,
    pub is_paused: bool,
    pub added_at: Seq<char>,
}

pub struct PatchView {
    pub info_hash: Seq<char>,
    pub name: Option<Option<Seq<char>>>,
    pub source: Option<Option<Seq<char>>>,
    pub source_kind: Option<Option<SourceKind>>,
    pub state: Option<TorrentState>,
    pub error: Option<Option<Seq<char>>>,
    pub total_bytes_all: Option<u64>,
    pub total_bytes_selected: Option<u64>,
    pub downloaded_bytes: Option<u64>,
    pub file_count: Option<u32>,
    pub complete_count: Option<u32>,
    pub selected_count: Option<u32>,
    pub persisted_count: Option<u32>,
    pub shared_count: Option<u32>,
    pub is_paused: Option<bool>,
    pub added_at: Option<Seq<char>>,
}

impl View for SummaryFields {
    type V = SummaryView;

    open spec fn view(&self) -> SummaryView {
        SummaryView {
            info_hash: self.info_hash@,
            name: opt_text(self.name),
            source: opt_text(self.source),
            source_kind: self.source_kind,
            state: self.state,
            error: opt_text(self.error),
            total_bytes_all: self.total_bytes_all,
            total_bytes_selected: self.total_bytes_selected,
            downloaded_bytes: self.downloaded_bytes,
            file_count: self.file_count,
            complete_count: self.complete_count,
            selected_count: self.selected_count,
            persisted_count: self.persisted_count,
            shared_count: self.shared_count,
            is_paused: self.is_paused,
            added_at: self.added_at@,
        }
    }
}

impl View for SummaryPatch {
    type V = PatchView;

    open spec fn view(&self) -> PatchView {
        PatchView {
            info_hash: self.info_hash@,
            name: opt_opt_text(self.name),
            source: opt_opt_text(self.source),
            source_kind: self.source_kind,
            state: self.state,
            error: opt_opt_text(self.error),
            total_bytes_all: self.total_bytes_all,
            total_bytes_selected: self.total_bytes_selected,
            downloaded_bytes: self.downloaded_bytes,
            file_count: self.file_count,
            complete_count: self.complete_count,
            selected_count: self.selected_count,
            persisted_count: self.persisted_count,
            shared_count: self.shared_count,
            is_paused: self.is_paused,
            added_at: match self.added_at {
                Some(s) => Some(s@),
                None => None,
            },
        }
    }
}

/// `Some(v)` when the value goes out.
pub open spec fn sent_if<T>(due: bool, v: T) -> Option<T> {
    if due {
        Some(v)
    } else {
        None
    }
}

/// The patch for a torrent: with nothing sent before, every field; else each
/// field that differs from what was sent, the state when it changed, and the
/// byte progress when `spec_progress_due` says so.
pub open spec fn spec_summary_patch(sent: Option<SummaryView>, next: SummaryView, threshold: u64) -> PatchView {
    match sent {
        None => PatchView {
            info_hash: next.info_hash,
            name: Some(next.name),
            source: Some(next.source),
            source_kind: Some(next.source_kind),
            state: Some(next.state),
            error: Some(next.error),
            total_bytes_all: Some(next.total_bytes_all),
            total_bytes_selected: Some(next.total_bytes_selected),
            downloaded_bytes: Some(next.downloaded_bytes),
            file_count: Some(next.file_count),
            complete_count: Some(next.complete_count),
            selected_count: Some(next.selected_count),
            persisted_count: Some(next.persisted_count),
            shared_count: Some(next.shared_count),
            is_paused: Some(next.is_paused),
            added_at: Some(next.added_at),
        },
        Some(s) => PatchView {
            info_hash: next.info_hash,
            name: sent_if(s.name != next.name, next.name),
            source: sent_if(s.source != next.source, next.source),
            source_kind: sent_if(s.source_kind != next.source_kind, next.source_kind),
            state: sent_if(s.state != next.state, next.state),
            error: sent_if(s.error != next.error, next.error),
            total_bytes_all: sent_if(s.total_bytes_all != next.total_bytes_all, next.total_bytes_all),
            total_bytes_selected: sent_if(
                s.total_bytes_selected != next.total_bytes_selected,
                next.total_bytes_selected,
            ),
            downloaded_bytes: sent_if(
                spec_progress_due(
                    false,
                    next.downloaded_bytes,
                    Some(s.downloaded_bytes),
                    threshold,
                    next.state,
                    s.state != next.state,
                ),
                next.downloaded_bytes,
            ),
            file_count: sent_if(s.file_count != next.file_count, next.file_count),
            complete_count: sent_if(s.complete_count != next.complete_count, next.complete_count),
            selected_count: sent_if(s.selected_count != next.selected_count, next.selected_count),
            persisted_count: sent_if(s.persisted_count != next.persisted_count, next.persisted_count),
            shared_count: sent_if(s.shared_count != next.shared_count, next.shared_count),
            is_paused: sent_if(s.is_paused != next.is_paused, next.is_paused),
            added_at: sent_if(s.added_at != next.added_at, next.added_at),
        },
    }
}

/// The summary remembered as sent: the new one, but with the byte progress
/// kept at what was sent while a patch held it back.
pub open spec fn spec_remembered(sent: Option<SummaryView>, next: SummaryView, threshold: u64) -> SummaryView {
    match spec_summary_patch(sent, next, threshold).downloaded_bytes {
        Some(_) => next,
        None => SummaryView { downloaded_bytes: sent->0.downloaded_bytes, ..next },
    }
}

fn copy_opt_text(o: &Option<String>) -> (r: Option<String>)
    ensures
        opt_text(r) == opt_text(*o),
{
    match o {
        Some(s) => Some(s.clone()),
        None => None,
    }
}

fn same_opt_text(a: &Option<String>, b: &Option<String>) -> (r: bool)
    ensures
        r == (opt_text(*a) == opt_text(*b)),
{
    match (a, b) {
        (Some(x), Some(y)) => same_text(x, y),
        (None, None) => true,
        _ => false,
    }
}

fn same_kind(a: Option<SourceKind>, b: Option<SourceKind>) -> (r: bool)
    ensures
        r == (a == b),
{
    match (a, b) {
        (Some(x), Some(y)) => x == y,
        (None, None) => true,
        _ => false,
    }
}

/// What changed since the last patch went out for one torrent, and the
/// summary to remember as sent. `bytes_threshold` is the byte movement that
/// always goes out (half a percent of the selected size, at least one).
pub fn summary_delta(sent: Option<&SummaryFields>, next: &SummaryFields, bytes_threshold: u64) -> (r: (
    SummaryPatch,
    SummaryFields,
))
    ensures
        r.0@ == spec_summary_patch(
            match sent {
                Some(s) => Some(s@),
                None => None,
            },
            next@,
            bytes_threshold,
        ),
        r.1@ == spec_remembered(
            match sent {
                Some(s) => Some(s@),
                None => None,
            },
            next@,
            bytes_threshold,
        ),
{
    let ghost sv: Option<SummaryView> = match sent {
        Some(s) => Some(s@),
        None => None,
    };
    let fresh = sent.is_none();
    let state_changed = match sent {
        Some(s) => s.state != next.state,
        None => true,
    };
    let name_due = match sent {
        Some(s) => !same_opt_text(&s.name, &next.name),
        None => true,
    };
    let source_due = match sent {
        Some(s) => !same_opt_text(&s.source, &next.source),
        None => true,
    };
    let kind_due = match sent {
        Some(s) => !same_kind(s.source_kind, next.source_kind),
        None => true,
    };
    let error_due = match sent {
        Some(s) => !same_opt_text(&s.error, &next.error),
        None => true,
    };
    let added_due = match sent {
        Some(s) => !same_text(&s.added_at, &next.added_at),
        None => true,
    };
    let last_bytes: Option<u64> = match sent {
        Some(s) => Some(s.downloaded_bytes),
        None => None,
    };
    let progress = progress_due(
        fresh,
        next.downloaded_bytes,
        last_bytes,
        bytes_threshold,
        next.state,
        state_changed,
    );
    let patch = SummaryPatch {
        info_hash: next.info_hash.clone(),
        name: if name_due { Some(copy_opt_text(&next.name)) } else { None },
        source: if source_due { Some(copy_opt_text(&next.source)) } else { None },
        source_kind: if kind_due { Some(next.source_kind) } else { None },
        state: if state_changed { Some(next.state) } else { None },
        error: if error_due { Some(copy_opt_text(&next.error)) } else { None },
        total_bytes_all: match sent {
            Some(s) if s.total_bytes_all == next.total_bytes_all => None,
            _ => Some(next.total_bytes_all),
        },
        total_bytes_selected: match sent {
            Some(s) if s.total_bytes_selected == next.total_bytes_selected => None,
            _ => Some(next.total_bytes_selected),
        },
        downloaded_bytes: if progress { Some(next.downloaded_bytes) } else { None },
        file_count: match sent {
            Some(s) if s.file_count == next.file_count => None,
            _ => Some(next.file_count),
        },
        complete_count: match sent {
            Some(s) if s.complete_count == next.complete_count => None,
            _ => Some(next.complete_count),
        },
        selected_count: match sent {
            Some(s) if s.selected_count == next.selected_count => None,
            _ => Some(next.selected_count),
        },
        persisted_count: match sent {
            Some(s) if s.persisted_count == next.persisted_count => None,
            _ => Some(next.persisted_count),
        },
        shared_count: match sent {
            Some(s) if s.shared_count == next.shared_count => None,
            _ => Some(next.shared_count),
        },
        is_paused: match sent {
            Some(s) if s.is_paused == next.is_paused => None,
            _ => Some(next.is_paused),
        },
        added_at: if added_due { Some(next.added_at.clone()) } else { None },
    };
    let remembered = SummaryFields {
        info_hash: next.info_hash.clone(),
        name: copy_opt_text(&next.name),
        source: copy_opt_text(&next.source),
        source_kind: next.source_kind,
        state: next.state,
        error: copy_opt_text(&next.error),
        total_bytes_all: next.total_bytes_all,
        total_bytes_selected: next.total_bytes_selected,
        downloaded_bytes: pick(progress, next.downloaded_bytes, last_bytes),
        file_count: next.file_count,
        complete_count: next.complete_count,
        selected_count: next.selected_count,
        persisted_count: next.persisted_count,
        shared_count: next.shared_count,
        is_paused: next.is_paused,
        added_at: next.added_at.clone(),
    };
    proof {
        assert(patch@ == spec_summary_patch(sv, next@, bytes_threshold));
        assert(remembered@ == spec_remembered(sv, next@, bytes_threshold));
    }
    (patch, remembered)
}

/// What the tick remembers of a torrent between ticks: the summary as last
/// sent and its files' history.
#[derive(Debug)]
pub struct LastSent {
    pub summary: SummaryFields,
    pub files: FileHistory,
}

/// The file history a torrent starts from: what it remembers, or nothing.
pub open spec fn prior_sent(last: Option<&LastSent>) -> Map<u32, u64> {
    match last {
        Some(l) => l.files.sent@,
        None => Map::empty(),
    }
}

pub open spec fn prior_seen(last: Option<&LastSent>) -> Map<u32, u64> {
    match last {
        Some(l) => l.files.seen@,
        None => Map::empty(),
    }
}

pub open spec fn prior_state(last: Option<&LastSent>) -> Map<u32, FileState> {
    match last {
        Some(l) => l.files.state@,
        None => Map::empty(),
    }
}

pub open spec fn prior_ticks(last: Option<&LastSent>) -> Map<u32, u32> {
    match last {
        Some(l) => l.files.ticks_since_gain@,
        None => Map::empty(),
    }
}

pub open spec fn prior_summary(last: Option<&LastSent>) -> Option<SummaryView> {
    match last {
        Some(l) => Some(l.summary@),
        None => None,
    }
}

fn empty_history() -> (r: FileHistory)
    ensures
        r.sent@ == Map::<u32, u64>::empty(),
        r.seen@ == Map::<u32, u64>::empty(),
        r.state@ == Map::<u32, FileState>::empty(),
        r.ticks_since_gain@ == Map::<u32, u32>::empty(),
{
    FileHistory { sent: HashMap::new(), seen: HashMap::new(), state: HashMap::new(), ticks_since_gain: HashMap::new() }
}

/// The recently-active files of a torrent on this tick, and each file's
/// ticks since a gain. When no file lights up while the engine reports a
/// positive download speed, the head of what is pending (`head`) counts as
/// receiving.
pub fn tick_activity(last: Option<&LastSent>, progress: &[(u32, u64)], speed_positive: bool, head: Option<u32>) -> (r: (
    HashSet<u32>,
    HashMap<u32, u32>,
))
    ensures
        ({
            let (lit, ticks) = window(progress@, prior_seen(last), prior_ticks(last), prior_state(last));
            &&& r.1@ == ticks
            &&& r.0@ == if lit.len() == 0 && speed_positive && head is Some {
                lit.insert(head->0)
            } else {
                lit
            }
        }),
{
    let receiving = if speed_positive {
        head
    } else {
        None
    };
    match last {
        Some(l) => activity_window(progress, &l.files, receiving),
        None => {
            let h = empty_history();
            activity_window(progress, &h, receiving)
        },
    }
}

/// Whether a patch carries nothing but the torrent's id.
pub open spec fn patch_empty(p: PatchView) -> bool {
    &&& p.name is None
    &&& p.source is None
    &&& p.source_kind is None
    &&& p.state is None
    &&& p.error is None
    &&& p.total_bytes_all is None
    &&& p.total_bytes_selected is None
    &&& p.downloaded_bytes is None
    &&& p.file_count is None
    &&& p.complete_count is None
    &&& p.selected_count is None
    &&& p.persisted_count is None
    &&& p.shared_count is None
    &&& p.is_paused is None
    &&& p.added_at is None
}

pub fn is_empty_patch(p: &SummaryPatch) -> (r: bool)
    ensures
        r == patch_empty(p@),
{
    p.name.is_none() && p.source.is_none() && p.source_kind.is_none() && p.state.is_none() && p.error.is_none()
        && p.total_bytes_all.is_none() && p.total_bytes_selected.is_none() && p.downloaded_bytes.is_none()
        && p.file_count.is_none() && p.complete_count.is_none() && p.selected_count.is_none()
        && p.persisted_count.is_none() && p.shared_count.is_none() && p.is_paused.is_none()
        && p.added_at.is_none()
}

/// What one torrent contributes to a tick.
#[derive(Debug)]
pub struct TorrentTick {
    /// It just finished.
    pub completed: bool,
    /// It is in error and needs a re-check.
    pub errored: bool,
    /// Its summary patch, when anything changed.
    pub patch: Option<SummaryPatch>,
    /// Its file patches.
    pub files: Vec<FileStatsDelta>,
}

/// One torrent's tick, once its files are rendered with the active set of
/// `tick_activity`: whether it completed or errored, its summary and file
/// patches, and what to remember of it until the next tick.
pub fn torrent_tick(
    info_hash: &str,
    last: Option<&LastSent>,
    summary: &SummaryFields,
    rows: &[FileRow],
    ticks: HashMap<u32, u32>,
    bytes_threshold: u64,
) -> (r: (TorrentTick, LastSent))
    ensures
        r.0.completed == spec_completed_now(summary.state, match last {
            Some(l) => Some(l.summary.state),
            None => None,
        }),
        r.0.errored == spec_errored_now(summary.state, match last {
            Some(l) => Some(l.summary.state),
            None => None,
        }),
        match r.0.patch {
            Some(p) => p@ == spec_summary_patch(prior_summary(last), summary@, bytes_threshold) && !patch_empty(p@),
            None => patch_empty(spec_summary_patch(prior_summary(last), summary@, bytes_threshold)),
        },
        r.1.summary@ == spec_remembered(prior_summary(last), summary@, bytes_threshold),
        ({
            let (out, sent, seen, state) = file_patches(rows@, prior_sent(last), prior_state(last));
            &&& r.0.files@.map_values(|d: FileStatsDelta| patch_view(d)) == out
            &&& forall|i: int| 0 <= i < r.0.files@.len() ==> (#[trigger] r.0.files@[i]).info_hash@ == info_hash@
            &&& r.1.files.sent@ == sent
            &&& r.1.files.seen@ == seen
            &&& r.1.files.state@ == state
            &&& r.1.files.ticks_since_gain@ == ticks@
        }),
{
    let last_state: Option<TorrentState> = match last {
        Some(l) => Some(l.summary.state),
        None => None,
    };
    let completed = completed_now(summary.state, last_state);
    let errored = errored_now(summary.state, last_state);
    let last_summary: Option<&SummaryFields> = match last {
        Some(l) => Some(&l.summary),
        None => None,
    };
    let (patch, remembered) = summary_delta(last_summary, summary, bytes_threshold);
    let patch = if is_empty_patch(&patch) {
        None
    } else {
        Some(patch)
    };
    let (files, history) = match last {
        Some(l) => file_deltas(info_hash, rows, &l.files, ticks),
        None => {
            let h = empty_history();
            file_deltas(info_hash, rows, &h, ticks)
        },
    };
    (TorrentTick { completed, errored, patch, files }, LastSent { summary: remembered, files: history })
}

/// The info hashes of remembered entries, in order.
pub open spec fn memory_keys(e: Seq<(String, LastSent)>) -> Seq<Seq<char>> {
    e.map_values(|x: (String, LastSent)| x.0@)
}

/// The entries of `e` whose torrent is still in the session, in order.
pub open spec fn kept_alive(e: Seq<(String, LastSent)>, alive: Seq<Seq<char>>) -> Seq<(String, LastSent)>
    decreases e.len(),
{
    if e.len() == 0 {
        Seq::empty()
    } else if alive.contains(e.last().0@) {
        kept_alive(e.drop_last(), alive).push(e.last())
    } else {
        kept_alive(e.drop_last(), alive)
    }
}

/// What the tick remembers of every torrent, at most one entry per info hash.
#[derive(Debug)]
pub struct SentMemory {
    pub entries: Vec<(String, LastSent)>,
}

fn contains_text(alive: &[String], h: &String) -> (r: bool)
    ensures
        r == string_views(alive@).contains(h@),
{
    let mut i: usize = 0;
    while i < alive.len()
        invariant
            i <= alive@.len(),
            forall|j: int| 0 <= j < i ==> alive@[j]@ != h@,
        decreases alive@.len() - i,
    {
        if same_text(&alive[i], h) {
            assert(string_views(alive@)[i as int] == h@);
            return true;
        }
        i += 1;
    }
    proof {
        if string_views(alive@).contains(h@) {
            let j = choose|j: int| 0 <= j < string_views(alive@).len() && string_views(alive@)[j] == h@;
            assert(alive@[j]@ == h@);
        }
    }
    false
}

impl SentMemory {
    /// No info hash is remembered twice.
    pub open spec fn wf(&self) -> bool {
        forall|i: int, j: int|
            0 <= i < j < self.entries@.len() ==> (#[trigger] self.entries@[i]).0@ != (#[trigger] self.entries@[j]).0@
    }

    pub fn new() -> (r: SentMemory)
        ensures
            r.wf(),
            r.entries@.len() == 0,
    {
        SentMemory { entries: Vec::new() }
    }

    /// Where the torrent `hash` is remembered.
    pub fn position(&self, hash: &str) -> (r: Option<usize>)
        ensures
            match r {
                Some(i) => i < self.entries@.len() && self.entries@[i as int].0@ == hash@,
                None => forall|i: int| 0 <= i < self.entries@.len() ==> (#[trigger] self.entries@[i]).0@ != hash@,
            },
    {
        let h = String::from_str(hash);
        let mut i: usize = 0;
        while i < self.entries.len()
            invariant
                i <= self.entries@.len(),
                h@ == hash@,
                forall|j: int| 0 <= j < i ==> (#[trigger] self.entries@[j]).0@ != hash@,
            decreases self.entries@.len() - i,
        {
            if same_text(&self.entries[i].0, &h) {
                return Some(i);
            }
            i += 1;
        }
        None
    }

    /// What is remembered of the torrent `hash`.
    pub fn get(&self, hash: &str) -> (r: Option<&LastSent>)
        ensures
            match r {
                Some(l) => exists|i: int|
                    0 <= i < self.entries@.len() && (#[trigger] self.entries@[i]).0@ == hash@ && self.entries@[i].1 == *l,
                None => forall|i: int| 0 <= i < self.entries@.len() ==> (#[trigger] self.entries@[i]).0@ != hash@,
            },
    {
        match self.position(hash) {
            Some(i) => {
                let r = &self.entries[i].1;
                assert(self.entries@[i as int].1 == *r);
                Some(r)
            },
            None => None,
        }
    }

    /// Remember `sent` for the torrent `hash`, in place of what was
    /// remembered of it before; nothing else changes.
    pub fn record(&mut self, hash: String, sent: LastSent)
        requires
            old(self).wf(),
        ensures
            final(self).wf(),
            (exists|i: int|
                0 <= i < old(self).entries@.len() && (#[trigger] old(self).entries@[i]).0@ == hash@
                    && final(self).entries@ == old(self).entries@.update(i, (hash, sent)))
                || ((forall|i: int|
                0 <= i < old(self).entries@.len() ==> (#[trigger] old(self).entries@[i]).0@ != hash@)
                && final(self).entries@ == old(self).entries@.push((hash, sent))),
    {
        let ghost e0 = self.entries@;
        let ghost h0 = hash;
        let ghost s0 = sent;
        match self.position(hash.as_str()) {
            Some(i) => {
                self.entries.set(i, (hash, sent));
                proof {
                    assert(self.entries@ == e0.update(i as int, (h0, s0)));
                    assert forall|a: int, b: int| 0 <= a < b < self.entries@.len() implies (
                    #[trigger] self.entries@[a]).0@ != (#[trigger] self.entries@[b]).0@ by {
                        assert(e0[a].0@ != e0[b].0@);
                    }
                }
            },
            None => {
                self.entries.push((hash, sent));
                proof {
                    assert(self.entries@ == e0.push((h0, s0)));
                    assert forall|a: int, b: int| 0 <= a < b < self.entries@.len() implies (
                    #[trigger] self.entries@[a]).0@ != (#[trigger] self.entries@[b]).0@ by {
                        if b < e0.len() {
                            assert(e0[a].0@ != e0[b].0@);
                        } else {
                            assert(e0[a].0@ != h0@);
                        }
                    }
                }
            },
        }
    }

    /// Forget the torrents no longer in the session (`alive` lists those
    /// that are), keeping the rest in order.
    pub fn retain_alive(&mut self, alive: &[String])
        requires
            old(self).wf(),
        ensures
            final(self).wf(),
            final(self).entries@ == kept_alive(old(self).entries@, string_views(alive@)),
    {
        let ghost e0 = self.entries@;
        let ghost av = string_views(alive@);
        let mut rest: Vec<(String, LastSent)> = Vec::new();
        std::mem::swap(&mut rest, &mut self.entries);
        let n = rest.len();
        let mut out: Vec<(String, LastSent)> = Vec::new();
        let mut k: usize = 0;
        proof {
            assert(rest@ =~= e0.subrange(0, n as int));
            assert(e0.subrange(0, 0) =~= Seq::<(String, LastSent)>::empty());
        }
        while k < n
            invariant
                n == e0.len(),
                k <= n,
                av == string_views(alive@),
                rest@ == e0.subrange(k as int, n as int),
                out@ == kept_alive(e0.subrange(0, k as int), av),
                forall|a: int, b: int| 0 <= a < b < e0.len() ==> (#[trigger] e0[a]).0@ != (#[trigger] e0[b]).0@,
                forall|x: int| 0 <= x < out@.len() ==> exists|j: int| 0 <= j < k && (#[trigger] out@[x]).0@ == e0[j].0@,
                forall|a: int, b: int| 0 <= a < b < out@.len() ==> (#[trigger] out@[a]).0@ != (#[trigger] out@[b]).0@,
            decreases n - k,
        {
            let e = rest.remove(0);
            proof {
                assert(e == e0[k as int]);
                let sub = e0.subrange(0, k as int + 1);
                assert(sub.drop_last() =~= e0.subrange(0, k as int));
                assert(sub.last() == e0[k as int]);
            }
            let ghost before = out@;
            if contains_text(alive, &e.0) {
                out.push(e);
                proof {
                    assert forall|x: int| 0 <= x < out@.len() implies exists|j: int|
                        0 <= j < k + 1 && (#[trigger] out@[x]).0@ == e0[j].0@ by {
                        if x < before.len() {
                            assert(out@[x] == before[x]);
                        } else {
                            assert(out@[x].0@ == e0[k as int].0@);
                        }
                    }
                    assert forall|a: int, b: int| 0 <= a < b < out@.len() implies (#[trigger] out@[a]).0@
                        != (#[trigger] out@[b]).0@ by {
                        if b < before.len() {
                            assert(before[a].0@ != before[b].0@);
                        } else {
                            assert(out@[a] == before[a]);
                            let j = choose|j: int| 0 <= j < k && before[a].0@ == e0[j].0@;
                            assert(e0[j].0@ != e0[k as int].0@);
                        }
                    }
                }
            } else {
                proof {
                    assert forall|x: int| 0 <= x < out@.len() implies exists|j: int|
                        0 <= j < k + 1 && (#[trigger] out@[x]).0@ == e0[j].0@ by {
                        let j = choose|j: int| 0 <= j < k && out@[x].0@ == e0[j].0@;
                        assert(0 <= j < k + 1 && out@[x].0@ == e0[j].0@);
                    }
                }
            }
            k += 1;
            proof {
                assert(rest@ =~= e0.subrange(k as int, n as int));
            }
        }
        proof {
            assert(e0.subrange(0, n as int) =~= e0);
        }
        self.entries = out;
    }
}

/// After `record(hash, sent)` the memory holds exactly one entry for `hash`,
/// and it is `sent`: what `get(hash)` gives back next is what was recorded.
pub proof fn lemma_recorded_is_found(before: SentMemory, after: SentMemory, hash: String, sent: LastSent)
    requires
        before.wf(),
        after.wf(),
        (exists|i: int|
            0 <= i < before.entries@.len() && (#[trigger] before.entries@[i]).0@ == hash@
                && after.entries@ == before.entries@.update(i, (hash, sent)))
            || ((forall|i: int| 0 <= i < before.entries@.len() ==> (#[trigger] before.entries@[i]).0@ != hash@)
            && after.entries@ == before.entries@.push((hash, sent))),
    ensures
        exists|j: int| 0 <= j < after.entries@.len() && (#[trigger] after.entries@[j]).0@ == hash@,
        forall|j: int| 0 <= j < after.entries@.len() && (#[trigger] after.entries@[j]).0@ == hash@ ==> after.entries@[j].1
            == sent,
{
    if exists|i: int|
        0 <= i < before.entries@.len() && (#[trigger] before.entries@[i]).0@ == hash@ && after.entries@
            == before.entries@.update(i, (hash, sent)) {
        let i = choose|i: int|
            0 <= i < before.entries@.len() && (#[trigger] before.entries@[i]).0@ == hash@ && after.entries@
                == before.entries@.update(i, (hash, sent));
        assert(after.entries@[i] == (hash, sent));
        assert forall|j: int| 0 <= j < after.entries@.len() && (#[trigger] after.entries@[j]).0@ == hash@ implies after.entries@[j].1
            == sent by {
            if j != i {
                if j < i {
                    assert(after.entries@[j].0@ != after.entries@[i].0@);
                } else {
                    assert(after.entries@[i].0@ != after.entries@[j].0@);
                }
            }
        }
    } else {
        let n = before.entries@.len() as int;
        assert(after.entries@[n] == (hash, sent));
        assert forall|j: int| 0 <= j < after.entries@.len() && (#[trigger] after.entries@[j]).0@ == hash@ implies after.entries@[j].1
            == sent by {
            if j < n {
                assert(after.entries@[j] == before.entries@[j]);
            }
        }
    }
}

} // verus!
