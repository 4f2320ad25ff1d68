//! The per-file and per-torrent state machine shown to clients, and the
//! selection arithmetic behind pause, drop and resume.

use std::collections::HashSet;
use vstd::prelude::*;
use crate::paths::{Order, path_order, flip, lemma_path_order, order_paths};
use crate::protocol::{FileEntry, FileState, Target, TorrentState};

verus! {

broadcast use vstd::std_specs::hash::group_hash_axioms;

/// The engine's own state of a torrent.
#[derive(Debug, Clone, Copy, PartialEq, Eq, Structural)]
pub enum EngineState {
    /// Resolving metadata or checking files.
    Initializing,
    Paused,
    Live,
    Error,
}

/// A file's state from the engine state, the file's selection and progress,
/// whether the user paused it, and whether it is receiving data. A file fully
/// on disk is complete whatever else holds.
pub open spec fn spec_per_file_state(
    torrent_state: EngineState,
    selected: bool,
    downloaded: u64,
    size: u64,
    paused_intent: bool,
    active: bool,
) -> FileState {
    if downloaded >= size {
        FileState::Complete
    } else if torrent_state == EngineState::Error {
        FileState::Error
    } else if !selected {
        if paused_intent {
            FileState::Paused
        } else {
            FileState::Idle
        }
    } else if torrent_state == EngineState::Paused {
        FileState::Paused
    } else if torrent_state == EngineState::Initializing {
        FileState::Queued
    } else if active {
        FileState::Downloading
    } else {
        FileState::Queued
    }
}

pub fn per_file_state(
    torrent_state: EngineState,
    selected: bool,
    downloaded: u64,
    size: u64,
    paused_intent: bool,
    active: bool,
) -> (r: FileState)
    ensures
        r == spec_per_file_state(torrent_state, selected, downloaded, size, paused_intent, active),
        downloaded >= size ==> r == FileState::Complete,
        downloaded < size && selected && torrent_state == EngineState::Paused ==> r == FileState::Paused,
        r == FileState::Downloading ==> torrent_state == EngineState::Live && selected && active && downloaded < size,
{
    proof {
        lemma_file_state_law(torrent_state, selected, downloaded, size, paused_intent, active);
    }
    if downloaded >= size {
        return FileState::Complete;
    }
    if let EngineState::Error = torrent_state {
        return FileState::Error;
    }
    if !selected {
        return if paused_intent {
            FileState::Paused
        } else {
            FileState::Idle
        };
    }
    if let EngineState::Paused = torrent_state {
        return FileState::Paused;
    }
    if let EngineState::Initializing = torrent_state {
        return FileState::Queued;
    }
    if active {
        FileState::Downloading
    } else {
        FileState::Queued
    }
}

/// A file fully on disk is complete; a selected, unfinished file of a paused
/// torrent is paused, whether or not it is the one receiving; and a file
/// reads as downloading only when it is selected, unfinished, marked
/// active, and its torrent is live. An unfinished file of a torrent in
/// error is in error; an unselected one is paused or idle as the user left
/// it; a selected one waits while its torrent initializes.
pub proof fn lemma_file_state_law(
    torrent_state: EngineState,
    selected: bool,
    downloaded: u64,
    size: u64,
    paused_intent: bool,
    active: bool,
)
    ensures
        downloaded >= size ==> spec_per_file_state(torrent_state, selected, downloaded, size, paused_intent, active)
            == FileState::Complete,
        downloaded < size && selected && torrent_state == EngineState::Paused ==> spec_per_file_state(
            torrent_state,
            selected,
            downloaded,
            size,
            paused_intent,
            active,
        ) == FileState::Paused,
        spec_per_file_state(torrent_state, selected, downloaded, size, paused_intent, active)
            == FileState::Downloading ==> torrent_state == EngineState::Live && selected && active && downloaded < size,
        downloaded < size && torrent_state == EngineState::Error ==> spec_per_file_state(
            torrent_state,
            selected,
            downloaded,
            size,
            paused_intent,
            active,
        ) == FileState::Error,
        downloaded < size && torrent_state != EngineState::Error && !selected ==> spec_per_file_state(
            torrent_state,
            selected,
            downloaded,
            size,
            paused_intent,
            active,
        ) == if paused_intent {
            FileState::Paused
        } else {
            FileState::Idle
        },
        downloaded < size && selected && torrent_state == EngineState::Initializing ==> spec_per_file_state(
            torrent_state,
            selected,
            downloaded,
            size,
            paused_intent,
            active,
        ) == FileState::Queued,
        downloaded < size && selected && torrent_state == EngineState::Live ==> spec_per_file_state(
            torrent_state,
            selected,
            downloaded,
            size,
            paused_intent,
            active,
        ) == if active {
            FileState::Downloading
        } else {
            FileState::Queued
        },
{
}

/// A torrent's state from the engine state and its rendered media rows:
/// complete once everything asked for is on disk (the whole torrent, or a
/// non-empty selection), else downloading if any row is, else paused if any
/// row is, else idle.
pub open spec fn spec_aggregate(torrent_state: EngineState, files: Seq<FileEntry>) -> TorrentState {
    if torrent_state == EngineState::Initializing {
        TorrentState::Initializing
    } else if torrent_state == EngineState::Error {
        TorrentState::Error
    } else if files.len() == 0 {
        TorrentState::Idle
    } else if (forall|i: int| 0 <= i < files.len() ==> files[i].state == FileState::Complete) || (
    (exists|i: int| 0 <= i < files.len() && files[i].selected) && (forall|i: int|
        0 <= i < files.len() && files[i].selected ==> files[i].state == FileState::Complete)) {
        TorrentState::Complete
    } else if exists|i: int| 0 <= i < files.len() && files[i].state == FileState::Downloading {
        TorrentState::Downloading
    } else if exists|i: int| 0 <= i < files.len() && files[i].state == FileState::Paused {
        TorrentState::Paused
    } else {
        TorrentState::Idle
    }
}

pub fn aggregate_torrent_state(torrent_stats_state: EngineState, files: &[FileEntry]) -> (r:
    TorrentState)
    ensures
        r == spec_aggregate(torrent_stats_state, files@),
{
    match torrent_stats_state {
        EngineState::Initializing => return TorrentState::Initializing,
        EngineState::Error => return TorrentState::Error,
        _ => {},
    }
    if files.len() == 0 {
        return TorrentState::Idle;
    }
    let mut all_complete = true;
    let mut any_selected = false;
    let mut selected_complete = true;
    let mut any_downloading = false;
    let mut any_paused = false;
    let mut i: usize = 0;
    while i < files.len()
        invariant
            i <= files@.len(),
            all_complete == (forall|j: int| 0 <= j < i ==> files@[j].state == FileState::Complete),
            any_selected == (exists|j: int| 0 <= j < i && files@[j].selected),
            selected_complete == (forall|j: int|
                0 <= j < i && files@[j].selected ==> files@[j].state == FileState::Complete),
            any_downloading == (exists|j: int|
                0 <= j < i && files@[j].state == FileState::Downloading),
            any_paused == (exists|j: int| 0 <= j < i && files@[j].state == FileState::Paused),
        decreases files@.len() - i,
    {
        let f = &files[i];
        let complete = matches!(f.state, FileState::Complete);
        if !complete {
            all_complete = false;
        }
        if f.selected {
            any_selected = true;
            if !complete {
                selected_complete = false;
            }
        }
        if matches!(f.state, FileState::Downloading) {
            any_downloading = true;
        }
        if matches!(f.state, FileState::Paused) {
            any_paused = true;
        }
        i += 1;
    }
    if all_complete || (any_selected && selected_complete) {
        return TorrentState::Complete;
    }
    if any_downloading {
        return TorrentState::Downloading;
    }
    if any_paused {
        return TorrentState::Paused;
    }
    TorrentState::Idle
}

/// Whether the engine's selection (`None` meaning every file) holds the
/// file.
pub open spec fn spec_file_is_selected(only_files: Option<Seq<usize>>, file_index: usize) -> bool {
    match only_files {
        None => true,
        Some(v) => v.contains(file_index),
    }
}

pub fn file_is_selected(only_files: &Option<Vec<usize>>, file_index: usize) -> (r: bool)
    ensures
        r == spec_file_is_selected(
            match only_files {
                Some(v) => Some(v@),
                None => None,
            },
            file_index,
        ),
{
    match only_files {
        None => true,
        Some(v) => contains_usize(v.as_slice(), file_index),
    }
}

/// Whether `x` occurs in `v`.
pub fn contains_usize(v: &[usize], x: usize) -> (r: bool)
    ensures
        r == v@.contains(x),
{
    let mut i: usize = 0;
    while i < v.len()
        invariant
            i <= v@.len(),
            forall|j: int| 0 <= j < i ==> v@[j] != x,
        decreases v@.len() - i,
    {
        if v[i] == x {
            assert(v@[i as int] == x);
            return true;
        }
        i += 1;
    }
    false
}

/// Whether `x` occurs in `v`.
pub fn contains_u32(v: &[u32], x: u32) -> (r: bool)
    ensures
        r == v@.contains(x),
{
    let mut i: usize = 0;
    while i < v.len()
        invariant
            i <= v@.len(),
            forall|j: int| 0 <= j < i ==> v@[j] != x,
        decreases v@.len() - i,
    {
        if v[i] == x {
            assert(v@[i as int] == x);
            return true;
        }
        i += 1;
    }
    false
}

/// One media file's progress, the input to `active_indices`.
#[derive(Debug, Clone)]
pub struct FileProgress {
    pub index: u32,
    pub path: String,
    pub selected: bool,
    pub downloaded: u64,
    pub size: u64,
}

/// Selected and not yet on disk.
pub open spec fn is_pending(f: FileProgress) -> bool {
    f.selected && f.downloaded < f.size
}

/// File `j` is the engine's head: the first pending file whose path no
/// other pending file's path precedes.
pub open spec fn is_head(files: Seq<FileProgress>, j: int) -> bool {
    &&& 0 <= j < files.len()
    &&& is_pending(files[j])
    &&& forall|k: int|
        0 <= k < files.len() && is_pending(#[trigger] files[k]) ==> path_order(
            files[j].path@,
            files[k].path@,
        ) != Order::Greater
    &&& forall|k: int|
        0 <= k < j && is_pending(#[trigger] files[k]) ==> path_order(files[k].path@, files[j].path@)
            == Order::Greater
}

/// The files receiving data: the head, and (when there is a history)
/// every pending file that recently gained bytes.
pub open spec fn spec_active(files: Seq<FileProgress>, recent: Option<Set<u32>>) -> Set<u32> {
    Set::new(
        |x: u32|
            (exists|j: int| is_head(files, j) && files[j].index == x) || (recent is Some && exists|
                j: int,
            |
                0 <= j < files.len() && is_pending(files[j]) && files[j].index == x
                    && recent->0.contains(x)),
    )
}

proof fn lemma_head_unique(files: Seq<FileProgress>, a: int, b: int)
    requires
        is_head(files, a),
        is_head(files, b),
    ensures
        a == b,
{
    if a < b {
        assert(is_pending(files[a]));
        assert(path_order(files[a].path@, files[b].path@) == Order::Greater);
    }
    if b < a {
        assert(is_pending(files[b]));
        assert(path_order(files[b].path@, files[a].path@) == Order::Greater);
    }
}

/// The media files currently receiving data. The engine downloads files one
/// at a time in relative-path order (compared component by component, not as
/// strings), so the head, the path-first selected incomplete file, is always
/// active. `recently_active` adds the files that gained bytes lately; it is
/// `None` on a cold snapshot, where only the head is known.
pub fn active_indices(files: &[FileProgress], recently_active: Option<&HashSet<u32>>) -> (r:
    HashSet<u32>)
    ensures
        r@ == spec_active(
            files@,
            match recently_active {
                Some(s) => Some(s@),
                None => None,
            },
        ),
{
    let mut best: Option<usize> = None;
    let mut i: usize = 0;
    while i < files.len()
        invariant
            i <= files@.len(),
            best is None ==> forall|k: int| 0 <= k < i ==> !is_pending(#[trigger] files@[k]),
            best matches Some(b) ==> {
                &&& b < i
                &&& is_pending(files@[b as int])
                &&& forall|k: int|
                    0 <= k < i && is_pending(#[trigger] files@[k]) ==> path_order(
                        files@[b as int].path@,
                        files@[k].path@,
                    ) != Order::Greater
                &&& forall|k: int|
                    0 <= k < b && is_pending(#[trigger] files@[k]) ==> path_order(
                        files@[k].path@,
                        files@[b as int].path@,
                    ) == Order::Greater
            },
        decreases files@.len() - i,
    {
        let f = &files[i];
        if f.selected && f.downloaded < f.size {
            match best {
                None => {
                    proof {
                        lemma_path_order(f.path@, f.path@, f.path@);
                    }
                    best = Some(i);
                },
                Some(b) => {
                    let o = order_paths(f.path.as_str(), files[b].path.as_str());
                    if let Order::Less = o {
                        proof {
                            lemma_path_order(f.path@, f.path@, f.path@);
                            assert forall|k: int|
                                0 <= k < i && is_pending(#[trigger] files@[k]) implies path_order(
                                f.path@,
                                files@[k].path@,
                            ) != Order::Greater && path_order(files@[k].path@, f.path@)
                                == Order::Greater by {
                                lemma_path_order(f.path@, files@[b as int].path@, files@[k].path@);
                                lemma_path_order(f.path@, files@[k].path@, files@[k].path@);
                            }
                        }
                        best = Some(i);
                    } else {
                        proof {
                            lemma_path_order(f.path@, files@[b as int].path@, f.path@);
                        }
                    }
                },
            }
        }
        i += 1;
    }
    let mut out: HashSet<u32> = HashSet::new();
    if let Some(b) = best {
        out.insert(files[b].index);
    }
    let ghost base = out@;
    if let Some(recent) = recently_active {
        let mut k: usize = 0;
        while k < files.len()
            invariant
                k <= files@.len(),
                out@ == base.union(
                    Set::new(
                        |x: u32|
                            exists|j: int|
                                0 <= j < k && is_pending(files@[j]) && files@[j].index == x
                                    && recent@.contains(x),
                    ),
                ),
            decreases files@.len() - k,
        {
            let f = &files[k];
            if f.selected && f.downloaded < f.size && recent.contains(&f.index) {
                out.insert(f.index);
            }
            k += 1;
            assert(out@ =~= base.union(
                Set::new(
                    |x: u32|
                        exists|j: int|
                            0 <= j < k && is_pending(files@[j]) && files@[j].index == x
                                && recent@.contains(x),
                ),
            ));
        }
    }
    proof {
        let spec = spec_active(
            files@,
            match recently_active {
                Some(s) => Some(s@),
                None => None,
            },
        );
        assert forall|x: u32| out@.contains(x) <==> spec.contains(x) by {
            match best {
                Some(b) => {
                    assert(is_head(files@, b as int));
                    if exists|j: int| is_head(files@, j) && files@[j].index == x {
                        let j = choose|j: int| is_head(files@, j) && files@[j].index == x;
                        lemma_head_unique(files@, j, b as int);
                    }
                },
                None => {
                    if exists|j: int| is_head(files@, j) && files@[j].index == x {
                        let j = choose|j: int| is_head(files@, j) && files@[j].index == x;
                        assert(is_pending(files@[j]));
                    }
                },
            }
        }
        assert(out@ =~= spec);
    }
    out
}

/// The indices `expanded` names, as a set.
pub open spec fn index_set(v: Seq<u32>) -> Set<usize> {
    Set::new(|i: usize| exists|k: int| 0 <= k < v.len() && v[k] as usize == i)
}

/// Whether any media index is still in the selection.
pub open spec fn any_media_left(media: Seq<u32>, next: Set<usize>) -> bool {
    exists|k: int| 0 <= k < media.len() && next.contains(media[k] as usize)
}

/// The selection after deselecting `expanded`: when no media stays
/// selected, the torrent's subtitles go too.
pub open spec fn spec_deselect_next(
    media: Seq<u32>,
    subs: Seq<u32>,
    current: Set<usize>,
    expanded: Seq<u32>,
) -> Set<usize> {
    let next = current.difference(index_set(expanded));
    if any_media_left(media, next) {
        next
    } else {
        next.difference(index_set(subs))
    }
}

/// The indices whose bytes a drop frees: the targets, plus the subtitles
/// when no media stays selected.
pub open spec fn spec_deselect_freed(
    media: Seq<u32>,
    subs: Seq<u32>,
    current: Set<usize>,
    expanded: Seq<u32>,
) -> Seq<u32> {
    if any_media_left(media, current.difference(index_set(expanded))) {
        expanded
    } else {
        expanded + subs
    }
}

/// Next selection after removing `expanded` from a torrent's current
/// selection, plus the indices freed. Shared by pause (deselect, keep the
/// bytes) and drop (deselect and reclaim).
pub fn compute_deselect(
    media: &[u32],
    subs: &[u32],
    current: &HashSet<usize>,
    expanded: &[u32],
) -> (r: (HashSet<usize>, Vec<u32>))
    ensures
        r.0@ == spec_deselect_next(media@, subs@, current@, expanded@),
        r.1@ == spec_deselect_freed(media@, subs@, current@, expanded@),
{
    let mut next: HashSet<usize> = HashSet::new();
    let ghost removed = index_set(expanded@);
    let ghost mut seen: Set<usize> = Set::empty();
    for x in it: current.iter()
        invariant
            removed == index_set(expanded@),
            it.seq().unref().to_set() == current@,
            seen == Set::new(|y: usize| exists|k: int| 0 <= k < it.index() && it.seq().unref()[k] == y),
            next@ == seen.difference(removed),
    {
        let v: usize = *x;
        let mut hit = false;
        let mut k: usize = 0;
        while k < expanded.len()
            invariant
                k <= expanded@.len(),
                hit == exists|j: int| 0 <= j < k && expanded@[j] as usize == v,
            decreases expanded@.len() - k,
        {
            if expanded[k] as usize == v {
                hit = true;
            }
            k += 1;
        }
        assert(hit == removed.contains(v));
        if !hit {
            next.insert(v);
        }
        proof {
            let i = it.index();
            assert(it.seq().unref()[i] == v);
            seen = seen.insert(v);
            assert(seen =~= Set::new(|y: usize| exists|k: int| 0 <= k < i + 1 && it.seq().unref()[k] == y));
            assert(next@ =~= seen.difference(removed));
        }
    }
    proof {
        assert forall|y: usize| seen.contains(y) <==> current@.contains(y) by {
            if current@.contains(y) {
                assert(current@.contains(y));
            }
        }
        assert(seen =~= current@);
        assert(next@ =~= current@.difference(removed));
    }
    let mut left = false;
    let mut m: usize = 0;
    while m < media.len()
        invariant
            m <= media@.len(),
            next@ == current@.difference(index_set(expanded@)),
            left == exists|j: int| 0 <= j < m && next@.contains(media@[j] as usize),
        decreases media@.len() - m,
    {
        if next.contains(&(media[m] as usize)) {
            left = true;
        }
        m += 1;
    }
    let mut freed: Vec<u32> = Vec::new();
    let mut e: usize = 0;
    while e < expanded.len()
        invariant
            e <= expanded@.len(),
            freed@ == expanded@.subrange(0, e as int),
        decreases expanded@.len() - e,
    {
        freed.push(expanded[e]);
        e += 1;
        assert(freed@ =~= expanded@.subrange(0, e as int));
    }
    assert(expanded@.subrange(0, expanded@.len() as int) =~= expanded@);
    if !left {
        let ghost before = next@;
        let mut s: usize = 0;
        while s < subs.len()
            invariant
                s <= subs@.len(),
                next@ == before.difference(
                    Set::new(|i: usize| exists|k: int| 0 <= k < s && subs@[k] as usize == i),
                ),
                freed@ == expanded@ + subs@.subrange(0, s as int),
            decreases subs@.len() - s,
        {
            next.remove(&(subs[s] as usize));
            freed.push(subs[s]);
            s += 1;
            assert(next@ =~= before.difference(
                Set::new(|i: usize| exists|k: int| 0 <= k < s && subs@[k] as usize == i),
            ));
            assert(freed@ =~= expanded@ + subs@.subrange(0, s as int));
        }
        assert(subs@.subrange(0, subs@.len() as int) =~= subs@);
        assert(next@ =~= before.difference(index_set(subs@)));
    }
    (next, freed)
}

/// The engine's selection as a set: `None` means every one of the
/// torrent's `file_count` files.
pub open spec fn spec_current_selection(only_files: Option<Seq<usize>>, file_count: usize) -> Set<
    usize,
> {
    match only_files {
        Some(v) => v.to_set(),
        None => Set::new(|i: usize| i < file_count),
    }
}

pub fn current_selection(only_files: &Option<Vec<usize>>, file_count: usize) -> (r: HashSet<usize>)
    ensures
        r@ == spec_current_selection(
            match only_files {
                Some(v) => Some(v@),
                None => None,
            },
            file_count,
        ),
{
    let mut out: HashSet<usize> = HashSet::new();
    match only_files {
        Some(v) => {
            let mut i: usize = 0;
            while i < v.len()
                invariant
                    i <= v@.len(),
                    out@ == Set::new(|x: usize| exists|j: int| 0 <= j < i && v@[j] == x),
                decreases v@.len() - i,
            {
                out.insert(v[i]);
                i += 1;
                assert(out@ =~= Set::new(|x: usize| exists|j: int| 0 <= j < i && v@[j] == x));
            }
            assert(out@ =~= v@.to_set());
        },
        None => {
            let mut i: usize = 0;
            while i < file_count
                invariant
                    i <= file_count,
                    out@ == Set::new(|j: usize| j < i),
                decreases file_count - i,
            {
                out.insert(i);
                i += 1;
                assert(out@ =~= Set::new(|j: usize| j < i));
            }
        },
    }
    out
}

/// A copy of a set of indices.
pub fn copy_index_set(s: &HashSet<usize>) -> (r: HashSet<usize>)
    ensures
        r@ == s@,
{
    let mut out: HashSet<usize> = HashSet::new();
    let ghost mut seen: Set<usize> = Set::empty();
    for x in it: s.iter()
        invariant
            it.seq().unref().to_set() == s@,
            seen == Set::new(|y: usize| exists|k: int| 0 <= k < it.index() && it.seq().unref()[k] == y),
            out@ == seen,
    {
        let v: usize = *x;
        out.insert(v);
        proof {
            let i = it.index();
            assert(it.seq().unref()[i] == v);
            seen = seen.insert(v);
            assert(seen =~= Set::new(|y: usize| exists|k: int| 0 <= k < i + 1 && it.seq().unref()[k] == y));
        }
    }
    proof {
        assert forall|y: usize| seen.contains(y) <==> s@.contains(y) by {
            if s@.contains(y) {
                assert(s@.contains(y));
            }
        }
        assert(seen =~= s@);
    }
    out
}

/// Insert every index of `v` into `s`.
pub fn insert_all(s: &mut HashSet<usize>, v: &[u32])
    ensures
        final(s)@ == old(s)@.union(index_set(v@)),
{
    let ghost start = s@;
    let mut k: usize = 0;
    while k < v.len()
        invariant
            k <= v@.len(),
            s@ == start.union(index_set(v@.subrange(0, k as int))),
        decreases v@.len() - k,
    {
        s.insert(v[k] as usize);
        k += 1;
        proof {
            let sub = v@.subrange(0, k as int);
            assert forall|y: usize| index_set(sub).contains(y) <==> (index_set(
                v@.subrange(0, k - 1),
            ).contains(y) || y == v@[k - 1] as usize) by {
                if index_set(sub).contains(y) {
                    let j = choose|j: int| 0 <= j < sub.len() && sub[j] as usize == y;
                    if j < k - 1 {
                        assert(v@.subrange(0, k - 1)[j] == sub[j]);
                    }
                }
                let prev = v@.subrange(0, k - 1);
                if index_set(prev).contains(y) {
                    let j = choose|j: int| 0 <= j < prev.len() && prev[j] as usize == y;
                    assert(sub[j] == prev[j]);
                }
                if y == v@[k - 1] as usize {
                    assert(sub[k - 1] as usize == y);
                }
            }
        }
        assert(s@ =~= start.union(index_set(v@.subrange(0, k as int))));
    }
    assert(v@.subrange(0, v@.len() as int) =~= v@);
}

/// Selected media other than the targets.
pub open spec fn rest_selected(media: Seq<u32>, current: Set<usize>, targets: Seq<u32>) -> Seq<u32> {
    media.filter(|i: u32| current.contains(i as usize) && !targets.contains(i))
}

/// Whether resuming converts the other selected media to per-file pauses:
/// the torrent is paused in the engine and other media are selected.
pub open spec fn spec_resume_pauses_rest(
    media: Seq<u32>,
    current: Set<usize>,
    targets: Seq<u32>,
    engine_paused: bool,
) -> bool {
    engine_paused && rest_selected(media, current, targets).len() > 0
}

/// The selection after resuming `targets`: the targets and the torrent's
/// subtitles join the current selection, or replace it when the other
/// selected media turn into per-file pauses.
pub open spec fn spec_resume_next(
    media: Seq<u32>,
    subs: Seq<u32>,
    current: Set<usize>,
    targets: Seq<u32>,
    engine_paused: bool,
) -> Set<usize> {
    let base = if spec_resume_pauses_rest(media, current, targets, engine_paused) {
        index_set(targets)
    } else {
        current.union(index_set(targets))
    };
    base.union(index_set(subs))
}

/// The selection a resume (or a stream start) applies, and the media whose
/// pause flag it sets: the other selected media, when the torrent is paused
/// in the engine, so only the targets go live with it.
pub fn resume_selection(
    media: &[u32],
    subs: &[u32],
    current: &HashSet<usize>,
    targets: &[u32],
    engine_paused: bool,
) -> (r: (HashSet<usize>, Vec<u32>))
    ensures
        r.0@ == spec_resume_next(media@, subs@, current@, targets@, engine_paused),
        r.1@ == if spec_resume_pauses_rest(media@, current@, targets@, engine_paused) {
            rest_selected(media@, current@, targets@)
        } else {
            Seq::empty()
        },
{
    let ghost pred = |i: u32| current@.contains(i as usize) && !targets@.contains(i);
    let mut rest: Vec<u32> = Vec::new();
    let mut k: usize = 0;
    while k < media.len()
        invariant
            k <= media@.len(),
            pred == (|i: u32| current@.contains(i as usize) && !targets@.contains(i)),
            rest@ == media@.subrange(0, k as int).filter(pred),
        decreases media@.len() - k,
    {
        let idx = media[k];
        proof {
            reveal(Seq::filter);
            assert(media@.subrange(0, k + 1).drop_last() =~= media@.subrange(0, k as int));
        }
        if current.contains(&(idx as usize)) && !contains_u32(targets, idx) {
            rest.push(idx);
        }
        k += 1;
    }
    assert(media@.subrange(0, media@.len() as int) =~= media@);
    let pauses = engine_paused && rest.len() > 0;
    let mut next: HashSet<usize> = if pauses {
        HashSet::new()
    } else {
        copy_index_set(current)
    };
    insert_all(&mut next, targets);
    insert_all(&mut next, subs);
    proof {
        if pauses {
            assert(Set::<usize>::empty().union(index_set(targets@)) =~= index_set(targets@));
        }
    }
    if pauses {
        (next, rest)
    } else {
        (next, Vec::new())
    }
}

/// Pausing files and resuming them on a live torrent loses nothing: the
/// selection ends as it was, with the targets and the subtitles selected.
pub proof fn lemma_pause_then_resume(media: Seq<u32>, subs: Seq<u32>, current: Set<usize>, targets: Seq<u32>)
    ensures
        spec_resume_next(media, subs, spec_deselect_next(media, subs, current, targets), targets, false) == current.union(
            index_set(targets),
        ).union(index_set(subs)),
{
    let paused = spec_deselect_next(media, subs, current, targets);
    let back = spec_resume_next(media, subs, paused, targets, false);
    let want = current.union(index_set(targets)).union(index_set(subs));
    assert forall|i: usize| back.contains(i) <==> want.contains(i) by {
        if current.contains(i) && !index_set(targets).contains(i) && !index_set(subs).contains(i) {
            assert(current.difference(index_set(targets)).contains(i));
            assert(paused.contains(i));
        }
    }
    assert(back =~= want);
}

} // verus!
