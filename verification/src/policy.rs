//! The daemon's policies around a torrent's life: recording its media once
//! its metadata is known, what finalizing selects, when a player or the
//! fallback handler is launched, what a cleanup keeps, and which files a
//! managed removal deletes.

use std::collections::HashSet;
use vstd::prelude::*;
use crate::config::{Config, PlayerConfig};
use crate::metadata::{FileMetadata, TorrentMetadata, files_wf, file_entry, file_choice};
use crate::protocol::FallbackReason;
use crate::state::{index_set, insert_all};
use crate::text::{trim, trim_vec, chars_of, string_views};

verus! {

broadcast use vstd::std_specs::hash::group_hash_axioms;

/// A file map as a map from index to choices.
pub open spec fn map_of(files: Seq<(u32, FileMetadata)>) -> Map<u32, FileMetadata> {
    Map::new(
        |k: u32| exists|i: int| 0 <= i < files.len() && files[i].0 == k,
        |k: u32| file_entry(files, k)->0,
    )
}

/// Record `fm` for file `idx`, replacing what was there, keeping the map in
/// index order (`BTreeMap::insert`).
pub fn insert_file(files: &mut Vec<(u32, FileMetadata)>, idx: u32, fm: FileMetadata)
    requires
        files_wf(old(files)@),
    ensures
        files_wf(final(files)@),
        map_of(final(files)@) == map_of(old(files)@).insert(idx, fm),
{
    let ghost start = files@;
    let mut i: usize = 0;
    while i < files.len() && files[i].0 < idx
        invariant
            i <= files@.len(),
            files@ == start,
            files_wf(start),
            forall|j: int| 0 <= j < i ==> (#[trigger] start[j]).0 < idx,
        decreases files@.len() - i,
    {
        i += 1;
    }
    if i < files.len() && files[i].0 == idx {
        files.set(i, (idx, fm));
        proof {
            assert(files@ == start.update(i as int, (idx, fm)));
            assert forall|a: int, b: int| 0 <= a < b < files@.len() implies files@[a].0 < files@[b].0 by {
                assert(files@[a].0 == start[a].0 && files@[b].0 == start[b].0);
            }
            lemma_map_of_after(start, files@, i as int, idx, fm, false);
        }
    } else {
        files.insert(i, (idx, fm));
        proof {
            assert(files@ == start.insert(i as int, (idx, fm)));
            assert forall|a: int, b: int| 0 <= a < b < files@.len() implies files@[a].0 < files@[b].0 by {
                if b < i {
                    assert(files@[a] == start[a] && files@[b] == start[b]);
                } else if b == i {
                    assert(files@[a] == start[a]);
                } else if a == i {
                    assert(files@[b] == start[b - 1]);
                    if b - 1 > i {
                        assert(start[i as int].0 < start[b - 1].0);
                    }
                } else if a < i {
                    assert(files@[a] == start[a] && files@[b] == start[b - 1]);
                } else {
                    assert(files@[a] == start[a - 1] && files@[b] == start[b - 1]);
                }
            }
            lemma_map_of_after(start, files@, i as int, idx, fm, true);
        }
    }
}

proof fn lemma_map_of_after(
    start: Seq<(u32, FileMetadata)>,
    next: Seq<(u32, FileMetadata)>,
    i: int,
    idx: u32,
    fm: FileMetadata,
    inserted: bool,
)
    requires
        files_wf(start),
        files_wf(next),
        0 <= i <= start.len(),
        forall|j: int| 0 <= j < i ==> (#[trigger] start[j]).0 < idx,
        inserted ==> next == start.insert(i, (idx, fm)) && (i < start.len() ==> start[i].0 != idx),
        !inserted ==> i < start.len() && start[i].0 == idx && next == start.update(i, (idx, fm)),
    ensures
        map_of(next) == map_of(start).insert(idx, fm),
{
    let a = map_of(next);
    let b = map_of(start).insert(idx, fm);
    assert forall|k: u32| a.contains_key(k) <==> b.contains_key(k) by {
        if a.contains_key(k) {
            let j = choose|j: int| 0 <= j < next.len() && next[j].0 == k;
            if k != idx {
                if inserted {
                    if j < i {
                        assert(next[j] == start[j]);
                    } else {
                        assert(next[j] == start[j - 1]);
                    }
                } else {
                    assert(next[j] == start[j]);
                }
            }
        }
        if b.contains_key(k) && k != idx {
            let j = choose|j: int| 0 <= j < start.len() && start[j].0 == k;
            if inserted {
                if j < i {
                    assert(next[j] == start[j]);
                } else {
                    assert(next[j + 1] == start[j]);
                }
            } else {
                assert(next[j] == start[j]);
            }
        }
        if k == idx {
            assert(next[i].0 == idx);
        }
    }
    assert forall|k: u32| a.contains_key(k) implies a[k] == b[k] by {
        let j = choose|j: int| 0 <= j < next.len() && next[j].0 == k;
        assert(file_entry(next, k) == Some(next[j].1)) by {
            let c = choose|c: int| 0 <= c < next.len() && next[c].0 == k;
            if c < j {
                assert(next[c].0 < next[j].0);
            } else if c > j {
                assert(next[j].0 < next[c].0);
            }
        }
        if k == idx {
            assert(next[i].0 == idx);
            if j != i {
                if j < i {
                    assert(next[j].0 < next[i].0);
                } else {
                    assert(next[i].0 < next[j].0);
                }
            }
        } else {
            let sj = if inserted && j > i {
                j - 1
            } else {
                j
            };
            assert(next[j] == start[sj]);
            assert(file_entry(start, k) == Some(start[sj].1)) by {
                let c = choose|c: int| 0 <= c < start.len() && start[c].0 == k;
                if c < sj {
                    assert(start[c].0 < start[sj].0);
                } else if c > sj {
                    assert(start[sj].0 < start[c].0);
                }
            }
        }
    }
    assert(a =~= b);
}

/// The file map after classification: each media file keeps its recorded
/// choices, a new one gets the configured defaults, and files no longer
/// classified as media drop out.
pub open spec fn spec_media_map(old_files: Seq<(u32, FileMetadata)>, media: Seq<u32>, defaults: FileMetadata) -> Map<
    u32,
    FileMetadata,
> {
    Map::new(
        |k: u32| media.contains(k),
        |k: u32|
            match file_entry(old_files, k) {
                Some(c) => c,
                None => defaults,
            },
    )
}

pub fn write_media_indices(files: &Vec<(u32, FileMetadata)>, media: &[u32], defaults: FileMetadata) -> (r: Vec<
    (u32, FileMetadata),
>)
    requires
        files_wf(files@),
    ensures
        files_wf(r@),
        map_of(r@) == spec_media_map(files@, media@, defaults),
{
    let mut next: Vec<(u32, FileMetadata)> = Vec::new();
    let mut k: usize = 0;
    while k < media.len()
        invariant
            k <= media@.len(),
            files_wf(files@),
            files_wf(next@),
            map_of(next@) == spec_media_map(files@, media@.subrange(0, k as int), defaults),
        decreases media@.len() - k,
    {
        let idx = media[k];
        let existing = match file_choice(files.as_slice(), idx) {
            Some(c) => c,
            None => defaults,
        };
        insert_file(&mut next, idx, existing);
        k += 1;
        proof {
            let m = media@.subrange(0, k as int);
            assert forall|x: u32| m.contains(x) <==> (media@.subrange(0, k - 1).contains(x) || x == idx) by {
                if m.contains(x) {
                    let j = choose|j: int| 0 <= j < m.len() && m[j] == x;
                    if j < k - 1 {
                        assert(media@.subrange(0, k - 1)[j] == x);
                    }
                }
                let prev = media@.subrange(0, k - 1);
                if prev.contains(x) {
                    let j = choose|j: int| 0 <= j < prev.len() && prev[j] == x;
                    assert(m[j] == x);
                }
                if x == idx {
                    assert(m[k - 1] == x);
                }
            }
            assert(map_of(next@) =~= spec_media_map(files@, m, defaults));
        }
    }
    assert(media@.subrange(0, media@.len() as int) =~= media@);
    next
}

/// What finalizing selects: the media and subtitles when downloads start
/// on their own, nothing otherwise.
pub open spec fn spec_finalize_selection(media: Seq<u32>, subs: Seq<u32>, auto_download: bool) -> Set<usize> {
    if auto_download {
        index_set(media).union(index_set(subs))
    } else {
        Set::empty()
    }
}

pub fn finalize_selection(media: &[u32], subs: &[u32], auto_download: bool) -> (r: HashSet<usize>)
    ensures
        r@ == spec_finalize_selection(media@, subs@, auto_download),
{
    let mut out: HashSet<usize> = HashSet::new();
    if auto_download {
        insert_all(&mut out, media);
        insert_all(&mut out, subs);
        assert(out@ =~= index_set(media@).union(index_set(subs@)));
    }
    out
}

/// Whether a player is configured at all: its command is not blank.
pub open spec fn player_configured(p: PlayerConfig) -> bool {
    trim(p.command@).len() > 0
}

pub fn is_player_configured(p: &PlayerConfig) -> (r: bool)
    ensures
        r == player_configured(*p),
{
    trim_vec(chars_of(p.command.as_str()).as_slice()).len() > 0
}

/// Autoplay runs when it is on and a player is configured.
pub fn should_autoplay(config: &Config) -> (r: bool)
    ensures
        r == (config.downloads.autoplay && player_configured(config.player)),
{
    config.downloads.autoplay && is_player_configured(&config.player)
}

/// A copy of a list of strings.
fn copy_strings(v: &Vec<String>) -> (r: Vec<String>)
    ensures
        string_views(r@) == string_views(v@),
{
    let mut r: Vec<String> = Vec::new();
    let mut i: usize = 0;
    while i < v.len()
        invariant
            i <= v@.len(),
            string_views(r@) == string_views(v@).subrange(0, i as int),
        decreases v@.len() - i,
    {
        let ghost before = r@;
        r.push(v[i].clone());
        proof {
            assert(string_views(r@) =~= string_views(before).push(v@[i as int]@));
        }
        i += 1;
        assert(string_views(r@) =~= string_views(v@).subrange(0, i as int));
    }
    assert(string_views(v@).subrange(0, v@.len() as int) =~= string_views(v@));
    r
}

/// The program and arguments that open `uris` in the configured player:
/// its command, with its arguments followed by the URIs. Fails when no
/// player is configured.
pub fn player_command(p: &PlayerConfig, uris: &Vec<String>) -> (r: Option<(String, Vec<String>)>)
    ensures
        match r {
            None => !player_configured(*p),
            Some((c, a)) => player_configured(*p) && c@ == p.command@ && string_views(a@) == string_views(p.args@)
                + string_views(uris@),
        },
{
    if !is_player_configured(p) {
        return None;
    }
    let mut args = copy_strings(&p.args);
    let extra = copy_strings(uris);
    let ghost base = string_views(args@);
    let mut i: usize = 0;
    while i < extra.len()
        invariant
            i <= extra@.len(),
            string_views(args@) == base + string_views(extra@).subrange(0, i as int),
        decreases extra@.len() - i,
    {
        let ghost before = args@;
        args.push(extra[i].clone());
        proof {
            assert(string_views(args@) =~= string_views(before).push(extra@[i as int]@));
        }
        i += 1;
        assert(string_views(args@) =~= base + string_views(extra@).subrange(0, i as int));
    }
    assert(string_views(extra@).subrange(0, extra@.len() as int) =~= string_views(extra@));
    Some((p.command.clone(), args))
}

/// The program and arguments that hand `source` to the configured fallback
/// application: its arguments followed by the source. Without an
/// application there is nothing to launch.
pub fn fallback_command(config: &Config, source: &str) -> (r: Result<(String, Vec<String>), FallbackReason>)
    ensures
        match r {
            Err(reason) => reason == FallbackReason::NotConfigured && trim(config.downloads.fallback_app@).len()
                == 0,
            Ok((c, a)) => trim(config.downloads.fallback_app@).len() > 0 && c@ == config.downloads.fallback_app@
                && string_views(a@) == string_views(config.downloads.fallback_args@).push(source@),
        },
{
    if trim_vec(chars_of(config.downloads.fallback_app.as_str()).as_slice()).len() == 0 {
        return Err(FallbackReason::NotConfigured);
    }
    let mut args = copy_strings(&config.downloads.fallback_args);
    let ghost before = args@;
    args.push(source.to_owned());
    proof {
        assert(string_views(args@) =~= string_views(before).push(source@));
    }
    Ok((config.downloads.fallback_app.clone(), args))
}

/// What a cleanup pass does with one torrent: one with nothing kept goes
/// whole; otherwise only the kept media and its subtitles stay selected and
/// the rest of its media is reclaimed.
#[derive(Debug)]
pub enum CleanupPlan {
    DropTorrent,
    Trim { keep: HashSet<usize>, dropped: Vec<u32>, persisted: Vec<u32> },
}

/// The media indices whose `persisted` flag is `want`, in order.
pub open spec fn persisted_is(files: Seq<(u32, FileMetadata)>, want: bool) -> Seq<u32> {
    files.filter(|e: (u32, FileMetadata)| e.1.persisted == want).map_values(|e: (u32, FileMetadata)| e.0)
}

fn indices_where(files: &Vec<(u32, FileMetadata)>, want: bool) -> (r: Vec<u32>)
    ensures
        r@ == persisted_is(files@, want),
{
    let ghost pred = |e: (u32, FileMetadata)| e.1.persisted == want;
    let mut r: Vec<u32> = Vec::new();
    let mut k: usize = 0;
    while k < files.len()
        invariant
            k <= files@.len(),
            pred == (|e: (u32, FileMetadata)| e.1.persisted == want),
            r@ == files@.subrange(0, k as int).filter(pred).map_values(|e: (u32, FileMetadata)| e.0),
        decreases files@.len() - k,
    {
        proof {
            reveal(Seq::filter);
            assert(files@.subrange(0, k + 1).drop_last() =~= files@.subrange(0, k as int));
        }
        let ghost before = r@;
        if files[k].1.persisted == want {
            r.push(files[k].0);
            proof {
                assert(r@ =~= files@.subrange(0, k + 1).filter(pred).map_values(|e: (u32, FileMetadata)| e.0));
            }
        } else {
            proof {
                assert(r@ =~= files@.subrange(0, k + 1).filter(pred).map_values(|e: (u32, FileMetadata)| e.0));
            }
        }
        k += 1;
    }
    assert(files@.subrange(0, files@.len() as int) =~= files@);
    r
}

pub fn cleanup_plan(entry: &TorrentMetadata, subs: &[u32]) -> (r: CleanupPlan)
    ensures
        match r {
            CleanupPlan::DropTorrent => persisted_is(entry.files@, true).len() == 0,
            CleanupPlan::Trim { keep, dropped, persisted } => {
                &&& persisted_is(entry.files@, true).len() > 0
                &&& persisted@ == persisted_is(entry.files@, true)
                &&& dropped@ == persisted_is(entry.files@, false)
                &&& keep@ == index_set(persisted_is(entry.files@, true)).union(index_set(subs@))
            },
        },
{
    let persisted = indices_where(&entry.files, true);
    if persisted.len() == 0 {
        return CleanupPlan::DropTorrent;
    }
    let dropped = indices_where(&entry.files, false);
    let mut keep: HashSet<usize> = HashSet::new();
    insert_all(&mut keep, persisted.as_slice());
    insert_all(&mut keep, subs);
    assert(keep@ =~= index_set(persisted@).union(index_set(subs@)));
    CleanupPlan::Trim { keep, dropped, persisted }
}

/// The file map keeping only the files in `keep`.
pub fn retain_files(files: &Vec<(u32, FileMetadata)>, keep: &[u32]) -> (r: Vec<(u32, FileMetadata)>)
    ensures
        r@ == files@.filter(|e: (u32, FileMetadata)| keep@.contains(e.0)),
{
    let ghost pred = |e: (u32, FileMetadata)| keep@.contains(e.0);
    let mut r: Vec<(u32, FileMetadata)> = Vec::new();
    let mut k: usize = 0;
    while k < files.len()
        invariant
            k <= files@.len(),
            pred == (|e: (u32, FileMetadata)| keep@.contains(e.0)),
            r@ == files@.subrange(0, k as int).filter(pred),
        decreases files@.len() - k,
    {
        proof {
            reveal(Seq::filter);
            assert(files@.subrange(0, k + 1).drop_last() =~= files@.subrange(0, k as int));
        }
        if crate::state::contains_u32(keep, files[k].0) {
            r.push(files[k]);
        }
        k += 1;
    }
    assert(files@.subrange(0, files@.len() as int) =~= files@);
    r
}

/// A record is healthy when it lists media files; a missing record or an
/// empty file map needs finalizing.
pub fn entry_healthy(meta: Option<&TorrentMetadata>) -> (r: bool)
    ensures
        r == match meta {
            Some(e) => e.files@.len() > 0,
            None => false,
        },
{
    match meta {
        Some(e) => e.files.len() > 0,
        None => false,
    }
}

/// Insert `x` into an ascending list of distinct values.
fn insert_sorted(v: &mut Vec<u32>, x: u32)
    requires
        forall|a: int, b: int| 0 <= a < b < old(v)@.len() ==> old(v)@[a] < old(v)@[b],
    ensures
        forall|a: int, b: int| 0 <= a < b < final(v)@.len() ==> final(v)@[a] < final(v)@[b],
        final(v)@.to_set() == old(v)@.to_set().insert(x),
{
    let ghost start = v@;
    let mut i: usize = 0;
    while i < v.len() && v[i] < x
        invariant
            i <= v@.len(),
            v@ == start,
            forall|a: int, b: int| 0 <= a < b < start.len() ==> start[a] < start[b],
            forall|j: int| 0 <= j < i ==> start[j] < x,
        decreases v@.len() - i,
    {
        i += 1;
    }
    if i < v.len() && v[i] == x {
        assert(v@.to_set() =~= start.to_set().insert(x));
        return;
    }
    v.insert(i, x);
    proof {
        assert(v@ == start.insert(i as int, x));
        assert forall|a: int, b: int| 0 <= a < b < v@.len() implies v@[a] < v@[b] by {
            if b < i {
            } else if b == i {
            } else if a == i {
                assert(v@[b] == start[b - 1]);
                if b - 1 > i {
                    assert(start[i as int] < start[b - 1]);
                }
            } else if a < i {
                assert(v@[b] == start[b - 1]);
            } else {
                assert(v@[a] == start[a - 1] && v@[b] == start[b - 1]);
            }
        }
        assert forall|y: u32| v@.to_set().contains(y) <==> start.to_set().insert(x).contains(y) by {
            if v@.contains(y) {
                let j = choose|j: int| 0 <= j < v@.len() && v@[j] == y;
                if j < i {
                    assert(start[j] == y);
                } else if j > i {
                    assert(start[j - 1] == y);
                }
            }
            if start.contains(y) {
                let j = choose|j: int| 0 <= j < start.len() && start[j] == y;
                if j < i {
                    assert(v@[j] == y);
                } else {
                    assert(v@[j + 1] == y);
                }
            }
            if y == x {
                assert(v@[i as int] == x);
            }
        }
        assert(v@.to_set() =~= start.to_set().insert(x));
    }
}

/// The files magneto answers for in a managed removal: those in its file
/// map, the subtitles it selected alongside them, and any file the engine
/// created and left empty.
pub open spec fn spec_managed(media: Seq<u32>, subs: Seq<u32>, selected: Set<usize>, empty: Seq<bool>) -> Set<u32> {
    Set::new(
        |i: u32|
            media.contains(i) || (subs.contains(i) && selected.contains(i as usize)) || (i < (empty.len() as u32)
                && empty[i as int]),
    )
}

/// The managed files, ascending, once each. `empty[i]` says whether the
/// engine's file `i` exists on disk with nothing in it.
pub fn managed_indices(media: &[u32], subs: &[u32], selected: &HashSet<usize>, empty: &[bool]) -> (r: Vec<u32>)
    ensures
        forall|a: int, b: int| 0 <= a < b < r@.len() ==> r@[a] < r@[b],
        r@.to_set() == spec_managed(media@, subs@, selected@, empty@),
{
    let mut out: Vec<u32> = Vec::new();
    let mut k: usize = 0;
    while k < media.len()
        invariant
            k <= media@.len(),
            forall|a: int, b: int| 0 <= a < b < out@.len() ==> out@[a] < out@[b],
            out@.to_set() == Set::new(|i: u32| media@.subrange(0, k as int).contains(i)),
        decreases media@.len() - k,
    {
        insert_sorted(&mut out, media[k]);
        k += 1;
        proof {
            assert forall|y: u32| media@.subrange(0, k as int).contains(y) <==> (media@.subrange(0, k - 1).contains(y)
                || y == media@[k - 1]) by {
                if media@.subrange(0, k as int).contains(y) {
                    let j = choose|j: int| 0 <= j < k && media@.subrange(0, k as int)[j] == y;
                    if j < k - 1 {
                        assert(media@.subrange(0, k - 1)[j] == y);
                    }
                }
                let prev = media@.subrange(0, k - 1);
                if prev.contains(y) {
                    let j = choose|j: int| 0 <= j < prev.len() && prev[j] == y;
                    assert(media@.subrange(0, k as int)[j] == y);
                }
                if y == media@[k - 1] {
                    assert(media@.subrange(0, k as int)[k - 1] == y);
                }
            }
            assert(out@.to_set() =~= Set::new(|i: u32| media@.subrange(0, k as int).contains(i)));
        }
    }
    assert(media@.subrange(0, media@.len() as int) =~= media@);
    let mut s: usize = 0;
    while s < subs.len()
        invariant
            s <= subs@.len(),
            forall|a: int, b: int| 0 <= a < b < out@.len() ==> out@[a] < out@[b],
            out@.to_set() == Set::new(
                |i: u32| media@.contains(i) || (subs@.subrange(0, s as int).contains(i) && selected@.contains(i as usize)),
            ),
        decreases subs@.len() - s,
    {
        let x = subs[s];
        if selected.contains(&(x as usize)) {
            insert_sorted(&mut out, x);
        }
        s += 1;
        proof {
            assert forall|y: u32| subs@.subrange(0, s as int).contains(y) <==> (subs@.subrange(0, s - 1).contains(y)
                || y == subs@[s - 1]) by {
                if subs@.subrange(0, s as int).contains(y) {
                    let j = choose|j: int| 0 <= j < s && subs@.subrange(0, s as int)[j] == y;
                    if j < s - 1 {
                        assert(subs@.subrange(0, s - 1)[j] == y);
                    }
                }
                let prev = subs@.subrange(0, s - 1);
                if prev.contains(y) {
                    let j = choose|j: int| 0 <= j < prev.len() && prev[j] == y;
                    assert(subs@.subrange(0, s as int)[j] == y);
                }
                if y == subs@[s - 1] {
                    assert(subs@.subrange(0, s as int)[s - 1] == y);
                }
            }
            assert(out@.to_set() =~= Set::new(
                |i: u32| media@.contains(i) || (subs@.subrange(0, s as int).contains(i) && selected@.contains(i as usize)),
            ));
        }
    }
    assert(subs@.subrange(0, subs@.len() as int) =~= subs@);
    let n: u32 = empty.len() as u32;
    let mut i: u32 = 0;
    while i < n
        invariant
            i <= n,
            n == (empty@.len() as u32),
            n <= empty@.len(),
            forall|a: int, b: int| 0 <= a < b < out@.len() ==> out@[a] < out@[b],
            out@.to_set() == Set::new(
                |x: u32| media@.contains(x) || (subs@.contains(x) && selected@.contains(x as usize)) || (x < i
                    && empty@[x as int]),
            ),
        decreases n - i,
    {
        if empty[i as usize] {
            insert_sorted(&mut out, i);
        }
        i += 1;
        assert(out@.to_set() =~= Set::new(
            |x: u32| media@.contains(x) || (subs@.contains(x) && selected@.contains(x as usize)) || (x < i
                && empty@[x as int]),
        ));
    }
    assert(out@.to_set() =~= spec_managed(media@, subs@, selected@, empty@));
    out
}

} // verus!
