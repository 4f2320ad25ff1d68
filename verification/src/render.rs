//! Rendering a torrent for clients: the engine's view of its files and the
//! metadata record become the media file rows, and the rows the summary's
//! counts. The stats tick and the request handlers share this path, so the
//! summary and the rows never disagree.

use std::collections::HashSet;
use vstd::prelude::*;
use crate::config::{Config, join, join_path};
use crate::media::spec_is_media;
use crate::metadata::{TorrentMetadata, FileMetadata, files_wf, file_keys, file_entry, file_choice};
use crate::protocol::{FileEntry, FileState};
use crate::state::{EngineState, FileProgress, spec_file_is_selected, file_is_selected, spec_per_file_state,
    per_file_state, spec_active, active_indices};
use crate::text::{replace_char, replace_char_vec, chars_of, string_of};

verus! {

broadcast use vstd::std_specs::hash::group_hash_axioms;

/// One file as the engine lists it: its length and its relative path.
#[derive(Debug, Clone)]
pub struct EngineFile {
    pub len: u64,
    pub path: String,
}

/// What the engine reports of a torrent: its name, its files (`None` while
/// its metadata is unavailable), its selection (`None`: every file) and the
/// bytes held of each file.
#[derive(Debug, Clone)]
pub struct EngineView {
    pub name: Option<String>,
    pub files: Option<Vec<EngineFile>>,
    pub only_files: Option<Vec<usize>>,
    pub file_progress: Vec<u64>,
}

/// A path as clients see it: `/` for every separator.
pub open spec fn wire_path(p: Seq<char>) -> Seq<char> {
    replace_char(p, '\\', '/')
}

pub fn path_to_string(p: &str) -> (r: String)
    ensures
        r@ == wire_path(p@),
{
    string_of(replace_char_vec(chars_of(p).as_slice(), '\\', '/').as_slice())
}

/// The engine's file list, empty while unavailable.
pub open spec fn engine_files(v: EngineView) -> Seq<EngineFile> {
    match v.files {
        Some(f) => f@,
        None => Seq::empty(),
    }
}

pub open spec fn only_view(o: Option<Vec<usize>>) -> Option<Seq<usize>> {
    match o {
        Some(v) => Some(v@),
        None => None,
    }
}

/// Indices of `files[0..n]` whose path names a media file.
pub open spec fn detected_media(files: Seq<EngineFile>, exts: Seq<Seq<char>>, n: int) -> Seq<u32>
    decreases n,
{
    if n <= 0 {
        Seq::empty()
    } else {
        let rest = detected_media(files, exts, n - 1);
        if spec_is_media(wire_path(files[n - 1].path@), exts) {
            rest.push((n - 1) as u32)
        } else {
            rest
        }
    }
}

/// The media files of a torrent: those its record lists, or, without a
/// record, those whose extension is a media extension.
pub open spec fn media_of_view(files: Seq<EngineFile>, meta: Option<TorrentMetadata>, exts: Seq<Seq<char>>) -> Seq<u32> {
    match meta {
        Some(m) => file_keys(m.files@),
        None => detected_media(files, exts, files.len() as int),
    }
}

/// Bytes held of file `i` (none when the engine reports nothing for it).
pub open spec fn held(progress: Seq<u64>, i: u32) -> u64 {
    if (i as int) < progress.len() {
        progress[i as int]
    } else {
        0
    }
}

/// `r` is the progress row of media file `idx`.
pub open spec fn progress_row(r: FileProgress, v: EngineView, idx: u32) -> bool {
    let files = engine_files(v);
    &&& r.index == idx
    &&& r.path@ == wire_path(files[idx as int].path@)
    &&& r.selected == spec_file_is_selected(only_view(v.only_files), idx as usize)
    &&& r.downloaded == held(v.file_progress@, idx)
    &&& r.size == files[idx as int].len
}

/// The rows of the media files the engine knows of, in media order.
pub open spec fn progress_rows(r: Seq<FileProgress>, v: EngineView, meta: Option<TorrentMetadata>, exts: Seq<Seq<char>>) -> bool {
    let files = engine_files(v);
    let known = media_of_view(files, meta, exts).filter(|i: u32| (i as int) < files.len());
    &&& v.files is Some ==> r.len() == known.len() && forall|k: int| 0 <= k < r.len() ==> progress_row(#[trigger] r[k], v, known[k])
    &&& v.files is None ==> r.len() == 0
}

/// The media files of a torrent as raw progress rows, the input to both
/// rendering and the stats tick's activity tracking.
pub fn media_file_progress(view: &EngineView, meta: Option<&TorrentMetadata>, config: &Config) -> (r: Vec<FileProgress>)
    ensures
        progress_rows(
            r@,
            *view,
            match meta {
                Some(m) => Some(*m),
                None => None,
            },
            crate::text::string_views(config.media.extensions@),
        ),
{
    let files = match &view.files {
        Some(f) => f,
        None => {
            return Vec::new();
        },
    };
    let ghost exts = crate::text::string_views(config.media.extensions@);
    let ghost metav = match meta {
        Some(m) => Some(*m),
        None => None::<TorrentMetadata>,
    };
    let media: Vec<u32> = match meta {
        Some(m) => crate::metadata::media_indices(Some(m)),
        None => {
            let mut out: Vec<u32> = Vec::new();
            let mut i: usize = 0;
            while i < files.len()
                invariant
                    i <= files@.len(),
                    exts == crate::text::string_views(config.media.extensions@),
                    out@ == detected_media(files@, exts, i as int),
                decreases files@.len() - i,
            {
                let name = path_to_string(files[i].path.as_str());
                if crate::media::is_media(name.as_str(), config.media.extensions.as_slice()) {
                    out.push(i as u32);
                }
                i += 1;
            }
            out
        },
    };
    assert(media@ == media_of_view(files@, metav, exts));
    let ghost pred = |i: u32| (i as int) < files@.len();
    let mut rows: Vec<FileProgress> = Vec::new();
    let mut k: usize = 0;
    while k < media.len()
        invariant
            k <= media@.len(),
            view.files == Some(*files),
            pred == (|i: u32| (i as int) < files@.len()),
            rows@.len() == media@.subrange(0, k as int).filter(pred).len(),
            forall|j: int| 0 <= j < rows@.len() ==> progress_row(#[trigger] rows@[j], *view, media@.subrange(0, k as int).filter(pred)[j]),
        decreases media@.len() - k,
    {
        let idx = media[k];
        proof {
            reveal(Seq::filter);
            assert(media@.subrange(0, k + 1).drop_last() =~= media@.subrange(0, k as int));
        }
        if (idx as usize) < files.len() {
            let f = &files[idx as usize];
            let downloaded: u64 = if (idx as usize) < view.file_progress.len() {
                view.file_progress[idx as usize]
            } else {
                0
            };
            let row = FileProgress {
                index: idx,
                path: path_to_string(f.path.as_str()),
                selected: file_is_selected(&view.only_files, idx as usize),
                downloaded,
                size: f.len,
            };
            rows.push(row);
            proof {
                let sub = media@.subrange(0, k + 1).filter(pred);
                assert(sub == media@.subrange(0, k as int).filter(pred).push(idx));
                assert forall|j: int| 0 <= j < rows@.len() implies progress_row(#[trigger] rows@[j], *view, sub[j]) by {
                    if j < rows@.len() - 1 {
                        assert(sub[j] == media@.subrange(0, k as int).filter(pred)[j]);
                    }
                }
            }
        }
        k += 1;
    }
    assert(media@.subrange(0, media@.len() as int) =~= media@);
    rows
}

/// The wire row of a media file: the record's choices (or the configured
/// defaults for a file without one), and its state.
pub open spec fn entry_row(e: FileEntry, f: FileProgress, meta: Option<TorrentMetadata>, config: Config, torrent_state: EngineState, active: Set<u32>) -> bool {
    let fm = match meta {
        Some(m) => file_entry(m.files@, f.index),
        None => None,
    };
    &&& e.index == f.index
    &&& e.path@ == f.path@
    &&& e.size == f.size
    &&& e.downloaded_bytes == f.downloaded
    &&& e.selected == f.selected
    &&& e.persisted == match fm {
        Some(c) => c.persisted,
        None => config.downloads.persist_by_default,
    }
    &&& e.shared == match fm {
        Some(c) => c.shared,
        None => config.downloads.share_by_default,
    }
    &&& e.state == spec_per_file_state(
        torrent_state,
        f.selected,
        f.downloaded,
        f.size,
        match fm {
            Some(c) => c.paused,
            None => false,
        },
        active.contains(f.index),
    )
}

/// Wire rows for the media files. `recently_active` is the set counted as
/// downloading (`None`: a cold render, where only the head counts).
pub fn render_file_entries(
    torrent_state: EngineState,
    files: &[FileProgress],
    meta: Option<&TorrentMetadata>,
    config: &Config,
    recently_active: Option<&HashSet<u32>>,
) -> (r: Vec<FileEntry>)
    requires
        meta matches Some(m) ==> files_wf(m.files@),
    ensures
        r@.len() == files@.len(),
        forall|k: int|
            0 <= k < r@.len() ==> entry_row(
                #[trigger] r@[k],
                files@[k],
                match meta {
                    Some(m) => Some(*m),
                    None => None,
                },
                *config,
                torrent_state,
                spec_active(
                    files@,
                    match recently_active {
                        Some(s) => Some(s@),
                        None => None,
                    },
                ),
            ),
{
    let active = active_indices(files, recently_active);
    let ghost metav = match meta {
        Some(m) => Some(*m),
        None => None::<TorrentMetadata>,
    };
    let mut out: Vec<FileEntry> = Vec::new();
    let mut k: usize = 0;
    while k < files.len()
        invariant
            k <= files@.len(),
            out@.len() == k,
            meta matches Some(m) ==> files_wf(m.files@),
            metav == match meta {
                Some(m) => Some(*m),
                None => None::<TorrentMetadata>,
            },
            forall|j: int| 0 <= j < k ==> entry_row(#[trigger] out@[j], files@[j], metav, *config, torrent_state, active@),
        decreases files@.len() - k,
    {
        let f = &files[k];
        let fm: Option<FileMetadata> = match meta {
            Some(m) => file_choice(m.files.as_slice(), f.index),
            None => None,
        };
        let (persisted, shared, paused) = match fm {
            Some(c) => (c.persisted, c.shared, c.paused),
            None => (config.downloads.persist_by_default, config.downloads.share_by_default, false),
        };
        let state = per_file_state(torrent_state, f.selected, f.downloaded, f.size, paused, active.contains(&f.index));
        out.push(FileEntry {
            index: f.index,
            path: f.path.clone(),
            size: f.size,
            downloaded_bytes: f.downloaded,
            selected: f.selected,
            state,
            persisted,
            shared,
        });
        k += 1;
    }
    out
}

/// Where a torrent's files sit under the downloads directory: a torrent of
/// two or more files in a folder named after it, any other at the top.
pub open spec fn spec_local_root(v: EngineView, download_dir: Seq<char>) -> Seq<char> {
    match v.name {
        Some(n) => if engine_files(v).len() >= 2 && n@.len() > 0 {
            join_path(download_dir, n@)
        } else {
            download_dir
        },
        None => download_dir,
    }
}

pub fn torrent_local_root(view: &EngineView, download_dir: &str) -> (r: String)
    ensures
        r@ == spec_local_root(*view, download_dir@),
{
    let multi = match &view.files {
        Some(f) => f.len() >= 2,
        None => false,
    };
    if multi {
        if let Some(n) = &view.name {
            if !n.as_str().is_empty() {
                return join(download_dir, n.as_str());
            }
        }
    }
    string_of(chars_of(download_dir).as_slice())
}

/// The on-disk path of file `i`, when the engine lists it.
pub fn file_local_path(view: &EngineView, file_index: usize, download_dir: &str) -> (r: Option<String>)
    ensures
        r matches Some(p) ==> file_index < engine_files(*view).len() && p@ == join_path(
            spec_local_root(*view, download_dir@),
            engine_files(*view)[file_index as int].path@,
        ),
        r is None <==> file_index >= engine_files(*view).len(),
{
    let root = torrent_local_root(view, download_dir);
    match &view.files {
        Some(f) => {
            if file_index < f.len() {
                Some(join(root.as_str(), f[file_index].path.as_str()))
            } else {
                None
            }
        },
        None => None,
    }
}

/// The totals a torrent summary carries over its media rows.
#[derive(Debug, Clone, Copy, PartialEq, Eq, Structural)]
pub struct SummaryCounts {
    pub total_bytes_all: u64,
    pub total_bytes_selected: u64,
    pub downloaded_bytes: u64,
    pub file_count: u32,
    pub complete_count: u32,
    pub selected_count: u32,
    pub persisted_count: u32,
    pub shared_count: u32,
}

/// Sum of the sizes of the rows (only the selected ones when `only_selected`).
pub open spec fn sum_sizes(files: Seq<FileEntry>, only_selected: bool) -> nat
    decreases files.len(),
{
    if files.len() == 0 {
        0
    } else {
        let f = files.last();
        sum_sizes(files.drop_last(), only_selected) + if !only_selected || f.selected {
            f.size as nat
        } else {
            0
        }
    }
}

/// Sum of the bytes held of the selected rows.
pub open spec fn sum_selected_held(files: Seq<FileEntry>) -> nat
    decreases files.len(),
{
    if files.len() == 0 {
        0
    } else {
        let f = files.last();
        sum_selected_held(files.drop_last()) + if f.selected {
            f.downloaded_bytes as nat
        } else {
            0
        }
    }
}

/// How many rows satisfy `p`.
pub open spec fn count_rows(files: Seq<FileEntry>, p: spec_fn(FileEntry) -> bool) -> nat {
    files.filter(p).len()
}

proof fn lemma_sum_prefix(files: Seq<FileEntry>, i: int, only_selected: bool)
    requires
        0 <= i <= files.len(),
    ensures
        sum_sizes(files.subrange(0, i), only_selected) <= sum_sizes(files, only_selected),
        sum_selected_held(files.subrange(0, i)) <= sum_selected_held(files),
    decreases files.len() - i,
{
    if i < files.len() {
        lemma_sum_prefix(files, i + 1, only_selected);
        assert(files.subrange(0, i + 1).drop_last() =~= files.subrange(0, i));
    } else {
        assert(files.subrange(0, i) =~= files);
    }
}

/// The summary totals of a torrent's media rows. Byte totals must fit in
/// `u64`; counts are taken modulo 2^32, as `as u32` does.
pub fn summary_counts(files: &[FileEntry]) -> (r: SummaryCounts)
    requires
        sum_sizes(files@, false) <= u64::MAX,
        sum_selected_held(files@) <= u64::MAX,
    ensures
        r.total_bytes_all == sum_sizes(files@, false),
        r.total_bytes_selected == sum_sizes(files@, true),
        r.downloaded_bytes == sum_selected_held(files@),
        r.file_count == files@.len() as u32,
        r.complete_count == count_rows(files@, |f: FileEntry| f.state == FileState::Complete) as u32,
        r.selected_count == count_rows(files@, |f: FileEntry| f.selected) as u32,
        r.persisted_count == count_rows(files@, |f: FileEntry| f.persisted) as u32,
        r.shared_count == count_rows(files@, |f: FileEntry| f.shared) as u32,
{
    let ghost pc = |f: FileEntry| f.state == FileState::Complete;
    let ghost ps = |f: FileEntry| f.selected;
    let ghost pp = |f: FileEntry| f.persisted;
    let ghost ph = |f: FileEntry| f.shared;
    let mut all: u64 = 0;
    let mut sel: u64 = 0;
    let mut held: u64 = 0;
    let mut complete: usize = 0;
    let mut selected: usize = 0;
    let mut persisted: usize = 0;
    let mut shared: usize = 0;
    let mut i: usize = 0;
    proof {
        lemma_sum_prefix(files@, 0, true);
    }
    while i < files.len()
        invariant
            i <= files@.len(),
            sum_sizes(files@, false) <= u64::MAX,
            sum_selected_held(files@) <= u64::MAX,
            pc == (|f: FileEntry| f.state == FileState::Complete),
            ps == (|f: FileEntry| f.selected),
            pp == (|f: FileEntry| f.persisted),
            ph == (|f: FileEntry| f.shared),
            all == sum_sizes(files@.subrange(0, i as int), false),
            sel == sum_sizes(files@.subrange(0, i as int), true),
            held == sum_selected_held(files@.subrange(0, i as int)),
            complete == files@.subrange(0, i as int).filter(pc).len(),
            selected == files@.subrange(0, i as int).filter(ps).len(),
            persisted == files@.subrange(0, i as int).filter(pp).len(),
            shared == files@.subrange(0, i as int).filter(ph).len(),
            complete <= i && selected <= i && persisted <= i && shared <= i,
        decreases files@.len() - i,
    {
        let f = &files[i];
        proof {
            reveal(Seq::filter);
            let sub = files@.subrange(0, i + 1);
            assert(sub.drop_last() =~= files@.subrange(0, i as int));
            assert(sub.last() == files@[i as int]);
            lemma_sum_prefix(files@, i + 1, false);
            lemma_sum_prefix(files@, i + 1, true);
            lemma_sum_true_le_false(sub);
        }
        all = all + f.size;
        if f.selected {
            sel = sel + f.size;
            held = held + f.downloaded_bytes;
            selected += 1;
        }
        if let FileState::Complete = f.state {
            complete += 1;
        }
        if f.persisted {
            persisted += 1;
        }
        if f.shared {
            shared += 1;
        }
        i += 1;
    }
    assert(files@.subrange(0, files@.len() as int) =~= files@);
    SummaryCounts {
        total_bytes_all: all,
        total_bytes_selected: sel,
        downloaded_bytes: held,
        file_count: files.len() as u32,
        complete_count: complete as u32,
        selected_count: selected as u32,
        persisted_count: persisted as u32,
        shared_count: shared as u32,
    }
}

proof fn lemma_sum_true_le_false(files: Seq<FileEntry>)
    ensures
        sum_sizes(files, true) <= sum_sizes(files, false),
    decreases files.len(),
{
    if files.len() > 0 {
        lemma_sum_true_le_false(files.drop_last());
    }
}

} // verus!
