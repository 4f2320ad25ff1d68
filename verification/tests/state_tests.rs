use std::collections::HashSet;

use magneto::protocol::{FileEntry, FileState, TorrentState};
use magneto::stats::{file_activity, ACTIVE_GRACE_TICKS};
use magneto::state::{
    active_indices, aggregate_torrent_state, compute_deselect, current_selection, file_is_selected,
    per_file_state, resume_selection, EngineState, FileProgress,
};

fn file(state: FileState) -> FileEntry {
    file_sel(state, true)
}

fn file_sel(state: FileState, selected: bool) -> FileEntry {
    FileEntry {
        index: 0,
        path: "f".into(),
        size: 100,
        downloaded_bytes: 0,
        selected,
        state,
        persisted: false,
        shared: false,
    }
}

#[test]
fn per_file_state_zero_byte_file_is_complete() {
    assert_eq!(per_file_state(EngineState::Live, true, 0, 0, false, false), FileState::Complete);
}

#[test]
fn per_file_state_error_for_incomplete_file() {
    assert_eq!(per_file_state(EngineState::Error, true, 50, 100, false, false), FileState::Error);
    assert_eq!(per_file_state(EngineState::Error, false, 50, 100, false, false), FileState::Error);
}

#[test]
fn per_file_state_complete_wins_over_error() {
    assert_eq!(per_file_state(EngineState::Error, true, 100, 100, false, false), FileState::Complete);
    assert_eq!(per_file_state(EngineState::Error, false, 100, 100, false, false), FileState::Complete);
}

#[test]
fn per_file_state_not_selected_is_idle_or_paused() {
    assert_eq!(per_file_state(EngineState::Live, false, 50, 100, false, false), FileState::Idle);
    assert_eq!(per_file_state(EngineState::Live, false, 50, 100, true, false), FileState::Paused);
}

#[test]
fn per_file_state_complete_wins_over_paused() {
    assert_eq!(per_file_state(EngineState::Paused, true, 100, 100, false, false), FileState::Complete);
}

#[test]
fn per_file_state_selected_paused_incomplete() {
    assert_eq!(per_file_state(EngineState::Paused, true, 50, 100, false, false), FileState::Paused);
}

#[test]
fn per_file_state_active_downloads_inactive_queues() {
    assert_eq!(per_file_state(EngineState::Live, true, 50, 100, false, true), FileState::Downloading);
    assert_eq!(per_file_state(EngineState::Live, true, 50, 100, false, false), FileState::Queued);
}

#[test]
fn per_file_state_initializing_selected_is_queued() {
    assert_eq!(per_file_state(EngineState::Initializing, true, 0, 100, false, true), FileState::Queued);
}

fn fp(index: u32, path: &str, selected: bool, downloaded: u64, size: u64) -> FileProgress {
    FileProgress { index, path: path.to_string(), selected, downloaded, size }
}

#[test]
fn active_indices_head_only_without_history() {
    let files = vec![fp(0, "a.mkv", true, 10, 100), fp(1, "b.mkv", true, 0, 100)];
    assert_eq!(active_indices(&files, None), HashSet::from([0]));
}

#[test]
fn active_indices_orders_paths_by_components_not_strings() {
    let files = vec![fp(0, "Show - Extras/a.mkv", true, 0, 100), fp(1, "Show/b.mkv", true, 0, 100)];
    assert_eq!(active_indices(&files, None), HashSet::from([1]));
}

#[test]
fn active_indices_adds_recently_active_out_of_order_file() {
    let files = vec![fp(0, "a.mkv", true, 10, 100), fp(1, "b.mkv", true, 20, 100)];
    let recent = HashSet::from([1]);
    assert_eq!(active_indices(&files, Some(&recent)), HashSet::from([0, 1]));
}

#[test]
fn active_indices_ignores_complete_and_unselected() {
    let files = vec![fp(0, "a.mkv", true, 100, 100), fp(1, "b.mkv", false, 0, 100), fp(2, "c.mkv", true, 0, 100)];
    let recent = HashSet::from([0, 1]);
    assert_eq!(active_indices(&files, Some(&recent)), HashSet::from([2]));
}

#[test]
fn aggregate_empty_is_idle() {
    assert_eq!(aggregate_torrent_state(EngineState::Live, &[]), TorrentState::Idle);
}

#[test]
fn aggregate_all_complete() {
    let files = [file(FileState::Complete), file(FileState::Complete)];
    assert_eq!(aggregate_torrent_state(EngineState::Live, &files), TorrentState::Complete);
}

#[test]
fn aggregate_selection_complete_with_unselected_remainder() {
    let files = [file_sel(FileState::Complete, true), file_sel(FileState::Idle, false)];
    assert_eq!(aggregate_torrent_state(EngineState::Live, &files), TorrentState::Complete);
}

#[test]
fn aggregate_all_complete_even_when_unselected() {
    let files = [file_sel(FileState::Complete, false), file_sel(FileState::Complete, false)];
    assert_eq!(aggregate_torrent_state(EngineState::Live, &files), TorrentState::Complete);
}

#[test]
fn aggregate_empty_selection_with_incomplete_files_is_idle() {
    let files = [file_sel(FileState::Idle, false), file_sel(FileState::Idle, false)];
    assert_eq!(aggregate_torrent_state(EngineState::Live, &files), TorrentState::Idle);
}

#[test]
fn aggregate_selection_partially_complete_is_downloading() {
    let files = [file_sel(FileState::Complete, true), file_sel(FileState::Downloading, true)];
    assert_eq!(aggregate_torrent_state(EngineState::Live, &files), TorrentState::Downloading);
}

#[test]
fn aggregate_mixed_downloading_paused_is_downloading() {
    let files = [file(FileState::Downloading), file(FileState::Paused)];
    assert_eq!(aggregate_torrent_state(EngineState::Live, &files), TorrentState::Downloading);
}

#[test]
fn aggregate_only_paused_is_paused() {
    let files = [file(FileState::Paused), file(FileState::Idle)];
    assert_eq!(aggregate_torrent_state(EngineState::Paused, &files), TorrentState::Paused);
}

#[test]
fn aggregate_initializing_short_circuits() {
    let files = [file(FileState::Complete)];
    assert_eq!(aggregate_torrent_state(EngineState::Initializing, &files), TorrentState::Initializing);
}

#[test]
fn deselect_removes_target_keeps_other_media_and_subs() {
    let current: HashSet<usize> = [0, 1, 2].into_iter().collect();
    let (next, freed) = compute_deselect(&[0, 1], &[2], &current, &[0]);
    let expected: HashSet<usize> = [1, 2].into_iter().collect();
    assert_eq!(next, expected);
    assert_eq!(freed, vec![0]);
}

#[test]
fn deselect_last_media_drops_subtitles_too() {
    let current: HashSet<usize> = [0, 1].into_iter().collect();
    let (next, freed) = compute_deselect(&[0], &[1], &current, &[0]);
    assert!(next.is_empty());
    assert_eq!(freed, vec![0, 1]);
}

#[test]
fn deselect_of_unselected_index_leaves_selection_unchanged() {
    let current: HashSet<usize> = [0].into_iter().collect();
    let no_subs: [u32; 0] = [];
    let (next, freed) = compute_deselect(&[0, 1], &no_subs, &current, &[1]);
    let expected: HashSet<usize> = [0].into_iter().collect();
    assert_eq!(next, expected);
    assert_eq!(freed, vec![1]);
}

#[test]
fn file_selection_none_means_every_file() {
    assert!(file_is_selected(&None, 7));
    assert!(file_is_selected(&Some(vec![1, 3]), 3));
    assert!(!file_is_selected(&Some(vec![1, 3]), 2));
}

#[test]
fn current_selection_expands_none_to_every_file() {
    assert_eq!(current_selection(&None, 3), HashSet::from([0, 1, 2]));
    assert_eq!(current_selection(&Some(vec![2, 2, 5]), 9), HashSet::from([2, 5]));
}

#[test]
fn resume_on_live_torrent_adds_targets_and_subtitles() {
    let current: HashSet<usize> = [0].into_iter().collect();
    let (next, flagged) = resume_selection(&[0, 1], &[4], &current, &[1], false);
    assert_eq!(next, HashSet::from([0, 1, 4]));
    assert!(flagged.is_empty());
}

#[test]
fn resume_on_paused_torrent_pauses_the_other_selected_media() {
    let current: HashSet<usize> = [0, 2].into_iter().collect();
    let (next, flagged) = resume_selection(&[0, 1, 2], &[4], &current, &[1], true);
    assert_eq!(next, HashSet::from([1, 4]));
    assert_eq!(flagged, vec![0, 2]);
}

#[test]
fn resume_on_paused_torrent_with_nothing_else_selected_keeps_selection() {
    let current: HashSet<usize> = [1].into_iter().collect();
    let (next, flagged) = resume_selection(&[0, 1], &[], &current, &[1], true);
    assert_eq!(next, HashSet::from([1]));
    assert!(flagged.is_empty());
}

#[test]
fn pause_then_resume_on_a_live_torrent_loses_nothing() {
    let media = [0u32, 1, 2];
    let subs = [3u32];
    let current: HashSet<usize> = HashSet::from([0, 1, 3, 7]);
    let (paused, _) = compute_deselect(&media, &subs, &current, &[1]);
    let (back, repaused) = resume_selection(&media, &subs, &paused, &[1], false);
    assert_eq!(back, HashSet::from([0, 1, 3, 7]));
    assert!(repaused.is_empty());
    let (all_paused, _) = compute_deselect(&media, &subs, &current, &[0, 1]);
    assert_eq!(all_paused, HashSet::from([7]));
    let (back, _) = resume_selection(&media, &subs, &all_paused, &[0, 1], false);
    assert_eq!(back, HashSet::from([0, 1, 3, 7]));
}

#[test]
fn a_file_lights_after_two_gains_and_dims_after_the_grace_window() {
    let first = file_activity(10, None, None, false);
    assert!(!first.lit);
    let second = file_activity(20, Some(10), Some(first.ticks_since_gain), false);
    assert!(second.lit);
    let mut ticks = second.ticks_since_gain;
    let mut lit_ticks = 0;
    loop {
        let a = file_activity(20, Some(20), Some(ticks), true);
        ticks = a.ticks_since_gain;
        if !a.lit {
            break;
        }
        lit_ticks += 1;
    }
    assert_eq!(lit_ticks + 1, ACTIVE_GRACE_TICKS);
}
