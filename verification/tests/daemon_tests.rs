use std::collections::{HashMap, HashSet};

use magneto::lifecycle::{deliberateness, register_check, short, Finalize, Pending};
use magneto::metadata::{
    disposable, file_choice, media_indices, set_paused_flag, torrent_file_path, torrents_dir, FileMetadata,
    TorrentMetadata,
};
use magneto::protocol::{FileState, SourceKind, Target, TorrentState};
use magneto::render::{
    file_local_path, media_file_progress, path_to_string, render_file_entries, summary_counts, torrent_local_root,
    EngineFile, EngineView,
};
use magneto::state::EngineState;
use magneto::stats::{
    changed, completed_now, errored_now, file_activity, file_delta_due, pick, progress_due, summary_delta, tick_activity,
    torrent_tick, FileRow, SentMemory, SummaryFields,
};
use magneto::store::{claims_nothing, hash_matches, is_hex_info_hash, metainfo_sync, session_dir, MetainfoSync};
use magneto::supervisor::{
    confirm_identity, control_url, descriptor_path, discovery, wedged_pid, Discovery, KillRefusal,
    RuntimeDescriptor,
};
use magneto::targets::{group_targets, resume_groups, split_targets, TorrentFiles};
use magneto::config::{Config, Platform};

fn fm(persisted: bool, shared: bool, paused: bool) -> FileMetadata {
    FileMetadata { persisted, shared, paused }
}

fn entry(finalized: bool, files: &[(u32, bool)]) -> TorrentMetadata {
    TorrentMetadata {
        source: "magnet:?xt=urn:btih:aa".into(),
        source_kind: SourceKind::Magnet,
        added_at: "2024-01-01T00:00:00+00:00".into(),
        files: files.iter().map(|(idx, persisted)| (*idx, fm(*persisted, false, false))).collect(),
        finalized,
    }
}

#[test]
fn only_a_finished_record_with_nothing_kept_is_disposable() {
    assert!(disposable(&entry(true, &[(0, false), (1, false)])));
    assert!(!disposable(&entry(true, &[(0, true), (1, false)])));
    assert!(!disposable(&entry(false, &[])));
    assert!(!disposable(&entry(false, &[(0, false)])));
    assert!(!disposable(&entry(true, &[])));
}

#[test]
fn pause_flags_touch_only_listed_files() {
    let mut e = entry(true, &[(0, false), (2, true), (5, false)]);
    set_paused_flag(&mut e, &[2, 9], true);
    assert_eq!(e.files, vec![(0, fm(false, false, false)), (2, fm(true, false, true)), (5, fm(false, false, false))]);
    assert_eq!(media_indices(Some(&e)), vec![0, 2, 5]);
    assert_eq!(media_indices(None), Vec::<u32>::new());
    assert_eq!(file_choice(&e.files, 2), Some(fm(true, false, true)));
    assert_eq!(file_choice(&e.files, 3), None);
}

#[test]
fn saved_torrents_live_under_the_data_dir() {
    assert_eq!(torrents_dir("/data"), "/data/torrents");
    assert_eq!(torrent_file_path("/data", "abcd"), "/data/torrents/abcd.torrent");
    assert_eq!(session_dir("/data/"), "/data/session");
    assert_eq!(descriptor_path("/data"), "/data/daemon.json");
}

fn catalog() -> Vec<TorrentFiles> {
    vec![
        TorrentFiles {
            info_hash: "bbbb".into(),
            media: vec![0, 1, 3],
            loaded: true,
            paths: vec!["Show/S1/a.mkv".into(), "Show\\S1\\b.mkv".into(), "Show/x.srt".into(), "Show/S2/c.mkv".into()],
            sizes: vec![10, 10, 1, 10],
            progress: vec![10, 0, 0, 0],
            only_files: Some(vec![0, 1]),
        },
        TorrentFiles {
            info_hash: "aaaa".into(),
            media: vec![0],
            loaded: false,
            paths: vec![],
            sizes: vec![],
            progress: vec![],
            only_files: None,
        },
        TorrentFiles {
            info_hash: "cccc".into(),
            media: vec![],
            loaded: true,
            paths: vec!["x".into()],
            sizes: vec![1],
            progress: vec![0],
            only_files: None,
        },
    ]
}

#[test]
fn targets_group_by_hash_in_order() {
    let targets = vec![
        Target::Folder { info_hash: "bbbb".into(), path: "/Show/S1/".into() },
        Target::Torrent { info_hash: "aaaa".into() },
        Target::File { info_hash: "bbbb".into(), file_index: 3 },
        Target::File { info_hash: "bbbb".into(), file_index: 2 },
        Target::Torrent { info_hash: "cccc".into() },
    ];
    let g = group_targets(&catalog(), &targets).unwrap();
    assert_eq!(g, vec![("aaaa".to_string(), vec![0]), ("bbbb".to_string(), vec![0, 1, 3])]);
}

#[test]
fn targets_naming_nothing_are_an_error() {
    let targets = vec![Target::Folder { info_hash: "bbbb".into(), path: "Nope".into() }];
    assert_eq!(group_targets(&catalog(), &targets), Err("targets do not resolve to any media file".to_string()));
    assert_eq!(group_targets(&catalog(), &[]), Ok(vec![]));
}

#[test]
fn resume_continues_what_was_wanted() {
    let (hashes, rest) = split_targets(vec![
        Target::Torrent { info_hash: "bbbb".into() },
        Target::File { info_hash: "bbbb".into(), file_index: 3 },
    ]);
    assert_eq!(hashes, vec!["bbbb".to_string()]);
    assert_eq!(rest, vec![Target::File { info_hash: "bbbb".into(), file_index: 3 }]);
    let g = resume_groups(&catalog(), vec![
        Target::Torrent { info_hash: "bbbb".into() },
        Target::File { info_hash: "bbbb".into(), file_index: 3 },
    ])
    .unwrap();
    assert_eq!(g, vec![("bbbb".to_string(), vec![0, 1, 3])]);
    let mut done = catalog();
    done[0].progress = vec![10, 10, 0, 0];
    let g = resume_groups(&done, vec![Target::Torrent { info_hash: "bbbb".into() }]).unwrap();
    assert_eq!(g, vec![("bbbb".to_string(), vec![0, 1, 3])]);
    assert!(resume_groups(&catalog(), vec![Target::Torrent { info_hash: "aaaa".into() }]).is_err());
    assert_eq!(resume_groups(&catalog(), vec![]), Ok(vec![]));
}

fn view() -> EngineView {
    EngineView {
        name: Some("Show".into()),
        files: Some(vec![
            EngineFile { len: 100, path: "Show\\a.mkv".into() },
            EngineFile { len: 5, path: "Show/a.srt".into() },
            EngineFile { len: 50, path: "Show/b.MP4".into() },
        ]),
        only_files: Some(vec![0]),
        file_progress: vec![100, 0],
    }
}

#[test]
fn rows_come_from_the_record_or_the_extensions() {
    let config = Config::defaults("/dl".into(), Platform::Linux);
    let rows = media_file_progress(&view(), None, &config);
    assert_eq!(rows.len(), 2);
    assert_eq!((rows[0].index, rows[0].path.as_str(), rows[0].selected, rows[0].downloaded, rows[0].size), (0, "Show/a.mkv", true, 100, 100));
    assert_eq!((rows[1].index, rows[1].path.as_str(), rows[1].selected, rows[1].downloaded, rows[1].size), (2, "Show/b.MP4", false, 0, 50));
    let meta = entry(true, &[(2, true), (7, false)]);
    let rows = media_file_progress(&view(), Some(&meta), &config);
    assert_eq!(rows.len(), 1);
    assert_eq!(rows[0].index, 2);
    let entries = render_file_entries(EngineState::Live, &rows, Some(&meta), &config, None);
    assert_eq!(entries.len(), 1);
    assert!(entries[0].persisted);
    assert_eq!(entries[0].state, FileState::Idle);
    let counts = summary_counts(&entries);
    assert_eq!((counts.total_bytes_all, counts.total_bytes_selected, counts.file_count, counts.persisted_count), (50, 0, 1, 1));
    assert_eq!(path_to_string("a\\b"), "a/b");
    assert_eq!(torrent_local_root(&view(), "/dl"), "/dl/Show");
    assert_eq!(file_local_path(&view(), 2, "/dl"), Some("/dl/Show/Show/b.MP4".to_string()));
    assert_eq!(file_local_path(&view(), 3, "/dl"), None);
}

#[test]
fn files_light_up_after_two_gaining_ticks() {
    let first = file_activity(10, Some(0), None, false);
    assert_eq!((first.ticks_since_gain, first.lit), (0, false));
    let second = file_activity(20, Some(10), Some(0), false);
    assert!(second.lit);
    let idle = file_activity(20, Some(20), Some(0), true);
    assert_eq!((idle.ticks_since_gain, idle.lit), (1, true));
    let gone = file_activity(20, Some(20), Some(3), true);
    assert_eq!((gone.ticks_since_gain, gone.lit), (4, false));
    assert_eq!(file_activity(0, None, Some(u32::MAX), false).ticks_since_gain, u32::MAX);
}

#[test]
fn announcements_and_deltas() {
    assert!(completed_now(TorrentState::Complete, Some(TorrentState::Downloading)));
    assert!(!completed_now(TorrentState::Complete, None));
    assert!(errored_now(TorrentState::Error, None));
    assert!(!errored_now(TorrentState::Error, Some(TorrentState::Error)));
    assert!(file_delta_due(10, Some(5), 100, FileState::Downloading, Some(FileState::Downloading)));
    assert!(!file_delta_due(10, Some(5), 100, FileState::Queued, Some(FileState::Queued)));
    assert!(file_delta_due(10, Some(10), 100, FileState::Complete, Some(FileState::Queued)));
    assert!(progress_due(true, 0, None, 1, TorrentState::Idle, false));
    assert!(!progress_due(false, 5, Some(4), 10, TorrentState::Idle, false));
    assert!(progress_due(false, 5, Some(4), 10, TorrentState::Idle, true));
    assert_eq!(pick(false, 3, Some(1)), 1);
    assert_eq!(pick(true, 3, Some(1)), 3);
    assert!(changed(Some(&1), &2));
    assert!(!changed(Some(&2), &2));
    assert!(changed(None, &2));
}

#[test]
fn checks_keep_the_most_deliberate_intent() {
    assert!(deliberateness(Finalize::Add) > deliberateness(Finalize::Boot));
    let (p, spawn) = register_check(None, Finalize::Boot, true);
    assert!(spawn);
    let (q, spawn) = register_check(Some(p), Finalize::Add, false);
    assert!(!spawn);
    assert_eq!(q, Pending { from: Finalize::Add, repause: false });
    let (r, _) = register_check(Some(q), Finalize::Restore, true);
    assert_eq!(r, q);
    assert_eq!(short("abcdef0123456789"), "abcdef01");
    assert_eq!(short("abc"), "abc");
    assert_eq!(short("abcdefgé"), "abcdefgé");
}

#[test]
fn session_rows_and_bitfields() {
    assert!(is_hex_info_hash("aabbccddeeff00112233445566778899AABBCCDD"));
    assert!(!is_hex_info_hash("nothex"));
    assert!(claims_nothing(&[0, 0]));
    assert!(!claims_nothing(&[]));
    assert!(!claims_nothing(&[0, 1]));
    assert_eq!(metainfo_sync(true, true), MetainfoSync::Keep);
    assert_eq!(metainfo_sync(true, false), MetainfoSync::RestoreOwn);
    assert_eq!(metainfo_sync(false, true), MetainfoSync::RestoreSession);
    assert_eq!(metainfo_sync(false, false), MetainfoSync::Drop);
    assert!(hash_matches("ABCD", "abcd"));
}

#[test]
fn discovery_and_the_kill_guard() {
    assert_eq!(discovery(None, false), Discovery::NotRunning);
    assert_eq!(discovery(Some(5), true), Discovery::Running { port: 5 });
    assert_eq!(discovery(Some(5), false), Discovery::Stale);
    let d = RuntimeDescriptor { control_port: 61481, control_token: None, pid: None };
    assert_eq!(wedged_pid(&d), Err(KillRefusal::NoPid { port: 61481 }));
    let d = RuntimeDescriptor { control_port: 61481, control_token: Some("t".into()), pid: Some(42) };
    assert_eq!(wedged_pid(&d), Ok(42));
    assert_eq!(confirm_identity(42, "magneto-daemon\n"), Ok(42));
    assert_eq!(confirm_identity(42, "bash\n"), Err(KillRefusal::NotTheDaemon { pid: 42 }));
    assert_eq!(control_url(61481, Some("tok")), "ws://127.0.0.1:61481/ws?token=tok");
    assert_eq!(control_url(1, None), "ws://127.0.0.1:1/ws");
    let _ = HashSet::<u32>::new();
}

fn summary(downloaded: u64, state: TorrentState) -> SummaryFields {
    SummaryFields {
        info_hash: "ab".repeat(20),
        name: Some("Film".to_string()),
        source: Some("magnet:?xt=urn:btih:x".to_string()),
        source_kind: Some(SourceKind::Magnet),
        state,
        error: None,
        total_bytes_all: 10_000,
        total_bytes_selected: 10_000,
        downloaded_bytes: downloaded,
        file_count: 2,
        complete_count: 0,
        selected_count: 2,
        persisted_count: 0,
        shared_count: 0,
        is_paused: false,
        added_at: "2024-01-01T00:00:00Z".to_string(),
    }
}

#[test]
fn summary_patch_for_an_unseen_torrent_carries_every_field() {
    let next = summary(100, TorrentState::Idle);
    let (patch, kept) = summary_delta(None, &next, 50);
    assert_eq!(patch.info_hash, next.info_hash);
    assert_eq!(patch.name, Some(Some("Film".to_string())));
    assert_eq!(patch.source_kind, Some(Some(SourceKind::Magnet)));
    assert_eq!(patch.state, Some(TorrentState::Idle));
    assert_eq!(patch.error, Some(None));
    assert_eq!(patch.downloaded_bytes, Some(100));
    assert_eq!(patch.file_count, Some(2));
    assert_eq!(patch.is_paused, Some(false));
    assert_eq!(patch.added_at, Some("2024-01-01T00:00:00Z".to_string()));
    assert_eq!(kept.downloaded_bytes, 100);
}

#[test]
fn summary_patch_sends_only_what_changed_and_holds_back_small_progress() {
    let sent = summary(100, TorrentState::Idle);
    let mut next = summary(120, TorrentState::Idle);
    next.complete_count = 1;
    next.error = Some("tracker down".to_string());
    let (patch, kept) = summary_delta(Some(&sent), &next, 50);
    assert_eq!(patch.name, None);
    assert_eq!(patch.source, None);
    assert_eq!(patch.source_kind, None);
    assert_eq!(patch.state, None);
    assert_eq!(patch.error, Some(Some("tracker down".to_string())));
    assert_eq!(patch.complete_count, Some(1));
    assert_eq!(patch.file_count, None);
    assert_eq!(patch.added_at, None);
    // 20 bytes moved, under the threshold of 50, while idle: held back.
    assert_eq!(patch.downloaded_bytes, None);
    assert_eq!(kept.downloaded_bytes, 100);
    assert_eq!(kept.complete_count, 1);

    // The same movement while downloading goes out at once.
    let next = summary(120, TorrentState::Downloading);
    let (patch, kept) = summary_delta(Some(&summary(100, TorrentState::Downloading)), &next, 50);
    assert_eq!(patch.state, None);
    assert_eq!(patch.downloaded_bytes, Some(120));
    assert_eq!(kept.downloaded_bytes, 120);
}

#[test]
fn first_tick_of_a_torrent_announces_it_and_remembers_it() {
    let next = summary(0, TorrentState::Downloading);
    let (lit, ticks) = tick_activity(None, &[(0, 0), (1, 0)], true, Some(0));
    // Nothing lit from history yet, but the engine is receiving: the head counts.
    assert_eq!(lit, [0u32].into_iter().collect());
    let rows = [
        FileRow { index: 0, downloaded: 0, state: FileState::Downloading, threshold: 50 },
        FileRow { index: 1, downloaded: 0, state: FileState::Queued, threshold: 50 },
    ];
    let (tick, kept) = torrent_tick(&next.info_hash, None, &next, &rows, ticks, 50);
    assert!(!tick.completed);
    assert!(!tick.errored);
    assert!(tick.patch.is_some());
    assert_eq!(tick.files.len(), 2);
    assert_eq!(kept.files.state.get(&1), Some(&FileState::Queued));

    // The next tick with nothing changed sends nothing.
    let (lit2, ticks2) = tick_activity(Some(&kept), &[(0, 0), (1, 0)], false, Some(0));
    assert!(lit2.is_empty());
    let (tick2, _) = torrent_tick(&next.info_hash, Some(&kept), &next, &rows, ticks2, 50);
    assert!(tick2.patch.is_none());
    assert!(tick2.files.is_empty());

    // Finishing after downloading is announced.
    let done = summary(10_000, TorrentState::Complete);
    let (tick3, _) = torrent_tick(&next.info_hash, Some(&kept), &done, &rows, HashMap::new(), 50);
    assert!(tick3.completed);
    assert_eq!(tick3.patch.unwrap().state, Some(TorrentState::Complete));
}

#[test]
fn the_tick_remembers_one_entry_per_torrent_and_forgets_vanished_ones() {
    let mut memory = SentMemory::new();
    let a = summary(1, TorrentState::Idle);
    let (_, sent_a) = torrent_tick("aa", None, &a, &[], HashMap::new(), 50);
    memory.record("aa".to_string(), sent_a);
    let (_, sent_b) = torrent_tick("bb", None, &a, &[], HashMap::new(), 50);
    memory.record("bb".to_string(), sent_b);
    let (_, again) = torrent_tick("aa", None, &summary(7, TorrentState::Idle), &[], HashMap::new(), 50);
    memory.record("aa".to_string(), again);
    assert_eq!(memory.entries.len(), 2);
    assert_eq!(memory.get("aa").unwrap().summary.downloaded_bytes, 7);
    memory.retain_alive(&["bb".to_string()]);
    assert_eq!(memory.entries.len(), 1);
    assert!(memory.get("aa").is_none());
    assert!(memory.get("bb").is_some());
}
