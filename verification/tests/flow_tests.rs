use std::collections::{HashMap, HashSet};

use magneto::removal::{deletion, removal_start, Deletion, Files, RemovalStart};
use magneto::sources::{check_torrent_read, torrent_payload, TorrentReadRefusal, MAX_TORRENT_BYTES};
use magneto::stats::{activity_window, file_deltas, FileHistory, FileRow};
use magneto::supervisor::{ensure_step, restart_port, stale_step, stop_target, Discovery, EnsureStep, StaleStep};
use magneto::bootstrap::{
    candidate_configs, configs_equal, generate_token, hex_encode, last_good_path, set_config_probes, start_probes,
    Probe,
};
use magneto::config::{Config, Platform};
use magneto::events::{
    daemon_info, handle_event, teardown_plan, Farewell, LoopAction, LoopEvent, LoopState, TeardownPlan,
};
use magneto::lifecycle::{metadata_watch, Finalize, MetadataWatch, Pending, ShutdownKind};
use magneto::state::EngineState;
use magneto::metadata::{FileMetadata, TorrentMetadata};
use magneto::play::{
    build_play_items, check_player, folder_rel, hybrid_uri, play_command, resolve_local_path, stream_url,
    PlayRefusal, ResolveError,
};
use magneto::protocol::{FallbackReason, FileState, PathKind, PlayItem, RemovalReason, SourceKind, Target};
use magneto::render::{EngineFile, EngineView};
use magneto::requests::{
    add_resp_checking, add_resp_managed, add_step, check_drop, classify_files, route, unknown_command, Command, encode_source, fallback_plan, prepare_add, reconcile_plan,
    resume_outcome, set_flag, AddRefusal, AddSource, AddStep, FileFlag,
};

fn config() -> Config {
    Config::defaults("/dl".into(), Platform::Linux)
}

fn view() -> EngineView {
    EngineView {
        name: Some("Show".into()),
        files: Some(vec![
            EngineFile { len: 100, path: "Show/S01/e1.mkv".into() },
            EngineFile { len: 50, path: "Show/e2 final.mkv".into() },
            EngineFile { len: 10, path: "Show/subs/e1.srt".into() },
        ]),
        only_files: None,
        file_progress: vec![100, 20, 0],
    }
}

#[test]
fn loop_registers_and_forgets_clients() {
    let mut s = LoopState::new();
    assert_eq!(handle_event(&mut s, LoopEvent::ClientConnected { id: 7 }), LoopAction::Greet { id: 7 });
    assert_eq!(handle_event(&mut s, LoopEvent::ClientConnected { id: 7 }), LoopAction::Greet { id: 7 });
    handle_event(&mut s, LoopEvent::ClientConnected { id: 9 });
    assert_eq!(s.clients, vec![7, 9]);
    assert_eq!(handle_event(&mut s, LoopEvent::ClientDisconnected { id: 7 }), LoopAction::Nothing);
    assert_eq!(s.clients, vec![9]);
    assert_eq!(s.shutdown, None);
}

#[test]
fn loop_routes_messages_and_ticks() {
    let mut s = LoopState::new();
    assert_eq!(handle_event(&mut s, LoopEvent::ClientMessage { id: 1, parsed: true }), LoopAction::Dispatch { id: 1 });
    assert_eq!(
        handle_event(&mut s, LoopEvent::ClientMessage { id: 1, parsed: false }),
        LoopAction::ReplyMalformed { id: 1 }
    );
    assert_eq!(handle_event(&mut s, LoopEvent::StatsReady { empty: true }), LoopAction::Nothing);
    assert_eq!(handle_event(&mut s, LoopEvent::StatsReady { empty: false }), LoopAction::BroadcastStats);
    assert_eq!(
        handle_event(&mut s, LoopEvent::TorrentErrored { info_hash: "ab".into(), finalized: false }),
        LoopAction::Nothing
    );
    assert_eq!(
        handle_event(&mut s, LoopEvent::TorrentErrored { info_hash: "ab".into(), finalized: true }),
        LoopAction::Recover { info_hash: "ab".into() }
    );
    assert_eq!(handle_event(&mut s, LoopEvent::AddCompleted { client: 4 }), LoopAction::FinishAdd { client: 4 });
}

#[test]
fn check_decisions_only_grow_more_deliberate() {
    let mut s = LoopState::new();
    assert!(s.register_check("ab".into(), Finalize::Boot, true));
    assert!(!s.register_check("ab".into(), Finalize::Restore, false));
    assert_eq!(s.check_of(&"ab".into()), Some(Pending { from: Finalize::Boot, repause: true }));
    assert!(!s.register_check("ab".into(), Finalize::Add, false));
    assert_eq!(
        handle_event(&mut s, LoopEvent::CheckFinished { info_hash: "ab".into() }),
        LoopAction::FinalizeChecked {
            info_hash: "ab".into(),
            pending: Pending { from: Finalize::Add, repause: false }
        }
    );
    assert_eq!(handle_event(&mut s, LoopEvent::CheckFinished { info_hash: "ab".into() }), LoopAction::Nothing);
    assert!(s.checks.is_empty());
}

#[test]
fn shutdown_requests_end_the_loop() {
    let mut s = LoopState::new();
    handle_event(&mut s, LoopEvent::RestartRequested);
    assert_eq!(s.shutdown, Some(ShutdownKind::Restart));
    let mut t = LoopState::new();
    handle_event(&mut t, LoopEvent::ShutdownRequested);
    assert_eq!(t.shutdown, Some(ShutdownKind::Stop));
    assert_eq!(
        teardown_plan(ShutdownKind::Stop),
        TeardownPlan { farewell: Farewell::ShuttingDown, cleanup: true, remove_descriptor: true }
    );
    assert_eq!(
        teardown_plan(ShutdownKind::Restart),
        TeardownPlan { farewell: Farewell::Restarting, cleanup: false, remove_descriptor: false }
    );
}

#[test]
fn snapshot_reports_pending_restart_fields() {
    let started = config();
    let mut saved = config();
    saved.network.lan_port = 5000;
    let info = daemon_info("1.2.3".into(), &started, &saved, true);
    assert_eq!(info.status, "ready");
    assert_eq!(info.control_port, 61481);
    assert_eq!(info.pending_restart, vec!["network.lan_port".to_string()]);
}

#[test]
fn loopback_stream_url_encodes_the_name() {
    assert_eq!(
        stream_url("abcd", 3, "My Movie (1).mkv", 61481),
        "http://127.0.0.1:61481/stream/abcd/3/My%20Movie%20%281%29.mkv"
    );
}

#[test]
fn hybrid_uri_prefers_a_complete_local_file() {
    assert_eq!(hybrid_uri(0, 100, 100, "a.mkv", "h", 1, Some("/dl/a.mkv".into())), "/dl/a.mkv");
    assert_eq!(hybrid_uri(0, 100, 99, "a.mkv", "h", 1, Some("/dl/a.mkv".into())), "http://127.0.0.1:1/stream/h/0/a.mkv");
    assert_eq!(hybrid_uri(0, 100, 100, "a.mkv", "h", 1, None), "http://127.0.0.1:1/stream/h/0/a.mkv");
}

#[test]
fn play_items_follow_the_media_order() {
    let items = build_play_items(&view(), &[1, 0, 9], "h", 5, "/dl", &[true, true, false]);
    assert_eq!(
        items,
        vec![
            PlayItem { name: "e2 final.mkv".into(), uri: "http://127.0.0.1:5/stream/h/1/e2%20final.mkv".into() },
            PlayItem { name: "e1.mkv".into(), uri: "/dl/Show/Show/S01/e1.mkv".into() },
        ]
    );
}

#[test]
fn play_needs_a_player_and_something_to_play() {
    let mut c = config();
    assert_eq!(check_player(&c.player), Err(PlayRefusal::NotConfigured));
    assert_eq!(PlayRefusal::NotConfigured.message(), "player command is not configured");
    c.player.command = "mpv".into();
    c.player.args = vec!["--fs".into()];
    assert_eq!(play_command(&c.player, &vec![]), Err(PlayRefusal::NothingPlayable));
    assert_eq!(PlayRefusal::NothingPlayable.message(), "no playable files in targets");
    let items = vec![PlayItem { name: "a".into(), uri: "u1".into() }, PlayItem { name: "b".into(), uri: "u2".into() }];
    assert_eq!(play_command(&c.player, &items), Ok(("mpv".to_string(), vec!["--fs".into(), "u1".into(), "u2".into()])));
}

#[test]
fn folder_paths_stay_inside_the_torrent() {
    assert_eq!(folder_rel("/Show/S01/"), Some("Show/S01".to_string()));
    assert_eq!(folder_rel("Show\\S01"), Some("Show/S01".to_string()));
    assert_eq!(folder_rel("a/../b"), None);
    assert_eq!(folder_rel(".."), None);
    assert_eq!(folder_rel("\\abs"), None);
    assert_eq!(folder_rel("a/..b"), Some("a/..b".to_string()));
    assert_eq!(folder_rel("//"), Some(String::new()));
}

#[test]
fn local_paths_of_targets() {
    let v = view();
    let torrent = Target::Torrent { info_hash: "h".into() };
    assert_eq!(resolve_local_path(&torrent, Some(&v), "/dl"), Ok(("/dl/Show".to_string(), PathKind::Folder)));
    let folder = Target::Folder { info_hash: "h".into(), path: "/S01/".into() };
    assert_eq!(resolve_local_path(&folder, Some(&v), "/dl"), Ok(("/dl/Show/S01".to_string(), PathKind::Folder)));
    let root = Target::Folder { info_hash: "h".into(), path: "/".into() };
    assert_eq!(resolve_local_path(&root, Some(&v), "/dl"), Ok(("/dl/Show".to_string(), PathKind::Folder)));
    let file = Target::File { info_hash: "h".into(), file_index: 1 };
    assert_eq!(
        resolve_local_path(&file, Some(&v), "/dl"),
        Ok(("/dl/Show/Show/e2 final.mkv".to_string(), PathKind::File))
    );
    let bad = Target::Folder { info_hash: "h".into(), path: "../x".into() };
    let err = resolve_local_path(&bad, Some(&v), "/dl").unwrap_err();
    assert_eq!(err, ResolveError::NotRelative);
    assert_eq!(err.message(), "path must be relative without parent components");
    let missing = Target::File { info_hash: "h".into(), file_index: 7 };
    assert_eq!(resolve_local_path(&missing, Some(&v), "/dl"), Err(ResolveError::Unresolved));
    let gone = resolve_local_path(&torrent, None, "/dl").unwrap_err();
    assert_eq!(gone.message(), "no torrent with info_hash h");
}

#[test]
fn token_is_lowercase_hex_of_random_bytes() {
    assert_eq!(hex_encode(&[0x00, 0x0f, 0xa5, 0xff]), "000fa5ff");
    let t = generate_token();
    assert_eq!(t.len(), 64);
    assert!(t.chars().all(|c| c.is_ascii_digit() || ('a'..='f').contains(&c)));
    assert_ne!(generate_token(), t);
}

#[test]
fn candidates_skip_a_last_good_equal_to_the_desired() {
    let desired = config();
    assert!(configs_equal(&desired, &config()));
    assert_eq!(candidate_configs(config(), Some(config())).len(), 1);
    let mut older = config();
    older.network.control_port = 7000;
    assert!(!configs_equal(&desired, &older));
    let c = candidate_configs(config(), Some(older));
    assert_eq!(c.len(), 2);
    assert_eq!(c[1].network.control_port, 7000);
    assert_eq!(candidate_configs(config(), None).len(), 1);
    assert_eq!(last_good_path("/data"), "/data/config.last-good.toml");
}

#[test]
fn probes_check_only_fields_moving_away_from_both_saved_and_running() {
    let running = config();
    assert_eq!(start_probes(&running), vec![Probe::ControlPort(61481), Probe::DownloadsDir("/dl".into())]);
    let saved = config();
    let mut merged = config();
    assert!(set_config_probes(&merged, &saved, &running).is_empty());
    merged.network.control_port = 7000;
    merged.network.lan_port = 7001;
    merged.downloads.dir = "/elsewhere".into();
    assert_eq!(
        set_config_probes(&merged, &saved, &running),
        vec![Probe::ControlPort(7000), Probe::LanPort(7001), Probe::DownloadsDir("/elsewhere".into())]
    );
    merged.network.upnp_enabled = false;
    let mut running_there = config();
    running_there.downloads.dir = "/elsewhere".into();
    assert_eq!(set_config_probes(&merged, &saved, &running_there), vec![Probe::ControlPort(7000)]);
}

#[test]
fn add_sources_are_trimmed_and_read() {
    assert_eq!(
        prepare_add("  magnet:?xt=urn:btih:ab  "),
        Ok(AddSource::Link { source: "magnet:?xt=urn:btih:ab".into(), kind: SourceKind::Magnet })
    );
    assert_eq!(
        prepare_add("HTTPS://x/t.torrent"),
        Ok(AddSource::Link { source: "HTTPS://x/t.torrent".into(), kind: SourceKind::Url })
    );
    assert_eq!(
        prepare_add(" aGVsbG8= "),
        Ok(AddSource::File { source: "aGVsbG8=".into(), bytes: b"hello".to_vec() })
    );
    assert!(matches!(prepare_add("not base64!"), Err(AddRefusal::InvalidBase64(_))));
    assert_eq!(encode_source("magnet:?xt=urn:btih:ab", b"ignored"), "magnet:?xt=urn:btih:ab");
    assert_eq!(encode_source("/tmp/a.torrent", b"hello"), "aGVsbG8=");
}

#[test]
fn files_sort_into_media_and_subtitles() {
    let paths = vec!["a/b.MKV".to_string(), "a/b.srt".into(), "notes.txt".into(), "c.mp4".into(), "d.ass".into()];
    let exts = vec!["mkv".to_string(), "mp4".into()];
    assert_eq!(classify_files(&paths, &exts), (vec![0, 3], vec![1, 4]));
}

#[test]
fn flags_change_only_named_files_and_count_hits() {
    let mut e = TorrentMetadata {
        source: "s".into(),
        source_kind: SourceKind::Magnet,
        added_at: "t".into(),
        files: vec![
            (0, FileMetadata { persisted: false, shared: false, paused: false }),
            (2, FileMetadata { persisted: false, shared: false, paused: true }),
        ],
        finalized: true,
    };
    assert_eq!(set_flag(&mut e, &[2, 5, 2], FileFlag::Persisted, true), 2);
    assert_eq!(e.files[0].1, FileMetadata { persisted: false, shared: false, paused: false });
    assert_eq!(e.files[1].1, FileMetadata { persisted: true, shared: false, paused: true });
    assert_eq!(set_flag(&mut e, &[0], FileFlag::Shared, true), 1);
    assert!(e.files[0].1.shared);
}

#[test]
fn resume_drop_and_fallback_answers() {
    assert_eq!(resume_outcome(0, 1), Err("torrent is still checking files; try again shortly".to_string()));
    assert_eq!(resume_outcome(0, 0), Ok(0));
    assert_eq!(resume_outcome(3, 1), Ok(3));
    let rest = check_drop(vec![Target::File { info_hash: "h".into(), file_index: 1 }]).unwrap();
    assert_eq!(rest.len(), 1);
    assert!(check_drop(vec![Target::Torrent { info_hash: "h".into() }]).is_err());
    let p = fallback_plan(false, Some(FallbackReason::SpawnFailed));
    assert!(p.announce_failure && !p.remove && !p.resp.removed);
    assert_eq!(p.resp.reason, Some(FallbackReason::SpawnFailed));
    let q = fallback_plan(true, None);
    assert!(q.remove && q.resp.launched && q.resp.removed && !q.announce_failure);
    assert_eq!(add_step(true, true), AddStep::AnswerExisting);
    assert_eq!(add_step(false, true), AddStep::AwaitCheck);
    assert_eq!(add_step(false, false), AddStep::Finalize);
}

#[test]
fn reconcile_purges_lost_records_and_finalizes_or_watches_the_rest() {
    let session = vec!["a".to_string(), "b".into(), "c".into()];
    let records = vec![("a".to_string(), true), ("b".into(), false), ("z".into(), true)];
    let plan = reconcile_plan(&session, &records, &[true, true, false]);
    assert_eq!(plan.purge, vec!["z".to_string()]);
    assert_eq!(plan.finalize, vec!["b".to_string()]);
    assert_eq!(plan.watch, vec!["c".to_string()]);
}

fn history(
    sent: &[(u32, u64)],
    seen: &[(u32, u64)],
    state: &[(u32, FileState)],
    ticks: &[(u32, u32)],
) -> FileHistory {
    FileHistory {
        sent: sent.iter().copied().collect(),
        seen: seen.iter().copied().collect(),
        state: state.iter().copied().collect(),
        ticks_since_gain: ticks.iter().copied().collect(),
    }
}

#[test]
fn activity_window_lights_steady_gainers_and_keeps_lit_files_in_grace() {
    let h = history(&[], &[(1, 100), (2, 50)], &[(2, FileState::Downloading)], &[(1, 0), (2, 2)]);
    let (lit, ticks) = activity_window(&[(1, 150), (2, 50), (3, 10)], &h, Some(9));
    assert_eq!(lit, HashSet::from([1, 2]));
    assert_eq!(ticks, HashMap::from([(1, 0), (2, 3), (3, 0)]));
    let fresh = history(&[], &[], &[], &[]);
    let (lit, ticks) = activity_window(&[(1, 150)], &fresh, Some(4));
    assert_eq!(lit, HashSet::from([4]));
    assert_eq!(ticks, HashMap::from([(1, 0)]));
    let (lit, _) = activity_window(&[(1, 150)], &fresh, None);
    assert!(lit.is_empty());
}

#[test]
fn file_deltas_patch_moved_or_changed_files_only() {
    let h = history(
        &[(1, 100), (2, 50), (4, 5)],
        &[],
        &[(2, FileState::Downloading), (4, FileState::Queued)],
        &[],
    );
    let rows = [
        FileRow { index: 1, downloaded: 150, state: FileState::Downloading, threshold: 10 },
        FileRow { index: 2, downloaded: 50, state: FileState::Queued, threshold: 10 },
        FileRow { index: 3, downloaded: 10, state: FileState::Queued, threshold: 100 },
        FileRow { index: 4, downloaded: 6, state: FileState::Queued, threshold: 10 },
    ];
    let (out, next) = file_deltas("hh", &rows, &h, HashMap::from([(1, 0)]));
    let got: Vec<(u32, u64, FileState)> = out.iter().map(|d| (d.file_index, d.downloaded_bytes, d.state)).collect();
    assert_eq!(
        got,
        vec![(1, 150, FileState::Downloading), (2, 50, FileState::Queued), (3, 10, FileState::Queued)]
    );
    assert!(out.iter().all(|d| d.info_hash == "hh"));
    assert_eq!(next.sent, HashMap::from([(1, 150), (2, 50), (3, 10), (4, 5)]));
    assert_eq!(next.seen, HashMap::from([(1, 150), (2, 50), (3, 10), (4, 6)]));
    assert_eq!(next.ticks_since_gain, HashMap::from([(1, 0)]));
}

#[test]
fn dropped_files_are_fenced_before_reading() {
    assert_eq!(check_torrent_read("/tmp/a.TORRENT", 10), Ok(()));
    assert_eq!(check_torrent_read("/tmp/a.mkv", 10), Err(TorrentReadRefusal::NotTorrent));
    assert_eq!(check_torrent_read("/tmp/a.torrent", MAX_TORRENT_BYTES + 1), Err(TorrentReadRefusal::TooLarge));
    assert_eq!(check_torrent_read("/tmp/a.torrent", MAX_TORRENT_BYTES), Ok(()));
    assert_eq!(torrent_payload(b"d4:infoe"), Ok("ZDQ6aW5mb2U=".to_string()));
    assert_eq!(torrent_payload(b"xyz"), Err(TorrentReadRefusal::NotBencode));
    assert_eq!(torrent_payload(b""), Err(TorrentReadRefusal::NotBencode));
    assert_eq!(TorrentReadRefusal::TooLarge.message(), "torrent file too large");
}

#[test]
fn removal_goes_ahead_only_for_held_torrents() {
    assert_eq!(removal_start(true, RemovalReason::User, "ab"), RemovalStart::Proceed);
    assert_eq!(
        removal_start(false, RemovalReason::User, "ab"),
        RemovalStart::Refuse("no torrent with info_hash ab".into())
    );
    assert_eq!(removal_start(false, RemovalReason::NoMedia, "ab"), RemovalStart::KeepRecord);
    assert_eq!(deletion(Files::All), Deletion { engine_deletes_files: true, reclaim_managed: false });
    assert_eq!(deletion(Files::Managed), Deletion { engine_deletes_files: false, reclaim_managed: true });
    assert_eq!(deletion(Files::Keep), Deletion { engine_deletes_files: false, reclaim_managed: false });
}

#[test]
fn supervisor_steps() {
    assert_eq!(ensure_step(Discovery::Running { port: 9 }), EnsureStep::Use { port: 9 });
    assert_eq!(ensure_step(Discovery::Stale), EnsureStep::WatchStale);
    assert_eq!(ensure_step(Discovery::NotRunning), EnsureStep::Spawn);
    assert_eq!(stale_step(true, Discovery::Running { port: 9 }, true), StaleStep::Wedged);
    assert_eq!(stale_step(false, Discovery::Running { port: 9 }, true), StaleStep::Emerged { port: 9 });
    assert_eq!(stale_step(false, Discovery::Stale, false), StaleStep::Clear);
    assert_eq!(stale_step(false, Discovery::Stale, true), StaleStep::KeepWatching);
    assert_eq!(restart_port(5, true, Discovery::NotRunning), Some(5));
    assert_eq!(restart_port(5, false, Discovery::Running { port: 6 }), Some(6));
    assert_eq!(restart_port(5, false, Discovery::Stale), None);
    assert_eq!(stop_target(Discovery::Running { port: 6 }), Some(6));
    assert_eq!(stop_target(Discovery::Stale), None);
}

#[test]
fn control_socket_admits_only_the_exact_token() {
    assert!(magneto::control::authorized(Some("abc123"), "abc123"));
    assert!(!magneto::control::authorized(Some("abc124"), "abc123"));
    assert!(!magneto::control::authorized(None, "abc123"));
    assert!(magneto::control::authorized(None, ""));
    assert!(!magneto::control::authorized(Some("abc1234"), "abc123"));
}

#[test]
fn metadata_watch_waits_resolves_or_gives_up() {
    assert_eq!(
        metadata_watch(true, Some(EngineState::Live), true),
        MetadataWatch::Failed("metadata not resolved within 120s".into())
    );
    assert_eq!(
        metadata_watch(false, Some(EngineState::Error), false),
        MetadataWatch::Failed("torrent entered error state".into())
    );
    assert_eq!(metadata_watch(false, None, true), MetadataWatch::Wait);
    assert_eq!(metadata_watch(false, Some(EngineState::Initializing), true), MetadataWatch::Wait);
    assert_eq!(metadata_watch(false, Some(EngineState::Live), false), MetadataWatch::Wait);
    assert_eq!(metadata_watch(false, Some(EngineState::Paused), true), MetadataWatch::Resolved);
}

#[test]
fn requests_route_by_type() {
    assert_eq!(route("ping"), Some(Command::Ping));
    assert_eq!(route("resolve_local_path"), Some(Command::ResolveLocalPath));
    assert_eq!(route("shutdown"), Some(Command::Shutdown));
    assert_eq!(route("Ping"), None);
    assert_eq!(route(""), None);
    assert_eq!(unknown_command("nope"), "unknown command: nope");
}

#[test]
fn add_answers() {
    let r = add_resp_checking("h".into(), Some("n".into()), true);
    assert_eq!(r.state, Some(magneto::protocol::TorrentState::Initializing));
    assert!(r.already_existed && r.files.is_none() && r.media.is_none() && !r.fallback_launched);
    let m = add_resp_managed("h".into(), None, magneto::protocol::TorrentState::Paused, vec![]);
    assert_eq!(m.media, Some(true));
    assert!(m.already_existed);
    assert_eq!(m.files.map(|f| f.len()), Some(0));
}

#[test]
fn directories_compare_as_paths() {
    let desired = config();
    let mut slashed = config();
    slashed.downloads.dir = "/dl/".into();
    assert!(configs_equal(&desired, &slashed));
    assert_eq!(candidate_configs(config(), Some(slashed.clone())).len(), 1);
    let saved = config();
    let running = config();
    assert!(set_config_probes(&slashed, &saved, &running).is_empty());
}
