use std::collections::HashSet;

use magneto::config::{Config, Platform};
use magneto::metadata::{FileMetadata, TorrentMetadata};
use magneto::policy::{
    cleanup_plan, entry_healthy, fallback_command, finalize_selection, insert_file, is_player_configured,
    managed_indices, player_command, retain_files, should_autoplay, write_media_indices, CleanupPlan,
};
use magneto::protocol::{FallbackReason, SourceKind};
use magneto::stream::{
    full_response, partial_response, retry_response, servable_step, stream_reply, streamable, text_response,
    unsatisfiable_response, ReplyBody, ServeWait, Unservable,
};

fn fm(persisted: bool, shared: bool, paused: bool) -> FileMetadata {
    FileMetadata { persisted, shared, paused }
}

fn entry(files: Vec<(u32, FileMetadata)>) -> TorrentMetadata {
    TorrentMetadata {
        source: "magnet:?xt=urn:btih:aa".into(),
        source_kind: SourceKind::Magnet,
        added_at: "2024-01-01T00:00:00Z".into(),
        files,
        finalized: true,
    }
}

fn headers(pairs: &[(&str, &str)]) -> Vec<(String, String)> {
    pairs.iter().map(|(a, b)| (a.to_string(), b.to_string())).collect()
}

#[test]
fn insert_file_keeps_index_order_and_replaces() {
    let mut files = vec![(1, fm(false, false, false)), (5, fm(false, false, false))];
    insert_file(&mut files, 3, fm(true, false, false));
    insert_file(&mut files, 5, fm(true, true, true));
    insert_file(&mut files, 0, fm(false, true, false));
    assert_eq!(
        files,
        vec![
            (0, fm(false, true, false)),
            (1, fm(false, false, false)),
            (3, fm(true, false, false)),
            (5, fm(true, true, true)),
        ]
    );
}

#[test]
fn media_indices_keep_existing_choices_and_default_new_ones() {
    let old = vec![(2, fm(true, true, false)), (9, fm(true, false, true))];
    let defaults = fm(false, true, false);
    let out = write_media_indices(&old, &[4, 2, 7], defaults);
    assert_eq!(out, vec![(2, fm(true, true, false)), (4, defaults), (7, defaults)]);
}

#[test]
fn finalize_selects_media_and_subtitles_only_when_auto_downloading() {
    let on = finalize_selection(&[1, 3], &[2], true);
    assert_eq!(on, HashSet::from([1usize, 2, 3]));
    let off = finalize_selection(&[1, 3], &[2], false);
    assert!(off.is_empty());
}

#[test]
fn player_needs_a_non_blank_command() {
    let mut config = Config::defaults("/dl".into(), Platform::Linux);
    config.player.command = "   ".into();
    assert!(!is_player_configured(&config.player));
    config.downloads.autoplay = true;
    assert!(!should_autoplay(&config));
    assert_eq!(player_command(&config.player, &vec!["http://x/1".into()]), None);

    config.player.command = "mpv".into();
    config.player.args = vec!["--fs".into()];
    assert!(should_autoplay(&config));
    config.downloads.autoplay = false;
    assert!(!should_autoplay(&config));
    assert_eq!(
        player_command(&config.player, &vec!["http://x/1".into(), "http://x/2".into()]),
        Some(("mpv".to_string(), vec!["--fs".to_string(), "http://x/1".into(), "http://x/2".into()]))
    );
}

#[test]
fn fallback_appends_the_source_to_its_args() {
    let mut config = Config::defaults("/dl".into(), Platform::Linux);
    config.downloads.fallback_app = "qbittorrent".into();
    config.downloads.fallback_args = vec!["--skip-dialog".into()];
    assert_eq!(
        fallback_command(&config, "magnet:?xt=urn:btih:ab"),
        Ok(("qbittorrent".to_string(), vec!["--skip-dialog".to_string(), "magnet:?xt=urn:btih:ab".into()]))
    );
    config.downloads.fallback_app = " ".into();
    assert_eq!(fallback_command(&config, "x"), Err(FallbackReason::NotConfigured));
}

#[test]
fn cleanup_drops_a_torrent_with_nothing_persisted() {
    let e = entry(vec![(0, fm(false, false, false)), (1, fm(false, true, false))]);
    assert!(matches!(cleanup_plan(&e, &[2]), CleanupPlan::DropTorrent));
}

#[test]
fn cleanup_keeps_persisted_files_and_subtitles() {
    let e = entry(vec![(0, fm(true, false, false)), (1, fm(false, false, false)), (4, fm(true, false, false))]);
    match cleanup_plan(&e, &[2]) {
        CleanupPlan::Trim { keep, dropped, persisted } => {
            assert_eq!(keep, HashSet::from([0usize, 2, 4]));
            assert_eq!(dropped, vec![1]);
            assert_eq!(persisted, vec![0, 4]);
        }
        CleanupPlan::DropTorrent => panic!("expected a trim"),
    }
}

#[test]
fn retain_keeps_only_listed_files() {
    let files = vec![(0, fm(true, false, false)), (1, fm(false, false, false)), (4, fm(true, true, false))];
    assert_eq!(retain_files(&files, &[4, 0]), vec![(0, fm(true, false, false)), (4, fm(true, true, false))]);
}

#[test]
fn entry_health_needs_files() {
    assert!(!entry_healthy(None));
    assert!(!entry_healthy(Some(&entry(vec![]))));
    assert!(entry_healthy(Some(&entry(vec![(0, fm(true, false, false))]))));
}

#[test]
fn managed_files_cover_media_selected_subtitles_and_empty_files() {
    let selected: HashSet<usize> = HashSet::from([3usize, 1]);
    let empty = [false, false, false, false, false, true];
    assert_eq!(managed_indices(&[1, 0], &[3, 4], &selected, &empty), vec![0, 1, 3, 5]);
}

#[test]
fn streamable_requires_a_tracked_and_maybe_shared_file() {
    let e = entry(vec![(0, fm(true, false, false)), (2, fm(true, true, false))]);
    assert_eq!(streamable(None, 0, false), None);
    assert_eq!(streamable(Some(&e), 0, false), Some(0));
    assert_eq!(streamable(Some(&e), 0, true), None);
    assert_eq!(streamable(Some(&e), 2, true), Some(2));
    assert_eq!(streamable(Some(&e), 1, false), None);
    assert_eq!(streamable(Some(&e), 1usize << 33, false), None);
}

#[test]
fn whole_file_reply() {
    let r = full_response(1234, "video/mp4");
    assert_eq!(r.status, 200);
    assert_eq!(
        r.headers,
        headers(&[("content-type", "video/mp4"), ("content-length", "1234"), ("accept-ranges", "bytes")])
    );
    assert_eq!(r.body, ReplyBody::Whole);
}

#[test]
fn partial_reply() {
    let r = partial_response(100, 199, 1000, "video/x-matroska");
    assert_eq!(r.status, 206);
    assert_eq!(
        r.headers,
        headers(&[
            ("content-type", "video/x-matroska"),
            ("content-length", "100"),
            ("content-range", "bytes 100-199/1000"),
            ("accept-ranges", "bytes"),
        ])
    );
    assert_eq!(r.body, ReplyBody::Range { start: 100, len: 100 });
}

#[test]
fn unsatisfiable_reply() {
    let r = unsatisfiable_response(1000, "video/mp4");
    assert_eq!(r.status, 416);
    assert_eq!(r.headers, headers(&[("content-type", "video/mp4"), ("content-range", "bytes */1000")]));
    assert_eq!(r.body, ReplyBody::Empty);
}

#[test]
fn text_and_retry_replies() {
    let t = text_response(404, "file not found".into());
    assert_eq!(t.status, 404);
    assert_eq!(t.headers, headers(&[("content-type", "text/plain; charset=utf-8")]));
    assert_eq!(t.body, ReplyBody::Text("file not found".into()));
    let r = retry_response("checking files".into());
    assert_eq!(r.status, 503);
    assert_eq!(r.headers, headers(&[("content-type", "text/plain; charset=utf-8"), ("retry-after", "5")]));
    assert_eq!(r.body, ReplyBody::Text("checking files".into()));
}

#[test]
fn stream_reply_follows_the_range_header() {
    assert_eq!(stream_reply(None, 1000, "video/mp4").status, 200);
    let p = stream_reply(Some("bytes=-200"), 1000, "video/mp4");
    assert_eq!(p.status, 206);
    assert_eq!(p.body, ReplyBody::Range { start: 800, len: 200 });
    let e = stream_reply(Some("bytes=500-999999"), 1000, "video/mp4");
    assert_eq!(e.body, ReplyBody::Range { start: 500, len: 500 });
    let bad = stream_reply(Some("bytes=2000-3000"), 1000, "video/mp4");
    assert_eq!(bad.status, 416);
    assert_eq!(bad.body, ReplyBody::Empty);
}

#[test]
fn stream_requests_wait_out_file_checks() {
    let gone = servable_step(false, None, false);
    assert!(matches!(gone, ServeWait::Reply(r) if r.status == 404 && r.body == ReplyBody::Text("file not found".into())));
    assert!(matches!(servable_step(true, None, false), ServeWait::Ready));
    let failed = servable_step(true, Some(Unservable::Failed("disk full".into())), false);
    assert!(matches!(failed, ServeWait::Reply(r) if r.status == 409));
    assert!(matches!(servable_step(true, Some(Unservable::Checking("checking".into())), false), ServeWait::Wait));
    let late = servable_step(true, Some(Unservable::Checking("checking".into())), true);
    match late {
        ServeWait::Reply(r) => {
            assert_eq!(r.status, 503);
            assert_eq!(r.headers, headers(&[("content-type", "text/plain; charset=utf-8"), ("retry-after", "5")]));
        }
        other => panic!("expected a reply, got {other:?}"),
    }
}
