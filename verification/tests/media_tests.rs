use magneto::control::constant_time_eq;
use magneto::media::{extension_of, is_media, is_subtitle, mime_for};
use magneto::range::{parse_range, RangeOutcome};

fn exts() -> Vec<String> {
    vec!["mkv".into(), "mp4".into()]
}

#[test]
fn is_media_case_insensitive() {
    assert!(is_media("Movie.MKV", &exts()));
    assert!(is_media("clip.Mp4", &exts()));
}

#[test]
fn is_media_no_extension() {
    assert!(!is_media("README", &exts()));
    assert!(!is_media("", &exts()));
}

#[test]
fn is_media_multi_dot() {
    assert!(is_media("show.s01e01.foo.mkv", &exts()));
    assert!(!is_media("show.mkv.bak", &exts()));
}

#[test]
fn is_subtitle_recognises_common_formats() {
    assert!(is_subtitle("subs.srt"));
    assert!(is_subtitle("subs.ASS"));
    assert!(is_subtitle("subs.vtt"));
    assert!(!is_subtitle("movie.mkv"));
    assert!(!is_subtitle(""));
}

#[test]
fn mime_follows_the_lowercased_extension() {
    assert_eq!(mime_for("a.MKV"), "video/x-matroska");
    assert_eq!(mime_for("a.mp4"), "video/mp4");
    assert_eq!(mime_for("a.unknownext"), "application/octet-stream");
    assert_eq!(extension_of("dir.x/name"), None);
    assert_eq!(extension_of("a.b.Srt"), Some("srt".to_string()));
}

#[test]
fn constant_time_eq_matches_only_identical() {
    assert!(constant_time_eq(b"token", b"token"));
    assert!(constant_time_eq(b"", b""));
    assert!(!constant_time_eq(b"token", b"toker"));
    assert!(!constant_time_eq(b"token", b"token-longer"));
    assert!(!constant_time_eq(b"", b"x"));
}

#[test]
fn parse_range_none_when_header_absent() {
    assert_eq!(parse_range(None, 1000), RangeOutcome::Whole);
}

#[test]
fn parse_range_full_form() {
    assert_eq!(parse_range(Some("bytes=100-200"), 1000), RangeOutcome::Partial { start: 100, end: 200 });
}

#[test]
fn parse_range_open_ended() {
    assert_eq!(parse_range(Some("bytes=100-"), 1000), RangeOutcome::Partial { start: 100, end: 999 });
}

#[test]
fn parse_range_suffix() {
    assert_eq!(parse_range(Some("bytes=-200"), 1000), RangeOutcome::Partial { start: 800, end: 999 });
}

#[test]
fn parse_range_suffix_clamped_to_file_size() {
    assert_eq!(parse_range(Some("bytes=-5000"), 1000), RangeOutcome::Partial { start: 0, end: 999 });
}

#[test]
fn parse_range_multi_range_rejected() {
    assert_eq!(parse_range(Some("bytes=0-100,200-300"), 1000), RangeOutcome::Invalid);
}

#[test]
fn parse_range_beyond_eof_rejected() {
    assert_eq!(parse_range(Some("bytes=1000-"), 1000), RangeOutcome::Invalid);
    assert_eq!(parse_range(Some("bytes=2000-3000"), 1000), RangeOutcome::Invalid);
}

#[test]
fn parse_range_end_beyond_eof_clamps() {
    assert_eq!(parse_range(Some("bytes=0-999999"), 1000), RangeOutcome::Partial { start: 0, end: 999 });
    assert_eq!(parse_range(Some("bytes=500-999999"), 1000), RangeOutcome::Partial { start: 500, end: 999 });
}

#[test]
fn parse_range_empty_file_any_range_invalid() {
    assert_eq!(parse_range(Some("bytes=-100"), 0), RangeOutcome::Invalid);
}

#[test]
fn parse_range_invalid_syntax() {
    assert_eq!(parse_range(Some("foo=0-100"), 1000), RangeOutcome::Invalid);
    assert_eq!(parse_range(Some("bytes=abc-def"), 1000), RangeOutcome::Invalid);
    assert_eq!(parse_range(Some("bytes=-"), 1000), RangeOutcome::Invalid);
}

#[test]
fn parse_range_trims_spaces_and_accepts_plus() {
    assert_eq!(parse_range(Some(" bytes=+1 - 2 "), 10), RangeOutcome::Partial { start: 1, end: 2 });
    assert_eq!(parse_range(Some("bytes=5-4"), 10), RangeOutcome::Invalid);
}

#[test]
fn every_default_extension_streams_as_video_in_any_case() {
    let cfg = magneto::config::Config::defaults("/dl".into(), magneto::config::Platform::Linux);
    for ext in &cfg.media.extensions {
        let lower = mime_for(&format!("x.{ext}"));
        assert!(lower.starts_with("video/"), "{ext}");
        assert_eq!(mime_for(&format!("x.{}", ext.to_ascii_uppercase())), lower);
    }
    for name in ["a.txt", "noext", ".mkv", "a.MKV.part"] {
        let m = mime_for(name);
        assert!(m == "application/octet-stream" || m.starts_with("video/"));
    }
}
