use magneto::sources::{absolutize, is_torrent_file, parse_args, Pending};
use magneto::spawn_env::{sanitize, strip_value, OsText};
use magneto::theme::{is_hex, Palette, Theme, ThemeErrorKind, ThemeValue};

fn vars(list: &[(&str, &str)]) -> Vec<(OsText, OsText)> {
    list.iter().map(|(k, v)| (OsText::Text(k.to_string()), OsText::Text(v.to_string()))).collect()
}

#[test]
fn identity_without_appdir() {
    let input = vars(&[("PATH", "/usr/bin:/bin"), ("HOME", "/home/u")]);
    assert_eq!(sanitize(None, input.clone()), input);
}

#[test]
fn strips_appdir_components_from_path_lists() {
    let out = sanitize(Some("/tmp/.mount_app"), vars(&[("PATH", "/tmp/.mount_app/usr/bin/:/usr/bin:/bin")]));
    assert_eq!(out, vars(&[("PATH", "/usr/bin:/bin")]));
}

#[test]
fn drops_vars_living_entirely_under_appdir() {
    let out = sanitize(
        Some("/tmp/.mount_app"),
        vars(&[
            ("GDK_PIXBUF_MODULE_FILE", "/tmp/.mount_app/usr/lib/loaders.cache"),
            ("LD_LIBRARY_PATH", "/tmp/.mount_app/usr/lib/:/tmp/.mount_app/lib/"),
            ("APPDIR", "/tmp/.mount_app"),
        ]),
    );
    assert_eq!(out, vec![]);
}

#[test]
fn keeps_unrelated_values_untouched() {
    let input = vars(&[("GTK_THEME", "Adwaita:dark"), ("DISPLAY", ":0")]);
    let out = sanitize(Some("/tmp/.mount_app"), input.clone());
    assert_eq!(out, input);
}

#[test]
fn non_text_values_pass_and_empty_parts_go() {
    let raw = vec![(OsText::Text("X".into()), OsText::Raw(vec![0xff, 0x2f]))];
    assert_eq!(sanitize(Some("/a"), raw.clone()), raw);
    assert_eq!(strip_value("/a/x::/b:", "/a"), Some("/b".to_string()));
    assert_eq!(strip_value("/ab", "/a"), None);
}

fn parse(args: &[&str]) -> Vec<String> {
    parse_args(args.iter().map(|s| s.to_string()).collect())
}

#[test]
fn accepts_magnet_uris_case_insensitively() {
    let got = parse(&["MAGNET:?xt=urn:btih:abc", "magnet:?xt=urn:btih:def"]);
    assert_eq!(got, vec!["MAGNET:?xt=urn:btih:abc", "magnet:?xt=urn:btih:def"]);
}

#[test]
fn accepts_torrent_paths_and_drops_other_files() {
    let got = parse(&["/tmp/a.TORRENT", "/tmp/movie.mkv", "/tmp/b.torrent"]);
    assert_eq!(got, vec!["/tmp/a.TORRENT", "/tmp/b.torrent"]);
}

#[test]
fn converts_file_urls_to_paths() {
    let got = parse(&["file:///tmp/space%20name.torrent", "file:///tmp/other.iso"]);
    assert_eq!(got, vec!["/tmp/space name.torrent"]);
}

#[test]
fn drops_flags_junk_and_extensionless_dotfiles() {
    let got = parse(&["--flag", "-v", "not-a-source", "/tmp/movie.mkv", "/tmp/.torrent"]);
    assert!(got.is_empty());
}

#[test]
fn passes_http_sources_through() {
    let got = parse(&["https://example.com/file.torrent"]);
    assert_eq!(got, vec!["https://example.com/file.torrent"]);
}

#[test]
fn absolutize_joins_relative_paths_against_the_forwarded_cwd() {
    assert_eq!(absolutize("downloads/x.torrent".into(), "/home/u"), "/home/u/downloads/x.torrent");
    assert_eq!(absolutize("/tmp/x.torrent".into(), "/home/u"), "/tmp/x.torrent");
    assert_eq!(absolutize("magnet:?xt=a".into(), "/home/u"), "magnet:?xt=a");
}

#[test]
fn queued_sources_come_out_once_in_order() {
    let mut p = Pending::new();
    p.queue(vec!["a".into()]);
    p.queue(vec!["b".into(), "c".into()]);
    assert_eq!(p.take(), vec!["a", "b", "c"]);
    assert!(p.take().is_empty());
    assert!(is_torrent_file("x.Torrent"));
    assert!(!is_torrent_file(".torrent"));
}

const ROLES: [&str; 26] = [
    "accent", "backdrop", "bg", "border", "cursor", "danger", "disabled", "fg", "hover", "info", "link", "marked",
    "muted", "on-accent", "overlay", "panel", "progress-active", "progress-done", "progress-error", "progress-idle",
    "raised", "scrollbar", "scrollbar-active", "subtle", "success", "warning",
];

fn to_toml(t: &Theme) -> String {
    let mut out = String::new();
    for (name, p) in [("dark", &t.dark), ("light", &t.light)] {
        out.push_str(&format!("[{name}]\n"));
        for (k, v) in ROLES.iter().zip(p.colors()) {
            out.push_str(&format!("{k} = \"{v}\"\n"));
        }
    }
    out
}

fn table(v: Option<&toml::Value>) -> Vec<(String, ThemeValue)> {
    match v.and_then(|v| v.as_table()) {
        Some(t) => t
            .iter()
            .map(|(k, v)| {
                (k.clone(), match v.as_str() {
                    Some(s) => ThemeValue::Text(s.to_string()),
                    None => ThemeValue::Other,
                })
            })
            .collect(),
        None => Vec::new(),
    }
}

fn parse_theme(text: &str) -> Result<Theme, magneto::theme::ThemeError> {
    let doc: toml::Table = toml::from_str(text).unwrap();
    Theme::from_tables(table(doc.get("dark")), table(doc.get("light")))
}

#[test]
fn defaults_are_valid() {
    Theme::defaults().validate().unwrap();
}

#[test]
fn full_file_roundtrips() {
    let text = to_toml(&Theme::defaults());
    assert_eq!(parse_theme(&text).unwrap(), Theme::defaults());
}

#[test]
fn omitted_keys_fall_back_per_variant() {
    let theme = parse_theme("[dark]\nbg = \"#010203\"\n").unwrap();
    assert_eq!(theme.dark.bg, "#010203");
    assert_eq!(theme.dark.fg, Palette::dark().fg);
    assert_eq!(theme.light, Palette::light());
}

#[test]
fn unknown_key_errors() {
    let e = parse_theme("[dark]\nnope = \"#010203\"\n").unwrap_err();
    assert_eq!(e.kind, ThemeErrorKind::UnknownKey);
    assert_eq!((e.variant.as_str(), e.key.as_str()), ("dark", "nope"));
}

#[test]
fn non_string_value_errors() {
    let e = parse_theme("[dark]\nbg = 123\n").unwrap_err();
    assert_eq!(e.kind, ThemeErrorKind::NotAString);
}

#[test]
fn bad_hex_fails_validate() {
    let theme = parse_theme("[dark]\nbg = \"nothex\"\n").unwrap();
    let e = theme.validate().unwrap_err();
    assert_eq!(e.kind, ThemeErrorKind::BadColor);
    assert_eq!((e.key.as_str(), e.color.as_str()), ("bg", "nothex"));
    assert!(is_hex("#a0B1c2"));
    assert!(is_hex("#a0B1c2ff"));
    assert!(!is_hex("a0B1c2"));
    assert!(!is_hex("#a0B1c"));
}

#[test]
fn parsing_concatenated_argument_lists_concatenates_the_sources() {
    let a: Vec<String> = vec!["magnet:?xt=urn:btih:a".into(), "-v".into(), "/tmp/x.torrent".into()];
    let b: Vec<String> = vec!["/tmp/movie.mkv".into(), "https://h/t.torrent".into()];
    let mut both = a.clone();
    both.extend(b.clone());
    let mut expected = parse_args(a);
    expected.extend(parse_args(b));
    assert_eq!(parse_args(both), expected);
    assert_eq!(expected, vec!["magnet:?xt=urn:btih:a", "/tmp/x.torrent", "https://h/t.torrent"]);
}
