use magneto::config::{
    default_downloads_dir, downloads_dir_from, expand_tilde, expand_tilde_with, pending_restart, Config,
    DownloadsConfig, MediaConfig, NetworkConfig, Platform, PlayerConfig,
};
use magneto::json::{apply_patch, merge_into, Json};
use magneto::settings::{config_from_json, config_json, DiffError};

fn obj(entries: Vec<(&str, Json)>) -> Json {
    Json::Object(entries.into_iter().map(|(k, v)| (k.to_string(), v)).collect())
}

fn num(n: &str) -> Json {
    Json::Number(n.to_string())
}

fn settings() -> Json {
    obj(vec![
        (
            "network",
            obj(vec![
                ("control_port", num("61481")),
                ("lan_port", num("61482")),
                ("upnp_enabled", Json::Bool(true)),
                ("server_name", Json::Str("magneto".into())),
            ]),
        ),
        (
            "downloads",
            obj(vec![
                ("dir", Json::Str("/home/u/Downloads/magneto".into())),
                ("autoplay", Json::Bool(false)),
                ("fallback_args", Json::Array(vec![])),
            ]),
        ),
    ])
}

#[test]
fn patch_merges_objects_and_replaces_leaves() {
    let patch = obj(vec![
        ("downloads", obj(vec![("autoplay", Json::Bool(true))])),
        ("network", obj(vec![("control_port", num("50000"))])),
    ]);
    let merged = apply_patch(settings(), patch).unwrap();
    let expected = obj(vec![
        (
            "network",
            obj(vec![
                ("control_port", num("50000")),
                ("lan_port", num("61482")),
                ("upnp_enabled", Json::Bool(true)),
                ("server_name", Json::Str("magneto".into())),
            ]),
        ),
        (
            "downloads",
            obj(vec![
                ("dir", Json::Str("/home/u/Downloads/magneto".into())),
                ("autoplay", Json::Bool(true)),
                ("fallback_args", Json::Array(vec![])),
            ]),
        ),
    ]);
    assert_eq!(merged, expected);
}

#[test]
fn unknown_top_level_key_is_reported() {
    let patch = obj(vec![("bogus", Json::Bool(true))]);
    assert_eq!(apply_patch(settings(), patch), Err(vec!["bogus".to_string()]));
}

#[test]
fn unknown_nested_key_is_reported_with_its_path() {
    let patch = obj(vec![("network", obj(vec![("bogus", num("1"))]))]);
    assert_eq!(apply_patch(settings(), patch), Err(vec!["network.bogus".to_string()]));
}

#[test]
fn mixed_valid_and_unknown_keys_apply_nothing() {
    let patch = obj(vec![("downloads", obj(vec![("autoplay", Json::Bool(false)), ("bogus", num("1"))]))]);
    assert_eq!(apply_patch(settings(), patch), Err(vec!["downloads.bogus".to_string()]));
}

#[test]
fn a_leaf_may_replace_a_section() {
    let patch = obj(vec![("network", num("5"))]);
    let merged = apply_patch(settings(), patch).unwrap();
    match merged {
        Json::Object(entries) => {
            assert_eq!(entries[0].0, "network");
            assert_eq!(entries[0].1, num("5"));
        }
        other => panic!("expected an object, got {other:?}"),
    }
}

#[test]
fn non_object_patch_changes_nothing() {
    assert_eq!(apply_patch(settings(), Json::Bool(true)), Ok(settings()));
}

#[test]
fn merge_reports_under_the_prefix_in_patch_order() {
    let mut unknown = vec!["earlier".to_string()];
    let base = obj(vec![("a", num("1"))]);
    let patch = obj(vec![("z", num("2")), ("a", num("3")), ("b", Json::Null)]);
    let merged = merge_into(base, patch, "top", &mut unknown);
    assert_eq!(merged, obj(vec![("a", num("3"))]));
    assert_eq!(unknown, vec!["earlier".to_string(), "top.z".into(), "top.b".into()]);
}

#[test]
fn tilde_expands_to_home() {
    assert_eq!(expand_tilde_with("~/Videos/x", Some("/home/u")), "/home/u/Videos/x");
    assert_eq!(expand_tilde_with("~", Some("/home/u")), "/home/u");
    assert_eq!(expand_tilde_with("~/", Some("/home/u")), "/home/u");
    assert_eq!(expand_tilde_with("~//./a/b/./", Some("/home/u/")), "/home/u/a/b");
    assert_eq!(expand_tilde_with("~/a", None), "./a");
}

#[test]
fn tilde_only_as_a_whole_first_component() {
    assert_eq!(expand_tilde_with("~user/a", Some("/home/u")), "~user/a");
    assert_eq!(expand_tilde_with("/srv/~/a", Some("/home/u")), "/srv/~/a");
    assert_eq!(expand_tilde_with("./~/a", Some("/home/u")), "./~/a");
    assert_eq!(expand_tilde_with("", Some("/home/u")), "");
}

#[test]
fn absolute_paths_are_untouched_by_expansion() {
    assert_eq!(expand_tilde("/srv/media"), "/srv/media");
}

#[test]
fn downloads_dir_prefers_the_download_directory() {
    assert_eq!(downloads_dir_from(Some("/home/u/Downloads"), Some("/home/u")), "/home/u/Downloads/magneto");
    assert_eq!(downloads_dir_from(None, Some("/home/u")), "/home/u/Downloads/magneto");
    assert_eq!(downloads_dir_from(None, None), "./Downloads/magneto");
    assert!(default_downloads_dir().ends_with("magneto"));
}

fn default_cfg() -> Config {
    Config::defaults("/home/u/Downloads/magneto".into(), Platform::Linux)
}

#[test]
fn diff_hot_only_patch_has_no_restart_required() {
    let cfg = default_cfg();
    let patch = obj(vec![("downloads", obj(vec![("autoplay", Json::Bool(true))]))]);
    let merged = cfg.diff(patch).unwrap().merged;
    assert!(pending_restart(&cfg, &merged).is_empty());
    assert!(merged.downloads.autoplay);
}

#[test]
fn pending_restart_lists_only_changed_restart_fields() {
    let cfg = default_cfg();
    let patch = obj(vec![
        ("network", obj(vec![("control_port", num("50000"))])),
        ("downloads", obj(vec![("autoplay", Json::Bool(true))])),
    ]);
    let merged = cfg.diff(patch).unwrap().merged;
    assert_eq!(pending_restart(&cfg, &merged), vec!["network.control_port".to_string()]);
}

#[test]
fn pending_restart_ignores_resent_unchanged_restart_fields() {
    let cfg = default_cfg();
    let port = cfg.network.control_port;
    let patch = obj(vec![
        ("network", obj(vec![("control_port", num(&port.to_string()))])),
        ("downloads", obj(vec![("autoplay", Json::Bool(false))])),
    ]);
    let merged = cfg.diff(patch).unwrap().merged;
    assert!(pending_restart(&cfg, &merged).is_empty());
}

#[test]
fn diff_invalid_patch_errors_without_mutating_self() {
    let cfg = default_cfg();
    let patch = obj(vec![("network", obj(vec![("control_port", num("0"))]))]);
    assert!(cfg.diff(patch).is_err());
    assert_eq!(cfg, default_cfg());
}

#[test]
fn diff_unknown_top_level_key_errors() {
    let cfg = default_cfg();
    let patch = obj(vec![("bogus", Json::Bool(true))]);
    assert!(cfg.diff(patch).is_err());
}

#[test]
fn diff_unknown_nested_key_errors() {
    let cfg = default_cfg();
    let patch = obj(vec![("network", obj(vec![("bogus", num("1"))]))]);
    assert!(cfg.diff(patch).is_err());
}

#[test]
fn diff_mixed_valid_and_unknown_errors_atomically() {
    let cfg = default_cfg();
    let patch = obj(vec![("downloads", obj(vec![("autoplay", Json::Bool(false)), ("bogus", num("1"))]))]);
    assert!(cfg.diff(patch).is_err());
}

#[test]
fn settings_read_back_from_their_protocol_form() {
    let cfg = default_cfg();
    assert_eq!(config_from_json(&config_json(&cfg)), Some(cfg.clone()));
    match config_json(&cfg) {
        Json::Object(top) => match &top[0].1 {
            Json::Object(net) => assert_eq!(net[0], ("control_port".to_string(), num("61481"))),
            other => panic!("network is not an object: {other:?}"),
        },
        other => panic!("settings are not an object: {other:?}"),
    }
}

#[test]
fn diff_reports_each_way_a_change_is_refused() {
    let cfg = default_cfg();
    let patch = obj(vec![("network", obj(vec![("bogus", num("1"))])), ("nope", Json::Null)]);
    match cfg.diff(patch) {
        Err(DiffError::UnknownFields(u)) => assert_eq!(u, vec!["network.bogus".to_string(), "nope".to_string()]),
        other => panic!("expected unknown fields, got {other:?}"),
    }
    let patch = obj(vec![("network", obj(vec![("control_port", Json::Str("80".into()))]))]);
    assert!(matches!(cfg.diff(patch), Err(DiffError::Malformed)));
    let patch = obj(vec![("network", obj(vec![("control_port", num("70000"))]))]);
    assert!(matches!(cfg.diff(patch), Err(DiffError::Malformed)));
    let patch = obj(vec![("network", obj(vec![("control_port", num("-1"))]))]);
    assert!(matches!(cfg.diff(patch), Err(DiffError::Malformed)));
    let patch = obj(vec![("network", obj(vec![("control_port", num("80.5"))]))]);
    assert!(matches!(cfg.diff(patch), Err(DiffError::Malformed)));
    let patch = obj(vec![("media", obj(vec![("extensions", Json::Array(vec![]))]))]);
    assert!(matches!(cfg.diff(patch), Err(DiffError::Invalid(_))));
}

#[test]
fn diff_reads_a_section_given_as_an_array_in_field_order() {
    let cfg = default_cfg();
    let patch = obj(vec![(
        "network",
        Json::Array(vec![num("7000"), num("7001"), Json::Bool(false), Json::Str("box".into())]),
    )]);
    let merged = cfg.diff(patch).unwrap().merged;
    assert_eq!(merged.network.control_port, 7000);
    assert_eq!(merged.network.lan_port, 7001);
    assert!(!merged.network.upnp_enabled);
    assert_eq!(merged.network.server_name, "box");
    let short = obj(vec![("network", Json::Array(vec![num("7000"), num("7001"), Json::Bool(false)]))]);
    assert!(matches!(cfg.diff(short), Err(DiffError::Malformed)));
}

#[test]
fn diff_expands_a_tilde_in_the_downloads_directory() {
    let cfg = default_cfg();
    let patch = obj(vec![("downloads", obj(vec![("dir", Json::Str("/srv/media".into()))]))]);
    let merged = cfg.diff(patch).unwrap().merged;
    assert_eq!(merged.downloads.dir, "/srv/media");
    let patch = obj(vec![("downloads", obj(vec![("dir", Json::Str("~/films".into()))]))]);
    let merged = cfg.diff(patch).unwrap().merged;
    assert!(!merged.downloads.dir.starts_with('~'));
    assert!(merged.downloads.dir.ends_with("films"));
}

#[test]
fn diff_with_an_empty_patch_gives_back_the_settings() {
    let cfg = default_cfg();
    assert_eq!(cfg.diff(obj(vec![])).unwrap().merged, cfg);
}
