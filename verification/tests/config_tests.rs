use magneto::config::{
    config_dir, config_path, config_path_in, data_dir, default_fallback_app, default_fallback_args, found_dir, join,
    magneto_dirs, pending_restart, Config, ConfigError, DirKind, Platform,
};
use magneto::protocol::{detect_source_kind, is_direct_source, SourceKind, Target};
use magneto::supervisor::{ADD_REQUEST_TIMEOUT, ADD_TIMEOUT, REQUEST_TIMEOUT};

fn cfg() -> Config {
    Config::defaults("/home/u/Downloads/magneto".to_string(), Platform::Linux)
}

#[test]
fn direct_sources_are_magnet_and_http() {
    assert!(is_direct_source("MAGNET:?xt=urn:btih:abc"));
    assert!(is_direct_source("https://example.com/file.torrent"));
    assert!(is_direct_source("http://example.com/x"));
    assert!(!is_direct_source("/tmp/file.torrent"));
    assert!(!is_direct_source("file:///tmp/file.torrent"));
}

#[test]
fn source_kinds_follow_the_scheme() {
    assert_eq!(detect_source_kind("Magnet:?xt=1"), SourceKind::Magnet);
    assert_eq!(detect_source_kind("HTTPS://x/y.torrent"), SourceKind::Url);
    assert_eq!(detect_source_kind("ZGF0YQ=="), SourceKind::File);
}

#[test]
fn targets_name_their_torrent() {
    let t = Target::File { info_hash: "abc".into(), file_index: 3 };
    assert_eq!(t.info_hash(), "abc");
    let f = Target::Folder { info_hash: "def".into(), path: "x".into() };
    assert_eq!(f.info_hash(), "def");
}

#[test]
fn clients_outlast_the_daemon_add_budget() {
    assert!(ADD_REQUEST_TIMEOUT > ADD_TIMEOUT);
    assert!(REQUEST_TIMEOUT < ADD_TIMEOUT);
}

#[test]
fn defaults_validate_and_follow_the_platform() {
    let c = cfg();
    assert_eq!(c.validate(), Ok(()));
    assert_eq!(c.network.control_port, 61481);
    assert_eq!(c.network.lan_port, 61482);
    assert_eq!(c.downloads.fallback_app, "xdg-open");
    assert_eq!(default_fallback_app(Platform::MacOs), "open");
    assert_eq!(default_fallback_args(Platform::Windows), vec!["url.dll,FileProtocolHandler".to_string()]);
    assert!(default_fallback_args(Platform::Linux).is_empty());
    assert_eq!(c.media.extensions.len(), 11);
}

#[test]
fn validation_names_the_first_broken_rule() {
    let mut c = cfg();
    c.network.control_port = 0;
    assert_eq!(c.validate(), Err(ConfigError::ControlPortZero));
    let mut c = cfg();
    c.network.lan_port = 0;
    assert_eq!(c.validate(), Err(ConfigError::LanPortZero));
    let mut c = cfg();
    c.network.lan_port = c.network.control_port;
    assert_eq!(c.validate(), Err(ConfigError::PortsCollide));
    c.network.upnp_enabled = false;
    assert_eq!(c.validate(), Ok(()));
    let mut c = cfg();
    c.media.extensions.clear();
    assert_eq!(c.validate(), Err(ConfigError::NoExtensions));
    let mut c = cfg();
    c.media.extensions.push(String::new());
    assert_eq!(c.validate(), Err(ConfigError::EmptyExtension));
    let mut c = cfg();
    c.media.extensions.push("m k".into());
    assert_eq!(c.validate(), Err(ConfigError::ExtensionHasSeparator("m k".into())));
    let mut c = cfg();
    c.media.extensions.push("MKV".into());
    assert_eq!(c.validate(), Err(ConfigError::ExtensionNotLowercase("MKV".into())));
}

#[test]
fn pending_restart_lists_only_changed_restart_fields_in_order() {
    let running = cfg();
    let mut candidate = cfg();
    assert!(pending_restart(&running, &candidate).is_empty());
    candidate.downloads.autoplay = true;
    assert!(pending_restart(&running, &candidate).is_empty());
    candidate.network.server_name = "tv".into();
    candidate.network.control_port = 50000;
    assert_eq!(
        pending_restart(&running, &candidate),
        vec!["network.control_port".to_string(), "network.server_name".to_string()]
    );
    let mut moved = cfg();
    moved.downloads.dir = "/home/u/Downloads/magneto/".into();
    assert!(pending_restart(&running, &moved).is_empty());
}

#[test]
fn paths_join_like_std() {
    assert_eq!(join("/a", "b"), "/a/b");
    assert_eq!(join("/a/", "b"), "/a/b");
    assert_eq!(join("/a", "/b"), "/b");
    assert_eq!(config_path_in(Some("/etc/m".into())), Ok("/etc/m/config.toml".to_string()));
    assert_eq!(config_path_in(None), Err(ConfigError::NoProjectDirs));
}

#[test]
fn magneto_asks_the_platform_for_its_own_directories() {
    assert_eq!(magneto_dirs(DirKind::Config), ("", "", "magneto", DirKind::Config));
    assert_eq!(magneto_dirs(DirKind::Data), ("", "", "magneto", DirKind::Data));
    assert_eq!(found_dir(Some("/c/magneto".to_string())), Ok("/c/magneto".to_string()));
    assert_eq!(found_dir(None), Err(ConfigError::NoProjectDirs));
    if let (Ok(dir), Ok(path)) = (config_dir(), config_path()) {
        assert!(dir.contains("magneto"));
        assert_eq!(path, format!("{dir}/config.toml"));
    }
    if let (Ok(c), Ok(d)) = (config_dir(), data_dir()) {
        assert!(d.contains("magneto"));
        assert!(c.contains("magneto"));
        // The data directory is never the configuration tree.
        assert!(!d.contains(".config"));
    }
}
