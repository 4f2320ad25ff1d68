//! The configuration schema, its validation rules, the platform
//! directories, and which changes need a daemon restart.

use vstd::prelude::*;
use crate::paths::{path_eq, paths_equal};
use crate::text::{chars_of, string_of, has_prefix, starts_with_str, slice_vec, is_white,
    is_white_char, eq_str, string_views, first_index, last_index, lemma_first_index,
    lemma_last_index, find_first, find_last};

verus! {

#[derive(Debug, Clone, PartialEq)]
pub struct Config {
    pub network: NetworkConfig,
    pub downloads: DownloadsConfig,
    pub media: MediaConfig,
    pub player: PlayerConfig,
}

#[derive(Debug, Clone, PartialEq)]
pub struct NetworkConfig {
    pub control_port: u16,
    pub lan_port: u16,
    pub upnp_enabled: bool,
    pub server_name: String,
}

#[derive(Debug, Clone, PartialEq)]
pub struct DownloadsConfig {
    /// The downloads directory, as a path string.
    pub dir: String,
    pub fallback_app: String,
    pub fallback_args: Vec<String>,
    pub auto_download: bool,
    pub persist_by_default: bool,
    pub share_by_default: bool,
    pub autoplay: bool,
}

#[derive(Debug, Clone, PartialEq)]
pub struct MediaConfig {
    pub extensions: Vec<String>,
}

#[derive(Debug, Clone, PartialEq)]
pub struct PlayerConfig {
    pub command: String,
    pub args: Vec<String>,
}

/// A validated config produced by merging a patch over the current one.
#[derive(Debug, Clone)]
pub struct ConfigDiff {
    pub merged: Config,
}

/// The host platform, which decides the default fallback opener.
#[derive(Debug, Clone, Copy, PartialEq, Eq)]
pub enum Platform {
    Linux,
    MacOs,
    Windows,
    Other,
}

/// Why a configuration was refused.
#[derive(Debug, Clone, PartialEq, Eq)]
pub enum ConfigError {
    /// `network.control_port` is 0.
    ControlPortZero,
    /// `network.lan_port` is 0.
    LanPortZero,
    /// The two ports are equal while UPnP serving is on.
    PortsCollide,
    /// `media.extensions` is empty.
    NoExtensions,
    /// `media.extensions` holds an empty entry.
    EmptyExtension,
    /// An entry holds `.`, `/`, `\` or whitespace.
    ExtensionHasSeparator(String),
    /// An entry holds an ASCII uppercase letter.
    ExtensionNotLowercase(String),
    /// The platform's project directories could not be determined.
    NoProjectDirs,
}

/// The first rule an extension entry breaks, in the order they are checked.
pub enum ExtensionProblem {
    Empty,
    Separator,
    Uppercase,
}

pub open spec fn bad_ext_char(c: char) -> bool {
    c == '.' || c == '/' || c == '\\' || is_white(c)
}

pub open spec fn ext_problem(e: Seq<char>) -> Option<ExtensionProblem> {
    if e.len() == 0 {
        Some(ExtensionProblem::Empty)
    } else if exists|i: int| 0 <= i < e.len() && bad_ext_char(#[trigger] e[i]) {
        Some(ExtensionProblem::Separator)
    } else if exists|i: int| 0 <= i < e.len() && 'A' <= #[trigger] e[i] && e[i] <= 'Z' {
        Some(ExtensionProblem::Uppercase)
    } else {
        None
    }
}

/// The first entry of `exts` (from index `from` on) that breaks a rule.
pub open spec fn first_bad_ext(exts: Seq<Seq<char>>, from: int) -> Option<int>
    decreases exts.len() - from,
{
    if from < 0 || from >= exts.len() {
        None
    } else if ext_problem(exts[from]) is Some {
        Some(from)
    } else {
        first_bad_ext(exts, from + 1)
    }
}

/// The error `validate` reports for the entry at index `i`.
pub open spec fn ext_error_matches(err: ConfigError, e: Seq<char>) -> bool {
    match ext_problem(e) {
        Some(ExtensionProblem::Empty) => err == ConfigError::EmptyExtension,
        Some(ExtensionProblem::Separator) => err matches ConfigError::ExtensionHasSeparator(s)
            && s@ == e,
        Some(ExtensionProblem::Uppercase) => err matches ConfigError::ExtensionNotLowercase(s)
            && s@ == e,
        None => false,
    }
}

/// Whether `validate` accepts the configuration.
pub open spec fn config_valid(c: Config) -> bool {
    &&& c.network.control_port != 0
    &&& c.network.lan_port != 0
    &&& !(c.network.upnp_enabled && c.network.control_port == c.network.lan_port)
    &&& c.media.extensions@.len() > 0
    &&& first_bad_ext(string_views(c.media.extensions@), 0) is None
}

/// The error `validate` reports: the first rule broken, in order.
pub open spec fn validation_error_matches(c: Config, err: ConfigError) -> bool {
    if c.network.control_port == 0 {
        err == ConfigError::ControlPortZero
    } else if c.network.lan_port == 0 {
        err == ConfigError::LanPortZero
    } else if c.network.upnp_enabled && c.network.control_port == c.network.lan_port {
        err == ConfigError::PortsCollide
    } else if c.media.extensions@.len() == 0 {
        err == ConfigError::NoExtensions
    } else {
        match first_bad_ext(string_views(c.media.extensions@), 0) {
            Some(i) => ext_error_matches(err, c.media.extensions@[i]@),
            None => false,
        }
    }
}

/// `Path::join` on Unix: an absolute `b` replaces `a`; otherwise `b` is
/// appended after one separator (none when `a` is empty or ends in `/`).
pub open spec fn join_path(a: Seq<char>, b: Seq<char>) -> Seq<char> {
    if b.len() > 0 && b[0] == '/' {
        b
    } else if a.len() == 0 || a.last() == '/' {
        a + b
    } else {
        a + seq!['/'] + b
    }
}

/// `Path::join` of two path strings.
pub fn join(a: &str, b: &str) -> (r: String)
    ensures
        r@ == join_path(a@, b@),
{
    let av = chars_of(a);
    let bv = chars_of(b);
    if bv.len() > 0 && bv[0] == '/' {
        return string_of(bv.as_slice());
    }
    let mut out = av;
    if out.len() > 0 && out[out.len() - 1] != '/' {
        out.push('/');
    }
    let mut i: usize = 0;
    let ghost base = out@;
    while i < bv.len()
        invariant
            i <= bv@.len(),
            out@ == base + bv@.subrange(0, i as int),
        decreases bv@.len() - i,
    {
        out.push(bv[i]);
        i += 1;
        assert(out@ =~= base + bv@.subrange(0, i as int));
    }
    assert(bv@.subrange(0, bv@.len() as int) =~= bv@);
    string_of(out.as_slice())
}

/// The default opener a source is handed to when it holds no media.
pub open spec fn spec_default_fallback_app(p: Platform) -> Seq<char> {
    match p {
        Platform::Linux => "xdg-open"@,
        Platform::MacOs => "open"@,
        Platform::Windows => "rundll32.exe"@,
        Platform::Other => Seq::empty(),
    }
}

pub fn default_fallback_app(p: Platform) -> (r: &'static str)
    ensures
        r@ == spec_default_fallback_app(p),
{
    match p {
        Platform::Linux => "xdg-open",
        Platform::MacOs => "open",
        Platform::Windows => "rundll32.exe",
        Platform::Other => {
            proof {
                reveal_strlit("");
            }
            ""
        },
    }
}

pub open spec fn spec_default_fallback_args(p: Platform) -> Seq<Seq<char>> {
    match p {
        Platform::Windows => seq!["url.dll,FileProtocolHandler"@],
        _ => Seq::empty(),
    }
}

pub fn default_fallback_args(p: Platform) -> (r: Vec<String>)
    ensures
        string_views(r@) == spec_default_fallback_args(p),
{
    let mut v: Vec<String> = Vec::new();
    if let Platform::Windows = p {
        v.push(String::from_str("url.dll,FileProtocolHandler"));
        assert(string_views(v@) =~= spec_default_fallback_args(p));
    } else {
        assert(string_views(v@) =~= spec_default_fallback_args(p));
    }
    v
}

/// The media extensions of a fresh config.
pub open spec fn default_extensions() -> Seq<Seq<char>> {
    seq![
        "mkv"@,
        "mp4"@,
        "avi"@,
        "webm"@,
        "mov"@,
        "flv"@,
        "wmv"@,
        "m4v"@,
        "ts"@,
        "mpg"@,
        "mpeg"@,
    ]
}

fn push_str(v: &mut Vec<String>, s: &str)
    ensures
        string_views(final(v)@) == string_views(old(v)@).push(s@),
{
    v.push(String::from_str(s));
    assert(string_views(v@) =~= string_views(old(v)@).push(s@));
}

fn default_extension_list() -> (r: Vec<String>)
    ensures
        string_views(r@) == default_extensions(),
{
    let mut v: Vec<String> = Vec::new();
    push_str(&mut v, "mkv");
    push_str(&mut v, "mp4");
    push_str(&mut v, "avi");
    push_str(&mut v, "webm");
    push_str(&mut v, "mov");
    push_str(&mut v, "flv");
    push_str(&mut v, "wmv");
    push_str(&mut v, "m4v");
    push_str(&mut v, "ts");
    push_str(&mut v, "mpg");
    push_str(&mut v, "mpeg");
    assert(string_views(v@) =~= default_extensions());
    v
}

/// The built-in defaults, with the downloads dir the platform suggests.
pub open spec fn is_default_config(c: Config, downloads_dir: Seq<char>, p: Platform) -> bool {
    &&& c.network.control_port == 61481
    &&& c.network.lan_port == 61482
    &&& c.network.upnp_enabled
    &&& c.network.server_name@ == "magneto"@
    &&& c.downloads.dir@ == downloads_dir
    &&& c.downloads.fallback_app@ == spec_default_fallback_app(p)
    &&& string_views(c.downloads.fallback_args@) == spec_default_fallback_args(p)
    &&& c.downloads.auto_download
    &&& !c.downloads.persist_by_default
    &&& !c.downloads.share_by_default
    &&& !c.downloads.autoplay
    &&& string_views(c.media.extensions@) == default_extensions()
    &&& c.player.command@.len() == 0
    &&& c.player.args@.len() == 0
}

impl Config {
    /// The built-in configuration for `platform`, downloading into
    /// `downloads_dir`.
    pub fn defaults(downloads_dir: String, platform: Platform) -> (c: Config)
        ensures
            is_default_config(c, downloads_dir@, platform),
    {
        Config {
            network: NetworkConfig {
                control_port: 61481,
                lan_port: 61482,
                upnp_enabled: true,
                server_name: String::from_str("magneto"),
            },
            downloads: DownloadsConfig {
                dir: downloads_dir,
                fallback_app: String::from_str(default_fallback_app(platform)),
                fallback_args: default_fallback_args(platform),
                auto_download: true,
                persist_by_default: false,
                share_by_default: false,
                autoplay: false,
            },
            media: MediaConfig { extensions: default_extension_list() },
            player: PlayerConfig { command: String::new(), args: Vec::new() },
        }
    }

    /// A leading `~` in the downloads directory replaced by the user's home
    /// directory; nothing else changes.
    pub fn expand_paths(&mut self)
        ensures
            exists|home: Option<Seq<char>>| final(self).downloads.dir@ == spec_expand_tilde(
                old(self).downloads.dir@,
                home,
            ),
            final(self).network == old(self).network,
            final(self).media == old(self).media,
            final(self).player == old(self).player,
            final(self).downloads.fallback_app == old(self).downloads.fallback_app,
            final(self).downloads.fallback_args == old(self).downloads.fallback_args,
            final(self).downloads.auto_download == old(self).downloads.auto_download,
            final(self).downloads.persist_by_default == old(self).downloads.persist_by_default,
            final(self).downloads.share_by_default == old(self).downloads.share_by_default,
            final(self).downloads.autoplay == old(self).downloads.autoplay,
    {
        let expanded = expand_tilde(self.downloads.dir.as_str());
        self.downloads.dir = expanded;
    }

    /// Check the rules a configuration must meet, reporting the first one
    /// broken.
    pub fn validate(&self) -> (r: Result<(), ConfigError>)
        ensures
            r is Ok <==> config_valid(*self),
            r matches Err(e) ==> validation_error_matches(*self, e),
    {
        if self.network.control_port == 0 {
            return Err(ConfigError::ControlPortZero);
        }
        if self.network.lan_port == 0 {
            return Err(ConfigError::LanPortZero);
        }
        if self.network.upnp_enabled && self.network.control_port == self.network.lan_port {
            return Err(ConfigError::PortsCollide);
        }
        let exts = &self.media.extensions;
        if exts.len() == 0 {
            return Err(ConfigError::NoExtensions);
        }
        let ghost views = string_views(exts@);
        let mut i: usize = 0;
        while i < exts.len()
            invariant
                i <= exts@.len(),
                exts@ == self.media.extensions@,
                exts@.len() > 0,
                self.network.control_port != 0,
                self.network.lan_port != 0,
                !(self.network.upnp_enabled && self.network.control_port == self.network.lan_port),
                views == string_views(exts@),
                first_bad_ext(views, 0) == first_bad_ext(views, i as int),
            decreases exts@.len() - i,
        {
            let e = chars_of(exts[i].as_str());
            assert(views[i as int] == exts@[i as int]@);
            assert(e@ == views[i as int]);
            match check_extension(e.as_slice()) {
                Some(ExtensionProblem::Empty) => {
                    return Err(ConfigError::EmptyExtension);
                },
                Some(ExtensionProblem::Separator) => {
                    return Err(ConfigError::ExtensionHasSeparator(exts[i].clone()));
                },
                Some(ExtensionProblem::Uppercase) => {
                    return Err(ConfigError::ExtensionNotLowercase(exts[i].clone()));
                },
                None => {},
            }
            i += 1;
        }
        Ok(())
    }
}

fn check_extension(e: &[char]) -> (r: Option<ExtensionProblem>)
    ensures
        r == ext_problem(e@),
{
    if e.len() == 0 {
        return Some(ExtensionProblem::Empty);
    }
    let mut i: usize = 0;
    while i < e.len()
        invariant
            i <= e@.len(),
            forall|j: int| 0 <= j < i ==> !bad_ext_char(e@[j]),
        decreases e@.len() - i,
    {
        let c = e[i];
        if c == '.' || c == '/' || c == '\\' || is_white_char(c) {
            assert(bad_ext_char(e@[i as int]));
            return Some(ExtensionProblem::Separator);
        }
        i += 1;
    }
    let mut k: usize = 0;
    while k < e.len()
        invariant
            k <= e@.len(),
            forall|j: int| 0 <= j < e@.len() ==> !bad_ext_char(e@[j]),
            forall|j: int| 0 <= j < k ==> !('A' <= e@[j] && e@[j] <= 'Z'),
        decreases e@.len() - k,
    {
        let c = e[k];
        if 'A' <= c && c <= 'Z' {
            assert('A' <= e@[k as int] && e@[k as int] <= 'Z');
            return Some(ExtensionProblem::Uppercase);
        }
        k += 1;
    }
    None
}

/// The fields whose change only takes effect after a restart, in report
/// order.
pub open spec fn restart_fields() -> Seq<Seq<char>> {
    seq![
        "network.control_port"@,
        "network.lan_port"@,
        "network.upnp_enabled"@,
        "network.server_name"@,
        "downloads.dir"@,
    ]
}

/// Whether the named restart-required field differs between two configs.
pub open spec fn spec_field_differs(a: Config, b: Config, field: Seq<char>) -> bool {
    if field == "network.control_port"@ {
        a.network.control_port != b.network.control_port
    } else if field == "network.lan_port"@ {
        a.network.lan_port != b.network.lan_port
    } else if field == "network.upnp_enabled"@ {
        a.network.upnp_enabled != b.network.upnp_enabled
    } else if field == "network.server_name"@ {
        a.network.server_name@ != b.network.server_name@
    } else if field == "downloads.dir"@ {
        !path_eq(a.downloads.dir@, b.downloads.dir@)
    } else {
        false
    }
}

/// The restart-required fields that differ, in report order.
pub open spec fn spec_pending_restart(running: Config, candidate: Config) -> Seq<Seq<char>> {
    restart_fields().filter(|f: Seq<char>| spec_field_differs(running, candidate, f))
}

fn strings_differ(a: &String, b: &String) -> (r: bool)
    ensures
        r == (a@ != b@),
{
    !(*a == *b)
}

/// Whether `field` (one of the restart-required names) differs.
pub fn restart_field_differs(a: &Config, b: &Config, field: &str) -> (r: bool)
    ensures
        r == spec_field_differs(*a, *b, field@),
{
    let f = chars_of(field);
    if eq_str(f.as_slice(), "network.control_port") {
        a.network.control_port != b.network.control_port
    } else if eq_str(f.as_slice(), "network.lan_port") {
        a.network.lan_port != b.network.lan_port
    } else if eq_str(f.as_slice(), "network.upnp_enabled") {
        a.network.upnp_enabled != b.network.upnp_enabled
    } else if eq_str(f.as_slice(), "network.server_name") {
        strings_differ(&a.network.server_name, &b.network.server_name)
    } else if eq_str(f.as_slice(), "downloads.dir") {
        !paths_equal(a.downloads.dir.as_str(), b.downloads.dir.as_str())
    } else {
        false
    }
}

/// Each restart-required setting is reported exactly when it differs: the
/// two ports, UPnP serving, the server name (as text) and the downloads
/// directory (as a path); nothing else is ever reported.
pub proof fn lemma_pending_restart_law(a: Config, b: Config)
    ensures
        spec_pending_restart(a, b).contains("network.control_port"@) == (a.network.control_port
            != b.network.control_port),
        spec_pending_restart(a, b).contains("network.lan_port"@) == (a.network.lan_port != b.network.lan_port),
        spec_pending_restart(a, b).contains("network.upnp_enabled"@) == (a.network.upnp_enabled
            != b.network.upnp_enabled),
        spec_pending_restart(a, b).contains("network.server_name"@) == (a.network.server_name@
            != b.network.server_name@),
        spec_pending_restart(a, b).contains("downloads.dir"@) == !path_eq(a.downloads.dir@, b.downloads.dir@),
        forall|f: Seq<char>|
            #[trigger] spec_pending_restart(a, b).contains(f) ==> f == "network.control_port"@ || f
                == "network.lan_port"@ || f == "network.upnp_enabled"@ || f == "network.server_name"@ || f
                == "downloads.dir"@,
{
    reveal_strlit("network.control_port");
    reveal_strlit("network.lan_port");
    reveal_strlit("network.upnp_enabled");
    reveal_strlit("network.server_name");
    reveal_strlit("downloads.dir");
    let fs = restart_fields();
    let pred = |f: Seq<char>| spec_field_differs(a, b, f);
    assert("network.upnp_enabled"@[8] != "network.control_port"@[8]);
    assert("network.upnp_enabled"@ != "network.control_port"@);
    assert("network.server_name"@.len() != "network.control_port"@.len());
    assert("network.server_name"@.len() != "network.lan_port"@.len());
    assert("network.server_name"@.len() != "network.upnp_enabled"@.len());
    assert(pred("network.upnp_enabled"@) == (a.network.upnp_enabled != b.network.upnp_enabled));
    assert(pred("network.server_name"@) == (a.network.server_name@ != b.network.server_name@));
    let out = fs.filter(pred);
    assert(out == spec_pending_restart(a, b));
    assert forall|f: Seq<char>| #[trigger] out.contains(f) == (fs.contains(f) && pred(f)) by {
        if out.contains(f) {
            fs.lemma_filter_contains_rev(pred, f);
            let j = choose|j: int| 0 <= j < out.len() && out[j] == f;
            fs.lemma_filter_pred(pred, j);
        }
        if fs.contains(f) && pred(f) {
            let i = choose|i: int| 0 <= i < fs.len() && fs[i] == f;
            fs.lemma_filter_contains(pred, i);
        }
    }
    assert(fs[0] == "network.control_port"@);
    assert(fs[1] == "network.lan_port"@);
    assert(fs[2] == "network.upnp_enabled"@);
    assert(fs[3] == "network.server_name"@);
    assert(fs[4] == "downloads.dir"@);
    assert(fs.contains("network.control_port"@));
    assert(fs.contains("network.lan_port"@));
    assert(fs.contains("network.upnp_enabled"@));
    assert(fs.contains("network.server_name"@));
    assert(fs.contains("downloads.dir"@));
    assert forall|f: Seq<char>| #[trigger] fs.contains(f) implies f == "network.control_port"@ || f
        == "network.lan_port"@ || f == "network.upnp_enabled"@ || f == "network.server_name"@ || f
        == "downloads.dir"@ by {
        let i = choose|i: int| 0 <= i < fs.len() && fs[i] == f;
        assert(0 <= i < 5);
    }
}

/// Restart-required fields whose value differs between the running and
/// the candidate configs.
pub fn pending_restart(running: &Config, candidate: &Config) -> (r: Vec<String>)
    ensures
        string_views(r@) == spec_pending_restart(*running, *candidate),
        string_views(r@).contains("network.upnp_enabled"@) == (running.network.upnp_enabled
            != candidate.network.upnp_enabled),
{
    proof {
        lemma_pending_restart_law(*running, *candidate);
    }
    let mut out: Vec<String> = Vec::new();
    let names: [&str; 5] = [
        "network.control_port",
        "network.lan_port",
        "network.upnp_enabled",
        "network.server_name",
        "downloads.dir",
    ];
    let ghost fields = restart_fields();
    let ghost pred = |f: Seq<char>| spec_field_differs(*running, *candidate, f);
    assert(names@.map_values(|s: &str| s@) =~= fields);
    let mut i: usize = 0;
    while i < 5
        invariant
            i <= 5,
            fields == restart_fields(),
            names@.map_values(|s: &str| s@) == fields,
            pred == (|f: Seq<char>| spec_field_differs(*running, *candidate, f)),
            string_views(out@) == fields.subrange(0, i as int).filter(pred),
        decreases 5 - i,
    {
        let name = names[i];
        assert(name@ == fields[i as int]);
        proof {
            reveal(Seq::filter);
        }
        assert(fields.subrange(0, i + 1).drop_last() =~= fields.subrange(0, i as int));
        if restart_field_differs(running, candidate, name) {
            out.push(String::from_str(name));
            assert(string_views(out@) =~= fields.subrange(0, i + 1).filter(pred));
        } else {
            assert(string_views(out@) =~= fields.subrange(0, i + 1).filter(pred));
        }
        i += 1;
    }
    assert(fields.subrange(0, 5) =~= fields);
    out
}

/// Which of a project's platform directories is meant.
#[derive(Debug, Clone, Copy, PartialEq, Eq, Structural)]
pub enum DirKind {
    Config,
    Data,
}

/// The project identity magneto asks the platform's directories for
/// (qualifier, organization, application), and the directory wanted.
pub fn magneto_dirs(kind: DirKind) -> (r: (&'static str, &'static str, &'static str, DirKind))
    ensures
        r.0@ == ""@,
        r.1@ == ""@,
        r.2@ == "magneto"@,
        r.3 == kind,
{
    ("", "", "magneto", kind)
}

/// `directories::ProjectDirs::from(qualifier, organization, application)`,
/// then its `config_dir` or `data_dir` as `kind` asks. The directories come
/// from the environment (the home directory, XDG variables), so nothing is
/// stated of the result.
#[verifier::external_body]
fn project_dir(qualifier: &str, organization: &str, application: &str, kind: DirKind) -> (r: Option<String>) {
    let dirs = directories::ProjectDirs::from(qualifier, organization, application)?;
    let path = match kind {
        DirKind::Config => dirs.config_dir(),
        DirKind::Data => dirs.data_dir(),
    };
    Some(path.to_string_lossy().into_owned())
}

/// The platform directory of kind `kind` for magneto.
fn magneto_dir(kind: DirKind) -> (r: Option<String>) {
    let (q, o, a, k) = magneto_dirs(kind);
    project_dir(q, o, a, k)
}

/// The configuration file in a configuration directory.
pub fn config_path_in(dir: Option<String>) -> (r: Result<String, ConfigError>)
    ensures
        match dir {
            Some(d) => r matches Ok(p) && p@ == join_path(d@, "config.toml"@),
            None => r == Err::<String, ConfigError>(ConfigError::NoProjectDirs),
        },
{
    match dir {
        Some(d) => Ok(join(d.as_str(), "config.toml")),
        None => Err(ConfigError::NoProjectDirs),
    }
}

/// `config.toml` in the platform's configuration directory.
pub fn config_path() -> (r: Result<String, ConfigError>)
    ensures
        match r {
            Ok(p) => exists|d: Seq<char>| p@ == join_path(d, "config.toml"@),
            Err(e) => e == ConfigError::NoProjectDirs,
        },
{
    let dir = magneto_dir(DirKind::Config);
    let r = config_path_in(dir);
    proof {
        if r is Ok {
            let d = dir->0@;
            assert(r->Ok_0@ == join_path(d, "config.toml"@));
        }
    }
    r
}

/// A platform directory as found, or the error for none.
pub fn found_dir(dir: Option<String>) -> (r: Result<String, ConfigError>)
    ensures
        match dir {
            Some(d) => r matches Ok(p) && p@ == d@,
            None => r == Err::<String, ConfigError>(ConfigError::NoProjectDirs),
        },
{
    match dir {
        Some(d) => Ok(d),
        None => Err(ConfigError::NoProjectDirs),
    }
}

/// The platform's configuration directory.
pub fn config_dir() -> (r: Result<String, ConfigError>)
    ensures
        r is Err ==> r == Err::<String, ConfigError>(ConfigError::NoProjectDirs),
{
    found_dir(magneto_dir(DirKind::Config))
}

/// The platform's data directory.
pub fn data_dir() -> (r: Result<String, ConfigError>)
    ensures
        r is Err ==> r == Err::<String, ConfigError>(ConfigError::NoProjectDirs),
{
    found_dir(magneto_dir(DirKind::Data))
}

/// A path segment that is no component of its own: empty, or `.`.
pub open spec fn is_skip_seg(seg: Seq<char>) -> bool {
    seg.len() == 0 || seg == seq!['.']
}

/// `t` without its leading empty and `.` segments.
pub open spec fn trim_left_segs(t: Seq<char>) -> Seq<char>
    decreases t.len(),
{
    if t.len() == 0 {
        t
    } else {
        match first_index(t, '/') {
            Some(i) => {
                proof {
                    lemma_first_index(t, '/');
                }
                if is_skip_seg(t.subrange(0, i)) {
                    trim_left_segs(t.subrange(i + 1, t.len() as int))
                } else {
                    t
                }
            },
            None => if is_skip_seg(t) {
                Seq::empty()
            } else {
                t
            },
        }
    }
}

/// `t` without its trailing empty and `.` segments.
pub open spec fn trim_right_segs(t: Seq<char>) -> Seq<char>
    decreases t.len(),
{
    if t.len() == 0 {
        t
    } else {
        match last_index(t, '/') {
            Some(i) => {
                proof {
                    lemma_last_index(t, '/');
                }
                if is_skip_seg(t.subrange(i + 1, t.len() as int)) {
                    trim_right_segs(t.subrange(0, i))
                } else {
                    t
                }
            },
            None => if is_skip_seg(t) {
                Seq::empty()
            } else {
                t
            },
        }
    }
}

/// What follows a leading `~` component (`Path::strip_prefix("~")`), or
/// `None` when the path does not start with one.
pub open spec fn tilde_rest(p: Seq<char>) -> Option<Seq<char>> {
    if p.len() >= 1 && p[0] == '~' && (p.len() == 1 || p[1] == '/') {
        Some(trim_right_segs(trim_left_segs(p.subrange(1, p.len() as int))))
    } else {
        None
    }
}

/// A leading `~` replaced by the home directory (`.` when there is none).
pub open spec fn spec_expand_tilde(p: Seq<char>, home: Option<Seq<char>>) -> Seq<char> {
    match tilde_rest(p) {
        None => p,
        Some(rest) => {
            let h = match home {
                Some(h) => h,
                None => seq!['.'],
            };
            if rest.len() == 0 {
                h
            } else {
                join_path(h, rest)
            }
        },
    }
}

fn is_skip(seg: &[char]) -> (r: bool)
    ensures
        r == is_skip_seg(seg@),
{
    if seg.len() == 0 {
        return true;
    }
    if seg.len() == 1 && seg[0] == '.' {
        assert(seg@ =~= seq!['.']);
        return true;
    }
    false
}

fn trim_left_vec(t: Vec<char>) -> (r: Vec<char>)
    ensures
        r@ == trim_left_segs(t@),
    decreases t@.len(),
{
    if t.len() == 0 {
        return t;
    }
    proof {
        lemma_first_index(t@, '/');
    }
    match find_first(t.as_slice(), '/') {
        Some(i) => {
            let seg = slice_vec(t.as_slice(), 0, i);
            if is_skip(seg.as_slice()) {
                let rest = slice_vec(t.as_slice(), i + 1, t.len());
                trim_left_vec(rest)
            } else {
                t
            }
        },
        None => if is_skip(t.as_slice()) {
            Vec::new()
        } else {
            t
        },
    }
}

fn trim_right_vec(t: Vec<char>) -> (r: Vec<char>)
    ensures
        r@ == trim_right_segs(t@),
    decreases t@.len(),
{
    if t.len() == 0 {
        return t;
    }
    proof {
        lemma_last_index(t@, '/');
    }
    match find_last(t.as_slice(), '/') {
        Some(i) => {
            let seg = slice_vec(t.as_slice(), i + 1, t.len());
            if is_skip(seg.as_slice()) {
                let rest = slice_vec(t.as_slice(), 0, i);
                trim_right_vec(rest)
            } else {
                t
            }
        },
        None => if is_skip(t.as_slice()) {
            Vec::new()
        } else {
            t
        },
    }
}

/// `p` with a leading `~` component replaced by `home`, the home directory
/// (`.` when it is unknown).
pub fn expand_tilde_with(p: &str, home: Option<&str>) -> (r: String)
    ensures
        r@ == spec_expand_tilde(
            p@,
            match home {
                Some(h) => Some(h@),
                None => None,
            },
        ),
{
    let v = chars_of(p);
    if !(v.len() >= 1 && v[0] == '~' && (v.len() == 1 || v[1] == '/')) {
        return p.to_owned();
    }
    let after = slice_vec(v.as_slice(), 1, v.len());
    let rest = trim_right_vec(trim_left_vec(after));
    let h: String = match home {
        Some(h) => h.to_owned(),
        None => ".".to_owned(),
    };
    proof {
        reveal_strlit(".");
        assert(".".view() =~= seq!['.']);
    }
    if rest.len() == 0 {
        return h;
    }
    let rs = string_of(rest.as_slice());
    join(h.as_str(), rs.as_str())
}

/// The user's home directory (`directories::UserDirs::home_dir`). It depends
/// on the environment, so nothing is stated of it.
#[verifier::external_body]
fn user_home_dir() -> (r: Option<String>) {
    directories::UserDirs::new().map(|u| u.home_dir().to_string_lossy().into_owned())
}

/// The user's download directory (`directories::UserDirs::download_dir`). It
/// depends on the environment, so nothing is stated of it.
#[verifier::external_body]
fn user_download_dir() -> (r: Option<String>) {
    directories::UserDirs::new().and_then(|u| u.download_dir().map(|d| d.to_string_lossy().into_owned()))
}

/// A leading `~` in `p` replaced by the user's home directory.
pub fn expand_tilde(p: &str) -> (r: String)
    ensures
        exists|home: Option<Seq<char>>| r@ == spec_expand_tilde(p@, home),
{
    let home = user_home_dir();
    let r = match &home {
        Some(h) => expand_tilde_with(p, Some(h.as_str())),
        None => expand_tilde_with(p, None),
    };
    proof {
        let hv: Option<Seq<char>> = match home {
            Some(h) => Some(h@),
            None => None,
        };
        assert(r@ == spec_expand_tilde(p@, hv));
    }
    r
}

/// Where downloads go by default: `magneto` under the user's download
/// directory, else under `Downloads` in the home directory (`.` when that is
/// unknown too).
pub open spec fn spec_downloads_dir(download: Option<Seq<char>>, home: Option<Seq<char>>) -> Seq<char> {
    match download {
        Some(d) => join_path(d, "magneto"@),
        None => {
            let h = match home {
                Some(h) => h,
                None => seq!['.'],
            };
            join_path(join_path(h, "Downloads"@), "magneto"@)
        },
    }
}

pub fn downloads_dir_from(download: Option<&str>, home: Option<&str>) -> (r: String)
    ensures
        r@ == spec_downloads_dir(
            match download {
                Some(d) => Some(d@),
                None => None,
            },
            match home {
                Some(h) => Some(h@),
                None => None,
            },
        ),
{
    proof {
        reveal_strlit(".");
        assert(".".view() =~= seq!['.']);
    }
    match download {
        Some(d) => join(d, "magneto"),
        None => {
            let h = match home {
                Some(h) => h,
                None => ".",
            };
            let dl = join(h, "Downloads");
            join(dl.as_str(), "magneto")
        },
    }
}

/// The default downloads directory of this machine.
pub fn default_downloads_dir() -> (r: String)
    ensures
        exists|d: Option<Seq<char>>, h: Option<Seq<char>>| r@ == spec_downloads_dir(d, h),
{
    let d = user_download_dir();
    let h = user_home_dir();
    let r = match (&d, &h) {
        (Some(dv), Some(hv)) => downloads_dir_from(Some(dv.as_str()), Some(hv.as_str())),
        (Some(dv), None) => downloads_dir_from(Some(dv.as_str()), None),
        (None, Some(hv)) => downloads_dir_from(None, Some(hv.as_str())),
        (None, None) => downloads_dir_from(None, None),
    };
    proof {
        let dv: Option<Seq<char>> = match d {
            Some(x) => Some(x@),
            None => None,
        };
        let hv: Option<Seq<char>> = match h {
            Some(x) => Some(x@),
            None => None,
        };
        assert(r@ == spec_downloads_dir(dv, hv));
    }
    r
}

} // verus!
