//! The wire contract between the daemon and its clients: torrent and file
//! states, targets, events and command payloads. Serialization lives with
//! the host program; these are the values the logic works on.

use vstd::prelude::*;
use crate::config::Config;
use crate::text::{chars_of, lower_vec, lower_seq, has_prefix, starts_with_str};

verus! {

/// A torrent's info hash, as lowercase hex.
pub type InfoHash = String;

/// Whether `s` begins, ignoring ASCII case, with `p`.
pub open spec fn has_prefix_ci(s: Seq<char>, p: Seq<char>) -> bool {
    has_prefix(lower_seq(s), p)
}

/// True for sources `add_torrent` accepts verbatim: magnet URIs and HTTP(S)
/// torrent URLs (any ASCII case). Everything else is a local file path.
pub open spec fn spec_is_direct_source(s: Seq<char>) -> bool {
    has_prefix_ci(s, "magnet:"@) || has_prefix_ci(s, "http://"@) || has_prefix_ci(s, "https://"@)
}

pub fn is_direct_source(source: &str) -> (r: bool)
    ensures
        r == spec_is_direct_source(source@),
{
    let lower = lower_vec(chars_of(source).as_slice());
    starts_with_str(lower.as_slice(), "magnet:") || starts_with_str(lower.as_slice(), "http://")
        || starts_with_str(lower.as_slice(), "https://")
}

/// What a mutation command acts on.
#[derive(Debug, Clone, PartialEq, Eq)]
pub enum Target {
    Torrent { info_hash: InfoHash },
    File { info_hash: InfoHash, file_index: u32 },
    Folder { info_hash: InfoHash, path: String },
}

impl Target {
    pub open spec fn hash_view(&self) -> Seq<char> {
        match self {
            Target::Torrent { info_hash } => info_hash@,
            Target::File { info_hash, .. } => info_hash@,
            Target::Folder { info_hash, .. } => info_hash@,
        }
    }

    /// The torrent a target belongs to.
    pub fn info_hash(&self) -> (r: &str)
        ensures
            r@ == self.hash_view(),
    {
        match self {
            Target::Torrent { info_hash } => info_hash.as_str(),
            Target::File { info_hash, .. } => info_hash.as_str(),
            Target::Folder { info_hash, .. } => info_hash.as_str(),
        }
    }
}

#[derive(Debug, Clone, Copy, PartialEq, Eq, Structural)]
pub enum TorrentState {
    Initializing,
    Downloading,
    Paused,
    Idle,
    Complete,
    Error,
}

#[derive(Debug, Clone, Copy, PartialEq, Eq, Structural)]
pub enum FileState {
    Complete,
    Downloading,
    Queued,
    Paused,
    Idle,
    Error,
}

#[derive(Debug, Clone, Copy, PartialEq, Eq, Structural)]
pub enum SourceKind {
    Magnet,
    Url,
    File,
}

/// How an add source is read: magnets and HTTP(S) URLs go to the engine
/// as they are; anything else carries base64 `.torrent` bytes.
pub open spec fn spec_source_kind(s: Seq<char>) -> SourceKind {
    if has_prefix_ci(s, "magnet:"@) {
        SourceKind::Magnet
    } else if has_prefix_ci(s, "http://"@) || has_prefix_ci(s, "https://"@) {
        SourceKind::Url
    } else {
        SourceKind::File
    }
}

/// A source whose lowercased text starts with `magnet:` is a magnet, one
/// starting with `http://` or `https://` a URL, and exactly the sources that
/// are not added verbatim carry `.torrent` bytes.
pub proof fn lemma_source_kind_law(s: Seq<char>)
    ensures
        has_prefix(lower_seq(s), "magnet:"@) ==> spec_source_kind(s) == SourceKind::Magnet,
        has_prefix(lower_seq(s), "http://"@) || has_prefix(lower_seq(s), "https://"@) ==> spec_source_kind(s)
            == SourceKind::Url,
        (spec_source_kind(s) == SourceKind::File) == !(has_prefix(lower_seq(s), "magnet:"@) || has_prefix(
            lower_seq(s),
            "http://"@,
        ) || has_prefix(lower_seq(s), "https://"@)),
        (spec_source_kind(s) == SourceKind::File) == !spec_is_direct_source(s),
{
    reveal_strlit("magnet:");
    reveal_strlit("http://");
    reveal_strlit("https://");
    let l = lower_seq(s);
    if has_prefix(l, "magnet:"@) && (has_prefix(l, "http://"@) || has_prefix(l, "https://"@)) {
        assert(l.subrange(0, 7)[0] == 'm');
        assert(l[0] == 'm');
        if has_prefix(l, "http://"@) {
            assert(l.subrange(0, 7)[0] == 'h');
        } else {
            assert(l.subrange(0, 8)[0] == 'h');
        }
        assert(l[0] == 'h');
    }
}

pub fn detect_source_kind(s: &str) -> (r: SourceKind)
    ensures
        r == spec_source_kind(s@),
        has_prefix(lower_seq(s@), "magnet:"@) ==> r == SourceKind::Magnet,
        has_prefix(lower_seq(s@), "http://"@) || has_prefix(lower_seq(s@), "https://"@) ==> r == SourceKind::Url,
        (r == SourceKind::File) == !spec_is_direct_source(s@),
{
    proof {
        lemma_source_kind_law(s@);
    }
    let lower = lower_vec(chars_of(s).as_slice());
    if starts_with_str(lower.as_slice(), "magnet:") {
        SourceKind::Magnet
    } else if starts_with_str(lower.as_slice(), "http://") || starts_with_str(
        lower.as_slice(),
        "https://",
    ) {
        SourceKind::Url
    } else {
        SourceKind::File
    }
}

/// One media file of a torrent, as clients see it.
#[derive(Debug, Clone, PartialEq)]
pub struct FileEntry {
    pub index: u32,
    pub path: String,
    pub size: u64,
    pub downloaded_bytes: u64,
    pub selected: bool,
    pub state: FileState,
    pub persisted: bool,
    pub shared: bool,
}

#[derive(Debug, Clone)]
pub struct DaemonInfo {
    pub version: String,
    pub status: String,
    /// The control port the daemon bound. Loopback stream URLs are
    /// `http://127.0.0.1:{control_port}/stream/{info_hash}/{file_index}/{name}`,
    /// where `{name}` is the url-encoded file basename.
    pub control_port: u16,
    pub lan_port: u16,
    pub upnp_active: bool,
    /// Restart-required fields whose saved value differs from the running
    /// process.
    pub pending_restart: Vec<String>,
}

#[derive(Debug, Clone)]
pub struct FileStatsDelta {
    pub info_hash: InfoHash,
    pub file_index: u32,
    pub downloaded_bytes: u64,
    pub state: FileState,
}

#[derive(Debug, Clone)]
pub struct TorrentAddedEvent {
    pub info_hash: InfoHash,
    pub source: String,
    pub state: TorrentState,
    pub already_existed: bool,
}

#[derive(Debug, Clone)]
pub struct TorrentRemovedEvent {
    pub info_hash: InfoHash,
    pub reason: RemovalReason,
    pub fallback_launched: bool,
}

#[derive(Debug, Clone, Copy, PartialEq, Eq, Structural)]
pub enum RemovalReason {
    User,
    NoMedia,
    Fallback,
    Cleanup,
}

#[derive(Debug, Clone)]
pub struct PlayerLaunchFailedEvent {
    pub info_hash: Option<InfoHash>,
    pub kind: PlayerLaunchKind,
    pub error: String,
}

#[derive(Debug, Clone, Copy, PartialEq, Eq, Structural)]
pub enum PlayerLaunchKind {
    Autoplay,
    Play,
    Fallback,
}

#[derive(Debug, Clone)]
pub struct ConfigChangedEvent {
    pub config: Config,
    pub restart_required: bool,
    pub pending_restart: Vec<String>,
}

#[derive(Debug, Clone)]
pub struct AddTorrentReq {
    pub source: String,
}

#[derive(Debug, Clone)]
pub struct AddTorrentResp {
    pub info_hash: InfoHash,
    pub name: Option<String>,
    pub state: Option<TorrentState>,
    pub files: Option<Vec<FileEntry>>,
    pub media: Option<bool>,
    pub already_existed: bool,
    pub fallback_launched: bool,
    pub fallback_reason: Option<FallbackReason>,
}

#[derive(Debug, Clone, Copy, PartialEq, Eq, Structural)]
pub enum FallbackReason {
    NotConfigured,
    SpawnFailed,
}

#[derive(Debug, Clone)]
pub struct GetTorrentReq {
    pub info_hash: InfoHash,
}

#[derive(Debug, Clone)]
pub struct RemoveTorrentReq {
    pub info_hash: InfoHash,
    pub delete_files: bool,
}

#[derive(Debug, Clone)]
pub struct FallbackReq {
    pub info_hash: InfoHash,
}

#[derive(Debug, Clone)]
pub struct FallbackResp {
    pub launched: bool,
    pub removed: bool,
    pub reason: Option<FallbackReason>,
}

#[derive(Debug, Clone)]
pub struct TargetsReq {
    pub targets: Vec<Target>,
}

#[derive(Debug, Clone)]
pub struct AffectedResp {
    pub affected: u32,
}

#[derive(Debug, Clone)]
pub struct SetPersistReq {
    pub targets: Vec<Target>,
    pub persisted: bool,
}

#[derive(Debug, Clone)]
pub struct SetSharedReq {
    pub targets: Vec<Target>,
    pub shared: bool,
}

#[derive(Debug, Clone)]
pub struct PlayResp {
    pub items: Vec<PlayItem>,
}

#[derive(Debug, Clone, PartialEq)]
pub struct PlayItem {
    pub name: String,
    pub uri: String,
}

#[derive(Debug, Clone)]
pub struct ResolveLocalPathReq {
    pub target: Target,
}

#[derive(Debug, Clone)]
pub struct ResolveLocalPathResp {
    pub path: String,
    pub kind: PathKind,
    pub exists: bool,
}

#[derive(Debug, Clone, Copy, PartialEq, Eq, Structural)]
pub enum PathKind {
    File,
    Folder,
}

#[derive(Debug, Clone)]
pub struct SetConfigResp {
    pub config: Config,
    pub restart_required: bool,
    pub pending_restart: Vec<String>,
}

#[derive(Debug, Clone, Copy, PartialEq, Eq, Structural)]
pub struct OkResp {
    pub ok: bool,
}

impl OkResp {
    /// The affirmative reply.
    pub fn affirmative() -> (r: OkResp)
        ensures
            r.ok,
    {
        OkResp { ok: true }
    }
}

#[derive(Debug, Clone, Copy, PartialEq, Eq, Structural)]
pub struct PingResp {
    pub pong: bool,
}

impl PingResp {
    /// The answer to a ping.
    pub fn affirmative() -> (r: PingResp)
        ensures
            r.pong,
    {
        PingResp { pong: true }
    }
}

} // verus!
