//! Playing files: the URI a player is handed for each file (the local file
//! once it is complete on disk, else the loopback stream), the play request's
//! checks, and where a target lives on disk.

use vstd::prelude::*;
use vstd::utf8::encode_utf8;
use crate::config::{Config, PlayerConfig, join, join_path};
use crate::library::{decimal, percent_encoded, push_decimal, push_str_chars, url_encode};
use crate::paths::{file_name, file_name_range};
use crate::policy::{player_configured, player_command};
use crate::protocol::{PathKind, PlayItem, Target};
use crate::render::{EngineView, engine_files, spec_local_root, torrent_local_root, file_local_path};
use crate::text::{chars_of, string_of, slice_vec, string_views, trim_char, trim_char_vec, replace_char,
    replace_char_vec};

verus! {

/// The loopback stream URL of a file:
/// `http://127.0.0.1:{port}/stream/{info_hash}/{index}/{name}`, the name
/// percent-encoded.
pub open spec fn spec_loopback_url(info_hash: Seq<char>, index: nat, name: Seq<char>, port: u16) -> Seq<char> {
    "http://127.0.0.1:"@ + decimal(port as nat) + "/stream/"@ + info_hash + seq!['/'] + decimal(index) + seq!['/']
        + percent_encoded(encode_utf8(name))
}

/// The loopback stream URL of file `file_index` of a torrent.
pub fn stream_url(info_hash: &str, file_index: usize, filename: &str, port: u16) -> (r: String)
    ensures
        r@ == spec_loopback_url(info_hash@, file_index as nat, filename@, port),
{
    let mut out: Vec<char> = Vec::new();
    push_str_chars(&mut out, "http://127.0.0.1:");
    push_decimal(&mut out, port as u64);
    push_str_chars(&mut out, "/stream/");
    push_str_chars(&mut out, info_hash);
    out.push('/');
    push_decimal(&mut out, file_index as u64);
    out.push('/');
    let enc = url_encode(filename);
    push_str_chars(&mut out, enc.as_str());
    assert(out@ =~= spec_loopback_url(info_hash@, file_index as nat, filename@, port));
    string_of(out.as_slice())
}

/// The URI a player gets: the file on disk once every byte is held and it
/// exists there (`local`), else the loopback stream.
pub open spec fn spec_hybrid_uri(
    size: u64,
    downloaded: u64,
    local: Option<Seq<char>>,
    info_hash: Seq<char>,
    index: nat,
    name: Seq<char>,
    port: u16,
) -> Seq<char> {
    if downloaded >= size && local is Some {
        local->0
    } else {
        spec_loopback_url(info_hash, index, name, port)
    }
}

/// The player URI of a file; `local` is its path when it exists on disk.
pub fn hybrid_uri(
    file_index: usize,
    size: u64,
    downloaded: u64,
    filename: &str,
    info_hash: &str,
    port: u16,
    local: Option<String>,
) -> (r: String)
    ensures
        r@ == spec_hybrid_uri(
            size,
            downloaded,
            match local {
                Some(p) => Some(p@),
                None => None,
            },
            info_hash@,
            file_index as nat,
            filename@,
            port,
        ),
{
    if downloaded >= size {
        if let Some(p) = local {
            return p;
        }
    }
    stream_url(info_hash, file_index, filename, port)
}

/// The name a player shows for a file: its file name, else `file-{index}`.
pub open spec fn play_name(path: Seq<char>, index: nat) -> Seq<char> {
    match file_name(path) {
        Some(n) => n,
        None => "file-"@ + decimal(index),
    }
}

fn name_of(path: &str, index: usize) -> (r: String)
    ensures
        r@ == play_name(path@, index as nat),
{
    let v = chars_of(path);
    match file_name_range(v.as_slice()) {
        Some((a, b)) => string_of(slice_vec(v.as_slice(), a, b).as_slice()),
        None => {
            let mut out: Vec<char> = Vec::new();
            push_str_chars(&mut out, "file-");
            push_decimal(&mut out, index as u64);
            string_of(out.as_slice())
        },
    }
}

/// The player entries of `media` in order, as (name, URI): an index the
/// torrent does not have is skipped. `on_disk[i]` says whether file `i`
/// exists at its local path.
pub open spec fn spec_play_items(
    view: EngineView,
    media: Seq<u32>,
    info_hash: Seq<char>,
    port: u16,
    download_dir: Seq<char>,
    on_disk: Seq<bool>,
) -> Seq<(Seq<char>, Seq<char>)>
    decreases media.len(),
{
    if media.len() == 0 {
        Seq::empty()
    } else {
        let before = spec_play_items(view, media.drop_last(), info_hash, port, download_dir, on_disk);
        let i = media.last() as int;
        let files = engine_files(view);
        if i < files.len() {
            let name = play_name(files[i].path@, i as nat);
            let local = if i < on_disk.len() && on_disk[i] {
                Some(join_path(spec_local_root(view, download_dir), files[i].path@))
            } else {
                None
            };
            let held = if i < view.file_progress@.len() {
                view.file_progress@[i]
            } else {
                0
            };
            before.push((name, spec_hybrid_uri(files[i].len, held, local, info_hash, i as nat, name, port)))
        } else {
            before
        }
    }
}

/// The URIs of play items, in order.
pub open spec fn item_uris(items: Seq<PlayItem>) -> Seq<Seq<char>> {
    items.map_values(|p: PlayItem| p.uri@)
}

/// Plain (name, URI) pairs of play items.
pub open spec fn item_views(items: Seq<PlayItem>) -> Seq<(Seq<char>, Seq<char>)> {
    items.map_values(|p: PlayItem| (p.name@, p.uri@))
}

/// What a player is handed for `media` of a torrent.
pub fn build_play_items(
    view: &EngineView,
    media: &[u32],
    info_hash: &str,
    port: u16,
    download_dir: &str,
    on_disk: &[bool],
) -> (r: Vec<PlayItem>)
    ensures
        item_views(r@) == spec_play_items(*view, media@, info_hash@, port, download_dir@, on_disk@),
{
    let mut out: Vec<PlayItem> = Vec::new();
    let mut k: usize = 0;
    while k < media.len()
        invariant
            k <= media@.len(),
            item_views(out@) == spec_play_items(
                *view,
                media@.subrange(0, k as int),
                info_hash@,
                port,
                download_dir@,
                on_disk@,
            ),
        decreases media@.len() - k,
    {
        let ghost before = out@;
        let ghost sub = media@.subrange(0, k as int + 1);
        proof {
            assert(sub.drop_last() =~= media@.subrange(0, k as int));
        }
        let i = media[k] as usize;
        let n = match &view.files {
            Some(f) => f.len(),
            None => 0,
        };
        if i < n {
            let (len, path) = match &view.files {
                Some(f) => (f[i].len, f[i].path.as_str()),
                None => (0, ""),
            };
            let name = name_of(path, i);
            let held = if i < view.file_progress.len() {
                view.file_progress[i]
            } else {
                0
            };
            let local = if i < on_disk.len() && on_disk[i] {
                file_local_path(view, i, download_dir)
            } else {
                None
            };
            let uri = hybrid_uri(i, len, held, name.as_str(), info_hash, port, local);
            out.push(PlayItem { name, uri });
            proof {
                assert(out@ == before.push(out@.last()));
                assert(item_views(out@) =~= item_views(before).push((out@.last().name@, out@.last().uri@)));
            }
        }
        k += 1;
    }
    assert(media@.subrange(0, media@.len() as int) =~= media@);
    out
}

/// Why a play request is refused.
#[derive(Debug, Clone, Copy, PartialEq, Eq, Structural)]
pub enum PlayRefusal {
    NotConfigured,
    NothingPlayable,
}

impl PlayRefusal {
    /// The error text a client gets.
    pub fn message(&self) -> (r: String)
        ensures
            r@ == match *self {
                PlayRefusal::NotConfigured => "player command is not configured"@,
                PlayRefusal::NothingPlayable => "no playable files in targets"@,
            },
    {
        match self {
            PlayRefusal::NotConfigured => "player command is not configured".to_owned(),
            PlayRefusal::NothingPlayable => "no playable files in targets".to_owned(),
        }
    }
}

/// A play request refused before anything is resolved: no player.
pub fn check_player(player: &PlayerConfig) -> (r: Result<(), PlayRefusal>)
    ensures
        r is Ok <==> player_configured(*player),
        r matches Err(e) ==> e == PlayRefusal::NotConfigured,
{
    if crate::policy::is_player_configured(player) {
        Ok(())
    } else {
        Err(PlayRefusal::NotConfigured)
    }
}

/// The command that plays `items`: the player with its arguments and every
/// item's URI in order; refused when there is nothing to play or no player.
pub fn play_command(player: &PlayerConfig, items: &Vec<PlayItem>) -> (r: Result<(String, Vec<String>), PlayRefusal>)
    ensures
        match r {
            Ok((c, a)) => player_configured(*player) && items@.len() > 0 && c@ == player.command@ && string_views(a@)
                == string_views(player.args@) + item_uris(items@),
            Err(e) => (e == PlayRefusal::NotConfigured && !player_configured(*player)) || (e
                == PlayRefusal::NothingPlayable && player_configured(*player) && items@.len() == 0),
        },
{
    check_player(player)?;
    if items.len() == 0 {
        return Err(PlayRefusal::NothingPlayable);
    }
    let mut uris: Vec<String> = Vec::new();
    let mut i: usize = 0;
    while i < items.len()
        invariant
            i <= items@.len(),
            string_views(uris@) == item_uris(items@).subrange(0, i as int),
        decreases items@.len() - i,
    {
        let ghost before = uris@;
        uris.push(items[i].uri.clone());
        proof {
            assert(string_views(uris@) =~= string_views(before).push(items@[i as int].uri@));
        }
        i += 1;
        proof {
            assert(string_views(uris@) =~= item_uris(items@).subrange(0, i as int));
        }
    }
    proof {
        assert(item_uris(items@).subrange(0, items@.len() as int) =~= item_uris(items@));
    }
    match player_command(player, &uris) {
        Some(cmd) => Ok(cmd),
        None => Err(PlayRefusal::NotConfigured),
    }
}

/// Whether a `..` segment of `s` starts at `i`.
pub open spec fn parent_at(s: Seq<char>, i: int) -> bool {
    0 <= i && i + 2 <= s.len() && s[i] == '.' && s[i + 1] == '.' && (i == 0 || s[i - 1] == '/') && (i + 2 == s.len()
        || s[i + 2] == '/')
}

/// Whether some `/`-separated segment of `s` is `..`.
pub open spec fn has_parent_seg(s: Seq<char>) -> bool {
    exists|i: int| #[trigger] parent_at(s, i)
}

/// A folder target's path relative to its torrent: slashes trimmed from
/// both ends and backslashes made slashes; `None` when it is absolute or
/// climbs out with `..`.
pub open spec fn spec_folder_rel(path: Seq<char>) -> Option<Seq<char>> {
    let n = replace_char(trim_char(path, '/'), '\\', '/');
    if (n.len() > 0 && n[0] == '/') || has_parent_seg(n) {
        None
    } else {
        Some(n)
    }
}

fn parent_seg(v: &[char]) -> (r: bool)
    ensures
        r == has_parent_seg(v@),
{
    let n = v.len();
    let mut i: usize = 0;
    while n >= 2 && i <= n - 2
        invariant
            n == v@.len(),
            forall|j: int| 0 <= j < i ==> !#[trigger] parent_at(v@, j),
        decreases n - i,
    {
        if v[i] == '.' && v[i + 1] == '.' && (i == 0 || v[i - 1] == '/') && (i + 2 == n || v[i + 2] == '/') {
            assert(parent_at(v@, i as int));
            return true;
        }
        i += 1;
    }
    assert forall|j: int| !parent_at(v@, j) by {
        if parent_at(v@, j) {
            assert(j < i);
        }
    }
    false
}

pub fn folder_rel(path: &str) -> (r: Option<String>)
    ensures
        match r {
            Some(p) => spec_folder_rel(path@) == Some(p@),
            None => spec_folder_rel(path@) is None,
        },
{
    let v = chars_of(path);
    let t = trim_char_vec(v.as_slice(), '/');
    let n = replace_char_vec(t.as_slice(), '\\', '/');
    if (n.len() > 0 && n[0] == '/') || parent_seg(n.as_slice()) {
        None
    } else {
        Some(string_of(n.as_slice()))
    }
}

/// Why a local path cannot be given.
#[derive(Debug, Clone, PartialEq, Eq)]
pub enum ResolveError {
    /// The torrent is not in the session.
    NoTorrent(String),
    /// A folder path that is absolute or climbs out.
    NotRelative,
    /// A file index the torrent does not have.
    Unresolved,
}

/// Where a target lives on disk, and whether it is a file or a folder:
/// a torrent is its root folder, a folder is that path under the root, a
/// file is its own path. `view` is the torrent as the engine has it.
pub open spec fn spec_resolve(target: Target, view: Option<EngineView>, download_dir: Seq<char>) -> Option<
    (Seq<char>, PathKind),
> {
    match view {
        None => None,
        Some(v) => {
            let root = spec_local_root(v, download_dir);
            match target {
                Target::Torrent { .. } => Some((root, PathKind::Folder)),
                Target::Folder { path, .. } => match spec_folder_rel(path@) {
                    Some(rel) => Some((
                        if rel.len() == 0 {
                            root
                        } else {
                            join_path(root, rel)
                        },
                        PathKind::Folder,
                    )),
                    None => None,
                },
                Target::File { file_index, .. } => if (file_index as int) < engine_files(v).len() {
                    Some((join_path(root, engine_files(v)[file_index as int].path@), PathKind::File))
                } else {
                    None
                },
            }
        },
    }
}

pub fn resolve_local_path(target: &Target, view: Option<&EngineView>, download_dir: &str) -> (r: Result<
    (String, PathKind),
    ResolveError,
>)
    ensures
        ({
            let v = match view {
                Some(v) => Some(*v),
                None => None,
            };
            match r {
                Ok((p, k)) => spec_resolve(*target, v, download_dir@) == Some((p@, k)),
                Err(ResolveError::NoTorrent(h)) => view is None && h@ == target.hash_view(),
                Err(ResolveError::NotRelative) => view is Some && (target matches Target::Folder { path, .. }
                    && spec_folder_rel(path@) is None),
                Err(ResolveError::Unresolved) => view is Some && (target matches Target::File { file_index, .. }
                    && file_index as int >= engine_files(v->0).len()),
            }
        }),
{
    let v = match view {
        Some(v) => v,
        None => return Err(ResolveError::NoTorrent(target.info_hash().to_owned())),
    };
    match target {
        Target::Torrent { .. } => Ok((torrent_local_root(v, download_dir), PathKind::Folder)),
        Target::Folder { path, .. } => match folder_rel(path.as_str()) {
            Some(rel) => {
                let root = torrent_local_root(v, download_dir);
                if rel.as_str().is_empty() {
                    Ok((root, PathKind::Folder))
                } else {
                    Ok((join(root.as_str(), rel.as_str()), PathKind::Folder))
                }
            },
            None => Err(ResolveError::NotRelative),
        },
        Target::File { file_index, .. } => match file_local_path(v, *file_index as usize, download_dir) {
            Some(p) => Ok((p, PathKind::File)),
            None => Err(ResolveError::Unresolved),
        },
    }
}

impl ResolveError {
    /// The error text a client gets.
    pub fn message(&self) -> (r: String)
        ensures
            match *self {
                ResolveError::NoTorrent(h) => r@ == "no torrent with info_hash "@ + h@,
                ResolveError::NotRelative => r@ == "path must be relative without parent components"@,
                ResolveError::Unresolved => r@ == "could not resolve file path"@,
            },
    {
        match self {
            ResolveError::NoTorrent(h) => {
                let mut out: Vec<char> = Vec::new();
                push_str_chars(&mut out, "no torrent with info_hash ");
                push_str_chars(&mut out, h.as_str());
                string_of(out.as_slice())
            },
            ResolveError::NotRelative => "path must be relative without parent components".to_owned(),
            ResolveError::Unresolved => "could not resolve file path".to_owned(),
        }
    }
}

} // verus!
