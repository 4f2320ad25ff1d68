//! The control requests' own rules: how an add source is read, which files
//! of a torrent are media and which are subtitles, what a persist, share or
//! pause change touches, how startup reconciles records with the engine, and
//! the answers of resume, drop and fallback.

use vstd::prelude::*;
use base64::Engine;
use crate::media::{is_media, is_subtitle, spec_is_media, spec_is_subtitle};
use crate::metadata::{FileMetadata, TorrentMetadata};
use crate::protocol::{AddTorrentResp, FallbackReason, FallbackResp, FileEntry, SourceKind, Target, TorrentState,
    detect_source_kind, spec_source_kind, spec_is_direct_source, is_direct_source};
use crate::targets::{split_targets, torrent_hashes, non_torrent};
use crate::text::{chars_of, eq_chars, string_views, trim, trim_vec, string_of};

verus! {

/// The bytes standard base64 (`base64::engine::general_purpose::STANDARD`)
/// decodes from `input`, or `None` when it is not valid base64.
pub uninterp spec fn base64_decoded(input: Seq<char>) -> Option<Seq<u8>>;

/// The standard base64 text of `bytes`.
pub uninterp spec fn base64_encoded(bytes: Seq<u8>) -> Seq<char>;

/// `STANDARD.decode`: the decoded bytes, or the decoder's error text.
#[verifier::external_body]
fn base64_decode(input: &str) -> (r: Result<Vec<u8>, String>)
    ensures
        match r {
            Ok(b) => base64_decoded(input@) == Some(b@),
            Err(_) => base64_decoded(input@) is None,
        },
{
    base64::engine::general_purpose::STANDARD.decode(input).map_err(|e| e.to_string())
}

/// `STANDARD.encode`. It panics only when the encoded length overflows.
#[verifier::external_body]
pub(crate) fn base64_encode(bytes: &[u8]) -> (r: String)
    requires
        bytes@.len() <= 3 * ((usize::MAX - 4) / 4),
    ensures
        r@ == base64_encoded(bytes@),
{
    base64::engine::general_purpose::STANDARD.encode(bytes)
}

/// An add request's source as the daemon reads it: a magnet or URL for the
/// engine, or the bytes of a torrent file.
#[derive(Debug, PartialEq, Eq)]
pub enum AddSource {
    Link { source: String, kind: SourceKind },
    File { source: String, bytes: Vec<u8> },
}

/// Why an add request is refused before it reaches the engine.
#[derive(Debug, PartialEq, Eq)]
pub enum AddRefusal {
    /// A file source that is not base64; the decoder's words.
    InvalidBase64(String),
}

/// An add request's source, trimmed: a magnet or HTTP(S) URL goes to the
/// engine as it is, anything else is base64 torrent bytes.
pub fn prepare_add(source: &str) -> (r: Result<AddSource, AddRefusal>)
    ensures
        ({
            let t = trim(source@);
            match r {
                Ok(AddSource::Link { source: s, kind }) => s@ == t && kind == spec_source_kind(t) && kind
                    != SourceKind::File,
                Ok(AddSource::File { source: s, bytes }) => s@ == t && spec_source_kind(t) == SourceKind::File
                    && base64_decoded(t) == Some(bytes@),
                Err(AddRefusal::InvalidBase64(_)) => spec_source_kind(t) == SourceKind::File && base64_decoded(t)
                    is None,
            }
        }),
{
    let tv = trim_vec(chars_of(source).as_slice());
    let trimmed = string_of(tv.as_slice());
    let kind = detect_source_kind(trimmed.as_str());
    match kind {
        SourceKind::File => match base64_decode(trimmed.as_str()) {
            Ok(bytes) => Ok(AddSource::File { source: trimmed, bytes }),
            Err(e) => Err(AddRefusal::InvalidBase64(e)),
        },
        _ => Ok(AddSource::Link { source: trimmed, kind }),
    }
}

/// What a client sends for a source: a magnet or HTTP(S) URL as it is, a
/// torrent file's bytes (read by the caller) as base64.
pub fn encode_source(source: &str, file_bytes: &[u8]) -> (r: String)
    requires
        file_bytes@.len() <= 3 * ((usize::MAX - 4) / 4),
    ensures
        r@ == if spec_is_direct_source(source@) {
            source@
        } else {
            base64_encoded(file_bytes@)
        },
{
    if is_direct_source(source) {
        source.to_owned()
    } else {
        base64_encode(file_bytes)
    }
}

/// The indices of the files that are media by `extensions`, ascending.
pub open spec fn media_files(paths: Seq<Seq<char>>, extensions: Seq<Seq<char>>) -> Seq<u32>
    decreases paths.len(),
{
    if paths.len() == 0 {
        Seq::empty()
    } else {
        let before = media_files(paths.drop_last(), extensions);
        if spec_is_media(paths.last(), extensions) {
            before.push((paths.len() - 1) as u32)
        } else {
            before
        }
    }
}

/// The indices of the subtitle files, ascending.
pub open spec fn subtitle_files(paths: Seq<Seq<char>>) -> Seq<u32>
    decreases paths.len(),
{
    if paths.len() == 0 {
        Seq::empty()
    } else {
        let before = subtitle_files(paths.drop_last());
        if spec_is_subtitle(paths.last()) {
            before.push((paths.len() - 1) as u32)
        } else {
            before
        }
    }
}

/// A torrent's files sorted into media (by the configured extensions) and
/// subtitles, each as ascending indices.
pub fn classify_files(paths: &Vec<String>, extensions: &[String]) -> (r: (Vec<u32>, Vec<u32>))
    ensures
        r.0@ == media_files(string_views(paths@), string_views(extensions@)),
        r.1@ == subtitle_files(string_views(paths@)),
{
    let ghost exts = string_views(extensions@);
    let mut media: Vec<u32> = Vec::new();
    let mut subs: Vec<u32> = Vec::new();
    let mut i: usize = 0;
    while i < paths.len()
        invariant
            i <= paths@.len(),
            exts == string_views(extensions@),
            media@ == media_files(string_views(paths@).subrange(0, i as int), exts),
            subs@ == subtitle_files(string_views(paths@).subrange(0, i as int)),
        decreases paths@.len() - i,
    {
        let ghost sub = string_views(paths@).subrange(0, i as int + 1);
        proof {
            assert(sub.drop_last() =~= string_views(paths@).subrange(0, i as int));
            assert(sub.last() == paths@[i as int]@);
        }
        if is_media(paths[i].as_str(), extensions) {
            media.push(i as u32);
        }
        if is_subtitle(paths[i].as_str()) {
            subs.push(i as u32);
        }
        i += 1;
    }
    assert(string_views(paths@).subrange(0, paths@.len() as int) =~= string_views(paths@));
    (media, subs)
}

/// A per-file choice a request can change.
#[derive(Debug, Clone, Copy, PartialEq, Eq, Structural)]
pub enum FileFlag {
    Persisted,
    Shared,
}

/// A file's choices with `flag` set to `value`.
pub open spec fn with_flag(fm: FileMetadata, flag: FileFlag, value: bool) -> FileMetadata {
    match flag {
        FileFlag::Persisted => FileMetadata { persisted: value, ..fm },
        FileFlag::Shared => FileMetadata { shared: value, ..fm },
    }
}

/// How many of `indices` (counting repeats) name a file of the map.
pub open spec fn hits(files: Seq<(u32, FileMetadata)>, indices: Seq<u32>) -> nat
    decreases indices.len(),
{
    if indices.len() == 0 {
        0
    } else {
        hits(files, indices.drop_last()) + if exists|j: int| 0 <= j < files.len() && files[j].0 == indices.last() {
            1nat
        } else {
            0nat
        }
    }
}

/// The file map with `flag` set to `value` on each file `indices` names.
pub open spec fn spec_set_flag(files: Seq<(u32, FileMetadata)>, indices: Seq<u32>, flag: FileFlag, value: bool) -> Seq<
    (u32, FileMetadata),
> {
    files.map_values(
        |e: (u32, FileMetadata)|
            if indices.contains(e.0) {
                (e.0, with_flag(e.1, flag, value))
            } else {
                e
            },
    )
}

fn has_file(files: &Vec<(u32, FileMetadata)>, idx: u32) -> (r: bool)
    ensures
        r == exists|j: int| 0 <= j < files@.len() && files@[j].0 == idx,
{
    let mut j: usize = 0;
    while j < files.len()
        invariant
            j <= files@.len(),
            forall|x: int| 0 <= x < j ==> files@[x].0 != idx,
        decreases files@.len() - j,
    {
        if files[j].0 == idx {
            return true;
        }
        j += 1;
    }
    false
}

/// Set `flag` to `value` on each file of a torrent's map that `indices`
/// names, returning how many of `indices` named one (a repeat counts again).
pub fn set_flag(entry: &mut TorrentMetadata, indices: &[u32], flag: FileFlag, value: bool) -> (affected: u32)
    requires
        indices@.len() <= u32::MAX,
    ensures
        final(entry).files@ == spec_set_flag(old(entry).files@, indices@, flag, value),
        affected == hits(old(entry).files@, indices@),
        final(entry).source == old(entry).source,
        final(entry).source_kind == old(entry).source_kind,
        final(entry).added_at == old(entry).added_at,
        final(entry).finalized == old(entry).finalized,
{
    let ghost start = entry.files@;
    let mut affected: u32 = 0;
    let mut k: usize = 0;
    while k < indices.len()
        invariant
            k <= indices@.len(),
            indices@.len() <= u32::MAX,
            entry.files@ == start,
            affected == hits(start, indices@.subrange(0, k as int)),
            affected <= k,
        decreases indices@.len() - k,
    {
        proof {
            let sub = indices@.subrange(0, k as int + 1);
            assert(sub.drop_last() =~= indices@.subrange(0, k as int));
        }
        if has_file(&entry.files, indices[k]) {
            affected += 1;
        }
        k += 1;
    }
    assert(indices@.subrange(0, indices@.len() as int) =~= indices@);
    let mut next: Vec<(u32, FileMetadata)> = Vec::new();
    let mut j: usize = 0;
    while j < entry.files.len()
        invariant
            j <= entry.files@.len(),
            entry.files@ == start,
            next@ == spec_set_flag(start, indices@, flag, value).subrange(0, j as int),
        decreases entry.files@.len() - j,
    {
        let (idx, fm) = entry.files[j];
        if crate::state::contains_u32(indices, idx) {
            let changed = match flag {
                FileFlag::Persisted => FileMetadata { persisted: value, ..fm },
                FileFlag::Shared => FileMetadata { shared: value, ..fm },
            };
            next.push((idx, changed));
        } else {
            next.push((idx, fm));
        }
        j += 1;
        assert(next@ =~= spec_set_flag(start, indices@, flag, value).subrange(0, j as int));
    }
    assert(spec_set_flag(start, indices@, flag, value).subrange(0, start.len() as int) =~= spec_set_flag(
        start,
        indices@,
        flag,
        value,
    ));
    entry.files = next;
    affected
}

/// A resume that touched nothing because every torrent it named was still
/// checking its files is refused; otherwise it reports how many files it
/// resumed.
pub fn resume_outcome(affected: u32, initializing: u32) -> (r: Result<u32, String>)
    ensures
        match r {
            Ok(n) => n == affected && !(affected == 0 && initializing > 0),
            Err(m) => affected == 0 && initializing > 0 && m@ == "torrent is still checking files; try again shortly"@,
        },
{
    if affected == 0 && initializing > 0 {
        Err("torrent is still checking files; try again shortly".to_owned())
    } else {
        Ok(affected)
    }
}

/// Dropping works on files and folders only: a torrent target refuses the
/// whole request; otherwise the targets to drop.
pub fn check_drop(targets: Vec<Target>) -> (r: Result<Vec<Target>, String>)
    ensures
        match r {
            Ok(rest) => torrent_hashes(targets@).len() == 0 && rest@ == non_torrent(targets@),
            Err(m) => torrent_hashes(targets@).len() > 0
                && m@ == "drop_targets handles files and folders; use remove_torrent for a torrent"@,
        },
{
    let (torrents, rest) = split_targets(targets);
    if torrents.len() > 0 {
        return Err("drop_targets handles files and folders; use remove_torrent for a torrent".to_owned());
    }
    Ok(rest)
}

/// What to do after a fallback handler was (or was not) launched for a
/// torrent: the answer, whether to announce a failed spawn, and whether the
/// torrent leaves magneto (only once the handler took it).
#[derive(Debug, Clone)]
pub struct FallbackPlan {
    pub resp: FallbackResp,
    pub announce_failure: bool,
    pub remove: bool,
}

pub fn fallback_plan(launched: bool, reason: Option<FallbackReason>) -> (p: FallbackPlan)
    ensures
        p.announce_failure == (!launched && reason == Some(FallbackReason::SpawnFailed)),
        p.remove == launched,
        p.resp.launched == launched,
        p.resp.removed == launched,
        p.resp.reason == if launched {
            None
        } else {
            reason
        },
{
    let announce_failure = !launched && match reason {
        Some(FallbackReason::SpawnFailed) => true,
        _ => false,
    };
    if launched {
        FallbackPlan { resp: FallbackResp { launched: true, removed: true, reason: None }, announce_failure, remove: true }
    } else {
        FallbackPlan { resp: FallbackResp { launched: false, removed: false, reason }, announce_failure, remove: false }
    }
}

/// How a finished add continues: a torrent already managed is answered from
/// what is known of it; a new one still checking its files waits for the
/// check; any other is finalized now.
#[derive(Debug, Clone, Copy, PartialEq, Eq, Structural)]
pub enum AddStep {
    AnswerExisting,
    AwaitCheck,
    Finalize,
}

pub fn add_step(already_existed: bool, initializing: bool) -> (s: AddStep)
    ensures
        s == if already_existed {
            AddStep::AnswerExisting
        } else if initializing {
            AddStep::AwaitCheck
        } else {
            AddStep::Finalize
        },
{
    if already_existed {
        AddStep::AnswerExisting
    } else if initializing {
        AddStep::AwaitCheck
    } else {
        AddStep::Finalize
    }
}

/// What startup does with each torrent: records the engine no longer has
/// are purged; torrents without a healthy record are finalized when their
/// metadata is known, else watched until it is.
#[derive(Debug)]
pub struct ReconcilePlan {
    pub purge: Vec<String>,
    pub finalize: Vec<String>,
    pub watch: Vec<String>,
}

/// The hashes of `all` that `other` lacks, in order.
pub open spec fn hashes_not_in(all: Seq<Seq<char>>, other: Seq<Seq<char>>) -> Seq<Seq<char>> {
    all.filter(|h: Seq<char>| !other.contains(h))
}

fn contains_hash(list: &Vec<String>, h: &String) -> (r: bool)
    ensures
        r == string_views(list@).contains(h@),
{
    let hv = chars_of(h.as_str());
    let mut i: usize = 0;
    while i < list.len()
        invariant
            i <= list@.len(),
            hv@ == h@,
            forall|j: int| 0 <= j < i ==> list@[j]@ != h@,
        decreases list@.len() - i,
    {
        let lv = chars_of(list[i].as_str());
        if eq_chars(lv.as_slice(), hv.as_slice()) {
            assert(string_views(list@)[i as int] == h@);
            return true;
        }
        i += 1;
    }
    assert forall|j: int| 0 <= j < string_views(list@).len() implies string_views(list@)[j] != h@ by {
        assert(string_views(list@)[j] == list@[j]@);
    }
    false
}

/// The session's torrents that need finalizing (`resolved`) or watching.
pub open spec fn unhealthy_split(
    session: Seq<Seq<char>>,
    healthy: Seq<Seq<char>>,
    resolved: Seq<bool>,
    want_resolved: bool,
) -> Seq<Seq<char>>
    decreases session.len(),
{
    if session.len() == 0 {
        Seq::empty()
    } else {
        let i = session.len() - 1;
        let before = unhealthy_split(session.drop_last(), healthy, resolved, want_resolved);
        if !healthy.contains(session[i]) && (i < resolved.len() && resolved[i]) == want_resolved {
            before.push(session[i])
        } else {
            before
        }
    }
}

/// `session`: the engine's torrents; `records`: the stored records, each
/// with whether it lists any file (healthy); `resolved[i]`: whether the
/// engine knows the metadata of `session[i]`.
pub fn reconcile_plan(session: &Vec<String>, records: &Vec<(String, bool)>, resolved: &[bool]) -> (p: ReconcilePlan)
    ensures
        string_views(p.purge@) == hashes_not_in(
            records@.map_values(|r: (String, bool)| r.0@),
            string_views(session@),
        ),
        string_views(p.finalize@) == unhealthy_split(
            string_views(session@),
            records@.filter(|r: (String, bool)| r.1).map_values(|r: (String, bool)| r.0@),
            resolved@,
            true,
        ),
        string_views(p.watch@) == unhealthy_split(
            string_views(session@),
            records@.filter(|r: (String, bool)| r.1).map_values(|r: (String, bool)| r.0@),
            resolved@,
            false,
        ),
{
    let ghost keys = records@.map_values(|r: (String, bool)| r.0@);
    let ghost sv = string_views(session@);
    let mut purge: Vec<String> = Vec::new();
    let mut healthy: Vec<String> = Vec::new();
    let mut k: usize = 0;
    while k < records.len()
        invariant
            k <= records@.len(),
            keys == records@.map_values(|r: (String, bool)| r.0@),
            sv == string_views(session@),
            string_views(purge@) == hashes_not_in(keys.subrange(0, k as int), sv),
            string_views(healthy@) == records@.subrange(0, k as int).filter(|r: (String, bool)| r.1).map_values(
                |r: (String, bool)| r.0@,
            ),
        decreases records@.len() - k,
    {
        proof {
            reveal(Seq::filter);
            assert(keys.subrange(0, k as int + 1).drop_last() =~= keys.subrange(0, k as int));
            assert(records@.subrange(0, k as int + 1).drop_last() =~= records@.subrange(0, k as int));
        }
        let ghost p0 = string_views(purge@);
        let ghost h0 = string_views(healthy@);
        if !contains_hash(session, &records[k].0) {
            purge.push(records[k].0.clone());
            proof {
                assert(string_views(purge@) =~= p0.push(records@[k as int].0@));
            }
        }
        if records[k].1 {
            healthy.push(records[k].0.clone());
            proof {
                assert(string_views(healthy@) =~= h0.push(records@[k as int].0@));
            }
        }
        k += 1;
        proof {
            assert(string_views(purge@) =~= hashes_not_in(keys.subrange(0, k as int), sv));
            assert(string_views(healthy@) =~= records@.subrange(0, k as int).filter(|r: (String, bool)| r.1).map_values(
                |r: (String, bool)| r.0@,
            ));
        }
    }
    proof {
        assert(keys.subrange(0, records@.len() as int) =~= keys);
        assert(records@.subrange(0, records@.len() as int) =~= records@);
    }
    let ghost hv = string_views(healthy@);
    let mut finalize: Vec<String> = Vec::new();
    let mut watch: Vec<String> = Vec::new();
    let mut i: usize = 0;
    while i < session.len()
        invariant
            i <= session@.len(),
            sv == string_views(session@),
            hv == string_views(healthy@),
            string_views(finalize@) == unhealthy_split(sv.subrange(0, i as int), hv, resolved@, true),
            string_views(watch@) == unhealthy_split(sv.subrange(0, i as int), hv, resolved@, false),
        decreases session@.len() - i,
    {
        proof {
            let sub = sv.subrange(0, i as int + 1);
            assert(sub.drop_last() =~= sv.subrange(0, i as int));
            assert(sub[i as int] == session@[i as int]@);
        }
        let ghost f0 = string_views(finalize@);
        let ghost w0 = string_views(watch@);
        if !contains_hash(&healthy, &session[i]) {
            let r = i < resolved.len() && resolved[i];
            if r {
                finalize.push(session[i].clone());
                proof {
                    assert(string_views(finalize@) =~= f0.push(session@[i as int]@));
                }
            } else {
                watch.push(session[i].clone());
                proof {
                    assert(string_views(watch@) =~= w0.push(session@[i as int]@));
                }
            }
        }
        i += 1;
    }
    proof {
        assert(sv.subrange(0, session@.len() as int) =~= sv);
    }
    ReconcilePlan { purge, finalize, watch }
}

/// The commands the control socket takes.
#[derive(Debug, Clone, Copy, PartialEq, Eq, Structural)]
pub enum Command {
    Ping,
    ListTorrents,
    GetTorrent,
    GetConfig,
    AddTorrent,
    RemoveTorrent,
    Fallback,
    Pause,
    Resume,
    DropTargets,
    SetPersist,
    SetShared,
    Play,
    ResolveLocalPath,
    SetConfig,
    Restart,
    Shutdown,
}

/// A command's name on the wire.
pub open spec fn command_name(c: Command) -> Seq<char> {
    match c {
        Command::Ping => "ping"@,
        Command::ListTorrents => "list_torrents"@,
        Command::GetTorrent => "get_torrent"@,
        Command::GetConfig => "get_config"@,
        Command::AddTorrent => "add_torrent"@,
        Command::RemoveTorrent => "remove_torrent"@,
        Command::Fallback => "fallback"@,
        Command::Pause => "pause"@,
        Command::Resume => "resume"@,
        Command::DropTargets => "drop_targets"@,
        Command::SetPersist => "set_persist"@,
        Command::SetShared => "set_shared"@,
        Command::Play => "play"@,
        Command::ResolveLocalPath => "resolve_local_path"@,
        Command::SetConfig => "set_config"@,
        Command::Restart => "restart"@,
        Command::Shutdown => "shutdown"@,
    }
}

/// The command a request's `type` names, if any.
pub fn route(kind: &str) -> (r: Option<Command>)
    ensures
        match r {
            Some(c) => command_name(c) == kind@,
            None => forall|c: Command| command_name(c) != kind@,
        },
{
    let k = chars_of(kind);
    let table: [(&str, Command); 17] = [
        ("ping", Command::Ping),
        ("list_torrents", Command::ListTorrents),
        ("get_torrent", Command::GetTorrent),
        ("get_config", Command::GetConfig),
        ("add_torrent", Command::AddTorrent),
        ("remove_torrent", Command::RemoveTorrent),
        ("fallback", Command::Fallback),
        ("pause", Command::Pause),
        ("resume", Command::Resume),
        ("drop_targets", Command::DropTargets),
        ("set_persist", Command::SetPersist),
        ("set_shared", Command::SetShared),
        ("play", Command::Play),
        ("resolve_local_path", Command::ResolveLocalPath),
        ("set_config", Command::SetConfig),
        ("restart", Command::Restart),
        ("shutdown", Command::Shutdown),
    ];
    assert forall|i: int| 0 <= i < 17 implies command_name(#[trigger] table@[i].1) == table@[i].0@ by {}
    let mut i: usize = 0;
    while i < 17
        invariant
            i <= 17,
            k@ == kind@,
            forall|j: int| 0 <= j < 17 ==> command_name(#[trigger] table@[j].1) == table@[j].0@,
            forall|j: int| 0 <= j < i ==> table@[j].0@ != kind@,
        decreases 17 - i,
    {
        if crate::text::eq_str(k.as_slice(), table[i].0) {
            return Some(table[i].1);
        }
        i += 1;
    }
    assert forall|c: Command| command_name(c) != kind@ by {
        let j: int = match c {
            Command::Ping => 0,
            Command::ListTorrents => 1,
            Command::GetTorrent => 2,
            Command::GetConfig => 3,
            Command::AddTorrent => 4,
            Command::RemoveTorrent => 5,
            Command::Fallback => 6,
            Command::Pause => 7,
            Command::Resume => 8,
            Command::DropTargets => 9,
            Command::SetPersist => 10,
            Command::SetShared => 11,
            Command::Play => 12,
            Command::ResolveLocalPath => 13,
            Command::SetConfig => 14,
            Command::Restart => 15,
            Command::Shutdown => 16,
        };
        assert(table@[j].1 == c);
    }
    None
}

/// The answer to a request of an unknown type.
pub fn unknown_command(kind: &str) -> (r: String)
    ensures
        r@ == "unknown command: "@ + kind@,
{
    let mut out: Vec<char> = Vec::new();
    crate::library::push_str_chars(&mut out, "unknown command: ");
    crate::library::push_str_chars(&mut out, kind);
    string_of(out.as_slice())
}

/// The answer to an add whose torrent is still checking its files: its
/// state and nothing else yet.
pub fn add_resp_checking(info_hash: String, name: Option<String>, already_existed: bool) -> (r: AddTorrentResp)
    ensures
        r.info_hash == info_hash,
        r.name == name,
        r.state == Some(TorrentState::Initializing),
        r.files is None,
        r.media is None,
        r.already_existed == already_existed,
        !r.fallback_launched,
        r.fallback_reason is None,
{
    AddTorrentResp {
        info_hash,
        name,
        state: Some(TorrentState::Initializing),
        files: None,
        media: None,
        already_existed,
        fallback_launched: false,
        fallback_reason: None,
    }
}

/// The answer to an add of a torrent magneto already manages: its files
/// as rendered now.
pub fn add_resp_managed(info_hash: String, name: Option<String>, state: TorrentState, files: Vec<FileEntry>) -> (r:
    AddTorrentResp)
    ensures
        r.info_hash == info_hash,
        r.name == name,
        r.state == Some(state),
        r.files == Some(files),
        r.media == Some(true),
        r.already_existed,
        !r.fallback_launched,
        r.fallback_reason is None,
{
    AddTorrentResp {
        info_hash,
        name,
        state: Some(state),
        files: Some(files),
        media: Some(true),
        already_existed: true,
        fallback_launched: false,
        fallback_reason: None,
    }
}

} // verus!
