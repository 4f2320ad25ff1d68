//! Expanding the targets of a mutation command (a torrent, one of its files,
//! or a folder inside it) to the media file indices they name, grouped by
//! torrent in info-hash order.

use vstd::prelude::*;
use crate::protocol::Target;
use crate::paths::{Order, chars_order, order_chars, lemma_chars_order_flip, lemma_chars_order_trans,
    lemma_chars_order_equal};
use crate::text::{chars_of, has_prefix, trim_char, trim_char_vec, replace_char, replace_char_vec,
    starts_with_chars, string_views, eq_chars};
use crate::state::contains_u32;

verus! {

/// What the daemon knows of one torrent when it expands targets: the media
/// indices its metadata records (ascending), and, while the engine has it
/// loaded, the relative path of each of its files (empty otherwise).
#[derive(Debug, Clone)]
pub struct TorrentFiles {
    pub info_hash: String,
    pub media: Vec<u32>,
    /// Whether the engine has the torrent loaded.
    pub loaded: bool,
    /// Per engine file: its relative path, its length, and the bytes held.
    pub paths: Vec<String>,
    pub sizes: Vec<u64>,
    pub progress: Vec<u64>,
    /// The engine's selection (`None`: every file).
    pub only_files: Option<Vec<usize>>,
}

/// `i` is the first entry of `cat` for info hash `h`.
pub open spec fn is_entry(cat: Seq<TorrentFiles>, h: Seq<char>, i: int) -> bool {
    &&& 0 <= i < cat.len()
    &&& cat[i].info_hash@ == h
    &&& forall|j: int| 0 <= j < i ==> cat[j].info_hash@ != h
}

/// The entry the daemon finds for `h`, if any.
pub open spec fn entry_of(cat: Seq<TorrentFiles>, h: Seq<char>) -> Option<TorrentFiles> {
    if exists|i: int| is_entry(cat, h, i) {
        Some(cat[choose|i: int| is_entry(cat, h, i)])
    } else {
        None
    }
}

/// The media indices recorded for `h` (none for an unknown torrent).
pub open spec fn media_of(cat: Seq<TorrentFiles>, h: Seq<char>) -> Seq<u32> {
    match entry_of(cat, h) {
        Some(e) => e.media@,
        None => Seq::empty(),
    }
}

/// The engine's file paths for `h` (none for an unknown torrent).
pub open spec fn paths_of(cat: Seq<TorrentFiles>, h: Seq<char>) -> Seq<Seq<char>> {
    match entry_of(cat, h) {
        Some(e) => string_views(e.paths@),
        None => Seq::empty(),
    }
}

/// A file path lies under folder `prefix` (already stripped of its slashes),
/// with `\` read as `/`.
pub open spec fn in_folder(path: Seq<char>, prefix: Seq<char>) -> bool {
    has_prefix(replace_char(path, '\\', '/'), prefix.push('/'))
}

/// The media files under `folder`, in media order.
pub open spec fn folder_media(media: Seq<u32>, paths: Seq<Seq<char>>, folder: Seq<char>) -> Seq<u32> {
    media.filter(
        |i: u32| (i as int) < paths.len() && in_folder(paths[i as int], trim_char(folder, '/')),
    )
}

/// The media indices one target names. A torrent with no recorded media
/// names nothing.
pub open spec fn expand_target(cat: Seq<TorrentFiles>, t: Target) -> Seq<u32> {
    let h = t.hash_view();
    let media = media_of(cat, h);
    if media.len() == 0 {
        Seq::empty()
    } else {
        match t {
            Target::Torrent { .. } => media,
            Target::File { file_index, .. } => {
                if media.contains(file_index) {
                    seq![file_index]
                } else {
                    Seq::empty()
                }
            },
            Target::Folder { path, .. } => folder_media(media, paths_of(cat, h), path@),
        }
    }
}

/// `m` with `e` appended to the group of `h`.
pub open spec fn extend_group(m: Map<Seq<char>, Seq<u32>>, h: Seq<char>, e: Seq<u32>) -> Map<
    Seq<char>,
    Seq<u32>,
> {
    let prev = if m.contains_key(h) {
        m[h]
    } else {
        Seq::empty()
    };
    m.insert(h, prev + e)
}

/// The groups that targets expand to: per info hash, the concatenated
/// expansions of its targets, in target order. Targets that name nothing
/// form no group.
pub open spec fn group_map(cat: Seq<TorrentFiles>, targets: Seq<Target>) -> Map<Seq<char>, Seq<u32>>
    decreases targets.len(),
{
    if targets.len() == 0 {
        Map::empty()
    } else {
        let m = group_map(cat, targets.drop_last());
        let t = targets.last();
        let e = expand_target(cat, t);
        if e.len() == 0 {
            m
        } else {
            extend_group(m, t.hash_view(), e)
        }
    }
}

/// Groups listed in strictly ascending info-hash order.
pub open spec fn sorted_by_hash(r: Seq<(String, Vec<u32>)>) -> bool {
    forall|i: int, j: int|
        0 <= i < j < r.len() ==> chars_order(r[i].0@, r[j].0@) == Order::Less
}

/// `r` lists exactly the groups of `m`, in info-hash order.
pub open spec fn lists_groups(r: Seq<(String, Vec<u32>)>, m: Map<Seq<char>, Seq<u32>>) -> bool {
    &&& sorted_by_hash(r)
    &&& forall|i: int| 0 <= i < r.len() ==> m.contains_key(#[trigger] r[i].0@) && m[r[i].0@] == r[i].1@
    &&& forall|h: Seq<char>|
        m.contains_key(h) ==> exists|i: int| 0 <= i < r.len() && #[trigger] r[i].0@ == h
}

/// The error a request gets when none of its targets names a media file.
pub open spec fn unresolved_message() -> Seq<char> {
    "targets do not resolve to any media file"@
}

/// The first entry of `cat` for `h`.
pub fn find_torrent(cat: &[TorrentFiles], h: &str) -> (r: Option<usize>)
    ensures
        match r {
            Some(i) => is_entry(cat@, h@, i as int) && entry_of(cat@, h@) == Some(cat@[i as int]),
            None => forall|i: int| 0 <= i < cat@.len() ==> cat@[i].info_hash@ != h@,
        },
        r is None <==> entry_of(cat@, h@) is None,
{
    let mut i: usize = 0;
    while i < cat.len()
        invariant
            i <= cat@.len(),
            forall|j: int| 0 <= j < i ==> cat@[j].info_hash@ != h@,
        decreases cat@.len() - i,
    {
        if eq_chars(chars_of(cat[i].info_hash.as_str()).as_slice(), chars_of(h).as_slice()) {
            proof {
                let k = choose|k: int| is_entry(cat@, h@, k);
                assert(is_entry(cat@, h@, i as int));
                if k < i {
                    assert(cat@[k].info_hash@ != h@);
                } else if k > i {
                    assert(cat@[i as int].info_hash@ != h@);
                }
            }
            return Some(i);
        }
        i += 1;
    }
    None
}

/// `a` followed by `b`.
pub fn concat_u32(a: &[u32], b: &[u32]) -> (r: Vec<u32>)
    ensures
        r@ == a@ + b@,
{
    let mut r: Vec<u32> = Vec::new();
    let mut i: usize = 0;
    while i < a.len()
        invariant
            i <= a@.len(),
            r@ == a@.subrange(0, i as int),
        decreases a@.len() - i,
    {
        r.push(a[i]);
        i += 1;
        assert(r@ =~= a@.subrange(0, i as int));
    }
    let mut j: usize = 0;
    while j < b.len()
        invariant
            j <= b@.len(),
            r@ == a@ + b@.subrange(0, j as int),
        decreases b@.len() - j,
    {
        r.push(b[j]);
        j += 1;
        assert(r@ =~= a@ + b@.subrange(0, j as int));
    }
    assert(b@.subrange(0, b@.len() as int) =~= b@);
    r
}

/// Whether `path` lies under the already-trimmed folder `prefix`.
fn path_in_folder(path: &str, prefix: &[char]) -> (r: bool)
    ensures
        r == in_folder(path@, prefix@),
{
    let p = replace_char_vec(chars_of(path).as_slice(), '\\', '/');
    let mut want: Vec<char> = Vec::new();
    let mut i: usize = 0;
    while i < prefix.len()
        invariant
            i <= prefix@.len(),
            want@ == prefix@.subrange(0, i as int),
        decreases prefix@.len() - i,
    {
        want.push(prefix[i]);
        i += 1;
        assert(want@ =~= prefix@.subrange(0, i as int));
    }
    assert(prefix@.subrange(0, prefix@.len() as int) =~= prefix@);
    want.push('/');
    starts_with_chars(p.as_slice(), want.as_slice())
}

/// The media of `media` whose engine path lies under `folder`.
fn folder_members(media: &[u32], paths: &[String], folder: &str) -> (r: Vec<u32>)
    ensures
        r@ == folder_media(media@, string_views(paths@), folder@),
{
    let prefix = trim_char_vec(chars_of(folder).as_slice(), '/');
    let ghost views = string_views(paths@);
    let ghost pred = |i: u32| (i as int) < views.len() && in_folder(views[i as int], trim_char(folder@, '/'));
    let mut r: Vec<u32> = Vec::new();
    let mut k: usize = 0;
    while k < media.len()
        invariant
            k <= media@.len(),
            views == string_views(paths@),
            prefix@ == trim_char(folder@, '/'),
            pred == (|i: u32| (i as int) < views.len() && in_folder(views[i as int], trim_char(folder@, '/'))),
            r@ == media@.subrange(0, k as int).filter(pred),
        decreases media@.len() - k,
    {
        let idx = media[k];
        proof {
            reveal(Seq::filter);
            assert(media@.subrange(0, k + 1).drop_last() =~= media@.subrange(0, k as int));
        }
        if (idx as usize) < paths.len() && path_in_folder(paths[idx as usize].as_str(), prefix.as_slice()) {
            r.push(idx);
        }
        k += 1;
    }
    assert(media@.subrange(0, media@.len() as int) =~= media@);
    r
}

/// The media indices `t` names.
pub fn expand(cat: &[TorrentFiles], t: &Target) -> (r: Vec<u32>)
    ensures
        r@ == expand_target(cat@, *t),
{
    let h = t.info_hash();
    let Some(i) = find_torrent(cat, h) else {
        return Vec::new();
    };
    let entry = &cat[i];
    if entry.media.len() == 0 {
        return Vec::new();
    }
    match t {
        Target::Torrent { .. } => concat_u32(entry.media.as_slice(), &[]),
        Target::File { file_index, .. } => {
            if contains_u32(entry.media.as_slice(), *file_index) {
                vec![*file_index]
            } else {
                Vec::new()
            }
        },
        Target::Folder { path, .. } => {
            folder_members(entry.media.as_slice(), entry.paths.as_slice(), path.as_str())
        },
    }
}

/// Append `e` to the group of `h` in `out`, keeping `out` in info-hash order.
fn add_group(
    out: &mut Vec<(String, Vec<u32>)>,
    h: String,
    e: Vec<u32>,
    Ghost(m): Ghost<Map<Seq<char>, Seq<u32>>>,
)
    requires
        lists_groups(old(out)@, m),
    ensures
        lists_groups(final(out)@, extend_group(m, h@, e@)),
{
    let ghost old_out = out@;
    let ghost m2 = extend_group(m, h@, e@);
    let hv = chars_of(h.as_str());
    let mut i: usize = 0;
    while i < out.len()
        invariant
            out@ == old_out,
            lists_groups(old_out, m),
            m2 == extend_group(m, h@, e@),
            hv@ == h@,
            i <= old_out.len(),
            forall|j: int| 0 <= j < i ==> chars_order(#[trigger] old_out[j].0@, h@) == Order::Less,
        decreases old_out.len() - i,
    {
        let kv = chars_of(out[i].0.as_str());
        let o = order_chars(kv.as_slice(), hv.as_slice());
        match o {
            Order::Equal => {
                proof {
                    assert(kv@ == old_out[i as int].0@);
                    lemma_chars_order_equal(old_out[i as int].0@, h@);
                    assert(old_out[i as int].0@ == h@);
                }
                let (k, v) = out.remove(i);
                let merged = concat_u32(v.as_slice(), e.as_slice());
                out.insert(i, (k, merged));
                proof {
                    assert(out@ =~= old_out.update(i as int, out@[i as int]));
                    assert(out@[i as int].0@ == h@);
                    assert(out@[i as int].1@ == old_out[i as int].1@ + e@);
                    assert(m.contains_key(old_out[i as int].0@));
                    assert(m2[h@] == m[h@] + e@);
                    assert forall|a: int, b: int| 0 <= a < b < out@.len() implies chars_order(
                        out@[a].0@,
                        out@[b].0@,
                    ) == Order::Less by {
                        assert(out@[a].0@ == old_out[a].0@);
                        assert(out@[b].0@ == old_out[b].0@);
                    }
                    assert forall|a: int| 0 <= a < out@.len() implies m2.contains_key(
                        #[trigger] out@[a].0@,
                    ) && m2[out@[a].0@] == out@[a].1@ by {
                        if a != i {
                            assert(out@[a] == old_out[a]);
                            if old_out[a].0@ == h@ {
                                lemma_chars_order_equal(old_out[a].0@, old_out[i as int].0@);
                                if a < i {
                                    assert(chars_order(old_out[a].0@, old_out[i as int].0@) == Order::Less);
                                } else {
                                    assert(chars_order(old_out[i as int].0@, old_out[a].0@) == Order::Less);
                                    lemma_chars_order_equal(old_out[i as int].0@, old_out[a].0@);
                                }
                            }
                        }
                    }
                    assert forall|g: Seq<char>| m2.contains_key(g) implies exists|a: int|
                        0 <= a < out@.len() && #[trigger] out@[a].0@ == g by {
                        if g == h@ {
                            assert(out@[i as int].0@ == g);
                        } else {
                            let a = choose|a: int| 0 <= a < old_out.len() && #[trigger] old_out[a].0@ == g;
                            assert(out@[a].0@ == g);
                        }
                    }
                }
                return;
            },
            Order::Greater => {
                proof {
                    lemma_chars_order_flip(old_out[i as int].0@, h@);
                }
                out.insert(i, (h, e));
                proof {
                    lemma_sorted_insert(old_out, i as int, h@, e@, m);
                }
                return;
            },
            Order::Less => {
                i += 1;
            },
        }
    }
    out.push((h, e));
    proof {
        lemma_sorted_insert(old_out, old_out.len() as int, h@, e@, m);
        assert(out@ =~= old_out.insert(old_out.len() as int, (h, e)));
    }
}

/// Inserting a new group at the position that keeps the order lists the
/// extended groups.
proof fn lemma_sorted_insert(
    old_out: Seq<(String, Vec<u32>)>,
    i: int,
    h: Seq<char>,
    e: Seq<u32>,
    m: Map<Seq<char>, Seq<u32>>,
)
    requires
        lists_groups(old_out, m),
        0 <= i <= old_out.len(),
        forall|j: int| 0 <= j < i ==> chars_order(#[trigger] old_out[j].0@, h) == Order::Less,
        i < old_out.len() ==> chars_order(h, old_out[i].0@) == Order::Less,
    ensures
        forall|s: String, v: Vec<u32>|
            s@ == h && v@ == e ==> lists_groups(old_out.insert(i, (s, v)), extend_group(m, h, e)),
{
    assert forall|s: String, v: Vec<u32>| s@ == h && v@ == e implies lists_groups(
        old_out.insert(i, (s, v)),
        extend_group(m, h, e),
    ) by {
        let n = old_out.insert(i, (s, v));
        let m2 = extend_group(m, h, e);
        assert forall|j: int| 0 <= j < i + 0 || (i < j < n.len()) implies chars_order(n[j].0@, h)
            != Order::Equal by {
            if j < i {
                assert(n[j] == old_out[j]);
            } else {
                assert(n[j] == old_out[j - 1]);
                if j - 1 > i {
                    assert(chars_order(old_out[i].0@, old_out[j - 1].0@) == Order::Less);
                    lemma_chars_order_trans(h, old_out[i].0@, old_out[j - 1].0@);
                }
                lemma_chars_order_flip(h, old_out[j - 1].0@);
            }
        }
        assert(!m.contains_key(h)) by {
            if m.contains_key(h) {
                let a = choose|a: int| 0 <= a < old_out.len() && #[trigger] old_out[a].0@ == h;
                lemma_chars_order_equal(old_out[a].0@, h);
                if a < i {
                } else {
                    if a > i {
                        assert(chars_order(old_out[i].0@, old_out[a].0@) == Order::Less);
                        lemma_chars_order_trans(h, old_out[i].0@, old_out[a].0@);
                    }
                    lemma_chars_order_equal(h, old_out[a].0@);
                }
            }
        }
        assert forall|a: int, b: int| 0 <= a < b < n.len() implies chars_order(n[a].0@, n[b].0@)
            == Order::Less by {
            if b < i {
                assert(n[a] == old_out[a] && n[b] == old_out[b]);
            } else if b == i {
                assert(n[a] == old_out[a]);
            } else if a == i {
                assert(n[b] == old_out[b - 1]);
                if b - 1 > i {
                    assert(chars_order(old_out[i].0@, old_out[b - 1].0@) == Order::Less);
                    lemma_chars_order_trans(h, old_out[i].0@, old_out[b - 1].0@);
                }
            } else if a < i {
                assert(n[a] == old_out[a] && n[b] == old_out[b - 1]);
                if i < old_out.len() {
                    assert(chars_order(old_out[a].0@, h) == Order::Less);
                    if b - 1 > i {
                        assert(chars_order(old_out[i].0@, old_out[b - 1].0@) == Order::Less);
                        lemma_chars_order_trans(h, old_out[i].0@, old_out[b - 1].0@);
                    }
                    lemma_chars_order_trans(old_out[a].0@, h, old_out[b - 1].0@);
                }
            } else {
                assert(n[a] == old_out[a - 1] && n[b] == old_out[b - 1]);
            }
        }
        assert forall|a: int| 0 <= a < n.len() implies m2.contains_key(#[trigger] n[a].0@)
            && m2[n[a].0@] == n[a].1@ by {
            if a < i {
                assert(n[a] == old_out[a]);
                lemma_chars_order_equal(old_out[a].0@, h);
            } else if a > i {
                assert(n[a] == old_out[a - 1]);
                if a - 1 > i {
                    assert(chars_order(old_out[i].0@, old_out[a - 1].0@) == Order::Less);
                    lemma_chars_order_trans(h, old_out[i].0@, old_out[a - 1].0@);
                }
                lemma_chars_order_equal(h, old_out[a - 1].0@);
            } else {
                assert(e =~= Seq::<u32>::empty() + e);
            }
        }
        assert forall|g: Seq<char>| m2.contains_key(g) implies exists|a: int|
            0 <= a < n.len() && #[trigger] n[a].0@ == g by {
            if g == h {
                assert(n[i].0@ == g);
            } else {
                let a = choose|a: int| 0 <= a < old_out.len() && #[trigger] old_out[a].0@ == g;
                if a < i {
                    assert(n[a].0@ == g);
                } else {
                    assert(n[a + 1].0@ == g);
                }
            }
        }
    }
}

/// Group `targets` by torrent. Fails when there are targets and none of them
/// names a media file.
pub fn group_targets(cat: &[TorrentFiles], targets: &[Target]) -> (r: Result<
    Vec<(String, Vec<u32>)>,
    String,
>)
    ensures
        match r {
            Ok(g) => lists_groups(g@, group_map(cat@, targets@)) && !(targets@.len() > 0
                && group_map(cat@, targets@).is_empty()),
            Err(e) => targets@.len() > 0 && group_map(cat@, targets@).is_empty() && e@
                == unresolved_message(),
        },
{
    let mut out: Vec<(String, Vec<u32>)> = Vec::new();
    let mut k: usize = 0;
    while k < targets.len()
        invariant
            k <= targets@.len(),
            lists_groups(out@, group_map(cat@, targets@.subrange(0, k as int))),
        decreases targets@.len() - k,
    {
        let t = &targets[k];
        let e = expand(cat, t);
        proof {
            assert(targets@.subrange(0, k + 1).drop_last() =~= targets@.subrange(0, k as int));
            assert(targets@.subrange(0, k + 1).last() == targets@[k as int]);
        }
        if e.len() > 0 {
            let h = t.info_hash().to_owned();
            add_group(&mut out, h, e, Ghost(group_map(cat@, targets@.subrange(0, k as int))));
        }
        k += 1;
    }
    assert(targets@.subrange(0, targets@.len() as int) =~= targets@);
    if out.len() == 0 && targets.len() > 0 {
        proof {
            let m = group_map(cat@, targets@);
            assert(m.dom() =~= Set::empty());
        }
        return Err("targets do not resolve to any media file".to_owned());
    }
    proof {
        if targets@.len() > 0 {
            let m = group_map(cat@, targets@);
            assert(m.contains_key(out@[0].0@));
        }
    }
    Ok(out)
}

/// The info hashes of the torrent targets, in order.
pub open spec fn torrent_hashes(ts: Seq<Target>) -> Seq<Seq<char>>
    decreases ts.len(),
{
    if ts.len() == 0 {
        Seq::empty()
    } else {
        let r = torrent_hashes(ts.drop_last());
        match ts.last() {
            Target::Torrent { info_hash } => r.push(info_hash@),
            _ => r,
        }
    }
}

/// The file and folder targets, in order.
pub open spec fn non_torrent(ts: Seq<Target>) -> Seq<Target>
    decreases ts.len(),
{
    if ts.len() == 0 {
        Seq::empty()
    } else {
        let r = non_torrent(ts.drop_last());
        match ts.last() {
            Target::Torrent { .. } => r,
            _ => r.push(ts.last()),
        }
    }
}

/// Torrent targets apart from the rest, each side in target order.
pub fn split_targets(targets: Vec<Target>) -> (r: (Vec<String>, Vec<Target>))
    ensures
        string_views(r.0@) == torrent_hashes(targets@),
        r.1@ == non_torrent(targets@),
{
    let ghost all = targets@;
    let mut rest_in = targets;
    let total = rest_in.len();
    let mut torrents: Vec<String> = Vec::new();
    let mut rest: Vec<Target> = Vec::new();
    let mut k: usize = 0;
    while rest_in.len() > 0
        invariant
            rest_in@ == all.subrange(k as int, all.len() as int),
            k <= all.len(),
            rest_in@.len() == all.len() - k,
            total == all.len(),
            string_views(torrents@) == torrent_hashes(all.subrange(0, k as int)),
            rest@ == non_torrent(all.subrange(0, k as int)),
        decreases rest_in@.len(),
    {
        let t = rest_in.remove(0);
        proof {
            assert(all.subrange(0, k + 1).drop_last() =~= all.subrange(0, k as int));
            assert(t == all[k as int]);
        }
        match t {
            Target::Torrent { info_hash } => {
                torrents.push(info_hash);
                proof {
                    assert(string_views(torrents@) =~= torrent_hashes(all.subrange(0, k + 1)));
                }
            },
            other => {
                rest.push(other);
                proof {
                    assert(string_views(torrents@) =~= torrent_hashes(all.subrange(0, k + 1)));
                }
            },
        }
        k += 1;
        proof {
            assert(rest_in@ =~= all.subrange(k as int, all.len() as int));
        }
    }
    assert(all.subrange(0, all.len() as int) =~= all);
    (torrents, rest)
}

/// Bytes held of file `i` (none for a file the engine does not report).
pub open spec fn held_at(progress: Seq<u64>, i: u32) -> u64 {
    if (i as int) < progress.len() {
        progress[i as int]
    } else {
        0
    }
}

/// The selection of an entry as a set of file indices.
pub open spec fn selection_of(e: TorrentFiles) -> Set<usize> {
    crate::state::spec_current_selection(
        match e.only_files {
            Some(v) => Some(v@),
            None => None,
        },
        e.sizes@.len() as usize,
    )
}

/// The selected media of an entry, in media order.
pub open spec fn selected_media(e: TorrentFiles) -> Seq<u32> {
    e.media@.filter(|i: u32| selection_of(e).contains(i as usize))
}

/// What a torrent target resumes: its selected media while any of them is
/// unfinished, else all of its media.
pub open spec fn resume_expansion(e: TorrentFiles) -> Seq<u32> {
    let selected = selected_media(e);
    let pending = exists|k: int|
        0 <= k < selected.len() && held_at(e.progress@, selected[k]) < held_at(e.sizes@, selected[k]);
    if selected.len() == 0 || !pending {
        e.media@
    } else {
        selected
    }
}

/// The groups the torrent targets of a resume form: a torrent that has
/// media and is loaded resumes `resume_expansion`.
pub open spec fn resume_torrent_map(cat: Seq<TorrentFiles>, hashes: Seq<Seq<char>>) -> Map<
    Seq<char>,
    Seq<u32>,
>
    decreases hashes.len(),
{
    if hashes.len() == 0 {
        Map::empty()
    } else {
        let m = resume_torrent_map(cat, hashes.drop_last());
        let h = hashes.last();
        match entry_of(cat, h) {
            Some(e) => if e.media@.len() > 0 && e.loaded {
                extend_group(m, h, resume_expansion(e))
            } else {
                m
            },
            None => m,
        }
    }
}

/// The group of `h` in `m`, empty when there is none.
pub open spec fn group_or_empty(m: Map<Seq<char>, Seq<u32>>, h: Seq<char>) -> Seq<u32> {
    if m.contains_key(h) {
        m[h]
    } else {
        Seq::empty()
    }
}

/// Groups of `a` followed, per info hash, by those of `b`.
pub open spec fn merge_groups(a: Map<Seq<char>, Seq<u32>>, b: Map<Seq<char>, Seq<u32>>) -> Map<
    Seq<char>,
    Seq<u32>,
> {
    Map::new(
        |h: Seq<char>| a.contains_key(h) || b.contains_key(h),
        |h: Seq<char>| group_or_empty(a, h) + group_or_empty(b, h),
    )
}

/// The groups a resume request expands to.
pub open spec fn resume_map(cat: Seq<TorrentFiles>, targets: Seq<Target>) -> Map<Seq<char>, Seq<u32>> {
    merge_groups(
        resume_torrent_map(cat, torrent_hashes(targets)),
        group_map(cat, non_torrent(targets)),
    )
}

/// Whether any selected media file still misses bytes.
fn any_pending(selected: &[u32], progress: &[u64], sizes: &[u64]) -> (r: bool)
    ensures
        r == exists|k: int|
            0 <= k < selected@.len() && held_at(progress@, selected@[k]) < held_at(sizes@, selected@[k]),
{
    let mut k: usize = 0;
    while k < selected.len()
        invariant
            k <= selected@.len(),
            forall|j: int| 0 <= j < k ==> !(held_at(progress@, selected@[j]) < held_at(sizes@, selected@[j])),
        decreases selected@.len() - k,
    {
        let i = selected[k] as usize;
        let held: u64 = if i < progress.len() { progress[i] } else { 0 };
        let size: u64 = if i < sizes.len() { sizes[i] } else { 0 };
        if held < size {
            return true;
        }
        k += 1;
    }
    false
}

/// What one torrent target resumes.
fn resume_expand(e: &TorrentFiles) -> (r: Vec<u32>)
    ensures
        r@ == resume_expansion(*e),
{
    let current = crate::state::current_selection(&e.only_files, e.sizes.len());
    let ghost sel = selection_of(*e);
    let ghost pred = |i: u32| sel.contains(i as usize);
    let mut selected: Vec<u32> = Vec::new();
    let mut k: usize = 0;
    while k < e.media.len()
        invariant
            k <= e.media@.len(),
            current@ == sel,
            sel == selection_of(*e),
            pred == (|i: u32| sel.contains(i as usize)),
            selected@ == e.media@.subrange(0, k as int).filter(pred),
        decreases e.media@.len() - k,
    {
        let idx = e.media[k];
        proof {
            reveal(Seq::filter);
            assert(e.media@.subrange(0, k + 1).drop_last() =~= e.media@.subrange(0, k as int));
        }
        if current.contains(&(idx as usize)) {
            selected.push(idx);
        }
        k += 1;
    }
    assert(e.media@.subrange(0, e.media@.len() as int) =~= e.media@);
    let pending = any_pending(selected.as_slice(), e.progress.as_slice(), e.sizes.as_slice());
    if selected.len() == 0 || !pending {
        concat_u32(e.media.as_slice(), &[])
    } else {
        selected
    }
}

/// Resume's target expansion: a torrent resumes what was wanted of it, or
/// all of its media when that has nothing left to do; files and folders
/// expand as `group_targets` does. Unresolvable file and folder targets only
/// fail the request when no torrent target resolved either.
pub fn resume_groups(cat: &[TorrentFiles], targets: Vec<Target>) -> (r: Result<
    Vec<(String, Vec<u32>)>,
    String,
>)
    ensures
        match r {
            Ok(g) => lists_groups(g@, resume_map(cat@, targets@)) && !(targets@.len() > 0
                && resume_map(cat@, targets@).is_empty()),
            Err(e) => targets@.len() > 0 && resume_map(cat@, targets@).is_empty() && e@
                == unresolved_message(),
        },
{
    let had_targets = targets.len() > 0;
    let ghost all = targets@;
    let (hashes, rest) = split_targets(targets);
    let ghost hv = string_views(hashes@);
    let mut out: Vec<(String, Vec<u32>)> = Vec::new();
    let mut k: usize = 0;
    while k < hashes.len()
        invariant
            k <= hashes@.len(),
            hv == string_views(hashes@),
            lists_groups(out@, resume_torrent_map(cat@, hv.subrange(0, k as int))),
        decreases hashes@.len() - k,
    {
        proof {
            assert(hv.subrange(0, k + 1).drop_last() =~= hv.subrange(0, k as int));
            assert(hv.subrange(0, k + 1).last() == hashes@[k as int]@);
        }
        let h = &hashes[k];
        match find_torrent(cat, h.as_str()) {
            Some(i) => {
                let e = &cat[i];
                if e.media.len() > 0 && e.loaded {
                    let x = resume_expand(e);
                    add_group(
                        &mut out,
                        h.clone(),
                        x,
                        Ghost(resume_torrent_map(cat@, hv.subrange(0, k as int))),
                    );
                }
            },
            None => {},
        }
        k += 1;
    }
    assert(hv.subrange(0, hv.len() as int) =~= hv);
    let ghost m1 = resume_torrent_map(cat@, torrent_hashes(all));
    let ghost m2 = group_map(cat@, non_torrent(all));
    assert(out@.len() == 0 ==> m1.is_empty()) by {
        if out@.len() == 0 && !m1.is_empty() {
            let h = choose|h: Seq<char>| m1.contains_key(h);
            assert(m1.dom().contains(h));
        }
    }
    if rest.len() > 0 {
        match group_targets(cat, rest.as_slice()) {
            Ok(groups) => {
                let ghost gs = groups@;
                let mut pending_groups = groups;
                let total = pending_groups.len();
                let mut j: usize = 0;
                while pending_groups.len() > 0
                    invariant
                        j <= gs.len(),
                        pending_groups@ == gs.subrange(j as int, gs.len() as int),
                        pending_groups@.len() == gs.len() - j,
                        total == gs.len(),
                        lists_groups(gs, m2),
                        lists_groups(out@, merge_groups(m1, restrict_groups(m2, gs, j as int))),
                    decreases pending_groups@.len(),
                {
                    let (h, v) = pending_groups.remove(0);
                    proof {
                        assert(gs[j as int].0 == h && gs[j as int].1 == v);
                        lemma_restrict_step(m1, m2, gs, j as int);
                    }
                    add_group(
                        &mut out,
                        h,
                        v,
                        Ghost(merge_groups(m1, restrict_groups(m2, gs, j as int))),
                    );
                    j += 1;
                    proof {
                        assert(pending_groups@ =~= gs.subrange(j as int, gs.len() as int));
                    }
                }
                proof {
                    lemma_restrict_all(m2, gs);
                }
            },
            Err(e) => {
                if out.len() == 0 {
                    proof {
                        assert(resume_map(cat@, all) =~= merge_groups(m1, m2));
                        assert(merge_groups(m1, m2).dom() =~= Set::empty());
                    }
                    return Err(e);
                }
                proof {
                    assert(restrict_groups(m2, Seq::empty(), 0) =~= m2);
                    assert(merge_groups(m1, restrict_groups(m2, Seq::empty(), 0)) =~= merge_groups(m1, m2));
                }
            },
        }
    } else {
        proof {
            assert(m2 =~= Map::empty());
            assert(restrict_groups(m2, Seq::empty(), 0) =~= m2);
        }
    }
    proof {
        assert(resume_map(cat@, all) =~= merge_groups(m1, m2));
    }
    if out.len() == 0 && had_targets {
        proof {
            assert(merge_groups(m1, m2).dom() =~= Set::empty());
        }
        return Err("targets do not resolve to any media file".to_owned());
    }
    proof {
        if all.len() > 0 {
            assert(merge_groups(m1, m2).contains_key(out@[0].0@));
        }
    }
    Ok(out)
}

/// The groups of `m` whose info hash is among the first `k` of `gs`.
pub open spec fn restrict_groups(m: Map<Seq<char>, Seq<u32>>, gs: Seq<(String, Vec<u32>)>, k: int) -> Map<
    Seq<char>,
    Seq<u32>,
> {
    Map::new(
        |h: Seq<char>| m.contains_key(h) && exists|j: int| 0 <= j < k && #[trigger] gs[j].0@ == h,
        |h: Seq<char>| m[h],
    )
}

proof fn lemma_restrict_step(
    m1: Map<Seq<char>, Seq<u32>>,
    m2: Map<Seq<char>, Seq<u32>>,
    gs: Seq<(String, Vec<u32>)>,
    j: int,
)
    requires
        lists_groups(gs, m2),
        0 <= j < gs.len(),
    ensures
        merge_groups(m1, restrict_groups(m2, gs, j + 1)) == extend_group(
            merge_groups(m1, restrict_groups(m2, gs, j)),
            gs[j].0@,
            gs[j].1@,
        ),
{
    let h = gs[j].0@;
    let a = merge_groups(m1, restrict_groups(m2, gs, j + 1));
    let b = extend_group(merge_groups(m1, restrict_groups(m2, gs, j)), h, gs[j].1@);
    assert(!restrict_groups(m2, gs, j).contains_key(h)) by {
        if restrict_groups(m2, gs, j).contains_key(h) {
            let i = choose|i: int| 0 <= i < j && #[trigger] gs[i].0@ == h;
            lemma_chars_order_equal(gs[i].0@, gs[j].0@);
        }
    }
    assert(restrict_groups(m2, gs, j + 1).contains_key(h));
    assert forall|g: Seq<char>| a.contains_key(g) <==> b.contains_key(g) by {
        if restrict_groups(m2, gs, j + 1).contains_key(g) && g != h {
            let i = choose|i: int| 0 <= i < j + 1 && #[trigger] gs[i].0@ == g;
            assert(i != j);
            assert(restrict_groups(m2, gs, j).contains_key(g));
        }
    }
    assert forall|g: Seq<char>| a.contains_key(g) implies a[g] == b[g] by {
        if g == h {
            assert(group_or_empty(m1, h) + Seq::<u32>::empty() + gs[j].1@ =~= group_or_empty(m1, h)
                + gs[j].1@);
        } else if restrict_groups(m2, gs, j + 1).contains_key(g) {
            let i = choose|i: int| 0 <= i < j + 1 && #[trigger] gs[i].0@ == g;
            assert(restrict_groups(m2, gs, j).contains_key(g));
        }
    }
    assert(a =~= b);
}

proof fn lemma_restrict_all(m2: Map<Seq<char>, Seq<u32>>, gs: Seq<(String, Vec<u32>)>)
    requires
        lists_groups(gs, m2),
    ensures
        restrict_groups(m2, gs, gs.len() as int) == m2,
{
    assert(restrict_groups(m2, gs, gs.len() as int) =~= m2);
}

} // verus!
