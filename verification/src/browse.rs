//! What the DLNA library answers: the torrents it lists (shared in the
//! records, loaded in the engine, with a shared file the engine knows), a
//! container's children, and one entry's own metadata.

use vstd::prelude::*;
use crate::library::{ROOT_ID, SharedFile, SharedTorrent, TreeNode, NodeV, nodes_view, segs};
use crate::metadata::{FileMetadata, TorrentMetadata, spec_any_shared, any_shared};
use crate::render::{EngineFile, EngineView, engine_files};
use crate::text::{find_last, last_index, lemma_last_index, slice_vec, string_of, string_views};

verus! {

/// A segment that names something: not empty, not `.`.
pub open spec fn named(seg: Seq<char>) -> bool {
    seg.len() > 0 && seg != seq!['.']
}

/// The named segments of a `/`-separated path, in order.
pub open spec fn path_segs(s: Seq<char>) -> Seq<Seq<char>>
    decreases s.len(),
{
    match last_index(s, '/') {
        None => if named(s) {
            seq![s]
        } else {
            Seq::empty()
        },
        Some(k) => {
            proof {
                lemma_last_index(s, '/');
            }
            let tail = s.subrange(k + 1, s.len() as int);
            path_segs(s.subrange(0, k)) + if named(tail) {
                seq![tail]
            } else {
                Seq::empty()
            }
        },
    }
}

fn is_named(v: &[char]) -> (r: bool)
    ensures
        r == named(v@),
{
    if v.len() == 0 {
        return false;
    }
    if v.len() == 1 && v[0] == '.' {
        assert(v@ =~= seq!['.']);
        return false;
    }
    true
}

/// The named segments of a path.
pub fn segments(v: &[char]) -> (r: Vec<String>)
    ensures
        string_views(r@) == path_segs(v@),
    decreases v@.len(),
{
    proof {
        lemma_last_index(v@, '/');
    }
    match find_last(v, '/') {
        None => {
            let mut r: Vec<String> = Vec::new();
            if is_named(v) {
                r.push(string_of(v));
                assert(string_views(r@) =~= seq![v@]);
            } else {
                assert(string_views(r@) =~= Seq::<Seq<char>>::empty());
            }
            r
        },
        Some(k) => {
            let n = v.len();
            assert(k < n);
            let head = slice_vec(v, 0, k);
            let tail = slice_vec(v, k + 1, n);
            let mut r = segments(head.as_slice());
            let ghost before = string_views(r@);
            if is_named(tail.as_slice()) {
                r.push(string_of(tail.as_slice()));
                assert(string_views(r@) =~= before + seq![tail@]);
            } else {
                assert(string_views(r@) =~= before + Seq::<Seq<char>>::empty());
            }
            r
        },
    }
}

/// A listed file as (index, path segments, size).
pub open spec fn file_view(f: SharedFile) -> (u32, Seq<Seq<char>>, u64) {
    (f.index, segs(f.path@), f.size)
}

/// The shared files of a record that the engine knows, in index order.
pub open spec fn shared_files(files: Seq<(u32, FileMetadata)>, known: Seq<EngineFile>) -> Seq<(u32, Seq<Seq<char>>, u64)>
    decreases files.len(),
{
    if files.len() == 0 {
        Seq::empty()
    } else {
        let before = shared_files(files.drop_last(), known);
        let (idx, fm) = files.last();
        if fm.shared && (idx as int) < known.len() {
            before.push((idx, path_segs(known[idx as int].path@), known[idx as int].len))
        } else {
            before
        }
    }
}

/// A listed torrent as plain values.
pub struct SharedTorrentV {
    pub info_hash: Seq<char>,
    pub title: Seq<char>,
    pub single_file: bool,
    pub files: Seq<(u32, Seq<Seq<char>>, u64)>,
}

pub open spec fn torrent_view(t: SharedTorrent) -> SharedTorrentV {
    SharedTorrentV {
        info_hash: t.info_hash@,
        title: t.title@,
        single_file: t.single_file,
        files: t.files@.map_values(|f: SharedFile| file_view(f)),
    }
}

/// What a record lists: nothing unless it shares a file, the engine has the
/// torrent and its metadata, and a shared file is one the engine knows.
/// The title is the engine's name for it, else its info hash.
pub open spec fn listed(hash: Seq<char>, entry: TorrentMetadata, engine: Option<EngineView>) -> Option<SharedTorrentV> {
    if !spec_any_shared(entry) {
        None
    } else {
        match engine {
            None => None,
            Some(v) => match v.files {
                None => None,
                Some(known) => {
                    let files = shared_files(entry.files@, known@);
                    if files.len() == 0 {
                        None
                    } else {
                        Some(
                            SharedTorrentV {
                                info_hash: hash,
                                title: match v.name {
                                    Some(n) => n@,
                                    None => hash,
                                },
                                single_file: known@.len() == 1,
                                files,
                            },
                        )
                    }
                },
            },
        }
    }
}

/// The torrents the library lists, in record order. `engines[i]` is the
/// engine's view of record `i` (`None`: not loaded).
pub open spec fn spec_shared_torrents(records: Seq<(String, TorrentMetadata)>, engines: Seq<Option<EngineView>>) -> Seq<
    SharedTorrentV,
>
    decreases records.len(),
{
    if records.len() == 0 {
        Seq::empty()
    } else {
        let i = records.len() - 1;
        let before = spec_shared_torrents(records.drop_last(), engines);
        let engine = if i < engines.len() {
            engines[i]
        } else {
            None
        };
        match listed(records[i].0@, records[i].1, engine) {
            Some(t) => before.push(t),
            None => before,
        }
    }
}

fn shared_file_list(files: &Vec<(u32, FileMetadata)>, known: &Vec<EngineFile>) -> (r: Vec<SharedFile>)
    ensures
        r@.map_values(|f: SharedFile| file_view(f)) == shared_files(files@, known@),
{
    let mut out: Vec<SharedFile> = Vec::new();
    let mut k: usize = 0;
    while k < files.len()
        invariant
            k <= files@.len(),
            out@.map_values(|f: SharedFile| file_view(f)) == shared_files(files@.subrange(0, k as int), known@),
        decreases files@.len() - k,
    {
        proof {
            let sub = files@.subrange(0, k as int + 1);
            assert(sub.drop_last() =~= files@.subrange(0, k as int));
        }
        let (idx, fm) = files[k];
        let i = idx as usize;
        if fm.shared && i < known.len() {
            let ghost before = out@;
            let p = segments(crate::text::chars_of(known[i].path.as_str()).as_slice());
            out.push(SharedFile { index: idx, path: p, size: known[i].len });
            proof {
                assert(out@.map_values(|f: SharedFile| file_view(f)) =~= before.map_values(
                    |f: SharedFile| file_view(f),
                ).push(file_view(out@.last())));
            }
        }
        k += 1;
    }
    assert(files@.subrange(0, files@.len() as int) =~= files@);
    out
}

/// The torrents the library lists, in record order.
pub fn shared_torrents(records: &Vec<(String, TorrentMetadata)>, engines: &Vec<Option<EngineView>>) -> (r: Vec<
    SharedTorrent,
>)
    ensures
        r@.map_values(|t: SharedTorrent| torrent_view(t)) == spec_shared_torrents(records@, engines@),
        forall|i: int| 0 <= i < r@.len() ==> (#[trigger] r@[i]).files@.len() > 0,
{
    let mut out: Vec<SharedTorrent> = Vec::new();
    let mut i: usize = 0;
    while i < records.len()
        invariant
            i <= records@.len(),
            out@.map_values(|t: SharedTorrent| torrent_view(t)) == spec_shared_torrents(
                records@.subrange(0, i as int),
                engines@,
            ),
            forall|j: int| 0 <= j < out@.len() ==> (#[trigger] out@[j]).files@.len() > 0,
        decreases records@.len() - i,
    {
        proof {
            let sub = records@.subrange(0, i as int + 1);
            assert(sub.drop_last() =~= records@.subrange(0, i as int));
        }
        let ghost before = out@;
        let entry = &records[i].1;
        if any_shared(entry) && i < engines.len() {
            if let Some(v) = &engines[i] {
                if let Some(known) = &v.files {
                    let files = shared_file_list(&entry.files, known);
                    if files.len() > 0 {
                        let hash = records[i].0.clone();
                        let title = match &v.name {
                            Some(n) => n.clone(),
                            None => records[i].0.clone(),
                        };
                        let single_file = known.len() == 1;
                        out.push(SharedTorrent { info_hash: hash, title, single_file, files });
                        proof {
                            assert(out@.map_values(|t: SharedTorrent| torrent_view(t)) =~= before.map_values(
                                |t: SharedTorrent| torrent_view(t),
                            ).push(torrent_view(out@.last())));
                        }
                    }
                }
            }
        }
        i += 1;
    }
    assert(records@.subrange(0, records@.len() as int) =~= records@);
    out
}

/// The entries directly under `parent_id`, in tree order.
pub open spec fn children_of(tree: Seq<NodeV>, parent_id: u64) -> Seq<NodeV> {
    tree.filter(|n: NodeV| n.parent == Some(parent_id))
}

/// A container's children, in tree order.
pub fn browse_direct_children(tree: Vec<TreeNode>, parent_id: u64) -> (r: Vec<TreeNode>)
    ensures
        nodes_view(r@) == children_of(nodes_view(tree@), parent_id),
{
    let ghost all = nodes_view(tree@);
    let ghost pred = |n: NodeV| n.parent == Some(parent_id);
    let mut rest = tree;
    let n = rest.len();
    let mut out: Vec<TreeNode> = Vec::new();
    let mut k: usize = 0;
    proof {
        assert(all.subrange(0, 0).filter(pred) =~= Seq::<NodeV>::empty()) by {
            reveal(Seq::filter);
        }
    }
    while k < n
        invariant
            k <= n,
            n == all.len(),
            pred == (|n: NodeV| n.parent == Some(parent_id)),
            nodes_view(rest@) == all.subrange(k as int, n as int),
            nodes_view(out@) == all.subrange(0, k as int).filter(pred),
        decreases n - k,
    {
        proof {
            reveal(Seq::filter);
            assert(all.subrange(0, k as int + 1).drop_last() =~= all.subrange(0, k as int));
            assert(nodes_view(rest@).len() == rest@.len());
            assert(nodes_view(rest@)[0] == all[k as int]);
        }
        let ghost rest0 = rest@;
        let node = rest.remove(0);
        let ghost nv = node.view();
        proof {
            assert(nv == nodes_view(rest0)[0]);
            assert(nodes_view(rest@) =~= nodes_view(rest0).subrange(1, rest0.len() as int));
        }
        let parent = match &node {
            TreeNode::Container { parent_id: p, .. } => *p,
            TreeNode::Item { parent_id: p, .. } => Some(*p),
        };
        let ghost before = out@;
        let keep = match parent {
            Some(p) => p == parent_id,
            None => false,
        };
        if keep {
            out.push(node);
            proof {
                assert(nodes_view(out@) =~= nodes_view(before).push(nv));
            }
        }
        k += 1;
        proof {
            assert(nodes_view(rest@) =~= all.subrange(k as int, n as int));
        }
    }
    proof {
        assert(all.subrange(0, n as int) =~= all);
    }
    out
}

/// One entry's own metadata: the root as the library's container (with the
/// number of listed torrents as its child count), else the first entry of
/// the tree with that id, if any.
pub open spec fn spec_browse_metadata(tree: Seq<NodeV>, object_id: u64, listed_count: usize) -> Seq<NodeV> {
    if object_id == ROOT_ID {
        seq![NodeV {
            container: true,
            id: ROOT_ID,
            parent: None,
            title: "Magneto"@,
            count: Some(listed_count),
            mime: None,
            url: Seq::empty(),
            size: 0,
        }]
    } else {
        match first_with_id(tree, object_id) {
            Some(i) => seq![tree[i]],
            None => Seq::empty(),
        }
    }
}

/// The position of the first entry with `id`.
pub open spec fn first_with_id(tree: Seq<NodeV>, id: u64) -> Option<int> {
    if exists|i: int| 0 <= i < tree.len() && tree[i].id == id && forall|j: int| 0 <= j < i ==> tree[j].id != id {
        Some(choose|i: int| 0 <= i < tree.len() && tree[i].id == id && forall|j: int| 0 <= j < i ==> tree[j].id != id)
    } else {
        None
    }
}

pub fn browse_metadata(tree: Vec<TreeNode>, object_id: u64, listed_count: usize) -> (r: Vec<TreeNode>)
    ensures
        nodes_view(r@) == spec_browse_metadata(nodes_view(tree@), object_id, listed_count),
{
    if object_id == ROOT_ID {
        let root = TreeNode::Container {
            id: ROOT_ID,
            parent_id: None,
            title: "Magneto".to_owned(),
            children_count: Some(listed_count),
        };
        let r = vec![root];
        assert(nodes_view(r@) =~= spec_browse_metadata(nodes_view(tree@), object_id, listed_count));
        return r;
    }
    let ghost all = nodes_view(tree@);
    let mut rest = tree;
    let n = rest.len();
    let mut k: usize = 0;
    while k < n
        invariant
            k <= n,
            n == all.len(),
            all == nodes_view(tree@),
            object_id != ROOT_ID,
            nodes_view(rest@) == all.subrange(k as int, n as int),
            forall|j: int| 0 <= j < k ==> all[j].id != object_id,
        decreases n - k,
    {
        proof {
            assert(nodes_view(rest@).len() == rest@.len());
            assert(nodes_view(rest@)[0] == all[k as int]);
        }
        let ghost rest0 = rest@;
        let node = rest.remove(0);
        proof {
            assert(node.view() == nodes_view(rest0)[0]);
            assert(nodes_view(rest@) =~= nodes_view(rest0).subrange(1, rest0.len() as int));
        }
        let id = match &node {
            TreeNode::Container { id, .. } => *id,
            TreeNode::Item { id, .. } => *id,
        };
        if id == object_id {
            proof {
                let kk = k as int;
                assert(all[kk].id == object_id);
                assert(0 <= kk < all.len() && all[kk].id == object_id && forall|j: int| 0 <= j < kk ==> all[j].id
                    != object_id);
                let i = choose|i: int|
                    0 <= i < all.len() && all[i].id == object_id && forall|j: int| 0 <= j < i ==> all[j].id != object_id;
                if i < kk {
                    assert(all[i].id != object_id);
                }
                if i > kk {
                    assert(all[kk].id != object_id);
                }
                assert(i == kk);
                assert(first_with_id(all, object_id) == Some(kk));
            }
            let r = vec![node];
            assert(nodes_view(r@) =~= seq![all[k as int]]);
            return r;
        }
        k += 1;
        proof {
            assert(nodes_view(rest@) =~= all.subrange(k as int, n as int));
        }
    }
    let r: Vec<TreeNode> = Vec::new();
    assert(nodes_view(r@) =~= Seq::<NodeV>::empty());
    r
}

} // verus!
