use magneto::library::{
    build_tree, fnv1a_32, folder_node_id, file_node_id, host_has_port, stream_url, torrent_node_id,
    torrent_part, SharedFile, SharedTorrent, TreeNode, ROOT_ID,
};

fn file(index: u32, path: &str) -> SharedFile {
    SharedFile { index, path: path.split('/').map(|s| s.to_string()).collect(), size: 1 }
}

fn torrent(info_hash: &str, title: &str, single_file: bool, files: Vec<SharedFile>) -> SharedTorrent {
    SharedTorrent { info_hash: info_hash.into(), title: title.into(), single_file, files }
}

fn parent(n: &TreeNode) -> Option<u64> {
    match n {
        TreeNode::Container { parent_id, .. } => *parent_id,
        TreeNode::Item { parent_id, .. } => Some(*parent_id),
    }
}

fn titles(nodes: &[TreeNode], p: u64) -> Vec<&str> {
    nodes
        .iter()
        .filter(|n| parent(n) == Some(p))
        .map(|n| match n {
            TreeNode::Container { title, .. } => title.as_str(),
            TreeNode::Item { title, .. } => title.as_str(),
        })
        .collect()
}

fn child_count(nodes: &[TreeNode], want: u64) -> Option<usize> {
    nodes.iter().find_map(|n| match n {
        TreeNode::Container { id, children_count, .. } if *id == want => *children_count,
        _ => None,
    })
}

#[test]
fn root_is_ordered_by_title_ignoring_case() {
    let tree = build_tree(
        vec![
            torrent("cccccccc", "cherry", false, vec![file(0, "c.mkv"), file(1, "d.mkv")]),
            torrent("aaaaaaaa", "banana.mkv", true, vec![file(0, "banana.mkv")]),
            torrent("bbbbbbbb", "Apple", false, vec![file(0, "a.mkv"), file(1, "b.mkv")]),
        ],
        "tv",
        1,
    );
    assert_eq!(titles(&tree, ROOT_ID), ["Apple", "banana.mkv", "cherry"]);
}

#[test]
fn single_file_torrent_is_one_item_at_the_root() {
    let tree = build_tree(vec![torrent("aaaaaaaa", "Movie", true, vec![file(0, "movie.mkv")])], "tv", 1);
    assert_eq!(tree.len(), 1);
    let TreeNode::Item { id, parent_id, title, url, .. } = &tree[0] else { panic!("expected an item") };
    assert_eq!(*parent_id, ROOT_ID);
    assert_eq!(*id, file_node_id("aaaaaaaa", 0));
    assert_eq!(title, "Movie");
    assert_eq!(url, "http://tv:1/stream/aaaaaaaa/0/movie.mkv");
}

#[test]
fn one_shared_file_of_many_keeps_its_container() {
    let tree = build_tree(vec![torrent("aaaaaaaa", "Show", false, vec![file(3, "Season 01/e03.mkv")])], "tv", 1);
    assert_eq!(titles(&tree, ROOT_ID), ["Show"]);
    assert_eq!(titles(&tree, torrent_node_id("aaaaaaaa")), ["Season 01"]);
    assert_eq!(titles(&tree, folder_node_id("aaaaaaaa", "Season 01")), ["e03.mkv"]);
}

#[test]
fn folders_come_before_files_each_in_name_order() {
    let tree = build_tree(
        vec![torrent(
            "aaaaaaaa",
            "Show",
            false,
            vec![
                file(0, "zeta.mkv"),
                file(1, "Season 01/E02.mkv"),
                file(2, "Season 01/e01.mkv"),
                file(3, "Alpha.mkv"),
                file(4, "extras/bloopers.mkv"),
                file(5, "Bonus/x.mkv"),
            ],
        )],
        "tv",
        1,
    );
    let t_id = torrent_node_id("aaaaaaaa");
    assert_eq!(titles(&tree, t_id), ["Bonus", "extras", "Season 01", "Alpha.mkv", "zeta.mkv"]);
    assert_eq!(child_count(&tree, t_id), Some(5));
    let season = folder_node_id("aaaaaaaa", "Season 01");
    assert_eq!(titles(&tree, season), ["e01.mkv", "E02.mkv"]);
    assert_eq!(child_count(&tree, season), Some(2));
}

#[test]
fn every_listed_torrent_is_exactly_one_root_child() {
    let torrents = vec![
        torrent("aaaaaaaa", "a", true, vec![file(0, "a.mkv")]),
        torrent("bbbbbbbb", "b", false, vec![file(0, "x/y.mkv"), file(1, "z.mkv")]),
        torrent("cccccccc", "c", false, vec![file(0, "c.mkv")]),
    ];
    let count = torrents.len();
    let tree = build_tree(torrents, "tv", 1);
    assert_eq!(titles(&tree, ROOT_ID).len(), count);
}

#[test]
fn node_ids_come_from_the_hash_head() {
    assert_eq!(torrent_part("aaaaaaaabbbb"), 0xaaaa_aaaa);
    assert_eq!(torrent_part("+aaaaaaa"), 0x0aaa_aaaa);
    assert_eq!(torrent_part("short"), 0);
    assert_eq!(torrent_part("zzzzzzzz"), 0);
    assert_eq!(torrent_node_id("ffffffff"), 0x7fff_ffff);
    assert_eq!(file_node_id("00000001", 7), (1u64 << 32) | 7);
    assert_eq!(fnv1a_32(b""), 0x811c9dc5);
    assert_eq!(fnv1a_32(b"a"), 0xe40c292c);
    assert_eq!(folder_node_id("00000000", "a"), 0xe40c292c & 0x7fff_ffff);
}

#[test]
fn hosts_with_ports_keep_them() {
    assert!(host_has_port("tv:8080"));
    assert!(!host_has_port("tv"));
    assert!(!host_has_port("[::1]:80"));
    assert!(!host_has_port("tv:99999"));
    assert_eq!(stream_url("tv:9", 1, "ab", 2, "a b.mkv"), "http://tv:9/stream/ab/2/a%20b.mkv");
    assert_eq!(stream_url("tv", 61482, "ab", 0, "é"), "http://tv:61482/stream/ab/0/%C3%A9");
}
