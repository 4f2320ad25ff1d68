use magneto::browse::{browse_direct_children, browse_metadata, segments, shared_torrents};
use magneto::library::{build_tree, TreeNode, ROOT_ID};
use magneto::metadata::{FileMetadata, TorrentMetadata};
use magneto::protocol::SourceKind;
use magneto::render::{EngineFile, EngineView};

fn record(files: &[(u32, bool)]) -> TorrentMetadata {
    TorrentMetadata {
        source: "magnet:?xt=urn:btih:aa".into(),
        source_kind: SourceKind::Magnet,
        added_at: "t".into(),
        files: files.iter().map(|(i, shared)| (*i, FileMetadata { persisted: true, shared: *shared, paused: false })).collect(),
        finalized: true,
    }
}

fn engine(name: Option<&str>, paths: &[&str]) -> EngineView {
    EngineView {
        name: name.map(|n| n.to_string()),
        files: Some(paths.iter().map(|p| EngineFile { len: 10, path: p.to_string() }).collect()),
        only_files: None,
        file_progress: vec![],
    }
}

fn ids(nodes: &[TreeNode]) -> Vec<u64> {
    nodes
        .iter()
        .map(|n| match n {
            TreeNode::Container { id, .. } => *id,
            TreeNode::Item { id, .. } => *id,
        })
        .collect()
}

#[test]
fn path_segments_skip_empty_and_dot() {
    let v: Vec<char> = "a//./b/c.mkv/".chars().collect();
    assert_eq!(segments(&v), vec!["a".to_string(), "b".into(), "c.mkv".into()]);
    assert!(segments(&[]).is_empty());
}

#[test]
fn only_shared_loaded_known_files_are_listed() {
    let records = vec![
        ("aaaa0001".to_string(), record(&[(0, true), (1, false)])),
        ("bbbb0002".to_string(), record(&[(0, false)])),
        ("cccc0003".to_string(), record(&[(0, true)])),
        ("dddd0004".to_string(), record(&[(5, true)])),
        ("eeee0005".to_string(), record(&[(0, true)])),
    ];
    let engines = vec![
        Some(engine(Some("Show"), &["Show/e1.mkv", "Show/e2.mkv"])),
        Some(engine(Some("Other"), &["o.mkv"])),
        None,
        Some(engine(Some("Gone"), &["g.mkv"])),
        Some(engine(None, &["solo.mkv"])),
    ];
    let listed = shared_torrents(&records, &engines);
    assert_eq!(listed.len(), 2);
    assert_eq!(listed[0].info_hash, "aaaa0001");
    assert_eq!(listed[0].title, "Show");
    assert!(!listed[0].single_file);
    assert_eq!(listed[0].files.len(), 1);
    assert_eq!(listed[0].files[0].path, vec!["Show".to_string(), "e1.mkv".into()]);
    assert_eq!(listed[1].title, "eeee0005");
    assert!(listed[1].single_file);
}

#[test]
fn browsing_children_and_metadata() {
    let records = vec![("aaaa0001".to_string(), record(&[(0, true), (1, true)]))];
    let engines = vec![Some(engine(Some("Show"), &["S1/e1.mkv", "e2.mkv"]))];
    let listed = shared_torrents(&records, &engines);
    let count = listed.len();
    let tree = build_tree(listed, "192.168.1.2", 61482);
    let root_children = browse_direct_children(tree.clone(), ROOT_ID);
    assert_eq!(root_children.len(), count);
    let torrent_id = ids(&root_children)[0];
    let inside = browse_direct_children(tree.clone(), torrent_id);
    assert_eq!(inside.len(), 2);
    let meta = browse_metadata(tree.clone(), ROOT_ID, count);
    assert_eq!(
        meta,
        vec![TreeNode::Container { id: ROOT_ID, parent_id: None, title: "Magneto".into(), children_count: Some(1) }]
    );
    let one = browse_metadata(tree.clone(), torrent_id, count);
    assert_eq!(ids(&one), vec![torrent_id]);
    assert!(browse_metadata(tree, 0xdead_beef, count).is_empty());
}
