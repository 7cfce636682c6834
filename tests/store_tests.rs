use repodiet::scanner::{CommitInfo, DeltaBuilder, PathId, PathInterner};
use repodiet::store::{build_tree, convert_delta, BlobMetaRecord, BlobRecord, SCHEMA_VERSION};
use repodiet::tree::PathSizes;

fn row(path: &str, cumulative: u64, current: u64, count: u64) -> PathSizes {
    PathSizes { path: path.to_string(), cumulative_size: cumulative, current_size: current, blob_count: count }
}

#[test]
fn loaded_tree_gives_back_the_stored_rows() {
    let rows = vec![
        row("src/main.rs", 100, 50, 1),
        row("src/lib.rs", 200, 0, 1),
        row("README.md", 25, 25, 2),
        row("a/b/c/d.txt", 7, 7, 1),
    ];
    let tree = build_tree(&rows).unwrap();
    let mut leaves: Vec<(String, u64, u64, u64)> = tree
        .visit_leaves()
        .into_iter()
        .map(|r| (r.path, r.cumulative_size, r.current_size, r.blob_count))
        .collect();
    let mut expected: Vec<(String, u64, u64, u64)> = rows
        .iter()
        .map(|r| (r.path.clone(), r.cumulative_size, r.current_size, r.blob_count))
        .collect();
    leaves.sort();
    expected.sort();
    assert_eq!(leaves, expected);
}

#[test]
fn loaded_tree_rolls_up_sizes() {
    let rows = vec![
        row("src/a.rs", 100, 50, 1),
        row("src/b.rs", 200, 150, 2),
        row("docs/deleted.md", 300, 0, 1),
    ];
    let tree = build_tree(&rows).unwrap();
    assert_eq!(tree.name, "(root)");
    assert_eq!(tree.cumulative_size, 600);
    assert_eq!(tree.current_size, 200);
    assert_eq!(tree.blob_count, 4);
    assert_eq!(tree.deleted_size, 300);
    assert!(tree.contains_deleted_files());
    let src = tree.child("src").unwrap();
    assert_eq!(src.cumulative_size, 300);
    assert!(!src.contains_deleted_files());
}

#[test]
fn loaded_tree_refuses_overflowing_sizes() {
    let rows = vec![row("a", u64::MAX, 0, 1), row("b", 1, 0, 1)];
    assert!(build_tree(&rows).is_none());
    let same = vec![row("a", u64::MAX, 0, 1), row("a", 1, 0, 1)];
    assert!(build_tree(&same).is_none());
}

#[test]
fn empty_store_loads_an_empty_root() {
    let tree = build_tree(&vec![]).unwrap();
    assert_eq!(tree.name, "(root)");
    assert_eq!(tree.children.len(), 0);
    assert_eq!(tree.cumulative_size, 0);
}

#[test]
fn records_keep_their_fields() {
    let r = BlobRecord::new([1; 20], "a.txt".to_string(), 10, 5);
    assert_eq!(r.path, "a.txt");
    assert_eq!(r.cumulative_size, 10);
    let m = BlobMetaRecord::new([2; 20], 99, "b.bin".to_string(), "Test User".to_string(), 1700000000);
    assert_eq!(m.size, 99);
    assert_eq!(m.first_author, "Test User");
    assert_eq!(SCHEMA_VERSION, "8");
}

#[test]
fn converted_rows_carry_path_text() {
    let mut interner = PathInterner::new();
    let id = interner.intern(b"src/main.rs");
    let commit = CommitInfo { oid: [9; 20], tree: [8; 20], author: "alice".to_string(), timestamp: 5 };
    let mut out = DeltaBuilder::new();
    out.record_blob([1; 20], id, 40, 40, &commit, true);
    let delta = out.build();
    let (blobs, meta) = convert_delta(&delta, &interner).unwrap();
    assert_eq!(blobs.len(), 1);
    assert_eq!(blobs[0].path, "src/main.rs");
    assert_eq!(blobs[0].cumulative_size, 40);
    assert_eq!(meta[0].first_author, "alice");
    assert_eq!(meta[0].first_date, 5);

    let mut bad = DeltaBuilder::new();
    bad.record_blob([1; 20], PathId(7), 1, 0, &commit, true);
    assert!(convert_delta(&bad.build(), &interner).is_none());
}
