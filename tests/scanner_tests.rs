use repodiet::pack::{compressed_sizes, PackSizeIndex};
use repodiet::scanner::{
    head_is_cached, plan_commits, CommitInfo, DeltaBuilder, HeadSnapshot, PathId, PathInterner,
    TreeScanCtx,
};
use repodiet::bytes::ByteSet;
use repodiet::store::needs_rebuild;

fn oid(b: u8) -> [u8; 20] {
    [b; 20]
}

fn commit(author: &str, ts: i64) -> CommitInfo {
    CommitInfo { oid: oid(200), tree: oid(201), author: author.to_string(), timestamp: ts }
}

#[test]
fn test_intern_returns_same_id() {
    let mut interner = PathInterner::new();
    let id1 = interner.intern(b"foo/bar");
    let id2 = interner.intern(b"foo/bar");
    assert_eq!(id1, id2);
}

#[test]
fn test_different_paths_different_ids() {
    let mut interner = PathInterner::new();
    let id1 = interner.intern(b"foo/bar");
    let id2 = interner.intern(b"foo/baz");
    assert_ne!(id1, id2);
}

#[test]
fn test_get_str_roundtrip() {
    let mut interner = PathInterner::new();
    let id = interner.intern(b"src/main.rs");
    assert_eq!(interner.get_str(id), "src/main.rs");
}

#[test]
fn interner_ids_are_dense_and_lossy_text_replaces_bad_bytes() {
    let mut interner = PathInterner::new();
    assert!(interner.is_empty());
    assert_eq!(interner.intern(b"a").as_u32(), 0);
    assert_eq!(interner.intern(b"b").as_u32(), 1);
    assert_eq!(interner.intern(b"a").as_u32(), 0);
    let bad = interner.intern(&[0x66, 0xff]);
    assert_eq!(interner.get_str(bad), "f\u{fffd}");
    assert_eq!(interner.get_bytes(bad), &[0x66, 0xff]);
    assert_eq!(interner.len(), 3);
}

#[test]
fn record_blob_follows_the_emission_table() {
    let mut out = DeltaBuilder::new();
    let c = commit("alice", 42);
    out.record_blob(oid(1), PathId(0), 100, 0, &c, true);
    out.record_blob(oid(1), PathId(1), 100, 60, &c, false);
    out.record_blob(oid(1), PathId(2), 100, 0, &c, false);
    assert_eq!(out.blob_count(), 2);
    let delta = out.build();
    assert_eq!(delta.blobs[0].cumulative_size, 100);
    assert_eq!(delta.blobs[1].cumulative_size, 0);
    assert_eq!(delta.blobs[1].current_size, 60);
    assert_eq!(delta.metadata.len(), 1);
    assert_eq!(delta.metadata[0].author, "alice");
    assert_eq!(delta.metadata[0].timestamp, 42);
    assert_eq!(delta.metadata[0].size, 100);
}

#[test]
fn scan_context_dedups_trees_and_blobs() {
    let mut interner = PathInterner::new();
    let hello = interner.intern(b"hello.txt");
    let mut head = HeadSnapshot::new("ab".to_string());
    head.insert(hello, oid(1), 13);
    let mut seen = ByteSet::new();
    seen.insert(&oid(9));
    let mut ctx = TreeScanCtx::new(interner, seen);
    let c1 = commit("first", 1);
    let c2 = commit("second", 2);

    assert!(ctx.enter_tree(&oid(100), b""));
    assert!(!ctx.enter_tree(&oid(100), b""));
    assert!(ctx.enter_tree(&oid(100), b"sub"));
    assert_eq!(ctx.trees_visited(), 2);

    // New blob at its HEAD path: full size and current size.
    let id = ctx.handle_blob(oid(1), b"hello.txt", 13, &head, &c1);
    assert_eq!(id, hello);
    // Same blob, same path, later commit: skipped.
    ctx.handle_blob(oid(1), b"hello.txt", 13, &head, &c2);
    // Same blob at another path, not in HEAD there: nothing.
    ctx.handle_blob(oid(1), b"copy.txt", 13, &head, &c2);
    // A blob an earlier scan stored: nothing unless HEAD holds it there.
    ctx.handle_blob(oid(9), b"old.txt", 7, &head, &c2);
    // A new blob that HEAD does not hold.
    ctx.handle_blob(oid(2), b"gone.txt", 5, &head, &c2);
    assert_eq!(ctx.blobs_found(), 2);

    let (delta, interner) = ctx.finish();
    assert_eq!(delta.blobs.len(), 2);
    assert_eq!(delta.blobs[0].cumulative_size, 13);
    assert_eq!(delta.blobs[0].current_size, 13);
    assert_eq!(delta.blobs[1].cumulative_size, 5);
    assert_eq!(delta.blobs[1].current_size, 0);
    assert_eq!(delta.metadata.len(), 2);
    assert_eq!(delta.metadata[0].author, "first");
    assert_eq!(interner.get_str(delta.blobs[1].path_id), "gone.txt");
    assert!(!delta.is_empty());
}

#[test]
fn compressed_sizes_run_to_the_next_offset() {
    let entries = vec![(oid(3), 300u64), (oid(1), 12), (oid(2), 100)];
    let sizes = compressed_sizes(&entries, 350);
    assert_eq!(sizes, vec![(oid(1), 88), (oid(2), 200), (oid(3), 50)]);

    let mut index = PackSizeIndex::new();
    assert!(index.is_empty());
    index.add_pack(&sizes);
    index.add_pack(&vec![(oid(2), 7)]);
    assert_eq!(index.size_of(&oid(1)), Some(88));
    assert_eq!(index.size_of(&oid(2)), Some(7));
    assert_eq!(index.size_of(&oid(4)), None);
    assert_eq!(index.len(), 3);
}

#[test]
fn plan_keeps_order_and_drops_scanned() {
    let mut scanned = ByteSet::new();
    scanned.insert(&oid(2));
    let all = vec![oid(1), oid(2), oid(3)];
    assert_eq!(plan_commits(&all, &scanned), vec![oid(1), oid(3)]);
    // Everything scanned: nothing to do.
    scanned.insert(&oid(1));
    scanned.insert(&oid(3));
    assert!(plan_commits(&all, &scanned).is_empty());
}

#[test]
fn cached_head_and_schema_gate() {
    assert!(head_is_cached(Some("abc"), "abc"));
    assert!(!head_is_cached(Some("abc"), "abd"));
    assert!(!head_is_cached(None, "abc"));
    assert!(!needs_rebuild(Some("8")));
    assert!(needs_rebuild(Some("7")));
    assert!(needs_rebuild(Some("9")));
    assert!(needs_rebuild(None));
}
