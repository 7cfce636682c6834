use repodiet::tree::TreeNode;

fn create_test_tree() -> TreeNode {
    let mut root = TreeNode::new("(root)");

    root.add_path_with_sizes(&["src", "main.rs"], 1000, 500, 1);
    root.add_path_with_sizes(&["src", "lib.rs"], 800, 400, 1);
    root.add_path_with_sizes(&["src", "utils", "helper.rs"], 300, 300, 1);
    root.add_path_with_sizes(&["assets", "logo.png"], 5000, 0, 1); // Deleted file
    root.add_path_with_sizes(&["assets", "icon.png"], 2000, 2000, 1);
    root.add_path_with_sizes(&["README.md"], 100, 100, 1);
    root.add_path_with_sizes(&["Cargo.toml"], 200, 200, 1);

    root.compute_totals();
    root
}

#[test]
fn test_tree_node_totals() {
    let tree = create_test_tree();

    assert_eq!(tree.cumulative_size, 1000 + 800 + 300 + 5000 + 2000 + 100 + 200);
    assert_eq!(tree.current_size, 500 + 400 + 300 + 0 + 2000 + 100 + 200);
}

#[test]
fn test_tree_node_children() {
    let tree = create_test_tree();

    assert_eq!(tree.children.len(), 4);
    assert!(tree.child("src").is_some());
    assert!(tree.child("assets").is_some());
    assert!(tree.child("README.md").is_some());
    assert!(tree.child("Cargo.toml").is_some());
}

#[test]
fn test_contains_deleted_files() {
    let tree = create_test_tree();

    let assets = tree.child("assets").unwrap();
    assert!(assets.contains_deleted_files());

    let src = tree.child("src").unwrap();
    assert!(!src.contains_deleted_files());
}

#[test]
fn test_deleted_cumulative_size() {
    let tree = create_test_tree();

    let assets = tree.child("assets").unwrap();
    assert_eq!(assets.cumulative_size, 7000);
    assert_eq!(assets.deleted_cumulative_size(), 5000);
}

#[test]
fn test_bloat_calculation() {
    let tree = create_test_tree();

    let assets = tree.child("assets").unwrap();
    let logo = assets.child("logo.png").unwrap();
    assert_eq!(logo.cumulative_size, 5000);
    assert_eq!(logo.current_size, 0);

    let src = tree.child("src").unwrap();
    let main = src.child("main.rs").unwrap();
    assert_eq!(main.cumulative_size, 1000);
    assert_eq!(main.current_size, 500);
}

#[test]
fn test_visit_leaves() {
    let tree = create_test_tree();

    let paths: Vec<String> = tree.visit_leaves().into_iter().map(|r| r.path).collect();

    // Should have 7 leaf nodes (files)
    assert_eq!(paths.len(), 7);

    // All should have paths
    assert!(paths.iter().any(|p| p.ends_with("main.rs")));
    assert!(paths.iter().any(|p| p.ends_with("lib.rs")));
    assert!(paths.iter().any(|p| p.ends_with("helper.rs")));
    assert!(paths.iter().any(|p| p.ends_with("logo.png")));
    assert!(paths.iter().any(|p| p.ends_with("icon.png")));
    assert!(paths.iter().any(|p| p == "README.md"));
    assert!(paths.iter().any(|p| p == "Cargo.toml"));

    // Paths should include full path
    assert!(paths.iter().any(|p| p == "src/main.rs" || p == "src/lib.rs"));
}

#[test]
fn test_visit_leaf_nodes() {
    let tree = create_test_tree();

    let mut total_size = 0u64;
    let mut count = 0usize;
    for node in tree.visit_leaf_nodes() {
        total_size += node.cumulative_size;
        count += 1;
    }

    // Should have 7 leaf nodes (files)
    assert_eq!(count, 7);

    // Verify we can access node data
    assert_eq!(total_size, tree.cumulative_size);
}

#[test]
fn interior_sums_equal_children_after_roll_up() {
    let tree = create_test_tree();
    let src = tree.child("src").unwrap();
    assert_eq!(src.cumulative_size, 2100);
    assert_eq!(src.current_size, 1200);
    assert_eq!(src.blob_count, 3);
    assert_eq!(tree.blob_count, 7);
    assert_eq!(tree.deleted_size, 5000);
    assert!(tree.has_deleted_descendants);
}

#[test]
fn deleted_leaf_needs_history_and_no_head_bytes() {
    let mut root = TreeNode::new("(root)");
    root.add_path_with_sizes(&["gone.txt"], 10, 0, 1);
    root.add_path_with_sizes(&["empty.txt"], 0, 0, 1);
    root.add_path_with_sizes(&["kept.txt"], 10, 5, 1);
    root.compute_totals();
    assert!(root.child("gone.txt").unwrap().has_deleted_descendants);
    assert_eq!(root.child("gone.txt").unwrap().deleted_size, 10);
    assert!(!root.child("empty.txt").unwrap().has_deleted_descendants);
    assert!(!root.child("kept.txt").unwrap().has_deleted_descendants);
    assert_eq!(root.deleted_size, 10);
}

#[test]
fn same_path_twice_adds_sizes() {
    let mut root = TreeNode::new("(root)");
    root.add_path_with_sizes(&["a", "f"], 100, 0, 1);
    root.add_path_with_sizes(&["a", "f"], 50, 50, 1);
    root.compute_totals();
    let f = root.child("a").unwrap().child("f").unwrap();
    assert_eq!(f.cumulative_size, 150);
    assert_eq!(f.current_size, 50);
    assert_eq!(f.blob_count, 2);
    assert_eq!(root.children.len(), 1);
}

#[test]
fn empty_path_changes_nothing() {
    let mut root = TreeNode::new("(root)");
    let none: [&str; 0] = [];
    root.add_path_with_sizes(&none, 100, 0, 1);
    assert_eq!(root.children.len(), 0);
    assert_eq!(root.cumulative_size, 0);
}
