use repodiet::app_viewmodel::{Action, AppViewModel, ViewMode};
use repodiet::blobs_viewmodel::BlobsViewModel;
use repodiet::extension_viewmodel::ExtensionViewModel;
use repodiet::input::Intent;
use repodiet::model::LargeBlobInfo;
use repodiet::search_viewmodel::{find_matches, SearchViewModel};
use repodiet::selection::Selectable;
use repodiet::tree::TreeNode;
use repodiet::tree_viewmodel::TreeViewModel;

fn small_tree() -> TreeNode {
    let mut root = TreeNode::new("(root)");
    root.add_path_with_sizes(&["src", "main.rs"], 1000, 500, 1);
    root.add_path_with_sizes(&["assets", "logo.png"], 5000, 0, 1);
    root.compute_totals();
    root
}

#[test]
fn test_mode_switching() {
    let tree = small_tree();
    let mut vm = AppViewModel::new(tree, vec![]);

    assert_eq!(vm.view_mode(), ViewMode::Tree);

    vm.handle_intent(Intent::ShowExtensions);
    assert_eq!(vm.view_mode(), ViewMode::ByExtension);

    vm.handle_intent(Intent::ShowTree);
    assert_eq!(vm.view_mode(), ViewMode::Tree);

    vm.handle_intent(Intent::EnterSearch);
    assert_eq!(vm.view_mode(), ViewMode::Search);
}

#[test]
fn test_quit_action() {
    let tree = small_tree();
    let mut vm = AppViewModel::new(tree, vec![]);

    let action = vm.handle_intent(Intent::Quit);
    assert_eq!(action, Action::Quit);
}

#[test]
fn search_then_enter_opens_the_directory() {
    let tree = small_tree();
    let mut vm = AppViewModel::new(tree, vec![]);
    vm.handle_intent(Intent::EnterSearch);
    for c in "logo".chars() {
        assert_eq!(vm.handle_intent(Intent::SearchChar(c)), Action::Redraw);
    }
    assert_eq!(vm.search_vm.results().len(), 1);
    vm.handle_intent(Intent::Enter);
    assert_eq!(vm.view_mode(), ViewMode::Tree);
    assert_eq!(vm.tree_vm.current_path(), "/assets");
    assert_eq!(vm.search_vm.query(), "");
}

#[test]
fn blobs_viewmodel_test_navigation() {
    let blobs = vec![
        LargeBlobInfo {
            oid: "abc".into(),
            size: 1000,
            path: "a.png".to_string(),
            first_author: "alice".to_string(),
            first_date: 0,
        },
        LargeBlobInfo {
            oid: "def".into(),
            size: 500,
            path: "b.png".to_string(),
            first_author: "bob".to_string(),
            first_date: 0,
        },
    ];
    let mut vm = BlobsViewModel::new(blobs, 10000);

    assert_eq!(vm.selected_index(), 0);
    vm.move_down();
    assert_eq!(vm.selected_index(), 1);
    vm.move_down();
    assert_eq!(vm.selected_index(), 0); // Wrap
    vm.move_up();
    assert_eq!(vm.selected_index(), 1); // Wrap back
    assert_eq!(vm.total_blob_size(), 1500);
    assert_eq!(vm.selected_path(), Some("b.png"));
    assert_eq!(vm.total_cumulative(), 10000);
}

fn ext_tree() -> TreeNode {
    let mut root = TreeNode::new("(root)");
    root.add_path_with_sizes(&["src", "main.rs"], 1000, 500, 1);
    root.add_path_with_sizes(&["src", "lib.rs"], 800, 400, 1);
    root.add_path_with_sizes(&["assets", "logo.png"], 5000, 0, 1);
    root.add_path_with_sizes(&["assets", "icon.png"], 2000, 2000, 1);
    root.compute_totals();
    root
}

#[test]
fn test_extension_stats() {
    let tree = ext_tree();
    let vm = ExtensionViewModel::new(&tree);

    let stats = vm.stats();
    assert!(!stats.is_empty());

    // Should have .rs and .png
    let ext_names: Vec<_> = stats.iter().map(|s| s.extension.as_str()).collect();
    assert!(ext_names.contains(&".rs"));
    assert!(ext_names.contains(&".png"));
}

#[test]
fn extension_stats_are_grouped_and_sorted() {
    let tree = ext_tree();
    let vm = ExtensionViewModel::new(&tree);
    let stats = vm.stats();
    assert_eq!(stats.len(), 2);
    assert_eq!(stats[0].extension, ".png");
    assert_eq!(stats[0].cumulative_size, 7000);
    assert_eq!(stats[0].current_size, 2000);
    assert_eq!(stats[0].file_count, 2);
    assert_eq!(stats[1].extension, ".rs");
    assert_eq!(stats[1].cumulative_size, 1800);
    assert_eq!(vm.total_cumulative(), 8800);
    assert_eq!(vm.total_current(), 2900);
    assert_eq!(vm.total_files(), 4);
}

fn search_tree() -> TreeNode {
    let mut root = TreeNode::new("(root)");
    root.add_path_with_sizes(&["src", "main.rs"], 1000, 500, 1);
    root.add_path_with_sizes(&["src", "lib.rs"], 800, 400, 1);
    root.add_path_with_sizes(&["README.md"], 100, 100, 1);
    root.compute_totals();
    root
}

#[test]
fn test_search() {
    let tree = search_tree();
    let mut vm = SearchViewModel::new(&tree);

    vm.add_char('.');
    vm.add_char('r');
    vm.add_char('s');

    assert_eq!(vm.results().len(), 2);
}

#[test]
fn test_search_case_insensitive() {
    let tree = search_tree();
    let mut vm = SearchViewModel::new(&tree);

    for c in "README".chars() {
        vm.add_char(c);
    }

    assert_eq!(vm.results().len(), 1);
}

#[test]
fn test_empty_search() {
    let tree = search_tree();
    let vm = SearchViewModel::new(&tree);

    assert_eq!(vm.results().len(), 0);
}

#[test]
fn search_results_are_largest_first_with_ranges() {
    let tree = search_tree();
    let mut vm = SearchViewModel::new(&tree);
    vm.add_char('s');
    let results = vm.results();
    assert_eq!(results.len(), 2);
    assert_eq!(results[0].path, "src/main.rs");
    assert_eq!(results[0].cumulative_size, 1000);
    assert_eq!(results[0].matches, vec![(0, 1), (10, 11)]);
    assert_eq!(results[1].path, "src/lib.rs");
    vm.backspace();
    assert_eq!(vm.query(), "");
    assert_eq!(vm.results().len(), 0);
}

#[test]
fn find_matches_is_non_overlapping() {
    assert_eq!(find_matches("aaaa", "aa"), vec![(0, 2), (2, 4)]);
    assert_eq!(find_matches("a/b/a.txt", "a"), vec![(0, 1), (4, 5)]);
    assert_eq!(find_matches("src/main.rs", "xyz"), vec![]);
    assert_eq!(find_matches("src/main.rs", ""), vec![]);
}

struct TestList {
    items: Vec<i32>,
    selected_index: usize,
}

impl Selectable for TestList {
    fn len(&self) -> usize {
        self.items.len()
    }

    fn selected(&self) -> usize {
        self.selected_index
    }

    fn set_selected(&mut self, index: usize) {
        self.selected_index = index;
    }
}

#[test]
fn test_move_up_wraparound() {
    let mut list = TestList { items: vec![1, 2, 3], selected_index: 0 };
    list.move_up();
    assert_eq!(list.selected(), 2);
}

#[test]
fn test_move_up_normal() {
    let mut list = TestList { items: vec![1, 2, 3], selected_index: 2 };
    list.move_up();
    assert_eq!(list.selected(), 1);
}

#[test]
fn test_move_down_wraparound() {
    let mut list = TestList { items: vec![1, 2, 3], selected_index: 2 };
    list.move_down();
    assert_eq!(list.selected(), 0);
}

#[test]
fn test_move_down_normal() {
    let mut list = TestList { items: vec![1, 2, 3], selected_index: 0 };
    list.move_down();
    assert_eq!(list.selected(), 1);
}

#[test]
fn test_empty_list() {
    let mut list = TestList { items: vec![], selected_index: 5 };
    list.move_up();
    assert_eq!(list.selected(), 0);

    list.selected_index = 5;
    list.move_down();
    assert_eq!(list.selected(), 0);
}

#[test]
fn test_is_empty() {
    let empty_list = TestList { items: vec![], selected_index: 0 };
    let non_empty_list = TestList { items: vec![1], selected_index: 0 };

    assert!(empty_list.is_empty());
    assert!(!non_empty_list.is_empty());
}

fn nav_tree() -> TreeNode {
    let mut root = TreeNode::new("(root)");
    root.add_path_with_sizes(&["src", "main.rs"], 1000, 500, 1);
    root.add_path_with_sizes(&["src", "lib.rs"], 800, 400, 1);
    root.add_path_with_sizes(&["assets", "logo.png"], 5000, 0, 1);
    root.add_path_with_sizes(&["assets", "icon.png"], 2000, 2000, 1);
    root.add_path_with_sizes(&["README.md"], 100, 100, 1);
    root.compute_totals();
    root
}

#[test]
fn tree_viewmodel_test_navigation() {
    let tree = nav_tree();
    let mut vm = TreeViewModel::new(tree);

    assert!(vm.is_at_root());
    assert_eq!(vm.current_path(), "/");

    // Move to first child (sorted by size, so assets first)
    assert!(!vm.visible_children().is_empty());
    vm.enter_selected();
    assert!(!vm.is_at_root());

    assert!(vm.go_back());
    assert!(vm.is_at_root());
}

#[test]
fn test_deleted_filter() {
    let tree = nav_tree();
    let mut vm = TreeViewModel::new(tree);

    vm.toggle_deleted_only();
    assert!(vm.is_deleted_only());

    let children = vm.visible_children();
    // Only assets should be visible (contains deleted logo.png)
    assert_eq!(children.len(), 1);
    assert_eq!(children[0].name, "assets");
}

#[test]
fn tree_view_sorts_and_navigates_by_path() {
    let tree = nav_tree();
    let mut vm = TreeViewModel::new(tree);
    let names: Vec<String> = vm.visible_children().into_iter().map(|c| c.name).collect();
    assert_eq!(names, vec!["assets", "src", "README.md"]);
    vm.navigate_to_path("src/main.rs");
    assert_eq!(vm.current_path(), "/src");
    assert_eq!(vm.current_node().name, "src");
    assert_eq!(vm.len(), 2);
    vm.toggle_deleted_only();
    assert_eq!(vm.len(), 0);
    assert!(vm.go_back());
    assert!(!vm.go_back());
    assert_eq!(vm.total_for_percent(), 5000);
    assert_eq!(vm.total_deleted(), 5000);
}

#[test]
fn show_tree_from_search_clears_it_and_keys_outside_search_do_nothing() {
    let tree = small_tree();
    let mut vm = AppViewModel::new(tree, vec![]);
    vm.handle_intent(Intent::SearchChar('x'));
    assert_eq!(vm.search_vm.query(), "");
    vm.handle_intent(Intent::EnterSearch);
    vm.handle_intent(Intent::SearchChar('m'));
    assert_eq!(vm.search_vm.query(), "m");
    vm.handle_intent(Intent::ShowTree);
    assert_eq!(vm.view_mode(), ViewMode::Tree);
    assert_eq!(vm.search_vm.query(), "");
    assert_eq!(vm.search_vm.results().len(), 0);
    vm.handle_intent(Intent::ShowExtensions);
    vm.handle_intent(Intent::Back);
    assert_eq!(vm.view_mode(), ViewMode::ByExtension);
    assert!(vm.tree_vm.is_at_root());
}
