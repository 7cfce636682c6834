use vstd::prelude::*;
use crate::blobs_viewmodel::BlobsViewModel;
use crate::extension_viewmodel::{file_sums_fit, ExtensionViewModel};
use crate::input::Intent;
use crate::model::LargeBlobInfo;
use crate::search_viewmodel::SearchViewModel;
use crate::selection::{index_above, index_below, Selectable};
use crate::tree::TreeNode;
use crate::tree_viewmodel::TreeViewModel;

verus! {

/// The view on screen.
#[derive(Debug, Clone, Copy, PartialEq, Eq, Structural)]
pub enum ViewMode {
    Tree,
    ByExtension,
    LargeBlobs,
    Search,
}

/// What the event loop does after an intent.
#[derive(Debug, Clone, PartialEq, Eq, Structural)]
pub enum Action {
    Redraw,
    Quit,
}

/// The view an intent leads to, when the intent alone decides it.
pub open spec fn mode_after(mode: ViewMode, intent: Intent) -> ViewMode {
    match intent {
        Intent::ShowTree => ViewMode::Tree,
        Intent::ShowExtensions => ViewMode::ByExtension,
        Intent::ShowLargeBlobs => ViewMode::LargeBlobs,
        Intent::EnterSearch => ViewMode::Search,
        _ => mode,
    }
}

/// What Enter does: the tree opens its selected directory; the blob list
/// and the search show the selected path's directory in the tree (the
/// search is cleared); the extension view does nothing.
pub open spec fn enters(o: AppViewModel, f: AppViewModel) -> bool {
    match o.mode() {
        ViewMode::Tree => f.only_active_changed(o) && f.tree_model().root_node()
            == o.tree_model().root_node(),
        ViewMode::ByExtension => f == o,
        ViewMode::LargeBlobs => if o.blobs_model().selection() < o.blobs_model().blob_list().len() {
            &&& f.mode() == ViewMode::Tree
            &&& f.tree_model().root_node() == o.tree_model().root_node()
            &&& f.search_model() == o.search_model()
            &&& f.extension_model() == o.extension_model()
            &&& f.blobs_model() == o.blobs_model()
        } else {
            f == o
        },
        ViewMode::Search => if o.search_model().selection_index() < o.search_model().hits().len() {
            &&& f.mode() == ViewMode::Tree
            &&& f.tree_model().root_node() == o.tree_model().root_node()
            &&& f.search_model().query_text().len() == 0
            &&& f.search_model().hits().len() == 0
            &&& f.search_model().files() == o.search_model().files()
            &&& f.extension_model() == o.extension_model()
            &&& f.blobs_model() == o.blobs_model()
        } else {
            f == o
        },
    }
}

/// The application state: the view on screen and one model per view.
pub struct AppViewModel {
    view_mode: ViewMode,
    pub tree_vm: TreeViewModel,
    pub extension_vm: ExtensionViewModel,
    pub search_vm: SearchViewModel,
    pub blobs_vm: BlobsViewModel,
}

impl AppViewModel {
    pub closed spec fn mode(&self) -> ViewMode {
        self.view_mode
    }

    pub closed spec fn tree_model(&self) -> TreeViewModel {
        self.tree_vm
    }

    pub closed spec fn blobs_model(&self) -> BlobsViewModel {
        self.blobs_vm
    }

    pub closed spec fn search_model(&self) -> SearchViewModel {
        self.search_vm
    }

    pub closed spec fn extension_model(&self) -> ExtensionViewModel {
        self.extension_vm
    }

    /// Every view's model is `o`'s.
    pub open spec fn same_models(&self, o: AppViewModel) -> bool {
        &&& self.tree_model() == o.tree_model()
        &&& self.extension_model() == o.extension_model()
        &&& self.search_model() == o.search_model()
        &&& self.blobs_model() == o.blobs_model()
    }

    /// Only the model of the view on screen may differ from `o`'s.
    pub open spec fn only_active_changed(&self, o: AppViewModel) -> bool {
        &&& self.mode() == o.mode()
        &&& o.mode() != ViewMode::Tree ==> self.tree_model() == o.tree_model()
        &&& o.mode() != ViewMode::ByExtension ==> self.extension_model() == o.extension_model()
        &&& o.mode() != ViewMode::Search ==> self.search_model() == o.search_model()
        &&& o.mode() != ViewMode::LargeBlobs ==> self.blobs_model() == o.blobs_model()
    }

    /// Starts on the tree view.
    pub fn new(root: TreeNode, large_blobs: Vec<LargeBlobInfo>) -> (r: AppViewModel)
        requires
            file_sums_fit(root),
        ensures
            r.mode() == ViewMode::Tree,
            r.tree_model().root_node() == root,
            r.tree_model().names().len() == 0,
            !r.tree_model().deleted_only(),
            r.tree_model().selection_index() == 0,
            r.search_model().query_text().len() == 0,
            r.search_model().hits().len() == 0,
            r.search_model().selection_index() == 0,
            r.search_model().total() == root.cumulative_size,
            r.extension_model().selection_index() == 0,
            r.blobs_model().selection() == 0,
            r.blobs_model().blob_list() == large_blobs@,
            r.blobs_model().total() == root.cumulative_size,
    {
        let total_cumulative = root.cumulative_size;
        let extension_vm = ExtensionViewModel::new(&root);
        let search_vm = SearchViewModel::new(&root);
        let tree_vm = TreeViewModel::new(root);
        let blobs_vm = BlobsViewModel::new(large_blobs, total_cumulative);
        AppViewModel { view_mode: ViewMode::Tree, tree_vm, extension_vm, search_vm, blobs_vm }
    }

    pub fn view_mode(&self) -> (r: ViewMode)
        ensures
            r == self.mode(),
    {
        self.view_mode
    }

    pub fn is_search_mode(&self) -> (r: bool)
        ensures
            r == (self.mode() == ViewMode::Search),
    {
        self.view_mode == ViewMode::Search
    }

    fn move_up_current(&mut self)
        ensures
            final(self).only_active_changed(*old(self)),
            old(self).mode() == ViewMode::LargeBlobs ==> final(self).blobs_model().selection()
                == index_above(
                old(self).blobs_model().selection() as int,
                old(self).blobs_model().blob_list().len() as int,
            ) && final(self).blobs_model().blob_list() == old(self).blobs_model().blob_list(),
    {
        match self.view_mode {
            ViewMode::Tree => self.tree_vm.move_up(),
            ViewMode::ByExtension => self.extension_vm.move_up(),
            ViewMode::LargeBlobs => self.blobs_vm.move_up(),
            ViewMode::Search => self.search_vm.move_up(),
        }
    }

    fn move_down_current(&mut self)
        ensures
            final(self).only_active_changed(*old(self)),
            old(self).mode() == ViewMode::LargeBlobs ==> final(self).blobs_model().selection()
                == index_below(
                old(self).blobs_model().selection() as int,
                old(self).blobs_model().blob_list().len() as int,
            ) && final(self).blobs_model().blob_list() == old(self).blobs_model().blob_list(),
    {
        match self.view_mode {
            ViewMode::Tree => self.tree_vm.move_down(),
            ViewMode::ByExtension => self.extension_vm.move_down(),
            ViewMode::LargeBlobs => self.blobs_vm.move_down(),
            ViewMode::Search => self.search_vm.move_down(),
        }
    }
    fn enter_current(&mut self)
        ensures
            enters(*old(self), *final(self)),
    {
        match self.view_mode {
            ViewMode::Tree => self.tree_vm.enter_selected(),
            ViewMode::LargeBlobs => {
                if let Some(path) = self.blobs_vm.selected_path() {
                    self.tree_vm.navigate_to_path(path);
                    self.view_mode = ViewMode::Tree;
                }
            },
            ViewMode::Search => {
                if let Some(path) = self.search_vm.selected_path() {
                    self.tree_vm.navigate_to_path(path);
                    self.search_vm.clear();
                    self.view_mode = ViewMode::Tree;
                }
            },
            ViewMode::ByExtension => {},
        }
    }

    /// Carries out an intent; `Quit` asks the loop to stop and changes
    /// nothing, every other intent asks for a redraw.
    pub fn handle_intent(&mut self, intent: Intent) -> (r: Action)
        ensures
            r == (if intent == Intent::Quit {
                Action::Quit
            } else {
                Action::Redraw
            }),
            intent == Intent::Quit ==> *final(self) == *old(self),
            match intent {
                Intent::ShowTree => final(self).mode() == ViewMode::Tree && final(self).tree_model()
                    == old(self).tree_model() && final(self).blobs_model() == old(self).blobs_model()
                    && if old(self).mode() == ViewMode::Search {
                    final(self).search_model().query_text().len() == 0
                        && final(self).search_model().hits().len() == 0
                        && final(self).search_model().files() == old(self).search_model().files()
                } else {
                    final(self).search_model() == old(self).search_model()
                },
                Intent::ShowExtensions => final(self).mode() == ViewMode::ByExtension && final(self).same_models(*old(self)),
                Intent::ShowLargeBlobs => final(self).mode() == ViewMode::LargeBlobs && final(self).same_models(*old(self)),
                Intent::EnterSearch => final(self).mode() == ViewMode::Search
                    && final(self).search_model().query_text().len() == 0
                    && final(self).search_model().hits().len() == 0
                    && final(self).search_model().files() == old(self).search_model().files()
                    && final(self).tree_model() == old(self).tree_model(),
                Intent::MoveUp => final(self).only_active_changed(*old(self)) && (old(self).mode()
                    == ViewMode::LargeBlobs ==> final(self).blobs_model().selection() == index_above(
                    old(self).blobs_model().selection() as int,
                    old(self).blobs_model().blob_list().len() as int,
                )),
                Intent::MoveDown => final(self).only_active_changed(*old(self)) && (old(self).mode()
                    == ViewMode::LargeBlobs ==> final(self).blobs_model().selection() == index_below(
                    old(self).blobs_model().selection() as int,
                    old(self).blobs_model().blob_list().len() as int,
                )),
                Intent::Enter => enters(*old(self), *final(self)),
                Intent::Back => if old(self).mode() == ViewMode::Tree {
                    final(self).only_active_changed(*old(self)) && (old(self).tree_model().names().len()
                        > 0 ==> final(self).tree_model().names() == old(self).tree_model().names().drop_last())
                } else {
                    *final(self) == *old(self)
                },
                Intent::ToggleDeletedOnly => if old(self).mode() == ViewMode::Tree {
                    final(self).only_active_changed(*old(self)) && final(self).tree_model().deleted_only()
                        == !old(self).tree_model().deleted_only() && final(self).tree_model().names()
                        == old(self).tree_model().names()
                } else {
                    *final(self) == *old(self)
                },
                Intent::SearchChar(c) => if old(self).mode() == ViewMode::Search {
                    final(self).only_active_changed(*old(self))
                        && final(self).search_model().query_text() == old(self).search_model().query_text().push(c)
                } else {
                    *final(self) == *old(self)
                },
                Intent::SearchBackspace => if old(self).mode() == ViewMode::Search {
                    final(self).only_active_changed(*old(self))
                        && final(self).search_model().files() == old(self).search_model().files()
                } else {
                    *final(self) == *old(self)
                },
                Intent::Quit => true,
            },
    {
        match intent {
            Intent::Quit => Action::Quit,
            Intent::ShowTree => {
                if self.view_mode == ViewMode::Search {
                    self.search_vm.clear();
                }
                self.view_mode = ViewMode::Tree;
                Action::Redraw
            },
            Intent::ShowExtensions => {
                self.view_mode = ViewMode::ByExtension;
                Action::Redraw
            },
            Intent::ShowLargeBlobs => {
                self.view_mode = ViewMode::LargeBlobs;
                Action::Redraw
            },
            Intent::EnterSearch => {
                self.search_vm.clear();
                self.view_mode = ViewMode::Search;
                Action::Redraw
            },
            Intent::MoveUp => {
                self.move_up_current();
                Action::Redraw
            },
            Intent::MoveDown => {
                self.move_down_current();
                Action::Redraw
            },
            Intent::Enter => {
                self.enter_current();
                Action::Redraw
            },
            Intent::Back => {
                if self.view_mode == ViewMode::Tree {
                    let _ = self.tree_vm.go_back();
                }
                Action::Redraw
            },
            Intent::ToggleDeletedOnly => {
                if self.view_mode == ViewMode::Tree {
                    self.tree_vm.toggle_deleted_only();
                }
                Action::Redraw
            },
            Intent::SearchChar(c) => {
                if self.view_mode == ViewMode::Search {
                    self.search_vm.add_char(c);
                }
                Action::Redraw
            },
            Intent::SearchBackspace => {
                if self.view_mode == ViewMode::Search {
                    self.search_vm.backspace();
                }
                Action::Redraw
            },
        }
    }

    /// The key-map view for the view on screen; search maps as the tree.
    pub fn input_view_mode(&self) -> (r: crate::input::ViewMode)
        ensures
            r == match self.mode() {
                ViewMode::Tree => crate::input::ViewMode::Tree,
                ViewMode::ByExtension => crate::input::ViewMode::ByExtension,
                ViewMode::LargeBlobs => crate::input::ViewMode::LargeBlobs,
                ViewMode::Search => crate::input::ViewMode::Tree,
            },
    {
        match self.view_mode {
            ViewMode::Tree => crate::input::ViewMode::Tree,
            ViewMode::ByExtension => crate::input::ViewMode::ByExtension,
            ViewMode::LargeBlobs => crate::input::ViewMode::LargeBlobs,
            ViewMode::Search => crate::input::ViewMode::Tree,
        }
    }
}

} // verus!
