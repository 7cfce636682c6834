//! How much each path and file type weighs in a repository's history.
//!
//! - `scanner`: the scan state (path interning, dedup sets, emitted rows),
//!   commit planning and HEAD snapshots; `pack`: compressed object sizes.
//! - `store`: the stored-row laws (additive `paths`, first-row `blobs`),
//!   the schema gate and the tree built from stored rows.
//! - `tree`: the directory tree and its roll-up.
//! - `format`, `input`, `selection` and the `*_viewmodel` modules: what the
//!   front end shows and how keys drive it.
//! - `bytes`, `order`, `path_split`: byte maps and sets, ordering, path
//!   cutting.

pub mod app_viewmodel;
pub mod blobs_viewmodel;
pub mod bytes;
pub mod extension_viewmodel;
pub mod format;
pub mod input;
pub mod model;
pub mod order;
pub mod pack;
pub mod path_split;
pub mod scanner;
pub mod search_viewmodel;
pub mod selection;
pub mod store;
pub mod tree;
pub mod tree_viewmodel;
