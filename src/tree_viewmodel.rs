use vstd::prelude::*;
use crate::order::{indices, is_permutation, order_by_size_desc};
use crate::path_split::{split_on, split_path};
use crate::selection::Selectable;
use crate::tree::{child_named, TreeNode};

verus! {

/// A child row of the tree view.
pub struct TreeNodeView {
    pub name: String,
    pub display_size: u64,
    pub current_size: u64,
    pub has_children: bool,
}

impl View for TreeNodeView {
    type V = (Seq<char>, u64, u64, bool);

    open spec fn view(&self) -> Self::V {
        (self.name@, self.display_size, self.current_size, self.has_children)
    }
}

/// The child named `name`, or `n` itself where there is none.
pub open spec fn step_into(n: TreeNode, name: Seq<char>) -> TreeNode {
    match child_named(n, name) {
        Some(i) => if 0 <= i < n.children@.len() {
            n.children@[i]
        } else {
            n
        },
        None => n,
    }
}

/// The node reached by following `names` from `n`, skipping names that
/// are not there.
pub open spec fn walk(n: TreeNode, names: Seq<Seq<char>>) -> TreeNode
    decreases names.len(),
{
    if names.len() == 0 {
        n
    } else {
        walk(step_into(n, names[0]), names.drop_first())
    }
}

/// The row for a child: its deleted bytes in deleted-only mode, else its
/// cumulative size.
pub open spec fn row_of(c: TreeNode, deleted_only: bool) -> (Seq<char>, u64, u64, bool) {
    (
        c.name@,
        if deleted_only { c.deleted_size } else { c.cumulative_size },
        c.current_size,
        c.children@.len() > 0,
    )
}

/// Rows of the first `k` children that the filter lets through, in order.
pub open spec fn shown_rows(s: Seq<TreeNode>, deleted_only: bool, k: int) -> Seq<
    (Seq<char>, u64, u64, bool),
>
    decreases k,
{
    if k <= 0 || k > s.len() {
        seq![]
    } else if !deleted_only || s[k - 1].has_deleted_descendants {
        shown_rows(s, deleted_only, k - 1).push(row_of(s[k - 1], deleted_only))
    } else {
        shown_rows(s, deleted_only, k - 1)
    }
}

/// `p` orders `rows` by display size, largest first.
pub open spec fn shown_in_order(rows: Seq<(Seq<char>, u64, u64, bool)>, p: Seq<int>) -> bool {
    forall|i: int, j: int| 0 <= i < j < rows.len() ==> #[trigger] rows[p[i]].1 >= #[trigger] rows[p[j]].1
}

/// `/a/b` for the names `a`, `b`; `/` for none.
pub open spec fn slash_path(names: Seq<Seq<char>>) -> Seq<char>
    decreases names.len(),
{
    if names.len() == 0 {
        seq!['/']
    } else if names.len() == 1 {
        seq!['/'] + names[0]
    } else {
        slash_path(names.drop_last()) + seq!['/'] + names.last()
    }
}

/// Navigation through the directory tree.
pub struct TreeViewModel {
    root: TreeNode,
    path_stack: Vec<String>,
    selected_index: usize,
    show_deleted_only: bool,
}

impl TreeViewModel {
    pub closed spec fn root_node(&self) -> TreeNode {
        self.root
    }

    pub closed spec fn names(&self) -> Seq<Seq<char>> {
        self.path_stack@.map_values(|s: String| s@)
    }

    pub closed spec fn selection_index(&self) -> nat {
        self.selected_index as nat
    }

    pub closed spec fn deleted_only(&self) -> bool {
        self.show_deleted_only
    }

    /// The repository's cumulative size: the root's.
    pub open spec fn total(&self) -> u64 {
        self.root_node().cumulative_size
    }

    /// The node being shown.
    pub open spec fn current(&self) -> TreeNode {
        walk(self.root_node(), self.names())
    }

    /// The rows being shown, in child order before sorting.
    pub open spec fn rows(&self) -> Seq<(Seq<char>, u64, u64, bool)> {
        shown_rows(
            self.current().children@,
            self.deleted_only(),
            self.current().children@.len() as int,
        )
    }

    /// At the root, first row selected, all rows shown.
    pub fn new(root: TreeNode) -> (r: TreeViewModel)
        ensures
            r.root_node() == root,
            r.names().len() == 0,
            r.selection_index() == 0,
            !r.deleted_only(),
            r.total() == root.cumulative_size,
    {
        let r = TreeViewModel {
            root,
            path_stack: Vec::new(),
            selected_index: 0,
            show_deleted_only: false,
        };
        proof {
            assert(r.names() =~= Seq::<Seq<char>>::empty());
        }
        r
    }

    /// Deleted bytes of the whole tree.
    pub fn total_deleted(&self) -> (r: u64)
        ensures
            r == self.root_node().deleted_size,
    {
        self.root.deleted_cumulative_size()
    }

    pub fn is_at_root(&self) -> (r: bool)
        ensures
            r == (self.names().len() == 0),
    {
        self.path_stack.len() == 0
    }

    pub fn is_deleted_only(&self) -> (r: bool)
        ensures
            r == self.deleted_only(),
    {
        self.show_deleted_only
    }

    /// The shown directory as `/a/b`.
    pub fn current_path(&self) -> (r: String)
        ensures
            r@ == slash_path(self.names()),
    {
        proof {
            reveal_strlit("/");
        }
        let n = self.path_stack.len();
        if n == 0 {
            return String::from_str("/");
        }
        let mut s = String::from_str("/").concat(self.path_stack[0].as_str());
        let mut i: usize = 1;
        proof {
            assert(self.names().subrange(0, 1).drop_last() =~= Seq::<Seq<char>>::empty());
            assert(s@ =~= slash_path(self.names().subrange(0, 1)));
        }
        while i < n
            invariant
                n == self.names().len(),
                1 <= i <= n,
                s@ == slash_path(self.names().subrange(0, i as int)),
            decreases n - i,
        {
            let ghost old_s = s@;
            s = s.concat("/").concat(self.path_stack[i].as_str());
            proof {
                reveal_strlit("/");
                assert(s@ == old_s + seq!['/'] + self.path_stack@[i as int]@);
                assert(self.names()[i as int] == self.path_stack@[i as int]@);
                assert(self.names().subrange(0, i + 1).last() == self.names()[i as int]);
                assert(self.names().subrange(0, i + 1).drop_last() =~= self.names().subrange(
                    0,
                    i as int,
                ));
                let sub = self.names().subrange(0, i + 1);
                assert(sub.len() >= 2);
                assert(slash_path(sub) == slash_path(sub.drop_last()) + seq!['/'] + sub.last());
            }
            i = i + 1;
        }
        proof {
            assert(self.names().subrange(0, n as int) =~= self.names());
        }
        s
    }

    /// The node being shown.
    pub fn current_node(&self) -> (r: &TreeNode)
        ensures
            *r == self.current(),
    {
        let mut node: &TreeNode = &self.root;
        let n = self.path_stack.len();
        let mut i: usize = 0;
        proof {
            assert(self.names().subrange(0, n as int) =~= self.names());
        }
        while i < n
            invariant
                n == self.names().len(),
                0 <= i <= n,
                walk(*node, self.names().subrange(i as int, n as int)) == self.current(),
            decreases n - i,
        {
            let key = &self.path_stack[i];
            let m = node.children.len();
            let mut j: usize = 0;
            while j < m
                invariant
                    m == node.children@.len(),
                    0 <= j <= m,
                    crate::tree::find_child(node.children@, key@, j as int) is None,
                ensures
                    crate::tree::find_child(node.children@, key@, j as int) is None,
                    j == m || node.children@[j as int].name@ == key@,
                decreases m - j,
            {
                if node.children[j].name == *key {
                    break;
                }
                j = j + 1;
            }
            let ghost before = *node;
            proof {
                let rest = self.names().subrange(i as int, n as int);
                assert(self.names()[i as int] == self.path_stack@[i as int]@);
                assert(rest[0] == key@);
                assert(rest.drop_first() =~= self.names().subrange(i + 1, n as int));
            }
            if j < m {
                proof {
                    crate::tree::lemma_find_child_stable_pub(node.children@, key@, j + 1, m as int);
                }
                node = &node.children[j];
            }
            i = i + 1;
        }
        proof {
            assert(self.names().subrange(n as int, n as int) =~= Seq::<Seq<char>>::empty());
        }
        node
    }
    /// The rows of the shown directory, largest display size first (ties
    /// in child order); in deleted-only mode only children holding
    /// deleted files, sized by their deleted bytes.
    pub fn visible_children(&self) -> (r: Vec<TreeNodeView>)
        ensures
            r@.len() == self.rows().len(),
            exists|p: Seq<int>|
                is_permutation(p, self.rows().len() as int) && forall|i: int|
                    0 <= i < r@.len() ==> #[trigger] r@[i]@ == self.rows()[p[i]],
            forall|i: int, j: int|
                0 <= i < j < r@.len() ==> #[trigger] r@[i].display_size >= #[trigger] r@[j].display_size,
    {
        let node = self.current_node();
        let m = node.children.len();
        let mut shown: Vec<TreeNodeView> = Vec::new();
        let mut keys: Vec<u64> = Vec::new();
        let mut j: usize = 0;
        while j < m
            invariant
                *node == self.current(),
                m == node.children@.len(),
                0 <= j <= m,
                shown@.len() == keys@.len(),
                shown@.map_values(|v: TreeNodeView| v@) == shown_rows(
                    node.children@,
                    self.deleted_only(),
                    j as int,
                ),
                forall|k: int| 0 <= k < keys@.len() ==> #[trigger] keys@[k] == shown@[k].display_size,
            decreases m - j,
        {
            let c = &node.children[j];
            let ghost before = shown@;
            if !self.show_deleted_only || c.contains_deleted_files() {
                let display_size = if self.show_deleted_only {
                    c.deleted_cumulative_size()
                } else {
                    c.cumulative_size
                };
                shown.push(
                    TreeNodeView {
                        name: c.name.clone(),
                        display_size,
                        current_size: c.current_size,
                        has_children: c.children.len() > 0,
                    },
                );
                keys.push(display_size);
                proof {
                    assert(shown@.map_values(|v: TreeNodeView| v@) =~= before.map_values(
                        |v: TreeNodeView| v@,
                    ).push(row_of(node.children@[j as int], self.deleted_only())));
                }
            }
            j = j + 1;
        }
        let order = order_by_size_desc(&keys);
        let g = shown.len();
        let mut out: Vec<TreeNodeView> = Vec::new();
        let mut t: usize = 0;
        while t < g
            invariant
                g == shown@.len(),
                g == keys@.len(),
                is_permutation(indices(order@), g as int),
                forall|k: int| 0 <= k < g ==> #[trigger] keys@[k] == shown@[k].display_size,
                0 <= t <= g,
                out@.len() == t,
                forall|u: int| 0 <= u < t ==> #[trigger] out@[u]@ == shown@[order@[u] as int]@,
            decreases g - t,
        {
            assert(indices(order@)[t as int] == order@[t as int] as int);
            let src = &shown[order[t]];
            out.push(
                TreeNodeView {
                    name: src.name.clone(),
                    display_size: src.display_size,
                    current_size: src.current_size,
                    has_children: src.has_children,
                },
            );
            t = t + 1;
        }
        proof {
            let rows = shown@.map_values(|v: TreeNodeView| v@);
            assert(rows == self.rows());
            let p = indices(order@);
            assert forall|i: int| 0 <= i < out@.len() implies #[trigger] out@[i]@ == self.rows()[p[i]] by {
                assert(p[i] == order@[i] as int);
                assert(out@[i]@ == shown@[order@[i] as int]@);
            }
            assert forall|a: int, b: int| 0 <= a < b < out@.len() implies #[trigger] out@[a].display_size
                >= #[trigger] out@[b].display_size by {
                assert(p[a] == order@[a] as int);
                assert(p[b] == order@[b] as int);
                assert(out@[a]@ == shown@[order@[a] as int]@);
                assert(out@[b]@ == shown@[order@[b] as int]@);
                assert(keys@[order@[a] as int] >= keys@[order@[b] as int]);
            }
        }
        out
    }

    pub fn selected_index(&self) -> (r: usize)
        ensures
            r == self.selection_index(),
    {
        self.selected_index
    }

    /// The total that percentages refer to: deleted bytes in deleted-only
    /// mode, else the repository's cumulative size.
    pub fn total_for_percent(&self) -> (r: u64)
        ensures
            r == if self.deleted_only() {
                self.root_node().deleted_size
            } else {
                self.total()
            },
    {
        if self.show_deleted_only {
            self.total_deleted()
        } else {
            self.root.cumulative_size
        }
    }

    /// Opens the selected row when it is a directory, selecting its first
    /// row; otherwise changes nothing.
    pub fn enter_selected(&mut self)
        ensures
            exists|p: Seq<int>|
                #![trigger shown_in_order(old(self).rows(), p)]
                {
                    let rows = old(self).rows();
                    let sel = old(self).selection_index() as int;
                    let opens = sel < rows.len() && rows[p[sel]].3;
                    &&& is_permutation(p, rows.len() as int)
                    &&& shown_in_order(rows, p)
                    &&& opens ==> final(self).names() == old(self).names().push(rows[p[sel]].0)
                        && final(self).selection_index() == 0
                        && final(self).root_node() == old(self).root_node()
                        && final(self).deleted_only() == old(self).deleted_only()
                    &&& !opens ==> *final(self) == *old(self)
                },
    {
        let children = self.visible_children();
        let ghost rows = self.rows();
        let ghost p = choose|p: Seq<int>|
            is_permutation(p, rows.len() as int) && forall|i: int|
                0 <= i < children@.len() ==> #[trigger] children@[i]@ == rows[p[i]];
        proof {
            assert forall|i: int, j: int| 0 <= i < j < rows.len() implies #[trigger] rows[p[i]].1
                >= #[trigger] rows[p[j]].1 by {
                assert(children@[i]@ == rows[p[i]]);
                assert(children@[j]@ == rows[p[j]]);
            }
            assert(shown_in_order(rows, p));
        }
        if self.selected_index < children.len() && children[self.selected_index].has_children {
            let name = children[self.selected_index].name.clone();
            let ghost before = self.path_stack@;
            proof {
                assert(children@[self.selected_index as int]@ == rows[p[self.selected_index as int]]);
            }
            self.path_stack.push(name);
            self.selected_index = 0;
            proof {
                assert(self.names() =~= before.map_values(|s: String| s@).push(name@));
            }
        } else {
            proof {
                if (self.selected_index as int) < rows.len() {
                    assert(children@[self.selected_index as int]@ == rows[p[self.selected_index as int]]);
                }
            }
        }
    }

    /// Goes up one level; false at the root.
    pub fn go_back(&mut self) -> (r: bool)
        ensures
            r == (old(self).names().len() > 0),
            r ==> final(self).names() == old(self).names().drop_last() && final(self).selection_index() == 0,
            !r ==> *final(self) == *old(self),
            final(self).root_node() == old(self).root_node(),
            final(self).deleted_only() == old(self).deleted_only(),
            final(self).total() == old(self).total(),
    {
        if self.path_stack.len() == 0 {
            false
        } else {
            let ghost before = self.path_stack@;
            let _ = self.path_stack.pop();
            self.selected_index = 0;
            proof {
                assert(self.names() =~= before.map_values(|s: String| s@).drop_last());
            }
            true
        }
    }

    /// Switches deleted-only mode; selects the first row.
    pub fn toggle_deleted_only(&mut self)
        ensures
            final(self).deleted_only() == !old(self).deleted_only(),
            final(self).names() == old(self).names(),
            final(self).root_node() == old(self).root_node(),
            final(self).total() == old(self).total(),
            final(self).selection_index() == 0,
    {
        self.show_deleted_only = !self.show_deleted_only;
        self.selected_index = 0;
    }

    /// Shows the directory holding `path`; a path without a slash changes
    /// nothing.
    pub fn navigate_to_path(&mut self, path: &str)
        ensures
            final(self).root_node() == old(self).root_node(),
            final(self).deleted_only() == old(self).deleted_only(),
            final(self).total() == old(self).total(),
            split_on(path@, '/').len() > 1 ==> final(self).names() == split_on(path@, '/').drop_last()
                && final(self).selection_index() == 0,
            split_on(path@, '/').len() <= 1 ==> *final(self) == *old(self),
    {
        let mut parts = split_path(path);
        if parts.len() > 1 {
            let ghost before = parts@;
            let _ = parts.pop();
            self.path_stack = parts;
            self.selected_index = 0;
            proof {
                assert(self.names() =~= before.map_values(|x: String| x@).drop_last());
            }
        }
    }
}

impl Selectable for TreeViewModel {
    fn len(&self) -> usize {
        self.visible_children().len()
    }

    fn selected(&self) -> usize {
        self.selected_index
    }

    fn set_selected(&mut self, index: usize) {
        self.selected_index = index;
    }
}

} // verus!
