use vstd::prelude::*;

verus! {

broadcast use {vstd::std_specs::vec::axiom_vec_decreases_to_view, vstd::seq::axiom_seq_index_decreases};

/// A node of the directory tree: a file (no children) or a directory.
pub struct TreeNode {
    pub name: String,
    pub cumulative_size: u64,
    pub current_size: u64,
    pub blob_count: u64,
    pub children: Vec<TreeNode>,
    /// Whether this node or a descendant is a deleted file.
    pub has_deleted_descendants: bool,
    /// Cumulative bytes of deleted files in this subtree.
    pub deleted_size: u64,
}

/// Subtree totals, in unbounded integers.
pub ghost struct Totals {
    pub cumulative: int,
    pub current: int,
    pub count: int,
    pub deleted: int,
    pub any_deleted: bool,
}

pub open spec fn zero_totals() -> Totals {
    Totals { cumulative: 0, current: 0, count: 0, deleted: 0, any_deleted: false }
}

pub open spec fn add_totals(a: Totals, b: Totals) -> Totals {
    Totals {
        cumulative: a.cumulative + b.cumulative,
        current: a.current + b.current,
        count: a.count + b.count,
        deleted: a.deleted + b.deleted,
        any_deleted: a.any_deleted || b.any_deleted,
    }
}

/// A file whose bytes are all gone from HEAD.
pub open spec fn is_deleted_leaf(n: TreeNode) -> bool {
    n.current_size == 0 && n.cumulative_size > 0
}

/// What `compute_totals` makes of a node: leaves get their deletion
/// metrics, directories add their children's totals to their own fields.
pub open spec fn totals_of(n: TreeNode) -> Totals
    decreases n, 0int,
{
    if n.children@.len() == 0 {
        Totals {
            cumulative: n.cumulative_size as int,
            current: n.current_size as int,
            count: n.blob_count as int,
            deleted: if is_deleted_leaf(n) { n.cumulative_size as int } else { 0 },
            any_deleted: is_deleted_leaf(n),
        }
    } else {
        add_totals(
            Totals {
                cumulative: n.cumulative_size as int,
                current: n.current_size as int,
                count: n.blob_count as int,
                deleted: n.deleted_size as int,
                any_deleted: n.has_deleted_descendants,
            },
            children_totals(n.children@, n.children@.len() as int),
        )
    }
}

/// Sum of `totals_of` over the first `k` nodes of `s`.
pub open spec fn children_totals(s: Seq<TreeNode>, k: int) -> Totals
    decreases s, k,
{
    if k <= 0 || k > s.len() {
        zero_totals()
    } else {
        add_totals(children_totals(s, k - 1), totals_of(s[k - 1]))
    }
}

pub open spec fn totals_fit(t: Totals) -> bool {
    &&& t.cumulative <= u64::MAX
    &&& t.current <= u64::MAX
    &&& t.count <= u64::MAX
    &&& t.deleted <= u64::MAX
}

pub open spec fn totals_nonneg(t: Totals) -> bool {
    t.cumulative >= 0 && t.current >= 0 && t.count >= 0 && t.deleted >= 0
}

/// `new` is `old` after the roll-up: same shape and names, and every node
/// holds the totals of its old subtree.
pub open spec fn rolled_from(old: TreeNode, new: TreeNode) -> bool
    decreases old,
{
    &&& new.name@ == old.name@
    &&& new.children@.len() == old.children@.len()
    &&& new.cumulative_size == totals_of(old).cumulative
    &&& new.current_size == totals_of(old).current
    &&& new.blob_count == totals_of(old).count
    &&& new.deleted_size == totals_of(old).deleted
    &&& new.has_deleted_descendants == totals_of(old).any_deleted
    &&& forall|i: int|
        0 <= i < old.children@.len() ==> rolled_from(
            #[trigger] old.children@[i],
            new.children@[i],
        )
}

pub proof fn lemma_totals_nonneg(n: TreeNode)
    ensures
        totals_nonneg(totals_of(n)),
    decreases n, 0int,
{
    if n.children@.len() != 0 {
        lemma_children_totals_nonneg(n.children@, n.children@.len() as int);
    }
}

pub proof fn lemma_children_totals_nonneg(s: Seq<TreeNode>, k: int)
    ensures
        totals_nonneg(children_totals(s, k)),
    decreases s, k,
{
    if 0 < k <= s.len() {
        lemma_children_totals_nonneg(s, k - 1);
        lemma_totals_nonneg(s[k - 1]);
    }
}

/// Partial sums over children stay below the full sum.
pub proof fn lemma_children_totals_mono(s: Seq<TreeNode>, j: int, k: int)
    requires
        0 <= j <= k <= s.len(),
    ensures
        children_totals(s, j).cumulative <= children_totals(s, k).cumulative,
        children_totals(s, j).current <= children_totals(s, k).current,
        children_totals(s, j).count <= children_totals(s, k).count,
        children_totals(s, j).deleted <= children_totals(s, k).deleted,
    decreases k - j,
{
    if j < k {
        lemma_children_totals_mono(s, j, k - 1);
        lemma_totals_nonneg(s[k - 1]);
    }
}

/// The node's own fields, as totals.
pub open spec fn fields_of(n: TreeNode) -> Totals {
    Totals {
        cumulative: n.cumulative_size as int,
        current: n.current_size as int,
        count: n.blob_count as int,
        deleted: n.deleted_size as int,
        any_deleted: n.has_deleted_descendants,
    }
}

/// Sum of the own fields of the first `k` nodes of `s`.
pub open spec fn fields_sum(s: Seq<TreeNode>, k: int) -> Totals
    decreases k,
{
    if k <= 0 || k > s.len() {
        zero_totals()
    } else {
        add_totals(fields_sum(s, k - 1), fields_of(s[k - 1]))
    }
}

/// Directories of a tree that was only filled with rows carry no sizes of
/// their own.
pub open spec fn interiors_clear(n: TreeNode) -> bool
    decreases n,
{
    &&& n.children@.len() > 0 ==> fields_of(n) == zero_totals()
    &&& forall|i: int|
        0 <= i < n.children@.len() ==> interiors_clear(#[trigger] n.children@[i])
}

/// The roll-up invariants: a leaf is deleted iff it has history but no
/// bytes in HEAD; a directory sums its children and ORs their flags.
pub open spec fn rolled_up(n: TreeNode) -> bool
    decreases n,
{
    &&& n.children@.len() == 0 ==> {
        &&& n.has_deleted_descendants == is_deleted_leaf(n)
        &&& n.deleted_size == (if is_deleted_leaf(n) { n.cumulative_size } else { 0 })
    }
    &&& n.children@.len() > 0 ==> fields_of(n) == fields_sum(n.children@, n.children@.len() as int)
    &&& forall|i: int| 0 <= i < n.children@.len() ==> rolled_up(#[trigger] n.children@[i])
}

/// Every file is marked deleted exactly when it has history but no bytes
/// in HEAD, with its deleted bytes its cumulative size.
pub open spec fn leaves_marked(n: TreeNode) -> bool
    decreases n,
{
    &&& n.children@.len() == 0 ==> {
        &&& n.has_deleted_descendants == is_deleted_leaf(n)
        &&& n.deleted_size == (if is_deleted_leaf(n) { n.cumulative_size } else { 0 })
    }
    &&& forall|i: int| 0 <= i < n.children@.len() ==> leaves_marked(#[trigger] n.children@[i])
}

/// The roll-up marks files whatever the directories held: deleted
/// detection needs no precondition.
pub proof fn lemma_leaves_marked(o: TreeNode, n: TreeNode)
    requires
        rolled_from(o, n),
    ensures
        leaves_marked(n),
    decreases o,
{
    assert forall|i: int| 0 <= i < n.children@.len() implies leaves_marked(#[trigger] n.children@[i]) by {
        assert(rolled_from(o.children@[i], n.children@[i]));
        lemma_leaves_marked(o.children@[i], n.children@[i]);
    }
}

proof fn lemma_sums_agree(o: Seq<TreeNode>, n: Seq<TreeNode>, k: int)
    requires
        o.len() == n.len(),
        0 <= k <= o.len(),
        forall|i: int| 0 <= i < o.len() ==> rolled_from(#[trigger] o[i], n[i]),
    ensures
        children_totals(o, k) == fields_sum(n, k),
    decreases k,
{
    if k > 0 {
        lemma_sums_agree(o, n, k - 1);
        assert(rolled_from(o[k - 1], n[k - 1]));
    }
}

/// After the roll-up of a tree whose directories held no sizes of their
/// own, every directory's sizes, blob count and deleted bytes are the sums
/// over its children, its deleted flag is the OR over them, and a file is
/// marked deleted exactly when it has history but no bytes in HEAD.
pub proof fn lemma_roll_up(o: TreeNode, n: TreeNode)
    requires
        rolled_from(o, n),
        interiors_clear(o),
    ensures
        rolled_up(n),
    decreases o,
{
    assert forall|i: int| 0 <= i < n.children@.len() implies rolled_up(#[trigger] n.children@[i]) by {
        assert(rolled_from(o.children@[i], n.children@[i]));
        assert(interiors_clear(o.children@[i]));
        lemma_roll_up(o.children@[i], n.children@[i]);
    }
    if o.children@.len() > 0 {
        assert forall|i: int| 0 <= i < o.children@.len() implies rolled_from(
            #[trigger] o.children@[i],
            n.children@[i],
        ) by {}
        lemma_sums_agree(o.children@, n.children@, o.children@.len() as int);
    }
}

/// Index of the first of the first `k` nodes of `s` named `name`.
pub open spec fn find_child(s: Seq<TreeNode>, name: Seq<char>, k: int) -> Option<int>
    decreases k,
{
    if k <= 0 {
        None
    } else {
        match find_child(s, name, k - 1) {
            Some(i) => Some(i),
            None => if s[k - 1].name@ == name {
                Some(k - 1)
            } else {
                None
            },
        }
    }
}

pub open spec fn child_named(n: TreeNode, name: Seq<char>) -> Option<int> {
    find_child(n.children@, name, n.children@.len() as int)
}

/// The node reached from `n` by following the names of `p`.
pub open spec fn node_at(n: TreeNode, p: Seq<Seq<char>>) -> Option<TreeNode>
    decreases p.len(),
{
    if p.len() == 0 {
        Some(n)
    } else {
        match child_named(n, p[0]) {
            Some(i) => if 0 <= i < n.children@.len() {
                node_at(n.children@[i], p.drop_first())
            } else {
                None
            },
            None => None,
        }
    }
}

/// Own sizes of the node at `p`, or zeros where there is none.
pub open spec fn sizes_at(n: TreeNode, p: Seq<Seq<char>>) -> (int, int, int) {
    match node_at(n, p) {
        Some(m) => (m.cumulative_size as int, m.current_size as int, m.blob_count as int),
        None => (0, 0, 0),
    }
}

pub open spec fn parts_view(parts: Seq<&str>) -> Seq<Seq<char>> {
    parts.map_values(|s: &str| s@)
}

proof fn lemma_find_child_range(s: Seq<TreeNode>, name: Seq<char>, k: int)
    ensures
        find_child(s, name, k) matches Some(i) ==> 0 <= i < k && s[i].name@ == name,
    decreases k,
{
    if k > 0 {
        lemma_find_child_range(s, name, k - 1);
    }
}

/// Names are all that `find_child` looks at.
proof fn lemma_find_child_same_names(s: Seq<TreeNode>, t: Seq<TreeNode>, name: Seq<char>, k: int)
    requires
        k <= s.len(),
        k <= t.len(),
        forall|i: int| 0 <= i < k ==> #[trigger] s[i].name@ == t[i].name@,
    ensures
        find_child(s, name, k) == find_child(t, name, k),
    decreases k,
{
    if k > 0 {
        lemma_find_child_same_names(s, t, name, k - 1);
    }
}

pub open spec fn added_at(
    base: (int, int, int),
    q: Seq<Seq<char>>,
    p: Seq<Seq<char>>,
    add: (int, int, int),
) -> (int, int, int) {
    if q == p {
        (base.0 + add.0, base.1 + add.1, base.2 + add.2)
    } else {
        base
    }
}

/// `f` is `o` with `add` added to the own sizes of the node at `p`.
pub open spec fn adds_at(o: TreeNode, f: TreeNode, p: Seq<Seq<char>>, add: (int, int, int)) -> bool {
    forall|q: Seq<Seq<char>>| #[trigger] sizes_at(f, q) == added_at(sizes_at(o, q), q, p, add)
}

proof fn lemma_find_child_push(s: Seq<TreeNode>, x: TreeNode, name: Seq<char>)
    requires
        find_child(s, x.name@, s.len() as int) is None,
    ensures
        find_child(s.push(x), name, s.len() + 1 as int) == if name == x.name@ && find_child(
            s,
            name,
            s.len() as int,
        ) is None {
            Some(s.len() as int)
        } else {
            find_child(s, name, s.len() as int)
        },
{
    lemma_find_child_same_names(s, s.push(x), name, s.len() as int);
}

/// Adding an empty child changes no sizes.
proof fn lemma_push_empty(o: TreeNode, f: TreeNode, c: TreeNode)
    requires
        child_named(o, c.name@) is None,
        c.children@.len() == 0,
        c.cumulative_size == 0 && c.current_size == 0 && c.blob_count == 0,
        f.children@ == o.children@.push(c),
        f.cumulative_size == o.cumulative_size,
        f.current_size == o.current_size,
        f.blob_count == o.blob_count,
    ensures
        forall|q: Seq<Seq<char>>| #[trigger] sizes_at(f, q) == sizes_at(o, q),
{
    assert forall|q: Seq<Seq<char>>| #[trigger] sizes_at(f, q) == sizes_at(o, q) by {
        if q.len() > 0 {
            lemma_find_child_push(o.children@, c, q[0]);
            lemma_find_child_range(o.children@, q[0], o.children@.len() as int);
            let r = q.drop_first();
            if q[0] == c.name@ {
                assert(child_named(f, q[0]) == Some(o.children@.len() as int));
                assert(f.children@[o.children@.len() as int] == c);
                assert(node_at(f, q) == node_at(c, r));
                if r.len() > 0 {
                    assert(child_named(c, r[0]) is None);
                    assert(node_at(c, r) is None);
                }
                assert(node_at(o, q) is None);
            } else {
                assert(child_named(f, q[0]) == child_named(o, q[0]));
                match child_named(o, q[0]) {
                    Some(i) => {
                        assert(f.children@[i] == o.children@[i]);
                    },
                    None => {},
                }
            }
        }
    }
}

/// A change below the child at `idx` is a change below its parent.
proof fn lemma_lift(
    o: TreeNode,
    f: TreeNode,
    idx: int,
    rest: Seq<Seq<char>>,
    add: (int, int, int),
)
    requires
        0 <= idx < o.children@.len(),
        child_named(o, o.children@[idx].name@) == Some(idx),
        f.children@ == o.children@.update(idx, f.children@[idx]),
        f.children@[idx].name@ == o.children@[idx].name@,
        f.cumulative_size == o.cumulative_size,
        f.current_size == o.current_size,
        f.blob_count == o.blob_count,
        adds_at(o.children@[idx], f.children@[idx], rest, add),
    ensures
        adds_at(o, f, seq![o.children@[idx].name@] + rest, add),
{
    let p = seq![o.children@[idx].name@] + rest;
    assert forall|q: Seq<Seq<char>>| #[trigger] sizes_at(f, q) == added_at(sizes_at(o, q), q, p, add) by {
        if q.len() > 0 {
            lemma_find_child_same_names(o.children@, f.children@, q[0], o.children@.len() as int);
            lemma_find_child_range(o.children@, q[0], o.children@.len() as int);
            let r = q.drop_first();
            assert(sizes_at(f.children@[idx], r) == added_at(sizes_at(o.children@[idx], r), r, rest, add));
            if q == p {
                assert(r =~= rest);
            } else if q[0] == o.children@[idx].name@ {
                assert(r != rest) by {
                    if r == rest {
                        assert(q =~= p);
                    }
                }
            } else {
                assert(q != p);
            }
        } else {
            assert(q != p);
        }
    }
}

proof fn lemma_find_child_stable(s: Seq<TreeNode>, name: Seq<char>, j: int, k: int)
    requires
        find_child(s, name, j) is Some,
        j <= k,
    ensures
        find_child(s, name, k) == find_child(s, name, j),
    decreases k - j,
{
    if j < k {
        lemma_find_child_stable(s, name, j, k - 1);
    }
}

/// A child found among the first `j` is the first one found among more.
pub proof fn lemma_find_child_stable_pub(s: Seq<TreeNode>, name: Seq<char>, j: int, k: int)
    requires
        find_child(s, name, j) is Some,
        j <= k,
    ensures
        find_child(s, name, k) == find_child(s, name, j),
{
    lemma_find_child_stable(s, name, j, k);
}

/// Deleted marks of the node at `q`, or none where there is no node.
pub open spec fn marks_at(n: TreeNode, q: Seq<Seq<char>>) -> (u64, bool) {
    match node_at(n, q) {
        Some(m) => (m.deleted_size, m.has_deleted_descendants),
        None => (0, false),
    }
}

/// `q` is a prefix of `p`.
pub open spec fn is_prefix(q: Seq<Seq<char>>, p: Seq<Seq<char>>) -> bool {
    q.len() <= p.len() && p.subrange(0, q.len() as int) == q
}

/// `f` is `o` with a node at every prefix of `p` (the missing ones added),
/// deleted marks kept, and every node off the prefixes of `p` unchanged.
pub open spec fn grows_along(o: TreeNode, f: TreeNode, p: Seq<Seq<char>>) -> bool {
    &&& forall|q: Seq<Seq<char>>| !is_prefix(q, p) ==> #[trigger] node_at(f, q) == node_at(o, q)
    &&& forall|q: Seq<Seq<char>>|
        is_prefix(q, p) ==> (#[trigger] node_at(f, q)) is Some && marks_at(f, q) == marks_at(o, q)
}

/// Children have distinct names, at every level.
pub open spec fn names_unique(n: TreeNode) -> bool
    decreases n,
{
    &&& forall|i: int, j: int|
        0 <= i < j < n.children@.len() ==> #[trigger] n.children@[i].name@
            != #[trigger] n.children@[j].name@
    &&& forall|i: int| 0 <= i < n.children@.len() ==> names_unique(#[trigger] n.children@[i])
}

proof fn lemma_find_child_none(s: Seq<TreeNode>, name: Seq<char>, k: int)
    requires
        find_child(s, name, k) is None,
        k <= s.len(),
    ensures
        forall|i: int| 0 <= i < k ==> #[trigger] s[i].name@ != name,
    decreases k,
{
    if k > 0 {
        lemma_find_child_none(s, name, k - 1);
    }
}

proof fn lemma_prefix_step(q: Seq<Seq<char>>, p: Seq<Seq<char>>)
    requires
        q.len() > 0,
        p.len() > 0,
        q[0] == p[0],
    ensures
        is_prefix(q, p) <==> is_prefix(q.drop_first(), p.drop_first()),
{
    if is_prefix(q, p) {
        assert(p.drop_first().subrange(0, q.len() - 1) =~= p.subrange(0, q.len() as int).drop_first());
    }
    if is_prefix(q.drop_first(), p.drop_first()) {
        assert(p.subrange(0, q.len() as int) =~= seq![p[0]] + p.drop_first().subrange(0, q.len() - 1));
        assert(q =~= seq![q[0]] + q.drop_first());
    }
}

/// Appending an empty child adds one node and changes no other.
proof fn lemma_push_shape(o: TreeNode, f: TreeNode, c: TreeNode)
    requires
        child_named(o, c.name@) is None,
        c.children@.len() == 0,
        f.children@ == o.children@.push(c),
        f.deleted_size == o.deleted_size,
        f.has_deleted_descendants == o.has_deleted_descendants,
        c.deleted_size == 0,
        !c.has_deleted_descendants,
    ensures
        forall|q: Seq<Seq<char>>|
            q.len() > 0 && q != seq![c.name@] ==> #[trigger] node_at(f, q) == node_at(o, q),
        node_at(f, seq![c.name@]) == Some(c),
        node_at(o, seq![c.name@]) is None,
        marks_at(f, seq![]) == marks_at(o, seq![]),
{
    assert forall|q: Seq<Seq<char>>| q.len() > 0 && q != seq![c.name@] implies #[trigger] node_at(f, q)
        == node_at(o, q) by {
        lemma_find_child_push(o.children@, c, q[0]);
        lemma_find_child_range(o.children@, q[0], o.children@.len() as int);
        let r = q.drop_first();
        if q[0] == c.name@ {
            assert(r.len() > 0) by {
                if r.len() == 0 {
                    assert(q =~= seq![c.name@]);
                }
            }
            assert(child_named(f, q[0]) == Some(o.children@.len() as int));
            assert(f.children@[o.children@.len() as int] == c);
            assert(node_at(f, q) == node_at(c, r));
            assert(child_named(c, r[0]) is None);
            assert(node_at(c, r) is None);
            assert(node_at(o, q) is None);
        } else {
            assert(child_named(f, q[0]) == child_named(o, q[0]));
            match child_named(o, q[0]) {
                Some(i) => {
                    assert(f.children@[i] == o.children@[i]);
                },
                None => {},
            }
        }
    }
    let x = seq![c.name@];
    lemma_find_child_push(o.children@, c, c.name@);
    assert(x[0] == c.name@);
    assert(child_named(f, x[0]) == Some(o.children@.len() as int));
    assert(f.children@[o.children@.len() as int] == c);
    assert(x.drop_first() =~= Seq::<Seq<char>>::empty());
    assert(node_at(f, x) == node_at(c, x.drop_first()));
}

/// A change along `rest` below the child at `idx` is a change along
/// `name + rest` below its parent.
proof fn lemma_lift_shape(o: TreeNode, f: TreeNode, idx: int, rest: Seq<Seq<char>>)
    requires
        0 <= idx < o.children@.len(),
        child_named(o, o.children@[idx].name@) == Some(idx),
        f.children@ == o.children@.update(idx, f.children@[idx]),
        f.children@[idx].name@ == o.children@[idx].name@,
        f.deleted_size == o.deleted_size,
        f.has_deleted_descendants == o.has_deleted_descendants,
        grows_along(o.children@[idx], f.children@[idx], rest),
    ensures
        grows_along(o, f, seq![o.children@[idx].name@] + rest),
{
    let p = seq![o.children@[idx].name@] + rest;
    assert(p.drop_first() =~= rest);
    assert forall|q: Seq<Seq<char>>| !is_prefix(q, p) implies #[trigger] node_at(f, q) == node_at(o, q) by {
        assert(q.len() > 0) by {
            if q.len() == 0 {
                assert(p.subrange(0, 0) =~= q);
            }
        }
        lemma_find_child_same_names(o.children@, f.children@, q[0], o.children@.len() as int);
        lemma_find_child_range(o.children@, q[0], o.children@.len() as int);
        if q[0] == p[0] {
            lemma_prefix_step(q, p);
            assert(!is_prefix(q.drop_first(), rest));
            assert(node_at(f.children@[idx], q.drop_first()) == node_at(o.children@[idx], q.drop_first()));
        } else {
            match child_named(o, q[0]) {
                Some(i) => {
                    assert(i != idx);
                    assert(f.children@[i] == o.children@[i]);
                },
                None => {},
            }
        }
    }
    assert forall|q: Seq<Seq<char>>| is_prefix(q, p) implies (#[trigger] node_at(f, q)) is Some
        && marks_at(f, q) == marks_at(o, q) by {
        if q.len() > 0 {
            assert(q[0] == p[0]) by {
                assert(p.subrange(0, q.len() as int)[0] == p[0]);
            }
            lemma_find_child_same_names(o.children@, f.children@, q[0], o.children@.len() as int);
            lemma_prefix_step(q, p);
            assert(is_prefix(q.drop_first(), rest));
            assert(node_at(f.children@[idx], q.drop_first()) is Some);
        }
    }
}

/// Below a node, only its children matter.
proof fn lemma_same_children(a: TreeNode, b: TreeNode, r: Seq<Seq<char>>)
    requires
        a.children@ == b.children@,
        r.len() > 0,
    ensures
        node_at(a, r) == node_at(b, r),
{
}

/// A stored `paths` row: a slash-separated path and its sizes.
pub struct PathSizes {
    pub path: String,
    pub cumulative_size: u64,
    pub current_size: u64,
    pub blob_count: u64,
}

impl View for PathSizes {
    type V = (Seq<char>, u64, u64, u64);

    open spec fn view(&self) -> Self::V {
        (self.path@, self.cumulative_size, self.current_size, self.blob_count)
    }
}

/// `prefix/name`, or `name` at the top.
pub open spec fn join_path(prefix: Seq<char>, name: Seq<char>) -> Seq<char> {
    if prefix.len() == 0 {
        name
    } else {
        prefix + seq!['/'] + name
    }
}

/// The files under `n`, whose own path is `path`, with their full paths.
pub open spec fn leaf_rows(n: TreeNode, path: Seq<char>) -> Seq<(Seq<char>, u64, u64, u64)>
    decreases n, 0int,
{
    if n.children@.len() == 0 {
        seq![(path, n.cumulative_size, n.current_size, n.blob_count)]
    } else {
        child_rows(n.children@, n.children@.len() as int, path)
    }
}

/// The files under the first `k` nodes of `s`, children of `path`.
pub open spec fn child_rows(s: Seq<TreeNode>, k: int, path: Seq<char>) -> Seq<
    (Seq<char>, u64, u64, u64),
>
    decreases s, k,
{
    if k <= 0 || k > s.len() {
        seq![]
    } else {
        child_rows(s, k - 1, path) + leaf_rows(s[k - 1], join_path(path, s[k - 1].name@))
    }
}

/// The file nodes under `n`.
pub open spec fn leaf_nodes(n: TreeNode) -> Seq<TreeNode>
    decreases n, 0int,
{
    if n.children@.len() == 0 {
        seq![n]
    } else {
        child_leaf_nodes(n.children@, n.children@.len() as int)
    }
}

pub open spec fn child_leaf_nodes(s: Seq<TreeNode>, k: int) -> Seq<TreeNode>
    decreases s, k,
{
    if k <= 0 || k > s.len() {
        seq![]
    } else {
        child_leaf_nodes(s, k - 1) + leaf_nodes(s[k - 1])
    }
}

pub open spec fn derefs(s: Seq<&TreeNode>) -> Seq<TreeNode> {
    s.map_values(|x: &TreeNode| *x)
}

/// Slash-joins a prefix and a name.
fn join(prefix: &str, name: &str) -> (r: String)
    ensures
        r@ == join_path(prefix@, name@),
{
    if prefix.is_empty() {
        String::from_str(name)
    } else {
        proof {
            reveal_strlit("/");
        }
        String::from_str(prefix).concat("/").concat(name)
    }
}

impl TreeNode {
    /// An empty node with the given name.
    pub fn new(name: &str) -> (r: TreeNode)
        ensures
            r.name@ == name@,
            r.cumulative_size == 0,
            r.current_size == 0,
            r.blob_count == 0,
            r.children@.len() == 0,
            !r.has_deleted_descendants,
            r.deleted_size == 0,
    {
        TreeNode {
            name: String::from_str(name),
            cumulative_size: 0,
            current_size: 0,
            blob_count: 0,
            children: Vec::new(),
            has_deleted_descendants: false,
            deleted_size: 0,
        }
    }

    /// Index of the child named `name`; an empty one is appended where
    /// there is none.
    fn child_index(&mut self, name: &str) -> (idx: usize)
        ensures
            idx < final(self).children@.len(),
            child_named(*final(self), name@) == Some(idx as int),
            final(self).children@[idx as int].name@ == name@,
            final(self).name@ == old(self).name@,
            fields_of(*final(self)) == fields_of(*old(self)),
            child_named(*old(self), name@) is Some ==> *final(self) == *old(self),
            child_named(*old(self), name@) is None ==> {
                &&& idx == old(self).children@.len()
                &&& final(self).children@ == old(self).children@.push(
                    final(self).children@[idx as int],
                )
                &&& final(self).children@[idx as int].children@.len() == 0
                &&& fields_of(final(self).children@[idx as int]) == zero_totals()
            },
            names_unique(*old(self)) ==> names_unique(*final(self)),
    {
        let key = String::from_str(name);
        let n = self.children.len();
        let mut i: usize = 0;
        while i < n
            invariant
                n == self.children@.len(),
                0 <= i <= n,
                key@ == name@,
                find_child(self.children@, name@, i as int) is None,
            decreases n - i,
        {
            if self.children[i].name == key {
                proof {
                    lemma_find_child_stable(self.children@, name@, i + 1, n as int);
                }
                return i;
            }
            i = i + 1;
        }
        self.children.push(TreeNode::new(name));
        proof {
            lemma_find_child_push(old(self).children@, self.children@[n as int], name@);
            if names_unique(*old(self)) {
                lemma_find_child_none(old(self).children@, name@, n as int);
                assert forall|i: int, j: int|
                    0 <= i < j < self.children@.len() implies #[trigger] self.children@[i].name@
                    != #[trigger] self.children@[j].name@ by {
                    if j < n {
                        assert(self.children@[i] == old(self).children@[i]);
                        assert(self.children@[j] == old(self).children@[j]);
                    } else {
                        assert(self.children@[i] == old(self).children@[i]);
                    }
                }
                assert forall|i: int| 0 <= i < self.children@.len() implies names_unique(
                    #[trigger] self.children@[i],
                ) by {
                    if i < n {
                        assert(self.children@[i] == old(self).children@[i]);
                    }
                }
            }
        }
        n
    }

    /// Adds sizes to the node at the path, creating the missing nodes on
    /// the way. Directories are not summed here: `compute_totals` does it.
    pub fn add_path_with_sizes(
        &mut self,
        path_parts: &[&str],
        cumulative: u64,
        current: u64,
        count: u64,
    )
        requires
            path_parts@.len() > 0 ==> {
                let at = sizes_at(*old(self), parts_view(path_parts@));
                &&& at.0 + cumulative <= u64::MAX
                &&& at.1 + current <= u64::MAX
                &&& at.2 + count <= u64::MAX
            },
        ensures
            path_parts@.len() == 0 ==> *final(self) == *old(self),
            path_parts@.len() > 0 ==> adds_at(
                *old(self),
                *final(self),
                parts_view(path_parts@),
                (cumulative as int, current as int, count as int),
            ),
            path_parts@.len() > 0 ==> grows_along(*old(self), *final(self), parts_view(path_parts@)),
            names_unique(*old(self)) ==> names_unique(*final(self)),
            final(self).name@ == old(self).name@,
            fields_of(*final(self)) == fields_of(*old(self)) || path_parts@.len() == 0,
        decreases path_parts@.len(),
    {
        let ghost pv = parts_view(path_parts@);
        let ghost add = (cumulative as int, current as int, count as int);
        if path_parts.len() == 0 {
            return;
        }
        let ghost o = *self;
        let name = path_parts[0];
        let idx = self.child_index(name);
        let ghost o1 = *self;
        let ghost rest = pv.drop_first();
        proof {
            if child_named(o, name@) is None {
                lemma_push_empty(o, o1, o1.children@[idx as int]);
            }
            assert(pv[0] == name@);
            assert(sizes_at(o1, pv) == sizes_at(o, pv));
            assert(node_at(o1, pv) == node_at(o1.children@[idx as int], rest));
        }
        if path_parts.len() == 1 {
            let child = &mut self.children[idx];
            child.cumulative_size = child.cumulative_size + cumulative;
            child.current_size = child.current_size + current;
            child.blob_count = child.blob_count + count;
            proof {
                let c0 = o1.children@[idx as int];
                let c1 = self.children@[idx as int];
                assert(rest.len() == 0);
                assert forall|r: Seq<Seq<char>>| #[trigger] sizes_at(c1, r) == added_at(sizes_at(c0, r), r, rest, add) by {
                    if r.len() > 0 {
                        lemma_same_children(c0, c1, r);
                        assert(r != rest);
                    } else {
                        assert(r =~= rest);
                    }
                }
                assert forall|r: Seq<Seq<char>>| !is_prefix(r, rest) implies #[trigger] node_at(c1, r)
                    == node_at(c0, r) by {
                    if r.len() == 0 {
                        assert(rest.subrange(0, 0) =~= r);
                    }
                    lemma_same_children(c0, c1, r);
                }
                assert forall|r: Seq<Seq<char>>| is_prefix(r, rest) implies (#[trigger] node_at(c1, r)) is Some
                    && marks_at(c1, r) == marks_at(c0, r) by {
                    assert(r.len() == 0);
                }
                assert(names_unique(c0) ==> names_unique(c1));
            }
        } else {
            let tail = vstd::slice::slice_subrange(path_parts, 1, path_parts.len());
            proof {
                assert(parts_view(tail@) =~= rest);
            }
            self.children[idx].add_path_with_sizes(tail, cumulative, current, count);
        }
        proof {
            lemma_lift(o1, *self, idx as int, rest, add);
            lemma_lift_shape(o1, *self, idx as int, rest);
            assert(seq![name@] + rest =~= pv);
            let x = seq![name@];
            assert(is_prefix(x, pv)) by {
                assert(pv.subrange(0, 1) =~= x);
            }
            if child_named(o, name@) is None {
                lemma_push_shape(o, o1, o1.children@[idx as int]);
            }
            assert forall|q: Seq<Seq<char>>| !is_prefix(q, pv) implies #[trigger] node_at(*self, q)
                == node_at(o, q) by {
                assert(node_at(*self, q) == node_at(o1, q));
                if q.len() == 0 {
                    assert(pv.subrange(0, 0) =~= q);
                }
            }
            assert forall|q: Seq<Seq<char>>| is_prefix(q, pv) implies (#[trigger] node_at(*self, q)) is Some
                && marks_at(*self, q) == marks_at(o, q) by {
                assert(node_at(*self, q) is Some && marks_at(*self, q) == marks_at(o1, q));
            }
            if names_unique(o) {
                assert(names_unique(o1));
                assert forall|i: int, j: int|
                    0 <= i < j < self.children@.len() implies #[trigger] self.children@[i].name@
                    != #[trigger] self.children@[j].name@ by {
                    assert(self.children@[i].name@ == o1.children@[i].name@);
                    assert(self.children@[j].name@ == o1.children@[j].name@);
                }
                assert forall|i: int| 0 <= i < self.children@.len() implies names_unique(
                    #[trigger] self.children@[i],
                ) by {
                    if i != idx {
                        assert(self.children@[i] == o1.children@[i]);
                    } else {
                        assert(names_unique(o1.children@[idx as int]));
                    }
                }
            }
            assert forall|q: Seq<Seq<char>>| #[trigger] sizes_at(*self, q) == added_at(sizes_at(o, q), q, pv, add) by {
                assert(sizes_at(o1, q) == sizes_at(o, q));
                assert(sizes_at(*self, q) == added_at(sizes_at(o1, q), q, pv, add));
            }
        }
    }

    fn collect_rows(&self, path: &str, out: &mut Vec<PathSizes>)
        ensures
            final(out)@.map_values(|r: PathSizes| r@) == old(out)@.map_values(|r: PathSizes| r@)
                + leaf_rows(*self, path@),
        decreases *self, 1int,
    {
        if self.children.len() == 0 {
            out.push(
                PathSizes {
                    path: String::from_str(path),
                    cumulative_size: self.cumulative_size,
                    current_size: self.current_size,
                    blob_count: self.blob_count,
                },
            );
            proof {
                assert(out@.map_values(|r: PathSizes| r@) =~= old(out)@.map_values(|r: PathSizes| r@)
                    + leaf_rows(*self, path@));
            }
        } else {
            self.collect_child_rows(path, out);
        }
    }

    fn collect_child_rows(&self, path: &str, out: &mut Vec<PathSizes>)
        ensures
            final(out)@.map_values(|r: PathSizes| r@) == old(out)@.map_values(|r: PathSizes| r@)
                + child_rows(self.children@, self.children@.len() as int, path@),
        decreases *self, 0int,
    {
        let n = self.children.len();
        let mut i: usize = 0;
        while i < n
            invariant
                n == self.children@.len(),
                0 <= i <= n,
                out@.map_values(|r: PathSizes| r@) == old(out)@.map_values(|r: PathSizes| r@)
                    + child_rows(self.children@, i as int, path@),
            decreases n - i,
        {
            let child = &self.children[i];
            let child_path = join(path, child.name.as_str());
            proof {
                assert(decreases_to!(*self => self.children));
                vstd::std_specs::vec::axiom_vec_decreases_to_view(self.children);
                assert(decreases_to!(self.children@ => self.children@[i as int]));
            }
            child.collect_rows(child_path.as_str(), out);
            proof {
                assert(out@.map_values(|r: PathSizes| r@) =~= old(out)@.map_values(|r: PathSizes| r@)
                    + child_rows(self.children@, i + 1, path@));
            }
            i = i + 1;
        }
    }

    /// Every file under this node with its full slash-joined path, this
    /// node's own name left out.
    pub fn visit_leaves(&self) -> (r: Vec<PathSizes>)
        ensures
            r@.map_values(|x: PathSizes| x@) == child_rows(
                self.children@,
                self.children@.len() as int,
                Seq::empty(),
            ),
    {
        let mut out: Vec<PathSizes> = Vec::new();
        proof {
            reveal_strlit("");
            assert(""@ =~= Seq::<char>::empty());
        }
        self.collect_child_rows("", &mut out);
        proof {
            assert(Seq::<PathSizes>::empty().map_values(|x: PathSizes| x@) =~= Seq::empty());
            assert(out@.map_values(|x: PathSizes| x@) =~= child_rows(
                self.children@,
                self.children@.len() as int,
                Seq::empty(),
            ));
        }
        out
    }

    fn collect_leaf_nodes<'a>(&'a self, out: &mut Vec<&'a TreeNode>)
        ensures
            derefs(final(out)@) == derefs(old(out)@) + leaf_nodes(*self),
        decreases *self,
    {
        if self.children.len() == 0 {
            out.push(self);
            proof {
                assert(derefs(out@) =~= derefs(old(out)@) + leaf_nodes(*self));
            }
        } else {
            let n = self.children.len();
            let mut i: usize = 0;
            while i < n
                invariant
                    n == self.children@.len(),
                    n > 0,
                    0 <= i <= n,
                    derefs(out@) == derefs(old(out)@) + child_leaf_nodes(self.children@, i as int),
                decreases n - i,
            {
                proof {
                    assert(decreases_to!(*self => self.children));
                    vstd::std_specs::vec::axiom_vec_decreases_to_view(self.children);
                    assert(decreases_to!(self.children@ => self.children@[i as int]));
                }
                self.children[i].collect_leaf_nodes(out);
                proof {
                    assert(derefs(out@) =~= derefs(old(out)@) + child_leaf_nodes(self.children@, i + 1));
                }
                i = i + 1;
            }
        }
    }

    /// Every file node under this node.
    pub fn visit_leaf_nodes(&self) -> (r: Vec<&TreeNode>)
        ensures
            derefs(r@) == child_leaf_nodes(self.children@, self.children@.len() as int),
    {
        let mut out: Vec<&TreeNode> = Vec::new();
        let n = self.children.len();
        let mut i: usize = 0;
        while i < n
            invariant
                n == self.children@.len(),
                0 <= i <= n,
                derefs(out@) == child_leaf_nodes(self.children@, i as int),
            decreases n - i,
        {
            self.children[i].collect_leaf_nodes(&mut out);
            proof {
                assert(derefs(out@) =~= child_leaf_nodes(self.children@, i + 1));
            }
            i = i + 1;
        }
        out
    }

    /// Own sizes of the node at `parts`, zeros where there is none.
    pub fn sizes_at_path(&self, parts: &[&str]) -> (r: (u64, u64, u64))
        ensures
            r.0 as int == sizes_at(*self, parts_view(parts@)).0,
            r.1 as int == sizes_at(*self, parts_view(parts@)).1,
            r.2 as int == sizes_at(*self, parts_view(parts@)).2,
        decreases parts@.len(),
    {
        if parts.len() == 0 {
            return (self.cumulative_size, self.current_size, self.blob_count);
        }
        let ghost pv = parts_view(parts@);
        match self.child(parts[0]) {
            Some(c) => {
                let tail = vstd::slice::slice_subrange(parts, 1, parts.len());
                proof {
                    assert(parts_view(tail@) =~= pv.drop_first());
                    let i = child_named(*self, pv[0]).unwrap();
                    lemma_find_child_range(self.children@, pv[0], self.children@.len() as int);
                    assert(*c == self.children@[i]);
                }
                c.sizes_at_path(tail)
            },
            None => (0, 0, 0),
        }
    }

    /// The totals `compute_totals` would give this node, where they fit in
    /// 64 bits.
    pub fn checked_totals(&self) -> (r: Option<(u64, u64, u64, u64)>)
        ensures
            r matches Some(t) ==> t.0 == totals_of(*self).cumulative && t.1 == totals_of(
                *self,
            ).current && t.2 == totals_of(*self).count && t.3 == totals_of(*self).deleted,
            r is None ==> !totals_fit(totals_of(*self)),
        decreases *self,
    {
        proof {
            lemma_totals_nonneg(*self);
        }
        if self.children.len() == 0 {
            let deleted = if self.current_size == 0 && self.cumulative_size > 0 {
                self.cumulative_size
            } else {
                0
            };
            return Some((self.cumulative_size, self.current_size, self.blob_count, deleted));
        }
        let n = self.children.len();
        let mut acc: (u64, u64, u64, u64) = (
            self.cumulative_size,
            self.current_size,
            self.blob_count,
            self.deleted_size,
        );
        let mut i: usize = 0;
        while i < n
            invariant
                n == self.children@.len(),
                n > 0,
                0 <= i <= n,
                acc.0 == self.cumulative_size + children_totals(self.children@, i as int).cumulative,
                acc.1 == self.current_size + children_totals(self.children@, i as int).current,
                acc.2 == self.blob_count + children_totals(self.children@, i as int).count,
                acc.3 == self.deleted_size + children_totals(self.children@, i as int).deleted,
            decreases n - i,
        {
            proof {
                assert(decreases_to!(*self => self.children));
                vstd::std_specs::vec::axiom_vec_decreases_to_view(self.children);
                assert(decreases_to!(self.children@ => self.children@[i as int]));
                lemma_children_totals_mono(self.children@, i as int + 1, n as int);
                lemma_children_totals_nonneg(self.children@, i as int);
                lemma_totals_nonneg(self.children@[i as int]);
            }
            let t = match self.children[i].checked_totals() {
                Some(t) => t,
                None => {
                    return None;
                },
            };
            let a0 = acc.0.checked_add(t.0);
            let a1 = acc.1.checked_add(t.1);
            let a2 = acc.2.checked_add(t.2);
            let a3 = acc.3.checked_add(t.3);
            match (a0, a1, a2, a3) {
                (Some(x0), Some(x1), Some(x2), Some(x3)) => {
                    acc = (x0, x1, x2, x3);
                },
                _ => {
                    return None;
                },
            }
            i = i + 1;
        }
        Some(acc)
    }

    /// Rolls sizes up the tree, post-order.
    pub fn compute_totals(&mut self)
        requires
            totals_fit(totals_of(*old(self))),
        ensures
            rolled_from(*old(self), *final(self)),
            interiors_clear(*old(self)) ==> rolled_up(*final(self)),
            leaves_marked(*final(self)),
        decreases *old(self),
    {
        proof {
            lemma_totals_nonneg(*self);
        }
        if self.children.len() == 0 {
            let is_deleted = self.current_size == 0 && self.cumulative_size > 0;
            self.has_deleted_descendants = is_deleted;
            self.deleted_size = if is_deleted {
                self.cumulative_size
            } else {
                0
            };
        } else {
            let ghost old_node = *self;
            let ghost kids = self.children@;
            let n = self.children.len();
            let mut i: usize = 0;
            while i < n
                invariant
                    n == kids.len(),
                    kids == old_node.children@,
                    old_node == *old(self),
                    n > 0,
                    0 <= i <= n,
                    totals_fit(totals_of(old_node)),
                    totals_of(old_node) == add_totals(
                        Totals {
                            cumulative: old_node.cumulative_size as int,
                            current: old_node.current_size as int,
                            count: old_node.blob_count as int,
                            deleted: old_node.deleted_size as int,
                            any_deleted: old_node.has_deleted_descendants,
                        },
                        children_totals(kids, n as int),
                    ),
                    self.name@ == old_node.name@,
                    self.children@.len() == n,
                    self.cumulative_size == old_node.cumulative_size
                        + children_totals(kids, i as int).cumulative,
                    self.current_size == old_node.current_size + children_totals(
                        kids,
                        i as int,
                    ).current,
                    self.blob_count == old_node.blob_count + children_totals(kids, i as int).count,
                    self.deleted_size == old_node.deleted_size + children_totals(
                        kids,
                        i as int,
                    ).deleted,
                    self.has_deleted_descendants == (old_node.has_deleted_descendants
                        || children_totals(kids, i as int).any_deleted),
                    forall|j: int| 0 <= j < i ==> rolled_from(#[trigger] kids[j], self.children@[j]),
                    forall|j: int| i <= j < n ==> #[trigger] self.children@[j] == kids[j],
                decreases n - i,
            {
                proof {
                    lemma_children_totals_mono(kids, i as int + 1, n as int);
                    lemma_children_totals_nonneg(kids, i as int);
                    lemma_totals_nonneg(kids[i as int]);
                    assert(decreases_to!(old_node => old_node.children));
                    vstd::std_specs::vec::axiom_vec_decreases_to_view(old_node.children);
                    assert(decreases_to!(old_node.children => kids));
                    assert(decreases_to!(kids => kids[i as int]));
                    assert(decreases_to!(old_node => kids[i as int]));
                }
                let child = &mut self.children[i];
                child.compute_totals();
                self.cumulative_size = self.cumulative_size + self.children[i].cumulative_size;
                self.current_size = self.current_size + self.children[i].current_size;
                self.blob_count = self.blob_count + self.children[i].blob_count;
                self.deleted_size = self.deleted_size + self.children[i].deleted_size;
                self.has_deleted_descendants = self.has_deleted_descendants
                    || self.children[i].has_deleted_descendants;
                i = i + 1;
            }
        }
        proof {
            if interiors_clear(*old(self)) {
                lemma_roll_up(*old(self), *self);
            }
            lemma_leaves_marked(*old(self), *self);
        }
    }

    /// The child named `name`.
    pub fn child(&self, name: &str) -> (r: Option<&TreeNode>)
        ensures
            match child_named(*self, name@) {
                Some(i) => r == Some(&self.children@[i]),
                None => r is None,
            },
    {
        let key = String::from_str(name);
        let n = self.children.len();
        let mut i: usize = 0;
        while i < n
            invariant
                n == self.children@.len(),
                0 <= i <= n,
                key@ == name@,
                find_child(self.children@, name@, i as int) is None,
            decreases n - i,
        {
            if self.children[i].name == key {
                proof {
                    lemma_find_child_stable(self.children@, name@, i + 1, n as int);
                }
                return Some(&self.children[i]);
            }
            i = i + 1;
        }
        None
    }

    /// Whether this node or one of its descendants is a deleted file.
    pub fn contains_deleted_files(&self) -> (r: bool)
        ensures
            r == self.has_deleted_descendants,
    {
        self.has_deleted_descendants
    }

    /// Cumulative bytes of the deleted files under this node.
    pub fn deleted_cumulative_size(&self) -> (r: u64)
        ensures
            r == self.deleted_size,
    {
        self.deleted_size
    }
}

} // verus!
