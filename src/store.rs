use vstd::prelude::*;
use crate::path_split::{split_on, split_path};
use crate::scanner::{lossy_utf8_of, Oid, PathInterner, ScanDelta};
use crate::tree::{child_named, is_prefix, marks_at, names_unique, node_at, parts_view, rolled_from, sizes_at, totals_fit, totals_of, PathSizes, TreeNode};

verus! {

/// The version of the stored layout; a store written under another one is
/// rebuilt.
pub const SCHEMA_VERSION: &'static str = "8";

/// Whether a store whose recorded version is `stored` must be rebuilt.
pub fn needs_rebuild(stored: Option<&str>) -> (r: bool)
    ensures
        r == match stored {
            Some(v) => v@ != SCHEMA_VERSION@,
            None => true,
        },
{
    match stored {
        Some(v) => String::from_str(v) != String::from_str(SCHEMA_VERSION),
        None => true,
    }
}

/// The `paths` table: sizes summed per path.
pub open spec fn upsert(
    t: Map<Seq<char>, (int, int, int)>,
    path: Seq<char>,
    cumulative: int,
    current: int,
    count: int,
) -> Map<Seq<char>, (int, int, int)> {
    if t.contains_key(path) {
        t.insert(path, (t[path].0 + cumulative, t[path].1 + current, t[path].2 + count))
    } else {
        t.insert(path, (cumulative, current, count))
    }
}

/// The table after upserting the rows `rows`, in order, each counting one
/// observation.
pub open spec fn upsert_all(
    t: Map<Seq<char>, (int, int, int)>,
    rows: Seq<(Seq<char>, int, int)>,
) -> Map<Seq<char>, (int, int, int)>
    decreases rows.len(),
{
    if rows.len() == 0 {
        t
    } else {
        upsert(
            upsert_all(t, rows.drop_last()),
            rows.last().0,
            rows.last().1,
            rows.last().2,
            1,
        )
    }
}

/// Upserting two batches one after the other is upserting them together:
/// the `paths` table does not depend on how rows are split between scans.
pub proof fn lemma_upsert_batches(
    t: Map<Seq<char>, (int, int, int)>,
    a: Seq<(Seq<char>, int, int)>,
    b: Seq<(Seq<char>, int, int)>,
)
    ensures
        upsert_all(upsert_all(t, a), b) == upsert_all(t, a + b),
    decreases b.len(),
{
    if b.len() == 0 {
        assert(a + b =~= a);
    } else {
        lemma_upsert_batches(t, a, b.drop_last());
        assert((a + b).drop_last() =~= a + b.drop_last());
        assert((a + b).last() == b.last());
    }
}

/// The `blobs` table: the first metadata row of each blob is kept.
pub open spec fn keep_first(
    t: Map<Seq<u8>, (i64, Seq<char>, Seq<char>, i64)>,
    rows: Seq<(Seq<u8>, (i64, Seq<char>, Seq<char>, i64))>,
) -> Map<Seq<u8>, (i64, Seq<char>, Seq<char>, i64)>
    decreases rows.len(),
{
    if rows.len() == 0 {
        t
    } else {
        let u = keep_first(t, rows.drop_last());
        if u.contains_key(rows.last().0) {
            u
        } else {
            u.insert(rows.last().0, rows.last().1)
        }
    }
}

/// Index of the first row for `oid`.
pub open spec fn first_row_for(rows: Seq<(Seq<u8>, (i64, Seq<char>, Seq<char>, i64))>, oid: Seq<u8>) -> int
    decreases rows.len(),
{
    if rows.len() == 0 {
        -1
    } else {
        let i = first_row_for(rows.drop_last(), oid);
        if i >= 0 {
            i
        } else if rows.last().0 == oid {
            rows.len() - 1
        } else {
            -1
        }
    }
}

/// Starting from an empty table, a blob's stored metadata is that of the
/// first row that named it, whatever rows came after: the recorded author
/// and date are those of the earliest commit, in scan order, that
/// introduced it.
pub proof fn lemma_first_row_kept(
    rows: Seq<(Seq<u8>, (i64, Seq<char>, Seq<char>, i64))>,
    oid: Seq<u8>,
)
    ensures
        first_row_for(rows, oid) >= 0 ==> {
            let i = first_row_for(rows, oid);
            &&& 0 <= i < rows.len()
            &&& rows[i].0 == oid
            &&& keep_first(Map::empty(), rows).contains_key(oid)
            &&& keep_first(Map::empty(), rows)[oid] == rows[i].1
        },
        first_row_for(rows, oid) < 0 ==> !keep_first(Map::empty(), rows).contains_key(oid),
    decreases rows.len(),
{
    if rows.len() > 0 {
        lemma_first_row_kept(rows.drop_last(), oid);
    }
}

/// A stored blob-metadata row.
pub struct BlobMetaRecord {
    pub oid: Oid,
    pub size: i64,
    pub path: String,
    pub first_author: String,
    pub first_date: i64,
}

/// A stored blob row, with its path as text.
pub struct BlobRecord {
    pub oid: Oid,
    pub path: String,
    pub cumulative_size: i64,
    pub current_size: i64,
}

impl BlobRecord {
    pub fn new(oid: Oid, path: String, cumulative_size: i64, current_size: i64) -> (r: BlobRecord)
        ensures
            r.oid == oid,
            r.path@ == path@,
            r.cumulative_size == cumulative_size,
            r.current_size == current_size,
    {
        BlobRecord { oid, path, cumulative_size, current_size }
    }
}

impl BlobMetaRecord {
    pub fn new(oid: Oid, size: i64, path: String, first_author: String, first_date: i64) -> (r:
        BlobMetaRecord)
        ensures
            r.oid == oid,
            r.size == size,
            r.path@ == path@,
            r.first_author@ == first_author@,
            r.first_date == first_date,
    {
        BlobMetaRecord { oid, size, path, first_author, first_date }
    }
}

/// The delta's rows with their paths as text, ready to store; `None` when a
/// row names a path id the interner does not hold.
pub fn convert_delta(delta: &ScanDelta, interner: &PathInterner) -> (r: Option<(Vec<BlobRecord>, Vec<BlobMetaRecord>)>)
    ensures
        r is Some <==> (forall|i: int|
            0 <= i < delta.blobs@.len() ==> (#[trigger] delta.blobs@[i]).path_id.0 < interner.table().len())
            && (forall|i: int|
            0 <= i < delta.metadata@.len() ==> (#[trigger] delta.metadata@[i]).path_id.0
                < interner.table().len()),
        r matches Some((b, m)) ==> {
            &&& b@.len() == delta.blobs@.len()
            &&& m@.len() == delta.metadata@.len()
            &&& forall|i: int|
                0 <= i < b@.len() ==> {
                    let row = delta.blobs@[i];
                    &&& (#[trigger] b@[i]).oid == row.oid
                    &&& b@[i].path@ == lossy_utf8_of(interner.table()[row.path_id.0 as int])
                    &&& b@[i].cumulative_size == row.cumulative_size
                    &&& b@[i].current_size == row.current_size
                }
            &&& forall|i: int|
                0 <= i < m@.len() ==> {
                    let row = delta.metadata@[i];
                    &&& (#[trigger] m@[i]).oid == row.oid
                    &&& m@[i].size == row.size
                    &&& m@[i].path@ == lossy_utf8_of(interner.table()[row.path_id.0 as int])
                    &&& m@[i].first_author@ == row.author@
                    &&& m@[i].first_date == row.timestamp
                }
        },
{
    let mut b: Vec<BlobRecord> = Vec::new();
    let mut i: usize = 0;
    while i < delta.blobs.len()
        invariant
            0 <= i <= delta.blobs@.len(),
            b@.len() == i,
            forall|k: int| 0 <= k < i ==> (#[trigger] delta.blobs@[k]).path_id.0 < interner.table().len(),
            forall|k: int|
                0 <= k < i ==> {
                    let row = delta.blobs@[k];
                    &&& (#[trigger] b@[k]).oid == row.oid
                    &&& b@[k].path@ == lossy_utf8_of(interner.table()[row.path_id.0 as int])
                    &&& b@[k].cumulative_size == row.cumulative_size
                    &&& b@[k].current_size == row.current_size
                },
        decreases delta.blobs@.len() - i,
    {
        let row = &delta.blobs[i];
        if row.path_id.as_u32() as usize >= interner.len() {
            return None;
        }
        b.push(BlobRecord::new(row.oid, interner.get_str(row.path_id), row.cumulative_size, row.current_size));
        i = i + 1;
    }
    let mut m: Vec<BlobMetaRecord> = Vec::new();
    let mut j: usize = 0;
    while j < delta.metadata.len()
        invariant
            0 <= j <= delta.metadata@.len(),
            m@.len() == j,
            forall|k: int| 0 <= k < j ==> (#[trigger] delta.metadata@[k]).path_id.0 < interner.table().len(),
            forall|k: int|
                0 <= k < j ==> {
                    let row = delta.metadata@[k];
                    &&& (#[trigger] m@[k]).oid == row.oid
                    &&& m@[k].size == row.size
                    &&& m@[k].path@ == lossy_utf8_of(interner.table()[row.path_id.0 as int])
                    &&& m@[k].first_author@ == row.author@
                    &&& m@[k].first_date == row.timestamp
                },
        decreases delta.metadata@.len() - j,
    {
        let row = &delta.metadata[j];
        if row.path_id.as_u32() as usize >= interner.len() {
            return None;
        }
        m.push(
            BlobMetaRecord::new(
                row.oid,
                row.size,
                interner.get_str(row.path_id),
                row.author.clone(),
                row.timestamp,
            ),
        );
        j = j + 1;
    }
    Some((b, m))
}

/// Sizes summed over the first `k` rows whose path cuts into `q`.
pub open spec fn rows_sum(rows: Seq<PathSizes>, q: Seq<Seq<char>>, k: int) -> (int, int, int)
    decreases k,
{
    if k <= 0 || k > rows.len() {
        (0, 0, 0)
    } else {
        let prev = rows_sum(rows, q, k - 1);
        let r = rows[k - 1];
        if split_on(r.path@, '/') == q {
            (
                prev.0 + r.cumulative_size,
                prev.1 + r.current_size,
                prev.2 + r.blob_count,
            )
        } else {
            prev
        }
    }
}

proof fn lemma_rows_sum_mono(rows: Seq<PathSizes>, q: Seq<Seq<char>>, j: int, k: int)
    requires
        0 <= j <= k <= rows.len(),
    ensures
        rows_sum(rows, q, j).0 <= rows_sum(rows, q, k).0,
        rows_sum(rows, q, j).1 <= rows_sum(rows, q, k).1,
        rows_sum(rows, q, j).2 <= rows_sum(rows, q, k).2,
    decreases k - j,
{
    if j < k {
        lemma_rows_sum_mono(rows, q, j, k - 1);
    }
}

/// `raw` holds at each path the sizes of the rows of that path.
pub open spec fn holds_rows(raw: TreeNode, rows: Seq<PathSizes>) -> bool {
    forall|q: Seq<Seq<char>>| #[trigger] sizes_at(raw, q) == rows_sum(rows, q, rows.len() as int)
}

/// Some row path cuts into pieces that start with `q`.
pub open spec fn on_row_path(rows: Seq<PathSizes>, k: int, q: Seq<Seq<char>>) -> bool {
    exists|j: int| 0 <= j < k && is_prefix(q, split_on(#[trigger] rows[j].path@, '/'))
}

/// `raw` is the tree the first `k` rows make before the roll-up: a node
/// for the root and for every prefix of a row path and no other, children
/// with distinct names, each path holding the sums of its rows, and no
/// deleted marks yet.
pub open spec fn row_tree(raw: TreeNode, rows: Seq<PathSizes>, k: int) -> bool {
    &&& raw.name@ == "(root)"@
    &&& names_unique(raw)
    &&& forall|q: Seq<Seq<char>>| #[trigger] sizes_at(raw, q) == rows_sum(rows, q, k)
    &&& forall|q: Seq<Seq<char>>|
        (#[trigger] node_at(raw, q)) is Some <==> (q.len() == 0 || on_row_path(rows, k, q))
    &&& forall|q: Seq<Seq<char>>| node_at(raw, q) is Some ==> #[trigger] marks_at(raw, q) == (0u64, false)
}

/// Some path's summed sizes, or the rolled-up totals of the rows' tree,
/// pass 64 bits.
pub open spec fn sizes_overflow(rows: Seq<PathSizes>) -> bool {
    ||| exists|q: Seq<Seq<char>>| {
        let t = #[trigger] rows_sum(rows, q, rows.len() as int);
        t.0 > u64::MAX || t.1 > u64::MAX || t.2 > u64::MAX
    }
    ||| exists|raw: TreeNode| row_tree(raw, rows, rows.len() as int) && !totals_fit(totals_of(raw))
}

/// The directory tree of the stored rows: each path is cut at `/`, its
/// sizes are added at its node, then the tree is rolled up. `None` when a
/// size does not fit in 64 bits.
pub fn build_tree(rows: &Vec<PathSizes>) -> (r: Option<TreeNode>)
    ensures
        r matches Some(t) ==> crate::tree::leaves_marked(t),
        r is Some ==> forall|q: Seq<Seq<char>>| {
            let s = #[trigger] rows_sum(rows@, q, rows@.len() as int);
            s.0 <= u64::MAX && s.1 <= u64::MAX && s.2 <= u64::MAX
        },
        r matches Some(t) ==> t.name@ == "(root)"@ && exists|raw: TreeNode|
            row_tree(raw, rows@, rows@.len() as int) && rolled_from(raw, t),
        r is None ==> sizes_overflow(rows@),
{
    proof {
        reveal_strlit("(root)");
    }
    let mut root = TreeNode::new("(root)");
    proof {
        assert forall|q: Seq<Seq<char>>| #[trigger] sizes_at(root, q) == rows_sum(rows@, q, 0) by {
            if q.len() > 0 {
                assert(child_named(root, q[0]) is None);
            }
        }
        assert forall|q: Seq<Seq<char>>|
            (#[trigger] node_at(root, q)) is Some <==> (q.len() == 0 || on_row_path(rows@, 0, q)) by {
            if q.len() > 0 {
                assert(child_named(root, q[0]) is None);
            }
        }
        assert(row_tree(root, rows@, 0));
    }
    let n = rows.len();
    let mut i: usize = 0;
    while i < n
        invariant
            n == rows@.len(),
            0 <= i <= n,
            row_tree(root, rows@, i as int),
        decreases n - i,
    {
        let row = &rows[i];
        let pieces = split_path(row.path.as_str());
        let mut parts: Vec<&str> = Vec::new();
        let mut k: usize = 0;
        while k < pieces.len()
            invariant
                0 <= k <= pieces@.len(),
                parts@.len() == k,
                forall|t: int| 0 <= t < k ==> #[trigger] parts@[t]@ == pieces@[t]@,
            decreases pieces@.len() - k,
        {
            parts.push(pieces[k].as_str());
            k = k + 1;
        }
        let ghost q = split_on(row.path@, '/');
        proof {
            assert(parts_view(parts@) =~= q);
            assert(q.len() > 0);
        }
        let at = root.sizes_at_path(parts.as_slice());
        let c0 = at.0.checked_add(row.cumulative_size);
        let c1 = at.1.checked_add(row.current_size);
        let c2 = at.2.checked_add(row.blob_count);
        if c0.is_none() || c1.is_none() || c2.is_none() {
            proof {
                lemma_rows_sum_mono(rows@, q, i + 1, n as int);
                assert(rows_sum(rows@, q, i + 1) == (
                    rows_sum(rows@, q, i as int).0 + row.cumulative_size,
                    rows_sum(rows@, q, i as int).1 + row.current_size,
                    rows_sum(rows@, q, i as int).2 + row.blob_count,
                ));
                let t = rows_sum(rows@, q, n as int);
                assert(t.0 > u64::MAX || t.1 > u64::MAX || t.2 > u64::MAX);
            }
            return None;
        }
        let ghost before = root;
        root.add_path_with_sizes(parts.as_slice(), row.cumulative_size, row.current_size, row.blob_count);
        proof {
            assert forall|x: Seq<Seq<char>>|
                (#[trigger] node_at(root, x)) is Some <==> (x.len() == 0 || on_row_path(rows@, i + 1, x)) by {
                if is_prefix(x, q) {
                    assert(rows@[i as int].path@ == row.path@);
                    assert(on_row_path(rows@, i + 1, x));
                } else {
                    assert(node_at(root, x) == node_at(before, x));
                    if on_row_path(rows@, i + 1, x) && x.len() > 0 {
                        let j = choose|j: int| 0 <= j < i + 1 && is_prefix(x, split_on(#[trigger] rows@[j].path@, '/'));
                        assert(j < i);
                        assert(on_row_path(rows@, i as int, x));
                    }
                    if on_row_path(rows@, i as int, x) {
                        let j = choose|j: int| 0 <= j < i && is_prefix(x, split_on(#[trigger] rows@[j].path@, '/'));
                        assert(on_row_path(rows@, i + 1, x));
                    }
                }
            }
            assert forall|x: Seq<Seq<char>>| node_at(root, x) is Some implies #[trigger] marks_at(root, x)
                == (0u64, false) by {
                assert(row_tree(before, rows@, i as int));
                if is_prefix(x, q) {
                    assert(marks_at(root, x) == marks_at(before, x));
                } else {
                    assert(node_at(root, x) == node_at(before, x));
                    assert(marks_at(root, x) == marks_at(before, x));
                }
                if node_at(before, x) is Some {
                    assert(marks_at(before, x) == (0u64, false));
                }
            }
            assert forall|x: Seq<Seq<char>>| #[trigger] sizes_at(root, x) == rows_sum(rows@, x, i + 1) by {
                assert(sizes_at(root, x) == crate::tree::added_at(
                    sizes_at(before, x),
                    x,
                    q,
                    (row.cumulative_size as int, row.current_size as int, row.blob_count as int),
                ));
            }
        }
        i = i + 1;
    }
    let ghost raw = root;
    match root.checked_totals() {
        None => {
            proof {
                assert(row_tree(raw, rows@, n as int) && !totals_fit(totals_of(raw)));
            }
            return None;
        },
        Some(_) => {},
    }
    root.compute_totals();
    proof {
        assert(row_tree(raw, rows@, n as int) && rolled_from(raw, root));
        assert forall|q: Seq<Seq<char>>| {
            let s = #[trigger] rows_sum(rows@, q, rows@.len() as int);
            s.0 <= u64::MAX && s.1 <= u64::MAX && s.2 <= u64::MAX
        } by {
            assert(sizes_at(raw, q) == rows_sum(rows@, q, n as int));
        }
    }
    Some(root)
}

} // verus!
