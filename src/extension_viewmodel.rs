use vstd::prelude::*;
use crate::format::{extension_label, extension_of, is_ascii_lowered};
use crate::selection::Selectable;
use crate::order::{indices, is_permutation, order_by_size_desc};
use crate::tree::{child_leaf_nodes, fields_sum, TreeNode};

verus! {

/// Sizes of one extension, for display.
pub struct ExtensionStatsView {
    pub extension: String,
    pub cumulative_size: u64,
    pub current_size: u64,
    pub file_count: u64,
}

/// `l` is what `extension_label` gives for `name`.
pub open spec fn is_label_of(l: Seq<char>, name: Seq<char>) -> bool {
    match extension_of(name) {
        Some(e) => l.len() == e.len() + 1 && l[0] == '.' && is_ascii_lowered(l.drop_first(), e),
        None => l == "(no ext)"@,
    }
}

/// A name has one label.
pub proof fn lemma_label_unique(l1: Seq<char>, l2: Seq<char>, name: Seq<char>)
    requires
        is_label_of(l1, name),
        is_label_of(l2, name),
    ensures
        l1 == l2,
{
    if let Some(e) = extension_of(name) {
        assert(l1.drop_first() == l2.drop_first());
        assert(l1 =~= seq![l1[0]] + l1.drop_first());
        assert(l2 =~= seq![l2[0]] + l2.drop_first());
    }
}

/// Sizes summed over the first `k` files whose label is `l`.
pub open spec fn label_sum(files: Seq<TreeNode>, l: Seq<char>, k: int) -> (int, int, int)
    decreases k,
{
    if k <= 0 || k > files.len() {
        (0, 0, 0)
    } else {
        let prev = label_sum(files, l, k - 1);
        let f = files[k - 1];
        if is_label_of(l, f.name@) {
            (
                prev.0 + f.cumulative_size,
                prev.1 + f.current_size,
                prev.2 + f.blob_count,
            )
        } else {
            prev
        }
    }
}

proof fn lemma_label_sum_le(files: Seq<TreeNode>, l: Seq<char>, k: int)
    requires
        0 <= k <= files.len(),
    ensures
        label_sum(files, l, k).0 <= fields_sum(files, k).cumulative,
        label_sum(files, l, k).1 <= fields_sum(files, k).current,
        label_sum(files, l, k).2 <= fields_sum(files, k).count,
    decreases k,
{
    if k > 0 {
        lemma_label_sum_le(files, l, k - 1);
    }
}

proof fn lemma_label_sum_zero(files: Seq<TreeNode>, l: Seq<char>, k: int)
    requires
        0 <= k <= files.len(),
        forall|f: int| 0 <= f < k ==> !is_label_of(l, #[trigger] files[f].name@),
    ensures
        label_sum(files, l, k) == (0int, 0int, 0int),
    decreases k,
{
    if k > 0 {
        lemma_label_sum_zero(files, l, k - 1);
    }
}

/// Each row holds the sums over exactly the files of its label, and every
/// file's label has a row.
pub open spec fn stats_exact(stats: Seq<ExtensionStatsView>, files: Seq<TreeNode>) -> bool {
    &&& forall|a: int|
        0 <= a < stats.len() ==> label_sum(files, (#[trigger] stats[a]).extension@, files.len() as int)
            == (stats[a].cumulative_size as int, stats[a].current_size as int, stats[a].file_count as int)
    &&& forall|f: int|
        0 <= f < files.len() ==> exists|a: int|
            0 <= a < stats.len() && is_label_of(stats[a].extension@, #[trigger] files[f].name@)
}

/// The files under `root`.
pub open spec fn files_of(root: TreeNode) -> Seq<TreeNode> {
    child_leaf_nodes(root.children@, root.children@.len() as int)
}

/// Sizes of the files under `root` fit in 64 bits.
pub open spec fn file_sums_fit(root: TreeNode) -> bool {
    let t = fields_sum(files_of(root), files_of(root).len() as int);
    t.cumulative <= u64::MAX && t.current <= u64::MAX && t.count <= u64::MAX
}

/// Whether the sizes of the files under `root` fit in 64 bits.
pub fn file_sums_fit_check(root: &TreeNode) -> (r: bool)
    ensures
        r == file_sums_fit(*root),
{
    let files = root.visit_leaf_nodes();
    let ghost fs = files_of(*root);
    let n = files.len();
    let mut t: (u64, u64, u64) = (0, 0, 0);
    let mut i: usize = 0;
    while i < n
        invariant
            n == fs.len(),
            fs == files_of(*root),
            crate::tree::derefs(files@) == fs,
            0 <= i <= n,
            t.0 == fields_sum(fs, i as int).cumulative,
            t.1 == fields_sum(fs, i as int).current,
            t.2 == fields_sum(fs, i as int).count,
        decreases n - i,
    {
        assert(*files@[i as int] == fs[i as int]);
        let f = files[i];
        match (
            t.0.checked_add(f.cumulative_size),
            t.1.checked_add(f.current_size),
            t.2.checked_add(f.blob_count),
        ) {
            (Some(a), Some(b), Some(c)) => {
                t = (a, b, c);
            },
            _ => {
                proof {
                    lemma_fields_sum_mono(fs, i as int + 1, n as int);
                }
                return false;
            },
        }
        i = i + 1;
    }
    true
}

/// Rows are grouped by extension: one row per label, each the label of a
/// file of `files`, largest cumulative size first.
pub open spec fn stats_well_formed(stats: Seq<ExtensionStatsView>, files: Seq<TreeNode>) -> bool {
    &&& forall|i: int, j: int|
        0 <= i < j < stats.len() ==> #[trigger] stats[i].extension@ != #[trigger] stats[j].extension@
    &&& forall|i: int|
        0 <= i < stats.len() ==> exists|f: int|
            0 <= f < files.len() && is_label_of(#[trigger] stats[i].extension@, files[f].name@)
    &&& forall|i: int, j: int|
        0 <= i < j < stats.len() ==> #[trigger] stats[i].cumulative_size
            >= #[trigger] stats[j].cumulative_size
}

/// The per-extension breakdown with its selection.
pub struct ExtensionViewModel {
    stats: Vec<ExtensionStatsView>,
    selected_index: usize,
    total_cumulative: u64,
    total_current: u64,
    total_files: u64,
}

impl ExtensionViewModel {
    pub closed spec fn stat_rows(&self) -> Seq<ExtensionStatsView> {
        self.stats@
    }

    pub closed spec fn selection_index(&self) -> nat {
        self.selected_index as nat
    }

    pub closed spec fn totals(&self) -> (u64, u64, u64) {
        (self.total_cumulative, self.total_current, self.total_files)
    }

    /// Groups the files under `root` by extension; totals are over all
    /// files.
    pub fn new(root: &TreeNode) -> (r: ExtensionViewModel)
        requires
            file_sums_fit(*root),
        ensures
            stats_well_formed(r.stat_rows(), files_of(*root)),
            stats_exact(r.stat_rows(), files_of(*root)),
            r.selection_index() == 0,
            r.totals().0 == fields_sum(files_of(*root), files_of(*root).len() as int).cumulative,
            r.totals().1 == fields_sum(files_of(*root), files_of(*root).len() as int).current,
            r.totals().2 == fields_sum(files_of(*root), files_of(*root).len() as int).count,
    {
        let files = root.visit_leaf_nodes();
        let ghost fs = files_of(*root);
        assert(crate::tree::derefs(files@) == fs);
        let n = files.len();
        let mut total_cumulative: u64 = 0;
        let mut total_current: u64 = 0;
        let mut total_files: u64 = 0;
        let mut i: usize = 0;
        while i < n
            invariant
                n == fs.len(),
                crate::tree::derefs(files@) == fs,
                file_sums_fit(*root),
                fs == files_of(*root),
                0 <= i <= n,
                total_cumulative == fields_sum(fs, i as int).cumulative,
                total_current == fields_sum(fs, i as int).current,
                total_files == fields_sum(fs, i as int).count,
            decreases n - i,
        {
            proof {
                lemma_fields_sum_mono(fs, i as int + 1, n as int);
            }
            assert(*files@[i as int] == fs[i as int]);
            total_cumulative = total_cumulative + files[i].cumulative_size;
            total_current = total_current + files[i].current_size;
            total_files = total_files + files[i].blob_count;
            i = i + 1;
        }
        let stats = Self::compute_stats(root);
        ExtensionViewModel { stats, selected_index: 0, total_cumulative, total_current, total_files }
    }

    /// One row per extension of the files under `root`, largest first.
    #[verifier::rlimit(60)]
    pub fn compute_stats(root: &TreeNode) -> (r: Vec<ExtensionStatsView>)
        requires
            file_sums_fit(*root),
        ensures
            stats_well_formed(r@, files_of(*root)),
            stats_exact(r@, files_of(*root)),
    {
        let files = root.visit_leaf_nodes();
        let ghost fs = files_of(*root);
        let n = files.len();
        let mut groups: Vec<ExtensionStatsView> = Vec::new();
        let mut i: usize = 0;
        while i < n
            invariant
                n == fs.len(),
                crate::tree::derefs(files@) == fs,
                file_sums_fit(*root),
                fs == files_of(*root),
                0 <= i <= n,
                forall|a: int, b: int|
                    0 <= a < b < groups@.len() ==> #[trigger] groups@[a].extension@
                        != #[trigger] groups@[b].extension@,
                forall|a: int|
                    0 <= a < groups@.len() ==> label_sum(fs, (#[trigger] groups@[a]).extension@, i as int)
                        == (groups@[a].cumulative_size as int, groups@[a].current_size as int,
                        groups@[a].file_count as int),
                forall|a: int|
                    0 <= a < groups@.len() ==> exists|f: int|
                        0 <= f < n && is_label_of(#[trigger] groups@[a].extension@, fs[f].name@),
                forall|f: int|
                    0 <= f < i ==> exists|a: int|
                        0 <= a < groups@.len() && is_label_of(groups@[a].extension@, #[trigger] fs[f].name@),
            decreases n - i,
        {
            let file = files[i];
            assert(*file == fs[i as int]);
            let label = extension_label(file.name.as_str());
            assert(is_label_of(label@, fs[i as int].name@));
            let m = groups.len();
            let mut j: usize = 0;
            while j < m
                invariant
                    m == groups@.len(),
                    0 <= j <= m,
                    forall|a: int| 0 <= a < j ==> #[trigger] groups@[a].extension@ != label@,
                ensures
                    j == m || groups@[j as int].extension@ == label@,
                    forall|a: int| 0 <= a < j ==> #[trigger] groups@[a].extension@ != label@,
                decreases m - j,
            {
                if groups[j].extension == label {
                    break;
                }
                j = j + 1;
            }
            let ghost before = groups@;
            proof {
                // Only the group of this file's label grows.
                assert forall|a: int| 0 <= a < m && #[trigger] before[a].extension@ != label@ implies label_sum(
                    fs,
                    before[a].extension@,
                    i + 1,
                ) == label_sum(fs, before[a].extension@, i as int) by {
                    if is_label_of(before[a].extension@, fs[i as int].name@) {
                        lemma_label_unique(before[a].extension@, label@, fs[i as int].name@);
                    }
                }
                lemma_label_sum_le(fs, label@, i + 1);
                lemma_fields_sum_mono(fs, i + 1, n as int);
            }
            if j < m {
                let g = &mut groups[j];
                g.cumulative_size = g.cumulative_size + file.cumulative_size;
                g.current_size = g.current_size + file.current_size;
                g.file_count = g.file_count + file.blob_count;
                proof {
                    assert forall|a: int, b: int|
                        0 <= a < b < groups@.len() implies #[trigger] groups@[a].extension@
                        != #[trigger] groups@[b].extension@ by {
                        assert(groups@[a].extension@ == before[a].extension@);
                        assert(groups@[b].extension@ == before[b].extension@);
                    }
                    assert forall|a: int| 0 <= a < groups@.len() implies exists|f: int|
                        0 <= f < n && is_label_of(#[trigger] groups@[a].extension@, fs[f].name@) by {
                        assert(groups@[a].extension@ == before[a].extension@);
                    }
                    assert forall|a: int| 0 <= a < groups@.len() implies label_sum(
                        fs,
                        (#[trigger] groups@[a]).extension@,
                        i + 1,
                    ) == (groups@[a].cumulative_size as int, groups@[a].current_size as int,
                        groups@[a].file_count as int) by {
                        if a != j {
                            assert(groups@[a] == before[a]);
                        }
                    }
                    assert forall|f: int| 0 <= f < i + 1 implies exists|a: int|
                        0 <= a < groups@.len() && is_label_of(groups@[a].extension@, #[trigger] fs[f].name@) by {
                        if f == i {
                            assert(is_label_of(groups@[j as int].extension@, fs[f].name@));
                        } else {
                            let a = choose|a: int|
                                0 <= a < before.len() && is_label_of(before[a].extension@, fs[f].name@);
                            assert(groups@[a].extension@ == before[a].extension@);
                        }
                    }
                }
            } else {
                proof {
                    assert forall|f: int| 0 <= f < i implies !is_label_of(label@, #[trigger] fs[f].name@) by {
                        let a = choose|a: int|
                            0 <= a < before.len() && is_label_of(before[a].extension@, fs[f].name@);
                        if is_label_of(label@, fs[f].name@) {
                            lemma_label_unique(before[a].extension@, label@, fs[f].name@);
                        }
                    }
                    lemma_label_sum_zero(fs, label@, i as int);
                }
                groups.push(
                    ExtensionStatsView {
                        extension: label,
                        cumulative_size: file.cumulative_size,
                        current_size: file.current_size,
                        file_count: file.blob_count,
                    },
                );
                proof {
                    assert forall|a: int| 0 <= a < groups@.len() implies exists|f: int|
                        0 <= f < n && is_label_of(#[trigger] groups@[a].extension@, fs[f].name@) by {
                        if a == m {
                            assert(is_label_of(groups@[a].extension@, fs[i as int].name@));
                        } else {
                            assert(groups@[a] == before[a]);
                        }
                    }
                    assert forall|a: int| 0 <= a < groups@.len() implies label_sum(
                        fs,
                        (#[trigger] groups@[a]).extension@,
                        i + 1,
                    ) == (groups@[a].cumulative_size as int, groups@[a].current_size as int,
                        groups@[a].file_count as int) by {
                        if a != m {
                            assert(groups@[a] == before[a]);
                        }
                    }
                    assert forall|f: int| 0 <= f < i + 1 implies exists|a: int|
                        0 <= a < groups@.len() && is_label_of(groups@[a].extension@, #[trigger] fs[f].name@) by {
                        if f == i {
                            assert(is_label_of(groups@[m as int].extension@, fs[f].name@));
                        } else {
                            let a = choose|a: int|
                                0 <= a < before.len() && is_label_of(before[a].extension@, fs[f].name@);
                            assert(groups@[a] == before[a]);
                        }
                    }
                }
            }
            i = i + 1;
        }
        // Largest cumulative size first.
        let mut keys: Vec<u64> = Vec::new();
        let g = groups.len();
        let mut k: usize = 0;
        while k < g
            invariant
                g == groups@.len(),
                0 <= k <= g,
                keys@.len() == k,
                forall|t: int| 0 <= t < k ==> #[trigger] keys@[t] == groups@[t].cumulative_size,
            decreases g - k,
        {
            keys.push(groups[k].cumulative_size);
            k = k + 1;
        }
        let order = order_by_size_desc(&keys);
        let mut out: Vec<ExtensionStatsView> = Vec::new();
        let mut t: usize = 0;
        while t < g
            invariant
                g == groups@.len(),
                g == keys@.len(),
                is_permutation(indices(order@), g as int),
                0 <= t <= g,
                out@.len() == t,
                forall|u: int|
                    0 <= u < t ==> {
                        let src = groups@[order@[u] as int];
                        &&& (#[trigger] out@[u]).extension@ == src.extension@
                        &&& out@[u].cumulative_size == src.cumulative_size
                        &&& out@[u].current_size == src.current_size
                        &&& out@[u].file_count == src.file_count
                    },
            decreases g - t,
        {
            assert(indices(order@)[t as int] == order@[t as int] as int);
            let src = &groups[order[t]];
            out.push(
                ExtensionStatsView {
                    extension: src.extension.clone(),
                    cumulative_size: src.cumulative_size,
                    current_size: src.current_size,
                    file_count: src.file_count,
                },
            );
            t = t + 1;
        }
        proof {
            let p = indices(order@);
            assert forall|a: int| 0 <= a < out@.len() implies 0 <= #[trigger] p[a] < g && p[a] == order@[a] as int by {
            }
            assert forall|a: int, b: int|
                0 <= a < b < out@.len() implies #[trigger] out@[a].extension@
                != #[trigger] out@[b].extension@ by {
                assert(p[a] == order@[a] as int);
                assert(p[b] == order@[b] as int);
                assert(out@[a].extension@ == groups@[p[a]].extension@);
                assert(out@[b].extension@ == groups@[p[b]].extension@);
                if p[a] < p[b] {
                    assert(groups@[p[a]].extension@ != groups@[p[b]].extension@);
                } else {
                    assert(groups@[p[b]].extension@ != groups@[p[a]].extension@);
                }
            }
            assert forall|a: int| 0 <= a < out@.len() implies exists|f: int|
                0 <= f < fs.len() && is_label_of(#[trigger] out@[a].extension@, fs[f].name@) by {
                assert(p[a] == order@[a] as int);
                assert(out@[a].extension@ == groups@[p[a]].extension@);
                assert(exists|f: int|
                    0 <= f < n && is_label_of(groups@[p[a]].extension@, fs[f].name@));
            }
            assert forall|a: int, b: int|
                0 <= a < b < out@.len() implies #[trigger] out@[a].cumulative_size
                >= #[trigger] out@[b].cumulative_size by {
                assert(p[a] == order@[a] as int);
                assert(p[b] == order@[b] as int);
                assert(keys@[order@[a] as int] >= keys@[order@[b] as int]);
                assert(keys@[order@[a] as int] == groups@[order@[a] as int].cumulative_size);
                assert(keys@[order@[b] as int] == groups@[order@[b] as int].cumulative_size);
                assert(out@[a].extension@ == groups@[order@[a] as int].extension@);
                assert(out@[b].extension@ == groups@[order@[b] as int].extension@);
            }
            assert forall|a: int| 0 <= a < out@.len() implies label_sum(
                fs,
                (#[trigger] out@[a]).extension@,
                fs.len() as int,
            ) == (out@[a].cumulative_size as int, out@[a].current_size as int,
                out@[a].file_count as int) by {
                assert(p[a] == order@[a] as int);
                let ga = groups@[p[a]];
                assert(label_sum(fs, ga.extension@, n as int) == (ga.cumulative_size as int,
                    ga.current_size as int, ga.file_count as int));
            }
            assert forall|f: int| 0 <= f < fs.len() implies exists|a: int|
                0 <= a < out@.len() && is_label_of(out@[a].extension@, #[trigger] fs[f].name@) by {
                let ga = choose|ga: int|
                    0 <= ga < groups@.len() && is_label_of(groups@[ga].extension@, fs[f].name@);
                assert(crate::order::lists(p, ga));
                let u = choose|u: int| 0 <= u < p.len() && p[u] == ga;
                assert(out@[u].extension@ == groups@[ga].extension@);
            }
        }
        out
    }

    pub fn stats(&self) -> (r: &[ExtensionStatsView])
        ensures
            r@ == self.stat_rows(),
    {
        self.stats.as_slice()
    }

    pub fn selected_index(&self) -> (r: usize)
        ensures
            r == self.selection_index(),
    {
        self.selected_index
    }

    pub fn total_cumulative(&self) -> (r: u64)
        ensures
            r == self.totals().0,
    {
        self.total_cumulative
    }

    pub fn total_current(&self) -> (r: u64)
        ensures
            r == self.totals().1,
    {
        self.total_current
    }

    pub fn total_files(&self) -> (r: u64)
        ensures
            r == self.totals().2,
    {
        self.total_files
    }
}

impl Selectable for ExtensionViewModel {
    fn len(&self) -> usize {
        self.stats.len()
    }

    fn selected(&self) -> usize {
        self.selected_index
    }

    fn set_selected(&mut self, index: usize) {
        self.selected_index = index;
    }
}

proof fn lemma_fields_sum_nonneg(s: Seq<TreeNode>, k: int)
    ensures
        fields_sum(s, k).cumulative >= 0,
        fields_sum(s, k).current >= 0,
        fields_sum(s, k).count >= 0,
    decreases k,
{
    if k > 0 {
        lemma_fields_sum_nonneg(s, k - 1);
    }
}

proof fn lemma_fields_sum_mono(s: Seq<TreeNode>, j: int, k: int)
    requires
        0 <= j <= k <= s.len(),
    ensures
        fields_sum(s, j).cumulative <= fields_sum(s, k).cumulative,
        fields_sum(s, j).current <= fields_sum(s, k).current,
        fields_sum(s, j).count <= fields_sum(s, k).count,
    decreases k - j,
{
    if j < k {
        lemma_fields_sum_mono(s, j, k - 1);
    }
}

} // verus!
