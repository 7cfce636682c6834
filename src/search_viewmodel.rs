use vstd::prelude::*;
use vstd::string::StringSliceAdditionalSpecFns;
use crate::order::{indices, is_permutation, lists, order_by_size_desc};
use crate::selection::Selectable;
use crate::tree::{child_rows, PathSizes, TreeNode};

verus! {

/// Most results a search keeps.
pub const MAX_RESULTS: usize = 100;

/// What `str::to_lowercase` makes of a string.
pub uninterp spec fn lower_of(s: Seq<char>) -> Seq<char>;

/// Relies on str::to_lowercase: the result depends on the characters alone.
#[verifier::external_body]
fn lowercase(s: &str) -> (r: String)
    ensures
        r@ == lower_of(s@),
{
    s.to_lowercase()
}

/// Relies on String::push: the character is appended.
#[verifier::external_body]
fn push_char(s: &mut String, c: char)
    ensures
        final(s)@ == old(s)@.push(c),
{
    s.push(c);
}

/// Relies on String::pop: the last character is removed and returned.
#[verifier::external_body]
fn pop_char(s: &mut String) -> (r: Option<char>)
    ensures
        old(s)@.len() == 0 ==> r is None && final(s)@ == old(s)@,
        old(s)@.len() > 0 ==> r == Some(old(s)@.last()) && final(s)@ == old(s)@.drop_last(),
{
    s.pop()
}

/// `q` occurs in `t` at byte `i`.
pub open spec fn occurs_at(t: Seq<u8>, q: Seq<u8>, i: int) -> bool {
    0 <= i && i + q.len() <= t.len() && t.subrange(i, i + q.len()) == q
}

/// Non-overlapping occurrences of `q` in `t` from byte `i` on, leftmost
/// first, as byte ranges.
pub open spec fn matches_from(t: Seq<u8>, q: Seq<u8>, i: int) -> Seq<(usize, usize)>
    recommends
        q.len() > 0,
    decreases t.len() - i,
{
    if q.len() == 0 || i < 0 || i + q.len() > t.len() {
        seq![]
    } else if occurs_at(t, q, i) {
        seq![(i as usize, (i + q.len()) as usize)] + matches_from(t, q, i + q.len())
    } else {
        matches_from(t, q, i + 1)
    }
}

/// Byte ranges of the non-overlapping matches of `query` in `text`, left to
/// right; none for an empty query. Both are lowercased already.
pub fn find_matches(text: &str, query: &str) -> (r: Vec<(usize, usize)>)
    ensures
        r@ == matches_from(text.spec_bytes(), query.spec_bytes(), 0),
{
    let t = text.as_bytes();
    let q = query.as_bytes();
    let n = t.len();
    let m = q.len();
    if m == 0 || m > n {
        proof {
            assert(matches_from(t@, q@, 0) =~= seq![]);
        }
        return Vec::new();
    }
    let mut out: Vec<(usize, usize)> = Vec::new();
    let mut i: usize = 0;
    while i <= n - m
        invariant
            n == t@.len(),
            m == q@.len(),
            m > 0,
            m <= n,
            0 <= i <= n,
            out@ + matches_from(t@, q@, i as int) == matches_from(t@, q@, 0),
        decreases n - i,
    {
        let mut k: usize = 0;
        while k < m
            invariant
                n == t@.len(),
                m == q@.len(),
                i + m <= n,
                0 <= k <= m,
                forall|x: int| 0 <= x < k ==> t@[i + x] == q@[x],
            ensures
                k == m || t@[i + k] != q@[k as int],
                forall|x: int| 0 <= x < k ==> t@[i + x] == q@[x],
            decreases m - k,
        {
            if t[i + k] != q[k] {
                break;
            }
            k = k + 1;
        }
        if k == m {
            assert(t@.subrange(i as int, i + m) =~= q@);
            out.push((i, i + m));
            proof {
                assert(out@ + matches_from(t@, q@, (i + m) as int) =~= matches_from(t@, q@, 0));
            }
            i = i + m;
        } else {
            assert(!occurs_at(t@, q@, i as int)) by {
                if occurs_at(t@, q@, i as int) {
                    assert(t@.subrange(i as int, i + m)[k as int] == q@[k as int]);
                }
            }
            i = i + 1;
        }
    }
    proof {
        assert(matches_from(t@, q@, i as int) =~= seq![]);
        assert(out@ =~= out@ + matches_from(t@, q@, i as int));
    }
    out
}

/// `path` matches the query `q`, case folded.
pub open spec fn is_hit(path: Seq<char>, q: Seq<char>) -> bool {
    matches_from(
        vstd::utf8::encode_utf8(lower_of(path)),
        vstd::utf8::encode_utf8(lower_of(q)),
        0,
    ).len() > 0
}

/// `hits` is the result list for query `q` over `files`: none for an empty
/// query; else matching files, each once, largest cumulative size first
/// (ties in file order), at most `MAX_RESULTS`, and all of them when fewer.
pub open spec fn hits_correct(files: Seq<(Seq<char>, u64, u64)>, q: Seq<char>, hits: Seq<int>) -> bool {
    if q.len() == 0 {
        hits.len() == 0
    } else {
        &&& hits.len() <= MAX_RESULTS
        &&& forall|i: int|
            0 <= i < hits.len() ==> 0 <= #[trigger] hits[i] < files.len() && is_hit(
                files[hits[i]].0,
                q,
            )
        &&& forall|i: int, j: int| 0 <= i < j < hits.len() ==> #[trigger] hits[i] != #[trigger] hits[j]
        &&& forall|i: int, j: int|
            0 <= i < j < hits.len() ==> {
                ||| files[#[trigger] hits[i]].1 > files[#[trigger] hits[j]].1
                ||| (files[hits[i]].1 == files[hits[j]].1 && hits[i] < hits[j])
            }
        &&& hits.len() < MAX_RESULTS ==> forall|f: int|
            0 <= f < files.len() && is_hit(#[trigger] files[f].0, q) ==> hits.contains(f)
    }
}

/// A file as the search sees it.
struct SearchEntry {
    path: String,
    path_lower: String,
    cumulative_size: u64,
    current_size: u64,
}

/// A hit: which entry, and where the query matched.
struct MatchedResult {
    index: usize,
    matches: Vec<(usize, usize)>,
}

/// A search hit with the byte ranges that matched, for highlighting.
pub struct SearchResult {
    pub path: String,
    pub cumulative_size: u64,
    pub current_size: u64,
    pub matches: Vec<(usize, usize)>,
}

fn copy_ranges(v: &Vec<(usize, usize)>) -> (r: Vec<(usize, usize)>)
    ensures
        r@ == v@,
{
    let mut r: Vec<(usize, usize)> = Vec::new();
    let mut i: usize = 0;
    while i < v.len()
        invariant
            0 <= i <= v@.len(),
            r@ == v@.subrange(0, i as int),
        decreases v@.len() - i,
    {
        r.push(v[i]);
        i = i + 1;
        assert(r@ =~= v@.subrange(0, i as int));
    }
    assert(r@ =~= v@);
    r
}

/// Search over every file path of a tree.
pub struct SearchViewModel {
    query: String,
    results: Vec<MatchedResult>,
    selected_index: usize,
    entries: Vec<SearchEntry>,
    total_cumulative: u64,
}

impl SearchViewModel {
    /// The files, as (path, cumulative, current, blob count).
    pub closed spec fn files(&self) -> Seq<(Seq<char>, u64, u64)> {
        self.entries@.map_values(|e: SearchEntry| (e.path@, e.cumulative_size, e.current_size))
    }

    pub closed spec fn query_text(&self) -> Seq<char> {
        self.query@
    }

    /// Indices into `files` of the current hits, in display order.
    pub closed spec fn hits(&self) -> Seq<int> {
        self.results@.map_values(|r: MatchedResult| r.index as int)
    }

    pub closed spec fn selection_index(&self) -> nat {
        self.selected_index as nat
    }

    pub closed spec fn total(&self) -> u64 {
        self.total_cumulative
    }

    #[verifier::type_invariant]
    spec fn well_formed(&self) -> bool {
        &&& forall|i: int|
            0 <= i < self.results@.len() ==> #[trigger] self.results@[i].index
                < self.entries@.len()
        &&& forall|i: int|
            0 <= i < self.entries@.len() ==> #[trigger] self.entries@[i].path_lower@ == lower_of(
                self.entries@[i].path@,
            )
    }

    /// A search over the files under `root`, with an empty query.
    pub fn new(root: &TreeNode) -> (r: SearchViewModel)
        ensures
            r.files() == child_rows(
                root.children@,
                root.children@.len() as int,
                Seq::empty(),
            ).map_values(|x: (Seq<char>, u64, u64, u64)| (x.0, x.1, x.2)),
            r.query_text() == Seq::<char>::empty(),
            r.hits().len() == 0,
            r.selection_index() == 0,
            r.total() == root.cumulative_size,
    {
        let rows = root.visit_leaves();
        let n = rows.len();
        let mut entries: Vec<SearchEntry> = Vec::new();
        let mut i: usize = 0;
        while i < n
            invariant
                n == rows@.len(),
                0 <= i <= n,
                entries@.len() == i,
                forall|k: int|
                    0 <= k < i ==> (#[trigger] entries@[k]).path@ == rows@[k].path@
                        && entries@[k].path_lower@ == lower_of(entries@[k].path@)
                        && entries@[k].cumulative_size == rows@[k].cumulative_size
                        && entries@[k].current_size == rows@[k].current_size,
            decreases n - i,
        {
            let row: &PathSizes = &rows[i];
            entries.push(
                SearchEntry {
                    path_lower: lowercase(row.path.as_str()),
                    path: row.path.clone(),
                    cumulative_size: row.cumulative_size,
                    current_size: row.current_size,
                },
            );
            i = i + 1;
        }
        let r = SearchViewModel {
            query: String::new(),
            results: Vec::new(),
            selected_index: 0,
            entries,
            total_cumulative: root.cumulative_size,
        };
        proof {
            assert(r.files() =~= rows@.map_values(|x: PathSizes| x@).map_values(
                |x: (Seq<char>, u64, u64, u64)| (x.0, x.1, x.2),
            ));
            assert(r.hits() =~= Seq::<int>::empty());
        }
        r
    }

    pub fn query(&self) -> (r: &str)
        ensures
            r@ == self.query_text(),
    {
        self.query.as_str()
    }

    /// The hits, best first.
    pub fn results(&self) -> (r: Vec<SearchResult>)
        ensures
            r@.len() == self.hits().len(),
            forall|i: int|
                0 <= i < r@.len() ==> (#[trigger] r@[i]).path@ == self.files()[self.hits()[i]].0
                    && r@[i].cumulative_size == self.files()[self.hits()[i]].1
                    && r@[i].current_size == self.files()[self.hits()[i]].2,
    {
        proof {
            use_type_invariant(self);
        }
        let mut out: Vec<SearchResult> = Vec::new();
        let mut i: usize = 0;
        while i < self.results.len()
            invariant
                self.well_formed(),
                0 <= i <= self.results@.len(),
                out@.len() == i,
                forall|k: int|
                    0 <= k < i ==> (#[trigger] out@[k]).path@ == self.files()[self.hits()[k]].0
                        && out@[k].cumulative_size == self.files()[self.hits()[k]].1
                        && out@[k].current_size == self.files()[self.hits()[k]].2,
            decreases self.results@.len() - i,
        {
            let hit = &self.results[i];
            let e = &self.entries[hit.index];
            out.push(
                SearchResult {
                    path: e.path.clone(),
                    cumulative_size: e.cumulative_size,
                    current_size: e.current_size,
                    matches: copy_ranges(&hit.matches),
                },
            );
            i = i + 1;
        }
        out
    }

    pub fn selected_index(&self) -> (r: usize)
        ensures
            r == self.selection_index(),
    {
        self.selected_index
    }

    pub fn total_cumulative(&self) -> (r: u64)
        ensures
            r == self.total(),
    {
        self.total_cumulative
    }

    fn update_results(&mut self)
        ensures
            final(self).files() == old(self).files(),
            final(self).query_text() == old(self).query_text(),
            final(self).total() == old(self).total(),
            final(self).selection_index() == 0,
            hits_correct(final(self).files(), final(self).query_text(), final(self).hits()),
    {
        proof {
            use_type_invariant(&*self);
        }
        if self.query.as_str().is_empty() {
            self.results = Vec::new();
            self.selected_index = 0;
            proof {
                assert(self.hits() =~= Seq::<int>::empty());
            }
            return;
        }
        let q = lowercase(self.query.as_str());
        let ghost files = self.files();
        let n = self.entries.len();
        let mut cand: Vec<MatchedResult> = Vec::new();
        let mut keys: Vec<u64> = Vec::new();
        let mut i: usize = 0;
        while i < n
            invariant
                self.well_formed(),
                files == self.files(),
                n == self.entries@.len(),
                q@ == lower_of(self.query@),
                0 <= i <= n,
                cand@.len() == keys@.len(),
                forall|k: int|
                    0 <= k < cand@.len() ==> (#[trigger] cand@[k]).index < i && is_hit(
                        files[cand@[k].index as int].0,
                        self.query@,
                    ) && keys@[k] == files[cand@[k].index as int].1,
                forall|a: int, b: int|
                    0 <= a < b < cand@.len() ==> (#[trigger] cand@[a]).index < (
                    #[trigger] cand@[b]).index,
                forall|f: int|
                    0 <= f < i && is_hit(#[trigger] files[f].0, self.query@) ==> exists|k: int|
                        0 <= k < cand@.len() && cand@[k].index == f,
            decreases n - i,
        {
            let e = &self.entries[i];
            let m = find_matches(e.path_lower.as_str(), q.as_str());
            assert(files[i as int].0 == e.path@);
            assert(self.entries@[i as int].path_lower@ == lower_of(self.entries@[i as int].path@));
            let ghost old_cand = cand@;
            if m.len() > 0 {
                keys.push(e.cumulative_size);
                cand.push(MatchedResult { index: i, matches: m });
                proof {
                    assert forall|f: int|
                        0 <= f < i + 1 && is_hit(#[trigger] files[f].0, self.query@) implies exists|k: int|
                        0 <= k < cand@.len() && cand@[k].index == f by {
                        if f == i {
                            assert(cand@[cand@.len() - 1].index == f);
                        } else {
                            let k = choose|k: int| 0 <= k < old_cand.len() && old_cand[k].index == f;
                            assert(cand@[k] == old_cand[k]);
                        }
                    }
                }
            }
            i = i + 1;
        }
        let order = order_by_size_desc(&keys);
        let c = cand.len();
        let take = if c < MAX_RESULTS {
            c
        } else {
            MAX_RESULTS
        };
        let mut results: Vec<MatchedResult> = Vec::new();
        let mut t: usize = 0;
        while t < take
            invariant
                take <= c,
                take <= MAX_RESULTS,
                c == cand@.len(),
                c == keys@.len(),
                is_permutation(indices(order@), c as int),
                0 <= t <= take,
                results@.len() == t,
                forall|u: int|
                    0 <= u < t ==> (#[trigger] results@[u]).index == cand@[order@[u] as int].index,
            decreases take - t,
        {
            assert(indices(order@)[t as int] == order@[t as int] as int);
            let pick = &cand[order[t]];
            results.push(MatchedResult { index: pick.index, matches: copy_ranges(&pick.matches) });
            t = t + 1;
        }
        proof {
            assert forall|u: int| 0 <= u < results@.len() implies #[trigger] results@[u].index
                < self.entries@.len() by {
                assert(indices(order@)[u] == order@[u] as int);
            }
        }
        self.results = results;
        self.selected_index = 0;
        proof {
            let hits = self.hits();
            assert(hits.len() == take);
            assert forall|u: int| 0 <= u < self.results@.len() implies #[trigger] self.results@[u].index
                < self.entries@.len() by {
                assert(indices(order@)[u] == order@[u] as int);
            }
            assert forall|u: int| 0 <= u < take implies #[trigger] hits[u] == cand@[order@[u] as int].index as int by {
                assert(results@[u].index == cand@[order@[u] as int].index);
            }
            assert forall|u: int| 0 <= u < hits.len() implies 0 <= #[trigger] hits[u] < files.len() && is_hit(
                files[hits[u]].0,
                self.query@,
            ) by {
                assert(indices(order@)[u] == order@[u] as int);
                assert(hits[u] == cand@[order@[u] as int].index as int);
            }
            assert forall|a: int, b: int| 0 <= a < b < hits.len() implies #[trigger] hits[a] != #[trigger] hits[b] by {
                assert(indices(order@)[a] == order@[a] as int);
                assert(indices(order@)[b] == order@[b] as int);
                assert(hits[a] == cand@[order@[a] as int].index as int);
                assert(hits[b] == cand@[order@[b] as int].index as int);
                if order@[a] < order@[b] {
                    assert(cand@[order@[a] as int].index < cand@[order@[b] as int].index);
                } else {
                    assert(cand@[order@[b] as int].index < cand@[order@[a] as int].index);
                }
            }
            assert forall|a: int, b: int| 0 <= a < b < hits.len() implies {
                ||| files[#[trigger] hits[a]].1 > files[#[trigger] hits[b]].1
                ||| (files[hits[a]].1 == files[hits[b]].1 && hits[a] < hits[b])
            } by {
                assert(indices(order@)[a] == order@[a] as int);
                assert(indices(order@)[b] == order@[b] as int);
                assert(hits[a] == cand@[order@[a] as int].index as int);
                assert(hits[b] == cand@[order@[b] as int].index as int);
                let ka = order@[a] as int;
                let kb = order@[b] as int;
                assert(keys@[ka] == files[cand@[ka].index as int].1);
                assert(keys@[kb] == files[cand@[kb].index as int].1);
                assert(keys@[ka] > keys@[kb] || (keys@[ka] == keys@[kb] && ka < kb));
                if ka < kb {
                    assert(cand@[ka].index < cand@[kb].index);
                }
            }
            if hits.len() < MAX_RESULTS {
                assert(take == c);
                assert forall|f: int| 0 <= f < files.len() && is_hit(#[trigger] files[f].0, self.query@) implies hits.contains(f) by {
                    let k = choose|k: int| 0 <= k < cand@.len() && cand@[k].index == f;
                    assert(lists(indices(order@), k));
                    let u = choose|u: int| 0 <= u < c && indices(order@)[u] == k;
                    assert(hits[u] == f);
                }
            }
        }
    }

    /// Appends a character to the query and searches again.
    pub fn add_char(&mut self, c: char)
        ensures
            final(self).files() == old(self).files(),
            final(self).query_text() == old(self).query_text().push(c),
            final(self).total() == old(self).total(),
            final(self).selection_index() == 0,
            hits_correct(final(self).files(), final(self).query_text(), final(self).hits()),
    {
        proof {
            use_type_invariant(&*self);
        }
        let mut q = self.query.clone();
        push_char(&mut q, c);
        self.query = q;
        self.update_results();
    }

    /// Removes the query's last character and searches again.
    pub fn backspace(&mut self)
        ensures
            final(self).files() == old(self).files(),
            final(self).total() == old(self).total(),
            old(self).query_text().len() > 0 ==> final(self).query_text() == old(
                self,
            ).query_text().drop_last(),
            old(self).query_text().len() == 0 ==> final(self).query_text() == old(self).query_text(),
            final(self).selection_index() == 0,
            hits_correct(final(self).files(), final(self).query_text(), final(self).hits()),
    {
        proof {
            use_type_invariant(&*self);
        }
        let mut q = self.query.clone();
        let _ = pop_char(&mut q);
        self.query = q;
        self.update_results();
    }

    /// Empties the query and the results.
    pub fn clear(&mut self)
        ensures
            final(self).files() == old(self).files(),
            final(self).total() == old(self).total(),
            final(self).query_text().len() == 0,
            final(self).hits().len() == 0,
            final(self).selection_index() == 0,
    {
        proof {
            use_type_invariant(&*self);
        }
        self.query = String::new();
        self.results = Vec::new();
        self.selected_index = 0;
        proof {
            assert(self.hits() =~= Seq::<int>::empty());
        }
    }

    /// Path of the selected hit, if a row is selected.
    pub fn selected_path(&self) -> (r: Option<&str>)
        ensures
            r is Some <==> self.selection_index() < self.hits().len(),
            r matches Some(p) ==> p@ == self.files()[self.hits()[self.selection_index() as int]].0,
    {
        proof {
            use_type_invariant(self);
        }
        if self.selected_index < self.results.len() {
            Some(self.entries[self.results[self.selected_index].index].path.as_str())
        } else {
            None
        }
    }
}

impl Selectable for SearchViewModel {
    fn len(&self) -> usize {
        self.results.len()
    }

    fn selected(&self) -> usize {
        self.selected_index
    }

    fn set_selected(&mut self, index: usize) {
        proof {
            use_type_invariant(&*self);
        }
        self.selected_index = index;
    }
}

} // verus!
