use vstd::prelude::*;

verus! {

/// `p` lists every index below `n` exactly once.
pub open spec fn is_permutation(p: Seq<int>, n: int) -> bool {
    &&& p.len() == n
    &&& forall|i: int| 0 <= i < n ==> 0 <= #[trigger] p[i] < n
    &&& forall|i: int, j: int| 0 <= i < n && 0 <= j < n && i != j ==> #[trigger] p[i] != #[trigger] p[j]
    &&& forall|k: int| 0 <= k < n ==> #[trigger] lists(p, k)
}

/// Some entry of `p` is `k`.
pub open spec fn lists(p: Seq<int>, k: int) -> bool {
    exists|i: int| 0 <= i < p.len() && p[i] == k
}

/// Lexicographic order on pairs.
pub open spec fn pair_le(a: (u64, usize), b: (u64, usize)) -> bool {
    a.0 < b.0 || (a.0 == b.0 && a.1 <= b.1)
}

/// Relies on slice::sort_unstable: the elements are reordered into
/// ascending order; tuples compare lexicographically.
#[verifier::external_body]
fn sort_pairs(v: &mut Vec<(u64, usize)>)
    ensures
        final(v)@.len() == old(v)@.len(),
        exists|p: Seq<int>|
            is_permutation(p, old(v)@.len() as int) && forall|i: int|
                0 <= i < old(v)@.len() ==> #[trigger] final(v)@[i] == old(v)@[p[i]],
        forall|i: int, j: int|
            0 <= i < j < final(v)@.len() ==> pair_le(#[trigger] final(v)@[i], #[trigger] final(v)@[j]),
{
    v.sort_unstable();
}

pub open spec fn indices(r: Seq<usize>) -> Seq<int> {
    r.map_values(|x: usize| x as int)
}

/// Indices of `keys`, largest key first; equal keys keep their order.
pub fn order_by_size_desc(keys: &Vec<u64>) -> (r: Vec<usize>)
    ensures
        is_permutation(indices(r@), keys@.len() as int),
        forall|i: int, j: int|
            0 <= i < j < r@.len() ==> {
                ||| keys@[r@[i] as int] > keys@[r@[j] as int]
                ||| (keys@[r@[i] as int] == keys@[r@[j] as int] && r@[i] < r@[j])
            },
{
    let n = keys.len();
    let mut pairs: Vec<(u64, usize)> = Vec::new();
    let mut i: usize = 0;
    while i < n
        invariant
            n == keys@.len(),
            0 <= i <= n,
            pairs@.len() == i,
            forall|k: int| 0 <= k < i ==> #[trigger] pairs@[k] == ((u64::MAX - keys@[k]) as u64, k as usize),
        decreases n - i,
    {
        pairs.push((u64::MAX - keys[i], i));
        i = i + 1;
    }
    let ghost before = pairs@;
    sort_pairs(&mut pairs);
    let ghost p = choose|p: Seq<int>|
        is_permutation(p, before.len() as int) && forall|i: int|
            0 <= i < before.len() ==> #[trigger] pairs@[i] == before[p[i]];
    let mut r: Vec<usize> = Vec::new();
    let mut k: usize = 0;
    while k < n
        invariant
            n == keys@.len(),
            n == pairs@.len(),
            n == before.len(),
            0 <= k <= n,
            r@.len() == k,
            is_permutation(p, n as int),
            forall|t: int| 0 <= t < n ==> #[trigger] pairs@[t] == before[p[t]],
            forall|t: int| 0 <= t < n ==> #[trigger] before[t] == ((u64::MAX - keys@[t]) as u64, t as usize),
            forall|t: int| 0 <= t < k ==> #[trigger] r@[t] as int == p[t],
        decreases n - k,
    {
        r.push(pairs[k].1);
        k = k + 1;
    }
    proof {
        assert(indices(r@) =~= p);
        assert forall|i: int, j: int| 0 <= i < j < r@.len() implies {
            ||| keys@[r@[i] as int] > keys@[r@[j] as int]
            ||| (keys@[r@[i] as int] == keys@[r@[j] as int] && r@[i] < r@[j])
        } by {
            assert(pair_le(pairs@[i], pairs@[j]));
            assert(pairs@[i] == before[p[i]]);
            assert(pairs@[j] == before[p[j]]);
        }
    }
    r
}

} // verus!
