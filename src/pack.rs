use vstd::prelude::*;
use crate::bytes::ByteMap;
use crate::order::{indices, is_permutation, order_by_size_desc};
use crate::scanner::Oid;

verus! {

/// Compressed size of the object at rank `i` of `offsets` sorted: up to the
/// next offset, or to the end of the pack data for the last one.
pub open spec fn size_at_rank(sorted: Seq<u64>, i: int, pack_end: u64) -> int {
    if i + 1 < sorted.len() {
        sorted[i + 1] - sorted[i]
    } else {
        pack_end - sorted[i]
    }
}

/// Compressed sizes of the objects of one pack from their offsets: sorted
/// by offset, each object runs to the next one, the last to `pack_end`
/// (the pack's length without its trailing checksum).
pub fn compressed_sizes(entries: &Vec<(Oid, u64)>, pack_end: u64) -> (r: Vec<(Oid, u64)>)
    requires
        forall|i: int| 0 <= i < entries@.len() ==> #[trigger] entries@[i].1 <= pack_end,
    ensures
        r@.len() == entries@.len(),
        exists|p: Seq<int>|
            {
                &&& is_permutation(p, entries@.len() as int)
                &&& forall|i: int, j: int|
                    0 <= i < j < r@.len() ==> entries@[#[trigger] p[i]].1 <= entries@[#[trigger] p[j]].1
                &&& forall|i: int|
                    0 <= i < r@.len() ==> (#[trigger] r@[i]).0 == entries@[p[i]].0 && r@[i].1
                        == if i + 1 < r@.len() {
                        entries@[p[i + 1]].1 - entries@[p[i]].1
                    } else {
                        pack_end - entries@[p[i]].1
                    }
            },
{
    let n = entries.len();
    let mut keys: Vec<u64> = Vec::new();
    let mut i: usize = 0;
    while i < n
        invariant
            n == entries@.len(),
            0 <= i <= n,
            keys@.len() == i,
            forall|k: int| 0 <= k < i ==> #[trigger] keys@[k] == u64::MAX - entries@[k].1,
        decreases n - i,
    {
        keys.push(u64::MAX - entries[i].1);
        i = i + 1;
    }
    // Descending `MAX - offset` is ascending offset.
    let order = order_by_size_desc(&keys);
    let ghost p = indices(order@);
    let mut r: Vec<(Oid, u64)> = Vec::new();
    let mut t: usize = 0;
    while t < n
        invariant
            n == entries@.len(),
            n == keys@.len(),
            forall|k: int| 0 <= k < n ==> #[trigger] keys@[k] == u64::MAX - entries@[k].1,
            forall|i: int| 0 <= i < n ==> #[trigger] entries@[i].1 <= pack_end,
            p == indices(order@),
            is_permutation(p, n as int),
            forall|a: int, b: int|
                0 <= a < b < order@.len() ==> {
                    ||| keys@[order@[a] as int] > keys@[order@[b] as int]
                    ||| (keys@[order@[a] as int] == keys@[order@[b] as int] && order@[a] < order@[b])
                },
            0 <= t <= n,
            r@.len() == t,
            forall|i: int|
                0 <= i < t ==> (#[trigger] r@[i]).0 == entries@[p[i]].0 && r@[i].1 == if i + 1 < n {
                    entries@[p[i + 1]].1 - entries@[p[i]].1
                } else {
                    pack_end - entries@[p[i]].1
                },
        decreases n - t,
    {
        assert(p[t as int] == order@[t as int] as int);
        let here = entries[order[t]].1;
        let size = if t + 1 < n {
            assert(p[t + 1] == order@[t + 1] as int);
            assert(keys@[order@[t as int] as int] >= keys@[order@[t + 1] as int]);
            entries[order[t + 1]].1 - here
        } else {
            pack_end - here
        };
        r.push((entries[order[t]].0, size));
        t = t + 1;
    }
    proof {
        assert forall|i: int, j: int| 0 <= i < j < r@.len() implies entries@[#[trigger] p[i]].1
            <= entries@[#[trigger] p[j]].1 by {
            assert(p[i] == order@[i] as int);
            assert(p[j] == order@[j] as int);
            assert(keys@[order@[i] as int] >= keys@[order@[j] as int]);
        }
    }
    r
}

/// Compressed size of every packed object, by object id.
pub struct PackSizeIndex {
    sizes: ByteMap<u64>,
}

impl PackSizeIndex {
    /// The size known for an object id.
    pub closed spec fn size_for(&self, oid: Seq<u8>) -> Option<u64> {
        self.sizes.lookup(oid)
    }

    pub closed spec fn count(&self) -> nat {
        self.sizes.size()
    }

    pub fn new() -> (r: PackSizeIndex)
        ensures
            forall|k: Seq<u8>| #[trigger] r.size_for(k) is None,
            r.count() == 0,
    {
        PackSizeIndex { sizes: ByteMap::new() }
    }

    /// Adds the sizes of one pack; an id already known takes the new size.
    pub fn add_pack(&mut self, sizes: &Vec<(Oid, u64)>)
        ensures
            forall|k: Seq<u8>|
                #[trigger] final(self).size_for(k) == match last_size_for(sizes@, k, sizes@.len() as int) {
                    Some(s) => Some(s),
                    None => old(self).size_for(k),
                },
    {
        let n = sizes.len();
        let mut i: usize = 0;
        while i < n
            invariant
                n == sizes@.len(),
                0 <= i <= n,
                forall|k: Seq<u8>|
                    #[trigger] self.size_for(k) == match last_size_for(sizes@, k, i as int) {
                        Some(s) => Some(s),
                        None => old(self).size_for(k),
                    },
            decreases n - i,
        {
            let (oid, size) = sizes[i];
            let ghost before = *self;
            self.sizes.insert(&oid, size);
            proof {
                assert forall|k: Seq<u8>| #[trigger] self.size_for(k) == match last_size_for(
                    sizes@,
                    k,
                    i + 1,
                ) {
                    Some(s) => Some(s),
                    None => old(self).size_for(k),
                } by {
                    assert(sizes@[i as int].0@ == oid@);
                    assert(before.size_for(k) == match last_size_for(sizes@, k, i as int) {
                        Some(s) => Some(s),
                        None => old(self).size_for(k),
                    });
                }
            }
            i = i + 1;
        }
    }

    /// The compressed size of a packed object; `None` when no pack holds it.
    pub fn size_of(&self, oid: &Oid) -> (r: Option<u64>)
        ensures
            r == self.size_for(oid@),
    {
        self.sizes.get(oid)
    }

    /// Number of objects known.
    pub fn len(&self) -> (r: usize)
        ensures
            r == self.count(),
    {
        self.sizes.len()
    }

    pub fn is_empty(&self) -> (r: bool)
        ensures
            r == (self.count() == 0),
    {
        self.sizes.len() == 0
    }
}

/// Size of the last of the first `n` entries with id `k`.
pub open spec fn last_size_for(s: Seq<(Oid, u64)>, k: Seq<u8>, n: int) -> Option<u64>
    decreases n,
{
    if n <= 0 {
        None
    } else if s[n - 1].0@ == k {
        Some(s[n - 1].1)
    } else {
        last_size_for(s, k, n - 1)
    }
}

} // verus!
