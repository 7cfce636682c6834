use vstd::prelude::*;
use vstd::hash_map::HashMapWithView;

verus! {

broadcast use vstd::std_specs::hash::group_hash_axioms;

/// Whether two byte strings are equal.
pub fn bytes_eq(a: &[u8], b: &[u8]) -> (r: bool)
    ensures
        r == (a@ == b@),
{
    if a.len() != b.len() {
        return false;
    }
    let n = a.len();
    let mut i: usize = 0;
    while i < n
        invariant
            n == a@.len(),
            n == b@.len(),
            0 <= i <= n,
            forall|k: int| 0 <= k < i ==> a@[k] == b@[k],
        decreases n - i,
    {
        if a[i] != b[i] {
            return false;
        }
        i = i + 1;
    }
    assert(a@ =~= b@);
    true
}

/// A copy of a byte slice.
pub fn to_vec(a: &[u8]) -> (r: Vec<u8>)
    ensures
        r@ == a@,
{
    let mut r: Vec<u8> = Vec::new();
    let mut i: usize = 0;
    while i < a.len()
        invariant
            0 <= i <= a@.len(),
            r@ == a@.subrange(0, i as int),
        decreases a@.len() - i,
    {
        r.push(a[i]);
        i = i + 1;
        assert(r@ =~= a@.subrange(0, i as int));
    }
    assert(r@ =~= a@);
    r
}

/// Hash of a byte string: `h * 31 + b` over its bytes, wrapping.
pub open spec fn byte_hash(s: Seq<u8>) -> u64
    decreases s.len(),
{
    if s.len() == 0 {
        0
    } else {
        byte_hash(s.drop_last()).wrapping_mul(31).wrapping_add(s.last() as u64)
    }
}

pub fn hash_bytes(s: &[u8]) -> (r: u64)
    ensures
        r == byte_hash(s@),
{
    let mut h: u64 = 0;
    let mut i: usize = 0;
    while i < s.len()
        invariant
            0 <= i <= s@.len(),
            h == byte_hash(s@.subrange(0, i as int)),
        decreases s@.len() - i,
    {
        proof {
            assert(s@.subrange(0, i + 1).drop_last() =~= s@.subrange(0, i as int));
        }
        h = h.wrapping_mul(31).wrapping_add(s[i] as u64);
        i = i + 1;
    }
    assert(s@.subrange(0, s@.len() as int) =~= s@);
    h
}

/// Value of the first entry among the first `n` of `b` whose key is `k`.
pub open spec fn bucket_find<V>(b: Seq<(Vec<u8>, V)>, k: Seq<u8>, n: int) -> Option<V>
    decreases n,
{
    if n <= 0 {
        None
    } else {
        match bucket_find(b, k, n - 1) {
            Some(v) => Some(v),
            None => if b[n - 1].0@ == k {
                Some(b[n - 1].1)
            } else {
                None
            },
        }
    }
}

proof fn lemma_bucket_prefix<V>(b: Seq<(Vec<u8>, V)>, c: Seq<(Vec<u8>, V)>, k: Seq<u8>, n: int)
    requires
        n <= b.len(),
        n <= c.len(),
        forall|i: int| 0 <= i < n ==> #[trigger] b[i] == c[i],
    ensures
        bucket_find(b, k, n) == bucket_find(c, k, n),
    decreases n,
{
    if n > 0 {
        lemma_bucket_prefix(b, c, k, n - 1);
    }
}

proof fn lemma_bucket_update<V>(b: Seq<(Vec<u8>, V)>, j: int, e: (Vec<u8>, V), k: Seq<u8>, n: int)
    requires
        0 <= j < b.len(),
        n <= b.len(),
        e.0@ == b[j].0@,
        bucket_find(b, e.0@, j) is None,
    ensures
        bucket_find(b.update(j, e), k, n) == if k == e.0@ && j < n {
            Some(e.1)
        } else {
            bucket_find(b, k, n)
        },
    decreases n,
{
    if n > 0 {
        lemma_bucket_update(b, j, e, k, n - 1);
        if n - 1 == j {
            lemma_bucket_prefix(b, b.update(j, e), k, j);
        }
    }
}

proof fn lemma_bucket_miss<V>(b: Seq<(Vec<u8>, V)>, k: Seq<u8>, n: int)
    requires
        0 <= n <= b.len(),
        forall|i: int| 0 <= i < n ==> #[trigger] b[i].0@ != k,
    ensures
        bucket_find(b, k, n) is None,
    decreases n,
{
    if n > 0 {
        lemma_bucket_miss(b, k, n - 1);
    }
}

/// A map from byte strings, hashed into buckets.
#[verifier::reject_recursive_types(V)]
pub struct ByteMap<V> {
    buckets: HashMapWithView<u64, Vec<(Vec<u8>, V)>>,
    count: usize,
}

impl<V: Copy> ByteMap<V> {
    /// The value stored for `k`.
    pub closed spec fn lookup(&self, k: Seq<u8>) -> Option<V> {
        if self.buckets@.contains_key(byte_hash(k)) {
            let b = self.buckets@[byte_hash(k)]@;
            bucket_find(b, k, b.len() as int)
        } else {
            None
        }
    }

    /// Number of keys added (saturating).
    pub closed spec fn size(&self) -> nat {
        self.count as nat
    }

    pub fn new() -> (r: ByteMap<V>)
        ensures
            forall|k: Seq<u8>| #[trigger] r.lookup(k) is None,
            r.size() == 0,
    {
        ByteMap { buckets: HashMapWithView::new(), count: 0 }
    }

    pub fn len(&self) -> (r: usize)
        ensures
            r == self.size(),
    {
        self.count
    }

    fn find_in(b: &Vec<(Vec<u8>, V)>, k: &[u8]) -> (r: Option<usize>)
        ensures
            r matches Some(j) ==> j < b@.len() && b@[j as int].0@ == k@ && bucket_find(
                b@,
                k@,
                j as int,
            ) is None,
            r is None ==> bucket_find(b@, k@, b@.len() as int) is None,
    {
        let n = b.len();
        let mut j: usize = 0;
        while j < n
            invariant
                n == b@.len(),
                0 <= j <= n,
                bucket_find(b@, k@, j as int) is None,
            decreases n - j,
        {
            if bytes_eq(b[j].0.as_slice(), k) {
                return Some(j);
            }
            j = j + 1;
        }
        None
    }

    pub fn get(&self, k: &[u8]) -> (r: Option<V>)
        ensures
            r == self.lookup(k@),
    {
        let h = hash_bytes(k);
        match self.buckets.get(&h) {
            None => None,
            Some(b) => match Self::find_in(b, k) {
                Some(j) => {
                    proof {
                        lemma_bucket_prefix(b@, b@, k@, j as int);
                        assert(bucket_find(b@, k@, j + 1) == Some(b@[j as int].1));
                        lemma_bucket_stable(b@, k@, j + 1, b@.len() as int);
                    }
                    Some(b[j].1)
                },
                None => None,
            },
        }
    }

    /// Sets the value of `k`, replacing any earlier one.
    pub fn insert(&mut self, k: &[u8], v: V)
        ensures
            forall|x: Seq<u8>| #[trigger] final(self).lookup(x) == if x == k@ {
                Some(v)
            } else {
                old(self).lookup(x)
            },
            final(self).size() == old(self).size() + if old(self).lookup(k@) is None
                && old(self).size() < usize::MAX {
                1int
            } else {
                0
            },
    {
        let h = hash_bytes(k);
        let ghost m0 = self.buckets@;
        let mut b = match self.buckets.remove(&h) {
            Some(b) => b,
            None => Vec::new(),
        };
        let ghost b0 = b@;
        proof {
            if !m0.contains_key(h) {
                assert(bucket_find(b0, k@, 0) is None);
            }
        }
        match Self::find_in(&b, k) {
            Some(j) => {
                let ghost e = (b@[j as int].0, v);
                b[j].1 = v;
                proof {
                    assert(b@ == b0.update(j as int, (b0[j as int].0, v)));
                    assert forall|x: Seq<u8>| byte_hash(x) == h implies #[trigger] bucket_find(
                        b@,
                        x,
                        b@.len() as int,
                    ) == if x == k@ {
                        Some(v)
                    } else {
                        bucket_find(b0, x, b0.len() as int)
                    } by {
                        lemma_bucket_update(b0, j as int, (b0[j as int].0, v), x, b0.len() as int);
                    }
                    lemma_bucket_prefix(b0, b0, k@, j as int);
                    assert(bucket_find(b0, k@, j + 1) is Some);
                    lemma_bucket_stable(b0, k@, j + 1, b0.len() as int);
                }
            },
            None => {
                b.push((to_vec(k), v));
                if self.count < usize::MAX {
                    self.count = self.count + 1;
                }
                proof {
                    assert forall|x: Seq<u8>| byte_hash(x) == h implies #[trigger] bucket_find(
                        b@,
                        x,
                        b@.len() as int,
                    ) == if x == k@ {
                        Some(v)
                    } else {
                        bucket_find(b0, x, b0.len() as int)
                    } by {
                        lemma_bucket_prefix(b0, b@, x, b0.len() as int);
                    }
                }
            },
        }
        self.buckets.insert(h, b);
        proof {
            assert forall|x: Seq<u8>| #[trigger] self.lookup(x) == if x == k@ {
                Some(v)
            } else {
                old(self).lookup(x)
            } by {
                if byte_hash(x) != h {
                    assert(self.buckets@[byte_hash(x)] == m0[byte_hash(x)] || !m0.contains_key(
                        byte_hash(x),
                    ));
                }
            }
        }
    }
}

proof fn lemma_bucket_stable<V>(b: Seq<(Vec<u8>, V)>, k: Seq<u8>, j: int, n: int)
    requires
        bucket_find(b, k, j) is Some,
        j <= n,
    ensures
        bucket_find(b, k, n) == bucket_find(b, k, j),
    decreases n - j,
{
    if j < n {
        lemma_bucket_stable(b, k, j, n - 1);
    }
}

/// A set of byte strings.
pub struct ByteSet {
    map: ByteMap<()>,
}

impl ByteSet {
    pub closed spec fn view_set(&self) -> Set<Seq<u8>> {
        Set::new(|k: Seq<u8>| self.map.lookup(k) is Some)
    }

    /// Number of elements (saturating).
    pub closed spec fn size(&self) -> nat {
        self.map.size()
    }

    pub fn new() -> (r: ByteSet)
        ensures
            r.view_set() == Set::<Seq<u8>>::empty(),
            r.size() == 0,
    {
        let r = ByteSet { map: ByteMap::new() };
        proof {
            assert(r.view_set() =~= Set::<Seq<u8>>::empty());
        }
        r
    }

    /// Whether `k` is in the set.
    pub fn contains(&self, k: &[u8]) -> (r: bool)
        ensures
            r == self.view_set().contains(k@),
    {
        self.map.get(k).is_some()
    }

    /// Adds `k`; true when it was not there yet.
    pub fn insert(&mut self, k: &[u8]) -> (r: bool)
        ensures
            r == !old(self).view_set().contains(k@),
            final(self).view_set() == old(self).view_set().insert(k@),
            final(self).size() == old(self).size() + if r && old(self).size() < usize::MAX {
                1int
            } else {
                0
            },
    {
        if self.contains(k) {
            proof {
                assert(self.view_set().insert(k@) =~= self.view_set());
            }
            return false;
        }
        self.map.insert(k, ());
        proof {
            assert(self.view_set() =~= old(self).view_set().insert(k@));
        }
        true
    }

    pub fn len(&self) -> (r: usize)
        ensures
            r == self.size(),
    {
        self.map.len()
    }
}

} // verus!
