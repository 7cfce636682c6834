use vstd::prelude::*;
use vstd::hash_map::HashMapWithView;
use crate::bytes::{bytes_eq, to_vec, ByteMap, ByteSet};

verus! {

broadcast use vstd::std_specs::hash::group_hash_axioms;

/// A repository object id: 20 bytes.
pub type Oid = [u8; 20];

/// Dense index of a path in a `PathInterner`.
#[derive(Debug, Clone, Copy, PartialEq, Eq, Structural, Hash)]
pub struct PathId(pub u32);

impl PathId {
    pub fn as_u32(self) -> (r: u32)
        ensures
            r == self.0,
    {
        self.0
    }
}

/// No byte string occurs twice.
pub open spec fn all_distinct(s: Seq<Seq<u8>>) -> bool {
    forall|i: int, j: int| 0 <= i < j < s.len() ==> #[trigger] s[i] != #[trigger] s[j]
}

/// Append-only table from path bytes to dense ids.
pub struct PathInterner {
    paths: Vec<Vec<u8>>,
    index: ByteMap<u32>,
}

impl PathInterner {
    /// The interned paths; a path's id is its position.
    pub closed spec fn table(&self) -> Seq<Seq<u8>> {
        self.paths@.map_values(|p: Vec<u8>| p@)
    }

    /// The index finds every path at its position, and nothing else.
    pub closed spec fn wf(&self) -> bool {
        &&& self.paths@.len() <= u32::MAX
        &&& forall|k: Seq<u8>|
            #[trigger] self.index.lookup(k) matches Some(i) ==> i < self.paths@.len()
                && self.table()[i as int] == k
        &&& forall|i: int|
            0 <= i < self.paths@.len() ==> self.index.lookup(#[trigger] self.table()[i]) == Some(
                i as u32,
            )
    }

    /// Each path has one id.
    pub proof fn lemma_distinct(&self)
        requires
            self.wf(),
        ensures
            all_distinct(self.table()),
    {
        assert forall|i: int, j: int| 0 <= i < j < self.table().len() implies #[trigger] self.table()[i]
            != #[trigger] self.table()[j] by {
            assert(self.index.lookup(self.table()[i]) == Some(i as u32));
            assert(self.index.lookup(self.table()[j]) == Some(j as u32));
        }
    }

    pub fn new() -> (r: PathInterner)
        ensures
            r.wf(),
            r.table() == Seq::<Seq<u8>>::empty(),
    {
        let r = PathInterner { paths: Vec::new(), index: ByteMap::new() };
        proof {
            assert(r.table() =~= Seq::<Seq<u8>>::empty());
        }
        r
    }

    /// The id of `bytes`: the existing one, or the next free one.
    pub fn intern(&mut self, bytes: &[u8]) -> (r: PathId)
        requires
            old(self).wf(),
            old(self).table().len() < u32::MAX,
        ensures
            final(self).wf(),
            old(self).table().contains(bytes@) ==> final(self).table() == old(self).table(),
            !old(self).table().contains(bytes@) ==> final(self).table() == old(self).table().push(
                bytes@,
            ),
            r.0 < final(self).table().len(),
            final(self).table()[r.0 as int] == bytes@,
    {
        match self.index.get(bytes) {
            Some(id) => {
                proof {
                    assert(self.table().contains(bytes@)) by {
                        assert(self.table()[id as int] == bytes@);
                    }
                }
                PathId(id)
            },
            None => {
                proof {
                    if self.table().contains(bytes@) {
                        let t = choose|t: int| 0 <= t < self.table().len() && self.table()[t] == bytes@;
                        assert(self.index.lookup(self.table()[t]) == Some(t as u32));
                    }
                }
                let n = self.paths.len();
                let ghost before = self.table();
                self.paths.push(to_vec(bytes));
                self.index.insert(bytes, n as u32);
                proof {
                    assert(self.table() =~= before.push(bytes@));
                    assert forall|i: int| 0 <= i < self.paths@.len() implies self.index.lookup(
                        #[trigger] self.table()[i],
                    ) == Some(i as u32) by {
                        if i < n {
                            assert(self.table()[i] == before[i]);
                            assert(before[i] != bytes@) by {
                                assert(!before.contains(bytes@) || before.contains(bytes@));
                                if before[i] == bytes@ {
                                    assert(before.contains(bytes@));
                                }
                            }
                        }
                    }
                }
                PathId(n as u32)
            },
        }
    }

    /// The bytes of an interned path.
    pub fn get_bytes(&self, id: PathId) -> (r: &[u8])
        requires
            id.0 < self.table().len(),
        ensures
            r@ == self.table()[id.0 as int],
    {
        self.paths[id.0 as usize].as_slice()
    }

    /// The path as text, invalid UTF-8 replaced.
    pub fn get_str(&self, id: PathId) -> (r: String)
        requires
            id.0 < self.table().len(),
        ensures
            r@ == lossy_utf8_of(self.table()[id.0 as int]),
    {
        lossy_utf8(self.paths[id.0 as usize].as_slice())
    }

    pub fn len(&self) -> (r: usize)
        ensures
            r == self.table().len(),
    {
        self.paths.len()
    }

    pub fn is_empty(&self) -> (r: bool)
        ensures
            r == (self.table().len() == 0),
    {
        self.paths.len() == 0
    }
}

/// What `String::from_utf8_lossy` makes of bytes.
pub uninterp spec fn lossy_utf8_of(b: Seq<u8>) -> Seq<char>;

/// Relies on String::from_utf8_lossy: the text depends on the bytes alone.
#[verifier::external_body]
fn lossy_utf8(b: &[u8]) -> (r: String)
    ensures
        r@ == lossy_utf8_of(b@),
{
    String::from_utf8_lossy(b).into_owned()
}

/// A commit being scanned.
pub struct CommitInfo {
    pub oid: Oid,
    pub tree: Oid,
    pub author: String,
    pub timestamp: i64,
}

/// Bytes that a blob adds at a path: to history, and to HEAD.
pub struct BlobRow {
    pub oid: Oid,
    pub path_id: PathId,
    pub cumulative_size: i64,
    pub current_size: i64,
}

/// The first commit (in scan order) that brought a blob in.
pub struct BlobMetaRow {
    pub oid: Oid,
    pub size: i64,
    pub path_id: PathId,
    pub author: String,
    pub timestamp: i64,
}

impl View for BlobRow {
    type V = (Seq<u8>, u32, i64, i64);

    open spec fn view(&self) -> Self::V {
        (self.oid@, self.path_id.0, self.cumulative_size, self.current_size)
    }
}

impl View for BlobMetaRow {
    type V = (Seq<u8>, i64, u32, Seq<char>, i64);

    open spec fn view(&self) -> Self::V {
        (self.oid@, self.size, self.path_id.0, self.author@, self.timestamp)
    }
}

/// The rows of one scan, before they are stored.
pub struct ScanDelta {
    pub blobs: Vec<BlobRow>,
    pub metadata: Vec<BlobMetaRow>,
}

impl ScanDelta {
    pub fn new() -> (r: ScanDelta)
        ensures
            r.blobs@.len() == 0,
            r.metadata@.len() == 0,
    {
        ScanDelta { blobs: Vec::new(), metadata: Vec::new() }
    }

    pub fn is_empty(&self) -> (r: bool)
        ensures
            r == (self.blobs@.len() == 0 && self.metadata@.len() == 0),
    {
        self.blobs.len() == 0 && self.metadata.len() == 0
    }
}

pub open spec fn blob_views(s: Seq<BlobRow>) -> Seq<(Seq<u8>, u32, i64, i64)> {
    s.map_values(|r: BlobRow| r@)
}

pub open spec fn meta_views(s: Seq<BlobMetaRow>) -> Seq<(Seq<u8>, i64, u32, Seq<char>, i64)> {
    s.map_values(|r: BlobMetaRow| r@)
}

/// The rows that one sighting of a blob at a path emits: a new blob gives
/// its full size and its metadata; a known one only what HEAD still holds
/// of it there, if anything.
pub open spec fn emitted_blob_rows(
    oid: Seq<u8>,
    path_id: u32,
    size: i64,
    current_size: i64,
    is_new_blob: bool,
) -> Seq<(Seq<u8>, u32, i64, i64)> {
    if is_new_blob {
        seq![(oid, path_id, size, current_size)]
    } else if current_size > 0 {
        seq![(oid, path_id, 0i64, current_size)]
    } else {
        seq![]
    }
}

pub open spec fn emitted_meta_rows(
    oid: Seq<u8>,
    path_id: u32,
    size: i64,
    author: Seq<char>,
    timestamp: i64,
    is_new_blob: bool,
) -> Seq<(Seq<u8>, i64, u32, Seq<char>, i64)> {
    if is_new_blob {
        seq![(oid, size, path_id, author, timestamp)]
    } else {
        seq![]
    }
}

/// Collects the rows of a scan.
pub struct DeltaBuilder {
    blobs: Vec<BlobRow>,
    metadata: Vec<BlobMetaRow>,
}

impl DeltaBuilder {
    pub closed spec fn blob_rows(&self) -> Seq<(Seq<u8>, u32, i64, i64)> {
        blob_views(self.blobs@)
    }

    pub closed spec fn meta_rows(&self) -> Seq<(Seq<u8>, i64, u32, Seq<char>, i64)> {
        meta_views(self.metadata@)
    }

    pub fn new() -> (r: DeltaBuilder)
        ensures
            r.blob_rows().len() == 0,
            r.meta_rows().len() == 0,
    {
        DeltaBuilder { blobs: Vec::new(), metadata: Vec::new() }
    }

    /// Emits the rows for one sighting of a blob at a path.
    pub fn record_blob(
        &mut self,
        oid: Oid,
        path_id: PathId,
        cumulative_size: i64,
        current_size: i64,
        commit: &CommitInfo,
        is_new_blob: bool,
    )
        ensures
            final(self).blob_rows() == old(self).blob_rows() + emitted_blob_rows(
                oid@,
                path_id.0,
                cumulative_size,
                current_size,
                is_new_blob,
            ),
            final(self).meta_rows() == old(self).meta_rows() + emitted_meta_rows(
                oid@,
                path_id.0,
                cumulative_size,
                commit.author@,
                commit.timestamp,
                is_new_blob,
            ),
    {
        let ghost b0 = self.blobs@;
        let ghost m0 = self.metadata@;
        if is_new_blob {
            self.blobs.push(BlobRow { oid, path_id, cumulative_size, current_size });
            self.metadata.push(
                BlobMetaRow {
                    oid,
                    size: cumulative_size,
                    path_id,
                    author: commit.author.clone(),
                    timestamp: commit.timestamp,
                },
            );
        } else if current_size > 0 {
            self.blobs.push(BlobRow { oid, path_id, cumulative_size: 0, current_size });
        }
        proof {
            assert(blob_views(self.blobs@) =~= blob_views(b0) + emitted_blob_rows(
                oid@,
                path_id.0,
                cumulative_size,
                current_size,
                is_new_blob,
            ));
            assert(meta_views(self.metadata@) =~= meta_views(m0) + emitted_meta_rows(
                oid@,
                path_id.0,
                cumulative_size,
                commit.author@,
                commit.timestamp,
                is_new_blob,
            ));
        }
    }

    pub fn build(self) -> (r: ScanDelta)
        ensures
            blob_views(r.blobs@) == self.blob_rows(),
            meta_views(r.metadata@) == self.meta_rows(),
    {
        ScanDelta { blobs: self.blobs, metadata: self.metadata }
    }

    pub fn blob_count(&self) -> (r: usize)
        ensures
            r == self.blob_rows().len(),
    {
        self.blobs.len()
    }
}

/// Reusable decode buffers.
pub struct BufferPool {
    buffers: Vec<Vec<u8>>,
}

impl BufferPool {
    pub closed spec fn free(&self) -> nat {
        self.buffers@.len()
    }

    pub fn new() -> (r: BufferPool)
        ensures
            r.free() == 0,
    {
        BufferPool { buffers: Vec::new() }
    }

    /// An empty buffer: a returned one when there is one, else a new one.
    pub fn take(&mut self) -> (r: Vec<u8>)
        ensures
            r@.len() == 0,
            final(self).free() == if old(self).free() > 0 {
                old(self).free() - 1
            } else {
                0
            },
    {
        match self.buffers.pop() {
            Some(b) => {
                let mut b = b;
                b.clear();
                b
            },
            None => Vec::with_capacity(8192),
        }
    }

    /// Returns a buffer, emptied, for reuse.
    pub fn give(&mut self, buf: Vec<u8>)
        ensures
            final(self).free() == old(self).free() + 1,
    {
        let mut buf = buf;
        buf.clear();
        self.buffers.push(buf);
    }
}

/// What HEAD holds: for each path id, the blob there and its compressed
/// size.
pub struct HeadSnapshot {
    pub head_oid_hex: String,
    pub blobs_by_path: HashMapWithView<u32, (Oid, i64)>,
}

impl HeadSnapshot {
    /// No blobs yet.
    pub fn new(head_oid_hex: String) -> (r: HeadSnapshot)
        ensures
            r.head_oid_hex@ == head_oid_hex@,
            r.blobs_by_path@ == Map::<u32, (Oid, i64)>::empty(),
    {
        HeadSnapshot { head_oid_hex, blobs_by_path: HashMapWithView::new() }
    }

    /// Records the blob at a path of HEAD.
    pub fn insert(&mut self, path_id: PathId, oid: Oid, size: i64)
        ensures
            final(self).blobs_by_path@ == old(self).blobs_by_path@.insert(path_id.0, (oid, size)),
            final(self).head_oid_hex@ == old(self).head_oid_hex@,
    {
        self.blobs_by_path.insert(path_id.0, (oid, size));
    }
}

/// Bytes of `oid` that HEAD still holds at `path_id`: its size where HEAD
/// has that very blob there, else 0.
pub open spec fn current_size_in(head: Map<u32, (Oid, i64)>, path_id: u32, oid: Oid) -> i64 {
    if head.contains_key(path_id) && head[path_id].0@ == oid@ {
        head[path_id].1
    } else {
        0
    }
}

/// Size at HEAD of `oid` at `path_id`.
pub fn current_size_of(head: &HeadSnapshot, path_id: PathId, oid: &Oid) -> (r: i64)
    ensures
        r == current_size_in(head.blobs_by_path@, path_id.0, *oid),
{
    match head.blobs_by_path.get(&path_id.0) {
        Some(entry) => if bytes_eq(&entry.0, oid) {
            entry.1
        } else {
            0
        },
        None => 0,
    }
}

/// Little-endian bytes of `x`.
pub open spec fn le_u32(x: u32) -> Seq<u8> {
    seq![
        (x % 256) as u8,
        ((x / 256) % 256) as u8,
        ((x / 65536) % 256) as u8,
        (x / 16777216) as u8,
    ]
}

/// Dedup key of a tree expanded at a path.
pub open spec fn tree_key(oid: Seq<u8>, path_id: u32) -> Seq<u8> {
    oid + le_u32(path_id)
}

/// Dedup key of a blob counted at a path.
pub open spec fn path_blob_key(path_id: u32, oid: Seq<u8>) -> Seq<u8> {
    le_u32(path_id) + oid
}

fn push_le_u32(v: &mut Vec<u8>, x: u32)
    ensures
        final(v)@ == old(v)@ + le_u32(x),
{
    v.push((x % 256) as u8);
    v.push(((x / 256) % 256) as u8);
    v.push(((x / 65536) % 256) as u8);
    v.push((x / 16777216) as u8);
    assert(v@ =~= old(v)@ + le_u32(x));
}

fn push_bytes(v: &mut Vec<u8>, b: &[u8])
    ensures
        final(v)@ == old(v)@ + b@,
{
    let mut i: usize = 0;
    while i < b.len()
        invariant
            0 <= i <= b@.len(),
            v@ == old(v)@ + b@.subrange(0, i as int),
        decreases b@.len() - i,
    {
        v.push(b[i]);
        i = i + 1;
        assert(v@ =~= old(v)@ + b@.subrange(0, i as int));
    }
    assert(b@.subrange(0, b@.len() as int) =~= b@);
}

/// The state of one scan: interned paths, what was seen, and the rows so
/// far. The walk over trees is driven from outside: it asks `enter_tree`
/// before expanding a tree and hands every blob to `handle_blob`.
pub struct TreeScanCtx {
    interner: PathInterner,
    buf_pool: BufferPool,
    seen_trees: ByteSet,
    seen_blobs: ByteSet,
    seen_path_blobs: ByteSet,
    out: DeltaBuilder,
}

impl TreeScanCtx {
    pub closed spec fn paths(&self) -> Seq<Seq<u8>> {
        self.interner.table()
    }

    pub closed spec fn wf(&self) -> bool {
        self.interner.wf()
    }

    pub closed spec fn trees_seen(&self) -> Set<Seq<u8>> {
        self.seen_trees.view_set()
    }

    /// Number of (tree, path) pairs expanded.
    pub closed spec fn trees_count(&self) -> nat {
        self.seen_trees.size()
    }

    pub closed spec fn blobs_seen(&self) -> Set<Seq<u8>> {
        self.seen_blobs.view_set()
    }

    pub closed spec fn path_blobs_seen(&self) -> Set<Seq<u8>> {
        self.seen_path_blobs.view_set()
    }

    pub closed spec fn blob_rows(&self) -> Seq<(Seq<u8>, u32, i64, i64)> {
        self.out.blob_rows()
    }

    pub closed spec fn meta_rows(&self) -> Seq<(Seq<u8>, i64, u32, Seq<char>, i64)> {
        self.out.meta_rows()
    }

    /// A fresh scan; `initial_seen_blobs` holds the blobs of earlier scans.
    pub fn new(interner: PathInterner, initial_seen_blobs: ByteSet) -> (r: TreeScanCtx)
        requires
            interner.wf(),
        ensures
            r.wf(),
            r.paths() == interner.table(),
            r.blobs_seen() == initial_seen_blobs.view_set(),
            r.trees_seen() == Set::<Seq<u8>>::empty(),
            r.path_blobs_seen() == Set::<Seq<u8>>::empty(),
            r.blob_rows().len() == 0,
            r.meta_rows().len() == 0,
    {
        TreeScanCtx {
            interner,
            buf_pool: BufferPool::new(),
            seen_trees: ByteSet::new(),
            seen_blobs: initial_seen_blobs,
            seen_path_blobs: ByteSet::new(),
            out: DeltaBuilder::new(),
        }
    }

    /// Whether the tree at this path is new to this scan, and so to be
    /// expanded; it counts as seen from now on.
    pub fn enter_tree(&mut self, tree_oid: &Oid, path: &[u8]) -> (r: bool)
        requires
            old(self).wf(),
            old(self).paths().len() < u32::MAX,
        ensures
            final(self).wf(),
            final(self).paths() == old(self).paths() || final(self).paths() == old(self).paths().push(path@),
            final(self).paths().contains(path@),
            forall|i: int| 0 <= i < final(self).paths().len() && final(self).paths()[i] == path@
                ==> {
                &&& r == !old(self).trees_seen().contains(tree_key(tree_oid@, i as u32))
                &&& final(self).trees_seen() == old(self).trees_seen().insert(tree_key(tree_oid@, i as u32))
            },
            final(self).blobs_seen() == old(self).blobs_seen(),
            final(self).path_blobs_seen() == old(self).path_blobs_seen(),
            final(self).blob_rows() == old(self).blob_rows(),
            final(self).meta_rows() == old(self).meta_rows(),
    {
        let path_id = self.interner.intern(path);
        let mut key: Vec<u8> = Vec::new();
        push_bytes(&mut key, tree_oid);
        push_le_u32(&mut key, path_id.0);
        proof {
            assert(key@ =~= tree_key(tree_oid@, path_id.0));
            assert(self.paths().contains(path@)) by {
                assert(self.paths()[path_id.0 as int] == path@);
            }
        }
        self.seen_trees.insert(key.as_slice())
    }

    /// Counts a blob met at a path, and returns the path's id. A blob seen
    /// at this path before in this scan is skipped; else it emits the rows
    /// of `record_blob`, new if no scan has seen it, with the bytes HEAD
    /// still holds of it at this path.
    pub fn handle_blob(
        &mut self,
        oid: Oid,
        path: &[u8],
        size: i64,
        head: &HeadSnapshot,
        commit: &CommitInfo,
    ) -> (r: PathId)
        requires
            old(self).wf(),
            old(self).paths().len() < u32::MAX,
        ensures
            final(self).wf(),
            final(self).paths() == old(self).paths() || final(self).paths() == old(self).paths().push(path@),
            r.0 < final(self).paths().len(),
            final(self).paths()[r.0 as int] == path@,
            final(self).trees_seen() == old(self).trees_seen(),
            final(self).path_blobs_seen() == old(self).path_blobs_seen().insert(
                path_blob_key(r.0, oid@),
            ),
            old(self).path_blobs_seen().contains(path_blob_key(r.0, oid@)) ==> {
                &&& final(self).blobs_seen() == old(self).blobs_seen()
                &&& final(self).blob_rows() == old(self).blob_rows()
                &&& final(self).meta_rows() == old(self).meta_rows()
            },
            !old(self).path_blobs_seen().contains(path_blob_key(r.0, oid@)) ==> {
                let is_new = !old(self).blobs_seen().contains(oid@);
                let current = current_size_in(head.blobs_by_path@, r.0, oid);
                &&& final(self).blobs_seen() == old(self).blobs_seen().insert(oid@)
                &&& final(self).blob_rows() == old(self).blob_rows() + emitted_blob_rows(
                    oid@,
                    r.0,
                    size,
                    current,
                    is_new,
                )
                &&& final(self).meta_rows() == old(self).meta_rows() + emitted_meta_rows(
                    oid@,
                    r.0,
                    size,
                    commit.author@,
                    commit.timestamp,
                    is_new,
                )
            },
    {
        let path_id = self.interner.intern(path);
        let mut key: Vec<u8> = Vec::new();
        push_le_u32(&mut key, path_id.0);
        push_bytes(&mut key, &oid);
        proof {
            assert(key@ =~= path_blob_key(path_id.0, oid@));
        }
        if !self.seen_path_blobs.insert(key.as_slice()) {
            return path_id;
        }
        let is_new_blob = self.seen_blobs.insert(&oid);
        let current_size = current_size_of(head, path_id, &oid);
        self.out.record_blob(oid, path_id, size, current_size, commit, is_new_blob);
        path_id
    }

    /// Number of paths interned so far.
    pub fn path_count(&self) -> (r: usize)
        ensures
            r == self.paths().len(),
    {
        self.interner.len()
    }

    /// Trees expanded so far.
    pub fn trees_visited(&self) -> (r: usize)
        ensures
            r == self.trees_count(),
    {
        self.seen_trees.len()
    }

    /// Blob rows emitted so far.
    pub fn blobs_found(&self) -> (r: usize)
        ensures
            r == self.blob_rows().len(),
    {
        self.out.blob_count()
    }

    /// A decode buffer, from the pool when it has one.
    pub fn take_buffer(&mut self) -> (r: Vec<u8>)
        ensures
            r@.len() == 0,
            final(self).paths() == old(self).paths(),
            final(self).trees_seen() == old(self).trees_seen(),
            final(self).blobs_seen() == old(self).blobs_seen(),
            final(self).path_blobs_seen() == old(self).path_blobs_seen(),
            final(self).blob_rows() == old(self).blob_rows(),
            final(self).meta_rows() == old(self).meta_rows(),
    {
        self.buf_pool.take()
    }

    /// Gives a decode buffer back to the pool.
    pub fn give_buffer(&mut self, buf: Vec<u8>)
        ensures
            final(self).paths() == old(self).paths(),
            final(self).trees_seen() == old(self).trees_seen(),
            final(self).blobs_seen() == old(self).blobs_seen(),
            final(self).path_blobs_seen() == old(self).path_blobs_seen(),
            final(self).blob_rows() == old(self).blob_rows(),
            final(self).meta_rows() == old(self).meta_rows(),
    {
        self.buf_pool.give(buf)
    }

    /// The rows of the scan, and the interner that names their paths.
    pub fn finish(self) -> (r: (ScanDelta, PathInterner))
        ensures
            blob_views(r.0.blobs@) == self.blob_rows(),
            meta_views(r.0.metadata@) == self.meta_rows(),
            r.1.table() == self.paths(),
            self.wf() ==> r.1.wf(),
    {
        (self.out.build(), self.interner)
    }
}

/// `s` without the ids in `scanned`, order kept.
pub open spec fn unscanned(s: Seq<Oid>, scanned: Set<Seq<u8>>) -> Seq<Oid>
    decreases s.len(),
{
    if s.len() == 0 {
        seq![]
    } else if scanned.contains(s.last()@) {
        unscanned(s.drop_last(), scanned)
    } else {
        unscanned(s.drop_last(), scanned).push(s.last())
    }
}

/// Once every commit of the history is stored as scanned, planning leaves
/// nothing to scan: a second run over an unchanged repository writes no
/// rows (and with the HEAD cursor stored, `head_is_cached` stops it before
/// planning).
pub proof fn lemma_rescan_plans_nothing(all_commits: Seq<Oid>, scanned: Set<Seq<u8>>)
    requires
        forall|i: int| 0 <= i < all_commits.len() ==> scanned.contains(#[trigger] all_commits[i]@),
    ensures
        unscanned(all_commits, scanned).len() == 0,
    decreases all_commits.len(),
{
    if all_commits.len() > 0 {
        let rest = all_commits.drop_last();
        assert forall|i: int| 0 <= i < rest.len() implies scanned.contains(#[trigger] rest[i]@) by {
            assert(rest[i] == all_commits[i]);
        }
        lemma_rescan_plans_nothing(rest, scanned);
        assert(scanned.contains(all_commits[all_commits.len() - 1]@));
    }
}

/// The commits still to scan: those of `all_commits` (oldest first) that
/// no earlier scan stored, in the same order.
pub fn plan_commits(all_commits: &Vec<Oid>, scanned: &ByteSet) -> (r: Vec<Oid>)
    ensures
        r@ == unscanned(all_commits@, scanned.view_set()),
{
    let n = all_commits.len();
    let mut r: Vec<Oid> = Vec::new();
    let mut i: usize = 0;
    while i < n
        invariant
            n == all_commits@.len(),
            0 <= i <= n,
            r@ == unscanned(all_commits@.subrange(0, i as int), scanned.view_set()),
        decreases n - i,
    {
        proof {
            assert(all_commits@.subrange(0, i + 1).drop_last() =~= all_commits@.subrange(0, i as int));
        }
        if !scanned.contains(&all_commits[i]) {
            r.push(all_commits[i]);
        }
        i = i + 1;
    }
    proof {
        assert(all_commits@.subrange(0, n as int) =~= all_commits@);
    }
    r
}

/// Whether the stored HEAD cursor already names `head_hex`: then nothing
/// is left to scan.
pub fn head_is_cached(stored: Option<&str>, head_hex: &str) -> (r: bool)
    ensures
        r == match stored {
            Some(s) => s@ == head_hex@,
            None => false,
        },
{
    match stored {
        Some(s) => String::from_str(s) == String::from_str(head_hex),
        None => false,
    }
}

/// Scan settings for one repository.
pub struct GitScanner {
    repo_path: String,
    verbose: bool,
    profile: bool,
}

impl GitScanner {
    pub closed spec fn path(&self) -> Seq<char> {
        self.repo_path@
    }

    pub closed spec fn is_verbose(&self) -> bool {
        self.verbose
    }

    pub closed spec fn is_profiling(&self) -> bool {
        self.profile
    }

    /// A scanner that logs its phases.
    pub fn new(repo_path: &str) -> (r: GitScanner)
        ensures
            r.path() == repo_path@,
            r.is_verbose(),
            !r.is_profiling(),
    {
        GitScanner { repo_path: String::from_str(repo_path), verbose: true, profile: false }
    }

    /// A scanner that logs nothing.
    pub fn quiet(repo_path: &str) -> (r: GitScanner)
        ensures
            r.path() == repo_path@,
            !r.is_verbose(),
            !r.is_profiling(),
    {
        GitScanner { repo_path: String::from_str(repo_path), verbose: false, profile: false }
    }

    /// A scanner that logs and times each phase.
    pub fn profiling(repo_path: &str) -> (r: GitScanner)
        ensures
            r.path() == repo_path@,
            r.is_verbose(),
            r.is_profiling(),
    {
        GitScanner { repo_path: String::from_str(repo_path), verbose: true, profile: true }
    }

    pub fn repo_path(&self) -> (r: &str)
        ensures
            r@ == self.path(),
    {
        self.repo_path.as_str()
    }

    pub fn verbose(&self) -> (r: bool)
        ensures
            r == self.is_verbose(),
    {
        self.verbose
    }

    pub fn profile(&self) -> (r: bool)
        ensures
            r == self.is_profiling(),
    {
        self.profile
    }
}

} // verus!
