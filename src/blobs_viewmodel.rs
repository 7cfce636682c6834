use vstd::prelude::*;
use crate::model::LargeBlobInfo;
use crate::selection::{index_above, index_below, move_down, move_up};

verus! {

/// Sum of the sizes of the first `k` blobs.
pub open spec fn blob_size_sum(s: Seq<LargeBlobInfo>, k: int) -> int
    decreases k,
{
    if k <= 0 || k > s.len() {
        0
    } else {
        blob_size_sum(s, k - 1) + s[k - 1].size
    }
}

/// The large-blob list with its selection.
pub struct BlobsViewModel {
    blobs: Vec<LargeBlobInfo>,
    selected_index: usize,
    total_cumulative: u64,
}

impl BlobsViewModel {
    pub closed spec fn blob_list(&self) -> Seq<LargeBlobInfo> {
        self.blobs@
    }

    pub closed spec fn selection(&self) -> nat {
        self.selected_index as nat
    }

    pub closed spec fn total(&self) -> u64 {
        self.total_cumulative
    }

    /// The list, first row selected.
    pub fn new(blobs: Vec<LargeBlobInfo>, total_cumulative: u64) -> (r: BlobsViewModel)
        ensures
            r.blob_list() == blobs@,
            r.selection() == 0,
            r.total() == total_cumulative,
    {
        BlobsViewModel { blobs, selected_index: 0, total_cumulative }
    }

    pub fn blobs(&self) -> (r: &[LargeBlobInfo])
        ensures
            r@ == self.blob_list(),
    {
        self.blobs.as_slice()
    }

    pub fn selected_index(&self) -> (r: usize)
        ensures
            r == self.selection(),
    {
        self.selected_index
    }

    /// The repository's total cumulative size, for percentages.
    pub fn total_cumulative(&self) -> (r: u64)
        ensures
            r == self.total(),
    {
        self.total_cumulative
    }

    /// Sum of the listed blobs' sizes.
    pub fn total_blob_size(&self) -> (r: u64)
        requires
            blob_size_sum(self.blob_list(), self.blob_list().len() as int) <= u64::MAX,
        ensures
            r == blob_size_sum(self.blob_list(), self.blob_list().len() as int),
    {
        let n = self.blobs.len();
        let mut sum: u64 = 0;
        let mut i: usize = 0;
        while i < n
            invariant
                n == self.blobs@.len(),
                0 <= i <= n,
                sum == blob_size_sum(self.blobs@, i as int),
                blob_size_sum(self.blobs@, n as int) <= u64::MAX,
            decreases n - i,
        {
            proof {
                lemma_blob_size_sum_mono(self.blobs@, i as int + 1, n as int);
            }
            sum = sum + self.blobs[i].size;
            i = i + 1;
        }
        sum
    }

    pub fn move_up(&mut self)
        ensures
            final(self).selection() == index_above(
                old(self).selection() as int,
                old(self).blob_list().len() as int,
            ),
            final(self).blob_list() == old(self).blob_list(),
            final(self).total() == old(self).total(),
    {
        let len = self.blobs.len();
        move_up(&mut self.selected_index, len);
    }

    pub fn move_down(&mut self)
        ensures
            final(self).selection() == index_below(
                old(self).selection() as int,
                old(self).blob_list().len() as int,
            ),
            final(self).blob_list() == old(self).blob_list(),
            final(self).total() == old(self).total(),
    {
        let len = self.blobs.len();
        move_down(&mut self.selected_index, len);
    }

    /// Path of the selected blob, if a row is selected.
    pub fn selected_path(&self) -> (r: Option<&str>)
        ensures
            r is Some <==> self.selection() < self.blob_list().len(),
            r matches Some(p) ==> p@ == self.blob_list()[self.selection() as int].path@,
    {
        if self.selected_index < self.blobs.len() {
            Some(self.blobs[self.selected_index].path.as_str())
        } else {
            None
        }
    }
}

proof fn lemma_blob_size_sum_mono(s: Seq<LargeBlobInfo>, j: int, k: int)
    requires
        0 <= j <= k <= s.len(),
    ensures
        blob_size_sum(s, j) <= blob_size_sum(s, k),
    decreases k - j,
{
    if j < k {
        lemma_blob_size_sum_mono(s, j, k - 1);
    }
}

} // verus!
