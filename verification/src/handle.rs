use vstd::prelude::*;
use vstd::rwlock::{RwLock, RwLockPredicate};

use crate::dataset::Dataset;

verus! {

/// The lock invariant of the shared handle: only well-formed datasets
/// are ever stored, so every reader sees a sorted catalog, aligned rate
/// vectors and strictly ascending dates, whatever refreshes happen
/// around it.
pub struct DatasetInv;

impl RwLockPredicate<Dataset> for DatasetInv {
    open spec fn inv(self, v: Dataset) -> bool {
        v.wf()
    }
}

/// The one shared, concurrency-safe container for the current dataset.
///
/// Many readers may take snapshots while the refresh loop periodically
/// swaps in a replacement; a dataset is immutable once stored, the swap
/// exchanges the whole value under the write lock, and the lock
/// invariant guarantees that whichever generation a reader obtains, it
/// is a fully formed, internally consistent dataset — never a torn mix
/// of old and new days.
pub struct SharedDataset {
    lock: RwLock<Dataset, DatasetInv>,
}

impl SharedDataset {
    /// Wrap the first acquired dataset.
    pub fn new(dataset: Dataset) -> SharedDataset
        requires
            dataset.wf(),
    {
        SharedDataset { lock: RwLock::new(dataset, Ghost(DatasetInv)) }
    }

    /// A reader's view of the current dataset: a copy taken under the
    /// read lock, well formed by the lock invariant, and untouched by
    /// any later swap.
    pub fn snapshot(&self) -> (d: Dataset)
        ensures
            d.wf(),
    {
        let handle = self.lock.acquire_read();
        let d = handle.borrow().duplicate();
        handle.release_read();
        d
    }

    /// Swap in a freshly built dataset. The exclusive hold lasts only
    /// for the exchange itself; the replacement was built entirely
    /// outside the lock.
    pub fn replace(&self, dataset: Dataset)
        requires
            dataset.wf(),
    {
        let (old_dataset, write_handle) = self.lock.acquire_write();
        write_handle.release_write(dataset);
    }
}

} // verus!
