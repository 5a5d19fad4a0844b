//! A bounded pool of open handles, one per chunk, evicted in insertion order.
use vstd::prelude::*;

use crate::error::BlobProviderError;

verus! {

/// How many handles a pool keeps open by default.
pub const MAX_OPEN_FILE_DESCRIPTORS: usize = 12;

/// A bounded cache of handles keyed by chunk index. When full, inserting a
/// new handle evicts the one inserted earliest (first in, first out),
/// whatever how often it was read.
pub struct FdPool<H> {
    capacity: usize,
    /// Chunk indexes of the cached handles, oldest first.
    order: Vec<usize>,
    /// `handles[i]` is the handle of chunk `order[i]`.
    handles: Vec<H>,
}

impl<H> FdPool<H> {
    /// Chunk indexes of the cached handles, in insertion order.
    pub closed spec fn keys(&self) -> Seq<usize> {
        self.order@
    }

    /// The cached handles, in insertion order, parallel to `keys`.
    pub closed spec fn handles(&self) -> Seq<H> {
        self.handles@
    }

    /// The largest number of handles the pool holds at once.
    pub closed spec fn capacity(&self) -> nat {
        self.capacity as nat
    }

    /// The pool's invariant: a positive capacity that is never exceeded, one
    /// handle per key, and no key twice.
    pub open spec fn wf(&self) -> bool {
        &&& self.capacity() > 0
        &&& self.keys().len() <= self.capacity()
        &&& self.keys().len() == self.handles().len()
        &&& self.keys().no_duplicates()
    }

    /// An empty pool that keeps at most `MAX_OPEN_FILE_DESCRIPTORS` handles.
    pub fn new() -> (r: Self)
        ensures
            r.wf(),
            r.keys() == Seq::<usize>::empty(),
            r.capacity() == MAX_OPEN_FILE_DESCRIPTORS,
    {
        Self::with_capacity(MAX_OPEN_FILE_DESCRIPTORS)
    }

    /// An empty pool that keeps at most `capacity` handles.
    pub fn with_capacity(capacity: usize) -> (r: Self)
        requires
            capacity > 0,
        ensures
            r.wf(),
            r.keys() == Seq::<usize>::empty(),
            r.capacity() == capacity,
    {
        let r = FdPool { capacity, order: Vec::new(), handles: Vec::new() };
        assert(r.keys().no_duplicates());
        r
    }

    /// The number of cached handles.
    pub fn len(&self) -> (r: usize)
        ensures
            r == self.keys().len(),
    {
        self.order.len()
    }

    /// Where `index` stands in the insertion order, if it is cached.
    fn position(&self, index: usize) -> (r: Option<usize>)
        requires
            self.wf(),
        ensures
            match r {
                Some(i) => i < self.keys().len() && self.keys()[i as int] == index,
                None => !self.keys().contains(index),
            },
    {
        let mut i: usize = 0;
        while i < self.order.len()
            invariant
                i <= self.order@.len(),
                forall|j: int| 0 <= j < i ==> self.order@[j] != index,
            decreases self.order@.len() - i,
        {
            if self.order[i] == index {
                return Some(i);
            }
            i = i + 1;
        }
        None
    }

    /// Whether a handle for chunk `index` is cached.
    pub fn does_fd_exist(&self, index: usize) -> (r: bool)
        requires
            self.wf(),
        ensures
            r == self.keys().contains(index),
    {
        self.position(index).is_some()
    }

    /// The cached handle of chunk `index`; `InvalidChunkIndex` if there is none
    /// (never inserted, or evicted since).
    pub fn get_file_descriptor(&self, index: usize) -> (r: Result<&H, BlobProviderError>)
        requires
            self.wf(),
        ensures
            match r {
                Ok(h) => exists|i: int|
                    0 <= i < self.keys().len() && self.keys()[i] == index && *h
                        == self.handles()[i],
                Err(e) => !self.keys().contains(index) && e == BlobProviderError::InvalidChunkIndex(
                    index as u64,
                ),
            },
    {
        match self.position(index) {
            Some(i) => Ok(&self.handles[i]),
            None => Err(BlobProviderError::InvalidChunkIndex(index as u64)),
        }
    }

    /// Caches `fd` as the handle of chunk `index`. Fails, changing nothing, if
    /// the chunk already has a handle. If the pool is full, the handle inserted
    /// earliest is removed first and handed back with its chunk index, so
    /// that the caller can close it.
    pub fn insert_fd(&mut self, index: usize, fd: H) -> (r: Result<
        Option<(usize, H)>,
        BlobProviderError,
    >)
        requires
            old(self).wf(),
        ensures
            final(self).wf(),
            final(self).capacity() == old(self).capacity(),
            old(self).keys().contains(index) ==> {
                &&& r == Err::<Option<(usize, H)>, BlobProviderError>(
                    BlobProviderError::FileDescriptorAlreadyExists(index as u64),
                )
                &&& final(self).keys() == old(self).keys()
                &&& final(self).handles() == old(self).handles()
            },
            !old(self).keys().contains(index) && old(self).keys().len() < old(self).capacity() ==> {
                &&& r == Ok::<Option<(usize, H)>, BlobProviderError>(None)
                &&& final(self).keys() == old(self).keys().push(index)
                &&& final(self).handles() == old(self).handles().push(fd)
            },
            !old(self).keys().contains(index) && old(self).keys().len() == old(self).capacity() ==> {
                &&& r == Ok::<Option<(usize, H)>, BlobProviderError>(
                    Some((old(self).keys()[0], old(self).handles()[0])),
                )
                &&& final(self).keys() == old(self).keys().drop_first().push(index)
                &&& final(self).handles() == old(self).handles().drop_first().push(fd)
            },
    {
        if self.position(index).is_some() {
            return Err(BlobProviderError::FileDescriptorAlreadyExists(index as u64));
        }
        let ghost k0 = self.order@;
        let evicted = if self.order.len() >= self.capacity {
            let k = self.order.remove(0);
            let h = self.handles.remove(0);
            assert(self.order@ =~= k0.drop_first());
            Some((k, h))
        } else {
            None
        };
        let ghost k1 = self.order@;
        self.order.push(index);
        self.handles.push(fd);
        assert forall|i: int, j: int|
            0 <= i < self.order@.len() && 0 <= j < self.order@.len() && i != j implies self.order@[i]
            != self.order@[j] by {
            if i < k1.len() && j < k1.len() {
                if evicted is Some {
                    assert(k1[i] == k0[i + 1] && k1[j] == k0[j + 1]);
                }
            } else if i < k1.len() {
                assert(k1.contains(k1[i]));
                if evicted is Some {
                    assert(k0[i + 1] == k1[i]);
                }
            } else if j < k1.len() {
                if evicted is Some {
                    assert(k0[j + 1] == k1[j]);
                }
            }
        }
        Ok(evicted)
    }
}

} // verus!
