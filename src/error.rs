use vstd::prelude::*;

verus! {

/// Every failure that the blob store reports to its caller.
#[derive(Debug, Clone, PartialEq, Eq)]
pub enum BlobProviderError {
    /// The storage directory path is empty, missing, or not a directory.
    InvalidPath,
    /// The blob file prefix is empty.
    InvalidPrefix,
    /// A filesystem operation failed; the message describes it.
    IoError(String),
    /// A directory entry is not a regular file or lacks the prefix.
    InvalidBlobFile(String),
    /// The number of chunk files is odd.
    UnevenBlobChunks,
    /// A chunk index is out of range, or no handle is cached for it.
    InvalidChunkIndex(u64),
    /// A lock was poisoned or otherwise failed.
    ConcurrencyError(String),
    /// A handle for this chunk is already in the pool.
    FileDescriptorAlreadyExists(u64),
    /// The master index image is corrupt.
    InvalidMIdx,
    /// An entry index is beyond the entries a chunk holds.
    InvalidEntryIndex(u64),
    /// A chunk already holds the largest number of entries a record can count.
    ChunkFull(u64),
}

} // verus!
