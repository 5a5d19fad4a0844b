//! A directory-backed blob store: blobs live in paired index/data chunk files,
//! and a master index records how many entries each chunk holds.

pub mod blob_provider;
pub mod error;
pub mod layout;
pub mod midx;
pub mod pool;
pub mod remote;
