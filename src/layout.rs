//! Validation of the storage directory's naming convention.
use vstd::prelude::*;
use vstd::string::StringSliceAdditionalSpecFns;
use vstd::utf8::encode_utf8;

use crate::error::BlobProviderError;

verus! {

/// One entry of the storage directory, as the filesystem reports it.
pub struct DirEntry {
    pub name: String,
    pub is_file: bool,
}

/// What stands at the storage directory's path.
pub enum RootDir {
    /// Nothing exists at the path.
    Missing,
    /// The path exists and is not a directory.
    NotADirectory,
    /// The path is a directory with these entries.
    Entries(Vec<DirEntry>),
}

/// The UTF-8 bytes of a string.
pub open spec fn bytes_of(s: String) -> Seq<u8> {
    encode_utf8(s@)
}

/// Whether `name` starts with `prefix`, byte for byte.
pub open spec fn has_prefix(name: Seq<u8>, prefix: Seq<u8>) -> bool {
    prefix.len() <= name.len() && name.subrange(0, prefix.len() as int) == prefix
}

/// The suffix of the master index file name, ".midx".
pub open spec fn midx_suffix() -> Seq<u8> {
    seq![46u8, 109u8, 105u8, 100u8, 120u8]
}

/// Whether `name` is the master index file name for `prefix`.
pub open spec fn is_midx_name(name: Seq<u8>, prefix: Seq<u8>) -> bool {
    name == prefix + midx_suffix()
}

/// An entry may stand in the storage directory: a regular file whose name
/// starts with the prefix.
pub open spec fn entry_valid(e: DirEntry, prefix: Seq<u8>) -> bool {
    e.is_file && has_prefix(bytes_of(e.name), prefix)
}

/// An entry is a chunk file: valid, and not the master index file.
pub open spec fn is_chunk_file(e: DirEntry, prefix: Seq<u8>) -> bool {
    entry_valid(e, prefix) && !is_midx_name(bytes_of(e.name), prefix)
}

/// Every entry of `es` is valid.
pub open spec fn all_valid(es: Seq<DirEntry>, prefix: Seq<u8>) -> bool {
    forall|i: int| 0 <= i < es.len() ==> #[trigger] entry_valid(es[i], prefix)
}

/// `es[i]` is the first entry that is not valid.
pub open spec fn first_invalid(es: Seq<DirEntry>, prefix: Seq<u8>, i: int) -> bool {
    &&& 0 <= i < es.len()
    &&& !entry_valid(es[i], prefix)
    &&& forall|j: int| 0 <= j < i ==> #[trigger] entry_valid(es[j], prefix)
}

/// How many entries of `es` are chunk files.
pub open spec fn chunk_file_count(es: Seq<DirEntry>, prefix: Seq<u8>) -> nat
    decreases es.len(),
{
    if es.len() == 0 {
        0
    } else {
        chunk_file_count(es.drop_last(), prefix) + if is_chunk_file(es.last(), prefix) {
            1nat
        } else {
            0nat
        }
    }
}

/// What scanning the directory entries `es` reports: the number of chunks
/// when every entry is valid and the chunk files pair up; the first invalid
/// entry's name; or that the chunk files do not pair up.
pub open spec fn scan_outcome(
    r: Result<usize, BlobProviderError>,
    es: Seq<DirEntry>,
    prefix: Seq<u8>,
) -> bool {
    match r {
        Ok(n) => all_valid(es, prefix) && chunk_file_count(es, prefix) % 2 == 0 && n
            == chunk_file_count(es, prefix) / 2,
        Err(BlobProviderError::InvalidBlobFile(name)) => exists|i: int|
            first_invalid(es, prefix, i) && name@ == es[i].name@,
        Err(BlobProviderError::UnevenBlobChunks) => all_valid(es, prefix) && chunk_file_count(
            es,
            prefix,
        ) % 2 == 1,
        Err(_) => false,
    }
}

/// Whether `name` starts with `prefix`.
pub fn starts_with(name: &[u8], prefix: &[u8]) -> (r: bool)
    ensures
        r == has_prefix(name@, prefix@),
{
    let n = name.len();
    let p = prefix.len();
    if p > n {
        return false;
    }
    let mut i: usize = 0;
    while i < p
        invariant
            p == prefix@.len(),
            n == name@.len(),
            p <= n,
            i <= p,
            forall|j: int| 0 <= j < i ==> name@[j] == prefix@[j],
        decreases p - i,
    {
        if name[i] != prefix[i] {
            assert(name@.subrange(0, p as int)[i as int] != prefix@[i as int]);
            return false;
        }
        i = i + 1;
    }
    assert(name@.subrange(0, p as int) =~= prefix@);
    true
}

/// Whether `name` is `prefix` followed by ".midx".
pub fn is_midx_file_name(name: &[u8], prefix: &[u8]) -> (r: bool)
    ensures
        r == is_midx_name(name@, prefix@),
{
    let p = prefix.len();
    if name.len() < 5 || name.len() - 5 != p || !starts_with(name, prefix) {
        proof {
            if name@.len() == p + 5 && !has_prefix(name@, prefix@) {
                assert((prefix@ + midx_suffix()).subrange(0, p as int) =~= prefix@);
            }
        }
        return false;
    }
    let r = name[p] == 46u8 && name[p + 1] == 109u8 && name[p + 2] == 105u8 && name[p + 3] == 100u8
        && name[p + 4] == 120u8;
    proof {
        if r {
            assert(name@ =~= prefix@ + midx_suffix()) by {
                assert(name@.subrange(0, p as int) == prefix@);
                assert forall|k: int| 0 <= k < name@.len() implies name@[k] == (prefix@
                    + midx_suffix())[k] by {
                    if k < p {
                        assert(name@[k] == name@.subrange(0, p as int)[k]);
                    }
                }
            }
        } else {
            let full = prefix@ + midx_suffix();
            assert(full[p as int] == 46u8 && full[p + 1] == 109u8 && full[p + 2] == 105u8 && full[p
                + 3] == 100u8 && full[p + 4] == 120u8);
        }
    }
    r
}

} // verus!
