//! The blob store's façade: opening a storage directory and the blob-level
//! read and append operations.
use vstd::bytes::{
    lemma_auto_spec_u64_to_from_le_bytes, spec_u64_from_le_bytes, spec_u64_to_le_bytes,
    u64_from_le_bytes, u64_to_le_bytes,
};
use vstd::prelude::*;
use vstd::slice::{slice_subrange, slice_to_vec};
use vstd::string::StringSliceAdditionalSpecFns;
use vstd::utf8::encode_utf8;

use crate::error::BlobProviderError;
use crate::layout::{
    all_valid, bytes_of, entry_valid, first_invalid, is_midx_file_name, scan_outcome, starts_with,
    chunk_file_count, DirEntry, RootDir,
};
use crate::midx::{
    decode_image, encode_image, lemma_image_decode_encode, open_or_create_midx, valid_image, MIdx,
    MIdxEntry, Version,
};
use crate::pool::FdPool;

verus! {

/// Size in bytes of one location record in a chunk's index file: the blob's
/// offset in the data file, then its length, both as little-endian `u64`.
pub const LOCATION_SIZE: usize = 16;

/// The bytes of a location record.
pub open spec fn encode_location(offset: u64, len: u64) -> Seq<u8> {
    spec_u64_to_le_bytes(offset) + spec_u64_to_le_bytes(len)
}

/// The entry count that the master index `m` gives chunk `c`: its record's
/// count, or 0 if the chunk has no record yet.
pub open spec fn chunk_entries(m: Seq<MIdxEntry>, c: int) -> nat {
    if 0 <= c < m.len() {
        m[c].num_entries as nat
    } else {
        0
    }
}

/// The blob that entry `e` of a chunk designates, given the chunk's index
/// file `idx` and data file `dat`; `None` if either file is too short.
pub open spec fn blob_at(idx: Seq<u8>, dat: Seq<u8>, e: int) -> Option<Seq<u8>> {
    if 0 <= e && 16 * e + 16 <= idx.len() {
        let offset = spec_u64_from_le_bytes(idx.subrange(16 * e, 16 * e + 8));
        let len = spec_u64_from_le_bytes(idx.subrange(16 * e + 8, 16 * e + 16));
        if offset + len <= dat.len() {
            Some(dat.subrange(offset as int, offset + len))
        } else {
            None
        }
    } else {
        None
    }
}

/// The master index after one more entry is appended to chunk `c`: its
/// record's count grows by one; a chunk without a record gets one, and so
/// does every chunk before it that had none, with a count of 0.
pub open spec fn midx_after_append(m: Seq<MIdxEntry>, c: int) -> Seq<MIdxEntry> {
    if c < m.len() {
        m.update(c, MIdxEntry { num_entries: (m[c].num_entries + 1) as u32, ..m[c] })
    } else {
        m + Seq::new(
            (c - m.len()) as nat,
            |i: int| MIdxEntry { num_entries: 0, reserved: 0, version: Version::V1 },
        ) + seq![MIdxEntry { num_entries: 1, reserved: 0, version: Version::V1 }]
    }
}

/// Appending a blob to a chunk and then reading the returned entry gives the
/// blob back, for any blob, the empty one included; the chunk's entry count
/// grows by one and no other chunk's count changes.
pub proof fn lemma_append_then_read(
    m: Seq<MIdxEntry>,
    c: int,
    idx: Seq<u8>,
    dat: Seq<u8>,
    blob: Seq<u8>,
)
    requires
        0 <= c,
        chunk_entries(m, c) < u32::MAX,
        idx.len() == 16 * chunk_entries(m, c),
        dat.len() + blob.len() <= u64::MAX,
    ensures
        chunk_entries(midx_after_append(m, c), c) == chunk_entries(m, c) + 1,
        forall|d: int| d != c ==> chunk_entries(midx_after_append(m, c), d) == chunk_entries(m, d),
        blob_at(
            idx + encode_location(dat.len() as u64, blob.len() as u64),
            dat + blob,
            chunk_entries(m, c) as int,
        ) == Some(blob),
{
    lemma_auto_spec_u64_to_from_le_bytes();
    let e = chunk_entries(m, c) as int;
    let loc = encode_location(dat.len() as u64, blob.len() as u64);
    let idx2 = idx + loc;
    assert(idx2.subrange(16 * e, 16 * e + 8) =~= spec_u64_to_le_bytes(dat.len() as u64));
    assert(idx2.subrange(16 * e + 8, 16 * e + 16) =~= spec_u64_to_le_bytes(blob.len() as u64));
    assert((dat + blob).subrange(dat.len() as int, (dat.len() + blob.len()) as int) =~= blob);
    let m2 = midx_after_append(m, c);
    assert forall|d: int| d != c implies chunk_entries(m2, d) == chunk_entries(m, d) by {
        if c >= m.len() && m.len() <= d < c {
            assert(m2[d].num_entries == 0);
        }
    }
}

/// A blob store over one storage directory. `H` is the type of an open file
/// handle, which the two pools cache: one for index files, one for data files.
pub struct BlobProvider<H> {
    root_blob_dir: String,
    blob_file_prefix: String,
    num_chunks: usize,
    midx: MIdx,
    idx_fd_pool: FdPool<H>,
    dat_fd_pool: FdPool<H>,
}

/// What opening a storage directory reports, given its path, the prefix,
/// what stands at the path, and the master index file's image.
pub open spec fn open_outcome<H>(
    r: Result<BlobProvider<H>, BlobProviderError>,
    path: Seq<char>,
    prefix: Seq<char>,
    root: RootDir,
    midx_image: Seq<u8>,
) -> bool {
    if path.len() == 0 || !(root is Entries) {
        r == Err::<BlobProvider<H>, BlobProviderError>(BlobProviderError::InvalidPath)
    } else if prefix.len() == 0 {
        r == Err::<BlobProvider<H>, BlobProviderError>(BlobProviderError::InvalidPrefix)
    } else {
        let es = root->Entries_0@;
        let prefix = encode_utf8(prefix);
        match r {
            Ok(p) => {
                &&& scan_outcome(Ok(p.spec_num_chunks() as usize), es, prefix)
                &&& valid_image(midx_image)
                &&& p.midx_view() == decode_image(midx_image)
                &&& p.spec_root_blob_dir() == path
                &&& p.spec_blob_file_prefix() == prefix
                &&& p.wf()
                &&& p.pool(FileKind::Index).keys().len() == 0
                &&& p.pool(FileKind::Data).keys().len() == 0
            },
            Err(BlobProviderError::InvalidMIdx) => (exists|n: usize|
                scan_outcome(Ok(n), es, prefix)) && !valid_image(midx_image),
            Err(e) => scan_outcome(Err(e), es, prefix),
        }
    }
}

/// Opening a directory whose entries are all prefixed regular files, with a
/// valid master index, succeeds exactly when the chunk files are even in
/// number, with half as many chunks; an odd number fails as uneven.
pub proof fn lemma_open_even_files<H>(
    r: Result<BlobProvider<H>, BlobProviderError>,
    path: Seq<char>,
    prefix: Seq<char>,
    es: Vec<DirEntry>,
    midx_image: Seq<u8>,
)
    requires
        open_outcome(r, path, prefix, RootDir::Entries(es), midx_image),
        path.len() > 0,
        prefix.len() > 0,
        all_valid(es@, encode_utf8(prefix)),
        valid_image(midx_image),
    ensures
        chunk_file_count(es@, encode_utf8(prefix)) % 2 == 0 ==> r is Ok && r->Ok_0.spec_num_chunks()
            == chunk_file_count(es@, encode_utf8(prefix)) / 2,
        chunk_file_count(es@, encode_utf8(prefix)) % 2 == 1 ==> r == Err::<
            BlobProvider<H>,
            BlobProviderError,
        >(BlobProviderError::UnevenBlobChunks),
{
    let p = encode_utf8(prefix);
    if r is Err {
        let e = r->Err_0;
        if !(e is InvalidMIdx) {
            assert(scan_outcome(Err(e), es@, p));
            if e is InvalidBlobFile {
                let i = choose|i: int| first_invalid(es@, p, i);
                assert(entry_valid(es@[i], p));
            }
        }
    }
}

/// Opening the same directory twice, with the same master index file, gives
/// providers with the same number of chunks and the same master index
/// records; and opening writes nothing, since those records are exactly the
/// file's bytes.
pub proof fn lemma_open_twice<H>(
    r1: Result<BlobProvider<H>, BlobProviderError>,
    r2: Result<BlobProvider<H>, BlobProviderError>,
    path: Seq<char>,
    prefix: Seq<char>,
    root: RootDir,
    midx_image: Seq<u8>,
)
    requires
        open_outcome(r1, path, prefix, root, midx_image),
        open_outcome(r2, path, prefix, root, midx_image),
        r1 is Ok,
    ensures
        r2 is Ok,
        r1->Ok_0.spec_num_chunks() == r2->Ok_0.spec_num_chunks(),
        r1->Ok_0.midx_view() == r2->Ok_0.midx_view(),
        encode_image(r1->Ok_0.midx_view()) == midx_image,
{
    let es = root->Entries_0@;
    let p = encode_utf8(prefix);
    if r2 is Err {
        let e = r2->Err_0;
        if e is InvalidMIdx {
        } else {
            assert(scan_outcome(Err(e), es, p));
        }
    }
    lemma_image_decode_encode(midx_image);
}

/// Opens a blob store. The path must be non-empty and name a directory, the
/// prefix must be non-empty, the directory's entries must follow the naming
/// convention (see `get_num_chunks`), and `midx_image` (the bytes of the file
/// `<prefix>.midx`, empty if it does not exist yet) must be a valid master
/// index. The checks run in that order and the first failure is reported.
pub fn new_blob_provider<H>(
    path: String,
    prefix: String,
    root: &RootDir,
    midx_image: &Vec<u8>,
) -> (r: Result<BlobProvider<H>, BlobProviderError>)
    ensures
        open_outcome(r, path@, prefix@, *root, midx_image@),
{
    let entries = match root {
        RootDir::Entries(es) => es,
        _ => {
            return Err(BlobProviderError::InvalidPath);
        },
    };
    if path.as_str().is_empty() {
        return Err(BlobProviderError::InvalidPath);
    }
    if prefix.as_str().is_empty() {
        return Err(BlobProviderError::InvalidPrefix);
    }
    let num_chunks = match BlobProvider::<H>::get_num_chunks(entries, prefix.as_str()) {
        Ok(n) => n,
        Err(e) => {
            return Err(e);
        },
    };
    let midx = match open_or_create_midx(midx_image) {
        Ok(m) => m,
        Err(e) => {
            return Err(e);
        },
    };
    let p = BlobProvider {
        root_blob_dir: path,
        blob_file_prefix: prefix,
        num_chunks,
        midx,
        idx_fd_pool: FdPool::new(),
        dat_fd_pool: FdPool::new(),
    };
    Ok(p)
}

/// The two kinds of file that make up a chunk.
#[derive(Debug, Clone, Copy, PartialEq, Eq, Structural)]
pub enum FileKind {
    /// The index file: one location record per entry.
    Index,
    /// The data file: the blobs themselves.
    Data,
}

impl<H> BlobProvider<H> {
    /// Counts the chunk files of the storage directory and checks its naming
    /// convention. Every entry must be a regular file whose name starts with the
    /// prefix, else the first one that is not is reported. The master index file
    /// `<prefix>.midx` is not a chunk file. Each chunk has two files, so an odd
    /// count is an error; otherwise the result is the number of chunks.
    pub fn get_num_chunks(entries: &Vec<DirEntry>, blob_file_prefix: &str) -> (r: Result<
        usize,
        BlobProviderError,
    >)
        ensures
            scan_outcome(r, entries@, blob_file_prefix.spec_bytes()),
    {
        let prefix = blob_file_prefix.as_bytes();
        let ghost p = blob_file_prefix.spec_bytes();
        let mut count: usize = 0;
        let mut i: usize = 0;
        while i < entries.len()
            invariant
                prefix@ == p,
                p == blob_file_prefix.spec_bytes(),
                i <= entries@.len(),
                forall|j: int| 0 <= j < i ==> #[trigger] entry_valid(entries@[j], p),
                count == chunk_file_count(entries@.subrange(0, i as int), p),
                count <= i,
            decreases entries@.len() - i,
        {
            let e = &entries[i];
            let name = e.name.as_str().as_bytes();
            assert(name@ == bytes_of(entries@[i as int].name));
            if !e.is_file || !starts_with(name, prefix) {
                let r = e.name.clone();
                assert(first_invalid(entries@, p, i as int));
                assert(r@ == entries@[i as int].name@);
                assert(exists|k: int| first_invalid(entries@, p, k) && r@ == entries@[k].name@);
                return Err(BlobProviderError::InvalidBlobFile(r));
            }
            assert(entries@.subrange(0, i + 1).drop_last() =~= entries@.subrange(0, i as int));
            if !is_midx_file_name(name, prefix) {
                count = count + 1;
            }
            i = i + 1;
        }
        assert(entries@.subrange(0, i as int) =~= entries@);
        if count % 2 != 0 {
            return Err(BlobProviderError::UnevenBlobChunks);
        }
        Ok(count / 2)
    }

    /// The number of chunks.
    pub closed spec fn spec_num_chunks(&self) -> nat {
        self.num_chunks as nat
    }

    /// The master index records.
    pub closed spec fn midx_view(&self) -> Seq<MIdxEntry> {
        self.midx@
    }

    /// The storage directory's path.
    pub closed spec fn spec_root_blob_dir(&self) -> Seq<char> {
        self.root_blob_dir@
    }

    /// The file name prefix, as bytes.
    pub closed spec fn spec_blob_file_prefix(&self) -> Seq<u8> {
        bytes_of(self.blob_file_prefix)
    }

    /// The handle pool for files of the given kind.
    pub closed spec fn pool(&self, kind: FileKind) -> FdPool<H> {
        match kind {
            FileKind::Index => self.idx_fd_pool,
            FileKind::Data => self.dat_fd_pool,
        }
    }

    /// The provider's invariant: both pools are well formed.
    pub open spec fn wf(&self) -> bool {
        self.pool(FileKind::Index).wf() && self.pool(FileKind::Data).wf()
    }

    /// The number of chunks.
    pub fn num_chunks(&self) -> (r: usize)
        ensures
            r == self.spec_num_chunks(),
    {
        self.num_chunks
    }

    /// The storage directory's path.
    pub fn root_blob_dir(&self) -> (r: &String)
        ensures
            r@ == self.spec_root_blob_dir(),
    {
        &self.root_blob_dir
    }

    /// The file name prefix.
    pub fn blob_file_prefix(&self) -> (r: &String)
        ensures
            bytes_of(*r) == self.spec_blob_file_prefix(),
    {
        &self.blob_file_prefix
    }

    /// The master index.
    pub fn midx(&self) -> (r: &MIdx)
        ensures
            r@ == self.midx_view(),
    {
        &self.midx
    }

    /// The entry count of `chunk`: its record's count, or 0 without a record.
    pub fn entries_in_chunk(&self, chunk: usize) -> (r: u32)
        ensures
            r == chunk_entries(self.midx_view(), chunk as int),
    {
        match self.midx.read(chunk) {
            Ok(e) => e.num_entries,
            Err(_) => 0,
        }
    }

    /// Whether a handle of the given kind is cached for `chunk`.
    pub fn does_fd_exist(&self, kind: FileKind, chunk: usize) -> (r: bool)
        requires
            self.wf(),
        ensures
            r == self.pool(kind).keys().contains(chunk),
    {
        match kind {
            FileKind::Index => self.idx_fd_pool.does_fd_exist(chunk),
            FileKind::Data => self.dat_fd_pool.does_fd_exist(chunk),
        }
    }

    /// The cached handle of the given kind for `chunk`; `InvalidChunkIndex`
    /// if none is cached.
    pub fn get_file_descriptor(&self, kind: FileKind, chunk: usize) -> (r: Result<
        &H,
        BlobProviderError,
    >)
        requires
            self.wf(),
        ensures
            match r {
                Ok(h) => exists|i: int|
                    0 <= i < self.pool(kind).keys().len() && self.pool(kind).keys()[i] == chunk
                        && *h == self.pool(kind).handles()[i],
                Err(e) => !self.pool(kind).keys().contains(chunk)
                    && e == BlobProviderError::InvalidChunkIndex(chunk as u64),
            },
    {
        match kind {
            FileKind::Index => self.idx_fd_pool.get_file_descriptor(chunk),
            FileKind::Data => self.dat_fd_pool.get_file_descriptor(chunk),
        }
    }

    /// Caches `fd` as the handle of the given kind for `chunk`, as
    /// `FdPool::insert_fd` does; the other pool and the rest of the provider
    /// stay as they were.
    pub fn insert_fd(&mut self, kind: FileKind, chunk: usize, fd: H) -> (r: Result<
        Option<(usize, H)>,
        BlobProviderError,
    >)
        requires
            old(self).wf(),
        ensures
            final(self).wf(),
            final(self).spec_num_chunks() == old(self).spec_num_chunks(),
            final(self).midx_view() == old(self).midx_view(),
            final(self).spec_root_blob_dir() == old(self).spec_root_blob_dir(),
            final(self).spec_blob_file_prefix() == old(self).spec_blob_file_prefix(),
            kind == FileKind::Index ==> final(self).pool(FileKind::Data) == old(self).pool(
                FileKind::Data,
            ),
            kind == FileKind::Data ==> final(self).pool(FileKind::Index) == old(self).pool(
                FileKind::Index,
            ),
            final(self).pool(kind).capacity() == old(self).pool(kind).capacity(),
            old(self).pool(kind).keys().contains(chunk) ==> {
                &&& r == Err::<Option<(usize, H)>, BlobProviderError>(
                    BlobProviderError::FileDescriptorAlreadyExists(chunk as u64),
                )
                &&& final(self).pool(kind).keys() == old(self).pool(kind).keys()
            },
            !old(self).pool(kind).keys().contains(chunk) && old(self).pool(kind).keys().len() < old(
                self,
            ).pool(kind).capacity() ==> {
                &&& r == Ok::<Option<(usize, H)>, BlobProviderError>(None)
                &&& final(self).pool(kind).keys() == old(self).pool(kind).keys().push(chunk)
            },
            !old(self).pool(kind).keys().contains(chunk) && old(self).pool(kind).keys().len() == old(
                self,
            ).pool(kind).capacity() ==> {
                &&& r == Ok::<Option<(usize, H)>, BlobProviderError>(
                    Some((old(self).pool(kind).keys()[0], old(self).pool(kind).handles()[0])),
                )
                &&& final(self).pool(kind).keys() == old(self).pool(kind).keys().drop_first().push(
                    chunk,
                )
            },
    {
        match kind {
            FileKind::Index => self.idx_fd_pool.insert_fd(chunk, fd),
            FileKind::Data => self.dat_fd_pool.insert_fd(chunk, fd),
        }
    }

    /// Where the location record of entry `entry` of `chunk` starts in the
    /// chunk's index file. Fails if the chunk does not exist or holds no such
    /// entry.
    pub fn locate_entry(&self, chunk: usize, entry: u64) -> (r: Result<u64, BlobProviderError>)
        ensures
            chunk >= self.spec_num_chunks() ==> r == Err::<u64, BlobProviderError>(
                BlobProviderError::InvalidChunkIndex(chunk as u64),
            ),
            chunk < self.spec_num_chunks() && entry >= chunk_entries(self.midx_view(), chunk as int)
                ==> r == Err::<u64, BlobProviderError>(BlobProviderError::InvalidEntryIndex(entry)),
            chunk < self.spec_num_chunks() && entry < chunk_entries(self.midx_view(), chunk as int)
                ==> r == Ok::<u64, BlobProviderError>((16 * entry) as u64),
    {
        if chunk >= self.num_chunks {
            return Err(BlobProviderError::InvalidChunkIndex(chunk as u64));
        }
        let count = self.entries_in_chunk(chunk);
        if entry >= count as u64 {
            return Err(BlobProviderError::InvalidEntryIndex(entry));
        }
        Ok(entry * 16)
    }

    /// The index that the next blob appended to `chunk` gets. Fails if the
    /// chunk does not exist, or if its entry count is at the largest value a
    /// record can hold.
    pub fn next_entry(&self, chunk: usize) -> (r: Result<u32, BlobProviderError>)
        ensures
            chunk >= self.spec_num_chunks() ==> r == Err::<u32, BlobProviderError>(
                BlobProviderError::InvalidChunkIndex(chunk as u64),
            ),
            chunk < self.spec_num_chunks() && chunk_entries(self.midx_view(), chunk as int)
                == u32::MAX ==> r == Err::<u32, BlobProviderError>(
                BlobProviderError::ChunkFull(chunk as u64),
            ),
            chunk < self.spec_num_chunks() && chunk_entries(self.midx_view(), chunk as int)
                < u32::MAX ==> r == Ok::<u32, BlobProviderError>(
                chunk_entries(self.midx_view(), chunk as int) as u32,
            ),
    {
        if chunk >= self.num_chunks {
            return Err(BlobProviderError::InvalidChunkIndex(chunk as u64));
        }
        let count = self.entries_in_chunk(chunk);
        if count == u32::MAX {
            return Err(BlobProviderError::ChunkFull(chunk as u64));
        }
        Ok(count)
    }

    /// Records in the master index that one more blob was appended to
    /// `chunk`, and returns the new entry's index. Fails, changing nothing,
    /// where `next_entry` fails.
    pub fn commit_append(&mut self, chunk: usize) -> (r: Result<u32, BlobProviderError>)
        ensures
            final(self).spec_num_chunks() == old(self).spec_num_chunks(),
            final(self).spec_root_blob_dir() == old(self).spec_root_blob_dir(),
            final(self).spec_blob_file_prefix() == old(self).spec_blob_file_prefix(),
            final(self).pool(FileKind::Index) == old(self).pool(FileKind::Index),
            final(self).pool(FileKind::Data) == old(self).pool(FileKind::Data),
            chunk >= old(self).spec_num_chunks() ==> r == Err::<u32, BlobProviderError>(
                BlobProviderError::InvalidChunkIndex(chunk as u64),
            ),
            chunk < old(self).spec_num_chunks() && chunk_entries(old(self).midx_view(), chunk as int)
                == u32::MAX ==> r == Err::<u32, BlobProviderError>(
                BlobProviderError::ChunkFull(chunk as u64),
            ),
            r is Err ==> final(self).midx_view() == old(self).midx_view(),
            chunk < old(self).spec_num_chunks() && chunk_entries(old(self).midx_view(), chunk as int)
                < u32::MAX ==> {
                &&& r == Ok::<u32, BlobProviderError>(
                    chunk_entries(old(self).midx_view(), chunk as int) as u32,
                )
                &&& final(self).midx_view() == midx_after_append(old(self).midx_view(), chunk as int)
            },
    {
        let count = match self.next_entry(chunk) {
            Ok(c) => c,
            Err(e) => {
                return Err(e);
            },
        };
        let ghost m0 = self.midx@;
        if chunk < self.midx.entry_count() {
            let old_entry = match self.midx.read(chunk) {
                Ok(e) => e,
                Err(e) => {
                    return Err(e);
                },
            };
            let entry = MIdxEntry { num_entries: count + 1, ..old_entry };
            let _ = self.midx.write(chunk, entry);
        } else {
            while self.midx.entry_count() < chunk
                invariant
                    chunk < self.num_chunks,
                    self.num_chunks == old(self).num_chunks,
                    self.root_blob_dir == old(self).root_blob_dir,
                    self.blob_file_prefix == old(self).blob_file_prefix,
                    self.idx_fd_pool == old(self).idx_fd_pool,
                    self.dat_fd_pool == old(self).dat_fd_pool,
                    m0.len() <= self.midx@.len() <= chunk,
                    self.midx@ =~= m0 + Seq::new(
                        (self.midx@.len() - m0.len()) as nat,
                        |i: int| MIdxEntry { num_entries: 0, reserved: 0, version: Version::V1 },
                    ),
                decreases chunk - self.midx@.len(),
            {
                self.midx.add_entry(MIdxEntry::new(0));
            }
            self.midx.add_entry(MIdxEntry::new(1));
        }
        assert(self.midx@ =~= midx_after_append(m0, chunk as int));
        Ok(count)
    }

    /// Reads entry `entry` of `chunk`, given the chunk's index file `idx` and
    /// data file `dat`. Fails if the chunk or the entry does not exist, or
    /// with an I/O error if a file is too short for what the entry designates.
    pub fn read_blob(&self, chunk: usize, entry: u64, idx: &[u8], dat: &[u8]) -> (r: Result<
        Vec<u8>,
        BlobProviderError,
    >)
        ensures
            chunk >= self.spec_num_chunks() ==> r == Err::<Vec<u8>, BlobProviderError>(
                BlobProviderError::InvalidChunkIndex(chunk as u64),
            ),
            chunk < self.spec_num_chunks() && entry >= chunk_entries(self.midx_view(), chunk as int)
                ==> r == Err::<Vec<u8>, BlobProviderError>(
                BlobProviderError::InvalidEntryIndex(entry),
            ),
            chunk < self.spec_num_chunks() && entry < chunk_entries(self.midx_view(), chunk as int)
                ==> match blob_at(idx@, dat@, entry as int) {
                Some(b) => r is Ok && r->Ok_0@ == b,
                None => r is Err && r->Err_0 is IoError,
            },
    {
        let off = match self.locate_entry(chunk, entry) {
            Ok(o) => o,
            Err(e) => {
                return Err(e);
            },
        };
        if (idx.len() as u64) < 16 || off > (idx.len() as u64) - 16 {
            return Err(BlobProviderError::IoError("short read of an index file".to_owned()));
        }
        let start = off as usize;
        let record = slice_subrange(idx, start, start + LOCATION_SIZE);
        let (offset, len) = decode_location(record);
        assert(record@.subrange(0, 8) =~= idx@.subrange(16 * entry, 16 * entry + 8));
        assert(record@.subrange(8, 16) =~= idx@.subrange(16 * entry + 8, 16 * entry + 16));
        let dat_len = dat.len() as u64;
        if len > dat_len || offset > dat_len - len {
            return Err(BlobProviderError::IoError("short read of a data file".to_owned()));
        }
        let blob = slice_subrange(dat, offset as usize, (offset + len) as usize);
        Ok(slice_to_vec(blob))
    }

    /// Appends `blob` to `chunk`, given the chunk's index file `idx` and data
    /// file `dat`: the blob goes at the end of the data file, its location
    /// record at the end of the index file, and the master index counts one
    /// more entry. Returns the new entry's index. Fails, changing nothing,
    /// if the chunk does not exist, is full, or if the index file does not
    /// hold one record per entry that the master index counts.
    pub fn append_blob(
        &mut self,
        chunk: usize,
        idx: &mut Vec<u8>,
        dat: &mut Vec<u8>,
        blob: &[u8],
    ) -> (r: Result<u32, BlobProviderError>)
        requires
            old(dat)@.len() + blob@.len() <= u64::MAX,
        ensures
            final(self).spec_num_chunks() == old(self).spec_num_chunks(),
            final(self).spec_root_blob_dir() == old(self).spec_root_blob_dir(),
            final(self).spec_blob_file_prefix() == old(self).spec_blob_file_prefix(),
            final(self).pool(FileKind::Index) == old(self).pool(FileKind::Index),
            final(self).pool(FileKind::Data) == old(self).pool(FileKind::Data),
            chunk >= old(self).spec_num_chunks() ==> r == Err::<u32, BlobProviderError>(
                BlobProviderError::InvalidChunkIndex(chunk as u64),
            ),
            chunk < old(self).spec_num_chunks() && chunk_entries(old(self).midx_view(), chunk as int)
                == u32::MAX ==> r == Err::<u32, BlobProviderError>(
                BlobProviderError::ChunkFull(chunk as u64),
            ),
            chunk < old(self).spec_num_chunks() && chunk_entries(old(self).midx_view(), chunk as int)
                < u32::MAX && old(idx)@.len() != 16 * chunk_entries(
                old(self).midx_view(),
                chunk as int,
            ) ==> r == Err::<u32, BlobProviderError>(BlobProviderError::InvalidMIdx),
            r is Err ==> {
                &&& final(self).midx_view() == old(self).midx_view()
                &&& final(idx)@ == old(idx)@
                &&& final(dat)@ == old(dat)@
            },
            chunk < old(self).spec_num_chunks() && chunk_entries(old(self).midx_view(), chunk as int)
                < u32::MAX && old(idx)@.len() == 16 * chunk_entries(
                old(self).midx_view(),
                chunk as int,
            ) ==> {
                &&& r == Ok::<u32, BlobProviderError>(
                    chunk_entries(old(self).midx_view(), chunk as int) as u32,
                )
                &&& final(self).midx_view() == midx_after_append(old(self).midx_view(), chunk as int)
                &&& final(dat)@ == old(dat)@ + blob@
                &&& final(idx)@ == old(idx)@ + encode_location(
                    old(dat)@.len() as u64,
                    blob@.len() as u64,
                )
            },
    {
        let count = match self.next_entry(chunk) {
            Ok(c) => c,
            Err(e) => {
                return Err(e);
            },
        };
        if idx.len() as u64 != (count as u64) * 16 {
            return Err(BlobProviderError::InvalidMIdx);
        }
        let offset = dat.len() as u64;
        let len = blob.len() as u64;
        let mut record = location_record(offset, len);
        let mut data = slice_to_vec(blob);
        dat.append(&mut data);
        idx.append(&mut record);
        self.commit_append(chunk)
    }
}

/// The location record of a blob at `offset` with `len` bytes.
pub fn location_record(offset: u64, len: u64) -> (r: Vec<u8>)
    ensures
        r@ == encode_location(offset, len),
        r@.len() == LOCATION_SIZE,
{
    proof {
        lemma_auto_spec_u64_to_from_le_bytes();
    }
    let mut r = u64_to_le_bytes(offset);
    let mut l = u64_to_le_bytes(len);
    r.append(&mut l);
    r
}

/// The offset and length that a 16-byte location record holds.
pub fn decode_location(record: &[u8]) -> (r: (u64, u64))
    requires
        record@.len() == LOCATION_SIZE,
    ensures
        r.0 == spec_u64_from_le_bytes(record@.subrange(0, 8)),
        r.1 == spec_u64_from_le_bytes(record@.subrange(8, 16)),
{
    let offset = u64_from_le_bytes(slice_subrange(record, 0, 8));
    let len = u64_from_le_bytes(slice_subrange(record, 8, 16));
    (offset, len)
}

} // verus!
