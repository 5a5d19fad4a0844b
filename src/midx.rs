//! The master index: one fixed 8-byte record per chunk.
use vstd::prelude::*;

use crate::error::BlobProviderError;

verus! {

/// Size in bytes of one master index record.
pub const RECORD_SIZE: usize = 8;

/// Record format version; only `V1` (stored as 1) is defined.
#[derive(Debug, Clone, Copy, PartialEq, Eq, Hash, Structural)]
pub enum Version {
    V1,
}

/// One master index record: how many blob entries a chunk holds.
#[derive(Debug, Clone, Copy, PartialEq, Eq, Structural)]
pub struct MIdxEntry {
    pub num_entries: u32,
    pub reserved: u16,
    pub version: Version,
}

/// Little-endian value of four bytes.
pub open spec fn le_u32(b0: u8, b1: u8, b2: u8, b3: u8) -> int {
    b0 + 256 * b1 + 65536 * b2 + 16777216 * b3
}

/// The 8-byte layout of a record: entry count (4 bytes), reserved (2 bytes),
/// version (2 bytes), all little-endian.
pub open spec fn encode_entry_spec(e: MIdxEntry) -> Seq<u8> {
    seq![
        (e.num_entries % 256) as u8,
        ((e.num_entries / 256) % 256) as u8,
        ((e.num_entries / 65536) % 256) as u8,
        (e.num_entries / 16777216) as u8,
        (e.reserved % 256) as u8,
        (e.reserved / 256) as u8,
        1u8,
        0u8,
    ]
}

/// The record that 8 bytes hold, if their version field is a defined one.
pub open spec fn decode_entry_spec(b: Seq<u8>) -> Option<MIdxEntry> {
    if b.len() == 8 && b[6] == 1 && b[7] == 0 {
        Some(
            MIdxEntry {
                num_entries: le_u32(b[0], b[1], b[2], b[3]) as u32,
                reserved: (b[4] + 256 * b[5]) as u16,
                version: Version::V1,
            },
        )
    } else {
        None
    }
}

/// The bytes of record `i` within a master index image.
pub open spec fn record_bytes(b: Seq<u8>, i: int) -> Seq<u8> {
    b.subrange(8 * i, 8 * i + 8)
}

/// Whether an image of the master index file is well formed: its length is a
/// multiple of the record size and every record has a defined version.
pub open spec fn valid_image(b: Seq<u8>) -> bool {
    &&& b.len() % 8 == 0
    &&& forall|i: int| 0 <= i < b.len() / 8 ==> #[trigger] decode_entry_spec(record_bytes(b, i)).is_some()
}

/// The records that a well-formed image holds, in chunk order.
pub open spec fn decode_image(b: Seq<u8>) -> Seq<MIdxEntry> {
    Seq::new((b.len() / 8) as nat, |i: int| decode_entry_spec(record_bytes(b, i)).unwrap())
}

/// The file image of a sequence of records.
pub open spec fn encode_image(s: Seq<MIdxEntry>) -> Seq<u8>
    decreases s.len(),
{
    if s.len() == 0 {
        Seq::empty()
    } else {
        encode_image(s.drop_last()) + encode_entry_spec(s.last())
    }
}

/// Decoding an encoded record gives the record back.
pub proof fn lemma_entry_round_trip(e: MIdxEntry)
    ensures
        decode_entry_spec(encode_entry_spec(e)) == Some(e),
{
    let x = e.num_entries;
    let r = e.reserved;
    assert(x == (x % 256) + 256 * ((x / 256) % 256) + 65536 * ((x / 65536) % 256) + 16777216 * (x
        / 16777216)) by (bit_vector);
    assert(r == (r % 256) + 256 * (r / 256)) by (bit_vector);
    assert(x / 16777216 < 256) by (bit_vector);
    assert(r / 256 < 256) by (bit_vector);
}

impl MIdxEntry {
    /// A version-1 record with the given entry count and a zero reserved field.
    pub fn new(num_entries: u32) -> (r: MIdxEntry)
        ensures
            r == (MIdxEntry { num_entries, reserved: 0, version: Version::V1 }),
    {
        MIdxEntry { num_entries, reserved: 0, version: Version::V1 }
    }

    /// The record's 8-byte on-disk layout.
    pub fn to_bytes(&self) -> (r: Vec<u8>)
        ensures
            r@ == encode_entry_spec(*self),
    {
        let n = self.num_entries;
        let v = self.reserved;
        let r = vec![
            (n % 256) as u8,
            ((n / 256) % 256) as u8,
            ((n / 65536) % 256) as u8,
            (n / 16777216) as u8,
            (v % 256) as u8,
            (v / 256) as u8,
            1u8,
            0u8,
        ];
        assert(r@ =~= encode_entry_spec(*self));
        r
    }

    /// Reads a record from `b[start..start + 8]`; `None` if its version is not defined.
    pub fn from_bytes(b: &[u8], start: usize) -> (r: Option<MIdxEntry>)
        requires
            start + 8 <= b@.len(),
        ensures
            r == decode_entry_spec(b@.subrange(start as int, start + 8)),
    {
        let len = b.len();
        assert(start + 8 <= len);
        let ghost s = b@.subrange(start as int, start + 8);
        assert(s[6] == b[start + 6] && s[7] == b[start + 7]);
        if b[start + 6] == 1 && b[start + 7] == 0 {
            let n: u32 = b[start] as u32 + 256 * (b[start + 1] as u32) + 65536 * (b[start + 2] as u32)
                + 16777216 * (b[start + 3] as u32);
            let v: u16 = b[start + 4] as u16 + 256 * (b[start + 5] as u16);
            Some(MIdxEntry { num_entries: n, reserved: v, version: Version::V1 })
        } else {
            None
        }
    }
}

/// The master index image of a sequence of records is eight bytes per record.
pub proof fn lemma_image_len(s: Seq<MIdxEntry>)
    ensures
        encode_image(s).len() == 8 * s.len(),
    decreases s.len(),
{
    if s.len() > 0 {
        lemma_image_len(s.drop_last());
    }
}

/// Record `i` of the image of `s` is the layout of `s[i]`.
pub proof fn lemma_image_record(s: Seq<MIdxEntry>, i: int)
    requires
        0 <= i < s.len(),
    ensures
        record_bytes(encode_image(s), i) == encode_entry_spec(s[i]),
    decreases s.len(),
{
    let p = s.drop_last();
    lemma_image_len(p);
    let e = encode_image(s);
    if i < s.len() - 1 {
        lemma_image_record(p, i);
        assert(record_bytes(e, i) =~= record_bytes(encode_image(p), i));
    } else {
        assert(record_bytes(e, i) =~= encode_entry_spec(s.last()));
    }
}

/// Writing records out and reading the image back gives the same records, and
/// the image's length is always a whole number of records.
pub proof fn lemma_image_round_trip(s: Seq<MIdxEntry>)
    ensures
        valid_image(encode_image(s)),
        decode_image(encode_image(s)) == s,
        encode_image(s).len() % 8 == 0,
{
    let e = encode_image(s);
    lemma_image_len(s);
    assert forall|i: int| 0 <= i < e.len() / 8 implies #[trigger] decode_entry_spec(
        record_bytes(e, i),
    ) == Some(s[i]) by {
        lemma_image_record(s, i);
        lemma_entry_round_trip(s[i]);
    }
    assert(decode_image(e) =~= s);
}

/// Encoding a record read from well-formed bytes gives those bytes back.
pub proof fn lemma_entry_decode_encode(b: Seq<u8>)
    requires
        decode_entry_spec(b) is Some,
    ensures
        encode_entry_spec(decode_entry_spec(b).unwrap()) == b,
{
    let (b0, b1, b2, b3, b4, b5) = (b[0], b[1], b[2], b[3], b[4], b[5]);
    let x: u32 = (b0 as u32 + 256 * (b1 as u32) + 65536 * (b2 as u32) + 16777216 * (b3 as u32)) as u32;
    let r: u16 = (b4 as u16 + 256 * (b5 as u16)) as u16;
    assert(le_u32(b0, b1, b2, b3) == x);
    assert(b4 + 256 * b5 == r);
    assert((x % 256) as u8 == b0 && ((x / 256) % 256) as u8 == b1 && ((x / 65536) % 256) as u8
        == b2 && (x / 16777216) as u8 == b3) by (bit_vector)
        requires
            x == (b0 as u32 + 256 * (b1 as u32) + 65536 * (b2 as u32) + 16777216 * (b3 as u32)) as u32,
    ;
    assert((r % 256) as u8 == b4 && (r / 256) as u8 == b5) by (bit_vector)
        requires
            r == (b4 as u16 + 256 * (b5 as u16)) as u16,
    ;
    assert(encode_entry_spec(decode_entry_spec(b).unwrap()) =~= b);
}

/// Opening a master index does not change it: the records read from a
/// well-formed image write back to exactly that image.
pub proof fn lemma_image_decode_encode(b: Seq<u8>)
    requires
        valid_image(b),
    ensures
        encode_image(decode_image(b)) == b,
    decreases b.len(),
{
    let s = decode_image(b);
    if b.len() > 0 {
        let n = b.len() / 8;
        let p = b.subrange(0, b.len() - 8);
        assert forall|i: int| 0 <= i < p.len() / 8 implies #[trigger] decode_entry_spec(
            record_bytes(p, i),
        ).is_some() by {
            assert(record_bytes(p, i) =~= record_bytes(b, i));
        }
        assert(decode_image(p) =~= s.drop_last()) by {
            assert forall|i: int| 0 <= i < p.len() / 8 implies decode_image(p)[i] == s[i] by {
                assert(record_bytes(p, i) =~= record_bytes(b, i));
            }
        }
        lemma_image_decode_encode(p);
        assert(decode_entry_spec(record_bytes(b, n - 1)).is_some());
        lemma_entry_decode_encode(record_bytes(b, n - 1));
        assert(b =~= p + record_bytes(b, n - 1));
    } else {
        assert(b =~= Seq::<u8>::empty());
    }
}

/// The master index: its records, in chunk order. The file holds
/// `encode_image` of them.
pub struct MIdx {
    entries: Vec<MIdxEntry>,
}

impl View for MIdx {
    type V = Seq<MIdxEntry>;

    closed spec fn view(&self) -> Seq<MIdxEntry> {
        self.entries@
    }
}

/// Reads a master index from the image of its file. A missing file is read as
/// an empty image.
pub fn open_or_create_midx(bytes: &Vec<u8>) -> (r: Result<MIdx, BlobProviderError>)
    ensures
        match r {
            Ok(m) => valid_image(bytes@) && m@ == decode_image(bytes@),
            Err(e) => !valid_image(bytes@) && e == BlobProviderError::InvalidMIdx,
        },
{
    let len = bytes.len();
    if len % RECORD_SIZE != 0 {
        return Err(BlobProviderError::InvalidMIdx);
    }
    let n = len / RECORD_SIZE;
    let mut entries: Vec<MIdxEntry> = Vec::new();
    let mut i: usize = 0;
    while i < n
        invariant
            len == bytes@.len(),
            len % 8 == 0,
            n == len / 8,
            i <= n,
            entries@.len() == i,
            forall|j: int|
                0 <= j < i ==> #[trigger] decode_entry_spec(record_bytes(bytes@, j)) == Some(
                    entries@[j],
                ),
        decreases n - i,
    {
        let start: usize = i * RECORD_SIZE;
        match MIdxEntry::from_bytes(bytes.as_slice(), start) {
            Some(e) => {
                entries.push(e);
            },
            None => {
                assert(decode_entry_spec(record_bytes(bytes@, i as int)).is_none());
                return Err(BlobProviderError::InvalidMIdx);
            },
        }
        i = i + 1;
    }
    let m = MIdx { entries };
    assert(m@ =~= decode_image(bytes@));
    Ok(m)
}

impl MIdx {
    /// An empty master index.
    pub fn new() -> (r: MIdx)
        ensures
            r@ == Seq::<MIdxEntry>::empty(),
    {
        MIdx { entries: Vec::new() }
    }

    /// The number of records.
    pub fn entry_count(&self) -> (r: usize)
        ensures
            r == self@.len(),
    {
        self.entries.len()
    }

    /// The record of chunk `index`.
    pub fn read(&self, index: usize) -> (r: Result<MIdxEntry, BlobProviderError>)
        ensures
            index < self@.len() ==> r == Ok::<MIdxEntry, BlobProviderError>(self@[index as int]),
            index >= self@.len() ==> r == Err::<MIdxEntry, BlobProviderError>(
                BlobProviderError::InvalidChunkIndex(index as u64),
            ),
    {
        if index < self.entries.len() {
            Ok(self.entries[index])
        } else {
            Err(BlobProviderError::InvalidChunkIndex(index as u64))
        }
    }

    /// Overwrites the record of chunk `index` in place.
    pub fn write(&mut self, index: usize, entry: MIdxEntry) -> (r: Result<(), BlobProviderError>)
        ensures
            index < old(self)@.len() ==> r is Ok && final(self)@ == old(self)@.update(
                index as int,
                entry,
            ),
            index >= old(self)@.len() ==> r == Err::<(), BlobProviderError>(
                BlobProviderError::InvalidChunkIndex(index as u64),
            ) && final(self)@ == old(self)@,
    {
        if index < self.entries.len() {
            self.entries.set(index, entry);
            Ok(())
        } else {
            Err(BlobProviderError::InvalidChunkIndex(index as u64))
        }
    }

    /// Adds a record at the end and returns its index.
    pub fn add_entry(&mut self, entry: MIdxEntry) -> (r: usize)
        requires
            old(self)@.len() < usize::MAX,
        ensures
            final(self)@ == old(self)@.push(entry),
            r == old(self)@.len(),
    {
        let r = self.entries.len();
        self.entries.push(entry);
        r
    }

    /// The image of the master index file.
    pub fn to_bytes(&self) -> (r: Vec<u8>)
        ensures
            r@ == encode_image(self@),
            r@.len() == 8 * self@.len(),
    {
        let mut r: Vec<u8> = Vec::new();
        let mut i: usize = 0;
        while i < self.entries.len()
            invariant
                i <= self@.len(),
                r@ == encode_image(self@.subrange(0, i as int)),
            decreases self@.len() - i,
        {
            let mut b = self.entries[i].to_bytes();
            r.append(&mut b);
            assert(self@.subrange(0, i + 1).drop_last() =~= self@.subrange(0, i as int));
            i = i + 1;
        }
        assert(self@.subrange(0, i as int) =~= self@);
        proof {
            lemma_image_len(self@);
        }
        r
    }
}

} // verus!
