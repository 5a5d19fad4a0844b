use indexed_blobs::blob_provider::{location_record, new_blob_provider, BlobProvider, FileKind};
use indexed_blobs::error::BlobProviderError;
use indexed_blobs::layout::{DirEntry, RootDir};

fn file(name: &str) -> DirEntry {
    DirEntry { name: name.to_string(), is_file: true }
}

fn four_files() -> RootDir {
    RootDir::Entries(vec![file("p.0.idx"), file("p.0.dat"), file("p.1.idx"), file("p.1.dat")])
}

fn open(root: &RootDir, midx: &Vec<u8>) -> Result<BlobProvider<u32>, BlobProviderError> {
    new_blob_provider::<u32>("/blobs".to_string(), "p".to_string(), root, midx)
}

#[test]
fn four_files_make_two_chunks_and_blobs_round_trip() {
    let mut p = open(&four_files(), &Vec::new()).unwrap();
    assert_eq!(p.num_chunks(), 2);
    let (mut idx0, mut dat0) = (Vec::new(), Vec::new());
    let e = p.append_blob(0, &mut idx0, &mut dat0, b"hello").unwrap();
    assert_eq!(e, 0);
    assert_eq!(p.read_blob(0, 0, &idx0, &dat0).unwrap(), b"hello".to_vec());
    let (mut idx1, mut dat1) = (Vec::new(), Vec::new());
    assert_eq!(p.append_blob(1, &mut idx1, &mut dat1, b"hi").unwrap(), 0);
    assert_eq!(p.read_blob(1, 1, &idx1, &dat1), Err(BlobProviderError::InvalidEntryIndex(1)));
    assert_eq!(p.read_blob(1, 0, &idx1, &dat1).unwrap(), b"hi".to_vec());
}

#[test]
fn three_files_are_uneven() {
    let root = RootDir::Entries(vec![file("p.0.idx"), file("p.0.dat"), file("p.1.idx")]);
    assert_eq!(open(&root, &Vec::new()).err(), Some(BlobProviderError::UnevenBlobChunks));
}

#[test]
fn missing_or_non_directory_path_is_invalid() {
    assert_eq!(open(&RootDir::Missing, &Vec::new()).err(), Some(BlobProviderError::InvalidPath));
    assert_eq!(open(&RootDir::NotADirectory, &Vec::new()).err(), Some(BlobProviderError::InvalidPath));
    let r = new_blob_provider::<u32>(String::new(), "p".to_string(), &four_files(), &Vec::new());
    assert_eq!(r.err(), Some(BlobProviderError::InvalidPath));
}

#[test]
fn empty_prefix_is_invalid() {
    let r = new_blob_provider::<u32>("/blobs".to_string(), String::new(), &four_files(), &Vec::new());
    assert_eq!(r.err(), Some(BlobProviderError::InvalidPrefix));
}

#[test]
fn entry_without_prefix_is_reported_by_name() {
    let root = RootDir::Entries(vec![file("p.0.idx"), file("q.0.dat"), file("x")]);
    assert_eq!(open(&root, &Vec::new()).err(), Some(BlobProviderError::InvalidBlobFile("q.0.dat".to_string())));
}

#[test]
fn sub_directory_is_an_invalid_blob_file() {
    let root = RootDir::Entries(vec![file("p.0.idx"), DirEntry { name: "p.sub".to_string(), is_file: false }]);
    assert_eq!(open(&root, &Vec::new()).err(), Some(BlobProviderError::InvalidBlobFile("p.sub".to_string())));
}

#[test]
fn master_index_file_is_not_a_chunk_file() {
    let es = vec![file("p.0.idx"), file("p.midx"), file("p.0.dat")];
    assert_eq!(BlobProvider::<u8>::get_num_chunks(&es, "p"), Ok(1));
    let es = vec![file("p.midx")];
    assert_eq!(BlobProvider::<u8>::get_num_chunks(&es, "p"), Ok(0));
    let es = vec![file("p.midxx")];
    assert_eq!(BlobProvider::<u8>::get_num_chunks(&es, "p"), Err(BlobProviderError::UnevenBlobChunks));
}

#[test]
fn empty_directory_has_no_chunks() {
    assert_eq!(BlobProvider::<u8>::get_num_chunks(&Vec::new(), "p"), Ok(0));
}

#[test]
fn master_index_of_odd_length_is_invalid() {
    assert_eq!(open(&four_files(), &vec![1, 0, 0, 0, 0, 0, 1]).err(), Some(BlobProviderError::InvalidMIdx));
}

#[test]
fn master_index_with_unknown_version_is_invalid() {
    assert_eq!(open(&four_files(), &vec![1, 0, 0, 0, 0, 0, 2, 0]).err(), Some(BlobProviderError::InvalidMIdx));
}

#[test]
fn opening_twice_gives_the_same_provider() {
    let image = vec![3, 0, 0, 0, 7, 0, 1, 0, 0, 1, 0, 0, 0, 0, 1, 0];
    let a = open(&four_files(), &image).unwrap();
    let b = open(&four_files(), &image).unwrap();
    assert_eq!(a.num_chunks(), b.num_chunks());
    assert_eq!(a.midx().to_bytes(), image);
    assert_eq!(b.midx().to_bytes(), image);
    assert_eq!(a.entries_in_chunk(0), 3);
    assert_eq!(a.entries_in_chunk(1), 256);
}

#[test]
fn empty_blob_round_trips() {
    let mut p = open(&four_files(), &Vec::new()).unwrap();
    let (mut idx, mut dat) = (Vec::new(), Vec::new());
    assert_eq!(p.append_blob(1, &mut idx, &mut dat, b"abc").unwrap(), 0);
    assert_eq!(p.append_blob(1, &mut idx, &mut dat, b"").unwrap(), 1);
    assert_eq!(p.append_blob(1, &mut idx, &mut dat, b"xy").unwrap(), 2);
    assert_eq!(p.read_blob(1, 1, &idx, &dat).unwrap(), Vec::<u8>::new());
    assert_eq!(p.read_blob(1, 2, &idx, &dat).unwrap(), b"xy".to_vec());
    assert_eq!(p.read_blob(1, 0, &idx, &dat).unwrap(), b"abc".to_vec());
    assert_eq!(dat, b"abcxy".to_vec());
    assert_eq!(idx.len(), 48);
}

#[test]
fn append_to_a_later_chunk_fills_earlier_records() {
    let mut p = open(&four_files(), &Vec::new()).unwrap();
    let (mut idx, mut dat) = (Vec::new(), Vec::new());
    p.append_blob(1, &mut idx, &mut dat, b"z").unwrap();
    assert_eq!(p.midx().entry_count(), 2);
    assert_eq!(p.entries_in_chunk(0), 0);
    assert_eq!(p.entries_in_chunk(1), 1);
    assert_eq!(p.midx().to_bytes(), vec![0, 0, 0, 0, 0, 0, 1, 0, 1, 0, 0, 0, 0, 0, 1, 0]);
}

#[test]
fn chunk_out_of_range_is_rejected() {
    let mut p = open(&four_files(), &Vec::new()).unwrap();
    let (mut idx, mut dat) = (Vec::new(), Vec::new());
    assert_eq!(p.append_blob(2, &mut idx, &mut dat, b"a"), Err(BlobProviderError::InvalidChunkIndex(2)));
    assert_eq!(p.read_blob(5, 0, &idx, &dat), Err(BlobProviderError::InvalidChunkIndex(5)));
    assert!(idx.is_empty() && dat.is_empty());
}

#[test]
fn full_chunk_is_rejected() {
    let image = vec![255, 255, 255, 255, 0, 0, 1, 0];
    let mut p = open(&four_files(), &image).unwrap();
    let (mut idx, mut dat) = (Vec::new(), Vec::new());
    assert_eq!(p.append_blob(0, &mut idx, &mut dat, b"a"), Err(BlobProviderError::ChunkFull(0)));
    assert_eq!(p.next_entry(0), Err(BlobProviderError::ChunkFull(0)));
}

#[test]
fn index_file_that_disagrees_with_master_index_is_rejected() {
    let mut p = open(&four_files(), &Vec::new()).unwrap();
    let (mut idx, mut dat) = (vec![0u8; 16], Vec::new());
    assert_eq!(p.append_blob(0, &mut idx, &mut dat, b"a"), Err(BlobProviderError::InvalidMIdx));
    assert_eq!(p.entries_in_chunk(0), 0);
}

#[test]
fn short_files_give_io_errors() {
    let image = vec![1, 0, 0, 0, 0, 0, 1, 0];
    let p = open(&four_files(), &image).unwrap();
    assert!(matches!(p.read_blob(0, 0, &[], &[]), Err(BlobProviderError::IoError(_))));
    let idx = location_record(2, 5);
    assert!(matches!(p.read_blob(0, 0, &idx, &[0, 1, 2, 3, 4, 5]), Err(BlobProviderError::IoError(_))));
    assert_eq!(p.read_blob(0, 0, &idx, &[0, 1, 2, 3, 4, 5, 6]).unwrap(), vec![2, 3, 4, 5, 6]);
}

#[test]
fn location_record_layout() {
    assert_eq!(
        location_record(0x0102, 7),
        vec![2, 1, 0, 0, 0, 0, 0, 0, 7, 0, 0, 0, 0, 0, 0, 0]
    );
    assert_eq!(indexed_blobs::blob_provider::decode_location(&location_record(u64::MAX, 9)), (u64::MAX, 9));
}

#[test]
fn locate_entry_gives_record_offset() {
    let image = vec![4, 0, 0, 0, 0, 0, 1, 0];
    let p = open(&four_files(), &image).unwrap();
    assert_eq!(p.locate_entry(0, 3), Ok(48));
    assert_eq!(p.locate_entry(0, 4), Err(BlobProviderError::InvalidEntryIndex(4)));
    assert_eq!(p.locate_entry(1, 0), Err(BlobProviderError::InvalidEntryIndex(0)));
}

#[test]
fn provider_pools_are_separate() {
    let mut p = open(&four_files(), &Vec::new()).unwrap();
    assert_eq!(p.insert_fd(FileKind::Index, 0, 10), Ok(None));
    assert!(p.does_fd_exist(FileKind::Index, 0));
    assert!(!p.does_fd_exist(FileKind::Data, 0));
    assert_eq!(p.get_file_descriptor(FileKind::Index, 0), Ok(&10));
    assert_eq!(p.get_file_descriptor(FileKind::Data, 0), Err(BlobProviderError::InvalidChunkIndex(0)));
    assert_eq!(p.insert_fd(FileKind::Index, 0, 11), Err(BlobProviderError::FileDescriptorAlreadyExists(0)));
}
