use indexed_blobs::error::BlobProviderError;
use indexed_blobs::midx::{open_or_create_midx, MIdx, MIdxEntry, Version};
use indexed_blobs::pool::FdPool;
use indexed_blobs::remote::{Directory, DirectoryMeta, FilenClientError};

#[test]
fn entry_layout_is_little_endian() {
    let e = MIdxEntry { num_entries: 0x01020304, reserved: 0xABCD, version: Version::V1 };
    assert_eq!(e.to_bytes(), vec![4, 3, 2, 1, 0xCD, 0xAB, 1, 0]);
    assert_eq!(MIdxEntry::from_bytes(&e.to_bytes(), 0), Some(e));
    assert_eq!(MIdxEntry::from_bytes(&[0, 0, 4, 3, 2, 1, 0xCD, 0xAB, 1, 0], 2), Some(e));
    assert_eq!(MIdxEntry::from_bytes(&[0, 0, 0, 0, 0, 0, 0, 0], 0), None);
}

#[test]
fn master_index_grows_by_one_record_per_append() {
    let mut m = MIdx::new();
    for k in 0..5u32 {
        assert_eq!(m.add_entry(MIdxEntry::new(k)), k as usize);
        assert_eq!(m.to_bytes().len(), 8 * (k as usize + 1));
        assert_eq!(m.to_bytes().len() % 8, 0);
    }
    let back = open_or_create_midx(&m.to_bytes()).unwrap();
    assert_eq!(back.entry_count(), 5);
    assert_eq!(back.read(3), Ok(MIdxEntry::new(3)));
}

#[test]
fn master_index_read_and_write_check_range() {
    let mut m = open_or_create_midx(&vec![2, 0, 0, 0, 0, 0, 1, 0]).unwrap();
    assert_eq!(m.read(0), Ok(MIdxEntry::new(2)));
    assert_eq!(m.read(1), Err(BlobProviderError::InvalidChunkIndex(1)));
    assert_eq!(m.write(1, MIdxEntry::new(9)), Err(BlobProviderError::InvalidChunkIndex(1)));
    assert_eq!(m.write(0, MIdxEntry::new(9)), Ok(()));
    assert_eq!(m.to_bytes(), vec![9, 0, 0, 0, 0, 0, 1, 0]);
}

#[test]
fn master_index_length_must_be_a_multiple_of_eight() {
    for n in 1..8usize {
        let image = vec![0u8; 8 + n];
        assert_eq!(open_or_create_midx(&image).err(), Some(BlobProviderError::InvalidMIdx));
    }
    assert_eq!(open_or_create_midx(&Vec::new()).unwrap().entry_count(), 0);
}

#[test]
fn pool_evicts_the_first_of_thirteen() {
    let mut pool: FdPool<u64> = FdPool::new();
    for i in 0..12usize {
        assert_eq!(pool.insert_fd(i, 100 + i as u64), Ok(None));
    }
    assert_eq!(pool.insert_fd(12, 112), Ok(Some((0, 100))));
    assert_eq!(pool.len(), 12);
    assert_eq!(pool.get_file_descriptor(0), Err(BlobProviderError::InvalidChunkIndex(0)));
    assert_eq!(pool.get_file_descriptor(12), Ok(&112));
    assert!(!pool.does_fd_exist(0));
}

#[test]
fn pool_eviction_ignores_reads() {
    let mut pool: FdPool<u8> = FdPool::with_capacity(2);
    assert_eq!(pool.insert_fd(5, 1), Ok(None));
    assert_eq!(pool.insert_fd(6, 2), Ok(None));
    assert_eq!(pool.get_file_descriptor(5), Ok(&1));
    assert_eq!(pool.insert_fd(7, 3), Ok(Some((5, 1))));
    assert_eq!(pool.insert_fd(8, 4), Ok(Some((6, 2))));
    assert!(pool.does_fd_exist(7) && pool.does_fd_exist(8));
    assert_eq!(pool.len(), 2);
}

#[test]
fn pool_refuses_a_second_handle_for_a_chunk() {
    let mut pool: FdPool<u8> = FdPool::new();
    assert_eq!(pool.insert_fd(3, 1), Ok(None));
    assert_eq!(pool.insert_fd(3, 2), Err(BlobProviderError::FileDescriptorAlreadyExists(3)));
    assert_eq!(pool.get_file_descriptor(3), Ok(&1));
    assert_eq!(pool.len(), 1);
}

#[test]
fn directory_record_needs_decrypted_meta() {
    let r = Directory::from_remote_dir("u".to_string(), "p".to_string(), true, None, None);
    assert!(matches!(r, Err(FilenClientError::TypeConversionError { .. })));
    let meta = DirectoryMeta { name: "docs".to_string(), created: Some(1700000000) };
    let d = Directory::from_remote_dir("u".to_string(), "p".to_string(), false, Some("red".to_string()), Some(meta)).ok().unwrap();
    assert_eq!(d.name, "docs");
    assert_eq!(d.created_at, Some(1700000000));
    assert_eq!(d.color, Some("red".to_string()));
    assert!(!d.favorited);
}
