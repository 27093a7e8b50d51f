use cloud_storage::chunk::DEFAULT_CHUNK_SIZE;
use cloud_storage::storage::disk::{DiskStorage, StoredFile};
use cloud_storage::types::{ChunkId, FileMetadata, FileType, ImageType};
use cloud_storage::StorageError;

fn read_back(storage: &mut DiskStorage, stored: &StoredFile) -> Result<Vec<u8>, StorageError> {
    let parts: Vec<Vec<u8>> = stored.chunks.iter().map(|c| c.data.clone()).collect();
    storage.assemble_file(&stored.metadata, &parts)
}

#[test]
fn test_store_and_retrieve_file() {
    let mut storage = DiskStorage::new("/tmp/store");
    let file_name = "test.txt";
    let file_data = b"Hello, world!";
    let stored = storage.prepare_store(file_name, file_data).expect("Failed to store file");
    assert_eq!(stored.metadata.name, file_name);
    assert_eq!(stored.metadata.size, file_data.len() as u64);
    let retrieved = read_back(&mut storage, &stored).expect("Failed to retrieve file");
    assert_eq!(retrieved, file_data);
}

#[test]
fn test_chunk_handling() {
    let mut storage = DiskStorage::new("/tmp/store");
    let large_data = vec![0u8; DEFAULT_CHUNK_SIZE * 4];
    let stored = storage.prepare_store("large_file", &large_data).expect("Failed to store large file");
    assert!(stored.metadata.chunk_ids.len() > 1);
    let retrieved = read_back(&mut storage, &stored).expect("Failed to retrieve large file");
    assert_eq!(retrieved, large_data);
}

#[test]
fn test_compression_and_encryption() {
    let mut storage = DiskStorage::new("/tmp/store").with_encryption([1; 32]).with_cache(100);
    let file_data = b"Sensitive data.";
    let stored = storage
        .prepare_store("secure.txt", file_data)
        .expect("Failed to store file with encryption and compression");
    let retrieved = read_back(&mut storage, &stored).expect("Failed to retrieve encrypted and compressed file");
    assert_eq!(retrieved, file_data);
}

#[test]
fn stored_bytes_are_encrypted_and_compressed() {
    let storage = DiskStorage::new("/tmp/store").with_compression(true).with_encryption([7; 32]);
    let data = b"plain text plain text plain text plain text".to_vec();
    let stored = storage.prepare_store("notes.txt", &data).unwrap();
    let joined: Vec<u8> = stored.chunks.iter().flat_map(|c| c.data.clone()).collect();
    assert_ne!(joined, data);
    assert_eq!(stored.metadata.size, joined.len() as u64);
    let mut storage = storage;
    assert_eq!(read_back(&mut storage, &stored).unwrap(), data);
}

#[test]
fn get_after_store_returns_bytes_for_each_configuration() {
    let data = b"a document of some length, repeated; a document of some length".to_vec();
    let configs = vec![
        DiskStorage::new("/tmp/a"),
        DiskStorage::new("/tmp/b").with_compression(true),
        DiskStorage::new("/tmp/c").with_encryption([3; 32]),
        DiskStorage::new("/tmp/d").with_compression(true).with_encryption([9; 32]).with_cache(2),
        DiskStorage::new("/tmp/e").with_compression(false),
    ];
    for mut storage in configs {
        let stored = storage.prepare_store("doc", &data).unwrap();
        assert_eq!(read_back(&mut storage, &stored).unwrap(), data);
    }
}

#[test]
fn store_and_retrieve_small_file() {
    let mut storage = DiskStorage::new("/tmp/store");
    let stored = storage.prepare_store("hello.txt", b"Hello, World!").unwrap();
    assert_eq!(stored.metadata.name, "hello.txt");
    assert_eq!(stored.metadata.size, 13);
    assert!(!stored.metadata.checksum.is_empty());
    assert!(stored.metadata.chunk_ids.len() >= 1);
    assert_eq!(read_back(&mut storage, &stored).unwrap(), b"Hello, World!");
}

#[test]
fn large_file_is_cut_in_three_chunks() {
    assert_eq!(DEFAULT_CHUNK_SIZE, 1_048_576);
    let mut storage = DiskStorage::new("/tmp/store");
    let data = vec![0u8; 2_621_940];
    let stored = storage.prepare_store("large.bin", &data).unwrap();
    assert_eq!(stored.metadata.chunk_ids.len(), 3);
    let sizes: Vec<usize> = stored.chunks.iter().map(|c| c.size).collect();
    assert_eq!(sizes, vec![1_048_576, 1_048_576, 524_788]);
    assert_eq!(read_back(&mut storage, &stored).unwrap(), data);
}

#[test]
fn png_header_is_detected_as_png() {
    let storage = DiskStorage::new("/tmp/store").with_compression(true);
    let png = [0x89u8, 0x50, 0x4E, 0x47, 0x0D, 0x0A, 0x1A, 0x0A];
    let stored = storage.prepare_store("test.png", &png).unwrap();
    assert_eq!(stored.metadata.file_type, FileType::Image(ImageType::Png));
    // images are stored as they are, even with compression on
    assert_eq!(stored.chunks[0].data, png.to_vec());
}

#[test]
fn same_bytes_give_same_checksum() {
    let storage = DiskStorage::new("/tmp/store");
    let a = storage.prepare_store("file1.txt", b"Hello, World!").unwrap();
    let b = storage.prepare_store("file2.txt", b"Hello, World!").unwrap();
    assert_eq!(a.metadata.checksum, b.metadata.checksum);
    assert_ne!(a.metadata.id, b.metadata.id);
    assert_eq!(
        a.metadata.checksum,
        "dffd6021bb2bd5b0af676290809ec3a53191dd81c7f70a4b28688a362182986f"
    );
}

#[test]
fn record_lists_chunks_in_order() {
    let storage = DiskStorage::new("/tmp/store");
    let data = vec![5u8; DEFAULT_CHUNK_SIZE + 10];
    let stored = storage.prepare_store("f", &data).unwrap();
    let ids: Vec<ChunkId> = stored.chunks.iter().map(|c| c.id).collect();
    assert_eq!(stored.metadata.chunk_ids, ids);
    assert_eq!(stored.metadata.created_at, stored.metadata.modified_at);
}

#[test]
fn empty_file_has_no_chunk() {
    let mut storage = DiskStorage::new("/tmp/store");
    let stored = storage.prepare_store("empty", b"").unwrap();
    assert_eq!(stored.metadata.size, 0);
    assert!(stored.chunks.is_empty());
    assert_eq!(read_back(&mut storage, &stored).unwrap(), Vec::<u8>::new());
}

#[test]
fn cache_serves_decoded_bytes() {
    let mut storage = DiskStorage::new("/tmp/store").with_compression(true).with_cache(1);
    let stored = storage.prepare_store("a.txt", b"some text").unwrap();
    let id = stored.metadata.id;
    assert_eq!(storage.cached(id), None);
    storage.remember(id, b"some text");
    assert_eq!(storage.cached(id), Some(b"some text".to_vec()));
    storage.forget(id);
    assert_eq!(storage.cached(id), None);
    read_back(&mut storage, &stored).unwrap();
    assert_eq!(storage.cached(id), Some(b"some text".to_vec()));
}

#[test]
fn corrupt_stored_bytes_fail_to_decode() {
    let mut storage = DiskStorage::new("/tmp/store").with_encryption([4; 32]);
    let stored = storage.prepare_store("x.txt", b"secret").unwrap();
    let mut parts: Vec<Vec<u8>> = stored.chunks.iter().map(|c| c.data.clone()).collect();
    parts[0][0] ^= 1;
    match storage.assemble_file(&stored.metadata, &parts) {
        Err(StorageError::Storage(_)) => {},
        other => panic!("unexpected {:?}", other),
    }
}

fn record(id: u128, chunks: &[u128]) -> FileMetadata {
    FileMetadata {
        id,
        name: format!("f{}", id),
        size: 0,
        created_at: 0,
        modified_at: 0,
        checksum: String::new(),
        file_type: FileType::Unknown,
        chunk_ids: chunks.iter().map(|c| ChunkId(*c)).collect(),
    }
}

#[test]
fn delete_plan_keeps_shared_chunks() {
    let a = record(1, &[10, 11, 12]);
    let b = record(2, &[11]);
    let catalog = vec![a.clone(), b.clone()];
    assert!(DiskStorage::is_chunk_used_by_others(ChunkId(11), 1, &catalog));
    assert!(!DiskStorage::is_chunk_used_by_others(ChunkId(10), 1, &catalog));
    assert!(!DiskStorage::is_chunk_used_by_others(ChunkId(11), 2, &vec![b.clone()]));
    let removed = DiskStorage::chunks_to_remove(&a, &catalog);
    assert_eq!(removed, vec![ChunkId(10), ChunkId(12)]);
}

#[test]
fn orphan_sweep_removes_unreferenced_chunks() {
    let b = record(2, &[11]);
    let files = vec![
        DiskStorage::chunk_file_name(ChunkId(10)),
        DiskStorage::chunk_file_name(ChunkId(11)),
        "stray".to_string(),
    ];
    let orphans = DiskStorage::orphaned_chunks(&files, &vec![b]);
    assert_eq!(orphans, vec![files[0].clone(), "stray".to_string()]);
    assert!(DiskStorage::orphaned_chunks(&files[1..2].to_vec(), &vec![record(2, &[11])]).is_empty());
}

#[test]
fn file_names_follow_the_layout() {
    let id: u128 = 0x67e55044_10b1_426f_9247_bb680e5fe0c8;
    assert_eq!(DiskStorage::metadata_file_name(id), "67e55044-10b1-426f-9247-bb680e5fe0c8.json");
    assert_eq!(DiskStorage::chunk_file_name(ChunkId(id)), "67e55044-10b1-426f-9247-bb680e5fe0c8");
    assert_eq!(DiskStorage::new("/data").base_path(), "/data");
}

#[test]
fn process_by_type_keeps_media_and_transforms_documents() {
    let storage = DiskStorage::new("/tmp/s").with_compression(true);
    let data = b"hello hello hello hello";
    let image = FileType::Image(ImageType::Gif);
    assert_eq!(storage.process_file_by_type(&image, data).unwrap(), data.to_vec());
    let doc = FileType::Unknown;
    let z = storage.process_file_by_type(&doc, data).unwrap();
    assert_eq!(&z[0..2], &[0x1f, 0x8b]);
    assert_eq!(storage.deprocess_file_by_type(&doc, &z).unwrap(), data.to_vec());
    assert_eq!(storage.deprocess_data(&storage.process_data(data).unwrap()).unwrap(), data.to_vec());
}
