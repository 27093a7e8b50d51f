use cloud_storage::chunk::{ChunkManager, FileChunker, DEFAULT_CHUNK_SIZE};
use cloud_storage::crypto::encryption::EncryptionConfig;
use cloud_storage::command::{StorageCommand, Target};
use cloud_storage::storage::disk::DiskStorage;
use cloud_storage::storage::cache::CacheManager;
use cloud_storage::storage::compression::CompressionManager;
use cloud_storage::storage::name_index::NameIndex;
use cloud_storage::storage::retry::{RetryConfig, RetryStep};
use cloud_storage::storage::validation::{decimal_text, ValidationManager};
use cloud_storage::types::{
    AudioType, ChunkId, DocumentType, FileMetadata, FileType, FileTypeDetector, ImageType, VideoType,
};
use cloud_storage::StorageError;

fn chunker() -> FileChunker {
    FileChunker::new(ChunkManager::default())
}

#[test]
fn chunks_rejoin_to_input() {
    let data: Vec<u8> = (0..(2 * DEFAULT_CHUNK_SIZE + 1)).map(|i| (i % 251) as u8).collect();
    let chunks = chunker().chunk_data(&data);
    assert_eq!(chunks.len(), 3);
    let joined: Vec<u8> = chunks.iter().flat_map(|c| c.data.clone()).collect();
    assert_eq!(joined, data);
    let total: usize = chunks.iter().map(|c| c.size).sum();
    assert_eq!(total, data.len());
    assert!(chunks.iter().all(|c| c.size <= DEFAULT_CHUNK_SIZE));
    assert_eq!(chunks[2].size, 1);
}

#[test]
fn chunk_count_is_ceiling_of_length() {
    assert_eq!(chunker().chunk_data(&[]).len(), 0);
    assert_eq!(chunker().chunk_data(&[1]).len(), 1);
    assert_eq!(chunker().chunk_data(&vec![0u8; DEFAULT_CHUNK_SIZE]).len(), 1);
    assert_eq!(chunker().chunk_data(&vec![0u8; DEFAULT_CHUNK_SIZE + 1]).len(), 2);
}

#[test]
fn chunk_checksum_is_sha256_hex() {
    let chunks = chunker().chunk_data(b"abc");
    assert_eq!(chunks[0].checksum, "ba7816bf8f01cfea414140de5dae2223b00361a396177a9cb410ff61f20015ad");
    assert_eq!(chunks[0].size, 3);
    let stored = DiskStorage::new("/tmp/c").prepare_store("empty", b"").unwrap();
    assert_eq!(stored.metadata.checksum, "e3b0c44298fc1c149afbf4c8996fb92427ae41e4649b934ca495991b7852b855");
}

#[test]
fn chunks_get_distinct_ids() {
    let chunks = chunker().chunk_data(&vec![1u8; DEFAULT_CHUNK_SIZE * 2]);
    assert_ne!(chunks[0].id, chunks[1].id);
}

#[test]
fn compression_round_trip() {
    let c = CompressionManager::new(true);
    let data = b"aaaaaaaaaaaaaaaaaaaaaaaaaaaaaaaaaaaaaaaaaaaaaaaaaaaaaaaa".to_vec();
    let z = c.compress(&data).unwrap();
    assert_ne!(z, data);
    assert_eq!(&z[0..2], &[0x1f, 0x8b]);
    assert_eq!(c.decompress(&z).unwrap(), data);
    assert_eq!(c.decompress(&c.compress(b"").unwrap()).unwrap(), Vec::<u8>::new());
}

#[test]
fn disabled_compression_is_identity() {
    let c = CompressionManager::new(false);
    assert_eq!(c.compress(b"xyz").unwrap(), b"xyz".to_vec());
    assert_eq!(c.decompress(b"xyz").unwrap(), b"xyz".to_vec());
}

#[test]
fn decompressing_garbage_fails() {
    let c = CompressionManager::new(true);
    assert!(matches!(c.decompress(b"not gzip"), Err(StorageError::Storage(_))));
}

#[test]
fn encryption_round_trip() {
    let e = EncryptionConfig::new([2; 32]);
    let data = b"Sensitive data.".to_vec();
    let c = e.encrypt(&data).unwrap();
    assert_eq!(c.len(), data.len() + 16);
    assert_ne!(&c[..data.len()], &data[..]);
    assert_eq!(e.decrypt(&c).unwrap(), data);
}

#[test]
fn decrypting_with_another_key_fails() {
    let c = EncryptionConfig::new([2; 32]).encrypt(b"message").unwrap();
    match EncryptionConfig::new([3; 32]).decrypt(&c) {
        Err(StorageError::Storage(m)) => assert!(m.starts_with("Decryption error: ")),
        other => panic!("unexpected {:?}", other),
    }
}

#[test]
fn detects_known_mime_types() {
    assert_eq!(FileTypeDetector::from_mime("image/jpeg"), FileType::Image(ImageType::Jpeg));
    assert_eq!(FileTypeDetector::from_mime("image/webp"), FileType::Image(ImageType::Webp));
    assert_eq!(FileTypeDetector::from_mime("application/pdf"), FileType::Document(DocumentType::Pdf));
    assert_eq!(
        FileTypeDetector::from_mime(
            "application/vnd.openxmlformats-officedocument.wordprocessingml.document"
        ),
        FileType::Document(DocumentType::Docx)
    );
    assert_eq!(FileTypeDetector::from_mime("video/x-matroska"), FileType::Video(VideoType::Mkv));
    assert_eq!(FileTypeDetector::from_mime("audio/flac"), FileType::Audio(AudioType::Flac));
}

#[test]
fn unmapped_mime_types_fall_in_families() {
    assert_eq!(
        FileTypeDetector::from_mime("image/x-icon"),
        FileType::Image(ImageType::Other("image/x-icon".to_string()))
    );
    assert_eq!(
        FileTypeDetector::from_mime("application/zip"),
        FileType::Document(DocumentType::Other("application/zip".to_string()))
    );
    assert_eq!(
        FileTypeDetector::from_mime("audio/ogg"),
        FileType::Audio(AudioType::Other("audio/ogg".to_string()))
    );
    assert_eq!(
        FileTypeDetector::from_mime("video/webm"),
        FileType::Video(VideoType::Other("video/webm".to_string()))
    );
    assert_eq!(FileTypeDetector::from_mime("text/plain"), FileType::Unknown);
    assert_eq!(FileTypeDetector::from_mime("image"), FileType::Unknown);
}

#[test]
fn detects_by_magic_bytes() {
    assert_eq!(FileTypeDetector::detect(b"%PDF-1.4 rest"), FileType::Document(DocumentType::Pdf));
    assert_eq!(FileTypeDetector::detect(&[0xFF, 0xD8, 0xFF, 0xE0, 0, 0]), FileType::Image(ImageType::Jpeg));
    assert_eq!(FileTypeDetector::detect(b"GIF89a...."), FileType::Image(ImageType::Gif));
    assert_eq!(FileTypeDetector::detect(b"plain words"), FileType::Unknown);
    assert_eq!(FileTypeDetector::detect(b""), FileType::Unknown);
}

#[test]
fn cache_evicts_least_recently_used() {
    let mut cache = CacheManager::new(2);
    cache.put(1, vec![1]);
    cache.put(2, vec![2]);
    assert_eq!(cache.get(1), Some(vec![1]));
    cache.put(3, vec![3]);
    assert_eq!(cache.get(2), None);
    assert_eq!(cache.get(1), Some(vec![1]));
    assert_eq!(cache.get(3), Some(vec![3]));
    cache.put(3, vec![33]);
    assert_eq!(cache.get(3), Some(vec![33]));
    cache.invalidate(3);
    assert_eq!(cache.get(3), None);
    cache.invalidate(99);
    assert_eq!(cache.get(1), Some(vec![1]));
}

#[test]
fn name_index_overwrites_by_name() {
    let mut index = NameIndex::new();
    assert_eq!(index.lookup("a.txt"), None);
    index.put("a.txt", 1);
    index.put("b.txt", 2);
    index.put("a.txt", 3);
    assert_eq!(index.lookup("a.txt"), Some(3));
    assert_eq!(index.lookup("b.txt"), Some(2));
    let entries = index.entries();
    assert_eq!(entries.len(), 2);
    let again = NameIndex::from_entries(vec![("x".to_string(), 1), ("x".to_string(), 2)]);
    assert_eq!(again.lookup("x"), Some(2));
}

fn record(size: u64, chunks: &[u128]) -> FileMetadata {
    FileMetadata {
        id: 1,
        name: "f".to_string(),
        size,
        created_at: 0,
        modified_at: 0,
        checksum: String::new(),
        file_type: FileType::Unknown,
        chunk_ids: chunks.iter().map(|c| ChunkId(*c)).collect(),
    }
}

#[test]
fn validation_accepts_matching_sizes() {
    let v = ValidationManager::new("/tmp/v");
    assert_eq!(v.base_path(), "/tmp/v");
    let m = record(7, &[1, 2]);
    assert_eq!(ValidationManager::validate_file(&m, &vec![Some(3), Some(4)]), Ok(()));
}

#[test]
fn validation_reports_missing_chunk() {
    let m = record(7, &[1, 2]);
    assert_eq!(
        ValidationManager::validate_file(&m, &vec![Some(3), None]),
        Err(StorageError::Storage("chunk 00000000-0000-0000-0000-000000000002 is missing".to_string()))
    );
}

#[test]
fn validation_reports_size_mismatch() {
    let m = record(10, &[1, 2]);
    assert_eq!(
        ValidationManager::validate_file(&m, &vec![Some(3), Some(4)]),
        Err(StorageError::Storage("File size mismatch. Expected: 10, Got: 7".to_string()))
    );
}

#[test]
fn decimal_text_writes_numbers() {
    assert_eq!(decimal_text(0), "0");
    assert_eq!(decimal_text(9), "9");
    assert_eq!(decimal_text(1_234_567_890), "1234567890");
    assert_eq!(decimal_text(u128::MAX), u128::MAX.to_string());
}

#[test]
fn retry_waits_double() {
    let c = RetryConfig::new(3, 100);
    assert_eq!(c.after_failure(1), RetryStep::Wait(200));
    assert_eq!(c.after_failure(2), RetryStep::Wait(400));
    assert_eq!(c.after_failure(3), RetryStep::GiveUp);
    let total: u64 = (1..3).map(|k| match c.after_failure(k) {
        RetryStep::Wait(ms) => ms,
        RetryStep::GiveUp => 0,
    }).sum();
    assert!(total >= 100 * (2 + 4));
}

#[test]
fn retry_default_is_three_attempts_from_one_second() {
    let c = RetryConfig::default();
    assert_eq!(c.max_retries(), 3);
    assert_eq!(c.initial_delay_ms(), 1000);
    assert_eq!(c.after_failure(1), RetryStep::Wait(2000));
    assert_eq!(c.after_failure(3), RetryStep::GiveUp);
}

#[test]
fn retry_always_failing_gives_up_after_max() {
    let c = RetryConfig::new(5, 25);
    let mut attempts = 0u32;
    loop {
        attempts += 1;
        match c.after_failure(attempts) {
            RetryStep::Wait(_) => continue,
            RetryStep::GiveUp => break,
        }
    }
    assert_eq!(attempts, 5);
}

#[test]
fn retry_wait_saturates() {
    let c = RetryConfig::new(100, u64::MAX / 4);
    assert_eq!(c.after_failure(1), RetryStep::Wait(u64::MAX / 4 * 2));
    assert_eq!(c.after_failure(3), RetryStep::Wait(u64::MAX));
    assert_eq!(c.after_failure(99), RetryStep::Wait(u64::MAX));
}

#[test]
fn ids_print_and_parse() {
    let id: u128 = 0xa1a2a3a4_b1b2_c1c2_d1d2_d3d4d5d6d7d8;
    let text = DiskStorage::chunk_file_name(ChunkId(id));
    assert_eq!(text, "a1a2a3a4-b1b2-c1c2-d1d2-d3d4d5d6d7d8");
    let command = format!("download id {}", text);
    assert_eq!(StorageCommand::parse(command.as_bytes()), Ok(StorageCommand::Download(Target::Id(id))));
    let upper = format!("download id {}", text.to_uppercase());
    assert_eq!(StorageCommand::parse(upper.as_bytes()), Ok(StorageCommand::Download(Target::Id(id))));
}

#[test]
fn error_messages_name_the_kind() {
    assert_eq!(StorageError::NotFound("x".to_string()).message(), "File not found: x");
    assert_eq!(StorageError::Storage("y".to_string()).message(), "Storage error: y");
    assert_eq!(StorageError::Io("z".to_string()).message(), "IO error: z");
}
