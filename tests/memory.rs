use cloud_storage::storage::disk::DiskStorage;
use cloud_storage::storage::memory::MemoryStorage;
use cloud_storage::types::{FileType, ImageType};
use cloud_storage::StorageError;

fn store() -> MemoryStorage {
    MemoryStorage::new(DiskStorage::new("/mem"))
}

#[test]
fn memory_store_and_get() {
    let mut s = store();
    let m = s.store_file("hello.txt", b"Hello, World!").unwrap();
    assert_eq!(m.name, "hello.txt");
    assert_eq!(m.size, 13);
    assert_eq!(s.get_file(m.id).unwrap(), b"Hello, World!");
    assert_eq!(s.lookup_name("hello.txt"), Some(m.id));
}

#[test]
fn memory_round_trip_with_every_stage() {
    let engine = DiskStorage::new("/mem").with_compression(true).with_encryption([8; 32]).with_cache(4);
    let mut s = MemoryStorage::new(engine);
    let data = b"Temporary file data.".to_vec();
    let m = s.store_file("test.txt", &data).unwrap();
    assert_eq!(s.get_file(m.id).unwrap(), data);
}

#[test]
fn delete_removes_access() {
    let mut s = store();
    let m = s.store_file("a.txt", b"x").unwrap();
    assert_eq!(s.delete_file(m.id), Ok(()));
    assert!(matches!(s.get_file(m.id), Err(StorageError::NotFound(_))));
    assert!(matches!(s.delete_file(m.id), Err(StorageError::NotFound(_))));
}

#[test]
fn delete_removes_access_with_cache() {
    let mut s = MemoryStorage::new(DiskStorage::new("/mem").with_cache(10));
    let m = s.store_file("a.txt", b"x").unwrap();
    assert_eq!(s.get_file(m.id).unwrap(), b"x");
    s.delete_file(m.id).unwrap();
    assert!(matches!(s.get_file(m.id), Err(StorageError::NotFound(_))));
}

#[test]
fn delete_keeps_other_files() {
    let mut s = store();
    let a = s.store_file("a.txt", b"first").unwrap();
    let b = s.store_file("b.txt", b"second").unwrap();
    s.delete_file(a.id).unwrap();
    assert_eq!(s.get_file(b.id).unwrap(), b"second");
    assert_eq!(s.list_files().len(), 1);
}

#[test]
fn get_of_unknown_id_is_not_found() {
    let mut s = store();
    assert!(matches!(s.get_file(42), Err(StorageError::NotFound(_))));
}

#[test]
fn five_stores_list_five_files() {
    let mut s = store();
    for n in 0..5 {
        s.store_file(&format!("file{}.txt", n), format!("Data {}", n).as_bytes()).unwrap();
    }
    let files = s.list_files();
    assert_eq!(files.len(), 5);
    let names: Vec<String> = files.into_iter().map(|f| f.name).collect();
    assert!(names.contains(&"file3.txt".to_string()));
}

#[test]
fn same_name_points_to_latest_file() {
    let mut s = store();
    let first = s.store_file("same", b"one").unwrap();
    let second = s.store_file("same", b"two").unwrap();
    assert_eq!(s.lookup_name("same"), Some(second.id));
    assert_eq!(s.get_file(first.id).unwrap(), b"one");
}

#[test]
fn memory_detects_png() {
    let mut s = store();
    let m = s.store_file("test.png", &[0x89, 0x50, 0x4E, 0x47, 0x0D, 0x0A, 0x1A, 0x0A]).unwrap();
    assert_eq!(m.file_type, FileType::Image(ImageType::Png));
}

#[test]
fn test_delete_file() {
    let mut s = store();
    let metadata = s.store_file("test.txt", b"Temporary file data.").expect("Failed to store file");
    s.delete_file(metadata.id).expect("Failed to delete file");
    let result = s.get_file(metadata.id);
    assert!(result.is_err());
}

#[test]
fn test_list_files() {
    let mut s = store();
    s.store_file("file1.txt", b"Content of file1").expect("Failed to store file1");
    s.store_file("file2.txt", b"Content of file2").expect("Failed to store file2");
    let files = s.list_files();
    assert_eq!(files.len(), 2);
    let file_names: Vec<_> = files.into_iter().map(|f| f.name).collect();
    assert!(file_names.contains(&"file1.txt".to_string()));
    assert!(file_names.contains(&"file2.txt".to_string()));
}

#[test]
fn listed_records_are_complete() {
    let mut s = store();
    let m = s.store_file("a.txt", b"abc").unwrap();
    let listed = &s.list_files()[0];
    assert_eq!(listed.id, m.id);
    assert_eq!(listed.size, m.size);
    assert_eq!(listed.checksum, m.checksum);
    assert_eq!(listed.checksum.len(), 64);
    assert_eq!(listed.file_type, m.file_type);
    assert_eq!(listed.created_at, m.created_at);
    assert_eq!(listed.chunk_ids, m.chunk_ids);
}

#[test]
fn delete_keeps_names_and_other_cache_entries() {
    let mut s = MemoryStorage::new(DiskStorage::new("/mem").with_cache(4).with_compression(true));
    let a = s.store_file("a.txt", b"first").unwrap();
    let b = s.store_file("b.txt", b"second").unwrap();
    s.delete_file(a.id).unwrap();
    assert_eq!(s.lookup_name("a.txt"), Some(a.id));
    assert_eq!(s.get_file(b.id).unwrap(), b"second");
    let names: Vec<String> = s.list_files().into_iter().map(|f| f.name).collect();
    assert_eq!(names, vec!["b.txt".to_string()]);
}
