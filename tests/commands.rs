use cloud_storage::command::{list_response, CommandError, Identifier, StorageCommand, StorageResponse, Target};
use cloud_storage::StorageError;
use cloud_storage::storage::disk::DiskStorage;
use cloud_storage::types::ChunkId;
use cloud_storage::types::{FileMetadata, FileType};

#[test]
fn parses_list() {
    assert_eq!(StorageCommand::parse(b"list"), Ok(StorageCommand::List));
    assert_eq!(StorageCommand::parse(b"list "), Err(CommandError::InvalidOperation));
    assert_eq!(StorageCommand::parse(b"list all files"), Err(CommandError::InvalidOperation));
}

#[test]
fn parses_upload() {
    assert_eq!(
        StorageCommand::parse(b"upload hello.txt SGVsbG8sIFdvcmxkIQ=="),
        Ok(StorageCommand::Upload { file_name: "hello.txt".to_string(), content: b"Hello, World!".to_vec() })
    );
    assert_eq!(StorageCommand::parse(b"upload hello.txt"), Err(CommandError::InvalidOperation));
    assert_eq!(StorageCommand::parse(b"upload a.txt ***"), Err(CommandError::InvalidBase64));
    assert_eq!(StorageCommand::parse(b"upload a.txt SGk= extra"), Err(CommandError::InvalidBase64));
}

#[test]
fn parses_download_and_delete() {
    let id: u128 = 0x67e55044_10b1_426f_9247_bb680e5fe0c8;
    let text = format!("download id {}", DiskStorage::chunk_file_name(ChunkId(id)));
    assert_eq!(StorageCommand::parse(text.as_bytes()), Ok(StorageCommand::Download(Target::Id(id))));
    assert_eq!(
        StorageCommand::parse(b"download name my file.txt"),
        Ok(StorageCommand::Download(Target::Name("my file.txt".to_string())))
    );
    assert_eq!(
        StorageCommand::parse(b"delete name a.txt"),
        Ok(StorageCommand::Delete(Target::Name("a.txt".to_string())))
    );
    let text = format!("delete id {}", DiskStorage::chunk_file_name(ChunkId(id)));
    assert_eq!(StorageCommand::parse(text.as_bytes()), Ok(StorageCommand::Delete(Target::Id(id))));
}

#[test]
fn rejects_bad_commands() {
    assert_eq!(StorageCommand::parse(&[0xff, 0xfe]), Err(CommandError::InvalidPayload));
    assert_eq!(StorageCommand::parse(b"rename a b"), Err(CommandError::InvalidOperation));
    assert_eq!(StorageCommand::parse(b""), Err(CommandError::InvalidOperation));
    assert_eq!(StorageCommand::parse(b"download path x"), Err(CommandError::InvalidIdentifierType));
    assert_eq!(StorageCommand::parse(b"delete id 1234"), Err(CommandError::InvalidId));
    assert_eq!(CommandError::InvalidBase64.message(), "Invalid base64 content");
    assert_eq!(CommandError::InvalidOperation.message(), "Invalid storage operation");
}

#[test]
fn list_response_has_one_line_per_file() {
    let file = |id: u128, name: &str| FileMetadata {
        id,
        name: name.to_string(),
        size: 0,
        created_at: 0,
        modified_at: 0,
        checksum: String::new(),
        file_type: FileType::Unknown,
        chunk_ids: Vec::new(),
    };
    let files = vec![file(1, "file1.txt"), file(2, "file2.txt")];
    assert_eq!(
        list_response(&files),
        "00000000-0000-0000-0000-000000000001: file1.txt\n00000000-0000-0000-0000-000000000002: file2.txt"
    );
    assert_eq!(list_response(&Vec::new()), "");
}

#[test]
fn identifier_from_param() {
    assert_eq!(Identifier::from_param("name:a.txt"), Identifier::Name("a.txt".to_string()));
    assert_eq!(Identifier::from_param("id:123"), Identifier::Id("123".to_string()));
    assert_eq!(Identifier::from_param("123"), Identifier::Id("123".to_string()));
    assert_eq!(Identifier::from_param("name:"), Identifier::Name(String::new()));
    assert_eq!(Identifier::Name("a b".to_string()).command("download"), "download name a b");
    assert_eq!(Identifier::Id("x".to_string()).command("delete"), "delete id x");
}

#[test]
fn responses_carry_their_texts() {
    let id: u128 = 1;
    let up = StorageResponse::uploaded(id);
    assert!(up.success);
    assert_eq!(up.message, "File uploaded successfully. File ID: 00000000-0000-0000-0000-000000000001");
    assert_eq!(StorageResponse::deleted(id).message, "File with ID 00000000-0000-0000-0000-000000000001 deleted");
    let failed = StorageResponse::failed("Download", &StorageError::NotFound("x".to_string()));
    assert!(!failed.success);
    assert_eq!(failed.message, "Download failed: File not found: x");
    let rejected = StorageResponse::rejected(CommandError::InvalidId);
    assert!(!rejected.success);
    assert_eq!(rejected.message, "Invalid file id");
    assert_eq!(StorageResponse::listing(&Vec::new()).message, "");
    assert_eq!(StorageResponse::downloaded("SGk=".to_string()).message, "SGk=");
}
