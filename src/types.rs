//! The records that the engine stores and hands out.

pub mod chunk;
pub mod file;
pub mod metadata;

pub use chunk::{Chunk, ChunkId};
pub use file::{AudioType, DocumentType, FileKind, FileType, FileTypeDetector, ImageType, VideoType};
pub use metadata::FileMetadata;
