//! The engine and the stages around it.

pub mod cache;
pub mod compression;
pub mod disk;
pub mod memory;
pub mod name_index;
pub mod progress;
pub mod retry;
pub mod validation;
