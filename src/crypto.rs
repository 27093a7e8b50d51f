//! Authenticated encryption of stored bytes.

pub mod encryption;
