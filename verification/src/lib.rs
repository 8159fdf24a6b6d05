//! Reading the NTFS Master File Table: on-disk and capture formats, volume
//! geometry, change-journal records and directory size accounting.
//!
//! Everything here works on values in memory. Opening volumes, reading files
//! and talking to the operating system is left to the caller.

pub mod bytes;
pub mod codec;
pub mod error;
pub mod index;
pub mod ntfs;
pub mod platform;
pub mod raw;
pub mod raw_iocp;
pub mod reader;
pub mod scan;
pub mod text;
pub mod tree_metrics;
pub mod usn;
