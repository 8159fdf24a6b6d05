//! Why a record was written to the change journal. The values are bits of one
//! number.

use vstd::prelude::*;

verus! {

/// Data in the default data stream was overwritten.
pub const DATA_OVERWRITE: u32 = 0x0000_0001;

/// Data in the default data stream was extended.
pub const DATA_EXTEND: u32 = 0x0000_0002;

/// Data in the default data stream was truncated.
pub const DATA_TRUNCATION: u32 = 0x0000_0004;

/// Data in a named data stream was overwritten.
pub const NAMED_DATA_OVERWRITE: u32 = 0x0000_0010;

/// Data in a named data stream was extended.
pub const NAMED_DATA_EXTEND: u32 = 0x0000_0020;

/// Data in a named data stream was truncated.
pub const NAMED_DATA_TRUNCATION: u32 = 0x0000_0040;

/// A new file or directory was created.
pub const FILE_CREATE: u32 = 0x0000_0100;

/// A file or directory was deleted.
pub const FILE_DELETE: u32 = 0x0000_0200;

/// Extended attributes were changed.
pub const EA_CHANGE: u32 = 0x0000_0400;

/// Security descriptor was changed.
pub const SECURITY_CHANGE: u32 = 0x0000_0800;

/// File or directory was renamed (old name).
pub const RENAME_OLD_NAME: u32 = 0x0000_1000;

/// File or directory was renamed (new name).
pub const RENAME_NEW_NAME: u32 = 0x0000_2000;

/// Indexable content was changed.
pub const INDEXABLE_CHANGE: u32 = 0x0000_4000;

/// Basic file attributes were changed.
pub const BASIC_INFO_CHANGE: u32 = 0x0000_8000;

/// Hard link was added or removed.
pub const HARD_LINK_CHANGE: u32 = 0x0001_0000;

/// Compression state was changed.
pub const COMPRESSION_CHANGE: u32 = 0x0002_0000;

/// Encryption state was changed.
pub const ENCRYPTION_CHANGE: u32 = 0x0004_0000;

/// Object identifier was changed.
pub const OBJECT_ID_CHANGE: u32 = 0x0008_0000;

/// Reparse point was changed.
pub const REPARSE_POINT_CHANGE: u32 = 0x0010_0000;

/// Named data stream was added or removed.
pub const STREAM_CHANGE: u32 = 0x0020_0000;

/// Transacted change.
pub const TRANSACTED_CHANGE: u32 = 0x0040_0000;

/// Integrity state was changed.
pub const INTEGRITY_CHANGE: u32 = 0x0080_0000;

/// File handle was closed, the last record of a change.
pub const CLOSE: u32 = 0x8000_0000;

} // verus!
