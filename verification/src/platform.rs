//! Volumes: drive letters, cluster numbers, extents, allocation bitmaps and
//! the properties of the drive underneath.

pub mod bitmap;
pub mod drive_letter;
pub mod drive_pattern;
pub mod extents;
pub mod lcn;
pub mod system;
pub mod upcase;
pub mod volume;
pub mod win32;

pub use self::bitmap::MftBitmap;
pub use self::drive_letter::{DriveLetter, DriveLetterError};
pub use self::drive_pattern::split_drive_prefix;
pub use self::extents::MftExtent;
pub use self::lcn::Lcn;
pub use self::volume::{NtfsVolumeData, VolumeHandle};
