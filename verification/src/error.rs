//! What can go wrong.

use crate::platform::drive_letter::DriveLetter;
use vstd::prelude::*;

verus! {

/// Why an upper-case table could not be had.
#[derive(Debug, Clone, Copy, PartialEq, Eq, Structural)]
pub enum UpcaseFault {
    /// A file of only so many bytes.
    TooSmall(usize),
    /// The magic of a file is missing.
    Magic,
    /// A file of another version.
    Version(u32),
    /// A file whose drive is no letter.
    Drive(u8),
    /// The table does not have the checksum that its header gives.
    Checksum {
        /// The header's checksum.
        stored: u32,
        /// The table's checksum.
        computed: u32,
    },
    /// The table's record has no valid header.
    RecordHeader,
    /// The table's record has no data outside the record.
    NoData,
    /// The description of the table's data cannot be read.
    DataHeader,
    /// The table's data has no clusters.
    NoRuns,
    /// Data of another size than a table's.
    Size(u64),
    /// A run that does not fit into memory.
    RunTooLong {
        /// Clusters of the run.
        cluster_count: u64,
        /// Size of a cluster.
        bytes_per_cluster: u32,
    },
    /// A run that begins behind the table's end.
    RunBounds(usize),
    /// A place that no seek can reach.
    Offset(u128),
    /// A read that brought too little.
    ShortRead {
        /// What came.
        got: usize,
        /// What was asked for.
        wanted: usize,
    },
    /// The runs cover only so many bytes.
    Incomplete(usize),
}

/// Why some bytes are not what they should be.
#[derive(Debug, Clone, Copy, PartialEq, Eq, Structural)]
pub enum DataFault {
    /// The magic of a raw table file is missing.
    RawMagic,
    /// A raw table file of a newer version.
    RawVersion(u32),
    /// The table data does not have the size that its header gives.
    RawSize {
        /// Records times record size.
        expected: u128,
        /// What the file holds.
        got: u64,
    },
    /// A bare table whose size is no multiple of its record size.
    BareSize {
        /// Size of the file.
        file_size: u64,
        /// Size of a record.
        record_size: u32,
    },
    /// None of the known formats.
    UnknownFormat,
    /// The magic of a capture file is missing.
    CaptureMagic,
    /// A capture file of a newer version.
    CaptureVersion(u32),
    /// A captured chunk whose data does not have the size of its records.
    ChunkSize {
        /// First record of the chunk.
        start_frs: u64,
        /// Records times record size.
        expected: u128,
        /// What the capture holds.
        got: u64,
    },
    /// A captured chunk that reaches beyond the table.
    ChunkBounds {
        /// First record of the chunk.
        start_frs: u64,
        /// Where the chunk ends.
        end: u128,
        /// Where the table ends.
        size: u64,
    },
    /// A captured table that does not fit into memory.
    CaptureTooLarge(u128),
    /// The upper-case table.
    Upcase(UpcaseFault),
    /// A table of so many records does not fit into memory.
    TableTooLarge(u64),
    /// Of the boot sector only so many bytes came.
    ShortBootSector(u32),
}

/// Why reading or writing failed.
#[derive(Debug, Clone, Copy, PartialEq, Eq, Structural)]
pub enum IoFault {
    /// The data ended too early.
    UnexpectedEof,
    /// The compressed data could not be made or read.
    Codec,
    /// The operating system reported an error.
    Os(i32),
    /// The thread that reads ahead panicked.
    ReaderPanicked,
}

/// Why the extents of a file could not be found.
#[derive(Debug, Clone, Copy, PartialEq, Eq, Structural)]
pub enum RetrievalFault {
    /// The buffer would have to be larger than the system takes.
    BufferTooLarge(u64),
    /// The query failed.
    Query {
        /// The result code.
        hresult: u32,
        /// The system code inside it.
        code: u32,
    },
}

/// Why a request cannot be served.
#[derive(Debug, Clone, Copy, PartialEq, Eq, Structural)]
pub enum InputFault {
    /// No drive was named.
    NoDrives,
    /// No drive could be read.
    NoDriveRead,
    /// A task for one of the drives did not end by itself.
    TaskFailed,
    /// A reader of a file was asked for what only a live volume has.
    NotLive,
}

/// An error of this library.
#[derive(Debug, Clone, PartialEq, Eq)]
pub enum MftError {
    /// The operation needs a live volume, which this platform cannot open.
    PlatformNotSupported,
    /// The process may not read volumes directly.
    InsufficientPrivileges,
    /// Malformed data.
    InvalidData(DataFault),
    /// A request that cannot be served.
    InvalidInput(InputFault),
    /// Reading or writing failed.
    Io(IoFault),
    /// A volume could not be opened.
    VolumeOpen {
        /// The volume.
        volume: DriveLetter,
        /// What the system reported.
        source: IoFault,
    },
    /// A volume does not hold this file system.
    NotNtfs(DriveLetter),
    /// The boot sector is not one of this file system.
    InvalidBootSector,
    /// The extents of a file could not be found.
    RetrievalPointers(RetrievalFault),
    /// A wait was cancelled.
    Cancelled {
        /// What was waited for.
        operation: &'static str,
        /// Why.
        reason: String,
    },
    /// A wait failed.
    WaitFailed {
        /// What was waited for.
        operation: &'static str,
        /// Why.
        reason: String,
    },
    /// A wait took too long.
    Timeout {
        /// What was waited for.
        operation: &'static str,
        /// Why.
        reason: String,
    },
}

} // verus!
