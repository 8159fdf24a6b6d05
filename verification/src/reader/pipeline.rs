//! The course of a read: which handle is opened, which reader runs on it, what
//! happens when that fails, and what is built in the end.

use super::read_mode::{dataframe_effective_mode, index_effective_mode, MftReadMode};
use crate::error::MftError;
use crate::index::MftIndex;
use crate::platform::bitmap::MftBitmap;
use crate::platform::extents::MftExtent;
use crate::platform::system::DriveType;
use crate::platform::volume::NtfsVolumeData;
use crate::tree_metrics::compute_tree_metrics;
use crate::tree_metrics::walkable::is_walkable;
use vstd::prelude::*;

verus! {

/// What is built from a table.
#[derive(Debug, Clone, Copy, PartialEq, Eq, Structural)]
pub enum ReadTarget {
    /// An index.
    Index,
    /// Columns.
    Columns,
}

/// A way of reading all records.
#[derive(Debug, Clone, Copy, PartialEq, Eq, Structural)]
pub enum ReaderKind {
    /// Read all chunks, then parse them on several threads.
    Parallel,
    /// Parse each chunk as soon as it is read.
    Streaming,
    /// Read the next chunk while one is parsed.
    Prefetch,
    /// Read on one thread and parse on another one.
    Pipelined,
    /// Read on one thread and parse on several.
    PipelinedParallel,
    /// Keep several overlapped reads in flight.
    Iocp,
    /// Read everything into one buffer, then parse it.
    Bulk,
    /// Issue all overlapped reads at once.
    BulkIocp,
    /// Slide a window of overlapped reads over the table.
    SlidingIocp,
    /// Slide a window of overlapped reads over the table, and put the records
    /// straight into an index.
    SlidingIocpInline,
    /// Read the table's file from its start to its end.
    TableFile,
}

/// A handle that a reader runs on.
#[derive(Debug, Clone, Copy, PartialEq, Eq, Structural)]
pub enum HandleKind {
    /// The handle of the volume, which is open anyway.
    Volume,
    /// A handle of the volume for overlapped reads.
    Overlapped,
    /// A handle of the table's file.
    TableFile,
    /// A handle of the volume that bypasses the system's cache.
    Unbuffered,
}

/// The reader of a mode.
pub open spec fn reader_of(target: ReadTarget, mode: MftReadMode) -> ReaderKind {
    match mode {
        MftReadMode::Auto | MftReadMode::Parallel => ReaderKind::Parallel,
        MftReadMode::Streaming => if target is Index {
            ReaderKind::Parallel
        } else {
            ReaderKind::Streaming
        },
        MftReadMode::Prefetch => if target is Index {
            ReaderKind::Parallel
        } else {
            ReaderKind::Prefetch
        },
        MftReadMode::Pipelined => ReaderKind::Pipelined,
        MftReadMode::PipelinedParallel => ReaderKind::PipelinedParallel,
        MftReadMode::IocpParallel => ReaderKind::Iocp,
        MftReadMode::Bulk => ReaderKind::Bulk,
        MftReadMode::BulkIocp => ReaderKind::BulkIocp,
        MftReadMode::SlidingIocp => ReaderKind::SlidingIocp,
        MftReadMode::SlidingIocpInline => if target is Index {
            ReaderKind::SlidingIocpInline
        } else {
            ReaderKind::SlidingIocp
        },
    }
}

/// The reader needs a handle for overlapped reads.
pub open spec fn is_overlapped(reader: ReaderKind) -> bool {
    reader is Iocp || reader is BulkIocp || reader is SlidingIocp || reader is SlidingIocpInline
}

/// The reader of a mode reports its progress. It does not where it stands in
/// for another one, or puts records straight into an index.
pub open spec fn reports(target: ReadTarget, mode: MftReadMode) -> bool {
    target is Columns || !(mode is Streaming || mode is Prefetch || mode is SlidingIocpInline)
}

/// The mode in which a table is read.
pub open spec fn effective(
    target: ReadTarget,
    mode: MftReadMode,
    drive_type: DriveType,
) -> MftReadMode {
    if mode is Auto {
        if target is Index {
            MftReadMode::SlidingIocpInline
        } else {
            super::read_mode::automatic_mode(drive_type)
        }
    } else {
        mode
    }
}

fn choose_reader(target: ReadTarget, mode: MftReadMode) -> (r: ReaderKind)
    ensures
        r == reader_of(target, mode),
{
    match (mode, target) {
        (MftReadMode::Auto, _) => ReaderKind::Parallel,
        (MftReadMode::Parallel, _) => ReaderKind::Parallel,
        (MftReadMode::Streaming, ReadTarget::Index) => ReaderKind::Parallel,
        (MftReadMode::Streaming, ReadTarget::Columns) => ReaderKind::Streaming,
        (MftReadMode::Prefetch, ReadTarget::Index) => ReaderKind::Parallel,
        (MftReadMode::Prefetch, ReadTarget::Columns) => ReaderKind::Prefetch,
        (MftReadMode::Pipelined, _) => ReaderKind::Pipelined,
        (MftReadMode::PipelinedParallel, _) => ReaderKind::PipelinedParallel,
        (MftReadMode::IocpParallel, _) => ReaderKind::Iocp,
        (MftReadMode::Bulk, _) => ReaderKind::Bulk,
        (MftReadMode::BulkIocp, _) => ReaderKind::BulkIocp,
        (MftReadMode::SlidingIocp, _) => ReaderKind::SlidingIocp,
        (MftReadMode::SlidingIocpInline, ReadTarget::Index) => ReaderKind::SlidingIocpInline,
        (MftReadMode::SlidingIocpInline, ReadTarget::Columns) => ReaderKind::SlidingIocp,
    }
}

/// The settings of a read.
#[derive(Debug, Clone, Copy, PartialEq, Eq, Structural)]
pub struct ReadSettings {
    /// How the table is read.
    pub mode: MftReadMode,
    /// Whether extension records are merged into their base records.
    pub merge_extensions: bool,
    /// Whether records that are not in use are passed over.
    pub use_bitmap: bool,
    /// Whether every hard link gets a row of its own.
    pub expand_links: bool,
    /// Whether directories that are missing are filled in.
    pub add_placeholders: bool,
    /// How many reads are in flight. `None` for what suits the drive.
    pub concurrency: Option<usize>,
    /// How much is read at once, in bytes. `None` for what suits the drive.
    pub io_size: Option<usize>,
    /// Whether records are parsed on several threads. `None` for what suits
    /// the drive.
    pub parallel_parse: Option<bool>,
    /// How many threads parse. `None` for what suits the machine.
    pub parse_workers: Option<usize>,
    /// Whether deleted, damaged and extension records are wanted too.
    pub forensic: bool,
}

/// What a reader is told besides its handle and the kind of drive.
#[derive(Debug, Clone, Copy, PartialEq, Eq, Structural)]
pub struct ReadArguments {
    /// Whether it gets the bitmap of the table, to pass over records that are
    /// not in use.
    pub bitmap: bool,
    /// Whether it merges extension records into their base records.
    pub merge_extensions: bool,
    /// How many reads it keeps in flight, if it is told.
    pub concurrency: Option<usize>,
    /// How much it reads at once, if it is told.
    pub io_size: Option<usize>,
    /// Whether it parses on threads of its own while it reads.
    pub parallel_parse: bool,
    /// How many threads it parses on, if it is told.
    pub parse_workers: Option<usize>,
    /// Whether it keeps deleted, damaged and extension records.
    pub forensic: bool,
}

impl ReadSettings {
    /// A reader on a handle gets the bitmap. The table's file is read from its
    /// start to its end, and past the system's cache the bitmap always serves.
    pub open spec fn hands_bitmap(self, handle: HandleKind) -> bool {
        match handle {
            HandleKind::TableFile => false,
            HandleKind::Unbuffered => true,
            HandleKind::Volume | HandleKind::Overlapped => self.use_bitmap,
        }
    }

    /// Records are parsed on several threads while a drive of a kind is read.
    pub open spec fn parses_in_parallel(self, drive_type: DriveType) -> bool {
        match self.parallel_parse {
            Some(parallel) => parallel,
            None => drive_type is Nvme,
        }
    }

    /// What a reader on a handle is told. Only the reader that puts records
    /// straight into an index can be told how to read and where to parse.
    pub open spec fn arguments(
        self,
        reader: ReaderKind,
        handle: HandleKind,
        drive_type: DriveType,
    ) -> ReadArguments {
        let inline = reader is SlidingIocpInline;
        let parallel = inline && self.parses_in_parallel(drive_type);
        ReadArguments {
            bitmap: self.hands_bitmap(handle),
            merge_extensions: self.merge_extensions,
            concurrency: if inline {
                self.concurrency
            } else {
                None
            },
            io_size: if inline {
                self.io_size
            } else {
                None
            },
            parallel_parse: parallel,
            parse_workers: if parallel {
                self.parse_workers
            } else {
                None
            },
            forensic: self.forensic,
        }
    }

    fn exec_arguments(&self, reader: ReaderKind, handle: HandleKind, drive_type: DriveType) -> (r:
        ReadArguments)
        ensures
            r == self.arguments(reader, handle, drive_type),
    {
        let bitmap = match handle {
            HandleKind::TableFile => false,
            HandleKind::Unbuffered => true,
            HandleKind::Volume | HandleKind::Overlapped => self.use_bitmap,
        };
        match reader {
            ReaderKind::SlidingIocpInline => {
                let parallel_parse = match self.parallel_parse {
                    Some(parallel) => parallel,
                    None => drive_type.benefits_from_parallel_parsing(),
                };
                ReadArguments {
                    bitmap,
                    merge_extensions: self.merge_extensions,
                    concurrency: self.concurrency,
                    io_size: self.io_size,
                    parallel_parse,
                    parse_workers: if parallel_parse {
                        self.parse_workers
                    } else {
                        None
                    },
                    forensic: self.forensic,
                }
            },
            _ => ReadArguments {
                bitmap,
                merge_extensions: self.merge_extensions,
                concurrency: None,
                io_size: None,
                parallel_parse: false,
                parse_workers: None,
                forensic: self.forensic,
            },
        }
    }

    /// What the reader of a timed read is told. A timed read into columns
    /// always uses the bitmap.
    pub open spec fn timed(self, target: ReadTarget) -> ReadArguments {
        ReadArguments {
            bitmap: target is Columns || self.use_bitmap,
            merge_extensions: self.merge_extensions,
            concurrency: None,
            io_size: None,
            parallel_parse: false,
            parse_workers: None,
            forensic: self.forensic,
        }
    }

    /// What the reader of a timed read is told.
    pub fn timed_arguments(&self, target: ReadTarget) -> (r: ReadArguments)
        ensures
            r == self.timed(target),
    {
        ReadArguments {
            bitmap: match target {
                ReadTarget::Columns => true,
                ReadTarget::Index => self.use_bitmap,
            },
            merge_extensions: self.merge_extensions,
            concurrency: None,
            io_size: None,
            parallel_parse: false,
            parse_workers: None,
            forensic: self.forensic,
        }
    }
}

impl ReadArguments {
    /// The bitmap that the reader gets, of the one that was loaded.
    pub fn bitmap_for(&self, loaded: Option<MftBitmap>) -> (r: Option<MftBitmap>)
        ensures
            r == if self.bitmap {
                loaded
            } else {
                None
            },
            r is Some <==> self.bitmap && loaded is Some,
    {
        if self.bitmap {
            loaded
        } else {
            None
        }
    }
}

/// What the caller does next.
#[derive(Debug, PartialEq, Eq)]
pub enum Action {
    /// Report that so many of all records and bytes were read.
    Report {
        /// The records.
        records: u64,
        /// The bytes.
        bytes: u64,
    },
    /// Open a handle.
    Open(HandleKind),
    /// Run a reader on a handle.
    Read {
        /// The reader.
        reader: ReaderKind,
        /// The handle.
        handle: HandleKind,
        /// Whether the reader reports its progress.
        reports: bool,
        /// The kind of drive to read for.
        drive_type: DriveType,
        /// What else the reader is told.
        arguments: ReadArguments,
    },
    /// Close a handle.
    Close(HandleKind),
    /// Complete an index that holds all records: set its reserved bytes,
    /// compute the figures of its tree and index its names.
    CompleteIndex,
    /// Fill in the directories that are missing.
    AddPlaceholders,
    /// Build what is wanted from the records.
    Build {
        /// Whether every hard link gets a row of its own. An index has no
        /// rows.
        expand_links: bool,
    },
    /// The read is done.
    Return,
    /// The read failed.
    Fail(MftError),
}

/// What became of the last action.
#[derive(Debug, PartialEq, Eq)]
pub enum Event {
    /// It was done.
    Done,
    /// It failed.
    Failed(MftError),
}

/// How far a read has come.
#[derive(Debug, PartialEq, Eq)]
pub enum Stage {
    /// Nothing was done yet.
    Begin,
    /// The start was reported.
    Announced,
    /// A handle is being opened.
    Opening(HandleKind),
    /// A reader runs.
    Reading(HandleKind),
    /// A handle is being closed after its reader succeeded.
    ClosingAfterRead(HandleKind),
    /// A handle is being closed after its reader failed.
    ClosingAfterFailure(HandleKind, MftError),
    /// An index is being completed.
    Completing,
    /// Directories are being filled in.
    Filling,
    /// The end was reported, and what is wanted is not built yet.
    ReportedEarly,
    /// What is wanted is being built.
    Building,
    /// The end was reported.
    Reported,
    /// The read is over.
    Over,
}

/// What a read is to do.
#[derive(Debug, Clone, Copy, PartialEq, Eq, Structural)]
pub struct ReadPlan {
    /// What is built.
    pub target: ReadTarget,
    /// The mode in which the table is read.
    pub mode: MftReadMode,
    /// The kind of drive.
    pub drive_type: DriveType,
    /// Whether progress is reported.
    pub wants_progress: bool,
    /// The settings.
    pub settings: ReadSettings,
    /// Number of records.
    pub total_records: u64,
    /// Size of the table, in bytes.
    pub total_bytes: u64,
}

impl ReadPlan {
    /// The plan of a read with some settings.
    pub fn new(
        target: ReadTarget,
        settings: ReadSettings,
        drive_type: DriveType,
        wants_progress: bool,
        total_records: u64,
        record_size: u32,
    ) -> (r: ReadPlan)
        requires
            total_records * record_size <= u64::MAX,
        ensures
            r.target == target,
            r.mode == effective(target, settings.mode, drive_type),
            r.drive_type == drive_type,
            r.wants_progress == wants_progress,
            r.settings == settings,
            r.total_records == total_records,
            r.total_bytes == total_records * record_size,
    {
        let mode = match target {
            ReadTarget::Index => index_effective_mode(settings.mode, drive_type),
            ReadTarget::Columns => dataframe_effective_mode(settings.mode, drive_type),
        };
        assert(0 <= total_records * record_size) by (nonlinear_arith)
            requires
                0 <= total_records,
                0 <= record_size,
        ;
        ReadPlan {
            target,
            mode,
            drive_type,
            wants_progress,
            settings,
            total_records,
            total_bytes: total_records * record_size as u64,
        }
    }

    /// The read of the chosen reader.
    pub open spec fn main_read(self, handle: HandleKind) -> Action {
        let reader = reader_of(self.target, self.mode);
        Action::Read {
            reader,
            handle,
            reports: self.wants_progress && reports(self.target, self.mode),
            drive_type: self.drive_type,
            arguments: self.settings.arguments(reader, handle, self.drive_type),
        }
    }

    /// A read that stands in for the one of the chosen reader.
    pub open spec fn other_read(
        self,
        reader: ReaderKind,
        handle: HandleKind,
        drive_type: DriveType,
    ) -> Action {
        Action::Read {
            reader,
            handle,
            reports: false,
            drive_type,
            arguments: self.settings.arguments(reader, handle, drive_type),
        }
    }

    /// How what is wanted is built.
    pub open spec fn build(self) -> Action {
        Action::Build { expand_links: self.target is Columns && self.settings.expand_links }
    }

    /// The report of the end.
    pub open spec fn final_report(self) -> Action {
        Action::Report { records: self.total_records, bytes: self.total_bytes }
    }

    /// How the read begins after the start was reported.
    pub open spec fn first_read(self) -> (Stage, Action) {
        if is_overlapped(reader_of(self.target, self.mode)) {
            (Stage::Opening(HandleKind::Overlapped), Action::Open(HandleKind::Overlapped))
        } else {
            (Stage::Reading(HandleKind::Volume), self.main_read(HandleKind::Volume))
        }
    }

    /// How the read goes on after the records are complete. Columns are built
    /// after the end was reported, an index before.
    pub open spec fn after_filling(self) -> (Stage, Action) {
        if self.target is Columns && self.wants_progress {
            (Stage::ReportedEarly, self.final_report())
        } else {
            (Stage::Building, self.build())
        }
    }

    /// How the read goes on after the records were read.
    pub open spec fn after_records(self) -> (Stage, Action) {
        if self.settings.add_placeholders {
            (Stage::Filling, Action::AddPlaceholders)
        } else {
            self.after_filling()
        }
    }

    /// How an index that is done is reported.
    pub open spec fn after_index(self) -> (Stage, Action) {
        if self.wants_progress {
            (Stage::Reported, self.final_report())
        } else {
            (Stage::Over, Action::Return)
        }
    }

    /// How the read goes on after a stage was done.
    pub open spec fn done(self, stage: Stage) -> (Stage, Action) {
        match stage {
            Stage::Begin => if self.wants_progress {
                (Stage::Announced, Action::Report { records: 0, bytes: 0 })
            } else {
                self.first_read()
            },
            Stage::Announced => self.first_read(),
            Stage::Opening(HandleKind::TableFile) => (
                Stage::Reading(HandleKind::TableFile),
                self.other_read(ReaderKind::TableFile, HandleKind::TableFile, self.drive_type),
            ),
            Stage::Opening(HandleKind::Unbuffered) => (
                Stage::Reading(HandleKind::Unbuffered),
                self.other_read(ReaderKind::Parallel, HandleKind::Unbuffered, DriveType::Hdd),
            ),
            Stage::Opening(handle) => (Stage::Reading(handle), self.main_read(handle)),
            Stage::Reading(HandleKind::Volume) => self.after_records(),
            Stage::Reading(handle) => (Stage::ClosingAfterRead(handle), Action::Close(handle)),
            Stage::ClosingAfterRead(handle) => if handle is Overlapped && reader_of(
                self.target,
                self.mode,
            ) is SlidingIocpInline {
                (Stage::Completing, Action::CompleteIndex)
            } else {
                self.after_records()
            },
            Stage::ClosingAfterFailure(handle, error) => if handle is Overlapped && reader_of(
                self.target,
                self.mode,
            ) is SlidingIocpInline {
                (Stage::Opening(HandleKind::TableFile), Action::Open(HandleKind::TableFile))
            } else {
                (Stage::Over, Action::Fail(error))
            },
            Stage::Completing => self.after_index(),
            Stage::Filling => self.after_filling(),
            Stage::ReportedEarly => (Stage::Building, self.build()),
            Stage::Building => if self.target is Index {
                self.after_index()
            } else {
                (Stage::Over, Action::Return)
            },
            Stage::Reported => (Stage::Over, Action::Return),
            Stage::Over => (Stage::Over, Action::Return),
        }
    }

    /// How the read goes on after a stage failed. A handle is closed first,
    /// and where the table's file cannot be opened the volume is read past the
    /// system's cache.
    pub open spec fn failed(self, stage: Stage, error: MftError) -> (Stage, Action) {
        match stage {
            Stage::Opening(HandleKind::TableFile) => (
                Stage::Opening(HandleKind::Unbuffered),
                Action::Open(HandleKind::Unbuffered),
            ),
            Stage::Reading(handle) => if handle is Volume {
                (Stage::Over, Action::Fail(error))
            } else {
                (Stage::ClosingAfterFailure(handle, error), Action::Close(handle))
            },
            Stage::ClosingAfterRead(_) | Stage::ClosingAfterFailure(_, _) => self.done(stage),
            _ => (Stage::Over, Action::Fail(error)),
        }
    }

    /// How the read goes on.
    pub open spec fn step(self, stage: Stage, event: Event) -> (Stage, Action) {
        match event {
            Event::Done => self.done(stage),
            Event::Failed(error) => self.failed(stage, error),
        }
    }

    fn exec_main_read(&self, handle: HandleKind) -> (r: Action)
        ensures
            r == self.main_read(handle),
    {
        let reports = self.wants_progress && match self.target {
            ReadTarget::Columns => true,
            ReadTarget::Index => match self.mode {
                MftReadMode::Streaming | MftReadMode::Prefetch | MftReadMode::SlidingIocpInline =>
                false,
                _ => true,
            },
        };
        let reader = choose_reader(self.target, self.mode);
        Action::Read {
            reader,
            handle,
            reports,
            drive_type: self.drive_type,
            arguments: self.settings.exec_arguments(reader, handle, self.drive_type),
        }
    }

    fn exec_other_read(&self, reader: ReaderKind, handle: HandleKind, drive_type: DriveType) -> (r:
        Action)
        ensures
            r == self.other_read(reader, handle, drive_type),
    {
        Action::Read {
            reader,
            handle,
            reports: false,
            drive_type,
            arguments: self.settings.exec_arguments(reader, handle, drive_type),
        }
    }

    fn exec_build(&self) -> (r: Action)
        ensures
            r == self.build(),
    {
        Action::Build {
            expand_links: match self.target {
                ReadTarget::Columns => self.settings.expand_links,
                ReadTarget::Index => false,
            },
        }
    }

    fn exec_first_read(&self) -> (r: (Stage, Action))
        ensures
            r == self.first_read(),
    {
        match choose_reader(self.target, self.mode) {
            ReaderKind::Iocp
            | ReaderKind::BulkIocp
            | ReaderKind::SlidingIocp
            | ReaderKind::SlidingIocpInline => (
                Stage::Opening(HandleKind::Overlapped),
                Action::Open(HandleKind::Overlapped),
            ),
            _ => (Stage::Reading(HandleKind::Volume), self.exec_main_read(HandleKind::Volume)),
        }
    }

    fn exec_final_report(&self) -> (r: Action)
        ensures
            r == self.final_report(),
    {
        Action::Report { records: self.total_records, bytes: self.total_bytes }
    }

    fn exec_after_filling(&self) -> (r: (Stage, Action))
        ensures
            r == self.after_filling(),
    {
        match self.target {
            ReadTarget::Columns if self.wants_progress => (
                Stage::ReportedEarly,
                self.exec_final_report(),
            ),
            _ => (Stage::Building, self.exec_build()),
        }
    }

    fn exec_after_records(&self) -> (r: (Stage, Action))
        ensures
            r == self.after_records(),
    {
        if self.settings.add_placeholders {
            (Stage::Filling, Action::AddPlaceholders)
        } else {
            self.exec_after_filling()
        }
    }

    fn exec_after_index(&self) -> (r: (Stage, Action))
        ensures
            r == self.after_index(),
    {
        if self.wants_progress {
            (Stage::Reported, self.exec_final_report())
        } else {
            (Stage::Over, Action::Return)
        }
    }

    fn is_inline(&self, handle: HandleKind) -> (r: bool)
        ensures
            r == (handle is Overlapped && reader_of(self.target, self.mode) is SlidingIocpInline),
    {
        match (handle, choose_reader(self.target, self.mode)) {
            (HandleKind::Overlapped, ReaderKind::SlidingIocpInline) => true,
            _ => false,
        }
    }

    fn exec_done(&self, stage: Stage) -> (r: (Stage, Action))
        ensures
            r == self.done(stage),
    {
        match stage {
            Stage::Begin => if self.wants_progress {
                (Stage::Announced, Action::Report { records: 0, bytes: 0 })
            } else {
                self.exec_first_read()
            },
            Stage::Announced => self.exec_first_read(),
            Stage::Opening(handle) => match handle {
                HandleKind::TableFile => (
                    Stage::Reading(HandleKind::TableFile),
                    self.exec_other_read(
                        ReaderKind::TableFile,
                        HandleKind::TableFile,
                        self.drive_type,
                    ),
                ),
                HandleKind::Unbuffered => (
                    Stage::Reading(HandleKind::Unbuffered),
                    self.exec_other_read(
                        ReaderKind::Parallel,
                        HandleKind::Unbuffered,
                        DriveType::Hdd,
                    ),
                ),
                other => (Stage::Reading(other), self.exec_main_read(other)),
            },
            Stage::Reading(handle) => match handle {
                HandleKind::Volume => self.exec_after_records(),
                other => (Stage::ClosingAfterRead(other), Action::Close(other)),
            },
            Stage::ClosingAfterRead(handle) => if self.is_inline(handle) {
                (Stage::Completing, Action::CompleteIndex)
            } else {
                self.exec_after_records()
            },
            Stage::ClosingAfterFailure(handle, error) => if self.is_inline(handle) {
                (Stage::Opening(HandleKind::TableFile), Action::Open(HandleKind::TableFile))
            } else {
                (Stage::Over, Action::Fail(error))
            },
            Stage::Completing => self.exec_after_index(),
            Stage::Filling => self.exec_after_filling(),
            Stage::ReportedEarly => (Stage::Building, self.exec_build()),
            Stage::Building => match self.target {
                ReadTarget::Index => self.exec_after_index(),
                ReadTarget::Columns => (Stage::Over, Action::Return),
            },
            Stage::Reported => (Stage::Over, Action::Return),
            Stage::Over => (Stage::Over, Action::Return),
        }
    }

    /// Goes on with a read: what is done after a stage came to its end.
    pub fn advance(&self, stage: Stage, event: Event) -> (r: (Stage, Action))
        ensures
            r == self.step(stage, event),
    {
        match event {
            Event::Done => self.exec_done(stage),
            Event::Failed(error) => match stage {
                Stage::Opening(HandleKind::TableFile) => (
                    Stage::Opening(HandleKind::Unbuffered),
                    Action::Open(HandleKind::Unbuffered),
                ),
                Stage::Reading(handle) => match handle {
                    HandleKind::Volume => (Stage::Over, Action::Fail(error)),
                    other => (Stage::ClosingAfterFailure(other, error), Action::Close(other)),
                },
                Stage::ClosingAfterRead(handle) => self.exec_done(Stage::ClosingAfterRead(handle)),
                Stage::ClosingAfterFailure(handle, first) => self.exec_done(
                    Stage::ClosingAfterFailure(handle, first),
                ),
                _ => (Stage::Over, Action::Fail(error)),
            },
        }
    }
}

/// The extents by which a reader on a handle reads a table. Where they could
/// not be found, the table is taken to be a single extent, except past the
/// system's cache, where the read fails.
pub fn extents_for(
    handle: HandleKind,
    volume: &NtfsVolumeData,
    found: Result<Vec<MftExtent>, MftError>,
) -> (r: Result<Vec<MftExtent>, MftError>)
    requires
        volume.bytes_per_cluster != 0,
    ensures
        match (found, handle) {
            (Err(e), HandleKind::Unbuffered) => r == Err::<Vec<MftExtent>, MftError>(e),
            (Err(_), _) => r matches Ok(extents) && extents@ == seq![volume.single_extent()],
            (Ok(extents), _) => r matches Ok(same) && same@ == extents@,
        },
        r is Err <==> found is Err && handle is Unbuffered,
{
    match handle {
        HandleKind::Unbuffered => found,
        _ => Ok(volume.extents_or_whole(found)),
    }
}

/// An index of a volume, with the bytes that the volume holds back.
pub open spec fn with_reserved(
    ix: crate::index::IndexView,
    volume: NtfsVolumeData,
) -> crate::index::IndexView {
    crate::index::IndexView { reserved_allocated_bytes: volume.reserved_bytes() as u64, ..ix }
}

/// Completes an index that holds all records of a volume: sets the bytes that
/// the volume holds back and fills in the figures of the tree. `false`, without
/// figures, where a walk over the records would not come to an end.
pub fn complete_index(index: &mut MftIndex, volume: &NtfsVolumeData, skip_orphans: bool) -> (r:
    bool)
    requires
        volume.reserved_bytes() <= u64::MAX,
    ensures
        r <==> crate::tree_metrics::can_be_walked(
            with_reserved(old(index)@, *volume),
            skip_orphans,
        ),
        final(index)@ == if r {
            crate::tree_metrics::tree_metrics(with_reserved(old(index)@, *volume), skip_orphans)
        } else {
            with_reserved(old(index)@, *volume)
        },
{
    index.reserved_allocated_bytes = volume.reserved_allocated_bytes();
    assert(index@ =~= with_reserved(old(index)@, *volume));
    if is_walkable(index, skip_orphans) {
        compute_tree_metrics(index, skip_orphans);
        true
    } else {
        false
    }
}

/// The handle that is open at a stage, besides that of the volume.
pub open spec fn open_handle(stage: Stage) -> Option<HandleKind> {
    match stage {
        Stage::Reading(handle) => if handle is Volume {
            None
        } else {
            Some(handle)
        },
        _ => None,
    }
}

/// Handles are opened one at a time and each is closed as soon as its reader
/// has ended, before anything else happens: no read ends with an open handle.
pub proof fn law_handles_are_closed(plan: ReadPlan, stage: Stage, event: Event)
    ensures
        ({
            let (next, action) = plan.step(stage, event);
            &&& open_handle(stage) is Some ==> action == Action::Close(open_handle(stage)->0)
                && open_handle(next) is None
            &&& action matches Action::Close(handle) ==> open_handle(stage) == Some(handle)
            &&& action matches Action::Open(_) ==> open_handle(stage) is None
            &&& (action is Return || action is Fail) ==> open_handle(stage) is None && next is Over
        }),
{
}

/// How far a stage is from the end of a read.
pub open spec fn distance(stage: Stage) -> int {
    match stage {
        Stage::Over => 0,
        Stage::Reported => 1,
        Stage::Completing => 2,
        Stage::Building => 2,
        Stage::ReportedEarly => 3,
        Stage::Filling => 4,
        Stage::ClosingAfterRead(HandleKind::Overlapped) => 14,
        Stage::ClosingAfterRead(_) => 5,
        Stage::ClosingAfterFailure(HandleKind::Overlapped, _) => 14,
        Stage::ClosingAfterFailure(_, _) => 5,
        Stage::Reading(HandleKind::Overlapped) => 15,
        Stage::Reading(_) => 6,
        Stage::Opening(HandleKind::Unbuffered) => 7,
        Stage::Opening(HandleKind::TableFile) => 8,
        Stage::Opening(_) => 16,
        Stage::Announced => 17,
        Stage::Begin => 18,
    }
}

/// Every read comes to its end, whatever succeeds or fails on the way: each
/// step brings it nearer.
pub proof fn law_every_read_ends(plan: ReadPlan, stage: Stage, event: Event)
    requires
        !(stage is Over),
    ensures
        0 <= distance(plan.step(stage, event).0) < distance(stage),
{
}

/// A read succeeds only after its records were read and what is wanted was
/// built: it returns right after an index was completed, after something was
/// built, or after that was reported.
pub proof fn law_success_means_built(plan: ReadPlan, stage: Stage, event: Event)
    requires
        !(stage is Over),
        plan.step(stage, event).1 is Return,
    ensures
        event is Done,
        stage is Completing || stage is Building || stage is Reported,
{
}

/// Unless the settings say otherwise, records that are not in use are passed
/// over by every reader but that of the table's file; if they do, only a read
/// past the system's cache still does so.
pub proof fn law_bitmap_follows_the_setting(plan: ReadPlan, stage: Stage, event: Event)
    ensures
        plan.step(stage, event).1 matches Action::Read { handle, arguments, .. } ==> {
            &&& arguments.bitmap == plan.settings.hands_bitmap(handle)
            &&& arguments.bitmap ==> handle is Unbuffered || plan.settings.use_bitmap
            &&& plan.settings.use_bitmap && !(handle is TableFile) ==> arguments.bitmap
        },
{
}

/// Every reader follows the settings on extension records and on records that
/// are no longer in use, and only the reader that puts records straight into an
/// index is told how much to read at once and how many reads to keep in flight.
pub proof fn law_readers_follow_the_settings(plan: ReadPlan, stage: Stage, event: Event)
    ensures
        plan.step(stage, event).1 matches Action::Read { reader, arguments, drive_type, .. } ==> {
            &&& arguments.merge_extensions == plan.settings.merge_extensions
            &&& arguments.forensic == plan.settings.forensic
            &&& reader is SlidingIocpInline ==> {
                &&& arguments.concurrency == plan.settings.concurrency
                &&& arguments.io_size == plan.settings.io_size
                &&& arguments.parallel_parse == plan.settings.parses_in_parallel(drive_type)
            }
            &&& !(reader is SlidingIocpInline) ==> arguments.concurrency is None
                && arguments.io_size is None && !arguments.parallel_parse
            &&& arguments.parse_workers == if arguments.parallel_parse {
                plan.settings.parse_workers
            } else {
                None
            }
        },
        plan.step(stage, event).1 matches Action::Build { expand_links } ==> expand_links == (
        plan.target is Columns && plan.settings.expand_links),
{
}

/// Whoever asked for progress hears of the start with nothing read, and hears
/// of the end with everything read before the read returns.
pub proof fn law_progress_starts_at_nothing_and_ends_at_all(plan: ReadPlan, stage: Stage)
    requires
        plan.wants_progress,
    ensures
        plan.done(Stage::Begin).1 == (Action::Report { records: 0, bytes: 0 }),
        plan.done(stage).1 matches Action::Report { records, bytes } ==> stage is Begin || (records
            == plan.total_records && bytes == plan.total_bytes),
        plan.done(stage).1 is Return ==> stage is Reported || stage is Over || (stage is Building
            && plan.target is Columns),
{
}

/// Missing directories are filled in if and only if the settings ask for it, and
/// that happens once all records were read and before anything is built from
/// them: whichever reader gave the records, they are filled in right after it,
/// and right afterwards what is wanted is built, or the end is reported first.
/// An index that its reader has filled is completed as it is.
pub proof fn law_placeholders_follow_the_setting(plan: ReadPlan, stage: Stage, event: Event)
    ensures
        plan.step(Stage::Reading(HandleKind::Volume), Event::Done).1 is AddPlaceholders
            <==> plan.settings.add_placeholders,
        (stage matches Stage::ClosingAfterRead(handle) && !(handle is Overlapped && plan.target
            is Index && plan.mode is SlidingIocpInline)) ==> (plan.step(
            stage,
            event,
        ).1 is AddPlaceholders <==> plan.settings.add_placeholders),
        plan.target is Index && plan.mode is SlidingIocpInline ==> plan.step(
            Stage::ClosingAfterRead(HandleKind::Overlapped),
            event,
        ).1 is CompleteIndex,
        plan.step(stage, event).1 is AddPlaceholders ==> plan.settings.add_placeholders && plan.step(
            stage,
            event,
        ).0 is Filling && (stage is Reading || stage is ClosingAfterRead),
        plan.step(Stage::Filling, Event::Done).1 is Build || (plan.step(
            Stage::Filling,
            Event::Done,
        ).1 is Report && plan.step(plan.step(Stage::Filling, Event::Done).0, Event::Done).1
            is Build),
{
}

/// Without missing directories to fill in, what is wanted is built right after
/// the records were read, or the end is reported in between.
pub proof fn law_records_are_built_from(plan: ReadPlan, stage: Stage)
    requires
        !plan.settings.add_placeholders,
        stage == Stage::Reading(HandleKind::Volume) || stage == Stage::ClosingAfterRead(
            HandleKind::TableFile,
        ) || stage == Stage::ClosingAfterRead(HandleKind::Unbuffered) || (stage
            == Stage::ClosingAfterRead(HandleKind::Overlapped) && !(plan.target is Index
            && plan.mode is SlidingIocpInline)),
    ensures
        plan.target is Columns && plan.wants_progress ==> plan.step(stage, Event::Done).1
            == (Action::Report { records: plan.total_records, bytes: plan.total_bytes })
            && plan.step(plan.step(stage, Event::Done).0, Event::Done).1 is Build,
        !(plan.target is Columns && plan.wants_progress) ==> plan.step(stage, Event::Done).1
            is Build,
{
}

/// The action with which a read begins, after the start was reported to whoever
/// wants to know.
pub open spec fn opening_action(plan: ReadPlan) -> Action {
    if plan.wants_progress {
        plan.step(plan.step(Stage::Begin, Event::Done).0, Event::Done).1
    } else {
        plan.step(Stage::Begin, Event::Done).1
    }
}

/// A mode with overlapped reads opens a handle for them and runs its reader on
/// it. Any other mode runs its reader on the volume's handle at once.
pub proof fn law_modes_choose_handles(plan: ReadPlan)
    ensures
        (plan.mode is IocpParallel || plan.mode is BulkIocp || plan.mode is SlidingIocp || plan.mode
            is SlidingIocpInline) ==> opening_action(plan) == Action::Open(HandleKind::Overlapped)
            && (plan.step(Stage::Opening(HandleKind::Overlapped), Event::Done).1
            matches Action::Read { handle, .. } && handle is Overlapped),
        !(plan.mode is IocpParallel || plan.mode is BulkIocp || plan.mode is SlidingIocp
            || plan.mode is SlidingIocpInline) ==> (opening_action(plan)
            matches Action::Read { handle, .. } && handle is Volume),
{
}

/// Every mode has a reader of its own, which reports its progress to whoever
/// wants to know; where an index is built, the modes that parse while they read
/// are read by the parallel reader, which then reports nothing, and where
/// columns are built nothing is put straight into an index.
pub proof fn law_modes_choose_readers(target: ReadTarget, mode: MftReadMode)
    ensures
        mode is Auto || mode is Parallel ==> reader_of(target, mode) is Parallel,
        mode is Streaming && target is Columns ==> reader_of(target, mode) is Streaming,
        mode is Prefetch && target is Columns ==> reader_of(target, mode) is Prefetch,
        (mode is Streaming || mode is Prefetch) && target is Index ==> reader_of(target, mode)
            is Parallel && !reports(target, mode),
        mode is Pipelined ==> reader_of(target, mode) is Pipelined,
        mode is PipelinedParallel ==> reader_of(target, mode) is PipelinedParallel,
        mode is IocpParallel ==> reader_of(target, mode) is Iocp,
        mode is Bulk ==> reader_of(target, mode) is Bulk,
        mode is BulkIocp ==> reader_of(target, mode) is BulkIocp,
        mode is SlidingIocp ==> reader_of(target, mode) is SlidingIocp,
        mode is SlidingIocpInline && target is Columns ==> reader_of(target, mode) is SlidingIocp,
        mode is SlidingIocpInline && target is Index ==> reader_of(target, mode)
            is SlidingIocpInline && !reports(target, mode),
        target is Columns ==> reports(target, mode),
        !(mode is Streaming || mode is Prefetch || mode is SlidingIocpInline) ==> reports(
            target,
            mode,
        ),
{
}

/// A mode that was chosen is kept. Left to itself, an index is filled straight
/// from a sliding window of reads, and columns are read as suits the drive.
pub proof fn law_chosen_modes_are_kept(
    target: ReadTarget,
    mode: MftReadMode,
    drive_type: DriveType,
)
    ensures
        !(mode is Auto) ==> effective(target, mode, drive_type) == mode,
        mode is Auto && target is Index ==> effective(target, mode, drive_type)
            is SlidingIocpInline,
        mode is Auto && target is Columns && (drive_type is Nvme || drive_type is Ssd
            || drive_type is Unknown) ==> effective(target, mode, drive_type) is Parallel,
        mode is Auto && target is Columns && drive_type is Hdd ==> effective(
            target,
            mode,
            drive_type,
        ) is PipelinedParallel,
        !(effective(target, mode, drive_type) is Auto),
{
}

/// The reader that is chosen runs on the handle of its mode, for the drive as it
/// is, and says how far it has come if that is wanted and it can.
pub proof fn law_chosen_reader_runs(plan: ReadPlan, handle: HandleKind)
    requires
        handle is Volume || handle is Overlapped,
    ensures
        plan.step(Stage::Opening(handle), Event::Done).1 matches Action::Read {
            reader,
            handle: on,
            reports: told,
            drive_type,
            arguments,
        } && reader == reader_of(plan.target, plan.mode) && on == handle && told == (
        plan.wants_progress && reports(plan.target, plan.mode)) && drive_type == plan.drive_type
            && arguments.bitmap == plan.settings.use_bitmap,
        plan.step(Stage::Opening(handle), Event::Done).0 == Stage::Reading(handle),
{
}

/// Where an index cannot be filled straight from the volume, its handle is
/// closed and the table's file is read from its start to its end; where that
/// file cannot be opened, the volume is read past the system's cache, as if it
/// were a disk with heads. No other failure leads to another try, and neither
/// of these readers reports progress or is handed anything but the settings.
pub proof fn law_second_tries(plan: ReadPlan, error: MftError, event: Event, stage: Stage)
    ensures
        plan.target is Index && plan.mode is SlidingIocpInline ==> {
            let (closing, close) = plan.step(
                Stage::Reading(HandleKind::Overlapped),
                Event::Failed(error),
            );
            &&& close == Action::Close(HandleKind::Overlapped)
            &&& plan.step(closing, event).1 == Action::Open(HandleKind::TableFile)
            &&& plan.step(plan.step(closing, event).0, Event::Failed(error)).1 == Action::Open(
                HandleKind::Unbuffered,
            )
        },
        plan.step(Stage::Opening(HandleKind::TableFile), Event::Done).1 matches Action::Read {
            reader,
            handle,
            reports: told,
            drive_type,
            arguments,
        } && reader is TableFile && handle is TableFile && !told && drive_type == plan.drive_type
            && !arguments.bitmap,
        plan.step(Stage::Opening(HandleKind::Unbuffered), Event::Done).1 matches Action::Read {
            reader,
            handle,
            reports: told,
            drive_type,
            arguments,
        } && reader is Parallel && handle is Unbuffered && !told && drive_type is Hdd
            && arguments.bitmap,
        plan.step(stage, event).1 == Action::Open(HandleKind::TableFile) ==> plan.target is Index
            && plan.mode is SlidingIocpInline && (stage matches Stage::ClosingAfterFailure(h, _)
            && h is Overlapped),
        plan.step(stage, event).1 == Action::Open(HandleKind::Unbuffered) ==> stage
            == Stage::Opening(HandleKind::TableFile) && event is Failed,
{
}

/// Nothing is lost of what went wrong: a read that fails says what failed last,
/// or what failed before a handle was closed. It fails only after something did,
/// and what fails other than a close or a first try ends the read.
pub proof fn law_failures_are_reported(plan: ReadPlan, stage: Stage, event: Event, error: MftError)
    ensures
        plan.step(stage, event).1 matches Action::Fail(e) ==> event == Event::Failed(e) || (stage
            matches Stage::ClosingAfterFailure(_, first) && first == e),
        plan.step(stage, event).0 matches Stage::ClosingAfterFailure(handle, e) ==> event
            == Event::Failed(e) && stage == Stage::Reading(handle),
        (stage is Begin || stage is Announced || stage is Completing || stage is Filling || stage
            is ReportedEarly || stage is Building || stage is Reported || stage == Stage::Opening(
            HandleKind::Overlapped,
        ) || stage == Stage::Opening(HandleKind::Unbuffered) || stage == Stage::Reading(
            HandleKind::Volume,
        )) ==> plan.step(stage, Event::Failed(error)).1 == Action::Fail(error),
        stage matches Stage::ClosingAfterFailure(handle, first) ==> (handle is Overlapped
            && plan.target is Index && plan.mode is SlidingIocpInline) || plan.step(stage, event).1
            == Action::Fail(first),
{
}

/// A close that fails is as good as one that does not.
pub proof fn law_closing_cannot_fail(plan: ReadPlan, stage: Stage, error: MftError)
    requires
        stage is ClosingAfterRead || stage is ClosingAfterFailure,
    ensures
        plan.step(stage, Event::Failed(error)) == plan.step(stage, Event::Done),
{
}

/// What was built is handed over: at once, or after the end was reported to
/// whoever waits for an index.
pub proof fn law_what_was_built_is_returned(plan: ReadPlan)
    ensures
        plan.target is Columns || !plan.wants_progress ==> plan.step(
            Stage::Building,
            Event::Done,
        ).1 is Return,
        plan.target is Index && plan.wants_progress ==> plan.step(Stage::Building, Event::Done).1
            == (Action::Report { records: plan.total_records, bytes: plan.total_bytes })
            && plan.step(plan.step(Stage::Building, Event::Done).0, Event::Done).1 is Return,
        plan.target is Index ==> plan.step(Stage::Completing, Event::Done) == plan.step(
            Stage::Building,
            Event::Done,
        ),
{
}

/// A timed read keeps nothing in flight and parses on no threads of its own. Into
/// columns it always uses the bitmap.
pub proof fn law_timed_reads_are_plain(settings: ReadSettings, target: ReadTarget)
    ensures
        settings.timed(target).bitmap <==> target is Columns || settings.use_bitmap,
        settings.timed(target).merge_extensions == settings.merge_extensions,
        settings.timed(target).forensic == settings.forensic,
        settings.timed(target).concurrency is None,
        settings.timed(target).io_size is None,
        settings.timed(target).parse_workers is None,
        !settings.timed(target).parallel_parse,
{
}

/// Records are parsed on several threads if that was asked for, and if nothing
/// was said, on a drive that is fast enough for it.
pub proof fn law_parsing_follows_the_drive(settings: ReadSettings, drive_type: DriveType)
    ensures
        settings.parallel_parse matches Some(parallel) ==> settings.parses_in_parallel(drive_type)
            == parallel,
        settings.parallel_parse is None ==> (settings.parses_in_parallel(drive_type)
            <==> drive_type is Nvme),
{
}

/// An index is completed with what its volume holds back, and nothing else of it
/// changes.
pub proof fn law_reserved_bytes_are_set(ix: crate::index::IndexView, volume: NtfsVolumeData)
    requires
        volume.total_reserved * volume.bytes_per_cluster <= u64::MAX,
    ensures
        ({
            let set = with_reserved(ix, volume);
            &&& set.reserved_allocated_bytes == volume.total_reserved * volume.bytes_per_cluster
            &&& set.records == ix.records
            &&& set.frs_to_idx == ix.frs_to_idx
            &&& set.streams == ix.streams
            &&& set.internal_streams == ix.internal_streams
            &&& set.children == ix.children
            &&& set.names == ix.names
            &&& set.volume == ix.volume
        }),
{
    assert(0 <= volume.total_reserved * volume.bytes_per_cluster) by (nonlinear_arith);
}

} // verus!
