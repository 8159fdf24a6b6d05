//! Reading whole tables: from live volumes, from saved files and from several
//! drives at once.

use crate::error::{InputFault, MftError};
use crate::platform::drive_letter::DriveLetter;
use crate::platform::volume::VolumeHandle;
use vstd::prelude::*;

pub mod benchmark;
pub mod capture;
pub mod columns;
pub mod multi_drive;
pub mod offline;
pub mod pipeline;
pub mod read_mode;
pub mod stats;
pub mod usn_apply;

pub use self::benchmark::{DriveCharacteristics, PhaseTimings};
pub use self::multi_drive::{DriveReadResult, MultiDriveMftReader};
pub use self::pipeline::ReadSettings;
pub use self::read_mode::MftReadMode;
pub use self::stats::{MftProgress, MftStats};

verus! {

/// Where a table is read from.
#[derive(Debug)]
pub enum MftSource {
    /// A live volume.
    LiveVolume(VolumeHandle),
    /// A saved table, by its path.
    File(String),
}

/// A reader of a table and its settings.
#[derive(Debug)]
pub struct MftReader {
    /// The volume.
    pub volume: DriveLetter,
    /// Where the table is read from.
    pub source: MftSource,
    /// How the table is read.
    pub mode: MftReadMode,
    /// Whether extension records are merged into their base records.
    pub merge_extensions: bool,
    /// Whether records that are not in use are passed over.
    pub use_bitmap: bool,
    /// Whether every hard link gets a row of its own.
    pub expand_links: bool,
    /// Whether directories that are missing are filled in.
    pub add_placeholders: bool,
    /// How many reads are in flight. `None` for what suits the drive.
    pub concurrency: Option<usize>,
    /// How much is read at once, in bytes. `None` for what suits the drive.
    pub io_size: Option<usize>,
    /// Whether records are parsed on several threads. `None` for what suits
    /// the drive.
    pub parallel_parse: Option<bool>,
    /// How many threads parse. `None` for what suits the machine.
    pub parse_workers: Option<usize>,
    /// Whether deleted, damaged and extension records are wanted too.
    pub forensic: bool,
}

impl MftReader {
    /// A reader with the usual settings.
    pub open spec fn usual(volume: DriveLetter, source: MftSource) -> MftReader {
        MftReader {
            volume,
            source,
            mode: MftReadMode::Auto,
            merge_extensions: true,
            use_bitmap: true,
            expand_links: true,
            add_placeholders: true,
            concurrency: None,
            io_size: None,
            parallel_parse: None,
            parse_workers: None,
            forensic: false,
        }
    }

    fn with_source(volume: DriveLetter, source: MftSource) -> (r: MftReader)
        ensures
            r == MftReader::usual(volume, source),
    {
        MftReader {
            volume,
            source,
            mode: MftReadMode::Auto,
            merge_extensions: true,
            use_bitmap: true,
            expand_links: true,
            add_placeholders: true,
            concurrency: None,
            io_size: None,
            parallel_parse: None,
            parse_workers: None,
            forensic: false,
        }
    }

    /// A reader of a live volume, if the volume could be opened.
    pub fn open(volume: DriveLetter, opened: Result<VolumeHandle, MftError>) -> (r: Result<
        MftReader,
        MftError,
    >)
        ensures
            r == match opened {
                Ok(handle) => Ok::<MftReader, MftError>(
                    MftReader::usual(volume, MftSource::LiveVolume(handle)),
                ),
                Err(e) => Err(e),
            },
    {
        match opened {
            Ok(handle) => Ok(MftReader::with_source(volume, MftSource::LiveVolume(handle))),
            Err(e) => Err(e),
        }
    }

    /// A reader of a saved table.
    pub fn from_file(path: String, volume: DriveLetter) -> (r: MftReader)
        ensures
            r == MftReader::usual(volume, MftSource::File(path)),
    {
        MftReader::with_source(volume, MftSource::File(path))
    }

    /// The open volume. A reader of a file has none.
    pub fn require_handle(&self) -> (r: Result<&VolumeHandle, MftError>)
        ensures
            match self.source {
                MftSource::LiveVolume(handle) => r matches Ok(h) && *h == handle,
                MftSource::File(_) => r == Err::<&VolumeHandle, MftError>(
                    MftError::InvalidInput(InputFault::NotLive),
                ),
            },
    {
        match &self.source {
            MftSource::LiveVolume(handle) => Ok(handle),
            MftSource::File(_) => Err(MftError::InvalidInput(InputFault::NotLive)),
        }
    }

    /// Whether the table of a live volume is read.
    pub fn is_live(&self) -> (r: bool)
        ensures
            r == (self.source is LiveVolume),
    {
        matches!(self.source, MftSource::LiveVolume(_))
    }

    /// Whether a saved table is read.
    pub fn is_file(&self) -> (r: bool)
        ensures
            r == (self.source is File),
    {
        matches!(self.source, MftSource::File(_))
    }

    /// The settings of this reader.
    pub open spec fn chosen(self) -> ReadSettings {
        ReadSettings {
            mode: self.mode,
            merge_extensions: self.merge_extensions,
            use_bitmap: self.use_bitmap,
            expand_links: self.expand_links,
            add_placeholders: self.add_placeholders,
            concurrency: self.concurrency,
            io_size: self.io_size,
            parallel_parse: self.parallel_parse,
            parse_workers: self.parse_workers,
            forensic: self.forensic,
        }
    }

    /// The settings of this reader.
    pub fn settings(&self) -> (r: ReadSettings)
        ensures
            r == self.chosen(),
    {
        ReadSettings {
            mode: self.mode,
            merge_extensions: self.merge_extensions,
            use_bitmap: self.use_bitmap,
            expand_links: self.expand_links,
            add_placeholders: self.add_placeholders,
            concurrency: self.concurrency,
            io_size: self.io_size,
            parallel_parse: self.parallel_parse,
            parse_workers: self.parse_workers,
            forensic: self.forensic,
        }
    }

    /// Sets how the table is read.
    pub fn with_mode(self, mode: MftReadMode) -> (r: MftReader)
        ensures
            r == (MftReader { mode, ..self }),
    {
        MftReader { mode, ..self }
    }

    /// How the table is read.
    pub fn mode(&self) -> (r: MftReadMode)
        ensures
            r == self.mode,
    {
        self.mode
    }

    /// Sets whether extension records are merged into their base records.
    pub fn with_merge_extensions(self, merge: bool) -> (r: MftReader)
        ensures
            r == (MftReader { merge_extensions: merge, ..self }),
    {
        MftReader { merge_extensions: merge, ..self }
    }

    /// Whether extension records are merged into their base records.
    pub fn merge_extensions(&self) -> (r: bool)
        ensures
            r == self.merge_extensions,
    {
        self.merge_extensions
    }

    /// Sets whether records that are not in use are passed over.
    pub fn with_use_bitmap(self, use_bitmap: bool) -> (r: MftReader)
        ensures
            r == (MftReader { use_bitmap, ..self }),
    {
        MftReader { use_bitmap, ..self }
    }

    /// Whether records that are not in use are passed over.
    pub fn use_bitmap(&self) -> (r: bool)
        ensures
            r == self.use_bitmap,
    {
        self.use_bitmap
    }

    /// Sets whether every hard link gets a row of its own.
    pub fn with_expand_links(self, expand: bool) -> (r: MftReader)
        ensures
            r == (MftReader { expand_links: expand, ..self }),
    {
        MftReader { expand_links: expand, ..self }
    }

    /// Whether every hard link gets a row of its own.
    pub fn expand_links(&self) -> (r: bool)
        ensures
            r == self.expand_links,
    {
        self.expand_links
    }

    /// Sets whether directories that are missing are filled in.
    pub fn with_add_placeholders(self, add: bool) -> (r: MftReader)
        ensures
            r == (MftReader { add_placeholders: add, ..self }),
    {
        MftReader { add_placeholders: add, ..self }
    }

    /// Whether directories that are missing are filled in.
    pub fn add_placeholders(&self) -> (r: bool)
        ensures
            r == self.add_placeholders,
    {
        self.add_placeholders
    }

    /// Sets how many reads are in flight.
    pub fn with_concurrency(self, concurrency: usize) -> (r: MftReader)
        ensures
            r == (MftReader { concurrency: Some(concurrency), ..self }),
    {
        MftReader { concurrency: Some(concurrency), ..self }
    }

    /// How many reads are in flight, if it was set.
    pub fn concurrency(&self) -> (r: Option<usize>)
        ensures
            r == self.concurrency,
    {
        self.concurrency
    }

    /// Sets how much is read at once.
    pub fn with_io_size(self, io_size: usize) -> (r: MftReader)
        ensures
            r == (MftReader { io_size: Some(io_size), ..self }),
    {
        MftReader { io_size: Some(io_size), ..self }
    }

    /// How much is read at once, if it was set.
    pub fn io_size(&self) -> (r: Option<usize>)
        ensures
            r == self.io_size,
    {
        self.io_size
    }

    /// Sets whether records are parsed on several threads.
    pub fn with_parallel_parse(self, parallel: bool) -> (r: MftReader)
        ensures
            r == (MftReader { parallel_parse: Some(parallel), ..self }),
    {
        MftReader { parallel_parse: Some(parallel), ..self }
    }

    /// Whether records are parsed on several threads, if it was set.
    pub fn parallel_parse(&self) -> (r: Option<bool>)
        ensures
            r == self.parallel_parse,
    {
        self.parallel_parse
    }

    /// Sets how many threads parse.
    pub fn with_parse_workers(self, workers: Option<usize>) -> (r: MftReader)
        ensures
            r == (MftReader { parse_workers: workers, ..self }),
    {
        MftReader { parse_workers: workers, ..self }
    }

    /// How many threads parse, if it was set.
    pub fn parse_workers(&self) -> (r: Option<usize>)
        ensures
            r == self.parse_workers,
    {
        self.parse_workers
    }

    /// Sets whether deleted, damaged and extension records are wanted too.
    pub fn with_forensic(self, forensic: bool) -> (r: MftReader)
        ensures
            r == (MftReader { forensic, ..self }),
    {
        MftReader { forensic, ..self }
    }

    /// Whether deleted, damaged and extension records are wanted too.
    pub fn forensic(&self) -> (r: bool)
        ensures
            r == self.forensic,
    {
        self.forensic
    }

    /// The volume.
    pub fn volume(&self) -> (r: DriveLetter)
        ensures
            r == self.volume,
    {
        self.volume
    }
}

/// A reader reads as it was told: each of its settings is passed on as it is.
pub proof fn law_settings_are_passed_on(reader: MftReader)
    ensures
        reader.chosen().mode == reader.mode,
        reader.chosen().merge_extensions == reader.merge_extensions,
        reader.chosen().use_bitmap == reader.use_bitmap,
        reader.chosen().expand_links == reader.expand_links,
        reader.chosen().add_placeholders == reader.add_placeholders,
        reader.chosen().concurrency == reader.concurrency,
        reader.chosen().io_size == reader.io_size,
        reader.chosen().parallel_parse == reader.parallel_parse,
        reader.chosen().parse_workers == reader.parse_workers,
        reader.chosen().forensic == reader.forensic,
{
}

/// A reader that was told nothing finds the best mode by itself, does everything
/// that is usually done with records, leaves all sizes and numbers to what suits
/// the drive and keeps nothing that was deleted or damaged.
pub proof fn law_usual_settings(volume: DriveLetter, source: MftSource)
    ensures
        ({
            let reader = MftReader::usual(volume, source);
            &&& reader.volume == volume
            &&& reader.source == source
            &&& reader.mode is Auto
            &&& reader.merge_extensions
            &&& reader.use_bitmap
            &&& reader.expand_links
            &&& reader.add_placeholders
            &&& reader.concurrency is None
            &&& reader.io_size is None
            &&& reader.parallel_parse is None
            &&& reader.parse_workers is None
            &&& !reader.forensic
        }),
{
}

} // verus!
