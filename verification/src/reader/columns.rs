//! A table as columns: one value of each kind per record.

use vstd::prelude::*;
use vstd::string::*;

verus! {

/// The times and flags of a record.
#[derive(Debug, Clone, Copy, PartialEq, Eq, Structural)]
pub struct StandardInfo {
    /// Time of creation.
    pub created: i64,
    /// Time of the last change of the data.
    pub modified: i64,
    /// Time of the last access.
    pub accessed: i64,
    /// Time of the last change of the record.
    pub mft_changed: i64,
    /// Cannot be written.
    pub is_readonly: bool,
    /// Hidden.
    pub is_hidden: bool,
    /// Part of the system.
    pub is_system: bool,
    /// To be archived.
    pub is_archive: bool,
    /// Compressed.
    pub is_compressed: bool,
    /// Encrypted.
    pub is_encrypted: bool,
    /// Sparse.
    pub is_sparse: bool,
    /// A reparse point.
    pub is_reparse: bool,
    /// Not on this volume.
    pub is_offline: bool,
    /// Not indexed by the system.
    pub is_not_content_indexed: bool,
    /// Temporary.
    pub is_temporary: bool,
    /// Guarded by checksums.
    pub is_integrity_stream: bool,
    /// Left out by the scrubber.
    pub is_no_scrub_data: bool,
    /// Kept on this volume.
    pub is_pinned: bool,
    /// Not kept on this volume.
    pub is_unpinned: bool,
    /// Virtual.
    pub is_virtual: bool,
    /// All attribute flags.
    pub raw_flags: u32,
}

/// A record that was parsed.
#[derive(Debug, Clone)]
pub struct ParsedRecord {
    /// Its number.
    pub frs: u64,
    /// The number of its directory.
    pub parent_frs: u64,
    /// Its name.
    pub name: String,
    /// Its size, in bytes.
    pub size: u64,
    /// What is allocated for it, in bytes.
    pub allocated_size: u64,
    /// Whether it is a directory.
    pub is_directory: bool,
    /// How many names it has.
    pub name_count: u16,
    /// How many data streams it has.
    pub stream_count: u16,
    /// Its times and flags.
    pub std_info: StandardInfo,
}

/// The columns of a table. Row `j` of every column belongs to the same record.
#[derive(Debug)]
pub struct ParsedColumns {
    pub frs: Vec<u64>,
    pub parent_frs: Vec<u64>,
    pub name: Vec<String>,
    pub size: Vec<u64>,
    pub allocated_size: Vec<u64>,
    pub created: Vec<i64>,
    pub modified: Vec<i64>,
    pub accessed: Vec<i64>,
    pub mft_changed: Vec<i64>,
    pub is_directory: Vec<bool>,
    pub name_count: Vec<u16>,
    pub stream_count: Vec<u16>,
    pub stream_name: Vec<String>,
    pub is_readonly: Vec<bool>,
    pub is_hidden: Vec<bool>,
    pub is_system: Vec<bool>,
    pub is_archive: Vec<bool>,
    pub is_compressed: Vec<bool>,
    pub is_encrypted: Vec<bool>,
    pub is_sparse: Vec<bool>,
    pub is_reparse: Vec<bool>,
    pub is_offline: Vec<bool>,
    pub is_not_indexed: Vec<bool>,
    pub is_temporary: Vec<bool>,
    pub is_integrity_stream: Vec<bool>,
    pub is_no_scrub_data: Vec<bool>,
    pub is_pinned: Vec<bool>,
    pub is_unpinned: Vec<bool>,
    pub is_virtual: Vec<bool>,
    pub flags: Vec<u32>,
}

/// What a column holds.
#[derive(Debug, Clone, Copy, PartialEq, Eq, Structural)]
pub enum ColumnKind {
    /// Unsigned numbers of 64 bits.
    UInt64,
    /// Unsigned numbers of 32 bits.
    UInt32,
    /// Unsigned numbers of 16 bits.
    UInt16,
    /// Texts.
    Text,
    /// Times in microseconds.
    Time,
    /// Flags.
    Boolean,
}

impl ParsedColumns {
    /// Every column has a number of rows.
    pub open spec fn has_rows(self, n: nat) -> bool {
        &&& self.frs@.len() == n
        &&& self.parent_frs@.len() == n
        &&& self.name@.len() == n
        &&& self.size@.len() == n
        &&& self.allocated_size@.len() == n
        &&& self.created@.len() == n
        &&& self.modified@.len() == n
        &&& self.accessed@.len() == n
        &&& self.mft_changed@.len() == n
        &&& self.is_directory@.len() == n
        &&& self.name_count@.len() == n
        &&& self.stream_count@.len() == n
        &&& self.stream_name@.len() == n
        &&& self.is_readonly@.len() == n
        &&& self.is_hidden@.len() == n
        &&& self.is_system@.len() == n
        &&& self.is_archive@.len() == n
        &&& self.is_compressed@.len() == n
        &&& self.is_encrypted@.len() == n
        &&& self.is_sparse@.len() == n
        &&& self.is_reparse@.len() == n
        &&& self.is_offline@.len() == n
        &&& self.is_not_indexed@.len() == n
        &&& self.is_temporary@.len() == n
        &&& self.is_integrity_stream@.len() == n
        &&& self.is_no_scrub_data@.len() == n
        &&& self.is_pinned@.len() == n
        &&& self.is_unpinned@.len() == n
        &&& self.is_virtual@.len() == n
        &&& self.flags@.len() == n
    }

    /// Row `j` holds a record. Its stream has no name.
    pub open spec fn row_is(self, j: int, r: ParsedRecord) -> bool {
        &&& self.frs@[j] == r.frs
        &&& self.parent_frs@[j] == r.parent_frs
        &&& self.name@[j]@ == r.name@
        &&& self.size@[j] == r.size
        &&& self.allocated_size@[j] == r.allocated_size
        &&& self.created@[j] == r.std_info.created
        &&& self.modified@[j] == r.std_info.modified
        &&& self.accessed@[j] == r.std_info.accessed
        &&& self.mft_changed@[j] == r.std_info.mft_changed
        &&& self.is_directory@[j] == r.is_directory
        &&& self.name_count@[j] == r.name_count
        &&& self.stream_count@[j] == r.stream_count
        &&& self.stream_name@[j]@ == Seq::<char>::empty()
        &&& self.is_readonly@[j] == r.std_info.is_readonly
        &&& self.is_hidden@[j] == r.std_info.is_hidden
        &&& self.is_system@[j] == r.std_info.is_system
        &&& self.is_archive@[j] == r.std_info.is_archive
        &&& self.is_compressed@[j] == r.std_info.is_compressed
        &&& self.is_encrypted@[j] == r.std_info.is_encrypted
        &&& self.is_sparse@[j] == r.std_info.is_sparse
        &&& self.is_reparse@[j] == r.std_info.is_reparse
        &&& self.is_offline@[j] == r.std_info.is_offline
        &&& self.is_not_indexed@[j] == r.std_info.is_not_content_indexed
        &&& self.is_temporary@[j] == r.std_info.is_temporary
        &&& self.is_integrity_stream@[j] == r.std_info.is_integrity_stream
        &&& self.is_no_scrub_data@[j] == r.std_info.is_no_scrub_data
        &&& self.is_pinned@[j] == r.std_info.is_pinned
        &&& self.is_unpinned@[j] == r.std_info.is_unpinned
        &&& self.is_virtual@[j] == r.std_info.is_virtual
        &&& self.flags@[j] == r.std_info.raw_flags
    }

    /// The columns hold some records, in order.
    pub open spec fn hold(self, records: Seq<ParsedRecord>) -> bool {
        &&& self.has_rows(records.len())
        &&& forall|j: int| 0 <= j < records.len() ==> self.row_is(j, #[trigger] records[j])
    }
}

/// The numbers, names and sizes.
fn identity(records: &[ParsedRecord]) -> (out: (Vec<u64>, Vec<u64>, Vec<String>, Vec<u64>, Vec<u64>))
    ensures
        out.0@.len() == records@.len(),
        out.1@.len() == records@.len(),
        out.2@.len() == records@.len(),
        out.3@.len() == records@.len(),
        out.4@.len() == records@.len(),
        forall|j: int|
            0 <= j < records@.len() ==> {
                let r = #[trigger] records@[j];
                &&& out.0@[j] == r.frs
                &&& out.1@[j] == r.parent_frs
                &&& out.2@[j]@ == r.name@
                &&& out.3@[j] == r.size
                &&& out.4@[j] == r.allocated_size
            },
{
    let mut frs: Vec<u64> = Vec::new();
    let mut parent_frs: Vec<u64> = Vec::new();
    let mut name: Vec<String> = Vec::new();
    let mut size: Vec<u64> = Vec::new();
    let mut allocated_size: Vec<u64> = Vec::new();
    let n: usize = records.len();
    for i in 0..n
        invariant
            n == records@.len(),
            frs@.len() == i,
            parent_frs@.len() == i,
            name@.len() == i,
            size@.len() == i,
            allocated_size@.len() == i,
            forall|j: int|
                0 <= j < i ==> {
                    let r = #[trigger] records@[j];
                    &&& frs@[j] == r.frs
                    &&& parent_frs@[j] == r.parent_frs
                    &&& name@[j]@ == r.name@
                    &&& size@[j] == r.size
                    &&& allocated_size@[j] == r.allocated_size
                },
    {
        let r = &records[i];
        frs.push(r.frs);
        parent_frs.push(r.parent_frs);
        name.push(r.name.clone());
        size.push(r.size);
        allocated_size.push(r.allocated_size);
    }
    (frs, parent_frs, name, size, allocated_size)
}

/// The times.
fn times(records: &[ParsedRecord]) -> (out: (Vec<i64>, Vec<i64>, Vec<i64>, Vec<i64>))
    ensures
        out.0@.len() == records@.len(),
        out.1@.len() == records@.len(),
        out.2@.len() == records@.len(),
        out.3@.len() == records@.len(),
        forall|j: int|
            0 <= j < records@.len() ==> {
                let r = #[trigger] records@[j];
                &&& out.0@[j] == r.std_info.created
                &&& out.1@[j] == r.std_info.modified
                &&& out.2@[j] == r.std_info.accessed
                &&& out.3@[j] == r.std_info.mft_changed
            },
{
    let mut created: Vec<i64> = Vec::new();
    let mut modified: Vec<i64> = Vec::new();
    let mut accessed: Vec<i64> = Vec::new();
    let mut mft_changed: Vec<i64> = Vec::new();
    let n: usize = records.len();
    for i in 0..n
        invariant
            n == records@.len(),
            created@.len() == i,
            modified@.len() == i,
            accessed@.len() == i,
            mft_changed@.len() == i,
            forall|j: int|
                0 <= j < i ==> {
                    let r = #[trigger] records@[j];
                    &&& created@[j] == r.std_info.created
                    &&& modified@[j] == r.std_info.modified
                    &&& accessed@[j] == r.std_info.accessed
                    &&& mft_changed@[j] == r.std_info.mft_changed
                },
    {
        let r = &records[i];
        created.push(r.std_info.created);
        modified.push(r.std_info.modified);
        accessed.push(r.std_info.accessed);
        mft_changed.push(r.std_info.mft_changed);
    }
    (created, modified, accessed, mft_changed)
}

/// The kinds and counts. No stream has a name.
fn counts(records: &[ParsedRecord]) -> (out: (Vec<bool>, Vec<u16>, Vec<u16>, Vec<String>))
    ensures
        out.0@.len() == records@.len(),
        out.1@.len() == records@.len(),
        out.2@.len() == records@.len(),
        out.3@.len() == records@.len(),
        forall|j: int|
            0 <= j < records@.len() ==> {
                let r = #[trigger] records@[j];
                &&& out.0@[j] == r.is_directory
                &&& out.1@[j] == r.name_count
                &&& out.2@[j] == r.stream_count
                &&& out.3@[j]@ == Seq::<char>::empty()
            },
{
    let mut is_directory: Vec<bool> = Vec::new();
    let mut name_count: Vec<u16> = Vec::new();
    let mut stream_count: Vec<u16> = Vec::new();
    let mut stream_name: Vec<String> = Vec::new();
    let n: usize = records.len();
    for i in 0..n
        invariant
            n == records@.len(),
            is_directory@.len() == i,
            name_count@.len() == i,
            stream_count@.len() == i,
            stream_name@.len() == i,
            forall|j: int|
                0 <= j < i ==> {
                    let r = #[trigger] records@[j];
                    &&& is_directory@[j] == r.is_directory
                    &&& name_count@[j] == r.name_count
                    &&& stream_count@[j] == r.stream_count
                    &&& stream_name@[j]@ == Seq::<char>::empty()
                },
    {
        let r = &records[i];
        is_directory.push(r.is_directory);
        name_count.push(r.name_count);
        stream_count.push(r.stream_count);
        stream_name.push(String::new());
    }
    (is_directory, name_count, stream_count, stream_name)
}

/// The first flags.
fn first_flags(records: &[ParsedRecord]) -> (out: (Vec<bool>, Vec<bool>, Vec<bool>, Vec<bool>, Vec<bool>, Vec<bool>))
    ensures
        out.0@.len() == records@.len(),
        out.1@.len() == records@.len(),
        out.2@.len() == records@.len(),
        out.3@.len() == records@.len(),
        out.4@.len() == records@.len(),
        out.5@.len() == records@.len(),
        forall|j: int|
            0 <= j < records@.len() ==> {
                let r = #[trigger] records@[j];
                &&& out.0@[j] == r.std_info.is_readonly
                &&& out.1@[j] == r.std_info.is_hidden
                &&& out.2@[j] == r.std_info.is_system
                &&& out.3@[j] == r.std_info.is_archive
                &&& out.4@[j] == r.std_info.is_compressed
                &&& out.5@[j] == r.std_info.is_encrypted
            },
{
    let mut is_readonly: Vec<bool> = Vec::new();
    let mut is_hidden: Vec<bool> = Vec::new();
    let mut is_system: Vec<bool> = Vec::new();
    let mut is_archive: Vec<bool> = Vec::new();
    let mut is_compressed: Vec<bool> = Vec::new();
    let mut is_encrypted: Vec<bool> = Vec::new();
    let n: usize = records.len();
    for i in 0..n
        invariant
            n == records@.len(),
            is_readonly@.len() == i,
            is_hidden@.len() == i,
            is_system@.len() == i,
            is_archive@.len() == i,
            is_compressed@.len() == i,
            is_encrypted@.len() == i,
            forall|j: int|
                0 <= j < i ==> {
                    let r = #[trigger] records@[j];
                    &&& is_readonly@[j] == r.std_info.is_readonly
                    &&& is_hidden@[j] == r.std_info.is_hidden
                    &&& is_system@[j] == r.std_info.is_system
                    &&& is_archive@[j] == r.std_info.is_archive
                    &&& is_compressed@[j] == r.std_info.is_compressed
                    &&& is_encrypted@[j] == r.std_info.is_encrypted
                },
    {
        let r = &records[i];
        is_readonly.push(r.std_info.is_readonly);
        is_hidden.push(r.std_info.is_hidden);
        is_system.push(r.std_info.is_system);
        is_archive.push(r.std_info.is_archive);
        is_compressed.push(r.std_info.is_compressed);
        is_encrypted.push(r.std_info.is_encrypted);
    }
    (is_readonly, is_hidden, is_system, is_archive, is_compressed, is_encrypted)
}

/// The second flags.
fn second_flags(records: &[ParsedRecord]) -> (out: (Vec<bool>, Vec<bool>, Vec<bool>, Vec<bool>, Vec<bool>, Vec<bool>))
    ensures
        out.0@.len() == records@.len(),
        out.1@.len() == records@.len(),
        out.2@.len() == records@.len(),
        out.3@.len() == records@.len(),
        out.4@.len() == records@.len(),
        out.5@.len() == records@.len(),
        forall|j: int|
            0 <= j < records@.len() ==> {
                let r = #[trigger] records@[j];
                &&& out.0@[j] == r.std_info.is_sparse
                &&& out.1@[j] == r.std_info.is_reparse
                &&& out.2@[j] == r.std_info.is_offline
                &&& out.3@[j] == r.std_info.is_not_content_indexed
                &&& out.4@[j] == r.std_info.is_temporary
                &&& out.5@[j] == r.std_info.is_integrity_stream
            },
{
    let mut is_sparse: Vec<bool> = Vec::new();
    let mut is_reparse: Vec<bool> = Vec::new();
    let mut is_offline: Vec<bool> = Vec::new();
    let mut is_not_indexed: Vec<bool> = Vec::new();
    let mut is_temporary: Vec<bool> = Vec::new();
    let mut is_integrity_stream: Vec<bool> = Vec::new();
    let n: usize = records.len();
    for i in 0..n
        invariant
            n == records@.len(),
            is_sparse@.len() == i,
            is_reparse@.len() == i,
            is_offline@.len() == i,
            is_not_indexed@.len() == i,
            is_temporary@.len() == i,
            is_integrity_stream@.len() == i,
            forall|j: int|
                0 <= j < i ==> {
                    let r = #[trigger] records@[j];
                    &&& is_sparse@[j] == r.std_info.is_sparse
                    &&& is_reparse@[j] == r.std_info.is_reparse
                    &&& is_offline@[j] == r.std_info.is_offline
                    &&& is_not_indexed@[j] == r.std_info.is_not_content_indexed
                    &&& is_temporary@[j] == r.std_info.is_temporary
                    &&& is_integrity_stream@[j] == r.std_info.is_integrity_stream
                },
    {
        let r = &records[i];
        is_sparse.push(r.std_info.is_sparse);
        is_reparse.push(r.std_info.is_reparse);
        is_offline.push(r.std_info.is_offline);
        is_not_indexed.push(r.std_info.is_not_content_indexed);
        is_temporary.push(r.std_info.is_temporary);
        is_integrity_stream.push(r.std_info.is_integrity_stream);
    }
    (is_sparse, is_reparse, is_offline, is_not_indexed, is_temporary, is_integrity_stream)
}

/// The last flags, and all of them in one number.
fn last_flags(records: &[ParsedRecord]) -> (out: (Vec<bool>, Vec<bool>, Vec<bool>, Vec<bool>, Vec<u32>))
    ensures
        out.0@.len() == records@.len(),
        out.1@.len() == records@.len(),
        out.2@.len() == records@.len(),
        out.3@.len() == records@.len(),
        out.4@.len() == records@.len(),
        forall|j: int|
            0 <= j < records@.len() ==> {
                let r = #[trigger] records@[j];
                &&& out.0@[j] == r.std_info.is_no_scrub_data
                &&& out.1@[j] == r.std_info.is_pinned
                &&& out.2@[j] == r.std_info.is_unpinned
                &&& out.3@[j] == r.std_info.is_virtual
                &&& out.4@[j] == r.std_info.raw_flags
            },
{
    let mut is_no_scrub_data: Vec<bool> = Vec::new();
    let mut is_pinned: Vec<bool> = Vec::new();
    let mut is_unpinned: Vec<bool> = Vec::new();
    let mut is_virtual: Vec<bool> = Vec::new();
    let mut flags: Vec<u32> = Vec::new();
    let n: usize = records.len();
    for i in 0..n
        invariant
            n == records@.len(),
            is_no_scrub_data@.len() == i,
            is_pinned@.len() == i,
            is_unpinned@.len() == i,
            is_virtual@.len() == i,
            flags@.len() == i,
            forall|j: int|
                0 <= j < i ==> {
                    let r = #[trigger] records@[j];
                    &&& is_no_scrub_data@[j] == r.std_info.is_no_scrub_data
                    &&& is_pinned@[j] == r.std_info.is_pinned
                    &&& is_unpinned@[j] == r.std_info.is_unpinned
                    &&& is_virtual@[j] == r.std_info.is_virtual
                    &&& flags@[j] == r.std_info.raw_flags
                },
    {
        let r = &records[i];
        is_no_scrub_data.push(r.std_info.is_no_scrub_data);
        is_pinned.push(r.std_info.is_pinned);
        is_unpinned.push(r.std_info.is_unpinned);
        is_virtual.push(r.std_info.is_virtual);
        flags.push(r.std_info.raw_flags);
    }
    (is_no_scrub_data, is_pinned, is_unpinned, is_virtual, flags)
}

/// The columns of some records.
pub fn build_columns(records: &[ParsedRecord]) -> (c: ParsedColumns)
    ensures
        c.hold(records@),
{
    let (frs, parent_frs, name, size, allocated_size) = identity(records);
    let (created, modified, accessed, mft_changed) = times(records);
    let (is_directory, name_count, stream_count, stream_name) = counts(records);
    let (is_readonly, is_hidden, is_system, is_archive, is_compressed, is_encrypted) = first_flags(records);
    let (is_sparse, is_reparse, is_offline, is_not_indexed, is_temporary, is_integrity_stream) = second_flags(records);
    let (is_no_scrub_data, is_pinned, is_unpinned, is_virtual, flags) = last_flags(records);
    ParsedColumns {
        frs,
        parent_frs,
        name,
        size,
        allocated_size,
        created,
        modified,
        accessed,
        mft_changed,
        is_directory,
        name_count,
        stream_count,
        stream_name,
        is_readonly,
        is_hidden,
        is_system,
        is_archive,
        is_compressed,
        is_encrypted,
        is_sparse,
        is_reparse,
        is_offline,
        is_not_indexed,
        is_temporary,
        is_integrity_stream,
        is_no_scrub_data,
        is_pinned,
        is_unpinned,
        is_virtual,
        flags,
    }
}

/// The names and kinds of the columns, in order.
pub open spec fn schema_spec() -> Seq<(Seq<char>, ColumnKind)> {
    seq![
        ("frs"@, ColumnKind::UInt64),
        ("parent_frs"@, ColumnKind::UInt64),
        ("name"@, ColumnKind::Text),
        ("size"@, ColumnKind::UInt64),
        ("allocated_size"@, ColumnKind::UInt64),
        ("created"@, ColumnKind::Time),
        ("modified"@, ColumnKind::Time),
        ("accessed"@, ColumnKind::Time),
        ("mft_changed"@, ColumnKind::Time),
        ("is_directory"@, ColumnKind::Boolean),
        ("name_count"@, ColumnKind::UInt16),
        ("stream_count"@, ColumnKind::UInt16),
        ("stream_name"@, ColumnKind::Text),
        ("is_readonly"@, ColumnKind::Boolean),
        ("is_hidden"@, ColumnKind::Boolean),
        ("is_system"@, ColumnKind::Boolean),
        ("is_archive"@, ColumnKind::Boolean),
        ("is_compressed"@, ColumnKind::Boolean),
        ("is_encrypted"@, ColumnKind::Boolean),
        ("is_sparse"@, ColumnKind::Boolean),
        ("is_reparse"@, ColumnKind::Boolean),
        ("is_offline"@, ColumnKind::Boolean),
        ("is_not_indexed"@, ColumnKind::Boolean),
        ("is_temporary"@, ColumnKind::Boolean),
        ("is_integrity_stream"@, ColumnKind::Boolean),
        ("is_no_scrub_data"@, ColumnKind::Boolean),
        ("is_pinned"@, ColumnKind::Boolean),
        ("is_unpinned"@, ColumnKind::Boolean),
        ("is_virtual"@, ColumnKind::Boolean),
        ("flags"@, ColumnKind::UInt32),
    ]
}

/// The names and kinds of the columns, in order.
pub fn schema() -> (r: Vec<(&'static str, ColumnKind)>)
    ensures
        r@.len() == schema_spec().len(),
        forall|i: int|
            0 <= i < r@.len() ==> (#[trigger] r@[i]).0@ == schema_spec()[i].0 && r@[i].1
                == schema_spec()[i].1,
{
    vec![
        ("frs", ColumnKind::UInt64),
        ("parent_frs", ColumnKind::UInt64),
        ("name", ColumnKind::Text),
        ("size", ColumnKind::UInt64),
        ("allocated_size", ColumnKind::UInt64),
        ("created", ColumnKind::Time),
        ("modified", ColumnKind::Time),
        ("accessed", ColumnKind::Time),
        ("mft_changed", ColumnKind::Time),
        ("is_directory", ColumnKind::Boolean),
        ("name_count", ColumnKind::UInt16),
        ("stream_count", ColumnKind::UInt16),
        ("stream_name", ColumnKind::Text),
        ("is_readonly", ColumnKind::Boolean),
        ("is_hidden", ColumnKind::Boolean),
        ("is_system", ColumnKind::Boolean),
        ("is_archive", ColumnKind::Boolean),
        ("is_compressed", ColumnKind::Boolean),
        ("is_encrypted", ColumnKind::Boolean),
        ("is_sparse", ColumnKind::Boolean),
        ("is_reparse", ColumnKind::Boolean),
        ("is_offline", ColumnKind::Boolean),
        ("is_not_indexed", ColumnKind::Boolean),
        ("is_temporary", ColumnKind::Boolean),
        ("is_integrity_stream", ColumnKind::Boolean),
        ("is_no_scrub_data", ColumnKind::Boolean),
        ("is_pinned", ColumnKind::Boolean),
        ("is_unpinned", ColumnKind::Boolean),
        ("is_virtual", ColumnKind::Boolean),
        ("flags", ColumnKind::UInt32),
    ]
}

/// Columns that hold some records have a row for each of them, and give back
/// every value of each of them in the column of its name.
pub proof fn law_columns_give_the_records_back(
    c: ParsedColumns,
    records: Seq<ParsedRecord>,
    j: int,
)
    requires
        c.hold(records),
        0 <= j < records.len(),
    ensures
        ({
            let r = records[j];
            &&& c.frs@.len() == records.len() && c.frs@[j] == r.frs
            &&& c.parent_frs@.len() == records.len() && c.parent_frs@[j] == r.parent_frs
            &&& c.size@.len() == records.len() && c.size@[j] == r.size
            &&& c.allocated_size@.len() == records.len() && c.allocated_size@[j] == r.allocated_size
            &&& c.created@.len() == records.len() && c.created@[j] == r.std_info.created
            &&& c.modified@.len() == records.len() && c.modified@[j] == r.std_info.modified
            &&& c.accessed@.len() == records.len() && c.accessed@[j] == r.std_info.accessed
            &&& c.mft_changed@.len() == records.len() && c.mft_changed@[j] == r.std_info.mft_changed
            &&& c.is_directory@.len() == records.len() && c.is_directory@[j] == r.is_directory
            &&& c.name_count@.len() == records.len() && c.name_count@[j] == r.name_count
            &&& c.stream_count@.len() == records.len() && c.stream_count@[j] == r.stream_count
            &&& c.is_readonly@.len() == records.len() && c.is_readonly@[j] == r.std_info.is_readonly
            &&& c.is_hidden@.len() == records.len() && c.is_hidden@[j] == r.std_info.is_hidden
            &&& c.is_system@.len() == records.len() && c.is_system@[j] == r.std_info.is_system
            &&& c.is_archive@.len() == records.len() && c.is_archive@[j] == r.std_info.is_archive
            &&& c.is_compressed@.len() == records.len() && c.is_compressed@[j] == r.std_info.is_compressed
            &&& c.is_encrypted@.len() == records.len() && c.is_encrypted@[j] == r.std_info.is_encrypted
            &&& c.is_sparse@.len() == records.len() && c.is_sparse@[j] == r.std_info.is_sparse
            &&& c.is_reparse@.len() == records.len() && c.is_reparse@[j] == r.std_info.is_reparse
            &&& c.is_offline@.len() == records.len() && c.is_offline@[j] == r.std_info.is_offline
            &&& c.is_temporary@.len() == records.len() && c.is_temporary@[j] == r.std_info.is_temporary
            &&& c.is_integrity_stream@.len() == records.len() && c.is_integrity_stream@[j] == r.std_info.is_integrity_stream
            &&& c.is_no_scrub_data@.len() == records.len() && c.is_no_scrub_data@[j] == r.std_info.is_no_scrub_data
            &&& c.is_pinned@.len() == records.len() && c.is_pinned@[j] == r.std_info.is_pinned
            &&& c.is_unpinned@.len() == records.len() && c.is_unpinned@[j] == r.std_info.is_unpinned
            &&& c.is_virtual@.len() == records.len() && c.is_virtual@[j] == r.std_info.is_virtual
            &&& c.is_not_indexed@.len() == records.len() && c.is_not_indexed@[j] == r.std_info.is_not_content_indexed
            &&& c.flags@.len() == records.len() && c.flags@[j] == r.std_info.raw_flags
            &&& c.name@.len() == records.len() && c.name@[j]@ == r.name@
            &&& c.stream_name@.len() == records.len() && c.stream_name@[j]@.len() == 0
        }),
{
    assert(c.row_is(j, records[j]));
}

/// There is a column for each value of a record, no two under the same name.
pub proof fn law_columns_are_named_apart(i: int)
    requires
        0 <= i < schema_spec().len(),
    ensures
        schema_spec().len() == 30,
        schema_spec()[i].1 is Time <==> 5 <= i < 9,
        schema_spec()[i].1 is Text <==> i == 2 || i == 12,
        schema_spec()[i].1 is Boolean <==> i == 9 || 13 <= i < 29,
        schema_spec()[i].1 is UInt64 <==> i == 0 || i == 1 || i == 3 || i == 4,
        schema_spec()[i].1 is UInt16 <==> i == 10 || i == 11,
        schema_spec()[i].1 is UInt32 <==> i == 29,
{
}

/// The columns stand in the order of the values of a record, each under the name
/// of its value.
pub proof fn law_columns_have_names()
    ensures
        schema_spec()[0].0 == "frs"@,
        schema_spec()[1].0 == "parent_frs"@,
        schema_spec()[2].0 == "name"@,
        schema_spec()[3].0 == "size"@,
        schema_spec()[4].0 == "allocated_size"@,
        schema_spec()[5].0 == "created"@,
        schema_spec()[6].0 == "modified"@,
        schema_spec()[7].0 == "accessed"@,
        schema_spec()[8].0 == "mft_changed"@,
        schema_spec()[9].0 == "is_directory"@,
        schema_spec()[10].0 == "name_count"@,
        schema_spec()[11].0 == "stream_count"@,
        schema_spec()[12].0 == "stream_name"@,
        schema_spec()[13].0 == "is_readonly"@,
        schema_spec()[14].0 == "is_hidden"@,
        schema_spec()[15].0 == "is_system"@,
        schema_spec()[16].0 == "is_archive"@,
        schema_spec()[17].0 == "is_compressed"@,
        schema_spec()[18].0 == "is_encrypted"@,
        schema_spec()[19].0 == "is_sparse"@,
        schema_spec()[20].0 == "is_reparse"@,
        schema_spec()[21].0 == "is_offline"@,
        schema_spec()[22].0 == "is_not_indexed"@,
        schema_spec()[23].0 == "is_temporary"@,
        schema_spec()[24].0 == "is_integrity_stream"@,
        schema_spec()[25].0 == "is_no_scrub_data"@,
        schema_spec()[26].0 == "is_pinned"@,
        schema_spec()[27].0 == "is_unpinned"@,
        schema_spec()[28].0 == "is_virtual"@,
        schema_spec()[29].0 == "flags"@,
{
}

} // verus!
