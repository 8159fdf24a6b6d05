//! The compact in-memory index of a Master File Table.
//!
//! Records refer to their streams, internal streams and child entries by
//! position in flat arrays; each array entry names the next one of its list,
//! and `NO_ENTRY` ends a list.

use crate::platform::drive_letter::DriveLetter;
use vstd::prelude::*;

verus! {

/// Ends a list of entries, and marks an absent position.
pub const NO_ENTRY: u32 = 0xFFFF_FFFF;

/// Logical and allocated size of a stream, in bytes.
#[derive(Debug, Clone, Copy, PartialEq, Eq, Structural)]
pub struct SizeInfo {
    /// Logical size.
    pub length: u64,
    /// Space taken on disk.
    pub allocated: u64,
}

/// Where a name stands in the shared name buffer.
#[derive(Debug, Clone, Copy, PartialEq, Eq, Structural)]
pub struct NameRef {
    /// Position of the first byte.
    pub offset: u32,
    /// Number of bytes.
    pub length: u32,
}

/// The unnamed stream of a record, with the head of its list of named streams.
#[derive(Debug, Clone, Copy, PartialEq, Eq, Structural)]
pub struct FirstStream {
    /// Size of the unnamed stream.
    pub size: SizeInfo,
    /// First named stream, or `NO_ENTRY`.
    pub next_entry: u32,
}

/// A named, user-visible stream.
#[derive(Debug, Clone, Copy, PartialEq, Eq, Structural)]
pub struct StreamEntry {
    /// Size of the stream.
    pub size: SizeInfo,
    /// Name of the stream.
    pub name: NameRef,
    /// Next named stream of the same record, or `NO_ENTRY`.
    pub next_entry: u32,
}

/// A stream that the file system keeps for itself.
#[derive(Debug, Clone, Copy, PartialEq, Eq, Structural)]
pub struct InternalStreamEntry {
    /// Size of the stream.
    pub size: SizeInfo,
    /// Next internal stream of the same record, or `NO_ENTRY`.
    pub next_entry: u32,
}

/// One name of a child inside a directory.
#[derive(Debug, Clone, Copy, PartialEq, Eq, Structural)]
pub struct ChildEntry {
    /// File record segment of the child.
    pub child_frs: u64,
    /// Which of the child's names this is.
    pub name_index: u16,
    /// Next child entry of the same directory, or `NO_ENTRY`.
    pub next_entry: u32,
}

/// The attribute bits of a record that the index keeps.
#[derive(Debug, Clone, Copy, PartialEq, Eq, Structural)]
pub struct StdInfo {
    /// The record is a directory.
    pub directory: bool,
    /// The record is a reparse point.
    pub reparse: bool,
}

impl StdInfo {
    /// Whether the record is a directory.
    pub fn is_directory(&self) -> (r: bool)
        ensures
            r == self.directory,
    {
        self.directory
    }

    /// Whether the record is a reparse point.
    pub fn is_reparse(&self) -> (r: bool)
        ensures
            r == self.reparse,
    {
        self.reparse
    }
}

/// One file or directory.
#[derive(Debug, Clone, Copy, PartialEq, Eq, Structural)]
pub struct FileRecord {
    /// File record segment number.
    pub frs: u64,
    /// Attribute bits.
    pub stdinfo: StdInfo,
    /// Number of names (hard links).
    pub name_count: u16,
    /// Number of streams, internal ones counted.
    pub total_stream_count: u16,
    /// First child entry, or `NO_ENTRY`.
    pub first_child: u32,
    /// The unnamed stream and the head of the named ones.
    pub first_stream: FirstStream,
    /// First internal stream, or `NO_ENTRY`.
    pub first_internal_stream: u32,
    /// Sum of the internal streams' logical sizes.
    pub internal_streams_size: u64,
    /// Sum of the internal streams' allocated sizes.
    pub internal_streams_allocated: u64,
    /// Reparse tag, 0 if the record is no reparse point.
    pub reparse_tag: u32,
    /// Printed number of descendants, the directory itself counted.
    pub descendants: u32,
    /// Printed logical size of the subtree.
    pub treesize: u64,
    /// Printed allocated size of the subtree.
    pub tree_allocated: u64,
}

/// The index of one volume.
#[derive(Debug)]
pub struct MftIndex {
    /// The volume the index was built from.
    pub volume: DriveLetter,
    /// The records.
    pub records: Vec<FileRecord>,
    /// Position of each file record segment in `records`, or `NO_ENTRY`.
    pub frs_to_idx: Vec<u32>,
    /// The named streams of all records.
    pub streams: Vec<StreamEntry>,
    /// The internal streams of all records; empty when the index came from a
    /// cache that keeps only the sums.
    pub internal_streams: Vec<InternalStreamEntry>,
    /// The child entries of all directories.
    pub children: Vec<ChildEntry>,
    /// The bytes of all names.
    pub names: Vec<u8>,
    /// Bytes that the volume holds back from allocation.
    pub reserved_allocated_bytes: u64,
}

/// What an index holds.
#[verifier::ext_equal]
pub struct IndexView {
    pub volume: DriveLetter,
    pub records: Seq<FileRecord>,
    pub frs_to_idx: Seq<u32>,
    pub streams: Seq<StreamEntry>,
    pub internal_streams: Seq<InternalStreamEntry>,
    pub children: Seq<ChildEntry>,
    pub names: Seq<u8>,
    pub reserved_allocated_bytes: u64,
}

impl IndexView {
    /// The position of the record with segment number `frs`, if it is known.
    pub open spec fn position(self, frs: u64) -> Option<u32> {
        if frs < self.frs_to_idx.len() && self.frs_to_idx[frs as int] != NO_ENTRY {
            Some(self.frs_to_idx[frs as int])
        } else {
            None
        }
    }

    /// The bytes of a name; empty where the reference leaves the buffer.
    pub open spec fn name(self, r: NameRef) -> Seq<u8> {
        if r.offset + r.length <= self.names.len() {
            self.names.subrange(r.offset as int, r.offset + r.length)
        } else {
            Seq::empty()
        }
    }

    /// The same index with other records.
    pub open spec fn with_records(self, records: Seq<FileRecord>) -> IndexView {
        IndexView { records, ..self }
    }
}

impl View for MftIndex {
    type V = IndexView;

    open spec fn view(&self) -> IndexView {
        IndexView {
            volume: self.volume,
            records: self.records@,
            frs_to_idx: self.frs_to_idx@,
            streams: self.streams@,
            internal_streams: self.internal_streams@,
            children: self.children@,
            names: self.names@,
            reserved_allocated_bytes: self.reserved_allocated_bytes,
        }
    }
}

impl MftIndex {
    /// An index without records.
    pub fn new(volume: DriveLetter) -> (r: MftIndex)
        ensures
            r@ == (IndexView {
                volume,
                records: Seq::empty(),
                frs_to_idx: Seq::empty(),
                streams: Seq::empty(),
                internal_streams: Seq::empty(),
                children: Seq::empty(),
                names: Seq::empty(),
                reserved_allocated_bytes: 0,
            }),
    {
        MftIndex {
            volume,
            records: Vec::new(),
            frs_to_idx: Vec::new(),
            streams: Vec::new(),
            internal_streams: Vec::new(),
            children: Vec::new(),
            names: Vec::new(),
            reserved_allocated_bytes: 0,
        }
    }

    /// The position of the record with segment number `frs`, if it is known.
    pub fn frs_to_idx_opt(&self, frs: u64) -> (r: Option<usize>)
        ensures
            match (r, self@.position(frs)) {
                (Some(i), Some(p)) => i == p,
                (None, None) => true,
                _ => false,
            },
    {
        if frs < self.frs_to_idx.len() as u64 {
            let p: u32 = self.frs_to_idx[frs as usize];
            if p != NO_ENTRY {
                return Some(p as usize);
            }
        }
        None
    }

    /// Whether the name that `r` refers to is `text`.
    pub fn name_is(&self, r: NameRef, text: &[u8]) -> (res: bool)
        ensures
            res == (self@.name(r) == text@),
    {
        let end: u64 = r.offset as u64 + r.length as u64;
        if end > self.names.len() as u64 {
            assert(self@.name(r) =~= text@ <==> text@.len() == 0);
            return text.len() == 0;
        }
        if text.len() as u64 != r.length as u64 {
            assert(self@.name(r).len() != text@.len());
            return false;
        }
        crate::bytes::matches_at(self.names.as_slice(), r.offset as usize, text)
    }
}

/// A record is known if its number has a place in the index, and stands at that
/// place.
pub proof fn law_positions_are_looked_up(ix: IndexView, frs: u64, p: u32)
    ensures
        ix.position(frs) == Some(p) <==> frs < ix.frs_to_idx.len() && ix.frs_to_idx[frs as int] == p
            && p != 0xFFFF_FFFF,
        ix.position(frs) is None <==> frs >= ix.frs_to_idx.len() || ix.frs_to_idx[frs as int]
            == 0xFFFF_FFFF,
{
}

/// A name is a part of the buffer of names: as long as its reference says, from
/// the place that it says. One that leaves the buffer is no name.
pub proof fn law_names_stand_in_the_buffer(ix: IndexView, r: NameRef, i: int)
    ensures
        r.offset + r.length <= ix.names.len() ==> ix.name(r).len() == r.length && (0 <= i
            < r.length ==> ix.name(r)[i] == ix.names[r.offset + i]),
        r.offset + r.length > ix.names.len() ==> ix.name(r).len() == 0,
{
}

} // verus!
