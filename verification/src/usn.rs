//! The change journal of a volume.

use crate::bytes::{put_u32, put_u64, to_unsigned64, read_i64, read_u16, read_u32, read_u64};
use crate::error::{IoFault, MftError};
use crate::ntfs::segment_number;
use crate::text::from_utf16_lossy;
use std::collections::HashMap;
use vstd::prelude::*;

pub mod layout;
pub mod reason;
pub mod targeted;

verus! {

broadcast use vstd::std_specs::hash::group_hash_axioms;

/// State of a journal.
#[derive(Debug, Clone, Copy, PartialEq, Eq, Structural)]
pub struct UsnJournalInfo {
    /// Identifies this instance of the journal.
    pub journal_id: u64,
    /// First position that can be read.
    pub first_usn: i64,
    /// Position that the next record will have.
    pub next_usn: i64,
    /// Lowest position that can still be read.
    pub lowest_valid_usn: i64,
    /// Highest position that the journal can reach.
    pub max_usn: i64,
    /// Largest size of the journal, in bytes.
    pub max_size: u64,
    /// By how much the journal grows, in bytes.
    pub allocation_delta: u64,
}

/// Size of a journal's state as the system returns it.
pub const JOURNAL_DATA_SIZE: usize = 56;

/// The state of a journal that some bytes hold.
pub open spec fn journal_info(b: Seq<u8>) -> UsnJournalInfo {
    UsnJournalInfo {
        journal_id: crate::bytes::u64_at(b, 0),
        first_usn: crate::bytes::i64_at(b, 8),
        next_usn: crate::bytes::i64_at(b, 16),
        lowest_valid_usn: crate::bytes::i64_at(b, 24),
        max_usn: crate::bytes::i64_at(b, 32),
        max_size: crate::bytes::u64_at(b, 40),
        allocation_delta: crate::bytes::u64_at(b, 48),
    }
}

/// Takes the system's answer to a question for the state of a journal: the
/// state, or the system's error code.
pub fn query_usn_journal(answer: Result<&[u8; JOURNAL_DATA_SIZE], i32>) -> (r: Result<
    UsnJournalInfo,
    MftError,
>)
    ensures
        r == match answer {
            Ok(buf) => Ok::<UsnJournalInfo, MftError>(journal_info(buf@)),
            Err(code) => Err(MftError::Io(IoFault::Os(code))),
        },
{
    match answer {
        Ok(buf) => {
            let s: &[u8] = buf.as_slice();
            Ok(
                UsnJournalInfo {
                    journal_id: read_u64(s, 0),
                    first_usn: read_i64(s, 8),
                    next_usn: read_i64(s, 16),
                    lowest_valid_usn: read_i64(s, 24),
                    max_usn: read_i64(s, 32),
                    max_size: read_u64(s, 40),
                    allocation_delta: read_u64(s, 48),
                },
            )
        },
        Err(code) => Err(MftError::Io(IoFault::Os(code))),
    }
}

/// One record of the journal.
#[derive(Debug, Clone)]
pub struct UsnRecord {
    /// Segment number of the file.
    pub frs: u64,
    /// Segment number of its directory.
    pub parent_frs: u64,
    /// Position of the record.
    pub usn: i64,
    /// Why the record was written.
    pub reason: u32,
    /// Attributes of the file.
    pub file_attributes: u32,
    /// Name of the file.
    pub filename: String,
}

/// What a record says.
#[verifier::ext_equal]
pub struct UsnView {
    pub frs: u64,
    pub parent_frs: u64,
    pub usn: i64,
    pub reason: u32,
    pub file_attributes: u32,
    pub filename: Seq<char>,
}

impl View for UsnRecord {
    type V = UsnView;

    open spec fn view(&self) -> UsnView {
        UsnView {
            frs: self.frs,
            parent_frs: self.parent_frs,
            usn: self.usn,
            reason: self.reason,
            file_attributes: self.file_attributes,
            filename: self.filename@,
        }
    }
}

/// What several records say.
pub open spec fn usn_views(records: Seq<UsnRecord>) -> Seq<UsnView> {
    records.map_values(|r: UsnRecord| r@)
}

/// What happened to a file.
#[derive(Debug, Clone, Copy, PartialEq, Eq, Structural)]
pub enum ChangeType {
    /// It was created.
    Created,
    /// It was deleted.
    Deleted,
    /// It has a new name.
    Renamed,
    /// Its size changed.
    SizeChanged,
    /// Its timestamps or attributes changed.
    MetadataChanged,
    /// Something that does not matter to an index.
    Other,
}

/// What the bits of a reason say. Creation comes before deletion, deletion
/// before a new name, a new name before a change of size, and that before a
/// change of metadata.
pub open spec fn change_of(reason: u32) -> ChangeType {
    if reason & reason::FILE_CREATE != 0 {
        ChangeType::Created
    } else if reason & reason::FILE_DELETE != 0 {
        ChangeType::Deleted
    } else if reason & reason::RENAME_NEW_NAME != 0 {
        ChangeType::Renamed
    } else if reason & reason::DATA_EXTEND != 0 || reason & reason::DATA_TRUNCATION != 0 {
        ChangeType::SizeChanged
    } else if reason & reason::BASIC_INFO_CHANGE != 0 {
        ChangeType::MetadataChanged
    } else {
        ChangeType::Other
    }
}

/// A file that was created counts as created, whatever else happened to it.
pub proof fn law_creation_comes_first(reason: u32)
    requires
        reason & 0x100 != 0,
    ensures
        change_of(reason) is Created,
{
}

/// A file that was deleted and not created counts as deleted, whatever else
/// happened to it.
pub proof fn law_deletion_comes_second(reason: u32)
    requires
        reason & 0x100 == 0,
        reason & 0x200 != 0,
    ensures
        change_of(reason) is Deleted,
{
}

/// A file with a new name that was neither created nor deleted counts as
/// renamed, whatever else happened to it.
pub proof fn law_new_name_comes_third(reason: u32)
    requires
        reason & 0x100 == 0,
        reason & 0x200 == 0,
        reason & 0x2000 != 0,
    ensures
        change_of(reason) is Renamed,
{
}

/// Of what does not come before it, longer or shorter data comes before new
/// metadata.
pub proof fn law_size_comes_before_metadata(reason: u32)
    requires
        reason & 0x100 == 0,
        reason & 0x200 == 0,
        reason & 0x2000 == 0,
    ensures
        reason & 0x2 != 0 ==> change_of(reason) is SizeChanged,
        reason & 0x4 != 0 ==> change_of(reason) is SizeChanged,
        reason & 0x2 == 0 && reason & 0x4 == 0 && reason & 0x8000 != 0 ==> change_of(
            reason,
        ) is MetadataChanged,
        reason & 0x2 == 0 && reason & 0x4 == 0 && reason & 0x8000 == 0 ==> change_of(
            reason,
        ) is Other,
{
}

/// Only the bits for creation, deletion, a new name, longer or shorter data and
/// metadata say what happened: two reasons that agree in these agree, whether
/// or not the file was closed.
pub proof fn law_other_bits_do_not_matter(a: u32, b: u32)
    requires
        a & 0xA306 == b & 0xA306,
    ensures
        change_of(a) == change_of(b),
        change_of(a ^ 0x8000_0000) == change_of(a),
{
    let c = a ^ 0x8000_0000;
    assert(forall|x: u32, y: u32| #![auto]
        x & 0xA306 == y & 0xA306 ==> (x & 0x100 == y & 0x100) && (x & 0x200 == y & 0x200) && (x
            & 0x2000 == y & 0x2000) && (x & 2 == y & 2) && (x & 4 == y & 4) && (x & 0x8000 == y
            & 0x8000)) by (bit_vector);
    assert((a ^ 0x8000_0000) & 0xA306 == a & 0xA306) by (bit_vector);
}

impl UsnRecord {
    /// What happened to the file.
    pub fn change_type(&self) -> (r: ChangeType)
        ensures
            r == change_of(self.reason),
            r is Created <==> self.reason & 0x100 != 0,
            r is Deleted <==> self.reason & 0x300 == 0x200,
            r is Renamed <==> self.reason & 0x2300 == 0x2000,
            r is SizeChanged <==> self.reason & 0x2300 == 0 && self.reason & 0x6 != 0,
            r is MetadataChanged <==> self.reason & 0x2306 == 0 && self.reason & 0x8000 != 0,
    {
        let bits: u32 = self.reason;
        proof {
            lemma_masks(bits);
        }
        assert((bits & (2u32 | 4u32) != 0) == (bits & 2 != 0 || bits & 4 != 0)) by (bit_vector);
        if bits & reason::FILE_CREATE != 0 {
            ChangeType::Created
        } else if bits & reason::FILE_DELETE != 0 {
            ChangeType::Deleted
        } else if bits & reason::RENAME_NEW_NAME != 0 {
            ChangeType::Renamed
        } else if bits & (reason::DATA_EXTEND | reason::DATA_TRUNCATION) != 0 {
            ChangeType::SizeChanged
        } else if bits & reason::BASIC_INFO_CHANGE != 0 {
            ChangeType::MetadataChanged
        } else {
            ChangeType::Other
        }
    }

    /// Whether this is the last record of a change.
    pub fn is_close(&self) -> (r: bool)
        ensures
            r == (self.reason & reason::CLOSE != 0),
            r == (self.reason >= 0x8000_0000),
    {
        let bits: u32 = self.reason;
        assert((bits & 0x8000_0000 != 0) == (bits >= 0x8000_0000)) by (bit_vector);
        bits & reason::CLOSE != 0
    }
}

/// Everything that happened to one file.
#[derive(Debug, Clone)]
pub struct FileChange {
    /// Segment number of the file.
    pub frs: u64,
    /// Segment number of its latest directory.
    pub parent_frs: u64,
    /// Its latest name.
    pub filename: String,
    /// It was created.
    pub created: bool,
    /// It was deleted.
    pub deleted: bool,
    /// It was renamed.
    pub renamed: bool,
    /// Its size changed.
    pub size_changed: bool,
    /// Its metadata changed.
    pub metadata_changed: bool,
}

/// What a collected change says.
#[verifier::ext_equal]
pub struct ChangeView {
    pub frs: u64,
    pub parent_frs: u64,
    pub filename: Seq<char>,
    pub created: bool,
    pub deleted: bool,
    pub renamed: bool,
    pub size_changed: bool,
    pub metadata_changed: bool,
}

impl View for FileChange {
    type V = ChangeView;

    open spec fn view(&self) -> ChangeView {
        ChangeView {
            frs: self.frs,
            parent_frs: self.parent_frs,
            filename: self.filename@,
            created: self.created,
            deleted: self.deleted,
            renamed: self.renamed,
            size_changed: self.size_changed,
            metadata_changed: self.metadata_changed,
        }
    }
}

/// Some record is about file `frs`.
pub open spec fn mentions(records: Seq<UsnView>, frs: u64) -> bool {
    exists|i: int| 0 <= i < records.len() && (#[trigger] records[i]).frs == frs
}

/// Some record says that `what` happened to file `frs`.
pub open spec fn happened(records: Seq<UsnView>, frs: u64, what: ChangeType) -> bool {
    exists|i: int|
        0 <= i < records.len() && (#[trigger] records[i]).frs == frs && change_of(
            records[i].reason,
        ) == what
}

/// The directory that the last record about file `frs` names.
pub open spec fn latest_parent(records: Seq<UsnView>, frs: u64) -> u64
    decreases records.len(),
{
    if records.len() == 0 {
        0
    } else if records.last().frs == frs {
        records.last().parent_frs
    } else {
        latest_parent(records.drop_last(), frs)
    }
}

/// The name that the last record about file `frs` with a name gives.
pub open spec fn latest_name(records: Seq<UsnView>, frs: u64) -> Seq<char>
    decreases records.len(),
{
    if records.len() == 0 {
        Seq::empty()
    } else if records.last().frs == frs && records.last().filename.len() > 0 {
        records.last().filename
    } else {
        latest_name(records.drop_last(), frs)
    }
}

/// Everything that the records say about file `frs`.
pub open spec fn collected(records: Seq<UsnView>, frs: u64) -> ChangeView {
    ChangeView {
        frs,
        parent_frs: latest_parent(records, frs),
        filename: latest_name(records, frs),
        created: happened(records, frs, ChangeType::Created),
        deleted: happened(records, frs, ChangeType::Deleted),
        renamed: happened(records, frs, ChangeType::Renamed),
        size_changed: happened(records, frs, ChangeType::SizeChanged),
        metadata_changed: happened(records, frs, ChangeType::MetadataChanged),
    }
}

proof fn lemma_push(records: Seq<UsnView>, r: UsnView, frs: u64, what: ChangeType)
    ensures
        mentions(records.push(r), frs) <==> mentions(records, frs) || r.frs == frs,
        happened(records.push(r), frs, what) <==> happened(records, frs, what) || (r.frs == frs
            && change_of(r.reason) == what),
{
    let all = records.push(r);
    assert(all[records.len() as int] == r);
    if mentions(records, frs) {
        let i = choose|i: int| 0 <= i < records.len() && (#[trigger] records[i]).frs == frs;
        assert(all[i] == records[i]);
    }
    if mentions(all, frs) {
        let i = choose|i: int| 0 <= i < all.len() && (#[trigger] all[i]).frs == frs;
        if i < records.len() {
            assert(all[i] == records[i]);
        }
    }
    if happened(records, frs, what) {
        let i = choose|i: int|
            0 <= i < records.len() && (#[trigger] records[i]).frs == frs && change_of(
                records[i].reason,
            ) == what;
        assert(all[i] == records[i]);
    }
    if happened(all, frs, what) {
        let i = choose|i: int|
            0 <= i < all.len() && (#[trigger] all[i]).frs == frs && change_of(all[i].reason)
                == what;
        if i < records.len() {
            assert(all[i] == records[i]);
        }
    }
}

proof fn lemma_collect_one_more(records: Seq<UsnView>, r: UsnView, frs: u64)
    ensures
        mentions(records.push(r), frs) <==> mentions(records, frs) || r.frs == frs,
        r.frs != frs ==> collected(records.push(r), frs) == collected(records, frs),
        r.frs == frs ==> collected(records.push(r), frs) == (ChangeView {
            frs,
            parent_frs: r.parent_frs,
            filename: if r.filename.len() > 0 {
                r.filename
            } else {
                collected(records, frs).filename
            },
            created: collected(records, frs).created || change_of(r.reason) == ChangeType::Created,
            deleted: collected(records, frs).deleted || change_of(r.reason) == ChangeType::Deleted,
            renamed: collected(records, frs).renamed || change_of(r.reason) == ChangeType::Renamed,
            size_changed: collected(records, frs).size_changed || change_of(r.reason)
                == ChangeType::SizeChanged,
            metadata_changed: collected(records, frs).metadata_changed || change_of(r.reason)
                == ChangeType::MetadataChanged,
        }),
{
    assert(records.push(r).drop_last() =~= records);
    lemma_push(records, r, frs, ChangeType::Created);
    lemma_push(records, r, frs, ChangeType::Deleted);
    lemma_push(records, r, frs, ChangeType::Renamed);
    lemma_push(records, r, frs, ChangeType::SizeChanged);
    lemma_push(records, r, frs, ChangeType::MetadataChanged);
}

proof fn lemma_not_mentioned(records: Seq<UsnView>, frs: u64)
    requires
        !mentions(records, frs),
    ensures
        collected(records, frs) == (ChangeView {
            frs,
            parent_frs: 0,
            filename: Seq::empty(),
            created: false,
            deleted: false,
            renamed: false,
            size_changed: false,
            metadata_changed: false,
        }),
    decreases records.len(),
{
    if records.len() > 0 {
        let front = records.drop_last();
        if mentions(front, frs) {
            let i = choose|i: int| 0 <= i < front.len() && (#[trigger] front[i]).frs == frs;
            assert(records[i].frs == frs);
        }
        assert(records[records.len() - 1].frs != frs);
        lemma_not_mentioned(front, frs);
    }
}

/// The last record about a file says where it lies.
pub proof fn law_last_record_names_the_directory(records: Seq<UsnView>, i: int)
    requires
        0 <= i < records.len(),
        forall|j: int| i < j < records.len() ==> (#[trigger] records[j]).frs != records[i].frs,
    ensures
        mentions(records, records[i].frs),
        collected(records, records[i].frs).frs == records[i].frs,
        collected(records, records[i].frs).parent_frs == records[i].parent_frs,
    decreases records.len(),
{
    let frs = records[i].frs;
    if i < records.len() - 1 {
        let front = records.drop_last();
        assert(records[records.len() - 1].frs != frs);
        assert forall|j: int| i < j < front.len() implies (#[trigger] front[j]).frs
            != front[i].frs by {
            assert(records[j].frs != frs);
        }
        law_last_record_names_the_directory(front, i);
    }
}

/// The last record about a file that has a name says what the file is called;
/// without one the file has no name.
pub proof fn law_last_name_counts(records: Seq<UsnView>, i: int, frs: u64)
    requires
        -1 <= i < records.len(),
        i >= 0 ==> records[i].frs == frs && records[i].filename.len() > 0,
        forall|j: int|
            i < j < records.len() ==> (#[trigger] records[j]).frs != frs
                || records[j].filename.len() == 0,
    ensures
        collected(records, frs).filename == if i >= 0 {
            records[i].filename
        } else {
            Seq::empty()
        },
    decreases records.len(),
{
    if i < records.len() - 1 {
        let front = records.drop_last();
        let last = records[records.len() - 1];
        assert(last.frs != frs || last.filename.len() == 0);
        assert forall|j: int| i < j < front.len() implies (#[trigger] front[j]).frs != frs
            || front[j].filename.len() == 0 by {
            assert(records[j].frs != frs || records[j].filename.len() == 0);
        }
        law_last_name_counts(front, i, frs);
    }
}

/// What one record says happened to its file is kept, whatever other records
/// say.
pub proof fn law_nothing_that_happened_is_lost(records: Seq<UsnView>, i: int)
    requires
        0 <= i < records.len(),
    ensures
        ({
            let r = records[i].reason;
            let c = collected(records, records[i].frs);
            &&& r & 0x100 != 0 ==> c.created
            &&& r & 0x300 == 0x200 ==> c.deleted
            &&& r & 0x2300 == 0x2000 ==> c.renamed
            &&& r & 0x2300 == 0 && r & 0x6 != 0 ==> c.size_changed
            &&& r & 0x2306 == 0 && r & 0x8000 != 0 ==> c.metadata_changed
        }),
{
    let r = records[i].reason;
    lemma_masks(r);
    assert(happened(records, records[i].frs, change_of(r)));
}

proof fn lemma_masks(r: u32)
    by (bit_vector)
    ensures
        (r & 0x300 == 0x200) == (r & 0x100 == 0 && r & 0x200 != 0),
        (r & 0x2300 == 0x2000) == (r & 0x100 == 0 && r & 0x200 == 0 && r & 0x2000 != 0),
        (r & 0x2300 == 0) == (r & 0x100 == 0 && r & 0x200 == 0 && r & 0x2000 == 0),
        (r & 0x6 != 0) == (r & 2 != 0 || r & 4 != 0),
        (r & 0x2306 == 0) == (r & 0x100 == 0 && r & 0x200 == 0 && r & 0x2000 == 0 && r & 2 == 0
            && r & 4 == 0),
{
}

/// Nothing is said to have happened to a file that no record about it says.
pub proof fn law_nothing_is_made_up(records: Seq<UsnView>, frs: u64)
    requires
        mentions(records, frs),
    ensures
        ({
            let c = collected(records, frs);
            &&& c.created ==> exists|i: int|
                0 <= i < records.len() && (#[trigger] records[i]).frs == frs && records[i].reason
                    & 0x100 != 0
            &&& c.deleted ==> exists|i: int|
                0 <= i < records.len() && (#[trigger] records[i]).frs == frs && records[i].reason
                    & 0x300 == 0x200
            &&& c.renamed ==> exists|i: int|
                0 <= i < records.len() && (#[trigger] records[i]).frs == frs && records[i].reason
                    & 0x2300 == 0x2000
            &&& c.size_changed ==> exists|i: int|
                0 <= i < records.len() && (#[trigger] records[i]).frs == frs && records[i].reason
                    & 0x2300 == 0 && records[i].reason & 0x6 != 0
            &&& c.metadata_changed ==> exists|i: int|
                0 <= i < records.len() && (#[trigger] records[i]).frs == frs && records[i].reason
                    & 0x2306 == 0 && records[i].reason & 0x8000 != 0
        }),
{
    assert forall|what: ChangeType| #[trigger] happened(records, frs, what) implies exists|i: int|
        0 <= i < records.len() && (#[trigger] records[i]).frs == frs && change_of(
            records[i].reason,
        ) == what by {}
    assert forall|i: int| 0 <= i < records.len() implies {
        let r = (#[trigger] records[i]).reason;
        &&& (r & 0x300 == 0x200) == (r & 0x100 == 0 && r & 0x200 != 0)
        &&& (r & 0x2300 == 0x2000) == (r & 0x100 == 0 && r & 0x200 == 0 && r & 0x2000 != 0)
        &&& (r & 0x2300 == 0) == (r & 0x100 == 0 && r & 0x200 == 0 && r & 0x2000 == 0)
        &&& (r & 0x6 != 0) == (r & 2 != 0 || r & 4 != 0)
        &&& (r & 0x2306 == 0) == (r & 0x100 == 0 && r & 0x200 == 0 && r & 0x2000 == 0 && r & 2 == 0
            && r & 4 == 0)
    } by {
        lemma_masks(records[i].reason);
    }
}

/// Every file that a record is about is collected, and no other.
pub proof fn law_every_file_is_collected(records: Seq<UsnView>, frs: u64)
    ensures
        mentions(records, frs) <==> records.map_values(|r: UsnView| r.frs).contains(frs),
{
    let all = records.map_values(|r: UsnView| r.frs);
    if mentions(records, frs) {
        let i = choose|i: int| 0 <= i < records.len() && (#[trigger] records[i]).frs == frs;
        assert(all[i] == frs);
    }
    if all.contains(frs) {
        let i = choose|i: int| 0 <= i < all.len() && all[i] == frs;
        assert(records[i].frs == frs);
    }
}

/// Collects what the records say about each file.
pub fn aggregate_changes(records: &[UsnRecord]) -> (r: HashMap<u64, FileChange>)
    ensures
        forall|frs: u64|
            #[trigger] r@.contains_key(frs) <==> mentions(usn_views(records@), frs),
        forall|frs: u64|
            r@.contains_key(frs) ==> (#[trigger] r@[frs])@ == collected(usn_views(records@), frs),
{
    let mut changes: HashMap<u64, FileChange> = HashMap::new();
    let n: usize = records.len();
    let mut i: usize = 0;
    let ghost views = usn_views(records@);
    while i < n
        invariant
            i <= n,
            n == records@.len(),
            views == usn_views(records@),
            forall|frs: u64|
                #[trigger] changes@.contains_key(frs) <==> mentions(views.take(i as int), frs),
            forall|frs: u64|
                changes@.contains_key(frs) ==> (#[trigger] changes@[frs])@ == collected(
                    views.take(i as int),
                    frs,
                ),
        decreases n - i,
    {
        let record: &UsnRecord = &records[i];
        let ghost before = changes@;
        let frs: u64 = record.frs;
        let mut entry: FileChange = match changes.remove(&frs) {
            Some(e) => e,
            None => FileChange {
                frs,
                parent_frs: 0,
                filename: String::new(),
                created: false,
                deleted: false,
                renamed: false,
                size_changed: false,
                metadata_changed: false,
            },
        };
        proof {
            let front = views.take(i as int);
            if !before.contains_key(frs) {
                lemma_not_mentioned(front, frs);
            }
            assert(entry@ =~= collected(front, frs));
        }
        entry.parent_frs = record.parent_frs;
        if !record.filename.as_str().is_empty() {
            entry.filename = record.filename.clone();
        }
        match record.change_type() {
            ChangeType::Created => {
                entry.created = true;
            },
            ChangeType::Deleted => {
                entry.deleted = true;
            },
            ChangeType::Renamed => {
                entry.renamed = true;
            },
            ChangeType::SizeChanged => {
                entry.size_changed = true;
            },
            ChangeType::MetadataChanged => {
                entry.metadata_changed = true;
            },
            ChangeType::Other => {},
        }
        let ghost done = entry@;
        changes.insert(frs, entry);
        proof {
            let front = views.take(i as int);
            assert(views.take(i + 1) =~= front.push(record@));
            lemma_collect_one_more(front, record@, frs);
            assert(done =~= collected(front.push(record@), frs));
            assert forall|k: u64| #[trigger] changes@.contains_key(k) <==> mentions(
                views.take(i + 1),
                k,
            ) by {
                lemma_collect_one_more(front, record@, k);
                assert(before.contains_key(k) <==> mentions(front, k));
            }
            assert forall|k: u64| changes@.contains_key(k) implies (#[trigger] changes@[k])@
                == collected(views.take(i + 1), k) by {
                lemma_collect_one_more(front, record@, k);
                if k != frs {
                    assert(before.contains_key(k));
                    assert(changes@[k] == before[k]);
                }
            }
        }
        i += 1;
    }
    assert(views.take(n as int) =~= views);
    changes
}

/// Size of the fixed part of a journal record.
pub const RECORD_HEADER_SIZE: usize = 60;

/// The UTF-16 units from `start` to `end`; a single byte left over is ignored.
pub open spec fn units_at(b: Seq<u8>, start: int, end: int) -> Seq<u16> {
    Seq::new(((end - start) / 2) as nat, |i: int| crate::bytes::u16_at(b, start + 2 * i))
}

/// The name of the record at `off`; empty where it reaches behind `end`.
pub open spec fn name_at(b: Seq<u8>, end: int, off: int) -> Seq<char> {
    let start = off + crate::bytes::u16_at(b, off + 58);
    let stop = start + crate::bytes::u16_at(b, off + 56);
    if stop <= end {
        crate::text::utf16_text(units_at(b, start, stop))
    } else {
        Seq::empty()
    }
}

/// The record at `off`.
pub open spec fn record_at(b: Seq<u8>, end: int, off: int) -> UsnView {
    UsnView {
        frs: crate::ntfs::segment_of(crate::bytes::u64_at(b, off + 8)),
        parent_frs: crate::ntfs::segment_of(crate::bytes::u64_at(b, off + 16)),
        usn: crate::bytes::i64_at(b, off + 24),
        reason: crate::bytes::u32_at(b, off + 40),
        file_attributes: crate::bytes::u32_at(b, off + 52),
        filename: name_at(b, end, off),
    }
}

/// The records from `off` on: each says where the next one begins. A record
/// whose fixed part reaches behind `end`, or that has no length, ends them.
pub open spec fn batch_records(b: Seq<u8>, end: int, off: int) -> Seq<UsnView>
    decreases
            if end > off {
                end - off
            } else {
                0
            },
{
    if off < 0 || off + RECORD_HEADER_SIZE > end || crate::bytes::u32_at(b, off) == 0 {
        Seq::empty()
    } else {
        seq![record_at(b, end, off)] + batch_records(b, end, off + crate::bytes::u32_at(b, off))
    }
}

/// The records that the system returned in a buffer.
pub open spec fn returned_records(b: Seq<u8>, bytes_returned: u32) -> Seq<UsnView> {
    if bytes_returned > b.len() {
        Seq::empty()
    } else {
        batch_records(b, bytes_returned as int, 8)
    }
}

fn read_name(buffer: &[u8], start: usize, end: usize) -> (r: String)
    requires
        start <= end <= buffer@.len(),
    ensures
        r@ == crate::text::utf16_text(units_at(buffer@, start as int, end as int)),
{
    let n: usize = (end - start) / 2;
    let mut units: Vec<u16> = Vec::with_capacity(n);
    let mut i: usize = 0;
    while i < n
        invariant
            i <= n,
            n == (end - start) / 2,
            start <= end <= buffer.len(),
            units@ == units_at(buffer@, start as int, end as int).take(i as int),
        decreases n - i,
    {
        units.push(read_u16(buffer, start + 2 * i));
        i += 1;
        assert(units@ =~= units_at(buffer@, start as int, end as int).take(i as int));
    }
    assert(units@ =~= units_at(buffer@, start as int, end as int));
    from_utf16_lossy(units.as_slice())
}

fn read_record(buffer: &[u8], end: usize, offset: usize) -> (r: UsnRecord)
    requires
        offset + RECORD_HEADER_SIZE <= end <= buffer@.len(),
    ensures
        r@ == record_at(buffer@, end as int, offset as int),
{
    assert(end <= buffer.len());
    let start: u128 = offset as u128 + read_u16(buffer, offset + 58) as u128;
    let stop: u128 = start + read_u16(buffer, offset + 56) as u128;
    let filename: String = if stop <= end as u128 {
        read_name(buffer, start as usize, stop as usize)
    } else {
        String::new()
    };
    let r: UsnRecord = UsnRecord {
        frs: segment_number(read_u64(buffer, offset + 8)),
        parent_frs: segment_number(read_u64(buffer, offset + 16)),
        usn: read_i64(buffer, offset + 24),
        reason: read_u32(buffer, offset + 40),
        file_attributes: read_u32(buffer, offset + 52),
        filename,
    };
    assert(r@ =~= record_at(buffer@, end as int, offset as int));
    r
}

/// How far the reading of a journal has come.
///
/// The caller sends `request` to the system and hands the answer to `feed`, as
/// long as that tells it to.
#[derive(Debug)]
pub struct JournalRead {
    /// The journal.
    pub journal_id: u64,
    /// The records read so far.
    pub records: Vec<UsnRecord>,
    /// Where reading goes on.
    pub current_usn: i64,
}

/// Begins to read a journal at a position.
pub fn read_usn_journal(journal_id: u64, start_usn: i64) -> (r: JournalRead)
    ensures
        r.journal_id == journal_id,
        r.records@.len() == 0,
        r.current_usn == start_usn,
{
    JournalRead { journal_id, records: Vec::new(), current_usn: start_usn }
}

/// Size of a request for the records of a journal.
pub const READ_REQUEST_SIZE: usize = 40;

/// A request for the records of a journal from a position on: for changes of
/// every kind, without waiting for more.
pub open spec fn read_request(journal_id: u64, start_usn: i64) -> Seq<u8> {
    crate::bytes::le64(crate::bytes::unsigned64(start_usn)) + crate::bytes::le32(0xFFFF_FFFF)
        + crate::bytes::zeros(20) + crate::bytes::le64(journal_id)
}

impl JournalRead {
    /// The next request to the system.
    pub fn request(&self) -> (r: [u8; READ_REQUEST_SIZE])
        ensures
            r@ == read_request(self.journal_id, self.current_usn),
    {
        broadcast use crate::bytes::group_le_len;

        let mut buf: [u8; READ_REQUEST_SIZE] = [0; READ_REQUEST_SIZE];
        put_u64(&mut buf, 0, to_unsigned64(self.current_usn));
        put_u32(&mut buf, 8, 0xFFFF_FFFF);
        put_u64(&mut buf, 32, self.journal_id);
        assert(buf@ =~= read_request(self.journal_id, self.current_usn));
        buf
    }

    /// Takes in what one request returned. Tells whether another request is
    /// needed: it is not once a request returns no records or does not move on.
    pub fn feed(&mut self, buffer: &[u8], bytes_returned: u32) -> (r: Result<bool, MftError>)
        ensures
            if bytes_returned < 8 || buffer@.len() < 8 {
                r == Err::<bool, MftError>(MftError::Io(IoFault::UnexpectedEof)) && *final(self)
                    == *old(self)
            } else {
                let batch = returned_records(buffer@, bytes_returned);
                let next = crate::bytes::i64_at(buffer@, 0);
                &&& r == Ok::<bool, MftError>(batch.len() > 0 && next != old(self).current_usn)
                &&& usn_views(final(self).records@) == usn_views(old(self).records@) + batch
                &&& final(self).current_usn == next
                &&& final(self).journal_id == old(self).journal_id
            },
            forall|next: i64, records: Seq<layout::RawRecord>, behind: Seq<u8>|
                buffer@ == #[trigger] layout::answer_bytes(next, records, behind)
                    && layout::all_fit(records) && bytes_returned == 8 + layout::record_bytes(
                    records,
                ).len() ==> {
                    &&& final(self).current_usn == next
                    &&& usn_views(final(self).records@) == usn_views(old(self).records@)
                        + layout::all_said(records)
                    &&& r == Ok::<bool, MftError>(records.len() > 0 && next != old(
                        self,
                    ).current_usn)
                },
    {
        proof {
            assert forall|next: i64, records: Seq<layout::RawRecord>, behind: Seq<u8>|
                buffer@ == #[trigger] layout::answer_bytes(next, records, behind)
                    && layout::all_fit(records) && bytes_returned == 8 + layout::record_bytes(
                    records,
                ).len() implies crate::bytes::i64_at(buffer@, 0) == next && returned_records(
                buffer@,
                bytes_returned,
            ) == layout::all_said(records) && buffer@.len() >= 8 by {
                broadcast use crate::bytes::group_le_len;

                layout::law_answers_read_back(next, records, behind, bytes_returned);
            }
        }
        if bytes_returned < 8 || buffer.len() < 8 {
            return Err(MftError::Io(IoFault::UnexpectedEof));
        }
        let next_usn: i64 = read_i64(buffer, 0);
        let ghost before = usn_views(self.records@);
        let ghost batch = returned_records(buffer@, bytes_returned);
        let mut count: usize = 0;
        assert(before + Seq::<UsnView>::empty() =~= before);
        if bytes_returned as u64 <= buffer.len() as u64 {
            let end: usize = bytes_returned as usize;
            let mut offset: usize = 8;
            assert(batch.take(0) =~= Seq::empty());
            assert(batch.skip(0) =~= batch);
            while end >= RECORD_HEADER_SIZE && offset <= end - RECORD_HEADER_SIZE
                invariant_except_break
                    count <= offset,
                    batch.skip(count as int) == batch_records(buffer@, end as int, offset as int),
                    batch.len() - count == batch_records(
                        buffer@,
                        end as int,
                        offset as int,
                    ).len(),
                invariant
                    end <= buffer.len(),
                    self.current_usn == old(self).current_usn,
                    self.journal_id == old(self).journal_id,
                    count <= batch.len(),
                    usn_views(self.records@) == before + batch.take(count as int),
                ensures
                    count == batch.len(),
                decreases end - offset,
            {
                let length: u32 = read_u32(buffer, offset);
                if length == 0 {
                    assert(batch.take(count as int) =~= batch);
                    break;
                }
                let rec: UsnRecord = read_record(buffer, end, offset);
                let ghost seen = rec@;
                let ghost held = self.records@;
                proof {
                    let rest = batch_records(buffer@, end as int, offset + length);
                    assert(batch.skip(count as int)[0] == seen);
                    assert(batch[count as int] == seen);
                    assert(batch.skip(count + 1) =~= batch.skip(count as int).drop_first());
                    assert((seq![seen] + rest).drop_first() =~= rest);
                }
                self.records.push(rec);
                proof {
                    assert(usn_views(self.records@) =~= usn_views(held).push(seen));
                    assert(batch.take(count + 1) =~= batch.take(count as int).push(seen));
                    assert(before + batch.take(count + 1) =~= (before + batch.take(
                        count as int,
                    )).push(seen));
                }
                count += 1;
                if length as u64 > (end - offset) as u64 {
                    assert(batch.skip(count as int) =~= Seq::empty());
                    assert(batch.take(count as int) =~= batch);
                    break;
                }
                offset = offset + length as usize;
            }
            assert(batch.take(count as int) =~= batch);
        }
        let more: bool = count > 0 && next_usn != self.current_usn;
        self.current_usn = next_usn;
        Ok(more)
    }
}

/// The segment numbers to read in a second pass: each once, in ascending order.
pub fn second_pass(found: &[u64]) -> (r: Vec<u64>)
    ensures
        forall|a: int, b: int| 0 <= a < b < r@.len() ==> r@[a] < r@[b],
        forall|x: u64| #[trigger] r@.contains(x) <==> found@.contains(x),
{
    let n: usize = found.len();
    let mut out: Vec<u64> = Vec::new();
    let mut i: usize = 0;
    while i < n
        invariant
            i <= n,
            n == found@.len(),
            forall|a: int, b: int| 0 <= a < b < out@.len() ==> out@[a] < out@[b],
            forall|x: u64| #[trigger] out@.contains(x) <==> found@.take(i as int).contains(x),
        decreases n - i,
    {
        let x: u64 = found[i];
        let mut p: usize = out.len();
        while p > 0 && out[p - 1] > x
            invariant
                p <= out@.len(),
                forall|a: int| p <= a < out@.len() ==> out@[a] > x,
            decreases p,
        {
            p = p - 1;
        }
        let ghost before = out@;
        let ghost all = found@.take(i + 1);
        assert(all =~= found@.take(i as int).push(x));
        if p > 0 && out[p - 1] == x {
            assert forall|y: u64| #[trigger] out@.contains(y) <==> all.contains(y) by {
                lemma_push_contains(found@.take(i as int), x, y);
                assert(before[p - 1] == x);
                assert(before.contains(x));
                assert(before.contains(y) <==> found@.take(i as int).contains(y));
            }
        } else {
            out.insert(p, x);
            assert(out@[p as int] == x);
            assert forall|y: u64| #[trigger] out@.contains(y) <==> all.contains(y) by {
                lemma_push_contains(found@.take(i as int), x, y);
                assert(before.contains(y) <==> found@.take(i as int).contains(y));
                if before.contains(y) {
                    let k = choose|k: int| 0 <= k < before.len() && before[k] == y;
                    if k < p {
                        assert(out@[k] == y);
                    } else {
                        assert(out@[k + 1] == y);
                    }
                }
                if out@.contains(y) && y != x {
                    let k = choose|k: int| 0 <= k < out@.len() && out@[k] == y;
                    if k < p {
                        assert(before[k] == y);
                    } else {
                        assert(before[k - 1] == y);
                    }
                }
            }
            assert forall|a: int, b: int| 0 <= a < b < out@.len() implies out@[a] < out@[b] by {
                if a < p {
                    assert(out@[a] == before[a]);
                    if a < p - 1 {
                        assert(before[a] < before[p - 1]);
                    }
                } else if a > p {
                    assert(out@[a] == before[a - 1]);
                }
                if b < p {
                    assert(out@[b] == before[b]);
                } else if b > p {
                    assert(out@[b] == before[b - 1]);
                }
            }
        }
        i += 1;
    }
    assert(found@.take(n as int) =~= found@);
    out
}

proof fn lemma_push_contains(s: Seq<u64>, x: u64, y: u64)
    ensures
        s.push(x).contains(y) <==> s.contains(y) || x == y,
{
    assert(s.push(x)[s.len() as int] == x);
    if s.contains(y) {
        let k = choose|k: int| 0 <= k < s.len() && s[k] == y;
        assert(s.push(x)[k] == y);
    }
    if s.push(x).contains(y) && x != y {
        let k = choose|k: int| 0 <= k < s.push(x).len() && s.push(x)[k] == y;
        assert(s[k] == y);
    }
}

} // verus!
