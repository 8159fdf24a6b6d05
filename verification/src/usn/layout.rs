//! How the system lays out what it returns of a journal, and what is read back
//! from that.

use vstd::prelude::*;

verus! {

/// A record as the system writes it.
#[verifier::ext_equal]
pub struct RawRecord {
    pub major_version: u16,
    pub minor_version: u16,
    pub file_reference: u64,
    pub parent_reference: u64,
    pub usn: i64,
    pub time_stamp: i64,
    pub reason: u32,
    pub source_info: u32,
    pub security_id: u32,
    pub file_attributes: u32,
    pub gap: Seq<u8>,
    pub name: Seq<char>,
    pub padding: Seq<u8>,
}

/// The bytes of UTF-16 units.
pub open spec fn unit_bytes(units: Seq<u16>) -> Seq<u8>
    decreases units.len(),
{
    if units.len() == 0 {
        Seq::empty()
    } else {
        unit_bytes(units.drop_last()) + crate::bytes::le16(units.last())
    }
}

impl RawRecord {
    /// The size of the name in bytes.
    pub open spec fn name_size(self) -> int {
        2 * crate::text::utf16_of(self.name).len() as int
    }

    /// Where the name begins in the record.
    pub open spec fn name_offset(self) -> int {
        60 + self.gap.len() as int
    }

    /// The size of the record in bytes.
    pub open spec fn length(self) -> int {
        self.name_offset() + self.name_size() + self.padding.len()
    }

    /// The sizes fit into their fields.
    pub open spec fn fits(self) -> bool {
        self.name_size() <= u16::MAX && self.name_offset() <= u16::MAX && self.length() <= u32::MAX
    }

    /// The fixed part of the record, field by field.
    pub open spec fn head(self) -> Seq<u8> {
        crate::bytes::le32(self.length() as u32) + crate::bytes::le16(self.major_version)
            + crate::bytes::le16(self.minor_version) + crate::bytes::le64(self.file_reference)
            + crate::bytes::le64(self.parent_reference) + crate::bytes::le64(
            crate::bytes::unsigned64(self.usn),
        ) + crate::bytes::le64(crate::bytes::unsigned64(self.time_stamp)) + crate::bytes::le32(
            self.reason,
        ) + crate::bytes::le32(self.source_info) + crate::bytes::le32(self.security_id)
            + crate::bytes::le32(self.file_attributes) + crate::bytes::le16(
            self.name_size() as u16,
        ) + crate::bytes::le16(self.name_offset() as u16)
    }

    /// The bytes of the record: the fixed part, what stands between that and the
    /// name, the name, and what fills it up.
    pub open spec fn bytes(self) -> Seq<u8> {
        self.head() + self.gap + unit_bytes(crate::text::utf16_of(self.name)) + self.padding
    }

    /// What the record says.
    pub open spec fn said(self) -> super::UsnView {
        super::UsnView {
            frs: (self.file_reference % 0x1_0000_0000_0000) as u64,
            parent_frs: (self.parent_reference % 0x1_0000_0000_0000) as u64,
            usn: self.usn,
            reason: self.reason,
            file_attributes: self.file_attributes,
            filename: self.name,
        }
    }
}

/// The bytes of several records, one behind the other.
pub open spec fn record_bytes(records: Seq<RawRecord>) -> Seq<u8>
    decreases records.len(),
{
    if records.len() == 0 {
        Seq::empty()
    } else {
        records[0].bytes() + record_bytes(records.drop_first())
    }
}

/// The sizes of all records fit into their fields.
pub open spec fn all_fit(records: Seq<RawRecord>) -> bool {
    forall|i: int| 0 <= i < records.len() ==> (#[trigger] records[i]).fits()
}

/// What several records say.
pub open spec fn all_said(records: Seq<RawRecord>) -> Seq<super::UsnView> {
    Seq::new(records.len(), |i: int| records[i].said())
}

proof fn lemma_unit_bytes(units: Seq<u16>)
    ensures
        unit_bytes(units).len() == 2 * units.len(),
        forall|i: int|
            0 <= i < units.len() ==> #[trigger] crate::bytes::u16_at(unit_bytes(units), 2 * i)
                == units[i],
    decreases units.len(),
{
    broadcast use crate::bytes::group_le_len;

    if units.len() > 0 {
        let front = units.drop_last();
        let last = crate::bytes::le16(units.last());
        let all = unit_bytes(units);
        lemma_unit_bytes(front);
        let n = 2 * front.len() as int;
        assert(all.subrange(n, n + 2) =~= last);
        crate::bytes::lemma_le16_reads_back(all, n, units.last());
        assert forall|i: int| 0 <= i < units.len() implies #[trigger] crate::bytes::u16_at(
            all,
            2 * i,
        ) == units[i] by {
            if i < front.len() {
                assert(crate::bytes::u16_at(unit_bytes(front), 2 * i) == front[i]);
                assert(all[2 * i] == unit_bytes(front)[2 * i]);
                assert(all[2 * i + 1] == unit_bytes(front)[2 * i + 1]);
            }
        }
    }
}

/// A signed number is read back from its 64-bit pattern.
pub proof fn law_signs_read_back(x: i64, y: u64)
    ensures
        crate::bytes::signed64(crate::bytes::unsigned64(x)) == x,
        crate::bytes::unsigned64(crate::bytes::signed64(y)) == y,
        crate::bytes::signed64(y) as int == y as int || crate::bytes::signed64(y) as int == y as int
            - 0x1_0000_0000_0000_0000,
{
}

#[verifier::spinoff_prover]
#[verifier::rlimit(40)]
proof fn lemma_head(b: Seq<u8>, off: int, r: RawRecord)
    requires
        r.fits(),
        crate::bytes::holds(b, off, r.head()),
    ensures
        r.head().len() == 60,
        crate::bytes::u32_at(b, off) == r.length(),
        crate::bytes::u64_at(b, off + 8) == r.file_reference,
        crate::bytes::u64_at(b, off + 16) == r.parent_reference,
        crate::bytes::i64_at(b, off + 24) == r.usn,
        crate::bytes::u32_at(b, off + 40) == r.reason,
        crate::bytes::u32_at(b, off + 52) == r.file_attributes,
        crate::bytes::u16_at(b, off + 56) == r.name_size(),
        crate::bytes::u16_at(b, off + 58) == r.name_offset(),
{
    broadcast use crate::bytes::group_le_len;

    let p0 = crate::bytes::le32(r.length() as u32);
    let p1 = p0 + crate::bytes::le16(r.major_version);
    let p2 = p1 + crate::bytes::le16(r.minor_version);
    let p3 = p2 + crate::bytes::le64(r.file_reference);
    let p4 = p3 + crate::bytes::le64(r.parent_reference);
    let usn = crate::bytes::unsigned64(r.usn);
    let p5 = p4 + crate::bytes::le64(usn);
    let p6 = p5 + crate::bytes::le64(crate::bytes::unsigned64(r.time_stamp));
    let p7 = p6 + crate::bytes::le32(r.reason);
    let p8 = p7 + crate::bytes::le32(r.source_info);
    let p9 = p8 + crate::bytes::le32(r.security_id);
    let p10 = p9 + crate::bytes::le32(r.file_attributes);
    let p11 = p10 + crate::bytes::le16(r.name_size() as u16);
    let at = r.name_offset() as u16;
    crate::bytes::lemma_holds_split(b, off, p11, crate::bytes::le16(at));
    crate::bytes::lemma_holds_split(b, off, p10, crate::bytes::le16(r.name_size() as u16));
    crate::bytes::lemma_holds_split(b, off, p9, crate::bytes::le32(r.file_attributes));
    crate::bytes::lemma_holds_split(b, off, p8, crate::bytes::le32(r.security_id));
    crate::bytes::lemma_holds_split(b, off, p7, crate::bytes::le32(r.source_info));
    crate::bytes::lemma_holds_split(b, off, p6, crate::bytes::le32(r.reason));
    crate::bytes::lemma_holds_split(b, off, p5, crate::bytes::le64(crate::bytes::unsigned64(r.time_stamp)));
    crate::bytes::lemma_holds_split(b, off, p4, crate::bytes::le64(usn));
    crate::bytes::lemma_holds_split(b, off, p3, crate::bytes::le64(r.parent_reference));
    crate::bytes::lemma_holds_split(b, off, p2, crate::bytes::le64(r.file_reference));
    crate::bytes::lemma_holds_split(b, off, p1, crate::bytes::le16(r.minor_version));
    crate::bytes::lemma_holds_split(b, off, p0, crate::bytes::le16(r.major_version));
    crate::bytes::lemma_le32_reads_back(b, off, r.length() as u32);
    crate::bytes::lemma_le64_reads_back(b, off + 8, r.file_reference);
    crate::bytes::lemma_le64_reads_back(b, off + 16, r.parent_reference);
    crate::bytes::lemma_le64_reads_back(b, off + 24, usn);
    crate::bytes::lemma_le32_reads_back(b, off + 40, r.reason);
    crate::bytes::lemma_le32_reads_back(b, off + 52, r.file_attributes);
    crate::bytes::lemma_le16_reads_back(b, off + 56, r.name_size() as u16);
    crate::bytes::lemma_le16_reads_back(b, off + 58, at);
    law_signs_read_back(r.usn, usn);
}

/// A record is read back field by field, wherever in a buffer it stands.
pub proof fn law_record_reads_back(b: Seq<u8>, end: int, off: int, r: RawRecord)
    requires
        r.fits(),
        0 <= off,
        off + r.length() <= end <= b.len(),
        b.subrange(off, off + r.length()) == r.bytes(),
    ensures
        super::record_at(b, end, off) == r.said(),
        crate::bytes::u32_at(b, off) == r.length(),
{
    let units = crate::text::utf16_of(r.name);
    let name = unit_bytes(units);
    lemma_unit_bytes(units);
    lemma_head_length(r);
    assert(crate::bytes::holds(b, off, r.bytes()));
    crate::bytes::lemma_holds_split(b, off, r.head() + r.gap + name, r.padding);
    crate::bytes::lemma_holds_split(b, off, r.head() + r.gap, name);
    crate::bytes::lemma_holds_split(b, off, r.head(), r.gap);
    lemma_head(b, off, r);
    let start = off + r.name_offset();
    let there = b.subrange(start, start + name.len());
    assert(super::units_at(b, start, start + r.name_size()) =~= units) by {
        assert forall|i: int| 0 <= i < units.len() implies crate::bytes::u16_at(b, start + 2 * i)
            == units[i] by {
            assert(crate::bytes::u16_at(name, 2 * i) == units[i]);
            assert(there[2 * i] == b[start + 2 * i]);
            assert(there[2 * i + 1] == b[start + 2 * i + 1]);
        }
    }
    crate::text::law_utf16_reads_back(r.name, Seq::empty());
    assert(units + Seq::<u16>::empty() =~= units);
    assert(r.name + crate::text::utf16_text(Seq::empty()) =~= r.name);
}

proof fn lemma_head_length(r: RawRecord)
    ensures
        r.head().len() == 60,
        unit_bytes(crate::text::utf16_of(r.name)).len() == r.name_size(),
        r.bytes().len() == r.length(),
{
    broadcast use crate::bytes::group_le_len;

    lemma_unit_bytes(crate::text::utf16_of(r.name));
}

proof fn lemma_records_read_back(b: Seq<u8>, end: int, off: int, records: Seq<RawRecord>)
    requires
        forall|i: int| 0 <= i < records.len() ==> (#[trigger] records[i]).fits(),
        0 <= off,
        end == off + record_bytes(records).len(),
        end <= b.len(),
        b.subrange(off, end) == record_bytes(records),
    ensures
        super::batch_records(b, end, off) == all_said(records),
    decreases records.len(),
{
    if records.len() == 0 {
        assert(all_said(records) =~= Seq::empty());
    } else {
        let r = records[0];
        let rest = records.drop_first();
        assert(r.fits());
        lemma_head_length(r);
        let next = off + r.length();
        assert(crate::bytes::holds(b, off, record_bytes(records)));
        crate::bytes::lemma_holds_split(b, off, r.bytes(), record_bytes(rest));
        assert(b.subrange(next, end) =~= record_bytes(rest));
        law_record_reads_back(b, end, off, r);
        assert forall|i: int| 0 <= i < rest.len() implies (#[trigger] rest[i]).fits() by {
            assert(records[i + 1].fits());
        }
        lemma_records_read_back(b, end, next, rest);
        assert(all_said(records) =~= seq![r.said()] + all_said(rest));
    }
}

/// What the system returns of a journal: where reading goes on, the records, and
/// whatever the buffer held behind them.
pub open spec fn answer_bytes(next: i64, records: Seq<RawRecord>, behind: Seq<u8>) -> Seq<u8> {
    crate::bytes::le64(crate::bytes::unsigned64(next)) + record_bytes(records) + behind
}

/// What the system returns of a journal is read back whole: where reading goes
/// on, and every record with all that it says, in order. What the buffer holds
/// behind that does not matter.
pub proof fn law_answers_read_back(next: i64, records: Seq<RawRecord>, behind: Seq<u8>, size: u32)
    requires
        forall|i: int| 0 <= i < records.len() ==> (#[trigger] records[i]).fits(),
        size == 8 + record_bytes(records).len(),
    ensures
        ({
            let answer = answer_bytes(next, records, behind);
            &&& crate::bytes::i64_at(answer, 0) == next
            &&& super::returned_records(answer, size) == all_said(records)
        }),
{
    broadcast use crate::bytes::group_le_len;

    let first = crate::bytes::le64(crate::bytes::unsigned64(next));
    let answer = answer_bytes(next, records, behind);
    assert(answer.subrange(0, 8) =~= first);
    crate::bytes::lemma_le64_reads_back(answer, 0, crate::bytes::unsigned64(next));
    law_signs_read_back(next, 0);
    assert(answer.subrange(8, size as int) =~= record_bytes(records));
    lemma_records_read_back(answer, size as int, 8, records);
}

/// The state of a journal is read back field by field.
#[verifier::spinoff_prover]
#[verifier::rlimit(40)]
pub proof fn law_journal_state_reads_back(info: super::UsnJournalInfo)
    ensures
        super::journal_info(
            crate::bytes::le64(info.journal_id) + crate::bytes::le64(
                crate::bytes::unsigned64(info.first_usn),
            ) + crate::bytes::le64(crate::bytes::unsigned64(info.next_usn)) + crate::bytes::le64(
                crate::bytes::unsigned64(info.lowest_valid_usn),
            ) + crate::bytes::le64(crate::bytes::unsigned64(info.max_usn)) + crate::bytes::le64(
                info.max_size,
            ) + crate::bytes::le64(info.allocation_delta),
        ) == info,
{
    broadcast use crate::bytes::group_le_len;

    let p1 = crate::bytes::le64(info.journal_id);
    let p2 = crate::bytes::le64(crate::bytes::unsigned64(info.first_usn));
    let p3 = crate::bytes::le64(crate::bytes::unsigned64(info.next_usn));
    let p4 = crate::bytes::le64(crate::bytes::unsigned64(info.lowest_valid_usn));
    let p5 = crate::bytes::le64(crate::bytes::unsigned64(info.max_usn));
    let p6 = crate::bytes::le64(info.max_size);
    let p7 = crate::bytes::le64(info.allocation_delta);
    let b = p1 + p2 + p3 + p4 + p5 + p6 + p7;
    assert(b.subrange(0, 8) =~= p1);
    assert(b.subrange(8, 16) =~= p2);
    assert(b.subrange(16, 24) =~= p3);
    assert(b.subrange(24, 32) =~= p4);
    assert(b.subrange(32, 40) =~= p5);
    assert(b.subrange(40, 48) =~= p6);
    assert(b.subrange(48, 56) =~= p7);
    crate::bytes::lemma_le64_reads_back(b, 0, info.journal_id);
    crate::bytes::lemma_le64_reads_back(b, 8, crate::bytes::unsigned64(info.first_usn));
    crate::bytes::lemma_le64_reads_back(b, 16, crate::bytes::unsigned64(info.next_usn));
    crate::bytes::lemma_le64_reads_back(b, 24, crate::bytes::unsigned64(info.lowest_valid_usn));
    crate::bytes::lemma_le64_reads_back(b, 32, crate::bytes::unsigned64(info.max_usn));
    crate::bytes::lemma_le64_reads_back(b, 40, info.max_size);
    crate::bytes::lemma_le64_reads_back(b, 48, info.allocation_delta);
    law_signs_read_back(info.first_usn, 0);
    law_signs_read_back(info.next_usn, 0);
    law_signs_read_back(info.lowest_valid_usn, 0);
    law_signs_read_back(info.max_usn, 0);
}

/// A request names its journal and the place from which it asks for changes, of
/// every kind, without waiting for a file to be closed or for more to come.
pub proof fn law_requests_say_what_is_wanted(journal_id: u64, start_usn: i64)
    ensures
        ({
            let b = super::read_request(journal_id, start_usn);
            &&& b.len() == 40
            &&& crate::bytes::i64_at(b, 0) == start_usn
            &&& crate::bytes::u32_at(b, 8) == 0xFFFF_FFFF
            &&& crate::bytes::u32_at(b, 12) == 0
            &&& crate::bytes::u64_at(b, 16) == 0
            &&& crate::bytes::u64_at(b, 24) == 0
            &&& crate::bytes::u64_at(b, 32) == journal_id
        }),
{
    broadcast use crate::bytes::group_le_len;

    let b = super::read_request(journal_id, start_usn);
    let usn = crate::bytes::unsigned64(start_usn);
    assert(b.subrange(0, 8) =~= crate::bytes::le64(usn));
    assert(b.subrange(8, 12) =~= crate::bytes::le32(0xFFFF_FFFF));
    assert(b.subrange(32, 40) =~= crate::bytes::le64(journal_id));
    crate::bytes::lemma_le64_reads_back(b, 0, usn);
    crate::bytes::lemma_le32_reads_back(b, 8, 0xFFFF_FFFF);
    crate::bytes::lemma_le64_reads_back(b, 32, journal_id);
    law_signs_read_back(start_usn, 0);
}

/// A name that reaches behind what was returned is not read, but the rest of its
/// record is.
pub proof fn law_cut_names_are_empty(b: Seq<u8>, end: int, off: int)
    requires
        off + crate::bytes::u16_at(b, off + 58) + crate::bytes::u16_at(b, off + 56) > end,
    ensures
        super::record_at(b, end, off).filename.len() == 0,
        super::record_at(b, end, off).reason == crate::bytes::u32_at(b, off + 40),
{
}

/// Reading ends at a record without a length and at one whose fixed part was not
/// returned; a buffer that is shorter than what was returned holds none.
pub proof fn law_reading_ends(b: Seq<u8>, end: int, off: int, returned: u32)
    ensures
        crate::bytes::u32_at(b, off) == 0 ==> super::batch_records(b, end, off).len() == 0,
        off + 60 > end ==> super::batch_records(b, end, off).len() == 0,
        returned > b.len() ==> super::returned_records(b, returned).len() == 0,
        returned < 68 ==> super::returned_records(b, returned).len() == 0,
        0 <= off && off + 60 <= end && crate::bytes::u32_at(b, off) != 0 ==> super::batch_records(
            b,
            end,
            off,
        ).len() > 0,
{
}

} // verus!
