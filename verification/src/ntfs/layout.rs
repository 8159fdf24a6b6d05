//! How the system lays out a file record, and which extension records are found
//! in it.

use vstd::prelude::*;

verus! {

/// The fixed part of a file record.
#[verifier::ext_equal]
pub struct RawHeader {
    pub magic: u32,
    pub update_offset: u16,
    pub update_count: u16,
    pub log_sequence: u64,
    pub sequence: u16,
    pub link_count: u16,
    pub first_attribute: u16,
    pub flags: u16,
    pub bytes_in_use: u32,
    pub bytes_allocated: u32,
    pub base_record: u64,
    pub next_instance: u16,
    pub reserved: u16,
    pub number: u32,
}

/// An entry of an attribute list.
#[verifier::ext_equal]
pub struct RawEntry {
    pub type_code: u32,
    pub name_length: u8,
    pub name_offset: u8,
    pub start: u64,
    pub reference: u64,
    pub instance: u16,
    pub name: Seq<u8>,
}

/// An attribute of a file record. `middle` is what stands between the flag for
/// values outside the record and the rest.
pub enum RawAttribute {
    /// An attribute list whose value stands in the record.
    List { middle: Seq<u8>, index: Seq<u8>, gap: Seq<u8>, entries: Seq<RawEntry>, tail: Seq<u8> },
    /// Any other attribute.
    Other { type_code: u32, nonresident: u8, middle: Seq<u8>, rest: Seq<u8> },
}

impl RawHeader {
    /// The bytes of the fixed part, field by field.
    pub open spec fn bytes(self) -> Seq<u8> {
        crate::bytes::le32(self.magic) + crate::bytes::le16(self.update_offset)
            + crate::bytes::le16(self.update_count) + crate::bytes::le64(self.log_sequence)
            + crate::bytes::le16(self.sequence) + crate::bytes::le16(self.link_count)
            + crate::bytes::le16(self.first_attribute) + crate::bytes::le16(self.flags)
            + crate::bytes::le32(self.bytes_in_use) + crate::bytes::le32(self.bytes_allocated)
            + crate::bytes::le64(self.base_record) + crate::bytes::le16(self.next_instance)
            + crate::bytes::le16(self.reserved) + crate::bytes::le32(self.number)
    }
}

impl RawEntry {
    /// The size of the entry.
    pub open spec fn length(self) -> int {
        26 + self.name.len() as int
    }

    /// The bytes of the entry, field by field.
    pub open spec fn bytes(self) -> Seq<u8> {
        crate::bytes::le32(self.type_code) + crate::bytes::le16(self.length() as u16) + seq![
            self.name_length,
            self.name_offset,
        ] + crate::bytes::le64(self.start) + crate::bytes::le64(self.reference)
            + crate::bytes::le16(self.instance) + self.name
    }

    /// The record that the entry refers to.
    pub open spec fn segment(self) -> int {
        self.reference as int % 0x1_0000_0000_0000
    }
}

/// The bytes of some entries, one behind the other.
pub open spec fn entry_bytes(entries: Seq<RawEntry>) -> Seq<u8>
    decreases entries.len(),
{
    if entries.len() == 0 {
        Seq::empty()
    } else {
        entries[0].bytes() + entry_bytes(entries.drop_first())
    }
}

/// The records other than `base` that some entries refer to, in their order.
pub open spec fn referred(entries: Seq<RawEntry>, base: u64) -> Seq<u64>
    decreases entries.len(),
{
    if entries.len() == 0 {
        Seq::empty()
    } else {
        let rest = referred(entries.drop_first(), base);
        if entries[0].segment() == base || entries[0].segment() == 0 {
            rest
        } else {
            seq![entries[0].segment() as u64] + rest
        }
    }
}

impl RawAttribute {
    /// What follows the type and the length.
    pub open spec fn body(self) -> Seq<u8> {
        match self {
            RawAttribute::List { middle, index, gap, entries, tail } => seq![0u8] + middle
                + crate::bytes::le32(entry_bytes(entries).len() as u32) + crate::bytes::le16(
                (24 + gap.len()) as u16,
            ) + index + gap + entry_bytes(entries) + tail,
            RawAttribute::Other { nonresident, middle, rest, .. } => seq![nonresident] + middle
                + rest,
        }
    }

    /// The type of the attribute.
    pub open spec fn code(self) -> u32 {
        match self {
            RawAttribute::List { .. } => 0x20,
            RawAttribute::Other { type_code, .. } => type_code,
        }
    }

    /// The bytes of the attribute.
    pub open spec fn bytes(self) -> Seq<u8> {
        crate::bytes::le32(self.code()) + crate::bytes::le32((8 + self.body().len()) as u32)
            + self.body()
    }

    /// The sizes fit into their fields, and only a list that stands in the
    /// record says so.
    pub open spec fn sound(self) -> bool {
        &&& 8 + self.body().len() <= u32::MAX
        &&& match self {
            RawAttribute::List { middle, index, gap, entries, .. } => {
                &&& middle.len() == 7
                &&& index.len() == 2
                &&& 24 + gap.len() <= u16::MAX
                &&& forall|i: int|
                    0 <= i < entries.len() ==> (#[trigger] entries[i]).length() <= u16::MAX
            },
            RawAttribute::Other { type_code, nonresident, middle, .. } => {
                &&& middle.len() == 7
                &&& type_code != 0xFFFF_FFFF
                &&& type_code == 0x20 ==> nonresident != 0
            },
        }
    }

    /// The records other than `base` that the attribute refers to.
    pub open spec fn refers_to(self, base: u64) -> Seq<u64> {
        match self {
            RawAttribute::List { entries, .. } => referred(entries, base),
            RawAttribute::Other { .. } => Seq::empty(),
        }
    }
}

/// The bytes of some attributes, one behind the other.
pub open spec fn attribute_bytes(attributes: Seq<RawAttribute>) -> Seq<u8>
    decreases attributes.len(),
{
    if attributes.len() == 0 {
        Seq::empty()
    } else {
        attributes[0].bytes() + attribute_bytes(attributes.drop_first())
    }
}

/// The records other than `base` that some attributes refer to, in their order.
pub open spec fn all_referred(attributes: Seq<RawAttribute>, base: u64) -> Seq<u64>
    decreases attributes.len(),
{
    if attributes.len() == 0 {
        Seq::empty()
    } else {
        attributes[0].refers_to(base) + all_referred(attributes.drop_first(), base)
    }
}

proof fn lemma_entry(b: Seq<u8>, pos: int, e: RawEntry)
    requires
        e.length() <= u16::MAX,
        crate::bytes::holds(b, pos, e.bytes()),
    ensures
        e.bytes().len() == e.length(),
        crate::bytes::u16_at(b, pos + 4) == e.length(),
        crate::bytes::u64_at(b, pos + 16) == e.reference,
{
    broadcast use crate::bytes::group_le_len;

    let n = crate::bytes::le16(e.length() as u16);
    let p1 = crate::bytes::le32(e.type_code);
    let p2 = p1 + n;
    let p3 = p2 + seq![e.name_length, e.name_offset];
    let p4 = p3 + crate::bytes::le64(e.start);
    let p5 = p4 + crate::bytes::le64(e.reference);
    let p6 = p5 + crate::bytes::le16(e.instance);
    crate::bytes::lemma_holds_split(b, pos, p6, e.name);
    crate::bytes::lemma_holds_split(b, pos, p5, crate::bytes::le16(e.instance));
    crate::bytes::lemma_holds_split(b, pos, p4, crate::bytes::le64(e.reference));
    crate::bytes::lemma_holds_split(b, pos, p3, crate::bytes::le64(e.start));
    crate::bytes::lemma_holds_split(b, pos, p2, seq![e.name_length, e.name_offset]);
    crate::bytes::lemma_holds_split(b, pos, p1, n);
    crate::bytes::lemma_le16_reads_back(b, pos + 4, e.length() as u16);
    crate::bytes::lemma_le64_reads_back(b, pos + 16, e.reference);
}

/// The entries of an attribute list are all read, wherever it stands: the list
/// gives the other records that they refer to, in their order.
pub proof fn law_list_entries_read_back(
    b: Seq<u8>,
    end: int,
    pos: int,
    base: u64,
    entries: Seq<RawEntry>,
)
    requires
        forall|i: int| 0 <= i < entries.len() ==> (#[trigger] entries[i]).length() <= u16::MAX,
        crate::bytes::holds(b, pos, entry_bytes(entries)),
        end == pos + entry_bytes(entries).len(),
    ensures
        super::list_targets(b, end, pos, base) == referred(entries, base),
    decreases entries.len(),
{
    if entries.len() > 0 {
        let e = entries[0];
        let rest = entries.drop_first();
        assert(e.length() <= u16::MAX);
        crate::bytes::lemma_holds_split(b, pos, e.bytes(), entry_bytes(rest));
        lemma_entry(b, pos, e);
        assert forall|i: int| 0 <= i < rest.len() implies (#[trigger] rest[i]).length()
            <= u16::MAX by {
            assert(entries[i + 1].length() <= u16::MAX);
        }
        law_list_entries_read_back(b, end, pos + e.length(), base, rest);
    }
}

proof fn lemma_list(b: Seq<u8>, off: int, a: RawAttribute, base: u64)
    requires
        a is List,
        a.sound(),
        crate::bytes::holds(b, off + 8, a.body()),
        0 <= off,
    ensures
        b[off + 8] == 0,
        super::list_targets(b, super::value_end(b, off), super::value_start(b, off), base)
            == a.refers_to(base),
{
    broadcast use crate::bytes::group_le_len;

    match a {
        RawAttribute::List { middle, index, gap, entries, tail } => {
            let at = off + 8;
            let size = crate::bytes::le32(entry_bytes(entries).len() as u32);
            let start = crate::bytes::le16((24 + gap.len()) as u16);
            let p1 = seq![0u8] + middle;
            let p2 = p1 + size;
            let p3 = p2 + start;
            let p4 = p3 + index;
            let p5 = p4 + gap;
            let p6 = p5 + entry_bytes(entries);
            crate::bytes::lemma_holds_split(b, at, p6, tail);
            crate::bytes::lemma_holds_split(b, at, p5, entry_bytes(entries));
            crate::bytes::lemma_holds_split(b, at, p4, gap);
            crate::bytes::lemma_holds_split(b, at, p3, index);
            crate::bytes::lemma_holds_split(b, at, p2, start);
            crate::bytes::lemma_holds_split(b, at, p1, size);
            crate::bytes::lemma_holds_split(b, at, seq![0u8], middle);
            assert(b.subrange(at, at + 1)[0] == 0u8);
            crate::bytes::lemma_le32_reads_back(b, off + 16, entry_bytes(entries).len() as u32);
            crate::bytes::lemma_le16_reads_back(b, off + 20, (24 + gap.len()) as u16);
            law_list_entries_read_back(
                b,
                off + 24 + gap.len() + entry_bytes(entries).len(),
                off + 24 + gap.len(),
                base,
                entries,
            );
        },
        _ => {},
    }
}

proof fn lemma_attributes(
    b: Seq<u8>,
    max: int,
    off: int,
    base: u64,
    attributes: Seq<RawAttribute>,
)
    requires
        forall|i: int| 0 <= i < attributes.len() ==> (#[trigger] attributes[i]).sound(),
        crate::bytes::holds(b, off, attribute_bytes(attributes)),
        off + attribute_bytes(attributes).len() <= max < off + attribute_bytes(attributes).len()
            + 16,
        max <= b.len(),
    ensures
        super::extension_targets(b, max, off, base) == all_referred(attributes, base),
    decreases attributes.len(),
{
    broadcast use crate::bytes::group_le_len;

    if attributes.len() > 0 {
        let a = attributes[0];
        let rest = attributes.drop_first();
        assert(a.sound());
        let code = crate::bytes::le32(a.code());
        let length = crate::bytes::le32((8 + a.body().len()) as u32);
        crate::bytes::lemma_holds_split(b, off, a.bytes(), attribute_bytes(rest));
        crate::bytes::lemma_holds_split(b, off, code + length, a.body());
        crate::bytes::lemma_holds_split(b, off, code, length);
        crate::bytes::lemma_le32_reads_back(b, off, a.code());
        crate::bytes::lemma_le32_reads_back(b, off + 4, (8 + a.body().len()) as u32);
        assert forall|i: int| 0 <= i < rest.len() implies (#[trigger] rest[i]).sound() by {
            assert(attributes[i + 1].sound());
        }
        lemma_attributes(b, max, off + 8 + a.body().len(), base, rest);
        match a {
            RawAttribute::List { .. } => {
                lemma_list(b, off, a, base);
            },
            RawAttribute::Other { nonresident, middle, rest: content, .. } => {
                crate::bytes::lemma_holds_split(b, off + 8, seq![nonresident] + middle, content);
                crate::bytes::lemma_holds_split(b, off + 8, seq![nonresident], middle);
                assert(b.subrange(off + 8, off + 9)[0] == nonresident);
                super::law_other_attributes_are_passed_over(b, max, off, base);
                assert(a.refers_to(base) + all_referred(rest, base) =~= all_referred(rest, base));
            },
        }
    }
}

/// The extension records of a file record are those that its attribute lists
/// refer to, wherever among its attributes these stand and whatever else the
/// record holds.
#[verifier::spinoff_prover]
#[verifier::rlimit(40)]
pub proof fn law_extensions_read_back(
    header: RawHeader,
    gap: Seq<u8>,
    attributes: Seq<RawAttribute>,
    behind: Seq<u8>,
    base: u64,
)
    requires
        forall|i: int| 0 <= i < attributes.len() ==> (#[trigger] attributes[i]).sound(),
        header.first_attribute == 48 + gap.len(),
        header.bytes_in_use == 48 + gap.len() + attribute_bytes(attributes).len() + 8,
        behind.len() >= 8,
    ensures
        super::extensions_of(
            header.bytes() + gap + attribute_bytes(attributes) + behind,
            base,
        ) == all_referred(attributes, base),
{
    broadcast use crate::bytes::group_le_len;

    let b = header.bytes() + gap + attribute_bytes(attributes) + behind;
    assert(b.subrange(20, 22) =~= crate::bytes::le16(header.first_attribute));
    assert(b.subrange(24, 28) =~= crate::bytes::le32(header.bytes_in_use));
    crate::bytes::lemma_le16_reads_back(b, 20, header.first_attribute);
    crate::bytes::lemma_le32_reads_back(b, 24, header.bytes_in_use);
    let off = 48 + gap.len() as int;
    assert(b.subrange(off, off + attribute_bytes(attributes).len()) =~= attribute_bytes(
        attributes,
    ));
    lemma_attributes(b, header.bytes_in_use as int, off, base, attributes);
}

} // verus!
