//! The layout of file records on disk.

use crate::bytes::{read_u16, read_u32, read_u64};
use crate::platform::lcn::Lcn;
use vstd::prelude::*;

pub mod layout;

verus! {

/// Size of the fixed part of a file record.
pub const RECORD_HEADER_SIZE: usize = 48;

/// Size of the fixed part of an attribute.
pub const ATTRIBUTE_HEADER_SIZE: usize = 16;

/// Size of the fixed part of an entry in an attribute list.
pub const LIST_ENTRY_SIZE: usize = 26;

/// Type code that ends the attributes of a record.
pub const ATTRIBUTE_END: u32 = 0xFFFF_FFFF;

/// Type code of an attribute list.
pub const ATTRIBUTE_LIST: u32 = 0x20;

/// A run of neighbouring clusters, as an attribute lists them.
#[derive(Debug, Clone, Copy, PartialEq, Eq, Structural)]
pub struct DataRun {
    /// First cluster within the attribute.
    pub vcn: i64,
    /// Number of clusters.
    pub cluster_count: u64,
    /// First cluster on the volume.
    pub lcn: Lcn,
}

impl DataRun {
    /// Nothing is allocated for the run.
    pub open spec fn sparse(self) -> bool {
        self.lcn.0 == 0
    }

    /// Whether nothing is allocated for the run.
    pub fn is_sparse(&self) -> (r: bool)
        ensures
            r == self.sparse(),
    {
        self.lcn.is_zero()
    }
}

/// The segment number in a file reference: the lower 48 bits.
pub open spec fn segment_of(reference: u64) -> u64 {
    (reference % 0x1_0000_0000_0000) as u64
}

/// Takes the segment number from a file reference.
pub fn segment_number(reference: u64) -> (r: u64)
    ensures
        r == segment_of(reference),
{
    assert(reference & 0x0000_FFFF_FFFF_FFFF == reference % 0x1_0000_0000_0000) by (bit_vector);
    reference & 0x0000_FFFF_FFFF_FFFF
}

/// The segment numbers in the entries of an attribute list from `pos` to `end`
/// that refer to other records than `base`.
pub open spec fn list_targets(b: Seq<u8>, end: int, pos: int, base: u64) -> Seq<u64>
    decreases
            if end > pos {
                end - pos
            } else {
                0
            },
{
    if pos < 0 || pos + LIST_ENTRY_SIZE > end {
        Seq::empty()
    } else {
        let length = crate::bytes::u16_at(b, pos + 4);
        if length < LIST_ENTRY_SIZE {
            Seq::empty()
        } else {
            let target = segment_of(crate::bytes::u64_at(b, pos + 16));
            let rest = list_targets(b, end, pos + length, base);
            if target != base && target != 0 {
                seq![target] + rest
            } else {
                rest
            }
        }
    }
}

/// Where the value of the resident attribute at `off` begins; 0 bytes behind
/// the attribute where the record ends before it says so.
pub open spec fn value_start(b: Seq<u8>, off: int) -> int {
    off + if off + 22 <= b.len() {
        crate::bytes::u16_at(b, off + 20) as int
    } else {
        0
    }
}

/// Where the value of the resident attribute at `off` ends, but not behind the
/// record.
pub open spec fn value_end(b: Seq<u8>, off: int) -> int {
    let end = value_start(b, off) + if off + 20 <= b.len() {
        crate::bytes::u32_at(b, off + 16) as int
    } else {
        0
    };
    if end > b.len() {
        b.len() as int
    } else {
        end
    }
}

/// The segment numbers of other records that the attribute lists among the
/// attributes from `off` to `max` refer to.
pub open spec fn extension_targets(b: Seq<u8>, max: int, off: int, base: u64) -> Seq<u64>
    decreases max - off,
{
    if off < 0 || off + ATTRIBUTE_HEADER_SIZE > max {
        Seq::empty()
    } else {
        let type_code = crate::bytes::u32_at(b, off);
        let length = crate::bytes::u32_at(b, off + 4);
        if type_code == ATTRIBUTE_END || length == 0 || off + length > max {
            Seq::empty()
        } else {
            let here = if type_code == ATTRIBUTE_LIST && b[off + 8] == 0 {
                list_targets(b, value_end(b, off), value_start(b, off), base)
            } else {
                Seq::empty()
            };
            here + extension_targets(b, max, off + length, base)
        }
    }
}

/// Where the attributes of a record end: where the record says so, but not
/// behind its bytes.
pub open spec fn attributes_end(b: Seq<u8>) -> int {
    if crate::bytes::u32_at(b, 24) < b.len() {
        crate::bytes::u32_at(b, 24) as int
    } else {
        b.len() as int
    }
}

/// The segment numbers of the extension records of a record.
pub open spec fn extensions_of(b: Seq<u8>, base: u64) -> Seq<u64> {
    if b.len() < RECORD_HEADER_SIZE {
        Seq::empty()
    } else {
        extension_targets(b, attributes_end(b), crate::bytes::u16_at(b, 20) as int, base)
    }
}

fn scan_list(data: &[u8], start: usize, end: usize, base_frs: u64, out: &mut Vec<u64>)
    requires
        end <= data@.len(),
    ensures
        final(out)@ == old(out)@ + list_targets(data@, end as int, start as int, base_frs),
{
    let mut pos: usize = start;
    let ghost whole = list_targets(data@, end as int, start as int, base_frs);
    assert(out@ + whole =~= old(out)@ + whole);
    while end >= LIST_ENTRY_SIZE && pos <= end - LIST_ENTRY_SIZE
        invariant_except_break
            out@ + list_targets(data@, end as int, pos as int, base_frs) == old(out)@ + whole,
        invariant
            end <= data.len(),
        ensures
            out@ == old(out)@ + whole,
        decreases end - pos,
    {
        let length: u16 = read_u16(data, pos + 4);
        if (length as usize) < LIST_ENTRY_SIZE {
            assert(out@ + Seq::<u64>::empty() =~= out@);
            break;
        }
        let target: u64 = segment_number(read_u64(data, pos + 16));
        let ghost before = out@;
        let ghost rest = list_targets(data@, end as int, pos + length, base_frs);
        if target != base_frs && target != 0 {
            out.push(target);
            assert(before + (seq![target] + rest) =~= out@ + rest);
        }
        if length as usize > end - pos {
            assert(rest =~= Seq::empty());
            assert(out@ + rest =~= out@);
            break;
        }
        pos = pos + length as usize;
    }
    assert(out@ =~= old(out)@ + whole) by {
        assert(out@ + Seq::<u64>::empty() =~= out@);
    }
}

/// Collects the segment numbers of the extension records that the attribute
/// lists of a record refer to.
pub fn scan_attribute_list_extensions(data: &[u8], base_frs: u64, out: &mut Vec<u64>)
    ensures
        final(out)@ == old(out)@ + extensions_of(data@, base_frs),
{
    if data.len() < RECORD_HEADER_SIZE {
        assert(old(out)@ + Seq::<u64>::empty() =~= old(out)@);
        return;
    }
    let in_use: u32 = read_u32(data, 24);
    let max: usize = if (in_use as u64) < data.len() as u64 {
        in_use as usize
    } else {
        data.len()
    };
    let mut offset: usize = read_u16(data, 20) as usize;
    let ghost whole = extensions_of(data@, base_frs);
    while max >= ATTRIBUTE_HEADER_SIZE && offset <= max - ATTRIBUTE_HEADER_SIZE
        invariant_except_break
            out@ + extension_targets(data@, max as int, offset as int, base_frs) == old(out)@
                + whole,
        invariant
            max <= data.len(),
            max == attributes_end(data@),
        ensures
            out@ == old(out)@ + whole,
        decreases max - offset,
    {
        let type_code: u32 = read_u32(data, offset);
        let length: u32 = read_u32(data, offset + 4);
        if type_code == ATTRIBUTE_END || length == 0 || length as u64 > (max - offset) as u64 {
            assert(out@ + Seq::<u64>::empty() =~= out@);
            break;
        }
        let ghost before = out@;
        let ghost rest = extension_targets(data@, max as int, offset + length, base_frs);
        if type_code == ATTRIBUTE_LIST && data[offset + 8] == 0 {
            let start: u64 = offset as u64 + if data.len() - offset >= 22 {
                read_u16(data, offset + 20) as u64
            } else {
                0
            };
            let size: u64 = if data.len() - offset >= 20 {
                read_u32(data, offset + 16) as u64
            } else {
                0
            };
            assert(start == value_start(data@, offset as int));
            if start <= data.len() as u64 {
                let end: usize = if size > data.len() as u64 - start {
                    data.len()
                } else {
                    (start + size) as usize
                };
                assert(end == value_end(data@, offset as int));
                scan_list(data, start as usize, end, base_frs, out);
            } else {
                assert(list_targets(
                    data@,
                    value_end(data@, offset as int),
                    value_start(data@, offset as int),
                    base_frs,
                ) =~= Seq::empty());
                assert(before + Seq::<u64>::empty() =~= before);
            }
        } else {
            assert(before + Seq::<u64>::empty() =~= before);
        }
        proof {
            let here = if type_code == ATTRIBUTE_LIST && data@[offset + 8] == 0 {
                list_targets(
                    data@,
                    value_end(data@, offset as int),
                    value_start(data@, offset as int),
                    base_frs,
                )
            } else {
                Seq::empty()
            };
            assert(out@ == before + here);
            assert(before + (here + rest) =~= out@ + rest);
        }
        offset = offset + length as usize;
    }
    assert(out@ =~= old(out)@ + whole) by {
        assert(out@ + Seq::<u64>::empty() =~= out@);
    }
}

/// Attributes that are no attribute list, and lists whose value does not stand
/// in the record, are passed over: what they hold does not matter, and they
/// hide nothing behind them.
pub proof fn law_other_attributes_are_passed_over(b: Seq<u8>, max: int, off: int, base: u64)
    requires
        0 <= off,
        off + 16 <= max <= b.len(),
        crate::bytes::u32_at(b, off) != 0xFFFF_FFFF,
        crate::bytes::u32_at(b, off) != 0x20 || b[off + 8] != 0,
        0 < crate::bytes::u32_at(b, off + 4),
        off + crate::bytes::u32_at(b, off + 4) <= max,
    ensures
        extension_targets(b, max, off, base) == extension_targets(
            b,
            max,
            off + crate::bytes::u32_at(b, off + 4),
            base,
        ),
{
    let rest = extension_targets(b, max, off + crate::bytes::u32_at(b, off + 4), base);
    assert(Seq::<u64>::empty() + rest =~= rest);
}

/// An attribute list that stands in the record gives what its entries refer to,
/// in front of what the attributes behind it give.
pub proof fn law_lists_are_searched(b: Seq<u8>, max: int, off: int, base: u64, start: u16, size: u32)
    requires
        0 <= off,
        off + 24 <= max <= b.len(),
        crate::bytes::u32_at(b, off) == 0x20,
        b[off + 8] == 0,
        crate::bytes::u32_at(b, off + 16) == size,
        crate::bytes::u16_at(b, off + 20) == start,
        0 < crate::bytes::u32_at(b, off + 4),
        off + crate::bytes::u32_at(b, off + 4) <= max,
        off + start + size <= b.len(),
    ensures
        extension_targets(b, max, off, base) == list_targets(
            b,
            off + start + size,
            off + start,
            base,
        ) + extension_targets(b, max, off + crate::bytes::u32_at(b, off + 4), base),
{
}

/// Nothing behind the end mark, behind the bytes in use or behind an attribute
/// that does not end within them is looked at.
pub proof fn law_search_ends_at_the_end(b: Seq<u8>, max: int, off: int, base: u64)
    requires
        0 <= off,
        off + 16 > max || crate::bytes::u32_at(b, off) == 0xFFFF_FFFF || crate::bytes::u32_at(
            b,
            off + 4,
        ) == 0 || off + crate::bytes::u32_at(b, off + 4) > max,
    ensures
        extension_targets(b, max, off, base).len() == 0,
{
}

/// No record is its own extension, and neither is the first record of the
/// table.
pub proof fn law_extensions_are_other_records(b: Seq<u8>, end: int, pos: int, base: u64)
    ensures
        !list_targets(b, end, pos, base).contains(base),
        !list_targets(b, end, pos, base).contains(0),
    decreases
            if end > pos {
                end - pos
            } else {
                0
            },
{
    if !(pos < 0 || pos + LIST_ENTRY_SIZE > end) {
        let length = crate::bytes::u16_at(b, pos + 4);
        if length >= LIST_ENTRY_SIZE {
            law_extensions_are_other_records(b, end, pos + length, base);
            let target = segment_of(crate::bytes::u64_at(b, pos + 16));
            let rest = list_targets(b, end, pos + length, base);
            let all = seq![target] + rest;
            assert forall|i: int| 0 <= i < all.len() implies all[i] == target || rest.contains(
                all[i],
            ) by {
                if i > 0 {
                    assert(all[i] == rest[i - 1]);
                }
            }
        }
    }
}

/// The upper 16 bits of a reference count how often its record was used again:
/// they do not matter.
pub proof fn law_references_name_segments(reference: u64, segment: u64, sequence: u16)
    requires
        segment < 0x1_0000_0000_0000,
        reference == sequence * 0x1_0000_0000_0000 + segment,
    ensures
        segment_of(reference) == segment,
{
}

/// A list that is said to reach behind the record is searched up to the end of the
/// record.
pub proof fn law_long_lists_end_with_the_record(
    b: Seq<u8>,
    max: int,
    off: int,
    base: u64,
    start: u16,
    size: u32,
)
    requires
        0 <= off,
        off + 24 <= max <= b.len(),
        crate::bytes::u32_at(b, off) == 0x20,
        b[off + 8] == 0,
        crate::bytes::u32_at(b, off + 16) == size,
        crate::bytes::u16_at(b, off + 20) == start,
        0 < crate::bytes::u32_at(b, off + 4),
        off + crate::bytes::u32_at(b, off + 4) <= max,
        off + start + size > b.len(),
    ensures
        extension_targets(b, max, off, base) == list_targets(
            b,
            b.len() as int,
            off + start,
            base,
        ) + extension_targets(b, max, off + crate::bytes::u32_at(b, off + 4), base),
{
}

/// A list ends at an entry that is too short to be one, or that does not stand
/// within the list.
pub proof fn law_lists_end_at_short_entries(b: Seq<u8>, end: int, pos: int, base: u64)
    requires
        0 <= pos,
        pos + 26 > end || crate::bytes::u16_at(b, pos + 4) < 26,
    ensures
        list_targets(b, end, pos, base).len() == 0,
{
}

/// A record that is shorter than its fixed part has no extension records.
pub proof fn law_short_records_have_no_extensions(b: Seq<u8>, base: u64)
    requires
        b.len() < 48,
    ensures
        extensions_of(b, base).len() == 0,
{
}

} // verus!
