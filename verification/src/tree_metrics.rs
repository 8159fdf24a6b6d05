//! Sizes and descendant counts of directory trees.
//!
//! Every record has two sets of figures. The ones passed up to the parent
//! count all streams, and a record with several names passes each parent only
//! the share of that name. The ones shown for the record itself leave its
//! internal streams out.

use crate::index::{FileRecord, FirstStream, IndexView, MftIndex, SizeInfo, NO_ENTRY};
use vstd::prelude::*;

pub mod families;
pub mod repeat;
pub mod soundness;
pub mod totals;
pub mod walkable;

verus! {

/// The segment number of the root directory.
pub const ROOT_FRS: u64 = 5;

/// The reparse tag of a file whose data is kept compressed in a named stream.
pub const WOF_REPARSE_TAG: u32 = 0x8000_0017;

/// The part of `value` that goes to name number `name_info` of `total_names`:
/// the difference of two neighbouring floors, so that the parts of all names
/// add up to the value.
pub open spec fn share(value: u64, name_info: u32, total_names: u32) -> u64 {
    if total_names <= 1 {
        value
    } else {
        (value * (name_info + 1) / (total_names as int) - value * name_info / (
        total_names as int)) as u64
    }
}

proof fn lemma_share_bounds(value: int, i: int, n: int)
    by (nonlinear_arith)
    requires
        0 <= value,
        0 <= i,
        1 <= n,
    ensures
        0 <= value * i / n <= value * (i + 1) / n <= value * i / n + value,
        value * (i + 1) / n <= value * (i + 1),
{
}

/// The part of `value` that goes to name number `name_info` of `total_names`.
pub fn delta(value: u64, name_info: u32, total_names: u32) -> (r: u64)
    ensures
        r == share(value, name_info, total_names),
        total_names > 1 ==> r == value * (name_info + 1) / (total_names as int) - value * name_info
            / (total_names as int),
        r <= value,
{
    if total_names <= 1 {
        return value;
    }
    proof {
        lemma_share_bounds(value as int, name_info as int, total_names as int);
        assert(value * (name_info + 1) <= 0xFFFF_FFFF_FFFF_FFFF * 0x1_0000_0000)
            by (nonlinear_arith)
            requires
                0 <= value <= 0xFFFF_FFFF_FFFF_FFFF,
                0 <= name_info + 1 <= 0x1_0000_0000,
        ;
        assert(0 <= value * name_info <= value * (name_info + 1)) by (nonlinear_arith)
            requires
                0 <= value,
                0 <= name_info,
        ;
    }
    let n: u128 = total_names as u128;
    let i: u128 = name_info as u128;
    let v: u128 = value as u128;
    let upper: u128 = v * (i + 1) / n;
    let lower: u128 = v * i / n;
    (upper - lower) as u64
}

/// The share number of a name: the names are counted from the last one, and an
/// index beyond the last name counts as the last name.
pub open spec fn name_info_of(name_index: u32, total_names: u32) -> u32 {
    if total_names <= 1 || name_index >= total_names {
        0
    } else {
        (total_names - 1 - name_index) as u32
    }
}

/// The share number of a name.
pub fn compute_name_info(name_index: u32, total_names: u32) -> (r: u32)
    ensures
        r == name_info_of(name_index, total_names),
        total_names > 0 ==> r < total_names,
{
    if total_names <= 1 {
        return 0;
    }
    let clamped: u32 = if name_index >= total_names {
        total_names - 1
    } else {
        name_index
    };
    total_names - 1 - clamped
}

/// The sum of the shares of names `0..upto` of a value.
pub open spec fn shares_upto(value: u64, total_names: u32, upto: nat) -> int
    decreases upto,
{
    if upto == 0 {
        0
    } else {
        shares_upto(value, total_names, (upto - 1) as nat) + share(
            value,
            (upto - 1) as u32,
            total_names,
        )
    }
}

proof fn lemma_shares_upto(value: u64, total_names: u32, upto: nat)
    requires
        total_names > 1,
        upto <= total_names,
    ensures
        shares_upto(value, total_names, upto) == value * upto / (total_names as int),
    decreases upto,
{
    if upto == 0 {
        assert(value * 0 / (total_names as int) == 0) by (nonlinear_arith)
            requires
                total_names > 0,
        ;
    } else {
        lemma_shares_upto(value, total_names, (upto - 1) as nat);
        lemma_share_bounds(value as int, upto - 1, total_names as int);
    }
}

/// The shares of all names of a record add up to the value exactly.
pub proof fn law_shares_add_up(value: u64, total_names: u32)
    requires
        total_names >= 1,
    ensures
        shares_upto(value, total_names, total_names as nat) == value,
{
    if total_names == 1 {
        reveal_with_fuel(shares_upto, 2);
    } else {
        lemma_shares_upto(value, total_names, total_names as nat);
        assert(value * total_names / (total_names as int) == value) by (nonlinear_arith)
            requires
                total_names > 0,
        ;
    }
}

/// Two shares of one value differ by at most one.
pub proof fn law_shares_are_even(value: u64, total_names: u32, i: u32, j: u32)
    requires
        i < total_names,
        j < total_names,
    ensures
        share(value, i, total_names) <= share(value, j, total_names) + 1,
{
    if total_names > 1 {
        lemma_share_is_near_quotient(value as int, i as int, total_names as int);
        lemma_share_is_near_quotient(value as int, j as int, total_names as int);
        lemma_share_bounds(value as int, i as int, total_names as int);
        lemma_share_bounds(value as int, j as int, total_names as int);
    }
}

proof fn lemma_share_is_near_quotient(value: int, i: int, n: int)
    by (nonlinear_arith)
    requires
        0 <= value,
        0 <= i,
        1 <= n,
    ensures
        value / n <= value * (i + 1) / n - value * i / n <= value / n + 1,
{
    let q = value / n;
    let r = value % n;
    assert(value == q * n + r);
    let a = value * i / n;
    let ar = value * i % n;
    assert(value * i == a * n + ar);
    assert(value * (i + 1) == (a + q) * n + (ar + r));
}

/// Different names of one record have different share numbers.
pub proof fn law_names_have_shares_of_their_own(a: u32, b: u32, total_names: u32)
    requires
        a < total_names,
        b < total_names,
    ensures
        name_info_of(a, total_names) < total_names,
        a != b ==> name_info_of(a, total_names) != name_info_of(b, total_names),
{
}

/// The positions of a linked list, from `head` on, if it ends within `fuel`
/// steps. The list stops at `NO_ENTRY` and at a position outside the array.
pub open spec fn list_within(next: Seq<u32>, head: u32, fuel: nat) -> Option<Seq<int>>
    decreases fuel,
{
    if head == NO_ENTRY || head >= next.len() {
        Some(Seq::empty())
    } else if fuel == 0 {
        None
    } else {
        match list_within(next, next[head as int], (fuel - 1) as nat) {
            Some(rest) => Some(seq![head as int] + rest),
            None => None,
        }
    }
}

/// The list from `head` on comes to an end.
pub open spec fn ends(next: Seq<u32>, head: u32) -> bool {
    exists|fuel: nat| list_within(next, head, fuel) is Some
}

/// The positions of a list that comes to an end.
pub open spec fn list_of(next: Seq<u32>, head: u32) -> Seq<int> {
    list_within(next, head, choose|fuel: nat| list_within(next, head, fuel) is Some)->0
}

/// A list that comes to an end ends with `NO_ENTRY`, not outside the array.
pub open spec fn ends_inside(next: Seq<u32>, head: u32) -> bool {
    let l = list_of(next, head);
    ends(next, head) && if l.len() == 0 {
        head == NO_ENTRY
    } else {
        next[l.last()] == NO_ENTRY
    }
}

proof fn lemma_list_more_fuel(next: Seq<u32>, head: u32, f: nat, g: nat)
    requires
        list_within(next, head, f) is Some,
        f <= g,
    ensures
        list_within(next, head, g) == list_within(next, head, f),
    decreases f,
{
    if head == NO_ENTRY || head >= next.len() {
    } else {
        lemma_list_more_fuel(next, next[head as int], (f - 1) as nat, (g - 1) as nat);
    }
}

/// How a list that comes to an end is made up of its head and the rest.
pub proof fn lemma_list_unfold(next: Seq<u32>, head: u32)
    requires
        ends(next, head),
    ensures
        head == NO_ENTRY || head >= next.len() ==> list_of(next, head).len() == 0,
        head != NO_ENTRY && head < next.len() ==> ends(next, next[head as int]) && list_of(
            next,
            head,
        ) == seq![head as int] + list_of(next, next[head as int]),
{
    let f = choose|fuel: nat| list_within(next, head, fuel) is Some;
    if head == NO_ENTRY || head >= next.len() {
    } else {
        let h2 = next[head as int];
        assert(list_within(next, h2, (f - 1) as nat) is Some);
        let g = choose|fuel: nat| list_within(next, h2, fuel) is Some;
        let m = if g <= f - 1 { (f - 1) as nat } else { g };
        lemma_list_more_fuel(next, h2, (f - 1) as nat, m);
        lemma_list_more_fuel(next, h2, g, m);
    }
}

/// Sizes that exceed what 64 bits can hold are shown as the largest number.
pub open spec fn clip64(x: int) -> u64 {
    if x > u64::MAX {
        u64::MAX
    } else {
        x as u64
    }
}

/// Counts that exceed what 32 bits can hold are shown as the largest number.
pub open spec fn clip32(x: int) -> u32 {
    if x > u32::MAX {
        u32::MAX
    } else {
        x as u32
    }
}

/// The sum of one name's shares of several values.
pub open spec fn share_sum(values: Seq<u64>, name_info: u32, total_names: u32) -> int
    decreases values.len(),
{
    if values.len() == 0 {
        0
    } else {
        share_sum(values.drop_last(), name_info, total_names) + share(
            values.last(),
            name_info,
            total_names,
        )
    }
}

/// The name of the stream that holds compressed file data.
pub open spec fn wof_name() -> Seq<u8> {
    seq![
        0x57u8, 0x6Fu8, 0x66u8, 0x43u8, 0x6Fu8, 0x6Du8, 0x70u8, 0x72u8, 0x65u8, 0x73u8, 0x73u8,
        0x65u8, 0x64u8, 0x44u8, 0x61u8, 0x74u8, 0x61u8,
    ]
}

/// The links between named streams.
pub open spec fn stream_links(ix: IndexView) -> Seq<u32> {
    Seq::new(ix.streams.len(), |i: int| ix.streams[i].next_entry)
}

/// The links between internal streams.
pub open spec fn internal_links(ix: IndexView) -> Seq<u32> {
    Seq::new(ix.internal_streams.len(), |i: int| ix.internal_streams[i].next_entry)
}

/// The links between child entries.
pub open spec fn child_links(ix: IndexView) -> Seq<u32> {
    Seq::new(ix.children.len(), |i: int| ix.children[i].next_entry)
}

/// The first stream of a list that holds compressed file data, or `NO_ENTRY`.
pub open spec fn first_wof(ix: IndexView, streams: Seq<int>) -> u32
    decreases streams.len(),
{
    if streams.len() == 0 {
        NO_ENTRY
    } else if ix.name(ix.streams[streams[0]].name) == wof_name() {
        streams[0] as u32
    } else {
        first_wof(ix, streams.drop_first())
    }
}

/// The stream of a record that holds its compressed data, or `NO_ENTRY`.
pub open spec fn wof_stream(ix: IndexView, rec: FileRecord) -> u32 {
    if rec.reparse_tag == WOF_REPARSE_TAG {
        first_wof(ix, list_of(stream_links(ix), rec.first_stream.next_entry))
    } else {
        NO_ENTRY
    }
}

/// The allocated size of the unnamed stream once the space of the compressed
/// data is counted to it.
pub open spec fn merged_alloc(ix: IndexView, rec: FileRecord) -> u64 {
    let wof = wof_stream(ix, rec);
    if wof != NO_ENTRY {
        clip64(rec.first_stream.size.allocated + ix.streams[wof as int].size.allocated)
    } else {
        rec.first_stream.size.allocated
    }
}

/// The logical sizes of the named streams, the one with compressed data as 0.
pub open spec fn named_lengths(ix: IndexView, streams: Seq<int>, wof: u32) -> Seq<u64> {
    streams.map_values(|j: int| if j == wof { 0u64 } else { ix.streams[j].size.length })
}

/// The allocated sizes of the named streams, the one with compressed data as 0.
pub open spec fn named_allocs(ix: IndexView, streams: Seq<int>, wof: u32) -> Seq<u64> {
    streams.map_values(|j: int| if j == wof { 0u64 } else { ix.streams[j].size.allocated })
}

/// The logical sizes of the internal streams at some positions.
pub open spec fn lengths_at(ix: IndexView, streams: Seq<int>) -> Seq<u64> {
    streams.map_values(|j: int| ix.internal_streams[j].size.length)
}

/// The allocated sizes of the internal streams at some positions.
pub open spec fn allocs_at(ix: IndexView, streams: Seq<int>) -> Seq<u64> {
    streams.map_values(|j: int| ix.internal_streams[j].size.allocated)
}

/// The logical sizes of the internal streams: one by one where the index has
/// them, else as one sum.
pub open spec fn internal_lengths(ix: IndexView, rec: FileRecord) -> Seq<u64> {
    if rec.first_internal_stream != NO_ENTRY && ix.internal_streams.len() > 0 {
        lengths_at(ix, list_of(internal_links(ix), rec.first_internal_stream))
    } else {
        seq![rec.internal_streams_size]
    }
}

/// The allocated sizes of the internal streams: one by one where the index has
/// them, else as one sum.
pub open spec fn internal_allocs(ix: IndexView, rec: FileRecord) -> Seq<u64> {
    if rec.first_internal_stream != NO_ENTRY && ix.internal_streams.len() > 0 {
        allocs_at(ix, list_of(internal_links(ix), rec.first_internal_stream))
    } else {
        seq![rec.internal_streams_allocated]
    }
}

/// The logical size that one name of a record passes up for its own streams.
pub open spec fn own_length(ix: IndexView, rec: FileRecord, k: u32, n: u32) -> u64 {
    let named = list_of(stream_links(ix), rec.first_stream.next_entry);
    clip64(
        share(rec.first_stream.size.length, k, n) + share_sum(internal_lengths(ix, rec), k, n)
            + share_sum(named_lengths(ix, named, wof_stream(ix, rec)), k, n),
    )
}

/// The allocated size that one name of a record passes up for its own streams.
pub open spec fn own_alloc(ix: IndexView, rec: FileRecord, k: u32, n: u32) -> u64 {
    let named = list_of(stream_links(ix), rec.first_stream.next_entry);
    clip64(
        share(merged_alloc(ix, rec), k, n) + share_sum(internal_allocs(ix, rec), k, n) + share_sum(
            named_allocs(ix, named, wof_stream(ix, rec)),
            k,
            n,
        ),
    )
}

/// The stream lists of a record come to an end, and the search for compressed
/// data does not leave the array.
pub open spec fn streams_end(ix: IndexView, rec: FileRecord) -> bool {
    &&& rec.first_internal_stream != NO_ENTRY && ix.internal_streams.len() > 0 ==> ends(
        internal_links(ix),
        rec.first_internal_stream,
    )
    &&& ends(stream_links(ix), rec.first_stream.next_entry)
    &&& rec.reparse_tag == WOF_REPARSE_TAG ==> wof_stream(ix, rec) != NO_ENTRY || ends_inside(
        stream_links(ix),
        rec.first_stream.next_entry,
    )
}

/// What a subtree passes up: sizes, and the number of its streams.
#[derive(Debug, Clone, Copy, PartialEq, Eq, Structural)]
pub struct Agg {
    /// Logical size.
    pub length: u64,
    /// Allocated size.
    pub allocated: u64,
    /// Number of streams.
    pub treesize: u32,
}

/// Nothing.
pub open spec fn agg_zero() -> Agg {
    Agg { length: 0, allocated: 0, treesize: 0 }
}

/// Two parts together.
pub open spec fn agg_sum(a: Agg, b: Agg) -> Agg {
    Agg {
        length: clip64(a.length + b.length),
        allocated: clip64(a.allocated + b.allocated),
        treesize: clip32(a.treesize + b.treesize),
    }
}

/// The figures shown for a record, given what its children pass up.
pub open spec fn printed(rec: FileRecord, children: Agg, length: u64, alloc: u64) -> FileRecord {
    if rec.stdinfo.directory {
        FileRecord {
            descendants: clip32(children.treesize + 1),
            treesize: clip64(children.length + length),
            tree_allocated: clip64(children.allocated + alloc),
            ..rec
        }
    } else {
        FileRecord { descendants: 0, treesize: length, tree_allocated: alloc, ..rec }
    }
}

/// A record with another allocated size of its unnamed stream.
pub open spec fn with_alloc(rec: FileRecord, alloc: u64) -> FileRecord {
    FileRecord {
        first_stream: FirstStream {
            size: SizeInfo { allocated: alloc, ..rec.first_stream.size },
            ..rec.first_stream
        },
        ..rec
    }
}

/// How far a walk over the tree has come.
#[verifier::ext_equal]
pub struct Walk {
    /// The index, with the figures of the records visited so far.
    pub ix: IndexView,
    /// The records visited so far.
    pub seen: Seq<bool>,
}

impl Walk {
    /// The walk with record `i` replaced.
    pub open spec fn with_record(self, i: int, rec: FileRecord) -> Walk {
        Walk { ix: self.ix.with_records(self.ix.records.update(i, rec)), ..self }
    }

    /// The walk with record `i` marked as visited.
    pub open spec fn mark(self, i: int) -> Walk {
        Walk { seen: self.seen.update(i, true), ..self }
    }
}

/// Visits record `i` under name `k` of `n`: first its children, then its own
/// streams. `None` where the walk leaves an array or does not end within
/// `fuel` levels.
pub open spec fn visit(w: Walk, i: int, k: u32, n: u32, fuel: nat) -> Option<(Walk, Agg)>
    decreases fuel, 0nat,
{
    if !(0 <= i < w.ix.records.len()) {
        Some((w, agg_zero()))
    } else if fuel == 0 || !streams_end(w.ix, w.ix.records[i]) {
        None
    } else {
        let rec = w.ix.records[i];
        let names = if n == 0 {
            1
        } else {
            n
        };
        let alloc = merged_alloc(w.ix, rec);
        let w1 = w.mark(i).with_record(i, with_alloc(rec, alloc));
        let below = if !rec.stdinfo.directory {
            Some((w1, agg_zero()))
        } else if !ends_inside(child_links(w.ix), rec.first_child) {
            None
        } else {
            match visit_list(
                w1,
                list_of(child_links(w.ix), rec.first_child),
                (fuel - 1) as nat,
            ) {
                Some((w2, sum)) => Some((w2, close_directory(w.ix, i, sum))),
                None => None,
            }
        };
        match below {
            Some((w2, children)) => Some(
                (
                    w2.with_record(
                        i,
                        printed(w2.ix.records[i], children, rec.first_stream.size.length, alloc),
                    ),
                    agg_sum(
                        children,
                        Agg {
                            length: own_length(w.ix, rec, k, names),
                            allocated: own_alloc(w.ix, rec, k, names),
                            treesize: if rec.total_stream_count == 0 {
                                1
                            } else {
                                rec.total_stream_count as u32
                            },
                        },
                    ),
                ),
            ),
            None => None,
        }
    }
}

/// What the children of directory `i` pass up once all of them were visited.
/// What the volume holds back is counted to the children of the root directory.
pub open spec fn close_directory(ix: IndexView, i: int, sum: Agg) -> Agg {
    if ix.position(ROOT_FRS) matches Some(root) && root == i {
        Agg { allocated: clip64(sum.allocated + ix.reserved_allocated_bytes), ..sum }
    } else {
        sum
    }
}

/// Visits the children that a list of child entries names, in order.
pub open spec fn visit_list(w: Walk, entries: Seq<int>, fuel: nat) -> Option<(Walk, Agg)>
    decreases fuel, entries.len() + 1,
{
    if entries.len() == 0 {
        Some((w, agg_zero()))
    } else {
        match visit_list(w, entries.drop_last(), fuel) {
            Some((w1, sum)) => {
                let entry = w1.ix.children[entries.last()];
                match w1.ix.position(entry.child_frs) {
                    None => Some((w1, sum)),
                    Some(p) => if p >= w1.ix.records.len() {
                        None
                    } else {
                        let names = w1.ix.records[p as int].name_count as u32;
                        let k = name_info_of(entry.name_index as u32, names);
                        match visit(w1, p as int, k, names, fuel) {
                            Some((w2, part)) => Some((w2, agg_sum(sum, part))),
                            None => None,
                        }
                    },
                }
            },
            None => None,
        }
    }
}

/// Visits those of the first `upto` records that were not visited yet.
pub open spec fn sweep(w: Walk, upto: nat, fuel: nat) -> Option<Walk>
    decreases upto,
{
    if upto == 0 {
        Some(w)
    } else {
        match sweep(w, (upto - 1) as nat, fuel) {
            Some(w1) => if w1.seen[upto - 1] {
                Some(w1)
            } else {
                match visit(w1, upto - 1, 0, 1, fuel) {
                    Some((w2, _)) => Some(w2),
                    None => None,
                }
            },
            None => None,
        }
    }
}

/// The walk over a whole index: from the root directory, then over the records
/// that cannot be reached from there unless they are to be left out.
pub open spec fn walk_within(ix: IndexView, skip_orphans: bool, fuel: nat) -> Option<Walk> {
    let start = Walk { ix, seen: Seq::new(ix.records.len(), |i: int| false) };
    let rooted = match ix.position(ROOT_FRS) {
        Some(p) => match visit(start, p as int, 0, 1, fuel) {
            Some((w, _)) => Some(w),
            None => None,
        },
        None => Some(start),
    };
    match rooted {
        Some(w) => if skip_orphans {
            Some(w)
        } else {
            sweep(w, ix.records.len(), fuel)
        },
        None => None,
    }
}

/// The walk over an index comes to an end and stays inside its arrays.
pub open spec fn can_be_walked(ix: IndexView, skip_orphans: bool) -> bool {
    exists|fuel: nat| walk_within(ix, skip_orphans, fuel) is Some
}

/// The index with the figures of every visited record filled in.
pub open spec fn tree_metrics(ix: IndexView, skip_orphans: bool) -> IndexView {
    walk_within(
        ix,
        skip_orphans,
        choose|fuel: nat| walk_within(ix, skip_orphans, fuel) is Some,
    )->0.ix
}

/// Sums up the figures of the directories of one index.
struct TreeTraversal {
    /// The records visited so far.
    seen: Vec<bool>,
}

spec fn walk_of(index: &MftIndex, t: &TreeTraversal) -> Walk {
    Walk { ix: index@, seen: t.seen@ }
}

proof fn lemma_visit_list_prefix(w: Walk, entries: Seq<int>, n: int, fuel: nat)
    requires
        0 <= n <= entries.len(),
        visit_list(w, entries, fuel) is Some,
    ensures
        visit_list(w, entries.take(n), fuel) is Some,
    decreases entries.len(),
{
    if n < entries.len() {
        assert(entries.take(n) =~= entries.drop_last().take(n));
        lemma_visit_list_prefix(w, entries.drop_last(), n, fuel);
    } else {
        assert(entries.take(n) =~= entries);
    }
}

/// A walk changes nothing but the records it visits.
proof fn lemma_visit_frame(w: Walk, i: int, k: u32, n: u32, fuel: nat)
    requires
        visit(w, i, k, n, fuel) is Some,
        w.seen.len() == w.ix.records.len(),
    ensures
        ({
            let w2 = (visit(w, i, k, n, fuel)->0).0;
            &&& w2.ix.records.len() == w.ix.records.len()
            &&& w2.ix == w.ix.with_records(w2.ix.records)
            &&& w2.seen.len() == w.seen.len()
        }),
    decreases fuel, 0nat,
{
    if 0 <= i < w.ix.records.len() {
        let rec = w.ix.records[i];
        if rec.stdinfo.directory {
            let w1 = w.mark(i).with_record(i, with_alloc(rec, merged_alloc(w.ix, rec)));
            lemma_visit_list_frame(
                w1,
                list_of(child_links(w.ix), rec.first_child),
                (fuel - 1) as nat,
            );
        }
    }
    let w2 = (visit(w, i, k, n, fuel)->0).0;
    assert(w2.ix =~= w.ix.with_records(w2.ix.records));
}

proof fn lemma_visit_list_frame(w: Walk, entries: Seq<int>, fuel: nat)
    requires
        visit_list(w, entries, fuel) is Some,
        w.seen.len() == w.ix.records.len(),
    ensures
        ({
            let w2 = (visit_list(w, entries, fuel)->0).0;
            &&& w2.ix.records.len() == w.ix.records.len()
            &&& w2.ix == w.ix.with_records(w2.ix.records)
            &&& w2.seen.len() == w.seen.len()
        }),
    decreases fuel, entries.len() + 1,
{
    if entries.len() > 0 {
        lemma_visit_list_frame(w, entries.drop_last(), fuel);
        let w1 = (visit_list(w, entries.drop_last(), fuel)->0).0;
        let entry = w1.ix.children[entries.last()];
        if let Some(p) = w1.ix.position(entry.child_frs) {
            let names = w1.ix.records[p as int].name_count as u32;
            lemma_visit_frame(
                w1,
                p as int,
                name_info_of(entry.name_index as u32, names),
                names,
                fuel,
            );
        }
    }
}

fn sat_agg(a: Agg, b: Agg) -> (r: Agg)
    ensures
        r == agg_sum(a, b),
{
    Agg {
        length: a.length.saturating_add(b.length),
        allocated: a.allocated.saturating_add(b.allocated),
        treesize: a.treesize.saturating_add(b.treesize),
    }
}

impl TreeTraversal {
    /// Looks for the stream that holds compressed file data.
    fn find_wof_stream(index: &MftIndex, first_stream_next: u32) -> (r: u32)
        requires
            ends(stream_links(index@), first_stream_next),
            first_wof(index@, list_of(stream_links(index@), first_stream_next)) != NO_ENTRY
                || ends_inside(stream_links(index@), first_stream_next),
        ensures
            r == first_wof(index@, list_of(stream_links(index@), first_stream_next)),
            r != NO_ENTRY ==> r < index@.streams.len(),
    {
        let name: [u8; 17] = [
            0x57, 0x6F, 0x66, 0x43, 0x6F, 0x6D, 0x70, 0x72, 0x65, 0x73, 0x73, 0x65, 0x64, 0x44,
            0x61, 0x74, 0x61,
        ];
        assert(name@ =~= wof_name());
        let mut idx: u32 = first_stream_next;
        let ghost links = stream_links(index@);
        while idx != NO_ENTRY
            invariant
                links == stream_links(index@),
                name@ == wof_name(),
                ends(links, idx),
                first_wof(index@, list_of(links, first_stream_next)) == first_wof(
                    index@,
                    list_of(links, idx),
                ),
                first_wof(index@, list_of(links, idx)) != NO_ENTRY || ends_inside(links, idx),
            decreases list_of(links, idx).len(),
        {
            proof {
                lemma_list_unfold(links, idx);
                if idx < links.len() {
                    assert(list_of(links, idx).drop_first() =~= list_of(links, links[idx as int]));
                    let rest = list_of(links, links[idx as int]);
                    assert(rest.len() > 0 ==> list_of(links, idx).last() == rest.last());
                }
            }
            assert(idx < index.streams.len());
            let stream = &index.streams[idx as usize];
            if index.name_is(stream.name, name.as_slice()) {
                return idx;
            }
            idx = stream.next_entry;
        }
        proof {
            lemma_list_unfold(links, idx);
        }
        NO_ENTRY
    }

    /// The sizes that one name of a record passes up for its own streams.
    fn accumulate_own_streams(
        index: &MftIndex,
        rec: &FileRecord,
        first_alloc: u64,
        wof: u32,
        k: u32,
        n: u32,
    ) -> (r: (u64, u64))
        requires
            streams_end(index@, *rec),
            first_alloc == merged_alloc(index@, *rec),
            wof == wof_stream(index@, *rec),
        ensures
            r.0 == own_length(index@, *rec, k, n),
            r.1 == own_alloc(index@, *rec, k, n),
    {
        let mut own_len: u64 = delta(rec.first_stream.size.length, k, n);
        let mut own_alloc: u64 = delta(first_alloc, k, n);
        let ghost len0 = share(rec.first_stream.size.length, k, n) as int;
        let ghost alloc0 = share(first_alloc, k, n) as int;
        let ghost ilens = internal_lengths(index@, *rec);
        let ghost iallocs = internal_allocs(index@, *rec);
        if rec.first_internal_stream != NO_ENTRY && index.internal_streams.len() > 0 {
            let ghost links = internal_links(index@);
            let ghost all = list_of(links, rec.first_internal_stream);
            let ghost mut done: int = 0;
            let mut idx: u32 = rec.first_internal_stream;
            assert(lengths_at(index@, all.take(0)) =~= Seq::<u64>::empty());
            assert(allocs_at(index@, all.take(0)) =~= Seq::<u64>::empty());
            assert(all.skip(0) =~= all);
            while idx != NO_ENTRY && (idx as usize) < index.internal_streams.len()
                invariant
                    links == internal_links(index@),
                    all == list_of(links, rec.first_internal_stream),
                    ends(links, idx),
                    0 <= done <= all.len(),
                    list_of(links, idx) == all.skip(done),
                    len0 >= 0,
                    alloc0 >= 0,
                    own_len == clip64(len0 + share_sum(lengths_at(index@, all.take(done)), k, n)),
                    own_alloc == clip64(
                        alloc0 + share_sum(allocs_at(index@, all.take(done)), k, n),
                    ),
                decreases all.len() - done,
            {
                proof {
                    lemma_list_unfold(links, idx);
                    assert(list_of(links, idx)[0] == idx);
                    assert(list_of(links, idx).len() > 0);
                    assert(done < all.len());
                    assert(all.skip(done)[0] == all[done]);
                    assert(all.skip(done).drop_first() =~= all.skip(done + 1));
                    assert(list_of(links, idx).drop_first() =~= list_of(links, links[idx as int]));
                    assert(lengths_at(index@, all.take(done + 1)).drop_last() =~= lengths_at(
                        index@,
                        all.take(done),
                    ));
                    assert(allocs_at(index@, all.take(done + 1)).drop_last() =~= allocs_at(
                        index@,
                        all.take(done),
                    ));
                    lemma_share_sum_nonneg(lengths_at(index@, all.take(done)), k, n);
                    lemma_share_sum_nonneg(allocs_at(index@, all.take(done)), k, n);
                }
                let ist = &index.internal_streams[idx as usize];
                own_len = own_len.saturating_add(delta(ist.size.length, k, n));
                own_alloc = own_alloc.saturating_add(delta(ist.size.allocated, k, n));
                idx = ist.next_entry;
                proof {
                    done = done + 1;
                }
            }
            proof {
                lemma_list_unfold(links, idx);
                assert(all.skip(done).len() == 0);
                assert(all.take(done) =~= all);
            }
        } else {
            own_len = own_len.saturating_add(delta(rec.internal_streams_size, k, n));
            own_alloc = own_alloc.saturating_add(delta(rec.internal_streams_allocated, k, n));
            proof {
                assert(ilens.drop_last() =~= Seq::<u64>::empty());
                assert(iallocs.drop_last() =~= Seq::<u64>::empty());
                reveal_with_fuel(share_sum, 2);
            }
        }
        let ghost len1 = len0 + share_sum(ilens, k, n);
        let ghost alloc1 = alloc0 + share_sum(iallocs, k, n);
        assert(own_len == clip64(len1));
        assert(own_alloc == clip64(alloc1));
        proof {
            lemma_share_sum_nonneg(ilens, k, n);
            lemma_share_sum_nonneg(iallocs, k, n);
        }
        let ghost links = stream_links(index@);
        let ghost all = list_of(links, rec.first_stream.next_entry);
        let ghost mut done: int = 0;
        let mut idx: u32 = rec.first_stream.next_entry;
        assert(named_lengths(index@, all.take(0), wof) =~= Seq::<u64>::empty());
        assert(named_allocs(index@, all.take(0), wof) =~= Seq::<u64>::empty());
        assert(all.skip(0) =~= all);
        while idx != NO_ENTRY && (idx as usize) < index.streams.len()
            invariant
                links == stream_links(index@),
                all == list_of(links, rec.first_stream.next_entry),
                ends(links, idx),
                0 <= done <= all.len(),
                list_of(links, idx) == all.skip(done),
                len1 >= 0,
                alloc1 >= 0,
                own_len == clip64(
                    len1 + share_sum(named_lengths(index@, all.take(done), wof), k, n),
                ),
                own_alloc == clip64(
                    alloc1 + share_sum(named_allocs(index@, all.take(done), wof), k, n),
                ),
            decreases all.len() - done,
        {
            proof {
                lemma_list_unfold(links, idx);
                assert(list_of(links, idx)[0] == idx);
                assert(list_of(links, idx).len() > 0);
                    assert(done < all.len());
                    assert(all.skip(done)[0] == all[done]);
                assert(all.skip(done).drop_first() =~= all.skip(done + 1));
                assert(list_of(links, idx).drop_first() =~= list_of(links, links[idx as int]));
                assert(named_lengths(index@, all.take(done + 1), wof).drop_last() =~= named_lengths(
                    index@,
                    all.take(done),
                    wof,
                ));
                assert(named_allocs(index@, all.take(done + 1), wof).drop_last() =~= named_allocs(
                    index@,
                    all.take(done),
                    wof,
                ));
                lemma_share_sum_nonneg(named_lengths(index@, all.take(done), wof), k, n);
                lemma_share_sum_nonneg(named_allocs(index@, all.take(done), wof), k, n);
            }
            let stream = &index.streams[idx as usize];
            let len: u64 = if idx == wof {
                0
            } else {
                stream.size.length
            };
            let alloc: u64 = if idx == wof {
                0
            } else {
                stream.size.allocated
            };
            own_len = own_len.saturating_add(delta(len, k, n));
            own_alloc = own_alloc.saturating_add(delta(alloc, k, n));
            idx = stream.next_entry;
            proof {
                done = done + 1;
            }
        }
        proof {
            lemma_list_unfold(links, idx);
            assert(all.skip(done).len() == 0);
            assert(all.take(done) =~= all);
        }
        (own_len, own_alloc)
    }

    /// Visits a record and everything below it. Returns what it passes up.
    fn preprocess(
        &mut self,
        index: &mut MftIndex,
        record_idx: usize,
        name_info: u32,
        total_names_raw: u32,
        Ghost(fuel): Ghost<nat>,
    ) -> (r: Agg)
        requires
            old(self).seen@.len() == old(index)@.records.len(),
            visit(
                walk_of(old(index), old(self)),
                record_idx as int,
                name_info,
                total_names_raw,
                fuel,
            ) is Some,
        ensures
            visit(
                walk_of(old(index), old(self)),
                record_idx as int,
                name_info,
                total_names_raw,
                fuel,
            ) == Some((walk_of(final(index), final(self)), r)),
            final(self).seen@.len() == final(index)@.records.len(),
        decreases fuel, 0nat,
    {
        let ghost w = walk_of(index, self);
        if record_idx >= index.records.len() {
            return Agg { length: 0, allocated: 0, treesize: 0 };
        }
        self.seen.set(record_idx, true);
        let total_names: u32 = if total_names_raw == 0 {
            1
        } else {
            total_names_raw
        };
        let rec: FileRecord = index.records[record_idx];
        let wof: u32 = if rec.reparse_tag == WOF_REPARSE_TAG {
            Self::find_wof_stream(index, rec.first_stream.next_entry)
        } else {
            NO_ENTRY
        };
        let mut first_alloc: u64 = rec.first_stream.size.allocated;
        if wof != NO_ENTRY {
            first_alloc = first_alloc.saturating_add(index.streams[wof as usize].size.allocated);
            let merged: FileRecord = FileRecord {
                first_stream: FirstStream {
                    size: SizeInfo { length: rec.first_stream.size.length, allocated: first_alloc },
                    next_entry: rec.first_stream.next_entry,
                },
                ..rec
            };
            index.records.set(record_idx, merged);
        }
        assert(first_alloc == merged_alloc(w.ix, rec));
        let ghost w1 = w.mark(record_idx as int).with_record(
            record_idx as int,
            with_alloc(rec, first_alloc),
        );
        assert(walk_of(index, self) =~= w1) by {
            assert(index.records@ =~= w1.ix.records);
            assert(index@ =~= w1.ix);
        }
        let children: Agg = if rec.stdinfo.is_directory() {
            self.aggregate_children(index, record_idx, rec.first_child, Ghost((fuel - 1) as nat))
        } else {
            Agg { length: 0, allocated: 0, treesize: 0 }
        };
        let ghost w2 = walk_of(index, self);
        assert(index@ =~= w.ix.with_records(index@.records));
        proof {
            lemma_own_streams_of_links(w.ix, index@, rec, name_info, total_names);
        }
        let (own_len, own_alloc) = Self::accumulate_own_streams(
            index,
            &rec,
            first_alloc,
            wof,
            name_info,
            total_names,
        );
        let own: Agg = Agg {
            length: own_len,
            allocated: own_alloc,
            treesize: if rec.total_stream_count == 0 {
                1
            } else {
                rec.total_stream_count as u32
            },
        };
        let result: Agg = sat_agg(children, own);
        Self::store_printed_metrics(
            index,
            record_idx,
            &children,
            rec.first_stream.size.length,
            first_alloc,
        );
        assert(walk_of(index, self) =~= w2.with_record(
            record_idx as int,
            printed(
                w2.ix.records[record_idx as int],
                children,
                rec.first_stream.size.length,
                first_alloc,
            ),
        ));
        result
    }

    /// Visits the children of a directory.
    fn aggregate_children(
        &mut self,
        index: &mut MftIndex,
        record_idx: usize,
        first_child: u32,
        Ghost(fuel): Ghost<nat>,
    ) -> (r: Agg)
        requires
            old(self).seen@.len() == old(index)@.records.len(),
            ends_inside(child_links(old(index)@), first_child),
            visit_list(
                walk_of(old(index), old(self)),
                list_of(child_links(old(index)@), first_child),
                fuel,
            ) is Some,
        ensures
            ({
                let (w, sum) = visit_list(
                    walk_of(old(index), old(self)),
                    list_of(child_links(old(index)@), first_child),
                    fuel,
                )->0;
                &&& w == walk_of(final(index), final(self))
                &&& r == close_directory(old(index)@, record_idx as int, sum)
            }),
            final(index)@ == old(index)@.with_records(final(index)@.records),
            final(index)@.records.len() == old(index)@.records.len(),
            final(self).seen@.len() == final(index)@.records.len(),
        decreases fuel, old(index)@.children.len() + 2,
    {
        let ghost ix0 = index@;
        let ghost links = child_links(ix0);
        let ghost all = list_of(links, first_child);
        let ghost w0 = walk_of(index, self);
        let mut agg: Agg = Agg { length: 0, allocated: 0, treesize: 0 };
        let mut idx: u32 = first_child;
        let ghost mut done: int = 0;
        assert(all.skip(0) =~= all);
        assert(all.take(0) =~= Seq::<int>::empty());
        assert(ix0 =~= ix0.with_records(index@.records));
        while idx != NO_ENTRY
            invariant
                links == child_links(ix0),
                all == list_of(links, first_child),
                index@ == ix0.with_records(index@.records),
                index@.records.len() == ix0.records.len(),
                self.seen@.len() == index@.records.len(),
                w0.seen.len() == w0.ix.records.len(),
                w0.ix == ix0,
                ends(links, idx),
                ends_inside(links, idx),
                0 <= done <= all.len(),
                list_of(links, idx) == all.skip(done),
                visit_list(w0, all, fuel) is Some,
                visit_list(w0, all.take(done), fuel) == Some((walk_of(index, self), agg)),
            decreases all.len() - done,
        {
            proof {
                lemma_list_unfold(links, idx);
                assert(idx < links.len());
                let rest = list_of(links, links[idx as int]);
                assert(rest.len() > 0 ==> list_of(links, idx).last() == rest.last());
                assert(list_of(links, idx)[0] == idx);
                assert(done < all.len());
                assert(all.skip(done)[0] == all[done]);
                assert(all.skip(done).drop_first() =~= all.skip(done + 1));
                assert(list_of(links, idx).drop_first() =~= rest);
                lemma_visit_list_prefix(w0, all, done + 1, fuel);
                assert(all.take(done + 1).drop_last() =~= all.take(done));
                assert(all.take(done + 1).last() == idx);
            }
            let entry = index.children[idx as usize];
            match index.frs_to_idx_opt(entry.child_frs) {
                Some(child_idx) => {
                    assert(child_idx < index.records.len());
                    let total: u32 = index.records[child_idx].name_count as u32;
                    let k: u32 = compute_name_info(entry.name_index as u32, total);
                    proof {
                        lemma_visit_frame(walk_of(index, self), child_idx as int, k, total, fuel);
                    }
                    let part: Agg = self.preprocess(index, child_idx, k, total, Ghost(fuel));
                    agg = sat_agg(agg, part);
                },
                None => {},
            }
            idx = entry.next_entry;
            proof {
                done = done + 1;
            }
            assert(index@ =~= ix0.with_records(index@.records));
        }
        proof {
            lemma_list_unfold(links, idx);
            assert(all.skip(done).len() == 0);
            assert(all.take(done) =~= all);
        }
        match index.frs_to_idx_opt(ROOT_FRS) {
            Some(root_idx) => {
                if root_idx == record_idx {
                    agg.allocated = agg.allocated.saturating_add(index.reserved_allocated_bytes);
                }
            },
            None => {},
        }
        agg
    }

    /// Stores the figures shown for a record.
    fn store_printed_metrics(
        index: &mut MftIndex,
        record_idx: usize,
        children: &Agg,
        first_len: u64,
        first_alloc: u64,
    )
        requires
            record_idx < old(index)@.records.len(),
        ensures
            final(index)@ == old(index)@.with_records(
                old(index)@.records.update(
                    record_idx as int,
                    printed(
                        old(index)@.records[record_idx as int],
                        *children,
                        first_len,
                        first_alloc,
                    ),
                ),
            ),
    {
        let rec: FileRecord = index.records[record_idx];
        let stamped: FileRecord = if rec.stdinfo.is_directory() {
            FileRecord {
                descendants: children.treesize.saturating_add(1),
                treesize: children.length.saturating_add(first_len),
                tree_allocated: children.allocated.saturating_add(first_alloc),
                ..rec
            }
        } else {
            FileRecord { descendants: 0, treesize: first_len, tree_allocated: first_alloc, ..rec }
        };
        index.records.set(record_idx, stamped);
    }
}

/// What a record passes up for its own streams does not depend on the figures
/// of other records.
proof fn lemma_own_streams_of_links(a: IndexView, b: IndexView, rec: FileRecord, k: u32, n: u32)
    requires
        b == a.with_records(b.records),
    ensures
        streams_end(a, rec) == streams_end(b, rec),
        merged_alloc(a, rec) == merged_alloc(b, rec),
        wof_stream(a, rec) == wof_stream(b, rec),
        own_length(a, rec, k, n) == own_length(b, rec, k, n),
        own_alloc(a, rec, k, n) == own_alloc(b, rec, k, n),
{
    assert(stream_links(a) =~= stream_links(b));
    assert(internal_links(a) =~= internal_links(b));
    let named = list_of(stream_links(a), rec.first_stream.next_entry);
    lemma_first_wof_of_links(a, b, named);
    let wof = wof_stream(a, rec);
    assert(named_lengths(a, named, wof) =~= named_lengths(b, named, wof));
    assert(named_allocs(a, named, wof) =~= named_allocs(b, named, wof));
    assert(internal_lengths(a, rec) =~= internal_lengths(b, rec));
    assert(internal_allocs(a, rec) =~= internal_allocs(b, rec));
}

proof fn lemma_first_wof_of_links(a: IndexView, b: IndexView, streams: Seq<int>)
    requires
        b == a.with_records(b.records),
    ensures
        first_wof(a, streams) == first_wof(b, streams),
    decreases streams.len(),
{
    if streams.len() > 0 {
        lemma_first_wof_of_links(a, b, streams.drop_first());
    }
}

proof fn lemma_share_sum_nonneg(values: Seq<u64>, k: u32, n: u32)
    ensures
        share_sum(values, k, n) >= 0,
    decreases values.len(),
{
    if values.len() > 0 {
        lemma_share_sum_nonneg(values.drop_last(), k, n);
    }
}

impl TreeTraversal {
    /// Visits the root directory and everything below it.
    fn traverse_from_root(&mut self, index: &mut MftIndex, Ghost(fuel): Ghost<nat>)
        requires
            old(self).seen@.len() == old(index)@.records.len(),
            old(index)@.position(ROOT_FRS) is Some ==> visit(
                walk_of(old(index), old(self)),
                old(index)@.position(ROOT_FRS)->0 as int,
                0,
                1,
                fuel,
            ) is Some,
        ensures
            walk_of(final(index), final(self)) == match old(index)@.position(ROOT_FRS) {
                Some(p) => (visit(
                    walk_of(old(index), old(self)),
                    p as int,
                    0,
                    1,
                    fuel,
                )->0).0,
                None => walk_of(old(index), old(self)),
            },
            final(index)@.records.len() == old(index)@.records.len(),
            final(self).seen@.len() == final(index)@.records.len(),
    {
        match index.frs_to_idx_opt(ROOT_FRS) {
            Some(root_idx) => {
                proof {
                    lemma_visit_frame(walk_of(index, self), root_idx as int, 0, 1, fuel);
                }
                self.preprocess(index, root_idx, 0, 1, Ghost(fuel));
            },
            None => {},
        }
    }

    /// Visits every record that was not visited yet.
    fn sweep_orphans(&mut self, index: &mut MftIndex, Ghost(fuel): Ghost<nat>)
        requires
            old(self).seen@.len() == old(index)@.records.len(),
            sweep(walk_of(old(index), old(self)), old(index)@.records.len(), fuel) is Some,
        ensures
            sweep(walk_of(old(index), old(self)), old(index)@.records.len(), fuel) == Some(
                walk_of(final(index), final(self)),
            ),
    {
        let ghost w0 = walk_of(index, self);
        let n: usize = index.records.len();
        let mut i: usize = 0;
        while i < n
            invariant
                i <= n,
                n == w0.ix.records.len(),
                index@.records.len() == n,
                self.seen@.len() == n,
                sweep(w0, n as nat, fuel) is Some,
                sweep(w0, i as nat, fuel) == Some(walk_of(index, self)),
            decreases n - i,
        {
            proof {
                lemma_sweep_prefix(w0, (i + 1) as nat, n as nat, fuel);
            }
            if !self.seen[i] {
                proof {
                    lemma_visit_frame(walk_of(index, self), i as int, 0, 1, fuel);
                }
                self.preprocess(index, i, 0, 1, Ghost(fuel));
            }
            i += 1;
        }
    }
}

proof fn lemma_sweep_prefix(w: Walk, m: nat, n: nat, fuel: nat)
    requires
        m <= n,
        sweep(w, n, fuel) is Some,
    ensures
        sweep(w, m, fuel) is Some,
    decreases n,
{
    if m < n {
        lemma_sweep_prefix(w, m, (n - 1) as nat, fuel);
    }
}

/// Fills in the subtree sizes and descendant counts of the records of an
/// index, from the root directory down and, unless `skip_orphans` is set, for
/// the records that cannot be reached from there.
pub fn compute_tree_metrics(index: &mut MftIndex, skip_orphans: bool)
    requires
        can_be_walked(old(index)@, skip_orphans),
    ensures
        final(index)@ == tree_metrics(old(index)@, skip_orphans),
{
    let ghost fuel = choose|fuel: nat| walk_within(index@, skip_orphans, fuel) is Some;
    let n: usize = index.records.len();
    let mut traversal: TreeTraversal = TreeTraversal { seen: vec![false; n] };
    assert(traversal.seen@ =~= Seq::new(index@.records.len(), |i: int| false));
    traversal.traverse_from_root(index, Ghost(fuel));
    if !skip_orphans {
        traversal.sweep_orphans(index, Ghost(fuel));
    }
}

/// The directories that have no descendant count, not even for themselves.
pub fn unstamped_directories(index: &MftIndex) -> (r: Vec<usize>)
    ensures
        forall|k: int| 0 <= k < r@.len() ==> (#[trigger] r@[k]) < index@.records.len(),
        forall|i: int|
            0 <= i < index@.records.len() ==> (#[trigger] r@.contains(i as usize) <==> (
            index@.records[i].stdinfo.directory && index@.records[i].descendants == 0)),
        forall|a: int, b: int| 0 <= a < b < r@.len() ==> r@[a] < r@[b],
{
    let mut out: Vec<usize> = Vec::new();
    let n: usize = index.records.len();
    let mut i: usize = 0;
    while i < n
        invariant
            i <= n,
            n == index@.records.len(),
            forall|k: int| 0 <= k < out@.len() ==> (#[trigger] out@[k]) < i,
            forall|j: int|
                0 <= j < i ==> (#[trigger] out@.contains(j as usize) <==> (
                index@.records[j].stdinfo.directory && index@.records[j].descendants == 0)),
            forall|a: int, b: int| 0 <= a < b < out@.len() ==> out@[a] < out@[b],
        decreases n - i,
    {
        let rec: &FileRecord = &index.records[i];
        let ghost before = out@;
        if rec.stdinfo.is_directory() && rec.descendants == 0 {
            out.push(i);
            assert(out@[out@.len() - 1] == i);
            assert forall|j: int| 0 <= j <= i implies (#[trigger] out@.contains(j as usize) <==> (
            index@.records[j].stdinfo.directory && index@.records[j].descendants == 0)) by {
                if j < i {
                    if before.contains(j as usize) {
                        let k = choose|k: int| 0 <= k < before.len() && before[k] == j as usize;
                        assert(out@[k] == j as usize);
                    }
                    if out@.contains(j as usize) {
                        let k = choose|k: int| 0 <= k < out@.len() && out@[k] == j as usize;
                        assert(before[k] == j as usize);
                    }
                }
            }
        }
        i += 1;
    }
    out
}

proof fn lemma_visit_more_fuel(w: Walk, i: int, k: u32, n: u32, f: nat, g: nat)
    requires
        visit(w, i, k, n, f) is Some,
        f <= g,
    ensures
        visit(w, i, k, n, g) == visit(w, i, k, n, f),
    decreases f, 0nat,
{
    if 0 <= i < w.ix.records.len() {
        let rec = w.ix.records[i];
        if rec.stdinfo.directory {
            let w1 = w.mark(i).with_record(i, with_alloc(rec, merged_alloc(w.ix, rec)));
            lemma_visit_list_more_fuel(
                w1,
                list_of(child_links(w.ix), rec.first_child),
                (f - 1) as nat,
                (g - 1) as nat,
            );
        }
    }
}

proof fn lemma_visit_list_more_fuel(w: Walk, entries: Seq<int>, f: nat, g: nat)
    requires
        visit_list(w, entries, f) is Some,
        f <= g,
    ensures
        visit_list(w, entries, g) == visit_list(w, entries, f),
    decreases f, entries.len() + 1,
{
    if entries.len() > 0 {
        lemma_visit_list_more_fuel(w, entries.drop_last(), f, g);
        let w1 = (visit_list(w, entries.drop_last(), f)->0).0;
        let entry = w1.ix.children[entries.last()];
        if let Some(p) = w1.ix.position(entry.child_frs) {
            let names = w1.ix.records[p as int].name_count as u32;
            lemma_visit_more_fuel(
                w1,
                p as int,
                name_info_of(entry.name_index as u32, names),
                names,
                f,
                g,
            );
        }
    }
}

proof fn lemma_sweep_more_fuel(w: Walk, upto: nat, f: nat, g: nat)
    requires
        sweep(w, upto, f) is Some,
        f <= g,
    ensures
        sweep(w, upto, g) == sweep(w, upto, f),
    decreases upto,
{
    if upto > 0 {
        lemma_sweep_more_fuel(w, (upto - 1) as nat, f, g);
        let w1 = sweep(w, (upto - 1) as nat, f)->0;
        if !w1.seen[upto - 1] {
            lemma_visit_more_fuel(w1, upto - 1, 0, 1, f, g);
        }
    }
}

proof fn lemma_walk_more_fuel(ix: IndexView, skip_orphans: bool, f: nat, g: nat)
    requires
        walk_within(ix, skip_orphans, f) is Some,
        f <= g,
    ensures
        walk_within(ix, skip_orphans, g) == walk_within(ix, skip_orphans, f),
{
    let start = Walk { ix, seen: Seq::new(ix.records.len(), |i: int| false) };
    if let Some(p) = ix.position(ROOT_FRS) {
        lemma_visit_more_fuel(start, p as int, 0, 1, f, g);
        if !skip_orphans {
            lemma_sweep_more_fuel(
                (visit(start, p as int, 0, 1, f)->0).0,
                ix.records.len(),
                f,
                g,
            );
        }
    } else if !skip_orphans {
        lemma_sweep_more_fuel(start, ix.records.len(), f, g);
    }
}

/// The figures do not depend on how deep a walk was allowed to go, as long as
/// it came to its end.
pub proof fn law_figures_are_unique(ix: IndexView, skip_orphans: bool, fuel: nat)
    requires
        walk_within(ix, skip_orphans, fuel) is Some,
    ensures
        can_be_walked(ix, skip_orphans),
        tree_metrics(ix, skip_orphans) == walk_within(ix, skip_orphans, fuel)->0.ix,
{
    let g = choose|g: nat| walk_within(ix, skip_orphans, g) is Some;
    if fuel <= g {
        lemma_walk_more_fuel(ix, skip_orphans, fuel, g);
    } else {
        lemma_walk_more_fuel(ix, skip_orphans, g, fuel);
    }
}

/// Two versions of a record that differ in nothing but its figures. The
/// allocated size of the unnamed stream counts as a figure only where
/// compressed data is counted to it.
pub open spec fn same_but_figures(a: FileRecord, b: FileRecord) -> bool {
    &&& a == (FileRecord {
        descendants: a.descendants,
        treesize: a.treesize,
        tree_allocated: a.tree_allocated,
        first_stream: a.first_stream,
        ..b
    })
    &&& a.first_stream.next_entry == b.first_stream.next_entry
    &&& a.first_stream.size.length == b.first_stream.size.length
    &&& a.reparse_tag != WOF_REPARSE_TAG ==> a.first_stream == b.first_stream
}

/// The figures of a record were filled in: a directory counts at least itself
/// and is at least as large as its own unnamed stream, and a file shows the
/// sizes of its own unnamed stream.
pub open spec fn stamped(rec: FileRecord) -> bool {
    if rec.stdinfo.directory {
        &&& rec.descendants >= 1
        &&& rec.treesize >= rec.first_stream.size.length
        &&& rec.reparse_tag != WOF_REPARSE_TAG ==> rec.tree_allocated
            >= rec.first_stream.size.allocated
    } else {
        &&& rec.descendants == 0
        &&& rec.treesize == rec.first_stream.size.length
        &&& rec.tree_allocated == rec.first_stream.size.allocated
    }
}

/// What a walk has done between `a` and `b`.
spec fn progress(a: Walk, b: Walk) -> bool {
    &&& b.ix.records.len() == a.ix.records.len()
    &&& b.ix == a.ix.with_records(b.ix.records)
    &&& b.seen.len() == a.seen.len()
    &&& forall|j: int|
        0 <= j < a.ix.records.len() ==> {
            &&& same_but_figures(#[trigger] b.ix.records[j], a.ix.records[j])
            &&& a.seen[j] ==> b.seen[j]
            &&& b.seen[j] && !a.seen[j] ==> stamped(b.ix.records[j])
            &&& stamped(a.ix.records[j]) ==> stamped(b.ix.records[j])
        }
}

proof fn lemma_visit_progress(w: Walk, i: int, k: u32, n: u32, fuel: nat)
    requires
        visit(w, i, k, n, fuel) is Some,
        w.seen.len() == w.ix.records.len(),
    ensures
        progress(w, (visit(w, i, k, n, fuel)->0).0),
        0 <= i < w.ix.records.len() ==> (visit(w, i, k, n, fuel)->0).0.seen[i],
    decreases fuel, 0nat,
{
    let w3 = (visit(w, i, k, n, fuel)->0).0;
    if 0 <= i < w.ix.records.len() {
        let rec = w.ix.records[i];
        let alloc = merged_alloc(w.ix, rec);
        let w1 = w.mark(i).with_record(i, with_alloc(rec, alloc));
        if rec.stdinfo.directory {
            let l = list_of(child_links(w.ix), rec.first_child);
            lemma_visit_list_progress(w1, l, (fuel - 1) as nat);
            let w2 = (visit_list(w1, l, (fuel - 1) as nat)->0).0;
            assert(same_but_figures(w2.ix.records[i], w1.ix.records[i]));
            assert forall|j: int| 0 <= j < w.ix.records.len() implies {
                &&& same_but_figures(#[trigger] w3.ix.records[j], w.ix.records[j])
                &&& w.seen[j] ==> w3.seen[j]
                &&& w3.seen[j] && !w.seen[j] ==> stamped(w3.ix.records[j])
                &&& stamped(w.ix.records[j]) ==> stamped(w3.ix.records[j])
            } by {
                assert(same_but_figures(w2.ix.records[j], w1.ix.records[j]));
                assert(w1.ix.records[j] == w1.ix.records[j]);
            }
        } else {
            assert forall|j: int| 0 <= j < w.ix.records.len() implies {
                &&& same_but_figures(#[trigger] w3.ix.records[j], w.ix.records[j])
                &&& w.seen[j] ==> w3.seen[j]
                &&& w3.seen[j] && !w.seen[j] ==> stamped(w3.ix.records[j])
                &&& stamped(w.ix.records[j]) ==> stamped(w3.ix.records[j])
            } by {}
        }
    }
    assert(w3.ix =~= w.ix.with_records(w3.ix.records));
}

proof fn lemma_visit_list_progress(w: Walk, entries: Seq<int>, fuel: nat)
    requires
        visit_list(w, entries, fuel) is Some,
        w.seen.len() == w.ix.records.len(),
    ensures
        progress(w, (visit_list(w, entries, fuel)->0).0),
    decreases fuel, entries.len() + 1,
{
    let w2 = (visit_list(w, entries, fuel)->0).0;
    if entries.len() > 0 {
        lemma_visit_list_progress(w, entries.drop_last(), fuel);
        let w1 = (visit_list(w, entries.drop_last(), fuel)->0).0;
        let entry = w1.ix.children[entries.last()];
        if let Some(p) = w1.ix.position(entry.child_frs) {
            let names = w1.ix.records[p as int].name_count as u32;
            lemma_visit_progress(
                w1,
                p as int,
                name_info_of(entry.name_index as u32, names),
                names,
                fuel,
            );
            assert forall|j: int| 0 <= j < w.ix.records.len() implies {
                &&& same_but_figures(#[trigger] w2.ix.records[j], w.ix.records[j])
                &&& w.seen[j] ==> w2.seen[j]
                &&& w2.seen[j] && !w.seen[j] ==> stamped(w2.ix.records[j])
                &&& stamped(w.ix.records[j]) ==> stamped(w2.ix.records[j])
            } by {
                assert(same_but_figures(w1.ix.records[j], w.ix.records[j]));
            }
        }
    }
    assert(w2.ix =~= w.ix.with_records(w2.ix.records));
}

proof fn lemma_sweep_progress(w: Walk, upto: nat, fuel: nat)
    requires
        sweep(w, upto, fuel) is Some,
        w.seen.len() == w.ix.records.len(),
        upto <= w.ix.records.len(),
    ensures
        progress(w, sweep(w, upto, fuel)->0),
        forall|j: int| 0 <= j < upto ==> #[trigger] (sweep(w, upto, fuel)->0).seen[j],
    decreases upto,
{
    let w2 = sweep(w, upto, fuel)->0;
    if upto > 0 {
        lemma_sweep_progress(w, (upto - 1) as nat, fuel);
        let w1 = sweep(w, (upto - 1) as nat, fuel)->0;
        if !w1.seen[upto - 1] {
            lemma_visit_progress(w1, upto - 1, 0, 1, fuel);
            assert forall|j: int| 0 <= j < w.ix.records.len() implies {
                &&& same_but_figures(#[trigger] w2.ix.records[j], w.ix.records[j])
                &&& w.seen[j] ==> w2.seen[j]
                &&& w2.seen[j] && !w.seen[j] ==> stamped(w2.ix.records[j])
                &&& stamped(w.ix.records[j]) ==> stamped(w2.ix.records[j])
            } by {
                assert(same_but_figures(w1.ix.records[j], w.ix.records[j]));
            }
            assert forall|j: int| 0 <= j < upto implies #[trigger] w2.seen[j] by {
                assert(same_but_figures(w2.ix.records[j], w1.ix.records[j]));
                if j < upto - 1 {
                    assert(w1.seen[j]);
                }
            }
        }
    }
    assert(w2.ix =~= w.ix.with_records(w2.ix.records));
}

/// Filling in the figures changes nothing else: no record comes or goes, no
/// link moves, and no record changes except in its figures.
pub proof fn law_only_figures_change(ix: IndexView, skip_orphans: bool)
    requires
        can_be_walked(ix, skip_orphans),
    ensures
        tree_metrics(ix, skip_orphans).records.len() == ix.records.len(),
        tree_metrics(ix, skip_orphans) == ix.with_records(tree_metrics(ix, skip_orphans).records),
        forall|j: int|
            0 <= j < ix.records.len() ==> same_but_figures(
                #[trigger] tree_metrics(ix, skip_orphans).records[j],
                ix.records[j],
            ),
{
    lemma_walk_progress(ix, skip_orphans);
}

/// When the records that cannot be reached from the root are visited too, no
/// record is left without figures.
pub proof fn law_every_record_is_stamped(ix: IndexView)
    requires
        can_be_walked(ix, false),
    ensures
        forall|j: int|
            0 <= j < ix.records.len() ==> stamped(#[trigger] tree_metrics(ix, false).records[j]),
{
    lemma_walk_progress(ix, false);
}

proof fn lemma_walk_progress(ix: IndexView, skip_orphans: bool)
    requires
        can_be_walked(ix, skip_orphans),
    ensures
        ({
            let out = tree_metrics(ix, skip_orphans);
            &&& out.records.len() == ix.records.len()
            &&& out == ix.with_records(out.records)
            &&& forall|j: int|
                0 <= j < ix.records.len() ==> {
                    &&& same_but_figures(#[trigger] out.records[j], ix.records[j])
                    &&& !skip_orphans ==> stamped(out.records[j])
                }
        }),
{
    let fuel = choose|fuel: nat| walk_within(ix, skip_orphans, fuel) is Some;
    let start = Walk { ix, seen: Seq::new(ix.records.len(), |i: int| false) };
    let out = tree_metrics(ix, skip_orphans);
    let rooted = match ix.position(ROOT_FRS) {
        Some(p) => {
            lemma_visit_progress(start, p as int, 0, 1, fuel);
            (visit(start, p as int, 0, 1, fuel)->0).0
        },
        None => start,
    };
    assert(start.ix =~= start.ix.with_records(start.ix.records));
    assert(progress(start, rooted));
    if !skip_orphans {
        lemma_sweep_progress(rooted, ix.records.len(), fuel);
        let last = sweep(rooted, ix.records.len(), fuel)->0;
        assert forall|j: int| 0 <= j < ix.records.len() implies {
            &&& same_but_figures(#[trigger] out.records[j], ix.records[j])
            &&& stamped(out.records[j])
        } by {
            assert(last.seen[j]);
            assert(same_but_figures(rooted.ix.records[j], start.ix.records[j]));
            assert(same_but_figures(last.ix.records[j], rooted.ix.records[j]));
        }
        assert(out =~= ix.with_records(out.records));
    }
}

/// What the volume holds back is counted to the root directory alone: of two
/// directories without children, it shows in the one that is the root.
pub proof fn law_only_the_root_counts_reserved_bytes(w: Walk, i: int, k: u32, n: u32, fuel: nat)
    requires
        visit(w, i, k, n, fuel) is Some,
        0 <= i < w.ix.records.len(),
        w.ix.records[i].stdinfo.directory,
        w.ix.records[i].first_child == NO_ENTRY,
    ensures
        ({
            let alloc = merged_alloc(w.ix, w.ix.records[i]);
            (visit(w, i, k, n, fuel)->0).0.ix.records[i].tree_allocated == if (w.ix.position(
                ROOT_FRS,
            ) matches Some(root) && root == i) {
                clip64(w.ix.reserved_allocated_bytes + alloc)
            } else {
                alloc
            }
        }),
{
    assert(list_within(child_links(w.ix), NO_ENTRY, 0) is Some);
    lemma_list_unfold(child_links(w.ix), NO_ENTRY);
}

/// The sum of several values.
pub open spec fn total(values: Seq<u64>) -> int
    decreases values.len(),
{
    if values.len() == 0 {
        0
    } else {
        total(values.drop_last()) + values.last()
    }
}

/// What the names `0..upto` of a record pass up of several values, together.
pub open spec fn passed_up(values: Seq<u64>, total_names: u32, upto: nat) -> int
    decreases upto,
{
    if upto == 0 {
        0
    } else {
        passed_up(values, total_names, (upto - 1) as nat) + share_sum(
            values,
            (upto - 1) as u32,
            total_names,
        )
    }
}

proof fn lemma_passed_up_splits(values: Seq<u64>, total_names: u32, upto: nat)
    requires
        values.len() > 0,
    ensures
        passed_up(values, total_names, upto) == passed_up(values.drop_last(), total_names, upto)
            + shares_upto(values.last(), total_names, upto),
    decreases upto,
{
    if upto > 0 {
        lemma_passed_up_splits(values, total_names, (upto - 1) as nat);
    }
}

/// A record with several names counts once: what its names pass up to their
/// directories adds up to the sizes of its streams.
pub proof fn law_hard_links_count_once(values: Seq<u64>, total_names: u32)
    requires
        total_names >= 1,
    ensures
        passed_up(values, total_names, total_names as nat) == total(values),
    decreases values.len(),
{
    if values.len() == 0 {
        lemma_passed_up_nothing(values, total_names, total_names as nat);
    } else {
        law_hard_links_count_once(values.drop_last(), total_names);
        lemma_passed_up_splits(values, total_names, total_names as nat);
        law_shares_add_up(values.last(), total_names);
    }
}

proof fn lemma_passed_up_nothing(values: Seq<u64>, total_names: u32, upto: nat)
    requires
        values.len() == 0,
    ensures
        passed_up(values, total_names, upto) == 0,
    decreases upto,
{
    if upto > 0 {
        lemma_passed_up_nothing(values, total_names, (upto - 1) as nat);
    }
}

} // verus!
