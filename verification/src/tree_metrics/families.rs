//! What a directory shows of its children, written out from the arrays of an
//! index.

use super::Walk;
use crate::index::{FileRecord, IndexView, NO_ENTRY};
use vstd::prelude::*;

verus! {

/// The named streams at `at` are those of the list from `head` on: each names
/// the next one, and the last one names none, or none that there is.
pub open spec fn streams_from(ix: IndexView, head: u32, at: Seq<int>) -> bool
    decreases at.len(),
{
    if at.len() == 0 {
        head == 0xFFFF_FFFF || head >= ix.streams.len()
    } else {
        &&& head == at[0]
        &&& head != 0xFFFF_FFFF
        &&& head < ix.streams.len()
        &&& streams_from(ix, ix.streams[head as int].next_entry, at.drop_first())
    }
}

/// The internal streams at `at` are those of the list from `head` on.
pub open spec fn internals_from(ix: IndexView, head: u32, at: Seq<int>) -> bool
    decreases at.len(),
{
    if at.len() == 0 {
        head == 0xFFFF_FFFF || head >= ix.internal_streams.len()
    } else {
        &&& head == at[0]
        &&& head != 0xFFFF_FFFF
        &&& head < ix.internal_streams.len()
        &&& internals_from(ix, ix.internal_streams[head as int].next_entry, at.drop_first())
    }
}

/// The child entries at `at` are those of the list from `head` on.
pub open spec fn children_from(ix: IndexView, head: u32, at: Seq<int>) -> bool
    decreases at.len(),
{
    if at.len() == 0 {
        head == 0xFFFF_FFFF
    } else {
        &&& head == at[0]
        &&& head != 0xFFFF_FFFF
        &&& head < ix.children.len()
        &&& children_from(ix, ix.children[head as int].next_entry, at.drop_first())
    }
}

/// The index has the internal streams of a record one by one.
pub open spec fn lists_internals(ix: IndexView, rec: FileRecord) -> bool {
    rec.first_internal_stream != 0xFFFF_FFFF && ix.internal_streams.len() > 0
}

/// Where the streams of a record stand.
pub open spec fn has_streams(
    ix: IndexView,
    rec: FileRecord,
    named: Seq<int>,
    internal: Seq<int>,
) -> bool {
    &&& streams_from(ix, rec.first_stream.next_entry, named)
    &&& lists_internals(ix, rec) ==> internals_from(ix, rec.first_internal_stream, internal)
}

/// The shares that name `k` of `n` has of the lengths of some named streams,
/// without the one at `besides`.
pub open spec fn named_length(ix: IndexView, at: Seq<int>, besides: int, k: u32, n: u32) -> int
    decreases at.len(),
{
    if at.len() == 0 {
        0
    } else if at.last() == besides {
        named_length(ix, at.drop_last(), besides, k, n)
    } else {
        named_length(ix, at.drop_last(), besides, k, n) + super::share(
            ix.streams[at.last()].size.length,
            k,
            n,
        )
    }
}

/// The shares that name `k` of `n` has of the space of some named streams,
/// without the one at `besides`.
pub open spec fn named_space(ix: IndexView, at: Seq<int>, besides: int, k: u32, n: u32) -> int
    decreases at.len(),
{
    if at.len() == 0 {
        0
    } else if at.last() == besides {
        named_space(ix, at.drop_last(), besides, k, n)
    } else {
        named_space(ix, at.drop_last(), besides, k, n) + super::share(
            ix.streams[at.last()].size.allocated,
            k,
            n,
        )
    }
}

/// The shares that name `k` of `n` has of the lengths of some internal streams.
pub open spec fn listed_length(ix: IndexView, at: Seq<int>, k: u32, n: u32) -> int
    decreases at.len(),
{
    if at.len() == 0 {
        0
    } else {
        listed_length(ix, at.drop_last(), k, n) + super::share(
            ix.internal_streams[at.last()].size.length,
            k,
            n,
        )
    }
}

/// The shares that name `k` of `n` has of the space of some internal streams.
pub open spec fn listed_space(ix: IndexView, at: Seq<int>, k: u32, n: u32) -> int
    decreases at.len(),
{
    if at.len() == 0 {
        0
    } else {
        listed_space(ix, at.drop_last(), k, n) + super::share(
            ix.internal_streams[at.last()].size.allocated,
            k,
            n,
        )
    }
}

/// The shares that name `k` of `n` has of the lengths of a record's internal
/// streams: of each, or of their sum where the index has no more than that.
pub open spec fn internal_length(
    ix: IndexView,
    rec: FileRecord,
    at: Seq<int>,
    k: u32,
    n: u32,
) -> int {
    if lists_internals(ix, rec) {
        listed_length(ix, at, k, n)
    } else {
        super::share(rec.internal_streams_size, k, n) as int
    }
}

/// The shares that name `k` of `n` has of the space of a record's internal
/// streams: of each, or of their sum where the index has no more than that.
pub open spec fn internal_space(
    ix: IndexView,
    rec: FileRecord,
    at: Seq<int>,
    k: u32,
    n: u32,
) -> int {
    if lists_internals(ix, rec) {
        listed_space(ix, at, k, n)
    } else {
        super::share(rec.internal_streams_allocated, k, n) as int
    }
}

proof fn lemma_streams_list(ix: IndexView, head: u32, at: Seq<int>)
    requires
        streams_from(ix, head, at),
    ensures
        super::ends(super::stream_links(ix), head),
        super::list_of(super::stream_links(ix), head) == at,
        forall|j: int| 0 <= j < at.len() ==> 0 <= #[trigger] at[j] < NO_ENTRY,
    decreases at.len(),
{
    let next = super::stream_links(ix);
    if at.len() == 0 {
        assert(super::list_within(next, head, 0) is Some);
        super::lemma_list_unfold(next, head);
    } else {
        let rest = at.drop_first();
        let h2 = next[head as int];
        lemma_streams_list(ix, h2, rest);
        lemma_one_more(next, head, rest);
        assert(at =~= seq![head as int] + rest);
        assert forall|j: int| 0 <= j < at.len() implies 0 <= #[trigger] at[j] < NO_ENTRY by {
            if j > 0 {
                assert(at[j] == rest[j - 1]);
            }
        }
    }
}

proof fn lemma_internals_list(ix: IndexView, head: u32, at: Seq<int>)
    requires
        internals_from(ix, head, at),
    ensures
        super::ends(super::internal_links(ix), head),
        super::list_of(super::internal_links(ix), head) == at,
    decreases at.len(),
{
    let next = super::internal_links(ix);
    if at.len() == 0 {
        assert(super::list_within(next, head, 0) is Some);
        super::lemma_list_unfold(next, head);
    } else {
        let rest = at.drop_first();
        lemma_internals_list(ix, next[head as int], rest);
        lemma_one_more(next, head, rest);
        assert(at =~= seq![head as int] + rest);
    }
}

proof fn lemma_children_list(ix: IndexView, head: u32, at: Seq<int>)
    requires
        children_from(ix, head, at),
    ensures
        super::ends(super::child_links(ix), head),
        super::list_of(super::child_links(ix), head) == at,
        super::ends_inside(super::child_links(ix), head),
    decreases at.len(),
{
    let next = super::child_links(ix);
    if at.len() == 0 {
        assert(super::list_within(next, head, 0) is Some);
        super::lemma_list_unfold(next, head);
    } else {
        let rest = at.drop_first();
        lemma_children_list(ix, next[head as int], rest);
        lemma_one_more(next, head, rest);
        assert(at =~= seq![head as int] + rest);
    }
}

proof fn lemma_one_more(next: Seq<u32>, head: u32, rest: Seq<int>)
    requires
        head != NO_ENTRY,
        head < next.len(),
        super::ends(next, next[head as int]),
        super::list_of(next, next[head as int]) == rest,
    ensures
        super::ends(next, head),
        super::ends_inside(next, next[head as int]) ==> super::ends_inside(next, head),
        super::list_of(next, head) == seq![head as int] + rest,
{
    let f = choose|fuel: nat| super::list_within(next, next[head as int], fuel) is Some;
    assert(super::list_within(next, head, f + 1) is Some);
    super::lemma_list_unfold(next, head);
    let l = super::list_of(next, head);
    if rest.len() > 0 {
        assert(l.last() == rest.last());
    } else {
        assert(l.last() == head as int);
    }
}

proof fn lemma_named_sums(ix: IndexView, at: Seq<int>, wof: u32, besides: int, k: u32, n: u32)
    requires
        forall|j: int| 0 <= j < at.len() ==> 0 <= #[trigger] at[j] < NO_ENTRY,
        besides == wof || (wof == NO_ENTRY && besides < 0),
    ensures
        super::share_sum(super::named_lengths(ix, at, wof), k, n) == named_length(
            ix,
            at,
            besides,
            k,
            n,
        ),
        super::share_sum(super::named_allocs(ix, at, wof), k, n) == named_space(
            ix,
            at,
            besides,
            k,
            n,
        ),
    decreases at.len(),
{
    if at.len() > 0 {
        let front = at.drop_last();
        assert forall|j: int| 0 <= j < front.len() implies 0 <= #[trigger] front[j] < NO_ENTRY by {
            assert(0 <= at[j] < NO_ENTRY);
        }
        lemma_named_sums(ix, front, wof, besides, k, n);
        assert(super::named_lengths(ix, at, wof).drop_last() =~= super::named_lengths(
            ix,
            front,
            wof,
        ));
        assert(super::named_allocs(ix, at, wof).drop_last() =~= super::named_allocs(
            ix,
            front,
            wof,
        ));
        assert(0 <= at[at.len() - 1] < NO_ENTRY);
        lemma_share_of_nothing(k, n);
    }
}

proof fn lemma_share_of_nothing(k: u32, n: u32)
    ensures
        super::share(0, k, n) == 0,
{
    if n > 1 {
        let value: int = 0;
        let i = k as int;
        let m = n as int;
        assert(value * (i + 1) / m == 0 && value * i / m == 0) by (nonlinear_arith)
            requires
                value == 0,
                m > 1,
        ;
    }
}

proof fn lemma_internal_sums(ix: IndexView, at: Seq<int>, k: u32, n: u32)
    ensures
        super::share_sum(super::lengths_at(ix, at), k, n) == listed_length(ix, at, k, n),
        super::share_sum(super::allocs_at(ix, at), k, n) == listed_space(ix, at, k, n),
    decreases at.len(),
{
    if at.len() > 0 {
        let front = at.drop_last();
        lemma_internal_sums(ix, front, k, n);
        assert(super::lengths_at(ix, at).drop_last() =~= super::lengths_at(ix, front));
        assert(super::allocs_at(ix, at).drop_last() =~= super::allocs_at(ix, front));
    }
}

proof fn lemma_own_parts(
    ix: IndexView,
    rec: FileRecord,
    named: Seq<int>,
    internal: Seq<int>,
    besides: int,
    k: u32,
    n: u32,
)
    requires
        has_streams(ix, rec, named, internal),
        besides == super::wof_stream(ix, rec) || (super::wof_stream(ix, rec) == NO_ENTRY && besides
            < 0),
    ensures
        super::list_of(super::stream_links(ix), rec.first_stream.next_entry) == named,
        super::share_sum(super::internal_lengths(ix, rec), k, n) == internal_length(
            ix,
            rec,
            internal,
            k,
            n,
        ),
        super::share_sum(super::internal_allocs(ix, rec), k, n) == internal_space(
            ix,
            rec,
            internal,
            k,
            n,
        ),
        super::share_sum(
            super::named_lengths(ix, named, super::wof_stream(ix, rec)),
            k,
            n,
        ) == named_length(ix, named, besides, k, n),
        super::share_sum(super::named_allocs(ix, named, super::wof_stream(ix, rec)), k, n)
            == named_space(ix, named, besides, k, n),
{
    lemma_streams_list(ix, rec.first_stream.next_entry, named);
    lemma_named_sums(ix, named, super::wof_stream(ix, rec), besides, k, n);
    lemma_internal_sums(ix, internal, k, n);
    if lists_internals(ix, rec) {
        lemma_internals_list(ix, rec.first_internal_stream, internal);
    } else {
        let a = seq![rec.internal_streams_size];
        let b = seq![rec.internal_streams_allocated];
        reveal_with_fuel(super::share_sum, 2);
        assert(a.drop_last() =~= Seq::<u64>::empty());
        assert(b.drop_last() =~= Seq::<u64>::empty());
    }
}

/// An entry of a directory, the record that it leads to, and where the streams
/// of that record stand.
#[verifier::ext_equal]
pub struct Child {
    pub entry: int,
    pub record: int,
    pub named: Seq<int>,
    pub internal: Seq<int>,
}

impl Child {
    /// The entry leads to the record, and the streams of the record stand there.
    pub open spec fn stands(self, ix: IndexView) -> bool {
        let frs = ix.children[self.entry].child_frs;
        &&& 0 <= self.record < ix.records.len()
        &&& self.record < 0xFFFF_FFFF
        &&& frs < ix.frs_to_idx.len()
        &&& ix.frs_to_idx[frs as int] == self.record
        &&& has_streams(ix, ix.records[self.record], self.named, self.internal)
    }

    /// The entry leads to no record of the index.
    pub open spec fn missing(self, ix: IndexView) -> bool {
        let frs = ix.children[self.entry].child_frs;
        frs >= ix.frs_to_idx.len() || ix.frs_to_idx[frs as int] == 0xFFFF_FFFF
    }

    /// How many names the record has; one without a name counts as one with one.
    pub open spec fn names(self, ix: IndexView) -> u32 {
        if ix.records[self.record].name_count == 0 {
            1
        } else {
            ix.records[self.record].name_count as u32
        }
    }

    /// The number of the entry's name, counted from the last one.
    pub open spec fn number(self, ix: IndexView) -> u32 {
        let names = self.names(ix);
        let name = ix.children[self.entry].name_index;
        if name < names {
            (names - 1 - name) as u32
        } else {
            0
        }
    }

    /// The lengths of the record's own streams that count to the directory.
    pub open spec fn own_length(self, ix: IndexView) -> int {
        let rec = ix.records[self.record];
        let k = self.number(ix);
        let n = self.names(ix);
        super::share(rec.first_stream.size.length, k, n) + internal_length(
            ix,
            rec,
            self.internal,
            k,
            n,
        ) + named_length(ix, self.named, -1, k, n)
    }

    /// The space of the record's own streams that counts to the directory.
    pub open spec fn own_space(self, ix: IndexView) -> int {
        let rec = ix.records[self.record];
        let k = self.number(ix);
        let n = self.names(ix);
        super::share(rec.first_stream.size.allocated, k, n) + internal_space(
            ix,
            rec,
            self.internal,
            k,
            n,
        ) + named_space(ix, self.named, -1, k, n)
    }

    /// The streams of the record; at least one.
    pub open spec fn own_streams(self, ix: IndexView) -> int {
        if ix.records[self.record].total_stream_count == 0 {
            1
        } else {
            ix.records[self.record].total_stream_count as int
        }
    }

    /// The length that the record counts to the directory: that of its own
    /// streams, and what it shows besides its own size if it is a directory.
    pub open spec fn length(self, ix: IndexView, shown: Seq<FileRecord>) -> int {
        if self.missing(ix) {
            0
        } else {
            self.own_length(ix) + if ix.records[self.record].stdinfo.directory {
                shown[self.record].treesize - ix.records[self.record].first_stream.size.length
            } else {
                0
            }
        }
    }

    /// The space that the record counts to the directory.
    pub open spec fn space(self, ix: IndexView, shown: Seq<FileRecord>) -> int {
        if self.missing(ix) {
            0
        } else {
            self.own_space(ix) + if ix.records[self.record].stdinfo.directory {
                shown[self.record].tree_allocated - ix.records[self.record].first_stream.size.allocated
            } else {
                0
            }
        }
    }

    /// The streams that the record counts to the directory.
    pub open spec fn streams(self, ix: IndexView, shown: Seq<FileRecord>) -> int {
        if self.missing(ix) {
            0
        } else {
            self.own_streams(ix) + if ix.records[self.record].stdinfo.directory {
                shown[self.record].descendants - 1
            } else {
                0
            }
        }
    }

    /// The figures of the record are not cut off at the largest number.
    pub open spec fn uncut(self, shown: Seq<FileRecord>) -> bool {
        &&& shown[self.record].treesize < u64::MAX
        &&& shown[self.record].tree_allocated < u64::MAX
        &&& shown[self.record].descendants < u32::MAX
    }

    /// The record as it appears below the directory.
    spec fn link(self, ix: IndexView) -> super::totals::Link {
        super::totals::link_of(ix, self.entry, self.record)
    }
}

/// The lengths that some children count to their directory, together.
pub open spec fn total_length(
    ix: IndexView,
    shown: Seq<FileRecord>,
    children: Seq<Child>,
) -> int
    decreases children.len(),
{
    if children.len() == 0 {
        0
    } else {
        total_length(ix, shown, children.drop_last()) + children.last().length(ix, shown)
    }
}

/// The space that some children count to their directory, together.
pub open spec fn total_space(ix: IndexView, shown: Seq<FileRecord>, children: Seq<Child>) -> int
    decreases children.len(),
{
    if children.len() == 0 {
        0
    } else {
        total_space(ix, shown, children.drop_last()) + children.last().space(ix, shown)
    }
}

/// The streams that some children count to their directory, together.
pub open spec fn total_streams(
    ix: IndexView,
    shown: Seq<FileRecord>,
    children: Seq<Child>,
) -> int
    decreases children.len(),
{
    if children.len() == 0 {
        0
    } else {
        total_streams(ix, shown, children.drop_last()) + children.last().streams(ix, shown)
    }
}

/// The entries of some children.
pub open spec fn entries(children: Seq<Child>) -> Seq<int> {
    Seq::new(children.len(), |i: int| children[i].entry)
}

/// No record of the index keeps its data compressed in a named stream.
pub open spec fn nothing_compressed(ix: IndexView) -> bool {
    forall|j: int|
        0 <= j < ix.records.len() ==> (#[trigger] ix.records[j]).reparse_tag != 0x8000_0017
}

/// What the volume holds back, for the record with number 5, which is the root
/// directory.
pub open spec fn held_back(ix: IndexView, i: int) -> int {
    if 5 < ix.frs_to_idx.len() && ix.frs_to_idx[5] == i && i != 0xFFFF_FFFF {
        ix.reserved_allocated_bytes as int
    } else {
        0
    }
}

proof fn lemma_child_parts(ix: IndexView, c: Child)
    requires
        c.stands(ix),
        nothing_compressed(ix),
    ensures
        super::soundness::child_at(ix, c.entry) == Some(c.record as u32),
        super::share_sum(
            super::totals::lengths_of(ix, ix.records[c.record]),
            c.link(ix).name,
            c.link(ix).names,
        ) == c.own_length(ix),
        super::share_sum(
            super::totals::allocs_of(ix, ix.records[c.record]),
            c.link(ix).name,
            c.link(ix).names,
        ) == c.own_space(ix),
        super::totals::streams_of(ix.records[c.record]) == c.own_streams(ix),
{
    let rec = ix.records[c.record];
    let k = c.number(ix);
    let n = c.names(ix);
    assert(rec.reparse_tag != 0x8000_0017);
    lemma_own_parts(ix, rec, c.named, c.internal, -1, k, n);
    let first = seq![rec.first_stream.size.length];
    let space = seq![rec.first_stream.size.allocated];
    reveal_with_fuel(super::share_sum, 2);
    assert(first.drop_last() =~= Seq::<u64>::empty());
    assert(space.drop_last() =~= Seq::<u64>::empty());
    super::totals::lemma_share_sum_concat(
        first + super::internal_lengths(ix, rec),
        super::named_lengths(ix, c.named, NO_ENTRY),
        k,
        n,
    );
    super::totals::lemma_share_sum_concat(first, super::internal_lengths(ix, rec), k, n);
    super::totals::lemma_share_sum_concat(
        space + super::internal_allocs(ix, rec),
        super::named_allocs(ix, c.named, NO_ENTRY),
        k,
        n,
    );
    super::totals::lemma_share_sum_concat(space, super::internal_allocs(ix, rec), k, n);
}

/// The entry leads to no record, or to one with its figures.
spec fn settled(ix: IndexView, shown: Seq<FileRecord>, c: Child, fuel: nat) -> bool {
    c.missing(ix) || (c.stands(ix) && c.uncut(shown) && super::soundness::sound(ix, c.record, fuel)
        && super::totals::has_figures(ix, shown[c.record], c.record, fuel))
}

proof fn lemma_children_totals(
    ix: IndexView,
    shown: Seq<FileRecord>,
    children: Seq<Child>,
    fuel: nat,
)
    requires
        nothing_compressed(ix),
        super::repeat::nothing_to_merge(ix),
        forall|c: int|
            0 <= c < children.len() ==> settled(ix, shown, #[trigger] children[c], fuel),
    ensures
        super::totals::length_of_links(
            ix,
            super::totals::below_entries(ix, entries(children), fuel),
        ) == total_length(ix, shown, children),
        super::totals::alloc_of_links(
            ix,
            super::totals::below_entries(ix, entries(children), fuel),
        ) + super::totals::reserved_of_links(
            ix,
            super::totals::below_entries(ix, entries(children), fuel),
        ) == total_space(ix, shown, children),
        super::totals::streams_of_links(
            ix,
            super::totals::below_entries(ix, entries(children), fuel),
        ) == total_streams(ix, shown, children),
    decreases children.len(),
{
    if children.len() > 0 {
        let front = children.drop_last();
        let c = children[children.len() - 1];
        let at = entries(children);
        assert(at.drop_last() =~= entries(front));
        assert(at.last() == c.entry);
        assert forall|d: int| 0 <= d < front.len() implies settled(
            ix,
            shown,
            #[trigger] front[d],
            fuel,
        ) by {
            assert(settled(ix, shown, children[d], fuel));
        }
        lemma_children_totals(ix, shown, front, fuel);
        assert(settled(ix, shown, c, fuel));
        if !c.missing(ix) {
            lemma_child_parts(ix, c);
            let before = super::totals::below_entries(ix, entries(front), fuel);
            let deep = super::totals::below(ix, c.record, fuel);
            let one = seq![c.link(ix)];
            super::totals::lemma_sums_concat(ix, before + deep, one);
            super::totals::lemma_sums_concat(ix, before, deep);
            super::totals::lemma_sums_nonneg(ix, deep);
            reveal_with_fuel(super::totals::length_of_links, 2);
            reveal_with_fuel(super::totals::alloc_of_links, 2);
            reveal_with_fuel(super::totals::reserved_of_links, 2);
            reveal_with_fuel(super::totals::streams_of_links, 2);
            assert(one.drop_last() =~= Seq::<super::totals::Link>::empty());
            assert(super::totals::has_figures(ix, shown[c.record], c.record, fuel));
            if !ix.records[c.record].stdinfo.directory {
                assert(deep =~= Seq::<super::totals::Link>::empty());
            }
        }
    }
}

/// What a directory shows: its own size, and for each of its entries the length,
/// space and streams that the record there counts to it. A file counts its
/// unnamed stream, its internal streams and every named one, or the share of
/// the entry's name in each of them; a directory counts what it shows besides.
/// The root directory also counts what the volume holds back, and every
/// directory itself. An entry that leads nowhere counts nothing.
#[verifier::spinoff_prover]
#[verifier::rlimit(40)]
pub proof fn law_directories_count_their_children(ix: IndexView, d: int, children: Seq<Child>)
    requires
        super::can_be_walked(ix, false),
        nothing_compressed(ix),
        0 <= d < ix.records.len(),
        ix.records[d].stdinfo.directory,
        children_from(ix, ix.records[d].first_child, entries(children)),
        forall|c: int|
            0 <= c < children.len() ==> (#[trigger] children[c]).missing(ix) || (
            children[c].stands(ix) && children[c].uncut(super::tree_metrics(ix, false).records)),
    ensures
        ({
            let shown = super::tree_metrics(ix, false).records;
            let own = ix.records[d].first_stream.size;
            let length = own.length + total_length(ix, shown, children);
            let space = own.allocated + held_back(ix, d) + total_space(ix, shown, children);
            let count = 1 + total_streams(ix, shown, children);
            &&& length <= u64::MAX ==> shown[d].treesize == length
            &&& length > u64::MAX ==> shown[d].treesize == u64::MAX
            &&& space <= u64::MAX ==> shown[d].tree_allocated == space
            &&& space > u64::MAX ==> shown[d].tree_allocated == u64::MAX
            &&& count <= u32::MAX ==> shown[d].descendants == count
            &&& count > u32::MAX ==> shown[d].descendants == u32::MAX
        }),
{
    super::soundness::law_walks_end_where_records_are_sound(ix, false);
    let fuel = choose|fuel: nat| super::soundness::all_sound(ix, fuel);
    let shown = super::tree_metrics(ix, false).records;
    super::totals::law_figures_are_totals(ix, fuel);
    assert(super::soundness::sound(ix, d, fuel));
    super::soundness::lemma_sound_unfold(ix, d, fuel);
    lemma_children_list(ix, ix.records[d].first_child, entries(children));
    let deeper = (fuel - 1) as nat;
    assert(super::totals::entries_of(ix, d) == entries(children));
    assert forall|c: int| 0 <= c < children.len() implies settled(
        ix,
        shown,
        #[trigger] children[c],
        deeper,
    ) by {
        let child = children[c];
        assert(child.missing(ix) || (child.stands(ix) && child.uncut(shown)));
        if !child.missing(ix) {
            assert(super::soundness::sound_child(ix, entries(children)[c], deeper));
            assert(super::soundness::child_at(ix, child.entry) == Some(child.record as u32));
            super::totals::lemma_below_more_fuel(ix, child.record, deeper, fuel);
            assert(super::totals::has_figures(ix, shown[child.record], child.record, fuel));
        }
    }
    lemma_children_totals(ix, shown, children, deeper);
    assert(super::totals::has_figures(ix, shown[d], d, fuel));
    super::totals::lemma_sums_nonneg(ix, super::totals::below(ix, d, fuel));
}

/// A directory with a single entry, of a file with a single name, shows its own
/// size and all of the file: the unnamed stream, the internal streams and every
/// named stream.
#[verifier::spinoff_prover]
#[verifier::rlimit(40)]
pub proof fn law_lone_files_count_in_full(
    ix: IndexView,
    d: int,
    entry: u32,
    file: u32,
    named: Seq<int>,
    internal: Seq<int>,
)
    requires
        super::can_be_walked(ix, false),
        nothing_compressed(ix),
        0 <= d < ix.records.len(),
        ix.records[d].stdinfo.directory,
        ix.records[d].first_child == entry,
        entry < ix.children.len(),
        entry != 0xFFFF_FFFF,
        ix.children[entry as int].next_entry == 0xFFFF_FFFF,
        ix.children[entry as int].child_frs < ix.frs_to_idx.len(),
        ix.frs_to_idx[ix.children[entry as int].child_frs as int] == file,
        file < ix.records.len(),
        file != 0xFFFF_FFFF,
        !ix.records[file as int].stdinfo.directory,
        ix.records[file as int].name_count <= 1,
        has_streams(ix, ix.records[file as int], named, internal),
    ensures
        ({
            let shown = super::tree_metrics(ix, false).records;
            let rec = ix.records[file as int];
            let own = ix.records[d].first_stream.size;
            let length = own.length + rec.first_stream.size.length + plain_internal_length(
                ix,
                rec,
                internal,
            ) + plain_length(ix, named);
            let space = own.allocated + held_back(ix, d) + rec.first_stream.size.allocated
                + plain_internal_space(ix, rec, internal) + plain_space(ix, named);
            &&& shown[d].treesize == if length > u64::MAX {
                u64::MAX as int
            } else {
                length
            }
            &&& shown[d].tree_allocated == if space > u64::MAX {
                u64::MAX as int
            } else {
                space
            }
            &&& shown[d].descendants == if rec.total_stream_count == 0 {
                2
            } else {
                1 + rec.total_stream_count
            }
            &&& shown[file as int].treesize == rec.first_stream.size.length
            &&& shown[file as int].tree_allocated == rec.first_stream.size.allocated
            &&& shown[file as int].descendants == 0
        }),
{
    let c = Child { entry: entry as int, record: file as int, named, internal };
    let children = seq![c];
    let at = entries(children);
    let rec = ix.records[file as int];
    let shown = super::tree_metrics(ix, false).records;
    super::soundness::law_walks_end_where_records_are_sound(ix, false);
    let fuel = choose|fuel: nat| super::soundness::all_sound(ix, fuel);
    super::totals::law_figures_are_totals(ix, fuel);
    assert(super::soundness::sound(ix, d, fuel));
    super::soundness::lemma_sound_unfold(ix, d, fuel);
    assert(at =~= seq![entry as int]);
    assert(at.drop_first() =~= Seq::<int>::empty());
    reveal_with_fuel(children_from, 2);
    lemma_children_list(ix, entry, at);
    assert(super::totals::has_figures(ix, shown[file as int], file as int, fuel));
    assert(super::totals::has_figures(ix, shown[d], d, fuel));
    let deeper = (fuel - 1) as nat;
    lemma_child_parts(ix, c);
    lemma_streams_list(ix, rec.first_stream.next_entry, named);
    let none = Seq::<super::totals::Link>::empty();
    assert(at.drop_last() =~= Seq::<int>::empty());
    assert(at.last() == c.entry);
    assert(super::totals::entries_of(ix, d) == at);
    assert(super::totals::below_entries(ix, Seq::<int>::empty(), deeper) =~= none);
    assert(super::totals::below(ix, c.record, deeper) =~= none);
    let links = super::totals::below(ix, d, fuel);
    assert(links == none + none + seq![c.link(ix)]);
    assert(links =~= seq![c.link(ix)]);
    assert(links.drop_last() =~= Seq::<super::totals::Link>::empty());
    reveal_with_fuel(super::totals::length_of_links, 2);
    reveal_with_fuel(super::totals::alloc_of_links, 2);
    reveal_with_fuel(super::totals::reserved_of_links, 2);
    reveal_with_fuel(super::totals::streams_of_links, 2);
    super::totals::lemma_sums_nonneg(ix, links);
    lemma_plain(ix, named, internal, c.number(ix), c.names(ix));
}

/// The lengths of some named streams, together.
pub open spec fn plain_length(ix: IndexView, at: Seq<int>) -> int
    decreases at.len(),
{
    if at.len() == 0 {
        0
    } else {
        plain_length(ix, at.drop_last()) + ix.streams[at.last()].size.length
    }
}

/// The space of some named streams, together.
pub open spec fn plain_space(ix: IndexView, at: Seq<int>) -> int
    decreases at.len(),
{
    if at.len() == 0 {
        0
    } else {
        plain_space(ix, at.drop_last()) + ix.streams[at.last()].size.allocated
    }
}

/// The lengths of a record's internal streams, together.
pub open spec fn plain_internal_length(ix: IndexView, rec: FileRecord, at: Seq<int>) -> int
    decreases at.len(),
{
    if !lists_internals(ix, rec) {
        rec.internal_streams_size as int
    } else if at.len() == 0 {
        0
    } else {
        plain_internal_length(ix, rec, at.drop_last())
            + ix.internal_streams[at.last()].size.length
    }
}

/// The space of a record's internal streams, together.
pub open spec fn plain_internal_space(ix: IndexView, rec: FileRecord, at: Seq<int>) -> int
    decreases at.len(),
{
    if !lists_internals(ix, rec) {
        rec.internal_streams_allocated as int
    } else if at.len() == 0 {
        0
    } else {
        plain_internal_space(ix, rec, at.drop_last())
            + ix.internal_streams[at.last()].size.allocated
    }
}

proof fn lemma_plain(ix: IndexView, named: Seq<int>, internal: Seq<int>, k: u32, n: u32)
    requires
        n <= 1,
        forall|j: int| 0 <= j < named.len() ==> 0 <= #[trigger] named[j],
    ensures
        named_length(ix, named, -1, k, n) == plain_length(ix, named),
        named_space(ix, named, -1, k, n) == plain_space(ix, named),
        forall|rec: FileRecord|
            internal_length(ix, rec, internal, k, n) == #[trigger] plain_internal_length(
                ix,
                rec,
                internal,
            ),
        forall|rec: FileRecord|
            internal_space(ix, rec, internal, k, n) == #[trigger] plain_internal_space(
                ix,
                rec,
                internal,
            ),
    decreases named.len() + internal.len(),
{
    if named.len() > 0 {
        let front = named.drop_last();
        assert forall|j: int| 0 <= j < front.len() implies 0 <= #[trigger] front[j] by {
            assert(0 <= named[j]);
        }
        assert(0 <= named[named.len() - 1]);
        lemma_plain(ix, front, internal, k, n);
    } else if internal.len() > 0 {
        let front = internal.drop_last();
        lemma_plain(ix, named, front, k, n);
        assert forall|rec: FileRecord|
            internal_length(ix, rec, internal, k, n) == #[trigger] plain_internal_length(
                ix,
                rec,
                internal,
            ) by {
            assert(internal_length(ix, rec, front, k, n) == plain_internal_length(ix, rec, front));
        }
        assert forall|rec: FileRecord|
            internal_space(ix, rec, internal, k, n) == #[trigger] plain_internal_space(
                ix,
                rec,
                internal,
            ) by {
            assert(internal_space(ix, rec, front, k, n) == plain_internal_space(ix, rec, front));
        }
    }
}

proof fn lemma_first_compressed(ix: IndexView, at: Seq<int>, p: int)
    requires
        0 <= p < at.len(),
        forall|j: int| 0 <= j < at.len() ==> 0 <= #[trigger] at[j] < NO_ENTRY,
        ix.name(ix.streams[at[p]].name) == super::wof_name(),
        forall|j: int|
            0 <= j < p ==> ix.name(ix.streams[#[trigger] at[j]].name) != super::wof_name(),
    ensures
        super::first_wof(ix, at) == at[p],
    decreases p,
{
    if p > 0 {
        let rest = at.drop_first();
        assert(ix.name(ix.streams[at[0]].name) != super::wof_name());
        assert forall|j: int| 0 <= j < rest.len() implies 0 <= #[trigger] rest[j] < NO_ENTRY by {
            assert(0 <= at[j + 1] < NO_ENTRY);
        }
        assert forall|j: int| 0 <= j < p - 1 implies ix.name(
            ix.streams[#[trigger] rest[j]].name,
        ) != super::wof_name() by {
            assert(ix.name(ix.streams[at[j + 1]].name) != super::wof_name());
        }
        assert(rest[p - 1] == at[p]);
        lemma_first_compressed(ix, rest, p - 1);
    } else {
        assert(0 <= at[0] < NO_ENTRY);
    }
}

/// A file whose data is kept compressed: the space of the first stream with the
/// name of compressed data counts to the unnamed stream, which is shown with
/// it, and that stream itself counts for nothing. All other streams count as
/// ever.
#[verifier::spinoff_prover]
#[verifier::rlimit(40)]
pub proof fn law_compressed_data_counts_as_the_file(
    w: Walk,
    i: int,
    named: Seq<int>,
    internal: Seq<int>,
    p: int,
    fuel: nat,
)
    requires
        0 <= i < w.ix.records.len(),
        w.seen.len() == w.ix.records.len(),
        fuel > 0,
        !w.ix.records[i].stdinfo.directory,
        w.ix.records[i].reparse_tag == 0x8000_0017,
        has_streams(w.ix, w.ix.records[i], named, internal),
        0 <= p < named.len(),
        w.ix.name(w.ix.streams[named[p]].name) == seq![
            87u8,
            111u8,
            102u8,
            67u8,
            111u8,
            109u8,
            112u8,
            114u8,
            101u8,
            115u8,
            115u8,
            101u8,
            100u8,
            68u8,
            97u8,
            116u8,
            97u8,
        ],
        forall|j: int|
            0 <= j < p ==> w.ix.name(w.ix.streams[#[trigger] named[j]].name) != w.ix.name(
                w.ix.streams[named[p]].name,
            ),
    ensures
        ({
            let rec = w.ix.records[i];
            let merged = rec.first_stream.size.allocated
                + w.ix.streams[named[p]].size.allocated;
            &&& super::visit(w, i, 0, 1, fuel) matches Some((after, up)) && {
                let file = after.ix.records[i];
                &&& file.treesize == rec.first_stream.size.length
                &&& merged <= u64::MAX ==> file.tree_allocated == merged
                    && file.first_stream.size.allocated == merged
                &&& merged > u64::MAX ==> file.tree_allocated == u64::MAX
                &&& ({
                    let length = rec.first_stream.size.length + internal_length(
                        w.ix,
                        rec,
                        internal,
                        0,
                        1,
                    ) + named_length(w.ix, named, named[p], 0, 1);
                    up.length == if length > u64::MAX {
                        u64::MAX as int
                    } else {
                        length
                    }
                })
                &&& merged <= u64::MAX ==> ({
                    let space = merged + internal_space(w.ix, rec, internal, 0, 1) + named_space(
                        w.ix,
                        named,
                        named[p],
                        0,
                        1,
                    );
                    up.allocated == if space > u64::MAX {
                        u64::MAX as int
                    } else {
                        space
                    }
                })
            }
        }),
{
    let rec = w.ix.records[i];
    assert(super::wof_name() =~= w.ix.name(w.ix.streams[named[p]].name));
    lemma_streams_list(w.ix, rec.first_stream.next_entry, named);
    lemma_first_compressed(w.ix, named, p);
    if lists_internals(w.ix, rec) {
        lemma_internals_list(w.ix, rec.first_internal_stream, internal);
    }
    lemma_own_parts(w.ix, rec, named, internal, named[p], 0, 1);
    lemma_parts_nonneg(w.ix, rec, named, internal, named[p]);
}

proof fn lemma_parts_nonneg(
    ix: IndexView,
    rec: FileRecord,
    named: Seq<int>,
    internal: Seq<int>,
    besides: int,
)
    ensures
        named_length(ix, named, besides, 0, 1) >= 0,
        named_space(ix, named, besides, 0, 1) >= 0,
        internal_length(ix, rec, internal, 0, 1) >= 0,
        internal_space(ix, rec, internal, 0, 1) >= 0,
    decreases named.len() + internal.len(),
{
    if named.len() > 0 {
        lemma_parts_nonneg(ix, rec, named.drop_last(), internal, besides);
    } else if internal.len() > 0 {
        lemma_parts_nonneg(ix, rec, named, internal.drop_last(), besides);
    }
}

/// A record without the tag of compressed data counts each of its streams as it
/// is, whatever their names are.
pub proof fn law_names_of_streams_do_not_matter(ix: IndexView, rec: FileRecord)
    requires
        rec.reparse_tag != 0x8000_0017,
    ensures
        super::wof_stream(ix, rec) == NO_ENTRY,
        super::merged_alloc(ix, rec) == rec.first_stream.size.allocated,
{
}

/// The shares of the first names, as they are counted, are the value times their
/// part of all names, rounded down; the last name has the first share.
pub proof fn law_shares_are_parts(value: u64, names: u32, upto: nat, name: u32)
    requires
        0 < names,
        upto <= names,
        name < names,
    ensures
        super::shares_upto(value, names, upto) == value * upto / (names as int),
        super::name_info_of(name, names) == names - 1 - name,
{
    if names == 1 {
        reveal_with_fuel(super::shares_upto, 2);
        assert(value * 0 == 0 && value * 1 == value) by (nonlinear_arith);
    } else {
        super::lemma_shares_upto(value, names, upto);
    }
}

/// No entry of a directory leads to record `j`.
pub open spec fn unnamed(ix: IndexView, j: int) -> bool {
    forall|frs: int|
        0 <= frs < ix.frs_to_idx.len() && #[trigger] ix.frs_to_idx[frs] == j ==> forall|e: int|
            0 <= e < ix.children.len() ==> (#[trigger] ix.children[e]).child_frs != frs
}

proof fn lemma_entries_inside(next: Seq<u32>, head: u32, j: int)
    requires
        super::ends(next, head),
        0 <= j < super::list_of(next, head).len(),
    ensures
        0 <= super::list_of(next, head)[j] < next.len(),
    decreases j,
{
    super::lemma_list_unfold(next, head);
    if j > 0 {
        lemma_entries_inside(next, next[head as int], j - 1);
    }
}

proof fn lemma_visit_leaves(w: Walk, i: int, k: u32, n: u32, fuel: nat, j: int)
    requires
        super::visit(w, i, k, n, fuel) is Some,
        w.seen.len() == w.ix.records.len(),
        0 <= j < w.ix.records.len(),
        j != i,
        unnamed(w.ix, j),
    ensures
        (super::visit(w, i, k, n, fuel)->0).0.ix.records[j] == w.ix.records[j],
        (super::visit(w, i, k, n, fuel)->0).0.seen[j] == w.seen[j],
    decreases fuel, 0nat,
{
    if 0 <= i < w.ix.records.len() && w.ix.records[i].stdinfo.directory {
        let rec = w.ix.records[i];
        let w1 = w.mark(i).with_record(i, super::with_alloc(rec, super::merged_alloc(w.ix, rec)));
        let at = super::list_of(super::child_links(w.ix), rec.first_child);
        assert forall|e: int| 0 <= e < at.len() implies 0 <= #[trigger] at[e]
            < w1.ix.children.len() by {
            lemma_entries_inside(super::child_links(w.ix), rec.first_child, e);
        }
        lemma_visit_list_leaves(w1, at, (fuel - 1) as nat, j);
        super::lemma_visit_list_frame(w1, at, (fuel - 1) as nat);
    }
}

proof fn lemma_visit_list_leaves(w: Walk, at: Seq<int>, fuel: nat, j: int)
    requires
        super::visit_list(w, at, fuel) is Some,
        w.seen.len() == w.ix.records.len(),
        0 <= j < w.ix.records.len(),
        unnamed(w.ix, j),
        forall|e: int| 0 <= e < at.len() ==> 0 <= #[trigger] at[e] < w.ix.children.len(),
    ensures
        (super::visit_list(w, at, fuel)->0).0.ix.records[j] == w.ix.records[j],
        (super::visit_list(w, at, fuel)->0).0.seen[j] == w.seen[j],
    decreases fuel, at.len() + 1,
{
    if at.len() > 0 {
        let front = at.drop_last();
        assert forall|e: int| 0 <= e < front.len() implies 0 <= #[trigger] front[e]
            < w.ix.children.len() by {
            assert(0 <= at[e] < w.ix.children.len());
        }
        lemma_visit_list_leaves(w, front, fuel, j);
        super::lemma_visit_list_frame(w, front, fuel);
        let w1 = (super::visit_list(w, front, fuel)->0).0;
        let last = at[at.len() - 1];
        assert(0 <= last < w.ix.children.len());
        let entry = w1.ix.children[last];
        assert(entry == w.ix.children[last]);
        if let Some(p) = w1.ix.position(entry.child_frs) {
            assert(w.ix.frs_to_idx[entry.child_frs as int] == p);
            let names = w1.ix.records[p as int].name_count as u32;
            lemma_visit_leaves(
                w1,
                p as int,
                super::name_info_of(entry.name_index as u32, names),
                names,
                fuel,
                j,
            );
        }
    }
}

/// Where what cannot be reached from the root directory is left out, a record
/// to which no entry leads stays as it is, unless it is the root directory.
pub proof fn law_orphans_can_be_left_out(ix: IndexView, j: int)
    requires
        super::can_be_walked(ix, true),
        0 <= j < ix.records.len(),
        unnamed(ix, j),
        5 < ix.frs_to_idx.len() ==> ix.frs_to_idx[5] != j,
    ensures
        super::tree_metrics(ix, true).records[j] == ix.records[j],
{
    let fuel = choose|fuel: nat| super::walk_within(ix, true, fuel) is Some;
    let start = Walk { ix, seen: Seq::new(ix.records.len(), |i: int| false) };
    if let Some(p) = ix.position(super::ROOT_FRS) {
        lemma_visit_leaves(start, p as int, 0, 1, fuel, j);
    }
}

/// What a file with a single name passes up to its directory: its unnamed stream,
/// its internal streams and every named stream, in length and in space, and the
/// number of its streams. It shows no more than its unnamed stream.
#[verifier::spinoff_prover]
#[verifier::rlimit(40)]
pub proof fn law_files_pass_up_all_streams(
    w: Walk,
    i: int,
    named: Seq<int>,
    internal: Seq<int>,
    names: u32,
    fuel: nat,
)
    requires
        0 <= i < w.ix.records.len(),
        w.seen.len() == w.ix.records.len(),
        fuel > 0,
        names <= 1,
        !w.ix.records[i].stdinfo.directory,
        w.ix.records[i].reparse_tag != 0x8000_0017,
        has_streams(w.ix, w.ix.records[i], named, internal),
    ensures
        ({
            let rec = w.ix.records[i];
            let length = rec.first_stream.size.length + plain_internal_length(w.ix, rec, internal)
                + plain_length(w.ix, named);
            let space = rec.first_stream.size.allocated + plain_internal_space(w.ix, rec, internal)
                + plain_space(w.ix, named);
            super::visit(w, i, 0, names, fuel) matches Some((after, up)) && {
                &&& up.length == if length > u64::MAX {
                    u64::MAX as int
                } else {
                    length
                }
                &&& up.allocated == if space > u64::MAX {
                    u64::MAX as int
                } else {
                    space
                }
                &&& up.treesize == if rec.total_stream_count == 0 {
                    1
                } else {
                    rec.total_stream_count as int
                }
                &&& after.ix.records[i].treesize == rec.first_stream.size.length
                &&& after.ix.records[i].tree_allocated == rec.first_stream.size.allocated
                &&& after.ix.records[i].descendants == 0
            }
        }),
{
    let rec = w.ix.records[i];
    lemma_streams_list(w.ix, rec.first_stream.next_entry, named);
    if lists_internals(w.ix, rec) {
        lemma_internals_list(w.ix, rec.first_internal_stream, internal);
    }
    lemma_own_parts(w.ix, rec, named, internal, -1, 0, 1);
    lemma_parts_nonneg(w.ix, rec, named, internal, -1);
    lemma_plain(w.ix, named, internal, 0, 1);
}

/// A file that is marked as compressed but has no stream with the name of
/// compressed data counts as any other file does.
pub proof fn law_missing_compressed_data(ix: IndexView, rec: FileRecord, named: Seq<int>)
    requires
        streams_from(ix, rec.first_stream.next_entry, named),
        forall|j: int|
            0 <= j < named.len() ==> ix.name(ix.streams[#[trigger] named[j]].name)
                != super::wof_name(),
    ensures
        super::wof_stream(ix, rec) == NO_ENTRY,
        super::merged_alloc(ix, rec) == rec.first_stream.size.allocated,
{
    lemma_streams_list(ix, rec.first_stream.next_entry, named);
    lemma_none_compressed(ix, named);
}

proof fn lemma_none_compressed(ix: IndexView, at: Seq<int>)
    requires
        forall|j: int|
            0 <= j < at.len() ==> ix.name(ix.streams[#[trigger] at[j]].name) != super::wof_name(),
    ensures
        super::first_wof(ix, at) == NO_ENTRY,
    decreases at.len(),
{
    if at.len() > 0 {
        let rest = at.drop_first();
        assert(ix.name(ix.streams[at[0]].name) != super::wof_name());
        assert forall|j: int| 0 <= j < rest.len() implies ix.name(
            ix.streams[#[trigger] rest[j]].name,
        ) != super::wof_name() by {
            assert(ix.name(ix.streams[at[j + 1]].name) != super::wof_name());
        }
        lemma_none_compressed(ix, rest);
    }
}

/// An index cannot be walked where the children of a directory begin outside the
/// array of entries, where an entry leads to a record outside the array of
/// records, or where the first entry of a directory leads back to it.
pub proof fn law_broken_directories_cannot_be_walked(ix: IndexView, d: int, p: u32)
    requires
        0 <= d < ix.records.len(),
        ix.records[d].stdinfo.directory,
        ix.records[d].first_child != 0xFFFF_FFFF,
        ix.records[d].first_child >= ix.children.len() || {
            let frs = ix.children[ix.records[d].first_child as int].child_frs;
            &&& frs < ix.frs_to_idx.len()
            &&& ix.frs_to_idx[frs as int] == p
            &&& p != 0xFFFF_FFFF
            &&& p >= ix.records.len() || p == d
        },
    ensures
        !super::can_be_walked(ix, false),
{
    if super::can_be_walked(ix, false) {
        super::soundness::law_walks_end_where_records_are_sound(ix, false);
        let fuel = choose|fuel: nat| super::soundness::all_sound(ix, fuel);
        assert(super::soundness::sound(ix, d, fuel));
        super::soundness::lemma_height(ix, d, fuel, fuel);
        let h = super::soundness::height(ix, d, fuel);
        super::soundness::lemma_sound_unfold(ix, d, h);
        let links = super::child_links(ix);
        let head = ix.records[d].first_child;
        super::lemma_list_unfold(links, head);
        if head < ix.children.len() {
            let at = super::list_of(links, head);
            assert(at[0] == head as int);
            assert(super::soundness::sound_child(ix, at[0], (h - 1) as nat));
            assert(super::soundness::child_at(ix, at[0]) == Some(p));
            super::soundness::lemma_height(ix, d, fuel, (h - 1) as nat);
        }
    }
}

/// An index cannot be walked where the search for compressed data leaves the array
/// of named streams.
pub proof fn law_broken_streams_cannot_be_walked(ix: IndexView, i: int)
    requires
        0 <= i < ix.records.len(),
        ix.records[i].reparse_tag == 0x8000_0017,
        ix.records[i].first_stream.next_entry != 0xFFFF_FFFF,
        ix.records[i].first_stream.next_entry >= ix.streams.len(),
    ensures
        !super::can_be_walked(ix, false),
{
    if super::can_be_walked(ix, false) {
        super::soundness::law_walks_end_where_records_are_sound(ix, false);
        let fuel = choose|fuel: nat| super::soundness::all_sound(ix, fuel);
        assert(super::soundness::sound(ix, i, fuel));
        super::soundness::lemma_sound_unfold(ix, i, fuel);
        let links = super::stream_links(ix);
        super::lemma_list_unfold(links, ix.records[i].first_stream.next_entry);
    }
}

/// What the root directory shows does not depend on whether records that cannot be
/// reached from it are left out.
pub proof fn law_orphans_do_not_count(ix: IndexView, root: u32)
    requires
        super::can_be_walked(ix, false),
        nothing_compressed(ix),
        5 < ix.frs_to_idx.len(),
        ix.frs_to_idx[5] == root,
        root != 0xFFFF_FFFF,
        root < ix.records.len(),
    ensures
        ({
            let a = super::tree_metrics(ix, true).records[root as int];
            let b = super::tree_metrics(ix, false).records[root as int];
            a.treesize == b.treesize && a.tree_allocated == b.tree_allocated && a.descendants
                == b.descendants
        }),
{
    super::soundness::law_walks_end_where_records_are_sound(ix, false);
    let fuel = choose|fuel: nat| super::soundness::all_sound(ix, fuel);
    assert(super::soundness::sound(ix, root as int, fuel));
    super::totals::law_figures_are_totals(ix, fuel);
    super::totals::law_figures_of_the_root_are_totals(ix, root, fuel);
    assert(super::totals::has_figures(
        ix,
        super::tree_metrics(ix, false).records[root as int],
        root as int,
        fuel,
    ));
}

} // verus!
