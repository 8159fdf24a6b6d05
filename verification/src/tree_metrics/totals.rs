//! What the figures of a whole index are: sums over everything that lies below
//! a directory.

use super::{Agg, Walk, ROOT_FRS};
use crate::index::{FileRecord, IndexView};
use vstd::prelude::*;

verus! {

/// A record as it appears below a directory: under one of its names.
pub struct Link {
    /// The record.
    pub record: int,
    /// The share number of the name.
    pub name: u32,
    /// How many names the record has.
    pub names: u32,
}

/// The entries of the children of record `i`.
pub open spec fn entries_of(ix: IndexView, i: int) -> Seq<int> {
    super::list_of(super::child_links(ix), ix.records[i].first_child)
}

/// Everything that lies below record `i`, down to `fuel` levels.
pub open spec fn below(ix: IndexView, i: int, fuel: nat) -> Seq<Link>
    decreases fuel, 0nat,
{
    if 0 <= i < ix.records.len() && fuel > 0 && ix.records[i].stdinfo.directory {
        below_entries(ix, entries_of(ix, i), (fuel - 1) as nat)
    } else {
        Seq::empty()
    }
}

/// What some child entries lead to, and everything that lies below that.
pub open spec fn below_entries(ix: IndexView, entries: Seq<int>, fuel: nat) -> Seq<Link>
    decreases fuel, entries.len() + 1,
{
    if entries.len() == 0 {
        Seq::empty()
    } else {
        let before = below_entries(ix, entries.drop_last(), fuel);
        match super::soundness::child_at(ix, entries.last()) {
            Some(p) => {
                before + below(ix, p as int, fuel) + seq![link_of(ix, entries.last(), p as int)]
            },
            None => before,
        }
    }
}

/// The name under which a child entry leads to record `p`.
pub open spec fn link_of(ix: IndexView, entry: int, p: int) -> Link {
    let names = ix.records[p].name_count as u32;
    Link {
        record: p,
        name: super::name_info_of(ix.children[entry].name_index as u32, names),
        names: at_least_one(names),
    }
}

/// A record without names counts as one with a single name.
pub open spec fn at_least_one(names: u32) -> u32 {
    if names == 0 {
        1
    } else {
        names
    }
}

/// The logical sizes of all streams of a record, that of compressed data as 0.
pub open spec fn lengths_of(ix: IndexView, rec: FileRecord) -> Seq<u64> {
    let named = super::list_of(super::stream_links(ix), rec.first_stream.next_entry);
    seq![rec.first_stream.size.length] + super::internal_lengths(ix, rec) + super::named_lengths(
        ix,
        named,
        super::wof_stream(ix, rec),
    )
}

/// The allocated sizes of all streams of a record that has no compressed data.
pub open spec fn allocs_of(ix: IndexView, rec: FileRecord) -> Seq<u64> {
    let named = super::list_of(super::stream_links(ix), rec.first_stream.next_entry);
    seq![rec.first_stream.size.allocated] + super::internal_allocs(ix, rec) + super::named_allocs(
        ix,
        named,
        super::wof_stream(ix, rec),
    )
}

/// The number of streams of a record; at least one.
pub open spec fn streams_of(rec: FileRecord) -> int {
    if rec.total_stream_count == 0 {
        1
    } else {
        rec.total_stream_count as int
    }
}

/// What the volume holds back, for the record that is the root directory.
pub open spec fn reserved_at(ix: IndexView, i: int) -> int {
    if ix.records[i].stdinfo.directory && (ix.position(ROOT_FRS) matches Some(root) && root == i) {
        ix.reserved_allocated_bytes as int
    } else {
        0
    }
}

/// The logical sizes that some names of records pass up, together.
pub open spec fn length_of_links(ix: IndexView, links: Seq<Link>) -> int
    decreases links.len(),
{
    if links.len() == 0 {
        0
    } else {
        let l = links.last();
        length_of_links(ix, links.drop_last()) + super::share_sum(
            lengths_of(ix, ix.records[l.record]),
            l.name,
            l.names,
        )
    }
}

/// The allocated sizes that some names of records pass up, together.
pub open spec fn alloc_of_links(ix: IndexView, links: Seq<Link>) -> int
    decreases links.len(),
{
    if links.len() == 0 {
        0
    } else {
        let l = links.last();
        alloc_of_links(ix, links.drop_last()) + super::share_sum(
            allocs_of(ix, ix.records[l.record]),
            l.name,
            l.names,
        )
    }
}

/// What the volume holds back, if the root directory is among some records.
pub open spec fn reserved_of_links(ix: IndexView, links: Seq<Link>) -> int
    decreases links.len(),
{
    if links.len() == 0 {
        0
    } else {
        reserved_of_links(ix, links.drop_last()) + reserved_at(ix, links.last().record)
    }
}

/// The number of streams of some records.
pub open spec fn streams_of_links(ix: IndexView, links: Seq<Link>) -> int
    decreases links.len(),
{
    if links.len() == 0 {
        0
    } else {
        streams_of_links(ix, links.drop_last()) + streams_of(ix.records[links.last().record])
    }
}

/// Record `j` of an index with its figures filled in: a file shows its own
/// sizes; a directory shows its own and those of everything below it, and
/// counts itself and the streams of everything below it.
pub open spec fn has_figures(ix: IndexView, rec: FileRecord, j: int, fuel: nat) -> bool {
    let own = ix.records[j].first_stream.size;
    let links = below(ix, j, fuel);
    if ix.records[j].stdinfo.directory {
        &&& rec.descendants == super::clip32(1 + streams_of_links(ix, links))
        &&& rec.treesize == super::clip64(own.length + length_of_links(ix, links))
        &&& super::repeat::nothing_to_merge(ix) ==> rec.tree_allocated == super::clip64(
            own.allocated + reserved_at(ix, j) + alloc_of_links(ix, links) + reserved_of_links(
                ix,
                links,
            ),
        )
    } else {
        &&& rec.descendants == 0
        &&& rec.treesize == own.length
        &&& super::repeat::nothing_to_merge(ix) ==> rec.tree_allocated == own.allocated
    }
}

pub(super) proof fn lemma_sums_concat(ix: IndexView, a: Seq<Link>, b: Seq<Link>)
    ensures
        length_of_links(ix, a + b) == length_of_links(ix, a) + length_of_links(ix, b),
        alloc_of_links(ix, a + b) == alloc_of_links(ix, a) + alloc_of_links(ix, b),
        reserved_of_links(ix, a + b) == reserved_of_links(ix, a) + reserved_of_links(ix, b),
        streams_of_links(ix, a + b) == streams_of_links(ix, a) + streams_of_links(ix, b),
    decreases b.len(),
{
    if b.len() == 0 {
        assert(a + b =~= a);
    } else {
        lemma_sums_concat(ix, a, b.drop_last());
        assert((a + b).drop_last() =~= a + b.drop_last());
        assert((a + b).last() == b.last());
    }
}

pub(super) proof fn lemma_sums_nonneg(ix: IndexView, links: Seq<Link>)
    ensures
        length_of_links(ix, links) >= 0,
        alloc_of_links(ix, links) >= 0,
        reserved_of_links(ix, links) >= 0,
        streams_of_links(ix, links) >= 0,
    decreases links.len(),
{
    if links.len() > 0 {
        let l = links.last();
        lemma_sums_nonneg(ix, links.drop_last());
        super::lemma_share_sum_nonneg(lengths_of(ix, ix.records[l.record]), l.name, l.names);
        super::lemma_share_sum_nonneg(allocs_of(ix, ix.records[l.record]), l.name, l.names);
    }
}

pub(super) proof fn lemma_share_sum_concat(a: Seq<u64>, b: Seq<u64>, k: u32, n: u32)
    ensures
        super::share_sum(a + b, k, n) == super::share_sum(a, k, n) + super::share_sum(b, k, n),
    decreases b.len(),
{
    if b.len() == 0 {
        assert(a + b =~= a);
    } else {
        lemma_share_sum_concat(a, b.drop_last(), k, n);
        assert((a + b).drop_last() =~= a + b.drop_last());
        assert((a + b).last() == b.last());
    }
}

/// What one name of a record passes up for its own streams.
proof fn lemma_own_sums(ix: IndexView, rec: FileRecord, k: u32, n: u32)
    ensures
        super::own_length(ix, rec, k, n) == super::clip64(
            super::share_sum(lengths_of(ix, rec), k, n),
        ),
        rec.reparse_tag != super::WOF_REPARSE_TAG ==> super::own_alloc(ix, rec, k, n)
            == super::clip64(super::share_sum(allocs_of(ix, rec), k, n)),
{
    let named = super::list_of(super::stream_links(ix), rec.first_stream.next_entry);
    let wof = super::wof_stream(ix, rec);
    let first = seq![rec.first_stream.size.length];
    let first_alloc = seq![rec.first_stream.size.allocated];
    assert(first.drop_last() =~= Seq::<u64>::empty());
    assert(first_alloc.drop_last() =~= Seq::<u64>::empty());
    reveal_with_fuel(super::share_sum, 2);
    lemma_share_sum_concat(
        first + super::internal_lengths(ix, rec),
        super::named_lengths(ix, named, wof),
        k,
        n,
    );
    lemma_share_sum_concat(first, super::internal_lengths(ix, rec), k, n);
    lemma_share_sum_concat(
        first_alloc + super::internal_allocs(ix, rec),
        super::named_allocs(ix, named, wof),
        k,
        n,
    );
    lemma_share_sum_concat(first_alloc, super::internal_allocs(ix, rec), k, n);
}

/// The same of a record some of whose figures were filled in.
proof fn lemma_own_sums_later(
    a: IndexView,
    b: IndexView,
    x: FileRecord,
    y: FileRecord,
    k: u32,
    n: u32,
)
    requires
        b == a.with_records(b.records),
        super::same_but_figures(y, x),
    ensures
        super::own_length(b, y, k, n) == super::clip64(super::share_sum(lengths_of(a, x), k, n)),
        x.reparse_tag != super::WOF_REPARSE_TAG ==> {
            &&& super::own_alloc(b, y, k, n) == super::clip64(
                super::share_sum(allocs_of(a, x), k, n),
            )
            &&& super::merged_alloc(b, y) == x.first_stream.size.allocated
        },
{
    super::lemma_own_streams_of_links(a, b, y, k, n);
    lemma_own_sums(a, y, k, n);
    assert(lengths_of(a, y) =~= lengths_of(a, x));
    assert(x.reparse_tag != super::WOF_REPARSE_TAG ==> allocs_of(a, y) =~= allocs_of(a, x));
}

/// What lies below a sound record does not depend on how deep one looks, as
/// long as that is deep enough.
pub(super) proof fn lemma_below_more_fuel(ix: IndexView, i: int, f: nat, g: nat)
    requires
        super::soundness::sound(ix, i, f),
        f <= g,
    ensures
        below(ix, i, f) == below(ix, i, g),
    decreases f, 0nat,
{
    if 0 <= i < ix.records.len() && ix.records[i].stdinfo.directory {
        super::soundness::lemma_sound_unfold(ix, i, f);
        lemma_below_entries_more_fuel(ix, entries_of(ix, i), (f - 1) as nat, (g - 1) as nat);
    }
}

proof fn lemma_below_entries_more_fuel(ix: IndexView, entries: Seq<int>, f: nat, g: nat)
    requires
        forall|j: int| 0 <= j < entries.len() ==> #[trigger] super::soundness::sound_child(ix, entries[j], f),
        f <= g,
    ensures
        below_entries(ix, entries, f) == below_entries(ix, entries, g),
    decreases f, entries.len() + 1,
{
    if entries.len() > 0 {
        let front = entries.drop_last();
        assert forall|j: int| 0 <= j < front.len() implies #[trigger] super::soundness::sound_child(
            ix,
            front[j],
            f,
        ) by {
            assert(super::soundness::sound_child(ix, entries[j], f));
        }
        lemma_below_entries_more_fuel(ix, front, f, g);
        assert(super::soundness::sound_child(ix, entries[entries.len() - 1], f));
        if let Some(p) = super::soundness::child_at(ix, entries.last()) {
            lemma_below_more_fuel(ix, p as int, f, g);
        }
    }
}

/// What a part of the tree passes up is what its names pass up, together.
spec fn is_total(ix: IndexView, agg: Agg, links: Seq<Link>) -> bool {
    &&& agg.length == super::clip64(length_of_links(ix, links))
    &&& agg.treesize == super::clip32(streams_of_links(ix, links))
    &&& super::repeat::nothing_to_merge(ix) ==> agg.allocated == super::clip64(
        alloc_of_links(ix, links) + reserved_of_links(ix, links),
    )
}

/// From `a` to `b` every record either got its figures or was left alone.
spec fn settled(ix: IndexView, a: Walk, b: Walk, fuel: nat) -> bool {
    &&& b.ix.records.len() == a.ix.records.len()
    &&& b.seen.len() == a.seen.len()
    &&& forall|j: int|
        0 <= j < ix.records.len() ==> {
            ||| has_figures(ix, #[trigger] b.ix.records[j], j, fuel)
            ||| b.ix.records[j] == a.ix.records[j] && b.seen[j] == a.seen[j]
        }
}

proof fn lemma_settled_trans(ix: IndexView, a: Walk, b: Walk, c: Walk, fuel: nat)
    requires
        settled(ix, a, b, fuel),
        settled(ix, b, c, fuel),
    ensures
        settled(ix, a, c, fuel),
{
    assert forall|j: int| 0 <= j < ix.records.len() implies {
        ||| has_figures(ix, #[trigger] c.ix.records[j], j, fuel)
        ||| c.ix.records[j] == a.ix.records[j] && c.seen[j] == a.seen[j]
    } by {
        assert(has_figures(ix, b.ix.records[j], j, fuel) || b.ix.records[j] == a.ix.records[j]);
    }
}

proof fn lemma_visit_total(
    ix: IndexView,
    w: Walk,
    i: int,
    k: u32,
    n: u32,
    fuel: nat,
    limit: nat,
)
    requires
        super::soundness::later(ix, w.ix),
        w.seen.len() == w.ix.records.len(),
        0 <= i < ix.records.len(),
        super::visit(w, i, k, n, fuel) is Some,
        fuel <= limit,
    ensures
        is_total(
            ix,
            (super::visit(w, i, k, n, fuel)->0).1,
            below(ix, i, fuel) + seq![Link { record: i, name: k, names: at_least_one(n) }],
        ),
        settled(ix, w, (super::visit(w, i, k, n, fuel)->0).0, limit),
        has_figures(ix, (super::visit(w, i, k, n, fuel)->0).0.ix.records[i], i, limit),
    decreases fuel, 0nat,
{
    let x = ix.records[i];
    let y = w.ix.records[i];
    let names = at_least_one(n);
    assert(super::same_but_figures(y, x));
    lemma_own_sums_later(ix, w.ix, x, y, k, names);
    super::soundness::lemma_visit_ends(ix, w, i, k, n, fuel);
    lemma_below_more_fuel(ix, i, fuel, limit);
    let links = below(ix, i, fuel);
    let me = Link { record: i, name: k, names };
    assert((links + seq![me]).drop_last() =~= links);
    lemma_sums_nonneg(ix, links);
    super::lemma_share_sum_nonneg(lengths_of(ix, x), k, names);
    super::lemma_share_sum_nonneg(allocs_of(ix, x), k, names);
    assert(super::child_links(w.ix) =~= super::child_links(ix));
    let w1 = super::soundness::entered(w, i);
    let w3 = (super::visit(w, i, k, n, fuel)->0).0;
    if x.stdinfo.directory {
        let entries = entries_of(ix, i);
        let deeper = (fuel - 1) as nat;
        super::soundness::lemma_entered(ix, w, i);
        lemma_visit_list_total(ix, w1, entries, deeper, limit);
        super::lemma_visit_list_progress(w1, entries, deeper);
        let w2 = (super::visit_list(w1, entries, deeper)->0).0;
        let sum = (super::visit_list(w1, entries, deeper)->0).1;
        assert(is_total(ix, sum, links));
        assert(super::same_but_figures(w2.ix.records[i], w1.ix.records[i]));
        assert(w.ix.position(ROOT_FRS) == ix.position(ROOT_FRS));
        assert(has_figures(ix, w3.ix.records[i], i, limit));
        assert forall|j: int| 0 <= j < ix.records.len() implies {
            ||| has_figures(ix, #[trigger] w3.ix.records[j], j, limit)
            ||| w3.ix.records[j] == w.ix.records[j] && w3.seen[j] == w.seen[j]
        } by {
            if j != i {
                assert(has_figures(ix, w2.ix.records[j], j, limit) || w2.ix.records[j]
                    == w1.ix.records[j]);
            }
        }
    } else {
        assert(links =~= Seq::<Link>::empty());
    }
}

proof fn lemma_visit_list_total(ix: IndexView, w: Walk, entries: Seq<int>, fuel: nat, limit: nat)
    requires
        super::soundness::later(ix, w.ix),
        w.seen.len() == w.ix.records.len(),
        super::visit_list(w, entries, fuel) is Some,
        fuel <= limit,
    ensures
        is_total(ix, (super::visit_list(w, entries, fuel)->0).1, below_entries(ix, entries, fuel)),
        settled(ix, w, (super::visit_list(w, entries, fuel)->0).0, limit),
    decreases fuel, entries.len() + 1,
{
    if entries.len() > 0 {
        let front = entries.drop_last();
        lemma_visit_list_total(ix, w, front, fuel, limit);
        super::lemma_visit_list_progress(w, front, fuel);
        let w1 = (super::visit_list(w, front, fuel)->0).0;
        super::soundness::lemma_later_trans(ix, w, w1);
        let entry = w1.ix.children[entries.last()];
        assert(w1.ix.position(entry.child_frs) == super::soundness::child_at(ix, entries.last()));
        if let Some(p) = super::soundness::child_at(ix, entries.last()) {
            assert(super::same_but_figures(w1.ix.records[p as int], ix.records[p as int]));
            let names = w1.ix.records[p as int].name_count as u32;
            let k = super::name_info_of(entry.name_index as u32, names);
            lemma_visit_total(ix, w1, p as int, k, names, fuel, limit);
            let w2 = (super::visit(w1, p as int, k, names, fuel)->0).0;
            lemma_settled_trans(ix, w, w1, w2, limit);
            let before = below_entries(ix, front, fuel);
            let part = below(ix, p as int, fuel) + seq![link_of(ix, entries.last(), p as int)];
            assert(below_entries(ix, entries, fuel) =~= before + part);
            lemma_sums_concat(ix, before, part);
            lemma_sums_nonneg(ix, before);
            lemma_sums_nonneg(ix, part);
        }
    }
}

proof fn lemma_sweep_settles(ix: IndexView, w: Walk, upto: nat, fuel: nat)
    requires
        super::soundness::later(ix, w.ix),
        w.seen.len() == w.ix.records.len(),
        upto <= ix.records.len(),
        super::sweep(w, upto, fuel) is Some,
    ensures
        settled(ix, w, super::sweep(w, upto, fuel)->0, fuel),
    decreases upto,
{
    if upto > 0 {
        let front = (upto - 1) as nat;
        lemma_sweep_settles(ix, w, front, fuel);
        super::lemma_sweep_progress(w, front, fuel);
        let w1 = super::sweep(w, front, fuel)->0;
        super::soundness::lemma_later_trans(ix, w, w1);
        if !w1.seen[upto - 1] {
            lemma_visit_total(ix, w1, upto - 1, 0, 1, fuel, fuel);
            lemma_settled_trans(
                ix,
                w,
                w1,
                (super::visit(w1, upto - 1, 0, 1, fuel)->0).0,
                fuel,
            );
        }
    }
}

/// The figures of a whole index: each record shows its own sizes and those of
/// everything below it, every record there with the shares of the names under
/// which it appears.
pub proof fn law_figures_are_totals(ix: IndexView, fuel: nat)
    requires
        super::soundness::all_sound(ix, fuel),
    ensures
        super::can_be_walked(ix, false),
        forall|j: int|
            0 <= j < ix.records.len() ==> has_figures(
                ix,
                #[trigger] super::tree_metrics(ix, false).records[j],
                j,
                fuel,
            ),
{
    super::soundness::lemma_walk_ends(ix, false, fuel);
    super::law_figures_are_unique(ix, false, fuel);
    let start = Walk { ix, seen: Seq::new(ix.records.len(), |i: int| false) };
    assert(ix =~= ix.with_records(ix.records));
    assert(super::soundness::later(ix, start.ix));
    let rooted = match ix.position(ROOT_FRS) {
        Some(p) => {
            let w = (super::visit(start, p as int, 0, 1, fuel)->0).0;
            super::lemma_visit_progress(start, p as int, 0, 1, fuel);
            super::soundness::lemma_later_trans(ix, start, w);
            if p < ix.records.len() {
                lemma_visit_total(ix, start, p as int, 0, 1, fuel, fuel);
            }
            w
        },
        None => start,
    };
    assert(settled(ix, start, rooted, fuel));
    lemma_sweep_settles(ix, rooted, ix.records.len(), fuel);
    super::lemma_sweep_progress(rooted, ix.records.len(), fuel);
    let last = super::sweep(rooted, ix.records.len(), fuel)->0;
    lemma_settled_trans(ix, start, rooted, last, fuel);
    assert forall|j: int| 0 <= j < ix.records.len() implies has_figures(
        ix,
        #[trigger] super::tree_metrics(ix, false).records[j],
        j,
        fuel,
    ) by {
        assert(last.seen[j]);
        assert(has_figures(ix, last.ix.records[j], j, fuel) || last.seen[j] == start.seen[j]);
    }
}

/// The figures of the root directory are the same totals where what cannot be
/// reached from it is left out.
pub proof fn law_figures_of_the_root_are_totals(ix: IndexView, root: u32, fuel: nat)
    requires
        super::soundness::root_sound(ix, fuel),
        ix.position(ROOT_FRS) == Some(root),
        root < ix.records.len(),
    ensures
        super::can_be_walked(ix, true),
        has_figures(ix, super::tree_metrics(ix, true).records[root as int], root as int, fuel),
{
    super::soundness::lemma_walk_ends(ix, true, fuel);
    super::law_figures_are_unique(ix, true, fuel);
    let start = Walk { ix, seen: Seq::new(ix.records.len(), |i: int| false) };
    assert(ix =~= ix.with_records(ix.records));
    lemma_visit_total(ix, start, root as int, 0, 1, fuel, fuel);
}

/// Everything below a record is a record of the index, and sound with one level
/// less.
proof fn lemma_below_is_sound(ix: IndexView, entries: Seq<int>, fuel: nat, c: int)
    requires
        forall|j: int|
            0 <= j < entries.len() ==> #[trigger] super::soundness::sound_child(
                ix,
                entries[j],
                fuel,
            ),
        0 <= c < below_entries(ix, entries, fuel).len(),
    ensures
        0 <= below_entries(ix, entries, fuel)[c].record < ix.records.len(),
        super::soundness::sound(ix, below_entries(ix, entries, fuel)[c].record, fuel),
    decreases fuel, entries.len(),
{
    let front = entries.drop_last();
    assert forall|j: int| 0 <= j < front.len() implies #[trigger] super::soundness::sound_child(
        ix,
        front[j],
        fuel,
    ) by {
        assert(super::soundness::sound_child(ix, entries[j], fuel));
    }
    let before = below_entries(ix, front, fuel);
    if c < before.len() {
        lemma_below_is_sound(ix, front, fuel, c);
    } else {
        assert(super::soundness::sound_child(ix, entries[entries.len() - 1], fuel));
        let p = super::soundness::child_at(ix, entries.last())->0;
        let deep = below(ix, p as int, fuel);
        if c < before.len() + deep.len() {
            super::soundness::lemma_sound_unfold(ix, p as int, fuel);
            let inner = below_entries(ix, entries_of(ix, p as int), (fuel - 1) as nat);
            lemma_below_is_sound(
                ix,
                entries_of(ix, p as int),
                (fuel - 1) as nat,
                c - before.len(),
            );
            assert(below_entries(ix, entries, fuel)[c] == inner[c - before.len()]);
            super::soundness::lemma_sound_more_fuel(
                ix,
                inner[c - before.len()].record,
                (fuel - 1) as nat,
                fuel,
            );
        }
    }
}

/// No directory lies below itself.
pub proof fn law_no_directory_lies_below_itself(ix: IndexView, i: int, fuel: nat, c: int)
    requires
        0 <= i < ix.records.len(),
        super::soundness::sound(ix, i, fuel),
        0 <= c < below(ix, i, fuel).len(),
    ensures
        0 <= below(ix, i, fuel)[c].record < ix.records.len(),
        below(ix, i, fuel)[c].record != i,
{
    super::soundness::lemma_height(ix, i, fuel, fuel);
    let h = super::soundness::height(ix, i, fuel);
    super::soundness::lemma_sound_unfold(ix, i, h);
    lemma_below_more_fuel(ix, i, h, fuel);
    lemma_below_is_sound(ix, entries_of(ix, i), (h - 1) as nat, c);
    super::soundness::lemma_height(ix, i, fuel, (h - 1) as nat);
}

proof fn lemma_nothing_reserved(ix: IndexView, links: Seq<Link>, root: int)
    requires
        ix.position(ROOT_FRS) matches Some(p) ==> p == root,
        forall|c: int| 0 <= c < links.len() ==> (#[trigger] links[c]).record != root,
    ensures
        reserved_of_links(ix, links) == 0,
    decreases links.len(),
{
    if links.len() > 0 {
        assert(links[links.len() - 1].record != root);
        let front = links.drop_last();
        assert forall|c: int| 0 <= c < front.len() implies (#[trigger] front[c]).record
            != root by {
            assert(links[c].record != root);
        }
        lemma_nothing_reserved(ix, front, root);
    }
}

/// What the volume holds back is counted to the root directory, and there once.
pub proof fn law_root_counts_reserved_bytes_once(ix: IndexView, root: u32, fuel: nat)
    requires
        super::soundness::all_sound(ix, fuel),
        super::repeat::nothing_to_merge(ix),
        ix.position(ROOT_FRS) == Some(root),
        root < ix.records.len(),
        ix.records[root as int].stdinfo.directory,
    ensures
        super::tree_metrics(ix, false).records[root as int].tree_allocated == super::clip64(
            ix.records[root as int].first_stream.size.allocated + ix.reserved_allocated_bytes
                + alloc_of_links(ix, below(ix, root as int, fuel)),
        ),
{
    let i = root as int;
    let links = below(ix, i, fuel);
    law_figures_are_totals(ix, fuel);
    assert(super::soundness::sound(ix, i, fuel));
    assert forall|c: int| 0 <= c < links.len() implies (#[trigger] links[c]).record != i by {
        law_no_directory_lies_below_itself(ix, i, fuel, c);
    }
    lemma_nothing_reserved(ix, links, i);
    assert(has_figures(ix, super::tree_metrics(ix, false).records[i], i, fuel));
}

/// No other directory counts what the volume holds back, unless the root
/// directory lies below it.
pub proof fn law_other_directories_count_no_reserved_bytes(ix: IndexView, j: int, fuel: nat)
    requires
        super::soundness::all_sound(ix, fuel),
        super::repeat::nothing_to_merge(ix),
        0 <= j < ix.records.len(),
        ix.records[j].stdinfo.directory,
        ix.position(ROOT_FRS) matches Some(root) ==> root != j && forall|c: int|
            0 <= c < below(ix, j, fuel).len() ==> (#[trigger] below(ix, j, fuel)[c]).record != root,
    ensures
        super::tree_metrics(ix, false).records[j].tree_allocated == super::clip64(
            ix.records[j].first_stream.size.allocated + alloc_of_links(ix, below(ix, j, fuel)),
        ),
{
    law_figures_are_totals(ix, fuel);
    let root = match ix.position(ROOT_FRS) {
        Some(p) => p as int,
        None => -1,
    };
    assert forall|c: int| 0 <= c < below(ix, j, fuel).len() implies (#[trigger] below(
        ix,
        j,
        fuel,
    )[c]).record != root by {
        assert(super::soundness::sound(ix, j, fuel));
        law_no_directory_lies_below_itself(ix, j, fuel, c);
    }
    lemma_nothing_reserved(ix, below(ix, j, fuel), root);
    assert(has_figures(ix, super::tree_metrics(ix, false).records[j], j, fuel));
}

/// A directory without children shows its own allocated size, and what the
/// volume holds back only where it is the root.
pub proof fn law_empty_directories_show_their_own_size(ix: IndexView, j: int)
    requires
        super::can_be_walked(ix, false),
        super::repeat::nothing_to_merge(ix),
        0 <= j < ix.records.len(),
        ix.records[j].stdinfo.directory,
        ix.records[j].first_child == crate::index::NO_ENTRY,
    ensures
        super::tree_metrics(ix, false).records[j].tree_allocated == super::clip64(
            ix.records[j].first_stream.size.allocated + reserved_at(ix, j),
        ),
        super::tree_metrics(ix, false).records[j].treesize
            == ix.records[j].first_stream.size.length,
        super::tree_metrics(ix, false).records[j].descendants == 1,
{
    super::soundness::law_walks_end_where_records_are_sound(ix, false);
    let fuel = choose|fuel: nat| super::soundness::all_sound(ix, fuel);
    law_figures_are_totals(ix, fuel);
    let links = super::child_links(ix);
    assert(super::list_within(links, crate::index::NO_ENTRY, 0) is Some);
    super::lemma_list_unfold(links, crate::index::NO_ENTRY);
    assert(below(ix, j, fuel) =~= Seq::<Link>::empty());
    assert(has_figures(ix, super::tree_metrics(ix, false).records[j], j, fuel));
}

/// The names of record `r` among some names.
pub open spec fn links_to(links: Seq<Link>, r: int) -> Seq<Link>
    decreases links.len(),
{
    if links.len() == 0 {
        Seq::empty()
    } else {
        let before = links_to(links.drop_last(), r);
        if links.last().record == r {
            before.push(links.last())
        } else {
            before
        }
    }
}

/// The names of other records among some names.
pub open spec fn links_elsewhere(links: Seq<Link>, r: int) -> Seq<Link>
    decreases links.len(),
{
    if links.len() == 0 {
        Seq::empty()
    } else {
        let before = links_elsewhere(links.drop_last(), r);
        if links.last().record == r {
            before
        } else {
            before.push(links.last())
        }
    }
}

/// Some names of record `r` are all of its names, each once.
pub open spec fn each_name_once(links: Seq<Link>, r: int, names: u32) -> bool {
    &&& names >= 1
    &&& links.len() == names
    &&& forall|a: int|
        0 <= a < links.len() ==> (#[trigger] links[a]).record == r && links[a].names == names
            && links[a].name < names
    &&& forall|a: int, b: int|
        0 <= a < b < links.len() ==> (#[trigger] links[a]).name != (#[trigger] links[b]).name
}

proof fn lemma_links_split(ix: IndexView, links: Seq<Link>, r: int)
    ensures
        length_of_links(ix, links) == length_of_links(ix, links_to(links, r)) + length_of_links(
            ix,
            links_elsewhere(links, r),
        ),
        alloc_of_links(ix, links) == alloc_of_links(ix, links_to(links, r)) + alloc_of_links(
            ix,
            links_elsewhere(links, r),
        ),
    decreases links.len(),
{
    if links.len() > 0 {
        let l = links.last();
        lemma_links_split(ix, links.drop_last(), r);
        let a = links_to(links.drop_last(), r);
        let b = links_elsewhere(links.drop_last(), r);
        assert(a.push(l).drop_last() =~= a);
        assert(b.push(l).drop_last() =~= b);
    }
}

/// The shares of some names of a value list, together.
spec fn shares_of(values: Seq<u64>, names: Seq<int>, total_names: u32) -> int
    decreases names.len(),
{
    if names.len() == 0 {
        0
    } else {
        shares_of(values, names.drop_last(), total_names) + super::share_sum(
            values,
            names.last() as u32,
            total_names,
        )
    }
}

proof fn lemma_shares_without(values: Seq<u64>, names: Seq<int>, total_names: u32, at: int)
    requires
        0 <= at < names.len(),
    ensures
        shares_of(values, names, total_names) == shares_of(values, names.remove(at), total_names)
            + super::share_sum(values, names[at] as u32, total_names),
    decreases names.len(),
{
    if at == names.len() - 1 {
        assert(names.remove(at) =~= names.drop_last());
    } else {
        lemma_shares_without(values, names.drop_last(), total_names, at);
        assert(names.remove(at).drop_last() =~= names.drop_last().remove(at));
        assert(names.remove(at).last() == names.last());
    }
}

/// Different names that are as many as there are numbers below `n` are all of
/// these numbers.
proof fn lemma_all_names(names: Seq<int>, n: nat)
    requires
        names.len() == n,
        n > 0,
        names.no_duplicates(),
        forall|a: int| 0 <= a < names.len() ==> 0 <= #[trigger] names[a] < n,
    ensures
        names.contains(n - 1),
{
    names.unique_seq_to_set();
    let all = vstd::set_lib::set_int_range(0, n as int);
    vstd::set_lib::lemma_int_range(0, n as int);
    assert(names.to_set().subset_of(all));
    vstd::set_lib::lemma_subset_equality(names.to_set(), all);
    assert(all.contains(n - 1));
}

proof fn lemma_shares_of_all(values: Seq<u64>, names: Seq<int>, total_names: u32, n: nat)
    requires
        names.len() == n,
        names.no_duplicates(),
        forall|a: int| 0 <= a < names.len() ==> 0 <= #[trigger] names[a] < n,
    ensures
        shares_of(values, names, total_names) == super::passed_up(values, total_names, n),
    decreases n,
{
    if n > 0 {
        lemma_all_names(names, n);
        let at = choose|at: int| 0 <= at < names.len() && names[at] == n - 1;
        let rest = names.remove(at);
        lemma_shares_without(values, names, total_names, at);
        assert forall|a: int| 0 <= a < rest.len() implies 0 <= #[trigger] rest[a] < n - 1 by {
            let b = if a < at { a } else { a + 1 };
            assert(rest[a] == names[b]);
            assert(names[b] != names[at]);
        }
        assert forall|a: int, b: int| 0 <= a < rest.len() && 0 <= b < rest.len() && a
            != b implies rest[a] != rest[b] by {
            let c = if a < at { a } else { a + 1 };
            let d = if b < at { b } else { b + 1 };
            assert(names[c] != names[d]);
        }
        lemma_shares_of_all(values, rest, total_names, (n - 1) as nat);
    }
}

spec fn name_numbers(links: Seq<Link>) -> Seq<int> {
    Seq::new(links.len(), |a: int| links[a].name as int)
}

proof fn lemma_sums_are_shares(ix: IndexView, links: Seq<Link>, r: int, names: u32)
    requires
        forall|a: int|
            0 <= a < links.len() ==> (#[trigger] links[a]).record == r && links[a].names == names,
    ensures
        length_of_links(ix, links) == shares_of(
            lengths_of(ix, ix.records[r]),
            name_numbers(links),
            names,
        ),
        alloc_of_links(ix, links) == shares_of(
            allocs_of(ix, ix.records[r]),
            name_numbers(links),
            names,
        ),
    decreases links.len(),
{
    if links.len() > 0 {
        let front = links.drop_last();
        assert forall|a: int| 0 <= a < front.len() implies (#[trigger] front[a]).record == r
            && front[a].names == names by {
            assert(links[a].record == r);
        }
        lemma_sums_are_shares(ix, front, r, names);
        assert(name_numbers(links).drop_last() =~= name_numbers(front));
        assert(links[links.len() - 1].record == r);
    }
}

proof fn lemma_once_is_whole(ix: IndexView, links: Seq<Link>, r: int, names: u32)
    requires
        each_name_once(links, r, names),
    ensures
        length_of_links(ix, links) == super::total(lengths_of(ix, ix.records[r])),
        alloc_of_links(ix, links) == super::total(allocs_of(ix, ix.records[r])),
{
    let numbers = name_numbers(links);
    lemma_sums_are_shares(ix, links, r, names);
    assert forall|a: int| 0 <= a < numbers.len() implies 0 <= #[trigger] numbers[a] < names by {
        assert(links[a].name < names);
    }
    assert forall|a: int, b: int| 0 <= a < numbers.len() && 0 <= b < numbers.len() && a
        != b implies numbers[a] != numbers[b] by {
        if a < b {
            assert(links[a].name != links[b].name);
        } else {
            assert(links[b].name != links[a].name);
        }
    }
    lemma_shares_of_all(lengths_of(ix, ix.records[r]), numbers, names, names as nat);
    lemma_shares_of_all(allocs_of(ix, ix.records[r]), numbers, names, names as nat);
    super::law_hard_links_count_once(lengths_of(ix, ix.records[r]), names);
    super::law_hard_links_count_once(allocs_of(ix, ix.records[r]), names);
}

/// A record counts once in a directory below which all its names lie, however
/// many these are: with the full sizes of its streams.
pub proof fn law_hard_links_count_once_in_a_directory(
    ix: IndexView,
    j: int,
    r: int,
    names: u32,
    fuel: nat,
)
    requires
        super::soundness::all_sound(ix, fuel),
        0 <= j < ix.records.len(),
        ix.records[j].stdinfo.directory,
        each_name_once(links_to(below(ix, j, fuel), r), r, names),
    ensures
        super::tree_metrics(ix, false).records[j].treesize == super::clip64(
            ix.records[j].first_stream.size.length + super::total(lengths_of(ix, ix.records[r]))
                + length_of_links(ix, links_elsewhere(below(ix, j, fuel), r)),
        ),
        super::repeat::nothing_to_merge(ix) ==> super::tree_metrics(
            ix,
            false,
        ).records[j].tree_allocated == super::clip64(
            ix.records[j].first_stream.size.allocated + reserved_at(ix, j) + super::total(
                allocs_of(ix, ix.records[r]),
            ) + alloc_of_links(ix, links_elsewhere(below(ix, j, fuel), r)) + reserved_of_links(
                ix,
                below(ix, j, fuel),
            ),
        ),
{
    law_figures_are_totals(ix, fuel);
    assert(has_figures(ix, super::tree_metrics(ix, false).records[j], j, fuel));
    lemma_links_split(ix, below(ix, j, fuel), r);
    lemma_once_is_whole(ix, links_to(below(ix, j, fuel), r), r, names);
}

} // verus!
