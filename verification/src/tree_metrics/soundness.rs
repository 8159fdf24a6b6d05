//! Which indexes can be walked: a walk comes to its end exactly where the lists
//! of the records on its way do, and where no directory lies within itself.

use super::{Walk, ROOT_FRS};
use crate::index::IndexView;
use vstd::prelude::*;

verus! {

/// The record that a child entry leads to.
pub open spec fn child_at(ix: IndexView, entry: int) -> Option<u32> {
    ix.position(ix.children[entry].child_frs)
}

/// The lists of record `i` come to an end inside their arrays, its children are
/// records of the index, and the same holds of them, down to the last of its
/// descendants, with no more than `fuel` records from the top to the bottom.
pub open spec fn sound(ix: IndexView, i: int, fuel: nat) -> bool
    decreases fuel,
{
    0 <= i < ix.records.len() ==> {
        let entries = super::list_of(super::child_links(ix), ix.records[i].first_child);
        &&& fuel > 0
        &&& super::streams_end(ix, ix.records[i])
        &&& ix.records[i].stdinfo.directory ==> {
            &&& super::ends_inside(super::child_links(ix), ix.records[i].first_child)
            &&& forall|j: int|
                0 <= j < entries.len() ==> (#[trigger] child_at(ix, entries[j]) matches Some(p)
                    ==> p < ix.records.len() && sound(ix, p as int, (fuel - 1) as nat))
        }
    }
}

/// A child entry leads to no record at all, or to a sound one.
pub open spec fn sound_child(ix: IndexView, entry: int, fuel: nat) -> bool {
    child_at(ix, entry) matches Some(p) ==> p < ix.records.len() && sound(ix, p as int, fuel)
}

/// What it takes for a record to be sound.
pub(super) proof fn lemma_sound_unfold(ix: IndexView, i: int, fuel: nat)
    requires
        0 <= i < ix.records.len(),
    ensures
        sound(ix, i, fuel) <==> {
            let entries = super::list_of(super::child_links(ix), ix.records[i].first_child);
            &&& fuel > 0
            &&& super::streams_end(ix, ix.records[i])
            &&& ix.records[i].stdinfo.directory ==> {
                &&& super::ends_inside(super::child_links(ix), ix.records[i].first_child)
                &&& forall|j: int|
                    0 <= j < entries.len() ==> #[trigger] sound_child(
                        ix,
                        entries[j],
                        (fuel - 1) as nat,
                    )
            }
        },
{
    let entries = super::list_of(super::child_links(ix), ix.records[i].first_child);
    if sound(ix, i, fuel) && ix.records[i].stdinfo.directory {
        assert forall|j: int| 0 <= j < entries.len() implies #[trigger] sound_child(
            ix,
            entries[j],
            (fuel - 1) as nat,
        ) by {
            assert(child_at(ix, entries[j]) is Some || child_at(ix, entries[j]) is None);
        }
    }
    if fuel > 0 && ix.records[i].stdinfo.directory && forall|j: int|
        0 <= j < entries.len() ==> #[trigger] sound_child(ix, entries[j], (fuel - 1) as nat) {
        assert forall|j: int| 0 <= j < entries.len() implies (#[trigger] child_at(
            ix,
            entries[j],
        ) matches Some(p) ==> p < ix.records.len() && sound(ix, p as int, (fuel - 1) as nat)) by {
            assert(sound_child(ix, entries[j], (fuel - 1) as nat));
        }
    }
}

/// Every record of an index is sound.
pub open spec fn all_sound(ix: IndexView, fuel: nat) -> bool {
    forall|i: int| 0 <= i < ix.records.len() ==> #[trigger] sound(ix, i, fuel)
}

/// The root directory of an index is sound, if it has one.
pub open spec fn root_sound(ix: IndexView, fuel: nat) -> bool {
    ix.position(ROOT_FRS) matches Some(p) ==> sound(ix, p as int, fuel)
}

pub(super) proof fn lemma_sound_more_fuel(ix: IndexView, i: int, f: nat, g: nat)
    requires
        sound(ix, i, f),
        f <= g,
    ensures
        sound(ix, i, g),
    decreases f,
{
    if 0 <= i < ix.records.len() {
        lemma_sound_unfold(ix, i, f);
        lemma_sound_unfold(ix, i, g);
    }
    if 0 <= i < ix.records.len() && ix.records[i].stdinfo.directory {
        let entries = super::list_of(super::child_links(ix), ix.records[i].first_child);
        assert forall|j: int| 0 <= j < entries.len() implies #[trigger] sound_child(
            ix,
            entries[j],
            (g - 1) as nat,
        ) by {
            assert(sound_child(ix, entries[j], (f - 1) as nat));
            if let Some(p) = child_at(ix, entries[j]) {
                lemma_sound_more_fuel(ix, p as int, (f - 1) as nat, (g - 1) as nat);
            }
        }
    }
}

/// `b` is `a` with some figures filled in.
pub(super) open spec fn later(a: IndexView, b: IndexView) -> bool {
    &&& b.records.len() == a.records.len()
    &&& b == a.with_records(b.records)
    &&& forall|j: int|
        0 <= j < a.records.len() ==> super::same_but_figures(#[trigger] b.records[j], a.records[j])
}

pub(super) proof fn lemma_later_trans(ix: IndexView, a: Walk, b: Walk)
    requires
        later(ix, a.ix),
        super::progress(a, b),
    ensures
        later(ix, b.ix),
{
    assert forall|j: int| 0 <= j < ix.records.len() implies super::same_but_figures(
        #[trigger] b.ix.records[j],
        ix.records[j],
    ) by {
        assert(super::same_but_figures(a.ix.records[j], ix.records[j]));
    }
    assert(b.ix =~= ix.with_records(b.ix.records));
}

pub(super) proof fn lemma_streams_end_later(
    a: IndexView,
    b: IndexView,
    x: crate::index::FileRecord,
    y: crate::index::FileRecord,
)
    requires
        b == a.with_records(b.records),
        super::same_but_figures(y, x),
    ensures
        super::streams_end(a, x) == super::streams_end(b, y),
{
    assert(super::stream_links(a) =~= super::stream_links(b));
    assert(super::internal_links(a) =~= super::internal_links(b));
    super::lemma_first_wof_of_links(
        a,
        b,
        super::list_of(super::stream_links(a), x.first_stream.next_entry),
    );
}

/// Record `i` marked as visited, before its children are.
pub(super) open spec fn entered(w: Walk, i: int) -> Walk {
    let rec = w.ix.records[i];
    w.mark(i).with_record(i, super::with_alloc(rec, super::merged_alloc(w.ix, rec)))
}

pub(super) proof fn lemma_entered(ix: IndexView, w: Walk, i: int)
    requires
        later(ix, w.ix),
        0 <= i < ix.records.len(),
    ensures
        later(ix, entered(w, i).ix),
{
    let w1 = entered(w, i);
    assert(w1.ix =~= ix.with_records(w1.ix.records));
    assert forall|j: int| 0 <= j < ix.records.len() implies super::same_but_figures(
        #[trigger] w1.ix.records[j],
        ix.records[j],
    ) by {
        assert(super::same_but_figures(w.ix.records[j], ix.records[j]));
    }
}

/// A visit comes to its end exactly where its record is sound.
pub(super) proof fn lemma_visit_ends(ix: IndexView, w: Walk, i: int, k: u32, n: u32, fuel: nat)
    requires
        later(ix, w.ix),
        w.seen.len() == w.ix.records.len(),
    ensures
        super::visit(w, i, k, n, fuel) is Some <==> sound(ix, i, fuel),
    decreases fuel, 0nat,
{
    if 0 <= i < w.ix.records.len() && fuel > 0 {
        let rec = w.ix.records[i];
        assert(super::same_but_figures(rec, ix.records[i]));
        lemma_streams_end_later(ix, w.ix, ix.records[i], rec);
        lemma_sound_unfold(ix, i, fuel);
        if rec.stdinfo.directory {
            assert(super::child_links(w.ix) =~= super::child_links(ix));
            lemma_entered(ix, w, i);
            lemma_visit_list_ends(
                ix,
                entered(w, i),
                super::list_of(super::child_links(ix), rec.first_child),
                (fuel - 1) as nat,
            );
        }
    }
}

proof fn lemma_visit_list_ends(ix: IndexView, w: Walk, entries: Seq<int>, fuel: nat)
    requires
        later(ix, w.ix),
        w.seen.len() == w.ix.records.len(),
    ensures
        super::visit_list(w, entries, fuel) is Some <==> (forall|j: int|
            0 <= j < entries.len() ==> #[trigger] sound_child(ix, entries[j], fuel)),
    decreases fuel, entries.len() + 1,
{
    if entries.len() > 0 {
        let front = entries.drop_last();
        lemma_visit_list_ends(ix, w, front, fuel);
        if super::visit_list(w, front, fuel) is Some {
            super::lemma_visit_list_progress(w, front, fuel);
            let w1 = (super::visit_list(w, front, fuel)->0).0;
            lemma_later_trans(ix, w, w1);
            let entry = w1.ix.children[entries.last()];
            assert(w1.ix.position(entry.child_frs) == child_at(ix, entries.last()));
            if let Some(p) = child_at(ix, entries.last()) {
                let names = w1.ix.records[p as int].name_count as u32;
                lemma_visit_ends(
                    ix,
                    w1,
                    p as int,
                    super::name_info_of(entry.name_index as u32, names),
                    names,
                    fuel,
                );
            }
            assert forall|j: int| 0 <= j < entries.len() implies (#[trigger] sound_child(
                ix,
                entries[j],
                fuel,
            ) || j == entries.len() - 1) by {
                if j < entries.len() - 1 {
                    assert(sound_child(ix, front[j], fuel));
                }
            }
            assert(super::visit_list(w, entries, fuel) is Some <==> sound_child(
                ix,
                entries[entries.len() - 1],
                fuel,
            ));
        } else {
            let j = choose|j: int| 0 <= j < front.len() && !sound_child(ix, front[j], fuel);
            assert(!sound_child(ix, entries[j], fuel));
        }
    }
}

/// The records visited so far are sound.
spec fn seen_sound(ix: IndexView, w: Walk, fuel: nat) -> bool {
    forall|j: int| 0 <= j < w.seen.len() && #[trigger] w.seen[j] ==> sound(ix, j, fuel)
}

proof fn lemma_visit_sees_sound(
    ix: IndexView,
    w: Walk,
    i: int,
    k: u32,
    n: u32,
    fuel: nat,
    limit: nat,
)
    requires
        later(ix, w.ix),
        w.seen.len() == w.ix.records.len(),
        super::visit(w, i, k, n, fuel) is Some,
        seen_sound(ix, w, limit),
        fuel <= limit,
    ensures
        seen_sound(ix, (super::visit(w, i, k, n, fuel)->0).0, limit),
    decreases fuel, 0nat,
{
    if 0 <= i < w.ix.records.len() {
        lemma_visit_ends(ix, w, i, k, n, fuel);
        lemma_sound_more_fuel(ix, i, fuel, limit);
        let rec = w.ix.records[i];
        let w1 = entered(w, i);
        assert(seen_sound(ix, w1, limit)) by {
            assert forall|j: int| 0 <= j < w1.seen.len() && #[trigger] w1.seen[j] implies sound(
                ix,
                j,
                limit,
            ) by {
                assert(j == i || w.seen[j]);
            }
        }
        if rec.stdinfo.directory {
            lemma_entered(ix, w, i);
            lemma_visit_list_sees_sound(
                ix,
                w1,
                super::list_of(super::child_links(w.ix), rec.first_child),
                (fuel - 1) as nat,
                limit,
            );
        }
    }
}

proof fn lemma_visit_list_sees_sound(
    ix: IndexView,
    w: Walk,
    entries: Seq<int>,
    fuel: nat,
    limit: nat,
)
    requires
        later(ix, w.ix),
        w.seen.len() == w.ix.records.len(),
        super::visit_list(w, entries, fuel) is Some,
        seen_sound(ix, w, limit),
        fuel <= limit,
    ensures
        seen_sound(ix, (super::visit_list(w, entries, fuel)->0).0, limit),
    decreases fuel, entries.len() + 1,
{
    if entries.len() > 0 {
        let front = entries.drop_last();
        lemma_visit_list_sees_sound(ix, w, front, fuel, limit);
        super::lemma_visit_list_progress(w, front, fuel);
        let w1 = (super::visit_list(w, front, fuel)->0).0;
        lemma_later_trans(ix, w, w1);
        let entry = w1.ix.children[entries.last()];
        if let Some(p) = w1.ix.position(entry.child_frs) {
            let names = w1.ix.records[p as int].name_count as u32;
            lemma_visit_sees_sound(
                ix,
                w1,
                p as int,
                super::name_info_of(entry.name_index as u32, names),
                names,
                fuel,
                limit,
            );
        }
    }
}

/// A sweep comes to its end exactly where the records that it meets are sound.
proof fn lemma_sweep_ends(ix: IndexView, w: Walk, upto: nat, fuel: nat)
    requires
        later(ix, w.ix),
        w.seen.len() == w.ix.records.len(),
        upto <= ix.records.len(),
        seen_sound(ix, w, fuel),
    ensures
        super::sweep(w, upto, fuel) is Some <==> (forall|i: int|
            0 <= i < upto ==> #[trigger] sound(ix, i, fuel)),
        super::sweep(w, upto, fuel) matches Some(w2) ==> seen_sound(ix, w2, fuel),
    decreases upto,
{
    if upto > 0 {
        let front = (upto - 1) as nat;
        lemma_sweep_ends(ix, w, front, fuel);
        if super::sweep(w, front, fuel) is Some {
            super::lemma_sweep_progress(w, front, fuel);
            let w1 = super::sweep(w, front, fuel)->0;
            lemma_later_trans(ix, w, w1);
            if !w1.seen[upto - 1] {
                lemma_visit_ends(ix, w1, upto - 1, 0, 1, fuel);
                if super::visit(w1, upto - 1, 0, 1, fuel) is Some {
                    lemma_visit_sees_sound(ix, w1, upto - 1, 0, 1, fuel, fuel);
                }
            }
            assert(super::sweep(w, upto, fuel) is Some <==> sound(ix, upto - 1, fuel));
        }
    }
}

pub(super) proof fn lemma_walk_ends(ix: IndexView, skip_orphans: bool, fuel: nat)
    ensures
        super::walk_within(ix, skip_orphans, fuel) is Some <==> if skip_orphans {
            root_sound(ix, fuel)
        } else {
            all_sound(ix, fuel)
        },
{
    let start = Walk { ix, seen: Seq::new(ix.records.len(), |i: int| false) };
    assert(ix =~= ix.with_records(ix.records));
    assert(later(ix, start.ix));
    match ix.position(ROOT_FRS) {
        Some(p) => {
            lemma_visit_ends(ix, start, p as int, 0, 1, fuel);
            if super::visit(start, p as int, 0, 1, fuel) is Some {
                super::lemma_visit_progress(start, p as int, 0, 1, fuel);
                let w = (super::visit(start, p as int, 0, 1, fuel)->0).0;
                lemma_later_trans(ix, start, w);
                lemma_visit_sees_sound(ix, start, p as int, 0, 1, fuel, fuel);
                lemma_sweep_ends(ix, w, ix.records.len(), fuel);
            } else {
                assert(!sound(ix, p as int, fuel));
            }
        },
        None => {
            lemma_sweep_ends(ix, start, ix.records.len(), fuel);
        },
    }
}

/// A walk that leaves out what cannot be reached comes to its end exactly where
/// the root directory is sound, and a walk over everything exactly where all
/// records are.
pub proof fn law_walks_end_where_records_are_sound(ix: IndexView, skip_orphans: bool)
    ensures
        super::can_be_walked(ix, skip_orphans) <==> if skip_orphans {
            exists|fuel: nat| root_sound(ix, fuel)
        } else {
            exists|fuel: nat| all_sound(ix, fuel)
        },
{
    if super::can_be_walked(ix, skip_orphans) {
        let fuel = choose|fuel: nat| super::walk_within(ix, skip_orphans, fuel) is Some;
        lemma_walk_ends(ix, skip_orphans, fuel);
    }
    if skip_orphans && exists|fuel: nat| root_sound(ix, fuel) {
        let fuel = choose|fuel: nat| root_sound(ix, fuel);
        lemma_walk_ends(ix, skip_orphans, fuel);
    }
    if !skip_orphans && exists|fuel: nat| all_sound(ix, fuel) {
        let fuel = choose|fuel: nat| all_sound(ix, fuel);
        lemma_walk_ends(ix, skip_orphans, fuel);
    }
}

/// An index that can be walked as a whole can be walked from its root.
pub proof fn law_leaving_orphans_out_is_easier(ix: IndexView)
    requires
        super::can_be_walked(ix, false),
    ensures
        super::can_be_walked(ix, true),
{
    law_walks_end_where_records_are_sound(ix, false);
    law_walks_end_where_records_are_sound(ix, true);
    let fuel = choose|fuel: nat| all_sound(ix, fuel);
    if let Some(p) = ix.position(ROOT_FRS) {
        assert(sound(ix, p as int, fuel));
    }
    assert(root_sound(ix, fuel));
}

/// The child of an entry is known to the index and stands below `bound`.
pub open spec fn child_below(
    ix: IndexView,
    entry: int,
    rank: spec_fn(int) -> nat,
    bound: nat,
) -> bool {
    match child_at(ix, entry) {
        Some(p) => p < ix.records.len() && rank(p as int) < bound,
        None => true,
    }
}

/// Every list of the index comes to an end inside its array, and `rank` falls
/// from each directory to each of its children: no directory lies, however far
/// down, within itself.
pub open spec fn is_tree(ix: IndexView, rank: spec_fn(int) -> nat) -> bool {
    forall|i: int| 0 <= i < ix.records.len() ==> #[trigger] stands_in_tree(ix, rank, i)
}

/// Record `i` has lists that come to an end, and stands above its children.
pub open spec fn stands_in_tree(ix: IndexView, rank: spec_fn(int) -> nat, i: int) -> bool {
    let entries = super::list_of(super::child_links(ix), ix.records[i].first_child);
    &&& super::streams_end(ix, ix.records[i])
    &&& ix.records[i].stdinfo.directory ==> {
        &&& super::ends_inside(super::child_links(ix), ix.records[i].first_child)
        &&& forall|j: int|
            0 <= j < entries.len() ==> #[trigger] child_below(ix, entries[j], rank, rank(i))
    }
}

spec fn max_rank(rank: spec_fn(int) -> nat, n: nat) -> nat
    decreases n,
{
    if n == 0 {
        0
    } else {
        let m = max_rank(rank, (n - 1) as nat);
        if rank(n - 1) > m {
            rank(n - 1)
        } else {
            m
        }
    }
}

proof fn lemma_max_rank(rank: spec_fn(int) -> nat, n: nat)
    ensures
        forall|i: int| 0 <= i < n ==> #[trigger] rank(i) <= max_rank(rank, n),
    decreases n,
{
    if n > 0 {
        lemma_max_rank(rank, (n - 1) as nat);
    }
}

proof fn lemma_trees_are_sound(ix: IndexView, rank: spec_fn(int) -> nat, i: int, fuel: nat)
    requires
        is_tree(ix, rank),
        0 <= i < ix.records.len() ==> rank(i) < fuel,
    ensures
        sound(ix, i, fuel),
    decreases fuel,
{
    if 0 <= i < ix.records.len() {
        assert(stands_in_tree(ix, rank, i));
        lemma_sound_unfold(ix, i, fuel);
        let entries = super::list_of(super::child_links(ix), ix.records[i].first_child);
        if ix.records[i].stdinfo.directory {
            assert forall|j: int| 0 <= j < entries.len() implies #[trigger] sound_child(
                ix,
                entries[j],
                (fuel - 1) as nat,
            ) by {
                assert(child_below(ix, entries[j], rank, rank(i)));
                if let Some(p) = child_at(ix, entries[j]) {
                    lemma_trees_are_sound(ix, rank, p as int, (fuel - 1) as nat);
                }
            }
        }
    }
}

/// The least number of records from the top to the bottom with which record `i`
/// is sound, not more than `fuel`.
pub(super) open spec fn height(ix: IndexView, i: int, fuel: nat) -> nat
    decreases fuel,
{
    if fuel == 0 || !sound(ix, i, (fuel - 1) as nat) {
        fuel
    } else {
        height(ix, i, (fuel - 1) as nat)
    }
}

pub(super) proof fn lemma_height(ix: IndexView, i: int, fuel: nat, f: nat)
    requires
        sound(ix, i, fuel),
        f <= fuel,
    ensures
        sound(ix, i, height(ix, i, fuel)),
        sound(ix, i, f) ==> height(ix, i, fuel) <= f,
    decreases fuel,
{
    if fuel > 0 && sound(ix, i, (fuel - 1) as nat) {
        lemma_height(ix, i, (fuel - 1) as nat, if f == fuel { (f - 1) as nat } else { f });
    } else if f < fuel && sound(ix, i, f) {
        lemma_sound_more_fuel(ix, i, f, (fuel - 1) as nat);
    }
}

/// An index can be walked as a whole exactly where its lists come to an end
/// inside their arrays and no directory lies within itself.
pub proof fn law_trees_can_be_walked(ix: IndexView)
    ensures
        super::can_be_walked(ix, false) <==> exists|rank: spec_fn(int) -> nat|
            #[trigger] is_tree(ix, rank),
{
    law_walks_end_where_records_are_sound(ix, false);
    if exists|rank: spec_fn(int) -> nat| #[trigger] is_tree(ix, rank) {
        let rank = choose|rank: spec_fn(int) -> nat| #[trigger] is_tree(ix, rank);
        lemma_max_rank(rank, ix.records.len());
        let fuel = max_rank(rank, ix.records.len()) + 1;
        assert forall|i: int| 0 <= i < ix.records.len() implies #[trigger] sound(ix, i, fuel) by {
            assert(rank(i) <= max_rank(rank, ix.records.len()));
            lemma_trees_are_sound(ix, rank, i, fuel);
        }
        assert(all_sound(ix, fuel));
    }
    if super::can_be_walked(ix, false) {
        let fuel = choose|fuel: nat| all_sound(ix, fuel);
        let rank = |i: int| height(ix, i, fuel);
        assert forall|i: int| 0 <= i < ix.records.len() implies #[trigger] stands_in_tree(
            ix,
            rank,
            i,
        ) by {
            assert(sound(ix, i, fuel));
            lemma_height(ix, i, fuel, fuel);
            let h = height(ix, i, fuel);
            lemma_sound_unfold(ix, i, h);
            let entries = super::list_of(super::child_links(ix), ix.records[i].first_child);
            if ix.records[i].stdinfo.directory {
                assert forall|j: int| 0 <= j < entries.len() implies #[trigger] child_below(
                    ix,
                    entries[j],
                    rank,
                    rank(i),
                ) by {
                    assert(sound_child(ix, entries[j], (h - 1) as nat));
                    if let Some(p) = child_at(ix, entries[j]) {
                        assert(sound(ix, p as int, fuel));
                        lemma_height(ix, p as int, fuel, (h - 1) as nat);
                    }
                }
            }
        }
        assert(is_tree(ix, rank));
    }
}

} // verus!
