//! Filling in the figures a second time.

use super::{Walk, ROOT_FRS, WOF_REPARSE_TAG};
use crate::index::IndexView;
use vstd::prelude::*;

verus! {

/// No record counts compressed data to its unnamed stream.
pub open spec fn nothing_to_merge(ix: IndexView) -> bool {
    forall|j: int|
        0 <= j < ix.records.len() ==> (#[trigger] ix.records[j]).reparse_tag != WOF_REPARSE_TAG
}

/// Two walks over indexes that differ in nothing but figures, which have visited
/// the same records.
spec fn alike(a: Walk, b: Walk) -> bool {
    &&& a.seen == b.seen
    &&& a.seen.len() == a.ix.records.len()
    &&& b.ix.records.len() == a.ix.records.len()
    &&& b.ix == a.ix.with_records(b.ix.records)
    &&& nothing_to_merge(a.ix)
    &&& forall|j: int|
        0 <= j < a.ix.records.len() ==> super::same_but_figures(
            #[trigger] b.ix.records[j],
            a.ix.records[j],
        )
}

/// Going from `a` to `c` as from `b` to `d`, every record was either filled in
/// with the same figures, or left alone both times.
spec fn in_step(a: Walk, b: Walk, c: Walk, d: Walk) -> bool {
    &&& c.seen == d.seen
    &&& c.ix.records.len() == a.ix.records.len()
    &&& d.ix.records.len() == b.ix.records.len()
    &&& forall|j: int|
        0 <= j < a.ix.records.len() ==> {
            ||| (#[trigger] c.ix.records[j]) == d.ix.records[j]
            ||| c.ix.records[j] == a.ix.records[j] && d.ix.records[j] == b.ix.records[j]
        }
}

proof fn lemma_in_step_trans(a: Walk, b: Walk, c: Walk, d: Walk, e: Walk, f: Walk)
    requires
        in_step(a, b, c, d),
        in_step(c, d, e, f),
        a.ix.records.len() == b.ix.records.len(),
    ensures
        in_step(a, b, e, f),
{
    assert forall|j: int| 0 <= j < a.ix.records.len() implies {
        ||| (#[trigger] e.ix.records[j]) == f.ix.records[j]
        ||| e.ix.records[j] == a.ix.records[j] && f.ix.records[j] == b.ix.records[j]
    } by {
        assert(c.ix.records[j] == c.ix.records[j]);
    }
}

/// Two walks stay alike.
proof fn lemma_stays_alike(a: Walk, b: Walk, c: Walk, d: Walk)
    requires
        alike(a, b),
        super::progress(a, c),
        super::progress(b, d),
        c.seen == d.seen,
    ensures
        alike(c, d),
{
    assert forall|j: int| 0 <= j < c.ix.records.len() implies super::same_but_figures(
        #[trigger] d.ix.records[j],
        c.ix.records[j],
    ) by {
        assert(super::same_but_figures(c.ix.records[j], a.ix.records[j]));
        assert(super::same_but_figures(b.ix.records[j], a.ix.records[j]));
    }
    assert forall|j: int| 0 <= j < c.ix.records.len() implies (
    #[trigger] c.ix.records[j]).reparse_tag != WOF_REPARSE_TAG by {
        assert(a.ix.records[j].reparse_tag != WOF_REPARSE_TAG);
    }
    assert(d.ix =~= c.ix.with_records(d.ix.records));
}

proof fn lemma_visit_repeats(a: Walk, b: Walk, i: int, k: u32, n: u32, fuel: nat)
    requires
        alike(a, b),
        super::visit(a, i, k, n, fuel) is Some,
    ensures
        super::visit(b, i, k, n, fuel) is Some,
        (super::visit(a, i, k, n, fuel)->0).1 == (super::visit(b, i, k, n, fuel)->0).1,
        in_step(
            a,
            b,
            (super::visit(a, i, k, n, fuel)->0).0,
            (super::visit(b, i, k, n, fuel)->0).0,
        ),
    decreases fuel, 0nat,
{
    if 0 <= i < a.ix.records.len() {
        let x = a.ix.records[i];
        let y = b.ix.records[i];
        let names = if n == 0 {
            1
        } else {
            n
        };
        assert(super::same_but_figures(y, x));
        super::soundness::lemma_streams_end_later(a.ix, b.ix, x, y);
        super::lemma_own_streams_of_links(a.ix, b.ix, x, k, names);
        assert(super::own_length(b.ix, y, k, names) == super::own_length(b.ix, x, k, names));
        assert(super::own_alloc(b.ix, y, k, names) == super::own_alloc(b.ix, x, k, names));
        assert(super::child_links(a.ix) =~= super::child_links(b.ix));
        let a1 = a.mark(i);
        let b1 = b.mark(i);
        assert(a1.with_record(i, super::with_alloc(x, super::merged_alloc(a.ix, x))) =~= a1) by {
            assert(a.ix.records.update(i, x) =~= a.ix.records);
            assert(a.ix.with_records(a.ix.records) =~= a.ix);
        }
        assert(b1.with_record(i, super::with_alloc(y, super::merged_alloc(b.ix, y))) =~= b1) by {
            assert(b.ix.records.update(i, y) =~= b.ix.records);
            assert(b.ix.with_records(b.ix.records) =~= b.ix);
        }
        if x.stdinfo.directory {
            let l = super::list_of(super::child_links(a.ix), x.first_child);
            let below = (fuel - 1) as nat;
            lemma_visit_list_repeats(a1, b1, l, below);
            super::lemma_visit_list_progress(a1, l, below);
            super::lemma_visit_list_progress(b1, l, below);
            let a2 = (super::visit_list(a1, l, below)->0).0;
            let b2 = (super::visit_list(b1, l, below)->0).0;
            lemma_stays_alike(a1, b1, a2, b2);
            assert(super::same_but_figures(b2.ix.records[i], a2.ix.records[i]));
            assert(super::same_but_figures(a2.ix.records[i], a1.ix.records[i]));
            let a3 = (super::visit(a, i, k, n, fuel)->0).0;
            let b3 = (super::visit(b, i, k, n, fuel)->0).0;
            assert forall|j: int| 0 <= j < a.ix.records.len() implies {
                ||| (#[trigger] a3.ix.records[j]) == b3.ix.records[j]
                ||| a3.ix.records[j] == a.ix.records[j] && b3.ix.records[j] == b.ix.records[j]
            } by {
                assert(a2.ix.records[j] == a2.ix.records[j]);
            }
        }
    }
}

proof fn lemma_visit_list_repeats(a: Walk, b: Walk, entries: Seq<int>, fuel: nat)
    requires
        alike(a, b),
        super::visit_list(a, entries, fuel) is Some,
    ensures
        super::visit_list(b, entries, fuel) is Some,
        (super::visit_list(a, entries, fuel)->0).1 == (super::visit_list(b, entries, fuel)->0).1,
        in_step(
            a,
            b,
            (super::visit_list(a, entries, fuel)->0).0,
            (super::visit_list(b, entries, fuel)->0).0,
        ),
    decreases fuel, entries.len() + 1,
{
    if entries.len() > 0 {
        let front = entries.drop_last();
        lemma_visit_list_repeats(a, b, front, fuel);
        super::lemma_visit_list_progress(a, front, fuel);
        super::lemma_visit_list_progress(b, front, fuel);
        let a1 = (super::visit_list(a, front, fuel)->0).0;
        let b1 = (super::visit_list(b, front, fuel)->0).0;
        lemma_stays_alike(a, b, a1, b1);
        let entry = a1.ix.children[entries.last()];
        if let Some(p) = a1.ix.position(entry.child_frs) {
            assert(super::same_but_figures(b1.ix.records[p as int], a1.ix.records[p as int]));
            let names = a1.ix.records[p as int].name_count as u32;
            let k = super::name_info_of(entry.name_index as u32, names);
            lemma_visit_repeats(a1, b1, p as int, k, names, fuel);
            lemma_in_step_trans(
                a,
                b,
                a1,
                b1,
                (super::visit(a1, p as int, k, names, fuel)->0).0,
                (super::visit(b1, p as int, k, names, fuel)->0).0,
            );
        }
    }
}

proof fn lemma_sweep_repeats(a: Walk, b: Walk, upto: nat, fuel: nat)
    requires
        alike(a, b),
        upto <= a.ix.records.len(),
        super::sweep(a, upto, fuel) is Some,
    ensures
        super::sweep(b, upto, fuel) is Some,
        in_step(a, b, super::sweep(a, upto, fuel)->0, super::sweep(b, upto, fuel)->0),
    decreases upto,
{
    if upto > 0 {
        let front = (upto - 1) as nat;
        lemma_sweep_repeats(a, b, front, fuel);
        super::lemma_sweep_progress(a, front, fuel);
        super::lemma_sweep_progress(b, front, fuel);
        let a1 = super::sweep(a, front, fuel)->0;
        let b1 = super::sweep(b, front, fuel)->0;
        lemma_stays_alike(a, b, a1, b1);
        if !a1.seen[upto - 1] {
            lemma_visit_repeats(a1, b1, upto - 1, 0, 1, fuel);
            lemma_in_step_trans(
                a,
                b,
                a1,
                b1,
                (super::visit(a1, upto - 1, 0, 1, fuel)->0).0,
                (super::visit(b1, upto - 1, 0, 1, fuel)->0).0,
            );
        }
    }
}

/// Filling in the figures a second time changes nothing. Records whose
/// compressed data is counted to their unnamed stream are left out: a second
/// time it would be counted once more.
pub proof fn law_second_run_changes_nothing(ix: IndexView, skip_orphans: bool)
    requires
        super::can_be_walked(ix, skip_orphans),
        nothing_to_merge(ix),
    ensures
        super::can_be_walked(super::tree_metrics(ix, skip_orphans), skip_orphans),
        super::tree_metrics(super::tree_metrics(ix, skip_orphans), skip_orphans)
            == super::tree_metrics(ix, skip_orphans),
{
    let fuel = choose|fuel: nat| super::walk_within(ix, skip_orphans, fuel) is Some;
    let out = super::tree_metrics(ix, skip_orphans);
    super::law_only_figures_change(ix, skip_orphans);
    let a = Walk { ix, seen: Seq::new(ix.records.len(), |i: int| false) };
    let b = Walk { ix: out, seen: Seq::new(out.records.len(), |i: int| false) };
    assert(a.seen =~= b.seen);
    assert(alike(a, b));
    let (a1, b1) = match ix.position(ROOT_FRS) {
        Some(p) => {
            lemma_visit_repeats(a, b, p as int, 0, 1, fuel);
            super::lemma_visit_progress(a, p as int, 0, 1, fuel);
            super::lemma_visit_progress(b, p as int, 0, 1, fuel);
            (
                (super::visit(a, p as int, 0, 1, fuel)->0).0,
                (super::visit(b, p as int, 0, 1, fuel)->0).0,
            )
        },
        None => {
            assert(a.ix =~= a.ix.with_records(a.ix.records));
            assert(b.ix =~= b.ix.with_records(b.ix.records));
            (a, b)
        },
    };
    lemma_stays_alike(a, b, a1, b1);
    if !skip_orphans {
        lemma_sweep_repeats(a1, b1, ix.records.len(), fuel);
        lemma_in_step_trans(
            a,
            b,
            a1,
            b1,
            super::sweep(a1, ix.records.len(), fuel)->0,
            super::sweep(b1, ix.records.len(), fuel)->0,
        );
    }
    let a2 = super::walk_within(ix, skip_orphans, fuel)->0;
    let b2 = super::walk_within(out, skip_orphans, fuel)->0;
    assert(in_step(a, b, a2, b2));
    super::law_figures_are_unique(out, skip_orphans, fuel);
    let again = super::tree_metrics(out, skip_orphans);
    super::law_only_figures_change(out, skip_orphans);
    assert(again.records =~= out.records) by {
        assert forall|j: int| 0 <= j < out.records.len() implies again.records[j]
            == out.records[j] by {
            assert(a2.ix.records[j] == a2.ix.records[j]);
        }
    }
    assert(again =~= out);
}

} // verus!
