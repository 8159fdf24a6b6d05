//! Whether the directories of an index can be walked: whether its lists come to
//! an end and no directory lies within itself.

use super::{ROOT_FRS, WOF_REPARSE_TAG};
use crate::index::{FileRecord, MftIndex, NO_ENTRY};
use vstd::prelude::*;

verus! {

/// Positions as they are counted in specifications.
pub open spec fn positions(v: Seq<usize>) -> Seq<int> {
    Seq::new(v.len(), |i: int| v[i] as int)
}

/// From any position of a list on, the list is the rest of it.
proof fn lemma_tail(next: Seq<u32>, head: u32, j: int)
    requires
        super::ends(next, head),
        0 <= j < super::list_of(next, head).len(),
    ensures
        0 <= super::list_of(next, head)[j] < next.len(),
        super::list_of(next, head)[j] < NO_ENTRY,
        super::list_of(next, super::list_of(next, head)[j] as u32) == super::list_of(
            next,
            head,
        ).skip(j),
    decreases j,
{
    super::lemma_list_unfold(next, head);
    let l = super::list_of(next, head);
    if j == 0 {
        assert(l.skip(0) =~= l);
    } else {
        let rest = super::list_of(next, next[head as int]);
        lemma_tail(next, next[head as int], j - 1);
        assert(l[j] == rest[j - 1]);
        assert(l.skip(j) =~= rest.skip(j - 1));
    }
}

/// A list that comes to an end is no longer than its array.
proof fn lemma_list_is_short(next: Seq<u32>, head: u32)
    requires
        super::ends(next, head),
    ensures
        super::list_of(next, head).len() <= next.len(),
{
    let l = super::list_of(next, head);
    assert(l.no_duplicates()) by {
        assert forall|i: int, j: int| 0 <= i < l.len() && 0 <= j < l.len() && i != j implies l[i]
            != l[j] by {
            lemma_tail(next, head, i);
            lemma_tail(next, head, j);
            assert(l.skip(i).len() != l.skip(j).len());
        }
    }
    l.unique_seq_to_set();
    let all = vstd::set_lib::set_int_range(0, next.len() as int);
    vstd::set_lib::lemma_int_range(0, next.len() as int);
    assert(l.to_set().subset_of(all)) by {
        assert forall|x: int| l.to_set().contains(x) implies all.contains(x) by {
            let j = choose|j: int| 0 <= j < l.len() && l[j] == x;
            lemma_tail(next, head, j);
        }
    }
    vstd::set_lib::lemma_len_subset(l.to_set(), all);
}

proof fn lemma_ends_step(next: Seq<u32>, head: u32)
    requires
        head != NO_ENTRY,
        head < next.len(),
    ensures
        super::ends(next, head) <==> super::ends(next, next[head as int]),
{
    let rest = next[head as int];
    if super::ends(next, head) {
        super::lemma_list_unfold(next, head);
    }
    if super::ends(next, rest) {
        let f = choose|fuel: nat| super::list_within(next, rest, fuel) is Some;
        assert(super::list_within(next, head, f + 1) is Some);
    }
}

/// Follows a list to its end, if it has one.
fn follow(next: &Vec<u32>, head: u32) -> (r: Option<Vec<usize>>)
    ensures
        match r {
            Some(v) => super::ends(next@, head) && positions(v@) == super::list_of(next@, head),
            None => !super::ends(next@, head),
        },
{
    let n: usize = next.len();
    let mut out: Vec<usize> = Vec::new();
    let mut cur: u32 = head;
    assert(super::ends(next@, head) ==> super::list_of(next@, head) =~= positions(out@)
        + super::list_of(next@, cur));
    while cur != NO_ENTRY && (cur as usize) < n
        invariant
            n == next@.len(),
            out@.len() <= n,
            super::ends(next@, head) <==> super::ends(next@, cur),
            super::ends(next@, head) ==> super::list_of(next@, head) == positions(out@)
                + super::list_of(next@, cur),
        decreases n - out@.len(),
    {
        proof {
            lemma_ends_step(next@, cur);
            if super::ends(next@, head) {
                super::lemma_list_unfold(next@, cur);
                lemma_list_is_short(next@, head);
            }
        }
        if out.len() == n {
            return None;
        }
        let ghost before = out@;
        out.push(cur as usize);
        assert(super::ends(next@, head) ==> super::list_of(next@, head) =~= positions(out@)
            + super::list_of(next@, next@[cur as int])) by {
            assert(positions(out@) =~= positions(before).push(cur as int));
        }
        cur = next[cur as usize];
    }
    proof {
        assert(super::list_within(next@, cur, 0) is Some);
        super::lemma_list_unfold(next@, cur);
        assert(super::list_of(next@, head) =~= positions(out@));
    }
    Some(out)
}

/// Whether a list that was followed ends with `NO_ENTRY`.
fn stops_inside(next: &Vec<u32>, head: u32, list: &Vec<usize>) -> (r: bool)
    requires
        super::ends(next@, head),
        positions(list@) == super::list_of(next@, head),
    ensures
        r == super::ends_inside(next@, head),
{
    let n: usize = list.len();
    assert(super::list_of(next@, head).len() == n);
    if n == 0 {
        head == NO_ENTRY
    } else {
        proof {
            lemma_tail(next@, head, n - 1);
            assert(positions(list@)[n - 1] == list@[n - 1]);
        }
        next[list[n - 1]] == NO_ENTRY
    }
}

/// Whether one of some streams holds compressed file data.
fn holds_wof(index: &MftIndex, list: &Vec<usize>) -> (r: bool)
    requires
        forall|j: int|
            0 <= j < list@.len() ==> (#[trigger] list@[j]) < index@.streams.len() && list@[j]
                < NO_ENTRY,
    ensures
        r == (super::first_wof(index@, positions(list@)) != NO_ENTRY),
{
    let name: [u8; 17] = [
        0x57, 0x6F, 0x66, 0x43, 0x6F, 0x6D, 0x70, 0x72, 0x65, 0x73, 0x73, 0x65, 0x64, 0x44, 0x61,
        0x74, 0x61,
    ];
    assert(name@ =~= super::wof_name());
    let ghost all = positions(list@);
    assert(all.skip(0) =~= all);
    let n: usize = list.len();
    for i in 0..n
        invariant
            n == list@.len(),
            all == positions(list@),
            name@ == super::wof_name(),
            super::first_wof(index@, all) == super::first_wof(index@, all.skip(i as int)),
            forall|j: int|
                0 <= j < list@.len() ==> (#[trigger] list@[j]) < index@.streams.len() && list@[j]
                    < NO_ENTRY,
    {
        assert(all.skip(i as int)[0] == list@[i as int]);
        assert(all.skip(i as int).drop_first() =~= all.skip(i + 1));
        if index.name_is(index.streams[list[i]].name, name.as_slice()) {
            return true;
        }
    }
    assert(all.skip(n as int).len() == 0);
    false
}

/// Whether the stream lists of a record come to an end, and the search for
/// compressed data does not leave the array.
fn streams_are_sound(
    index: &MftIndex,
    named: &Vec<u32>,
    internal: &Vec<u32>,
    rec: &FileRecord,
) -> (r: bool)
    requires
        named@ == super::stream_links(index@),
        internal@ == super::internal_links(index@),
    ensures
        r == super::streams_end(index@, *rec),
{
    if rec.first_internal_stream != NO_ENTRY && index.internal_streams.len() > 0 {
        if follow(internal, rec.first_internal_stream).is_none() {
            return false;
        }
    }
    let head: u32 = rec.first_stream.next_entry;
    match follow(named, head) {
        None => false,
        Some(list) => {
            if rec.reparse_tag != WOF_REPARSE_TAG {
                return true;
            }
            assert forall|j: int| 0 <= j < list@.len() implies (#[trigger] list@[j])
                < index@.streams.len() && list@[j] < NO_ENTRY by {
                lemma_tail(named@, head, j);
                assert(positions(list@)[j] == list@[j]);
            }
            holds_wof(index, &list) || stops_inside(named, head, &list)
        },
    }
}

/// The lists of record `i` come to an end inside their arrays, and its children
/// are records of the index.
pub open spec fn well_linked(ix: crate::index::IndexView, i: int) -> bool {
    &&& super::streams_end(ix, ix.records[i])
    &&& ix.records[i].stdinfo.directory ==> {
        let entries = super::list_of(super::child_links(ix), ix.records[i].first_child);
        &&& super::ends_inside(super::child_links(ix), ix.records[i].first_child)
        &&& forall|j: int|
            0 <= j < entries.len() ==> (#[trigger] super::soundness::child_at(ix, entries[j]) matches Some(p) ==> p
                < ix.records.len())
    }
}

/// Record `c` is a child of directory `i`.
pub open spec fn has_child(ix: crate::index::IndexView, i: int, c: int) -> bool {
    let entries = super::list_of(super::child_links(ix), ix.records[i].first_child);
    &&& ix.records[i].stdinfo.directory
    &&& exists|j: int|
        0 <= j < entries.len() && (#[trigger] super::soundness::child_at(ix, entries[j]) matches Some(p) && p == c)
}

/// Some positions are those of the children of record `i`.
spec fn are_children(ix: crate::index::IndexView, i: int, v: Seq<usize>) -> bool {
    &&& forall|k: int|
        0 <= k < v.len() ==> (#[trigger] v[k]) < ix.records.len() && has_child(ix, i, v[k] as int)
    &&& forall|c: int|
        #[trigger] has_child(ix, i, c) ==> exists|k: int| 0 <= k < v.len() && #[trigger] v[k] == c
}

/// The children of record `i`, if its lists are sound.
fn children_of(
    index: &MftIndex,
    links: &Vec<u32>,
    named: &Vec<u32>,
    internal: &Vec<u32>,
    i: usize,
) -> (r: Option<Vec<usize>>)
    requires
        i < index@.records.len(),
        links@ == super::child_links(index@),
        named@ == super::stream_links(index@),
        internal@ == super::internal_links(index@),
    ensures
        r is Some <==> well_linked(index@, i as int),
        r matches Some(v) ==> are_children(index@, i as int, v@),
{
    let rec: &FileRecord = &index.records[i];
    if !streams_are_sound(index, named, internal, rec) {
        return None;
    }
    let mut out: Vec<usize> = Vec::new();
    if !rec.stdinfo.is_directory() {
        return Some(out);
    }
    let head: u32 = rec.first_child;
    let list: Vec<usize> = match follow(links, head) {
        None => {
            return None;
        },
        Some(list) => list,
    };
    if !stops_inside(links, head, &list) {
        return None;
    }
    let n: usize = list.len();
    let ghost entries = super::list_of(links@, head);
    for k in 0..n
        invariant
            n == list@.len(),
            i < index@.records.len(),
            links@ == super::child_links(index@),
            super::ends(links@, head),
            head == index@.records[i as int].first_child,
            index@.records[i as int].stdinfo.directory,
            entries == super::list_of(super::child_links(index@), head),
            positions(list@) == entries,
            forall|j: int|
                0 <= j < k ==> (#[trigger] super::soundness::child_at(index@, entries[j]) matches Some(p) ==> p
                    < index@.records.len()),
            forall|m: int|
                0 <= m < out@.len() ==> (#[trigger] out@[m]) < index@.records.len() && has_child(
                    index@,
                    i as int,
                    out@[m] as int,
                ),
            forall|j: int|
                0 <= j < k ==> (#[trigger] super::soundness::child_at(index@, entries[j]) matches Some(p) ==> exists|
                    m: int,
                |
                    0 <= m < out@.len() && #[trigger] out@[m] == p),
    {
        proof {
            lemma_tail(links@, head, k as int);
            assert(positions(list@)[k as int] == list@[k as int]);
        }
        let ghost before = out@;
        match index.frs_to_idx_opt(index.children[list[k]].child_frs) {
            None => {
                assert(super::soundness::child_at(index@, entries[k as int]) is None);
            },
            Some(p) => {
                assert(super::soundness::child_at(index@, entries[k as int]) == Some(p as u32));
                if p >= index.records.len() {
                    return None;
                }
                assert(has_child(index@, i as int, p as int));
                out.push(p);
                assert(out@[before.len() as int] == p);
                assert forall|j: int| 0 <= j < k + 1 implies (#[trigger] super::soundness::child_at(
                    index@,
                    entries[j],
                ) matches Some(q) ==> exists|m: int|
                    0 <= m < out@.len() && #[trigger] out@[m] == q) by {
                    if j < k {
                        if let Some(q) = super::soundness::child_at(index@, entries[j]) {
                            let m = choose|m: int|
                                0 <= m < before.len() && #[trigger] before[m] == q;
                            assert(out@[m] == q);
                        }
                    }
                }
            },
        }
    }
    assert forall|c: int| #[trigger] has_child(index@, i as int, c) implies exists|m: int|
        0 <= m < out@.len() && #[trigger] out@[m] == c by {
        let j = choose|j: int|
            0 <= j < entries.len() && (#[trigger] super::soundness::child_at(index@, entries[j]) matches Some(p) && p
                == c);
        assert(super::soundness::child_at(index@, entries[j]) is Some);
    }
    assert(are_children(index@, i as int, out@));
    Some(out)
}

/// A record is sound where its lists are and where its children are sound.
proof fn lemma_sound_by_edges(ix: crate::index::IndexView, i: int, fuel: nat)
    requires
        0 <= i < ix.records.len(),
    ensures
        super::soundness::sound(ix, i, fuel) <==> {
            &&& fuel > 0
            &&& well_linked(ix, i)
            &&& forall|c: int| #[trigger]
                has_child(ix, i, c) ==> super::soundness::sound(ix, c, (fuel - 1) as nat)
        },
{
    let entries = super::list_of(super::child_links(ix), ix.records[i].first_child);
    super::soundness::lemma_sound_unfold(ix, i, fuel);
    if fuel > 0 {
        let below = (fuel - 1) as nat;
        if super::soundness::sound(ix, i, fuel) {
            assert forall|j: int|
                0 <= j < entries.len() && ix.records[i].stdinfo.directory implies (
            #[trigger] super::soundness::child_at(ix, entries[j]) matches Some(p) ==> p
                < ix.records.len()) by {
                assert(super::soundness::sound_child(ix, entries[j], below));
            }
            assert forall|c: int| #[trigger] has_child(ix, i, c) implies super::soundness::sound(
                ix,
                c,
                below,
            ) by {
                let j = choose|j: int|
                    0 <= j < entries.len() && (#[trigger] super::soundness::child_at(
                        ix,
                        entries[j],
                    ) matches Some(p) && p == c);
                assert(super::soundness::sound_child(ix, entries[j], below));
            }
        }
        if well_linked(ix, i) && forall|c: int| #[trigger]
            has_child(ix, i, c) ==> super::soundness::sound(ix, c, below) {
            assert forall|j: int|
                0 <= j < entries.len()
                    && ix.records[i].stdinfo.directory implies #[trigger] super::soundness::sound_child(
                ix,
                entries[j],
                below,
            ) by {
                if let Some(p) = super::soundness::child_at(ix, entries[j]) {
                    assert(has_child(ix, i, p as int));
                }
            }
        }
    }
}

/// A record that is left when nothing more can be numbered is not sound.
proof fn lemma_stuck(ix: crate::index::IndexView, done: Seq<bool>, i: int, fuel: nat)
    requires
        done.len() == ix.records.len(),
        0 <= i < ix.records.len(),
        stuck_upto(ix, done, done.len() as int),
        !done[i],
    ensures
        !super::soundness::sound(ix, i, fuel),
    decreases fuel,
{
    lemma_sound_by_edges(ix, i, fuel);
    if fuel > 0 && well_linked(ix, i) {
        reveal(has_left_child);
        let c = choose|c: int| 0 <= c < done.len() && #[trigger] has_child(ix, i, c) && !done[c];
        lemma_stuck(ix, done, c, (fuel - 1) as nat);
    }
}

/// A record that has a number is sound.
proof fn lemma_numbered(
    ix: crate::index::IndexView,
    done: Seq<bool>,
    number: Seq<usize>,
    count: int,
    i: int,
    fuel: nat,
)
    requires
        numbered(ix, done, number, count),
        0 <= i < done.len(),
        done[i],
        number[i] < fuel,
    ensures
        super::soundness::sound(ix, i, fuel),
    decreases fuel,
{
    assert forall|c: int| #[trigger] has_child(ix, i, c) implies super::soundness::sound(
        ix,
        c,
        (fuel - 1) as nat,
    ) by {
        lemma_numbered(ix, done, number, count, c, (fuel - 1) as nat);
    }
    lemma_sound_by_edges(ix, i, fuel);
}

proof fn lemma_count_one_more(s: Seq<bool>, i: int)
    requires
        0 <= i < s.len(),
        !s[i],
    ensures
        crate::platform::bitmap::count_set(s.update(i, true))
            == crate::platform::bitmap::count_set(s) + 1,
    decreases s.len(),
{
    let t = s.update(i, true);
    if i == s.len() - 1 {
        assert(t.drop_last() =~= s.drop_last());
    } else {
        assert(t.drop_last() =~= s.drop_last().update(i, true));
        lemma_count_one_more(s.drop_last(), i);
    }
}

proof fn lemma_count_bound(s: Seq<bool>)
    ensures
        crate::platform::bitmap::count_set(s) <= s.len(),
    decreases s.len(),
{
    if s.len() > 0 {
        lemma_count_bound(s.drop_last());
    }
}

proof fn lemma_count_none(s: Seq<bool>)
    requires
        forall|i: int| 0 <= i < s.len() ==> !#[trigger] s[i],
    ensures
        crate::platform::bitmap::count_set(s) == 0,
    decreases s.len(),
{
    if s.len() > 0 {
        lemma_count_none(s.drop_last());
    }
}

/// The position of the first of some records that is not done.
fn first_left(done: &Vec<bool>, below: &Vec<usize>) -> (r: Option<usize>)
    requires
        forall|k: int| 0 <= k < below@.len() ==> (#[trigger] below@[k]) < done@.len(),
    ensures
        match r {
            Some(k) => k < below@.len() && !done@[below@[k as int] as int],
            None => forall|k: int| 0 <= k < below@.len() ==> done@[#[trigger] below@[k] as int],
        },
{
    let n: usize = below.len();
    for k in 0..n
        invariant
            n == below@.len(),
            forall|j: int| 0 <= j < below@.len() ==> (#[trigger] below@[j]) < done@.len(),
            forall|j: int| 0 <= j < k ==> done@[#[trigger] below@[j] as int],
    {
        if !done[below[k]] {
            return Some(k);
        }
    }
    None
}

/// The children of record `i`, if its lists are sound.
spec fn child_list(ix: crate::index::IndexView, i: int, kids: Option<Vec<usize>>) -> bool {
    &&& kids is Some <==> well_linked(ix, i)
    &&& kids matches Some(v) ==> are_children(ix, i, v@)
}

/// The children of each record whose lists are sound.
spec fn lists_children(ix: crate::index::IndexView, below: Seq<Option<Vec<usize>>>) -> bool {
    &&& below.len() == ix.records.len()
    &&& forall|i: int| 0 <= i < below.len() ==> child_list(ix, i, #[trigger] below[i])
}

/// What is known while records are numbered from the leaves up: every numbered
/// record has a higher number than its children.
spec fn numbered(
    ix: crate::index::IndexView,
    done: Seq<bool>,
    number: Seq<usize>,
    count: int,
) -> bool {
    &&& done.len() == ix.records.len()
    &&& number.len() == ix.records.len()
    &&& count == crate::platform::bitmap::count_set(done)
    &&& forall|i: int|
        0 <= i < done.len() && #[trigger] done[i] ==> number[i] < count && well_linked(ix, i)
    &&& forall|i: int, c: int|
        0 <= i < done.len() && done[i] && #[trigger] has_child(ix, i, c) ==> 0 <= c < done.len()
            && done[c] && number[c] < number[i]
}

/// Record `a` has a child that is left.
#[verifier::opaque]
spec fn has_left_child(ix: crate::index::IndexView, done: Seq<bool>, a: int) -> bool {
    exists|c: int| 0 <= c < done.len() && #[trigger] has_child(ix, a, c) && !done[c]
}

/// Every record up to `upto` that is left has a list that is not sound, or a
/// child that is left.
spec fn stuck_upto(ix: crate::index::IndexView, done: Seq<bool>, upto: int) -> bool {
    forall|a: int|
        0 <= a < upto && !#[trigger] done[a] ==> !well_linked(ix, a) || has_left_child(ix, done, a)
}

/// Numbers the records whose children all have numbers, once around. `true` if
/// there were any.
fn number_once(
    Ghost(ix): Ghost<crate::index::IndexView>,
    below: &Vec<Option<Vec<usize>>>,
    done: &mut Vec<bool>,
    number: &mut Vec<usize>,
    count: &mut usize,
) -> (r: bool)
    requires
        lists_children(ix, below@),
        numbered(ix, old(done)@, old(number)@, *old(count) as int),
    ensures
        numbered(ix, final(done)@, final(number)@, *final(count) as int),
        r ==> *final(count) > *old(count),
        !r ==> final(done)@ == old(done)@ && stuck_upto(
            ix,
            final(done)@,
            final(done)@.len() as int,
        ),
{
    let n: usize = below.len();
    let mut progressed: bool = false;
    for i in 0..n
        invariant
            n == below@.len(),
            lists_children(ix, below@),
            numbered(ix, done@, number@, *count as int),
            *count >= *old(count),
            progressed ==> *count > *old(count),
            !progressed ==> done@ == old(done)@ && stuck_upto(ix, done@, i as int),
    {
        assert(child_list(ix, i as int, below@[i as int]));
        if !done[i] {
            match &below[i] {
                Some(kids) => match first_left(done, kids) {
                    Some(k) => {
                        proof {
                            reveal(has_left_child);
                            assert(has_child(ix, i as int, kids@[k as int] as int));
                            assert(has_left_child(ix, done@, i as int));
                        }
                    },
                    None => {
                        let ghost before = done@;
                        proof {
                            lemma_count_one_more(done@, i as int);
                            lemma_count_bound(done@.update(i as int, true));
                        }
                        number.set(i, *count);
                        done.set(i, true);
                        *count = *count + 1;
                        progressed = true;
                        proof {
                            assert forall|a: int, c: int|
                                0 <= a < done@.len() && done@[a] && #[trigger] has_child(
                                    ix,
                                    a,
                                    c,
                                ) implies 0 <= c < done@.len() && done@[c] && number@[c]
                                < number@[a] by {
                                if a == i {
                                    let k = choose|k: int|
                                        0 <= k < kids@.len() && #[trigger] kids@[k] == c;
                                    assert(before[kids@[k] as int]);
                                } else {
                                    assert(before[a]);
                                }
                            }
                        }
                    },
                },
                None => {},
            }
        }
    }
    progressed
}

/// Whether an index can be walked: the lists of the records on the way come to
/// an end inside their arrays, and no directory lies within itself.
pub fn is_walkable(index: &MftIndex, skip_orphans: bool) -> (r: bool)
    ensures
        r == super::can_be_walked(index@, skip_orphans),
{
    let ghost ix = index@;
    let mut links: Vec<u32> = Vec::new();
    for i in 0..index.children.len()
        invariant
            links@ == super::child_links(index@).take(i as int),
    {
        links.push(index.children[i].next_entry);
        assert(links@ =~= super::child_links(index@).take(i + 1));
    }
    assert(links@ =~= super::child_links(ix));
    let mut named: Vec<u32> = Vec::new();
    for i in 0..index.streams.len()
        invariant
            named@ == super::stream_links(index@).take(i as int),
    {
        named.push(index.streams[i].next_entry);
        assert(named@ =~= super::stream_links(index@).take(i + 1));
    }
    assert(named@ =~= super::stream_links(ix));
    let mut internal: Vec<u32> = Vec::new();
    for i in 0..index.internal_streams.len()
        invariant
            internal@ == super::internal_links(index@).take(i as int),
    {
        internal.push(index.internal_streams[i].next_entry);
        assert(internal@ =~= super::internal_links(index@).take(i + 1));
    }
    assert(internal@ =~= super::internal_links(ix));
    let n: usize = index.records.len();
    let mut below: Vec<Option<Vec<usize>>> = Vec::new();
    for i in 0..n
        invariant
            n == index@.records.len(),
            ix == index@,
            links@ == super::child_links(ix),
            named@ == super::stream_links(ix),
            internal@ == super::internal_links(ix),
            below@.len() == i,
            forall|a: int| 0 <= a < i ==> child_list(ix, a, #[trigger] below@[a]),
    {
        below.push(children_of(index, &links, &named, &internal, i));
    }
    let mut done: Vec<bool> = vec![false; n];
    let mut number: Vec<usize> = vec![0usize; n];
    let mut count: usize = 0;
    proof {
        lemma_count_none(done@);
    }
    let mut more: bool = true;
    while more
        invariant
            n == ix.records.len(),
            lists_children(ix, below@),
            numbered(ix, done@, number@, count as int),
            !more ==> stuck_upto(ix, done@, done@.len() as int),
        decreases
                if more {
                    1int
                } else {
                    0
                },
                n - count,
    {
        more = number_once(Ghost(ix), &below, &mut done, &mut number, &mut count);
        proof {
            lemma_count_bound(done@);
        }
    }
    proof {
        lemma_count_bound(done@);
        super::soundness::law_walks_end_where_records_are_sound(ix, skip_orphans);
    }
    if skip_orphans {
        match index.frs_to_idx_opt(ROOT_FRS) {
            None => {
                assert(super::soundness::root_sound(ix, 0));
                true
            },
            Some(root) => {
                let r: bool = root >= n || done[root];
                proof {
                    if !r {
                        assert forall|fuel: nat| !super::soundness::root_sound(ix, fuel) by {
                            lemma_stuck(ix, done@, root as int, fuel);
                        }
                    } else {
                        if root < n {
                            lemma_numbered(ix, done@, number@, count as int, root as int, n as nat);
                        }
                        assert(super::soundness::root_sound(ix, n as nat));
                    }
                }
                r
            },
        }
    } else {
        for i in 0..n
            invariant
                ix == index@,
                n == ix.records.len(),
                done@.len() == n,
                count <= n,
                !skip_orphans,
                super::can_be_walked(ix, skip_orphans) <==> exists|fuel: nat|
                    super::soundness::all_sound(ix, fuel),
                numbered(ix, done@, number@, count as int),
                stuck_upto(ix, done@, done@.len() as int),
                forall|j: int|
                    0 <= j < i ==> #[trigger] super::soundness::sound(ix, j, n as nat),
        {
            if !done[i] {
                proof {
                    assert forall|fuel: nat| !super::soundness::all_sound(ix, fuel) by {
                        lemma_stuck(ix, done@, i as int, fuel);
                    }
                }
                return false;
            }
            proof {
                lemma_numbered(ix, done@, number@, count as int, i as int, n as nat);
            }
        }
        assert(super::soundness::all_sound(ix, n as nat));
        true
    }
}

} // verus!
