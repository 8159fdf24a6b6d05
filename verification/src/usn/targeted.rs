//! Reading single records anew: those that a journal names, then the records
//! that hold more of their attributes.

use crate::ntfs::scan_attribute_list_extensions;
use crate::usn::second_pass;
use vstd::prelude::*;

verus! {

/// What became of a record.
#[derive(Debug)]
pub enum TargetOutcome<'a> {
    /// It could not be read.
    Unreadable,
    /// It is damaged.
    Damaged,
    /// It is whole.
    Whole {
        /// The record.
        record: &'a [u8],
        /// Whether the parser took it.
        parsed: bool,
    },
}

/// Reads records in two passes: the records of a list, then the extension
/// records that their attribute lists name.
#[derive(Debug)]
pub struct TargetedRead {
    /// The records of this pass.
    pub queue: Vec<u64>,
    /// The record that comes next.
    pub next: usize,
    /// Whether this is the second pass.
    pub second: bool,
    /// The extension records that the first pass found.
    pub found: Vec<u64>,
    /// How many records the parser took.
    pub parsed: usize,
}

/// What a read of single records holds.
#[verifier::ext_equal]
pub struct TargetView {
    pub queue: Seq<u64>,
    pub next: int,
    pub second: bool,
    pub found: Seq<u64>,
    pub parsed: int,
}

impl View for TargetedRead {
    type V = TargetView;

    open spec fn view(&self) -> TargetView {
        TargetView {
            queue: self.queue@,
            next: self.next as int,
            second: self.second,
            found: self.found@,
            parsed: self.parsed as int,
        }
    }
}

/// What became of a record: its bytes and whether the parser took it, if it is
/// whole.
pub open spec fn whole_of(outcome: TargetOutcome) -> Option<(Seq<u8>, bool)> {
    match outcome {
        TargetOutcome::Whole { record, parsed } => Some((record@, parsed)),
        _ => None,
    }
}

/// A read after the outcome of its current record.
pub open spec fn taken(v: TargetView, whole: Option<(Seq<u8>, bool)>) -> TargetView {
    let next = v.next + 1;
    match whole {
        Some((record, parsed)) => TargetView {
            next,
            found: if v.second {
                v.found
            } else {
                v.found + crate::ntfs::extensions_of(record, v.queue[v.next])
            },
            parsed: if parsed {
                v.parsed + 1
            } else {
                v.parsed
            },
            ..v
        },
        None => TargetView { next, ..v },
    }
}

/// A read after the outcomes of several records.
pub open spec fn all_taken(v: TargetView, outcomes: Seq<Option<(Seq<u8>, bool)>>) -> TargetView
    decreases outcomes.len(),
{
    if outcomes.len() == 0 {
        v
    } else {
        taken(all_taken(v, outcomes.drop_last()), outcomes.last())
    }
}

/// How many records the parser took.
pub open spec fn parser_took(outcomes: Seq<Option<(Seq<u8>, bool)>>) -> int
    decreases outcomes.len(),
{
    if outcomes.len() == 0 {
        0
    } else {
        parser_took(outcomes.drop_last()) + if outcomes.last() matches Some((_, true)) {
            1int
        } else {
            0
        }
    }
}

/// The pass goes over its records one by one, counts those that the parser took,
/// and finds an extension record in the first pass if and only if the attribute
/// lists of a whole record name it. The second pass finds none.
pub proof fn law_records_are_read_once(
    v: TargetView,
    outcomes: Seq<Option<(Seq<u8>, bool)>>,
    x: u64,
)
    requires
        v.found.len() == 0,
        0 <= v.next,
        v.next + outcomes.len() <= v.queue.len(),
    ensures
        ({
            let w = all_taken(v, outcomes);
            &&& w.queue == v.queue
            &&& w.second == v.second
            &&& w.next == v.next + outcomes.len()
            &&& w.parsed == v.parsed + parser_took(outcomes)
            &&& v.second ==> w.found.len() == 0
            &&& !v.second ==> (w.found.contains(x) <==> exists|k: int|
                #![trigger outcomes[k]]
                0 <= k < outcomes.len() && (outcomes[k] matches Some((record, _))
                    && crate::ntfs::extensions_of(record, v.queue[v.next + k]).contains(x)))
        }),
    decreases outcomes.len(),
{
    if outcomes.len() > 0 {
        let front = outcomes.drop_last();
        law_records_are_read_once(v, front, x);
        let before = all_taken(v, front);
        let w = all_taken(v, outcomes);
        let n = outcomes.len() - 1;
        if !v.second {
            if let Some((record, _)) = outcomes[n] {
                let here = crate::ntfs::extensions_of(record, v.queue[v.next + n]);
                assert(w.found == before.found + here);
                lemma_in_either(before.found, here, x);
            }
            if before.found.contains(x) {
                let k = choose|k: int|
                    #![trigger front[k]]
                    0 <= k < front.len() && (front[k] matches Some((record, _))
                        && crate::ntfs::extensions_of(record, v.queue[v.next + k]).contains(x));
                assert(outcomes[k] == front[k]);
            }
            if exists|k: int|
                #![trigger outcomes[k]]
                0 <= k < outcomes.len() && (outcomes[k] matches Some((record, _))
                    && crate::ntfs::extensions_of(record, v.queue[v.next + k]).contains(x)) {
                let k = choose|k: int|
                    #![trigger outcomes[k]]
                    0 <= k < outcomes.len() && (outcomes[k] matches Some((record, _))
                        && crate::ntfs::extensions_of(record, v.queue[v.next + k]).contains(x));
                if k < n {
                    assert(front[k] == outcomes[k]);
                }
            }
        }
    }
}

proof fn lemma_in_either(a: Seq<u64>, b: Seq<u64>, x: u64)
    ensures
        (a + b).contains(x) <==> a.contains(x) || b.contains(x),
{
    if a.contains(x) {
        let k = choose|k: int| 0 <= k < a.len() && a[k] == x;
        assert((a + b)[k] == x);
    }
    if b.contains(x) {
        let k = choose|k: int| 0 <= k < b.len() && b[k] == x;
        assert((a + b)[a.len() + k] == x);
    }
}

/// Each number stands once, in ascending order.
pub open spec fn ascending(s: Seq<u64>) -> bool {
    forall|a: int, b: int| 0 <= a < b < s.len() ==> s[a] < s[b]
}

/// Begins to read the records of a list anew.
pub fn read_targeted_frs_records(frs_list: &[u64]) -> (r: TargetedRead)
    ensures
        r.queue@ == frs_list@,
        r.next == 0,
        !r.second,
        r.found@.len() == 0,
        r.parsed == 0,
{
    let mut queue: Vec<u64> = Vec::new();
    queue.extend_from_slice(frs_list);
    assert(queue@ =~= frs_list@);
    TargetedRead { queue, next: 0, second: false, found: Vec::new(), parsed: 0 }
}

impl TargetedRead {
    /// The next record to read. When the records of the list are done the
    /// second pass begins.
    pub fn next_record(&mut self) -> (r: Option<u64>)
        requires
            old(self).next <= old(self).queue@.len(),
        ensures
            final(self).next <= final(self).queue@.len(),
            final(self).found@ == old(self).found@,
            final(self).parsed == old(self).parsed,
            r == if final(self).next < final(self).queue@.len() {
                Some(final(self).queue@[final(self).next as int])
            } else {
                None
            },
            if old(self).next < old(self).queue@.len() || old(self).second {
                &&& final(self).queue@ == old(self).queue@
                &&& final(self).next == old(self).next
                &&& final(self).second == old(self).second
            } else {
                &&& final(self).second
                &&& final(self).next == 0
                &&& ascending(final(self).queue@)
                &&& forall|x: u64|
                    #[trigger] final(self).queue@.contains(x) <==> old(self).found@.contains(x)
            },
    {
        if self.next == self.queue.len() && !self.second {
            self.queue = second_pass(self.found.as_slice());
            self.next = 0;
            self.second = true;
        }
        if self.next < self.queue.len() {
            Some(self.queue[self.next])
        } else {
            None
        }
    }

    /// Takes what became of the current record. A record of the first pass
    /// tells which extension records belong to it.
    pub fn record(&mut self, outcome: TargetOutcome)
        requires
            old(self).next < old(self).queue@.len(),
            old(self).parsed < usize::MAX,
        ensures
            final(self)@ == taken(old(self)@, whole_of(outcome)),
            final(self).queue@ == old(self).queue@,
            final(self).second == old(self).second,
            final(self).next == old(self).next + 1,
            match outcome {
                TargetOutcome::Whole { record, parsed } => {
                    &&& final(self).parsed == old(self).parsed + if parsed {
                        1int
                    } else {
                        0
                    }
                    &&& final(self).found@ == if old(self).second {
                        old(self).found@
                    } else {
                        old(self).found@ + crate::ntfs::extensions_of(
                            record@,
                            old(self).queue@[old(self).next as int],
                        )
                    }
                },
                _ => final(self).parsed == old(self).parsed && final(self).found@ == old(
                    self,
                ).found@,
            },
    {
        let n: usize = self.queue.len();
        assert(self.next < n);
        let frs: u64 = self.queue[self.next];
        if let TargetOutcome::Whole { record, parsed } = outcome {
            if !self.second {
                scan_attribute_list_extensions(record, frs, &mut self.found);
            }
            if parsed {
                self.parsed = self.parsed + 1;
            }
        }
        self.next = self.next + 1;
    }
}

} // verus!
