//! Reading tables that were saved: which parser gets which record, what is
//! kept of its results, and what is counted on the way.

use crate::error::{DataFault, MftError};
use crate::raw::{load_raw_mft, LoadRawOptions, RawMftData};
use crate::raw_iocp::{is_iocp_capture, load_iocp_capture, IocpCaptureData};
use vstd::prelude::*;

verus! {

/// How the records of a saved table are parsed.
#[derive(Debug, Clone, Copy, PartialEq, Eq, Structural)]
pub enum ParseMode {
    /// Every record, damaged ones too, one after the other. Only base records
    /// are kept.
    Forensic,
    /// One after the other.
    Sequential,
    /// In chunks, on several threads.
    Parallel,
}

/// What a parser made of a record.
#[derive(Debug, Clone, Copy, PartialEq, Eq, Structural)]
pub enum ParsedKind {
    /// A file or directory.
    Base,
    /// More attributes of another record.
    Extension,
    /// Nothing.
    Skip,
}

/// What became of a record.
#[derive(Debug, Clone, Copy, PartialEq, Eq, Structural)]
pub struct Outcome {
    /// The record was whole.
    pub fixup_ok: bool,
    /// What the parser made of it, if it was given to the parser.
    pub kind: ParsedKind,
}

/// The record is given to the parser.
pub open spec fn is_parsed(mode: ParseMode, o: Outcome) -> bool {
    mode is Forensic || o.fixup_ok
}

/// The parser's result is kept.
pub open spec fn is_kept(mode: ParseMode, o: Outcome) -> bool {
    is_parsed(mode, o) && match mode {
        ParseMode::Forensic => o.kind is Base,
        ParseMode::Sequential => true,
        ParseMode::Parallel => !(o.kind is Skip),
    }
}

/// How many records had which outcome.
#[derive(Debug, Clone, Copy, PartialEq, Eq, Structural)]
pub struct ParseTally {
    /// Records that were looked at.
    pub examined: u64,
    /// Records that were whole.
    pub fixup_success: u64,
    /// Records that were damaged.
    pub fixup_failed: u64,
    /// Base records that the parser found.
    pub base_records: u64,
    /// Extension records that the parser found.
    pub extension_records: u64,
    /// Records in which the parser found nothing.
    pub skip_records: u64,
    /// Results that were kept.
    pub kept: u64,
}

/// How many of the outcomes satisfy a condition.
pub open spec fn count(outcomes: Seq<Outcome>, p: spec_fn(Outcome) -> bool) -> nat
    decreases outcomes.len(),
{
    if outcomes.len() == 0 {
        0
    } else {
        count(outcomes.drop_last(), p) + if p(outcomes.last()) {
            1nat
        } else {
            0nat
        }
    }
}

/// The tally holds the counts of some outcomes.
pub open spec fn counts_of(t: ParseTally, mode: ParseMode, outcomes: Seq<Outcome>) -> bool {
    &&& t.examined == outcomes.len()
    &&& t.fixup_success == count(outcomes, |o: Outcome| o.fixup_ok)
    &&& t.fixup_failed == count(outcomes, |o: Outcome| !o.fixup_ok)
    &&& t.base_records == count(outcomes, |o: Outcome| is_parsed(mode, o) && o.kind is Base)
    &&& t.extension_records == count(
        outcomes,
        |o: Outcome| is_parsed(mode, o) && o.kind is Extension,
    )
    &&& t.skip_records == count(outcomes, |o: Outcome| is_parsed(mode, o) && o.kind is Skip)
    &&& t.kept == count(outcomes, |o: Outcome| is_kept(mode, o))
}

/// The positions of the kept results.
pub open spec fn kept_positions(mode: ParseMode, outcomes: Seq<Outcome>) -> Seq<int>
    decreases outcomes.len(),
{
    if outcomes.len() == 0 {
        Seq::empty()
    } else {
        let before = kept_positions(mode, outcomes.drop_last());
        if is_kept(mode, outcomes.last()) {
            before.push(outcomes.len() - 1)
        } else {
            before
        }
    }
}

proof fn lemma_count_bound(outcomes: Seq<Outcome>, p: spec_fn(Outcome) -> bool)
    ensures
        count(outcomes, p) <= outcomes.len(),
    decreases outcomes.len(),
{
    if outcomes.len() > 0 {
        lemma_count_bound(outcomes.drop_last(), p);
    }
}

proof fn lemma_count_push(outcomes: Seq<Outcome>, o: Outcome, p: spec_fn(Outcome) -> bool)
    ensures
        count(outcomes.push(o), p) == count(outcomes, p) + if p(o) {
            1nat
        } else {
            0nat
        },
        count(outcomes, p) <= outcomes.len(),
{
    assert(outcomes.push(o).drop_last() =~= outcomes);
    lemma_count_bound(outcomes, p);
}

proof fn lemma_count_add(a: Seq<Outcome>, b: Seq<Outcome>, p: spec_fn(Outcome) -> bool)
    ensures
        count(a + b, p) == count(a, p) + count(b, p),
    decreases b.len(),
{
    if b.len() == 0 {
        assert(a + b =~= a);
    } else {
        lemma_count_add(a, b.drop_last(), p);
        assert((a + b).drop_last() =~= a + b.drop_last());
    }
}

/// What happens to a record after its check.
#[derive(Debug, Clone, Copy, PartialEq, Eq, Structural)]
pub enum RecordStep {
    /// It is given to the parser.
    Parse {
        /// The record is damaged.
        damaged: bool,
    },
    /// It is left out.
    Drop,
}

/// What happens to a record after its check: damaged records are parsed only
/// in the forensic mode.
pub fn after_fixup(mode: ParseMode, fixup_ok: bool) -> (r: RecordStep)
    ensures
        r == if is_parsed(mode, Outcome { fixup_ok, kind: ParsedKind::Skip }) {
            RecordStep::Parse { damaged: !fixup_ok }
        } else {
            RecordStep::Drop
        },
{
    match mode {
        ParseMode::Forensic => RecordStep::Parse { damaged: !fixup_ok },
        _ => if fixup_ok {
            RecordStep::Parse { damaged: false }
        } else {
            RecordStep::Drop
        },
    }
}

/// Whether the parser's result for a record is kept.
pub fn keeps(mode: ParseMode, o: Outcome) -> (r: bool)
    ensures
        r == is_kept(mode, o),
{
    match after_fixup(mode, o.fixup_ok) {
        RecordStep::Drop => false,
        RecordStep::Parse { .. } => match (mode, o.kind) {
            (_, ParsedKind::Base) => true,
            (ParseMode::Forensic, _) => false,
            (_, ParsedKind::Extension) => true,
            (ParseMode::Sequential, ParsedKind::Skip) => true,
            (ParseMode::Parallel, ParsedKind::Skip) => false,
        },
    }
}

/// Counts the outcomes of records.
pub fn tally_outcomes(mode: ParseMode, outcomes: &[Outcome]) -> (r: ParseTally)
    ensures
        counts_of(r, mode, outcomes@),
{
    let mut t = ParseTally {
        examined: 0,
        fixup_success: 0,
        fixup_failed: 0,
        base_records: 0,
        extension_records: 0,
        skip_records: 0,
        kept: 0,
    };
    assert(outcomes@.take(0) =~= Seq::empty());
    for i in 0..outcomes.len()
        invariant
            counts_of(t, mode, outcomes@.take(i as int)),
    {
        let o = outcomes[i];
        proof {
            let before = outcomes@.take(i as int);
            assert(outcomes@.take(i + 1) =~= before.push(o));
            lemma_count_push(before, o, |o: Outcome| o.fixup_ok);
            lemma_count_push(before, o, |o: Outcome| !o.fixup_ok);
            lemma_count_push(before, o, |o: Outcome| is_parsed(mode, o) && o.kind is Base);
            lemma_count_push(before, o, |o: Outcome| is_parsed(mode, o) && o.kind is Extension);
            lemma_count_push(before, o, |o: Outcome| is_parsed(mode, o) && o.kind is Skip);
            lemma_count_push(before, o, |o: Outcome| is_kept(mode, o));
        }
        t.examined = t.examined + 1;
        if o.fixup_ok {
            t.fixup_success = t.fixup_success + 1;
        } else {
            t.fixup_failed = t.fixup_failed + 1;
        }
        if let RecordStep::Parse { .. } = after_fixup(mode, o.fixup_ok) {
            match o.kind {
                ParsedKind::Base => {
                    t.base_records = t.base_records + 1;
                },
                ParsedKind::Extension => {
                    t.extension_records = t.extension_records + 1;
                },
                ParsedKind::Skip => {
                    t.skip_records = t.skip_records + 1;
                },
            }
        }
        if keeps(mode, o) {
            t.kept = t.kept + 1;
        }
    }
    assert(outcomes@.take(outcomes@.len() as int) =~= outcomes@);
    t
}

/// The sums of two tallies.
pub open spec fn tally_sum(a: ParseTally, b: ParseTally) -> ParseTally {
    ParseTally {
        examined: (a.examined + b.examined) as u64,
        fixup_success: (a.fixup_success + b.fixup_success) as u64,
        fixup_failed: (a.fixup_failed + b.fixup_failed) as u64,
        base_records: (a.base_records + b.base_records) as u64,
        extension_records: (a.extension_records + b.extension_records) as u64,
        skip_records: (a.skip_records + b.skip_records) as u64,
        kept: (a.kept + b.kept) as u64,
    }
}

impl ParseTally {
    /// The sums of two tallies.
    pub fn plus(self, other: ParseTally) -> (r: ParseTally)
        requires
            self.examined + other.examined <= u64::MAX,
            self.fixup_success + other.fixup_success <= u64::MAX,
            self.fixup_failed + other.fixup_failed <= u64::MAX,
            self.base_records + other.base_records <= u64::MAX,
            self.extension_records + other.extension_records <= u64::MAX,
            self.skip_records + other.skip_records <= u64::MAX,
            self.kept + other.kept <= u64::MAX,
        ensures
            r == tally_sum(self, other),
    {
        ParseTally {
            examined: self.examined + other.examined,
            fixup_success: self.fixup_success + other.fixup_success,
            fixup_failed: self.fixup_failed + other.fixup_failed,
            base_records: self.base_records + other.base_records,
            extension_records: self.extension_records + other.extension_records,
            skip_records: self.skip_records + other.skip_records,
            kept: self.kept + other.kept,
        }
    }
}

/// The tallies of two runs of records add up to the tally of both, so chunks
/// can be counted apart.
pub proof fn law_tallies_add_up(
    mode: ParseMode,
    a: Seq<Outcome>,
    b: Seq<Outcome>,
    s: ParseTally,
    t: ParseTally,
)
    requires
        counts_of(s, mode, a),
        counts_of(t, mode, b),
        a.len() + b.len() <= u64::MAX,
    ensures
        counts_of(tally_sum(s, t), mode, a + b),
{
    let ab = a + b;
    lemma_count_add(a, b, |o: Outcome| o.fixup_ok);
    lemma_count_add(a, b, |o: Outcome| !o.fixup_ok);
    lemma_count_add(a, b, |o: Outcome| is_parsed(mode, o) && o.kind is Base);
    lemma_count_add(a, b, |o: Outcome| is_parsed(mode, o) && o.kind is Extension);
    lemma_count_add(a, b, |o: Outcome| is_parsed(mode, o) && o.kind is Skip);
    lemma_count_add(a, b, |o: Outcome| is_kept(mode, o));
    lemma_count_bound(ab, |o: Outcome| o.fixup_ok);
    lemma_count_bound(ab, |o: Outcome| !o.fixup_ok);
    lemma_count_bound(ab, |o: Outcome| is_parsed(mode, o) && o.kind is Base);
    lemma_count_bound(ab, |o: Outcome| is_parsed(mode, o) && o.kind is Extension);
    lemma_count_bound(ab, |o: Outcome| is_parsed(mode, o) && o.kind is Skip);
    lemma_count_bound(ab, |o: Outcome| is_kept(mode, o));
}

/// Every record is counted once as whole or damaged, and outside the forensic
/// mode every whole record is counted once by what the parser made of it.
pub proof fn law_every_record_is_counted(mode: ParseMode, outcomes: Seq<Outcome>, t: ParseTally)
    requires
        counts_of(t, mode, outcomes),
    ensures
        t.examined == t.fixup_success + t.fixup_failed,
        !(mode is Forensic) ==> t.fixup_success == t.base_records + t.extension_records
            + t.skip_records,
        mode is Forensic ==> t.kept == t.base_records && t.examined == t.base_records
            + t.extension_records + t.skip_records,
        mode is Sequential ==> t.kept == t.fixup_success,
        mode is Parallel ==> t.kept == t.base_records + t.extension_records,
{
    lemma_counts_split(mode, outcomes);
}

proof fn lemma_counts_split(mode: ParseMode, outcomes: Seq<Outcome>)
    ensures
        ({
            let ok = count(outcomes, |o: Outcome| o.fixup_ok);
            let bad = count(outcomes, |o: Outcome| !o.fixup_ok);
            let base = count(outcomes, |o: Outcome| is_parsed(mode, o) && o.kind is Base);
            let extension = count(outcomes, |o: Outcome| is_parsed(mode, o) && o.kind is Extension);
            let skip = count(outcomes, |o: Outcome| is_parsed(mode, o) && o.kind is Skip);
            let kept = count(outcomes, |o: Outcome| is_kept(mode, o));
            &&& outcomes.len() == ok + bad
            &&& !(mode is Forensic) ==> ok == base + extension + skip
            &&& mode is Forensic ==> kept == base && outcomes.len() == base + extension + skip
            &&& mode is Sequential ==> kept == ok
            &&& mode is Parallel ==> kept == base + extension
        }),
    decreases outcomes.len(),
{
    if outcomes.len() > 0 {
        lemma_counts_split(mode, outcomes.drop_last());
    }
}

/// Parsing on several threads keeps what parsing one record after the other
/// keeps, but for the records in which the parser found nothing.
pub proof fn law_parallel_keeps_what_sequential_keeps(outcomes: Seq<Outcome>)
    ensures
        kept_positions(ParseMode::Parallel, outcomes) == kept_positions(
            ParseMode::Sequential,
            outcomes,
        ).filter(|i: int| 0 <= i < outcomes.len() && !(outcomes[i].kind is Skip)),
    decreases outcomes.len(),
{
    reveal(Seq::filter);
    let p = |i: int| 0 <= i < outcomes.len() && !(outcomes[i].kind is Skip);
    if outcomes.len() > 0 {
        let front = outcomes.drop_last();
        let q = |i: int| 0 <= i < front.len() && !(front[i].kind is Skip);
        law_parallel_keeps_what_sequential_keeps(front);
        let s = kept_positions(ParseMode::Sequential, front);
        lemma_positions_in_range(ParseMode::Sequential, front);
        lemma_filter_agrees(s, p, q);
        if is_kept(ParseMode::Sequential, outcomes.last()) {
            let all = kept_positions(ParseMode::Sequential, outcomes);
            assert(all.drop_last() =~= s);
            assert(all.last() == outcomes.len() - 1);
        }
    }
}

proof fn lemma_positions_in_range(mode: ParseMode, outcomes: Seq<Outcome>)
    ensures
        forall|k: int|
            0 <= k < kept_positions(mode, outcomes).len() ==> 0 <= #[trigger] kept_positions(
                mode,
                outcomes,
            )[k] < outcomes.len(),
    decreases outcomes.len(),
{
    if outcomes.len() > 0 {
        lemma_positions_in_range(mode, outcomes.drop_last());
        let before = kept_positions(mode, outcomes.drop_last());
        let all = kept_positions(mode, outcomes);
        assert forall|k: int| 0 <= k < all.len() implies 0 <= #[trigger] all[k] < outcomes.len() by {
            if k < before.len() {
                assert(all[k] == before[k]);
            }
        }
    }
}

proof fn lemma_filter_agrees(s: Seq<int>, p: spec_fn(int) -> bool, q: spec_fn(int) -> bool)
    requires
        forall|k: int| 0 <= k < s.len() ==> p(#[trigger] s[k]) == q(s[k]),
    ensures
        s.filter(p) == s.filter(q),
    decreases s.len(),
{
    reveal(Seq::filter);
    if s.len() > 0 {
        assert forall|k: int| 0 <= k < s.drop_last().len() implies p(
            #[trigger] s.drop_last()[k],
        ) == q(s.drop_last()[k]) by {
            assert(s.drop_last()[k] == s[k]);
        }
        lemma_filter_agrees(s.drop_last(), p, q);
    }
}

/// How many records make a chunk.
pub const RECORDS_PER_CHUNK: usize = 4096;

/// A run of records that is parsed by one thread.
#[derive(Debug, Clone, Copy, PartialEq, Eq, Structural)]
pub struct ParseChunk {
    /// The first record.
    pub start_frs: usize,
    /// Where the first record begins in the table.
    pub offset: usize,
    /// How many records the chunk holds.
    pub records: usize,
}

/// How many chunks a table of a size has: its last chunk may be short.
pub open spec fn chunk_total(len: int, record_size: int) -> int {
    (len + RECORDS_PER_CHUNK * record_size - 1) / (RECORDS_PER_CHUNK * record_size)
}

/// Chunk `k` of a table of a size. The last one holds the whole records that
/// are left.
pub open spec fn chunk_at(len: int, record_size: int, k: int) -> ParseChunk {
    let start = k * (RECORDS_PER_CHUNK * record_size);
    let left = len - start;
    ParseChunk {
        start_frs: (k * RECORDS_PER_CHUNK) as usize,
        offset: start as usize,
        records: if left >= RECORDS_PER_CHUNK * record_size {
            RECORDS_PER_CHUNK
        } else {
            (left / record_size) as usize
        },
    }
}

/// Splits a table into chunks.
pub fn parse_chunks(len: usize, record_size: u32) -> (r: Vec<ParseChunk>)
    requires
        record_size > 0,
    ensures
        r@.len() == chunk_total(len as int, record_size as int),
        forall|k: int|
            0 <= k < r@.len() ==> #[trigger] r@[k] == chunk_at(len as int, record_size as int, k),
{
    let mut out: Vec<ParseChunk> = Vec::new();
    let total: u64 = len as u64;
    let rs: u64 = record_size as u64;
    let step: u64 = RECORDS_PER_CHUNK as u64 * rs;
    proof {
        lemma_rounded_up(total as int, step as int);
    }
    let n: u64 = (total / step) + if total % step == 0 {
        0
    } else {
        1
    };
    for k in 0..n
        invariant
            total == len,
            rs == record_size,
            rs > 0,
            step == RECORDS_PER_CHUNK * rs,
            n == chunk_total(total as int, rs as int),
            out@.len() == k,
            forall|j: int|
                0 <= j < k ==> #[trigger] out@[j] == chunk_at(total as int, rs as int, j),
    {
        proof {
            lemma_chunk_begins_inside(total as int, rs as int, k as int);
        }
        let offset: u64 = k * step;
        let left: u64 = total - offset;
        let records: u64 = if left >= step {
            RECORDS_PER_CHUNK as u64
        } else {
            left / rs
        };
        assert(left / rs <= left) by (nonlinear_arith)
            requires
                rs > 0,
        ;
        out.push(
            ParseChunk {
                start_frs: (k * RECORDS_PER_CHUNK as u64) as usize,
                offset: offset as usize,
                records: records as usize,
            },
        );
    }
    out
}

proof fn lemma_rounded_up(total: int, step: int)
    requires
        0 <= total,
        2 <= step,
    ensures
        (total + step - 1) / step == total / step + if total % step == 0 {
            0int
        } else {
            1int
        },
        2 * (total / step) <= total,
{
    let q = total / step;
    let m = total % step;
    assert(total == step * q + m) by (nonlinear_arith)
        requires
            q == total / step,
            m == total % step,
            step > 0,
    ;
    if m == 0 {
        assert((total + step - 1) / step == q) by (nonlinear_arith)
            requires
                total == step * q,
                step > 0,
        ;
    } else {
        assert((total + step - 1) / step == q + 1) by (nonlinear_arith)
            requires
                total == step * q + m,
                0 < m < step,
        ;
    }
    assert(2 * q <= total) by (nonlinear_arith)
        requires
            total == step * q + m,
            m >= 0,
            step >= 2,
            q >= 0,
    ;
}

proof fn lemma_chunk_begins_inside(len: int, record_size: int, k: int)
    requires
        0 <= len,
        0 < record_size,
        0 <= k < chunk_total(len, record_size),
    ensures
        0 <= k * (RECORDS_PER_CHUNK * record_size) < len,
        0 <= k * RECORDS_PER_CHUNK <= k * (RECORDS_PER_CHUNK * record_size),
{
    let step = RECORDS_PER_CHUNK * record_size;
    assert(0 <= k * step < len) by (nonlinear_arith)
        requires
            0 <= k < (len + step - 1) / step,
            step > 0,
    ;
    assert(k * RECORDS_PER_CHUNK <= k * step) by (nonlinear_arith)
        requires
            0 <= k,
            step == RECORDS_PER_CHUNK * record_size,
            record_size >= 1,
    ;
}

/// The chunks of a table hold all of its whole records, each once and under
/// its number: record `i` of chunk `k` is record `frs` of the table exactly
/// where its number and its place agree.
pub proof fn law_chunks_cover_the_table(len: int, record_size: int, frs: int)
    requires
        0 < record_size,
        0 <= frs < len / record_size,
        len <= usize::MAX,
    ensures
        ({
            let k = frs / (RECORDS_PER_CHUNK as int);
            let i = frs % (RECORDS_PER_CHUNK as int);
            let chunk = chunk_at(len, record_size, k);
            &&& 0 <= k < chunk_total(len, record_size)
            &&& 0 <= i < chunk.records
            &&& chunk.start_frs + i == frs
            &&& chunk.offset + i * record_size == frs * record_size
        }),
{
    let per = RECORDS_PER_CHUNK as int;
    let step = per * record_size;
    let k = frs / per;
    let i = frs % per;
    assert(frs == per * k + i);
    assert((frs + 1) * record_size <= len) by (nonlinear_arith)
        requires
            frs < len / record_size,
            record_size > 0,
    ;
    assert(frs * record_size == k * step + i * record_size) by (nonlinear_arith)
        requires
            frs == per * k + i,
            step == per * record_size,
    ;
    assert(0 <= k * step) by (nonlinear_arith)
        requires
            0 <= k,
            0 < step,
    ;
    assert(0 <= i * record_size) by (nonlinear_arith)
        requires
            0 <= i,
            0 < record_size,
    ;
    assert((frs + 1) * record_size == frs * record_size + record_size) by (nonlinear_arith);
    assert(k < (len + step - 1) / step) by (nonlinear_arith)
        requires
            k * step < len,
            step > 0,
            0 <= k,
    ;
    lemma_chunk_begins_inside(len, record_size, k);
    let left = len - k * step;
    if left < step {
        assert(i < left / record_size) by (nonlinear_arith)
            requires
                i * record_size + record_size <= left,
                record_size > 0,
        ;
        assert(left / record_size <= left) by (nonlinear_arith)
            requires
                left >= 0,
                record_size > 0,
        ;
    }
}

/// What is done with a saved table.
#[derive(Debug)]
pub enum OfflinePlan {
    /// The records of a capture are parsed in the order in which their reads
    /// completed.
    Replay {
        /// The capture.
        capture: IocpCaptureData,
        /// The volume of the index.
        volume: char,
    },
    /// The records of a table are parsed.
    Parse {
        /// The table.
        raw: RawMftData,
        /// How.
        mode: ParseMode,
    },
}

/// How the records of a saved table are parsed.
pub open spec fn mode_of(options: LoadRawOptions, single_thread: bool) -> ParseMode {
    if options.forensic {
        ParseMode::Forensic
    } else if single_thread {
        ParseMode::Sequential
    } else {
        ParseMode::Parallel
    }
}

/// Loads a saved table for an index: captures are replayed, any other table
/// is parsed.
pub fn load_raw_to_index_with_options(
    file: &[u8],
    options: &LoadRawOptions,
    single_thread: bool,
) -> (r: Result<OfflinePlan, MftError>)
    ensures
        if crate::bytes::bytes_at(file@, 0, crate::raw_iocp::magic()) {
            match crate::raw_iocp::capture_content(file@) {
                Ok(content) => r matches Ok(OfflinePlan::Replay { capture, volume }) && capture@
                    == content && volume == match options.volume_letter {
                    Some(letter) => letter,
                    None => content.header.volume_letter,
                },
                Err(e) => r == Err::<OfflinePlan, MftError>(e),
            }
        } else {
            match crate::raw::raw_content(file@, *options) {
                Ok(content) => r matches Ok(OfflinePlan::Parse { raw, mode }) && raw@ == content
                    && mode == mode_of(*options, single_thread),
                Err(e) => r == Err::<OfflinePlan, MftError>(e),
            }
        },
        r matches Ok(OfflinePlan::Replay { volume, .. }) ==> (options.volume_letter matches Some(l)
            ==> volume == l),
        r matches Ok(OfflinePlan::Parse { mode, .. }) ==> (mode is Forensic <==> options.forensic)
            && (mode is Sequential <==> !options.forensic && single_thread),
{
    if is_iocp_capture(file) {
        return match load_iocp_capture(file) {
            Ok(capture) => {
                let volume: char = match options.volume_letter {
                    Some(letter) => letter,
                    None => capture.volume_letter(),
                };
                Ok(OfflinePlan::Replay { capture, volume })
            },
            Err(e) => Err(e),
        };
    }
    match load_raw_mft(file, options) {
        Ok(raw) => {
            let mode = if options.forensic {
                ParseMode::Forensic
            } else if single_thread {
                ParseMode::Sequential
            } else {
                ParseMode::Parallel
            };
            Ok(OfflinePlan::Parse { raw, mode })
        },
        Err(e) => Err(e),
    }
}

/// A saved table that becomes an index, with the volume that the index is of.
#[derive(Debug)]
pub enum IndexFile {
    /// A capture. Its records are parsed in the order in which their reads
    /// completed.
    Capture(IocpCaptureData),
    /// A table. Its records are parsed in their order.
    Table(RawMftData),
}

/// Loads a saved table for the index of a volume.
pub fn read_index_from_file(file: &[u8], volume: char) -> (r: Result<IndexFile, MftError>)
    ensures
        if crate::bytes::bytes_at(file@, 0, crate::raw_iocp::magic()) {
            match crate::raw_iocp::capture_content(file@) {
                Ok(content) => r matches Ok(IndexFile::Capture(capture)) && capture@ == content,
                Err(e) => r == Err::<IndexFile, MftError>(e),
            }
        } else {
            match crate::raw::raw_content(
                file@,
                LoadRawOptions {
                    header_only: false,
                    volume_letter: Some(volume),
                    forensic: false,
                },
            ) {
                Ok(content) => r matches Ok(IndexFile::Table(raw)) && raw@ == content,
                Err(e) => r == Err::<IndexFile, MftError>(e),
            }
        },
{
    if is_iocp_capture(file) {
        return match load_iocp_capture(file) {
            Ok(capture) => Ok(IndexFile::Capture(capture)),
            Err(e) => Err(e),
        };
    }
    let options = LoadRawOptions {
        header_only: false,
        volume_letter: Some(volume),
        forensic: false,
    };
    match load_raw_mft(file, &options) {
        Ok(raw) => Ok(IndexFile::Table(raw)),
        Err(e) => Err(e),
    }
}

/// The records of a capture with their numbers, in the order in which they
/// are put into an index.
#[derive(Debug)]
pub struct ReplayRecords {
    /// The volume of the index.
    pub volume: char,
    /// The records.
    pub records: Vec<(u64, Vec<u8>)>,
}

/// What numbered records hold.
pub open spec fn numbered(v: Seq<(u64, Vec<u8>)>) -> Seq<(u64, Seq<u8>)> {
    Seq::new(v.len(), |i: int| (v[i].0, v[i].1@))
}

/// Loads the records of a capture file for an index.
pub fn load_iocp_to_index(file: &[u8]) -> (r: Result<ReplayRecords, MftError>)
    ensures
        match crate::raw_iocp::capture_content(file@) {
            Ok(content) => {
                &&& r matches Ok(replay)
                &&& replay.volume == content.header.volume_letter
                &&& numbered(replay.records@) == crate::raw_iocp::records_of_chunks(
                    content,
                    content.chunks.len() as int,
                )
            },
            Err(e) => r == Err::<ReplayRecords, MftError>(e),
        },
{
    let capture = match load_iocp_capture(file) {
        Ok(capture) => capture,
        Err(e) => {
            return Err(e);
        },
    };
    let slices = capture.records_in_order();
    let n: usize = slices.len();
    let mut records: Vec<(u64, Vec<u8>)> = Vec::new();
    for i in 0..n
        invariant
            n == slices@.len(),
            numbered(records@) == crate::raw_iocp::slices_view(slices@).take(i as int),
    {
        let bytes: Vec<u8> = crate::bytes::copy_range(slices[i].1, 0, slices[i].1.len());
        assert(bytes@ =~= slices@[i as int].1@);
        let ghost before = numbered(records@);
        records.push((slices[i].0, bytes));
        assert(numbered(records@) =~= before.push((slices@[i as int].0, bytes@)));
        assert(crate::raw_iocp::slices_view(slices@).take(i + 1)
            =~= crate::raw_iocp::slices_view(slices@).take(i as int).push(
            (slices@[i as int].0, slices@[i as int].1@),
        ));
    }
    assert(crate::raw_iocp::slices_view(slices@).take(n as int) =~= crate::raw_iocp::slices_view(
        slices@,
    ));
    Ok(ReplayRecords { volume: capture.volume_letter(), records })
}

/// A table that is put together from chunks in memory.
#[derive(Debug)]
pub struct RawAssembly {
    /// The table so far.
    pub output: Vec<u8>,
    /// The size of a record.
    pub record_size: u32,
}

impl RawAssembly {
    /// A table of zero bytes. Fails where a table of so many records does not
    /// fit into memory.
    pub fn new(total_records: u64, record_size: u32) -> (r: Result<RawAssembly, MftError>)
        ensures
            if total_records * record_size > usize::MAX {
                r == Err::<RawAssembly, MftError>(
                    MftError::InvalidData(DataFault::TableTooLarge(total_records)),
                )
            } else {
                r matches Ok(a) && a.record_size == record_size && a.output@
                    == crate::bytes::zeros((total_records * record_size) as nat)
            },
    {
        let count: u128 = total_records as u128;
        assert(0 <= count * record_size <= 0xFFFF_FFFF_FFFF_FFFF * 0xFFFF_FFFF)
            by (nonlinear_arith)
            requires
                0 <= count <= 0xFFFF_FFFF_FFFF_FFFF,
                0 <= record_size <= 0xFFFF_FFFF,
        ;
        let size: u128 = count * record_size as u128;
        if size > usize::MAX as u128 {
            return Err(MftError::InvalidData(DataFault::TableTooLarge(total_records)));
        }
        let output: Vec<u8> = vec![0u8; size as usize];
        assert(output@ =~= crate::bytes::zeros((total_records * record_size) as nat));
        Ok(RawAssembly { output, record_size })
    }

    /// Puts the data of a chunk at its place. What reaches beyond the table
    /// is left out.
    pub fn place(&mut self, start_frs: u64, data: &[u8])
        requires
            start_frs * old(self).record_size <= old(self).output@.len(),
        ensures
            final(self).record_size == old(self).record_size,
            final(self).output@ == crate::bytes::overlay(
                old(self).output@,
                start_frs * old(self).record_size,
                data@,
            ),
    {
        let total: usize = self.output.len();
        assert(0 <= start_frs * self.record_size) by (nonlinear_arith)
            requires
                0 <= start_frs,
                0 <= self.record_size,
        ;
        let at: usize = (start_frs * self.record_size as u64) as usize;
        let room: usize = total - at;
        let n: usize = if data.len() < room {
            data.len()
        } else {
            room
        };
        for i in 0..n
            invariant
                total == self.output@.len(),
                total == old(self).output@.len(),
                self.record_size == old(self).record_size,
                at == start_frs * old(self).record_size,
                at + n <= total,
                n <= data@.len(),
                self.output@ =~= crate::bytes::overlay(
                    old(self).output@,
                    at as int,
                    data@.take(i as int),
                ),
        {
            self.output.set(at + i, data[i]);
        }
        assert(self.output@ =~= crate::bytes::overlay(old(self).output@, at as int, data@));
    }
}

/// A chunk that was put at its place can be read there.
pub proof fn law_placed_chunk_reads_back(table: Seq<u8>, at: int, data: Seq<u8>)
    requires
        0 <= at,
        at + data.len() <= table.len(),
    ensures
        crate::bytes::overlay(table, at, data).subrange(at, at + data.len()) == data,
        crate::bytes::overlay(table, at, data).take(at) == table.take(at),
        crate::bytes::overlay(table, at, data).skip(at + data.len()) == table.skip(
            at + data.len(),
        ),
{
    let t = crate::bytes::overlay(table, at, data);
    assert(t.subrange(at, at + data.len()) =~= data);
    assert(t.take(at) =~= table.take(at));
    assert(t.skip(at + data.len()) =~= table.skip(at + data.len()));
}

/// Which records are parsed and which results are kept: a damaged record only
/// where nothing may be missed, and there only files and directories are kept;
/// else everything is kept, but several threads keep nothing of a record in which
/// nothing was found.
pub proof fn law_what_is_kept(o: Outcome)
    ensures
        is_parsed(ParseMode::Forensic, o),
        is_parsed(ParseMode::Sequential, o) <==> o.fixup_ok,
        is_parsed(ParseMode::Parallel, o) <==> o.fixup_ok,
        is_kept(ParseMode::Forensic, o) <==> o.kind is Base,
        is_kept(ParseMode::Sequential, o) <==> o.fixup_ok,
        is_kept(ParseMode::Parallel, o) <==> o.fixup_ok && (o.kind is Base || o.kind is Extension),
{
}

/// A record more is one more in each count that it belongs to, and in no other.
pub proof fn law_each_record_adds_to_its_counts(
    mode: ParseMode,
    before: Seq<Outcome>,
    o: Outcome,
    s: ParseTally,
    t: ParseTally,
)
    requires
        counts_of(s, mode, before),
        counts_of(t, mode, before.push(o)),
    ensures
        t.examined == s.examined + 1,
        t.fixup_success == s.fixup_success + if o.fixup_ok { 1int } else { 0 },
        t.fixup_failed == s.fixup_failed + if o.fixup_ok { 0int } else { 1 },
        t.base_records == s.base_records + if (o.fixup_ok || mode is Forensic) && o.kind is Base {
            1int
        } else {
            0
        },
        t.extension_records == s.extension_records + if (o.fixup_ok || mode is Forensic) && o.kind
            is Extension {
            1int
        } else {
            0
        },
        t.skip_records == s.skip_records + if (o.fixup_ok || mode is Forensic) && o.kind is Skip {
            1int
        } else {
            0
        },
        t.kept == s.kept + if is_kept(mode, o) { 1int } else { 0 },
        before.len() == 0 ==> s.examined == 0 && s.fixup_success == 0 && s.fixup_failed == 0
            && s.base_records == 0 && s.extension_records == 0 && s.skip_records == 0 && s.kept == 0,
{
    lemma_count_push(before, o, |o: Outcome| o.fixup_ok);
    lemma_count_push(before, o, |o: Outcome| !o.fixup_ok);
    lemma_count_push(before, o, |o: Outcome| is_parsed(mode, o) && o.kind is Base);
    lemma_count_push(before, o, |o: Outcome| is_parsed(mode, o) && o.kind is Extension);
    lemma_count_push(before, o, |o: Outcome| is_parsed(mode, o) && o.kind is Skip);
    lemma_count_push(before, o, |o: Outcome| is_kept(mode, o));
}

/// The kept results are exactly those that are to be kept, in their order.
pub proof fn law_kept_positions(mode: ParseMode, outcomes: Seq<Outcome>, i: int)
    requires
        0 <= i < outcomes.len(),
    ensures
        kept_positions(mode, outcomes).contains(i) <==> is_kept(mode, outcomes[i]),
        forall|a: int, b: int|
            0 <= a < b < kept_positions(mode, outcomes).len() ==> kept_positions(mode, outcomes)[a]
                < kept_positions(mode, outcomes)[b],
    decreases outcomes.len(),
{
    let front = outcomes.drop_last();
    let before = kept_positions(mode, front);
    let all = kept_positions(mode, outcomes);
    lemma_positions_in_range(mode, front);
    if front.len() > 0 {
        law_kept_positions(mode, front, if i < front.len() { i } else { 0 });
    }
    if is_kept(mode, outcomes.last()) {
        assert(all == before.push(outcomes.len() - 1));
        assert(all[all.len() - 1] == outcomes.len() - 1);
    }
    if i < front.len() {
        assert(front[i] == outcomes[i]);
        if before.contains(i) {
            let k = choose|k: int| 0 <= k < before.len() && before[k] == i;
            assert(all[k] == i);
        }
        if all.contains(i) {
            let k = choose|k: int| 0 <= k < all.len() && all[k] == i;
            assert(before[k] == i);
        }
    } else if all.contains(i) && !is_kept(mode, outcomes.last()) {
        let k = choose|k: int| 0 <= k < all.len() && all[k] == i;
        assert(0 <= before[k] < front.len());
    }
}

/// Chunks follow each other without a gap: each begins where the records of the
/// one before it end, and only the last one holds less than 4096 records.
pub proof fn law_chunks_follow_each_other(len: int, record_size: int, k: int)
    requires
        0 < record_size,
        0 <= k,
        k + 1 < chunk_total(len, record_size),
        0 <= len <= usize::MAX,
    ensures
        chunk_at(len, record_size, 0).start_frs == 0,
        chunk_at(len, record_size, 0).offset == 0,
        chunk_at(len, record_size, k).records == 4096,
        chunk_at(len, record_size, k + 1).start_frs == chunk_at(len, record_size, k).start_frs
            + chunk_at(len, record_size, k).records,
        chunk_at(len, record_size, k + 1).offset == chunk_at(len, record_size, k).offset
            + chunk_at(len, record_size, k).records * record_size,
{
    lemma_chunk_begins_inside(len, record_size, k);
    lemma_chunk_begins_inside(len, record_size, k + 1);
    let step = 4096 * record_size;
    assert((k + 1) * step == k * step + step && 0 * step == 0) by (nonlinear_arith);
}

/// A table that nothing may be missed of is parsed in full; else one thread
/// parses it if that is asked for, and several if not.
pub proof fn law_modes_follow_the_options(options: LoadRawOptions, single_thread: bool)
    ensures
        mode_of(options, single_thread) is Forensic <==> options.forensic,
        mode_of(options, single_thread) is Sequential <==> !options.forensic && single_thread,
        mode_of(options, single_thread) is Parallel <==> !options.forensic && !single_thread,
{
}

/// No chunk reaches behind the table.
pub proof fn law_chunks_stay_inside(len: int, record_size: int, k: int)
    requires
        0 < record_size,
        0 <= k < chunk_total(len, record_size),
        0 <= len <= usize::MAX,
    ensures
        chunk_at(len, record_size, k).offset + chunk_at(len, record_size, k).records * record_size
            <= len,
{
    lemma_chunk_begins_inside(len, record_size, k);
    let start = k * (4096 * record_size);
    let left = len - start;
    let q = left / record_size;
    assert(q * record_size <= left && 0 <= q <= left) by (nonlinear_arith)
        requires
            0 < record_size,
            0 <= left,
            q == left / record_size,
    ;
}

} // verus!
