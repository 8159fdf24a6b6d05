//! Timing the phases of a read.

use crate::platform::bitmap::MftBitmap;
use crate::platform::system::DriveType;
use crate::text::push_decimal;
use vstd::prelude::*;
use vstd::string::*;

verus! {

/// How long each phase of a read took, in milliseconds.
#[derive(Debug, Clone, Copy, PartialEq, Eq, Structural)]
pub struct PhaseTimings {
    /// Opening the volume.
    pub open_ms: u64,
    /// Reading from disk.
    pub read_ms: u64,
    /// Parsing records.
    pub parse_ms: u64,
    /// Merging extension records.
    pub merge_ms: u64,
    /// Building columns.
    pub df_build_ms: u64,
    /// Building an index.
    pub index_build_ms: u64,
    /// Computing the figures of the tree.
    pub tree_metrics_ms: u64,
    /// Everything, by the clock.
    pub total_ms: u64,
}

impl Default for PhaseTimings {
    fn default() -> (r: PhaseTimings)
        ensures
            r == (PhaseTimings {
                open_ms: 0,
                read_ms: 0,
                parse_ms: 0,
                merge_ms: 0,
                df_build_ms: 0,
                index_build_ms: 0,
                tree_metrics_ms: 0,
                total_ms: 0,
            }),
    {
        PhaseTimings {
            open_ms: 0,
            read_ms: 0,
            parse_ms: 0,
            merge_ms: 0,
            df_build_ms: 0,
            index_build_ms: 0,
            tree_metrics_ms: 0,
            total_ms: 0,
        }
    }
}

/// A number, or the largest signed number where it is larger.
pub open spec fn clamped(n: int) -> int {
    if n > i64::MAX {
        i64::MAX as int
    } else {
        n
    }
}

fn clamp(n: u64) -> (r: i64)
    ensures
        r == clamped(n as int),
        r >= 0,
{
    if n > i64::MAX as u64 {
        i64::MAX
    } else {
        n as i64
    }
}

impl PhaseTimings {
    /// The sum of the phases.
    pub open spec fn sum(self) -> int {
        self.open_ms + self.read_ms + self.parse_ms + self.merge_ms + self.df_build_ms
            + self.index_build_ms + self.tree_metrics_ms
    }

    /// The sum of the phases. It may differ from the total, since phases may
    /// overlap.
    pub fn sum_phases(&self) -> (r: u64)
        requires
            self.sum() <= u64::MAX,
        ensures
            r == self.sum(),
    {
        self.open_ms + self.read_ms + self.parse_ms + self.merge_ms + self.df_build_ms
            + self.index_build_ms + self.tree_metrics_ms
    }

    /// What the total exceeds the sum of the phases by. Negative where phases
    /// overlapped.
    pub fn overhead_ms(&self) -> (r: i64)
        requires
            self.sum() <= u64::MAX,
        ensures
            r == clamped(self.total_ms as int) - clamped(self.sum()),
    {
        clamp(self.total_ms) - clamp(self.sum_phases())
    }
}

/// What is known of a drive and its table.
#[derive(Debug, Clone)]
pub struct DriveCharacteristics {
    /// The drive.
    pub drive_letter: char,
    /// The name of the drive's kind.
    pub drive_type: String,
    /// Size of the table, in bytes.
    pub mft_size_bytes: u64,
    /// Number of records.
    pub total_records: u64,
    /// Number of records in use, if it is known.
    pub in_use_records: Option<u64>,
    /// Number of extents of the table.
    pub extent_count: usize,
    /// Size of a record.
    pub bytes_per_record: u32,
    /// How much is read at once, in bytes.
    pub chunk_size_bytes: usize,
    /// Number of reads.
    pub chunk_count: usize,
}

/// The size and shape of a table.
#[derive(Debug, Clone, Copy, PartialEq, Eq, Structural)]
pub struct MftMetrics {
    /// Size of the table, in bytes.
    pub size_bytes: u64,
    /// Number of records.
    pub total_records: u64,
    /// Number of records in use, if it is known.
    pub in_use_records: Option<u64>,
    /// Number of extents.
    pub extent_count: usize,
    /// Size of a record.
    pub bytes_per_record: u32,
}

/// The name of a drive's kind.
pub open spec fn kind_name(drive_type: DriveType) -> Seq<char> {
    match drive_type {
        DriveType::Nvme => "Nvme"@,
        DriveType::Ssd => "Ssd"@,
        DriveType::Hdd => "Hdd"@,
        DriveType::Unknown => "Unknown"@,
    }
}

/// Puts together what is known of a drive and its table.
pub fn build_drive_characteristics(
    drive_letter: char,
    drive_type: DriveType,
    mft: MftMetrics,
    chunk_size_bytes: usize,
    chunk_count: usize,
) -> (r: DriveCharacteristics)
    ensures
        r.drive_letter == drive_letter,
        r.drive_type@ == kind_name(drive_type),
        r.mft_size_bytes == mft.size_bytes,
        r.total_records == mft.total_records,
        r.in_use_records == mft.in_use_records,
        r.extent_count == mft.extent_count,
        r.bytes_per_record == mft.bytes_per_record,
        r.chunk_size_bytes == chunk_size_bytes,
        r.chunk_count == chunk_count,
{
    let name: &str = match drive_type {
        DriveType::Nvme => "Nvme",
        DriveType::Ssd => "Ssd",
        DriveType::Hdd => "Hdd",
        DriveType::Unknown => "Unknown",
    };
    DriveCharacteristics {
        drive_letter,
        drive_type: String::from_str(name),
        mft_size_bytes: mft.size_bytes,
        total_records: mft.total_records,
        in_use_records: mft.in_use_records,
        extent_count: mft.extent_count,
        bytes_per_record: mft.bytes_per_record,
        chunk_size_bytes,
        chunk_count,
    }
}

/// The shares of reading, parsing and merging in the time that they take
/// together, in percent.
pub open spec fn phase_shares(drive_type: DriveType) -> (int, int, int) {
    match drive_type {
        DriveType::Nvme => (20, 60, 20),
        DriveType::Ssd => (30, 50, 20),
        DriveType::Hdd | DriveType::Unknown => (70, 20, 10),
    }
}

/// The largest of the shares.
pub open spec fn largest_share(drive_type: DriveType) -> int {
    match drive_type {
        DriveType::Nvme => 60,
        DriveType::Ssd => 50,
        DriveType::Hdd | DriveType::Unknown => 70,
    }
}

/// Estimates how long reading, parsing and merging took, where only the time
/// that they took together is known.
pub fn estimate_combined_phase_timings(drive_type: DriveType, read_parse_ms: u64) -> (r: (
    u64,
    u64,
    u64,
))
    requires
        read_parse_ms * largest_share(drive_type) <= u64::MAX,
    ensures
        r.0 == read_parse_ms * phase_shares(drive_type).0 / 100,
        r.1 == read_parse_ms * phase_shares(drive_type).1 / 100,
        r.2 == read_parse_ms * phase_shares(drive_type).2 / 100,
{
    match drive_type {
        DriveType::Nvme => (
            read_parse_ms * 20 / 100,
            read_parse_ms * 60 / 100,
            read_parse_ms * 20 / 100,
        ),
        DriveType::Ssd => (
            read_parse_ms * 30 / 100,
            read_parse_ms * 50 / 100,
            read_parse_ms * 20 / 100,
        ),
        DriveType::Hdd | DriveType::Unknown => (
            read_parse_ms * 70 / 100,
            read_parse_ms * 20 / 100,
            read_parse_ms * 10 / 100,
        ),
    }
}

/// Describes the drive of a timed read: the table's size by its records, the
/// records in use by its bitmap, and the size of a read by the drive's kind.
pub fn benchmark_phase1_open(
    drive_letter: char,
    drive_type: DriveType,
    total_records: u64,
    record_size: u32,
    extent_count: usize,
    bitmap: Option<&MftBitmap>,
    chunk_count: usize,
) -> (r: DriveCharacteristics)
    requires
        total_records * record_size <= u64::MAX,
    ensures
        r.drive_letter == drive_letter,
        r.drive_type@ == kind_name(drive_type),
        r.mft_size_bytes == total_records * record_size,
        r.total_records == total_records,
        match (r.in_use_records, bitmap) {
            (Some(n), Some(b)) => n == crate::platform::bitmap::count_set(b@),
            (None, None) => true,
            _ => false,
        },
        r.extent_count == extent_count,
        r.bytes_per_record == record_size,
        r.chunk_size_bytes == match drive_type {
            DriveType::Nvme => 4 * 1024 * 1024int,
            DriveType::Ssd => 2 * 1024 * 1024int,
            DriveType::Hdd | DriveType::Unknown => 1024 * 1024int,
        },
        r.chunk_count == chunk_count,
{
    assert(0 <= total_records * record_size) by (nonlinear_arith)
        requires
            0 <= total_records,
            0 <= record_size,
    ;
    let in_use_records: Option<u64> = match bitmap {
        Some(b) => Some(b.count_in_use() as u64),
        None => None,
    };
    let mft: MftMetrics = MftMetrics {
        size_bytes: total_records * record_size as u64,
        total_records,
        in_use_records,
        extent_count,
        bytes_per_record: record_size,
    };
    build_drive_characteristics(
        drive_letter,
        drive_type,
        mft,
        drive_type.optimal_chunk_size(),
        chunk_count,
    )
}

impl PhaseTimings {
    /// The phases of a read into columns, of which reading, parsing and
    /// merging were only measured together. `None` where no columns were built.
    pub fn of_columns(
        drive_type: DriveType,
        open_ms: u64,
        read_parse_ms: u64,
        df_build_ms: Option<u64>,
        total_ms: u64,
    ) -> (r: PhaseTimings)
        requires
            read_parse_ms * largest_share(drive_type) <= u64::MAX,
        ensures
            r.open_ms == open_ms,
            r.read_ms == read_parse_ms * phase_shares(drive_type).0 / 100,
            r.parse_ms == read_parse_ms * phase_shares(drive_type).1 / 100,
            r.merge_ms == read_parse_ms * phase_shares(drive_type).2 / 100,
            r.df_build_ms == match df_build_ms {
                Some(ms) => ms,
                None => 0,
            },
            r.index_build_ms == 0,
            r.tree_metrics_ms == 0,
            r.total_ms == total_ms,
    {
        let (read_ms, parse_ms, merge_ms) = estimate_combined_phase_timings(
            drive_type,
            read_parse_ms,
        );
        PhaseTimings {
            open_ms,
            read_ms,
            parse_ms,
            merge_ms,
            df_build_ms: match df_build_ms {
                Some(ms) => ms,
                None => 0,
            },
            index_build_ms: 0,
            tree_metrics_ms: 0,
            total_ms,
        }
    }
}

/// The estimated phases never take more time than was measured, and at most
/// two milliseconds less.
pub proof fn law_estimated_phases_add_up(drive_type: DriveType, ms: int)
    requires
        0 <= ms,
    ensures
        ({
            let (a, b, c) = phase_shares(drive_type);
            ms - 2 <= ms * a / 100 + ms * b / 100 + ms * c / 100 <= ms
        }),
{
}

/// A number, or `null`.
pub open spec fn optional_number(n: Option<u64>) -> Seq<char> {
    match n {
        Some(n) => crate::text::decimal(n as nat),
        None => "null"@,
    }
}

/// A field of a report that holds a number.
pub open spec fn number_field(name: Seq<char>, n: nat) -> Seq<char> {
    name + crate::text::decimal(n)
}

/// The report on a timed read, as JSON. The two rates are given as text.
pub open spec fn report_text(
    t: PhaseTimings,
    c: DriveCharacteristics,
    records_parsed: nat,
    mb_per_sec: Seq<char>,
    records_per_sec: Seq<char>,
) -> Seq<char> {
    "{\n  \"drive\": \""@ + seq![c.drive_letter] + "\",\n  \"drive_type\": \""@ + c.drive_type@
        + number_field("\",\n  \"mft_size_bytes\": "@, c.mft_size_bytes as nat) + number_field(
        ",\n  \"total_records\": "@,
        c.total_records as nat,
    ) + ",\n  \"in_use_records\": "@ + optional_number(c.in_use_records) + number_field(
        ",\n  \"extent_count\": "@,
        c.extent_count as nat,
    ) + number_field(",\n  \"bytes_per_record\": "@, c.bytes_per_record as nat) + number_field(
        ",\n  \"chunk_size_bytes\": "@,
        c.chunk_size_bytes as nat,
    ) + number_field(",\n  \"chunk_count\": "@, c.chunk_count as nat) + number_field(
        ",\n  \"records_parsed\": "@,
        records_parsed,
    ) + number_field(",\n  \"timings_ms\": {\n    \"open\": "@, t.open_ms as nat) + number_field(
        ",\n    \"read\": "@,
        t.read_ms as nat,
    ) + number_field(",\n    \"parse\": "@, t.parse_ms as nat) + number_field(
        ",\n    \"merge\": "@,
        t.merge_ms as nat,
    ) + number_field(",\n    \"df_build\": "@, t.df_build_ms as nat) + number_field(
        ",\n    \"index_build\": "@,
        t.index_build_ms as nat,
    ) + number_field(",\n    \"tree_metrics\": "@, t.tree_metrics_ms as nat) + number_field(
        ",\n    \"total\": "@,
        t.total_ms as nat,
    ) + "\n  },\n  \"throughput\": {\n    \"mb_per_sec\": "@ + mb_per_sec
        + ",\n    \"records_per_sec\": "@ + records_per_sec + "\n  }\n}"@
}

fn push_field(s: &mut String, name: &str, n: u64)
    ensures
        final(s)@ == old(s)@ + number_field(name@, n as nat),
{
    s.append(name);
    push_decimal(s, n);
    assert(s@ =~= old(s)@ + number_field(name@, n as nat));
}

/// The report on a timed read, as JSON. The two rates are given as text.
pub fn to_json(
    t: &PhaseTimings,
    c: &DriveCharacteristics,
    records_parsed: usize,
    mb_per_sec: &str,
    records_per_sec: &str,
) -> (r: String)
    ensures
        r@ == report_text(*t, *c, records_parsed as nat, mb_per_sec@, records_per_sec@),
{
    let mut s: String = String::from_str("{\n  \"drive\": \"");
    s.push(c.drive_letter);
    assert(s@ =~= "{\n  \"drive\": \""@ + seq![c.drive_letter]);
    s.append("\",\n  \"drive_type\": \"");
    s.append(c.drive_type.as_str());
    push_field(&mut s, "\",\n  \"mft_size_bytes\": ", c.mft_size_bytes);
    push_field(&mut s, ",\n  \"total_records\": ", c.total_records);
    s.append(",\n  \"in_use_records\": ");
    match c.in_use_records {
        Some(n) => {
            push_decimal(&mut s, n);
        },
        None => {
            s.append("null");
        },
    }
    push_field(&mut s, ",\n  \"extent_count\": ", c.extent_count as u64);
    push_field(&mut s, ",\n  \"bytes_per_record\": ", c.bytes_per_record as u64);
    push_field(&mut s, ",\n  \"chunk_size_bytes\": ", c.chunk_size_bytes as u64);
    push_field(&mut s, ",\n  \"chunk_count\": ", c.chunk_count as u64);
    push_field(&mut s, ",\n  \"records_parsed\": ", records_parsed as u64);
    push_field(&mut s, ",\n  \"timings_ms\": {\n    \"open\": ", t.open_ms);
    push_field(&mut s, ",\n    \"read\": ", t.read_ms);
    push_field(&mut s, ",\n    \"parse\": ", t.parse_ms);
    push_field(&mut s, ",\n    \"merge\": ", t.merge_ms);
    push_field(&mut s, ",\n    \"df_build\": ", t.df_build_ms);
    push_field(&mut s, ",\n    \"index_build\": ", t.index_build_ms);
    push_field(&mut s, ",\n    \"tree_metrics\": ", t.tree_metrics_ms);
    push_field(&mut s, ",\n    \"total\": ", t.total_ms);
    s.append("\n  },\n  \"throughput\": {\n    \"mb_per_sec\": ");
    s.append(mb_per_sec);
    s.append(",\n    \"records_per_sec\": ");
    s.append(records_per_sec);
    s.append("\n  }\n}");
    s
}

/// The shares of the phases are percentages. A fast drive spends most of the time
/// on parsing, a drive with heads on reading, and a drive whose kind is not known
/// is taken for one with heads.
pub proof fn law_phase_shares(drive_type: DriveType)
    ensures
        ({
            let (read, parse, merge) = phase_shares(drive_type);
            &&& read + parse + merge == 100
            &&& 0 < merge <= parse && 0 < read
            &&& drive_type is Nvme ==> parse == 3 * read && merge == read
            &&& drive_type is Ssd ==> read == 30 && parse == 50
            &&& drive_type is Hdd || drive_type is Unknown ==> read == 70 && parse == 20
            &&& largest_share(drive_type) >= read && largest_share(drive_type) >= parse
                && largest_share(drive_type) >= merge
        }),
{
}

/// Every phase counts to the sum, and nothing else does.
pub proof fn law_phases_add_up(t: PhaseTimings)
    ensures
        t.sum() - (PhaseTimings { open_ms: 0, ..t }).sum() == t.open_ms,
        t.sum() - (PhaseTimings { read_ms: 0, ..t }).sum() == t.read_ms,
        t.sum() - (PhaseTimings { parse_ms: 0, ..t }).sum() == t.parse_ms,
        t.sum() - (PhaseTimings { merge_ms: 0, ..t }).sum() == t.merge_ms,
        t.sum() - (PhaseTimings { df_build_ms: 0, ..t }).sum() == t.df_build_ms,
        t.sum() - (PhaseTimings { index_build_ms: 0, ..t }).sum() == t.index_build_ms,
        t.sum() - (PhaseTimings { tree_metrics_ms: 0, ..t }).sum() == t.tree_metrics_ms,
        (PhaseTimings { total_ms: 0, ..t }).sum() == t.sum(),
        t.open_ms == 0 && t.read_ms == 0 && t.parse_ms == 0 && t.merge_ms == 0 && t.df_build_ms == 0
            && t.index_build_ms == 0 && t.tree_metrics_ms == 0 ==> t.sum() == 0,
{
}

/// Times that a signed number can hold are kept, and longer ones are cut off.
pub proof fn law_long_times_are_cut_off(n: int)
    requires
        0 <= n,
    ensures
        n <= i64::MAX ==> clamped(n) == n,
        n > i64::MAX ==> clamped(n) == i64::MAX,
{
}

/// The kinds of drives have names of their own.
pub proof fn law_kinds_have_names(a: DriveType, b: DriveType)
    ensures
        kind_name(DriveType::Nvme) == "Nvme"@,
        kind_name(DriveType::Ssd) == "Ssd"@,
        kind_name(DriveType::Hdd) == "Hdd"@,
        kind_name(DriveType::Unknown) == "Unknown"@,
        a != b ==> kind_name(a) != kind_name(b),
{
    reveal_strlit("Nvme");
    reveal_strlit("Ssd");
    reveal_strlit("Hdd");
    reveal_strlit("Unknown");
    assert("Nvme"@.len() == 4 && "Ssd"@.len() == 3 && "Hdd"@.len() == 3 && "Unknown"@.len() == 7);
    assert("Ssd"@[0] == 'S' && "Hdd"@[0] == 'H');
}

/// A text stands somewhere in another.
pub open spec fn occurs(text: Seq<char>, part: Seq<char>) -> bool {
    exists|a: Seq<char>, b: Seq<char>| text == #[trigger] (a + part + b)
}

/// Some texts, one behind the other.
spec fn chain(pieces: Seq<Seq<char>>) -> Seq<char>
    decreases pieces.len(),
{
    if pieces.len() == 0 {
        Seq::empty()
    } else {
        chain(pieces.drop_last()) + pieces.last()
    }
}

proof fn lemma_chain_push(pieces: Seq<Seq<char>>, piece: Seq<char>)
    ensures
        chain(pieces.push(piece)) == chain(pieces) + piece,
{
    assert(pieces.push(piece).drop_last() =~= pieces);
}

proof fn lemma_pieces_occur(pieces: Seq<Seq<char>>, i: int)
    requires
        0 <= i < pieces.len(),
    ensures
        occurs(chain(pieces), pieces[i]),
    decreases pieces.len(),
{
    let front = pieces.drop_last();
    let text = chain(pieces);
    if i < front.len() {
        lemma_pieces_occur(front, i);
        let (a, b) = choose|a: Seq<char>, b: Seq<char>|
            chain(front) == #[trigger] (a + front[i] + b);
        assert(front[i] == pieces[i]);
        assert(text =~= a + pieces[i] + (b + pieces.last()));
    } else {
        assert(text =~= chain(front) + pieces[i] + Seq::<char>::empty());
    }
}

/// A report gives every number behind its name.
#[verifier::spinoff_prover]
#[verifier::rlimit(60)]
pub proof fn law_reports_name_their_numbers(
    t: PhaseTimings,
    c: DriveCharacteristics,
    records_parsed: nat,
    mb_per_sec: Seq<char>,
    records_per_sec: Seq<char>,
)
    ensures
        occurs(
            report_text(t, c, records_parsed, mb_per_sec, records_per_sec),
            "\",\n  \"mft_size_bytes\": "@ + crate::text::decimal(c.mft_size_bytes as nat),
        ),
        occurs(
            report_text(t, c, records_parsed, mb_per_sec, records_per_sec),
            ",\n  \"total_records\": "@ + crate::text::decimal(c.total_records as nat),
        ),
        occurs(
            report_text(t, c, records_parsed, mb_per_sec, records_per_sec),
            ",\n  \"extent_count\": "@ + crate::text::decimal(c.extent_count as nat),
        ),
        occurs(
            report_text(t, c, records_parsed, mb_per_sec, records_per_sec),
            ",\n  \"bytes_per_record\": "@ + crate::text::decimal(c.bytes_per_record as nat),
        ),
        occurs(
            report_text(t, c, records_parsed, mb_per_sec, records_per_sec),
            ",\n  \"chunk_size_bytes\": "@ + crate::text::decimal(c.chunk_size_bytes as nat),
        ),
        occurs(
            report_text(t, c, records_parsed, mb_per_sec, records_per_sec),
            ",\n  \"chunk_count\": "@ + crate::text::decimal(c.chunk_count as nat),
        ),
        occurs(
            report_text(t, c, records_parsed, mb_per_sec, records_per_sec),
            ",\n  \"records_parsed\": "@ + crate::text::decimal(records_parsed),
        ),
        occurs(
            report_text(t, c, records_parsed, mb_per_sec, records_per_sec),
            ",\n  \"timings_ms\": {\n    \"open\": "@ + crate::text::decimal(t.open_ms as nat),
        ),
        occurs(
            report_text(t, c, records_parsed, mb_per_sec, records_per_sec),
            ",\n    \"read\": "@ + crate::text::decimal(t.read_ms as nat),
        ),
        occurs(
            report_text(t, c, records_parsed, mb_per_sec, records_per_sec),
            ",\n    \"parse\": "@ + crate::text::decimal(t.parse_ms as nat),
        ),
        occurs(
            report_text(t, c, records_parsed, mb_per_sec, records_per_sec),
            ",\n    \"merge\": "@ + crate::text::decimal(t.merge_ms as nat),
        ),
        occurs(
            report_text(t, c, records_parsed, mb_per_sec, records_per_sec),
            ",\n    \"df_build\": "@ + crate::text::decimal(t.df_build_ms as nat),
        ),
        occurs(
            report_text(t, c, records_parsed, mb_per_sec, records_per_sec),
            ",\n    \"index_build\": "@ + crate::text::decimal(t.index_build_ms as nat),
        ),
        occurs(
            report_text(t, c, records_parsed, mb_per_sec, records_per_sec),
            ",\n    \"tree_metrics\": "@ + crate::text::decimal(t.tree_metrics_ms as nat),
        ),
        occurs(
            report_text(t, c, records_parsed, mb_per_sec, records_per_sec),
            ",\n    \"total\": "@ + crate::text::decimal(t.total_ms as nat),
        ),
{
    let s0 = Seq::<Seq<char>>::empty();
    let x1 = "{\n  \"drive\": \""@;
    let s1 = s0.push(x1);
    lemma_chain_push(s0, x1);
    let x2 = seq![c.drive_letter];
    let s2 = s1.push(x2);
    lemma_chain_push(s1, x2);
    let x3 = "\",\n  \"drive_type\": \""@;
    let s3 = s2.push(x3);
    lemma_chain_push(s2, x3);
    let x4 = c.drive_type@;
    let s4 = s3.push(x4);
    lemma_chain_push(s3, x4);
    let x5 = number_field("\",\n  \"mft_size_bytes\": "@, c.mft_size_bytes as nat);
    let s5 = s4.push(x5);
    lemma_chain_push(s4, x5);
    let x6 = number_field(",\n  \"total_records\": "@, c.total_records as nat);
    let s6 = s5.push(x6);
    lemma_chain_push(s5, x6);
    let x7 = ",\n  \"in_use_records\": "@;
    let s7 = s6.push(x7);
    lemma_chain_push(s6, x7);
    let x8 = optional_number(c.in_use_records);
    let s8 = s7.push(x8);
    lemma_chain_push(s7, x8);
    let x9 = number_field(",\n  \"extent_count\": "@, c.extent_count as nat);
    let s9 = s8.push(x9);
    lemma_chain_push(s8, x9);
    let x10 = number_field(",\n  \"bytes_per_record\": "@, c.bytes_per_record as nat);
    let s10 = s9.push(x10);
    lemma_chain_push(s9, x10);
    let x11 = number_field(",\n  \"chunk_size_bytes\": "@, c.chunk_size_bytes as nat);
    let s11 = s10.push(x11);
    lemma_chain_push(s10, x11);
    let x12 = number_field(",\n  \"chunk_count\": "@, c.chunk_count as nat);
    let s12 = s11.push(x12);
    lemma_chain_push(s11, x12);
    let x13 = number_field(",\n  \"records_parsed\": "@, records_parsed);
    let s13 = s12.push(x13);
    lemma_chain_push(s12, x13);
    let x14 = number_field(",\n  \"timings_ms\": {\n    \"open\": "@, t.open_ms as nat);
    let s14 = s13.push(x14);
    lemma_chain_push(s13, x14);
    let x15 = number_field(",\n    \"read\": "@, t.read_ms as nat);
    let s15 = s14.push(x15);
    lemma_chain_push(s14, x15);
    let x16 = number_field(",\n    \"parse\": "@, t.parse_ms as nat);
    let s16 = s15.push(x16);
    lemma_chain_push(s15, x16);
    let x17 = number_field(",\n    \"merge\": "@, t.merge_ms as nat);
    let s17 = s16.push(x17);
    lemma_chain_push(s16, x17);
    let x18 = number_field(",\n    \"df_build\": "@, t.df_build_ms as nat);
    let s18 = s17.push(x18);
    lemma_chain_push(s17, x18);
    let x19 = number_field(",\n    \"index_build\": "@, t.index_build_ms as nat);
    let s19 = s18.push(x19);
    lemma_chain_push(s18, x19);
    let x20 = number_field(",\n    \"tree_metrics\": "@, t.tree_metrics_ms as nat);
    let s20 = s19.push(x20);
    lemma_chain_push(s19, x20);
    let x21 = number_field(",\n    \"total\": "@, t.total_ms as nat);
    let s21 = s20.push(x21);
    lemma_chain_push(s20, x21);
    let x22 = "\n  },\n  \"throughput\": {\n    \"mb_per_sec\": "@;
    let s22 = s21.push(x22);
    lemma_chain_push(s21, x22);
    let x23 = mb_per_sec;
    let s23 = s22.push(x23);
    lemma_chain_push(s22, x23);
    let x24 = ",\n    \"records_per_sec\": "@;
    let s24 = s23.push(x24);
    lemma_chain_push(s23, x24);
    let x25 = records_per_sec;
    let s25 = s24.push(x25);
    lemma_chain_push(s24, x25);
    let x26 = "\n  }\n}"@;
    let s26 = s25.push(x26);
    lemma_chain_push(s25, x26);
    assert(chain(s0) + x1 =~= x1);
    let text = report_text(t, c, records_parsed, mb_per_sec, records_per_sec);
    assert(chain(s26) == text);
    lemma_pieces_occur(s26, 4);
    assert(s26[4] == x5);
    lemma_pieces_occur(s26, 5);
    assert(s26[5] == x6);
    lemma_pieces_occur(s26, 8);
    assert(s26[8] == x9);
    lemma_pieces_occur(s26, 9);
    assert(s26[9] == x10);
    lemma_pieces_occur(s26, 10);
    assert(s26[10] == x11);
    lemma_pieces_occur(s26, 11);
    assert(s26[11] == x12);
    lemma_pieces_occur(s26, 12);
    assert(s26[12] == x13);
    lemma_pieces_occur(s26, 13);
    assert(s26[13] == x14);
    lemma_pieces_occur(s26, 14);
    assert(s26[14] == x15);
    lemma_pieces_occur(s26, 15);
    assert(s26[15] == x16);
    lemma_pieces_occur(s26, 16);
    assert(s26[16] == x17);
    lemma_pieces_occur(s26, 17);
    assert(s26[17] == x18);
    lemma_pieces_occur(s26, 18);
    assert(s26[18] == x19);
    lemma_pieces_occur(s26, 19);
    assert(s26[19] == x20);
    lemma_pieces_occur(s26, 20);
    assert(s26[20] == x21);
}

/// A number that is not known is `null` in a report.
pub proof fn law_unknown_numbers(n: u64)
    ensures
        optional_number(Some(n)) == crate::text::decimal(n as nat),
        optional_number(None) == "null"@,
{
}

} // verus!
