//! What is counted and reported while a table is read.

use core::time::Duration;
use vstd::prelude::*;

verus! {

/// Counts over the records of a table.
#[derive(Debug, Clone, Copy, PartialEq, Eq, Structural)]
pub struct MftStats {
    /// Directories.
    pub dir_count: u64,
    /// Files.
    pub file_count: u64,
    /// Hidden files and directories.
    pub hidden_count: u64,
    /// System files and directories.
    pub system_count: u64,
    /// Compressed files.
    pub compressed_count: u64,
    /// Encrypted files.
    pub encrypted_count: u64,
    /// Sparse files.
    pub sparse_count: u64,
    /// Reparse points.
    pub reparse_count: u64,
    /// Files with more than one data stream.
    pub multi_stream_count: u64,
    /// Files with more than one name.
    pub multi_name_count: u64,
    /// Sum of the sizes, in bytes.
    pub total_file_size: u64,
    /// Sum of the allocated sizes, in bytes.
    pub total_allocated_size: u64,
}

impl Default for MftStats {
    fn default() -> (r: MftStats)
        ensures
            r == (MftStats {
                dir_count: 0,
                file_count: 0,
                hidden_count: 0,
                system_count: 0,
                compressed_count: 0,
                encrypted_count: 0,
                sparse_count: 0,
                reparse_count: 0,
                multi_stream_count: 0,
                multi_name_count: 0,
                total_file_size: 0,
                total_allocated_size: 0,
            }),
    {
        MftStats {
            dir_count: 0,
            file_count: 0,
            hidden_count: 0,
            system_count: 0,
            compressed_count: 0,
            encrypted_count: 0,
            sparse_count: 0,
            reparse_count: 0,
            multi_stream_count: 0,
            multi_name_count: 0,
            total_file_size: 0,
            total_allocated_size: 0,
        }
    }
}

impl MftStats {
    /// The bytes that are allocated but not used. None where files use more
    /// than is allocated for them.
    pub fn slack_space(&self) -> (r: u64)
        ensures
            r == if self.total_allocated_size >= self.total_file_size {
                self.total_allocated_size - self.total_file_size
            } else {
                0
            },
    {
        self.total_allocated_size.saturating_sub(self.total_file_size)
    }
}

/// How far reading a table has come.
#[derive(Debug, Clone, Copy)]
pub struct MftProgress {
    /// Records read so far.
    pub records_read: u64,
    /// All records, if their number is known.
    pub total_records: Option<u64>,
    /// Bytes read so far.
    pub bytes_read: u64,
    /// Time since the start.
    pub elapsed: Duration,
}

impl MftProgress {
    /// The report before anything was read.
    pub fn at_start(total_records: u64, elapsed: Duration) -> (r: MftProgress)
        ensures
            r == (MftProgress {
                records_read: 0,
                total_records: Some(total_records),
                bytes_read: 0,
                elapsed,
            }),
    {
        MftProgress { records_read: 0, total_records: Some(total_records), bytes_read: 0, elapsed }
    }

    /// The report when everything was read.
    pub fn at_end(total_records: u64, total_bytes: u64, elapsed: Duration) -> (r: MftProgress)
        ensures
            r == (MftProgress {
                records_read: total_records,
                total_records: Some(total_records),
                bytes_read: total_bytes,
                elapsed,
            }),
    {
        MftProgress {
            records_read: total_records,
            total_records: Some(total_records),
            bytes_read: total_bytes,
            elapsed,
        }
    }

    /// The report after some of the expected bytes: the number of records is
    /// estimated.
    pub fn underway(
        bytes_read: u64,
        bytes_expected: u64,
        total_records: u64,
        elapsed: Duration,
    ) -> (r: MftProgress)
        ensures
            r == (MftProgress {
                records_read: estimate(bytes_read, bytes_expected, total_records),
                total_records: Some(total_records),
                bytes_read,
                elapsed,
            }),
    {
        MftProgress {
            records_read: records_approx(bytes_read, bytes_expected, total_records),
            total_records: Some(total_records),
            bytes_read,
            elapsed,
        }
    }
}

/// How many records some of the expected bytes hold: the same share of the
/// records. None where no bytes are expected.
pub open spec fn estimate(bytes_read: u64, bytes_expected: u64, total_records: u64) -> u64 {
    let product = bytes_read * total_records;
    let capped = if product > u64::MAX {
        u64::MAX as int
    } else {
        product
    };
    if bytes_expected == 0 {
        0
    } else {
        (capped / bytes_expected as int) as u64
    }
}

/// How many records some of the expected bytes hold.
pub fn records_approx(bytes_read: u64, bytes_expected: u64, total_records: u64) -> (r: u64)
    ensures
        r == estimate(bytes_read, bytes_expected, total_records),
{
    if bytes_expected == 0 {
        return 0;
    }
    let a: u128 = bytes_read as u128;
    let b: u128 = total_records as u128;
    assert(0 <= a * b <= 0xFFFF_FFFF_FFFF_FFFF * 0xFFFF_FFFF_FFFF_FFFF) by (nonlinear_arith)
        requires
            0 <= a <= 0xFFFF_FFFF_FFFF_FFFF,
            0 <= b <= 0xFFFF_FFFF_FFFF_FFFF,
    ;
    let product: u128 = a * b;
    let capped: u64 = if product > u64::MAX as u128 {
        u64::MAX
    } else {
        product as u64
    };
    capped / bytes_expected
}

/// All bytes hold all records, and the estimate never exceeds their number,
/// if the estimate is not capped.
pub proof fn law_estimate_ends_at_the_total(bytes_read: u64, bytes_expected: u64, total_records: u64)
    requires
        0 < bytes_expected,
        bytes_read <= bytes_expected,
        bytes_read * total_records <= u64::MAX,
    ensures
        estimate(bytes_read, bytes_expected, total_records) <= total_records,
        bytes_read == bytes_expected ==> estimate(bytes_read, bytes_expected, total_records)
            == total_records,
{
    let e = bytes_expected as int;
    let b = bytes_read as int;
    let t = total_records as int;
    assert(0 <= b * t) by (nonlinear_arith)
        requires
            0 <= b,
            0 <= t,
    ;
    assert((b * t) / e <= t) by (nonlinear_arith)
        requires
            0 <= b <= e,
            0 <= t,
            0 < e,
    ;
    assert(0 <= (b * t) / e) by (nonlinear_arith)
        requires
            0 <= b * t,
            0 < e,
    ;
    if b == e {
        assert((e * t) / e == t) by (nonlinear_arith)
            requires
                0 < e,
        ;
    }
}

/// The estimate is the part of all records that the bytes read are of the bytes
/// expected, rounded down, as long as it can be computed.
pub proof fn law_estimate_is_a_share(bytes_read: u64, bytes_expected: u64, total_records: u64)
    requires
        bytes_read * total_records <= u64::MAX,
    ensures
        bytes_expected > 0 ==> estimate(bytes_read, bytes_expected, total_records) * bytes_expected
            <= bytes_read * total_records < (estimate(bytes_read, bytes_expected, total_records) + 1)
            * bytes_expected,
        bytes_expected == 0 ==> estimate(bytes_read, bytes_expected, total_records) == 0,
{
    if bytes_expected > 0 {
        let p = bytes_read * total_records;
        let e = bytes_expected as int;
        assert(0 <= p) by (nonlinear_arith)
            requires
                p == bytes_read * total_records,
                0 <= bytes_read,
                0 <= total_records,
        ;
        let q = p / e;
        assert(q * e <= p < (q + 1) * e && 0 <= q <= p) by (nonlinear_arith)
            requires
                e > 0,
                p >= 0,
                q == p / e,
        ;
    }
}

/// What cannot be computed is estimated by the largest number that can.
pub proof fn law_large_estimates_are_capped(
    bytes_read: u64,
    bytes_expected: u64,
    total_records: u64,
)
    requires
        bytes_read * total_records > u64::MAX,
        bytes_expected > 0,
    ensures
        estimate(bytes_read, bytes_expected, total_records) * bytes_expected <= u64::MAX < (
        estimate(bytes_read, bytes_expected, total_records) + 1) * bytes_expected,
{
    let p = u64::MAX as int;
    let e = bytes_expected as int;
    let q = p / e;
    assert(q * e <= p < (q + 1) * e && 0 <= q <= p) by (nonlinear_arith)
        requires
            e > 0,
            p >= 0,
            q == p / e,
    ;
}

} // verus!
