//! Which records of the table are in use.

use vstd::prelude::*;

verus! {

/// Bit `k` of a byte, counted from the lowest.
pub open spec fn bit_of(b: u8, k: int) -> bool {
    b & (1u8 << (k as u8)) != 0
}

/// The first `n` bits of a sequence of bytes.
pub open spec fn bits_of(data: Seq<u8>, n: nat) -> Seq<bool> {
    Seq::new(n, |i: int| i / 8 < data.len() && bit_of(data[i / 8], i % 8))
}

/// How many flags are set.
pub open spec fn count_set(s: Seq<bool>) -> nat
    decreases s.len(),
{
    if s.len() == 0 {
        0
    } else {
        count_set(s.drop_last()) + if s.last() {
            1nat
        } else {
            0nat
        }
    }
}

/// The positions of the flags that are set, from `start` on, in ascending
/// order.
pub open spec fn set_from(s: Seq<bool>, start: int) -> Seq<u64>
    decreases s.len() - start,
{
    if start < 0 || start >= s.len() {
        Seq::empty()
    } else if s[start] {
        seq![start as u64] + set_from(s, start + 1)
    } else {
        set_from(s, start + 1)
    }
}

/// Some flag from `from` up to `to` is set.
pub open spec fn any_set(s: Seq<bool>, from: int, to: int) -> bool {
    exists|j: int| from <= j < to && 0 <= j < s.len() && #[trigger] s[j]
}

/// Some record of cluster `c` is in use.
pub open spec fn cluster_in_use(s: Seq<bool>, records_per_cluster: u32, c: int) -> bool {
    any_set(s, c * records_per_cluster, (c + 1) * records_per_cluster)
}

/// How many clusters the records take.
pub open spec fn cluster_count(s: Seq<bool>, records_per_cluster: u32) -> int {
    (s.len() + records_per_cluster - 1) / (records_per_cluster as int)
}

/// Cluster `c` lies in a range of clusters.
pub open spec fn in_range(r: (u64, u64), c: int) -> bool {
    r.0 <= c < r.0 + r.1
}

/// Which records of the table are in use: one bit per record.
#[derive(Debug, Clone)]
pub struct MftBitmap {
    data: Vec<u8>,
    record_count: usize,
}

impl View for MftBitmap {
    type V = Seq<bool>;

    /// For each record that the bitmap covers, whether it is in use.
    closed spec fn view(&self) -> Seq<bool> {
        bits_of(self.data@, self.record_count as nat)
    }
}

impl MftBitmap {
    /// The bytes of the bitmap.
    pub closed spec fn bytes(self) -> Seq<u8> {
        self.data@
    }

    /// A bitmap that covers as many records as it has bits.
    pub fn from_bytes(data: Vec<u8>) -> (r: MftBitmap)
        requires
            data@.len() * 8 <= usize::MAX,
        ensures
            r.bytes() == data@,
            r@ == bits_of(data@, (data@.len() * 8) as nat),
    {
        let record_count: usize = data.len() * 8;
        MftBitmap { data, record_count }
    }

    /// A bitmap in which every record is in use.
    pub fn new_all_valid(record_count: usize) -> (r: MftBitmap)
        ensures
            r.bytes() == Seq::new(((record_count + 7) / 8) as nat, |i: int| 0xFFu8),
            r@ == Seq::new(record_count as nat, |i: int| true),
    {
        let byte_count: usize = record_count / 8 + if record_count % 8 == 0 {
            0
        } else {
            1
        };
        let r: MftBitmap = MftBitmap { data: vec![0xFFu8; byte_count], record_count };
        assert(forall|k: u8| k < 8 ==> 0xFFu8 & #[trigger] (1u8 << k) != 0) by (bit_vector);
        assert(r.data@ =~= Seq::new(((record_count + 7) / 8) as nat, |i: int| 0xFFu8));
        assert(r@ =~= Seq::new(record_count as nat, |i: int| true)) by {
            assert forall|i: int| 0 <= i < record_count implies #[trigger] r@[i] by {
                assert(i / 8 < byte_count);
                let k = (i % 8) as u8;
                assert(0xFFu8 & (1u8 << k) != 0);
            }
        }
        r
    }

    fn bit(&self, i: usize) -> (r: bool)
        requires
            i < self@.len(),
        ensures
            r == self@[i as int],
    {
        if i / 8 >= self.data.len() {
            return false;
        }
        (self.data[i / 8] & (1u8 << ((i % 8) as u8))) != 0
    }

    /// Whether a record is in use. A record that the bitmap does not cover is
    /// not.
    pub fn is_record_in_use(&self, frs: u64) -> (r: bool)
        ensures
            r == (frs < self@.len() && self@[frs as int]),
    {
        if frs >= self.record_count as u64 {
            return false;
        }
        self.bit(frs as usize)
    }

    /// The number of records in use.
    pub fn count_in_use(&self) -> (r: usize)
        ensures
            r == count_set(self@),
    {
        let n: usize = self.record_count;
        let mut count: usize = 0;
        let mut i: usize = 0;
        while i < n
            invariant
                i <= n,
                n == self@.len(),
                count <= i,
                count == count_set(self@.take(i as int)),
            decreases n - i,
        {
            assert(self@.take(i + 1).drop_last() =~= self@.take(i as int));
            if self.bit(i) {
                count += 1;
            }
            i += 1;
        }
        assert(self@.take(n as int) =~= self@);
        count
    }

    /// The highest record in use, 0 if none is.
    pub fn max_frs_in_use(&self) -> (r: u64)
        ensures
            if any_set(self@, 0, self@.len() as int) {
                &&& r < self@.len()
                &&& self@[r as int]
                &&& forall|j: int| r < j < self@.len() ==> !#[trigger] self@[j]
            } else {
                r == 0
            },
    {
        let mut i: usize = self.record_count;
        while i > 0
            invariant
                i <= self@.len(),
                forall|j: int| i <= j < self@.len() ==> !#[trigger] self@[j],
            decreases i,
        {
            if self.bit(i - 1) {
                assert(any_set(self@, 0, self@.len() as int));
                return (i - 1) as u64;
            }
            i -= 1;
        }
        0
    }

    /// How many records the bitmap covers.
    pub fn record_count(&self) -> (r: usize)
        ensures
            r == self@.len(),
    {
        self.record_count
    }

    /// The bytes of the bitmap.
    pub fn as_bytes(&self) -> (r: &[u8])
        ensures
            r@ == self.bytes(),
            self@ == bits_of(r@, self@.len()),
    {
        self.data.as_slice()
    }

    /// The records in use, in ascending order.
    pub fn in_use_records(&self) -> (r: Vec<u64>)
        ensures
            r@ == set_from(self@, 0),
    {
        self.find_in_use_range(0, self.record_count)
    }

    /// The first `count` records in use from `start_frs` on.
    pub fn find_in_use_range(&self, start_frs: u64, count: usize) -> (r: Vec<u64>)
        ensures
            ({
                let all = set_from(self@, start_frs as int);
                r@ == if count < all.len() {
                    all.take(count as int)
                } else {
                    all
                }
            }),
            count == self@.len() ==> r@ == set_from(self@, start_frs as int),
    {
        let n: usize = self.record_count;
        let mut result: Vec<u64> = Vec::new();
        let ghost all = set_from(self@, start_frs as int);
        proof {
            lemma_set_from_len(self@, start_frs as int);
        }
        if start_frs >= n as u64 {
            return result;
        }
        let mut frs: usize = start_frs as usize;
        assert(all.skip(0) =~= all);
        assert(all.take(0) =~= result@);
        while frs < n && result.len() < count
            invariant
                start_frs <= frs <= n,
                n == self@.len(),
                result@.len() <= all.len(),
                result@ == all.take(result@.len() as int),
                all.skip(result@.len() as int) == set_from(self@, frs as int),
                result@.len() <= count,
            decreases n - frs,
        {
            if self.bit(frs) {
                let ghost m = result@.len() as int;
                proof {
                    assert(all.skip(m).len() > 0);
                    assert(all.skip(m)[0] == frs);
                    assert(all[m] == frs);
                    assert(all.skip(m + 1) =~= all.skip(m).drop_first());
                    assert((seq![frs as u64] + set_from(self@, frs + 1)).drop_first() =~= set_from(
                        self@,
                        frs + 1,
                    ));
                }
                result.push(frs as u64);
                assert(result@ =~= all.take(m + 1));
            }
            frs += 1;
        }
        assert(result@ =~= if count < all.len() {
            all.take(count as int)
        } else {
            all
        }) by {
            if frs == n {
                assert(all.skip(result@.len() as int).len() == 0);
            }
        }
        result
    }

    /// How many records at the beginning and at the end of a range need not be
    /// read because they are not in use. The range ends with the bitmap; if
    /// nothing in it is in use, all of it counts as beginning.
    pub fn calculate_skip_range(&self, start_frs: u64, end_frs: u64) -> (r: (u64, u64))
        ensures
            ({
                let end = if end_frs < self@.len() {
                    end_frs as int
                } else {
                    self@.len() as int
                };
                if start_frs >= end {
                    r == (0u64, 0u64)
                } else if !any_set(self@, start_frs as int, end) {
                    r.0 == end - start_frs && r.1 == 0
                } else {
                    &&& start_frs + r.0 < end - r.1
                    &&& self@[start_frs + r.0]
                    &&& self@[end - r.1 - 1]
                    &&& !any_set(self@, start_frs as int, start_frs + r.0)
                    &&& !any_set(self@, end - r.1, end)
                }
            }),
            forall|j: int|
                start_frs <= j < end_frs && j < self@.len() && #[trigger] self@[j] ==> start_frs
                    + r.0 <= j && (end_frs <= self@.len() ==> j < end_frs - r.1) && (end_frs
                    > self@.len() ==> j < self@.len() - r.1),
            r.1 > 0 ==> exists|j: int|
                start_frs <= j < end_frs && j < self@.len() && #[trigger] self@[j],
    {
        let end: usize = if end_frs < self.record_count as u64 {
            end_frs as usize
        } else {
            self.record_count
        };
        if start_frs >= end as u64 {
            return (0, 0);
        }
        let start: usize = start_frs as usize;
        let mut first: usize = start;
        while first < end && !self.bit(first)
            invariant
                start <= first <= end,
                end <= self@.len(),
                !any_set(self@, start as int, first as int),
            decreases end - first,
        {
            first += 1;
        }
        if first == end {
            return ((end - start) as u64, 0);
        }
        assert(any_set(self@, start as int, end as int));
        let mut last: usize = end;
        while !self.bit(last - 1)
            invariant
                first < last <= end,
                end <= self@.len(),
                self@[first as int],
                !any_set(self@, last as int, end as int),
            decreases last,
        {
            last -= 1;
        }
        ((first - start) as u64, (end - last) as u64)
    }

    /// Whether any of some consecutive records is in use.
    pub fn cluster_has_in_use(&self, start_frs: u64, records_per_cluster: u32) -> (r: bool)
        ensures
            r == any_set(self@, start_frs as int, start_frs + records_per_cluster),
    {
        let stop: u128 = start_frs as u128 + records_per_cluster as u128;
        let end: usize = if stop < self.record_count as u128 {
            stop as usize
        } else {
            self.record_count
        };
        if start_frs >= end as u64 {
            return false;
        }
        let mut i: usize = start_frs as usize;
        while i < end
            invariant
                start_frs <= i <= end,
                end <= self@.len(),
                end <= start_frs + records_per_cluster,
                !any_set(self@, start_frs as int, i as int),
            decreases end - i,
        {
            if self.bit(i) {
                assert(self@[i as int]);
                return true;
            }
            i += 1;
        }
        false
    }

    /// The ranges of clusters with records in use: where each begins and how
    /// many clusters it has. Between two ranges lies a cluster without any.
    pub fn in_use_cluster_ranges(&self, records_per_cluster: u32) -> (r: Vec<(u64, u64)>)
        requires
            records_per_cluster > 0,
        ensures
            forall|k: int|
                0 <= k < r@.len() ==> (#[trigger] r@[k]).1 > 0 && r@[k].0 + r@[k].1
                    <= cluster_count(self@, records_per_cluster),
            forall|k: int|
                0 < k < r@.len() ==> r@[k - 1].0 + r@[k - 1].1 < (#[trigger] r@[k]).0,
            forall|c: int|
                0 <= c < cluster_count(self@, records_per_cluster) ==> (#[trigger] cluster_in_use(
                    self@,
                    records_per_cluster,
                    c,
                ) <==> exists|k: int| 0 <= k < r@.len() && #[trigger] in_range(r@[k], c)),
    {
        let n: u64 = self.record_count as u64;
        let rpc: u64 = records_per_cluster as u64;
        proof {
            lemma_cluster_count(n as int, rpc as int);
        }
        let total: u64 = n / rpc + if n % rpc == 0 {
            0
        } else {
            1
        };
        let mut out: Vec<(u64, u64)> = Vec::new();
        let mut c: u64 = 0;
        while c < total
            invariant
                rpc == records_per_cluster,
                rpc > 0,
                n == self@.len(),
                total == cluster_count(self@, records_per_cluster),
                total == (n + rpc - 1) / (rpc as int),
                c <= total,
                forall|k: int|
                    0 <= k < out@.len() ==> (#[trigger] out@[k]).1 > 0 && out@[k].0 + out@[k].1
                        <= c,
                forall|k: int|
                    0 <= k < out@.len() && c < total ==> (#[trigger] out@[k]).0 + out@[k].1 < c
                        || out@[k].0 + out@[k].1 == c && !cluster_in_use(
                        self@,
                        records_per_cluster,
                        c as int,
                    ),
                forall|k: int|
                    0 < k < out@.len() ==> out@[k - 1].0 + out@[k - 1].1 < (#[trigger] out@[k]).0,
                forall|d: int|
                    0 <= d < c ==> (#[trigger] cluster_in_use(self@, records_per_cluster, d) <==> (
                    exists|k: int| 0 <= k < out@.len() && #[trigger] in_range(out@[k], d))),
            decreases total - c,
        {
            let start: u64 = c;
            let mut e: u64 = c;
            while e < total && self.cluster_is_used(e, rpc, records_per_cluster)
                invariant
                    rpc == records_per_cluster,
                    rpc > 0,
                    n == self@.len(),
                    total == (n + rpc - 1) / (rpc as int),
                    start <= e <= total,
                    forall|d: int|
                        start <= d < e ==> #[trigger] cluster_in_use(
                            self@,
                            records_per_cluster,
                            d,
                        ),
                decreases total - e,
            {
                e += 1;
            }
            let ghost before = out@;
            if e > start {
                out.push((start, e - start));
                proof {
                    assert(out@[before.len() as int] == (start, (e - start) as u64));
                    assert forall|d: int| 0 <= d < e implies (#[trigger] cluster_in_use(
                        self@,
                        records_per_cluster,
                        d,
                    ) <==> (exists|k: int| 0 <= k < out@.len() && #[trigger] in_range(
                        out@[k],
                        d,
                    ))) by {
                        if d >= start {
                            assert(in_range(out@[before.len() as int], d));
                        } else {
                            if exists|k: int|
                                0 <= k < before.len() && #[trigger] in_range(before[k], d) {
                                let k = choose|k: int|
                                    0 <= k < before.len() && #[trigger] in_range(before[k], d);
                                assert(in_range(out@[k], d));
                            }
                            if exists|k: int|
                                0 <= k < out@.len() && #[trigger] in_range(out@[k], d) {
                                let k = choose|k: int|
                                    0 <= k < out@.len() && #[trigger] in_range(out@[k], d);
                                assert(k < before.len());
                                assert(in_range(before[k], d));
                            }
                        }
                    }
                }
                c = e;
            } else {
                proof {
                    assert forall|d: int| 0 <= d < c + 1 implies (#[trigger] cluster_in_use(
                        self@,
                        records_per_cluster,
                        d,
                    ) <==> (exists|k: int| 0 <= k < out@.len() && #[trigger] in_range(
                        out@[k],
                        d,
                    ))) by {
                        if d == c {
                            assert(!cluster_in_use(self@, records_per_cluster, d));
                            if exists|k: int|
                                0 <= k < out@.len() && #[trigger] in_range(out@[k], d) {
                                let k = choose|k: int|
                                    0 <= k < out@.len() && #[trigger] in_range(out@[k], d);
                                assert(out@[k].0 + out@[k].1 <= c);
                            }
                        }
                    }
                }
                c += 1;
            }
        }
        out
    }

    fn cluster_is_used(&self, c: u64, rpc: u64, records_per_cluster: u32) -> (r: bool)
        requires
            rpc == records_per_cluster,
            rpc > 0,
            c < (self@.len() + rpc - 1) / (rpc as int),
        ensures
            r == cluster_in_use(self@, records_per_cluster, c as int),
    {
        let ghost n = self@.len() as int;
        proof {
            assert(0 <= c * rpc < n) by (nonlinear_arith)
                requires
                    rpc > 0,
                    c < (n + rpc - 1) / (rpc as int),
                    n >= 0,
                    c >= 0,
            ;
            assert(c * rpc + rpc == (c + 1) * rpc) by (nonlinear_arith);
        }
        assert(n <= usize::MAX) by {
            let m = self.record_count;
            assert(n == m);
        }
        self.cluster_has_in_use(c * rpc, records_per_cluster)
    }
}

proof fn lemma_cluster_count(n: int, rpc: int)
    by (nonlinear_arith)
    requires
        n >= 0,
        rpc > 0,
    ensures
        n / rpc + (if n % rpc == 0 {
            0int
        } else {
            1int
        }) == (n + rpc - 1) / rpc,
        n / rpc <= n,
        n % rpc != 0 ==> n / rpc < n,
{
    let q = n / rpc;
    let m = n % rpc;
    assert(n == q * rpc + m);
    if m == 0 {
        assert((q * rpc + (rpc - 1)) / rpc == q);
    } else {
        assert(n + rpc - 1 == (q + 1) * rpc + (m - 1));
        assert(((q + 1) * rpc + (m - 1)) / rpc == q + 1);
    }
}

proof fn lemma_set_from_len(s: Seq<bool>, start: int)
    ensures
        start >= 0 ==> set_from(s, start).len() <= if start < s.len() {
            s.len() - start
        } else {
            0
        },
    decreases s.len() - start,
{
    if 0 <= start < s.len() {
        lemma_set_from_len(s, start + 1);
    }
}

/// The positions of set flags are exactly those: each flag that is set is
/// among them once, in ascending order.
pub proof fn law_set_from(s: Seq<bool>, start: int)
    requires
        0 <= start,
        s.len() <= u64::MAX,
    ensures
        forall|j: int|
            start <= j < s.len() ==> (#[trigger] s[j] <==> set_from(s, start).contains(j as u64)),
        forall|a: int|
            0 <= a < set_from(s, start).len() ==> start <= #[trigger] set_from(s, start)[a]
                < s.len(),
        forall|a: int, b: int|
            0 <= a < b < set_from(s, start).len() ==> set_from(s, start)[a] < set_from(
                s,
                start,
            )[b],
    decreases s.len() - start,
{
    if start < s.len() {
        law_set_from(s, start + 1);
        let rest = set_from(s, start + 1);
        let all = set_from(s, start);
        if s[start] {
            assert(all[0] == start);
            assert forall|j: int| start <= j < s.len() implies (#[trigger] s[j] <==> all.contains(
                j as u64,
            )) by {
                if j > start {
                    if rest.contains(j as u64) {
                        let k = choose|k: int| 0 <= k < rest.len() && rest[k] == j as u64;
                        assert(all[k + 1] == j as u64);
                    }
                    if all.contains(j as u64) {
                        let k = choose|k: int| 0 <= k < all.len() && all[k] == j as u64;
                        assert(rest[k - 1] == j as u64);
                    }
                }
            }
            assert forall|a: int| 0 <= a < all.len() implies start <= #[trigger] all[a]
                < s.len() by {
                if a > 0 {
                    assert(all[a] == rest[a - 1]);
                }
            }
            assert forall|a: int, b: int| 0 <= a < b < all.len() implies all[a] < all[b] by {
                assert(all[b] == rest[b - 1]);
                if a > 0 {
                    assert(all[a] == rest[a - 1]);
                }
            }
        } else {
            assert forall|j: int| start <= j < s.len() implies (#[trigger] s[j] <==> all.contains(
                j as u64,
            )) by {
                if j == start && all.contains(j as u64) {
                    let k = choose|k: int| 0 <= k < all.len() && all[k] == j as u64;
                    assert(rest[k] >= start + 1);
                }
            }
        }
    }
}

/// As many records are listed as are counted.
pub proof fn law_count_is_length_of_list(s: Seq<bool>)
    ensures
        count_set(s) == set_from(s, 0).len(),
    decreases s.len(),
{
    lemma_count_from(s, 0);
    assert(s.skip(0) =~= s);
}

proof fn lemma_count_from(s: Seq<bool>, start: int)
    requires
        0 <= start <= s.len(),
    ensures
        count_set(s.skip(start)) == set_from(s, start).len(),
    decreases s.len() - start,
{
    if start < s.len() {
        lemma_count_from(s, start + 1);
        lemma_count_first(s.skip(start));
        assert(s.skip(start).drop_first() =~= s.skip(start + 1));
    } else {
        assert(s.skip(start).len() == 0);
    }
}

proof fn lemma_count_first(s: Seq<bool>)
    requires
        s.len() > 0,
    ensures
        count_set(s) == count_set(s.drop_first()) + if s[0] {
            1nat
        } else {
            0nat
        },
    decreases s.len(),
{
    if s.len() == 1 {
        assert(s.drop_last() =~= Seq::empty());
        assert(s.drop_first() =~= Seq::empty());
    } else {
        lemma_count_first(s.drop_last());
        assert(s.drop_last().drop_first() =~= s.drop_first().drop_last());
        assert(s.drop_first().last() == s.last());
    }
}

/// A byte holds eight flags, the lowest bit first: the flags are the digits of
/// its binary numeral.
pub proof fn law_flags_are_binary_digits(b: u8)
    ensures
        bit_of(b, 0) == (b % 2 == 1),
        bit_of(b, 1) == (b / 2 % 2 == 1),
        bit_of(b, 2) == (b / 4 % 2 == 1),
        bit_of(b, 3) == (b / 8 % 2 == 1),
        bit_of(b, 4) == (b / 16 % 2 == 1),
        bit_of(b, 5) == (b / 32 % 2 == 1),
        bit_of(b, 6) == (b / 64 % 2 == 1),
        bit_of(b, 7) == (b / 128 == 1),
{
    assert((b & (1u8 << 0u8) != 0) == (b % 2 == 1) && (b & (1u8 << 1u8) != 0) == (b / 2 % 2 == 1)
        && (b & (1u8 << 2u8) != 0) == (b / 4 % 2 == 1) && (b & (1u8 << 3u8) != 0) == (b / 8 % 2
        == 1) && (b & (1u8 << 4u8) != 0) == (b / 16 % 2 == 1) && (b & (1u8 << 5u8) != 0) == (b / 32
        % 2 == 1) && (b & (1u8 << 6u8) != 0) == (b / 64 % 2 == 1) && (b & (1u8 << 7u8) != 0) == (b
        / 128 == 1)) by (bit_vector);
}

/// The flags of a byte stand behind those of the bytes in front of it, and
/// beyond the last byte no flag is set.
pub proof fn law_flags_follow_the_bytes(data: Seq<u8>, n: nat, byte: int, k: int)
    requires
        0 <= byte,
        0 <= k < 8,
        8 * byte + k < n,
    ensures
        bits_of(data, n).len() == n,
        byte < data.len() ==> bits_of(data, n)[8 * byte + k] == bit_of(data[byte], k),
        byte >= data.len() ==> !bits_of(data, n)[8 * byte + k],
{
}

/// There are as many clusters as it takes to hold all records, and no more; a
/// record belongs to the cluster that its number falls into.
pub proof fn law_clusters_hold_all_records(s: Seq<bool>, records_per_cluster: u32, i: int)
    requires
        records_per_cluster > 0,
        0 <= i < s.len(),
        s[i],
    ensures
        s.len() <= cluster_count(s, records_per_cluster) * records_per_cluster < s.len()
            + records_per_cluster,
        0 <= i / (records_per_cluster as int) < cluster_count(s, records_per_cluster),
        cluster_in_use(s, records_per_cluster, i / (records_per_cluster as int)),
{
    let n = s.len() as int;
    let r = records_per_cluster as int;
    let c = cluster_count(s, records_per_cluster);
    assert(n <= c * r < n + r) by (nonlinear_arith)
        requires
            r > 0,
            c == (n + r - 1) / r,
    ;
    let at = i / r;
    assert(at * r <= i < (at + 1) * r && 0 <= at) by (nonlinear_arith)
        requires
            r > 0,
            0 <= i,
            at == i / r,
    ;
    assert(at < c) by (nonlinear_arith)
        requires
            r > 0,
            at * r <= i,
            i < n,
            n <= c * r,
    ;
    assert(s[i]);
}

/// A cluster is in use only if one of its records is.
pub proof fn law_clusters_in_use_hold_a_record(s: Seq<bool>, records_per_cluster: u32, c: int)
    requires
        records_per_cluster > 0,
        0 <= c,
        cluster_in_use(s, records_per_cluster, c),
    ensures
        exists|i: int|
            0 <= i < s.len() && #[trigger] s[i] && i / (records_per_cluster as int) == c,
{
    let r = records_per_cluster as int;
    let j = choose|j: int| c * r <= j < (c + 1) * r && 0 <= j < s.len() && #[trigger] s[j];
    assert(j / r == c) by (nonlinear_arith)
        requires
            r > 0,
            c * r <= j < (c + 1) * r,
    ;
    assert(s[j]);
}

/// A record more is one more to count, if it is in use.
pub proof fn law_records_in_use_are_counted(a: Seq<bool>, b: Seq<bool>)
    ensures
        count_set(a + b) == count_set(a) + count_set(b),
        count_set(seq![true]) == 1,
        count_set(seq![false]) == 0,
    decreases b.len(),
{
    reveal_with_fuel(count_set, 2);
    assert(seq![true].drop_last() =~= Seq::empty());
    assert(seq![false].drop_last() =~= Seq::empty());
    if b.len() == 0 {
        assert(a + b =~= a);
    } else {
        assert((a + b).drop_last() =~= a + b.drop_last());
        law_records_in_use_are_counted(a, b.drop_last());
    }
}

/// A range begins with its first cluster and holds as many clusters as it says.
pub proof fn law_ranges_hold_their_clusters(start: u64, count: u64)
    ensures
        forall|k: int| 0 <= k < count ==> in_range((start, count), #[trigger] (start + k)),
        !in_range((start, count), start - 1),
        !in_range((start, count), start + count),
{
}

} // verus!
