//! Where the table lies on its volume.

use super::lcn::Lcn;
use super::win32::win32_code;
use crate::bytes::{read_i64, read_u32, read_u64};
use crate::error::{MftError, RetrievalFault};
use crate::ntfs::DataRun;
use vstd::prelude::*;

verus! {

/// A run of neighbouring clusters of a file.
#[derive(Debug, Clone, Copy, PartialEq, Eq, Structural)]
pub struct MftExtent {
    /// First cluster within the file.
    pub vcn: u64,
    /// Number of clusters.
    pub cluster_count: u64,
    /// First cluster on the volume. A hole where nothing is allocated.
    pub lcn: Lcn,
}

impl MftExtent {
    /// Where the extent begins on the volume, in bytes. Zero for a hole.
    pub open spec fn offset(self, bytes_per_cluster: u32) -> int {
        if self.lcn.0 < 0 {
            0
        } else {
            self.lcn.0 * bytes_per_cluster
        }
    }

    /// How many bytes the extent covers.
    pub open spec fn size(self, bytes_per_cluster: u32) -> int {
        self.cluster_count * bytes_per_cluster
    }

    /// Where the extent begins on the volume, in bytes. Zero for a hole.
    pub fn byte_offset(&self, bytes_per_cluster: u32) -> (r: u64)
        requires
            self.offset(bytes_per_cluster) <= u64::MAX,
        ensures
            r == self.offset(bytes_per_cluster),
    {
        if self.lcn.is_hole() {
            0
        } else {
            let lcn: u64 = self.lcn.raw_unsigned();
            assert(0 <= lcn * bytes_per_cluster) by (nonlinear_arith);
            lcn * bytes_per_cluster as u64
        }
    }

    /// How many bytes the extent covers.
    pub fn byte_size(&self, bytes_per_cluster: u32) -> (r: u64)
        requires
            self.size(bytes_per_cluster) <= u64::MAX,
        ensures
            r == self.size(bytes_per_cluster),
    {
        assert(0 <= self.cluster_count * bytes_per_cluster) by (nonlinear_arith);
        self.cluster_count * bytes_per_cluster as u64
    }
}

/// The extents of data runs, in order. Sparse runs have none.
pub open spec fn extents_of_runs(runs: Seq<DataRun>) -> Seq<MftExtent>
    decreases runs.len(),
{
    if runs.len() == 0 {
        Seq::empty()
    } else {
        let run = runs.last();
        let before = extents_of_runs(runs.drop_last());
        if run.sparse() {
            before
        } else {
            before.push(
                MftExtent {
                    vcn: crate::bytes::unsigned64(run.vcn),
                    cluster_count: run.cluster_count,
                    lcn: run.lcn,
                },
            )
        }
    }
}

/// Turns data runs into extents and leaves the sparse ones out.
pub fn data_runs_to_extents(runs: &[DataRun]) -> (r: Vec<MftExtent>)
    ensures
        r@ == extents_of_runs(runs@),
{
    let mut out: Vec<MftExtent> = Vec::new();
    assert(runs@.take(0) =~= Seq::empty());
    for i in 0..runs.len()
        invariant
            out@ == extents_of_runs(runs@.take(i as int)),
    {
        let run = runs[i];
        assert(runs@.take(i + 1).drop_last() =~= runs@.take(i as int));
        if !run.is_sparse() {
            out.push(
                MftExtent {
                    vcn: crate::bytes::to_unsigned64(run.vcn),
                    cluster_count: run.cluster_count,
                    lcn: run.lcn,
                },
            );
        }
    }
    assert(runs@.take(runs@.len() as int) =~= runs@);
    out
}

/// No extent made of data runs is one of the sparse runs, so a seek never
/// lands on one.
pub proof fn law_runs_give_no_sparse_extent(runs: Seq<DataRun>)
    ensures
        forall|i: int| 0 <= i < extents_of_runs(runs).len() ==> (#[trigger] extents_of_runs(runs)[i]).lcn.0 != 0,
        extents_of_runs(runs).len() <= runs.len(),
    decreases runs.len(),
{
    if runs.len() > 0 {
        law_runs_give_no_sparse_extent(runs.drop_last());
    }
}

/// How many extents a retrieval-pointer buffer holds: as many as its header
/// counts, but none that reaches beyond the bytes that were returned or
/// beyond the buffer.
pub open spec fn pointer_count(buffer: Seq<u8>, size: int) -> nat {
    if size < 12 || buffer.len() < 16 {
        0
    } else {
        let end = if size < buffer.len() {
            size
        } else {
            buffer.len() as int
        };
        let room = if end < 16 {
            0
        } else {
            (end - 16) / 16
        };
        let count = crate::bytes::u32_at(buffer, 0) as int;
        if count < room {
            count as nat
        } else {
            room as nat
        }
    }
}

/// Where extent `i` of a retrieval-pointer buffer begins within its file.
pub open spec fn pointer_vcn(buffer: Seq<u8>, i: int) -> u64 {
    if i == 0 {
        crate::bytes::u64_at(buffer, 8)
    } else {
        crate::bytes::u64_at(buffer, 16 * i)
    }
}

/// Extent `i` of a retrieval-pointer buffer. Each entry gives the cluster
/// behind the extent's end within the file, and its place on the volume.
pub open spec fn pointer_extent(buffer: Seq<u8>, i: int) -> MftExtent {
    let from = pointer_vcn(buffer, i);
    let to = pointer_vcn(buffer, i + 1);
    MftExtent {
        vcn: from,
        cluster_count: if to >= from {
            (to - from) as u64
        } else {
            0
        },
        lcn: Lcn(crate::bytes::i64_at(buffer, 16 * i + 24)),
    }
}

/// The extents of a retrieval-pointer buffer of which `size` bytes were
/// returned.
pub open spec fn pointer_extents(buffer: Seq<u8>, size: int) -> Seq<MftExtent> {
    Seq::new(pointer_count(buffer, size), |i: int| pointer_extent(buffer, i))
}

/// Appends the extents of a retrieval-pointer buffer of which `size` bytes
/// were returned.
pub fn parse_retrieval_pointers(buffer: &[u8], size: usize, extents: &mut Vec<MftExtent>)
    ensures
        final(extents)@ == old(extents)@ + pointer_extents(buffer@, size as int),
{
    let total: usize = buffer.len();
    if size < 12 || total < 16 {
        assert(extents@ =~= old(extents)@ + pointer_extents(buffer@, size as int));
        return;
    }
    let count: u32 = read_u32(buffer, 0);
    let end: usize = if size < total {
        size
    } else {
        total
    };
    let room: usize = if end < 16 {
        0
    } else {
        (end - 16) / 16
    };
    let n: usize = if (count as u64) < room as u64 {
        count as usize
    } else {
        room
    };
    let mut from: u64 = read_u64(buffer, 8);
    assert(extents@ =~= old(extents)@ + pointer_extents(buffer@, size as int).take(0));
    for i in 0..n
        invariant
            n == pointer_count(buffer@, size as int),
            total == buffer@.len(),
            16 + 16 * n <= total || n == 0,
            from == pointer_vcn(buffer@, i as int),
            extents@ == old(extents)@ + pointer_extents(buffer@, size as int).take(i as int),
    {
        let off: usize = 16 + 16 * i;
        let next: u64 = read_u64(buffer, off);
        let lcn: i64 = read_i64(buffer, off + 8);
        let extent = MftExtent {
            vcn: from,
            cluster_count: next.saturating_sub(from),
            lcn: Lcn::new(lcn),
        };
        extents.push(extent);
        from = next;
        assert(extent == pointer_extents(buffer@, size as int)[i as int]);
        assert(pointer_extents(buffer@, size as int).take(i + 1) =~= pointer_extents(
            buffer@,
            size as int,
        ).take(i as int).push(extent));
        assert(extents@ =~= old(extents)@ + pointer_extents(buffer@, size as int).take(i + 1));
    }
    assert(pointer_extents(buffer@, size as int).take(n as int) =~= pointer_extents(
        buffer@,
        size as int,
    ));
}

/// Every extent begins where the one before it ended, if the entries of the
/// buffer do not run backwards.
pub proof fn law_extents_follow_each_other(buffer: Seq<u8>, size: int, i: int)
    requires
        0 <= i,
        i + 1 < pointer_count(buffer, size),
        pointer_vcn(buffer, i) <= pointer_vcn(buffer, i + 1),
    ensures
        pointer_extents(buffer, size)[i + 1].vcn == pointer_extents(buffer, size)[i].vcn
            + pointer_extents(buffer, size)[i].cluster_count,
{
}

/// The system code for a buffer that was too small.
pub const ERROR_MORE_DATA: u32 = 234;

/// The system code for a file that has no more extents.
pub const ERROR_HANDLE_EOF: u32 = 38;

/// The size of the first buffer for retrieval pointers.
pub const FIRST_POINTER_BUFFER: u64 = 65536;

/// Asks for the extents of a file: a query for its retrieval pointers that is
/// repeated with larger buffers until the answer fits.
#[derive(Debug)]
pub struct RetrievalQuery {
    /// The buffer of the next query.
    pub buffer_size: u64,
    /// The extents so far.
    pub extents: Vec<MftExtent>,
}

/// What follows from a failed query.
#[derive(Debug, Clone, Copy, PartialEq, Eq, Structural)]
pub enum QueryStep {
    /// Ask again with the larger buffer.
    Again,
    /// The extents are complete.
    Complete,
}

/// What a failed query leads to.
pub open spec fn after_failure(hresult: u32, any: bool) -> Result<QueryStep, MftError> {
    let code = crate::platform::win32::system_code(hresult);
    if code == ERROR_MORE_DATA {
        Ok(QueryStep::Again)
    } else if code == ERROR_HANDLE_EOF || any {
        Ok(QueryStep::Complete)
    } else {
        Err(MftError::RetrievalPointers(RetrievalFault::Query { hresult, code }))
    }
}

impl RetrievalQuery {
    /// Begins with the smallest buffer.
    pub fn new() -> (r: RetrievalQuery)
        ensures
            r.buffer_size == FIRST_POINTER_BUFFER,
            r.buffer_size == 64 * 1024,
            r.extents@.len() == 0,
    {
        RetrievalQuery { buffer_size: FIRST_POINTER_BUFFER, extents: Vec::new() }
    }

    /// The buffer size to ask with. Fails where the system cannot take it.
    pub fn request(&self) -> (r: Result<u32, MftError>)
        ensures
            r == if self.buffer_size <= u32::MAX {
                Ok::<u32, MftError>(self.buffer_size as u32)
            } else {
                Err(MftError::RetrievalPointers(RetrievalFault::BufferTooLarge(self.buffer_size)))
            },
            r matches Ok(n) ==> n == self.buffer_size,
            r is Err <==> self.buffer_size >= 0x1_0000_0000,
    {
        if self.buffer_size <= u32::MAX as u64 {
            Ok(self.buffer_size as u32)
        } else {
            Err(MftError::RetrievalPointers(RetrievalFault::BufferTooLarge(self.buffer_size)))
        }
    }

    /// Takes the answer to a query: the extents are complete.
    pub fn answered(&mut self, buffer: &[u8], returned: usize)
        ensures
            final(self).extents@ == old(self).extents@ + pointer_extents(buffer@, returned as int),
            final(self).buffer_size == old(self).buffer_size,
    {
        parse_retrieval_pointers(buffer, returned, &mut self.extents);
    }

    /// Takes the result code of a failed query.
    pub fn failed(&mut self, hresult: u32) -> (r: Result<QueryStep, MftError>)
        requires
            old(self).buffer_size <= u32::MAX,
        ensures
            r == after_failure(hresult, old(self).extents@.len() > 0),
            final(self).extents@ == old(self).extents@,
            final(self).buffer_size == if r == Ok::<QueryStep, MftError>(QueryStep::Again) {
                2 * old(self).buffer_size
            } else {
                old(self).buffer_size as int
            },
            hresult == 0x8007_00EA ==> final(self).buffer_size - old(self).buffer_size
                == old(self).buffer_size,
            !(r matches Ok(QueryStep::Again)) ==> final(self).buffer_size == old(self).buffer_size,
    {
        let code: u32 = win32_code(hresult);
        if code == ERROR_MORE_DATA {
            self.buffer_size = self.buffer_size * 2;
            Ok(QueryStep::Again)
        } else if code == ERROR_HANDLE_EOF || self.extents.len() > 0 {
            Ok(QueryStep::Complete)
        } else {
            Err(MftError::RetrievalPointers(RetrievalFault::Query { hresult, code }))
        }
    }
}

/// The bytes in which the system returns some extents of a file: how many there
/// are, where in the file the first one begins, and for each where in the file
/// the next one begins and where it lies on the volume.
pub open spec fn pointer_bytes(start: u64, extents: Seq<(u64, i64)>, filler: u32) -> Seq<u8> {
    crate::bytes::le32(extents.len() as u32) + crate::bytes::le32(filler) + crate::bytes::le64(
        start,
    ) + pair_bytes(extents)
}

/// The bytes of pairs: where the next extent begins, and where this one lies.
pub open spec fn pair_bytes(pairs: Seq<(u64, i64)>) -> Seq<u8>
    decreases pairs.len(),
{
    if pairs.len() == 0 {
        Seq::empty()
    } else {
        pair_bytes(pairs.drop_last()) + crate::bytes::le64(pairs.last().0) + crate::bytes::le64(
            crate::bytes::unsigned64(pairs.last().1),
        )
    }
}

proof fn lemma_pair_bytes(pairs: Seq<(u64, i64)>)
    ensures
        pair_bytes(pairs).len() == 16 * pairs.len(),
        forall|i: int|
            0 <= i < pairs.len() ==> #[trigger] crate::bytes::u64_at(pair_bytes(pairs), 16 * i)
                == pairs[i].0,
        forall|i: int|
            0 <= i < pairs.len() ==> #[trigger] crate::bytes::i64_at(pair_bytes(pairs), 16 * i + 8)
                == pairs[i].1,
    decreases pairs.len(),
{
    broadcast use crate::bytes::group_le_len;

    if pairs.len() > 0 {
        let front = pairs.drop_last();
        let all = pair_bytes(pairs);
        let before = pair_bytes(front);
        let (next, lcn) = pairs.last();
        lemma_pair_bytes(front);
        let n = 16 * front.len() as int;
        assert(all.subrange(n, n + 8) =~= crate::bytes::le64(next));
        assert(all.subrange(n + 8, n + 16) =~= crate::bytes::le64(crate::bytes::unsigned64(lcn)));
        crate::bytes::lemma_le64_reads_back(all, n, next);
        crate::bytes::lemma_le64_reads_back(all, n + 8, crate::bytes::unsigned64(lcn));
        assert forall|i: int| 0 <= i < pairs.len() implies #[trigger] crate::bytes::u64_at(
            all,
            16 * i,
        ) == pairs[i].0 by {
            if i < front.len() {
                assert(crate::bytes::u64_at(before, 16 * i) == front[i].0);
                assert(forall|d: int| 0 <= d < 8 ==> all[16 * i + d] == #[trigger] before[16 * i + d]);
            }
        }
        assert forall|i: int| 0 <= i < pairs.len() implies #[trigger] crate::bytes::i64_at(
            all,
            16 * i + 8,
        ) == pairs[i].1 by {
            if i < front.len() {
                assert(crate::bytes::i64_at(before, 16 * i + 8) == front[i].1);
                assert(forall|d: int|
                    8 <= d < 16 ==> all[16 * i + d] == #[trigger] before[16 * i + d]);
            }
        }
    }
}

proof fn lemma_behind(a: Seq<u8>, b: Seq<u8>, off: int)
    requires
        0 <= off,
        off + 8 <= b.len(),
    ensures
        crate::bytes::u64_at(a + b, a.len() + off) == crate::bytes::u64_at(b, off),
{
    let s = a + b;
    let n = a.len();
    assert(s[n + off] == b[off]);
    assert(s[n + off + 1] == b[off + 1]);
    assert(s[n + off + 2] == b[off + 2]);
    assert(s[n + off + 3] == b[off + 3]);
    assert(s[n + off + 4] == b[off + 4]);
    assert(s[n + off + 5] == b[off + 5]);
    assert(s[n + off + 6] == b[off + 6]);
    assert(s[n + off + 7] == b[off + 7]);
}

proof fn lemma_pointer_bytes(start: u64, pairs: Seq<(u64, i64)>, filler: u32)
    requires
        pairs.len() <= u32::MAX,
    ensures
        pointer_bytes(start, pairs, filler).len() == 16 + 16 * pairs.len(),
        crate::bytes::u32_at(pointer_bytes(start, pairs, filler), 0) == pairs.len(),
        crate::bytes::u64_at(pointer_bytes(start, pairs, filler), 8) == start,
        forall|i: int|
            0 <= i < pairs.len() ==> #[trigger] crate::bytes::u64_at(
                pointer_bytes(start, pairs, filler),
                16 * (i + 1),
            ) == pairs[i].0,
        forall|i: int|
            0 <= i < pairs.len() ==> #[trigger] crate::bytes::i64_at(
                pointer_bytes(start, pairs, filler),
                16 * i + 24,
            ) == pairs[i].1,
{
    let bytes = pointer_bytes(start, pairs, filler);
    let tail = pair_bytes(pairs);
    let front = crate::bytes::le32(pairs.len() as u32) + crate::bytes::le32(filler)
        + crate::bytes::le64(start);
    lemma_pair_bytes(pairs);
    crate::bytes::lemma_le32_len(pairs.len() as u32);
    crate::bytes::lemma_le32_len(filler);
    crate::bytes::lemma_le64_len(start);
    assert(bytes == front + tail);
    assert(bytes.subrange(0, 4) =~= crate::bytes::le32(pairs.len() as u32));
    assert(bytes.subrange(8, 16) =~= crate::bytes::le64(start));
    crate::bytes::lemma_le32_reads_back(bytes, 0, pairs.len() as u32);
    crate::bytes::lemma_le64_reads_back(bytes, 8, start);
    assert forall|i: int| 0 <= i < pairs.len() implies #[trigger] crate::bytes::u64_at(
        bytes,
        16 * (i + 1),
    ) == pairs[i].0 by {
        lemma_behind(front, tail, 16 * i);
        assert(crate::bytes::u64_at(tail, 16 * i) == pairs[i].0);
    }
    assert forall|i: int| 0 <= i < pairs.len() implies #[trigger] crate::bytes::i64_at(
        bytes,
        16 * i + 24,
    ) == pairs[i].1 by {
        lemma_behind(front, tail, 16 * i + 8);
        assert(crate::bytes::i64_at(tail, 16 * i + 8) == pairs[i].1);
    }
}

/// The extents that the system returns are all read back: each with the place in
/// the file where the one before it ends, the number of clusters up to where it
/// ends itself, and its place on the volume.
pub proof fn law_retrieval_pointers_read_back(
    start: u64,
    pairs: Seq<(u64, i64)>,
    filler: u32,
    i: int,
)
    requires
        pairs.len() <= u32::MAX,
        0 <= i < pairs.len(),
        forall|j: int| 0 <= j < pairs.len() ==> start <= (#[trigger] pairs[j]).0,
        forall|j: int, k: int| 0 <= j < k < pairs.len() ==> pairs[j].0 <= pairs[k].0,
    ensures
        ({
            let bytes = pointer_bytes(start, pairs, filler);
            let extents = pointer_extents(bytes, bytes.len() as int);
            let from = if i == 0 {
                start
            } else {
                pairs[i - 1].0
            };
            &&& extents.len() == pairs.len()
            &&& extents[i].vcn == from
            &&& extents[i].cluster_count == pairs[i].0 - from
            &&& extents[i].lcn.0 == pairs[i].1
        }),
{
    let bytes = pointer_bytes(start, pairs, filler);
    lemma_pointer_bytes(start, pairs, filler);
    assert(crate::bytes::u64_at(bytes, 16 * (i + 1)) == pairs[i].0);
    assert(crate::bytes::i64_at(bytes, 16 * i + 24) == pairs[i].1);
    if i > 0 {
        assert(crate::bytes::u64_at(bytes, 16 * ((i - 1) + 1)) == pairs[i - 1].0);
        assert(pairs[i - 1].0 <= pairs[i].0);
    }
    assert(start <= pairs[i].0);
}

/// What was not returned is not read, whatever the count says.
pub proof fn law_extents_fit_what_was_returned(buffer: Seq<u8>, size: int)
    requires
        16 <= size,
    ensures
        16 + 16 * pointer_count(buffer, size) <= size,
        buffer.len() >= 16 ==> 16 + 16 * pointer_count(buffer, size) <= buffer.len(),
        pointer_count(buffer, size) <= crate::bytes::u32_at(buffer, 0),
{
}

/// Neighbouring extents lie next to each other in bytes too: behind the clusters
/// of the first the second begins.
pub proof fn law_neighbours_adjoin(a: MftExtent, b: MftExtent, bytes_per_cluster: u32)
    requires
        0 <= a.lcn.0,
        b.lcn.0 == a.lcn.0 + a.cluster_count,
    ensures
        b.offset(bytes_per_cluster) == a.offset(bytes_per_cluster) + a.size(bytes_per_cluster),
        a.cluster_count == 1 ==> a.size(bytes_per_cluster) == bytes_per_cluster,
        a.lcn.0 == 0 ==> a.offset(bytes_per_cluster) == 0,
{
    let x = a.lcn.0 as int;
    let n = a.cluster_count as int;
    let c = bytes_per_cluster as int;
    assert((x + n) * c == x * c + n * c) by (nonlinear_arith);
}

/// Runs become extents one by one, in their order, with nothing changed; those
/// without clusters on the volume are left out.
pub proof fn law_runs_become_extents(a: Seq<DataRun>, run: DataRun, b: Seq<DataRun>)
    ensures
        extents_of_runs(a + b) == extents_of_runs(a) + extents_of_runs(b),
        run.lcn.0 == 0 ==> extents_of_runs(a.push(run)) == extents_of_runs(a),
        run.lcn.0 != 0 ==> extents_of_runs(a.push(run)).drop_last() == extents_of_runs(a)
            && extents_of_runs(a.push(run)).last().lcn == run.lcn && extents_of_runs(
            a.push(run),
        ).last().cluster_count == run.cluster_count && (run.vcn >= 0 ==> extents_of_runs(
            a.push(run),
        ).last().vcn == run.vcn),
    decreases b.len(),
{
    assert(a.push(run).drop_last() =~= a);
    if run.lcn.0 != 0 {
        assert(extents_of_runs(a.push(run)).drop_last() =~= extents_of_runs(a));
    }
    if b.len() == 0 {
        assert(a + b =~= a);
        assert(extents_of_runs(a) + extents_of_runs(b) =~= extents_of_runs(a));
    } else {
        law_runs_become_extents(a, run, b.drop_last());
        assert((a + b).drop_last() =~= a + b.drop_last());
        assert((a + b).last() == b.last());
        assert(extents_of_runs(a + b) =~= extents_of_runs(a) + extents_of_runs(b));
    }
}

/// A query is asked again exactly where its buffer was too small, which the
/// system says with code 234; a file without more extents, code 38, is complete,
/// and so is one of which some extents are known already.
pub proof fn law_queries_end(code: u16, any: bool)
    ensures
        ({
            let after = after_failure((0x8007_0000 + code) as u32, any);
            &&& after == Ok::<QueryStep, MftError>(QueryStep::Again) <==> code == 234
            &&& after == Ok::<QueryStep, MftError>(QueryStep::Complete) <==> code != 234 && (code
                == 38 || any)
            &&& after is Err <==> code != 234 && code != 38 && !any
        }),
{
    crate::platform::win32::law_wrapped_codes_come_back(code, 0);
}

/// A query that fails for good says with which code it failed.
pub proof fn law_failed_queries_say_why(hresult: u32, any: bool)
    ensures
        after_failure(hresult, any) matches Err(e) ==> e == MftError::RetrievalPointers(
            RetrievalFault::Query { hresult, code: crate::platform::win32::system_code(hresult) },
        ),
{
}

} // verus!
