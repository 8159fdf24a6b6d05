//! Capturing the table of a live volume: reads that are aligned to sectors,
//! and the order in which they are issued and recorded.

use crate::error::{IoFault, MftError};
use crate::platform::system::DriveType;
use crate::raw_iocp::{IocpCaptureHeader, IocpCaptureOptions, IocpCaptureWriter};
use vstd::prelude::*;

verus! {

/// Size of a sector.
pub const SECTOR_SIZE: u64 = 512;

/// A run of records that is read at once.
#[derive(Debug, Clone, Copy, PartialEq, Eq, Structural)]
pub struct ReadChunk {
    /// Where the records lie on the volume, in bytes.
    pub disk_offset: u64,
    /// The first record.
    pub start_frs: u64,
    /// How many records there are.
    pub record_count: u64,
}

impl ReadChunk {
    /// The size of the records.
    pub open spec fn size(self, record_size: u32) -> int {
        self.record_count * record_size
    }

    /// The records and the sectors around them fit into memory.
    pub open spec fn fits(self, record_size: u32) -> bool {
        self.size(record_size) + 2 * SECTOR_SIZE <= usize::MAX
    }
}

/// A read of whole sectors that covers a chunk.
#[derive(Debug, Clone, Copy, PartialEq, Eq, Structural)]
pub struct AlignedRead {
    /// Where the read begins.
    pub offset: u64,
    /// How many bytes are read.
    pub size: usize,
    /// How many bytes are read in front of the chunk.
    pub adjustment: usize,
    /// The size of the chunk.
    pub payload: usize,
}

/// The read of whole sectors that covers a chunk.
pub open spec fn aligned(chunk: ReadChunk, record_size: u32) -> AlignedRead {
    let offset = chunk.disk_offset as int / 512 * 512;
    let adjustment = chunk.disk_offset - offset;
    AlignedRead {
        offset: offset as u64,
        size: ((chunk.size(record_size) + adjustment + 511) / 512 * 512) as usize,
        adjustment: adjustment as usize,
        payload: chunk.size(record_size) as usize,
    }
}

/// The read of whole sectors that covers a chunk.
pub fn aligned_read(chunk: &ReadChunk, record_size: u32) -> (r: AlignedRead)
    requires
        chunk.fits(record_size),
    ensures
        r == aligned(*chunk, record_size),
{
    let offset: u64 = chunk.disk_offset / SECTOR_SIZE * SECTOR_SIZE;
    let adjustment: usize = (chunk.disk_offset - offset) as usize;
    assert(0 <= chunk.record_count * record_size) by (nonlinear_arith)
        requires
            0 <= chunk.record_count,
            0 <= record_size,
    ;
    let payload: usize = (chunk.record_count * record_size as u64) as usize;
    let size: usize = (payload + adjustment + 511) / 512 * 512;
    AlignedRead { offset, size, adjustment, payload }
}

/// A read covers its chunk, begins and ends at sectors, and reads less than a
/// sector more at either end.
pub proof fn law_aligned_read_covers_chunk(chunk: ReadChunk, record_size: u32)
    requires
        chunk.fits(record_size),
    ensures
        ({
            let read = aligned(chunk, record_size);
            &&& read.offset % 512 == 0
            &&& read.size % 512 == 0
            &&& read.offset + read.adjustment == chunk.disk_offset
            &&& read.adjustment < 512
            &&& read.adjustment + read.payload <= read.size < read.adjustment + read.payload + 512
            &&& read.payload == chunk.size(record_size)
        }),
{
    assert(0 <= chunk.record_count * record_size) by (nonlinear_arith)
        requires
            0 <= chunk.record_count,
            0 <= record_size,
    ;
}

/// A buffer that is one sector larger than a chunk holds the read of the
/// chunk, if records fill whole sectors.
pub proof fn law_one_more_sector_is_enough(chunk: ReadChunk, record_size: u32)
    requires
        chunk.fits(record_size),
        record_size % 512 == 0,
    ensures
        aligned(chunk, record_size).size <= chunk.size(record_size) + SECTOR_SIZE,
{
    let count = chunk.record_count as int;
    let sectors = record_size as int / 512;
    assert(count * record_size == 512 * (count * sectors)) by (nonlinear_arith)
        requires
            record_size == 512 * sectors,
    ;
    law_aligned_read_covers_chunk(chunk, record_size);
}

/// The bytes of a chunk in the buffer of its read. `None` where the buffer is
/// too short.
pub open spec fn payload_of(buffer: Seq<u8>, chunk: ReadChunk, record_size: u32) -> Option<Seq<u8>> {
    let read = aligned(chunk, record_size);
    if read.adjustment + read.payload <= buffer.len() {
        Some(buffer.subrange(read.adjustment as int, read.adjustment + read.payload))
    } else {
        None
    }
}

/// Cuts the bytes of a chunk out of the buffer of its read.
pub fn chunk_payload(buffer: &[u8], chunk: &ReadChunk, record_size: u32) -> (r: Result<
    Vec<u8>,
    MftError,
>)
    requires
        chunk.fits(record_size),
    ensures
        match payload_of(buffer@, *chunk, record_size) {
            Some(bytes) => r matches Ok(v) && v@ == bytes,
            None => r == Err::<Vec<u8>, MftError>(MftError::Io(IoFault::UnexpectedEof)),
        },
{
    let read = aligned_read(chunk, record_size);
    proof {
        law_aligned_read_covers_chunk(*chunk, record_size);
    }
    let end: usize = read.adjustment + read.payload;
    if end > buffer.len() {
        return Err(MftError::Io(IoFault::UnexpectedEof));
    }
    Ok(crate::bytes::copy_range(buffer, read.adjustment, end))
}

/// How much a streaming capture reads at once, in bytes.
pub fn stream_chunk_size(drive_type: DriveType) -> (r: usize)
    ensures
        r == if drive_type is Nvme || drive_type is Ssd {
            8 * 1024 * 1024int
        } else {
            4 * 1024 * 1024int
        },
{
    match drive_type {
        DriveType::Nvme | DriveType::Ssd => 8_388_608,
        DriveType::Hdd | DriveType::Unknown => 4_194_304,
    }
}

/// The reading half of a streaming capture: the chunks are read one after the
/// other, and each is sent on before the next is read.
#[derive(Debug)]
pub struct StreamRun {
    /// The chunks.
    pub chunks: Vec<ReadChunk>,
    /// The size of a record.
    pub record_size: u32,
    /// The chunk that comes next.
    pub next: usize,
    /// The size of the buffer.
    pub buffer_size: usize,
    /// Nobody takes the chunks any more.
    pub stopped: bool,
}

impl StreamRun {
    /// Every chunk fits into memory.
    pub open spec fn wf(self) -> bool {
        &&& self.next <= self.chunks@.len()
        &&& forall|i: int|
            0 <= i < self.chunks@.len() ==> (#[trigger] self.chunks@[i]).fits(self.record_size)
    }

    /// Begins with the first chunk and a buffer for chunks of the planned
    /// size.
    pub fn new(chunks: Vec<ReadChunk>, record_size: u32, chunk_size: usize) -> (r: StreamRun)
        requires
            chunk_size + SECTOR_SIZE <= usize::MAX,
            forall|i: int| 0 <= i < chunks@.len() ==> (#[trigger] chunks@[i]).fits(record_size),
        ensures
            r.wf(),
            r.chunks@ == chunks@,
            r.record_size == record_size,
            r.next == 0,
            r.buffer_size == chunk_size + SECTOR_SIZE,
            !r.stopped,
    {
        StreamRun {
            chunks,
            record_size,
            next: 0,
            buffer_size: chunk_size + SECTOR_SIZE as usize,
            stopped: false,
        }
    }

    /// The next read, or `None` when all chunks were sent or nobody takes
    /// them any more. The buffer grows where the read needs it.
    pub fn next_read(&mut self) -> (r: Option<AlignedRead>)
        requires
            old(self).wf(),
        ensures
            final(self).wf(),
            final(self).chunks@ == old(self).chunks@,
            final(self).record_size == old(self).record_size,
            final(self).next == old(self).next,
            final(self).stopped == old(self).stopped,
            if old(self).stopped || old(self).next == old(self).chunks@.len() {
                r is None && final(self).buffer_size == old(self).buffer_size
            } else {
                let read = aligned(
                    old(self).chunks@[old(self).next as int],
                    old(self).record_size,
                );
                &&& r == Some(read)
                &&& final(self).buffer_size == if old(self).buffer_size < read.size {
                    read.size
                } else {
                    old(self).buffer_size
                }
            },
            r is None <==> old(self).stopped || old(self).next == old(self).chunks@.len(),
            final(self).buffer_size >= old(self).buffer_size,
            r matches Some(read) ==> read.size <= final(self).buffer_size,
            final(self).buffer_size != old(self).buffer_size ==> (r matches Some(read)
                && final(self).buffer_size == read.size),
    {
        if self.stopped || self.next == self.chunks.len() {
            return None;
        }
        let chunk = self.chunks[self.next];
        let read = aligned_read(&chunk, self.record_size);
        if self.buffer_size < read.size {
            self.buffer_size = read.size;
        }
        Some(read)
    }

    /// The bytes to send on, out of the buffer of the current read.
    pub fn payload(&self, buffer: &[u8]) -> (r: Result<Vec<u8>, MftError>)
        requires
            self.wf(),
            self.next < self.chunks@.len(),
        ensures
            match payload_of(buffer@, self.chunks@[self.next as int], self.record_size) {
                Some(bytes) => r matches Ok(v) && v@ == bytes,
                None => r == Err::<Vec<u8>, MftError>(MftError::Io(IoFault::UnexpectedEof)),
            },
    {
        let chunk = self.chunks[self.next];
        chunk_payload(buffer, &chunk, self.record_size)
    }

    /// Goes on after a chunk was sent, or stops where nobody took it.
    pub fn sent(&mut self, taken: bool)
        requires
            old(self).wf(),
            old(self).next < old(self).chunks@.len(),
        ensures
            final(self).wf(),
            final(self).chunks@ == old(self).chunks@,
            final(self).record_size == old(self).record_size,
            final(self).buffer_size == old(self).buffer_size,
            final(self).next == old(self).next + 1,
            final(self).stopped == (old(self).stopped || !taken),
    {
        let n: usize = self.chunks.len();
        assert(self.next < n);
        self.next = self.next + 1;
        if !taken {
            self.stopped = true;
        }
    }
}

/// How the reading half of a streaming capture ended.
#[derive(Debug)]
pub enum ReaderEnd {
    /// It returned.
    Returned(Result<(), MftError>),
    /// It panicked.
    Panicked,
}

/// Whether a streaming capture may be finished: only if its reading half
/// ended well.
pub fn reader_outcome(end: ReaderEnd) -> (r: Result<(), MftError>)
    ensures
        r == match end {
            ReaderEnd::Returned(result) => result,
            ReaderEnd::Panicked => Err(MftError::Io(IoFault::ReaderPanicked)),
        },
        r is Ok <==> (end matches ReaderEnd::Returned(Ok(_))),
{
    match end {
        ReaderEnd::Returned(result) => result,
        ReaderEnd::Panicked => Err(MftError::Io(IoFault::ReaderPanicked)),
    }
}

/// The chunks can be captured: each fits into memory and into an entry of a
/// capture file, and so does their number.
pub open spec fn capturable(chunks: Seq<ReadChunk>, record_size: u32) -> bool {
    &&& chunks.len() <= u32::MAX
    &&& chunks.len() > 0 ==> record_size > 0
    &&& forall|i: int|
        0 <= i < chunks.len() ==> (#[trigger] chunks[i]).fits(record_size) && chunks[i].size(
            record_size,
        ) <= u32::MAX
}

/// The size of the largest of the first `n` chunks.
pub open spec fn largest(chunks: Seq<ReadChunk>, record_size: u32, n: int) -> int
    decreases n,
{
    if n <= 0 {
        0
    } else {
        let before = largest(chunks, record_size, n - 1);
        let size = chunks[n - 1].size(record_size);
        if size > before {
            size
        } else {
            before
        }
    }
}

/// A capture: a number of reads is kept in flight, and each chunk is recorded
/// when its read completes, in whatever order that happens.
#[derive(Debug)]
pub struct CaptureRun {
    /// The chunks, in the order in which their reads are issued.
    pub chunks: Vec<ReadChunk>,
    /// The size of a record.
    pub record_size: u32,
    /// The size of a buffer.
    pub buffer_size: usize,
    /// How many reads were issued.
    pub next: usize,
    /// The reads in flight: for each slot the chunk that it reads.
    pub slots: Vec<Option<usize>>,
    /// The chunks that were recorded, in that order.
    pub recorded: Vec<usize>,
    /// What was recorded.
    pub writer: IocpCaptureWriter,
}

/// What follows from a completion.
#[derive(Debug, Clone, Copy, PartialEq, Eq, Structural)]
pub enum CompletionStep {
    /// It belongs to no read in flight.
    Ignored,
    /// Its chunk was recorded, and this read takes over its slot.
    Issue(AlignedRead),
    /// Its chunk was recorded, and no chunk is left to read.
    Drained,
}

impl CaptureRun {
    /// Every issued chunk is in one slot or recorded, never both, and what was
    /// recorded of it is as long as the chunk.
    pub open spec fn wf(self) -> bool {
        &&& capturable(self.chunks@, self.record_size)
        &&& self.next <= self.chunks@.len()
        &&& self.writer.wf()
        &&& self.writer@.fits()
        &&& self.writer@.record_size == self.record_size
        &&& self.writer@.chunks.len() == self.recorded@.len()
        &&& self.recorded@.no_duplicates()
        &&& forall|j: int|
            0 <= j < self.recorded@.len() ==> {
                &&& (#[trigger] self.recorded@[j]) < self.next
                &&& self.writer@.chunks[j].0 == self.chunks@[self.recorded@[j] as int].start_frs
                &&& self.writer@.chunks[j].1.len() == self.chunks@[self.recorded@[j] as int].size(
                    self.record_size,
                )
            }
        &&& forall|s: int|
            0 <= s < self.slots@.len() ==> ((#[trigger] self.slots@[s]) matches Some(i) ==> i
                < self.next && !self.recorded@.contains(i))
        &&& forall|s: int, t: int|
            0 <= s < self.slots@.len() && 0 <= t < self.slots@.len() && s != t && (
            #[trigger] self.slots@[s]) is Some ==> self.slots@[s] != #[trigger] self.slots@[t]
    }

    /// All chunks were recorded.
    pub open spec fn complete(self) -> bool {
        self.recorded@.len() == self.chunks@.len()
    }

    /// Begins a capture with nothing in flight. Every buffer holds the largest
    /// chunk and one more sector.
    pub fn new(
        chunks: Vec<ReadChunk>,
        chunk_size: usize,
        record_size: u32,
        options: &IocpCaptureOptions,
    ) -> (r: CaptureRun)
        requires
            capturable(chunks@, record_size),
            chunk_size + SECTOR_SIZE <= usize::MAX,
        ensures
            r.wf(),
            r.chunks@ == chunks@,
            r.record_size == record_size,
            r.next == 0,
            r.recorded@.len() == 0,
            r.slots@ == Seq::new(options.concurrency as nat, |i: int| None::<usize>),
            r.buffer_size == SECTOR_SIZE + if chunks@.len() == 0 {
                chunk_size as int
            } else {
                largest(chunks@, record_size, chunks@.len() as int)
            },
            r.writer@ == (crate::raw_iocp::CaptureView {
                record_size,
                options: *options,
                chunks: Seq::empty(),
            }),
    {
        let n: usize = chunks.len();
        let mut max: usize = 0;
        for i in 0..n
            invariant
                n == chunks@.len(),
                capturable(chunks@, record_size),
                max == largest(chunks@, record_size, i as int),
                max + 2 * SECTOR_SIZE <= usize::MAX,
        {
            let chunk = chunks[i];
            let read = aligned_read(&chunk, record_size);
            proof {
                law_aligned_read_covers_chunk(chunk, record_size);
            }
            if read.payload > max {
                max = read.payload;
            }
        }
        let buffer_size: usize = if n == 0 {
            chunk_size + SECTOR_SIZE as usize
        } else {
            max + SECTOR_SIZE as usize
        };
        let mut slots: Vec<Option<usize>> = Vec::new();
        for i in 0..options.concurrency
            invariant
                slots@ == Seq::new(i as nat, |i: int| None::<usize>),
        {
            slots.push(None);
            assert(slots@ =~= Seq::new((i + 1) as nat, |i: int| None::<usize>));
        }
        let writer = IocpCaptureWriter::new(record_size, options);
        CaptureRun {
            chunks,
            record_size,
            buffer_size,
            next: 0,
            slots,
            recorded: Vec::new(),
            writer,
        }
    }

    /// Issues the read of the next chunk in an empty slot. `None` where no
    /// chunk is left. Fails where the read does not fit into a buffer.
    pub fn issue(&mut self, slot: usize) -> (r: Result<Option<AlignedRead>, MftError>)
        requires
            old(self).wf(),
            slot < old(self).slots@.len(),
            old(self).slots@[slot as int] is None,
        ensures
            final(self).wf(),
            final(self).chunks@ == old(self).chunks@,
            final(self).record_size == old(self).record_size,
            final(self).buffer_size == old(self).buffer_size,
            final(self).recorded@ == old(self).recorded@,
            final(self).writer == old(self).writer,
            ({
                let read = aligned(old(self).chunks@[old(self).next as int], old(self).record_size);
                if old(self).next == old(self).chunks@.len() {
                    &&& r == Ok::<Option<AlignedRead>, MftError>(None)
                    &&& final(self).next == old(self).next
                    &&& final(self).slots@ == old(self).slots@
                } else if read.size > old(self).buffer_size {
                    &&& r == Err::<Option<AlignedRead>, MftError>(
                        MftError::Io(IoFault::UnexpectedEof),
                    )
                    &&& final(self).next == old(self).next
                    &&& final(self).slots@ == old(self).slots@
                } else {
                    &&& r == Ok::<Option<AlignedRead>, MftError>(Some(read))
                    &&& final(self).next == old(self).next + 1
                    &&& final(self).slots@ == old(self).slots@.update(
                        slot as int,
                        Some(old(self).next),
                    )
                }
            }),
    {
        let n: usize = self.chunks.len();
        if self.next == n {
            return Ok(None);
        }
        let i: usize = self.next;
        let chunk = self.chunks[i];
        let read = aligned_read(&chunk, self.record_size);
        if read.size > self.buffer_size {
            return Err(MftError::Io(IoFault::UnexpectedEof));
        }
        self.slots.set(slot, Some(i));
        self.next = i + 1;
        Ok(Some(read))
    }

    /// Issues the first reads: one for each slot, as long as there are chunks.
    /// Read `k` of the result belongs to slot `k`.
    pub fn prime(&mut self) -> (r: Result<Vec<AlignedRead>, MftError>)
        requires
            old(self).wf(),
            old(self).next == 0,
            old(self).recorded@.len() == 0,
            forall|s: int| 0 <= s < old(self).slots@.len() ==> old(self).slots@[s] is None,
        ensures
            final(self).wf(),
            final(self).chunks@ == old(self).chunks@,
            final(self).record_size == old(self).record_size,
            final(self).buffer_size == old(self).buffer_size,
            final(self).recorded@ == old(self).recorded@,
            final(self).writer == old(self).writer,
            final(self).slots@.len() == old(self).slots@.len(),
            ({
                let n = if old(self).slots@.len() < old(self).chunks@.len() {
                    old(self).slots@.len()
                } else {
                    old(self).chunks@.len()
                };
                &&& r is Ok <==> forall|k: int|
                    0 <= k < n ==> #[trigger] aligned(
                        old(self).chunks@[k],
                        old(self).record_size,
                    ).size <= old(self).buffer_size
                &&& r matches Ok(reads) ==> {
                    &&& reads@ == Seq::new(
                        n,
                        |k: int| aligned(old(self).chunks@[k], old(self).record_size),
                    )
                    &&& final(self).next == n
                    &&& forall|s: int|
                        0 <= s < old(self).slots@.len() ==> #[trigger] final(self).slots@[s]
                            == if s < n {
                            Some(s as usize)
                        } else {
                            None
                        }
                }
                &&& r matches Err(e) ==> e == MftError::Io(IoFault::UnexpectedEof)
            }),
    {
        let count: usize = self.slots.len();
        let total: usize = self.chunks.len();
        let n: usize = if count < total {
            count
        } else {
            total
        };
        let mut reads: Vec<AlignedRead> = Vec::new();
        for k in 0..n
            invariant
                self.wf(),
                self.chunks@ == old(self).chunks@,
                self.record_size == old(self).record_size,
                self.buffer_size == old(self).buffer_size,
                self.recorded@ == old(self).recorded@,
                self.writer == old(self).writer,
                self.slots@.len() == old(self).slots@.len(),
                count == self.slots@.len(),
                total == self.chunks@.len(),
                n == if count < total {
                    count
                } else {
                    total
                },
                self.next == k,
                reads@ == Seq::new(
                    k as nat,
                    |k: int| aligned(old(self).chunks@[k], old(self).record_size),
                ),
                forall|j: int|
                    0 <= j < k ==> #[trigger] aligned(
                        old(self).chunks@[j],
                        old(self).record_size,
                    ).size <= old(self).buffer_size,
                forall|s: int|
                    0 <= s < self.slots@.len() ==> #[trigger] self.slots@[s] == if s < k {
                        Some(s as usize)
                    } else {
                        None
                    },
        {
            match self.issue(k) {
                Ok(Some(read)) => {
                    reads.push(read);
                    assert(reads@ =~= Seq::new(
                        (k + 1) as nat,
                        |k: int| aligned(old(self).chunks@[k], old(self).record_size),
                    ));
                },
                Ok(None) => {
                    assert(false);
                },
                Err(e) => {
                    assert(aligned(old(self).chunks@[k as int], old(self).record_size).size
                        > old(self).buffer_size);
                    return Err(e);
                },
            }
        }
        Ok(reads)
    }

    /// Takes the completion of the read in a slot: records its chunk and
    /// issues the read of the next chunk in the same slot.
    pub fn completed(&mut self, slot: usize, buffer: &[u8]) -> (r: Result<CompletionStep, MftError>)
        requires
            old(self).wf(),
        ensures
            final(self).wf(),
            final(self).chunks@ == old(self).chunks@,
            final(self).record_size == old(self).record_size,
            final(self).buffer_size == old(self).buffer_size,
            final(self).slots@.len() == old(self).slots@.len(),
            if slot >= old(self).slots@.len() || old(self).slots@[slot as int] is None {
                &&& r == Ok::<CompletionStep, MftError>(CompletionStep::Ignored)
                &&& final(self).next == old(self).next
                &&& final(self).slots@ == old(self).slots@
                &&& final(self).recorded@ == old(self).recorded@
                &&& final(self).writer == old(self).writer
            } else {
                let i = old(self).slots@[slot as int]->0;
                let chunk = old(self).chunks@[i as int];
                match payload_of(buffer@, chunk, old(self).record_size) {
                    None => r == Err::<CompletionStep, MftError>(
                        MftError::Io(IoFault::UnexpectedEof),
                    ),
                    Some(bytes) => {
                        &&& final(self).recorded@ == old(self).recorded@.push(i)
                        &&& final(self).writer@ == (crate::raw_iocp::CaptureView {
                            chunks: old(self).writer@.chunks.push((chunk.start_frs, bytes)),
                            ..old(self).writer@
                        })
                        &&& if old(self).next == old(self).chunks@.len() {
                            &&& r == Ok::<CompletionStep, MftError>(CompletionStep::Drained)
                            &&& final(self).next == old(self).next
                            &&& final(self).slots@ == old(self).slots@.update(slot as int, None)
                        } else {
                            let read = aligned(
                                old(self).chunks@[old(self).next as int],
                                old(self).record_size,
                            );
                            if read.size > old(self).buffer_size {
                                r == Err::<CompletionStep, MftError>(
                                    MftError::Io(IoFault::UnexpectedEof),
                                )
                            } else {
                                &&& r == Ok::<CompletionStep, MftError>(CompletionStep::Issue(read))
                                &&& final(self).next == old(self).next + 1
                                &&& final(self).slots@ == old(self).slots@.update(
                                    slot as int,
                                    Some(old(self).next),
                                )
                            }
                        }
                    },
                }
            },
    {
        if slot >= self.slots.len() {
            return Ok(CompletionStep::Ignored);
        }
        let i: usize = match self.slots[slot] {
            Some(i) => i,
            None => {
                return Ok(CompletionStep::Ignored);
            },
        };
        let chunk = self.chunks[i];
        proof {
            law_aligned_read_covers_chunk(chunk, self.record_size);
        }
        let data: Vec<u8> = match chunk_payload(buffer, &chunk, self.record_size) {
            Ok(data) => data,
            Err(e) => {
                return Err(e);
            },
        };
        proof {
            self.lemma_room(i as int);
        }
        self.slots.set(slot, None);
        self.recorded.push(i);
        self.writer.record_chunk(chunk.start_frs, data);
        assert(self.recorded@.no_duplicates()) by {
            let before = old(self).recorded@;
            assert(!before.contains(i));
            assert forall|a: int, b: int|
                0 <= a < self.recorded@.len() && 0 <= b < self.recorded@.len() && a
                    != b implies self.recorded@[a] != self.recorded@[b] by {
                if a < before.len() {
                    assert(before.contains(before[a]));
                }
                if b < before.len() {
                    assert(before.contains(before[b]));
                }
            }
        }
        assert forall|s: int| 0 <= s < self.slots@.len() implies ((
        #[trigger] self.slots@[s]) matches Some(k) ==> k < self.next && !self.recorded@.contains(
            k,
        )) by {
            if self.slots@[s] is Some {
                let k = self.slots@[s]->0;
                assert(old(self).slots@[s] == Some(k));
                assert(old(self).slots@[slot as int] == Some(i));
                if self.recorded@.contains(k) {
                    let j = choose|j: int| 0 <= j < self.recorded@.len() && self.recorded@[j] == k;
                    if j < old(self).recorded@.len() {
                        assert(old(self).recorded@[j] == k);
                        assert(old(self).recorded@.contains(k));
                    }
                }
            }
        }
        assert forall|j: int| 0 <= j < self.recorded@.len() implies {
            &&& (#[trigger] self.recorded@[j]) < self.next
            &&& self.writer@.chunks[j].0 == self.chunks@[self.recorded@[j] as int].start_frs
            &&& self.writer@.chunks[j].1.len() == self.chunks@[self.recorded@[j] as int].size(
                self.record_size,
            )
        } by {
            if j < old(self).recorded@.len() {
                assert(self.recorded@[j] == old(self).recorded@[j]);
            }
        }
        assert(self.wf());
        match self.issue(slot) {
            Ok(Some(read)) => {
                assert(self.slots@ =~= old(self).slots@.update(slot as int, Some(old(self).next)));
                Ok(CompletionStep::Issue(read))
            },
            Ok(None) => Ok(CompletionStep::Drained),
            Err(e) => Err(e),
        }
    }

    /// There is room for one more record of a capture while a chunk is in
    /// flight.
    proof fn lemma_room(self, i: int)
        requires
            self.wf(),
            0 <= i < self.chunks@.len(),
            !self.recorded@.contains(i as usize),
        ensures
            self.recorded@.len() < self.chunks@.len(),
    {
        let n = self.chunks@.len() as int;
        let set = self.recorded@.to_set();
        self.recorded@.unique_seq_to_set();
        let all = Set::new(|k: usize| k < n);
        assert(set.subset_of(all.remove(i as usize)));
        lemma_usize_set(n);
        vstd::set_lib::lemma_len_subset(set, all.remove(i as usize));
    }

    /// Whether all chunks were recorded.
    pub fn is_complete(&self) -> (r: bool)
        ensures
            r == self.complete(),
    {
        self.recorded.len() == self.chunks.len()
    }

    /// The file of the capture.
    pub fn finish(&self) -> (r: Result<(IocpCaptureHeader, Vec<u8>), MftError>)
        requires
            self.wf(),
        ensures
            ({
                let data = self.writer@.data(self.writer@.chunks.len() as int);
                let payload = if self.writer@.options.compress {
                    crate::codec::zstd_frame(data, self.writer@.options.compression_level)
                } else {
                    Some(data)
                };
                match payload {
                    Some(p) => r matches Ok((header, file)) && header == self.writer@.header()
                        && file@ == self.writer@.file(p),
                    None => r == Err::<(IocpCaptureHeader, Vec<u8>), MftError>(
                        MftError::Io(IoFault::Codec),
                    ),
                }
            }),
            r matches Ok((_, file)) ==> crate::raw_iocp::capture_content(file@) == Ok::<
                crate::raw_iocp::CaptureContent,
                MftError,
            >(crate::raw_iocp::read_back(self.writer@)),
    {
        self.writer.write_to_bytes()
    }
}

proof fn lemma_usize_set(n: int)
    requires
        0 <= n <= usize::MAX,
    ensures
        Set::new(|k: usize| k < n).finite(),
        Set::new(|k: usize| k < n).len() == n,
    decreases n,
{
    let s = Set::new(|k: usize| k < n);
    if n == 0 {
        assert(s =~= Set::empty());
    } else {
        lemma_usize_set(n - 1);
        let t = Set::new(|k: usize| k < n - 1);
        assert(s =~= t.insert((n - 1) as usize));
    }
}

/// When a capture is complete, every chunk was recorded exactly once.
pub proof fn law_complete_capture_has_every_chunk(run: CaptureRun, i: int)
    requires
        run.wf(),
        run.complete(),
        0 <= i < run.chunks@.len(),
    ensures
        run.recorded@.contains(i as usize),
        run.recorded@.no_duplicates(),
        run.writer@.chunks.len() == run.chunks@.len(),
{
    if !run.recorded@.contains(i as usize) {
        run.lemma_room(i);
    }
}

/// What is taken from the buffer of a read is the chunk as it lies on the volume,
/// byte for byte, if the read brought what lies there.
pub proof fn law_chunks_are_taken_from_their_place(
    disk: Seq<u8>,
    chunk: ReadChunk,
    record_size: u32,
)
    requires
        chunk.fits(record_size),
        aligned(chunk, record_size).offset + aligned(chunk, record_size).size <= disk.len(),
    ensures
        payload_of(
            disk.subrange(
                aligned(chunk, record_size).offset as int,
                aligned(chunk, record_size).offset + aligned(chunk, record_size).size,
            ),
            chunk,
            record_size,
        ) == Some(
            disk.subrange(
                chunk.disk_offset as int,
                chunk.disk_offset + chunk.record_count * record_size,
            ),
        ),
{
    law_aligned_read_covers_chunk(chunk, record_size);
    let read = aligned(chunk, record_size);
    let buffer = disk.subrange(read.offset as int, read.offset + read.size);
    let there = disk.subrange(
        chunk.disk_offset as int,
        chunk.disk_offset + chunk.record_count * record_size,
    );
    assert(buffer.subrange(read.adjustment as int, read.adjustment + read.payload) =~= there);
}

/// A buffer that holds less than the chunk gives nothing.
pub proof fn law_short_buffers_give_nothing(buffer: Seq<u8>, chunk: ReadChunk, record_size: u32)
    requires
        chunk.fits(record_size),
    ensures
        payload_of(buffer, chunk, record_size) is None <==> buffer.len() < chunk.disk_offset % 512
            + chunk.record_count * record_size,
{
    law_aligned_read_covers_chunk(chunk, record_size);
}

/// The largest chunk is one of the chunks, and none of them is larger.
pub proof fn law_largest_chunk(chunks: Seq<ReadChunk>, record_size: u32, n: int, i: int)
    requires
        0 <= i < n <= chunks.len(),
    ensures
        chunks[i].record_count * record_size <= largest(chunks, record_size, n),
        largest(chunks, record_size, n) == 0 || exists|k: int|
            0 <= k < n && (#[trigger] chunks[k]).size(record_size) == largest(
                chunks,
                record_size,
                n,
            ),
    decreases n,
{
    reveal_with_fuel(largest, 2);
    if n > 1 {
        law_largest_chunk(chunks, record_size, n - 1, if i < n - 1 { i } else { 0 });
        let m = largest(chunks, record_size, n - 1);
        if m != 0 {
            let k = choose|k: int| 0 <= k < n - 1 && (#[trigger] chunks[k]).size(record_size) == m;
            assert(chunks[k].size(record_size) == m);
        }
    }
    assert(chunks[n - 1].size(record_size) == chunks[n - 1].record_count * record_size);
}

/// Where records fill whole sectors, a buffer for the largest chunk and one more
/// sector holds the read of every chunk.
pub proof fn law_buffers_hold_every_read(chunks: Seq<ReadChunk>, record_size: u32, i: int)
    requires
        0 <= i < chunks.len(),
        chunks[i].fits(record_size),
        record_size % 512 == 0,
    ensures
        aligned(chunks[i], record_size).size <= 512 + largest(
            chunks,
            record_size,
            chunks.len() as int,
        ),
{
    law_one_more_sector_is_enough(chunks[i], record_size);
    law_largest_chunk(chunks, record_size, chunks.len() as int, i);
}

/// What a complete capture recorded is the chunks: each under its first record
/// and as long as its records.
pub proof fn law_recorded_chunks_are_the_chunks(run: CaptureRun, j: int)
    requires
        run.wf(),
        0 <= j < run.recorded@.len(),
    ensures
        run.recorded@[j] < run.chunks@.len(),
        run.writer@.chunks[j].0 == run.chunks@[run.recorded@[j] as int].start_frs,
        run.writer@.chunks[j].1.len() == run.chunks@[run.recorded@[j] as int].record_count
            * run.record_size,
{
    assert(run.recorded@[j] < run.next);
}

} // verus!
