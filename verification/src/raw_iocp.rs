//! Captures of the table in the order in which its chunks were read.
//!
//! Reads of a busy volume complete in no fixed order. A capture keeps the
//! chunks in the order of their completion: a header, one entry per chunk, and
//! the chunk data, which may be compressed.

use crate::bytes::{copy_range, matches_at, put_bytes, put_u32, put_u64, put_u8, read_u32, read_u64};
use crate::codec::{zstd_decode, zstd_encode};
use crate::error::{DataFault, IoFault, MftError};
use vstd::prelude::*;

verus! {

broadcast use crate::bytes::group_le_len;

/// The version that is written.
pub const VERSION: u32 = 1;

/// The flag of compressed data.
pub const FLAG_COMPRESSED: u32 = 1;

/// Size of the header.
pub const HEADER_SIZE: usize = 96;

/// Size of a chunk entry.
pub const CHUNK_ENTRY_SIZE: usize = 32;

/// The bytes `UFFS-IOCP`.
pub open spec fn magic() -> Seq<u8> {
    seq![0x55u8, 0x46u8, 0x46u8, 0x53u8, 0x2Du8, 0x49u8, 0x4Fu8, 0x43u8, 0x50u8]
}

fn magic_bytes() -> (r: [u8; 9])
    ensures
        r@ == magic(),
{
    let m: [u8; 9] = [0x55, 0x46, 0x46, 0x53, 0x2D, 0x49, 0x4F, 0x43, 0x50];
    assert(m@ =~= magic());
    m
}

/// The lowest byte of a character's number.
pub open spec fn letter_byte(c: char) -> u8 {
    (c as u32 % 256) as u8
}

/// The upper-case letter that a byte stands for, `X` where it is no letter.
pub open spec fn byte_letter(b: u8) -> char {
    if 65 <= b <= 90 {
        b as char
    } else if 97 <= b <= 122 {
        (b - 32) as char
    } else {
        'X'
    }
}

/// Takes the lowest byte of a character's number.
pub(crate) fn letter_to_byte(c: char) -> (r: u8)
    ensures
        r == letter_byte(c),
{
    ((c as u32) % 256) as u8
}

/// Takes the upper-case letter that a byte stands for.
pub(crate) fn byte_to_letter(b: u8) -> (r: char)
    ensures
        r == byte_letter(b),
{
    if 65 <= b && b <= 90 {
        b as char
    } else if 97 <= b && b <= 122 {
        (b - 32) as char
    } else {
        'X'
    }
}

/// Whether the flag of compressed data is set.
pub open spec fn flag_set(flags: u32) -> bool {
    flags % 2 == 1
}

/// Tests the flag of compressed data.
pub(crate) fn has_flag(flags: u32) -> (r: bool)
    ensures
        r == flag_set(flags),
{
    assert((flags & 1 != 0) == (flags % 2 == 1)) by (bit_vector);
    flags & FLAG_COMPRESSED != 0
}

/// The header of a capture.
#[derive(Debug, Clone, Copy, PartialEq, Eq, Structural)]
pub struct IocpCaptureHeader {
    /// Format version.
    pub version: u32,
    /// Flags; the lowest bit marks compressed data.
    pub flags: u32,
    /// Size of a record.
    pub record_size: u32,
    /// Number of chunks.
    pub chunk_count: u32,
    /// Number of records in all chunks.
    pub total_records: u64,
    /// Size of the chunk data before compression.
    pub total_data_size: u64,
    /// Letter of the captured volume.
    pub volume_letter: char,
    /// How many reads were in flight at a time.
    pub concurrency: u8,
}

impl IocpCaptureHeader {
    /// The bytes of the header.
    pub open spec fn bytes(self) -> Seq<u8> {
        magic() + crate::bytes::zeros(3) + crate::bytes::le32(self.version) + crate::bytes::le32(
            self.flags,
        ) + crate::bytes::le32(self.record_size) + crate::bytes::le32(self.chunk_count)
            + crate::bytes::le64(self.total_records) + crate::bytes::le64(self.total_data_size)
            + seq![letter_byte(self.volume_letter), self.concurrency] + crate::bytes::zeros(50)
    }

    /// The header that some bytes hold.
    pub open spec fn read(b: Seq<u8>) -> Result<IocpCaptureHeader, MftError> {
        if !crate::bytes::bytes_at(b, 0, magic()) {
            Err(MftError::InvalidData(DataFault::CaptureMagic))
        } else if crate::bytes::u32_at(b, 12) > VERSION {
            Err(MftError::InvalidData(DataFault::CaptureVersion(crate::bytes::u32_at(b, 12))))
        } else {
            Ok(
                IocpCaptureHeader {
                    version: crate::bytes::u32_at(b, 12),
                    flags: crate::bytes::u32_at(b, 16),
                    record_size: crate::bytes::u32_at(b, 20),
                    chunk_count: crate::bytes::u32_at(b, 24),
                    total_records: crate::bytes::u64_at(b, 28),
                    total_data_size: crate::bytes::u64_at(b, 36),
                    volume_letter: byte_letter(b[44]),
                    concurrency: b[45],
                },
            )
        }
    }

    /// Whether the chunk data is compressed.
    pub fn is_compressed(&self) -> (r: bool)
        ensures
            r == flag_set(self.flags),
    {
        has_flag(self.flags)
    }

    /// Writes the header.
    pub fn to_bytes(&self) -> (r: [u8; HEADER_SIZE])
        ensures
            r@ == self.bytes(),
    {
        let mut buf: [u8; HEADER_SIZE] = [0u8; HEADER_SIZE];
        let m: [u8; 9] = magic_bytes();
        put_bytes(&mut buf, 0, m.as_slice());
        put_u32(&mut buf, 12, self.version);
        put_u32(&mut buf, 16, self.flags);
        put_u32(&mut buf, 20, self.record_size);
        put_u32(&mut buf, 24, self.chunk_count);
        put_u64(&mut buf, 28, self.total_records);
        put_u64(&mut buf, 36, self.total_data_size);
        put_u8(&mut buf, 44, letter_to_byte(self.volume_letter));
        put_u8(&mut buf, 45, self.concurrency);
        assert(buf@ =~= self.bytes());
        buf
    }

    /// Reads a header.
    pub fn from_bytes(buf: &[u8; HEADER_SIZE]) -> (r: Result<IocpCaptureHeader, MftError>)
        ensures
            r == IocpCaptureHeader::read(buf@),
    {
        IocpCaptureHeader::read_from(buf.as_slice())
    }

    fn read_from(s: &[u8]) -> (r: Result<IocpCaptureHeader, MftError>)
        requires
            HEADER_SIZE <= s@.len(),
        ensures
            r == IocpCaptureHeader::read(s@),
    {
        let m: [u8; 9] = magic_bytes();
        if !matches_at(s, 0, m.as_slice()) {
            return Err(MftError::InvalidData(DataFault::CaptureMagic));
        }
        let version: u32 = read_u32(s, 12);
        if version > VERSION {
            return Err(MftError::InvalidData(DataFault::CaptureVersion(version)));
        }
        Ok(
            IocpCaptureHeader {
                version,
                flags: read_u32(s, 16),
                record_size: read_u32(s, 20),
                chunk_count: read_u32(s, 24),
                total_records: read_u64(s, 28),
                total_data_size: read_u64(s, 36),
                volume_letter: byte_to_letter(s[44]),
                concurrency: s[45],
            },
        )
    }
}

/// A header that was written can be read back; only a volume letter that is no
/// upper-case ASCII letter does not survive.
pub proof fn law_header_round_trip(h: IocpCaptureHeader)
    requires
        h.version <= VERSION,
    ensures
        IocpCaptureHeader::read(h.bytes()) == Ok::<IocpCaptureHeader, MftError>(
            IocpCaptureHeader {
                volume_letter: byte_letter(letter_byte(h.volume_letter)),
                ..h
            },
        ),
        'A' <= h.volume_letter <= 'Z' ==> IocpCaptureHeader::read(h.bytes()) == Ok::<
            IocpCaptureHeader,
            MftError,
        >(h),
{
    let b = h.bytes();
    assert(b.len() == HEADER_SIZE);
    assert(b.subrange(0, 9) =~= magic());
    assert(b.subrange(12, 16) =~= crate::bytes::le32(h.version));
    assert(b.subrange(16, 20) =~= crate::bytes::le32(h.flags));
    assert(b.subrange(20, 24) =~= crate::bytes::le32(h.record_size));
    assert(b.subrange(24, 28) =~= crate::bytes::le32(h.chunk_count));
    assert(b.subrange(28, 36) =~= crate::bytes::le64(h.total_records));
    assert(b.subrange(36, 44) =~= crate::bytes::le64(h.total_data_size));
    crate::bytes::lemma_le32_reads_back(b, 12, h.version);
    crate::bytes::lemma_le32_reads_back(b, 16, h.flags);
    crate::bytes::lemma_le32_reads_back(b, 20, h.record_size);
    crate::bytes::lemma_le32_reads_back(b, 24, h.chunk_count);
    crate::bytes::lemma_le64_reads_back(b, 28, h.total_records);
    crate::bytes::lemma_le64_reads_back(b, 36, h.total_data_size);
    assert(b[44] == letter_byte(h.volume_letter));
    assert(b[45] == h.concurrency);
}

/// One chunk of a capture.
#[derive(Debug, Clone, Copy, PartialEq, Eq, Structural)]
pub struct CapturedChunk {
    /// How many chunks were complete before this one.
    pub completion_seq: u32,
    /// First record of the chunk.
    pub start_frs: u64,
    /// Number of records in the chunk.
    pub record_count: u32,
    /// Where the chunk begins in the chunk data.
    pub data_offset: u64,
    /// Size of the chunk.
    pub data_size: u32,
}

impl CapturedChunk {
    /// The bytes of the entry.
    pub open spec fn bytes(self) -> Seq<u8> {
        crate::bytes::le32(self.completion_seq) + crate::bytes::le64(self.start_frs)
            + crate::bytes::le32(self.record_count) + crate::bytes::le64(self.data_offset)
            + crate::bytes::le32(self.data_size) + crate::bytes::zeros(4)
    }

    /// The entry that stands at `off`.
    pub open spec fn read(b: Seq<u8>, off: int) -> CapturedChunk {
        CapturedChunk {
            completion_seq: crate::bytes::u32_at(b, off),
            start_frs: crate::bytes::u64_at(b, off + 4),
            record_count: crate::bytes::u32_at(b, off + 12),
            data_offset: crate::bytes::u64_at(b, off + 16),
            data_size: crate::bytes::u32_at(b, off + 24),
        }
    }

    /// Writes the entry.
    pub fn to_bytes(&self) -> (r: [u8; CHUNK_ENTRY_SIZE])
        ensures
            r@ == self.bytes(),
    {
        let mut buf: [u8; CHUNK_ENTRY_SIZE] = [0u8; CHUNK_ENTRY_SIZE];
        put_u32(&mut buf, 0, self.completion_seq);
        put_u64(&mut buf, 4, self.start_frs);
        put_u32(&mut buf, 12, self.record_count);
        put_u64(&mut buf, 16, self.data_offset);
        put_u32(&mut buf, 24, self.data_size);
        assert(buf@ =~= self.bytes());
        buf
    }

    /// Reads an entry.
    pub fn from_bytes(buf: &[u8; CHUNK_ENTRY_SIZE]) -> (r: CapturedChunk)
        ensures
            r == CapturedChunk::read(buf@, 0),
    {
        CapturedChunk::read_at(buf.as_slice(), 0)
    }

    fn read_at(s: &[u8], off: usize) -> (r: CapturedChunk)
        requires
            off + CHUNK_ENTRY_SIZE <= s@.len(),
        ensures
            r == CapturedChunk::read(s@, off as int),
    {
        assert(off + 32 <= s.len());
        CapturedChunk {
            completion_seq: read_u32(s, off),
            start_frs: read_u64(s, off + 4),
            record_count: read_u32(s, off + 12),
            data_offset: read_u64(s, off + 16),
            data_size: read_u32(s, off + 24),
        }
    }
}

/// An entry that was written can be read back.
pub proof fn law_chunk_round_trip(c: CapturedChunk)
    ensures
        CapturedChunk::read(c.bytes(), 0) == c,
{
    assert(c.bytes().subrange(0, CHUNK_ENTRY_SIZE as int) =~= c.bytes());
    lemma_chunk_reads_back(c.bytes(), 0, c);
}

proof fn lemma_chunk_reads_back(b: Seq<u8>, off: int, c: CapturedChunk)
    requires
        0 <= off,
        off + CHUNK_ENTRY_SIZE <= b.len(),
        b.subrange(off, off + CHUNK_ENTRY_SIZE) == c.bytes(),
    ensures
        CapturedChunk::read(b, off) == c,
{
    let e = c.bytes();
    assert(e.len() == CHUNK_ENTRY_SIZE);
    assert forall|i: int| 0 <= i < CHUNK_ENTRY_SIZE implies b[off + i] == #[trigger] e[i] by {
        assert(b.subrange(off, off + CHUNK_ENTRY_SIZE)[i] == b[off + i]);
    }
    assert forall|i: int| off <= i < off + CHUNK_ENTRY_SIZE implies #[trigger] b[i] == e[i - off] by {
        assert(b[off + (i - off)] == e[i - off]);
    }
    assert(b.subrange(off, off + 4) =~= crate::bytes::le32(c.completion_seq));
    assert(b.subrange(off + 4, off + 12) =~= crate::bytes::le64(c.start_frs));
    assert(b.subrange(off + 12, off + 16) =~= crate::bytes::le32(c.record_count));
    assert(b.subrange(off + 16, off + 24) =~= crate::bytes::le64(c.data_offset));
    assert(b.subrange(off + 24, off + 28) =~= crate::bytes::le32(c.data_size));
    crate::bytes::lemma_le32_reads_back(b, off, c.completion_seq);
    crate::bytes::lemma_le64_reads_back(b, off + 4, c.start_frs);
    crate::bytes::lemma_le32_reads_back(b, off + 12, c.record_count);
    crate::bytes::lemma_le64_reads_back(b, off + 16, c.data_offset);
    crate::bytes::lemma_le32_reads_back(b, off + 24, c.data_size);
}

/// How a capture is made.
#[derive(Debug, Clone, Copy, PartialEq, Eq, Structural)]
pub struct IocpCaptureOptions {
    /// Whether the chunk data is compressed.
    pub compress: bool,
    /// Compression level, 1 to 22.
    pub compression_level: i32,
    /// Letter of the volume.
    pub volume_letter: char,
    /// How many reads are in flight at a time.
    pub concurrency: u8,
}

impl Default for IocpCaptureOptions {
    fn default() -> (r: IocpCaptureOptions)
        ensures
            r == (IocpCaptureOptions {
                compress: true,
                compression_level: 3,
                volume_letter: 'X',
                concurrency: 8,
            }),
    {
        IocpCaptureOptions {
            compress: true,
            compression_level: 3,
            volume_letter: 'X',
            concurrency: 8,
        }
    }
}

/// What was captured so far: the record size, the options, and each chunk's
/// first record and bytes, in the order of completion.
#[verifier::ext_equal]
pub struct CaptureView {
    pub record_size: u32,
    pub options: IocpCaptureOptions,
    pub chunks: Seq<(u64, Seq<u8>)>,
}

impl CaptureView {
    /// Where chunk `i` begins in the chunk data.
    pub open spec fn offset(self, i: int) -> int
        decreases i,
    {
        if i <= 0 {
            0
        } else {
            self.offset(i - 1) + self.chunks[i - 1].1.len()
        }
    }

    /// How many records the entries of the first `i` chunks count.
    pub open spec fn records(self, i: int) -> int
        decreases i,
    {
        if i <= 0 {
            0
        } else {
            self.records(i - 1) + self.entry(i - 1).record_count
        }
    }

    /// The data of the first `i` chunks, one after the other.
    pub open spec fn data(self, i: int) -> Seq<u8>
        decreases i,
    {
        if i <= 0 {
            Seq::empty()
        } else {
            self.data(i - 1) + self.chunks[i - 1].1
        }
    }

    /// The entry of chunk `i`. Of sizes that need more than 32 bits it keeps the
    /// lower ones.
    pub open spec fn entry(self, i: int) -> CapturedChunk {
        CapturedChunk {
            completion_seq: i as u32,
            start_frs: self.chunks[i].0,
            record_count: (self.chunks[i].1.len() / (self.record_size as nat)) as u32,
            data_offset: self.offset(i) as u64,
            data_size: self.chunks[i].1.len() as u32,
        }
    }

    /// The bytes of the first `i` entries.
    pub open spec fn entries(self, i: int) -> Seq<u8>
        decreases i,
    {
        if i <= 0 {
            Seq::empty()
        } else {
            self.entries(i - 1) + self.entry(i - 1).bytes()
        }
    }

    /// The header of the capture.
    pub open spec fn header(self) -> IocpCaptureHeader {
        let n = self.chunks.len() as int;
        IocpCaptureHeader {
            version: VERSION,
            flags: if self.options.compress {
                FLAG_COMPRESSED
            } else {
                0
            },
            record_size: self.record_size,
            chunk_count: n as u32,
            total_records: self.records(n) as u64,
            total_data_size: self.offset(n) as u64,
            volume_letter: self.options.volume_letter,
            concurrency: self.options.concurrency,
        }
    }

    /// The bytes of the capture file, given its chunk data as it is stored.
    pub open spec fn file(self, payload: Seq<u8>) -> Seq<u8> {
        self.header().bytes() + self.entries(self.chunks.len() as int) + payload
    }

    /// The numbers of the capture fit into the fields of its file.
    pub open spec fn fits(self) -> bool {
        &&& self.chunks.len() <= u32::MAX
        &&& forall|i: int|
            0 <= i < self.chunks.len() ==> (#[trigger] self.chunks[i]).1.len() <= u32::MAX
    }
}

proof fn lemma_sums_fit(v: CaptureView, i: int)
    requires
        v.fits(),
        0 <= i <= v.chunks.len(),
    ensures
        0 <= v.offset(i) <= i * 0xFFFF_FFFF <= 0xFFFF_FFFE_0000_0001,
        v.data(i).len() == v.offset(i),
        v.entries(i).len() == i * CHUNK_ENTRY_SIZE,
    decreases i,
{
    assert(i * 0xFFFF_FFFF <= 0xFFFF_FFFE_0000_0001) by (nonlinear_arith)
        requires
            0 <= i <= 0xFFFF_FFFF,
    ;
    if i > 0 {
        lemma_sums_fit(v, i - 1);
    }
}

proof fn lemma_sums_grow(v: CaptureView, i: int, n: int)
    requires
        0 <= i <= n <= v.chunks.len(),
        n <= u32::MAX,
    ensures
        0 <= v.offset(i) <= v.offset(n),
        0 <= v.records(n) <= n * 0xFFFF_FFFF <= 0xFFFF_FFFE_0000_0001,
        i < n ==> v.offset(i) + v.chunks[i].1.len() <= v.offset(n),
    decreases n,
{
    assert(n * 0xFFFF_FFFF <= 0xFFFF_FFFE_0000_0001) by (nonlinear_arith)
        requires
            0 <= n <= 0xFFFF_FFFF,
    ;
    if n > 0 {
        lemma_sums_grow(v, if i < n { i } else { n - 1 }, n - 1);
    }
}

proof fn lemma_few_records(v: CaptureView, i: int)
    requires
        v.fits(),
        v.record_size > 0,
        0 <= i < v.chunks.len(),
    ensures
        v.entry(i).record_count == v.chunks[i].1.len() / (v.record_size as nat),
        v.entry(i).data_size == v.chunks[i].1.len(),
{
    let len = v.chunks[i].1.len();
    assert(0 <= len / (v.record_size as nat) <= len) by (nonlinear_arith)
        requires
            v.record_size > 0,
    ;
}

proof fn lemma_data_keeps_chunks(v: CaptureView, i: int, n: int)
    requires
        v.fits(),
        0 <= i < n <= v.chunks.len(),
    ensures
        0 <= v.offset(i),
        v.offset(i) + v.chunks[i].1.len() <= v.offset(n),
        v.data(n).len() == v.offset(n),
        v.data(n).subrange(v.offset(i), v.offset(i) + v.chunks[i].1.len()) == v.chunks[i].1,
    decreases n,
{
    lemma_sums_fit(v, i);
    lemma_sums_fit(v, n);
    lemma_sums_fit(v, n - 1);
    if i == n - 1 {
        assert(v.data(n).subrange(v.offset(i), v.offset(i) + v.chunks[i].1.len())
            =~= v.chunks[i].1);
    } else {
        lemma_data_keeps_chunks(v, i, n - 1);
        assert(v.data(n).subrange(v.offset(i), v.offset(i) + v.chunks[i].1.len()) =~= v.data(
            n - 1,
        ).subrange(v.offset(i), v.offset(i) + v.chunks[i].1.len()));
    }
}

proof fn lemma_entries_keep_entry(v: CaptureView, i: int, n: int)
    requires
        v.fits(),
        0 <= i < n <= v.chunks.len(),
    ensures
        v.entries(n).len() == n * CHUNK_ENTRY_SIZE,
        v.entries(n).subrange(i * CHUNK_ENTRY_SIZE, (i + 1) * CHUNK_ENTRY_SIZE) == v.entry(
            i,
        ).bytes(),
    decreases n,
{
    lemma_sums_fit(v, n);
    lemma_sums_fit(v, n - 1);
    assert(v.entry(n - 1).bytes().len() == CHUNK_ENTRY_SIZE);
    if i == n - 1 {
        assert(v.entries(n).subrange(i * CHUNK_ENTRY_SIZE, (i + 1) * CHUNK_ENTRY_SIZE) =~= v.entry(
            i,
        ).bytes());
    } else {
        lemma_entries_keep_entry(v, i, n - 1);
        assert(v.entries(n).subrange(i * CHUNK_ENTRY_SIZE, (i + 1) * CHUNK_ENTRY_SIZE)
            =~= v.entries(n - 1).subrange(i * CHUNK_ENTRY_SIZE, (i + 1) * CHUNK_ENTRY_SIZE));
    }
}

/// Collects the chunks of a capture in the order in which their reads complete.
#[derive(Debug)]
pub struct IocpCaptureWriter {
    chunks: Vec<(CapturedChunk, Vec<u8>)>,
    record_size: u32,
    volume_letter: char,
    concurrency: u8,
    compress: bool,
    compression_level: i32,
    next_seq: u32,
}

impl View for IocpCaptureWriter {
    type V = CaptureView;

    closed spec fn view(&self) -> CaptureView {
        CaptureView {
            record_size: self.record_size,
            options: IocpCaptureOptions {
                compress: self.compress,
                compression_level: self.compression_level,
                volume_letter: self.volume_letter,
                concurrency: self.concurrency,
            },
            chunks: Seq::new(
                self.chunks@.len(),
                |i: int| (self.chunks@[i].0.start_frs, self.chunks@[i].1@),
            ),
        }
    }
}

impl IocpCaptureWriter {
    /// The entries agree with the chunks they describe.
    pub closed spec fn wf(self) -> bool {
        &&& self.next_seq == self.chunks@.len()
        &&& self.chunks@.len() > 0 ==> self.record_size > 0
        &&& forall|i: int|
            0 <= i < self.chunks@.len() ==> (#[trigger] self.chunks@[i]).0 == (CapturedChunk {
                data_offset: 0,
                ..self@.entry(i)
            })
    }

    /// A capture without chunks.
    pub fn new(record_size: u32, options: &IocpCaptureOptions) -> (r: IocpCaptureWriter)
        ensures
            r.wf(),
            r@ == (CaptureView { record_size, options: *options, chunks: Seq::empty() }),
            r@.fits(),
    {
        let w: IocpCaptureWriter = IocpCaptureWriter {
            chunks: Vec::new(),
            record_size,
            volume_letter: options.volume_letter,
            concurrency: options.concurrency,
            compress: options.compress,
            compression_level: options.compression_level,
            next_seq: 0,
        };
        assert(w@.chunks =~= Seq::empty());
        w
    }

    /// Adds the chunk whose read has just completed.
    pub fn record_chunk(&mut self, start_frs: u64, data: Vec<u8>)
        requires
            old(self).wf(),
            old(self)@.record_size > 0,
            old(self)@.chunks.len() < u32::MAX,
        ensures
            final(self).wf(),
            final(self)@ == (CaptureView {
                chunks: old(self)@.chunks.push((start_frs, data@)),
                ..old(self)@
            }),
            old(self)@.fits() && data@.len() <= u32::MAX ==> final(self)@.fits(),
    {
        let ghost before = self@;
        let ghost bytes = data@;
        let record_count: u32 = (data.len() / self.record_size as usize) as u32;
        let chunk: CapturedChunk = CapturedChunk {
            completion_seq: self.next_seq,
            start_frs,
            record_count,
            data_offset: 0,
            data_size: data.len() as u32,
        };
        self.chunks.push((chunk, data));
        self.next_seq += 1;
        assert(self@.chunks =~= before.chunks.push((start_frs, bytes)));
        assert forall|i: int| 0 <= i < self.chunks@.len() implies (#[trigger] self.chunks@[i]).0 == (
        CapturedChunk { data_offset: 0, ..self@.entry(i) }) by {
            if i < before.chunks.len() {
                assert(self@.chunks[i] == before.chunks[i]);
            }
        }
    }

    /// The number of chunks captured so far.
    pub fn chunk_count(&self) -> (r: usize)
        ensures
            r == self@.chunks.len(),
    {
        self.chunks.len()
    }

    /// The data of all chunks, one after the other.
    fn concatenated(&self) -> (r: Vec<u8>)
        requires
            self.wf(),
        ensures
            r@ == self@.data(self@.chunks.len() as int),
    {
        let mut out: Vec<u8> = Vec::new();
        let n: usize = self.chunks.len();
        let mut i: usize = 0;
        while i < n
            invariant
                i <= n,
                n == self.chunks@.len(),
                out@ == self@.data(i as int),
            decreases n - i,
        {
            assert(self@.chunks[i as int].1 == self.chunks@[i as int].1@);
            out.extend_from_slice(self.chunks[i].1.as_slice());
            i += 1;
            assert(out@ =~= self@.data(i as int));
        }
        out
    }

    /// Puts the capture file together, given its chunk data as it is stored.
    pub fn assemble(&self, payload: &[u8]) -> (r: (IocpCaptureHeader, Vec<u8>))
        requires
            self.wf(),
            self@.offset(self@.chunks.len() as int) <= u64::MAX,
        ensures
            r.0 == self@.header(),
            r.1@ == self@.file(payload@),
    {
        let n: usize = self.chunks.len();
        assert(n <= u32::MAX);
        let mut entries: Vec<u8> = Vec::new();
        let mut data_offset: u64 = 0;
        let mut total_records: u64 = 0;
        let mut i: usize = 0;
        while i < n
            invariant
                i <= n,
                n == self.chunks@.len(),
                n <= u32::MAX,
                self.wf(),
                self@.offset(n as int) <= u64::MAX,
                data_offset == self@.offset(i as int),
                total_records == self@.records(i as int),
                entries@ == self@.entries(i as int),
            decreases n - i,
        {
            proof {
                lemma_sums_grow(self@, i as int, n as int);
                lemma_sums_grow(self@, i + 1, n as int);
                lemma_sums_grow(self@, i as int, i + 1);
                assert(self@.chunks[i as int].1 == self.chunks@[i as int].1@);
                assert(self.chunks@[i as int].0 == (CapturedChunk {
                    data_offset: 0,
                    ..self@.entry(i as int)
                }));
            }
            let chunk: CapturedChunk = self.chunks[i].0;
            let placed: CapturedChunk = CapturedChunk {
                completion_seq: chunk.completion_seq,
                start_frs: chunk.start_frs,
                record_count: chunk.record_count,
                data_offset,
                data_size: chunk.data_size,
            };
            assert(placed == self@.entry(i as int));
            let entry: [u8; CHUNK_ENTRY_SIZE] = placed.to_bytes();
            entries.extend_from_slice(entry.as_slice());
            data_offset = data_offset + self.chunks[i].1.len() as u64;
            total_records = total_records + chunk.record_count as u64;
            i += 1;
            assert(entries@ =~= self@.entries(i as int));
        }
        let header: IocpCaptureHeader = IocpCaptureHeader {
            version: VERSION,
            flags: if self.compress {
                FLAG_COMPRESSED
            } else {
                0
            },
            record_size: self.record_size,
            chunk_count: n as u32,
            total_records,
            total_data_size: data_offset,
            volume_letter: self.volume_letter,
            concurrency: self.concurrency,
        };
        let head: [u8; HEADER_SIZE] = header.to_bytes();
        let mut file: Vec<u8> = Vec::new();
        file.extend_from_slice(head.as_slice());
        file.extend_from_slice(entries.as_slice());
        file.extend_from_slice(payload);
        assert(file@ =~= self@.file(payload@));
        (header, file)
    }

    /// Makes the capture file. What it holds can be read back, if its numbers
    /// fit: the same chunks, in the same order, with the same bytes.
    pub fn write_to_bytes(&self) -> (r: Result<(IocpCaptureHeader, Vec<u8>), MftError>)
        requires
            self.wf(),
            self@.fits() || self@.offset(self@.chunks.len() as int) <= u64::MAX,
        ensures
            ({
                let n = self@.chunks.len() as int;
                let payload = if self@.options.compress {
                    crate::codec::zstd_frame(self@.data(n), self@.options.compression_level)
                } else {
                    Some(self@.data(n))
                };
                match payload {
                    Some(p) => r is Ok && r->Ok_0.0 == self@.header() && r->Ok_0.1@ == self@.file(
                        p,
                    ),
                    None => r == Err::<(IocpCaptureHeader, Vec<u8>), MftError>(
                        MftError::Io(IoFault::Codec),
                    ),
                }
            }),
            r is Ok && self@.fits() ==> capture_content(r->Ok_0.1@) == Ok::<CaptureContent, MftError>(
                read_back(self@),
            ),
    {
        let data: Vec<u8> = self.concatenated();
        proof {
            if self@.fits() {
                lemma_sums_fit(self@, self@.chunks.len() as int);
            }
        }
        if self.compress {
            match zstd_encode(data.as_slice(), self.compression_level) {
                Ok(frame) => {
                    proof {
                        if self@.fits() {
                            lemma_file_reads_back(self@, frame@);
                        }
                    }
                    Ok(self.assemble(frame.as_slice()))
                },
                Err(_) => Err(MftError::Io(IoFault::Codec)),
            }
        } else {
            proof {
                if self@.fits() {
                    lemma_file_reads_back(self@, data@);
                }
            }
            Ok(self.assemble(data.as_slice()))
        }
    }
}

/// What a capture file holds.
#[verifier::ext_equal]
pub struct CaptureContent {
    pub header: IocpCaptureHeader,
    pub chunks: Seq<CapturedChunk>,
    pub data: Seq<u8>,
}

impl CaptureContent {
    /// The bytes of chunk `i`; empty where its entry leaves the chunk data.
    pub open spec fn chunk_data(self, i: int) -> Seq<u8> {
        let c = self.chunks[i];
        if c.data_offset + c.data_size <= self.data.len() {
            self.data.subrange(c.data_offset as int, c.data_offset + c.data_size)
        } else {
            Seq::empty()
        }
    }
}

/// Reads a capture file: the header, the entries, and the chunk data, which is
/// decompressed where the header says so.
pub open spec fn capture_content(b: Seq<u8>) -> Result<CaptureContent, MftError> {
    if b.len() < HEADER_SIZE {
        Err(MftError::Io(IoFault::UnexpectedEof))
    } else {
        match IocpCaptureHeader::read(b) {
            Err(e) => Err(e),
            Ok(header) => {
                let start = HEADER_SIZE + CHUNK_ENTRY_SIZE * header.chunk_count;
                if b.len() < start {
                    Err(MftError::Io(IoFault::UnexpectedEof))
                } else {
                    let chunks = Seq::new(
                        header.chunk_count as nat,
                        |i: int| CapturedChunk::read(b, HEADER_SIZE + CHUNK_ENTRY_SIZE * i),
                    );
                    let stored = b.skip(start);
                    if !flag_set(header.flags) {
                        Ok(CaptureContent { header, chunks, data: stored })
                    } else {
                        match crate::codec::zstd_content(stored) {
                            Some(data) => Ok(CaptureContent { header, chunks, data }),
                            None => Err(MftError::Io(IoFault::Codec)),
                        }
                    }
                }
            },
        }
    }
}

/// What reading the file of a capture gives.
pub open spec fn read_back(v: CaptureView) -> CaptureContent {
    CaptureContent {
        header: IocpCaptureHeader {
            volume_letter: byte_letter(letter_byte(v.options.volume_letter)),
            ..v.header()
        },
        chunks: Seq::new(v.chunks.len(), |i: int| v.entry(i)),
        data: v.data(v.chunks.len() as int),
    }
}

proof fn lemma_read_prefix(b: Seq<u8>, h: IocpCaptureHeader, rest: Seq<u8>)
    requires
        b == h.bytes() + rest,
    ensures
        IocpCaptureHeader::read(b) == IocpCaptureHeader::read(h.bytes()),
{
    let hb = h.bytes();
    assert(hb.len() == HEADER_SIZE);
    assert(b.subrange(0, 9) =~= hb.subrange(0, 9));
    assert forall|i: int| 0 <= i < HEADER_SIZE implies #[trigger] b[i] == hb[i] by {}
}

proof fn lemma_file_reads_back(v: CaptureView, payload: Seq<u8>)
    requires
        v.fits(),
        v.options.compress ==> crate::codec::zstd_content(payload) == Some(
            v.data(v.chunks.len() as int),
        ),
        !v.options.compress ==> payload == v.data(v.chunks.len() as int),
    ensures
        capture_content(v.file(payload)) == Ok::<CaptureContent, MftError>(read_back(v)),
{
    let n = v.chunks.len() as int;
    let b = v.file(payload);
    let h = v.header();
    lemma_sums_fit(v, n);
    assert(h.bytes().len() == HEADER_SIZE);
    assert(b =~= h.bytes() + (v.entries(n) + payload));
    lemma_read_prefix(b, h, v.entries(n) + payload);
    law_header_round_trip(h);
    let start = HEADER_SIZE + CHUNK_ENTRY_SIZE * n;
    assert(b.skip(start) =~= payload);
    assert(Seq::new(n as nat, |i: int| CapturedChunk::read(b, HEADER_SIZE + CHUNK_ENTRY_SIZE * i))
        =~= read_back(v).chunks) by {
        assert forall|i: int| 0 <= i < n implies #[trigger] CapturedChunk::read(
            b,
            HEADER_SIZE + CHUNK_ENTRY_SIZE * i,
        ) == v.entry(i) by {
            lemma_entries_keep_entry(v, i, n);
            let off = HEADER_SIZE + CHUNK_ENTRY_SIZE * i;
            assert(b.subrange(off, off + CHUNK_ENTRY_SIZE) =~= v.entries(n).subrange(
                i * CHUNK_ENTRY_SIZE,
                (i + 1) * CHUNK_ENTRY_SIZE,
            ));
            lemma_chunk_reads_back(b, off, v.entry(i));
        }
    }
}

/// The bytes of every chunk come back from a capture as they went in, in the
/// order in which the reads completed.
pub proof fn law_chunks_come_back(v: CaptureView, i: int)
    requires
        v.fits(),
        0 <= i < v.chunks.len(),
    ensures
        read_back(v).chunks[i].completion_seq == i,
        read_back(v).chunks[i].start_frs == v.chunks[i].0,
        read_back(v).chunk_data(i) == v.chunks[i].1,
        read_back(v).chunks[i].data_size == v.chunks[i].1.len(),
        v.record_size > 0 ==> read_back(v).chunks[i].record_count == v.chunks[i].1.len() / (
        v.record_size as nat),
{
    if v.record_size > 0 {
        lemma_few_records(v, i);
    }
    lemma_data_keeps_chunks(v, i, v.chunks.len() as int);
    lemma_sums_fit(v, i);
}

/// The capture after more chunks were recorded, one call each.
pub open spec fn recorded(v: CaptureView, calls: Seq<(u64, Seq<u8>)>) -> CaptureView
    decreases calls.len(),
{
    if calls.len() == 0 {
        v
    } else {
        let before = recorded(v, calls.drop_last());
        CaptureView { chunks: before.chunks.push(calls.last()), ..before }
    }
}

/// Every chunk that is recorded is kept and counted, whatever its first record
/// and its bytes are: after `k` calls there are `k` chunks more, and they are
/// those of the calls, in their order.
pub proof fn law_every_chunk_counts(v: CaptureView, calls: Seq<(u64, Seq<u8>)>)
    ensures
        recorded(v, calls).chunks.len() == v.chunks.len() + calls.len(),
        recorded(v, calls) == (CaptureView { chunks: v.chunks + calls, ..v }),
    decreases calls.len(),
{
    if calls.len() == 0 {
        assert(v.chunks + calls =~= v.chunks);
    } else {
        law_every_chunk_counts(v, calls.drop_last());
        assert(v.chunks + calls =~= (v.chunks + calls.drop_last()).push(calls.last()));
    }
}

/// A capture file in memory, its chunk data decompressed.
#[derive(Debug)]
pub struct IocpCaptureData {
    /// The header.
    pub header: IocpCaptureHeader,
    /// The entries, in the order of completion.
    pub chunks: Vec<CapturedChunk>,
    /// The chunk data.
    pub data: Vec<u8>,
}

impl View for IocpCaptureData {
    type V = CaptureContent;

    open spec fn view(&self) -> CaptureContent {
        CaptureContent { header: self.header, chunks: self.chunks@, data: self.data@ }
    }
}

/// A record and its number, cut out of chunk `i` of a capture.
pub open spec fn record_in_chunk(c: CaptureContent, i: int, j: int) -> (u64, Seq<u8>) {
    let rs = c.header.record_size as int;
    (
        ((c.chunks[i].start_frs + j) % 0x1_0000_0000_0000_0000) as u64,
        c.chunk_data(i).subrange(j * rs, (j + 1) * rs),
    )
}

/// How many of the records that the entry of chunk `i` counts its data holds.
pub open spec fn counted_records(c: CaptureContent, i: int) -> int {
    let rs = c.header.record_size as int;
    let count = c.chunks[i].record_count as int;
    if rs == 0 || c.chunk_data(i).len() / (rs as nat) >= count {
        count
    } else {
        c.chunk_data(i).len() as int / rs
    }
}

/// The records of the first `n` chunks of a capture, each with its number, in
/// the order in which the chunks were read.
pub open spec fn records_of_chunks(c: CaptureContent, n: int) -> Seq<(u64, Seq<u8>)>
    decreases n,
{
    if n <= 0 {
        Seq::empty()
    } else {
        records_of_chunks(c, n - 1) + Seq::new(
            counted_records(c, n - 1) as nat,
            |j: int| record_in_chunk(c, n - 1, j),
        )
    }
}

/// All whole records that the data of the first `n` chunks of a capture holds,
/// whatever the entries count, each with its number, in the order in which the
/// chunks were read.
pub open spec fn whole_records_of_chunks(c: CaptureContent, n: int) -> Seq<(u64, Seq<u8>)>
    decreases n,
{
    if n <= 0 {
        Seq::empty()
    } else {
        whole_records_of_chunks(c, n - 1) + Seq::new(
            c.chunk_data(n - 1).len() / (c.header.record_size as nat),
            |j: int| record_in_chunk(c, n - 1, j),
        )
    }
}

/// What numbered byte slices hold.
pub open spec fn slices_view(v: Seq<(u64, &[u8])>) -> Seq<(u64, Seq<u8>)> {
    Seq::new(v.len(), |i: int| (v[i].0, v[i].1@))
}

impl IocpCaptureData {
    /// The chunks with their bytes, in the order of completion. A chunk whose
    /// entry leaves the chunk data has no bytes.
    pub fn iter_chunks(&self) -> (r: Vec<(&CapturedChunk, &[u8])>)
        ensures
            r@.len() == self@.chunks.len(),
            forall|i: int|
                0 <= i < r@.len() ==> *(#[trigger] r@[i]).0 == self@.chunks[i] && r@[i].1@
                    == self@.chunk_data(i),
    {
        let n: usize = self.chunks.len();
        let mut out: Vec<(&CapturedChunk, &[u8])> = Vec::with_capacity(n);
        let mut i: usize = 0;
        while i < n
            invariant
                i <= n,
                n == self.chunks@.len(),
                out@.len() == i,
                forall|k: int|
                    0 <= k < i ==> *(#[trigger] out@[k]).0 == self@.chunks[k] && out@[k].1@
                        == self@.chunk_data(k),
            decreases n - i,
        {
            let data: &[u8] = self.data_of(i);
            out.push((&self.chunks[i], data));
            i += 1;
        }
        out
    }

    fn data_of(&self, i: usize) -> (r: &[u8])
        requires
            i < self@.chunks.len(),
        ensures
            r@ == self@.chunk_data(i as int),
    {
        let c: CapturedChunk = self.chunks[i];
        let end: u128 = c.data_offset as u128 + c.data_size as u128;
        if end <= self.data.len() as u128 {
            vstd::slice::slice_subrange(
                self.data.as_slice(),
                c.data_offset as usize,
                end as usize,
            )
        } else {
            let empty: &[u8] = vstd::slice::slice_subrange(self.data.as_slice(), 0, 0);
            assert(empty@ =~= Seq::empty());
            empty
        }
    }

    /// The size of a record.
    pub fn record_size(&self) -> (r: u32)
        ensures
            r == self@.header.record_size,
    {
        self.header.record_size
    }

    /// The letter of the captured volume.
    pub fn volume_letter(&self) -> (r: char)
        ensures
            r == self@.header.volume_letter,
    {
        self.header.volume_letter
    }

    /// The records of all chunks, each with its number, in the order in which
    /// the chunks were read. A chunk ends early where its data does.
    pub fn records_in_order(&self) -> (r: Vec<(u64, &[u8])>)
        ensures
            slices_view(r@) == records_of_chunks(self@, self@.chunks.len() as int),
    {
        let n: usize = self.chunks.len();
        let rs: u64 = self.header.record_size as u64;
        let mut out: Vec<(u64, &[u8])> = Vec::new();
        let mut i: usize = 0;
        assert(slices_view(out@) =~= records_of_chunks(self@, 0));
        while i < n
            invariant
                i <= n,
                n == self.chunks@.len(),
                rs == self.header.record_size,
                slices_view(out@) == records_of_chunks(self@, i as int),
            decreases n - i,
        {
            let data: &[u8] = self.data_of(i);
            let chunk: CapturedChunk = self.chunks[i];
            let count: u64 = chunk.record_count as u64;
            let mut j: u64 = 0;
            let ghost whole = counted_records(self@, i as int);
            let ghost base = records_of_chunks(self@, i as int);
            let len: u64 = data.len() as u64;
            proof {
                lemma_counted_records_fit(self@, i as int);
                assert((j + 1) * rs == rs) by (nonlinear_arith)
                    requires
                        j == 0,
                ;
                assert(base =~= base + Seq::new(
                    0,
                    |j: int| record_in_chunk(self@, i as int, j),
                ));
            }
            while j < count && (j + 1) * rs <= len
                invariant
                    i < n,
                    n == self.chunks@.len(),
                    rs == self.header.record_size,
                    chunk == self.chunks@[i as int],
                    count == chunk.record_count,
                    data@ == self@.chunk_data(i as int),
                    len == data@.len(),
                    whole == counted_records(self@, i as int),
                    0 <= j <= whole <= count,
                    j < count ==> (j < whole <==> (j + 1) * rs <= len),
                    0 <= (j + 1) * rs <= 0x1_0000_0000 * 0xFFFF_FFFF,
                    base == records_of_chunks(self@, i as int),
                    slices_view(out@) == base + Seq::new(
                        j as nat,
                        |j: int| record_in_chunk(self@, i as int, j),
                    ),
                decreases count - j,
            {
                assert(j * rs <= (j + 1) * rs) by (nonlinear_arith)
                    requires
                        0 <= j,
                        0 <= rs,
                ;
                let frs: u64 = chunk.start_frs.wrapping_add(j);
                let rec: &[u8] = vstd::slice::slice_subrange(
                    data,
                    (j * rs) as usize,
                    ((j + 1) * rs) as usize,
                );
                let ghost before = out@;
                out.push((frs, rec));
                assert((frs, rec@) == record_in_chunk(self@, i as int, j as int));
                j = j + 1;
                proof {
                    assert((j + 1) * rs <= 0x1_0000_0000 * 0xFFFF_FFFF) by (nonlinear_arith)
                        requires
                            0 <= j + 1 <= 0x1_0000_0000,
                            0 <= rs <= 0xFFFF_FFFF,
                    ;
                    if j < count {
                        lemma_record_fits(self@, i as int, j as int);
                    }
                    let f = |j: int| record_in_chunk(self@, i as int, j);
                    assert(Seq::new(j as nat, f) =~= Seq::new((j - 1) as nat, f).push(f(j - 1)));
                    assert(slices_view(out@) =~= slices_view(before).push((frs, rec@)));
                    assert(slices_view(out@) =~= base + Seq::new(j as nat, f));
                }
            }
            i += 1;
            assert(j == whole);
        }
        out
    }
    /// All whole records of the data of all chunks, each with its number, in the
    /// order in which the chunks were read.
    pub fn whole_records(&self) -> (r: Vec<(u64, &[u8])>)
        requires
            self@.header.record_size > 0,
        ensures
            slices_view(r@) == whole_records_of_chunks(self@, self@.chunks.len() as int),
    {
        let n: usize = self.chunks.len();
        let rs: u64 = self.header.record_size as u64;
        let mut out: Vec<(u64, &[u8])> = Vec::new();
        assert(slices_view(out@) =~= whole_records_of_chunks(self@, 0));
        for i in 0..n
            invariant
                n == self.chunks@.len(),
                rs == self.header.record_size,
                rs > 0,
                slices_view(out@) == whole_records_of_chunks(self@, i as int),
        {
            let data: &[u8] = self.data_of(i);
            let chunk: CapturedChunk = self.chunks[i];
            let len: u64 = data.len() as u64;
            let count: u64 = len / rs;
            let ghost base = whole_records_of_chunks(self@, i as int);
            let ghost f = |j: int| record_in_chunk(self@, i as int, j);
            assert(base =~= base + Seq::new(0, f));
            for j in 0..count
                invariant
                    i < n,
                    n == self.chunks@.len(),
                    rs == self.header.record_size,
                    rs > 0,
                    chunk == self.chunks@[i as int],
                    data@ == self@.chunk_data(i as int),
                    len == data@.len(),
                    count == len / rs,
                    f == (|j: int| record_in_chunk(self@, i as int, j)),
                    slices_view(out@) == base + Seq::new(j as nat, f),
            {
                assert(0 <= j * rs <= (j + 1) * rs <= len) by (nonlinear_arith)
                    requires
                        0 <= j < len / rs,
                        rs > 0,
                ;
                let frs: u64 = chunk.start_frs.wrapping_add(j);
                let rec: &[u8] = vstd::slice::slice_subrange(
                    data,
                    (j * rs) as usize,
                    ((j + 1) * rs) as usize,
                );
                let ghost before = out@;
                out.push((frs, rec));
                proof {
                    assert((frs, rec@) == f(j as int));
                    assert(Seq::new((j + 1) as nat, f) =~= Seq::new(j as nat, f).push(f(j as int)));
                    assert(slices_view(out@) =~= slices_view(before).push((frs, rec@)));
                    assert(slices_view(out@) =~= base + Seq::new((j + 1) as nat, f));
                }
            }
            assert(data@.len() / (self@.header.record_size as nat) == count);
        }
        out
    }
}

proof fn lemma_record_fits(c: CaptureContent, i: int, j: int)
    requires
        0 <= i < c.chunks.len(),
        0 <= j < c.chunks[i].record_count,
    ensures
        j < counted_records(c, i) <==> (j + 1) * c.header.record_size <= c.chunk_data(i).len(),
{
    let rs = c.header.record_size as int;
    let len = c.chunk_data(i).len() as int;
    if rs == 0 {
        assert((j + 1) * rs == 0) by (nonlinear_arith)
            requires
                rs == 0,
        ;
    } else {
        assert((j < len / rs) == ((j + 1) * rs <= len)) by (nonlinear_arith)
            requires
                rs > 0,
                len >= 0,
                j >= 0,
        ;
    }
}

proof fn lemma_counted_records_fit(c: CaptureContent, i: int)
    requires
        0 <= i < c.chunks.len(),
    ensures
        0 <= counted_records(c, i) <= c.chunks[i].record_count,
        c.chunks[i].record_count > 0 ==> (0 < counted_records(c, i) <==> c.header.record_size
            <= c.chunk_data(i).len()),
{
    let rs = c.header.record_size as int;
    let len = c.chunk_data(i).len() as int;
    if rs > 0 {
        assert(0 <= len / rs) by (nonlinear_arith)
            requires
                rs > 0,
                len >= 0,
        ;
    }
    if c.chunks[i].record_count > 0 {
        lemma_record_fits(c, i, 0);
    }
}

/// Where the entries of a capture count exactly the whole records that the data
/// of their chunks holds, both ways of taking its records give the same.
pub proof fn law_entries_count_the_whole_records(c: CaptureContent, n: int)
    requires
        c.header.record_size > 0,
        0 <= n <= c.chunks.len(),
        forall|i: int|
            0 <= i < n ==> (#[trigger] c.chunks[i]).record_count == c.chunk_data(i).len() / (
            c.header.record_size as nat),
    ensures
        records_of_chunks(c, n) == whole_records_of_chunks(c, n),
    decreases n,
{
    if n > 0 {
        law_entries_count_the_whole_records(c, n - 1);
        assert(c.chunks[n - 1].record_count == c.chunk_data(n - 1).len() / (
        c.header.record_size as nat));
    }
}

/// Whether some bytes are a capture file, to judge by their beginning.
pub fn is_iocp_capture(file: &[u8]) -> (r: bool)
    ensures
        r == crate::bytes::bytes_at(file@, 0, magic()),
{
    let m: [u8; 9] = magic_bytes();
    matches_at(file, 0, m.as_slice())
}

/// Reads the header and the entries of a capture file, and finds where its
/// chunk data begins.
pub fn parse_capture_index(file: &[u8]) -> (r: Result<
    (IocpCaptureHeader, Vec<CapturedChunk>, usize),
    MftError,
>)
    ensures
        match r {
            Ok((header, chunks, start)) => {
                &&& HEADER_SIZE <= file@.len()
                &&& IocpCaptureHeader::read(file@) == Ok::<IocpCaptureHeader, MftError>(header)
                &&& start == HEADER_SIZE + CHUNK_ENTRY_SIZE * header.chunk_count
                &&& start <= file@.len()
                &&& chunks@ == Seq::new(
                    header.chunk_count as nat,
                    |i: int| CapturedChunk::read(file@, HEADER_SIZE + CHUNK_ENTRY_SIZE * i),
                )
            },
            Err(e) => capture_content(file@) == Err::<CaptureContent, MftError>(e) && (file@.len()
                < HEADER_SIZE || IocpCaptureHeader::read(file@) is Err || file@.len() < HEADER_SIZE
                + CHUNK_ENTRY_SIZE * IocpCaptureHeader::read(file@)->Ok_0.chunk_count),
        },
{
    if file.len() < HEADER_SIZE {
        return Err(MftError::Io(IoFault::UnexpectedEof));
    }
    let header: IocpCaptureHeader = match IocpCaptureHeader::read_from(file) {
        Ok(h) => h,
        Err(e) => return Err(e),
    };
    let start: u64 = HEADER_SIZE as u64 + CHUNK_ENTRY_SIZE as u64 * header.chunk_count as u64;
    if (file.len() as u64) < start {
        return Err(MftError::Io(IoFault::UnexpectedEof));
    }
    let n: usize = header.chunk_count as usize;
    let mut chunks: Vec<CapturedChunk> = Vec::new();
    let mut i: usize = 0;
    while i < n
        invariant
            i <= n,
            n == header.chunk_count,
            start == HEADER_SIZE + CHUNK_ENTRY_SIZE * header.chunk_count,
            start <= file.len(),
            chunks@ == Seq::new(
                i as nat,
                |i: int| CapturedChunk::read(file@, HEADER_SIZE + CHUNK_ENTRY_SIZE * i),
            ),
        decreases n - i,
    {
        let c: CapturedChunk = CapturedChunk::read_at(file, HEADER_SIZE + CHUNK_ENTRY_SIZE * i);
        chunks.push(c);
        i += 1;
        assert(chunks@ =~= Seq::new(
            i as nat,
            |i: int| CapturedChunk::read(file@, HEADER_SIZE + CHUNK_ENTRY_SIZE * i),
        ));
    }
    Ok((header, chunks, start as usize))
}

/// Reads a capture file.
pub fn load_iocp_capture(file: &[u8]) -> (r: Result<IocpCaptureData, MftError>)
    ensures
        match (r, capture_content(file@)) {
            (Ok(d), Ok(c)) => d@ == c,
            (Err(e), Err(f)) => e == f,
            _ => false,
        },
{
    match parse_capture_index(file) {
        Err(e) => Err(e),
        Ok((header, chunks, start)) => {
            let stored: &[u8] = vstd::slice::slice_subrange(file, start, file.len());
            assert(stored@ =~= file@.skip(start as int));
            if header.is_compressed() {
                match zstd_decode(stored) {
                    Ok(data) => Ok(IocpCaptureData { header, chunks, data }),
                    Err(_) => Err(MftError::Io(IoFault::Codec)),
                }
            } else {
                let data: Vec<u8> = copy_range(stored, 0, stored.len());
                assert(data@ =~= stored@);
                Ok(IocpCaptureData { header, chunks, data })
            }
        },
    }
}

/// Where the fields of a header stand in a capture file.
#[verifier::spinoff_prover]
#[verifier::rlimit(40)]
pub proof fn law_header_layout(h: IocpCaptureHeader, i: int)
    ensures
        ({
            let b = h.bytes();
            &&& b.len() == 96
            &&& b.subrange(0, 9) == seq![
                'U' as u8,
                'F' as u8,
                'F' as u8,
                'S' as u8,
                '-' as u8,
                'I' as u8,
                'O' as u8,
                'C' as u8,
                'P' as u8,
            ]
            &&& crate::bytes::u32_at(b, 12) == h.version
            &&& crate::bytes::u32_at(b, 16) == h.flags
            &&& crate::bytes::u32_at(b, 20) == h.record_size
            &&& crate::bytes::u32_at(b, 24) == h.chunk_count
            &&& crate::bytes::u64_at(b, 28) == h.total_records
            &&& crate::bytes::u64_at(b, 36) == h.total_data_size
            &&& (h.volume_letter as int) < 256 ==> b[44] == h.volume_letter as int
            &&& b[45] == h.concurrency
            &&& 9 <= i < 12 || 46 <= i < 96 ==> b[i] == 0
        }),
{
    let b = h.bytes();
    assert(b.len() == HEADER_SIZE);
    assert(b.subrange(0, 9) =~= magic());
    assert(b.subrange(12, 16) =~= crate::bytes::le32(h.version));
    assert(b.subrange(16, 20) =~= crate::bytes::le32(h.flags));
    assert(b.subrange(20, 24) =~= crate::bytes::le32(h.record_size));
    assert(b.subrange(24, 28) =~= crate::bytes::le32(h.chunk_count));
    assert(b.subrange(28, 36) =~= crate::bytes::le64(h.total_records));
    assert(b.subrange(36, 44) =~= crate::bytes::le64(h.total_data_size));
    crate::bytes::lemma_le32_reads_back(b, 12, h.version);
    crate::bytes::lemma_le32_reads_back(b, 16, h.flags);
    crate::bytes::lemma_le32_reads_back(b, 20, h.record_size);
    crate::bytes::lemma_le32_reads_back(b, 24, h.chunk_count);
    crate::bytes::lemma_le64_reads_back(b, 28, h.total_records);
    crate::bytes::lemma_le64_reads_back(b, 36, h.total_data_size);
    assert(b[44] == letter_byte(h.volume_letter));
    assert(b[45] == h.concurrency);
}

/// Where the fields of an entry stand in a capture file.
#[verifier::spinoff_prover]
#[verifier::rlimit(40)]
pub proof fn law_entry_layout(c: CapturedChunk)
    ensures
        ({
            let b = c.bytes();
            &&& b.len() == 32
            &&& crate::bytes::u32_at(b, 0) == c.completion_seq
            &&& crate::bytes::u64_at(b, 4) == c.start_frs
            &&& crate::bytes::u32_at(b, 12) == c.record_count
            &&& crate::bytes::u64_at(b, 16) == c.data_offset
            &&& crate::bytes::u32_at(b, 24) == c.data_size
            &&& crate::bytes::u32_at(b, 28) == 0
        }),
{
    let b = c.bytes();
    assert(b.subrange(0, 4) =~= crate::bytes::le32(c.completion_seq));
    assert(b.subrange(4, 12) =~= crate::bytes::le64(c.start_frs));
    assert(b.subrange(12, 16) =~= crate::bytes::le32(c.record_count));
    assert(b.subrange(16, 24) =~= crate::bytes::le64(c.data_offset));
    assert(b.subrange(24, 28) =~= crate::bytes::le32(c.data_size));
    crate::bytes::lemma_le32_reads_back(b, 0, c.completion_seq);
    crate::bytes::lemma_le64_reads_back(b, 4, c.start_frs);
    crate::bytes::lemma_le32_reads_back(b, 12, c.record_count);
    crate::bytes::lemma_le64_reads_back(b, 16, c.data_offset);
    crate::bytes::lemma_le32_reads_back(b, 24, c.data_size);
}

/// Letters survive in a file, small ones as capitals; whatever is no letter
/// comes back as `X`.
pub proof fn law_letters_survive(c: char)
    ensures
        'A' <= c <= 'Z' ==> byte_letter(letter_byte(c)) == c,
        'a' <= c <= 'z' ==> byte_letter(letter_byte(c)) as int == c as int - 'a' as int + 'A' as int,
        c < 'A' || 'Z' < c < 'a' || 'z' < c <= '~' ==> byte_letter(letter_byte(c)) == 'X',
{
}

/// The header of a capture adds up its chunks: their number, all of their
/// records and all of their bytes.
pub proof fn law_captures_add_up(v: CaptureView, chunk: (u64, Seq<u8>))
    requires
        v.fits(),
        v.record_size > 0,
        v.chunks.len() < u32::MAX,
        chunk.1.len() <= u32::MAX,
    ensures
        ({
            let w = CaptureView { chunks: v.chunks.push(chunk), ..v };
            &&& w.header().chunk_count == v.header().chunk_count + 1
            &&& w.header().total_records == v.header().total_records + chunk.1.len() / (
            v.record_size as nat)
            &&& w.header().total_data_size == v.header().total_data_size + chunk.1.len()
            &&& w.header().record_size == v.record_size
            &&& w.header().version == VERSION
            &&& flag_set(w.header().flags) == v.options.compress
            &&& w.header().volume_letter == v.options.volume_letter
            &&& w.header().concurrency == v.options.concurrency
            &&& v.chunks.len() == 0 ==> v.header().total_records == 0 && v.header().total_data_size
                == 0
        }),
{
    let w = CaptureView { chunks: v.chunks.push(chunk), ..v };
    let n = v.chunks.len() as int;
    assert(w.fits()) by {
        assert forall|i: int| 0 <= i < w.chunks.len() implies (#[trigger] w.chunks[i]).1.len()
            <= u32::MAX by {
            if i < n {
                assert(w.chunks[i] == v.chunks[i]);
            }
        }
    }
    lemma_same_sums(v, w, n);
    lemma_sums_fit(v, n);
    lemma_sums_fit(w, n + 1);
    lemma_sums_grow(v, 0, n);
    lemma_sums_grow(w, 0, n + 1);
    assert(w.chunks[n] == chunk);
    lemma_few_records(w, n);
}

proof fn lemma_same_sums(v: CaptureView, w: CaptureView, i: int)
    requires
        0 <= i <= v.chunks.len() < w.chunks.len(),
        v.record_size == w.record_size,
        forall|j: int| 0 <= j < v.chunks.len() ==> #[trigger] w.chunks[j] == v.chunks[j],
    ensures
        v.offset(i) == w.offset(i),
        v.records(i) == w.records(i),
    decreases i,
{
    if i > 0 {
        lemma_same_sums(v, w, i - 1);
        assert(w.chunks[i - 1] == v.chunks[i - 1]);
    }
}

/// Record `j` of a chunk has the number of the chunk's first record and `j`
/// more, and its bytes stand `j` records into the chunk.
pub proof fn law_records_of_a_chunk(c: CaptureContent, i: int, j: int, k: int)
    requires
        0 <= i < c.chunks.len(),
        0 <= j,
        0 <= k < c.header.record_size,
        (j + 1) * c.header.record_size <= c.chunk_data(i).len(),
        c.chunks[i].start_frs + j <= u64::MAX,
    ensures
        record_in_chunk(c, i, j).0 == c.chunks[i].start_frs + j,
        record_in_chunk(c, i, j).1.len() == c.header.record_size,
        record_in_chunk(c, i, j).1[k] == c.chunk_data(i)[j * c.header.record_size + k],
{
    let s = c.header.record_size as int;
    assert((j + 1) * s == j * s + s && 0 <= j * s) by (nonlinear_arith)
        requires
            0 <= j,
            0 <= s,
    ;
}

/// The records of a chunk follow those of the chunks before it, and there are as
/// many as its entry counts, but no more than its data holds.
pub proof fn law_records_follow_the_chunks(c: CaptureContent, n: int, j: int)
    requires
        0 <= n < c.chunks.len(),
        c.header.record_size > 0,
    ensures
        counted_records(c, n) <= c.chunks[n].record_count,
        counted_records(c, n) * c.header.record_size <= c.chunk_data(n).len(),
        counted_records(c, n) == c.chunks[n].record_count || (counted_records(c, n) + 1)
            * c.header.record_size > c.chunk_data(n).len(),
        records_of_chunks(c, n + 1).take(records_of_chunks(c, n).len() as int)
            == records_of_chunks(c, n),
        0 <= counted_records(c, n),
        records_of_chunks(c, n + 1).len() == records_of_chunks(c, n).len() + counted_records(c, n),
        0 <= j < counted_records(c, n) ==> records_of_chunks(c, n + 1)[records_of_chunks(c, n).len()
            + j] == record_in_chunk(c, n, j),
{
    let s = c.header.record_size as int;
    let len = c.chunk_data(n).len() as int;
    let count = c.chunks[n].record_count as int;
    let q = len / s;
    assert(q * s <= len < (q + 1) * s && 0 <= q) by (nonlinear_arith)
        requires
            s > 0,
            len >= 0,
            q == len / s,
    ;
    assert(q >= count ==> count * s <= q * s) by (nonlinear_arith)
        requires
            s > 0,
    ;
    let before = records_of_chunks(c, n);
    let after = records_of_chunks(c, n + 1);
    assert(after.take(before.len() as int) =~= before);
}

/// A chunk's bytes are those of its entry; one that leaves the data has none.
pub proof fn law_chunk_bytes(c: CaptureContent, i: int, k: int)
    requires
        0 <= i < c.chunks.len(),
        0 <= k < c.chunk_data(i).len(),
    ensures
        c.chunk_data(i).len() == c.chunks[i].data_size,
        c.chunk_data(i)[k] == c.data[c.chunks[i].data_offset + k],
        c.chunks[i].data_offset + c.chunks[i].data_size <= c.data.len(),
{
}

/// The lowest bit of the flags marks compressed data, whatever the others say.
pub proof fn law_lowest_flag_marks_compressed_data(flags: u32)
    ensures
        flag_set(flags) <==> flags & 1 != 0,
{
    assert((flags & 1 != 0) == (flags % 2 == 1)) by (bit_vector);
}

/// A capture of a version that is not known is refused.
pub proof fn law_capture_versions(b: Seq<u8>)
    requires
        crate::bytes::bytes_at(b, 0, magic()),
    ensures
        IocpCaptureHeader::read(b) is Ok <==> crate::bytes::u32_at(b, 12) <= 1,
        IocpCaptureHeader::read(b) matches Err(e) ==> e == MftError::InvalidData(
            DataFault::CaptureVersion(crate::bytes::u32_at(b, 12)),
        ),
{
}

/// A capture file that ends within its header or its entries is refused; else,
/// if it is not compressed, its chunk data is everything behind its entries.
pub proof fn law_capture_files_are_whole(b: Seq<u8>)
    requires
        crate::bytes::bytes_at(b, 0, magic()),
        b.len() >= 96,
        crate::bytes::u32_at(b, 12) <= 1,
        crate::bytes::u32_at(b, 16) % 2 == 0,
    ensures
        capture_content(b) is Ok <==> b.len() >= 96 + 32 * crate::bytes::u32_at(b, 24),
        capture_content(b) matches Ok(c) ==> c.chunks.len() == crate::bytes::u32_at(b, 24)
            && c.data == b.skip(96 + 32 * crate::bytes::u32_at(b, 24)),
{
}

/// A capture file that is shorter than its header is refused, and so is one whose
/// data is marked as compressed and cannot be decompressed.
pub proof fn law_damaged_captures_are_refused(b: Seq<u8>)
    ensures
        b.len() < 96 ==> capture_content(b) == Err::<CaptureContent, MftError>(
            MftError::Io(IoFault::UnexpectedEof),
        ),
        b.len() >= 96 + 32 * crate::bytes::u32_at(b, 24) && crate::bytes::bytes_at(b, 0, magic())
            && crate::bytes::u32_at(b, 12) <= 1 && crate::bytes::u32_at(b, 16) % 2 == 1
            && crate::codec::zstd_content(b.skip(96 + 32 * crate::bytes::u32_at(b, 24))) is None
            ==> capture_content(b) == Err::<CaptureContent, MftError>(MftError::Io(IoFault::Codec)),
{
}

} // verus!
