//! Saved tables.
//!
//! A saved table is a header followed by the raw records, which may be
//! compressed. Bare records without any header, and captures in completion
//! order, can be loaded too.

use crate::bytes::{copy_range, matches_at, put_bytes, put_u32, put_u64, put_u8, read_u32, read_u64};
use crate::codec::{zstd_decode, zstd_encode};
use crate::error::{DataFault, IoFault, MftError};
use crate::raw_iocp::{
    byte_to_letter, has_flag, letter_to_byte, load_iocp_capture, CapturedChunk, IocpCaptureData,
};
use vstd::prelude::*;

pub mod streaming_writer;

pub use self::streaming_writer::StreamingRawMftWriter;

verus! {

broadcast use crate::bytes::group_le_len;

/// The version that is written. Version 2 added the volume letter.
pub const VERSION: u32 = 2;

/// The flag of compressed data.
pub const FLAG_COMPRESSED: u32 = 1;

/// Size of the header.
pub const HEADER_SIZE: usize = 64;

/// The usual size of a record.
pub const DEFAULT_RECORD_SIZE: u32 = 1024;

/// The bytes `UFFS-MFT`.
pub open spec fn magic() -> Seq<u8> {
    seq![0x55u8, 0x46u8, 0x46u8, 0x53u8, 0x2Du8, 0x4Du8, 0x46u8, 0x54u8]
}

/// The bytes `UFFS-IOC`, with which a capture begins.
pub open spec fn capture_magic() -> Seq<u8> {
    seq![0x55u8, 0x46u8, 0x46u8, 0x53u8, 0x2Du8, 0x49u8, 0x4Fu8, 0x43u8]
}

/// The bytes `FILE`, with which a record begins.
pub open spec fn record_magic() -> Seq<u8> {
    seq![0x46u8, 0x49u8, 0x4Cu8, 0x45u8]
}

/// The header of a saved table.
#[derive(Debug, Clone, Copy, PartialEq, Eq, Structural)]
pub struct RawMftHeader {
    /// Format version; 0 for bare records.
    pub version: u32,
    /// Flags; the lowest bit marks compressed data.
    pub flags: u32,
    /// Size of a record.
    pub record_size: u32,
    /// Number of records.
    pub record_count: u64,
    /// Size of the data before compression.
    pub original_size: u64,
    /// Size of the compressed data, 0 if it is not compressed.
    pub compressed_size: u64,
    /// Letter of the volume, `X` where it is not known.
    pub volume_letter: char,
}

impl RawMftHeader {
    /// The bytes of the header.
    pub open spec fn bytes(self) -> Seq<u8> {
        magic() + crate::bytes::le32(self.version) + crate::bytes::le32(self.flags)
            + crate::bytes::le32(self.record_size) + crate::bytes::le64(self.record_count)
            + crate::bytes::le64(self.original_size) + crate::bytes::le64(self.compressed_size)
            + seq![crate::raw_iocp::letter_byte(self.volume_letter)] + crate::bytes::zeros(19)
    }

    /// The volume letter that a header of some version holds at its place.
    pub open spec fn letter(version: u32, b: u8) -> char {
        if version >= 2 {
            crate::raw_iocp::byte_letter(b)
        } else {
            'X'
        }
    }

    /// The header that some bytes hold.
    pub open spec fn read(b: Seq<u8>) -> Result<RawMftHeader, MftError> {
        if !crate::bytes::bytes_at(b, 0, magic()) {
            Err(MftError::InvalidData(DataFault::RawMagic))
        } else if crate::bytes::u32_at(b, 8) > VERSION {
            Err(MftError::InvalidData(DataFault::RawVersion(crate::bytes::u32_at(b, 8))))
        } else {
            Ok(
                RawMftHeader {
                    version: crate::bytes::u32_at(b, 8),
                    flags: crate::bytes::u32_at(b, 12),
                    record_size: crate::bytes::u32_at(b, 16),
                    record_count: crate::bytes::u64_at(b, 20),
                    original_size: crate::bytes::u64_at(b, 28),
                    compressed_size: crate::bytes::u64_at(b, 36),
                    volume_letter: RawMftHeader::letter(crate::bytes::u32_at(b, 8), b[44]),
                },
            )
        }
    }

    /// Whether the data is compressed.
    pub fn is_compressed(&self) -> (r: bool)
        ensures
            r == crate::raw_iocp::flag_set(self.flags),
    {
        has_flag(self.flags)
    }

    /// Writes the header.
    pub fn to_bytes(&self) -> (r: [u8; HEADER_SIZE])
        ensures
            r@ == self.bytes(),
    {
        let mut buf: [u8; HEADER_SIZE] = [0u8; HEADER_SIZE];
        let m: [u8; 8] = [0x55, 0x46, 0x46, 0x53, 0x2D, 0x4D, 0x46, 0x54];
        assert(m@ =~= magic());
        put_bytes(&mut buf, 0, m.as_slice());
        put_u32(&mut buf, 8, self.version);
        put_u32(&mut buf, 12, self.flags);
        put_u32(&mut buf, 16, self.record_size);
        put_u64(&mut buf, 20, self.record_count);
        put_u64(&mut buf, 28, self.original_size);
        put_u64(&mut buf, 36, self.compressed_size);
        put_u8(&mut buf, 44, letter_to_byte(self.volume_letter));
        assert(buf@ =~= self.bytes());
        buf
    }

    /// Reads a header.
    pub fn from_bytes(buf: &[u8; HEADER_SIZE]) -> (r: Result<RawMftHeader, MftError>)
        ensures
            r == RawMftHeader::read(buf@),
    {
        RawMftHeader::read_from(buf.as_slice())
    }

    fn read_from(s: &[u8]) -> (r: Result<RawMftHeader, MftError>)
        requires
            HEADER_SIZE <= s@.len(),
        ensures
            r == RawMftHeader::read(s@),
    {
        if !has_magic(s) {
            return Err(MftError::InvalidData(DataFault::RawMagic));
        }
        let version: u32 = read_u32(s, 8);
        if version > VERSION {
            return Err(MftError::InvalidData(DataFault::RawVersion(version)));
        }
        let volume_letter: char = if version >= 2 {
            byte_to_letter(s[44])
        } else {
            'X'
        };
        Ok(
            RawMftHeader {
                version,
                flags: read_u32(s, 12),
                record_size: read_u32(s, 16),
                record_count: read_u64(s, 20),
                original_size: read_u64(s, 28),
                compressed_size: read_u64(s, 36),
                volume_letter,
            },
        )
    }
}

fn has_magic(s: &[u8]) -> (r: bool)
    ensures
        r == crate::bytes::bytes_at(s@, 0, magic()),
{
    let m: [u8; 8] = [0x55, 0x46, 0x46, 0x53, 0x2D, 0x4D, 0x46, 0x54];
    assert(m@ =~= magic());
    matches_at(s, 0, m.as_slice())
}

/// A header that was written can be read back; only a volume letter that is no
/// upper-case ASCII letter, or that the version has no place for, does not
/// survive.
pub proof fn law_header_round_trip(h: RawMftHeader)
    requires
        h.version <= VERSION,
    ensures
        RawMftHeader::read(h.bytes()) == Ok::<RawMftHeader, MftError>(
            RawMftHeader {
                volume_letter: RawMftHeader::letter(
                    h.version,
                    crate::raw_iocp::letter_byte(h.volume_letter),
                ),
                ..h
            },
        ),
        h.version == 2 && 'A' <= h.volume_letter <= 'Z' ==> RawMftHeader::read(h.bytes()) == Ok::<
            RawMftHeader,
            MftError,
        >(h),
{
    let b = h.bytes();
    assert(b.len() == HEADER_SIZE);
    assert(b.subrange(0, 8) =~= magic());
    assert(b.subrange(8, 12) =~= crate::bytes::le32(h.version));
    assert(b.subrange(12, 16) =~= crate::bytes::le32(h.flags));
    assert(b.subrange(16, 20) =~= crate::bytes::le32(h.record_size));
    assert(b.subrange(20, 28) =~= crate::bytes::le64(h.record_count));
    assert(b.subrange(28, 36) =~= crate::bytes::le64(h.original_size));
    assert(b.subrange(36, 44) =~= crate::bytes::le64(h.compressed_size));
    crate::bytes::lemma_le32_reads_back(b, 8, h.version);
    crate::bytes::lemma_le32_reads_back(b, 12, h.flags);
    crate::bytes::lemma_le32_reads_back(b, 16, h.record_size);
    crate::bytes::lemma_le64_reads_back(b, 20, h.record_count);
    crate::bytes::lemma_le64_reads_back(b, 28, h.original_size);
    crate::bytes::lemma_le64_reads_back(b, 36, h.compressed_size);
    assert(b[44] == crate::raw_iocp::letter_byte(h.volume_letter));
}

/// How a table is saved.
#[derive(Debug, Clone, Copy, PartialEq, Eq, Structural)]
pub struct SaveRawOptions {
    /// Whether the data is compressed.
    pub compress: bool,
    /// Compression level, 1 to 22.
    pub compression_level: i32,
    /// Letter of the volume.
    pub volume_letter: char,
    /// Whether the file has no header and holds nothing but the bare records,
    /// uncompressed.
    pub raw_compat: bool,
}

impl Default for SaveRawOptions {
    fn default() -> (r: SaveRawOptions)
        ensures
            r == (SaveRawOptions {
                compress: true,
                compression_level: 3,
                volume_letter: 'X',
                raw_compat: false,
            }),
    {
        SaveRawOptions {
            compress: true,
            compression_level: 3,
            volume_letter: 'X',
            raw_compat: false,
        }
    }
}

/// How a saved table is loaded.
#[derive(Debug, Clone, Copy, PartialEq, Eq, Structural)]
pub struct LoadRawOptions {
    /// Whether only the header is wanted.
    pub header_only: bool,
    /// The volume letter to give to data that names none, or to a capture.
    pub volume_letter: Option<char>,
    /// Whether deleted, corrupt and extension records are wanted too.
    pub forensic: bool,
}

impl Default for LoadRawOptions {
    fn default() -> (r: LoadRawOptions)
        ensures
            r == (LoadRawOptions { header_only: false, volume_letter: None, forensic: false }),
    {
        LoadRawOptions { header_only: false, volume_letter: None, forensic: false }
    }
}

/// A table in memory, decompressed.
#[derive(Debug)]
pub struct RawMftData {
    /// The header.
    pub header: RawMftHeader,
    /// The records.
    pub data: Vec<u8>,
}

/// What a loaded table holds.
#[verifier::ext_equal]
pub struct RawContent {
    pub header: RawMftHeader,
    pub data: Seq<u8>,
}

impl View for RawMftData {
    type V = RawContent;

    open spec fn view(&self) -> RawContent {
        RawContent { header: self.header, data: self.data@ }
    }
}

impl RawContent {
    /// Record number `frs`.
    pub open spec fn record(self, frs: int) -> Seq<u8> {
        self.data.subrange(frs * self.header.record_size, (frs + 1) * self.header.record_size)
    }
}

impl RawMftData {
    /// The number of records.
    pub fn record_count(&self) -> (r: u64)
        ensures
            r == self@.header.record_count,
    {
        self.header.record_count
    }

    /// The size of a record.
    pub fn record_size(&self) -> (r: u32)
        ensures
            r == self@.header.record_size,
    {
        self.header.record_size
    }

    /// Record number `frs`, unless it lies beyond the data.
    pub fn get_record(&self, frs: u64) -> (r: Option<&[u8]>)
        ensures
            r is Some <==> (frs + 1) * self@.header.record_size <= self@.data.len(),
            r matches Some(rec) ==> rec@ == self@.record(frs as int),
    {
        let rs: u128 = self.header.record_size as u128;
        proof {
            assert(0 <= frs * rs <= (frs + 1) * rs <= 0x1_0000_0000_0000_0000 * 0xFFFF_FFFF)
                by (nonlinear_arith)
                requires
                    0 <= frs <= 0xFFFF_FFFF_FFFF_FFFF,
                    0 <= rs <= 0xFFFF_FFFF,
            ;
        }
        let start: u128 = frs as u128 * rs;
        let end: u128 = (frs as u128 + 1) * rs;
        if end <= self.data.len() as u128 {
            Some(
                vstd::slice::slice_subrange(self.data.as_slice(), start as usize, end as usize),
            )
        } else {
            None
        }
    }

    /// All records with their numbers. Bytes after the last whole record are
    /// left out.
    pub fn iter_records(&self) -> (r: Vec<(u64, &[u8])>)
        requires
            self@.header.record_size > 0,
        ensures
            r@.len() == self@.data.len() / (self@.header.record_size as nat),
            forall|i: int|
                0 <= i < r@.len() ==> (#[trigger] r@[i]).0 == i && r@[i].1@ == self@.record(i),
    {
        let rs: usize = self.header.record_size as usize;
        let n: usize = self.data.len() / rs;
        let mut out: Vec<(u64, &[u8])> = Vec::with_capacity(n);
        let mut i: usize = 0;
        while i < n
            invariant
                i <= n,
                rs == self.header.record_size,
                rs > 0,
                n == self.data@.len() as int / rs as int,
                self.data@.len() <= usize::MAX,
                out@.len() == i,
                forall|k: int|
                    0 <= k < i ==> (#[trigger] out@[k]).0 == k && out@[k].1@ == self@.record(k),
            decreases n - i,
        {
            let ghost len = self.data@.len() as int;
            assert(0 <= i * rs <= (i + 1) * rs <= len) by (nonlinear_arith)
                requires
                    0 <= i < n,
                    n == len / rs as int,
                    rs > 0,
                    len >= 0,
            ;
            let rec: &[u8] = vstd::slice::slice_subrange(
                self.data.as_slice(),
                i * rs,
                (i + 1) * rs,
            );
            out.push((i as u64, rec));
            i += 1;
        }
        out
    }
}

/// The header under which a table is saved.
pub open spec fn saved_header(
    original_size: u64,
    record_size: u32,
    volume_letter: char,
    compressed: Option<u64>,
) -> RawMftHeader {
    RawMftHeader {
        version: VERSION,
        flags: if compressed is Some {
            FLAG_COMPRESSED
        } else {
            0
        },
        record_size,
        record_count: original_size / (record_size as u64),
        original_size,
        compressed_size: match compressed {
            Some(n) => n,
            None => 0,
        },
        volume_letter,
    }
}

/// The header that stands for a table whose file has none.
pub open spec fn bare_header(
    original_size: u64,
    record_size: u32,
    volume_letter: char,
) -> RawMftHeader {
    RawMftHeader { version: 0, ..saved_header(original_size, record_size, volume_letter, None) }
}

/// Puts the file of a saved table together, given its data as it is stored.
pub fn assemble_raw_file(
    original_size: u64,
    record_size: u32,
    volume_letter: char,
    compressed: bool,
    payload: &[u8],
) -> (r: (RawMftHeader, Vec<u8>))
    requires
        record_size > 0,
    ensures
        r.0 == saved_header(
            original_size,
            record_size,
            volume_letter,
            if compressed {
                Some(payload@.len() as u64)
            } else {
                None
            },
        ),
        r.1@ == r.0.bytes() + payload@,
{
    let header: RawMftHeader = RawMftHeader {
        version: VERSION,
        flags: if compressed {
            FLAG_COMPRESSED
        } else {
            0
        },
        record_size,
        record_count: original_size / record_size as u64,
        original_size,
        compressed_size: if compressed {
            payload.len() as u64
        } else {
            0
        },
        volume_letter,
    };
    let head: [u8; HEADER_SIZE] = header.to_bytes();
    let mut file: Vec<u8> = Vec::new();
    file.extend_from_slice(head.as_slice());
    file.extend_from_slice(payload);
    assert(file@ =~= header.bytes() + payload@);
    (header, file)
}

/// Makes the file of a table. A file without a header is the data itself. A
/// file with one, if the data holds whole records only, loads as the data, and
/// with a header that differs at most in a volume letter that is no upper-case
/// ASCII letter.
pub fn save_raw_mft(data: &[u8], record_size: u32, options: &SaveRawOptions) -> (r: Result<
    (RawMftHeader, Vec<u8>),
    MftError,
>)
    requires
        record_size > 0,
    ensures
        options.raw_compat ==> {
            &&& r is Ok
            &&& r->Ok_0.0 == bare_header(data@.len() as u64, record_size, options.volume_letter)
            &&& r->Ok_0.1@ == data@
        },
        !options.raw_compat ==> {
            let payload = if options.compress {
                crate::codec::zstd_frame(data@, options.compression_level)
            } else {
                Some(data@)
            };
            match payload {
                Some(p) => {
                    &&& r is Ok
                    &&& r->Ok_0.0 == saved_header(
                        data@.len() as u64,
                        record_size,
                        options.volume_letter,
                        if options.compress {
                            Some(p.len() as u64)
                        } else {
                            None
                        },
                    )
                    &&& r->Ok_0.1@ == r->Ok_0.0.bytes() + p
                },
                None => r == Err::<(RawMftHeader, Vec<u8>), MftError>(
                    MftError::Io(IoFault::Codec),
                ),
            }
        },
        !options.raw_compat && r is Ok && data@.len() % (record_size as nat) == 0 ==> forall|
            o: LoadRawOptions,
        |
            !o.header_only ==> #[trigger] raw_content(r->Ok_0.1@, o) == Ok::<RawContent, MftError>(
                RawContent {
                    header: RawMftHeader {
                        volume_letter: crate::raw_iocp::byte_letter(
                            crate::raw_iocp::letter_byte(options.volume_letter),
                        ),
                        ..r->Ok_0.0
                    },
                    data: data@,
                },
            ),
        options.raw_compat && bare_records(data@, record_size) ==> forall|o: LoadRawOptions|
            !o.header_only && o.volume_letter == Some(options.volume_letter)
                ==> #[trigger] raw_content(r->Ok_0.1@, o) == Ok::<RawContent, MftError>(
                RawContent { header: r->Ok_0.0, data: data@ },
            ),
{
    if options.raw_compat {
        let len: u64 = data.len() as u64;
        let header: RawMftHeader = RawMftHeader {
            version: 0,
            flags: 0,
            record_size,
            record_count: len / record_size as u64,
            original_size: len,
            compressed_size: 0,
            volume_letter: options.volume_letter,
        };
        let mut file: Vec<u8> = Vec::new();
        file.extend_from_slice(data);
        assert(file@ =~= data@);
        proof {
            lemma_bare_loads_back(data@, record_size, options.volume_letter);
        }
        return Ok((header, file));
    }
    if options.compress {
        match zstd_encode(data, options.compression_level) {
            Ok(frame) => {
                let out = assemble_raw_file(
                    data.len() as u64,
                    record_size,
                    options.volume_letter,
                    true,
                    frame.as_slice(),
                );
                proof {
                    lemma_saved_loads_back(out.0, frame@, data@);
                }
                Ok(out)
            },
            Err(_) => Err(MftError::Io(IoFault::Codec)),
        }
    } else {
        let out = assemble_raw_file(
            data.len() as u64,
            record_size,
            options.volume_letter,
            false,
            data,
        );
        proof {
            lemma_saved_loads_back(out.0, data@, data@);
        }
        Ok(out)
    }
}

/// Whole records without a header, of a size that the first of them gives.
pub open spec fn bare_records(data: Seq<u8>, record_size: u32) -> bool {
    &&& data.len() >= 8
    &&& crate::bytes::bytes_at(data, 0, record_magic())
    &&& record_size == detected_record_size(data)
    &&& data.len() % (record_size as nat) == 0
}

pub(crate) proof fn lemma_bare_loads_back(data: Seq<u8>, record_size: u32, volume_letter: char)
    requires
        data.len() <= u64::MAX,
    ensures
        bare_records(data, record_size) ==> forall|o: LoadRawOptions|
            !o.header_only && o.volume_letter == Some(volume_letter) ==> #[trigger] raw_content(
                data,
                o,
            ) == Ok::<RawContent, MftError>(
                RawContent {
                    header: bare_header(data.len() as u64, record_size, volume_letter),
                    data,
                },
            ),
{
    if bare_records(data, record_size) {
        let m = data.subrange(0, 4);
        assert(m[0] == 0x46u8 && data[0] == m[0]);
        if crate::bytes::bytes_at(data, 0, magic()) {
            assert(data.subrange(0, 8)[0] == 0x55u8);
        }
        if crate::bytes::bytes_at(data, 0, capture_magic()) {
            assert(data.subrange(0, 8)[0] == 0x55u8);
        }
    }
}

pub(crate) proof fn lemma_saved_loads_back(h: RawMftHeader, payload: Seq<u8>, data: Seq<u8>)
    requires
        h.version == VERSION,
        h.record_size > 0,
        h.record_count == data.len() / (h.record_size as nat),
        if crate::raw_iocp::flag_set(h.flags) {
            crate::codec::zstd_content(payload) == Some(data)
        } else {
            payload == data
        },
    ensures
        data.len() % (h.record_size as nat) == 0 ==> forall|o: LoadRawOptions|
            !o.header_only ==> #[trigger] raw_content(h.bytes() + payload, o) == Ok::<
                RawContent,
                MftError,
            >(
                RawContent {
                    header: RawMftHeader {
                        volume_letter: crate::raw_iocp::byte_letter(
                            crate::raw_iocp::letter_byte(h.volume_letter),
                        ),
                        ..h
                    },
                    data,
                },
            ),
{
    let b = h.bytes() + payload;
    let hb = h.bytes();
    assert(hb.len() == HEADER_SIZE);
    assert(b.subrange(0, 8) =~= hb.subrange(0, 8));
    assert forall|i: int| 0 <= i < HEADER_SIZE implies #[trigger] b[i] == hb[i] by {}
    law_header_round_trip(h);
    assert(RawMftHeader::read(b) == RawMftHeader::read(hb));
    assert(b.skip(HEADER_SIZE as int) =~= payload);
    if data.len() % (h.record_size as nat) == 0 {
        let len = data.len() as int;
        let rs = h.record_size as int;
        assert((len / rs) * rs == len) by (nonlinear_arith)
            requires
                rs > 0,
                len % rs == 0,
        ;
    }
}

/// The size of a record according to the first record of a table.
pub open spec fn detected_record_size(b: Seq<u8>) -> u32 {
    if b.len() >= 32 && (crate::bytes::u32_at(b, 28) == 1024 || crate::bytes::u32_at(b, 28) == 2048
        || crate::bytes::u32_at(b, 28) == 4096) {
        crate::bytes::u32_at(b, 28)
    } else {
        DEFAULT_RECORD_SIZE
    }
}

/// Takes the size of a record from the first record of a table.
pub fn detect_record_size_from_first_record(data: &[u8]) -> (r: u32)
    ensures
        r == detected_record_size(data@),
        r == 1024 || r == 2048 || r == 4096,
{
    if data.len() >= 32 {
        let size: u32 = read_u32(data, 28);
        if size == 1024 || size == 2048 || size == 4096 {
            return size;
        }
    }
    DEFAULT_RECORD_SIZE
}

/// Loads a saved table: a table with a header, a capture, or bare records.
pub open spec fn raw_content(b: Seq<u8>, o: LoadRawOptions) -> Result<RawContent, MftError> {
    if b.len() < 8 {
        Err(MftError::Io(IoFault::UnexpectedEof))
    } else if crate::bytes::bytes_at(b, 0, magic()) {
        headed_content(b, o)
    } else if crate::bytes::bytes_at(b, 0, capture_magic()) {
        match crate::raw_iocp::capture_content(b) {
            Ok(c) => reassembled(c, o),
            Err(e) => Err(e),
        }
    } else if crate::bytes::bytes_at(b, 0, record_magic()) {
        bare_content(b, o)
    } else {
        Err(MftError::InvalidData(DataFault::UnknownFormat))
    }
}

/// Loads a table with a header.
pub open spec fn headed_content(b: Seq<u8>, o: LoadRawOptions) -> Result<RawContent, MftError> {
    if b.len() < HEADER_SIZE {
        Err(MftError::Io(IoFault::UnexpectedEof))
    } else {
        match RawMftHeader::read(b) {
            Err(e) => Err(e),
            Ok(header) => if o.header_only {
                Ok(RawContent { header, data: Seq::empty() })
            } else if !crate::raw_iocp::flag_set(header.flags) {
                of_declared_size(header, b.skip(HEADER_SIZE as int))
            } else {
                match crate::codec::zstd_content(b.skip(HEADER_SIZE as int)) {
                    Some(data) => of_declared_size(header, data),
                    None => Err(MftError::Io(IoFault::Codec)),
                }
            },
        }
    }
}

/// The data of a table, if it has the size that the header gives.
pub open spec fn of_declared_size(header: RawMftHeader, data: Seq<u8>) -> Result<
    RawContent,
    MftError,
> {
    if data.len() != header.record_count * header.record_size {
        Err(
            MftError::InvalidData(
                DataFault::RawSize {
                    expected: (header.record_count * header.record_size) as u128,
                    got: data.len() as u64,
                },
            ),
        )
    } else {
        Ok(RawContent { header, data })
    }
}

/// Loads bare records.
pub open spec fn bare_content(b: Seq<u8>, o: LoadRawOptions) -> Result<RawContent, MftError> {
    let record_size = detected_record_size(b);
    if b.len() % (record_size as nat) != 0 {
        Err(MftError::InvalidData(DataFault::BareSize { file_size: b.len() as u64, record_size }))
    } else {
        Ok(
            RawContent {
                header: RawMftHeader {
                    version: 0,
                    flags: 0,
                    record_size,
                    record_count: (b.len() / (record_size as nat)) as u64,
                    original_size: b.len() as u64,
                    compressed_size: 0,
                    volume_letter: match o.volume_letter {
                        Some(c) => c,
                        None => 'X',
                    },
                },
                data: if o.header_only {
                    Seq::empty()
                } else {
                    b
                },
            },
        )
    }
}

/// Where, in an order by first record, a chunk with first record `key` goes:
/// behind all chunks that do not begin later.
pub open spec fn slot(chunks: Seq<CapturedChunk>, order: Seq<int>, key: u64) -> int
    decreases order.len(),
{
    if order.len() == 0 {
        0
    } else if chunks[order.last()].start_frs <= key {
        order.len() as int
    } else {
        slot(chunks, order.drop_last(), key)
    }
}

/// The first `n` chunks ordered by their first record; chunks with the same
/// first record keep their order.
pub open spec fn chunk_order(chunks: Seq<CapturedChunk>, n: int) -> Seq<int>
    decreases n,
{
    if n <= 0 {
        Seq::empty()
    } else {
        let before = chunk_order(chunks, n - 1);
        before.insert(slot(chunks, before, chunks[n - 1].start_frs), n - 1)
    }
}

/// The size of the table that a capture is a capture of.
pub open spec fn table_size(c: crate::raw_iocp::CaptureContent) -> int {
    c.header.total_records * c.header.record_size
}

/// Where chunk `i` begins in the table.
pub open spec fn chunk_start(c: crate::raw_iocp::CaptureContent, i: int) -> int {
    c.chunks[i].start_frs * c.header.record_size
}

/// The size that the records of chunk `i` take.
pub open spec fn chunk_len(c: crate::raw_iocp::CaptureContent, i: int) -> int {
    c.chunks[i].record_count * c.header.record_size
}

/// What is wrong with chunk `i` of a capture, if anything is.
pub open spec fn chunk_fault(c: crate::raw_iocp::CaptureContent, i: int) -> Option<DataFault> {
    if c.chunk_data(i).len() != chunk_len(c, i) {
        Some(
            DataFault::ChunkSize {
                start_frs: c.chunks[i].start_frs,
                expected: chunk_len(c, i) as u128,
                got: c.chunk_data(i).len() as u64,
            },
        )
    } else if chunk_start(c, i) + chunk_len(c, i) > table_size(c) {
        Some(
            DataFault::ChunkBounds {
                start_frs: c.chunks[i].start_frs,
                end: (chunk_start(c, i) + chunk_len(c, i)) as u128,
                size: table_size(c) as u64,
            },
        )
    } else {
        None
    }
}

/// The table after the first `n` chunks of `order` were put into their places;
/// what no chunk covers is zero.
pub open spec fn placed(c: crate::raw_iocp::CaptureContent, order: Seq<int>, n: int) -> Result<
    Seq<u8>,
    MftError,
>
    decreases n,
{
    if n <= 0 {
        Ok(crate::bytes::zeros(table_size(c) as nat))
    } else {
        match placed(c, order, n - 1) {
            Err(e) => Err(e),
            Ok(buf) => match chunk_fault(c, order[n - 1]) {
                Some(fault) => Err(MftError::InvalidData(fault)),
                None => Ok(
                    crate::bytes::overlay(
                        buf,
                        chunk_start(c, order[n - 1]),
                        c.chunk_data(order[n - 1]),
                    ),
                ),
            },
        }
    }
}

/// The header of a table that was put together from a capture.
pub open spec fn capture_header(
    c: crate::raw_iocp::CaptureContent,
    o: LoadRawOptions,
) -> RawMftHeader {
    RawMftHeader {
        version: VERSION,
        flags: 0,
        record_size: c.header.record_size,
        record_count: c.header.total_records,
        original_size: table_size(c) as u64,
        compressed_size: 0,
        volume_letter: match o.volume_letter {
            Some(l) => l,
            None => c.header.volume_letter,
        },
    }
}

/// The table of a capture: every chunk in its place.
pub open spec fn reassembled(c: crate::raw_iocp::CaptureContent, o: LoadRawOptions) -> Result<
    RawContent,
    MftError,
> {
    if table_size(c) > u64::MAX {
        Err(MftError::InvalidData(DataFault::CaptureTooLarge(table_size(c) as u128)))
    } else if o.header_only {
        Ok(RawContent { header: capture_header(c, o), data: Seq::empty() })
    } else if table_size(c) > usize::MAX {
        Err(MftError::InvalidData(DataFault::CaptureTooLarge(table_size(c) as u128)))
    } else {
        match placed(c, chunk_order(c.chunks, c.chunks.len() as int), c.chunks.len() as int) {
            Ok(data) => Ok(RawContent { header: capture_header(c, o), data }),
            Err(e) => Err(e),
        }
    }
}

/// Orders chunks by their first record.
fn order_chunks(chunks: &Vec<CapturedChunk>) -> (r: Vec<usize>)
    ensures
        r@.len() == chunks@.len(),
        r@.map_values(|i: usize| i as int) == chunk_order(chunks@, chunks@.len() as int),
{
    let n: usize = chunks.len();
    let mut order: Vec<usize> = Vec::new();
    let mut i: usize = 0;
    assert(order@.map_values(|i: usize| i as int) =~= chunk_order(chunks@, 0));
    while i < n
        invariant
            i <= n,
            n == chunks@.len(),
            order@.len() == i,
            order@.map_values(|i: usize| i as int) == chunk_order(chunks@, i as int),
            forall|k: int| 0 <= k < order@.len() ==> #[trigger] order@[k] < i,
        decreases n - i,
    {
        let key: u64 = chunks[i].start_frs;
        let ghost ints = order@.map_values(|i: usize| i as int);
        let mut p: usize = order.len();
        assert(ints.take(p as int) =~= ints);
        while p > 0 && chunks[order[p - 1]].start_frs > key
            invariant
                p <= order@.len(),
                i < n,
                n == chunks@.len(),
                order@.len() == i,
                ints == order@.map_values(|i: usize| i as int),
                forall|k: int| 0 <= k < order@.len() ==> #[trigger] order@[k] < i,
                slot(chunks@, ints, key) == slot(chunks@, ints.take(p as int), key),
            decreases p,
        {
            assert(ints.take(p as int).last() == order@[p - 1]);
            assert(ints.take(p as int).drop_last() =~= ints.take(p - 1));
            p = p - 1;
        }
        assert(slot(chunks@, ints, key) == p) by {
            if p > 0 {
                assert(ints.take(p as int).last() == order@[p - 1]);
            }
        }
        let ghost before = order@;
        order.insert(p, i);
        assert(order@.map_values(|i: usize| i as int) =~= ints.insert(p as int, i as int));
        assert forall|k: int| 0 <= k < order@.len() implies #[trigger] order@[k] < i + 1 by {
            if k < p {
                assert(order@[k] == before[k]);
            } else if k > p {
                assert(order@[k] == before[k - 1]);
            }
        }
        i += 1;
    }
    order
}

/// Copies `src` into `buf` at `start`.
fn copy_into(buf: &mut Vec<u8>, start: usize, src: &[u8])
    requires
        start + src@.len() <= old(buf)@.len(),
    ensures
        final(buf)@ == crate::bytes::overlay(old(buf)@, start as int, src@),
{
    let n: usize = src.len();
    let total: usize = buf.len();
    let mut i: usize = 0;
    let ghost base = buf@;
    assert(buf@ =~= crate::bytes::overlay(base, start as int, src@.take(0)));
    while i < n
        invariant
            i <= n,
            n == src@.len(),
            start + n <= total,
            total == base.len(),
            buf@.len() == total,
            buf@ == crate::bytes::overlay(base, start as int, src@.take(i as int)),
        decreases n - i,
    {
        buf.set(start + i, src[i]);
        i += 1;
        assert(buf@ =~= crate::bytes::overlay(base, start as int, src@.take(i as int)));
    }
    assert(src@.take(n as int) =~= src@);
}

proof fn lemma_order_in_range(chunks: Seq<CapturedChunk>, n: int)
    requires
        0 <= n <= chunks.len(),
    ensures
        chunk_order(chunks, n).len() == n,
        forall|k: int|
            0 <= k < n ==> 0 <= #[trigger] chunk_order(chunks, n)[k] < n,
    decreases n,
{
    if n > 0 {
        lemma_order_in_range(chunks, n - 1);
        let before = chunk_order(chunks, n - 1);
        lemma_slot_in_range(chunks, before, chunks[n - 1].start_frs);
        let p = slot(chunks, before, chunks[n - 1].start_frs);
        let after = chunk_order(chunks, n);
        assert(after =~= before.insert(p, n - 1));
        assert forall|k: int| 0 <= k < n implies 0 <= #[trigger] after[k] < n by {
            if k < p {
                assert(after[k] == before[k]);
            } else if k > p {
                assert(after[k] == before[k - 1]);
            }
        }
    }
}

proof fn lemma_slot_in_range(chunks: Seq<CapturedChunk>, order: Seq<int>, key: u64)
    ensures
        0 <= slot(chunks, order, key) <= order.len(),
    decreases order.len(),
{
    if order.len() > 0 {
        lemma_slot_in_range(chunks, order.drop_last(), key);
    }
}

proof fn lemma_placed_prefix(
    c: crate::raw_iocp::CaptureContent,
    order: Seq<int>,
    m: int,
    n: int,
    e: MftError,
)
    requires
        0 <= m <= n,
        placed(c, order, m) == Err::<Seq<u8>, MftError>(e),
    ensures
        placed(c, order, n) == Err::<Seq<u8>, MftError>(e),
    decreases n,
{
    if m < n {
        lemma_placed_prefix(c, order, m, n - 1, e);
    }
}

/// Puts the chunks of a capture into their places.
pub fn load_iocp_as_raw_mft(capture: &IocpCaptureData, options: &LoadRawOptions) -> (r: Result<
    RawMftData,
    MftError,
>)
    ensures
        match (r, reassembled(capture@, *options)) {
            (Ok(d), Ok(c)) => d@ == c,
            (Err(e), Err(f)) => e == f,
            _ => false,
        },
{
    let ghost c = capture@;
    let record_size: u32 = capture.record_size();
    let total_records: u64 = capture.header.total_records;
    proof {
        assert(0 <= total_records * record_size <= 0xFFFF_FFFF_FFFF_FFFF * 0xFFFF_FFFF)
            by (nonlinear_arith)
            requires
                0 <= total_records <= 0xFFFF_FFFF_FFFF_FFFF,
                0 <= record_size <= 0xFFFF_FFFF,
        ;
    }
    let size: u128 = total_records as u128 * record_size as u128;
    if size > u64::MAX as u128 {
        return Err(MftError::InvalidData(DataFault::CaptureTooLarge(size)));
    }
    let header: RawMftHeader = RawMftHeader {
        version: VERSION,
        flags: 0,
        record_size,
        record_count: total_records,
        original_size: size as u64,
        compressed_size: 0,
        volume_letter: match options.volume_letter {
            Some(l) => l,
            None => capture.header.volume_letter,
        },
    };
    if options.header_only {
        let data: Vec<u8> = Vec::new();
        assert(data@ =~= Seq::empty());
        return Ok(RawMftData { header, data });
    }
    if size > usize::MAX as u128 {
        return Err(MftError::InvalidData(DataFault::CaptureTooLarge(size)));
    }
    let total_size: usize = size as usize;
    let mut data: Vec<u8> = vec![0u8; total_size];
    assert(data@ =~= crate::bytes::zeros(table_size(c) as nat));
    let parts: Vec<(&CapturedChunk, &[u8])> = capture.iter_chunks();
    let order: Vec<usize> = order_chunks(&capture.chunks);
    let n: usize = order.len();
    let ghost ints = chunk_order(c.chunks, c.chunks.len() as int);
    proof {
        lemma_order_in_range(c.chunks, c.chunks.len() as int);
    }
    let mut i: usize = 0;
    while i < n
        invariant
            i <= n,
            n == order@.len(),
            n == c.chunks.len(),
            c == capture@,
            record_size == c.header.record_size,
            table_size(c) == total_size,
            !options.header_only,
            total_size <= u64::MAX,
            ints == chunk_order(c.chunks, c.chunks.len() as int),
            ints.len() == n,
            order@.map_values(|i: usize| i as int) == ints,
            forall|k: int| 0 <= k < n ==> 0 <= #[trigger] ints[k] < n,
            parts@.len() == n,
            forall|i: int|
                0 <= i < parts@.len() ==> *(#[trigger] parts@[i]).0 == c.chunks[i]
                    && parts@[i].1@ == c.chunk_data(i),
            data@.len() == total_size,
            placed(c, ints, i as int) == Ok::<Seq<u8>, MftError>(data@),
        decreases n - i,
    {
        let k: usize = order[i];
        assert(k == order@.map_values(|i: usize| i as int)[i as int]);
        assert(k == ints[i as int]);
        let chunk: &CapturedChunk = parts[k].0;
        let bytes: &[u8] = parts[k].1;
        let start_frs: u64 = chunk.start_frs;
        let record_count: u32 = chunk.record_count;
        proof {
            assert(0 <= start_frs * record_size <= 0xFFFF_FFFF_FFFF_FFFF * 0xFFFF_FFFF)
                by (nonlinear_arith)
                requires
                    0 <= start_frs <= 0xFFFF_FFFF_FFFF_FFFF,
                    0 <= record_size <= 0xFFFF_FFFF,
            ;
            assert(0 <= record_count * record_size <= 0xFFFF_FFFF * 0xFFFF_FFFF)
                by (nonlinear_arith)
                requires
                    0 <= record_count <= 0xFFFF_FFFF,
                    0 <= record_size <= 0xFFFF_FFFF,
            ;
        }
        let start: u128 = start_frs as u128 * record_size as u128;
        let expected: u128 = record_count as u128 * record_size as u128;
        if bytes.len() as u128 != expected {
            let e: MftError = MftError::InvalidData(
                DataFault::ChunkSize { start_frs, expected, got: bytes.len() as u64 },
            );
            proof {
                lemma_placed_prefix(c, ints, i + 1, n as int, e);
            }
            return Err(e);
        }
        let end: u128 = start + expected;
        if end > total_size as u128 {
            let e: MftError = MftError::InvalidData(
                DataFault::ChunkBounds { start_frs, end, size: total_size as u64 },
            );
            proof {
                lemma_placed_prefix(c, ints, i + 1, n as int, e);
            }
            return Err(e);
        }
        copy_into(&mut data, start as usize, bytes);
        i += 1;
    }
    Ok(RawMftData { header, data })
}

/// The data of a table, if it has the size that the header gives.
pub fn check_raw_payload(header: RawMftHeader, data: Vec<u8>) -> (r: Result<RawMftData, MftError>)
    ensures
        match (r, of_declared_size(header, data@)) {
            (Ok(d), Ok(c)) => d@ == c,
            (Err(e), Err(f)) => e == f,
            _ => false,
        },
{
    let count: u64 = header.record_count;
    let record_size: u32 = header.record_size;
    proof {
        assert(0 <= count * record_size <= 0xFFFF_FFFF_FFFF_FFFF * 0xFFFF_FFFF)
            by (nonlinear_arith)
            requires
                0 <= count <= 0xFFFF_FFFF_FFFF_FFFF,
                0 <= record_size <= 0xFFFF_FFFF,
        ;
    }
    let expected: u128 = count as u128 * record_size as u128;
    if data.len() as u128 != expected {
        Err(MftError::InvalidData(DataFault::RawSize { expected, got: data.len() as u64 }))
    } else {
        Ok(RawMftData { header, data })
    }
}

/// Loads a saved table: a table with a header, a capture, or bare records.
pub fn load_raw_mft(file: &[u8], options: &LoadRawOptions) -> (r: Result<RawMftData, MftError>)
    ensures
        match (r, raw_content(file@, *options)) {
            (Ok(d), Ok(c)) => d@ == c,
            (Err(e), Err(f)) => e == f,
            _ => false,
        },
{
    if file.len() < 8 {
        return Err(MftError::Io(IoFault::UnexpectedEof));
    }
    if has_magic(file) {
        if file.len() < HEADER_SIZE {
            return Err(MftError::Io(IoFault::UnexpectedEof));
        }
        let header: RawMftHeader = match RawMftHeader::read_from(file) {
            Ok(h) => h,
            Err(e) => return Err(e),
        };
        if options.header_only {
            let data: Vec<u8> = Vec::new();
            assert(data@ =~= Seq::empty());
            return Ok(RawMftData { header, data });
        }
        let stored: &[u8] = vstd::slice::slice_subrange(file, HEADER_SIZE, file.len());
        assert(stored@ =~= file@.skip(HEADER_SIZE as int));
        if header.is_compressed() {
            return match zstd_decode(stored) {
                Ok(data) => check_raw_payload(header, data),
                Err(_) => Err(MftError::Io(IoFault::Codec)),
            };
        }
        let data: Vec<u8> = copy_range(stored, 0, stored.len());
        assert(data@ =~= stored@);
        return check_raw_payload(header, data);
    }
    let m: [u8; 8] = [0x55, 0x46, 0x46, 0x53, 0x2D, 0x49, 0x4F, 0x43];
    assert(m@ =~= capture_magic());
    if matches_at(file, 0, m.as_slice()) {
        return match load_iocp_capture(file) {
            Ok(capture) => load_iocp_as_raw_mft(&capture, options),
            Err(e) => Err(e),
        };
    }
    let f: [u8; 4] = [0x46, 0x49, 0x4C, 0x45];
    assert(f@ =~= record_magic());
    if matches_at(file, 0, f.as_slice()) {
        let record_size: u32 = detect_record_size_from_first_record(file);
        if file.len() % (record_size as usize) != 0 {
            return Err(
                MftError::InvalidData(
                    DataFault::BareSize { file_size: file.len() as u64, record_size },
                ),
            );
        }
        let header: RawMftHeader = RawMftHeader {
            version: 0,
            flags: 0,
            record_size,
            record_count: (file.len() / (record_size as usize)) as u64,
            original_size: file.len() as u64,
            compressed_size: 0,
            volume_letter: match options.volume_letter {
                Some(c) => c,
                None => 'X',
            },
        };
        if options.header_only {
            let data: Vec<u8> = Vec::new();
            assert(data@ =~= Seq::empty());
            return Ok(RawMftData { header, data });
        }
        let data: Vec<u8> = copy_range(file, 0, file.len());
        assert(data@ =~= file@);
        return Ok(RawMftData { header, data });
    }
    Err(MftError::InvalidData(DataFault::UnknownFormat))
}

/// Loads only the header of a saved table.
pub fn load_raw_mft_header(file: &[u8]) -> (r: Result<RawMftHeader, MftError>)
    ensures
        match (r, raw_content(
            file@,
            LoadRawOptions { header_only: true, volume_letter: None, forensic: false },
        )) {
            (Ok(h), Ok(c)) => h == c.header,
            (Err(e), Err(f)) => e == f,
            _ => false,
        },
{
    let options: LoadRawOptions = LoadRawOptions {
        header_only: true,
        volume_letter: None,
        forensic: false,
    };
    match load_raw_mft(file, &options) {
        Ok(d) => Ok(d.header),
        Err(e) => Err(e),
    }
}

/// Ordering chunks moves none in or out, puts them in the order of their first
/// records, and keeps the order of chunks with the same first record.
pub proof fn law_chunk_order(chunks: Seq<CapturedChunk>, n: int)
    requires
        0 <= n <= chunks.len(),
    ensures
        chunk_order(chunks, n).len() == n,
        forall|i: int| 0 <= i < n ==> chunk_order(chunks, n).contains(i),
        forall|a: int, b: int|
            0 <= a < b < n ==> {
                let x = #[trigger] chunk_order(chunks, n)[a];
                let y = #[trigger] chunk_order(chunks, n)[b];
                chunks[x].start_frs < chunks[y].start_frs || chunks[x].start_frs
                    == chunks[y].start_frs && x < y
            },
    decreases n,
{
    lemma_order_in_range(chunks, n);
    if n > 0 {
        law_chunk_order(chunks, n - 1);
        lemma_order_in_range(chunks, n - 1);
        let before = chunk_order(chunks, n - 1);
        let key = chunks[n - 1].start_frs;
        let p = slot(chunks, before, key);
        lemma_slot_in_range(chunks, before, key);
        lemma_slot_splits(chunks, before, key);
        let after = chunk_order(chunks, n);
        assert(after =~= before.insert(p, n - 1));
        assert(after[p] == n - 1);
        assert forall|i: int| 0 <= i < n implies after.contains(i) by {
            if i < n - 1 {
                assert(before.contains(i));
                let k = choose|k: int| 0 <= k < before.len() && before[k] == i;
                if k < p {
                    assert(after[k] == i);
                } else {
                    assert(after[k + 1] == i);
                }
            }
        }
        assert forall|a: int, b: int| 0 <= a < b < n implies {
            let x = #[trigger] after[a];
            let y = #[trigger] after[b];
            chunks[x].start_frs < chunks[y].start_frs || chunks[x].start_frs
                == chunks[y].start_frs && x < y
        } by {
            if a < p {
                assert(after[a] == before[a]);
            } else if a > p {
                assert(after[a] == before[a - 1]);
            }
            if b < p {
                assert(after[b] == before[b]);
            } else if b > p {
                assert(after[b] == before[b - 1]);
            }
        }
    }
}

proof fn lemma_slot_splits(chunks: Seq<CapturedChunk>, order: Seq<int>, key: u64)
    requires
        forall|a: int, b: int|
            0 <= a < b < order.len() ==> chunks[#[trigger] order[a]].start_frs
                <= chunks[#[trigger] order[b]].start_frs,
    ensures
        forall|a: int|
            0 <= a < slot(chunks, order, key) ==> chunks[#[trigger] order[a]].start_frs <= key,
        forall|a: int|
            slot(chunks, order, key) <= a < order.len() ==> chunks[#[trigger] order[a]].start_frs
                > key,
    decreases order.len(),
{
    if order.len() > 0 {
        let last = order[order.len() - 1];
        if chunks[last].start_frs > key {
            let front = order.drop_last();
            assert forall|a: int, b: int| 0 <= a < b < front.len() implies chunks[
            #[trigger] front[a]].start_frs <= chunks[#[trigger] front[b]].start_frs by {
                assert(front[a] == order[a] && front[b] == order[b]);
            }
            lemma_slot_splits(chunks, front, key);
            lemma_slot_in_range(chunks, front, key);
            assert forall|a: int| 0 <= a < slot(chunks, order, key) implies chunks[
            #[trigger] order[a]].start_frs <= key by {
                assert(front[a] == order[a]);
            }
            assert forall|a: int| slot(chunks, order, key) <= a < order.len() implies chunks[
            #[trigger] order[a]].start_frs > key by {
                if a < front.len() {
                    assert(front[a] == order[a]);
                }
            }
        }
    }
}

/// Byte `j` of the table lies in chunk `i`.
pub open spec fn covers(c: crate::raw_iocp::CaptureContent, i: int, j: int) -> bool {
    chunk_start(c, i) <= j < chunk_start(c, i) + chunk_len(c, i)
}

/// Byte `j` of the table lies in some chunk.
pub open spec fn is_covered(c: crate::raw_iocp::CaptureContent, j: int) -> bool {
    exists|i: int| 0 <= i < c.chunks.len() && #[trigger] covers(c, i, j)
}

/// Chunk `i` is a part of `table`, at the place that its first record gives.
pub open spec fn is_part_of(c: crate::raw_iocp::CaptureContent, i: int, table: Seq<u8>) -> bool {
    &&& chunk_start(c, i) + chunk_len(c, i) <= table.len()
    &&& c.chunk_data(i) == table.subrange(
        chunk_start(c, i),
        chunk_start(c, i) + chunk_len(c, i),
    )
}

proof fn lemma_placed_is_table(
    c: crate::raw_iocp::CaptureContent,
    order: Seq<int>,
    n: int,
    table: Seq<u8>,
)
    requires
        0 <= n <= order.len(),
        table.len() == table_size(c),
        forall|k: int| 0 <= k < order.len() ==> 0 <= #[trigger] order[k] < c.chunks.len(),
        forall|i: int| 0 <= i < c.chunks.len() ==> #[trigger] is_part_of(c, i, table),
    ensures
        placed(c, order, n) is Ok,
        placed(c, order, n)->Ok_0.len() == table.len(),
        forall|k: int, j: int|
            0 <= k < n && 0 <= j < table.len() && #[trigger] covers(c, order[k], j) ==> placed(
                c,
                order,
                n,
            )->Ok_0[j] == table[j],
    decreases n,
{
    if n > 0 {
        lemma_placed_is_table(c, order, n - 1, table);
        let i = order[n - 1];
        assert(is_part_of(c, i, table));
        let start_frs = c.chunks[i].start_frs;
        let count = c.chunks[i].record_count;
        let rs = c.header.record_size;
        assert(start_frs * rs >= 0 && count * rs >= 0) by (nonlinear_arith)
            requires
                start_frs >= 0,
                rs >= 0,
                count >= 0,
        ;
        let before = placed(c, order, n - 1)->Ok_0;
        let after = placed(c, order, n)->Ok_0;
        assert forall|k: int, j: int|
            0 <= k < n && 0 <= j < table.len() && #[trigger] covers(c, order[k], j) implies after[j]
            == table[j] by {
            if covers(c, i, j) {
                assert(c.chunk_data(i)[j - chunk_start(c, i)] == table[j]);
            } else {
                assert(after[j] == before[j]);
            }
        }
    }
}

/// A capture of a table, read back as a plain table, is the table: whatever
/// the order in which its chunks were read, if they cover it and each is a
/// part of it, the table comes back.
pub proof fn law_capture_is_put_in_order(
    c: crate::raw_iocp::CaptureContent,
    o: LoadRawOptions,
    table: Seq<u8>,
)
    requires
        table.len() == table_size(c),
        table.len() <= usize::MAX,
        !o.header_only,
        forall|i: int| 0 <= i < c.chunks.len() ==> #[trigger] is_part_of(c, i, table),
        forall|j: int| 0 <= j < table.len() ==> #[trigger] is_covered(c, j),
    ensures
        reassembled(c, o) == Ok::<RawContent, MftError>(
            RawContent { header: capture_header(c, o), data: table },
        ),
{
    let n = c.chunks.len() as int;
    let order = chunk_order(c.chunks, n);
    law_chunk_order(c.chunks, n);
    lemma_order_in_range(c.chunks, n);
    lemma_placed_is_table(c, order, n, table);
    let data = placed(c, order, n)->Ok_0;
    assert forall|j: int| 0 <= j < table.len() implies data[j] == table[j] by {
        assert(is_covered(c, j));
        let i = choose|i: int| 0 <= i < c.chunks.len() && #[trigger] covers(c, i, j);
        assert(order.contains(i));
        let k = choose|k: int| 0 <= k < order.len() && order[k] == i;
        assert(covers(c, order[k], j));
    }
    assert(data =~= table);
}

/// Where the fields of a header stand in a file: behind eight letters its
/// version, its flags, the size of a record, the number of records, the two
/// sizes of the data and the letter of the volume, and zeros up to its end.
#[verifier::spinoff_prover]
#[verifier::rlimit(40)]
pub proof fn law_header_layout(h: RawMftHeader, i: int)
    ensures
        ({
            let b = h.bytes();
            &&& b.len() == 64
            &&& b.subrange(0, 8) == seq![
                'U' as u8,
                'F' as u8,
                'F' as u8,
                'S' as u8,
                '-' as u8,
                'M' as u8,
                'F' as u8,
                'T' as u8,
            ]
            &&& crate::bytes::u32_at(b, 8) == h.version
            &&& crate::bytes::u32_at(b, 12) == h.flags
            &&& crate::bytes::u32_at(b, 16) == h.record_size
            &&& crate::bytes::u64_at(b, 20) == h.record_count
            &&& crate::bytes::u64_at(b, 28) == h.original_size
            &&& crate::bytes::u64_at(b, 36) == h.compressed_size
            &&& (h.volume_letter as int) < 256 ==> b[44] == h.volume_letter as int
            &&& 45 <= i < 64 ==> b[i] == 0
        }),
{
    let b = h.bytes();
    assert(b.len() == HEADER_SIZE);
    assert(b.subrange(0, 8) =~= magic());
    assert(b.subrange(8, 12) =~= crate::bytes::le32(h.version));
    assert(b.subrange(12, 16) =~= crate::bytes::le32(h.flags));
    assert(b.subrange(16, 20) =~= crate::bytes::le32(h.record_size));
    assert(b.subrange(20, 28) =~= crate::bytes::le64(h.record_count));
    assert(b.subrange(28, 36) =~= crate::bytes::le64(h.original_size));
    assert(b.subrange(36, 44) =~= crate::bytes::le64(h.compressed_size));
    crate::bytes::lemma_le32_reads_back(b, 8, h.version);
    crate::bytes::lemma_le32_reads_back(b, 12, h.flags);
    crate::bytes::lemma_le32_reads_back(b, 16, h.record_size);
    crate::bytes::lemma_le64_reads_back(b, 20, h.record_count);
    crate::bytes::lemma_le64_reads_back(b, 28, h.original_size);
    crate::bytes::lemma_le64_reads_back(b, 36, h.compressed_size);
    assert(b[44] == crate::raw_iocp::letter_byte(h.volume_letter));
}

/// A header of a version that is not known is refused, whatever else it says;
/// before version 2 the letter of the volume was not kept.
pub proof fn law_versions(b: Seq<u8>)
    requires
        crate::bytes::bytes_at(b, 0, magic()),
    ensures
        RawMftHeader::read(b) is Ok <==> crate::bytes::u32_at(b, 8) <= 2,
        RawMftHeader::read(b) matches Err(e) ==> e == MftError::InvalidData(
            DataFault::RawVersion(crate::bytes::u32_at(b, 8)),
        ),
        RawMftHeader::read(b) matches Ok(h) ==> (h.version < 2 ==> h.volume_letter == 'X') && (
        h.version == 2 && 65 <= b[44] <= 90 ==> h.volume_letter as int == b[44]),
{
}

/// The header of a saved table says how many whole records there are, and marks
/// the data as compressed exactly where it is, together with its size.
pub proof fn law_saved_headers_describe_the_data(
    original_size: u64,
    record_size: u32,
    volume_letter: char,
    compressed: Option<u64>,
)
    requires
        record_size > 0,
    ensures
        ({
            let h = saved_header(original_size, record_size, volume_letter, compressed);
            &&& h.version == 2
            &&& h.record_size == record_size
            &&& h.original_size == original_size
            &&& h.record_count * record_size <= original_size < (h.record_count + 1) * record_size
            &&& crate::raw_iocp::flag_set(h.flags) <==> compressed is Some
            &&& compressed matches Some(n) ==> h.compressed_size == n
            &&& compressed is None ==> h.compressed_size == 0
            &&& h.volume_letter == volume_letter
        }),
{
    let n = original_size as int;
    let c = record_size as int;
    let q = n / c;
    assert(q * c <= n < (q + 1) * c) by (nonlinear_arith)
        requires
            c > 0,
            q == n / c,
    ;
}

/// The size of a record is what the first record says is allocated for it, if
/// that is a size that records have.
pub proof fn law_record_sizes_read_back(header: crate::ntfs::layout::RawHeader, rest: Seq<u8>)
    ensures
        ({
            let size = detected_record_size(header.bytes() + rest);
            let said = header.bytes_allocated;
            &&& said == 1024 || said == 2048 || said == 4096 ==> size == said
            &&& said != 2048 && said != 4096 ==> size == 1024
        }),
{
    let b = header.bytes() + rest;
    assert(b.subrange(28, 32) =~= crate::bytes::le32(header.bytes_allocated));
    crate::bytes::lemma_le32_reads_back(b, 28, header.bytes_allocated);
}

/// Data is taken if and only if it has exactly the size that its header gives,
/// and then it is taken as it is.
pub proof fn law_sizes_are_checked(header: RawMftHeader, data: Seq<u8>)
    ensures
        of_declared_size(header, data) is Ok <==> data.len() == header.record_count
            * header.record_size,
        of_declared_size(header, data) matches Ok(c) ==> c.data == data && c.header == header,
{
}

/// The record of a number is that part of the data: byte for byte, one record
/// behind the other.
pub proof fn law_records_tile_the_data(c: RawContent, frs: int, i: int)
    requires
        0 <= frs,
        0 <= i < c.header.record_size,
        (frs + 1) * c.header.record_size <= c.data.len(),
    ensures
        c.record(frs).len() == c.header.record_size,
        c.record(frs)[i] == c.data[frs * c.header.record_size + i],
{
    let s = c.header.record_size as int;
    assert((frs + 1) * s == frs * s + s && 0 <= frs * s) by (nonlinear_arith)
        requires
            0 <= frs,
            0 <= s,
    ;
}

/// Asked for the header alone, a file gives the header that it also gives with
/// its data, and no data.
pub proof fn law_headers_alone(b: Seq<u8>, o: LoadRawOptions)
    requires
        !o.header_only,
        raw_content(b, o) is Ok,
    ensures
        raw_content(b, LoadRawOptions { header_only: true, ..o }) == Ok::<RawContent, MftError>(
            RawContent { header: raw_content(b, o)->Ok_0.header, data: Seq::empty() },
        ),
{
}

/// What a file is, is told by its first letters: `UFFS-MFT`, `UFFS-IOC` or
/// `FILE`. Anything else is refused, and so is a file that has not even these.
pub proof fn law_formats_are_told_by_their_letters(b: Seq<u8>, o: LoadRawOptions)
    ensures
        b.len() < 8 ==> raw_content(b, o) == Err::<RawContent, MftError>(
            MftError::Io(IoFault::UnexpectedEof),
        ),
        b.len() >= 8 && b[0] != 'U' as u8 && b[0] != 'F' as u8 ==> raw_content(b, o) == Err::<
            RawContent,
            MftError,
        >(MftError::InvalidData(DataFault::UnknownFormat)),
        b.len() >= 64 && b.subrange(0, 8) == magic() && o.header_only && crate::bytes::u32_at(b, 8)
            <= 2 ==> raw_content(b, o) is Ok,
{
    if b.len() >= 8 {
        assert(b.subrange(0, 8)[0] == b[0]);
        assert(b.subrange(0, 4)[0] == b[0]);
        assert(magic()[0] == 'U' as u8);
        assert(capture_magic()[0] == 'U' as u8);
        assert(record_magic()[0] == 'F' as u8);
    }
}

/// Bare records are taken whole, under a header that counts them; a file that
/// ends within a record is refused.
pub proof fn law_bare_records_are_taken_whole(b: Seq<u8>, o: LoadRawOptions)
    requires
        b.len() >= 8,
        b.len() <= u64::MAX,
        b[0] == 'F' as u8,
        b[1] == 'I' as u8,
        b[2] == 'L' as u8,
        b[3] == 'E' as u8,
        !o.header_only,
    ensures
        raw_content(b, o) is Ok <==> b.len() % (detected_record_size(b) as nat) == 0,
        raw_content(b, o) matches Ok(c) ==> {
            &&& c.data == b
            &&& c.header.version == 0
            &&& c.header.record_size == detected_record_size(b)
            &&& c.header.record_count * c.header.record_size == b.len()
            &&& c.header.original_size == b.len()
            &&& !crate::raw_iocp::flag_set(c.header.flags)
            &&& o.volume_letter matches Some(l) ==> c.header.volume_letter == l
            &&& o.volume_letter is None ==> c.header.volume_letter == 'X'
        },
{
    assert(b.subrange(0, 4) =~= record_magic());
    assert(b.subrange(0, 8)[0] == b[0]);
    let n = b.len() as int;
    let r = detected_record_size(b) as int;
    if n % r == 0 {
        assert((n / r) * r == n) by (nonlinear_arith)
            requires
                r > 0,
                n % r == 0,
        ;
        assert(n / r <= n) by (nonlinear_arith)
            requires
                r >= 1,
                n >= 0,
        ;
    }
}

proof fn lemma_placed_bytes(c: crate::raw_iocp::CaptureContent, order: Seq<int>, n: int, j: int)
    requires
        0 <= n <= order.len(),
        0 <= j < table_size(c),
        placed(c, order, n) is Ok,
    ensures
        placed(c, order, n)->Ok_0.len() == table_size(c),
        (forall|k: int| 0 <= k < n ==> !#[trigger] covers(c, order[k], j)) ==> placed(
            c,
            order,
            n,
        )->Ok_0[j] == 0,
        forall|k: int|
            0 <= k < n && #[trigger] covers(c, order[k], j) && (forall|l: int|
                k < l < n ==> !#[trigger] covers(c, order[l], j)) ==> placed(c, order, n)->Ok_0[j]
                == c.chunk_data(order[k])[j - chunk_start(c, order[k])],
        forall|k: int| 0 <= k < n ==> chunk_fault(c, #[trigger] order[k]) is None,
    decreases n,
{
    if n > 0 {
        lemma_placed_bytes(c, order, n - 1, j);
        let i = order[n - 1];
        let before = placed(c, order, n - 1)->Ok_0;
        let after = placed(c, order, n)->Ok_0;
        assert(chunk_fault(c, i) is None);
        assert(covers(c, i, j) ==> after[j] == c.chunk_data(i)[j - chunk_start(c, i)]);
        assert(!covers(c, i, j) ==> after[j] == before[j]);
        assert forall|k: int|
            0 <= k < n && #[trigger] covers(c, order[k], j) && (forall|l: int|
                k < l < n ==> !#[trigger] covers(c, order[l], j)) implies after[j] == c.chunk_data(
            order[k],
        )[j - chunk_start(c, order[k])] by {
            if k < n - 1 {
                assert(!covers(c, order[n - 1], j));
                assert(before[j] == c.chunk_data(order[k])[j - chunk_start(c, order[k])]);
            }
        }
        if forall|k: int| 0 <= k < n ==> !#[trigger] covers(c, order[k], j) {
            assert(!covers(c, order[n - 1], j));
        }
    }
}

/// What no chunk of a capture covers is zero, and what several cover is as in
/// the one that begins last, or came last of those.
pub proof fn law_gaps_are_zero(c: crate::raw_iocp::CaptureContent, o: LoadRawOptions, j: int)
    requires
        reassembled(c, o) is Ok,
        !o.header_only,
        0 <= j < table_size(c),
    ensures
        !is_covered(c, j) ==> reassembled(c, o)->Ok_0.data[j] == 0,
        forall|i: int|
            0 <= i < c.chunks.len() && #[trigger] covers(c, i, j) && (forall|l: int|
                0 <= l < c.chunks.len() && #[trigger] covers(c, l, j) && l != i
                    ==> c.chunks[l].start_frs < c.chunks[i].start_frs || (c.chunks[l].start_frs
                    == c.chunks[i].start_frs && l < i)) ==> reassembled(c, o)->Ok_0.data[j]
                == c.chunk_data(i)[j - chunk_start(c, i)],
{
    let n = c.chunks.len() as int;
    let order = chunk_order(c.chunks, n);
    law_chunk_order(c.chunks, n);
    lemma_order_in_range(c.chunks, n);
    lemma_placed_bytes(c, order, n, j);
    let data = reassembled(c, o)->Ok_0.data;
    if !is_covered(c, j) {
        assert forall|k: int| 0 <= k < n implies !#[trigger] covers(c, order[k], j) by {
            assert(0 <= order[k] < n);
        }
    }
    assert forall|i: int|
        0 <= i < c.chunks.len() && #[trigger] covers(c, i, j) && (forall|l: int|
            0 <= l < c.chunks.len() && #[trigger] covers(c, l, j) && l != i
                ==> c.chunks[l].start_frs < c.chunks[i].start_frs || (c.chunks[l].start_frs
                == c.chunks[i].start_frs && l < i)) implies data[j] == c.chunk_data(i)[j
        - chunk_start(c, i)] by {
        let k = choose|k: int| 0 <= k < order.len() && order[k] == i;
        assert(order.contains(i));
        assert(covers(c, order[k], j));
        assert forall|l: int| k < l < n implies !#[trigger] covers(c, order[l], j) by {
            let x = order[k];
            let y = order[l];
            assert(0 <= y < n);
        }
    }
}

/// A capture is put together if and only if it fits and every chunk is as long
/// as the records that it counts and lies within the table.
pub proof fn law_only_sound_captures_are_put_together(
    c: crate::raw_iocp::CaptureContent,
    o: LoadRawOptions,
)
    requires
        table_size(c) <= usize::MAX,
        table_size(c) <= u64::MAX,
        !o.header_only,
    ensures
        reassembled(c, o) is Ok <==> forall|i: int|
            0 <= i < c.chunks.len() ==> (#[trigger] c.chunk_data(i)).len()
                == c.chunks[i].record_count * c.header.record_size && c.chunks[i].start_frs
                * c.header.record_size + c.chunks[i].record_count * c.header.record_size
                <= c.header.total_records * c.header.record_size,
        reassembled(c, o) matches Ok(r) ==> r.data.len() == c.header.total_records
            * c.header.record_size,
{
    let n = c.chunks.len() as int;
    let order = chunk_order(c.chunks, n);
    law_chunk_order(c.chunks, n);
    lemma_order_in_range(c.chunks, n);
    lemma_placed_iff(c, order, n);
    let whole = placed(c, order, n);
    if whole is Ok {
        assert forall|i: int| 0 <= i < n implies (#[trigger] c.chunk_data(i)).len()
            == c.chunks[i].record_count * c.header.record_size && c.chunks[i].start_frs
            * c.header.record_size + c.chunks[i].record_count * c.header.record_size
            <= c.header.total_records * c.header.record_size by {
            assert(order.contains(i));
            let k = choose|k: int| 0 <= k < order.len() && order[k] == i;
            assert(chunk_fault(c, order[k]) is None);
        }
    } else {
        let k = choose|k: int| 0 <= k < n && chunk_fault(c, #[trigger] order[k]) is Some;
        assert(0 <= order[k] < n);
        assert(c.chunk_data(order[k]) == c.chunk_data(order[k]));
    }
}

proof fn lemma_placed_iff(c: crate::raw_iocp::CaptureContent, order: Seq<int>, n: int)
    requires
        0 <= n <= order.len(),
        table_size(c) >= 0,
    ensures
        placed(c, order, n) matches Ok(data) ==> data.len() == table_size(c),
        placed(c, order, n) is Ok ==> forall|k: int|
            0 <= k < n ==> chunk_fault(c, #[trigger] order[k]) is None,
        placed(c, order, n) is Err ==> exists|k: int|
            0 <= k < n && chunk_fault(c, #[trigger] order[k]) is Some,
    decreases n,
{
    if n > 0 {
        lemma_placed_iff(c, order, n - 1);
        assert(order[n - 1] == order[n - 1]);
    }
}

/// The header of a table that was put together from a capture says what the
/// capture says of it: the size and number of its records, and the volume, unless
/// another one is asked for. Its data is not compressed any more.
pub proof fn law_captures_become_tables(c: crate::raw_iocp::CaptureContent, o: LoadRawOptions)
    requires
        table_size(c) <= u64::MAX,
    ensures
        ({
            let h = capture_header(c, o);
            &&& h.version == 2
            &&& !crate::raw_iocp::flag_set(h.flags)
            &&& h.record_size == c.header.record_size
            &&& h.record_count == c.header.total_records
            &&& h.original_size == c.header.total_records * c.header.record_size
            &&& h.compressed_size == 0
            &&& o.volume_letter matches Some(l) ==> h.volume_letter == l
            &&& o.volume_letter is None ==> h.volume_letter == c.header.volume_letter
        }),
{
    assert(0 <= c.header.total_records * c.header.record_size) by (nonlinear_arith)
        requires
            0 <= c.header.total_records,
            0 <= c.header.record_size,
    ;
}

/// A table with a header is refused where its header is not whole, and where its
/// data is marked as compressed and cannot be decompressed.
pub proof fn law_damaged_tables_are_refused(b: Seq<u8>, o: LoadRawOptions)
    requires
        b.len() >= 8,
        b.subrange(0, 8) == magic(),
        !o.header_only,
    ensures
        b.len() < 64 ==> raw_content(b, o) == Err::<RawContent, MftError>(
            MftError::Io(IoFault::UnexpectedEof),
        ),
        b.len() >= 64 && crate::bytes::u32_at(b, 8) <= 2 && crate::bytes::u32_at(b, 12) % 2 == 1
            && crate::codec::zstd_content(b.skip(64)) is None ==> raw_content(b, o) == Err::<
            RawContent,
            MftError,
        >(MftError::Io(IoFault::Codec)),
        b.len() >= 64 && crate::bytes::u32_at(b, 8) <= 2 && crate::bytes::u32_at(b, 12) % 2 == 0 ==> (
        raw_content(b, o) is Ok <==> b.len() - 64 == crate::bytes::u64_at(b, 20)
            * crate::bytes::u32_at(b, 16)),
        raw_content(b, o) matches Ok(c) ==> (crate::bytes::u32_at(b, 12) % 2 == 0 ==> c.data
            == b.skip(64)),
{
}

} // verus!
