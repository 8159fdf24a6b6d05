//! Saving a table while it is read.
//!
//! The writer does not hold the data. It says what goes in front of it, counts
//! what goes by, and gives the final header once everything was written.

use super::{RawMftHeader, SaveRawOptions, FLAG_COMPRESSED, HEADER_SIZE, VERSION};
use vstd::prelude::*;

verus! {

/// What a streaming writer knows.
pub struct StreamView {
    /// Size of a record.
    pub record_size: u32,
    /// How many bytes went by.
    pub written: u64,
    /// Whether they are compressed on their way.
    pub compress: bool,
    /// Compression level.
    pub compression_level: i32,
    /// Letter of the volume.
    pub volume_letter: char,
    /// Whether the header is left out.
    pub raw_compat: bool,
}

impl StreamView {
    /// The header that is written first: sizes and counts are not known yet.
    pub open spec fn placeholder(self) -> RawMftHeader {
        RawMftHeader {
            version: VERSION,
            flags: if self.compress {
                FLAG_COMPRESSED
            } else {
                0
            },
            record_size: self.record_size,
            record_count: 0,
            original_size: 0,
            compressed_size: 0,
            volume_letter: self.volume_letter,
        }
    }

    /// The header of the finished file. Its version is 0 where the file itself
    /// has no header.
    pub open spec fn final_header(self, file_len: u64) -> RawMftHeader {
        RawMftHeader {
            version: if self.raw_compat {
                0
            } else {
                VERSION
            },
            flags: if self.compress {
                FLAG_COMPRESSED
            } else {
                0
            },
            record_size: self.record_size,
            record_count: self.written / (self.record_size as u64),
            original_size: self.written,
            compressed_size: if !self.compress || file_len < HEADER_SIZE {
                0
            } else {
                (file_len - HEADER_SIZE) as u64
            },
            volume_letter: self.volume_letter,
        }
    }
}

/// Saves a table while it is read.
#[derive(Debug)]
pub struct StreamingRawMftWriter {
    record_size: u32,
    bytes_written: u64,
    compress: bool,
    compression_level: i32,
    volume_letter: char,
    raw_compat: bool,
}

impl View for StreamingRawMftWriter {
    type V = StreamView;

    closed spec fn view(&self) -> StreamView {
        StreamView {
            record_size: self.record_size,
            written: self.bytes_written,
            compress: self.compress,
            compression_level: self.compression_level,
            volume_letter: self.volume_letter,
            raw_compat: self.raw_compat,
        }
    }
}

impl StreamingRawMftWriter {
    /// A writer to which nothing was written yet. Without a header nothing is
    /// compressed.
    pub fn new(record_size: u32, options: &SaveRawOptions) -> (r: StreamingRawMftWriter)
        ensures
            r@ == (StreamView {
                record_size,
                written: 0,
                compress: options.compress && !options.raw_compat,
                compression_level: options.compression_level,
                volume_letter: options.volume_letter,
                raw_compat: options.raw_compat,
            }),
    {
        StreamingRawMftWriter {
            record_size,
            bytes_written: 0,
            compress: options.compress && !options.raw_compat,
            compression_level: options.compression_level,
            volume_letter: options.volume_letter,
            raw_compat: options.raw_compat,
        }
    }

    /// What is written before the first chunk.
    pub fn preamble(&self) -> (r: Vec<u8>)
        ensures
            r@ == if self@.raw_compat {
                Seq::empty()
            } else {
                self@.placeholder().bytes()
            },
    {
        let mut out: Vec<u8> = Vec::new();
        if !self.raw_compat {
            let placeholder: RawMftHeader = RawMftHeader {
                version: VERSION,
                flags: if self.compress {
                    FLAG_COMPRESSED
                } else {
                    0
                },
                record_size: self.record_size,
                record_count: 0,
                original_size: 0,
                compressed_size: 0,
                volume_letter: self.volume_letter,
            };
            let head: [u8; HEADER_SIZE] = placeholder.to_bytes();
            out.extend_from_slice(head.as_slice());
        }
        assert(out@ =~= if self@.raw_compat {
            Seq::empty()
        } else {
            self@.placeholder().bytes()
        });
        out
    }

    /// The level at which the chunks are compressed on their way, if they are.
    pub fn compression(&self) -> (r: Option<i32>)
        ensures
            r == if self@.compress {
                Some(self@.compression_level)
            } else {
                None
            },
    {
        if self.compress {
            Some(self.compression_level)
        } else {
            None
        }
    }

    /// Counts a chunk that is written.
    pub fn write_chunk(&mut self, data: &[u8])
        requires
            old(self)@.written + data@.len() <= u64::MAX,
        ensures
            final(self)@ == (StreamView {
                written: (old(self)@.written + data@.len()) as u64,
                ..old(self)@
            }),
    {
        self.bytes_written = self.bytes_written + data.len() as u64;
    }

    /// The header of the finished file, given the file's length, and what is to
    /// be written over its beginning.
    pub fn finish(&self, file_len: u64) -> (r: (RawMftHeader, Option<[u8; HEADER_SIZE]>))
        requires
            self@.record_size > 0,
        ensures
            r.0 == self@.final_header(file_len),
            r.1 is Some <==> !self@.raw_compat,
            r.1 matches Some(b) ==> b@ == r.0.bytes(),
    {
        let header: RawMftHeader = RawMftHeader {
            version: if self.raw_compat {
                0
            } else {
                VERSION
            },
            flags: if self.compress {
                FLAG_COMPRESSED
            } else {
                0
            },
            record_size: self.record_size,
            record_count: self.bytes_written / self.record_size as u64,
            original_size: self.bytes_written,
            compressed_size: if self.compress {
                file_len.saturating_sub(HEADER_SIZE as u64)
            } else {
                0
            },
            volume_letter: self.volume_letter,
        };
        if self.raw_compat {
            (header, None)
        } else {
            (header, Some(header.to_bytes()))
        }
    }
}

/// A file that was written chunk by chunk, its header replaced at the end,
/// loads as the chunks that went by.
pub proof fn law_streamed_file_loads_back(
    w: StreamView,
    data: Seq<u8>,
    payload: Seq<u8>,
    file_len: u64,
    o: super::LoadRawOptions,
)
    requires
        w.record_size > 0,
        !w.raw_compat,
        w.written == data.len(),
        data.len() % (w.record_size as nat) == 0,
        w.compress ==> crate::codec::zstd_content(payload) == Some(data),
        !w.compress ==> payload == data,
        'A' <= w.volume_letter <= 'Z',
        !o.header_only,
    ensures
        super::raw_content(
            crate::bytes::overlay(
                w.placeholder().bytes() + payload,
                0,
                w.final_header(file_len).bytes(),
            ),
            o,
        ) == Ok::<super::RawContent, crate::error::MftError>(
            super::RawContent { header: w.final_header(file_len), data },
        ),
{
    broadcast use crate::bytes::group_le_len;

    let h = w.final_header(file_len);
    assert(h.bytes().len() == HEADER_SIZE);
    assert(w.placeholder().bytes().len() == HEADER_SIZE);
    assert(crate::bytes::overlay(w.placeholder().bytes() + payload, 0, h.bytes()) =~= h.bytes()
        + payload);
    super::lemma_saved_loads_back(h, payload, data);
}

/// Without a header the file is the chunks and nothing else, and bare records
/// load as themselves.
pub proof fn law_bare_file_loads_back(
    w: StreamView,
    data: Seq<u8>,
    file_len: u64,
    o: super::LoadRawOptions,
)
    requires
        w.raw_compat,
        !w.compress,
        w.written == data.len(),
        super::bare_records(data, w.record_size),
        o.volume_letter == Some(w.volume_letter),
        !o.header_only,
    ensures
        super::raw_content(data, o) == Ok::<super::RawContent, crate::error::MftError>(
            super::RawContent { header: w.final_header(file_len), data },
        ),
{
    super::lemma_bare_loads_back(data, w.record_size, w.volume_letter);
}

/// The header that is written first differs from the final one of a file with a
/// header in nothing but what is not known yet: the number of records and the
/// sizes of the data. The final one says how many whole records went by, how
/// many bytes, and how many bytes of the file are compressed data.
pub proof fn law_headers_are_completed(w: StreamView, file_len: u64)
    requires
        w.record_size > 0,
        !w.raw_compat,
        file_len >= 64,
    ensures
        ({
            let first = w.placeholder();
            let last = w.final_header(file_len);
            &&& first.version == 2 && last.version == 2
            &&& first.flags == last.flags
            &&& crate::raw_iocp::flag_set(last.flags) == w.compress
            &&& first.record_size == w.record_size && last.record_size == w.record_size
            &&& first.volume_letter == w.volume_letter && last.volume_letter == w.volume_letter
            &&& first.record_count == 0 && first.original_size == 0 && first.compressed_size == 0
            &&& last.original_size == w.written
            &&& last.record_count * w.record_size <= w.written < (last.record_count + 1)
                * w.record_size
            &&& w.compress ==> last.compressed_size == file_len - 64
            &&& !w.compress ==> last.compressed_size == 0
        }),
{
    let n = w.written as int;
    let c = w.record_size as int;
    let q = n / c;
    assert(q * c <= n < (q + 1) * c) by (nonlinear_arith)
        requires
            c > 0,
            q == n / c,
    ;
}

} // verus!
