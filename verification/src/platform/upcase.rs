//! The upper-case table of a volume: a 16-bit number for each 16-bit number.
//!
//! A saved table is a file of a header of 64 bytes and the table, all numbers
//! with the least significant byte first:
//!
//! | Offset | Size | Field |
//! | --- | --- | --- |
//! | 0 | 8 | magic |
//! | 8 | 4 | version of the format |
//! | 12 | 2 | major version of the file system |
//! | 14 | 2 | minor version of the file system |
//! | 16 | 8 | serial number of the volume |
//! | 24 | 4 | checksum of the table |
//! | 28 | 8 | time of the capture |
//! | 36 | 1 | drive letter |
//! | 37 | 27 | zero |
//! | 64 | 131072 | the table |

use super::drive_letter::DriveLetter;
use super::volume::VolumeHandle;
use crate::bytes::{matches_at, put_bytes, put_u16, put_u32, put_u64, put_u8, read_u16, read_u32, read_u64};
use crate::error::{DataFault, MftError, UpcaseFault};
use crate::ntfs::DataRun;
use vstd::prelude::*;
use vstd::slice::slice_subrange;

verus! {

broadcast use crate::bytes::group_le_len;

/// The record of the upper-case table.
pub const UPCASE_FRS: u64 = 10;

/// Number of entries of a table.
pub const UPCASE_ENTRIES: usize = 65_536;

/// Size of a table.
pub const UPCASE_SIZE_BYTES: usize = 131_072;

/// Version of the file format.
pub const UPCASE_FORMAT_VERSION: u32 = 1;

/// Size of a file's header.
pub const UPCASE_HEADER_SIZE: usize = 64;

/// The magic of a file.
pub open spec fn upcase_magic() -> Seq<u8> {
    seq![85u8, 70, 70, 83, 85, 80, 0, 0]
}

fn magic_bytes() -> (r: [u8; 8])
    ensures
        r@ == upcase_magic(),
{
    let r: [u8; 8] = [85, 70, 70, 83, 85, 80, 0, 0];
    assert(r@ =~= upcase_magic());
    r
}

/// The bytes of a table.
pub open spec fn table_bytes(table: Seq<u16>) -> Seq<u8> {
    Seq::new(
        2 * table.len(),
        |i: int|
            if i % 2 == 0 {
                (table[i / 2] % 256) as u8
            } else {
                (table[i / 2] / 256) as u8
            },
    )
}

/// The table in some bytes.
pub open spec fn table_of(bytes: Seq<u8>) -> Seq<u16> {
    Seq::new(bytes.len() / 2, |i: int| crate::bytes::u16_at(bytes, 2 * i))
}

/// A table that was turned into bytes can be read back from them.
pub proof fn law_table_round_trip(table: Seq<u16>)
    ensures
        table_of(table_bytes(table)) == table,
{
    let b = table_bytes(table);
    assert forall|i: int| 0 <= i < table.len() implies crate::bytes::u16_at(b, 2 * i) == table[i] by {
        assert(b[2 * i] == (table[i] % 256) as u8);
        assert((2 * i + 1) / 2 == i);
        assert(b[2 * i + 1] == (table[i] / 256) as u8);
    }
    assert(table_of(b) =~= table);
}

/// What is known of a saved table.
#[derive(Debug, Clone, Copy, PartialEq, Eq, Structural)]
pub struct UpcaseHeader {
    /// Major version of the file system.
    pub ntfs_major: u16,
    /// Minor version of the file system.
    pub ntfs_minor: u16,
    /// Serial number of the volume.
    pub volume_serial: u64,
    /// Checksum of the table.
    pub table_crc32: u32,
    /// When the table was captured, in seconds since 1970.
    pub timestamp: u64,
    /// The drive.
    pub drive: char,
}

/// The byte for a drive letter.
pub open spec fn drive_byte(drive: char) -> u8 {
    (drive as u32 % 256) as u8
}

impl UpcaseHeader {
    /// The bytes of a file's header.
    pub open spec fn bytes(self) -> Seq<u8> {
        upcase_magic() + crate::bytes::le32(UPCASE_FORMAT_VERSION) + crate::bytes::le16(
            self.ntfs_major,
        ) + crate::bytes::le16(self.ntfs_minor) + crate::bytes::le64(self.volume_serial)
            + crate::bytes::le32(self.table_crc32) + crate::bytes::le64(self.timestamp) + seq![
            drive_byte(self.drive),
        ] + crate::bytes::zeros(27)
    }

    /// The header in a file's bytes.
    pub open spec fn read(b: Seq<u8>) -> UpcaseHeader {
        UpcaseHeader {
            ntfs_major: crate::bytes::u16_at(b, 12),
            ntfs_minor: crate::bytes::u16_at(b, 14),
            volume_serial: crate::bytes::u64_at(b, 16),
            table_crc32: crate::bytes::u32_at(b, 24),
            timestamp: crate::bytes::u64_at(b, 28),
            drive: b[36] as char,
        }
    }

    /// Why a file's bytes have no header that can be read, if so.
    pub open spec fn fault(b: Seq<u8>) -> Option<UpcaseFault> {
        if b.len() < UPCASE_HEADER_SIZE + UPCASE_SIZE_BYTES {
            Some(UpcaseFault::TooSmall(b.len() as usize))
        } else if !crate::bytes::bytes_at(b, 0, upcase_magic()) {
            Some(UpcaseFault::Magic)
        } else if crate::bytes::u32_at(b, 8) != UPCASE_FORMAT_VERSION {
            Some(UpcaseFault::Version(crate::bytes::u32_at(b, 8)))
        } else if !crate::platform::drive_letter::is_ascii_letter(b[36] as char) {
            Some(UpcaseFault::Drive(b[36]))
        } else {
            None
        }
    }

    /// The bytes of a file: the header, then the table.
    pub fn serialize(&self, table: &[u16; 65_536]) -> (r: Vec<u8>)
        ensures
            r@ == self.bytes() + table_bytes(table@),
            r@.len() == UPCASE_HEADER_SIZE + UPCASE_SIZE_BYTES,
    {
        let mut head: [u8; 64] = [0; 64];
        let magic = magic_bytes();
        put_bytes(&mut head, 0, magic.as_slice());
        put_u32(&mut head, 8, UPCASE_FORMAT_VERSION);
        put_u16(&mut head, 12, self.ntfs_major);
        put_u16(&mut head, 14, self.ntfs_minor);
        put_u64(&mut head, 16, self.volume_serial);
        put_u32(&mut head, 24, self.table_crc32);
        put_u64(&mut head, 28, self.timestamp);
        put_u8(&mut head, 36, (self.drive as u32 % 256) as u8);
        assert(head@ =~= self.bytes());
        let mut out: Vec<u8> = Vec::new();
        out.extend_from_slice(head.as_slice());
        assert(out@ =~= self.bytes());
        let entries = table.as_slice();
        let n: usize = entries.len();
        for i in 0..n
            invariant
                n == table@.len(),
                n == 65536,
                entries@ == table@,
                out@.len() == 64 + 2 * i,
                forall|j: int| 0 <= j < 64 ==> out@[j] == self.bytes()[j],
                forall|j: int| 64 <= j < 64 + 2 * i ==> out@[j] == table_bytes(table@)[j - 64],
        {
            let x: u16 = entries[i];
            out.push((x % 256) as u8);
            out.push((x / 256) as u8);
            assert(table_bytes(table@)[2 * i] == (x % 256) as u8);
            assert((2 * i + 1) / 2 == i as int);
            assert(table_bytes(table@)[2 * i + 1] == (x / 256) as u8);
        }
        assert(self.bytes().len() == 64);
        assert(out@ =~= self.bytes() + table_bytes(table@));
        out
    }

    /// Reads the header of a file.
    pub fn deserialize(data: &[u8]) -> (r: Result<UpcaseHeader, MftError>)
        ensures
            r == match UpcaseHeader::fault(data@) {
                Some(fault) => Err::<UpcaseHeader, MftError>(
                    MftError::InvalidData(DataFault::Upcase(fault)),
                ),
                None => Ok(UpcaseHeader::read(data@)),
            },
    {
        let n: usize = data.len();
        if n < UPCASE_HEADER_SIZE + UPCASE_SIZE_BYTES {
            return Err(MftError::InvalidData(DataFault::Upcase(UpcaseFault::TooSmall(n))));
        }
        let magic = magic_bytes();
        if !matches_at(data, 0, magic.as_slice()) {
            return Err(MftError::InvalidData(DataFault::Upcase(UpcaseFault::Magic)));
        }
        let version: u32 = read_u32(data, 8);
        if version != UPCASE_FORMAT_VERSION {
            return Err(MftError::InvalidData(DataFault::Upcase(UpcaseFault::Version(version))));
        }
        let drive: char = data[36] as char;
        if DriveLetter::parse(drive).is_err() {
            return Err(MftError::InvalidData(DataFault::Upcase(UpcaseFault::Drive(data[36]))));
        }
        Ok(
            UpcaseHeader {
                ntfs_major: read_u16(data, 12),
                ntfs_minor: read_u16(data, 14),
                volume_serial: read_u64(data, 16),
                table_crc32: read_u32(data, 24),
                timestamp: read_u64(data, 28),
                drive,
            },
        )
    }
}

/// The polynomial of the checksum, bits reversed.
pub const CRC_POLYNOMIAL: u32 = 0xEDB8_8320;

/// A step of the checksum by one bit.
pub open spec fn crc_shift(crc: u32) -> u32 {
    if crc & 1 != 0 {
        (crc >> 1u32) ^ CRC_POLYNOMIAL
    } else {
        crc >> 1u32
    }
}

/// A number of steps of the checksum.
pub open spec fn crc_shifts(crc: u32, n: nat) -> u32
    decreases n,
{
    if n == 0 {
        crc
    } else {
        crc_shift(crc_shifts(crc, (n - 1) as nat))
    }
}

/// The state of the checksum after some bytes.
pub open spec fn crc_state(data: Seq<u8>) -> u32
    decreases data.len(),
{
    if data.len() == 0 {
        0xFFFF_FFFF
    } else {
        crc_shifts(crc_state(data.drop_last()) ^ (data.last() as u32), 8)
    }
}

/// The checksum of some bytes.
pub open spec fn checksum(data: Seq<u8>) -> u32 {
    !crc_state(data)
}

/// The checksum of a table's bytes.
pub fn crc32_table(data: &[u8]) -> (r: u32)
    ensures
        r == checksum(data@),
{
    let mut crc: u32 = 0xFFFF_FFFF;
    assert(data@.take(0) =~= Seq::empty());
    for i in 0..data.len()
        invariant
            crc == crc_state(data@.take(i as int)),
    {
        assert(data@.take(i + 1).drop_last() =~= data@.take(i as int));
        let start: u32 = crc ^ (data[i] as u32);
        crc = start;
        for k in 0..8u32
            invariant
                crc == crc_shifts(start, k as nat),
        {
            crc = if crc & 1 != 0 {
                (crc >> 1u32) ^ CRC_POLYNOMIAL
            } else {
                crc >> 1u32
            };
        }
    }
    assert(data@.take(data@.len() as int) =~= data@);
    !crc
}

/// The bytes of a file that saves a table.
pub fn save_upcase_to_file(header: &UpcaseHeader, table: &[u16; 65_536]) -> (r: Vec<u8>)
    ensures
        r@ == header.bytes() + table_bytes(table@),
        r@.len() == UPCASE_HEADER_SIZE + UPCASE_SIZE_BYTES,
        header.table_crc32 == checksum(table_bytes(table@)) && crate::platform::drive_letter::is_ascii_letter(header.drive)
            ==> saved_content(r@) == Ok::<(UpcaseHeader, Seq<u16>), UpcaseFault>(
            (*header, table@),
        ),
{
    let r = header.serialize(table);
    proof {
        if header.table_crc32 == checksum(table_bytes(table@)) && crate::platform::drive_letter::is_ascii_letter(header.drive) {
            law_saved_table_loads_back(*header, table@);
        }
    }
    r
}

/// What a file that saves a table holds.
pub open spec fn saved_content(data: Seq<u8>) -> Result<(UpcaseHeader, Seq<u16>), UpcaseFault> {
    match UpcaseHeader::fault(data) {
        Some(fault) => Err(fault),
        None => {
            let header = UpcaseHeader::read(data);
            let bytes = data.subrange(64, 131_136);
            if checksum(bytes) != header.table_crc32 {
                Err(
                    UpcaseFault::Checksum {
                        stored: header.table_crc32,
                        computed: checksum(bytes),
                    },
                )
            } else {
                Ok((header, table_of(bytes)))
            }
        },
    }
}

fn read_table(bytes: &[u8]) -> (r: Vec<u16>)
    ensures
        r@ == table_of(bytes@),
{
    let n: usize = bytes.len() / 2;
    let mut out: Vec<u16> = Vec::new();
    for i in 0..n
        invariant
            n == bytes@.len() / 2,
            out@ == table_of(bytes@).take(i as int),
    {
        assert(2 * i + 2 <= bytes.len());
        out.push(read_u16(bytes, 2 * i));
        assert(table_of(bytes@).take(i + 1) =~= table_of(bytes@).take(i as int).push(
            table_of(bytes@)[i as int],
        ));
    }
    assert(table_of(bytes@).take(n as int) =~= table_of(bytes@));
    out
}

/// Reads a file that saves a table: its header and its table, if their
/// checksums agree.
pub fn load_upcase_from_file(data: &[u8]) -> (r: Result<(UpcaseHeader, Vec<u16>), MftError>)
    ensures
        match saved_content(data@) {
            Ok((header, table)) => r matches Ok((h, t)) && h == header && t@ == table,
            Err(fault) => r == Err::<(UpcaseHeader, Vec<u16>), MftError>(
                MftError::InvalidData(DataFault::Upcase(fault)),
            ),
        },
{
    let header = match UpcaseHeader::deserialize(data) {
        Ok(header) => header,
        Err(e) => {
            return Err(e);
        },
    };
    let bytes = slice_subrange(data, UPCASE_HEADER_SIZE, UPCASE_HEADER_SIZE + UPCASE_SIZE_BYTES);
    let computed: u32 = crc32_table(bytes);
    if computed != header.table_crc32 {
        return Err(
            MftError::InvalidData(
                DataFault::Upcase(
                    UpcaseFault::Checksum { stored: header.table_crc32, computed },
                ),
            ),
        );
    }
    Ok((header, read_table(bytes)))
}

proof fn lemma_header_reads_back(header: UpcaseHeader, b: Seq<u8>)
    requires
        b.len() >= 64,
        b.take(64) == header.bytes(),
        crate::platform::drive_letter::is_ascii_letter(header.drive),
    ensures
        crate::bytes::bytes_at(b, 0, upcase_magic()),
        crate::bytes::u32_at(b, 8) == UPCASE_FORMAT_VERSION,
        UpcaseHeader::read(b) == header,
{
    let h = header.bytes();
    assert(h.len() == 64);
    assert forall|i: int| 0 <= i < 64 implies b[i] == h[i] by {
        assert(b.take(64)[i] == b[i]);
    }
    assert(b.subrange(0, 8) =~= upcase_magic());
    assert(b.subrange(8, 12) =~= crate::bytes::le32(UPCASE_FORMAT_VERSION));
    crate::bytes::lemma_le32_reads_back(b, 8, UPCASE_FORMAT_VERSION);
    assert(b.subrange(12, 14) =~= crate::bytes::le16(header.ntfs_major));
    crate::bytes::lemma_le16_reads_back(b, 12, header.ntfs_major);
    assert(b.subrange(14, 16) =~= crate::bytes::le16(header.ntfs_minor));
    crate::bytes::lemma_le16_reads_back(b, 14, header.ntfs_minor);
    assert(b.subrange(16, 24) =~= crate::bytes::le64(header.volume_serial));
    crate::bytes::lemma_le64_reads_back(b, 16, header.volume_serial);
    assert(b.subrange(24, 28) =~= crate::bytes::le32(header.table_crc32));
    crate::bytes::lemma_le32_reads_back(b, 24, header.table_crc32);
    assert(b.subrange(28, 36) =~= crate::bytes::le64(header.timestamp));
    crate::bytes::lemma_le64_reads_back(b, 28, header.timestamp);
    assert(b[36] == drive_byte(header.drive));
}

/// A saved table loads back as it was saved, with its header, if the header
/// gives the table's checksum and a drive that is a letter.
pub proof fn law_saved_table_loads_back(header: UpcaseHeader, table: Seq<u16>)
    requires
        table.len() == UPCASE_ENTRIES,
        header.table_crc32 == checksum(table_bytes(table)),
        crate::platform::drive_letter::is_ascii_letter(header.drive),
    ensures
        saved_content(header.bytes() + table_bytes(table)) == Ok::<
            (UpcaseHeader, Seq<u16>),
            UpcaseFault,
        >((header, table)),
{
    let b = header.bytes() + table_bytes(table);
    assert(header.bytes().len() == 64);
    assert(b.take(64) =~= header.bytes());
    lemma_header_reads_back(header, b);
    assert(b.subrange(64, 131_136) =~= table_bytes(table));
    law_table_round_trip(table);
}

/// An attribute of a record, as far as finding the table's data asks.
#[derive(Debug)]
pub struct AttributeSummary {
    /// The attribute holds file data.
    pub is_data: bool,
    /// The data lies outside the record.
    pub is_non_resident: bool,
    /// Length of the attribute's name.
    pub name_length: u8,
    /// Size of the data, if the attribute's description can be read.
    pub data_size: Option<i64>,
    /// The clusters of the data.
    pub runs: Vec<DataRun>,
}

/// The attribute holds the data of the file itself, outside the record.
pub open spec fn holds_table(a: AttributeSummary) -> bool {
    a.is_data && a.is_non_resident && a.name_length == 0
}

/// Which of the attributes holds the data of the file itself.
pub open spec fn table_attribute(attributes: Seq<AttributeSummary>) -> Option<int>
    decreases attributes.len(),
{
    if attributes.len() == 0 {
        None
    } else if holds_table(attributes[0]) {
        Some(0)
    } else {
        match table_attribute(attributes.skip(1)) {
            Some(i) => Some(i + 1),
            None => None,
        }
    }
}

/// The data of the table: its clusters and its size.
#[derive(Debug)]
pub struct UpcaseDataRuns {
    /// The clusters.
    pub runs: Vec<DataRun>,
    /// The size.
    pub data_size: u64,
}

/// Why the attributes of the table's record do not lead to its data, if so.
pub open spec fn record_fault(attributes: Option<Seq<AttributeSummary>>) -> Option<UpcaseFault> {
    match attributes {
        None => Some(UpcaseFault::RecordHeader),
        Some(list) => match table_attribute(list) {
            None => Some(UpcaseFault::NoData),
            Some(i) => if list[i].data_size is None {
                Some(UpcaseFault::DataHeader)
            } else if list[i].runs@.len() == 0 {
                Some(UpcaseFault::NoRuns)
            } else {
                None
            },
        },
    }
}

/// Finds the data of the table among the attributes of its record. `None`
/// stands for a record whose header is not valid.
pub fn parse_data_runs(attributes: Option<&[AttributeSummary]>) -> (r: Result<
    UpcaseDataRuns,
    MftError,
>)
    ensures
        ({
            let list = match attributes {
                Some(a) => Some(a@),
                None => None,
            };
            match record_fault(list) {
                Some(fault) => r == Err::<UpcaseDataRuns, MftError>(
                    MftError::InvalidData(DataFault::Upcase(fault)),
                ),
                None => {
                    let found = list->0[table_attribute(list->0)->0];
                    &&& r matches Ok(info)
                    &&& info.runs@ == found.runs@
                    &&& info.data_size == crate::bytes::unsigned64(found.data_size->0)
                },
            }
        }),
{
    let list = match attributes {
        Some(list) => list,
        None => {
            return Err(MftError::InvalidData(DataFault::Upcase(UpcaseFault::RecordHeader)));
        },
    };
    let n: usize = list.len();
    let mut i: usize = 0;
    assert(list@.skip(0) =~= list@);
    while i < n && !(list[i].is_data && list[i].is_non_resident && list[i].name_length == 0)
        invariant
            i <= n,
            n == list@.len(),
            table_attribute(list@) == (match table_attribute(list@.skip(i as int)) {
                Some(k) => Some(k + i),
                None => None,
            }),
        decreases n - i,
    {
        assert(list@.skip(i as int).skip(1) =~= list@.skip(i + 1));
        i += 1;
    }
    if i == n {
        return Err(MftError::InvalidData(DataFault::Upcase(UpcaseFault::NoData)));
    }
    assert(table_attribute(list@) == Some(i as int));
    let data_size: i64 = match list[i].data_size {
        Some(size) => size,
        None => {
            return Err(MftError::InvalidData(DataFault::Upcase(UpcaseFault::DataHeader)));
        },
    };
    if list[i].runs.len() == 0 {
        return Err(MftError::InvalidData(DataFault::Upcase(UpcaseFault::NoRuns)));
    }
    let mut runs: Vec<DataRun> = Vec::new();
    let count: usize = list[i].runs.len();
    for j in 0..count
        invariant
            i < list@.len(),
            count == list@[i as int].runs@.len(),
            runs@ == list@[i as int].runs@.take(j as int),
    {
        runs.push(list[i].runs[j]);
        assert(list@[i as int].runs@.take(j + 1) =~= list@[i as int].runs@.take(j as int).push(
            list@[i as int].runs@[j as int],
        ));
    }
    assert(list@[i as int].runs@.take(count as int) =~= list@[i as int].runs@);
    Ok(UpcaseDataRuns { runs, data_size: crate::bytes::to_unsigned64(data_size) })
}

/// Where the record of the upper-case table lies on its volume, in bytes.
pub fn upcase_record_offset(volume: &VolumeHandle) -> (r: u64)
    requires
        volume.volume_data.mft_start_lcn * volume.volume_data.bytes_per_cluster + UPCASE_FRS
            * volume.volume_data.bytes_per_file_record_segment <= u64::MAX,
    ensures
        r == volume.volume_data.mft_start_lcn * volume.volume_data.bytes_per_cluster + UPCASE_FRS
            * volume.volume_data.bytes_per_file_record_segment,
        r - volume.volume_data.mft_start_lcn * volume.volume_data.bytes_per_cluster == 10
            * volume.volume_data.bytes_per_file_record_segment,
{
    volume.mft_byte_offset() + UPCASE_FRS * volume.file_record_size() as u64
}

/// A read from the volume.
#[derive(Debug, Clone, Copy, PartialEq, Eq, Structural)]
pub struct ClusterRead {
    /// Where to read.
    pub disk_offset: u64,
    /// How many bytes to read.
    pub length: usize,
}

/// Reads the upper-case table from its clusters, run by run.
///
/// The caller performs each read that `next_read` gives and hands in what
/// came by `filled`.
#[derive(Debug)]
pub struct UpcaseLoad {
    /// The runs of the table.
    pub runs: Vec<DataRun>,
    /// The size of a cluster.
    pub bytes_per_cluster: u32,
    /// The run that comes next.
    pub next: usize,
    /// Where its data goes.
    pub offset: usize,
    /// The table so far.
    pub buffer: Vec<u8>,
}

/// The size of a run in bytes.
pub open spec fn run_size(run: DataRun, bytes_per_cluster: u32) -> int {
    run.cluster_count * bytes_per_cluster
}

/// Where a run lies on its volume, in bytes.
pub open spec fn run_place(run: DataRun, bytes_per_cluster: u32) -> int {
    if run.lcn.0 < 0 {
        0
    } else {
        run.lcn.0 * bytes_per_cluster
    }
}

/// What comes after the first `next` runs, if the data of the next run goes to
/// `offset`: the next run that is not sparse and where its data goes, or no
/// run and where the data ended.
pub open spec fn next_step(runs: Seq<DataRun>, bytes_per_cluster: u32, next: int, offset: int) -> Result<
    (int, int),
    UpcaseFault,
>
    decreases runs.len() - next,
{
    if next < 0 || next >= runs.len() {
        Ok((runs.len() as int, offset))
    } else {
        let run = runs[next];
        let size = run_size(run, bytes_per_cluster);
        if size > usize::MAX {
            Err(UpcaseFault::RunTooLong { cluster_count: run.cluster_count, bytes_per_cluster })
        } else if run.sparse() {
            if offset + size > usize::MAX {
                Err(UpcaseFault::RunBounds(offset as usize))
            } else {
                next_step(runs, bytes_per_cluster, next + 1, offset + size)
            }
        } else if offset > UPCASE_SIZE_BYTES {
            Err(UpcaseFault::RunBounds(offset as usize))
        } else if run_place(run, bytes_per_cluster) > i64::MAX {
            Err(UpcaseFault::Offset(run_place(run, bytes_per_cluster) as u128))
        } else {
            Ok((next, offset))
        }
    }
}

impl UpcaseLoad {
    /// The buffer has the size of a table.
    pub open spec fn wf(self) -> bool {
        self.buffer@.len() == UPCASE_SIZE_BYTES && self.next <= self.runs@.len()
    }

    /// The read of the run that comes next.
    pub open spec fn current_read(self) -> ClusterRead {
        let run = self.runs@[self.next as int];
        let size = run_size(run, self.bytes_per_cluster);
        let room = UPCASE_SIZE_BYTES - self.offset;
        ClusterRead {
            disk_offset: run_place(run, self.bytes_per_cluster) as u64,
            length: if size < room {
                size as usize
            } else {
                room as usize
            },
        }
    }

    /// Begins with the data of a table. Data of another size is none.
    pub fn begin(info: UpcaseDataRuns, bytes_per_cluster: u32) -> (r: Result<UpcaseLoad, MftError>)
        ensures
            r is Ok <==> info.data_size == UPCASE_SIZE_BYTES,
            r matches Ok(load) ==> {
                &&& load.wf()
                &&& load.runs@ == info.runs@
                &&& load.bytes_per_cluster == bytes_per_cluster
                &&& load.next == 0
                &&& load.offset == 0
                &&& load.buffer@ == crate::bytes::zeros(UPCASE_SIZE_BYTES as nat)
            },
            r matches Err(e) ==> e == MftError::InvalidData(
                DataFault::Upcase(UpcaseFault::Size(info.data_size)),
            ),
    {
        if info.data_size != UPCASE_SIZE_BYTES as u64 {
            return Err(
                MftError::InvalidData(DataFault::Upcase(UpcaseFault::Size(info.data_size))),
            );
        }
        let buffer: Vec<u8> = vec![0u8; UPCASE_SIZE_BYTES];
        assert(buffer@ =~= crate::bytes::zeros(UPCASE_SIZE_BYTES as nat));
        Ok(UpcaseLoad { runs: info.runs, bytes_per_cluster, next: 0, offset: 0, buffer })
    }

    /// The next read. The data of sparse runs stays zero. `None` when every
    /// run is done.
    pub fn next_read(&mut self) -> (r: Result<Option<ClusterRead>, MftError>)
        requires
            old(self).wf(),
        ensures
            final(self).wf(),
            final(self).runs@ == old(self).runs@,
            final(self).bytes_per_cluster == old(self).bytes_per_cluster,
            final(self).buffer@ == old(self).buffer@,
            match next_step(
                old(self).runs@,
                old(self).bytes_per_cluster,
                old(self).next as int,
                old(self).offset as int,
            ) {
                Err(fault) => r == Err::<Option<ClusterRead>, MftError>(
                    MftError::InvalidData(DataFault::Upcase(fault)),
                ),
                Ok((next, offset)) => {
                    &&& final(self).next == next
                    &&& final(self).offset == offset
                    &&& r == Ok::<Option<ClusterRead>, MftError>(
                        if next < old(self).runs@.len() {
                            Some(final(self).current_read())
                        } else {
                            None
                        },
                    )
                    &&& r matches Ok(Some(read)) ==> offset + read.length <= UPCASE_SIZE_BYTES
                },
            },
    {
        let n: usize = self.runs.len();
        while self.next < n
            invariant
                self.wf(),
                n == self.runs@.len(),
                self.runs@ == old(self).runs@,
                self.bytes_per_cluster == old(self).bytes_per_cluster,
                self.buffer@ == old(self).buffer@,
                next_step(
                    self.runs@,
                    self.bytes_per_cluster,
                    self.next as int,
                    self.offset as int,
                ) == next_step(
                    old(self).runs@,
                    old(self).bytes_per_cluster,
                    old(self).next as int,
                    old(self).offset as int,
                ),
            decreases n - self.next,
        {
            let run = self.runs[self.next];
            let bpc: u32 = self.bytes_per_cluster;
            let count: u128 = run.cluster_count as u128;
            assert(0 <= count * bpc <= 0xFFFF_FFFF_FFFF_FFFF * 0xFFFF_FFFF) by (nonlinear_arith)
                requires
                    0 <= count <= 0xFFFF_FFFF_FFFF_FFFF,
                    0 <= bpc <= 0xFFFF_FFFF,
            ;
            let wide: u128 = count * bpc as u128;
            if wide > usize::MAX as u128 {
                return Err(
                    MftError::InvalidData(
                        DataFault::Upcase(
                            UpcaseFault::RunTooLong {
                                cluster_count: run.cluster_count,
                                bytes_per_cluster: bpc,
                            },
                        ),
                    ),
                );
            }
            let size: usize = wide as usize;
            if run.is_sparse() {
                if size > usize::MAX - self.offset {
                    return Err(
                        MftError::InvalidData(
                            DataFault::Upcase(UpcaseFault::RunBounds(self.offset)),
                        ),
                    );
                }
                self.offset = self.offset + size;
                self.next = self.next + 1;
            } else {
                if self.offset > UPCASE_SIZE_BYTES {
                    return Err(
                        MftError::InvalidData(
                            DataFault::Upcase(UpcaseFault::RunBounds(self.offset)),
                        ),
                    );
                }
                let raw: i128 = if run.lcn.raw() < 0 {
                    0
                } else {
                    run.lcn.raw() as i128
                };
                assert(0 <= raw * bpc <= 0x7FFF_FFFF_FFFF_FFFF * 0xFFFF_FFFF)
                    by (nonlinear_arith)
                    requires
                        0 <= raw <= 0x7FFF_FFFF_FFFF_FFFF,
                        0 <= bpc <= 0xFFFF_FFFF,
                ;
                let place: i128 = raw * bpc as i128;
                assert(place == run_place(run, bpc));
                if place > i64::MAX as i128 {
                    return Err(
                        MftError::InvalidData(
                            DataFault::Upcase(UpcaseFault::Offset(place as u128)),
                        ),
                    );
                }
                let room: usize = UPCASE_SIZE_BYTES - self.offset;
                let length: usize = if size < room {
                    size
                } else {
                    room
                };
                return Ok(Some(ClusterRead { disk_offset: place as u64, length }));
            }
        }
        Ok(None)
    }

    /// Takes what the read of the current run brought.
    pub fn filled(&mut self, bytes: &[u8]) -> (r: Result<(), MftError>)
        requires
            old(self).wf(),
            old(self).next < old(self).runs@.len(),
            old(self).offset + old(self).current_read().length <= UPCASE_SIZE_BYTES,
        ensures
            final(self).wf(),
            final(self).runs@ == old(self).runs@,
            final(self).bytes_per_cluster == old(self).bytes_per_cluster,
            ({
                let wanted = old(self).current_read().length;
                if bytes@.len() < wanted {
                    &&& r == Err::<(), MftError>(
                        MftError::InvalidData(
                            DataFault::Upcase(
                                UpcaseFault::ShortRead { got: bytes@.len() as usize, wanted },
                            ),
                        ),
                    )
                    &&& final(self).next == old(self).next
                    &&& final(self).offset == old(self).offset
                    &&& final(self).buffer@ == old(self).buffer@
                } else {
                    &&& r is Ok
                    &&& final(self).next == old(self).next + 1
                    &&& final(self).offset == old(self).offset + wanted
                    &&& final(self).buffer@ == crate::bytes::overlay(
                        old(self).buffer@,
                        old(self).offset as int,
                        bytes@.take(wanted as int),
                    )
                }
            }),
            r is Ok ==> forall|j: int|
                0 <= j < 131_072 ==> #[trigger] final(self).buffer@[j] == if old(self).offset <= j
                    < final(self).offset {
                    bytes@[j - old(self).offset]
                } else {
                    old(self).buffer@[j]
                },
    {
        let n: usize = self.runs.len();
        assert(self.next < n);
        let run = self.runs[self.next];
        let bpc: u32 = self.bytes_per_cluster;
        let count: u128 = run.cluster_count as u128;
        assert(0 <= count * bpc <= 0xFFFF_FFFF_FFFF_FFFF * 0xFFFF_FFFF) by (nonlinear_arith)
            requires
                0 <= count <= 0xFFFF_FFFF_FFFF_FFFF,
                0 <= bpc <= 0xFFFF_FFFF,
        ;
        let wide: u128 = count * bpc as u128;
        let room: usize = UPCASE_SIZE_BYTES - self.offset;
        let wanted: usize = if wide < room as u128 {
            wide as usize
        } else {
            room
        };
        if bytes.len() < wanted {
            return Err(
                MftError::InvalidData(
                    DataFault::Upcase(UpcaseFault::ShortRead { got: bytes.len(), wanted }),
                ),
            );
        }
        let at: usize = self.offset;
        for i in 0..wanted
            invariant
                self.runs@ == old(self).runs@,
                self.bytes_per_cluster == old(self).bytes_per_cluster,
                self.next == old(self).next,
                self.offset == at,
                at == old(self).offset,
                at + wanted <= UPCASE_SIZE_BYTES,
                wanted <= bytes@.len(),
                self.buffer@.len() == UPCASE_SIZE_BYTES,
                old(self).buffer@.len() == UPCASE_SIZE_BYTES,
                self.buffer@ =~= crate::bytes::overlay(
                    old(self).buffer@,
                    at as int,
                    bytes@.take(i as int),
                ),
        {
            self.buffer.set(at + i, bytes[i]);
        }
        self.offset = at + wanted;
        self.next = self.next + 1;
        Ok(())
    }
}

/// The table that was read from its volume, if the runs covered all of it.
pub fn read_upcase_table(load: UpcaseLoad) -> (r: Result<Vec<u16>, MftError>)
    requires
        load.wf(),
    ensures
        if load.offset < UPCASE_SIZE_BYTES {
            r == Err::<Vec<u16>, MftError>(
                MftError::InvalidData(DataFault::Upcase(UpcaseFault::Incomplete(load.offset))),
            )
        } else {
            r matches Ok(table) && table@ == table_of(load.buffer@) && table@.len()
                == UPCASE_ENTRIES
        },
        r is Ok <==> load.offset >= 131_072,
{
    if load.offset < UPCASE_SIZE_BYTES {
        return Err(
            MftError::InvalidData(DataFault::Upcase(UpcaseFault::Incomplete(load.offset))),
        );
    }
    Ok(read_table(load.buffer.as_slice()))
}

/// Where the fields of a header stand in a file.
#[verifier::spinoff_prover]
#[verifier::rlimit(40)]
pub proof fn law_header_layout(h: UpcaseHeader, i: int)
    ensures
        ({
            let b = h.bytes();
            &&& b.len() == 64
            &&& b.subrange(0, 8) == seq![
                'U' as u8,
                'F' as u8,
                'F' as u8,
                'S' as u8,
                'U' as u8,
                'P' as u8,
                0u8,
                0u8,
            ]
            &&& crate::bytes::u32_at(b, 8) == 1
            &&& crate::bytes::u16_at(b, 12) == h.ntfs_major
            &&& crate::bytes::u16_at(b, 14) == h.ntfs_minor
            &&& crate::bytes::u64_at(b, 16) == h.volume_serial
            &&& crate::bytes::u32_at(b, 24) == h.table_crc32
            &&& crate::bytes::u64_at(b, 28) == h.timestamp
            &&& (h.drive as int) < 256 ==> b[36] == h.drive as int
            &&& 37 <= i < 64 ==> b[i] == 0
        }),
{
    let b = h.bytes();
    assert(b.len() == 64);
    assert(b.subrange(0, 8) =~= upcase_magic());
    assert(b.subrange(8, 12) =~= crate::bytes::le32(1));
    assert(b.subrange(12, 14) =~= crate::bytes::le16(h.ntfs_major));
    assert(b.subrange(14, 16) =~= crate::bytes::le16(h.ntfs_minor));
    assert(b.subrange(16, 24) =~= crate::bytes::le64(h.volume_serial));
    assert(b.subrange(24, 28) =~= crate::bytes::le32(h.table_crc32));
    assert(b.subrange(28, 36) =~= crate::bytes::le64(h.timestamp));
    crate::bytes::lemma_le32_reads_back(b, 8, 1);
    crate::bytes::lemma_le16_reads_back(b, 12, h.ntfs_major);
    crate::bytes::lemma_le16_reads_back(b, 14, h.ntfs_minor);
    crate::bytes::lemma_le64_reads_back(b, 16, h.volume_serial);
    crate::bytes::lemma_le32_reads_back(b, 24, h.table_crc32);
    crate::bytes::lemma_le64_reads_back(b, 28, h.timestamp);
    assert(b[36] == drive_byte(h.drive));
}

/// An entry of a table takes two bytes, the lower one first.
pub proof fn law_entries_take_two_bytes(table: Seq<u16>, i: int)
    requires
        0 <= i < table.len(),
    ensures
        table_bytes(table).len() == 2 * table.len(),
        table_bytes(table)[2 * i] == table[i] % 256,
        table_bytes(table)[2 * i + 1] == table[i] / 256,
{
    assert((2 * i + 1) / 2 == i);
}

/// A file is refused exactly where it is too short, does not begin with the
/// right letters, has another version than 1 or names no drive.
pub proof fn law_only_whole_files_are_read(b: Seq<u8>)
    ensures
        UpcaseHeader::fault(b) is None <==> b.len() >= 64 + 131_072 && b.subrange(0, 8) == seq![
            'U' as u8,
            'F' as u8,
            'F' as u8,
            'S' as u8,
            'U' as u8,
            'P' as u8,
            0u8,
            0u8,
        ] && crate::bytes::u32_at(b, 8) == 1 && ('A' as u8 <= b[36] <= 'Z' as u8 || 'a' as u8
            <= b[36] <= 'z' as u8),
{
    assert(upcase_magic() =~= seq![
        'U' as u8,
        'F' as u8,
        'F' as u8,
        'S' as u8,
        'U' as u8,
        'P' as u8,
        0u8,
        0u8,
    ]);
}

/// The data of the file is in the first attribute that holds data outside the
/// record and has no name.
pub proof fn law_first_unnamed_data_counts(attributes: Seq<AttributeSummary>)
    ensures
        match table_attribute(attributes) {
            Some(i) => {
                &&& 0 <= i < attributes.len()
                &&& attributes[i].is_data && attributes[i].is_non_resident
                    && attributes[i].name_length == 0
                &&& forall|j: int|
                    0 <= j < i ==> !((#[trigger] attributes[j]).is_data
                        && attributes[j].is_non_resident && attributes[j].name_length == 0)
            },
            None => forall|j: int|
                0 <= j < attributes.len() ==> !((#[trigger] attributes[j]).is_data
                    && attributes[j].is_non_resident && attributes[j].name_length == 0),
        },
    decreases attributes.len(),
{
    if attributes.len() > 0 && !holds_table(attributes[0]) {
        let rest = attributes.skip(1);
        law_first_unnamed_data_counts(rest);
        match table_attribute(rest) {
            Some(i) => {
                assert(attributes[i + 1] == rest[i]);
                assert forall|j: int| 0 <= j < i + 1 implies !((#[trigger] attributes[j]).is_data
                    && attributes[j].is_non_resident && attributes[j].name_length == 0) by {
                    if j > 0 {
                        assert(attributes[j] == rest[j - 1]);
                    }
                }
            },
            None => {
                assert forall|j: int| 0 <= j < attributes.len() implies !((
                #[trigger] attributes[j]).is_data && attributes[j].is_non_resident
                    && attributes[j].name_length == 0) by {
                    if j > 0 {
                        assert(attributes[j] == rest[j - 1]);
                    }
                }
            },
        }
    }
}

/// A run without clusters on the volume is passed over, and what follows it
/// goes as far behind as the run is long; any other run is read where it lies.
pub proof fn law_sparse_runs_leave_room(
    runs: Seq<DataRun>,
    bytes_per_cluster: u32,
    next: int,
    offset: int,
)
    requires
        0 <= next < runs.len(),
        0 <= offset,
        runs[next].cluster_count * bytes_per_cluster + offset <= usize::MAX,
    ensures
        runs[next].lcn.0 == 0 ==> next_step(runs, bytes_per_cluster, next, offset) == next_step(
            runs,
            bytes_per_cluster,
            next + 1,
            offset + runs[next].cluster_count * bytes_per_cluster,
        ),
        runs[next].lcn.0 != 0 && offset <= 131_072 && runs[next].lcn.0 * bytes_per_cluster
            <= i64::MAX ==> next_step(runs, bytes_per_cluster, next, offset) == Ok::<
            (int, int),
            UpcaseFault,
        >((next, offset)),
        runs[next].lcn.0 != 0 && offset > 131_072 ==> next_step(
            runs,
            bytes_per_cluster,
            next,
            offset,
        ) is Err,
{
    let n = runs[next].cluster_count as int;
    let c = bytes_per_cluster as int;
    assert(0 <= n * c) by (nonlinear_arith)
        requires
            0 <= n,
            0 <= c,
    ;
}

/// Each run is read from its place on the volume, and no more of it than the
/// table still has room for.
pub proof fn law_runs_are_read_from_their_place(load: UpcaseLoad)
    requires
        load.next < load.runs@.len(),
        load.offset <= 131_072,
        0 <= load.runs@[load.next as int].lcn.0,
        load.runs@[load.next as int].lcn.0 * load.bytes_per_cluster <= i64::MAX,
        load.runs@[load.next as int].cluster_count * load.bytes_per_cluster <= usize::MAX,
    ensures
        ({
            let run = load.runs@[load.next as int];
            let read = load.current_read();
            &&& read.disk_offset == run.lcn.0 * load.bytes_per_cluster
            &&& read.length <= run.cluster_count * load.bytes_per_cluster
            &&& load.offset + read.length <= 131_072
            &&& read.length == run.cluster_count * load.bytes_per_cluster || load.offset
                + read.length == 131_072
        }),
{
    let run = load.runs@[load.next as int];
    let n = run.cluster_count as int;
    let l = run.lcn.0 as int;
    let c = load.bytes_per_cluster as int;
    assert(0 <= n * c && 0 <= l * c) by (nonlinear_arith)
        requires
            0 <= n,
            0 <= l,
            0 <= c,
    ;
}

/// A file is read if and only if it is whole and its table has the checksum that
/// its header gives; then it gives the header, and the entry at each place of the
/// table.
pub proof fn law_damaged_tables_are_refused(data: Seq<u8>, i: int)
    ensures
        saved_content(data) is Ok <==> UpcaseHeader::fault(data) is None && checksum(
            data.subrange(64, 131_136),
        ) == crate::bytes::u32_at(data, 24),
        saved_content(data) matches Ok((header, table)) ==> {
            &&& header == UpcaseHeader::read(data)
            &&& table.len() == 65_536
            &&& 0 <= i < 65_536 ==> table[i] == crate::bytes::u16_at(data, 64 + 2 * i)
        },
{
    if saved_content(data) is Ok && 0 <= i < 65_536 {
        let bytes = data.subrange(64, 131_136);
        assert(bytes[2 * i] == data[64 + 2 * i]);
        assert(bytes[2 * i + 1] == data[64 + 2 * i + 1]);
    }
}

/// What is wrong with the record of the table: it cannot be read, it has no data
/// outside of itself, the data has no size or no clusters, in this order.
pub proof fn law_faults_of_the_record(list: Seq<AttributeSummary>)
    ensures
        record_fault(None) == Some(UpcaseFault::RecordHeader),
        table_attribute(list) is None ==> record_fault(Some(list)) == Some(UpcaseFault::NoData),
        table_attribute(list) matches Some(i) ==> {
            &&& list[i].data_size is None ==> record_fault(Some(list)) == Some(
                UpcaseFault::DataHeader,
            )
            &&& list[i].data_size is Some && list[i].runs@.len() == 0 ==> record_fault(Some(list))
                == Some(UpcaseFault::NoRuns)
            &&& list[i].data_size is Some && list[i].runs@.len() > 0 ==> record_fault(Some(list))
                is None
        },
{
}

} // verus!
