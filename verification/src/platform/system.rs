//! The machine: its drives, what kind they are, and its memory.

use crate::bytes::read_u32;
use crate::scan::{
    chars_of, find, find_char, lines, next_word, parse_u64, starts_with, trim, trim_end_matches,
};
use crate::text::from_utf16_lossy;
use vstd::prelude::*;
use vstd::slice::slice_subrange;
use vstd::string::*;

verus! {

/// The upper-case form of an ASCII letter, any other character as it is.
pub open spec fn upper(c: char) -> char {
    if 'a' <= c <= 'z' {
        (c as int - 32) as char
    } else {
        c
    }
}

/// The upper-case form of an ASCII letter, any other character as it is.
pub fn to_upper(c: char) -> (r: char)
    ensures
        r == upper(c),
{
    if 'a' <= c && c <= 'z' {
        (c as u8 - 32) as char
    } else {
        c
    }
}

/// The path of a volume's root directory.
pub fn volume_root_path(volume: char) -> (r: String)
    ensures
        r@ == seq![upper(volume), ':', '\\'],
{
    let mut s: String = String::new();
    s.push(to_upper(volume));
    s.push(':');
    s.push('\\');
    assert(s@ =~= seq![upper(volume), ':', '\\']);
    s
}

/// The drive of a path, in upper case: the one that the path begins with, else
/// the one that the current directory begins with.
pub fn infer_drive_from_path(path_drive: Option<u8>, current_drive: Option<u8>) -> (r: Option<char>)
    ensures
        r == match path_drive {
            Some(b) => Some(upper(b as char)),
            None => match current_drive {
                Some(b) => Some(upper(b as char)),
                None => None,
            },
        },
{
    match path_drive {
        Some(b) => Some(to_upper(b as char)),
        None => match current_drive {
            Some(b) => Some(to_upper(b as char)),
            None => None,
        },
    }
}

/// The drive that the system started from, by what the environment says of
/// it: the first letter of that text, or `C` where there is none.
pub open spec fn boot_drive(system_drive: Option<Seq<char>>) -> char {
    match system_drive {
        Some(s) => if s.len() > 0 && 'A' <= upper(s[0]) <= 'Z' {
            upper(s[0])
        } else {
            'C'
        },
        None => 'C',
    }
}

/// The drive that the system started from, by what the environment says of
/// it.
pub fn detect_boot_drive(system_drive: Option<&str>) -> (r: char)
    ensures
        r == boot_drive(
            match system_drive {
                Some(s) => Some(s@),
                None => None,
            },
        ),
{
    if let Some(s) = system_drive {
        if s.unicode_len() > 0 {
            let c: char = to_upper(s.get_char(0));
            if 'A' <= c && c <= 'Z' {
                return c;
            }
        }
    }
    'C'
}

/// Whether the system started from a drive.
pub fn is_boot_drive(drive_letter: char, system_drive: Option<&str>) -> (r: bool)
    ensures
        r == (upper(drive_letter) == boot_drive(
            match system_drive {
                Some(s) => Some(s@),
                None => None,
            },
        )),
{
    to_upper(drive_letter) == detect_boot_drive(system_drive)
}

/// What the system says of a volume.
#[derive(Debug)]
pub struct VolumeProbe {
    /// The kind of drive.
    pub drive_type: u32,
    /// The name of the file system in UTF-16, filled up with zeros. `None`
    /// where the system would not say.
    pub file_system: Option<Vec<u16>>,
}

/// A drive that can be removed.
pub const DRIVE_REMOVABLE: u32 = 2;

/// A drive that is built in.
pub const DRIVE_FIXED: u32 = 3;

/// The text without trailing zero characters.
pub open spec fn without_nul(s: Seq<char>) -> Seq<char> {
    crate::scan::without_trailing(s, '\0')
}

/// A probe shows a volume of this file system on a local drive.
pub open spec fn shows_ntfs(probe: VolumeProbe) -> bool {
    &&& probe.drive_type == DRIVE_REMOVABLE || probe.drive_type == DRIVE_FIXED
    &&& probe.file_system matches Some(units)
    &&& without_nul(crate::text::utf16_text(units@)) == seq!['N', 'T', 'F', 'S']
}

/// Whether a probe shows a volume of this file system on a local drive.
pub fn is_ntfs_volume(probe: &VolumeProbe) -> (r: bool)
    ensures
        r == shows_ntfs(*probe),
{
    if probe.drive_type != DRIVE_REMOVABLE && probe.drive_type != DRIVE_FIXED {
        return false;
    }
    match &probe.file_system {
        None => false,
        Some(units) => {
            let text: String = from_utf16_lossy(units.as_slice());
            let chars: Vec<char> = chars_of(text.as_str());
            let name = trim_end_matches(chars.as_slice(), '\0');
            assert(name@.len() == 4 && name@[0] == 'N' && name@[1] == 'T' && name@[2] == 'F'
                && name@[3] == 'S' ==> name@ =~= seq!['N', 'T', 'F', 'S']);
            name.len() == 4 && name[0] == 'N' && name[1] == 'T' && name[2] == 'F' && name[3] == 'S'
        },
    }
}

/// Bit `i` of a set of drives is set.
pub open spec fn has_drive(mask: u32, i: int) -> bool {
    mask & (1u32 << (i as u32)) != 0
}

/// The letter at a place in the alphabet.
pub open spec fn letter_at(i: int) -> char {
    (65 + i) as char
}

/// The letters of the first `n` drives that exist and hold this file system.
pub open spec fn ntfs_letters(mask: u32, probes: Seq<VolumeProbe>, n: int) -> Seq<char>
    decreases n,
{
    if n <= 0 {
        Seq::empty()
    } else {
        let before = ntfs_letters(mask, probes, n - 1);
        if has_drive(mask, n - 1) && shows_ntfs(probes[n - 1]) {
            before.push(letter_at(n - 1))
        } else {
            before
        }
    }
}

/// The drives that hold this file system, in alphabetical order. `mask` has a
/// bit for each drive that exists, and `probes` tells of each letter.
pub fn detect_ntfs_drives(mask: u32, probes: &[VolumeProbe]) -> (r: Vec<char>)
    requires
        probes@.len() == 26,
    ensures
        r@ == ntfs_letters(mask, probes@, 26),
{
    let mut out: Vec<char> = Vec::new();
    for i in 0..26u8
        invariant
            probes@.len() == 26,
            out@ == ntfs_letters(mask, probes@, i as int),
    {
        if (mask & (1u32 << (i as u32))) != 0 {
            if is_ntfs_volume(&probes[i as usize]) {
                out.push((65 + i) as char);
            }
        }
    }
    out
}

/// The flag of a volume that cannot be written.
pub const FILE_READ_ONLY_VOLUME: u32 = 0x0008_0000;

/// Whether a volume cannot be written, by the flags that the system gives for
/// it. A volume of which nothing is known counts as one that can.
pub fn is_volume_read_only(flags: Option<u32>) -> (r: bool)
    ensures
        r == (flags is Some && flags->0 & FILE_READ_ONLY_VOLUME != 0),
{
    match flags {
        Some(f) => (f & FILE_READ_ONLY_VOLUME) != 0,
        None => false,
    }
}

/// The kind of a drive.
#[derive(Debug, Clone, Copy, PartialEq, Eq, Structural)]
pub enum DriveType {
    /// A solid state drive on a fast bus.
    Nvme,
    /// A solid state drive.
    Ssd,
    /// A drive with rotating disks.
    Hdd,
    /// Not known. Treated as rotating.
    Unknown,
}

impl DriveType {
    /// How much is best read at once, in bytes.
    pub fn optimal_chunk_size(self) -> (r: usize)
        ensures
            r == match self {
                DriveType::Nvme => 4 * 1024 * 1024int,
                DriveType::Ssd => 2 * 1024 * 1024int,
                DriveType::Hdd | DriveType::Unknown => 1024 * 1024int,
            },
    {
        match self {
            DriveType::Nvme => 4_194_304,
            DriveType::Ssd => 2_097_152,
            DriveType::Hdd | DriveType::Unknown => 1_048_576,
        }
    }

    /// How many buffers are best filled ahead.
    pub fn prefetch_buffers(self) -> (r: usize)
        ensures
            r == match self {
                DriveType::Nvme => 8int,
                DriveType::Ssd => 4,
                DriveType::Hdd | DriveType::Unknown => 2,
            },
    {
        match self {
            DriveType::Nvme => 8,
            DriveType::Ssd => 4,
            DriveType::Hdd | DriveType::Unknown => 2,
        }
    }

    /// How many reads are best in flight at once.
    pub fn optimal_concurrency(self) -> (r: usize)
        ensures
            r == match self {
                DriveType::Nvme => 32int,
                DriveType::Ssd => 8,
                DriveType::Hdd | DriveType::Unknown => 4,
            },
    {
        match self {
            DriveType::Nvme => 32,
            DriveType::Ssd => 8,
            DriveType::Hdd | DriveType::Unknown => 4,
        }
    }

    /// How many reads are best in flight at once on a rotating drive whose
    /// table has a number of extents: the more there are, the fewer.
    pub fn optimal_concurrency_for_hdd(extent_count: usize) -> (r: usize)
        ensures
            r == if extent_count > 50 {
                2int
            } else if extent_count > 20 {
                4
            } else {
                6
            },
    {
        if extent_count > 50 {
            2
        } else if extent_count > 20 {
            4
        } else {
            6
        }
    }

    /// How much is best read at once, in bytes.
    pub fn optimal_io_size(self) -> (r: usize)
        ensures
            r == match self {
                DriveType::Nvme => 4 * 1024 * 1024int,
                DriveType::Ssd => 2 * 1024 * 1024int,
                DriveType::Hdd | DriveType::Unknown => 1024 * 1024int,
            },
    {
        self.optimal_chunk_size()
    }

    /// Whether the drive has no moving parts.
    pub fn is_high_performance(self) -> (r: bool)
        ensures
            r == (self is Nvme || self is Ssd),
    {
        matches!(self, DriveType::Nvme | DriveType::Ssd)
    }

    /// Whether records are best parsed on several threads.
    pub fn benefits_from_parallel_parsing(self) -> (r: bool)
        ensures
            r == (self is Nvme),
    {
        matches!(self, DriveType::Nvme)
    }
}

/// The bus that marks the fast kind of solid state drive.
pub const BUS_TYPE_NVME: u32 = 17;

/// What the system's answers on a drive say about its kind.
///
/// Each answer is `None` where the query failed, else the bytes that were
/// returned.
#[derive(Debug, Clone, Copy)]
pub struct DriveProbe<'a> {
    /// The drive could be opened for the first two queries.
    pub opened: bool,
    /// The description of the device.
    pub device: Option<&'a [u8]>,
    /// Whether seeks take time.
    pub seek_penalty: Option<&'a [u8]>,
    /// The drive could be opened for the last query.
    pub opened_again: bool,
    /// Whether blocks can be trimmed.
    pub trim: Option<&'a [u8]>,
}

/// The answer of a query for a flag: the byte behind two numbers.
pub open spec fn flag_of(answer: Option<&[u8]>) -> Option<bool> {
    match answer {
        Some(b) => if b@.len() >= 12 {
            Some(b@[8] != 0)
        } else {
            None
        },
        None => None,
    }
}

/// The kind of a drive that has no answer on seeks: solid state drives can
/// trim.
pub open spec fn kind_by_trim(probe: DriveProbe) -> DriveType {
    if !probe.opened_again {
        DriveType::Unknown
    } else {
        match flag_of(probe.trim) {
            Some(true) => DriveType::Ssd,
            Some(false) => DriveType::Hdd,
            None => DriveType::Unknown,
        }
    }
}

/// The device description names the fast bus.
pub open spec fn on_fast_bus(answer: Option<&[u8]>) -> bool {
    answer matches Some(b) && b@.len() >= 32 && crate::bytes::u32_at(b@, 28) == BUS_TYPE_NVME
}

/// The kind of a drive.
pub open spec fn kind_of(probe: DriveProbe) -> DriveType {
    if !probe.opened {
        DriveType::Unknown
    } else if on_fast_bus(probe.device) {
        DriveType::Nvme
    } else {
        match flag_of(probe.seek_penalty) {
            Some(true) => DriveType::Hdd,
            Some(false) => DriveType::Ssd,
            None => kind_by_trim(probe),
        }
    }
}

fn read_flag(answer: Option<&[u8]>) -> (r: Option<bool>)
    ensures
        r == flag_of(answer),
{
    match answer {
        Some(b) => if b.len() >= 12 {
            Some(b[8] != 0)
        } else {
            None
        },
        None => None,
    }
}

/// The kind of a drive that has no answer on seeks.
pub fn detect_drive_type_via_trim(probe: DriveProbe) -> (r: DriveType)
    ensures
        r == kind_by_trim(probe),
{
    if !probe.opened_again {
        return DriveType::Unknown;
    }
    match read_flag(probe.trim) {
        Some(can_trim) => if can_trim {
            DriveType::Ssd
        } else {
            DriveType::Hdd
        },
        None => DriveType::Unknown,
    }
}

/// The kind of a drive: by its bus, else by whether seeks take time, else by
/// whether blocks can be trimmed.
pub fn detect_drive_type(probe: DriveProbe) -> (r: DriveType)
    ensures
        r == kind_of(probe),
{
    if !probe.opened {
        return DriveType::Unknown;
    }
    if let Some(b) = probe.device {
        if b.len() >= 32 && read_u32(b, 28) == BUS_TYPE_NVME {
            return DriveType::Nvme;
        }
    }
    match read_flag(probe.seek_penalty) {
        Some(seeks_take_time) => if seeks_take_time {
            DriveType::Hdd
        } else {
            DriveType::Ssd
        },
        None => detect_drive_type_via_trim(probe),
    }
}

/// The memory of the machine.
#[derive(Debug, Clone, Copy, PartialEq, Eq, Structural)]
pub struct SystemMemory {
    /// All of it, in bytes.
    pub total_bytes: u64,
    /// What is free or can be freed, in bytes.
    pub available_bytes: u64,
}

/// The memory of the machine as the system gives it, or a cautious guess
/// where it does not.
pub fn query_system_memory(found: Option<SystemMemory>) -> (r: SystemMemory)
    ensures
        r == match found {
            Some(memory) => memory,
            None => SystemMemory { total_bytes: 8_589_934_592, available_bytes: 2_147_483_648 },
        },
{
    match found {
        Some(memory) => memory,
        None => SystemMemory { total_bytes: 8_589_934_592, available_bytes: 2_147_483_648 },
    }
}

/// The number of kilobytes behind the key of a line: its first word, or zero
/// where that is no number.
pub open spec fn kilobytes(rest: Seq<char>) -> u64 {
    match crate::scan::first_word(rest) {
        Some(w) => match crate::scan::number(w) {
            Some(n) => n,
            None => 0,
        },
        None => 0,
    }
}

/// The number of kilobytes behind the key of a line.
pub fn parse_meminfo_kb(rest: &[char]) -> (r: u64)
    ensures
        r == kilobytes(rest@),
{
    match next_word(rest) {
        Some(w) => match parse_u64(w) {
            Some(n) => n,
            None => 0,
        },
        None => 0,
    }
}

/// All and free kilobytes after the first `n` lines of a memory report. The
/// last line of each key counts.
pub open spec fn kilobytes_after(lines: Seq<Seq<char>>, n: int) -> (u64, u64)
    decreases n,
{
    if n <= 0 {
        (0, 0)
    } else {
        let (total, available) = kilobytes_after(lines, n - 1);
        let line = lines[n - 1];
        if crate::scan::begins(line, "MemTotal:"@) {
            (kilobytes(line.skip("MemTotal:"@.len() as int)), available)
        } else if crate::scan::begins(line, "MemAvailable:"@) {
            (total, kilobytes(line.skip("MemAvailable:"@.len() as int)))
        } else {
            (total, available)
        }
    }
}

/// All and free kilobytes by a memory report. `None` where it does not say
/// how much there is.
pub fn parse_meminfo(contents: &str) -> (r: Option<(u64, u64)>)
    ensures
        ({
            let lines = crate::scan::lines_of(contents@);
            let found = kilobytes_after(lines, lines.len() as int);
            r == if found.0 == 0 {
                None
            } else {
                Some(found)
            }
        }),
{
    let chars: Vec<char> = chars_of(contents);
    let all: Vec<Vec<char>> = lines(chars.as_slice());
    let ghost texts = crate::scan::texts(all@);
    let mut total: u64 = 0;
    let mut available: u64 = 0;
    proof {
        reveal_strlit("MemTotal:");
        reveal_strlit("MemAvailable:");
    }
    for i in 0..all.len()
        invariant
            texts == crate::scan::texts(all@),
            "MemTotal:"@.len() == 9,
            "MemAvailable:"@.len() == 13,
            (total, available) == kilobytes_after(texts, i as int),
    {
        let line = all[i].as_slice();
        assert(line@ == texts[i as int]);
        if starts_with(line, "MemTotal:") {
            assert(line@.subrange(9, line@.len() as int) =~= line@.skip(9));
            total = parse_meminfo_kb(slice_subrange(line, 9, line.len()));
        } else if starts_with(line, "MemAvailable:") {
            assert(line@.subrange(13, line@.len() as int) =~= line@.skip(13));
            available = parse_meminfo_kb(slice_subrange(line, 13, line.len()));
        }
    }
    if total == 0 {
        None
    } else {
        Some((total, available))
    }
}

/// The memory of a machine by kilobytes.
pub fn memory_of_kilobytes(total_kb: u64, available_kb: u64) -> (r: SystemMemory)
    requires
        total_kb * 1024 <= u64::MAX,
        available_kb * 1024 <= u64::MAX,
    ensures
        r.total_bytes == total_kb * 1024,
        r.available_bytes == available_kb * 1024,
{
    SystemMemory { total_bytes: total_kb * 1024, available_bytes: available_kb * 1024 }
}

/// The page counts of a virtual-memory report.
#[derive(Debug, Clone, Copy, PartialEq, Eq, Structural)]
pub struct PageCounts {
    /// Pages that are free.
    pub free: u64,
    /// Pages that were not used lately.
    pub inactive: u64,
    /// Pages that were read ahead.
    pub speculative: u64,
}

/// What stands behind the first colon of a text, up to a second one.
pub open spec fn after_colon(s: Seq<char>) -> Option<Seq<char>> {
    let n = crate::scan::until(s, ':') as int;
    if n >= s.len() {
        None
    } else {
        let rest = s.skip(n + 1);
        Some(rest.take(crate::scan::until(rest, ':') as int))
    }
}

/// The number in a line of a virtual-memory report that begins with a key.
pub open spec fn report_value(line: Seq<char>, key: Seq<char>) -> Option<u64> {
    if !crate::scan::begins(line, key) {
        None
    } else {
        match after_colon(line) {
            Some(v) => crate::scan::number(
                crate::scan::without_trailing(crate::scan::trimmed(v), '.'),
            ),
            None => None,
        }
    }
}

/// The number in a line of a virtual-memory report that begins with a key.
pub fn parse_vmstat_line(line: &[char], key: &str) -> (r: Option<u64>)
    ensures
        r == report_value(line@, key@),
{
    if !starts_with(line, key) {
        return None;
    }
    let n: usize = find_char(line, ':');
    if n >= line.len() {
        return None;
    }
    let rest = slice_subrange(line, n + 1, line.len());
    assert(rest@ =~= line@.skip(n + 1));
    let m: usize = find_char(rest, ':');
    let value = slice_subrange(rest, 0, m);
    assert(value@ =~= rest@.take(m as int));
    parse_u64(trim_end_matches(trim(value), '.'))
}

/// The page counts after the first `n` lines of a virtual-memory report. The
/// last line of each key counts.
pub open spec fn pages_after(lines: Seq<Seq<char>>, n: int) -> PageCounts
    decreases n,
{
    if n <= 0 {
        PageCounts { free: 0, inactive: 0, speculative: 0 }
    } else {
        let before = pages_after(lines, n - 1);
        let line = lines[n - 1];
        match report_value(line, "Pages free"@) {
            Some(v) => PageCounts { free: v, ..before },
            None => match report_value(line, "Pages inactive"@) {
                Some(v) => PageCounts { inactive: v, ..before },
                None => match report_value(line, "Pages speculative"@) {
                    Some(v) => PageCounts { speculative: v, ..before },
                    None => before,
                },
            },
        }
    }
}

/// The size of a page where a report does not give it.
pub const DEFAULT_PAGE_SIZE: u64 = 16384;

/// The page size in the first line of a virtual-memory report.
pub open spec fn page_size_in(line: Seq<char>) -> Option<u64> {
    match crate::scan::position_of(line, "page size of "@) {
        None => None,
        Some(p) => {
            let tail = line.skip((p + "page size of "@.len()) as int);
            let end = crate::scan::until(tail, ' ') as int;
            if end >= tail.len() {
                None
            } else {
                crate::scan::number(tail.take(end))
            }
        },
    }
}

/// The page size in the first line of a virtual-memory report.
pub fn parse_page_size(line: &[char]) -> (r: Option<u64>)
    ensures
        r == page_size_in(line@),
{
    proof {
        reveal_strlit("page size of ");
    }
    match find(line, "page size of ") {
        None => None,
        Some(p) => {
            let n: usize = line.len();
            assert(p + 13 <= n);
            let tail = slice_subrange(line, p + 13, n);
            assert(tail@ =~= line@.skip(p + 13));
            let end: usize = find_char(tail, ' ');
            if end >= tail.len() {
                return None;
            }
            let digits = slice_subrange(tail, 0, end);
            assert(digits@ =~= tail@.take(end as int));
            parse_u64(digits)
        },
    }
}

/// The page size and the page counts of a virtual-memory report.
pub open spec fn report_of(text: Seq<char>) -> (u64, PageCounts) {
    let lines = crate::scan::lines_of(text);
    let size = if lines.len() > 0 {
        page_size_in(lines[0])
    } else {
        None
    };
    (
        match size {
            Some(n) => n,
            None => DEFAULT_PAGE_SIZE,
        },
        pages_after(lines, lines.len() as int),
    )
}

/// The page size and the page counts of a virtual-memory report.
pub fn parse_vm_stat(contents: &str) -> (r: (u64, PageCounts))
    ensures
        r == report_of(contents@),
{
    let chars: Vec<char> = chars_of(contents);
    let all: Vec<Vec<char>> = lines(chars.as_slice());
    let ghost texts = crate::scan::texts(all@);
    let mut page_size: u64 = DEFAULT_PAGE_SIZE;
    if all.len() > 0 {
        assert(all@[0]@ == texts[0]);
        if let Some(n) = parse_page_size(all[0].as_slice()) {
            page_size = n;
        }
    }
    let mut pages = PageCounts { free: 0, inactive: 0, speculative: 0 };
    for i in 0..all.len()
        invariant
            texts == crate::scan::texts(all@),
            pages == pages_after(texts, i as int),
    {
        let line = all[i].as_slice();
        assert(line@ == texts[i as int]);
        if let Some(v) = parse_vmstat_line(line, "Pages free") {
            pages.free = v;
        } else if let Some(v) = parse_vmstat_line(line, "Pages inactive") {
            pages.inactive = v;
        } else if let Some(v) = parse_vmstat_line(line, "Pages speculative") {
            pages.speculative = v;
        }
    }
    (page_size, pages)
}

/// The number in a one-line report, if it is one.
pub fn parse_total_memory(contents: &str) -> (r: Option<u64>)
    ensures
        r == crate::scan::number(crate::scan::trimmed(contents@)),
{
    let chars: Vec<char> = chars_of(contents);
    parse_u64(trim(chars.as_slice()))
}

/// The memory of a machine by pages: what is free, inactive or speculative
/// is available.
pub fn memory_of_pages(total_bytes: u64, page_size: u64, pages: PageCounts) -> (r: SystemMemory)
    requires
        pages.free + pages.inactive + pages.speculative <= u64::MAX,
        (pages.free + pages.inactive + pages.speculative) * page_size <= u64::MAX,
    ensures
        r.total_bytes == total_bytes,
        r.available_bytes == (pages.free + pages.inactive + pages.speculative) * page_size,
{
    let count: u64 = pages.free + pages.inactive + pages.speculative;
    assert(0 <= count * page_size) by (nonlinear_arith);
    SystemMemory { total_bytes, available_bytes: count * page_size }
}

/// A small letter becomes the capital at the same place in the alphabet; every
/// other character stays as it is.
pub proof fn law_capitals(c: char)
    ensures
        'a' <= c <= 'z' ==> upper(c) as int - 'A' as int == c as int - 'a' as int,
        !('a' <= c <= 'z') ==> upper(c) == c,
        upper(upper(c)) == upper(c),
{
}

/// A system that says which drive it started from is believed, whatever stands
/// behind the letter; without a letter it is drive C.
pub proof fn law_boot_drives(letter: char, rest: Seq<char>)
    ensures
        'A' <= letter <= 'Z' ==> boot_drive(Some(seq![letter] + rest)) == letter,
        'a' <= letter <= 'z' ==> boot_drive(Some(seq![letter] + rest)) == upper(letter),
        !('A' <= letter <= 'Z') && !('a' <= letter <= 'z') ==> boot_drive(Some(seq![letter] + rest))
            == 'C',
        boot_drive(None) == 'C',
        boot_drive(Some(Seq::empty())) == 'C',
{
    assert((seq![letter] + rest)[0] == letter);
}

/// A volume holds this file system if it is on a drive that is fixed or can be
/// taken out, and says the name, filled up with zeros as the system does it.
pub proof fn law_file_systems_are_told_by_name(probe: VolumeProbe, zeros: nat)
    requires
        probe.file_system matches Some(units) && units@ == seq![
            'N' as u16,
            'T' as u16,
            'F' as u16,
            'S' as u16,
        ] + Seq::new(zeros, |i: int| 0u16),
    ensures
        shows_ntfs(probe) <==> probe.drive_type == 2 || probe.drive_type == 3,
{
    let name = seq!['N', 'T', 'F', 'S'];
    let fill = Seq::new(zeros, |i: int| '\0');
    let units = probe.file_system->0@;
    lemma_ascii_units(name + fill);
    assert(units =~= Seq::new((name + fill).len(), |i: int| (name + fill)[i] as u16));
    crate::text::law_utf16_reads_back(name + fill, Seq::empty());
    assert(crate::text::utf16_of(name + fill) + Seq::<u16>::empty() =~= units);
    assert(name + fill + crate::text::utf16_text(Seq::empty()) =~= name + fill);
    crate::scan::law_trailing_runs(name, '\0', zeros);
}

proof fn lemma_ascii_units(s: Seq<char>)
    requires
        forall|i: int| 0 <= i < s.len() ==> #[trigger] s[i] <= '~',
    ensures
        crate::text::utf16_of(s) == Seq::new(s.len(), |i: int| s[i] as u16),
    decreases s.len(),
{
    if s.len() > 0 {
        let rest = s.drop_first();
        assert(s[0] <= '~');
        assert forall|i: int| 0 <= i < rest.len() implies #[trigger] rest[i] <= '~' by {
            assert(s[i + 1] <= '~');
        }
        lemma_ascii_units(rest);
    }
    assert(crate::text::utf16_of(s) =~= Seq::new(s.len(), |i: int| s[i] as u16));
}

/// The drives that are listed are exactly those that exist and hold this file
/// system, in the order of the alphabet.
pub proof fn law_listed_drives(mask: u32, probes: Seq<VolumeProbe>, n: int, i: int)
    requires
        0 <= i < n <= 26,
    ensures
        ntfs_letters(mask, probes, n).contains((65 + i) as char) <==> mask & (1u32 << (i as u32))
            != 0 && shows_ntfs(probes[i]),
        forall|k: int|
            0 <= k < ntfs_letters(mask, probes, n).len() ==> 65 <= (#[trigger] ntfs_letters(
                mask,
                probes,
                n,
            )[k]) as int && ntfs_letters(mask, probes, n)[k] as int <= 64 + n,
        forall|a: int, b: int|
            0 <= a < b < ntfs_letters(mask, probes, n).len() ==> ntfs_letters(mask, probes, n)[a]
                < ntfs_letters(mask, probes, n)[b],
    decreases n,
{
    let all = ntfs_letters(mask, probes, n);
    let before = ntfs_letters(mask, probes, n - 1);
    if n > 1 {
        law_listed_drives(mask, probes, n - 1, if i < n - 1 { i } else { 0 });
    } else {
        assert(before.len() == 0);
    }
    if has_drive(mask, n - 1) && shows_ntfs(probes[n - 1]) {
        assert(all == before.push(letter_at(n - 1)));
        assert(all[all.len() - 1] == (64 + n) as char);
        if i < n - 1 {
            let c = (65 + i) as char;
            if before.contains(c) {
                let k = choose|k: int| 0 <= k < before.len() && before[k] == c;
                assert(all[k] == c);
            }
            if all.contains(c) {
                let k = choose|k: int| 0 <= k < all.len() && all[k] == c;
                assert(k < before.len());
                assert(before[k] == c);
            }
        } else {
            assert(all.contains((65 + i) as char));
        }
    } else if i == n - 1 && all.contains((65 + i) as char) {
        let k = choose|k: int| 0 <= k < all.len() && all[k] == (65 + i) as char;
        assert(before[k] as int <= 63 + n);
    }
}

/// The answer to a query for a flag has a version, a size and then the flag.
pub proof fn law_flags_read_back(b: &[u8], version: u32, size: u32, flag: u8, fill: Seq<u8>)
    requires
        b@ == crate::bytes::le32(version) + crate::bytes::le32(size) + seq![flag] + fill,
        fill.len() >= 3,
    ensures
        flag_of(Some(b)) == Some(flag != 0),
        flag_of(None) is None,
{
    broadcast use crate::bytes::group_le_len;

    assert(b@[8] == flag);
}

/// The description of a device: the bus stands behind its version, its size,
/// four flags and four places of texts. Bus 17 is the fast one.
#[verifier::spinoff_prover]
#[verifier::rlimit(40)]
pub proof fn law_buses_read_back(
    b: &[u8],
    version: u32,
    size: u32,
    flags: Seq<u8>,
    vendor: u32,
    product: u32,
    revision: u32,
    serial: u32,
    bus: u32,
    rest: Seq<u8>,
)
    requires
        flags.len() == 4,
        b@ == crate::bytes::le32(version) + crate::bytes::le32(size) + flags + crate::bytes::le32(
            vendor,
        ) + crate::bytes::le32(product) + crate::bytes::le32(revision) + crate::bytes::le32(serial)
            + crate::bytes::le32(bus) + rest,
    ensures
        on_fast_bus(Some(b)) <==> bus == 17,
        !on_fast_bus(None),
{
    broadcast use crate::bytes::group_le_len;

    assert(b@.subrange(28, 32) =~= crate::bytes::le32(bus));
    crate::bytes::lemma_le32_reads_back(b@, 28, bus);
}

/// A drive on the fast bus is one of the fastest; otherwise a drive that loses
/// time when it seeks has heads, and one that does not is solid state. Where
/// nothing is known of its seeks, a drive that can trim is solid state and one
/// that cannot has heads. Without an answer its kind is not known.
pub proof fn law_kinds_of_drives(probe: DriveProbe)
    ensures
        !probe.opened ==> kind_of(probe) is Unknown,
        probe.opened && on_fast_bus(probe.device) ==> kind_of(probe) is Nvme,
        probe.opened && !on_fast_bus(probe.device) ==> {
            &&& flag_of(probe.seek_penalty) == Some(true) ==> kind_of(probe) is Hdd
            &&& flag_of(probe.seek_penalty) == Some(false) ==> kind_of(probe) is Ssd
            &&& flag_of(probe.seek_penalty) is None ==> {
                &&& probe.opened_again && flag_of(probe.trim) == Some(true) ==> kind_of(probe)
                    is Ssd
                &&& probe.opened_again && flag_of(probe.trim) == Some(false) ==> kind_of(probe)
                    is Hdd
                &&& !probe.opened_again || flag_of(probe.trim) is None ==> kind_of(probe)
                    is Unknown
            }
        },
{
}

/// A line of a memory report: behind its key stands a number of kilobytes, with
/// blanks in front of it and a unit behind it.
pub proof fn law_kilobytes_read_back(blanks: Seq<char>, n: u64, unit: Seq<char>)
    requires
        crate::scan::all_space(blanks),
        unit.len() == 0 || crate::scan::is_space(unit[0]),
    ensures
        kilobytes(blanks + crate::text::decimal(n as nat) + unit) == n,
{
    let w = crate::text::decimal(n as nat);
    crate::scan::law_numbers_read_back(n);
    crate::text::law_numerals_stand_for_their_numbers(n as nat, 10);
    assert forall|i: int| 0 <= i < w.len() implies !crate::scan::is_space(#[trigger] w[i]) by {
        let d = crate::text::digit_value(w[i]);
        assert(0 <= crate::text::digit_value(w[i]) < 10);
        assert('0' <= w[i] <= '9' || ('W' <= w[i] <= '`'));
    }
    crate::scan::law_first_words(blanks, w, unit);
}

/// The last line of each kind counts, and lines of another kind do not matter.
pub proof fn law_last_lines_count(lines: Seq<Seq<char>>, n: int, i: int)
    requires
        0 <= i < n <= lines.len(),
    ensures
        crate::scan::begins(lines[i], "MemTotal:"@) && (forall|j: int|
            i < j < n ==> !crate::scan::begins(#[trigger] lines[j], "MemTotal:"@))
            ==> kilobytes_after(lines, n).0 == kilobytes(lines[i].skip(9)),
        crate::scan::begins(lines[i], "MemAvailable:"@) && (forall|j: int|
            i < j < n ==> !crate::scan::begins(#[trigger] lines[j], "MemAvailable:"@))
            ==> kilobytes_after(lines, n).1 == kilobytes(lines[i].skip(13)),
    decreases n,
{
    reveal_strlit("MemTotal:");
    reveal_strlit("MemAvailable:");
    assert("MemTotal:"@.len() == 9);
    assert("MemAvailable:"@.len() == 13);
    if crate::scan::begins(lines[i], "MemTotal:"@) && crate::scan::begins(
        lines[i],
        "MemAvailable:"@,
    ) {
        assert(lines[i].take(9)[3] == 'T');
        assert(lines[i].take(13)[3] == 'A');
        assert(lines[i].take(9)[3] == lines[i].take(13)[3]);
    }
    if i < n - 1 {
        law_last_lines_count(lines, n - 1, i);
        assert(lines[n - 1] == lines[n - 1]);
    }
}

/// Without a line of a kind there is none of that memory.
pub proof fn law_missing_lines_count_nothing(lines: Seq<Seq<char>>, n: int)
    requires
        0 <= n <= lines.len(),
    ensures
        (forall|j: int| 0 <= j < n ==> !crate::scan::begins(#[trigger] lines[j], "MemTotal:"@))
            ==> kilobytes_after(lines, n).0 == 0,
        (forall|j: int| 0 <= j < n ==> !crate::scan::begins(#[trigger] lines[j], "MemAvailable:"@))
            ==> kilobytes_after(lines, n).1 == 0,
    decreases n,
{
    if n > 0 {
        law_missing_lines_count_nothing(lines, n - 1);
        assert(lines[n - 1] == lines[n - 1]);
    }
}

/// A line of a virtual-memory report: a key, a colon, blanks, a number and a
/// full stop.
#[verifier::spinoff_prover]
#[verifier::rlimit(40)]
pub proof fn law_page_counts_read_back(key: Seq<char>, more: Seq<char>, blanks: Seq<char>, n: u64)
    requires
        crate::scan::all_space(blanks),
        forall|i: int| 0 <= i < key.len() ==> #[trigger] key[i] != ':',
        forall|i: int| 0 <= i < more.len() ==> #[trigger] more[i] != ':',
    ensures
        report_value(
            key + more + seq![':'] + blanks + crate::text::decimal(n as nat) + seq!['.'],
            key,
        ) == Some(n),
{
    let w = crate::text::decimal(n as nat);
    let value = blanks + w + seq!['.'];
    let line = key + more + seq![':'] + blanks + w + seq!['.'];
    let front = key + more;
    assert(line =~= front + seq![':'] + value);
    assert(line =~= key + (more + seq![':'] + value));
    crate::scan::law_beginnings(line, key, more + seq![':'] + value);
    assert forall|i: int| 0 <= i < front.len() implies #[trigger] front[i] != ':' by {
        if i < key.len() {
            assert(front[i] == key[i]);
        } else {
            assert(front[i] == more[i - key.len()]);
        }
    }
    crate::scan::law_first_place(line, ':');
    let at = crate::scan::until(line, ':') as int;
    assert(line[front.len() as int] == ':');
    assert(at == front.len()) by {
        if at < front.len() {
            assert(line[at] == front[at]);
        }
    }
    assert(line.skip(at + 1) =~= value);
    crate::text::law_numerals_stand_for_their_numbers(n as nat, 10);
    assert forall|i: int| 0 <= i < w.len() implies '0' <= #[trigger] w[i] && w[i] <= '`' && w[i]
        != ':' by {
        lemma_digit_of(n as nat, i);
    }
    crate::scan::law_first_place(value, ':');
    let stop = crate::scan::until(value, ':') as int;
    if stop < value.len() {
        if stop < blanks.len() {
            assert(value[stop] == blanks[stop]);
            assert(crate::scan::is_space(blanks[stop]));
        } else if stop < blanks.len() + w.len() {
            assert(value[stop] == w[stop - blanks.len()]);
        }
    }
    assert(value.take(stop) =~= value);
    let inner = w + seq!['.'];
    assert(value + Seq::<char>::empty() =~= value);
    assert(blanks + inner + Seq::<char>::empty() =~= value);
    assert('0' <= w[0] <= '`');
    assert(inner[0] == w[0]);
    crate::scan::law_trimming(blanks, inner, Seq::empty());
    assert(w.last() == w[w.len() - 1]);
    crate::scan::law_trailing_runs(w, '.', 1);
    assert(inner =~= w + Seq::new(1, |i: int| '.'));
    crate::scan::law_numbers_read_back(n);
}

proof fn lemma_digit_of(n: nat, i: int)
    requires
        0 <= i < crate::text::decimal(n).len(),
    ensures
        '0' <= crate::text::decimal(n)[i] <= '9',
    decreases n,
{
    let w = crate::text::decimal(n);
    if n < 10 {
        assert(w =~= seq![crate::text::digit(n)]);
    } else {
        let front = crate::text::decimal(n / 10);
        assert(w == front.push(crate::text::digit(n % 10)));
        if i < front.len() {
            lemma_digit_of(n / 10, i);
        }
    }
}

/// The size of a page stands behind its words, up to the next blank.
#[verifier::spinoff_prover]
#[verifier::rlimit(40)]
pub proof fn law_page_sizes_read_back(front: Seq<char>, n: u64, rest: Seq<char>)
    requires
        forall|i: int| 0 <= i < front.len() ==> #[trigger] front[i] != 'p',
    ensures
        page_size_in(
            front + "page size of "@ + crate::text::decimal(n as nat) + seq![' '] + rest,
        ) == Some(n),
{
    reveal_strlit("page size of ");
    let words = "page size of "@;
    assert(words.len() == 13);
    assert(words[0] == 'p');
    let w = crate::text::decimal(n as nat);
    let line = front + words + w + seq![' '] + rest;
    let tail = w + seq![' '] + rest;
    crate::scan::law_first_occurrence(line, words);
    let m = front.len() as int;
    assert(line.skip(m) =~= words + tail);
    crate::scan::law_beginnings(line.skip(m), words, tail);
    assert(crate::scan::position_of(line, words) is Some);
    let p = crate::scan::position_of(line, words)->0;
    if p < m {
        assert(line.skip(p as int)[0] == front[p as int]);
        assert(line.skip(p as int).take(13)[0] == 'p');
    }
    assert(p == m);
    assert(line.skip(m + 13) =~= tail);
    assert forall|i: int| 0 <= i < w.len() implies #[trigger] w[i] != ' ' by {
        lemma_digit_of(n as nat, i);
    }
    crate::scan::law_first_place(tail, ' ');
    let end = crate::scan::until(tail, ' ') as int;
    assert(tail[w.len() as int] == ' ');
    if end < w.len() {
        assert(tail[end] == w[end]);
    }
    assert(end == w.len());
    assert(tail.take(end) =~= w);
    crate::scan::law_numbers_read_back(n);
}

/// Of the lines of a virtual-memory report the last one of each key counts.
pub proof fn law_last_page_counts_count(lines: Seq<Seq<char>>, n: int, i: int)
    requires
        0 <= i < n <= lines.len(),
    ensures
        report_value(lines[i], "Pages free"@) is Some && (forall|j: int|
            i < j < n ==> (#[trigger] report_value(lines[j], "Pages free"@)) is None)
            ==> Some(pages_after(lines, n).free) == report_value(lines[i], "Pages free"@),
        report_value(lines[i], "Pages inactive"@) is Some && (forall|j: int|
            i < j < n ==> (#[trigger] report_value(lines[j], "Pages inactive"@)) is None)
            ==> Some(pages_after(lines, n).inactive) == report_value(lines[i], "Pages inactive"@),
        report_value(lines[i], "Pages speculative"@) is Some && (forall|j: int|
            i < j < n ==> (#[trigger] report_value(lines[j], "Pages speculative"@)) is None)
            ==> Some(pages_after(lines, n).speculative) == report_value(lines[i], "Pages speculative"@),
    decreases n,
{
    if i < n - 1 {
        law_last_page_counts_count(lines, n - 1, i);
        assert(report_value(lines[n - 1], "Pages free"@) == report_value(
            lines[n - 1],
            "Pages free"@,
        ));
    } else {
        lemma_keys_differ(lines[i]);
    }
}

proof fn lemma_keys_differ(line: Seq<char>)
    ensures
        crate::scan::begins(line, "Pages free"@) ==> !crate::scan::begins(
            line,
            "Pages inactive"@,
        ) && !crate::scan::begins(line, "Pages speculative"@),
        crate::scan::begins(line, "Pages inactive"@) ==> !crate::scan::begins(
            line,
            "Pages speculative"@,
        ),
{
    reveal_strlit("Pages free");
    reveal_strlit("Pages inactive");
    reveal_strlit("Pages speculative");
    assert("Pages free"@.len() == 10 && "Pages free"@[6] == 'f');
    assert("Pages inactive"@.len() == 14 && "Pages inactive"@[6] == 'i');
    assert("Pages speculative"@.len() == 17 && "Pages speculative"@[6] == 's');
    if crate::scan::begins(line, "Pages free"@) {
        assert(line.take(10)[6] == line[6]);
    }
    if crate::scan::begins(line, "Pages inactive"@) {
        assert(line.take(14)[6] == line[6]);
    }
    if crate::scan::begins(line, "Pages speculative"@) {
        assert(line.take(17)[6] == line[6]);
    }
}

/// An answer that is too short says nothing.
pub proof fn law_short_answers_say_nothing(b: &[u8])
    ensures
        b@.len() < 12 ==> flag_of(Some(b)) is None,
        b@.len() >= 12 ==> flag_of(Some(b)) is Some,
        b@.len() < 32 ==> !on_fast_bus(Some(b)),
{
}

/// A line without a number behind its key counts nothing.
pub proof fn law_lines_without_numbers(rest: Seq<char>)
    ensures
        crate::scan::first_word(rest) is None ==> kilobytes(rest) == 0,
        crate::scan::first_word(rest) matches Some(w) ==> (crate::scan::number(w) is None
            ==> kilobytes(rest) == 0),
{
}

/// What stands behind a colon ends at the next one.
pub proof fn law_values_stand_between_colons(a: Seq<char>, b: Seq<char>, rest: Seq<char>)
    requires
        forall|i: int| 0 <= i < a.len() ==> #[trigger] a[i] != ':',
        forall|i: int| 0 <= i < b.len() ==> #[trigger] b[i] != ':',
    ensures
        after_colon(a + seq![':'] + b + seq![':'] + rest) == Some(b),
        after_colon(a) is None,
{
    let s = a + seq![':'] + b + seq![':'] + rest;
    crate::scan::law_first_place(s, ':');
    crate::scan::law_first_place(a, ':');
    let n = crate::scan::until(s, ':') as int;
    assert(s[a.len() as int] == ':');
    if n < a.len() {
        assert(s[n] == a[n]);
    }
    let tail = s.skip(n + 1);
    assert(tail =~= b + seq![':'] + rest);
    crate::scan::law_first_place(tail, ':');
    let m = crate::scan::until(tail, ':') as int;
    assert(tail[b.len() as int] == ':');
    if m < b.len() {
        assert(tail[m] == b[m]);
    }
    assert(tail.take(m) =~= b);
}

/// A virtual-memory report gives the size of a page in its first line, or pages
/// have 16 kilobytes; its counts are taken from all of its lines.
pub proof fn law_reports_of_pages(text: Seq<char>)
    ensures
        ({
            let lines = crate::scan::lines_of(text);
            let (size, pages) = report_of(text);
            &&& pages == pages_after(lines, lines.len() as int)
            &&& lines.len() == 0 ==> size == 16 * 1024
            &&& lines.len() > 0 && page_size_in(lines[0]) is None ==> size == 16 * 1024
            &&& lines.len() > 0 && page_size_in(lines[0]) is Some ==> Some(size) == page_size_in(
                lines[0],
            )
        }),
{
}

/// A line that begins with something else than the key says nothing of it.
pub proof fn law_other_lines_say_nothing(line: Seq<char>, key: Seq<char>)
    requires
        line.len() < key.len() || line.take(key.len() as int) != key,
    ensures
        report_value(line, key) is None,
{
}

} // verus!
