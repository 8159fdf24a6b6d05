//! Volumes: what is known of an open one, how its table is found and how the
//! table's bitmap is loaded.

use super::bitmap::MftBitmap;
use super::drive_letter::DriveLetter;
use super::extents::MftExtent;
use super::lcn::Lcn;
use super::win32::{system_error, ACCESS_DENIED_RESULT, ERROR_OPERATION_ABORTED_CODE};
use crate::bytes::{copy_range, matches_at, read_u16, read_u64, to_signed64, to_unsigned64};
use crate::error::{DataFault, MftError, RetrievalFault};
use crate::text::push_decimal;
use std::collections::HashMap;
use vstd::prelude::*;
use vstd::string::*;

verus! {

broadcast use vstd::std_specs::hash::group_hash_axioms;

/// How long a single wait for a completion lasts, in milliseconds.
pub const IOCP_WAIT_POLL_INTERVAL_MS: u32 = 100;

/// How long nothing may complete before a wait is given up, in milliseconds.
pub const IOCP_WAIT_COMPLETION_DEADLINE_MS: u64 = 30_000;

/// The reason of a wait that ended with an error code.
pub open spec fn wait_reason(detail: Seq<char>, error_code: u32) -> Seq<char> {
    detail + " (Win32 error "@ + crate::text::decimal(error_code as nat) + ")"@
}

/// The error for a wait that ended with an error code: an aborted operation
/// was cancelled, any other code is a failed wait.
pub fn classify_wait_error_code(operation: &'static str, error_code: u32, detail: &str) -> (r:
    MftError)
    ensures
        match r {
            MftError::Cancelled { operation: o, reason } => {
                &&& error_code == ERROR_OPERATION_ABORTED_CODE
                &&& o == operation
                &&& reason@ == wait_reason(detail@, error_code)
            },
            MftError::WaitFailed { operation: o, reason } => {
                &&& error_code != ERROR_OPERATION_ABORTED_CODE
                &&& o == operation
                &&& reason@ == wait_reason(detail@, error_code)
            },
            _ => false,
        },
        r is Cancelled <==> error_code == 995,
{
    let mut reason: String = String::from_str(detail);
    reason.append(" (Win32 error ");
    push_decimal(&mut reason, error_code as u64);
    reason.append(")");
    if error_code == ERROR_OPERATION_ABORTED_CODE {
        MftError::Cancelled { operation, reason }
    } else {
        MftError::WaitFailed { operation, reason }
    }
}

/// The error for a wait in which nothing completed for too long.
pub fn wait_deadline_exceeded(operation: &'static str, waited_ms: u64, detail: &str) -> (r:
    MftError)
    ensures
        match r {
            MftError::Timeout { operation: o, reason } => {
                &&& o == operation
                &&& reason@ == detail@ + " after "@ + crate::text::decimal(waited_ms as nat)
                    + " ms without observing a completion"@
            },
            _ => false,
        },
{
    let mut reason: String = String::from_str(detail);
    reason.append(" after ");
    push_decimal(&mut reason, waited_ms);
    reason.append(" ms without observing a completion");
    MftError::Timeout { operation, reason }
}

/// Volume handles that another process opened for this one, by drive.
///
/// A handle stays registered: every opening of its drive makes a copy of it.
#[derive(Debug)]
pub struct BrokerHandles {
    handles: HashMap<u64, u64>,
}

impl View for BrokerHandles {
    type V = Map<u64, u64>;

    closed spec fn view(&self) -> Map<u64, u64> {
        self.handles@
    }
}

/// What opening a volume begins with.
#[derive(Debug, Clone, Copy, PartialEq, Eq, Structural)]
pub enum OpenPlan {
    /// Copy this registered handle.
    Duplicate(u64),
    /// Open the device.
    OpenDevice,
}

impl BrokerHandles {
    /// The handle registered for a drive.
    pub open spec fn registered(self, drive: DriveLetter) -> Option<u64> {
        let key = drive.char_of() as u64;
        if self@.contains_key(key) {
            Some(self@[key])
        } else {
            None
        }
    }

    /// No handle for any drive.
    pub fn new() -> (r: BrokerHandles)
        ensures
            forall|drive: DriveLetter| r.registered(drive) is None,
    {
        BrokerHandles { handles: HashMap::new() }
    }

    /// How to open a drive: by its registered handle if there is one.
    pub fn open_plan(&self, drive: DriveLetter) -> (r: OpenPlan)
        ensures
            r == match self.registered(drive) {
                Some(raw_handle) => OpenPlan::Duplicate(raw_handle),
                None => OpenPlan::OpenDevice,
            },
            r is OpenDevice <==> self.registered(drive) is None,
    {
        match peek_broker_handle(self, drive) {
            Some(raw_handle) => OpenPlan::Duplicate(raw_handle),
            None => OpenPlan::OpenDevice,
        }
    }
}

/// Registers the handle of a drive, in place of an earlier one.
pub fn register_broker_handle(handles: &mut BrokerHandles, drive: DriveLetter, raw_handle: u64)
    ensures
        final(handles).registered(drive) == Some(raw_handle),
        forall|other: DriveLetter|
            other != drive ==> final(handles).registered(other) == old(handles).registered(other),
{
    let key: u64 = drive.as_char() as u64;
    handles.handles.insert(key, raw_handle);
    assert forall|other: DriveLetter| other != drive implies handles.registered(other) == old(
        handles,
    ).registered(other) by {
        drive.lemma_position_determines();
        other.lemma_position_determines();
    }
}

/// The handle registered for a drive. It stays registered.
pub fn peek_broker_handle(handles: &BrokerHandles, drive: DriveLetter) -> (r: Option<u64>)
    ensures
        r == handles.registered(drive),
{
    let key: u64 = drive.as_char() as u64;
    match handles.handles.get(&key) {
        Some(raw_handle) => Some(*raw_handle),
        None => None,
    }
}

/// The error for a volume that could not be opened, by the system's result
/// code.
pub open spec fn open_error(plan: OpenPlan, volume: DriveLetter, hresult: u32) -> MftError {
    if plan is OpenDevice && hresult == ACCESS_DENIED_RESULT {
        MftError::InsufficientPrivileges
    } else {
        MftError::VolumeOpen { volume, source: crate::platform::win32::system_fault(hresult) }
    }
}

/// The error for a volume that could not be opened.
pub fn open_failure(plan: OpenPlan, volume: DriveLetter, hresult: u32) -> (r: MftError)
    ensures
        r == open_error(plan, volume, hresult),
{
    match plan {
        OpenPlan::OpenDevice if hresult == ACCESS_DENIED_RESULT => MftError::InsufficientPrivileges,
        _ => MftError::VolumeOpen { volume, source: system_error(hresult) },
    }
}

/// The path of a volume's device.
pub fn device_path(volume: DriveLetter) -> (r: String)
    ensures
        r@ == seq!['\\', '\\', '.', '\\', volume.char_of(), ':'],
{
    let mut s: String = String::new();
    s.push('\\');
    s.push('\\');
    s.push('.');
    s.push('\\');
    s.push(volume.as_char());
    s.push(':');
    assert(s@ =~= seq!['\\', '\\', '.', '\\', volume.char_of(), ':']);
    s
}

/// The path of a volume's table.
pub fn mft_path(volume: DriveLetter) -> (r: String)
    ensures
        r@ == seq![volume.char_of()] + ":\\$MFT"@,
{
    let mut s: String = String::new();
    s.push(volume.as_char());
    s.append(":\\$MFT");
    assert(s@ =~= seq![volume.char_of()] + ":\\$MFT"@);
    s
}

/// The path of the bitmap of a volume's table.
pub fn bitmap_path(volume: DriveLetter) -> (r: String)
    ensures
        r@ == seq![volume.char_of()] + ":\\$MFT::$BITMAP"@,
{
    let mut s: String = String::new();
    s.push(volume.as_char());
    s.append(":\\$MFT::$BITMAP");
    assert(s@ =~= seq![volume.char_of()] + ":\\$MFT::$BITMAP"@);
    s
}

/// The geometry of a volume as the system reports it.
#[derive(Debug, Clone, Copy, PartialEq, Eq, Structural)]
pub struct ReportedVolumeData {
    /// Serial number of the volume.
    pub volume_serial_number: i64,
    /// Number of sectors.
    pub number_of_sectors: i64,
    /// Number of clusters.
    pub total_clusters: i64,
    /// Number of clusters that are free.
    pub free_clusters: i64,
    /// Number of clusters that are reserved.
    pub total_reserved: i64,
    /// Size of a sector.
    pub bytes_per_sector: u32,
    /// Size of a cluster.
    pub bytes_per_cluster: u32,
    /// Size of a record of the table.
    pub bytes_per_file_record_segment: u32,
    /// Clusters that a record takes.
    pub clusters_per_file_record_segment: u32,
    /// Size of the table.
    pub mft_valid_data_length: i64,
    /// First cluster of the table.
    pub mft_start_lcn: i64,
    /// First cluster of the table's copy.
    pub mft2_start_lcn: i64,
    /// First cluster set aside for the table.
    pub mft_zone_start: i64,
    /// Last cluster set aside for the table.
    pub mft_zone_end: i64,
}

/// The geometry of a volume.
#[derive(Debug, Clone, Copy, PartialEq, Eq, Structural)]
pub struct NtfsVolumeData {
    /// Serial number of the volume.
    pub volume_serial_number: u64,
    /// Major version of the file system. Zero where it was not asked for.
    pub ntfs_major_version: u16,
    /// Minor version of the file system. Zero where it was not asked for.
    pub ntfs_minor_version: u16,
    /// Number of sectors.
    pub number_of_sectors: u64,
    /// Number of clusters.
    pub total_clusters: u64,
    /// Number of clusters that are free.
    pub free_clusters: u64,
    /// Number of clusters that are reserved.
    pub total_reserved: u64,
    /// Size of a sector.
    pub bytes_per_sector: u32,
    /// Size of a cluster.
    pub bytes_per_cluster: u32,
    /// Size of a record of the table.
    pub bytes_per_file_record_segment: u32,
    /// Clusters that a record takes.
    pub clusters_per_file_record_segment: u32,
    /// Size of the table.
    pub mft_valid_data_length: u64,
    /// First cluster of the table.
    pub mft_start_lcn: u64,
    /// First cluster of the table's copy.
    pub mft2_start_lcn: u64,
    /// First cluster set aside for the table.
    pub mft_zone_start: u64,
    /// Last cluster set aside for the table.
    pub mft_zone_end: u64,
}

impl NtfsVolumeData {
    /// The geometry that a report stands for: its counts are read without a
    /// sign.
    pub open spec fn of_report(b: ReportedVolumeData) -> NtfsVolumeData {
        NtfsVolumeData {
            volume_serial_number: crate::bytes::unsigned64(b.volume_serial_number),
            ntfs_major_version: 0,
            ntfs_minor_version: 0,
            number_of_sectors: crate::bytes::unsigned64(b.number_of_sectors),
            total_clusters: crate::bytes::unsigned64(b.total_clusters),
            free_clusters: crate::bytes::unsigned64(b.free_clusters),
            total_reserved: crate::bytes::unsigned64(b.total_reserved),
            bytes_per_sector: b.bytes_per_sector,
            bytes_per_cluster: b.bytes_per_cluster,
            bytes_per_file_record_segment: b.bytes_per_file_record_segment,
            clusters_per_file_record_segment: b.clusters_per_file_record_segment,
            mft_valid_data_length: crate::bytes::unsigned64(b.mft_valid_data_length),
            mft_start_lcn: crate::bytes::unsigned64(b.mft_start_lcn),
            mft2_start_lcn: crate::bytes::unsigned64(b.mft2_start_lcn),
            mft_zone_start: crate::bytes::unsigned64(b.mft_zone_start),
            mft_zone_end: crate::bytes::unsigned64(b.mft_zone_end),
        }
    }

    /// Takes the system's report on a volume. A volume without one does not
    /// hold this file system.
    pub fn from_report(volume: DriveLetter, report: Option<ReportedVolumeData>) -> (r: Result<
        NtfsVolumeData,
        MftError,
    >)
        ensures
            r == match report {
                Some(b) => Ok::<NtfsVolumeData, MftError>(NtfsVolumeData::of_report(b)),
                None => Err(MftError::NotNtfs(volume)),
            },
    {
        match report {
            None => Err(MftError::NotNtfs(volume)),
            Some(b) => Ok(
                NtfsVolumeData {
                    volume_serial_number: to_unsigned64(b.volume_serial_number),
                    ntfs_major_version: 0,
                    ntfs_minor_version: 0,
                    number_of_sectors: to_unsigned64(b.number_of_sectors),
                    total_clusters: to_unsigned64(b.total_clusters),
                    free_clusters: to_unsigned64(b.free_clusters),
                    total_reserved: to_unsigned64(b.total_reserved),
                    bytes_per_sector: b.bytes_per_sector,
                    bytes_per_cluster: b.bytes_per_cluster,
                    bytes_per_file_record_segment: b.bytes_per_file_record_segment,
                    clusters_per_file_record_segment: b.clusters_per_file_record_segment,
                    mft_valid_data_length: to_unsigned64(b.mft_valid_data_length),
                    mft_start_lcn: to_unsigned64(b.mft_start_lcn),
                    mft2_start_lcn: to_unsigned64(b.mft2_start_lcn),
                    mft_zone_start: to_unsigned64(b.mft_zone_start),
                    mft_zone_end: to_unsigned64(b.mft_zone_end),
                },
            ),
        }
    }

    /// The bytes in the reserved clusters.
    pub open spec fn reserved_bytes(self) -> int {
        self.total_reserved * self.bytes_per_cluster
    }

    /// The bytes in the reserved clusters.
    pub fn reserved_allocated_bytes(&self) -> (r: u64)
        requires
            self.reserved_bytes() <= u64::MAX,
        ensures
            r == self.reserved_bytes(),
    {
        assert(0 <= self.total_reserved * self.bytes_per_cluster) by (nonlinear_arith);
        self.total_reserved * self.bytes_per_cluster as u64
    }

    /// The table as a single extent that begins at its first cluster.
    pub open spec fn single_extent(self) -> MftExtent {
        MftExtent {
            vcn: 0,
            cluster_count: (self.mft_valid_data_length / self.bytes_per_cluster as u64) as u64,
            lcn: Lcn(crate::bytes::signed64(self.mft_start_lcn)),
        }
    }

    /// The table as a single extent that begins at its first cluster.
    pub fn whole_table(&self) -> (r: MftExtent)
        requires
            self.bytes_per_cluster != 0,
        ensures
            r == self.single_extent(),
    {
        MftExtent {
            vcn: 0,
            cluster_count: self.mft_valid_data_length / self.bytes_per_cluster as u64,
            lcn: Lcn::new(to_signed64(self.mft_start_lcn)),
        }
    }

    /// The extents that were found, or the table as a single extent where
    /// none could be.
    pub fn extents_or_whole(&self, found: Result<Vec<MftExtent>, MftError>) -> (r: Vec<MftExtent>)
        requires
            self.bytes_per_cluster != 0,
        ensures
            r@ == match found {
                Ok(extents) => extents@,
                Err(_) => seq![self.single_extent()],
            },
    {
        match found {
            Ok(extents) => extents,
            Err(_) => {
                let r = vec![self.whole_table()];
                assert(r@ =~= seq![self.single_extent()]);
                r
            },
        }
    }
}

/// An open volume.
#[derive(Debug, Clone, Copy, PartialEq, Eq, Structural)]
pub struct VolumeHandle {
    /// The system's handle.
    pub handle: u64,
    /// The drive.
    pub volume: DriveLetter,
    /// The geometry.
    pub volume_data: NtfsVolumeData,
    /// Whether the handle is a copy of a registered one. The device of such a
    /// volume cannot be opened again by this process.
    pub broker_backed: bool,
}

impl VolumeHandle {
    /// Takes an opened handle together with the system's report on its volume.
    pub fn adopt(
        plan: OpenPlan,
        handle: u64,
        volume: DriveLetter,
        report: Option<ReportedVolumeData>,
    ) -> (r: Result<VolumeHandle, MftError>)
        ensures
            r == match report {
                Some(b) => Ok::<VolumeHandle, MftError>(
                    VolumeHandle {
                        handle,
                        volume,
                        volume_data: NtfsVolumeData::of_report(b),
                        broker_backed: plan is Duplicate,
                    },
                ),
                None => Err(MftError::NotNtfs(volume)),
            },
            r is Ok <==> report is Some,
            r matches Ok(v) ==> v.handle == handle && v.volume == volume && (v.broker_backed
                <==> plan is Duplicate),
    {
        let broker_backed = match plan {
            OpenPlan::Duplicate(_) => true,
            OpenPlan::OpenDevice => false,
        };
        match NtfsVolumeData::from_report(volume, report) {
            Ok(volume_data) => Ok(VolumeHandle { handle, volume, volume_data, broker_backed }),
            Err(e) => Err(e),
        }
    }

    /// The drive.
    pub fn volume(&self) -> (r: DriveLetter)
        ensures
            r == self.volume,
    {
        self.volume
    }

    /// The geometry.
    pub fn volume_data(&self) -> (r: &NtfsVolumeData)
        ensures
            *r == self.volume_data,
    {
        &self.volume_data
    }

    /// The system's handle.
    pub fn raw_handle(&self) -> (r: u64)
        ensures
            r == self.handle,
    {
        self.handle
    }

    /// How to get a second handle to the volume: a copy where the first one
    /// is a copy itself.
    pub fn reopen_plan(&self) -> (r: OpenPlan)
        ensures
            r == if self.broker_backed {
                OpenPlan::Duplicate(self.handle)
            } else {
                OpenPlan::OpenDevice
            },
            r is Duplicate <==> self.broker_backed,
            r matches OpenPlan::Duplicate(raw) ==> raw == self.handle,
    {
        if self.broker_backed {
            OpenPlan::Duplicate(self.handle)
        } else {
            OpenPlan::OpenDevice
        }
    }

    /// Where the table begins on the volume, in bytes.
    pub fn mft_byte_offset(&self) -> (r: u64)
        requires
            self.volume_data.mft_start_lcn * self.volume_data.bytes_per_cluster <= u64::MAX,
        ensures
            r == self.volume_data.mft_start_lcn * self.volume_data.bytes_per_cluster,
    {
        assert(0 <= self.volume_data.mft_start_lcn * self.volume_data.bytes_per_cluster)
            by (nonlinear_arith);
        self.volume_data.mft_start_lcn * self.volume_data.bytes_per_cluster as u64
    }

    /// The size of a record of the table.
    pub fn file_record_size(&self) -> (r: u32)
        ensures
            r == self.volume_data.bytes_per_file_record_segment,
    {
        self.volume_data.bytes_per_file_record_segment
    }

    /// How many records the table holds, by its size.
    pub open spec fn record_estimate(self) -> int {
        self.volume_data.mft_valid_data_length as int
            / self.volume_data.bytes_per_file_record_segment as int
    }

    /// How many records the table holds, by its size.
    pub fn estimated_record_count(&self) -> (r: u64)
        requires
            self.volume_data.bytes_per_file_record_segment != 0,
        ensures
            r == self.record_estimate(),
    {
        self.volume_data.mft_valid_data_length
            / self.volume_data.bytes_per_file_record_segment as u64
    }

    /// The extents of the table, given the answer to the query for them, or the
    /// result code with which the table's file could not be opened. Both a file
    /// that cannot be opened and a query that fails are errors of the system.
    pub fn get_mft_extents(
        &self,
        asked: Result<Result<Vec<MftExtent>, MftError>, u32>,
    ) -> (r: Result<Vec<MftExtent>, MftError>)
        ensures
            r == match asked {
                Err(hresult) => Err::<Vec<MftExtent>, MftError>(
                    MftError::Io(super::win32::system_fault(hresult)),
                ),
                Ok(Err(MftError::RetrievalPointers(RetrievalFault::Query { hresult, .. }))) => Err(
                    MftError::Io(super::win32::system_fault(hresult)),
                ),
                Ok(answer) => answer,
            },
            r is Ok <==> (asked matches Ok(Ok(_))),
            asked matches Ok(Ok(extents)) ==> (r matches Ok(same) && same@ == extents@),
    {
        match asked {
            Err(hresult) => Err(MftError::Io(system_error(hresult))),
            Ok(Err(MftError::RetrievalPointers(RetrievalFault::Query { hresult, code: _ }))) => Err(
                MftError::Io(system_error(hresult)),
            ),
            Ok(answer) => answer,
        }
    }

    /// A bitmap in which every record that the table may hold is in use.
    pub open spec fn all_in_use(self) -> Seq<bool> {
        let n = if self.record_estimate() <= usize::MAX {
            self.record_estimate()
        } else {
            usize::MAX as int
        };
        Seq::new(n as nat, |i: int| true)
    }

    /// The bitmap of the table. Where it could not be loaded, every record
    /// counts as one in use.
    pub fn get_mft_bitmap(&self, loaded: Option<BitmapLoad>) -> (r: MftBitmap)
        requires
            self.volume_data.bytes_per_file_record_segment != 0,
            loaded matches Some(load) ==> load.wf(),
        ensures
            match loaded {
                Some(load) => {
                    &&& r.bytes() == load.content()
                    &&& r@ == super::bitmap::bits_of(
                        load.content(),
                        (load.content().len() * 8) as nat,
                    )
                },
                None => r@ == self.all_in_use(),
            },
            loaded is None ==> forall|i: int| 0 <= i < r@.len() ==> #[trigger] r@[i],
    {
        match loaded {
            Some(load) => load.finish(),
            None => {
                let count: u64 = self.estimated_record_count();
                let n: usize = if count <= usize::MAX as u64 {
                    count as usize
                } else {
                    usize::MAX
                };
                MftBitmap::new_all_valid(n)
            },
        }
    }
}

/// What the first sector of a volume says.
#[derive(Debug, Clone, Copy, PartialEq, Eq, Structural)]
pub struct NtfsBootSector {
    /// Size of a sector.
    pub bytes_per_sector: u16,
    /// Sectors in a cluster.
    pub sectors_per_cluster: u8,
    /// Number of sectors.
    pub total_sectors: u64,
    /// First cluster of the table.
    pub mft_lcn: u64,
    /// First cluster of the table's copy.
    pub mft2_lcn: u64,
    /// Serial number of the volume.
    pub volume_serial_number: u64,
}

impl NtfsBootSector {
    /// The boot sector in some bytes.
    pub open spec fn read(b: Seq<u8>) -> NtfsBootSector {
        NtfsBootSector {
            bytes_per_sector: crate::bytes::u16_at(b, 11),
            sectors_per_cluster: b[13],
            total_sectors: crate::bytes::u64_at(b, 40),
            mft_lcn: crate::bytes::u64_at(b, 48),
            mft2_lcn: crate::bytes::u64_at(b, 56),
            volume_serial_number: crate::bytes::u64_at(b, 72),
        }
    }

    /// The name of the file system in its boot sectors.
    pub open spec fn oem_id() -> Seq<u8> {
        seq![78u8, 84, 70, 83, 32, 32, 32, 32]
    }

    /// Takes the first sector of a volume, of which `bytes_read` bytes came.
    pub fn from_sector(sector: &[u8; 512], bytes_read: u32) -> (r: Result<NtfsBootSector, MftError>)
        ensures
            r == if bytes_read != 512 {
                Err::<NtfsBootSector, MftError>(
                    MftError::InvalidData(DataFault::ShortBootSector(bytes_read)),
                )
            } else if !crate::bytes::bytes_at(sector@, 3, NtfsBootSector::oem_id()) {
                Err(MftError::InvalidBootSector)
            } else {
                Ok(NtfsBootSector::read(sector@))
            },
    {
        if bytes_read != 512 {
            return Err(MftError::InvalidData(DataFault::ShortBootSector(bytes_read)));
        }
        let b: &[u8] = sector.as_slice();
        let oem: [u8; 8] = [78, 84, 70, 83, 32, 32, 32, 32];
        assert(oem@ =~= NtfsBootSector::oem_id());
        if !matches_at(b, 3, oem.as_slice()) {
            return Err(MftError::InvalidBootSector);
        }
        Ok(
            NtfsBootSector {
                bytes_per_sector: read_u16(b, 11),
                sectors_per_cluster: b[13],
                total_sectors: read_u64(b, 40),
                mft_lcn: read_u64(b, 48),
                mft2_lcn: read_u64(b, 56),
                volume_serial_number: read_u64(b, 72),
            },
        )
    }
}

/// How many bytes the first `n` extents cover.
pub open spec fn covered(extents: Seq<MftExtent>, bytes_per_cluster: u32, n: int) -> int
    decreases n,
{
    if n <= 0 {
        0
    } else {
        covered(extents, bytes_per_cluster, n - 1) + extents[n - 1].size(bytes_per_cluster)
    }
}

/// The extents lie within the volume and what they cover fits into memory as
/// a bitmap.
pub open spec fn loadable(extents: Seq<MftExtent>, bytes_per_cluster: u32) -> bool {
    &&& covered(extents, bytes_per_cluster, extents.len() as int) * 8 <= usize::MAX
    &&& forall|i: int|
        0 <= i < extents.len() ==> i64::MIN <= (#[trigger] extents[i]).lcn.0 * bytes_per_cluster
            <= i64::MAX
}

proof fn lemma_covered_grows(extents: Seq<MftExtent>, bytes_per_cluster: u32, m: int, n: int)
    requires
        0 <= m <= n <= extents.len(),
    ensures
        0 <= covered(extents, bytes_per_cluster, m) <= covered(extents, bytes_per_cluster, n),
    decreases n,
{
    if n > 0 {
        assert(0 <= extents[n - 1].cluster_count * bytes_per_cluster) by (nonlinear_arith)
            requires
                0 <= extents[n - 1].cluster_count,
                0 <= bytes_per_cluster,
        ;
        if m < n {
            lemma_covered_grows(extents, bytes_per_cluster, m, n - 1);
        } else {
            lemma_covered_grows(extents, bytes_per_cluster, n - 1, n - 1);
        }
    }
}

/// A read from the volume.
#[derive(Debug, Clone, Copy, PartialEq, Eq, Structural)]
pub struct BitmapRead {
    /// Where to read.
    pub byte_offset: i64,
    /// How many bytes to read.
    pub length: usize,
}

/// Loads the bitmap of a table, extent by extent.
///
/// The caller performs each read that `next_read` gives and hands in what came
/// by `completed`. If a read or seek fails the load is given up.
#[derive(Debug)]
pub struct BitmapLoad {
    extents: Vec<MftExtent>,
    bytes_per_cluster: u32,
    file_size: i64,
    size: usize,
    next: usize,
    data: Vec<u8>,
}

impl BitmapLoad {
    /// The extents of the bitmap.
    pub closed spec fn extents(self) -> Seq<MftExtent> {
        self.extents@
    }

    /// The size of a cluster.
    pub closed spec fn cluster(self) -> u32 {
        self.bytes_per_cluster
    }

    /// The size of the bitmap's file.
    pub closed spec fn file_size(self) -> i64 {
        self.file_size
    }

    /// How many extents are done.
    pub closed spec fn done(self) -> int {
        self.next as int
    }

    /// What was read so far.
    pub closed spec fn data(self) -> Seq<u8> {
        self.data@
    }

    /// No more was read than the extents cover.
    pub closed spec fn wf(self) -> bool {
        &&& loadable(self.extents@, self.bytes_per_cluster)
        &&& self.size == covered(
            self.extents@,
            self.bytes_per_cluster,
            self.extents@.len() as int,
        )
        &&& self.next <= self.extents@.len()
        &&& self.data@.len() <= covered(
            self.extents@,
            self.bytes_per_cluster,
            self.next as int,
        )
    }

    /// The bytes of the bitmap: what was read, filled up with zeros to the
    /// size of the extents and cut to the size of the file.
    pub open spec fn content(self) -> Seq<u8> {
        let size = covered(self.extents(), self.cluster(), self.extents().len() as int);
        let all = self.data() + crate::bytes::zeros((size - self.data().len()) as nat);
        if self.file_size() <= 0 {
            all.take(0)
        } else if self.file_size() < all.len() {
            all.take(self.file_size() as int)
        } else {
            all
        }
    }

    /// Whether the extents lie within the volume and what they cover fits into
    /// memory as a bitmap.
    pub fn can_load(extents: &Vec<MftExtent>, bytes_per_cluster: u32) -> (r: bool)
        ensures
            r == loadable(extents@, bytes_per_cluster),
    {
        let mut total: u128 = 0;
        let limit: u128 = usize::MAX as u128;
        for i in 0..extents.len()
            invariant
                total == covered(extents@, bytes_per_cluster, i as int),
                total * 8 <= limit,
                limit == usize::MAX,
                forall|j: int|
                    0 <= j < i ==> i64::MIN <= (#[trigger] extents@[j]).lcn.0 * bytes_per_cluster
                        <= i64::MAX,
        {
            let extent = extents[i];
            let count: u128 = extent.cluster_count as u128;
            assert(0 <= count * bytes_per_cluster <= 0xFFFF_FFFF_FFFF_FFFF * 0xFFFF_FFFF)
                by (nonlinear_arith)
                requires
                    0 <= count <= 0xFFFF_FFFF_FFFF_FFFF,
                    0 <= bytes_per_cluster <= 0xFFFF_FFFF,
            ;
            let raw: i128 = extent.lcn.raw() as i128;
            assert(-0x8000_0000_0000_0000 * 0xFFFF_FFFF <= raw * bytes_per_cluster
                <= 0x8000_0000_0000_0000 * 0xFFFF_FFFF) by (nonlinear_arith)
                requires
                    -0x8000_0000_0000_0000 <= raw <= 0x8000_0000_0000_0000,
                    0 <= bytes_per_cluster <= 0xFFFF_FFFF,
            ;
            let position: i128 = raw * bytes_per_cluster as i128;
            if position < i64::MIN as i128 || position > i64::MAX as i128 {
                assert(extents@[i as int].lcn.0 * bytes_per_cluster == position);
                return false;
            }
            total = total + count * bytes_per_cluster as u128;
            if total > limit / 8 {
                proof {
                    lemma_covered_grows(
                        extents@,
                        bytes_per_cluster,
                        i + 1,
                        extents@.len() as int,
                    );
                }
                return false;
            }
        }
        true
    }

    /// Begins to load a bitmap whose file has a size and extents. There is
    /// nothing to load where one of them is not known or there are no
    /// extents.
    pub fn begin(
        file_size: Option<i64>,
        found: Result<Vec<MftExtent>, MftError>,
        bytes_per_cluster: u32,
    ) -> (r: Option<BitmapLoad>)
        requires
            found matches Ok(extents) ==> loadable(extents@, bytes_per_cluster),
        ensures
            r is Some <==> (file_size is Some && found is Ok && found->Ok_0@.len() > 0),
            r matches Some(load) ==> {
                &&& load.wf()
                &&& load.extents() == found->Ok_0@
                &&& load.cluster() == bytes_per_cluster
                &&& load.file_size() == file_size->0
                &&& load.done() == 0
                &&& load.data().len() == 0
            },
    {
        let file_size: i64 = match file_size {
            Some(n) => n,
            None => {
                return None;
            },
        };
        let extents = match found {
            Ok(extents) => extents,
            Err(_) => {
                return None;
            },
        };
        if extents.len() == 0 {
            return None;
        }
        let n: usize = extents.len();
        let mut size: usize = 0;
        for i in 0..n
            invariant
                n == extents@.len(),
                loadable(extents@, bytes_per_cluster),
                size == covered(extents@, bytes_per_cluster, i as int),
        {
            proof {
                lemma_covered_grows(extents@, bytes_per_cluster, i + 1, n as int);
                lemma_covered_grows(extents@, bytes_per_cluster, i as int, i as int);
            }
            size = size + extents[i].byte_size(bytes_per_cluster) as usize;
        }
        Some(BitmapLoad { extents, bytes_per_cluster, file_size, size, next: 0, data: Vec::new() })
    }

    /// The next read. Extents without clusters are passed over. `None` when
    /// every extent is done.
    pub fn next_read(&mut self) -> (r: Option<BitmapRead>)
        requires
            old(self).wf(),
        ensures
            final(self).wf(),
            final(self).extents() == old(self).extents(),
            final(self).cluster() == old(self).cluster(),
            final(self).file_size() == old(self).file_size(),
            final(self).data() == old(self).data(),
            old(self).done() <= final(self).done(),
            forall|j: int|
                old(self).done() <= j < final(self).done() ==> (#[trigger] old(
                    self,
                ).extents()[j]).size(old(self).cluster()) == 0,
            match r {
                None => final(self).done() == old(self).extents().len(),
                Some(read) => {
                    let i = final(self).done();
                    &&& i < old(self).extents().len()
                    &&& read.byte_offset == old(self).extents()[i].lcn.0 * old(self).cluster()
                    &&& read.length == old(self).extents()[i].size(old(self).cluster())
                    &&& read.length > 0
                },
            },
    {
        let n: usize = self.extents.len();
        while self.next < n
            invariant
                self.wf(),
                n == self.extents@.len(),
                self.extents@ == old(self).extents@,
                self.bytes_per_cluster == old(self).bytes_per_cluster,
                self.file_size == old(self).file_size,
                self.data@ == old(self).data@,
                old(self).next <= self.next <= n,
                forall|j: int|
                    old(self).next <= j < self.next ==> (#[trigger] old(self).extents@[j]).size(
                        old(self).bytes_per_cluster,
                    ) == 0,
            decreases n - self.next,
        {
            let extent = self.extents[self.next];
            proof {
                lemma_covered_grows(
                    self.extents@,
                    self.bytes_per_cluster,
                    self.next + 1,
                    n as int,
                );
                lemma_covered_grows(
                    self.extents@,
                    self.bytes_per_cluster,
                    self.next as int,
                    self.next as int,
                );
            }
            let length: usize = extent.byte_size(self.bytes_per_cluster) as usize;
            if length > 0 {
                assert(i64::MIN <= self.extents@[self.next as int].lcn.0 * self.bytes_per_cluster
                    <= i64::MAX);
                let byte_offset: i64 = extent.lcn.raw() * self.bytes_per_cluster as i64;
                return Some(BitmapRead { byte_offset, length });
            }
            self.next = self.next + 1;
        }
        None
    }

    /// Takes what the read of the current extent brought.
    pub fn completed(&mut self, bytes: &[u8])
        requires
            old(self).wf(),
            old(self).done() < old(self).extents().len(),
            bytes@.len() <= old(self).extents()[old(self).done()].size(old(self).cluster()),
        ensures
            final(self).wf(),
            final(self).extents() == old(self).extents(),
            final(self).cluster() == old(self).cluster(),
            final(self).file_size() == old(self).file_size(),
            final(self).done() == old(self).done() + 1,
            final(self).data() == old(self).data() + bytes@,
    {
        let n: usize = self.extents.len();
        assert(self.next < n);
        self.data.extend_from_slice(bytes);
        self.next = self.next + 1;
    }

    /// The bitmap that was loaded.
    pub fn finish(self) -> (r: MftBitmap)
        requires
            self.wf(),
        ensures
            r.bytes() == self.content(),
            r@ == super::bitmap::bits_of(self.content(), (self.content().len() * 8) as nat),
    {
        proof {
            lemma_covered_grows(
                self.extents@,
                self.bytes_per_cluster,
                self.next as int,
                self.extents@.len() as int,
            );
        }
        let ghost content = self.content();
        let ghost all = self.data@ + crate::bytes::zeros((self.size - self.data@.len()) as nat);
        let keep: usize = if self.file_size <= 0 {
            0
        } else if (self.file_size as u64) < self.size as u64 {
            self.file_size as usize
        } else {
            self.size
        };
        let bytes: Vec<u8> = if keep <= self.data.len() {
            copy_range(self.data.as_slice(), 0, keep)
        } else {
            let mut bytes: Vec<u8> = self.data;
            let fill: usize = keep - bytes.len();
            let zeros: Vec<u8> = vec![0u8; fill];
            bytes.extend_from_slice(zeros.as_slice());
            bytes
        };
        assert(bytes@ =~= all.take(keep as int));
        assert(all.take(keep as int) =~= content);
        MftBitmap::from_bytes(bytes)
    }
}

/// However the load of a bitmap fails, no record is lost: all of them count
/// as in use.
pub proof fn law_failed_load_loses_no_record(volume: VolumeHandle, i: int)
    requires
        volume.record_estimate() <= usize::MAX,
        0 <= i < volume.record_estimate(),
    ensures
        i < volume.all_in_use().len(),
        volume.all_in_use()[i],
{
}

/// A report is taken as it is: every count keeps its bit pattern, and every size
/// its value. The version is not asked for.
pub proof fn law_reports_are_kept(b: ReportedVolumeData)
    ensures
        ({
            let v = NtfsVolumeData::of_report(b);
            &&& crate::bytes::signed64(v.volume_serial_number) == b.volume_serial_number
            &&& crate::bytes::signed64(v.number_of_sectors) == b.number_of_sectors
            &&& crate::bytes::signed64(v.total_clusters) == b.total_clusters
            &&& crate::bytes::signed64(v.free_clusters) == b.free_clusters
            &&& crate::bytes::signed64(v.total_reserved) == b.total_reserved
            &&& v.bytes_per_sector == b.bytes_per_sector
            &&& v.bytes_per_cluster == b.bytes_per_cluster
            &&& v.bytes_per_file_record_segment == b.bytes_per_file_record_segment
            &&& v.clusters_per_file_record_segment == b.clusters_per_file_record_segment
            &&& crate::bytes::signed64(v.mft_valid_data_length) == b.mft_valid_data_length
            &&& crate::bytes::signed64(v.mft_start_lcn) == b.mft_start_lcn
            &&& crate::bytes::signed64(v.mft2_start_lcn) == b.mft2_start_lcn
            &&& crate::bytes::signed64(v.mft_zone_start) == b.mft_zone_start
            &&& crate::bytes::signed64(v.mft_zone_end) == b.mft_zone_end
            &&& v.ntfs_major_version == 0 && v.ntfs_minor_version == 0
        }),
{
}

/// The bytes of a boot sector, field by field.
pub open spec fn boot_sector_bytes(
    jump: Seq<u8>,
    boot: NtfsBootSector,
    parameters: Seq<u8>,
    sizes: Seq<u8>,
    code: Seq<u8>,
) -> Seq<u8> {
    jump + seq!['N' as u8, 'T' as u8, 'F' as u8, 'S' as u8, ' ' as u8, ' ' as u8, ' ' as u8, ' ' as u8]
        + crate::bytes::le16(boot.bytes_per_sector) + seq![boot.sectors_per_cluster] + parameters
        + crate::bytes::le64(boot.total_sectors) + crate::bytes::le64(boot.mft_lcn)
        + crate::bytes::le64(boot.mft2_lcn) + sizes + crate::bytes::le64(boot.volume_serial_number)
        + code
}

/// A boot sector is recognised and read back field by field.
#[verifier::spinoff_prover]
#[verifier::rlimit(40)]
pub proof fn law_boot_sectors_read_back(
    jump: Seq<u8>,
    boot: NtfsBootSector,
    parameters: Seq<u8>,
    sizes: Seq<u8>,
    code: Seq<u8>,
)
    requires
        jump.len() == 3,
        parameters.len() == 26,
        sizes.len() == 8,
    ensures
        crate::bytes::bytes_at(
            boot_sector_bytes(jump, boot, parameters, sizes, code),
            3,
            NtfsBootSector::oem_id(),
        ),
        NtfsBootSector::read(boot_sector_bytes(jump, boot, parameters, sizes, code)) == boot,
{
    broadcast use crate::bytes::group_le_len;

    let b = boot_sector_bytes(jump, boot, parameters, sizes, code);
    assert(b.subrange(11, 13) =~= crate::bytes::le16(boot.bytes_per_sector));
    assert(b[13] == boot.sectors_per_cluster);
    assert(b.subrange(40, 48) =~= crate::bytes::le64(boot.total_sectors));
    assert(b.subrange(48, 56) =~= crate::bytes::le64(boot.mft_lcn));
    assert(b.subrange(56, 64) =~= crate::bytes::le64(boot.mft2_lcn));
    assert(b.subrange(72, 80) =~= crate::bytes::le64(boot.volume_serial_number));
    crate::bytes::lemma_le16_reads_back(b, 11, boot.bytes_per_sector);
    crate::bytes::lemma_le64_reads_back(b, 40, boot.total_sectors);
    crate::bytes::lemma_le64_reads_back(b, 48, boot.mft_lcn);
    crate::bytes::lemma_le64_reads_back(b, 56, boot.mft2_lcn);
    crate::bytes::lemma_le64_reads_back(b, 72, boot.volume_serial_number);
    assert(b.subrange(3, 11) =~= NtfsBootSector::oem_id());
}

/// A bitmap holds what was read, from its first byte on, and zeros where less
/// came than the extents cover. It is as long as its file, but not longer than
/// its extents.
pub proof fn law_bitmaps_hold_what_was_read(load: BitmapLoad, i: int)
    requires
        load.data().len() <= covered(load.extents(), load.cluster(), load.extents().len() as int),
        0 <= i < load.content().len(),
    ensures
        i < load.data().len() ==> load.content()[i] == load.data()[i],
        i >= load.data().len() ==> load.content()[i] == 0,
        load.content().len() <= load.file_size(),
        load.content().len() == load.file_size() || load.content().len() == covered(
            load.extents(),
            load.cluster(),
            load.extents().len() as int,
        ),
        covered(load.extents(), load.cluster(), load.extents().len() as int) >= load.file_size()
            ==> load.content().len() == load.file_size(),
{
}

/// What extents cover adds up from one to the next.
pub proof fn law_coverage_adds_up(extents: Seq<MftExtent>, bytes_per_cluster: u32, n: int)
    requires
        0 <= n < extents.len(),
    ensures
        covered(extents, bytes_per_cluster, 0) == 0,
        covered(extents, bytes_per_cluster, n + 1) == covered(extents, bytes_per_cluster, n)
            + extents[n].cluster_count * bytes_per_cluster,
{
}

/// Taken as a single extent, the table begins where its volume says and covers
/// all of its clusters that are full.
pub proof fn law_whole_tables_are_covered(v: NtfsVolumeData)
    requires
        v.bytes_per_cluster > 0,
        v.mft_start_lcn <= i64::MAX,
    ensures
        v.single_extent().vcn == 0,
        v.single_extent().offset(v.bytes_per_cluster) == v.mft_start_lcn * v.bytes_per_cluster,
        v.single_extent().size(v.bytes_per_cluster) <= v.mft_valid_data_length
            < v.single_extent().size(v.bytes_per_cluster) + v.bytes_per_cluster,
{
    let n = v.mft_valid_data_length as int;
    let c = v.bytes_per_cluster as int;
    let q = n / c;
    assert(q * c <= n < q * c + c) by (nonlinear_arith)
        requires
            c > 0,
            q == n / c,
    ;
}

/// The table holds as many records as fit into its size.
pub proof fn law_records_fill_the_table(volume: VolumeHandle)
    requires
        volume.volume_data.bytes_per_file_record_segment > 0,
    ensures
        volume.record_estimate() * volume.volume_data.bytes_per_file_record_segment
            <= volume.volume_data.mft_valid_data_length < (volume.record_estimate() + 1)
            * volume.volume_data.bytes_per_file_record_segment,
{
    let n = volume.volume_data.mft_valid_data_length as int;
    let c = volume.volume_data.bytes_per_file_record_segment as int;
    let q = n / c;
    assert(q * c <= n < (q + 1) * c) by (nonlinear_arith)
        requires
            c > 0,
            q == n / c,
    ;
}

/// Only a device that was refused asks for more rights; every other failure is
/// reported with the drive and the system's code.
pub proof fn law_refused_devices_need_rights(volume: DriveLetter, hresult: u32, raw: u64)
    ensures
        open_error(OpenPlan::OpenDevice, volume, hresult) is InsufficientPrivileges <==> hresult
            == 0x8007_0005,
        !(open_error(OpenPlan::Duplicate(raw), volume, hresult) is InsufficientPrivileges),
        forall|plan: OpenPlan|
            #[trigger] open_error(plan, volume, hresult) is InsufficientPrivileges || (open_error(
                plan,
                volume,
                hresult,
            ) matches MftError::VolumeOpen { volume: v, source } && v == volume && source
                == crate::platform::win32::system_fault(hresult)),
{
}

/// Reserved bytes are counted by whole clusters.
pub proof fn law_reserved_bytes_are_clusters(v: NtfsVolumeData, w: NtfsVolumeData)
    requires
        w.bytes_per_cluster == v.bytes_per_cluster,
        w.total_reserved == v.total_reserved + 1,
    ensures
        w.reserved_bytes() == v.reserved_bytes() + v.bytes_per_cluster,
        v.total_reserved == 0 ==> v.reserved_bytes() == 0,
{
    let x = v.total_reserved as int;
    let c = v.bytes_per_cluster as int;
    assert((x + 1) * c == x * c + c && 0 * c == 0) by (nonlinear_arith);
}

/// A single extent can be loaded if and only if its place on the volume is one that
/// can be sought, and a flag for each of its bits fits into memory.
pub proof fn law_loadable_extents(extent: MftExtent, bytes_per_cluster: u32)
    ensures
        loadable(seq![extent], bytes_per_cluster) <==> extent.cluster_count * bytes_per_cluster * 8
            <= usize::MAX && i64::MIN <= extent.lcn.0 * bytes_per_cluster <= i64::MAX,
        loadable(Seq::empty(), bytes_per_cluster),
{
    let one = seq![extent];
    reveal_with_fuel(covered, 2);
    assert(one[0] == extent);
    assert(covered(one, bytes_per_cluster, 1) == extent.cluster_count * bytes_per_cluster);
    assert(loadable(one, bytes_per_cluster) ==> i64::MIN <= one[0].lcn.0 * bytes_per_cluster);
}

} // verus!
