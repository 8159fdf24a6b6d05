use uffs_mft::error::{DataFault, IoFault, MftError, RetrievalFault};
use uffs_mft::platform::volume::{
    bitmap_path, classify_wait_error_code, device_path, mft_path, open_failure, peek_broker_handle,
    register_broker_handle, wait_deadline_exceeded, BitmapLoad, BitmapRead, BrokerHandles,
    NtfsBootSector, OpenPlan, ReportedVolumeData,
};
use uffs_mft::platform::win32::{system_error, win32_code};
use uffs_mft::platform::{DriveLetter, Lcn, MftExtent, VolumeHandle};

#[test]
fn classify_wait_error_maps_aborted_waits_to_cancelled() {
    let error = classify_wait_error_code("read_all_index", 995, "wait aborted");

    assert!(matches!(
        error,
        MftError::Cancelled {
            operation: "read_all_index",
            ..
        }
    ));
}

#[test]
fn classify_wait_error_maps_other_wait_failures_to_wait_failed() {
    let error = classify_wait_error_code("read_all_index", 123, "wait failed");

    assert!(matches!(
        error,
        MftError::WaitFailed {
            operation: "read_all_index",
            ..
        }
    ));
}

#[test]
fn wait_deadline_helper_builds_timeout_error() {
    let error = wait_deadline_exceeded("read_all_index", 31_000, "no completions arrived");

    assert!(matches!(
        error,
        MftError::Timeout {
            operation: "read_all_index",
            ..
        }
    ));
}

#[test]
fn wait_errors_tell_their_reason() {
    assert_eq!(
        classify_wait_error_code("x", 995, "wait aborted"),
        MftError::Cancelled {
            operation: "x",
            reason: "wait aborted (Win32 error 995)".to_string(),
        }
    );
    assert_eq!(
        classify_wait_error_code("x", 0, "odd"),
        MftError::WaitFailed {
            operation: "x",
            reason: "odd (Win32 error 0)".to_string(),
        }
    );
    assert_eq!(
        wait_deadline_exceeded("x", 31_000, "nothing"),
        MftError::Timeout {
            operation: "x",
            reason: "nothing after 31000 ms without observing a completion".to_string(),
        }
    );
}

#[test]
fn hresult_to_io_error_unwraps_file_exists_to_already_exists() {
    assert_eq!(
        system_error(0x8007_0050),
        IoFault::Os(80_i32),
        "the bare code (80) must be reported, not the result"
    );
}

#[test]
fn hresult_to_io_error_unwraps_access_denied_to_permission_denied() {
    assert_eq!(system_error(0x8007_0005), IoFault::Os(5_i32));
}

#[test]
fn hresult_to_io_error_passes_through_non_win32_hresults() {
    let bits = 0x8000_4002_u32;
    assert_eq!(
        system_error(bits),
        IoFault::Os(bits as i32),
        "any other result must be forwarded verbatim"
    );
}

#[test]
fn only_one_facility_is_unwrapped() {
    assert_eq!(win32_code(0x8007_FFFF), 0xFFFF);
    assert_eq!(win32_code(0x0007_0005), 0x0007_0005);
    assert_eq!(win32_code(0x8008_0005), 0x8008_0005);
}

#[test]
fn registered_handles_are_used_first() {
    let mut handles = BrokerHandles::new();
    assert_eq!(peek_broker_handle(&handles, DriveLetter::C), None);
    assert_eq!(handles.open_plan(DriveLetter::C), OpenPlan::OpenDevice);
    register_broker_handle(&mut handles, DriveLetter::C, 44);
    register_broker_handle(&mut handles, DriveLetter::D, 45);
    register_broker_handle(&mut handles, DriveLetter::C, 46);
    assert_eq!(peek_broker_handle(&handles, DriveLetter::C), Some(46));
    assert_eq!(peek_broker_handle(&handles, DriveLetter::C), Some(46));
    assert_eq!(handles.open_plan(DriveLetter::D), OpenPlan::Duplicate(45));
    assert_eq!(handles.open_plan(DriveLetter::E), OpenPlan::OpenDevice);
}

#[test]
fn open_failures_are_told_apart() {
    assert_eq!(
        open_failure(OpenPlan::OpenDevice, DriveLetter::C, 0x8007_0005),
        MftError::InsufficientPrivileges
    );
    assert_eq!(
        open_failure(OpenPlan::Duplicate(1), DriveLetter::C, 0x8007_0005),
        MftError::VolumeOpen {
            volume: DriveLetter::C,
            source: IoFault::Os(5),
        }
    );
    assert_eq!(
        open_failure(OpenPlan::OpenDevice, DriveLetter::Q, 0x8007_0002),
        MftError::VolumeOpen {
            volume: DriveLetter::Q,
            source: IoFault::Os(2),
        }
    );
}

#[test]
fn paths_name_the_volume() {
    assert_eq!(device_path(DriveLetter::C), "\\\\.\\C:");
    assert_eq!(mft_path(DriveLetter::D), "D:\\$MFT");
    assert_eq!(bitmap_path(DriveLetter::E), "E:\\$MFT::$BITMAP");
}

fn report() -> ReportedVolumeData {
    ReportedVolumeData {
        volume_serial_number: -1,
        number_of_sectors: 8000,
        total_clusters: 1000,
        free_clusters: 500,
        total_reserved: 7,
        bytes_per_sector: 512,
        bytes_per_cluster: 4096,
        bytes_per_file_record_segment: 1024,
        clusters_per_file_record_segment: 0,
        mft_valid_data_length: 40_960,
        mft_start_lcn: 100,
        mft2_start_lcn: 2,
        mft_zone_start: 100,
        mft_zone_end: 200,
    }
}

fn volume() -> VolumeHandle {
    VolumeHandle::adopt(OpenPlan::OpenDevice, 9, DriveLetter::C, Some(report())).unwrap()
}

#[test]
fn volume_geometry_is_taken_over() {
    let v = volume();
    assert_eq!(v.volume(), DriveLetter::C);
    assert_eq!(v.raw_handle(), 9);
    assert_eq!(v.volume_data().volume_serial_number, u64::MAX);
    assert_eq!(v.volume_data().total_clusters, 1000);
    assert_eq!(v.volume_data().reserved_allocated_bytes(), 7 * 4096);
    assert_eq!(v.mft_byte_offset(), 409_600);
    assert_eq!(v.file_record_size(), 1024);
    assert_eq!(v.estimated_record_count(), 40);
    assert_eq!(v.reopen_plan(), OpenPlan::OpenDevice);
    let copy =
        VolumeHandle::adopt(OpenPlan::Duplicate(3), 10, DriveLetter::C, Some(report())).unwrap();
    assert_eq!(copy.reopen_plan(), OpenPlan::Duplicate(10));
    assert_eq!(
        VolumeHandle::adopt(OpenPlan::OpenDevice, 9, DriveLetter::F, None),
        Err(MftError::NotNtfs(DriveLetter::F))
    );
}

fn extent(lcn: i64, cluster_count: u64) -> MftExtent {
    MftExtent {
        vcn: 0,
        cluster_count,
        lcn: Lcn::new(lcn),
    }
}

#[test]
fn failures_of_the_system_are_its_errors() {
    let v = volume();
    assert_eq!(
        v.get_mft_extents(Err(0x8007_0005)),
        Err(MftError::Io(IoFault::Os(5)))
    );
    assert_eq!(
        v.get_mft_extents(Ok(Err(MftError::RetrievalPointers(RetrievalFault::Query {
            hresult: 0x8007_0001,
            code: 1,
        })))),
        Err(MftError::Io(IoFault::Os(1)))
    );
    let too_large = MftError::RetrievalPointers(RetrievalFault::BufferTooLarge(1 << 33));
    assert_eq!(
        v.get_mft_extents(Ok(Err(too_large.clone()))),
        Err(too_large)
    );
    assert_eq!(
        v.get_mft_extents(Ok(Ok(vec![extent(5, 1)]))),
        Ok(vec![extent(5, 1)])
    );
}

#[test]
fn table_without_known_extents_is_one_extent() {
    let v = volume();
    assert_eq!(
        v.volume_data()
            .extents_or_whole(Err(MftError::InvalidBootSector)),
        vec![extent(100, 10)]
    );
    assert_eq!(
        v.volume_data().extents_or_whole(Ok(vec![extent(5, 1)])),
        vec![extent(5, 1)]
    );
}

#[test]
fn bitmap_is_loaded_extent_by_extent() {
    let extents = vec![extent(10, 1), extent(0, 0), extent(20, 1)];
    assert!(BitmapLoad::can_load(&extents, 4096));
    let mut load = BitmapLoad::begin(Some(6000), Ok(extents), 4096).unwrap();
    assert_eq!(
        load.next_read(),
        Some(BitmapRead {
            byte_offset: 40_960,
            length: 4096,
        })
    );
    load.completed(&[0xFF; 4096]);
    assert_eq!(
        load.next_read(),
        Some(BitmapRead {
            byte_offset: 81_920,
            length: 4096,
        })
    );
    load.completed(&[1; 10]);
    assert_eq!(load.next_read(), None);
    let bitmap = volume().get_mft_bitmap(Some(load));
    assert_eq!(bitmap.as_bytes().len(), 6000);
    assert_eq!(bitmap.count_in_use(), 4096 * 8 + 10);
    assert!(bitmap.is_record_in_use(4096 * 8 + 72));
    assert!(!bitmap.is_record_in_use(4096 * 8 + 80));
}

#[test]
fn failed_bitmap_load_loses_no_record() {
    assert!(BitmapLoad::begin(None, Ok(vec![extent(1, 1)]), 4096).is_none());
    assert!(BitmapLoad::begin(Some(1), Ok(vec![]), 4096).is_none());
    assert!(BitmapLoad::begin(Some(1), Err(MftError::InvalidBootSector), 4096).is_none());
    assert!(!BitmapLoad::can_load(&vec![extent(1, u64::MAX)], 4096));
    assert!(!BitmapLoad::can_load(&vec![extent(i64::MAX, 1)], 4096));
    let bitmap = volume().get_mft_bitmap(None);
    assert_eq!(bitmap.record_count(), 40);
    for frs in 0..40 {
        assert!(bitmap.is_record_in_use(frs));
    }
    assert!(!bitmap.is_record_in_use(40));
}

#[test]
fn boot_sector_is_read() {
    let mut sector = [0_u8; 512];
    assert_eq!(
        NtfsBootSector::from_sector(&sector, 100),
        Err(MftError::InvalidData(DataFault::ShortBootSector(100)))
    );
    assert_eq!(
        NtfsBootSector::from_sector(&sector, 512),
        Err(MftError::InvalidBootSector)
    );
    sector[3..11].copy_from_slice(b"NTFS    ");
    sector[12] = 2;
    sector[13] = 8;
    sector[40] = 3;
    sector[48] = 4;
    sector[56] = 5;
    sector[79] = 0x80;
    let boot = NtfsBootSector::from_sector(&sector, 512).unwrap();
    assert_eq!(
        boot,
        NtfsBootSector {
            bytes_per_sector: 512,
            sectors_per_cluster: 8,
            total_sectors: 3,
            mft_lcn: 4,
            mft2_lcn: 5,
            volume_serial_number: 1 << 63,
        }
    );
}
