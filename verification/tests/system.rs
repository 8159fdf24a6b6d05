use uffs_mft::platform::system::{
    detect_boot_drive, detect_drive_type, detect_ntfs_drives, infer_drive_from_path, is_boot_drive,
    is_ntfs_volume, is_volume_read_only, memory_of_kilobytes, memory_of_pages, parse_meminfo,
    parse_total_memory, parse_vm_stat, query_system_memory, volume_root_path, DriveProbe,
    DriveType, PageCounts, SystemMemory, VolumeProbe,
};

#[test]
fn volume_root_path_works() {
    assert_eq!(volume_root_path('c'), "C:\\");
    assert_eq!(volume_root_path('D'), "D:\\");
}

#[test]
fn nvme_optimal_settings() {
    let drive_type = DriveType::Nvme;

    assert_eq!(drive_type.optimal_concurrency(), 32);
    assert_eq!(drive_type.optimal_io_size(), 4 * 1024 * 1024);
    assert_eq!(drive_type.optimal_chunk_size(), 4 * 1024 * 1024);
    assert_eq!(drive_type.prefetch_buffers(), 8);
    assert!(drive_type.is_high_performance());
    assert!(drive_type.benefits_from_parallel_parsing());
}

#[test]
fn ssd_optimal_settings() {
    let drive_type = DriveType::Ssd;

    assert_eq!(drive_type.optimal_concurrency(), 8);
    assert_eq!(drive_type.optimal_io_size(), 2 * 1024 * 1024);
    assert_eq!(drive_type.optimal_chunk_size(), 2 * 1024 * 1024);
    assert_eq!(drive_type.prefetch_buffers(), 4);
    assert!(drive_type.is_high_performance());
    assert!(!drive_type.benefits_from_parallel_parsing());
}

#[test]
fn hdd_optimal_settings() {
    let drive_type = DriveType::Hdd;

    assert_eq!(drive_type.optimal_concurrency(), 4);
    assert_eq!(drive_type.optimal_io_size(), 1024 * 1024);
    assert_eq!(drive_type.optimal_chunk_size(), 1024 * 1024);
    assert_eq!(drive_type.prefetch_buffers(), 2);
    assert!(!drive_type.is_high_performance());
    assert!(!drive_type.benefits_from_parallel_parsing());
}

#[test]
fn hdd_extent_aware_concurrency() {
    assert_eq!(DriveType::optimal_concurrency_for_hdd(62), 2);
    assert_eq!(DriveType::optimal_concurrency_for_hdd(100), 2);
    assert_eq!(DriveType::optimal_concurrency_for_hdd(51), 2);

    assert_eq!(DriveType::optimal_concurrency_for_hdd(50), 4);
    assert_eq!(DriveType::optimal_concurrency_for_hdd(28), 4);
    assert_eq!(DriveType::optimal_concurrency_for_hdd(21), 4);

    assert_eq!(DriveType::optimal_concurrency_for_hdd(20), 6);
    assert_eq!(DriveType::optimal_concurrency_for_hdd(19), 6);
    assert_eq!(DriveType::optimal_concurrency_for_hdd(17), 6);
    assert_eq!(DriveType::optimal_concurrency_for_hdd(1), 6);
}

#[test]
fn unknown_optimal_settings() {
    let drive_type = DriveType::Unknown;

    assert_eq!(drive_type.optimal_concurrency(), 4);
    assert_eq!(drive_type.optimal_io_size(), 1024 * 1024);
    assert_eq!(drive_type.optimal_chunk_size(), 1024 * 1024);
    assert_eq!(drive_type.prefetch_buffers(), 2);
    assert!(!drive_type.is_high_performance());
    assert!(!drive_type.benefits_from_parallel_parsing());
}

#[test]
fn optimal_settings_are_reasonable() {
    let nvme = DriveType::Nvme;
    let ssd = DriveType::Ssd;
    let hdd = DriveType::Hdd;

    assert!(nvme.optimal_concurrency() > ssd.optimal_concurrency());
    assert!(ssd.optimal_concurrency() > hdd.optimal_concurrency());

    assert!(nvme.optimal_io_size() > ssd.optimal_io_size());
    assert!(ssd.optimal_io_size() >= hdd.optimal_io_size());

    assert!(nvme.prefetch_buffers() > ssd.prefetch_buffers());
    assert!(ssd.prefetch_buffers() >= hdd.prefetch_buffers());
}

#[test]
fn drive_of_a_path_comes_before_the_current_one() {
    assert_eq!(infer_drive_from_path(Some(b'd'), Some(b'C')), Some('D'));
    assert_eq!(infer_drive_from_path(None, Some(b'c')), Some('C'));
    assert_eq!(infer_drive_from_path(None, None), None);
}

#[test]
fn boot_drive_falls_back_to_c() {
    assert_eq!(detect_boot_drive(Some("d:")), 'D');
    assert_eq!(detect_boot_drive(Some("")), 'C');
    assert_eq!(detect_boot_drive(Some("1:")), 'C');
    assert_eq!(detect_boot_drive(None), 'C');
    assert!(is_boot_drive('d', Some("D:")));
    assert!(!is_boot_drive('c', Some("D:")));
    assert!(is_boot_drive('c', None));
}

fn named(drive_type: u32, name: &str) -> VolumeProbe {
    let mut units: Vec<u16> = name.encode_utf16().collect();
    units.resize(32, 0);
    VolumeProbe {
        drive_type,
        file_system: Some(units),
    }
}

#[test]
fn only_local_ntfs_volumes_count() {
    assert!(is_ntfs_volume(&named(2, "NTFS")));
    assert!(is_ntfs_volume(&named(3, "NTFS")));
    assert!(!is_ntfs_volume(&named(4, "NTFS")));
    assert!(!is_ntfs_volume(&named(3, "FAT32")));
    assert!(!is_ntfs_volume(&named(3, "NTFS5")));
    assert!(!is_ntfs_volume(&VolumeProbe {
        drive_type: 3,
        file_system: None,
    }));
}

#[test]
fn ntfs_drives_are_listed_in_order() {
    let mut probes: Vec<VolumeProbe> = Vec::new();
    for i in 0..26 {
        probes.push(if i % 2 == 0 {
            named(3, "NTFS")
        } else {
            named(3, "exFAT")
        });
    }
    assert_eq!(detect_ntfs_drives(0b111, &probes), vec!['A', 'C']);
    assert_eq!(detect_ntfs_drives(0, &probes), Vec::<char>::new());
    assert_eq!(detect_ntfs_drives(1 << 24, &probes), vec!['Y']);
    assert_eq!(detect_ntfs_drives(1 << 26, &probes), Vec::<char>::new());
}

#[test]
fn read_only_flag_is_read() {
    assert!(is_volume_read_only(Some(0x0008_0000)));
    assert!(is_volume_read_only(Some(0xFFFF_FFFF)));
    assert!(!is_volume_read_only(Some(0x0007_FFFF)));
    assert!(!is_volume_read_only(None));
}

fn flag(value: u8) -> [u8; 12] {
    let mut b = [0; 12];
    b[8] = value;
    b
}

#[test]
fn drive_kind_is_found_by_bus_then_seeks_then_trim() {
    let mut device = [0_u8; 40];
    device[28] = 17;
    let off = flag(0);
    let on = flag(1);
    let probe = DriveProbe {
        opened: true,
        device: Some(&device),
        seek_penalty: Some(&on),
        opened_again: true,
        trim: Some(&on),
    };
    assert_eq!(detect_drive_type(probe), DriveType::Nvme);
    let short = DriveProbe {
        device: Some(&device[..31]),
        ..probe
    };
    assert_eq!(detect_drive_type(short), DriveType::Hdd);
    let quiet = DriveProbe {
        device: None,
        seek_penalty: Some(&off),
        ..probe
    };
    assert_eq!(detect_drive_type(quiet), DriveType::Ssd);
    let trims = DriveProbe {
        device: None,
        seek_penalty: Some(&off[..11]),
        ..probe
    };
    assert_eq!(detect_drive_type(trims), DriveType::Ssd);
    let cannot_trim = DriveProbe {
        trim: Some(&off),
        ..trims
    };
    assert_eq!(detect_drive_type(cannot_trim), DriveType::Hdd);
    let silent = DriveProbe {
        trim: None,
        ..trims
    };
    assert_eq!(detect_drive_type(silent), DriveType::Unknown);
    let gone = DriveProbe {
        opened_again: false,
        ..trims
    };
    assert_eq!(detect_drive_type(gone), DriveType::Unknown);
    let closed = DriveProbe {
        opened: false,
        ..probe
    };
    assert_eq!(detect_drive_type(closed), DriveType::Unknown);
}

#[test]
fn memory_falls_back_to_a_guess() {
    let known = SystemMemory {
        total_bytes: 1,
        available_bytes: 0,
    };
    assert_eq!(query_system_memory(Some(known)), known);
    assert_eq!(
        query_system_memory(None),
        SystemMemory {
            total_bytes: 8 * 1024 * 1024 * 1024,
            available_bytes: 2 * 1024 * 1024 * 1024,
        }
    );
}

#[test]
fn meminfo_is_read() {
    let text = "MemTotal:       16318364 kB\nMemFree:         1234 kB\r\nMemAvailable:    9876543 kB\nBuffers: 1 kB\n";
    assert_eq!(parse_meminfo(text), Some((16_318_364, 9_876_543)));
    assert_eq!(parse_meminfo("MemTotal: many kB\n"), None);
    assert_eq!(parse_meminfo("MemAvailable: 5 kB"), None);
    assert_eq!(parse_meminfo(""), None);
    assert_eq!(
        parse_meminfo("MemTotal: 1 kB\nMemTotal: 2 kB\nMemAvailable:\n"),
        Some((2, 0))
    );
    assert_eq!(
        memory_of_kilobytes(16, 8),
        SystemMemory {
            total_bytes: 16384,
            available_bytes: 8192,
        }
    );
}

#[test]
fn vm_stat_is_read() {
    let text = "Mach Virtual Memory Statistics: (page size of 4096 bytes)\nPages free:                               100.\nPages active:                             900.\nPages inactive:                            20.\nPages speculative:                          3.\n";
    let (size, pages) = parse_vm_stat(text);
    assert_eq!(size, 4096);
    assert_eq!(
        pages,
        PageCounts {
            free: 100,
            inactive: 20,
            speculative: 3,
        }
    );
    assert_eq!(
        memory_of_pages(1 << 30, size, pages),
        SystemMemory {
            total_bytes: 1 << 30,
            available_bytes: 123 * 4096,
        }
    );
    assert_eq!(parse_vm_stat("no size here\n").0, 16384);
    assert_eq!(parse_total_memory(" 34359738368\n"), Some(34_359_738_368));
    assert_eq!(parse_total_memory("+5"), Some(5));
    assert_eq!(parse_total_memory("-5"), None);
    assert_eq!(parse_total_memory("+"), None);
    assert_eq!(parse_total_memory("18446744073709551615"), Some(u64::MAX));
    assert_eq!(parse_total_memory("18446744073709551616"), None);
}
