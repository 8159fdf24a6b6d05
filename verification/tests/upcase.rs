use uffs_mft::error::{DataFault, MftError, UpcaseFault};
use uffs_mft::ntfs::DataRun;
use uffs_mft::platform::upcase::{
    crc32_table, load_upcase_from_file, parse_data_runs, read_upcase_table, save_upcase_to_file,
    AttributeSummary, ClusterRead, UpcaseDataRuns, UpcaseHeader, UpcaseLoad, UPCASE_SIZE_BYTES,
};
use uffs_mft::platform::Lcn;

fn sample_table() -> Box<[u16; 65_536]> {
    let mut table = vec![0_u16; 65_536];
    for (i, entry) in table.iter_mut().enumerate() {
        *entry = i as u16;
    }
    for c in b'a'..=b'z' {
        table[usize::from(c)] = u16::from(c - 32);
    }
    table.try_into().unwrap()
}

fn bytes_of(table: &[u16; 65_536]) -> Vec<u8> {
    table.iter().flat_map(|entry| entry.to_le_bytes()).collect()
}

fn sample_header(crc: u32) -> UpcaseHeader {
    UpcaseHeader {
        ntfs_major: 3,
        ntfs_minor: 1,
        volume_serial: 0xDEAD_BEEF_CAFE_1234,
        table_crc32: crc,
        timestamp: 1_700_000_000,
        drive: 'C',
    }
}

fn fault(fault: UpcaseFault) -> MftError {
    MftError::InvalidData(DataFault::Upcase(fault))
}

#[test]
fn save_and_load_roundtrip() {
    let table = sample_table();
    let table_crc = crc32_table(&bytes_of(&table));
    let header = sample_header(table_crc);

    let file = save_upcase_to_file(&header, &table);
    assert_eq!(file.len(), 64 + UPCASE_SIZE_BYTES);

    let (loaded_hdr, loaded_tbl) = load_upcase_from_file(&file).unwrap();
    assert_eq!(loaded_hdr.ntfs_major, 3);
    assert_eq!(loaded_hdr.ntfs_minor, 1);
    assert_eq!(loaded_hdr.volume_serial, 0xDEAD_BEEF_CAFE_1234);
    assert_eq!(loaded_hdr.table_crc32, table_crc);
    assert_eq!(loaded_hdr.timestamp, 1_700_000_000);
    assert_eq!(loaded_hdr.drive, 'C');

    assert_eq!(loaded_tbl.as_slice(), table.as_slice());
}

#[test]
fn file_layout_is_fixed() {
    let table = sample_table();
    let file = save_upcase_to_file(&sample_header(0x0102_0304), &table);
    assert_eq!(&file[0..8], b"UFFSUP\0\0");
    assert_eq!(&file[8..12], &[1, 0, 0, 0]);
    assert_eq!(&file[12..16], &[3, 0, 1, 0]);
    assert_eq!(&file[24..28], &[4, 3, 2, 1]);
    assert_eq!(file[36], b'C');
    assert!(file[37..64].iter().all(|b| *b == 0));
    assert_eq!(&file[64 + 2 * 0x1234..64 + 2 * 0x1234 + 2], &[0x34, 0x12]);
}

#[test]
fn checksum_of_known_bytes() {
    assert_eq!(crc32_table(b"123456789"), 0xCBF4_3926);
    assert_eq!(crc32_table(b""), 0);
}

#[test]
fn broken_upcase_files_are_refused() {
    let table = sample_table();
    let crc = crc32_table(&bytes_of(&table));
    let file = save_upcase_to_file(&sample_header(crc), &table);

    assert_eq!(
        load_upcase_from_file(&file[..file.len() - 1]),
        Err(fault(UpcaseFault::TooSmall(file.len() - 1)))
    );

    let mut wrong = file.clone();
    wrong[0] = b'X';
    assert_eq!(
        load_upcase_from_file(&wrong),
        Err(fault(UpcaseFault::Magic))
    );

    let mut wrong = file.clone();
    wrong[8] = 2;
    assert_eq!(
        load_upcase_from_file(&wrong),
        Err(fault(UpcaseFault::Version(2)))
    );

    let mut wrong = file.clone();
    wrong[36] = b'1';
    assert_eq!(
        load_upcase_from_file(&wrong),
        Err(fault(UpcaseFault::Drive(b'1')))
    );

    let mut wrong = file.clone();
    wrong[64] ^= 1;
    let computed = crc32_table(&wrong[64..]);
    assert_eq!(
        load_upcase_from_file(&wrong),
        Err(fault(UpcaseFault::Checksum {
            stored: crc,
            computed,
        }))
    );
}

fn run(cluster_count: u64, lcn: i64) -> DataRun {
    DataRun {
        vcn: 0,
        cluster_count,
        lcn: Lcn::new(lcn),
    }
}

fn attribute(is_data: bool, is_non_resident: bool, name_length: u8) -> AttributeSummary {
    AttributeSummary {
        is_data,
        is_non_resident,
        name_length,
        data_size: Some(131_072),
        runs: vec![run(32, 100)],
    }
}

#[test]
fn data_of_the_table_is_found_among_attributes() {
    let list = [
        attribute(false, true, 0),
        attribute(true, false, 0),
        attribute(true, true, 3),
        attribute(true, true, 0),
    ];
    let info = parse_data_runs(Some(&list)).unwrap();
    assert_eq!(info.data_size, 131_072);
    assert_eq!(info.runs, vec![run(32, 100)]);
    assert_eq!(
        parse_data_runs(Some(&list[..3])).unwrap_err(),
        fault(UpcaseFault::NoData)
    );
    assert_eq!(
        parse_data_runs(None).unwrap_err(),
        fault(UpcaseFault::RecordHeader)
    );
    let mut broken = [attribute(true, true, 0)];
    broken[0].data_size = None;
    assert_eq!(
        parse_data_runs(Some(&broken)).unwrap_err(),
        fault(UpcaseFault::DataHeader)
    );
    broken[0].data_size = Some(1);
    broken[0].runs.clear();
    assert_eq!(
        parse_data_runs(Some(&broken)).unwrap_err(),
        fault(UpcaseFault::NoRuns)
    );
}

fn begin(runs: Vec<DataRun>) -> UpcaseLoad {
    UpcaseLoad::begin(
        UpcaseDataRuns {
            runs,
            data_size: 131_072,
        },
        4096,
    )
    .unwrap()
}

#[test]
fn table_is_read_from_its_clusters() {
    let table = sample_table();
    let bytes = bytes_of(&table);
    let mut load = begin(vec![run(8, 100), run(40, 7)]);
    assert_eq!(
        load.next_read(),
        Ok(Some(ClusterRead {
            disk_offset: 409_600,
            length: 32_768,
        }))
    );
    load.filled(&bytes[..32_768]).unwrap();
    assert_eq!(
        load.next_read(),
        Ok(Some(ClusterRead {
            disk_offset: 28_672,
            length: 98_304,
        }))
    );
    load.filled(&bytes[32_768..]).unwrap();
    assert_eq!(load.next_read(), Ok(None));
    assert_eq!(read_upcase_table(load).unwrap().as_slice(), table.as_slice());
}

#[test]
fn sparse_clusters_stay_zero() {
    let mut load = begin(vec![run(32, 0)]);
    assert_eq!(load.next_read(), Ok(None));
    assert!(read_upcase_table(load).unwrap().iter().all(|e| *e == 0));
}

#[test]
fn incomplete_tables_are_refused() {
    let mut load = begin(vec![run(8, 100)]);
    load.next_read().unwrap();
    assert_eq!(
        load.filled(&[0; 100]),
        Err(fault(UpcaseFault::ShortRead {
            got: 100,
            wanted: 32_768,
        }))
    );
    load.filled(&vec![0; 32_768]).unwrap();
    assert_eq!(load.next_read(), Ok(None));
    assert_eq!(
        read_upcase_table(load),
        Err(fault(UpcaseFault::Incomplete(32_768)))
    );
}

#[test]
fn runs_that_make_no_sense_are_refused() {
    let wrong_size = UpcaseDataRuns {
        runs: vec![run(1, 1)],
        data_size: 5,
    };
    assert_eq!(
        UpcaseLoad::begin(wrong_size, 4096).unwrap_err(),
        fault(UpcaseFault::Size(5))
    );
    assert_eq!(
        begin(vec![run(u64::MAX, 1)]).next_read(),
        Err(fault(UpcaseFault::RunTooLong {
            cluster_count: u64::MAX,
            bytes_per_cluster: 4096,
        }))
    );
    assert_eq!(
        begin(vec![run(33, 0), run(1, 1)]).next_read(),
        Err(fault(UpcaseFault::RunBounds(135_168)))
    );
    assert_eq!(
        begin(vec![run(1, i64::MAX)]).next_read(),
        Err(fault(UpcaseFault::Offset(i64::MAX as u128 * 4096)))
    );
}

#[test]
fn headers_without_a_drive_letter_are_refused() {
    let mut data = vec![0_u8; 131_136];
    data[0..8].copy_from_slice(b"UFFSUP\0\0");
    data[8] = 1;
    data[36] = b'1';
    assert_eq!(
        UpcaseHeader::deserialize(&data),
        Err(fault(UpcaseFault::Drive(b'1')))
    );
    data[36] = b'q';
    assert_eq!(UpcaseHeader::deserialize(&data).unwrap().drive, 'q');
}
