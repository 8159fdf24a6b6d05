use std::str::FromStr;
use std::time::Duration;
use uffs_mft::error::{InputFault, MftError};
use uffs_mft::platform::system::DriveType;
use uffs_mft::platform::volume::{OpenPlan, ReportedVolumeData};
use uffs_mft::index::{ChildEntry, FileRecord, FirstStream, MftIndex, SizeInfo, StdInfo};
use uffs_mft::platform::{DriveLetter, Lcn, MftBitmap, MftExtent, VolumeHandle};
use uffs_mft::reader::benchmark::{
    benchmark_phase1_open, build_drive_characteristics, estimate_combined_phase_timings, to_json,
    MftMetrics,
};
use uffs_mft::reader::columns::{
    build_columns, schema, ColumnKind, ParsedRecord, StandardInfo,
};
use uffs_mft::reader::multi_drive::{
    drive_first, drive_label, drive_reader_budget, MAX_CONCURRENT_DRIVE_READERS,
};
use uffs_mft::reader::pipeline::{
    complete_index, extents_for, Action, Event, HandleKind, ReadArguments, ReadPlan, ReadSettings,
    ReadTarget, ReaderKind, Stage,
};
use uffs_mft::reader::read_mode::{dataframe_effective_mode, index_effective_mode};
use uffs_mft::reader::stats::records_approx;
use uffs_mft::reader::usn_apply::cached_serial;
use uffs_mft::reader::{
    DriveReadResult, MftProgress, MftReadMode, MftReader, MftStats, MultiDriveMftReader,
    PhaseTimings,
};

fn open_reader() -> MftReader {
    let report = ReportedVolumeData {
        volume_serial_number: 1,
        number_of_sectors: 8000,
        total_clusters: 1000,
        free_clusters: 500,
        total_reserved: 7,
        bytes_per_sector: 512,
        bytes_per_cluster: 4096,
        bytes_per_file_record_segment: 1024,
        clusters_per_file_record_segment: 0,
        mft_valid_data_length: 40_960,
        mft_start_lcn: 100,
        mft2_start_lcn: 2,
        mft_zone_start: 100,
        mft_zone_end: 200,
    };
    let opened = VolumeHandle::adopt(OpenPlan::OpenDevice, 9, DriveLetter::C, Some(report));
    MftReader::open(DriveLetter::C, opened).unwrap()
}

#[test]
fn multi_drive_reader_new() {
    let reader = MultiDriveMftReader::new(vec![DriveLetter::C, DriveLetter::D, DriveLetter::E]);
    assert_eq!(
        reader.drives(),
        &[DriveLetter::C, DriveLetter::D, DriveLetter::E]
    );
}

#[test]
fn multi_drive_reader_empty() {
    let reader = MultiDriveMftReader::new(vec![]);
    assert!(reader.drives().is_empty());
}

#[test]
fn mft_reader_uses_none_defaults() {
    let reader = open_reader();

    assert!(
        reader.concurrency.is_none(),
        "MftReader should default to None for concurrency"
    );
    assert!(
        reader.io_size.is_none(),
        "MftReader should default to None for io_size"
    );
    assert!(
        reader.parallel_parse.is_none(),
        "MftReader should default to None for parallel_parse"
    );
    assert!(
        reader.parse_workers.is_none(),
        "MftReader should default to None for parse_workers"
    );
}

#[test]
fn mft_reader_builder_overrides() {
    let reader = open_reader();

    let configured = reader
        .with_concurrency(16)
        .with_io_size(2 * 1024 * 1024)
        .with_parallel_parse(true)
        .with_parse_workers(Some(4));

    assert_eq!(configured.concurrency, Some(16));
    assert_eq!(configured.io_size, Some(2 * 1024 * 1024));
    assert_eq!(configured.parallel_parse, Some(true));
    assert_eq!(configured.parse_workers, Some(4));
}

#[test]
fn mft_reader_default_mode_is_auto() {
    let reader = open_reader();

    assert_eq!(
        reader.mode,
        MftReadMode::Auto,
        "MftReader should default to Auto mode"
    );
}

#[test]
fn mft_reader_boolean_defaults() {
    let reader = open_reader();

    assert!(reader.use_bitmap, "use_bitmap should default to true");
    assert!(reader.expand_links, "expand_links should default to true");
    assert!(
        reader.add_placeholders,
        "add_placeholders should default to true"
    );
    assert!(
        reader.merge_extensions,
        "merge_extensions should default to true"
    );
}

#[test]
fn other_settings_can_be_changed() {
    let reader = open_reader()
        .with_mode(MftReadMode::Bulk)
        .with_merge_extensions(false)
        .with_use_bitmap(false)
        .with_expand_links(false)
        .with_add_placeholders(false)
        .with_forensic(true);
    assert_eq!(reader.mode(), MftReadMode::Bulk);
    assert!(!reader.merge_extensions());
    assert!(!reader.use_bitmap());
    assert!(!reader.expand_links());
    assert!(!reader.add_placeholders());
    assert!(reader.forensic());
    assert_eq!(reader.concurrency(), None);
    assert_eq!(reader.io_size(), None);
    assert_eq!(reader.parallel_parse(), None);
    assert_eq!(reader.parse_workers(), None);
    assert_eq!(reader.volume(), DriveLetter::C);
    assert!(reader.is_live());
    assert_eq!(reader.require_handle().unwrap().raw_handle(), 9);
}

#[test]
fn readers_of_files_have_no_volume() {
    let reader = MftReader::from_file("saved.raw".to_string(), DriveLetter::D);
    assert!(reader.is_file());
    assert!(!reader.is_live());
    assert_eq!(
        reader.require_handle().unwrap_err(),
        MftError::InvalidInput(InputFault::NotLive)
    );
    assert_eq!(
        MftReader::open(DriveLetter::D, Err(MftError::InsufficientPrivileges)).unwrap_err(),
        MftError::InsufficientPrivileges
    );
}

#[test]
fn multi_drive_drive_reader_budget_handles_empty_input() {
    assert_eq!(drive_reader_budget(0, None), 0);
}

#[test]
fn multi_drive_drive_reader_budget_never_exceeds_drive_count() {
    assert_eq!(drive_reader_budget(1, None), 1);
    assert!(drive_reader_budget(3, None) <= 3);
}

#[test]
fn multi_drive_drive_reader_budget_caps_drive_fan_out() {
    assert!(
        drive_reader_budget(MAX_CONCURRENT_DRIVE_READERS + 8, None)
            <= MAX_CONCURRENT_DRIVE_READERS
    );
}

#[test]
fn mod_drive_reader_budget_handles_empty_input() {
    for hardware in [Some(0), Some(1), Some(64)] {
        assert_eq!(drive_reader_budget(0, hardware), 0);
    }
}

#[test]
fn mod_drive_reader_budget_never_exceeds_drive_count() {
    for hardware in [Some(0), Some(1), Some(64)] {
        assert_eq!(drive_reader_budget(1, hardware), 1);
        assert!(drive_reader_budget(3, hardware) <= 3);
    }
}

#[test]
fn mod_drive_reader_budget_caps_drive_fan_out() {
    for hardware in [Some(0), Some(1), Some(64)] {
        assert!(
            drive_reader_budget(MAX_CONCURRENT_DRIVE_READERS + 8, hardware)
                <= MAX_CONCURRENT_DRIVE_READERS
        );
    }
}

#[test]
fn budget_follows_the_machine() {
    assert_eq!(drive_reader_budget(9, Some(2)), 2);
    assert_eq!(drive_reader_budget(9, Some(64)), 4);
    assert_eq!(drive_reader_budget(9, Some(0)), 1);
    assert_eq!(drive_reader_budget(9, None), 4);
}

#[test]
fn drives_are_read_a_few_at_a_time() {
    let reader = MultiDriveMftReader::new(vec![DriveLetter::C, DriveLetter::D, DriveLetter::E]);
    let mut run = reader.begin(Some(2)).unwrap();
    assert_eq!(run.start_next(), Some(DriveLetter::C));
    assert_eq!(run.start_next(), Some(DriveLetter::D));
    assert_eq!(run.start_next(), None);
    run.finished(DriveReadResult::new(
        DriveLetter::D,
        Err(MftError::PlatformNotSupported),
    ));
    assert_eq!(run.start_next(), Some(DriveLetter::E));
    run.finished(DriveReadResult::new(DriveLetter::E, Ok(17)));
    assert!(!run.is_ended());
    run.finished(DriveReadResult::new(DriveLetter::C, Ok(4)));
    assert!(run.is_ended());
    assert_eq!(run.results.len(), 3);
    assert_eq!(
        run.outcome(),
        Ok(vec![(DriveLetter::E, 17), (DriveLetter::C, 4)])
    );
}

#[test]
fn first_error_is_reported_where_every_drive_failed() {
    let reader = MultiDriveMftReader::new(vec![DriveLetter::C, DriveLetter::D]);
    let mut run = reader.begin::<u8>(None).unwrap();
    run.start_next();
    run.start_next();
    run.finished(DriveReadResult::new(
        DriveLetter::D,
        Err(MftError::PlatformNotSupported),
    ));
    run.finished(DriveReadResult::new(
        DriveLetter::C,
        Err(MftError::InsufficientPrivileges),
    ));
    assert_eq!(run.outcome(), Err(MftError::PlatformNotSupported));

    let idle = reader.begin::<u8>(None).unwrap();
    assert_eq!(
        idle.outcome(),
        Err(MftError::InvalidInput(InputFault::NoDriveRead))
    );
    assert_eq!(
        MultiDriveMftReader::new(vec![])
            .begin::<u8>(None)
            .unwrap_err(),
        MftError::InvalidInput(InputFault::NoDrives)
    );
}

#[test]
fn detailed_runs_keep_a_result_for_each_drive() {
    let none = MultiDriveMftReader::new(vec![]);
    let mut run = none.begin_detailed::<u8>(Some(8));
    assert!(run.is_ended());
    assert_eq!(run.start_next(), None);
    assert!(run.detailed().is_empty());

    let reader = MultiDriveMftReader::new(vec![DriveLetter::C, DriveLetter::D, DriveLetter::E]);
    let mut run = reader.begin_detailed(None);
    while run.start_next().is_some() {}
    run.finished(DriveReadResult::new(DriveLetter::E, Ok(9_u8)));
    run.finished(DriveReadResult::of_failed_task());
    run.finished(DriveReadResult::new(
        DriveLetter::C,
        Err(MftError::NotNtfs(DriveLetter::C)),
    ));
    assert!(run.is_ended());
    let results = run.detailed();
    assert_eq!(results.len(), 3);
    assert_eq!(
        (results[0].drive, results[0].dataframe, &results[0].error),
        (DriveLetter::E, Some(9), &None)
    );
    assert_eq!(
        (results[1].drive, results[1].dataframe, &results[1].error),
        (
            DriveLetter::X,
            None,
            &Some(MftError::InvalidInput(InputFault::TaskFailed))
        )
    );
    assert_eq!(
        (results[2].drive, results[2].dataframe, &results[2].error),
        (
            DriveLetter::C,
            None,
            &Some(MftError::NotNtfs(DriveLetter::C))
        )
    );
}

#[test]
fn drive_column_comes_first() {
    assert_eq!(drive_label(DriveLetter::G), "G:");
    let names: Vec<String> = ["frs", "drive", "name"].map(String::from).to_vec();
    assert_eq!(drive_first(&names), ["drive", "frs", "name"]);
    assert_eq!(drive_first(&[]), ["drive"]);
}

const MODES: [MftReadMode; 11] = [
    MftReadMode::Auto,
    MftReadMode::Parallel,
    MftReadMode::Streaming,
    MftReadMode::Prefetch,
    MftReadMode::Pipelined,
    MftReadMode::PipelinedParallel,
    MftReadMode::IocpParallel,
    MftReadMode::Bulk,
    MftReadMode::BulkIocp,
    MftReadMode::SlidingIocp,
    MftReadMode::SlidingIocpInline,
];

#[test]
fn modes_are_read_back_from_their_names() {
    for mode in MODES {
        assert_eq!(MftReadMode::parse(mode.as_str()), Ok(mode));
        assert_eq!(MftReadMode::parse(&mode.to_string()), Ok(mode));
        let shouted: String = mode.as_str().to_uppercase();
        assert_eq!(MftReadMode::parse(&shouted), Ok(mode));
        assert_eq!(MftReadMode::from_str(&shouted), Ok(mode));
    }
    assert_eq!(MftReadMode::from_str("bUlK-iOcP"), Ok(MftReadMode::BulkIocp));
    assert_eq!(
        MftReadMode::from_str("nothing"),
        MftReadMode::parse("nothing")
    );
    assert_eq!(MftReadMode::parse("IOCP"), Ok(MftReadMode::IocpParallel));
    assert_eq!(MftReadMode::parse("Inline"), Ok(MftReadMode::SlidingIocpInline));
    assert_eq!(MftReadMode::parse("sliding"), Ok(MftReadMode::SlidingIocp));
    assert_eq!(MftReadMode::default(), MftReadMode::Auto);
    let message = MftReadMode::parse("Fast").unwrap_err();
    assert_eq!(
        message,
        "Invalid read mode 'Fast'. Valid options: auto, parallel, streaming, prefetch, pipelined, pipelined-parallel, iocp-parallel, bulk, bulk-iocp, sliding-iocp, sliding-iocp-inline"
    );
}

#[test]
fn only_the_automatic_mode_is_resolved() {
    for mode in MODES {
        for drive in [
            DriveType::Hdd,
            DriveType::Nvme,
            DriveType::Ssd,
            DriveType::Unknown,
        ] {
            let index = index_effective_mode(mode, drive);
            let columns = dataframe_effective_mode(mode, drive);
            if mode == MftReadMode::Auto {
                assert_eq!(index, MftReadMode::SlidingIocpInline);
                let wanted = if drive == DriveType::Hdd {
                    MftReadMode::PipelinedParallel
                } else {
                    MftReadMode::Parallel
                };
                assert_eq!(columns, wanted);
            } else {
                assert_eq!(index, mode);
                assert_eq!(columns, mode);
            }
        }
    }
}

#[test]
fn progress_is_estimated_from_bytes() {
    assert_eq!(records_approx(512, 1024, 100), 50);
    assert_eq!(records_approx(1024, 1024, 100), 100);
    assert_eq!(records_approx(5, 0, 100), 0);
    assert_eq!(records_approx(u64::MAX, 2, 2), u64::MAX / 2);
    let elapsed = Duration::from_secs(1);
    let start = MftProgress::at_start(7, elapsed);
    assert_eq!((start.records_read, start.bytes_read), (0, 0));
    let middle = MftProgress::underway(1024, 2048, 8, elapsed);
    assert_eq!((middle.records_read, middle.bytes_read), (4, 1024));
    let end = MftProgress::at_end(8, 2048, elapsed);
    assert_eq!((end.records_read, end.bytes_read), (8, 2048));
    assert_eq!(end.total_records, Some(8));
}

#[test]
fn slack_is_what_is_allocated_beyond_the_files() {
    let mut stats = MftStats::default();
    assert_eq!(stats.slack_space(), 0);
    stats.total_file_size = 10;
    stats.total_allocated_size = 16;
    assert_eq!(stats.slack_space(), 6);
    stats.total_allocated_size = 4;
    assert_eq!(stats.slack_space(), 0);
}

#[test]
fn phases_are_summed_and_estimated() {
    let t = PhaseTimings {
        open_ms: 1,
        read_ms: 2,
        parse_ms: 3,
        merge_ms: 4,
        df_build_ms: 5,
        index_build_ms: 6,
        tree_metrics_ms: 7,
        total_ms: 30,
    };
    assert_eq!(t.sum_phases(), 28);
    assert_eq!(t.overhead_ms(), 2);
    let short = PhaseTimings { total_ms: 20, ..t };
    assert_eq!(short.overhead_ms(), -8);
    assert_eq!(PhaseTimings::default().sum_phases(), 0);
    assert_eq!(
        estimate_combined_phase_timings(DriveType::Nvme, 100),
        (20, 60, 20)
    );
    assert_eq!(
        estimate_combined_phase_timings(DriveType::Ssd, 1000),
        (300, 500, 200)
    );
    assert_eq!(
        estimate_combined_phase_timings(DriveType::Hdd, 99),
        (69, 19, 9)
    );
}

#[test]
fn report_is_json() {
    let characteristics = build_drive_characteristics(
        'C',
        DriveType::Ssd,
        MftMetrics {
            size_bytes: 2048,
            total_records: 2,
            in_use_records: None,
            extent_count: 1,
            bytes_per_record: 1024,
        },
        4096,
        3,
    );
    let text = to_json(
        &PhaseTimings::default(),
        &characteristics,
        2,
        "1.50",
        "20",
    );
    assert_eq!(
        text,
        "{\n  \"drive\": \"C\",\n  \"drive_type\": \"Ssd\",\n  \"mft_size_bytes\": 2048,\n  \"total_records\": 2,\n  \"in_use_records\": null,\n  \"extent_count\": 1,\n  \"bytes_per_record\": 1024,\n  \"chunk_size_bytes\": 4096,\n  \"chunk_count\": 3,\n  \"records_parsed\": 2,\n  \"timings_ms\": {\n    \"open\": 0,\n    \"read\": 0,\n    \"parse\": 0,\n    \"merge\": 0,\n    \"df_build\": 0,\n    \"index_build\": 0,\n    \"tree_metrics\": 0,\n    \"total\": 0\n  },\n  \"throughput\": {\n    \"mb_per_sec\": 1.50,\n    \"records_per_sec\": 20\n  }\n}"
    );
}

fn parsed(frs: u64, name: &str) -> ParsedRecord {
    ParsedRecord {
        frs,
        parent_frs: 5,
        name: name.to_string(),
        size: frs * 10,
        allocated_size: frs * 16,
        is_directory: frs == 6,
        name_count: 1,
        stream_count: 2,
        std_info: StandardInfo {
            created: 1,
            modified: 2,
            accessed: 3,
            mft_changed: 4,
            is_readonly: true,
            is_hidden: false,
            is_system: false,
            is_archive: true,
            is_compressed: false,
            is_encrypted: false,
            is_sparse: false,
            is_reparse: false,
            is_offline: false,
            is_not_content_indexed: true,
            is_temporary: false,
            is_integrity_stream: false,
            is_no_scrub_data: false,
            is_pinned: false,
            is_unpinned: false,
            is_virtual: false,
            raw_flags: 0x2021,
        },
    }
}

#[test]
fn records_become_columns() {
    let c = build_columns(&[parsed(6, "dir"), parsed(7, "file")]);
    assert_eq!(c.frs, vec![6, 7]);
    assert_eq!(c.parent_frs, vec![5, 5]);
    assert_eq!(c.name, vec!["dir", "file"]);
    assert_eq!(c.size, vec![60, 70]);
    assert_eq!(c.allocated_size, vec![96, 112]);
    assert_eq!(c.created, vec![1, 1]);
    assert_eq!(c.mft_changed, vec![4, 4]);
    assert_eq!(c.is_directory, vec![true, false]);
    assert_eq!(c.stream_count, vec![2, 2]);
    assert_eq!(c.stream_name, vec!["", ""]);
    assert_eq!(c.is_readonly, vec![true, true]);
    assert_eq!(c.is_hidden, vec![false, false]);
    assert_eq!(c.is_not_indexed, vec![true, true]);
    assert_eq!(c.flags, vec![0x2021, 0x2021]);
    assert!(build_columns(&[]).frs.is_empty());
    let columns = schema();
    assert_eq!(columns.len(), 30);
    assert_eq!(columns[0], ("frs", ColumnKind::UInt64));
    assert_eq!(columns[5], ("created", ColumnKind::Time));
    assert_eq!(columns[29], ("flags", ColumnKind::UInt32));
}

/// Runs a read to its end. The events are handed in one by one, and further
/// actions succeed.
fn run_read(plan: &ReadPlan, events: &[Event]) -> Vec<Action> {
    let mut actions = Vec::new();
    let mut stage = Stage::Begin;
    let mut event = Event::Done;
    for i in 0..20 {
        let (next, action) = plan.advance(stage, event);
        stage = next;
        let last = matches!(action, Action::Return | Action::Fail(_));
        actions.push(action);
        if last {
            return actions;
        }
        event = match events.get(i) {
            Some(Event::Failed(e)) => Event::Failed(e.clone()),
            _ => Event::Done,
        };
    }
    panic!("a read without end");
}

fn settings(mode: MftReadMode, add_placeholders: bool) -> ReadSettings {
    open_reader()
        .with_mode(mode)
        .with_add_placeholders(add_placeholders)
        .settings()
}

/// What a reader is told by the usual settings.
fn told(bitmap: bool) -> ReadArguments {
    ReadArguments {
        bitmap,
        merge_extensions: true,
        concurrency: None,
        io_size: None,
        parallel_parse: false,
        parse_workers: None,
        forensic: false,
    }
}

#[test]
fn columns_are_read_with_reports() {
    let plan = ReadPlan::new(
        ReadTarget::Columns,
        settings(MftReadMode::SlidingIocp, true),
        DriveType::Ssd,
        true,
        40,
        1024,
    );
    assert_eq!(
        run_read(&plan, &[]),
        vec![
            Action::Report {
                records: 0,
                bytes: 0,
            },
            Action::Open(HandleKind::Overlapped),
            Action::Read {
                reader: ReaderKind::SlidingIocp,
                handle: HandleKind::Overlapped,
                reports: true,
                drive_type: DriveType::Ssd,
                arguments: told(true),
            },
            Action::Close(HandleKind::Overlapped),
            Action::AddPlaceholders,
            Action::Report {
                records: 40,
                bytes: 40_960,
            },
            Action::Build { expand_links: true },
            Action::Return,
        ]
    );
}

#[test]
fn automatic_reads_of_columns_follow_the_drive() {
    for (drive, reader) in [
        (DriveType::Ssd, ReaderKind::Parallel),
        (DriveType::Nvme, ReaderKind::Parallel),
        (DriveType::Unknown, ReaderKind::Parallel),
        (DriveType::Hdd, ReaderKind::PipelinedParallel),
    ] {
        let plan = ReadPlan::new(
            ReadTarget::Columns,
            settings(MftReadMode::Auto, false),
            drive,
            false,
            40,
            1024,
        );
        let actions = run_read(&plan, &[]);
        assert_eq!(
            actions[0],
            Action::Read {
                reader,
                handle: HandleKind::Volume,
                reports: false,
                drive_type: drive,
                arguments: told(true),
            }
        );
    }
}

#[test]
fn index_falls_back_to_the_table_file() {
    let plan = ReadPlan::new(
        ReadTarget::Index,
        settings(MftReadMode::Auto, false),
        DriveType::Hdd,
        false,
        40,
        1024,
    );
    let failed = || Event::Failed(MftError::InvalidBootSector);
    assert_eq!(
        run_read(&plan, &[]),
        vec![
            Action::Open(HandleKind::Overlapped),
            Action::Read {
                reader: ReaderKind::SlidingIocpInline,
                handle: HandleKind::Overlapped,
                reports: false,
                drive_type: DriveType::Hdd,
                arguments: told(true),
            },
            Action::Close(HandleKind::Overlapped),
            Action::CompleteIndex,
            Action::Return,
        ]
    );
    let actions = run_read(&plan, &[Event::Done, failed(), Event::Done, failed()]);
    assert_eq!(
        actions,
        vec![
            Action::Open(HandleKind::Overlapped),
            Action::Read {
                reader: ReaderKind::SlidingIocpInline,
                handle: HandleKind::Overlapped,
                reports: false,
                drive_type: DriveType::Hdd,
                arguments: told(true),
            },
            Action::Close(HandleKind::Overlapped),
            Action::Open(HandleKind::TableFile),
            Action::Open(HandleKind::Unbuffered),
            Action::Read {
                reader: ReaderKind::Parallel,
                handle: HandleKind::Unbuffered,
                reports: false,
                drive_type: DriveType::Hdd,
                arguments: told(true),
            },
            Action::Close(HandleKind::Unbuffered),
            Action::Build {
                expand_links: false,
            },
            Action::Return,
        ]
    );
    let actions = run_read(
        &plan,
        &[
            Event::Done,
            failed(),
            Event::Done,
            Event::Done,
            Event::Failed(MftError::InsufficientPrivileges),
        ],
    );
    assert_eq!(
        &actions[3..],
        &[
            Action::Open(HandleKind::TableFile),
            Action::Read {
                reader: ReaderKind::TableFile,
                handle: HandleKind::TableFile,
                reports: false,
                drive_type: DriveType::Hdd,
                arguments: told(false),
            },
            Action::Close(HandleKind::TableFile),
            Action::Fail(MftError::InsufficientPrivileges),
        ]
    );
}

#[test]
fn failed_reads_close_their_handle() {
    let plan = ReadPlan::new(
        ReadTarget::Columns,
        settings(MftReadMode::BulkIocp, false),
        DriveType::Ssd,
        false,
        1,
        1024,
    );
    let actions = run_read(
        &plan,
        &[Event::Done, Event::Failed(MftError::InvalidBootSector)],
    );
    assert_eq!(
        &actions[2..],
        &[
            Action::Close(HandleKind::Overlapped),
            Action::Fail(MftError::InvalidBootSector),
        ]
    );
    let plan = ReadPlan::new(
        ReadTarget::Index,
        settings(MftReadMode::Parallel, true),
        DriveType::Ssd,
        false,
        1,
        1024,
    );
    assert_eq!(
        run_read(&plan, &[Event::Failed(MftError::InvalidBootSector)]),
        vec![
            Action::Read {
                reader: ReaderKind::Parallel,
                handle: HandleKind::Volume,
                reports: false,
                drive_type: DriveType::Ssd,
                arguments: told(true),
            },
            Action::Fail(MftError::InvalidBootSector),
        ]
    );
}

#[test]
fn timed_reads_are_described() {
    let bitmap = MftBitmap::from_bytes(vec![0b1011]);
    let c = benchmark_phase1_open('D', DriveType::Nvme, 8, 1024, 2, Some(&bitmap), 3);
    assert_eq!(c.mft_size_bytes, 8192);
    assert_eq!(c.in_use_records, Some(3));
    assert_eq!(c.drive_type, "Nvme");
    assert_eq!(c.chunk_size_bytes, 4 * 1024 * 1024);
    assert_eq!((c.extent_count, c.chunk_count), (2, 3));
    let c = benchmark_phase1_open('D', DriveType::Hdd, 8, 1024, 2, None, 3);
    assert_eq!(c.in_use_records, None);
    assert_eq!(c.chunk_size_bytes, 1024 * 1024);

    let t = PhaseTimings::of_columns(DriveType::Ssd, 5, 200, None, 300);
    assert_eq!((t.read_ms, t.parse_ms, t.merge_ms), (60, 100, 40));
    assert_eq!((t.open_ms, t.df_build_ms, t.total_ms), (5, 0, 300));
    let t = PhaseTimings::of_columns(DriveType::Ssd, 5, 200, Some(9), 300);
    assert_eq!((t.df_build_ms, t.index_build_ms, t.tree_metrics_ms), (9, 0, 0));
}

#[test]
fn indexes_are_completed() {
    let reader = open_reader();
    let volume = reader.require_handle().unwrap().volume_data();
    let mut index = MftIndex::new(DriveLetter::C);
    index.records.push(FileRecord {
        frs: 5,
        stdinfo: StdInfo {
            directory: true,
            reparse: false,
        },
        name_count: 1,
        total_stream_count: 1,
        first_child: u32::MAX,
        first_stream: FirstStream {
            size: SizeInfo {
                length: 10,
                allocated: 16,
            },
            next_entry: u32::MAX,
        },
        first_internal_stream: u32::MAX,
        internal_streams_size: 0,
        internal_streams_allocated: 0,
        reparse_tag: 0,
        descendants: 0,
        treesize: 0,
        tree_allocated: 0,
    });
    index.frs_to_idx = vec![u32::MAX, u32::MAX, u32::MAX, u32::MAX, u32::MAX, 0];
    assert!(complete_index(&mut index, volume, false));
    assert_eq!(index.reserved_allocated_bytes, 7 * 4096);
    assert_eq!(index.records[0].descendants, 1);
    assert_eq!(index.records[0].tree_allocated, 16 + 7 * 4096);

    index.children.push(ChildEntry {
        child_frs: 5,
        name_index: 0,
        next_entry: u32::MAX,
    });
    index.records[0].first_child = 0;
    index.records[0].descendants = 0;
    assert!(!complete_index(&mut index, volume, false));
    assert_eq!(index.records[0].descendants, 0);
}

/// What the readers of a read are told, with a handle for each.
fn all_told(plan: &ReadPlan, events: &[Event]) -> Vec<(HandleKind, ReadArguments)> {
    run_read(plan, events)
        .into_iter()
        .filter_map(|action| match action {
            Action::Read {
                handle, arguments, ..
            } => Some((handle, arguments)),
            _ => None,
        })
        .collect()
}

#[test]
fn readers_are_told_what_the_settings_say() {
    let reader = open_reader()
        .with_merge_extensions(false)
        .with_use_bitmap(false)
        .with_expand_links(false)
        .with_concurrency(16)
        .with_io_size(4096)
        .with_parse_workers(Some(3))
        .with_forensic(true);
    let failed = || Event::Failed(MftError::InvalidBootSector);
    let other = ReadArguments {
        bitmap: false,
        merge_extensions: false,
        concurrency: None,
        io_size: None,
        parallel_parse: false,
        parse_workers: None,
        forensic: true,
    };
    let inline = ReadArguments {
        concurrency: Some(16),
        io_size: Some(4096),
        parallel_parse: true,
        parse_workers: Some(3),
        ..other
    };
    let plan = ReadPlan::new(
        ReadTarget::Index,
        reader.settings(),
        DriveType::Nvme,
        false,
        40,
        1024,
    );
    assert_eq!(
        all_told(&plan, &[Event::Done, failed(), Event::Done, failed()]),
        vec![
            (HandleKind::Overlapped, inline),
            (
                HandleKind::Unbuffered,
                ReadArguments {
                    bitmap: true,
                    ..other
                }
            ),
        ]
    );
    assert_eq!(
        all_told(&plan, &[Event::Done, failed(), Event::Done, Event::Done]),
        vec![
            (HandleKind::Overlapped, inline),
            (HandleKind::TableFile, other),
        ]
    );

    let plan = ReadPlan::new(
        ReadTarget::Columns,
        reader.settings(),
        DriveType::Nvme,
        false,
        40,
        1024,
    );
    assert_eq!(all_told(&plan, &[]), vec![(HandleKind::Volume, other)]);
    let actions = run_read(&plan, &[]);
    assert_eq!(
        actions[actions.len() - 2],
        Action::Build {
            expand_links: false,
        }
    );
}

#[test]
fn parsing_on_threads_suits_the_drive_unless_set() {
    for (set, drive, wanted) in [
        (None, DriveType::Nvme, true),
        (None, DriveType::Ssd, false),
        (Some(true), DriveType::Hdd, true),
        (Some(false), DriveType::Nvme, false),
    ] {
        let mut settings = settings(MftReadMode::Auto, true);
        settings.parallel_parse = set;
        settings.parse_workers = Some(5);
        let plan = ReadPlan::new(ReadTarget::Index, settings, drive, false, 40, 1024);
        let told = all_told(&plan, &[])[0].1;
        assert_eq!(told.parallel_parse, wanted);
        assert_eq!(told.parse_workers, wanted.then_some(5));
    }
}

#[test]
fn timed_reads_follow_the_settings() {
    let mut settings = settings(MftReadMode::Auto, true);
    assert_eq!(settings.timed_arguments(ReadTarget::Index), told(true));
    settings.use_bitmap = false;
    settings.merge_extensions = false;
    let index = settings.timed_arguments(ReadTarget::Index);
    let columns = settings.timed_arguments(ReadTarget::Columns);
    assert_eq!((index.bitmap, index.merge_extensions), (false, false));
    assert_eq!((columns.bitmap, columns.merge_extensions), (true, false));
}

#[test]
fn bitmaps_are_handed_on_only_where_they_serve() {
    let loaded = || Some(MftBitmap::from_bytes(vec![5]));
    assert!(told(false).bitmap_for(loaded()).is_none());
    assert!(told(true).bitmap_for(None).is_none());
    let handed = told(true).bitmap_for(loaded()).unwrap();
    assert_eq!(handed.as_bytes(), &[5]);
}

#[test]
fn indexes_are_saved_under_the_serial_number_of_their_volume() {
    let reader = open_reader();
    let volume = reader.require_handle().unwrap().volume_data();
    assert_eq!(cached_serial(Some(volume)), 1);
    assert_eq!(cached_serial(None), 0);
}

#[test]
fn missing_extents_fail_only_past_the_cache() {
    let reader = open_reader();
    let volume = reader.require_handle().unwrap().volume_data();
    let found = || {
        Ok(vec![MftExtent {
            vcn: 0,
            cluster_count: 3,
            lcn: Lcn::new(9),
        }])
    };
    for handle in [
        HandleKind::Volume,
        HandleKind::Overlapped,
        HandleKind::Unbuffered,
    ] {
        assert_eq!(extents_for(handle, volume, found()), found());
    }
    assert_eq!(
        extents_for(
            HandleKind::Overlapped,
            volume,
            Err(MftError::InvalidBootSector)
        ),
        Ok(vec![volume.whole_table()])
    );
    assert_eq!(
        extents_for(
            HandleKind::Unbuffered,
            volume,
            Err(MftError::InvalidBootSector)
        ),
        Err(MftError::InvalidBootSector)
    );
}
