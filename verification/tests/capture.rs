use uffs_mft::error::{DataFault, IoFault, MftError};
use uffs_mft::platform::system::DriveType;
use uffs_mft::raw::{load_raw_mft, save_raw_mft, LoadRawOptions, SaveRawOptions};
use uffs_mft::raw_iocp::{
    is_iocp_capture, load_iocp_capture, CapturedChunk, IocpCaptureHeader, IocpCaptureOptions,
    IocpCaptureWriter, HEADER_SIZE,
};
use uffs_mft::reader::capture::{
    aligned_read, chunk_payload, reader_outcome, stream_chunk_size, AlignedRead, CaptureRun,
    CompletionStep, ReadChunk, ReaderEnd, StreamRun,
};
use uffs_mft::reader::offline::{
    after_fixup, load_iocp_to_index, load_raw_to_index_with_options, parse_chunks,
    read_index_from_file, tally_outcomes, IndexFile, OfflinePlan, Outcome, ParseChunk, ParseMode,
    ParsedKind, RawAssembly, RecordStep, RECORDS_PER_CHUNK,
};

fn options(compress: bool) -> IocpCaptureOptions {
    IocpCaptureOptions {
        compress,
        compression_level: 3,
        volume_letter: 'D',
        concurrency: 2,
    }
}

/// A capture of three records whose second half completed first.
fn capture(compress: bool) -> Vec<u8> {
    let mut writer = IocpCaptureWriter::new(4, &options(compress));
    writer.record_chunk(2, vec![9, 10, 11, 12]);
    writer.record_chunk(0, vec![1, 2, 3, 4, 5, 6, 7, 8]);
    assert_eq!(writer.chunk_count(), 2);
    let (header, file) = writer.write_to_bytes().unwrap();
    assert_eq!(header.chunk_count, 2);
    assert_eq!(header.total_records, 3);
    assert_eq!(header.total_data_size, 12);
    file
}

#[test]
fn captures_keep_the_order_of_completion() {
    for compress in [false, true] {
        let file = capture(compress);
        assert!(is_iocp_capture(&file));
        let loaded = load_iocp_capture(&file).unwrap();
        assert_eq!(loaded.record_size(), 4);
        assert_eq!(loaded.volume_letter(), 'D');
        assert_eq!(loaded.header.concurrency, 2);
        assert_eq!(loaded.header.is_compressed(), compress);
        let chunks = loaded.iter_chunks();
        assert_eq!(chunks.len(), 2);
        assert_eq!(chunks[0].0.completion_seq, 0);
        assert_eq!(chunks[0].0.start_frs, 2);
        assert_eq!(chunks[0].1, &[9, 10, 11, 12]);
        assert_eq!(chunks[1].0.start_frs, 0);
        assert_eq!(chunks[1].1, &[1, 2, 3, 4, 5, 6, 7, 8]);
        assert_eq!(
            loaded.records_in_order(),
            vec![
                (2, &[9, 10, 11, 12][..]),
                (0, &[1, 2, 3, 4][..]),
                (1, &[5, 6, 7, 8][..]),
            ]
        );
    }
}

#[test]
fn compressed_captures_hold_a_frame() {
    let plain = capture(false);
    let packed = capture(true);
    assert_eq!(&plain[plain.len() - 12..], &[9, 10, 11, 12, 1, 2, 3, 4, 5, 6, 7, 8]);
    let start = plain.len() - 12;
    assert_eq!(
        zstd::decode_all(&packed[start..]).unwrap(),
        &plain[start..]
    );
}

#[test]
fn captures_load_as_tables() {
    for compress in [false, true] {
        let file = capture(compress);
        let table = load_raw_mft(&file, &LoadRawOptions::default()).unwrap();
        assert_eq!(table.data, vec![1, 2, 3, 4, 5, 6, 7, 8, 9, 10, 11, 12]);
        assert_eq!(table.header.record_count, 3);
        assert_eq!(table.header.volume_letter, 'D');
    }
}

#[test]
fn broken_captures_are_refused() {
    let file = capture(false);
    assert_eq!(
        load_iocp_capture(&file[..20]).unwrap_err(),
        MftError::Io(IoFault::UnexpectedEof)
    );
    assert_eq!(
        load_iocp_capture(&file[..100]).unwrap_err(),
        MftError::Io(IoFault::UnexpectedEof)
    );
    let mut wrong = file.clone();
    wrong[0] = b'x';
    assert!(!is_iocp_capture(&wrong));
    assert_eq!(
        load_iocp_capture(&wrong).unwrap_err(),
        MftError::InvalidData(DataFault::CaptureMagic)
    );

    let mut header = [0_u8; HEADER_SIZE];
    header.copy_from_slice(&file[..HEADER_SIZE]);
    let parsed = IocpCaptureHeader::from_bytes(&header).unwrap();
    assert_eq!(parsed.to_bytes(), header);
    let newer = IocpCaptureHeader {
        version: parsed.version + 1,
        ..parsed
    };
    assert_eq!(
        IocpCaptureHeader::from_bytes(&newer.to_bytes()).unwrap_err(),
        MftError::InvalidData(DataFault::CaptureVersion(parsed.version + 1))
    );
}

#[test]
fn chunks_that_do_not_fit_are_refused() {
    let mut writer = IocpCaptureWriter::new(4, &options(false));
    writer.record_chunk(5, vec![0; 4]);
    let (_, file) = writer.write_to_bytes().unwrap();
    assert_eq!(
        load_raw_mft(&file, &LoadRawOptions::default()).unwrap_err(),
        MftError::InvalidData(DataFault::ChunkBounds {
            start_frs: 5,
            end: 24,
            size: 4,
        })
    );
    let mut writer = IocpCaptureWriter::new(4, &options(false));
    writer.record_chunk(0, vec![0; 7]);
    let (_, file) = writer.write_to_bytes().unwrap();
    assert_eq!(
        load_raw_mft(&file, &LoadRawOptions::default()).unwrap_err(),
        MftError::InvalidData(DataFault::ChunkSize {
            start_frs: 0,
            expected: 4,
            got: 7,
        })
    );
}

#[test]
fn tables_that_fit_no_memory_are_refused() {
    let capture = uffs_mft::raw_iocp::IocpCaptureData {
        header: IocpCaptureHeader {
            total_records: u64::MAX,
            record_size: 1024,
            version: 1,
            flags: 0,
            chunk_count: 0,
            total_data_size: 0,
            volume_letter: 'C',
            concurrency: 1,
        },
        chunks: Vec::new(),
        data: Vec::new(),
    };
    let size = u128::from(u64::MAX) * 1024;
    assert_eq!(
        uffs_mft::raw::load_iocp_as_raw_mft(&capture, &LoadRawOptions::default()).unwrap_err(),
        MftError::InvalidData(DataFault::CaptureTooLarge(size))
    );
}

#[test]
fn entries_are_read_back() {
    let chunk = CapturedChunk {
        completion_seq: 1,
        start_frs: 2,
        record_count: 3,
        data_offset: u64::MAX,
        data_size: 5,
    };
    assert_eq!(CapturedChunk::from_bytes(&chunk.to_bytes()), chunk);
}

fn chunk(disk_offset: u64, start_frs: u64, record_count: u64) -> ReadChunk {
    ReadChunk {
        disk_offset,
        start_frs,
        record_count,
    }
}

#[test]
fn reads_cover_whole_sectors() {
    assert_eq!(
        aligned_read(&chunk(1000, 0, 1), 1024),
        AlignedRead {
            offset: 512,
            size: 1536,
            adjustment: 488,
            payload: 1024,
        }
    );
    assert_eq!(
        aligned_read(&chunk(1024, 0, 2), 1024),
        AlignedRead {
            offset: 1024,
            size: 2048,
            adjustment: 0,
            payload: 2048,
        }
    );
    let mut buffer = vec![0_u8; 1536];
    buffer[488] = 7;
    let bytes = chunk_payload(&buffer, &chunk(1000, 0, 1), 1024).unwrap();
    assert_eq!(bytes.len(), 1024);
    assert_eq!(bytes[0], 7);
    assert_eq!(
        chunk_payload(&buffer[..1511], &chunk(1000, 0, 1), 1024),
        Err(MftError::Io(IoFault::UnexpectedEof))
    );
}

#[test]
fn chunks_are_streamed_until_nobody_listens() {
    assert_eq!(stream_chunk_size(DriveType::Nvme), 8 * 1024 * 1024);
    assert_eq!(stream_chunk_size(DriveType::Hdd), 4 * 1024 * 1024);
    let chunks = vec![chunk(0, 0, 1), chunk(1024, 1, 4), chunk(8192, 5, 1)];
    let mut run = StreamRun::new(chunks, 1024, 1024);
    assert_eq!(run.buffer_size, 1536);
    assert_eq!(run.next_read().unwrap().size, 1024);
    assert_eq!(run.payload(&[1; 1536]).unwrap(), vec![1; 1024]);
    run.sent(true);
    assert_eq!(run.next_read().unwrap().size, 4096);
    assert_eq!(run.buffer_size, 4096);
    run.sent(false);
    assert!(run.next_read().is_none());
    assert_eq!(
        reader_outcome(ReaderEnd::Panicked),
        Err(MftError::Io(IoFault::ReaderPanicked))
    );
    assert_eq!(reader_outcome(ReaderEnd::Returned(Ok(()))), Ok(()));
}

#[test]
fn capture_records_every_chunk() {
    let chunks = vec![chunk(0, 0, 1), chunk(512, 1, 1), chunk(1024, 2, 1)];
    let mut run = CaptureRun::new(chunks, 512, 512, &options(false));
    let reads = run.prime().unwrap();
    assert_eq!(reads.len(), 2);
    assert_eq!(run.completed(7, &[0; 512]), Ok(CompletionStep::Ignored));
    let step = run.completed(1, &[2; 512]).unwrap();
    assert!(matches!(step, CompletionStep::Issue(read) if read.offset == 1024));
    assert!(!run.is_complete());
    assert_eq!(run.completed(0, &[1; 512]), Ok(CompletionStep::Drained));
    assert_eq!(run.completed(0, &[1; 512]), Ok(CompletionStep::Ignored));
    assert_eq!(run.completed(1, &[3; 512]), Ok(CompletionStep::Drained));
    assert!(run.is_complete());
    let (_, file) = run.finish().unwrap();
    let loaded = load_iocp_capture(&file).unwrap();
    let starts: Vec<u64> = loaded.chunks.iter().map(|c| c.start_frs).collect();
    assert_eq!(starts, vec![1, 0, 2]);
    let table = load_raw_mft(&file, &LoadRawOptions::default()).unwrap();
    assert_eq!(&table.data[..512], &[1; 512]);
    assert_eq!(&table.data[512..1024], &[2; 512]);
    assert_eq!(&table.data[1024..], &[3; 512]);
}

#[test]
fn short_completions_fail() {
    let mut run = CaptureRun::new(vec![chunk(0, 0, 1)], 512, 512, &options(false));
    run.prime().unwrap();
    assert_eq!(
        run.completed(0, &[0; 100]),
        Err(MftError::Io(IoFault::UnexpectedEof))
    );
}

#[test]
fn tables_are_split_into_chunks() {
    let record = 1024;
    let len = (RECORDS_PER_CHUNK + 10) * 1024 + 5;
    assert_eq!(
        parse_chunks(len, record),
        vec![
            ParseChunk {
                start_frs: 0,
                offset: 0,
                records: 4096,
            },
            ParseChunk {
                start_frs: 4096,
                offset: 4_194_304,
                records: 10,
            },
        ]
    );
    assert!(parse_chunks(0, record).is_empty());
}

fn outcome(fixup_ok: bool, kind: ParsedKind) -> Outcome {
    Outcome { fixup_ok, kind }
}

#[test]
fn outcomes_are_counted() {
    let outcomes = [
        outcome(true, ParsedKind::Base),
        outcome(true, ParsedKind::Skip),
        outcome(false, ParsedKind::Base),
        outcome(true, ParsedKind::Extension),
    ];
    let parallel = tally_outcomes(ParseMode::Parallel, &outcomes);
    assert_eq!(parallel.examined, 4);
    assert_eq!(parallel.fixup_success, 3);
    assert_eq!(parallel.fixup_failed, 1);
    assert_eq!(parallel.base_records, 1);
    assert_eq!(parallel.extension_records, 1);
    assert_eq!(parallel.skip_records, 1);
    assert_eq!(parallel.kept, 2);
    assert_eq!(tally_outcomes(ParseMode::Sequential, &outcomes).kept, 3);
    let forensic = tally_outcomes(ParseMode::Forensic, &outcomes);
    assert_eq!(forensic.kept, 2);
    assert_eq!(forensic.base_records, 2);
    let first = tally_outcomes(ParseMode::Parallel, &outcomes[..2]);
    let rest = tally_outcomes(ParseMode::Parallel, &outcomes[2..]);
    assert_eq!(first.plus(rest), parallel);
    assert_eq!(
        after_fixup(ParseMode::Forensic, false),
        RecordStep::Parse { damaged: true }
    );
    assert_eq!(after_fixup(ParseMode::Parallel, false), RecordStep::Drop);
    assert_eq!(
        after_fixup(ParseMode::Parallel, true),
        RecordStep::Parse { damaged: false }
    );
}

#[test]
fn saved_tables_are_parsed_and_captures_replayed() {
    let (_, table) = save_raw_mft(&[5; 8], 4, &SaveRawOptions::default()).unwrap();
    let load = LoadRawOptions::default();
    match load_raw_to_index_with_options(&table, &load, true) {
        Ok(OfflinePlan::Parse { raw, mode }) => {
            assert_eq!(raw.data, vec![5; 8]);
            assert_eq!(mode, ParseMode::Sequential);
        }
        _ => panic!("not parsed"),
    }
    let forensic = LoadRawOptions {
        forensic: true,
        ..load
    };
    match load_raw_to_index_with_options(&table, &forensic, false) {
        Ok(OfflinePlan::Parse { mode, .. }) => assert_eq!(mode, ParseMode::Forensic),
        _ => panic!("not parsed"),
    }
    let file = capture(true);
    match load_raw_to_index_with_options(&file, &load, false) {
        Ok(OfflinePlan::Replay { volume, .. }) => assert_eq!(volume, 'D'),
        _ => panic!("not replayed"),
    }
    assert!(matches!(
        read_index_from_file(&file, 'E'),
        Ok(IndexFile::Capture(_))
    ));
    match read_index_from_file(&table, 'E') {
        Ok(IndexFile::Table(raw)) => assert_eq!(raw.data, vec![5; 8]),
        _ => panic!("no table"),
    }
    match load_iocp_to_index(&file) {
        Ok(replay) => {
            assert_eq!(replay.volume, 'D');
            assert_eq!(
                replay.records,
                vec![
                    (2, vec![9, 10, 11, 12]),
                    (0, vec![1, 2, 3, 4]),
                    (1, vec![5, 6, 7, 8]),
                ]
            );
        }
        Err(e) => panic!("{e:?}"),
    }
}

#[test]
fn chunks_are_placed_into_a_table() {
    let mut assembly = RawAssembly::new(3, 4).unwrap();
    assert_eq!(assembly.output, vec![0; 12]);
    assembly.place(1, &[7; 4]);
    assert_eq!(assembly.output, vec![0, 0, 0, 0, 7, 7, 7, 7, 0, 0, 0, 0]);
    assembly.place(2, &[8; 9]);
    assert_eq!(&assembly.output[8..], &[8; 4]);
    assert_eq!(
        RawAssembly::new(u64::MAX, 1024).unwrap_err(),
        MftError::InvalidData(DataFault::TableTooLarge(u64::MAX))
    );
}

#[test]
fn every_recorded_chunk_counts() {
    let mut writer = IocpCaptureWriter::new(4, &options(false));
    assert_eq!(writer.chunk_count(), 0);
    for k in 0..5 {
        writer.record_chunk(7, vec![1; 4]);
        assert_eq!(writer.chunk_count(), 2 * k + 1);
        writer.record_chunk(7, Vec::new());
        assert_eq!(writer.chunk_count(), 2 * k + 2);
    }
    let (header, file) = writer.write_to_bytes().unwrap();
    assert_eq!(header.chunk_count, 10);
    assert_eq!(header.total_records, 5);
    let loaded = load_iocp_capture(&file).unwrap();
    let chunks = loaded.iter_chunks();
    assert_eq!(chunks.len(), 10);
    assert_eq!(chunks[9].0.completion_seq, 9);
    assert!(chunks[9].1.is_empty());
}

#[test]
fn whole_records_do_not_depend_on_the_entries() {
    let file = capture(false);
    let mut loaded = load_iocp_capture(&file).unwrap();
    assert_eq!(loaded.whole_records(), loaded.records_in_order());
    loaded.chunks[1].record_count = 1;
    assert_eq!(
        loaded.records_in_order(),
        vec![(2, &[9, 10, 11, 12][..]), (0, &[1, 2, 3, 4][..])]
    );
    assert_eq!(
        loaded.whole_records(),
        vec![
            (2, &[9, 10, 11, 12][..]),
            (0, &[1, 2, 3, 4][..]),
            (1, &[5, 6, 7, 8][..]),
        ]
    );
    loaded.chunks[1].data_size = 7;
    assert_eq!(
        loaded.whole_records(),
        vec![(2, &[9, 10, 11, 12][..]), (0, &[1, 2, 3, 4][..])]
    );
    loaded.chunks[0].record_count = 9;
    loaded.chunks[0].start_frs = u64::MAX;
    loaded.chunks[0].data_size = 8;
    assert_eq!(
        loaded.whole_records(),
        vec![
            (u64::MAX, &[9, 10, 11, 12][..]),
            (0, &[1, 2, 3, 4][..]),
            (0, &[1, 2, 3, 4][..]),
        ]
    );
}
