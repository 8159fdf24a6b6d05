use uffs_mft::error::{DataFault, IoFault, MftError};
use uffs_mft::raw::{
    detect_record_size_from_first_record, load_raw_mft, load_raw_mft_header, save_raw_mft, LoadRawOptions, RawMftData, RawMftHeader,
    SaveRawOptions, StreamingRawMftWriter, FLAG_COMPRESSED, HEADER_SIZE, VERSION,
};

/// Plays the part of the file that a streaming writer writes to.
fn stream(
    chunks: &[&[u8]],
    record_size: u32,
    options: &SaveRawOptions,
) -> (RawMftHeader, Vec<u8>) {
    let mut writer = StreamingRawMftWriter::new(record_size, options);
    let mut file = writer.preamble();
    let mut payload = Vec::new();
    for chunk in chunks {
        writer.write_chunk(chunk);
        payload.extend_from_slice(chunk);
    }
    match writer.compression() {
        Some(level) => file.extend(zstd::encode_all(payload.as_slice(), level).unwrap()),
        None => file.extend(payload),
    }
    let (header, replaced) = writer.finish(file.len() as u64);
    if let Some(bytes) = replaced {
        file[..HEADER_SIZE].copy_from_slice(&bytes);
    }
    (header, file)
}

#[test]
fn header_roundtrip() {
    let header = RawMftHeader {
        version: VERSION,
        flags: FLAG_COMPRESSED,
        record_size: 1024,
        record_count: 1000,
        original_size: 1024 * 1000,
        compressed_size: 500_000,
        volume_letter: 'G',
    };

    let bytes = header.to_bytes();
    let parsed = RawMftHeader::from_bytes(&bytes).unwrap();

    assert_eq!(parsed.version, header.version);
    assert_eq!(parsed.flags, header.flags);
    assert_eq!(parsed.record_size, header.record_size);
    assert_eq!(parsed.record_count, header.record_count);
    assert_eq!(parsed.original_size, header.original_size);
    assert_eq!(parsed.compressed_size, header.compressed_size);
    assert_eq!(parsed.volume_letter, header.volume_letter);
    assert!(parsed.is_compressed());
}

#[test]
fn header_invalid_magic() {
    let mut bytes = [0_u8; HEADER_SIZE];
    bytes[0..8].copy_from_slice(b"INVALID!");

    let result = RawMftHeader::from_bytes(&bytes);
    assert!(result.is_err());
}

#[test]
fn save_load_uncompressed() {
    let record_size = 1024_u32;
    let mut data = vec![0_u8; 4 * record_size as usize];
    for i in 0_u8..4 {
        data[usize::from(i) * record_size as usize] = i;
    }

    let options = SaveRawOptions {
        compress: false,
        compression_level: 3,
        volume_letter: 'C',
        raw_compat: false,
    };
    let (header, file) = save_raw_mft(&data, record_size, &options).unwrap();

    assert_eq!(header.record_count, 4);
    assert_eq!(header.record_size, record_size);
    assert_eq!(header.volume_letter, 'C');
    assert!(!header.is_compressed());

    let loaded = load_raw_mft(&file, &LoadRawOptions::default()).unwrap();
    assert_eq!(loaded.data.len(), data.len());
    assert_eq!(loaded.data, data);

    for i in 0_u8..4 {
        let record = loaded.get_record(u64::from(i)).unwrap();
        assert_eq!(record[0], i);
    }
}

#[test]
fn save_load_compressed() {
    let record_size = 1024_usize;
    let record_count = 100_usize;
    let mut data = vec![0xAB_u8; record_count * record_size];
    for idx in 0..record_count {
        if let Some(byte) = data.get_mut(idx * record_size) {
            *byte = u8::try_from(idx % 256).unwrap_or(0);
        }
    }

    let options = SaveRawOptions::default();
    let (header, file) = save_raw_mft(&data, record_size as u32, &options).unwrap();

    assert_eq!(header.record_count, 100);
    assert!(header.is_compressed());
    assert!(header.compressed_size < header.original_size);

    let loaded = load_raw_mft(&file, &LoadRawOptions::default()).unwrap();
    assert_eq!(loaded.data.len(), data.len());
    assert_eq!(loaded.data, data);
}

#[test]
fn load_header_only() {
    let record_size = 1024_u32;
    let data = vec![0_u8; 10 * record_size as usize];

    let options = SaveRawOptions {
        compress: false,
        compression_level: 3,
        volume_letter: 'D',
        raw_compat: false,
    };
    let (_, file) = save_raw_mft(&data, record_size, &options).unwrap();

    let header = load_raw_mft_header(&file).unwrap();
    assert_eq!(header.record_count, 10);
    assert_eq!(header.record_size, record_size);
}

#[test]
fn iter_records() {
    let header = RawMftHeader {
        version: VERSION,
        flags: 0,
        record_size: 4,
        record_count: 3,
        original_size: 12,
        compressed_size: 0,
        volume_letter: 'X',
    };

    let data = vec![1, 2, 3, 4, 5, 6, 7, 8, 9, 10, 11, 12];
    let raw = RawMftData { header, data };

    let records = raw.iter_records();
    assert_eq!(records.len(), 3);
    assert_eq!(records[0], (0, &[1, 2, 3, 4][..]));
    assert_eq!(records[1], (1, &[5, 6, 7, 8][..]));
    assert_eq!(records[2], (2, &[9, 10, 11, 12][..]));
}

#[test]
fn volume_letter_preserved() {
    let record_size = 1024_u32;
    let data = vec![0_u8; 4 * record_size as usize];

    let options = SaveRawOptions {
        compress: false,
        compression_level: 3,
        volume_letter: 'G',
        raw_compat: false,
    };
    let (header, file) = save_raw_mft(&data, record_size, &options).unwrap();
    assert_eq!(header.volume_letter, 'G');

    let loaded = load_raw_mft(&file, &LoadRawOptions::default()).unwrap();
    assert_eq!(loaded.header.volume_letter, 'G');
}

#[test]
fn raw_compat_mode() {
    let record_size = 1024_u32;
    let mut data = vec![0_u8; 4 * record_size as usize];
    for i in 0_u8..4 {
        data[usize::from(i) * record_size as usize] = i;
    }

    let options = SaveRawOptions {
        compress: false,
        compression_level: 3,
        volume_letter: 'G',
        raw_compat: true,
    };

    let (header, file) = stream(&[&data], record_size, &options);

    assert_eq!(header.version, 0);
    assert_eq!(header.record_count, 4);

    let file_size = file.len() as u64;
    assert_eq!(file_size, data.len() as u64);
    assert_eq!(file, data);
}

#[test]
fn bare_files_hold_the_data_alone() {
    for compress in [false, true] {
        let options = SaveRawOptions {
            compress,
            compression_level: 3,
            volume_letter: 'C',
            raw_compat: true,
        };
        let (header, file) = save_raw_mft(&[1, 2, 3, 4, 5, 6, 7, 8], 4, &options).unwrap();
        assert_eq!(file, [1, 2, 3, 4, 5, 6, 7, 8]);
        assert_eq!((header.version, header.flags), (0, 0));
        assert_eq!((header.record_size, header.record_count), (4, 2));
        assert_eq!((header.original_size, header.compressed_size), (8, 0));
        assert_eq!(header.volume_letter, 'C');

        let mut table = vec![0_u8; 2048];
        for record in table.chunks_exact_mut(1024) {
            record[0..4].copy_from_slice(b"FILE");
            record[28..32].copy_from_slice(&1024_u32.to_le_bytes());
        }
        let (header, file) = save_raw_mft(&table, 1024, &options).unwrap();
        let load = LoadRawOptions {
            header_only: false,
            volume_letter: Some('C'),
            forensic: false,
        };
        let loaded = load_raw_mft(&file, &load).unwrap();
        assert_eq!(loaded.header, header);
        assert_eq!(loaded.data, table);
    }
}

#[test]
fn load_raw_ntfs_format() {
    let record_size = 1024_u32;
    let record_count = 4_u64;
    let mut data = vec![0_u8; (record_count as usize) * (record_size as usize)];

    for i in 0..record_count {
        let offset = (i as usize) * (record_size as usize);
        data[offset] = b'F';
        data[offset + 1] = b'I';
        data[offset + 2] = b'L';
        data[offset + 3] = b'E';
        data[offset + 28] = 0x00;
        data[offset + 29] = 0x04;
        data[offset + 30] = 0x00;
        data[offset + 31] = 0x00;
    }

    let loaded = load_raw_mft(&data, &LoadRawOptions::default()).unwrap();

    assert_eq!(loaded.header.version, 0);
    assert_eq!(loaded.header.record_size, record_size);
    assert_eq!(loaded.header.record_count, record_count);
    assert_eq!(loaded.header.volume_letter, 'X');
    assert_eq!(loaded.data, data);

    let options = LoadRawOptions {
        header_only: false,
        volume_letter: Some('D'),
        forensic: false,
    };
    let loaded_with_override = load_raw_mft(&data, &options).unwrap();
    assert_eq!(loaded_with_override.header.volume_letter, 'D');
}

#[test]
fn uncompressed_layout_is_fixed() {
    let options = SaveRawOptions {
        compress: false,
        compression_level: 3,
        volume_letter: 'C',
        raw_compat: false,
    };
    let (header, file) = save_raw_mft(&[7; 8], 4, &options).unwrap();
    assert_eq!(&file[0..8], b"UFFS-MFT");
    assert_eq!(&file[8..12], &[2, 0, 0, 0]);
    assert_eq!(&file[12..16], &[0, 0, 0, 0]);
    assert_eq!(&file[16..20], &[4, 0, 0, 0]);
    assert_eq!(&file[20..28], &[2, 0, 0, 0, 0, 0, 0, 0]);
    assert_eq!(&file[28..36], &[8, 0, 0, 0, 0, 0, 0, 0]);
    assert_eq!(&file[36..44], &[0; 8]);
    assert_eq!(file[44], b'C');
    assert_eq!(&file[45..64], &[0; 19]);
    assert_eq!(&file[64..], &[7; 8]);
    assert_eq!(header.record_count, 2);
}

#[test]
fn compressed_payload_is_a_frame() {
    let data = vec![3_u8; 4096];
    let (header, file) = save_raw_mft(&data, 1024, &SaveRawOptions::default()).unwrap();
    assert_ne!(&file[HEADER_SIZE..], data.as_slice());
    assert_eq!(header.compressed_size as usize, file.len() - HEADER_SIZE);
    assert_eq!(zstd::decode_all(&file[HEADER_SIZE..]).unwrap(), data);
}

#[test]
fn streamed_files_load_back() {
    let first = vec![1_u8; 2048];
    let second = vec![2_u8; 1024];
    for compress in [false, true] {
        let options = SaveRawOptions {
            compress,
            compression_level: 5,
            volume_letter: 'Q',
            raw_compat: false,
        };
        let (header, file) = stream(&[&first, &second], 1024, &options);
        assert_eq!(header.version, VERSION);
        assert_eq!(header.record_count, 3);
        assert_eq!(header.original_size, 3072);
        assert_eq!(header.is_compressed(), compress);
        let loaded = load_raw_mft(&file, &LoadRawOptions::default()).unwrap();
        assert_eq!(loaded.header, header);
        assert_eq!(&loaded.data[..2048], first.as_slice());
        assert_eq!(&loaded.data[2048..], second.as_slice());
    }
}

#[test]
fn broken_table_files_are_refused() {
    let load = |file: &[u8]| load_raw_mft(file, &LoadRawOptions::default()).unwrap_err();
    assert_eq!(load(b"UFFS"), MftError::Io(IoFault::UnexpectedEof));
    assert_eq!(load(b"UFFS-MFT"), MftError::Io(IoFault::UnexpectedEof));
    assert_eq!(
        load(&[0; 100]),
        MftError::InvalidData(DataFault::UnknownFormat)
    );
    let mut bare = vec![0; 1500];
    bare[..4].copy_from_slice(b"FILE");
    assert_eq!(
        load(&bare),
        MftError::InvalidData(DataFault::BareSize {
            file_size: 1500,
            record_size: 1024,
        })
    );

    let options = SaveRawOptions {
        compress: false,
        compression_level: 3,
        volume_letter: 'C',
        raw_compat: false,
    };
    let (_, file) = save_raw_mft(&[0; 8], 4, &options).unwrap();
    let mut newer = file.clone();
    newer[8] = 3;
    assert_eq!(
        load(&newer),
        MftError::InvalidData(DataFault::RawVersion(3))
    );
    assert_eq!(
        load(&file[..71]),
        MftError::InvalidData(DataFault::RawSize {
            expected: 8,
            got: 7,
        })
    );
    let mut garbled = file.clone();
    garbled[12] = 1;
    assert_eq!(load(&garbled), MftError::Io(IoFault::Codec));
    let mut other = [0; HEADER_SIZE];
    other.copy_from_slice(&file[..HEADER_SIZE]);
    other[0] = b'x';
    assert_eq!(
        RawMftHeader::from_bytes(&other).unwrap_err(),
        MftError::InvalidData(DataFault::RawMagic)
    );
}

#[test]
fn records_out_of_range_are_none() {
    let options = SaveRawOptions::default();
    let (_, file) = save_raw_mft(&[9; 2048], 1024, &options).unwrap();
    let loaded = load_raw_mft(&file, &LoadRawOptions::default()).unwrap();
    assert_eq!(loaded.record_count(), 2);
    assert_eq!(loaded.record_size(), 1024);
    assert!(loaded.get_record(1).is_some());
    assert!(loaded.get_record(2).is_none());
    assert!(loaded.get_record(u64::MAX).is_none());
}

#[test]
fn record_size_is_detected() {
    let mut first = vec![0_u8; 32];
    assert_eq!(detect_record_size_from_first_record(&first), 1024);
    first[29] = 0x10;
    assert_eq!(detect_record_size_from_first_record(&first), 4096);
    first[29] = 0x08;
    assert_eq!(detect_record_size_from_first_record(&first), 2048);
    first[28] = 1;
    assert_eq!(detect_record_size_from_first_record(&first), 1024);
    assert_eq!(detect_record_size_from_first_record(&first[..31]), 1024);
}
