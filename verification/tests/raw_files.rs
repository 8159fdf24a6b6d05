use uffs_mft::raw::{
    load_raw_mft, load_raw_mft_header, save_raw_mft, LoadRawOptions, RawMftData, RawMftHeader,
    SaveRawOptions, StreamingRawMftWriter, FLAG_COMPRESSED, HEADER_SIZE, VERSION,
};

/// Plays the part of the file that a streaming writer writes to.
fn stream(
    chunks: &[&[u8]],
    record_size: u32,
    options: &SaveRawOptions,
) -> (RawMftHeader, Vec<u8>) {
    let mut writer = StreamingRawMftWriter::new(record_size, options);
    let mut file = writer.preamble();
    let mut payload = Vec::new();
    for chunk in chunks {
        writer.write_chunk(chunk);
        payload.extend_from_slice(chunk);
    }
    match writer.compression() {
        Some(level) => file.extend(zstd::encode_all(payload.as_slice(), level).unwrap()),
        None => file.extend(payload),
    }
    let (header, replaced) = writer.finish(file.len() as u64);
    if let Some(bytes) = replaced {
        file[..HEADER_SIZE].copy_from_slice(&bytes);
    }
    (header, file)
}

#[test]
fn test_header_roundtrip() {
    let header = RawMftHeader {
        version: VERSION,
        flags: FLAG_COMPRESSED,
        record_size: 1024,
        record_count: 1000,
        original_size: 1024 * 1000,
        compressed_size: 500_000,
        volume_letter: 'G',
    };

    let bytes = header.to_bytes();
    let parsed = RawMftHeader::from_bytes(&bytes).unwrap();

    assert_eq!(parsed.version, header.version);
    assert_eq!(parsed.flags, header.flags);
    assert_eq!(parsed.record_size, header.record_size);
    assert_eq!(parsed.record_count, header.record_count);
    assert_eq!(parsed.original_size, header.original_size);
    assert_eq!(parsed.compressed_size, header.compressed_size);
    assert_eq!(parsed.volume_letter, header.volume_letter);
    assert!(parsed.is_compressed());
}

#[test]
fn test_header_invalid_magic() {
    let mut bytes = [0_u8; HEADER_SIZE];
    bytes[0..8].copy_from_slice(b"INVALID!");

    let result = RawMftHeader::from_bytes(&bytes);
    assert!(result.is_err());
}

#[test]
fn test_save_load_uncompressed() {
    let record_size = 1024_u32;
    let mut data = vec![0_u8; 4 * record_size as usize];
    for i in 0_u8..4 {
        data[usize::from(i) * record_size as usize] = i;
    }

    let options = SaveRawOptions {
        compress: false,
        compression_level: 3,
        volume_letter: 'C',
        raw_compat: false,
    };
    let (header, file) = save_raw_mft(&data, record_size, &options).unwrap();

    assert_eq!(header.record_count, 4);
    assert_eq!(header.record_size, record_size);
    assert_eq!(header.volume_letter, 'C');
    assert!(!header.is_compressed());

    let loaded = load_raw_mft(&file, &LoadRawOptions::default()).unwrap();
    assert_eq!(loaded.data.len(), data.len());
    assert_eq!(loaded.data, data);

    for i in 0_u8..4 {
        let record = loaded.get_record(u64::from(i)).unwrap();
        assert_eq!(record[0], i);
    }
}

#[test]
fn test_save_load_compressed() {
    let record_size = 1024_usize;
    let record_count = 100_usize;
    let mut data = vec![0xAB_u8; record_count * record_size];
    for idx in 0..record_count {
        if let Some(byte) = data.get_mut(idx * record_size) {
            *byte = u8::try_from(idx % 256).unwrap_or(0);
        }
    }

    let options = SaveRawOptions::default();
    let (header, file) = save_raw_mft(&data, record_size as u32, &options).unwrap();

    assert_eq!(header.record_count, 100);
    assert!(header.is_compressed());
    assert!(header.compressed_size < header.original_size);

    let loaded = load_raw_mft(&file, &LoadRawOptions::default()).unwrap();
    assert_eq!(loaded.data.len(), data.len());
    assert_eq!(loaded.data, data);
}

#[test]
fn test_load_header_only() {
    let record_size = 1024_u32;
    let data = vec![0_u8; 10 * record_size as usize];

    let options = SaveRawOptions {
        compress: false,
        compression_level: 3,
        volume_letter: 'D',
        raw_compat: false,
    };
    let (_, file) = save_raw_mft(&data, record_size, &options).unwrap();

    let header = load_raw_mft_header(&file).unwrap();
    assert_eq!(header.record_count, 10);
    assert_eq!(header.record_size, record_size);
}

#[test]
fn test_iter_records() {
    let header = RawMftHeader {
        version: VERSION,
        flags: 0,
        record_size: 4,
        record_count: 3,
        original_size: 12,
        compressed_size: 0,
        volume_letter: 'X',
    };

    let data = vec![1, 2, 3, 4, 5, 6, 7, 8, 9, 10, 11, 12];
    let raw = RawMftData { header, data };

    let records = raw.iter_records();
    assert_eq!(records.len(), 3);
    assert_eq!(records[0], (0, &[1, 2, 3, 4][..]));
    assert_eq!(records[1], (1, &[5, 6, 7, 8][..]));
    assert_eq!(records[2], (2, &[9, 10, 11, 12][..]));
}

#[test]
fn test_volume_letter_preserved() {
    let record_size = 1024_u32;
    let data = vec![0_u8; 4 * record_size as usize];

    let options = SaveRawOptions {
        compress: false,
        compression_level: 3,
        volume_letter: 'G',
        raw_compat: false,
    };
    let (header, file) = save_raw_mft(&data, record_size, &options).unwrap();
    assert_eq!(header.volume_letter, 'G');

    let loaded = load_raw_mft(&file, &LoadRawOptions::default()).unwrap();
    assert_eq!(loaded.header.volume_letter, 'G');
}

#[test]
fn test_raw_compat_mode() {
    let record_size = 1024_u32;
    let mut data = vec![0_u8; 4 * record_size as usize];
    for i in 0_u8..4 {
        data[usize::from(i) * record_size as usize] = i;
    }

    let options = SaveRawOptions {
        compress: false,
        compression_level: 3,
        volume_letter: 'G',
        raw_compat: true,
    };

    let (header, file) = stream(&[&data], record_size, &options);

    assert_eq!(header.version, 0);
    assert_eq!(header.record_count, 4);

    let file_size = file.len() as u64;
    assert_eq!(file_size, data.len() as u64);
    assert_eq!(file, data);
}

#[test]
fn test_load_raw_ntfs_format() {
    let record_size = 1024_u32;
    let record_count = 4_u64;
    let mut data = vec![0_u8; (record_count as usize) * (record_size as usize)];

    for i in 0..record_count {
        let offset = (i as usize) * (record_size as usize);
        data[offset] = b'F';
        data[offset + 1] = b'I';
        data[offset + 2] = b'L';
        data[offset + 3] = b'E';
        data[offset + 28] = 0x00;
        data[offset + 29] = 0x04;
        data[offset + 30] = 0x00;
        data[offset + 31] = 0x00;
    }

    let loaded = load_raw_mft(&data, &LoadRawOptions::default()).unwrap();

    assert_eq!(loaded.header.version, 0);
    assert_eq!(loaded.header.record_size, record_size);
    assert_eq!(loaded.header.record_count, record_count);
    assert_eq!(loaded.header.volume_letter, 'X');
    assert_eq!(loaded.data, data);

    let options = LoadRawOptions {
        header_only: false,
        volume_letter: Some('D'),
        forensic: false,
    };
    let loaded_with_override = load_raw_mft(&data, &options).unwrap();
    assert_eq!(loaded_with_override.header.volume_letter, 'D');
}
