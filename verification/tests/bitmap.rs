use uffs_mft::platform::MftBitmap;

#[test]
fn bits_count_from_the_lowest() {
    let bitmap = MftBitmap::from_bytes(vec![0b0000_0101, 0b1000_0000]);
    assert_eq!(bitmap.record_count(), 16);
    assert_eq!(bitmap.in_use_records(), vec![0, 2, 15]);
    assert_eq!(bitmap.count_in_use(), 3);
    assert_eq!(bitmap.max_frs_in_use(), 15);
    assert!(bitmap.is_record_in_use(2));
    assert!(!bitmap.is_record_in_use(1));
    assert!(!bitmap.is_record_in_use(16));
    assert!(!bitmap.is_record_in_use(u64::MAX));
    assert_eq!(bitmap.as_bytes(), &[0b0000_0101, 0b1000_0000]);
}

#[test]
fn bits_are_those_of_the_bytes() {
    for bitmap in [
        MftBitmap::from_bytes(vec![0b1010_0101, 0, 0b0111_1110]),
        MftBitmap::new_all_valid(11),
    ] {
        let bytes = bitmap.as_bytes();
        for frs in 0..40_u64 {
            let set = frs < bitmap.record_count() as u64
                && frs / 8 < bytes.len() as u64
                && bytes[(frs / 8) as usize] & (1_u8 << (frs % 8)) != 0;
            assert_eq!(bitmap.is_record_in_use(frs), set);
        }
    }
}

#[test]
fn all_valid_covers_no_more_than_asked_for() {
    let bitmap = MftBitmap::new_all_valid(10);
    assert_eq!(bitmap.as_bytes(), &[0xFF, 0xFF]);
    assert_eq!(bitmap.count_in_use(), 10);
    assert!(bitmap.is_record_in_use(9));
    assert!(!bitmap.is_record_in_use(10));
    assert_eq!(bitmap.in_use_records().len(), bitmap.count_in_use());
}

#[test]
fn records_are_found_in_order() {
    let bitmap = MftBitmap::from_bytes(vec![0b0110_0110]);
    assert_eq!(bitmap.find_in_use_range(0, 2), vec![1, 2]);
    assert_eq!(bitmap.find_in_use_range(2, 10), vec![2, 5, 6]);
    assert_eq!(bitmap.find_in_use_range(7, 10), Vec::<u64>::new());
    assert_eq!(bitmap.find_in_use_range(100, 10), Vec::<u64>::new());
}

#[test]
fn ends_without_records_are_skipped() {
    let bitmap = MftBitmap::from_bytes(vec![0b0110_0110]);
    assert_eq!(bitmap.calculate_skip_range(0, 8), (1, 1));
    assert_eq!(bitmap.calculate_skip_range(3, 5), (2, 0));
    assert_eq!(bitmap.calculate_skip_range(1, 7), (0, 0));
    assert_eq!(bitmap.calculate_skip_range(8, 100), (0, 0));
}

#[test]
fn clusters_with_records_are_listed() {
    let bitmap = MftBitmap::from_bytes(vec![0b0000_0001, 0, 0b0001_0001, 0]);
    assert!(bitmap.cluster_has_in_use(0, 4));
    assert!(!bitmap.cluster_has_in_use(4, 4));
    assert!(!bitmap.cluster_has_in_use(28, 100));
    assert_eq!(bitmap.in_use_cluster_ranges(4), vec![(0, 1), (4, 2)]);
    assert_eq!(MftBitmap::new_all_valid(9).in_use_cluster_ranges(4), vec![(0, 3)]);
}

#[test]
fn empty_bitmap_has_no_records() {
    let bitmap = MftBitmap::from_bytes(Vec::new());
    assert_eq!(bitmap.count_in_use(), 0);
    assert_eq!(bitmap.max_frs_in_use(), 0);
    assert!(bitmap.in_use_records().is_empty());
}
