use uffs_mft::index::{
    ChildEntry, FileRecord, FirstStream, InternalStreamEntry, MftIndex, NameRef, SizeInfo, StdInfo,
    StreamEntry,
};
use uffs_mft::platform::DriveLetter;
use uffs_mft::tree_metrics::walkable::is_walkable;
use uffs_mft::tree_metrics::{
    compute_name_info, compute_tree_metrics, delta, unstamped_directories,
};

#[test]
fn delta_sum_equals_original() {
    let test_cases: &[(u64, u32)] = &[
        (0, 1),
        (1, 1),
        (5, 1),
        (5, 2),
        (5, 3),
        (100, 3),
        (1001, 2),
        (1000, 7),
        (999, 10),
        (1_000_000, 100),
    ];

    for &(value, total_names) in test_cases {
        let mut sum = 0_u64;
        for name_info in 0..total_names {
            sum += delta(value, name_info, total_names);
        }
        assert_eq!(
            sum, value,
            "Sum of deltas should equal original value for v={value}, n={total_names}"
        );
    }
}

#[test]
fn delta_specific_values() {
    assert_eq!(delta(5, 0, 2), 2, "First link of 5/2 should get 2");
    assert_eq!(delta(5, 1, 2), 3, "Second link of 5/2 should get 3");

    assert_eq!(
        delta(1001, 0, 2),
        500,
        "First link of 1001/2 should get 500"
    );
    assert_eq!(
        delta(1001, 1, 2),
        501,
        "Second link of 1001/2 should get 501"
    );

    assert_eq!(delta(10, 0, 3), 3, "First link of 10/3 should get 3");
    assert_eq!(delta(10, 1, 3), 3, "Second link of 10/3 should get 3");
    assert_eq!(delta(10, 2, 3), 4, "Third link of 10/3 should get 4");
}

#[test]
fn compute_name_info_helper() {
    assert_eq!(
        compute_name_info(0, 2),
        1,
        "name_index=0 should map to name_info=1 for name_count=2"
    );
    assert_eq!(
        compute_name_info(1, 2),
        0,
        "name_index=1 should map to name_info=0 for name_count=2"
    );

    assert_eq!(
        compute_name_info(0, 3),
        2,
        "name_index=0 should map to name_info=2 for name_count=3"
    );
    assert_eq!(
        compute_name_info(1, 3),
        1,
        "name_index=1 should map to name_info=1 for name_count=3"
    );
    assert_eq!(
        compute_name_info(2, 3),
        0,
        "name_index=2 should map to name_info=0 for name_count=3"
    );

    assert_eq!(compute_name_info(0, 1), 0);
    assert_eq!(compute_name_info(0, 0), 0);
    assert_eq!(compute_name_info(5, 2), 0);
    assert_eq!(compute_name_info(100, 3), 0);
}

#[test]
fn transformed_delta_distribution() {
    let value: u64 = 5;
    let name_count: u32 = 2;

    let name_info_0 = compute_name_info(0, name_count);
    assert_eq!(delta(value, name_info_0, name_count), 3);

    let name_info_1 = compute_name_info(1, name_count);
    assert_eq!(delta(value, name_info_1, name_count), 2);

    assert_eq!(
        delta(value, name_info_0, name_count) + delta(value, name_info_1, name_count),
        value
    );
}

#[test]
fn delta_edge_cases() {
    assert_eq!(delta(100, 0, 1), 100);
    assert_eq!(delta(0, 0, 2), 0);
    assert_eq!(delta(0, 1, 2), 0);
    assert_eq!(delta(100, 0, 0), 100);
}

#[test]
fn delta_matches_reference_name_info_mapping() {
    let value = 5_u64;
    let total_names = 2_u32;

    assert_eq!(delta(value, 0, total_names), 2);
    assert_eq!(delta(value, 1, total_names), 3);

    let name_info0 = compute_name_info(0, total_names);
    let name_info1 = compute_name_info(1, total_names);

    assert_eq!(name_info0, 1);
    assert_eq!(name_info1, 0);

    assert_eq!(delta(value, name_info0, total_names), 3);
    assert_eq!(delta(value, name_info1, total_names), 2);
}

#[test]
fn shares_of_large_values_do_not_overflow() {
    let half = u64::MAX / 2;
    assert_eq!(delta(u64::MAX, 0, 2), half);
    assert_eq!(delta(u64::MAX, 1, 2), half + 1);
    assert_eq!(delta(u64::MAX, 0, 1), u64::MAX);
}

const NONE: u32 = u32::MAX;

fn size(length: u64, allocated: u64) -> SizeInfo {
    SizeInfo { length, allocated }
}

fn record(frs: u64, directory: bool, bytes: SizeInfo) -> FileRecord {
    FileRecord {
        frs,
        stdinfo: StdInfo {
            directory,
            reparse: false,
        },
        name_count: 1,
        total_stream_count: 1,
        first_child: NONE,
        first_stream: FirstStream {
            size: bytes,
            next_entry: NONE,
        },
        first_internal_stream: NONE,
        internal_streams_size: 0,
        internal_streams_allocated: 0,
        reparse_tag: 0,
        descendants: 0,
        treesize: 0,
        tree_allocated: 0,
    }
}

fn put(index: &mut MftIndex, record: FileRecord) {
    let frs = record.frs as usize;
    if index.frs_to_idx.len() <= frs {
        index.frs_to_idx.resize(frs + 1, NONE);
    }
    index.frs_to_idx[frs] = index.records.len() as u32;
    index.records.push(record);
}

fn link(index: &mut MftIndex, parent: usize, child_frs: u64, name_index: u16) {
    let next_entry = index.records[parent].first_child;
    index.records[parent].first_child = index.children.len() as u32;
    index.children.push(ChildEntry {
        child_frs,
        name_index,
        next_entry,
    });
}

/// The root with a directory and a file that is linked into both.
fn small_tree() -> MftIndex {
    let mut index = MftIndex::new(DriveLetter::C);
    put(&mut index, record(5, true, size(10, 16)));
    put(&mut index, record(6, true, size(20, 32)));
    let mut file = record(7, false, size(101, 128));
    file.name_count = 2;
    put(&mut index, file);
    link(&mut index, 0, 6, 0);
    link(&mut index, 0, 7, 0);
    link(&mut index, 1, 7, 1);
    index
}

#[test]
fn figures_of_a_small_tree() {
    let mut index = small_tree();
    compute_tree_metrics(&mut index, false);
    let figures: Vec<(u32, u64, u64)> = index
        .records
        .iter()
        .map(|r| (r.descendants, r.treesize, r.tree_allocated))
        .collect();
    assert_eq!(figures[2], (0, 101, 128));
    assert_eq!(figures[1], (2, 20 + 50, 32 + 64));
    assert_eq!(figures[0], (4, 10 + 20 + 101, 16 + 32 + 128));
    assert!(unstamped_directories(&index).is_empty());
}

#[test]
fn reserved_bytes_go_to_the_root() {
    let mut index = small_tree();
    index.reserved_allocated_bytes = 1000;
    compute_tree_metrics(&mut index, false);
    assert_eq!(index.records[0].tree_allocated, 1176);
    assert_eq!(index.records[1].tree_allocated, 96);
}

#[test]
fn orphans_are_swept_unless_skipped() {
    let mut index = small_tree();
    put(&mut index, record(9, true, size(3, 4)));
    let mut skipped = small_tree();
    put(&mut skipped, record(9, true, size(3, 4)));

    compute_tree_metrics(&mut index, false);
    assert_eq!(index.records[3].descendants, 1);
    assert_eq!(index.records[3].treesize, 3);
    assert!(unstamped_directories(&index).is_empty());

    compute_tree_metrics(&mut skipped, true);
    assert_eq!(skipped.records[3].descendants, 0);
    assert_eq!(unstamped_directories(&skipped), vec![3]);
}

#[test]
fn compressed_files_take_the_size_of_their_hidden_stream() {
    let mut index = small_tree();
    index.names.extend_from_slice(b"WofCompressedData");
    index.streams.push(StreamEntry {
        size: size(40, 48),
        name: NameRef {
            offset: 0,
            length: 17,
        },
        next_entry: NONE,
    });
    index.records[2].reparse_tag = 0x8000_0017;
    index.records[2].first_stream.next_entry = 0;
    index.records[2].first_stream.size = size(101, 0);
    index.records[2].name_count = 1;
    index.children.remove(2);
    index.records[1].first_child = NONE;
    compute_tree_metrics(&mut index, false);
    assert_eq!(index.records[2].first_stream.size, size(101, 48));
    assert_eq!(index.records[2].tree_allocated, 48);
    assert_eq!(index.records[0].treesize, 10 + 20 + 101);
    assert_eq!(index.records[0].tree_allocated, 16 + 32 + 48);
}

#[test]
fn other_streams_count_for_the_parent() {
    let mut index = small_tree();
    index.internal_streams.push(InternalStreamEntry {
        size: size(7, 8),
        next_entry: NONE,
    });
    index.records[1].first_internal_stream = 0;
    index.records[1].total_stream_count = 3;
    compute_tree_metrics(&mut index, false);
    assert_eq!(index.records[1].treesize, 70);
    assert_eq!(index.records[0].treesize, 131 + 7);
    assert_eq!(index.records[0].tree_allocated, 176 + 8);
    assert_eq!(index.records[0].descendants, 6);
}

#[test]
fn trees_can_be_walked() {
    assert!(is_walkable(&MftIndex::new(DriveLetter::C), false));
    assert!(is_walkable(&small_tree(), false));
    let mut index = small_tree();
    link(&mut index, 1, 99, 0);
    assert!(is_walkable(&index, false), "an unknown child is passed over");
}

#[test]
fn directories_within_themselves_are_noticed() {
    let mut index = small_tree();
    link(&mut index, 1, 5, 0);
    assert!(!is_walkable(&index, false));
    let mut own_child = small_tree();
    link(&mut own_child, 1, 6, 0);
    assert!(!is_walkable(&own_child, false));
}

#[test]
fn lists_without_end_are_noticed() {
    let mut index = small_tree();
    index.children[0].next_entry = 0;
    assert!(!is_walkable(&index, false));
    let mut outside = small_tree();
    outside.children[0].next_entry = 77;
    assert!(!is_walkable(&outside, false));
    let mut streams = small_tree();
    streams.streams.push(StreamEntry {
        size: size(1, 1),
        name: NameRef {
            offset: 0,
            length: 0,
        },
        next_entry: 0,
    });
    assert!(is_walkable(&streams, false));
    streams.records[2].first_stream.next_entry = 0;
    assert!(!is_walkable(&streams, false));
    streams.streams[0].next_entry = 50;
    assert!(is_walkable(&streams, false));
    streams.records[2].reparse_tag = 0x8000_0017;
    assert!(!is_walkable(&streams, false));
}

#[test]
fn orphans_count_only_where_they_are_walked() {
    let mut index = MftIndex::new(DriveLetter::C);
    put(&mut index, record(5, true, size(10, 16)));
    put(&mut index, record(6, true, size(1, 2)));
    link(&mut index, 1, 6, 0);
    assert!(is_walkable(&index, true));
    assert!(!is_walkable(&index, false));
    compute_tree_metrics(&mut index, true);
    assert_eq!(index.records[0].descendants, 1);
    assert_eq!(index.records[0].tree_allocated, 16);
    assert_eq!(index.records[1].descendants, 0);
}

#[test]
fn an_index_without_a_root_needs_no_walk() {
    let mut index = MftIndex::new(DriveLetter::C);
    put(&mut index, record(6, true, size(1, 2)));
    link(&mut index, 0, 6, 0);
    assert!(is_walkable(&index, true));
    assert!(!is_walkable(&index, false));
}

#[test]
fn reserved_bytes_do_not_go_to_orphans() {
    let mut index = small_tree();
    put(&mut index, record(9, true, size(7, 20)));
    index.reserved_allocated_bytes = 4096;
    compute_tree_metrics(&mut index, false);
    assert_eq!(index.records[3].tree_allocated, 20);
    assert_eq!(index.records[0].tree_allocated, 176 + 4096);
}

#[test]
fn figures_cover_at_least_the_record_itself() {
    let mut index = small_tree();
    compute_tree_metrics(&mut index, false);
    for r in &index.records {
        if r.stdinfo.is_directory() {
            assert!(r.descendants >= 1);
            assert!(r.treesize >= r.first_stream.size.length);
            assert!(r.tree_allocated >= r.first_stream.size.allocated);
        } else {
            assert_eq!(r.descendants, 0);
            assert_eq!(r.treesize, r.first_stream.size.length);
            assert_eq!(r.tree_allocated, r.first_stream.size.allocated);
        }
    }
}

#[test]
fn a_second_run_changes_nothing() {
    let mut index = small_tree();
    put(&mut index, record(9, true, size(7, 20)));
    index.reserved_allocated_bytes = 4096;
    compute_tree_metrics(&mut index, false);
    let first = index.records.clone();
    compute_tree_metrics(&mut index, false);
    assert_eq!(index.records, first);
}

#[test]
fn linked_files_count_once_in_the_directory_above() {
    let mut index = MftIndex::new(DriveLetter::C);
    put(&mut index, record(5, true, size(10, 16)));
    put(&mut index, record(6, true, size(20, 32)));
    put(&mut index, record(8, true, size(30, 64)));
    let mut file = record(7, false, size(1001, 1024));
    file.name_count = 3;
    put(&mut index, file);
    link(&mut index, 0, 6, 0);
    link(&mut index, 0, 8, 0);
    link(&mut index, 0, 7, 0);
    link(&mut index, 1, 7, 1);
    link(&mut index, 2, 7, 2);
    index.reserved_allocated_bytes = 500;
    compute_tree_metrics(&mut index, false);
    assert_eq!(index.records[0].treesize, 10 + 20 + 30 + 1001);
    assert_eq!(
        index.records[0].tree_allocated,
        16 + 500 + 32 + 64 + 1024
    );
    assert_eq!(index.records[0].descendants, 1 + 2 + 3);
    assert_eq!(index.records[1].treesize, 20 + delta(1001, 1, 3));
    assert_eq!(index.records[2].treesize, 30 + delta(1001, 0, 3));
}
