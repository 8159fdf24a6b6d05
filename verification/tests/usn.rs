use uffs_mft::error::{IoFault, MftError};
use uffs_mft::ntfs::scan_attribute_list_extensions;
use uffs_mft::reader::usn_apply::{
    after_deletes, apply_targeted_usn_reads, cached_read_plan, cached_serial,
    classify_journal_answer,
    classify_usn_state, classify_without_journal, fresh_checkpoint, has_changes,
    no_journal_cache_is_stale, parse_no_journal_max_age, CacheStatus, CachedPlan, IndexHeader,
    UpdateStep, UsnApplyStats, UsnDecision, NO_JOURNAL_MAX_AGE_SECS_DEFAULT,
};
use uffs_mft::usn::targeted::{read_targeted_frs_records, TargetOutcome};
use uffs_mft::usn::{
    aggregate_changes, query_usn_journal, read_usn_journal, reason, ChangeType, UsnJournalInfo,
    UsnRecord,
};

#[test]
fn no_journal_cache_below_ceiling_is_served() {
    assert!(!no_journal_cache_is_stale(
        0,
        NO_JOURNAL_MAX_AGE_SECS_DEFAULT
    ));
    assert!(!no_journal_cache_is_stale(
        NO_JOURNAL_MAX_AGE_SECS_DEFAULT - 1,
        NO_JOURNAL_MAX_AGE_SECS_DEFAULT,
    ));
}

#[test]
fn no_journal_cache_at_ceiling_is_not_stale() {
    assert!(!no_journal_cache_is_stale(
        NO_JOURNAL_MAX_AGE_SECS_DEFAULT,
        NO_JOURNAL_MAX_AGE_SECS_DEFAULT,
    ));
}

#[test]
fn no_journal_cache_above_ceiling_is_stale() {
    assert!(no_journal_cache_is_stale(
        NO_JOURNAL_MAX_AGE_SECS_DEFAULT + 1,
        NO_JOURNAL_MAX_AGE_SECS_DEFAULT,
    ));
}

#[test]
fn parse_no_journal_max_age_uses_default_when_absent() {
    assert_eq!(
        parse_no_journal_max_age(None),
        NO_JOURNAL_MAX_AGE_SECS_DEFAULT
    );
}

#[test]
fn parse_no_journal_max_age_uses_default_when_unparseable() {
    assert_eq!(
        parse_no_journal_max_age(Some("not-a-number")),
        NO_JOURNAL_MAX_AGE_SECS_DEFAULT
    );
}

#[test]
fn parse_no_journal_max_age_honours_override() {
    assert_eq!(parse_no_journal_max_age(Some("600")), 600);
    assert_eq!(parse_no_journal_max_age(Some("0")), 0);
}

#[test]
fn age_decides_without_a_journal() {
    assert_eq!(NO_JOURNAL_MAX_AGE_SECS_DEFAULT, 300);
    assert_eq!(classify_without_journal(300, None), UsnDecision::UseCached);
    assert_eq!(classify_without_journal(301, None), UsnDecision::Rebuild);
    assert_eq!(
        classify_without_journal(301, Some("600")),
        UsnDecision::UseCached
    );
}

fn info() -> UsnJournalInfo {
    UsnJournalInfo {
        journal_id: 7,
        first_usn: 100,
        next_usn: 500,
        lowest_valid_usn: 0,
        max_usn: i64::MAX,
        max_size: 1,
        allocation_delta: 2,
    }
}

fn header(usn_journal_id: u64, next_usn: i64) -> IndexHeader {
    IndexHeader {
        usn_journal_id,
        next_usn,
    }
}

#[test]
fn checkpoint_decides_with_a_journal() {
    let current = info();
    assert_eq!(
        classify_usn_state(&header(8, 200), &current),
        UsnDecision::Rebuild
    );
    assert_eq!(
        classify_usn_state(&header(7, 99), &current),
        UsnDecision::Rebuild
    );
    assert_eq!(
        classify_usn_state(&header(7, 500), &current),
        UsnDecision::UseCached
    );
    assert_eq!(
        classify_usn_state(&header(0, 100), &current),
        UsnDecision::Apply {
            journal_id: 7,
            start_usn: 100,
        }
    );
    assert_eq!(
        classify_journal_answer(&header(8, 0), None),
        UsnDecision::UseCached
    );
    let fresh = fresh_checkpoint(Some(&current));
    assert_eq!(fresh, header(7, 500));
    assert_eq!(classify_usn_state(&fresh, &current), UsnDecision::UseCached);
    assert_eq!(fresh_checkpoint(None), header(0, 0));
    assert_eq!(cached_serial(None), 0);
}

#[test]
fn caches_are_served_updated_or_rebuilt() {
    let fresh = CacheStatus::Fresh { age_seconds: 1 };
    let stale = CacheStatus::Stale {
        age_seconds: Some(9),
    };
    assert_eq!(cached_read_plan(true, true, stale), CachedPlan::Serve);
    assert_eq!(cached_read_plan(true, false, fresh), CachedPlan::Rebuild);
    assert_eq!(cached_read_plan(false, true, fresh), CachedPlan::Update);
    assert_eq!(cached_read_plan(false, true, stale), CachedPlan::Rebuild);
    assert_eq!(
        cached_read_plan(false, false, CacheStatus::Missing),
        CachedPlan::Rebuild
    );
}

#[test]
fn updates_end_with_a_save() {
    assert!(has_changes(Some(1)));
    assert!(!has_changes(Some(0)));
    assert!(!has_changes(None));
    let none = UsnApplyStats {
        deleted: 0,
        targeted_reads: 0,
        skipped: 4,
    };
    let some = UsnApplyStats { deleted: 1, ..none };
    assert_eq!(after_deletes(false, &some, 3), UpdateStep::Leave);
    assert_eq!(after_deletes(true, &some, 3), UpdateStep::ReadRecords);
    assert_eq!(after_deletes(true, &some, 0), UpdateStep::RebuildAndSave);
    assert_eq!(after_deletes(true, &none, 0), UpdateStep::Save);
    let mut stats = none;
    assert_eq!(
        apply_targeted_usn_reads(&mut stats, None),
        UpdateStep::Save
    );
    assert_eq!(
        apply_targeted_usn_reads(&mut stats, Some(2)),
        UpdateStep::RebuildAndSave
    );
    assert_eq!(stats.targeted_reads, 2);
    assert_eq!(stats.skipped, 4);
}

#[test]
fn journal_data_is_read() {
    let mut buf = [0_u8; 56];
    buf[0] = 7;
    buf[8] = 100;
    buf[16..24].copy_from_slice(&500_i64.to_le_bytes());
    buf[32..40].copy_from_slice(&i64::MAX.to_le_bytes());
    buf[40] = 1;
    buf[48] = 2;
    assert_eq!(query_usn_journal(Ok(&buf)), Ok(info()));
    assert_eq!(
        query_usn_journal(Err(1179)),
        Err(MftError::Io(IoFault::Os(1179)))
    );
}

fn entry(frs: u64, parent: u64, usn: i64, why: u32, name: &str) -> Vec<u8> {
    let units: Vec<u8> = name.encode_utf16().flat_map(u16::to_le_bytes).collect();
    let length = (60 + units.len()).div_ceil(8) * 8;
    let mut b = vec![0_u8; length];
    b[0..4].copy_from_slice(&(length as u32).to_le_bytes());
    b[8..16].copy_from_slice(&(frs | 3 << 48).to_le_bytes());
    b[16..24].copy_from_slice(&(parent | 1 << 48).to_le_bytes());
    b[24..32].copy_from_slice(&usn.to_le_bytes());
    b[40..44].copy_from_slice(&why.to_le_bytes());
    b[52] = 0x20;
    b[56..58].copy_from_slice(&(units.len() as u16).to_le_bytes());
    b[58..60].copy_from_slice(&60_u16.to_le_bytes());
    b[60..60 + units.len()].copy_from_slice(&units);
    b
}

#[test]
fn journal_is_read_batch_by_batch() {
    let mut read = read_usn_journal(7, 100);
    let request = read.request();
    assert_eq!(&request[0..8], &100_i64.to_le_bytes());
    assert_eq!(&request[8..12], &[0xFF; 4]);
    assert_eq!(&request[12..32], &[0; 20]);
    assert_eq!(&request[32..40], &7_u64.to_le_bytes());

    let mut batch = 300_i64.to_le_bytes().to_vec();
    batch.extend(entry(30, 5, 110, reason::FILE_CREATE, "a.txt"));
    batch.extend(entry(31, 5, 120, reason::FILE_DELETE, "ü☃"));
    let returned = batch.len() as u32;
    batch.resize(4096, 0xEE);
    assert_eq!(read.feed(&batch, returned), Ok(true));
    assert_eq!(read.current_usn, 300);
    assert_eq!(read.records.len(), 2);
    assert_eq!(read.records[0].frs, 30);
    assert_eq!(read.records[0].parent_frs, 5);
    assert_eq!(read.records[0].filename, "a.txt");
    assert_eq!(read.records[0].file_attributes, 0x20);
    assert_eq!(read.records[1].filename, "ü☃");
    assert_eq!(read.records[1].usn, 120);

    assert_eq!(read.feed(&300_i64.to_le_bytes(), 8), Ok(false));
    assert_eq!(
        read.feed(&batch, 7),
        Err(MftError::Io(IoFault::UnexpectedEof))
    );
    assert_eq!(read.records.len(), 2);
}

#[test]
fn names_with_lone_surrogates_are_patched() {
    let mut read = read_usn_journal(7, 0);
    let mut record = entry(30, 5, 1, 0, "xy");
    record[60..62].copy_from_slice(&0xD800_u16.to_le_bytes());
    let mut batch = 9_i64.to_le_bytes().to_vec();
    batch.extend(record);
    read.feed(&batch, batch.len() as u32).unwrap();
    assert_eq!(read.records[0].filename, "\u{FFFD}y");

    let mut read = read_usn_journal(7, 0);
    let mut batch = 9_i64.to_le_bytes().to_vec();
    batch.extend(entry(30, 5, 1, 0, "😀!"));
    read.feed(&batch, batch.len() as u32).unwrap();
    assert_eq!(read.records[0].filename, "😀!");
}

fn change(frs: u64, parent_frs: u64, why: u32, name: &str) -> UsnRecord {
    UsnRecord {
        frs,
        parent_frs,
        usn: 0,
        reason: why,
        file_attributes: 0,
        filename: name.to_string(),
    }
}

#[test]
fn reasons_are_ranked() {
    let kind = |why: u32| change(1, 1, why, "").change_type();
    assert_eq!(
        kind(reason::FILE_CREATE | reason::FILE_DELETE),
        ChangeType::Created
    );
    assert_eq!(
        kind(reason::FILE_DELETE | reason::RENAME_NEW_NAME),
        ChangeType::Deleted
    );
    assert_eq!(
        kind(reason::RENAME_NEW_NAME | reason::DATA_EXTEND),
        ChangeType::Renamed
    );
    assert_eq!(kind(reason::DATA_EXTEND), ChangeType::SizeChanged);
    assert_eq!(
        kind(reason::DATA_TRUNCATION | reason::BASIC_INFO_CHANGE),
        ChangeType::SizeChanged
    );
    assert_eq!(
        kind(reason::BASIC_INFO_CHANGE | reason::CLOSE),
        ChangeType::MetadataChanged
    );
    assert_eq!(kind(reason::CLOSE), ChangeType::Other);
    assert!(change(1, 1, reason::CLOSE, "").is_close());
    assert!(!change(1, 1, !reason::CLOSE, "").is_close());
}

#[test]
fn changes_of_a_file_are_collected() {
    let records = [
        change(30, 5, reason::FILE_CREATE, "a"),
        change(31, 5, reason::FILE_DELETE, "b"),
        change(30, 6, reason::RENAME_NEW_NAME, "c"),
        change(30, 7, reason::DATA_EXTEND, ""),
    ];
    let changes = aggregate_changes(&records);
    assert_eq!(changes.len(), 2);
    let first = &changes[&30];
    assert_eq!(first.parent_frs, 7);
    assert_eq!(first.filename, "c");
    assert!(first.created && first.renamed && first.size_changed);
    assert!(!first.deleted && !first.metadata_changed);
    assert!(changes[&31].deleted);
    assert!(!changes.contains_key(&32));
}

/// A record whose attribute list names other records.
fn record_with_list(targets: &[u64]) -> Vec<u8> {
    let mut list = Vec::new();
    for target in targets {
        let mut e = vec![0_u8; 32];
        e[4] = 32;
        e[16..24].copy_from_slice(&(target | 9 << 48).to_le_bytes());
        list.extend(e);
    }
    let mut b = vec![0_u8; 1024];
    b[20] = 56;
    let length = 24 + list.len() as u32;
    b[24..28].copy_from_slice(&(56 + length + 8).to_le_bytes());
    b[56] = 0x20;
    b[60..64].copy_from_slice(&length.to_le_bytes());
    b[72..76].copy_from_slice(&(list.len() as u32).to_le_bytes());
    b[76] = 24;
    b[80..80 + list.len()].copy_from_slice(&list);
    let end = 56 + length as usize;
    b[end..end + 4].copy_from_slice(&[0xFF; 4]);
    b
}

#[test]
fn extension_records_are_listed() {
    let mut out = vec![1];
    scan_attribute_list_extensions(&record_with_list(&[40, 30, 0, 41]), 30, &mut out);
    assert_eq!(out, vec![1, 40, 41]);
    scan_attribute_list_extensions(&[0; 47], 30, &mut out);
    assert_eq!(out.len(), 3);
}

#[test]
fn named_records_are_read_before_their_extensions() {
    let mut read = read_targeted_frs_records(&[30, 31, 32]);
    assert_eq!(read.next_record(), Some(30));
    read.record(TargetOutcome::Whole {
        record: &record_with_list(&[50, 40]),
        parsed: true,
    });
    assert_eq!(read.next_record(), Some(31));
    read.record(TargetOutcome::Damaged);
    assert_eq!(read.next_record(), Some(32));
    read.record(TargetOutcome::Whole {
        record: &record_with_list(&[40]),
        parsed: false,
    });
    assert_eq!(read.next_record(), Some(40));
    read.record(TargetOutcome::Whole {
        record: &record_with_list(&[60]),
        parsed: true,
    });
    assert_eq!(read.next_record(), Some(50));
    read.record(TargetOutcome::Unreadable);
    assert_eq!(read.next_record(), None);
    assert_eq!(read.next_record(), None);
    assert_eq!(read.parsed, 2);
}
