//! Bringing a cached index up to date with the change journal of its volume.

use crate::platform::volume::NtfsVolumeData;
use crate::scan::{chars_of, parse_u64};
use crate::usn::UsnJournalInfo;
use vstd::prelude::*;

verus! {

/// Up to where a cached index follows the journal of its volume.
#[derive(Debug, Clone, Copy, PartialEq, Eq, Structural)]
pub struct IndexHeader {
    /// The journal. Zero where it was not known.
    pub usn_journal_id: u64,
    /// The first change that the index does not contain.
    pub next_usn: i64,
}

/// What is done with a cached index.
#[derive(Debug, Clone, Copy, PartialEq, Eq, Structural)]
pub enum UsnDecision {
    /// It is used as it is.
    UseCached,
    /// It is built anew.
    Rebuild,
    /// The changes of a journal are applied to it.
    Apply {
        /// The journal.
        journal_id: u64,
        /// The first change.
        start_usn: i64,
    },
}

/// The journal is another one than the index follows, or it no longer holds
/// the changes that the index lacks.
pub open spec fn is_lost(header: IndexHeader, info: UsnJournalInfo) -> bool {
    (header.usn_journal_id != 0 && info.journal_id != header.usn_journal_id) || header.next_usn
        < info.first_usn
}

/// Whether the changes that an index lacks cannot be had from the journal.
pub fn usn_journal_invalidates_cache(header: &IndexHeader, current_info: &UsnJournalInfo) -> (r:
    bool)
    ensures
        r == is_lost(*header, *current_info),
{
    if header.usn_journal_id != 0 && current_info.journal_id != header.usn_journal_id {
        return true;
    }
    header.next_usn < current_info.first_usn
}

/// What is done with a cached index whose volume has a journal.
pub open spec fn decision(header: IndexHeader, info: UsnJournalInfo) -> UsnDecision {
    if is_lost(header, info) {
        UsnDecision::Rebuild
    } else if header.next_usn >= info.next_usn {
        UsnDecision::UseCached
    } else {
        UsnDecision::Apply { journal_id: info.journal_id, start_usn: header.next_usn }
    }
}

/// What is done with a cached index whose volume has a journal.
pub fn classify_usn_state(header: &IndexHeader, current_info: &UsnJournalInfo) -> (r: UsnDecision)
    ensures
        r == decision(*header, *current_info),
{
    if usn_journal_invalidates_cache(header, current_info) {
        return UsnDecision::Rebuild;
    }
    if header.next_usn >= current_info.next_usn {
        return UsnDecision::UseCached;
    }
    UsnDecision::Apply { journal_id: current_info.journal_id, start_usn: header.next_usn }
}

/// What is done with a cached index. Where the journal cannot be asked, the
/// index is used as it is.
pub fn classify_journal_answer(header: &IndexHeader, answer: Option<&UsnJournalInfo>) -> (r:
    UsnDecision)
    ensures
        r == match answer {
            Some(info) => decision(*header, *info),
            None => UsnDecision::UseCached,
        },
        answer is None ==> r is UseCached,
        r is Rebuild || r is Apply ==> answer is Some,
{
    match answer {
        Some(info) => classify_usn_state(header, info),
        None => UsnDecision::UseCached,
    }
}

/// Changes are applied only from a journal that still holds all of them, and
/// an index is used as it is only where it lacks none.
pub proof fn law_no_change_is_missed(header: IndexHeader, info: UsnJournalInfo)
    ensures
        decision(header, info) matches UsnDecision::Apply { journal_id, start_usn } ==> {
            &&& journal_id == info.journal_id
            &&& info.first_usn <= start_usn < info.next_usn
            &&& start_usn == header.next_usn
        },
        decision(header, info) is UseCached ==> info.next_usn <= header.next_usn,
{
}

/// How old a cached index may be whose volume has no journal, in seconds.
pub const NO_JOURNAL_MAX_AGE_SECS_DEFAULT: u64 = 300;

/// How old a cached index may be whose volume has no journal: what a setting
/// says, if it is a number.
pub open spec fn max_age(raw: Option<Seq<char>>) -> u64 {
    match raw {
        Some(s) => match crate::scan::number(s) {
            Some(n) => n,
            None => NO_JOURNAL_MAX_AGE_SECS_DEFAULT,
        },
        None => NO_JOURNAL_MAX_AGE_SECS_DEFAULT,
    }
}

/// How old a cached index may be whose volume has no journal, by a setting.
pub fn parse_no_journal_max_age(raw: Option<&str>) -> (r: u64)
    ensures
        r == max_age(
            match raw {
                Some(s) => Some(s@),
                None => None,
            },
        ),
{
    match raw {
        Some(s) => {
            let chars: Vec<char> = chars_of(s);
            match parse_u64(chars.as_slice()) {
                Some(n) => n,
                None => NO_JOURNAL_MAX_AGE_SECS_DEFAULT,
            }
        },
        None => NO_JOURNAL_MAX_AGE_SECS_DEFAULT,
    }
}

/// Whether a cached index is too old for a volume without a journal.
pub fn no_journal_cache_is_stale(age_seconds: u64, max_age_seconds: u64) -> (r: bool)
    ensures
        r == (age_seconds > max_age_seconds),
{
    age_seconds > max_age_seconds
}

/// What is done with a cached index of an age whose volume has no journal:
/// its age is all that is known of it.
pub fn classify_without_journal(age_seconds: u64, raw_max_age: Option<&str>) -> (r: UsnDecision)
    ensures
        r == if age_seconds > max_age(
            match raw_max_age {
                Some(s) => Some(s@),
                None => None,
            },
        ) {
            UsnDecision::Rebuild
        } else {
            UsnDecision::UseCached
        },
        raw_max_age is None ==> (r is Rebuild <==> age_seconds > 300),
        !(r is Apply),
{
    if no_journal_cache_is_stale(age_seconds, parse_no_journal_max_age(raw_max_age)) {
        UsnDecision::Rebuild
    } else {
        UsnDecision::UseCached
    }
}

/// What the cache holds of a drive.
#[derive(Debug, Clone, Copy, PartialEq, Eq, Structural)]
pub enum CacheStatus {
    /// An index that is young enough.
    Fresh {
        /// Its age.
        age_seconds: u64,
    },
    /// An index that is too old.
    Stale {
        /// Its age, if it is known.
        age_seconds: Option<u64>,
    },
    /// Nothing.
    Missing,
}

/// How an index is had.
#[derive(Debug, Clone, Copy, PartialEq, Eq, Structural)]
pub enum CachedPlan {
    /// From the cache, as it is.
    Serve,
    /// From the cache, brought up to date.
    Update,
    /// From the volume.
    Rebuild,
}

/// How the index of a drive is had.
pub open spec fn plan_of(read_only: bool, cached: bool, status: CacheStatus) -> CachedPlan {
    if read_only {
        if cached {
            CachedPlan::Serve
        } else {
            CachedPlan::Rebuild
        }
    } else if status is Fresh {
        CachedPlan::Update
    } else {
        CachedPlan::Rebuild
    }
}

/// A drive that cannot be written is served from whatever the cache holds of
/// it, and from nothing else; any other drive is brought up to date where the
/// cache is young enough and read where it is not.
pub proof fn law_caches_are_trusted_where_nothing_changes(cached: bool, status: CacheStatus)
    ensures
        plan_of(true, cached, status) is Serve <==> cached,
        plan_of(true, cached, status) is Rebuild <==> !cached,
        plan_of(false, cached, status) is Update <==> status is Fresh,
        plan_of(false, cached, status) is Rebuild <==> status is Stale || status is Missing,
        !(plan_of(false, cached, status) is Serve),
{
}

/// How the index of a drive is had. Nothing changes on a drive that cannot be
/// written, so whatever the cache holds of it is good, however old.
pub fn cached_read_plan(read_only: bool, cached: bool, status: CacheStatus) -> (r: CachedPlan)
    ensures
        r == plan_of(read_only, cached, status),
        !read_only && !(status is Fresh) ==> r is Rebuild,
        read_only ==> (r is Serve <==> cached),
        r is Serve ==> read_only && cached,
        r is Update <==> !read_only && status is Fresh,
{
    if read_only {
        return if cached {
            CachedPlan::Serve
        } else {
            CachedPlan::Rebuild
        };
    }
    match status {
        CacheStatus::Fresh { .. } => CachedPlan::Update,
        CacheStatus::Stale { .. } => CachedPlan::Rebuild,
        CacheStatus::Missing => CachedPlan::Rebuild,
    }
}

/// What applying changes to an index did.
#[derive(Debug, Clone, Copy, PartialEq, Eq, Structural)]
pub struct UsnApplyStats {
    /// Records that were deleted.
    pub deleted: usize,
    /// Records that were read anew.
    pub targeted_reads: usize,
    /// Changes that were left out.
    pub skipped: usize,
}

/// What is left to do after the deletions of a journal were applied to an
/// index.
#[derive(Debug, Clone, Copy, PartialEq, Eq, Structural)]
pub enum UpdateStep {
    /// Nothing: the index is used as it is.
    Leave,
    /// Changed records are read anew.
    ReadRecords,
    /// Nothing changed: the index is saved with its new place in the journal.
    Save,
    /// What is derived from the records is computed anew, and the index is
    /// saved with its new place in the journal.
    RebuildAndSave,
}

/// Whether the changes of a journal are applied: not where they could not be
/// read, and not where there are none.
pub fn has_changes(records: Option<usize>) -> (r: bool)
    ensures
        r == (records is Some && records->0 > 0),
{
    match records {
        Some(n) => n > 0,
        None => false,
    }
}

/// What follows the deletions: changed records are read anew, if the volume
/// could be opened.
pub fn after_deletes(volume_open: bool, stats: &UsnApplyStats, to_read: usize) -> (r: UpdateStep)
    ensures
        r == if !volume_open {
            UpdateStep::Leave
        } else if to_read > 0 {
            UpdateStep::ReadRecords
        } else {
            last_step(*stats)
        },
        r is Leave <==> !volume_open,
        r is ReadRecords <==> volume_open && to_read != 0,
        r is RebuildAndSave <==> volume_open && to_read == 0 && (stats.deleted != 0
            || stats.targeted_reads != 0),
{
    if !volume_open {
        UpdateStep::Leave
    } else if to_read > 0 {
        UpdateStep::ReadRecords
    } else {
        rebuild_derived_after_usn(stats)
    }
}

/// The last step of an update: what is derived from the records is computed
/// anew where any record changed.
pub open spec fn last_step(stats: UsnApplyStats) -> UpdateStep {
    if stats.deleted > 0 || stats.targeted_reads > 0 {
        UpdateStep::RebuildAndSave
    } else {
        UpdateStep::Save
    }
}

/// The last step of an update.
pub fn rebuild_derived_after_usn(stats: &UsnApplyStats) -> (r: UpdateStep)
    ensures
        r == last_step(*stats),
{
    if stats.deleted > 0 || stats.targeted_reads > 0 {
        UpdateStep::RebuildAndSave
    } else {
        UpdateStep::Save
    }
}

/// Takes the outcome of reading changed records anew: their number, or `None`
/// where it failed, which leaves the index as it is.
pub fn apply_targeted_usn_reads(stats: &mut UsnApplyStats, read: Option<usize>) -> (r: UpdateStep)
    ensures
        *final(stats) == (UsnApplyStats {
            targeted_reads: match read {
                Some(count) => count,
                None => old(stats).targeted_reads,
            },
            ..*old(stats)
        }),
        r == last_step(*final(stats)),
        final(stats).deleted == old(stats).deleted,
        final(stats).skipped == old(stats).skipped,
        read is None ==> *final(stats) == *old(stats),
        read matches Some(n) ==> (r is RebuildAndSave <==> n != 0 || old(stats).deleted != 0),
{
    if let Some(count) = read {
        stats.targeted_reads = count;
    }
    rebuild_derived_after_usn(stats)
}

/// The place in the journal under which an index is saved that was just
/// built.
pub fn fresh_checkpoint(answer: Option<&UsnJournalInfo>) -> (r: IndexHeader)
    ensures
        r == match answer {
            Some(info) => IndexHeader { usn_journal_id: info.journal_id, next_usn: info.next_usn },
            None => IndexHeader { usn_journal_id: 0, next_usn: 0 },
        },
        answer matches Some(info) ==> r.usn_journal_id == info.journal_id && r.next_usn
            == info.next_usn,
        answer is None ==> r.usn_journal_id == 0 && r.next_usn == 0,
{
    match answer {
        Some(info) => IndexHeader { usn_journal_id: info.journal_id, next_usn: info.next_usn },
        None => IndexHeader { usn_journal_id: 0, next_usn: 0 },
    }
}

/// The serial number under which an index is saved: that of its volume, or zero
/// where the volume could not be opened.
pub fn cached_serial(volume: Option<&NtfsVolumeData>) -> (r: u64)
    ensures
        r == match volume {
            Some(data) => data.volume_serial_number,
            None => 0,
        },
{
    match volume {
        Some(data) => data.volume_serial_number,
        None => 0,
    }
}

/// An index that was just saved needs no changes as long as its journal gets
/// none.
pub proof fn law_fresh_checkpoint_is_up_to_date(info: UsnJournalInfo)
    requires
        info.first_usn <= info.next_usn,
    ensures
        decision(
            IndexHeader { usn_journal_id: info.journal_id, next_usn: info.next_usn },
            info,
        ) is UseCached,
{
}

/// An index is built anew if and only if the journal is not the one that it
/// follows, or begins behind the place up to which the index follows it. An
/// index that follows no journal in particular takes any.
pub proof fn law_lost_changes_mean_a_new_index(header: IndexHeader, info: UsnJournalInfo)
    ensures
        decision(header, info) is Rebuild <==> header.next_usn < info.first_usn || (
        header.usn_journal_id != 0 && header.usn_journal_id != info.journal_id),
        header.usn_journal_id == info.journal_id && info.first_usn <= header.next_usn
            < info.next_usn ==> decision(header, info) is Apply,
        header.usn_journal_id == 0 && info.first_usn <= header.next_usn < info.next_usn ==> decision(
            header,
            info,
        ) is Apply,
        header.usn_journal_id == info.journal_id && info.first_usn <= header.next_usn
            && info.next_usn <= header.next_usn ==> decision(header, info) is UseCached,
{
}

/// An index that has followed its journal up to some place and follows it on
/// from there misses nothing in between: what is applied begins exactly where
/// the index ends.
pub proof fn law_updates_begin_where_the_index_ends(header: IndexHeader, info: UsnJournalInfo)
    ensures
        decision(header, info) matches UsnDecision::Apply { start_usn, .. } ==> start_usn
            == header.next_usn && decision(
            IndexHeader { usn_journal_id: info.journal_id, next_usn: info.next_usn },
            info,
        ) is UseCached,
{
}

/// What is derived from the records is computed anew if and only if a record
/// was deleted or read anew; changes that were left out do not matter.
pub proof fn law_changed_records_mean_new_figures(stats: UsnApplyStats)
    ensures
        last_step(stats) is RebuildAndSave <==> stats.deleted != 0 || stats.targeted_reads != 0,
        last_step(stats) is Save <==> stats.deleted == 0 && stats.targeted_reads == 0,
{
}

/// A volume without a journal has five minutes unless a setting says otherwise.
pub proof fn law_age_is_limited(raw: Seq<char>)
    ensures
        max_age(None) == 5 * 60,
        crate::scan::number(raw) is None ==> max_age(Some(raw)) == max_age(None),
        crate::scan::number(raw) matches Some(n) ==> max_age(Some(raw)) == n,
{
}

} // verus!
