//! Reading the tables of several drives, a few at a time.

use crate::error::{InputFault, MftError};
use crate::platform::drive_letter::DriveLetter;
use vstd::prelude::*;
use vstd::string::*;

verus! {

/// How many drives are read at once at most.
pub const MAX_CONCURRENT_DRIVE_READERS: usize = 4;

/// How many drives are read at once: no more than there are, than the machine
/// can run at once, or than the limit.
pub open spec fn budget(total_drives: int, hardware: Option<usize>) -> int {
    let machine = match hardware {
        Some(n) => if n < 1 {
            1int
        } else {
            n as int
        },
        None => MAX_CONCURRENT_DRIVE_READERS as int,
    };
    let a = if total_drives < machine {
        total_drives
    } else {
        machine
    };
    if a < MAX_CONCURRENT_DRIVE_READERS {
        a
    } else {
        MAX_CONCURRENT_DRIVE_READERS as int
    }
}

/// How many drives are read at once, on a machine that can run so many threads
/// at once.
pub fn drive_reader_budget(total_drives: usize, hardware: Option<usize>) -> (r: usize)
    ensures
        r == budget(total_drives as int, hardware),
        r <= total_drives,
        r <= MAX_CONCURRENT_DRIVE_READERS,
        r == 0 <==> total_drives == 0,
{
    if total_drives == 0 {
        return 0;
    }
    let machine: usize = match hardware {
        Some(n) => if n < 1 {
            1
        } else {
            n
        },
        None => MAX_CONCURRENT_DRIVE_READERS,
    };
    let a: usize = if total_drives < machine {
        total_drives
    } else {
        machine
    };
    if a < MAX_CONCURRENT_DRIVE_READERS {
        a
    } else {
        MAX_CONCURRENT_DRIVE_READERS
    }
}

/// Reads the tables of several drives.
#[derive(Debug, Clone)]
pub struct MultiDriveMftReader {
    drives: Vec<DriveLetter>,
}

impl View for MultiDriveMftReader {
    type V = Seq<DriveLetter>;

    closed spec fn view(&self) -> Seq<DriveLetter> {
        self.drives@
    }
}

impl MultiDriveMftReader {
    /// A reader of some drives.
    pub fn new(drives: Vec<DriveLetter>) -> (r: MultiDriveMftReader)
        ensures
            r@ == drives@,
    {
        MultiDriveMftReader { drives }
    }

    /// The drives.
    pub fn drives(&self) -> (r: &[DriveLetter])
        ensures
            r@ == self@,
    {
        self.drives.as_slice()
    }

    /// A run over all drives. Without drives it has ended before it began.
    pub open spec fn first_run<T>(&self, run: DriveRun<T>, hardware: Option<usize>) -> bool {
        &&& run.wf()
        &&& run.drives@ == self@
        &&& run.limit == budget(self@.len() as int, hardware)
        &&& run.started == 0
        &&& run.results@.len() == 0
    }

    /// Begins to read the drives for what can be read of them together. There
    /// must be one.
    pub fn begin<T>(&self, hardware: Option<usize>) -> (r: Result<DriveRun<T>, MftError>)
        ensures
            if self@.len() == 0 {
                r == Err::<DriveRun<T>, MftError>(MftError::InvalidInput(InputFault::NoDrives))
            } else {
                r matches Ok(run) && self.first_run(run, hardware)
            },
    {
        if self.drives.len() == 0 {
            return Err(MftError::InvalidInput(InputFault::NoDrives));
        }
        Ok(self.begin_detailed(hardware))
    }

    /// Begins to read the drives for a result for each of them. Where there are
    /// none, there is nothing to do, and no result.
    pub fn begin_detailed<T>(&self, hardware: Option<usize>) -> (r: DriveRun<T>)
        ensures
            self.first_run(r, hardware),
            self@.len() == 0 ==> r.ended(),
    {
        let limit: usize = drive_reader_budget(self.drives.len(), hardware);
        let mut drives: Vec<DriveLetter> = Vec::new();
        let n: usize = self.drives.len();
        for i in 0..n
            invariant
                n == self.drives@.len(),
                drives@ == self.drives@.take(i as int),
        {
            drives.push(self.drives[i]);
            assert(self.drives@.take(i + 1) =~= self.drives@.take(i as int).push(
                self.drives@[i as int],
            ));
        }
        assert(self.drives@.take(n as int) =~= self.drives@);
        DriveRun { drives, limit, started: 0, results: Vec::new() }
    }
}

/// What became of one drive.
#[derive(Debug)]
pub struct DriveReadResult<T> {
    /// The drive.
    pub drive: DriveLetter,
    /// What was read, if that succeeded.
    pub dataframe: Option<T>,
    /// The error, if it failed.
    pub error: Option<MftError>,
}

impl<T> DriveReadResult<T> {
    /// The result of reading a drive.
    pub open spec fn of(drive: DriveLetter, outcome: Result<T, MftError>) -> DriveReadResult<T> {
        match outcome {
            Ok(value) => DriveReadResult { drive, dataframe: Some(value), error: None },
            Err(error) => DriveReadResult { drive, dataframe: None, error: Some(error) },
        }
    }

    /// The result of reading a drive.
    pub fn new(drive: DriveLetter, outcome: Result<T, MftError>) -> (r: DriveReadResult<T>)
        ensures
            r == DriveReadResult::of(drive, outcome),
    {
        match outcome {
            Ok(value) => DriveReadResult { drive, dataframe: Some(value), error: None },
            Err(error) => DriveReadResult { drive, dataframe: None, error: Some(error) },
        }
    }

    /// The result of a task that did not end by itself, so that its drive is
    /// not known: it stands under the letter X.
    pub fn of_failed_task() -> (r: DriveReadResult<T>)
        ensures
            r == DriveReadResult::<T>::of(
                DriveLetter::X,
                Err(MftError::InvalidInput(InputFault::TaskFailed)),
            ),
    {
        DriveReadResult {
            drive: DriveLetter::X,
            dataframe: None,
            error: Some(MftError::InvalidInput(InputFault::TaskFailed)),
        }
    }
}

/// What was read, with the drive that it was read from.
pub open spec fn read_from<T>(results: Seq<DriveReadResult<T>>) -> Seq<(DriveLetter, T)>
    decreases results.len(),
{
    if results.len() == 0 {
        Seq::empty()
    } else {
        let first = results[0];
        let rest = read_from(results.drop_first());
        match first.dataframe {
            Some(value) => seq![(first.drive, value)] + rest,
            None => rest,
        }
    }
}

/// The first error of drives of which nothing was read.
pub open spec fn first_error<T>(results: Seq<DriveReadResult<T>>) -> Option<MftError>
    decreases results.len(),
{
    if results.len() == 0 {
        None
    } else {
        match (results[0].dataframe, results[0].error) {
            (None, Some(error)) => Some(error),
            _ => first_error(results.drop_first()),
        }
    }
}

/// Several drives that are being read.
///
/// The caller starts reading each drive that `start_next` gives, until it
/// gives none, and again after each call of `finished`.
#[derive(Debug)]
pub struct DriveRun<T> {
    /// The drives, in the order in which they are started.
    pub drives: Vec<DriveLetter>,
    /// How many are read at once.
    pub limit: usize,
    /// How many were started.
    pub started: usize,
    /// What became of those that have ended, in the order in which they did.
    pub results: Vec<DriveReadResult<T>>,
}

impl<T> DriveRun<T> {
    /// How many drives are being read.
    pub open spec fn running(self) -> int {
        self.started - self.results@.len()
    }

    /// No more drives are being read than the limit allows.
    pub open spec fn wf(self) -> bool {
        &&& self.drives@.len() > 0 ==> 0 < self.limit
        &&& self.started <= self.drives@.len()
        &&& 0 <= self.running() <= self.limit
    }

    /// Every drive was started and has ended.
    pub open spec fn ended(self) -> bool {
        self.started == self.drives@.len() && self.running() == 0
    }

    /// The next drive to read, if there is one and the limit allows it.
    pub fn start_next(&mut self) -> (r: Option<DriveLetter>)
        requires
            old(self).wf(),
        ensures
            final(self).wf(),
            final(self).drives@ == old(self).drives@,
            final(self).limit == old(self).limit,
            final(self).results@ == old(self).results@,
            if old(self).started < old(self).drives@.len() && old(self).running() < old(
                self,
            ).limit {
                &&& r == Some(old(self).drives@[old(self).started as int])
                &&& final(self).started == old(self).started + 1
            } else {
                &&& r is None
                &&& final(self).started == old(self).started
            },
            r is None <==> old(self).started == old(self).drives@.len() || old(self).running()
                == old(self).limit,
            final(self).running() == old(self).running() + if r is Some {
                1int
            } else {
                0
            },
    {
        let n: usize = self.drives.len();
        let ended: usize = self.results.len();
        let running: usize = self.started - ended;
        if self.started < n && running < self.limit {
            let drive = self.drives[self.started];
            self.started = self.started + 1;
            Some(drive)
        } else {
            None
        }
    }

    /// Takes the end of one of the drives that are being read.
    pub fn finished(&mut self, result: DriveReadResult<T>)
        requires
            old(self).wf(),
            old(self).running() > 0,
        ensures
            final(self).wf(),
            final(self).drives@ == old(self).drives@,
            final(self).limit == old(self).limit,
            final(self).started == old(self).started,
            final(self).results@ == old(self).results@.push(result),
            final(self).running() == old(self).running() - 1,
    {
        self.results.push(result);
    }

    /// Whether every drive was started and has ended.
    pub fn is_ended(&self) -> (r: bool)
        requires
            self.wf(),
        ensures
            r == self.ended(),
    {
        let ended: usize = self.results.len();
        self.started == self.drives.len() && self.started - ended == 0
    }

    /// The result of each drive, in the order in which they ended.
    pub fn detailed(self) -> (r: Vec<DriveReadResult<T>>)
        ensures
            r@ == self.results@,
    {
        self.results
    }

    /// What was read of all drives together: it is enough that one could be
    /// read. Else the first error stands for all.
    pub fn outcome(self) -> (r: Result<Vec<(DriveLetter, T)>, MftError>)
        ensures
            if read_from(self.results@).len() > 0 {
                r matches Ok(values) && values@ == read_from(self.results@)
            } else {
                r == match first_error(self.results@) {
                    Some(error) => Err::<Vec<(DriveLetter, T)>, MftError>(error),
                    None => Err(MftError::InvalidInput(InputFault::NoDriveRead)),
                }
            },
            r is Ok <==> exists|i: int|
                0 <= i < self.results@.len() && (#[trigger] self.results@[i]).dataframe is Some,
    {
        proof {
            lemma_nothing_read(self.results@);
        }
        let ghost all = self.results@;
        let mut rest: Vec<DriveReadResult<T>> = self.results;
        let mut values: Vec<(DriveLetter, T)> = Vec::new();
        let mut error: Option<MftError> = None;
        assert(values@ + read_from(rest@) =~= read_from(all));
        while rest.len() > 0
            invariant
                values@ + read_from(rest@) == read_from(all),
                match error {
                    Some(e) => first_error(all) == Some(e),
                    None => first_error(all) == first_error(rest@),
                },
            decreases rest@.len(),
        {
            let ghost before = rest@;
            let ghost so_far = values@;
            let result = rest.remove(0);
            assert(rest@ =~= before.drop_first());
            match result.dataframe {
                Some(value) => {
                    values.push((result.drive, value));
                    assert(values@ + read_from(rest@) =~= so_far + read_from(before));
                },
                None => {
                    if error.is_none() {
                        error = result.error;
                    }
                },
            }
        }
        assert(values@ + read_from(rest@) =~= values@);
        if values.len() > 0 {
            return Ok(values);
        }
        match error {
            Some(e) => Err(e),
            None => Err(MftError::InvalidInput(InputFault::NoDriveRead)),
        }
    }
}

/// A run that goes on has something to do: it waits for a drive or starts
/// one.
pub proof fn law_run_never_stalls<T>(run: DriveRun<T>)
    requires
        run.wf(),
        !run.ended(),
    ensures
        run.running() > 0 || (run.started < run.drives@.len() && run.running() < run.limit),
{
}

/// When a run has ended, there is one result for each drive, and the outcome is
/// an error only if nothing was read of any of them.
pub proof fn law_ended_run_accounts_for_every_drive<T>(run: DriveRun<T>)
    requires
        run.wf(),
        run.ended(),
    ensures
        run.results@.len() == run.drives@.len(),
        read_from(run.results@).len() == 0 <==> forall|i: int|
            0 <= i < run.results@.len() ==> (#[trigger] run.results@[i]).dataframe is None,
{
    lemma_nothing_read(run.results@);
}

proof fn lemma_nothing_read<T>(results: Seq<DriveReadResult<T>>)
    ensures
        read_from(results).len() == 0 <==> forall|i: int|
            0 <= i < results.len() ==> (#[trigger] results[i]).dataframe is None,
    decreases results.len(),
{
    if results.len() > 0 {
        let rest = results.drop_first();
        lemma_nothing_read(rest);
        if read_from(results).len() == 0 {
            assert forall|i: int| 0 <= i < results.len() implies (
            #[trigger] results[i]).dataframe is None by {
                if i > 0 {
                    assert(rest[i - 1].dataframe is None);
                }
            }
        } else if results[0].dataframe is None {
            let i = choose|i: int| 0 <= i < rest.len() && (#[trigger] rest[i]).dataframe is Some;
            assert(results[i + 1].dataframe is Some);
        }
    }
}

/// The text that marks the rows of a drive.
pub fn drive_label(drive: DriveLetter) -> (r: String)
    ensures
        r@ == seq![drive.char_of(), ':'],
{
    let mut s: String = String::new();
    s.push(drive.as_char());
    s.push(':');
    assert(s@ =~= seq![drive.char_of(), ':']);
    s
}

/// The texts of strings.
pub open spec fn texts_of(v: Seq<String>) -> Seq<Seq<char>> {
    Seq::new(v.len(), |i: int| v[i]@)
}

/// The names without the name of the drive column.
pub open spec fn other_columns(names: Seq<Seq<char>>) -> Seq<Seq<char>>
    decreases names.len(),
{
    if names.len() == 0 {
        Seq::empty()
    } else {
        let before = other_columns(names.drop_last());
        if names.last() == "drive"@ {
            before
        } else {
            before.push(names.last())
        }
    }
}

/// The columns of the merged table: the drive, then the others in their
/// order.
pub fn drive_first(names: &[String]) -> (r: Vec<String>)
    ensures
        texts_of(r@) == seq!["drive"@] + other_columns(texts_of(names@)),
{
    let mut out: Vec<String> = Vec::new();
    out.push(String::from_str("drive"));
    assert(texts_of(names@).take(0) =~= Seq::empty());
    assert(texts_of(out@) =~= seq!["drive"@] + other_columns(texts_of(names@).take(0)));
    for i in 0..names.len()
        invariant
            texts_of(out@) == seq!["drive"@] + other_columns(texts_of(names@).take(i as int)),
    {
        assert(texts_of(names@).take(i + 1).drop_last() =~= texts_of(names@).take(i as int));
        let name: String = names[i].clone();
        let ghost before = texts_of(out@);
        if !crate::scan::same_text(name.as_str(), "drive") {
            out.push(name);
            assert(texts_of(out@) =~= before.push(name@));
            assert(texts_of(out@) =~= seq!["drive"@] + other_columns(
                texts_of(names@).take(i + 1),
            ));
        }
    }
    assert(texts_of(names@).take(names@.len() as int) =~= texts_of(names@));
    out
}

/// As many drives are read at once as possible: never more than four, than there
/// are drives or than the machine runs threads, and one of these limits is
/// reached. A machine that says nothing of itself takes four, and one that runs
/// no thread at once still takes one.
pub proof fn law_budget_is_the_tightest_limit(drives: int, hardware: Option<usize>)
    requires
        0 <= drives,
    ensures
        budget(drives, hardware) <= 4,
        budget(drives, hardware) <= drives,
        hardware matches Some(n) && n >= 1 ==> budget(drives, hardware) <= hardware->0,
        budget(drives, hardware) == 4 || budget(drives, hardware) == drives || (hardware is Some
            && (budget(drives, hardware) == hardware->0 || budget(drives, hardware) == 1
            && hardware->0 == 0)),
        drives > 0 ==> budget(drives, hardware) > 0,
        hardware is None && drives >= 4 ==> budget(drives, hardware) == 4,
{
}

/// What was read of a drive or what went wrong is kept under its letter, and
/// never both.
pub proof fn law_results_are_kept<T>(drive: DriveLetter, value: T, error: MftError)
    ensures
        DriveReadResult::of(drive, Ok::<T, MftError>(value)).drive == drive,
        DriveReadResult::of(drive, Ok::<T, MftError>(value)).dataframe == Some(value),
        DriveReadResult::of(drive, Ok::<T, MftError>(value)).error is None,
        DriveReadResult::of(drive, Err::<T, MftError>(error)).drive == drive,
        DriveReadResult::of(drive, Err::<T, MftError>(error)).dataframe is None,
        DriveReadResult::of(drive, Err::<T, MftError>(error)).error == Some(error),
{
}

/// Everything that was read is handed over, in the order in which it came, and
/// drives that failed leave nothing behind.
pub proof fn law_all_that_was_read_is_kept<T>(
    a: Seq<DriveReadResult<T>>,
    b: Seq<DriveReadResult<T>>,
    drive: DriveLetter,
    value: T,
    error: MftError,
)
    ensures
        read_from(a + b) == read_from(a) + read_from(b),
        read_from(seq![DriveReadResult::of(drive, Ok::<T, MftError>(value))]) == seq![(
            drive,
            value,
        )],
        read_from(seq![DriveReadResult::of(drive, Err::<T, MftError>(error))]).len() == 0,
    decreases a.len(),
{
    reveal_with_fuel(read_from, 2);
    let one = seq![DriveReadResult::of(drive, Ok::<T, MftError>(value))];
    let two = seq![DriveReadResult::of(drive, Err::<T, MftError>(error))];
    assert(one.drop_first() =~= Seq::empty());
    assert(two.drop_first() =~= Seq::empty());
    assert(read_from(one) =~= seq![(drive, value)]);
    if a.len() == 0 {
        assert(a + b =~= b);
        assert(read_from(a) + read_from(b) =~= read_from(b));
    } else {
        let rest = a.drop_first();
        law_all_that_was_read_is_kept(rest, b, drive, value, error);
        assert((a + b).drop_first() =~= rest + b);
        assert((a + b)[0] == a[0]);
        assert(read_from(a + b) =~= read_from(a) + read_from(b));
    }
}

/// The first error is that of the first drive that failed, whatever became of
/// the drives before and behind it.
pub proof fn law_first_error_counts<T>(results: Seq<DriveReadResult<T>>, i: int)
    requires
        0 <= i < results.len(),
        results[i].dataframe is None,
        results[i].error is Some,
        forall|j: int|
            0 <= j < i ==> (#[trigger] results[j]).dataframe is Some || results[j].error is None,
    ensures
        first_error(results) == results[i].error,
    decreases i,
{
    if i > 0 {
        let rest = results.drop_first();
        assert(results[0].dataframe is Some || results[0].error is None);
        assert(rest[i - 1] == results[i]);
        assert forall|j: int| 0 <= j < i - 1 implies (#[trigger] rest[j]).dataframe is Some
            || rest[j].error is None by {
            assert(rest[j] == results[j + 1]);
        }
        law_first_error_counts(rest, i - 1);
    }
}

} // verus!
