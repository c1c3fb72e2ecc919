//! The job: the tables of a selection, transferred one after the other, and
//! the account of how each of them ended.

use crate::migrate::{
    progress, progress_of, starting_text, MigrationOptions, MigrationProgress, MigrationResult,
    ProgressView,
};
use crate::text::{text_view, views};
use crate::transfer::{starting_view, OutcomeView, TableOutcome, TableTransfer, TransferView};
use vstd::prelude::*;
use vstd::string::*;

verus! {

/// A job over a list of tables. It hands out the transfer of one table at a
/// time and is told how each ended; a failed table does not stop it, a
/// request to stop does.
#[derive(Debug)]
pub struct MigrationJob {
    tables: Vec<(String, String)>,
    options: MigrationOptions,
    target_schema_override: Option<String>,
    tally: Tally,
    total_rows: i64,
    errors: Vec<String>,
    stopped: bool,
}

/// How many tables have ended, and how many of them went over in full: never
/// more than have ended.
#[derive(Debug)]
struct Tally {
    ended: usize,
    migrated: usize,
}

impl Tally {
    #[verifier::type_invariant]
    spec fn inv(self) -> bool {
        self.migrated <= self.ended
    }

    closed spec fn ended_count(self) -> nat {
        self.ended as nat
    }

    closed spec fn migrated_count(self) -> nat {
        self.migrated as nat
    }

    fn new() -> (r: Tally)
        ensures
            r.ended_count() == 0,
            r.migrated_count() == 0,
    {
        Tally { ended: 0, migrated: 0 }
    }

    fn ended(&self) -> (r: usize)
        ensures
            r == self.ended_count(),
    {
        self.ended
    }

    fn migrated(&self) -> (r: usize)
        ensures
            r == self.migrated_count(),
    {
        self.migrated
    }

    fn count(&mut self, migrated: bool)
        requires
            old(self).ended_count() < usize::MAX,
        ensures
            final(self).ended_count() == old(self).ended_count() + 1,
            final(self).migrated_count() == old(self).migrated_count() + if migrated {
                1nat
            } else {
                0nat
            },
    {
        proof {
            use_type_invariant(&*self);
        }
        self.ended = self.ended + 1;
        if migrated {
            self.migrated = self.migrated + 1;
        }
    }
}

/// What a job does next.
#[derive(Debug)]
pub enum JobStep {
    /// Nothing: no table is left, or the job was asked to stop.
    Finished,
    /// The next table: what the observers are to be told, and the transfer
    /// to be run.
    Table { progress: MigrationProgress, transfer: TableTransfer },
}

/// The state of a job.
pub struct JobView {
    /// The tables of the job, each by its schema and its name, in the order
    /// in which they are transferred.
    pub tables: Seq<(Seq<char>, Seq<char>)>,
    pub options: MigrationOptions,
    /// The schema that every table goes to, where it is not that of the
    /// table itself.
    pub target_schema: Option<Seq<char>>,
    /// How many tables have ended.
    pub next: nat,
    /// How many of them were transferred in full.
    pub tables_migrated: nat,
    /// The rows of those tables together.
    pub total_rows: int,
    /// What went wrong, in the order in which it did.
    pub errors: Seq<Seq<char>>,
    /// Whether the job was asked to stop.
    pub stopped: bool,
}

/// A `MigrationResult` with its texts as sequences of characters.
pub struct ResultView {
    pub success: bool,
    pub tables_migrated: nat,
    pub total_rows: int,
    pub errors: Seq<Seq<char>>,
    pub elapsed_ms: nat,
}

impl View for MigrationResult {
    type V = ResultView;

    open spec fn view(&self) -> ResultView {
        ResultView {
            success: self.success,
            tables_migrated: self.tables_migrated as nat,
            total_rows: self.total_rows as int,
            errors: views(self.errors@),
            elapsed_ms: self.elapsed_ms as nat,
        }
    }
}

/// The one entry that a request to stop leaves among the errors.
pub open spec fn cancel_notice_text() -> Seq<char> {
    "Migration cancelled by user"@
}

/// The entry that a failed table leaves among the errors.
pub open spec fn table_error_text(schema: Seq<char>, table: Seq<char>, error: Seq<char>) -> Seq<
    char,
> {
    schema + "."@ + table + ": "@ + error
}

/// A sum of row counts, held within the range of the counter.
pub open spec fn clamped(rows: int) -> int {
    if rows > i64::MAX {
        i64::MAX as int
    } else if rows < i64::MIN {
        i64::MIN as int
    } else {
        rows
    }
}

/// The tables of a job, each by the views of its schema and its name.
pub open spec fn table_ids(tables: Seq<(String, String)>) -> Seq<(Seq<char>, Seq<char>)> {
    Seq::new(tables.len(), |i: int| (tables[i].0@, tables[i].1@))
}

impl JobView {
    /// A job that has not begun.
    pub open spec fn fresh(
        tables: Seq<(Seq<char>, Seq<char>)>,
        options: MigrationOptions,
        target_schema: Option<Seq<char>>,
    ) -> JobView {
        JobView {
            tables,
            options,
            target_schema,
            next: 0,
            tables_migrated: 0,
            total_rows: 0,
            errors: Seq::empty(),
            stopped: false,
        }
    }

    /// A table is left and the job was not asked to stop.
    pub open spec fn has_more(self) -> bool {
        !self.stopped && self.next < self.tables.len()
    }

    /// Whether the job goes on to its next table, given what the stop flag
    /// showed.
    pub open spec fn begins_table(self, stop: bool) -> bool {
        self.has_more() && !stop
    }

    /// The job after it looked at the stop flag before its next table: where
    /// a table is left and the flag was set, the job is over, and one notice
    /// of that joins the errors.
    pub open spec fn begin(self, stop: bool) -> JobView {
        if self.has_more() && stop {
            JobView { errors: self.errors.push(cancel_notice_text()), stopped: true, ..self }
        } else {
            self
        }
    }

    /// The transfer of the next table, as it starts.
    pub open spec fn next_transfer(self) -> TransferView {
        starting_view(
            self.tables[self.next as int].0,
            self.tables[self.next as int].1,
            match self.target_schema {
                Some(s) => s,
                None => self.tables[self.next as int].0,
            },
            self.options,
            self.next + 1,
            self.tables.len(),
        )
    }

    /// What the observers are told when the next table starts.
    pub open spec fn next_progress(self) -> ProgressView {
        progress_of(
            self.tables[self.next as int].1,
            self.next + 1,
            self.tables.len(),
            0,
            0,
            starting_text(),
        )
    }

    /// The job after its current table ended: a table that went over counts
    /// as migrated and its rows join the total; one that failed leaves an
    /// entry among the errors. Either way the job goes on. A table that was
    /// asked to stop ends the job: it is no migrated table and no failed one,
    /// and the one notice of the request joins the errors. A job that has no
    /// current table stays as it is.
    pub open spec fn record(self, outcome: OutcomeView) -> JobView {
        if !self.has_more() {
            self
        } else {
            match outcome {
                OutcomeView::Migrated(rows) => JobView {
                    next: self.next + 1,
                    tables_migrated: self.tables_migrated + 1,
                    total_rows: clamped(self.total_rows + rows),
                    ..self
                },
                OutcomeView::Failed(error) => JobView {
                    next: self.next + 1,
                    errors: self.errors.push(
                        table_error_text(
                            self.tables[self.next as int].0,
                            self.tables[self.next as int].1,
                            error,
                        ),
                    ),
                    ..self
                },
                OutcomeView::Cancelled => JobView {
                    errors: self.errors.push(cancel_notice_text()),
                    stopped: true,
                    ..self
                },
            }
        }
    }

    /// The account of the job, given the time it took.
    pub open spec fn result(self, elapsed_ms: nat) -> ResultView {
        ResultView {
            success: self.errors.len() == 0,
            tables_migrated: self.tables_migrated,
            total_rows: self.total_rows,
            errors: self.errors,
            elapsed_ms,
        }
    }
}

impl View for MigrationJob {
    type V = JobView;

    closed spec fn view(&self) -> JobView {
        JobView {
            tables: table_ids(self.tables@),
            options: self.options,
            target_schema: text_view(self.target_schema_override),
            next: self.tally.ended_count(),
            tables_migrated: self.tally.migrated_count(),
            total_rows: self.total_rows as int,
            errors: views(self.errors@),
            stopped: self.stopped,
        }
    }
}

impl MigrationJob {
    /// A job over `tables`, each given by its schema and its name, in the
    /// order in which they are to be transferred.
    pub fn new(
        tables: Vec<(String, String)>,
        options: MigrationOptions,
        target_schema_override: Option<String>,
    ) -> (job: MigrationJob)
        ensures
            job@ == JobView::fresh(table_ids(tables@), options, text_view(target_schema_override)),
    {
        let job = MigrationJob {
            tables,
            options,
            target_schema_override,
            tally: Tally::new(),
            total_rows: 0,
            errors: Vec::new(),
            stopped: false,
        };
        proof {
            assert(views(job.errors@) =~= Seq::<Seq<char>>::empty());
        }
        job
    }

    /// Goes on to the next table, unless none is left or `stop`, which is
    /// what the stop flag showed just now, asks the job to end.
    pub fn begin_table(&mut self, stop: bool) -> (step: JobStep)
        ensures
            final(self)@ == old(self)@.begin(stop),
            match step {
                JobStep::Finished => !old(self)@.begins_table(stop),
                JobStep::Table { progress, transfer } => {
                    &&& old(self)@.begins_table(stop)
                    &&& progress@ == old(self)@.next_progress()
                    &&& transfer@ == old(self)@.next_transfer()
                },
            },
    {
        let next = self.tally.ended();
        if self.stopped || next >= self.tables.len() {
            return JobStep::Finished;
        }
        if stop {
            let ghost before = self.errors@;
            self.errors.push(String::from_str("Migration cancelled by user"));
            self.stopped = true;
            proof {
                assert(views(self.errors@) =~= views(before).push(cancel_notice_text()));
            }
            return JobStep::Finished;
        }
        let schema = self.tables[next].0.as_str();
        let table = self.tables[next].1.as_str();
        let total = self.tables.len();
        let told = progress(table, next + 1, total, 0, 0, "Starting");
        let target = match &self.target_schema_override {
            Some(s) => Some(s.as_str()),
            None => None,
        };
        let transfer = TableTransfer::new(schema, table, self.options, next + 1, total, target);
        JobStep::Table { progress: told, transfer }
    }

    /// Takes how the current table ended.
    pub fn record_outcome(&mut self, outcome: TableOutcome)
        ensures
            final(self)@ == old(self)@.record(outcome@),
    {
        let next = self.tally.ended();
        if self.stopped || next >= self.tables.len() {
            return ;
        }
        match outcome {
            TableOutcome::Migrated(rows) => {
                let sum: i128 = self.total_rows as i128 + rows as i128;
                if sum > i64::MAX as i128 {
                    self.total_rows = i64::MAX;
                } else if sum < i64::MIN as i128 {
                    self.total_rows = i64::MIN;
                } else {
                    self.total_rows = sum as i64;
                }
                self.tally.count(true);
            },
            TableOutcome::Cancelled => {
                let ghost before = self.errors@;
                self.errors.push(String::from_str("Migration cancelled by user"));
                self.stopped = true;
                proof {
                    assert(views(self.errors@) =~= views(before).push(cancel_notice_text()));
                }
            },
            TableOutcome::Failed(error) => {
                let ghost before = self.errors@;
                let mut entry = String::from_str(self.tables[next].0.as_str());
                entry.append(".");
                entry.append(self.tables[next].1.as_str());
                entry.append(": ");
                entry.append(error.as_str());
                self.errors.push(entry);
                proof {
                    assert(views(self.errors@) =~= views(before).push(entry@));
                }
                self.tally.count(false);
            },
        }
    }

    /// The account of the job so far, given the time it took.
    pub fn finish(&self, elapsed_ms: u64) -> (r: MigrationResult)
        ensures
            r@ == self@.result(elapsed_ms as nat),
    {
        let mut errors: Vec<String> = Vec::new();
        let mut i: usize = 0;
        proof {
            assert(views(errors@) =~= views(self.errors@).take(0));
        }
        while i < self.errors.len()
            invariant
                i <= self.errors.len(),
                errors.len() == i,
                views(errors@) == views(self.errors@).take(i as int),
            decreases self.errors.len() - i,
        {
            let ghost before = errors@;
            errors.push(self.errors[i].clone());
            proof {
                let want = views(self.errors@).take(i + 1);
                assert forall|j: int| 0 <= j < i + 1 implies views(errors@)[j] == want[j] by {
                    if j < i {
                        assert(views(before)[j] == views(self.errors@).take(i as int)[j]);
                    }
                }
                assert(views(errors@) =~= want);
            }
            i = i + 1;
        }
        proof {
            assert(views(self.errors@).take(self.errors@.len() as int) == views(self.errors@));
        }
        MigrationResult {
            success: self.errors.len() == 0,
            tables_migrated: self.tally.migrated(),
            total_rows: self.total_rows,
            errors,
            elapsed_ms,
        }
    }
}

} // verus!
