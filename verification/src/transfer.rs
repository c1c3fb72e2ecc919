//! The transfer of one table, as a machine: the caller does what the machine
//! asks of the databases and tells it what came of it, and the machine
//! decides what is next.

use crate::codec::{build_insert_values, get_column_value_as_sql, row_cell_result, row_result, CellRead};
use crate::migrate::{
    complete_text, migrating_text, preparing_text, progress, progress_of, MigrationOptions,
    MigrationProgress, ProgressView,
};
use crate::schema::{ident_texts, ColumnInfo, TableSchema};
use crate::statements::{
    column_list, column_list_text, create_if_missing_statement, create_if_missing_text,
    ensure_schema_statement, ensure_schema_text, full_table_name, full_table_text,
    insert_statement, insert_text, keyset_select_statement, keyset_select_text,
    offset_select_statement, offset_select_text, triggers_statement, triggers_text,
    truncate_statement, truncate_text, views_if_any,
};
use crate::text::{same_text, views};
use vstd::prelude::*;
use vstd::string::*;

verus! {

// ---------------------------------------------------------------------------
// The vocabulary of the machine
// ---------------------------------------------------------------------------
/// What a transfer waits for. The last three are where it ends.
#[derive(Clone, Copy, Debug, PartialEq, Eq, Structural)]
pub enum TransferStep {
    LoadSchema,
    CountRows,
    EnsureSchema,
    CreateTable,
    Truncate,
    DisableTriggers,
    CheckCancel,
    Fetch,
    Insert,
    EnableTriggers,
    SyncSequences,
    Complete,
    Failed,
    Cancelled,
}

/// The states of a transfer as its observers know them.
#[derive(Clone, Copy, Debug, PartialEq, Eq, Structural)]
pub enum TransferPhase {
    Preparing,
    Migrating,
    Complete,
    Failed,
    Cancelled,
}

/// The state that a step belongs to: a transfer prepares until it first
/// looks at the stop flag, and migrates from there until it has ended.
pub open spec fn phase_of(step: TransferStep) -> TransferPhase {
    match step {
        TransferStep::LoadSchema
        | TransferStep::CountRows
        | TransferStep::EnsureSchema
        | TransferStep::CreateTable
        | TransferStep::Truncate
        | TransferStep::DisableTriggers => TransferPhase::Preparing,
        TransferStep::CheckCancel
        | TransferStep::Fetch
        | TransferStep::Insert
        | TransferStep::EnableTriggers
        | TransferStep::SyncSequences => TransferPhase::Migrating,
        TransferStep::Complete => TransferPhase::Complete,
        TransferStep::Failed => TransferPhase::Failed,
        TransferStep::Cancelled => TransferPhase::Cancelled,
    }
}

/// One row of a batch as it was read: its cells in column order.
#[derive(Debug)]
pub struct RowRead {
    pub cells: Vec<CellRead>,
}

/// How the transfer of a table ended: all its rows went over, so many of
/// them; or it failed, for this reason; or it was asked to stop.
#[derive(Clone, Debug, PartialEq, Eq)]
pub enum TableOutcome {
    Migrated(i64),
    Failed(String),
    Cancelled,
}

/// A `TableOutcome` with its text as a sequence of characters.
pub enum OutcomeView {
    Migrated(int),
    Failed(Seq<char>),
    Cancelled,
}

impl View for TableOutcome {
    type V = OutcomeView;

    open spec fn view(&self) -> OutcomeView {
        match *self {
            TableOutcome::Migrated(rows) => OutcomeView::Migrated(rows as int),
            TableOutcome::Failed(e) => OutcomeView::Failed(e@),
            TableOutcome::Cancelled => OutcomeView::Cancelled,
        }
    }
}

/// What came of the action that the machine asked for.
#[derive(Debug)]
pub enum TransferEvent {
    /// The schema of the source table, or why it could not be had.
    SchemaLoaded(Result<TableSchema, String>),
    /// The number of rows of the source table, or why it could not be had.
    RowsCounted(Result<i64, String>),
    /// A statement was sent to the target: it went through, or it failed
    /// with this message.
    Executed(Result<(), String>),
    /// The stop flag was looked at: whether it was set.
    CancelChecked(bool),
    /// A batch was asked of the source: its rows, or why there are none.
    BatchFetched(Result<Vec<RowRead>, String>),
}

/// What the caller is to do next.
#[derive(Debug, PartialEq, Eq)]
pub enum TransferAction {
    /// Read the schema of the source table.
    LoadSchema,
    /// Count the rows of the source table.
    CountRows,
    /// Send this statement to the target.
    ExecuteOnTarget(String),
    /// Look at the stop flag.
    CheckCancel,
    /// Send this query to the source and read the rows that come back.
    FetchFromSource(String),
    /// Send this statement to the target, with the schema and the table as
    /// its two parameters.
    SyncSequences { statement: String, schema: String, table: String },
    /// Nothing: the transfer has ended, in this way.
    Done(TableOutcome),
}

/// A `TransferAction` with its texts as sequences of characters.
pub enum ActionView {
    LoadSchema,
    CountRows,
    ExecuteOnTarget(Seq<char>),
    CheckCancel,
    FetchFromSource(Seq<char>),
    SyncSequences { statement: Seq<char>, schema: Seq<char>, table: Seq<char> },
    Done(OutcomeView),
}

impl View for TransferAction {
    type V = ActionView;

    open spec fn view(&self) -> ActionView {
        match *self {
            TransferAction::LoadSchema => ActionView::LoadSchema,
            TransferAction::CountRows => ActionView::CountRows,
            TransferAction::ExecuteOnTarget(s) => ActionView::ExecuteOnTarget(s@),
            TransferAction::CheckCancel => ActionView::CheckCancel,
            TransferAction::FetchFromSource(s) => ActionView::FetchFromSource(s@),
            TransferAction::SyncSequences { statement, schema, table } => ActionView::SyncSequences {
                statement: statement@,
                schema: schema@,
                table: table@,
            },
            TransferAction::Done(outcome) => ActionView::Done(outcome@),
        }
    }
}

// ---------------------------------------------------------------------------
// The machine
// ---------------------------------------------------------------------------
/// The transfer of one table from the source to the target.
#[derive(Debug)]
pub struct TableTransfer {
    pub schema: String,
    pub table: String,
    pub target_schema: String,
    pub options: MigrationOptions,
    pub current_table: usize,
    pub total_tables: usize,
    pub step: TransferStep,
    pub table_schema: Option<TableSchema>,
    pub total_rows: i64,
    pub rows_transferred: i64,
    pub last_key: Option<Vec<String>>,
    pub pending: usize,
    pub statement: String,
    pub error: String,
}

/// The state of a transfer.
pub struct TransferView {
    /// The schema and the name of the source table.
    pub schema: Seq<char>,
    pub table: Seq<char>,
    /// The schema of the target table.
    pub target_schema: Seq<char>,
    pub options: MigrationOptions,
    /// The number of this table among the tables of the job, from 1.
    pub current_table: nat,
    pub total_tables: nat,
    pub step: TransferStep,
    /// The schema of the source table, once it is known.
    pub loaded: Option<TableSchema>,
    /// The number of rows that the source counted.
    pub total_rows: int,
    /// The number of rows that went over so far.
    pub rows_transferred: int,
    /// The literals of the key of the last row that was fetched, one for
    /// each key column.
    pub last_key: Option<Seq<Seq<char>>>,
    /// The number of rows of the batch that is being inserted.
    pub pending: nat,
    /// The statement that inserts that batch.
    pub statement: Seq<char>,
    /// Why the transfer failed, once it has.
    pub error: Seq<char>,
}

impl View for TableTransfer {
    type V = TransferView;

    open spec fn view(&self) -> TransferView {
        TransferView {
            schema: self.schema@,
            table: self.table@,
            target_schema: self.target_schema@,
            options: self.options,
            current_table: self.current_table as nat,
            total_tables: self.total_tables as nat,
            step: self.step,
            loaded: self.table_schema,
            total_rows: self.total_rows as int,
            rows_transferred: self.rows_transferred as int,
            last_key: views_if_any(self.last_key),
            pending: self.pending as nat,
            statement: self.statement@,
            error: self.error@,
        }
    }
}

/// Why a transfer ended that was told of something it had not asked for.
pub open spec fn unexpected_event_text() -> Seq<char> {
    "unexpected event"@
}

/// Why a transfer ended whose count of rows left the range of its counter.
pub open spec fn too_many_rows_text() -> Seq<char> {
    "row count out of range"@
}

/// Why a transfer ended that was to fetch batches of no rows.
pub open spec fn no_batch_size_text() -> Seq<char> {
    "batch size must be positive"@
}

/// Why a transfer ended whose table has a key column that is none of its
/// columns.
pub open spec fn unknown_key_text() -> Seq<char> {
    "primary key names a column that the table does not have"@
}

/// The statement that sets every sequence that feeds a column of the table
/// to one past the largest value of that column. Its two parameters are the
/// schema and the table.
pub open spec fn sync_sequences_text() -> Seq<char> {
    "
        DO $$
        DECLARE
            r RECORD;
            max_val bigint;
        BEGIN
            FOR r IN (
                SELECT 
                    quote_ident(n.nspname) || '.' || quote_ident(s.relname) AS seq_fqn,
                    quote_ident(a.attname) AS col_name,
                    quote_ident(n.nspname) || '.' || quote_ident(t.relname) AS table_fqn
                FROM pg_class s
                JOIN pg_namespace n ON n.oid = s.relnamespace
                JOIN pg_depend d ON d.objid = s.oid AND d.deptype = 'a'
                JOIN pg_class t ON t.oid = d.refobjid
                JOIN pg_attribute a ON a.attrelid = t.oid AND a.attnum = d.refobjsubid
                WHERE s.relkind = 'S'
                AND n.nspname = $1
                AND t.relname = $2
            ) LOOP
                EXECUTE format('SELECT setval(%L, COALESCE((SELECT MAX(%s) FROM %s), 0) + 1, false)', 
                    r.seq_fqn, r.col_name, r.table_fqn);
            END LOOP;
        END $$;
    "@
}

/// A batch that ends the table: an empty one, or one with fewer rows than
/// were asked for.
pub open spec fn is_last_batch(rows: nat, batch_size: nat) -> bool {
    rows == 0 || rows < batch_size
}

/// The values of the first `n` rows of a batch, row by row, or the message
/// of the first cell of the first row that has no literal.
pub open spec fn batch_result(rows: Seq<RowRead>, columns: Seq<ColumnInfo>, n: int) -> Result<
    Seq<Seq<char>>,
    Seq<char>,
>
    decreases n,
{
    if n <= 0 {
        Ok(Seq::empty())
    } else {
        match batch_result(rows, columns, n - 1) {
            Err(e) => Err(e),
            Ok(values) => match row_result(rows[n - 1].cells@, columns) {
                Ok(v) => Ok(values.push(v)),
                Err(e) => Err(e.message_text()),
            },
        }
    }
}

/// The place of the first column with the name `name`, or the number of
/// columns where none has it.
pub open spec fn column_place(columns: Seq<ColumnInfo>, name: Seq<char>) -> int
    decreases columns.len(),
{
    if columns.len() == 0 || columns[0].name@ == name {
        0
    } else {
        1 + column_place(columns.drop_first(), name)
    }
}

/// Every key column of the schema is one of its columns.
pub open spec fn keys_known(schema: TableSchema) -> bool {
    forall|k: int|
        0 <= k < schema.primary_key_columns@.len() ==> column_place(
            schema.columns@,
            (#[trigger] schema.primary_key_columns@[k])@,
        ) < schema.columns@.len()
}

/// The literal of the cell at `place` in a row, where the row has one there.
pub open spec fn literal_at(row: Seq<CellRead>, columns: Seq<ColumnInfo>, place: int) -> Seq<char> {
    if 0 <= place < columns.len() {
        match row_cell_result(row, columns, place) {
            Ok(t) => t,
            Err(_) => Seq::empty(),
        }
    } else {
        Seq::empty()
    }
}

/// The key of a row: the literals of its cells in the key columns, in the
/// order of the key.
pub open spec fn key_literals(row: Seq<CellRead>, columns: Seq<ColumnInfo>, keys: Seq<String>) -> Seq<
    Seq<char>,
> {
    Seq::new(keys.len(), |k: int| literal_at(row, columns, column_place(columns, keys[k]@)))
}

impl TransferView {
    /// The columns of the table, once its schema is known.
    pub open spec fn columns(self) -> Seq<ColumnInfo> {
        match self.loaded {
            Some(s) => s.columns@,
            None => Seq::empty(),
        }
    }

    /// The key columns of the table, once its schema is known.
    pub open spec fn keys(self) -> Seq<String> {
        match self.loaded {
            Some(s) => s.primary_key_columns@,
            None => Seq::empty(),
        }
    }

    /// The statement that creates the table, once its schema is known.
    pub open spec fn create_statement(self) -> Seq<char> {
        match self.loaded {
            Some(s) => s.create_statement@,
            None => Seq::empty(),
        }
    }

    /// The source table by its full name.
    pub open spec fn source_table(self) -> Seq<char> {
        full_table_text(self.schema, self.table)
    }

    /// The target table by its full name.
    pub open spec fn target_table(self) -> Seq<char> {
        full_table_text(self.target_schema, self.table)
    }

    /// The transfer in another step.
    pub open spec fn at(self, step: TransferStep) -> TransferView {
        TransferView { step, ..self }
    }

    /// The transfer after it failed for the reason `error`.
    pub open spec fn failed(self, error: Seq<char>) -> TransferView {
        TransferView { step: TransferStep::Failed, error, ..self }
    }

    /// The first step after the table was created or found: the table is
    /// emptied or its triggers are switched off where the options say so, and
    /// then the rows go over.
    pub open spec fn step_after_create(self) -> TransferStep {
        if self.options.truncate_before_insert {
            TransferStep::Truncate
        } else {
            self.step_after_truncate()
        }
    }

    /// The first step after the table was emptied or left as it was.
    pub open spec fn step_after_truncate(self) -> TransferStep {
        if self.options.disable_constraints {
            TransferStep::DisableTriggers
        } else {
            TransferStep::CheckCancel
        }
    }

    /// The first step after the target schema was made sure of.
    pub open spec fn step_after_ensure(self) -> TransferStep {
        if self.options.create_table_if_not_exists {
            TransferStep::CreateTable
        } else {
            self.step_after_create()
        }
    }

    /// The first step after the last batch: triggers that were switched off
    /// are switched on again, and then the sequences are set.
    pub open spec fn step_after_rows(self) -> TransferStep {
        if self.options.disable_constraints {
            TransferStep::EnableTriggers
        } else {
            TransferStep::SyncSequences
        }
    }

    /// The query for the next batch: by the key where the table has one, by
    /// the number of rows that went over where it has none.
    pub open spec fn select_text(self) -> Seq<char> {
        if self.keys().len() > 0 {
            keyset_select_text(
                column_list_text(self.columns()),
                self.source_table(),
                ident_texts(self.keys()),
                self.last_key,
                self.options.batch_size as nat,
            )
        } else {
            offset_select_text(
                column_list_text(self.columns()),
                self.source_table(),
                self.options.batch_size as nat,
                self.rows_transferred,
            )
        }
    }

    /// How the transfer ended, once it has.
    pub open spec fn outcome(self) -> OutcomeView {
        match self.step {
            TransferStep::Complete => OutcomeView::Migrated(self.rows_transferred),
            TransferStep::Cancelled => OutcomeView::Cancelled,
            _ => OutcomeView::Failed(self.error),
        }
    }

    /// What the caller is to do while the transfer is in this state.
    pub open spec fn action(self) -> ActionView {
        match self.step {
            TransferStep::LoadSchema => ActionView::LoadSchema,
            TransferStep::CountRows => ActionView::CountRows,
            TransferStep::EnsureSchema => ActionView::ExecuteOnTarget(
                ensure_schema_text(self.target_schema),
            ),
            TransferStep::CreateTable => ActionView::ExecuteOnTarget(
                create_if_missing_text(
                    self.create_statement(),
                    self.schema,
                    self.table,
                    self.target_schema,
                ),
            ),
            TransferStep::Truncate => ActionView::ExecuteOnTarget(
                truncate_text(self.target_table()),
            ),
            TransferStep::DisableTriggers => ActionView::ExecuteOnTarget(
                triggers_text(self.target_table(), false),
            ),
            TransferStep::CheckCancel => ActionView::CheckCancel,
            TransferStep::Fetch => ActionView::FetchFromSource(self.select_text()),
            TransferStep::Insert => ActionView::ExecuteOnTarget(self.statement),
            TransferStep::EnableTriggers => ActionView::ExecuteOnTarget(
                triggers_text(self.target_table(), true),
            ),
            TransferStep::SyncSequences => ActionView::SyncSequences {
                statement: sync_sequences_text(),
                schema: self.target_schema,
                table: self.table,
            },
            TransferStep::Complete => ActionView::Done(self.outcome()),
            TransferStep::Failed => ActionView::Done(self.outcome()),
            TransferStep::Cancelled => ActionView::Done(self.outcome()),
        }
    }

    /// The transfer after the schema of its table was read: a schema whose
    /// key names a column that the table does not have fails the transfer.
    pub open spec fn after_schema(self, schema: TableSchema) -> TransferView {
        if keys_known(schema) {
            TransferView { step: TransferStep::CountRows, loaded: Some(schema), ..self }
        } else {
            self.failed(unknown_key_text())
        }
    }

    /// The transfer after a batch of rows came back from the source.
    ///
    /// An empty batch ends the rows. Of any other, every row is turned into
    /// its values, and the first cell without a literal fails the transfer;
    /// else the batch waits to be inserted, and where the table has a key the
    /// next query starts behind the key of the last row.
    pub open spec fn after_batch(self, rows: Seq<RowRead>) -> TransferView {
        if rows.len() == 0 {
            self.at(self.step_after_rows())
        } else {
            match batch_result(rows, self.columns(), rows.len() as int) {
                Err(message) => self.failed(message),
                Ok(values) => TransferView {
                    step: TransferStep::Insert,
                    statement: insert_text(
                        self.target_table(),
                        column_list_text(self.columns()),
                        values,
                    ),
                    last_key: if self.keys().len() > 0 {
                        Some(key_literals(rows.last().cells@, self.columns(), self.keys()))
                    } else {
                        self.last_key
                    },
                    pending: rows.len(),
                    ..self
                },
            }
        }
    }

    /// The transfer after the batch that waited was inserted: its rows count
    /// as gone over, and the rows end with a batch that was not full.
    pub open spec fn after_insert(self) -> TransferView {
        let rows = self.rows_transferred + self.pending;
        if rows > i64::MAX {
            self.failed(too_many_rows_text())
        } else {
            TransferView {
                rows_transferred: rows,
                step: if is_last_batch(self.pending, self.options.batch_size as nat) {
                    self.step_after_rows()
                } else {
                    TransferStep::CheckCancel
                },
                ..self
            }
        }
    }

    /// The transfer after `event`.
    ///
    /// A failure to read the schema, to count the rows, to make sure of the
    /// target schema, to create or to empty the table, to switch its
    /// triggers, to fetch or to insert a batch fails the transfer. Only what
    /// comes of setting the sequences is not looked at. A transfer that has
    /// ended stays as it is, and one that is told of something it had not
    /// asked for fails.
    pub open spec fn next(self, event: TransferEvent) -> TransferView {
        match (self.step, event) {
            (TransferStep::Complete, _) => self,
            (TransferStep::Failed, _) => self,
            (TransferStep::Cancelled, _) => self,
            (TransferStep::LoadSchema, TransferEvent::SchemaLoaded(Ok(schema))) => self.after_schema(
                schema,
            ),
            (TransferStep::LoadSchema, TransferEvent::SchemaLoaded(Err(e))) => self.failed(e@),
            (TransferStep::CountRows, TransferEvent::RowsCounted(Ok(n))) => TransferView {
                step: TransferStep::EnsureSchema,
                total_rows: n as int,
                ..self
            },
            (TransferStep::CountRows, TransferEvent::RowsCounted(Err(e))) => self.failed(e@),
            (TransferStep::EnsureSchema, TransferEvent::Executed(Ok(_))) => self.at(
                self.step_after_ensure(),
            ),
            (TransferStep::EnsureSchema, TransferEvent::Executed(Err(e))) => self.failed(
                "Failed to create schema: "@ + e@,
            ),
            (TransferStep::CreateTable, TransferEvent::Executed(Ok(_))) => self.at(
                self.step_after_create(),
            ),
            (TransferStep::CreateTable, TransferEvent::Executed(Err(e))) => self.failed(
                "Failed to create table: "@ + e@,
            ),
            (TransferStep::Truncate, TransferEvent::Executed(Ok(_))) => self.at(
                self.step_after_truncate(),
            ),
            (TransferStep::Truncate, TransferEvent::Executed(Err(e))) => self.failed(
                "Failed to truncate: "@ + e@,
            ),
            (TransferStep::DisableTriggers, TransferEvent::Executed(Ok(_))) => self.at(
                TransferStep::CheckCancel,
            ),
            (TransferStep::DisableTriggers, TransferEvent::Executed(Err(e))) => self.failed(
                "Failed to disable triggers: "@ + e@,
            ),
            (TransferStep::CheckCancel, TransferEvent::CancelChecked(stop)) => if stop {
                self.at(TransferStep::Cancelled)
            } else {
                self.at(TransferStep::Fetch)
            },
            (TransferStep::Fetch, TransferEvent::BatchFetched(Ok(rows))) => self.after_batch(rows@),
            (TransferStep::Fetch, TransferEvent::BatchFetched(Err(e))) => self.failed(
                "Failed to fetch data: "@ + e@,
            ),
            (TransferStep::Insert, TransferEvent::Executed(Ok(_))) => self.after_insert(),
            (TransferStep::Insert, TransferEvent::Executed(Err(e))) => self.failed(
                "Turbo Insert failed: "@ + e@,
            ),
            (TransferStep::EnableTriggers, TransferEvent::Executed(Ok(_))) => self.at(
                TransferStep::SyncSequences,
            ),
            (TransferStep::EnableTriggers, TransferEvent::Executed(Err(e))) => self.failed(
                "Failed to enable triggers: "@ + e@,
            ),
            (TransferStep::SyncSequences, TransferEvent::Executed(_)) => self.at(
                TransferStep::Complete,
            ),
            _ => self.failed(unexpected_event_text()),
        }
    }

    /// What the observers are told when the transfer goes from `self` to
    /// `after`: that the target is being prepared, once the rows are counted;
    /// how many rows went over, after each batch; and that the table is
    /// complete, at the end.
    pub open spec fn notice(self, after: TransferView) -> Option<ProgressView> {
        let status = if self.step == TransferStep::CountRows && after.step
            == TransferStep::EnsureSchema {
            Some(preparing_text())
        } else if self.step == TransferStep::Insert && after.step != TransferStep::Failed {
            Some(migrating_text())
        } else if self.step == TransferStep::SyncSequences && after.step
            == TransferStep::Complete {
            Some(complete_text())
        } else {
            None
        };
        match status {
            Some(status) => Some(
                progress_of(
                    after.table,
                    after.current_table,
                    after.total_tables,
                    after.rows_transferred,
                    after.total_rows,
                    status,
                ),
            ),
            None => None,
        }
    }
}

/// The state of a transfer that starts: it asks for the schema of its
/// table, unless its batches are to hold no row, which fails it at once.
pub open spec fn starting_view(
    schema: Seq<char>,
    table: Seq<char>,
    target_schema: Seq<char>,
    options: MigrationOptions,
    current_table: nat,
    total_tables: nat,
) -> TransferView {
    TransferView {
        schema,
        table,
        target_schema,
        options,
        current_table,
        total_tables,
        step: if options.batch_size == 0 {
            TransferStep::Failed
        } else {
            TransferStep::LoadSchema
        },
        loaded: None,
        total_rows: 0,
        rows_transferred: 0,
        last_key: None,
        pending: 0,
        statement: Seq::empty(),
        error: if options.batch_size == 0 {
            no_batch_size_text()
        } else {
            Seq::empty()
        },
    }
}

/// The view of an optional notification.
pub open spec fn notice_view(p: Option<MigrationProgress>) -> Option<ProgressView> {
    match p {
        Some(p) => Some(p@),
        None => None,
    }
}

/// The values of the rows of a batch, row by row: the first cell without a
/// literal ends the batch with its error.
pub fn encode_batch(rows: &Vec<RowRead>, columns: &[ColumnInfo]) -> (r: Result<Vec<String>, String>)
    ensures
        match batch_result(rows@, columns@, rows@.len() as int) {
            Ok(values) => r matches Ok(v) && views(v@) == values,
            Err(message) => r matches Err(e) && e@ == message,
        },
{
    let mut out: Vec<String> = Vec::new();
    let mut i: usize = 0;
    proof {
        assert(views(out@) =~= Seq::<Seq<char>>::empty());
    }
    while i < rows.len()
        invariant
            i <= rows.len(),
            out.len() == i,
            batch_result(rows@, columns@, i as int) == Ok::<Seq<Seq<char>>, Seq<char>>(
                views(out@),
            ),
        decreases rows.len() - i,
    {
        let ghost before = out@;
        match build_insert_values(rows[i].cells.as_slice(), columns) {
            Ok(values) => {
                out.push(values);
                proof {
                    assert(views(out@) =~= views(before).push(values@));
                }
            },
            Err(error) => {
                proof {
                    lemma_batch_failure_stays(rows@, columns@, i + 1, rows@.len() as int);
                }
                return Err(error.message());
            },
        }
        i = i + 1;
    }
    Ok(out)
}

/// Once a row of a batch has failed, the batch has failed with that row's
/// message however many more rows are looked at.
proof fn lemma_batch_failure_stays(rows: Seq<RowRead>, columns: Seq<ColumnInfo>, n: int, m: int)
    requires
        0 <= n <= m,
        batch_result(rows, columns, n) is Err,
    ensures
        batch_result(rows, columns, m) == batch_result(rows, columns, n),
    decreases m - n,
{
    if n < m {
        lemma_batch_failure_stays(rows, columns, n, m - 1);
    }
}

/// The place of the first column with the name `name`, or the number of
/// columns where none has it.
pub fn place_of_column(columns: &[ColumnInfo], name: &str) -> (place: usize)
    ensures
        place == column_place(columns@, name@),
        place <= columns.len(),
{
    let mut j: usize = 0;
    proof {
        assert(columns@.skip(0) == columns@);
    }
    while j < columns.len()
        invariant
            j <= columns.len(),
            column_place(columns@, name@) == j + column_place(columns@.skip(j as int), name@),
        decreases columns.len() - j,
    {
        proof {
            assert(columns@.skip(j as int)[0] == columns@[j as int]);
            assert(columns@.skip(j as int).drop_first() == columns@.skip(j + 1));
        }
        if same_text(columns[j].name.as_str(), name) {
            return j;
        }
        j = j + 1;
    }
    j
}

/// Whether every key column of the schema is one of its columns.
pub fn has_known_keys(schema: &TableSchema) -> (r: bool)
    ensures
        r == keys_known(*schema),
{
    let mut k: usize = 0;
    while k < schema.primary_key_columns.len()
        invariant
            k <= schema.primary_key_columns.len(),
            forall|j: int|
                0 <= j < k ==> column_place(
                    schema.columns@,
                    (#[trigger] schema.primary_key_columns@[j])@,
                ) < schema.columns@.len(),
        decreases schema.primary_key_columns.len() - k,
    {
        let place = place_of_column(
            schema.columns.as_slice(),
            schema.primary_key_columns[k].as_str(),
        );
        if place >= schema.columns.len() {
            return false;
        }
        k = k + 1;
    }
    true
}

/// The key of a row: the literals of its cells in the key columns.
pub fn key_of_row(row: &RowRead, columns: &[ColumnInfo], keys: &[String]) -> (key: Vec<String>)
    ensures
        views(key@) == key_literals(row.cells@, columns@, keys@),
{
    let mut key: Vec<String> = Vec::new();
    let mut k: usize = 0;
    while k < keys.len()
        invariant
            k <= keys.len(),
            key.len() == k,
            views(key@) == key_literals(row.cells@, columns@, keys@).take(k as int),
        decreases keys.len() - k,
    {
        let ghost before = key@;
        let place = place_of_column(columns, keys[k].as_str());
        let mut literal = String::new();
        if place < columns.len() && place < row.cells.len() {
            let read = get_column_value_as_sql(
                &row.cells[place],
                columns[place].name.as_str(),
                columns[place].data_type.as_str(),
            );
            match read {
                Ok(text) => {
                    literal = text;
                },
                Err(_) => {},
            }
        }
        key.push(literal);
        proof {
            let want = key_literals(row.cells@, columns@, keys@).take(k + 1);
            assert forall|j: int| 0 <= j < k + 1 implies views(key@)[j] == want[j] by {
                if j < k {
                    assert(views(before)[j] == key_literals(row.cells@, columns@, keys@).take(
                        k as int,
                    )[j]);
                }
            }
            assert(views(key@) =~= want);
        }
        k = k + 1;
    }
    proof {
        assert(key_literals(row.cells@, columns@, keys@).take(keys@.len() as int)
            == key_literals(row.cells@, columns@, keys@));
    }
    key
}

fn sync_sequences_statement() -> (r: String)
    ensures
        r@ == sync_sequences_text(),
{
    String::from_str(
        "
        DO $$
        DECLARE
            r RECORD;
            max_val bigint;
        BEGIN
            FOR r IN (
                SELECT 
                    quote_ident(n.nspname) || '.' || quote_ident(s.relname) AS seq_fqn,
                    quote_ident(a.attname) AS col_name,
                    quote_ident(n.nspname) || '.' || quote_ident(t.relname) AS table_fqn
                FROM pg_class s
                JOIN pg_namespace n ON n.oid = s.relnamespace
                JOIN pg_depend d ON d.objid = s.oid AND d.deptype = 'a'
                JOIN pg_class t ON t.oid = d.refobjid
                JOIN pg_attribute a ON a.attrelid = t.oid AND a.attnum = d.refobjsubid
                WHERE s.relkind = 'S'
                AND n.nspname = $1
                AND t.relname = $2
            ) LOOP
                EXECUTE format('SELECT setval(%L, COALESCE((SELECT MAX(%s) FROM %s), 0) + 1, false)', 
                    r.seq_fqn, r.col_name, r.table_fqn);
            END LOOP;
        END $$;
    ",
    )
}

fn prefixed(prefix: &str, message: &str) -> (r: String)
    ensures
        r@ == prefix@ + message@,
{
    let mut out = String::from_str(prefix);
    out.append(message);
    out
}

impl TableTransfer {
    /// The transfer of `schema.table`, the table number `current_table` of
    /// `total_tables`, into the schema `target_schema_override` or, where
    /// there is none, into the schema of the same name. It starts by asking
    /// for the schema of the source table; with batches that are to hold no
    /// row it has failed before it starts.
    pub fn new(
        schema: &str,
        table: &str,
        options: MigrationOptions,
        current_table: usize,
        total_tables: usize,
        target_schema_override: Option<&str>,
    ) -> (r: TableTransfer)
        ensures
            r@ == starting_view(
                schema@,
                table@,
                match target_schema_override {
                    Some(s) => s@,
                    None => schema@,
                },
                options,
                current_table as nat,
                total_tables as nat,
            ),
    {
        let target_schema = match target_schema_override {
            Some(s) => String::from_str(s),
            None => String::from_str(schema),
        };
        let valid = options.batch_size > 0;
        TableTransfer {
            schema: String::from_str(schema),
            table: String::from_str(table),
            target_schema,
            options,
            current_table,
            total_tables,
            step: if valid {
                TransferStep::LoadSchema
            } else {
                TransferStep::Failed
            },
            table_schema: None,
            total_rows: 0,
            rows_transferred: 0,
            last_key: None,
            pending: 0,
            statement: String::new(),
            error: if valid {
                String::new()
            } else {
                String::from_str("batch size must be positive")
            },
        }
    }

    /// The state of the transfer as its observers know it.
    pub fn phase(&self) -> (r: TransferPhase)
        ensures
            r == phase_of(self@.step),
    {
        match self.step {
            TransferStep::LoadSchema
            | TransferStep::CountRows
            | TransferStep::EnsureSchema
            | TransferStep::CreateTable
            | TransferStep::Truncate
            | TransferStep::DisableTriggers => TransferPhase::Preparing,
            TransferStep::CheckCancel
            | TransferStep::Fetch
            | TransferStep::Insert
            | TransferStep::EnableTriggers
            | TransferStep::SyncSequences => TransferPhase::Migrating,
            TransferStep::Complete => TransferPhase::Complete,
            TransferStep::Failed => TransferPhase::Failed,
            TransferStep::Cancelled => TransferPhase::Cancelled,
        }
    }

    fn select_statement(&self) -> (r: String)
        ensures
            r@ == self@.select_text(),
    {
        let source = full_table_name(self.schema.as_str(), self.table.as_str());
        match &self.table_schema {
            Some(schema) => {
                let columns = column_list(schema.columns.as_slice());
                if schema.primary_key_columns.len() > 0 {
                    keyset_select_statement(
                        columns.as_str(),
                        source.as_str(),
                        schema.primary_key_columns.as_slice(),
                        &self.last_key,
                        self.options.batch_size,
                    )
                } else {
                    offset_select_statement(
                        columns.as_str(),
                        source.as_str(),
                        self.options.batch_size,
                        self.rows_transferred,
                    )
                }
            },
            None => {
                let none: Vec<ColumnInfo> = Vec::new();
                let columns = column_list(none.as_slice());
                offset_select_statement(
                    columns.as_str(),
                    source.as_str(),
                    self.options.batch_size,
                    self.rows_transferred,
                )
            },
        }
    }

    /// What the caller is to do now.
    pub fn action(&self) -> (r: TransferAction)
        ensures
            r@ == self@.action(),
    {
        match self.step {
            TransferStep::LoadSchema => TransferAction::LoadSchema,
            TransferStep::CountRows => TransferAction::CountRows,
            TransferStep::EnsureSchema => TransferAction::ExecuteOnTarget(
                ensure_schema_statement(self.target_schema.as_str()),
            ),
            TransferStep::CreateTable => {
                let statement = match &self.table_schema {
                    Some(schema) => create_if_missing_statement(
                        schema.create_statement.as_str(),
                        self.schema.as_str(),
                        self.table.as_str(),
                        self.target_schema.as_str(),
                    ),
                    None => create_if_missing_statement(
                        "",
                        self.schema.as_str(),
                        self.table.as_str(),
                        self.target_schema.as_str(),
                    ),
                };
                proof {
                    reveal_strlit("");
                    assert(""@ =~= Seq::<char>::empty());
                }
                TransferAction::ExecuteOnTarget(statement)
            },
            TransferStep::Truncate => {
                let target = full_table_name(self.target_schema.as_str(), self.table.as_str());
                TransferAction::ExecuteOnTarget(truncate_statement(target.as_str()))
            },
            TransferStep::DisableTriggers => {
                let target = full_table_name(self.target_schema.as_str(), self.table.as_str());
                TransferAction::ExecuteOnTarget(triggers_statement(target.as_str(), false))
            },
            TransferStep::CheckCancel => TransferAction::CheckCancel,
            TransferStep::Fetch => TransferAction::FetchFromSource(self.select_statement()),
            TransferStep::Insert => TransferAction::ExecuteOnTarget(self.statement.clone()),
            TransferStep::EnableTriggers => {
                let target = full_table_name(self.target_schema.as_str(), self.table.as_str());
                TransferAction::ExecuteOnTarget(triggers_statement(target.as_str(), true))
            },
            TransferStep::SyncSequences => TransferAction::SyncSequences {
                statement: sync_sequences_statement(),
                schema: self.target_schema.clone(),
                table: self.table.clone(),
            },
            TransferStep::Complete => TransferAction::Done(
                TableOutcome::Migrated(self.rows_transferred),
            ),
            TransferStep::Failed => TransferAction::Done(TableOutcome::Failed(self.error.clone())),
            TransferStep::Cancelled => TransferAction::Done(TableOutcome::Cancelled),
        }
    }

    fn fail(&mut self, error: String)
        ensures
            final(self)@ == old(self)@.failed(error@),
    {
        self.step = TransferStep::Failed;
        self.error = error;
    }

    fn step_after_truncate(&self) -> (r: TransferStep)
        ensures
            r == self@.step_after_truncate(),
    {
        if self.options.disable_constraints {
            TransferStep::DisableTriggers
        } else {
            TransferStep::CheckCancel
        }
    }

    fn step_after_create(&self) -> (r: TransferStep)
        ensures
            r == self@.step_after_create(),
    {
        if self.options.truncate_before_insert {
            TransferStep::Truncate
        } else {
            self.step_after_truncate()
        }
    }

    fn step_after_ensure(&self) -> (r: TransferStep)
        ensures
            r == self@.step_after_ensure(),
    {
        if self.options.create_table_if_not_exists {
            TransferStep::CreateTable
        } else {
            self.step_after_create()
        }
    }

    fn step_after_rows(&self) -> (r: TransferStep)
        ensures
            r == self@.step_after_rows(),
    {
        if self.options.disable_constraints {
            TransferStep::EnableTriggers
        } else {
            TransferStep::SyncSequences
        }
    }

    fn take_schema(&mut self, schema: TableSchema)
        requires
            old(self).step == TransferStep::LoadSchema,
        ensures
            final(self)@ == old(self)@.after_schema(schema),
    {
        if has_known_keys(&schema) {
            self.table_schema = Some(schema);
            self.step = TransferStep::CountRows;
        } else {
            self.fail(String::from_str("primary key names a column that the table does not have"));
        }
    }

    fn take_batch(&mut self, rows: Vec<RowRead>)
        requires
            old(self).step == TransferStep::Fetch,
        ensures
            final(self)@ == old(self)@.after_batch(rows@),
    {
        if rows.len() == 0 {
            self.step = self.step_after_rows();
            return ;
        }
        match &self.table_schema {
            Some(schema) => {
                match encode_batch(&rows, schema.columns.as_slice()) {
                    Ok(values) => {
                        let target = full_table_name(
                            self.target_schema.as_str(),
                            self.table.as_str(),
                        );
                        let columns = column_list(schema.columns.as_slice());
                        let statement = insert_statement(
                            target.as_str(),
                            columns.as_str(),
                            &values,
                        );
                        let mut key: Option<Vec<String>> = None;
                        if schema.primary_key_columns.len() > 0 {
                            key =
                            Some(
                                key_of_row(
                                    &rows[rows.len() - 1],
                                    schema.columns.as_slice(),
                                    schema.primary_key_columns.as_slice(),
                                ),
                            );
                        }
                        if key.is_some() {
                            self.last_key = key;
                        }
                        self.statement = statement;
                        self.pending = rows.len();
                        self.step = TransferStep::Insert;
                    },
                    Err(message) => {
                        self.fail(message);
                    },
                }
            },
            None => {
                let none: Vec<ColumnInfo> = Vec::new();
                match encode_batch(&rows, none.as_slice()) {
                    Ok(values) => {
                        let target = full_table_name(
                            self.target_schema.as_str(),
                            self.table.as_str(),
                        );
                        let columns = column_list(none.as_slice());
                        self.statement =
                        insert_statement(target.as_str(), columns.as_str(), &values);
                        self.pending = rows.len();
                        self.step = TransferStep::Insert;
                    },
                    Err(message) => {
                        self.fail(message);
                    },
                }
            },
        }
    }

    fn count_batch(&mut self)
        requires
            old(self).step == TransferStep::Insert,
        ensures
            final(self)@ == old(self)@.after_insert(),
    {
        let sum: i128 = self.rows_transferred as i128 + self.pending as i128;
        if sum > i64::MAX as i128 {
            self.fail(String::from_str("row count out of range"));
        } else {
            self.rows_transferred = sum as i64;
            if self.pending == 0 || self.pending < self.options.batch_size {
                self.step = self.step_after_rows();
            } else {
                self.step = TransferStep::CheckCancel;
            }
        }
    }

    fn notify(&self, status: &str) -> (r: MigrationProgress)
        ensures
            r@ == progress_of(
                self@.table,
                self@.current_table,
                self@.total_tables,
                self@.rows_transferred,
                self@.total_rows,
                status@,
            ),
    {
        progress(
            self.table.as_str(),
            self.current_table,
            self.total_tables,
            self.rows_transferred,
            self.total_rows,
            status,
        )
    }

    /// Takes what came of the last action, and returns what the observers
    /// are to be told of it, if anything. What is to be done next is
    /// `action`.
    pub fn advance(&mut self, event: TransferEvent) -> (told: Option<MigrationProgress>)
        ensures
            final(self)@ == old(self)@.next(event),
            notice_view(told) == old(self)@.notice(final(self)@),
    {
        match self.step {
            TransferStep::Complete | TransferStep::Failed | TransferStep::Cancelled => None,
            TransferStep::LoadSchema => {
                match event {
                    TransferEvent::SchemaLoaded(Ok(schema)) => {
                        self.take_schema(schema);
                    },
                    TransferEvent::SchemaLoaded(Err(e)) => {
                        self.fail(e);
                    },
                    _ => {
                        self.fail(String::from_str("unexpected event"));
                    },
                }
                None
            },
            TransferStep::CountRows => {
                match event {
                    TransferEvent::RowsCounted(Ok(n)) => {
                        self.total_rows = n;
                        self.step = TransferStep::EnsureSchema;
                        Some(self.notify("Preparing"))
                    },
                    TransferEvent::RowsCounted(Err(e)) => {
                        self.fail(e);
                        None
                    },
                    _ => {
                        self.fail(String::from_str("unexpected event"));
                        None
                    },
                }
            },
            TransferStep::EnsureSchema => {
                match event {
                    TransferEvent::Executed(Ok(_)) => {
                        self.step = self.step_after_ensure();
                    },
                    TransferEvent::Executed(Err(e)) => {
                        self.fail(prefixed("Failed to create schema: ", e.as_str()));
                    },
                    _ => {
                        self.fail(String::from_str("unexpected event"));
                    },
                }
                None
            },
            TransferStep::CreateTable => {
                match event {
                    TransferEvent::Executed(Ok(_)) => {
                        self.step = self.step_after_create();
                    },
                    TransferEvent::Executed(Err(e)) => {
                        self.fail(prefixed("Failed to create table: ", e.as_str()));
                    },
                    _ => {
                        self.fail(String::from_str("unexpected event"));
                    },
                }
                None
            },
            TransferStep::Truncate => {
                match event {
                    TransferEvent::Executed(Ok(_)) => {
                        self.step = self.step_after_truncate();
                    },
                    TransferEvent::Executed(Err(e)) => {
                        self.fail(prefixed("Failed to truncate: ", e.as_str()));
                    },
                    _ => {
                        self.fail(String::from_str("unexpected event"));
                    },
                }
                None
            },
            TransferStep::DisableTriggers => {
                match event {
                    TransferEvent::Executed(Ok(_)) => {
                        self.step = TransferStep::CheckCancel;
                    },
                    TransferEvent::Executed(Err(e)) => {
                        self.fail(prefixed("Failed to disable triggers: ", e.as_str()));
                    },
                    _ => {
                        self.fail(String::from_str("unexpected event"));
                    },
                }
                None
            },
            TransferStep::CheckCancel => {
                match event {
                    TransferEvent::CancelChecked(stop) => {
                        if stop {
                            self.step = TransferStep::Cancelled;
                        } else {
                            self.step = TransferStep::Fetch;
                        }
                    },
                    _ => {
                        self.fail(String::from_str("unexpected event"));
                    },
                }
                None
            },
            TransferStep::Fetch => {
                match event {
                    TransferEvent::BatchFetched(Ok(rows)) => {
                        self.take_batch(rows);
                    },
                    TransferEvent::BatchFetched(Err(e)) => {
                        self.fail(prefixed("Failed to fetch data: ", e.as_str()));
                    },
                    _ => {
                        self.fail(String::from_str("unexpected event"));
                    },
                }
                None
            },
            TransferStep::Insert => {
                match event {
                    TransferEvent::Executed(Ok(_)) => {
                        self.count_batch();
                        if self.step != TransferStep::Failed {
                            Some(self.notify("Migrating"))
                        } else {
                            None
                        }
                    },
                    TransferEvent::Executed(Err(e)) => {
                        self.fail(prefixed("Turbo Insert failed: ", e.as_str()));
                        None
                    },
                    _ => {
                        self.fail(String::from_str("unexpected event"));
                        None
                    },
                }
            },
            TransferStep::EnableTriggers => {
                match event {
                    TransferEvent::Executed(Ok(_)) => {
                        self.step = TransferStep::SyncSequences;
                    },
                    TransferEvent::Executed(Err(e)) => {
                        self.fail(prefixed("Failed to enable triggers: ", e.as_str()));
                    },
                    _ => {
                        self.fail(String::from_str("unexpected event"));
                    },
                }
                None
            },
            TransferStep::SyncSequences => {
                match event {
                    TransferEvent::Executed(_) => {
                        self.step = TransferStep::Complete;
                        Some(self.notify("Complete"))
                    },
                    _ => {
                        self.fail(String::from_str("unexpected event"));
                        None
                    },
                }
            },
        }
    }
}

} // verus!
