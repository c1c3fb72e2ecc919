//! What a migration job is told, what it tells while it runs, and what it
//! reports at its end.

use crate::resolver::TableSelection;
use vstd::prelude::*;
use vstd::string::*;

verus! {

/// What a caller asks for: which tables are to go from which database to
/// which, and how.
#[derive(Clone, Debug)]
pub struct MigrateTablesRequest {
    pub source_connection_id: String,
    pub target_connection_id: String,
    pub tables: Vec<TableSelection>,
    pub options: MigrationOptions,
    pub target_schema_override: Option<String>,
}

/// How a job treats the target tables, and how many rows it moves at a time:
/// at least one, for a transfer that is to move none at a time fails before
/// it starts.
#[derive(Clone, Copy, Debug, PartialEq, Eq, Structural)]
pub struct MigrationOptions {
    pub create_table_if_not_exists: bool,
    pub truncate_before_insert: bool,
    pub disable_constraints: bool,
    pub batch_size: usize,
}

impl Default for MigrationOptions {
    /// Missing tables are created, nothing is emptied, triggers are switched
    /// off while rows go in, and a batch holds a thousand rows.
    fn default() -> (r: MigrationOptions)
        ensures
            r.create_table_if_not_exists,
            !r.truncate_before_insert,
            r.disable_constraints,
            r.batch_size == 1000,
    {
        MigrationOptions {
            create_table_if_not_exists: true,
            truncate_before_insert: false,
            disable_constraints: true,
            batch_size: 1000,
        }
    }
}

/// Where a job stands: which table of how many, how many of its rows have
/// gone over, and in which state.
#[derive(Clone, Debug, PartialEq, Eq)]
pub struct MigrationProgress {
    pub table_name: String,
    pub current_table: usize,
    pub total_tables: usize,
    pub rows_transferred: i64,
    pub total_rows: i64,
    pub status: String,
    pub error: Option<String>,
}

/// What a job did: `success` says that `errors` is empty.
#[derive(Clone, Debug, PartialEq, Eq)]
pub struct MigrationResult {
    pub success: bool,
    pub tables_migrated: usize,
    pub total_rows: i64,
    pub errors: Vec<String>,
    pub elapsed_ms: u64,
}

/// A `MigrationProgress` with its texts as sequences of characters.
pub struct ProgressView {
    pub table_name: Seq<char>,
    pub current_table: nat,
    pub total_tables: nat,
    pub rows_transferred: int,
    pub total_rows: int,
    pub status: Seq<char>,
    pub error: Option<Seq<char>>,
}

impl View for MigrationProgress {
    type V = ProgressView;

    open spec fn view(&self) -> ProgressView {
        ProgressView {
            table_name: self.table_name@,
            current_table: self.current_table as nat,
            total_tables: self.total_tables as nat,
            rows_transferred: self.rows_transferred as int,
            total_rows: self.total_rows as int,
            status: self.status@,
            error: match self.error {
                Some(e) => Some(e@),
                None => None,
            },
        }
    }
}

/// The state of a table that is about to be looked at.
pub open spec fn starting_text() -> Seq<char> {
    "Starting"@
}

/// The state of a table whose target is being made ready.
pub open spec fn preparing_text() -> Seq<char> {
    "Preparing"@
}

/// The state of a table whose rows are going over.
pub open spec fn migrating_text() -> Seq<char> {
    "Migrating"@
}

/// The state of a table whose rows have all gone over.
pub open spec fn complete_text() -> Seq<char> {
    "Complete"@
}

/// A notification without an error.
pub open spec fn progress_of(
    table_name: Seq<char>,
    current_table: nat,
    total_tables: nat,
    rows_transferred: int,
    total_rows: int,
    status: Seq<char>,
) -> ProgressView {
    ProgressView {
        table_name,
        current_table,
        total_tables,
        rows_transferred,
        total_rows,
        status,
        error: None,
    }
}

/// A notification without an error.
pub fn progress(
    table_name: &str,
    current_table: usize,
    total_tables: usize,
    rows_transferred: i64,
    total_rows: i64,
    status: &str,
) -> (r: MigrationProgress)
    ensures
        r@ == progress_of(
            table_name@,
            current_table as nat,
            total_tables as nat,
            rows_transferred as int,
            total_rows as int,
            status@,
        ),
{
    MigrationProgress {
        table_name: String::from_str(table_name),
        current_table,
        total_tables,
        rows_transferred,
        total_rows,
        status: String::from_str(status),
        error: None,
    }
}

} // verus!
