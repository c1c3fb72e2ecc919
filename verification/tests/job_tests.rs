use pg_migrate::job::{JobStep, MigrationJob};
use pg_migrate::migrate::{MigrationOptions, MigrationProgress};
use pg_migrate::transfer::{TableOutcome, TransferAction};

fn tables(names: &[&str]) -> Vec<(String, String)> {
    names.iter().map(|n| ("public".to_string(), n.to_string())).collect()
}

fn starting(table: &str, current: usize, total: usize) -> MigrationProgress {
    MigrationProgress {
        table_name: table.to_string(),
        current_table: current,
        total_tables: total,
        rows_transferred: 0,
        total_rows: 0,
        status: "Starting".to_string(),
        error: None,
    }
}

#[test]
fn the_options_have_their_defaults() {
    let o = MigrationOptions::default();
    assert!(o.create_table_if_not_exists);
    assert!(!o.truncate_before_insert);
    assert!(o.disable_constraints);
    assert_eq!(o.batch_size, 1000);
}

#[test]
fn a_job_hands_out_its_tables_in_order() {
    let mut job = MigrationJob::new(tables(&["a", "b"]), MigrationOptions::default(), None);
    match job.begin_table(false) {
        JobStep::Table { progress, transfer } => {
            assert_eq!(progress, starting("a", 1, 2));
            assert_eq!(transfer.schema, "public");
            assert_eq!(transfer.table, "a");
            assert_eq!(transfer.target_schema, "public");
            assert_eq!(transfer.current_table, 1);
            assert_eq!(transfer.total_tables, 2);
            assert_eq!(transfer.action(), TransferAction::LoadSchema);
        }
        JobStep::Finished => panic!("a table is left"),
    }
    job.record_outcome(TableOutcome::Migrated(10));
    match job.begin_table(false) {
        JobStep::Table { progress, transfer } => {
            assert_eq!(progress, starting("b", 2, 2));
            assert_eq!(transfer.table, "b");
        }
        JobStep::Finished => panic!("a table is left"),
    }
    job.record_outcome(TableOutcome::Migrated(5));
    assert!(matches!(job.begin_table(false), JobStep::Finished));
    let result = job.finish(42);
    assert!(result.success);
    assert_eq!(result.tables_migrated, 2);
    assert_eq!(result.total_rows, 15);
    assert_eq!(result.errors, Vec::<String>::new());
    assert_eq!(result.elapsed_ms, 42);
}

#[test]
fn the_target_schema_is_handed_to_every_transfer() {
    let mut job = MigrationJob::new(tables(&["a"]), MigrationOptions::default(), Some("archive".to_string()));
    match job.begin_table(false) {
        JobStep::Table { transfer, .. } => {
            assert_eq!(transfer.schema, "public");
            assert_eq!(transfer.target_schema, "archive");
        }
        JobStep::Finished => panic!("a table is left"),
    }
}

#[test]
fn a_failed_table_does_not_stop_the_job() {
    let mut job = MigrationJob::new(tables(&["a", "b", "c"]), MigrationOptions::default(), None);
    assert!(matches!(job.begin_table(false), JobStep::Table { .. }));
    job.record_outcome(TableOutcome::Migrated(7));
    assert!(matches!(job.begin_table(false), JobStep::Table { .. }));
    job.record_outcome(TableOutcome::Failed("Failed to fetch data: gone".to_string()));
    assert!(matches!(job.begin_table(false), JobStep::Table { .. }));
    job.record_outcome(TableOutcome::Migrated(3));
    let result = job.finish(1);
    assert!(!result.success);
    assert_eq!(result.tables_migrated, 2);
    assert_eq!(result.total_rows, 10);
    assert_eq!(result.errors, vec!["public.b: Failed to fetch data: gone".to_string()]);
}

#[test]
fn a_request_to_stop_ends_the_job_with_one_notice() {
    let mut job = MigrationJob::new(tables(&["a", "b", "c", "d"]), MigrationOptions::default(), None);
    assert!(matches!(job.begin_table(false), JobStep::Table { .. }));
    job.record_outcome(TableOutcome::Migrated(100));
    assert!(matches!(job.begin_table(false), JobStep::Table { .. }));
    job.record_outcome(TableOutcome::Migrated(50));
    assert!(matches!(job.begin_table(true), JobStep::Finished));
    assert!(matches!(job.begin_table(false), JobStep::Finished));
    assert!(matches!(job.begin_table(true), JobStep::Finished));
    job.record_outcome(TableOutcome::Migrated(1));
    let result = job.finish(9);
    assert!(!result.success);
    assert_eq!(result.tables_migrated, 2);
    assert_eq!(result.total_rows, 150);
    assert_eq!(result.errors, vec!["Migration cancelled by user".to_string()]);
}

#[test]
fn a_request_to_stop_after_the_last_table_leaves_no_notice() {
    let mut job = MigrationJob::new(tables(&["a"]), MigrationOptions::default(), None);
    assert!(matches!(job.begin_table(false), JobStep::Table { .. }));
    job.record_outcome(TableOutcome::Migrated(1));
    assert!(matches!(job.begin_table(true), JobStep::Finished));
    let result = job.finish(0);
    assert!(result.success);
    assert_eq!(result.errors, Vec::<String>::new());
}

#[test]
fn a_job_without_tables_succeeds_at_once() {
    let mut job = MigrationJob::new(Vec::new(), MigrationOptions::default(), None);
    assert!(matches!(job.begin_table(false), JobStep::Finished));
    assert!(matches!(job.begin_table(true), JobStep::Finished));
    let result = job.finish(3);
    assert!(result.success);
    assert_eq!(result.tables_migrated, 0);
    assert_eq!(result.total_rows, 0);
}

#[test]
fn the_total_of_rows_stays_within_its_counter() {
    let mut job = MigrationJob::new(tables(&["a", "b"]), MigrationOptions::default(), None);
    job.begin_table(false);
    job.record_outcome(TableOutcome::Migrated(i64::MAX));
    job.begin_table(false);
    job.record_outcome(TableOutcome::Migrated(5));
    assert_eq!(job.finish(0).total_rows, i64::MAX);
}

#[test]
fn an_outcome_without_a_table_is_passed_over() {
    let mut job = MigrationJob::new(tables(&["a"]), MigrationOptions::default(), None);
    job.begin_table(false);
    job.record_outcome(TableOutcome::Migrated(1));
    job.record_outcome(TableOutcome::Failed("late".to_string()));
    let result = job.finish(0);
    assert!(result.success);
    assert_eq!(result.tables_migrated, 1);
}

#[test]
fn a_table_stopped_in_its_batches_leaves_the_one_notice() {
    let mut job = MigrationJob::new(tables(&["a", "b", "c"]), MigrationOptions::default(), None);
    assert!(matches!(job.begin_table(false), JobStep::Table { .. }));
    job.record_outcome(TableOutcome::Migrated(100));
    assert!(matches!(job.begin_table(false), JobStep::Table { .. }));
    job.record_outcome(TableOutcome::Cancelled);
    assert!(matches!(job.begin_table(false), JobStep::Finished));
    assert!(matches!(job.begin_table(true), JobStep::Finished));
    let result = job.finish(5);
    assert!(!result.success);
    assert_eq!(result.tables_migrated, 1);
    assert_eq!(result.total_rows, 100);
    assert_eq!(result.errors, vec!["Migration cancelled by user".to_string()]);
}

#[test]
fn the_last_table_stopped_in_its_batches_leaves_the_notice_too() {
    let mut job = MigrationJob::new(tables(&["a"]), MigrationOptions::default(), None);
    assert!(matches!(job.begin_table(false), JobStep::Table { .. }));
    job.record_outcome(TableOutcome::Cancelled);
    let result = job.finish(5);
    assert!(!result.success);
    assert_eq!(result.tables_migrated, 0);
    assert_eq!(result.errors, vec!["Migration cancelled by user".to_string()]);
}

#[test]
fn a_job_with_batches_of_no_rows_fails_every_table() {
    let options = MigrationOptions {
        create_table_if_not_exists: true,
        truncate_before_insert: false,
        disable_constraints: true,
        batch_size: 0,
    };
    let mut job = MigrationJob::new(tables(&["a"]), options, None);
    match job.begin_table(false) {
        JobStep::Table { transfer, .. } => {
            assert_eq!(
                transfer.action(),
                TransferAction::Done(TableOutcome::Failed("batch size must be positive".to_string()))
            );
        }
        JobStep::Finished => panic!("a table is left"),
    }
}
