//! What holds of a job that is asked to stop: the tables before the request
//! are accounted for, no table after it is begun, and the request leaves one
//! entry among the errors. And what holds of a job none of whose tables
//! fails: it succeeds.

use crate::job::{cancel_notice_text, table_error_text, JobView};
use crate::migrate::MigrationOptions;
use crate::transfer::OutcomeView;
use vstd::prelude::*;

verus! {

/// A job after the tables whose outcomes are `outcomes` ran one after the
/// other, the stop flag clear before each of them.
pub open spec fn after_tables(job: JobView, outcomes: Seq<OutcomeView>) -> JobView
    decreases outcomes.len(),
{
    if outcomes.len() == 0 {
        job
    } else {
        after_tables(job, outcomes.drop_last()).begin(false).record(outcomes.last())
    }
}

/// How many of the outcomes are of tables that went over.
pub open spec fn migrated_among(outcomes: Seq<OutcomeView>) -> nat
    decreases outcomes.len(),
{
    if outcomes.len() == 0 {
        0
    } else if outcomes.last() is Migrated {
        migrated_among(outcomes.drop_last()) + 1
    } else {
        migrated_among(outcomes.drop_last())
    }
}

/// The entries that the failed tables among the first tables of a job leave
/// among the errors, in order.
pub open spec fn table_errors(
    tables: Seq<(Seq<char>, Seq<char>)>,
    outcomes: Seq<OutcomeView>,
) -> Seq<Seq<char>>
    decreases outcomes.len(),
{
    if outcomes.len() == 0 {
        Seq::empty()
    } else {
        let before = table_errors(tables, outcomes.drop_last());
        match outcomes.last() {
            OutcomeView::Failed(e) => before.push(
                table_error_text(
                    tables[outcomes.len() - 1].0,
                    tables[outcomes.len() - 1].1,
                    e,
                ),
            ),
            _ => before,
        }
    }
}

/// How many of the entries are the notice of a request to stop.
pub open spec fn notices_among(errors: Seq<Seq<char>>) -> nat
    decreases errors.len(),
{
    if errors.len() == 0 {
        0
    } else if errors.last() == cancel_notice_text() {
        notices_among(errors.drop_last()) + 1
    } else {
        notices_among(errors.drop_last())
    }
}

/// None of the tables was asked to stop.
pub open spec fn none_cancelled(outcomes: Seq<OutcomeView>) -> bool {
    forall|k: int| 0 <= k < outcomes.len() ==> !(#[trigger] outcomes[k] is Cancelled)
}

/// A job whose stop flag is found set before table `k + 1`, after `k` tables
/// ran: each of the `k` tables is accounted for, as migrated or with its
/// error; the job is over, so that no further table is begun whatever the
/// flag shows later; and the errors hold the notice of the request once,
/// behind the errors of the tables.
pub proof fn lemma_stop_before_table(
    tables: Seq<(Seq<char>, Seq<char>)>,
    options: MigrationOptions,
    target_schema: Option<Seq<char>>,
    outcomes: Seq<OutcomeView>,
    later_stop: bool,
)
    requires
        outcomes.len() < tables.len(),
        none_cancelled(outcomes),
    ensures
        ({
            let job = JobView::fresh(tables, options, target_schema);
            let stopped = after_tables(job, outcomes).begin(true);
            &&& stopped.next == outcomes.len()
            &&& stopped.tables_migrated == migrated_among(outcomes)
            &&& stopped.errors == table_errors(tables, outcomes).push(cancel_notice_text())
            &&& notices_among(stopped.errors) == 1
            &&& !stopped.begins_table(later_stop)
            &&& stopped.begin(later_stop) == stopped
        }),
{
    let job = JobView::fresh(tables, options, target_schema);
    lemma_after_tables(tables, options, target_schema, outcomes);
    lemma_no_notice_among_table_errors(tables, outcomes);
    let errors = table_errors(tables, outcomes).push(cancel_notice_text());
    assert(errors.drop_last() == table_errors(tables, outcomes));
}

/// A job whose stop flag is found set within table `k + 1`, in its batch
/// loop, after `k` tables ran: the table that was stopped is neither a
/// migrated table nor a failed one; each of the `k` tables before it is
/// accounted for; the job is over, so that no further table is begun; and
/// the errors hold the notice of the request once, behind the errors of the
/// tables, and no entry for the table that was stopped.
pub proof fn lemma_stop_within_table(
    tables: Seq<(Seq<char>, Seq<char>)>,
    options: MigrationOptions,
    target_schema: Option<Seq<char>>,
    outcomes: Seq<OutcomeView>,
    later_stop: bool,
    elapsed_ms: nat,
)
    requires
        outcomes.len() < tables.len(),
        none_cancelled(outcomes),
    ensures
        ({
            let job = JobView::fresh(tables, options, target_schema);
            let stopped = after_tables(job, outcomes).begin(false).record(OutcomeView::Cancelled);
            &&& stopped.tables_migrated == migrated_among(outcomes)
            &&& stopped.errors == table_errors(tables, outcomes).push(cancel_notice_text())
            &&& notices_among(stopped.errors) == 1
            &&& !stopped.begins_table(later_stop)
            &&& stopped.begin(later_stop) == stopped
            &&& !stopped.result(elapsed_ms).success
        }),
{
    lemma_after_tables(tables, options, target_schema, outcomes);
    lemma_no_notice_among_table_errors(tables, outcomes);
    let errors = table_errors(tables, outcomes).push(cancel_notice_text());
    assert(errors.drop_last() == table_errors(tables, outcomes));
}

/// A job that is not asked to stop and none of whose tables fails ends with
/// every table migrated, no error and success.
pub proof fn lemma_success_when_no_table_fails(
    tables: Seq<(Seq<char>, Seq<char>)>,
    options: MigrationOptions,
    target_schema: Option<Seq<char>>,
    outcomes: Seq<OutcomeView>,
    elapsed_ms: nat,
)
    requires
        outcomes.len() == tables.len(),
        forall|k: int| 0 <= k < outcomes.len() ==> outcomes[k] is Migrated,
    ensures
        ({
            let job = after_tables(JobView::fresh(tables, options, target_schema), outcomes);
            &&& !job.has_more()
            &&& job.result(elapsed_ms).success
            &&& job.result(elapsed_ms).tables_migrated == tables.len()
            &&& job.result(elapsed_ms).errors.len() == 0
        }),
{
    lemma_no_failure_no_error(tables, outcomes);
    lemma_after_tables(tables, options, target_schema, outcomes);
}

proof fn lemma_no_failure_no_error(
    tables: Seq<(Seq<char>, Seq<char>)>,
    outcomes: Seq<OutcomeView>,
)
    requires
        forall|k: int| 0 <= k < outcomes.len() ==> outcomes[k] is Migrated,
    ensures
        table_errors(tables, outcomes).len() == 0,
        none_cancelled(outcomes),
        migrated_among(outcomes) == outcomes.len(),
    decreases outcomes.len(),
{
    if outcomes.len() > 0 {
        let front = outcomes.drop_last();
        assert forall|k: int| 0 <= k < front.len() implies front[k] is Migrated by {
            assert(front[k] == outcomes[k]);
        }
        lemma_no_failure_no_error(tables, front);
        assert(outcomes.last() == outcomes[outcomes.len() - 1]);
    }
}

proof fn lemma_after_tables(
    tables: Seq<(Seq<char>, Seq<char>)>,
    options: MigrationOptions,
    target_schema: Option<Seq<char>>,
    outcomes: Seq<OutcomeView>,
)
    requires
        outcomes.len() <= tables.len(),
        none_cancelled(outcomes),
    ensures
        ({
            let job = after_tables(JobView::fresh(tables, options, target_schema), outcomes);
            &&& job.tables == tables
            &&& job.next == outcomes.len()
            &&& !job.stopped
            &&& job.tables_migrated == migrated_among(outcomes)
            &&& job.errors == table_errors(tables, outcomes)
        }),
    decreases outcomes.len(),
{
    if outcomes.len() > 0 {
        let front = outcomes.drop_last();
        assert forall|k: int| 0 <= k < front.len() implies !(#[trigger] front[k] is Cancelled) by {
            assert(front[k] == outcomes[k]);
        }
        lemma_after_tables(tables, options, target_schema, front);
        assert(!(outcomes[outcomes.len() - 1] is Cancelled));
    }
}

/// The entry of a failed table is never the notice of a request to stop: it
/// holds a full stop, and the notice holds none.
proof fn lemma_table_error_is_no_notice(schema: Seq<char>, table: Seq<char>, error: Seq<char>)
    ensures
        table_error_text(schema, table, error) != cancel_notice_text(),
{
    let entry = table_error_text(schema, table, error);
    let notice = cancel_notice_text();
    reveal_strlit("Migration cancelled by user");
    reveal_strlit(".");
    reveal_strlit(": ");
    assert("."@.len() == 1);
    assert("."@[0] == '.');
    assert(notice.len() == 27);
    assert(entry.len() == schema.len() + 1 + table.len() + ": "@.len() + error.len());
    assert(entry[schema.len() as int] == '.');
    if entry == notice {
        let at = schema.len() as int;
        assert(at < 27);
        assert(notice[at] == '.');
        assert(notice[0] != '.' && notice[1] != '.' && notice[2] != '.' && notice[3] != '.'
            && notice[4] != '.' && notice[5] != '.' && notice[6] != '.' && notice[7] != '.'
            && notice[8] != '.');
        assert(notice[9] != '.' && notice[10] != '.' && notice[11] != '.' && notice[12] != '.'
            && notice[13] != '.' && notice[14] != '.' && notice[15] != '.' && notice[16] != '.'
            && notice[17] != '.');
        assert(notice[18] != '.' && notice[19] != '.' && notice[20] != '.' && notice[21] != '.'
            && notice[22] != '.' && notice[23] != '.' && notice[24] != '.' && notice[25] != '.'
            && notice[26] != '.');
        assert(false);
    }
}

proof fn lemma_no_notice_among_table_errors(
    tables: Seq<(Seq<char>, Seq<char>)>,
    outcomes: Seq<OutcomeView>,
)
    ensures
        notices_among(table_errors(tables, outcomes)) == 0,
    decreases outcomes.len(),
{
    if outcomes.len() > 0 {
        lemma_no_notice_among_table_errors(tables, outcomes.drop_last());
        match outcomes.last() {
            OutcomeView::Migrated(_) => {},
            OutcomeView::Cancelled => {},
            OutcomeView::Failed(e) => {
                let before = table_errors(tables, outcomes.drop_last());
                let entry = table_error_text(
                    tables[outcomes.len() - 1].0,
                    tables[outcomes.len() - 1].1,
                    e,
                );
                lemma_table_error_is_no_notice(
                    tables[outcomes.len() - 1].0,
                    tables[outcomes.len() - 1].1,
                    e,
                );
                assert(before.push(entry).drop_last() == before);
            },
        }
    }
}

} // verus!
