//! What holds of every step of a table transfer: it keeps to its table, it
//! never goes back, and it ends only in the ways that it may end.

use crate::transfer::{
    batch_result, is_last_batch, key_literals, phase_of, starting_view, ActionView, OutcomeView,
    RowRead, TransferEvent, TransferPhase, TransferStep, TransferView,
};
use crate::migrate::MigrationOptions;
use vstd::prelude::*;

verus! {

/// The place of a state in the course of a transfer.
pub open spec fn phase_rank(phase: TransferPhase) -> int {
    match phase {
        TransferPhase::Preparing => 0,
        TransferPhase::Migrating => 1,
        TransferPhase::Complete => 2,
        TransferPhase::Failed => 2,
        TransferPhase::Cancelled => 2,
    }
}

/// The transfer has ended.
pub open spec fn has_ended(step: TransferStep) -> bool {
    step == TransferStep::Complete || step == TransferStep::Failed || step
        == TransferStep::Cancelled
}

/// A transfer that has ended stays as it is, whatever it is told.
pub proof fn lemma_an_ended_transfer_stays(s: TransferView, event: TransferEvent)
    requires
        has_ended(s.step),
    ensures
        s.next(event) == s,
{
}

/// A transfer never goes back: from preparing it goes on to migrating or to
/// an end, from migrating to an end, and from an end nowhere.
pub proof fn lemma_a_transfer_goes_forward(s: TransferView, event: TransferEvent)
    ensures
        phase_rank(phase_of(s.next(event).step)) >= phase_rank(phase_of(s.step)),
{
}

/// A transfer keeps to its table, to its target and to its options.
pub proof fn lemma_a_transfer_keeps_its_table(s: TransferView, event: TransferEvent)
    ensures
        s.next(event).schema == s.schema,
        s.next(event).table == s.table,
        s.next(event).target_schema == s.target_schema,
        s.next(event).options == s.options,
        s.next(event).current_table == s.current_table,
        s.next(event).total_tables == s.total_tables,
{
}

/// A transfer ends as cancelled only where it looked at the stop flag and
/// found it set, and that is before a batch, never within one.
pub proof fn lemma_cancelled_only_when_asked(s: TransferView, event: TransferEvent)
    requires
        s.step != TransferStep::Cancelled,
        s.next(event).step == TransferStep::Cancelled,
    ensures
        s.step == TransferStep::CheckCancel,
        event == TransferEvent::CancelChecked(true),
        s.next(event).rows_transferred == s.rows_transferred,
{
}

/// A transfer ends as complete only after its sequences were set, whatever
/// came of setting them.
pub proof fn lemma_complete_only_after_the_sequences(s: TransferView, event: TransferEvent)
    requires
        s.step != TransferStep::Complete,
        s.next(event).step == TransferStep::Complete,
    ensures
        s.step == TransferStep::SyncSequences,
        event is Executed,
{
}

/// The rows that went over are counted when their batch was inserted, and
/// at no other step: the count never shrinks.
pub proof fn lemma_rows_are_counted_once_inserted(s: TransferView, event: TransferEvent)
    ensures
        s.next(event).rows_transferred == s.rows_transferred || (s.step == TransferStep::Insert
            && event is Executed && s.next(event).rows_transferred == s.rows_transferred
            + s.pending),
        s.next(event).rows_transferred >= s.rows_transferred,
{
}

/// After a batch was inserted, the transfer looks at the stop flag and asks
/// for another batch exactly where the batch was full; a batch that was not
/// full ends the rows. An empty batch ends the rows as soon as it is fetched.
pub proof fn lemma_a_batch_that_is_not_full_ends_the_rows(s: TransferView, rows: Seq<RowRead>)
    ensures
        s.step == TransferStep::Insert && s.after_insert().step != TransferStep::Failed ==> (
        s.after_insert().step == TransferStep::CheckCancel <==> !is_last_batch(
            s.pending,
            s.options.batch_size as nat,
        )),
        s.step == TransferStep::Insert && is_last_batch(s.pending, s.options.batch_size as nat)
            && s.after_insert().step != TransferStep::Failed ==> s.after_insert().step
            == s.step_after_rows(),
        rows.len() == 0 ==> s.after_batch(rows).step == s.step_after_rows(),
{
}

/// The next query of a table with a key starts behind the key of the last
/// row of the batch: all its key columns, each by the literal of its cell.
pub proof fn lemma_the_next_query_starts_behind_the_last_row(s: TransferView, rows: Seq<RowRead>)
    requires
        rows.len() > 0,
        s.keys().len() > 0,
        batch_result(rows, s.columns(), rows.len() as int) is Ok,
    ensures
        s.after_batch(rows).step == TransferStep::Insert,
        s.after_batch(rows).last_key == Some(
            key_literals(rows.last().cells@, s.columns(), s.keys()),
        ),
        s.after_batch(rows).last_key->0.len() == s.keys().len(),
{
}

/// A step on the target that fails while the table is made ready, or while
/// its triggers are switched on again, fails the table: no batch is fetched
/// and none is inserted after it. Setting the sequences is the one step
/// whose failure is passed over.
pub proof fn lemma_a_failed_step_on_the_target_fails_the_table(s: TransferView, e: String)
    requires
        s.step == TransferStep::EnsureSchema || s.step == TransferStep::CreateTable || s.step
            == TransferStep::Truncate || s.step == TransferStep::DisableTriggers || s.step
            == TransferStep::EnableTriggers || s.step == TransferStep::Insert,
    ensures
        s.next(TransferEvent::Executed(Err(e))).step == TransferStep::Failed,
        s.next(TransferEvent::Executed(Err(e))).action() is Done,
        s.next(TransferEvent::Executed(Err(e))).outcome() is Failed,
        s.at(TransferStep::SyncSequences).next(TransferEvent::Executed(Err(e))).step
            == TransferStep::Complete,
{
}

/// A transfer whose batches are to hold no row never starts: it has failed
/// before it asks for anything.
pub proof fn lemma_batches_hold_a_row(
    schema: Seq<char>,
    table: Seq<char>,
    target_schema: Seq<char>,
    options: MigrationOptions,
    current_table: nat,
    total_tables: nat,
)
    ensures
        ({
            let s = starting_view(schema, table, target_schema, options, current_table, total_tables);
            &&& options.batch_size == 0 ==> s.step == TransferStep::Failed && s.action() is Done
            &&& options.batch_size > 0 ==> s.step == TransferStep::LoadSchema
        }),
{
}

/// A transfer ends with an outcome of its own kind: complete with the rows
/// that went over, cancelled without a reason, failed with its reason.
pub proof fn lemma_the_outcome_tells_how_it_ended(s: TransferView)
    ensures
        s.step == TransferStep::Complete ==> s.action() == ActionView::Done(
            OutcomeView::Migrated(s.rows_transferred),
        ),
        s.step == TransferStep::Cancelled ==> s.action() == ActionView::Done(OutcomeView::Cancelled),
        s.step == TransferStep::Failed ==> s.action() == ActionView::Done(
            OutcomeView::Failed(s.error),
        ),
{
}

/// What the observers are told never names a failure: a transfer that fails
/// tells them nothing, and its action says why it ended.
pub proof fn lemma_a_failure_is_told_by_the_action(s: TransferView, event: TransferEvent)
    requires
        s.next(event).step == TransferStep::Failed,
    ensures
        s.notice(s.next(event)) is None,
        s.next(event).action() == ActionView::Done(OutcomeView::Failed(s.next(event).error)),
{
}

} // verus!
