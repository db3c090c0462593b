//! Upserts against a store that is reached through requests.
//!
//! The caller performs one request at a time and hands back the reply; the
//! functions here say which request comes next and what is counted. A billing
//! row that meets a failure is counted as skipped and the batch goes on; a
//! schedule entry that meets a failure aborts the batch.

use crate::billing::BillingRow;
use crate::lookup::{first_match, lemma_first_match};
use crate::persist::{
    activity_of, counted, draft_key, entry_applied, invoice_applied, keyed, named,
    PersistSummary, ScheduleDraft, StoreState, Table, Tally, UpsertOutcome,
};
use vstd::prelude::*;

verus! {

/// The request that is due for the row in hand.
#[derive(Clone, Copy, Debug, PartialEq, Eq, Structural)]
pub enum Step {
    /// Look the invoice up by teacher, shift, start and end.
    FindInvoice,
    /// Set the eligibility of the invoice `id`.
    UpdateInvoice { id: i32 },
    /// Insert the billing row.
    InsertInvoice,
    /// Look the teacher up by name.
    FindTeacher,
    /// Insert the teacher.
    InsertTeacher,
    /// Look the schedule up by its key under the teacher `teacher_id`.
    FindSchedule { teacher_id: i32 },
    /// Insert the schedule under the teacher `teacher_id`.
    InsertSchedule { teacher_id: i32 },
    /// The row is dealt with; the next row is due.
    RowDone,
    /// The store has failed; the batch ends with the counters as they are.
    Aborted,
}

/// What the store answered.
#[derive(Clone, Copy, Debug, PartialEq, Eq, Structural)]
pub enum Reply {
    /// The lookup found the row `id`.
    Found(i32),
    /// The lookup found nothing.
    Missing,
    /// The write was done.
    Done,
    /// The insert was done and gave the id.
    Created(i32),
    /// The request failed.
    Failed,
}

/// The step that follows `step` on `reply`. A reply that does not answer the
/// step counts as a failure.
pub open spec fn step_after(step: Step, reply: Reply) -> Step {
    match (step, reply) {
        (Step::FindInvoice, Reply::Found(id)) => Step::UpdateInvoice { id },
        (Step::FindInvoice, Reply::Missing) => Step::InsertInvoice,
        (Step::FindInvoice, _) => Step::RowDone,
        (Step::UpdateInvoice { id }, _) => Step::RowDone,
        (Step::InsertInvoice, _) => Step::RowDone,
        (Step::FindTeacher, Reply::Found(id)) => Step::FindSchedule { teacher_id: id },
        (Step::FindTeacher, Reply::Missing) => Step::InsertTeacher,
        (Step::FindTeacher, _) => Step::Aborted,
        (Step::InsertTeacher, Reply::Created(id)) => Step::FindSchedule { teacher_id: id },
        (Step::InsertTeacher, _) => Step::Aborted,
        (Step::FindSchedule { teacher_id }, Reply::Found(_)) => Step::RowDone,
        (Step::FindSchedule { teacher_id }, Reply::Missing) => Step::InsertSchedule { teacher_id },
        (Step::FindSchedule { teacher_id }, _) => Step::Aborted,
        (Step::InsertSchedule { teacher_id }, Reply::Done) => Step::RowDone,
        (Step::InsertSchedule { teacher_id }, Reply::Created(_)) => Step::RowDone,
        (Step::InsertSchedule { teacher_id }, _) => Step::Aborted,
        (Step::RowDone, _) => Step::RowDone,
        (Step::Aborted, _) => Step::Aborted,
    }
}

/// What `reply` to `step` counts as, if it counts.
pub open spec fn step_counts(step: Step, reply: Reply) -> Option<(Table, UpsertOutcome)> {
    match (step, reply) {
        (Step::FindInvoice, Reply::Found(_)) => None,
        (Step::FindInvoice, Reply::Missing) => None,
        (Step::FindInvoice, _) => Some((Table::Invoices, UpsertOutcome::Skipped)),
        (Step::UpdateInvoice { id }, Reply::Done) => Some(
            (Table::Invoices, UpsertOutcome::Updated),
        ),
        (Step::UpdateInvoice { id }, _) => Some((Table::Invoices, UpsertOutcome::Skipped)),
        (Step::InsertInvoice, Reply::Done) => Some((Table::Invoices, UpsertOutcome::Inserted)),
        (Step::InsertInvoice, Reply::Created(_)) => Some(
            (Table::Invoices, UpsertOutcome::Inserted),
        ),
        (Step::InsertInvoice, _) => Some((Table::Invoices, UpsertOutcome::Skipped)),
        (Step::FindTeacher, Reply::Found(_)) => Some((Table::Teachers, UpsertOutcome::Skipped)),
        (Step::InsertTeacher, Reply::Created(_)) => Some(
            (Table::Teachers, UpsertOutcome::Inserted),
        ),
        (Step::FindSchedule { teacher_id }, Reply::Found(_)) => Some(
            (Table::Shifts, UpsertOutcome::Skipped),
        ),
        (Step::InsertSchedule { teacher_id }, Reply::Done) => Some(
            (Table::Shifts, UpsertOutcome::Inserted),
        ),
        (Step::InsertSchedule { teacher_id }, Reply::Created(_)) => Some(
            (Table::Shifts, UpsertOutcome::Inserted),
        ),
        _ => None,
    }
}

/// The tally after `reply` to `step`.
pub open spec fn tally_after(tally: Tally, step: Step, reply: Reply) -> Tally {
    match step_counts(step, reply) {
        Some((table, outcome)) => counted(tally, table, outcome),
        None => tally,
    }
}

/// The first step for a billing row.
pub fn first_invoice_step() -> (r: Step)
    ensures
        r == Step::FindInvoice,
{
    Step::FindInvoice
}

/// The first step for a schedule entry.
pub fn first_entry_step() -> (r: Step)
    ensures
        r == Step::FindTeacher,
{
    Step::FindTeacher
}

/// What `reply` to `step` counts as, if it counts.
pub fn counts_of(step: Step, reply: Reply) -> (r: Option<(Table, UpsertOutcome)>)
    ensures
        r == step_counts(step, reply),
{
    match (step, reply) {
        (Step::FindInvoice, Reply::Found(_)) => None,
        (Step::FindInvoice, Reply::Missing) => None,
        (Step::FindInvoice, _) => Some((Table::Invoices, UpsertOutcome::Skipped)),
        (Step::UpdateInvoice { id: _ }, Reply::Done) => Some(
            (Table::Invoices, UpsertOutcome::Updated),
        ),
        (Step::UpdateInvoice { id: _ }, _) => Some((Table::Invoices, UpsertOutcome::Skipped)),
        (Step::InsertInvoice, Reply::Done) => Some((Table::Invoices, UpsertOutcome::Inserted)),
        (Step::InsertInvoice, Reply::Created(_)) => Some(
            (Table::Invoices, UpsertOutcome::Inserted),
        ),
        (Step::InsertInvoice, _) => Some((Table::Invoices, UpsertOutcome::Skipped)),
        (Step::FindTeacher, Reply::Found(_)) => Some((Table::Teachers, UpsertOutcome::Skipped)),
        (Step::InsertTeacher, Reply::Created(_)) => Some(
            (Table::Teachers, UpsertOutcome::Inserted),
        ),
        (Step::FindSchedule { teacher_id: _ }, Reply::Found(_)) => Some(
            (Table::Shifts, UpsertOutcome::Skipped),
        ),
        (Step::InsertSchedule { teacher_id: _ }, Reply::Done) => Some(
            (Table::Shifts, UpsertOutcome::Inserted),
        ),
        (Step::InsertSchedule { teacher_id: _ }, Reply::Created(_)) => Some(
            (Table::Shifts, UpsertOutcome::Inserted),
        ),
        _ => None,
    }
}

/// Takes the reply to the request that was due: counts what it counts as,
/// and says which request is due next.
pub fn next_step(step: Step, reply: Reply, summary: &mut PersistSummary) -> (next: Step)
    requires
        old(summary)@.total() < u64::MAX,
    ensures
        next == step_after(step, reply),
        final(summary)@ == tally_after(old(summary)@, step, reply),
        final(summary)@.total() <= old(summary)@.total() + 1,
{
    match counts_of(step, reply) {
        Some((table, outcome)) => {
            summary.count(table, outcome);
        },
        None => {},
    }
    match (step, reply) {
        (Step::FindInvoice, Reply::Found(id)) => Step::UpdateInvoice { id },
        (Step::FindInvoice, Reply::Missing) => Step::InsertInvoice,
        (Step::FindInvoice, _) => Step::RowDone,
        (Step::UpdateInvoice { id: _ }, _) => Step::RowDone,
        (Step::InsertInvoice, _) => Step::RowDone,
        (Step::FindTeacher, Reply::Found(id)) => Step::FindSchedule { teacher_id: id },
        (Step::FindTeacher, Reply::Missing) => Step::InsertTeacher,
        (Step::FindTeacher, _) => Step::Aborted,
        (Step::InsertTeacher, Reply::Created(id)) => Step::FindSchedule { teacher_id: id },
        (Step::InsertTeacher, _) => Step::Aborted,
        (Step::FindSchedule { teacher_id: _ }, Reply::Found(_)) => Step::RowDone,
        (Step::FindSchedule { teacher_id }, Reply::Missing) => Step::InsertSchedule { teacher_id },
        (Step::FindSchedule { teacher_id: _ }, _) => Step::Aborted,
        (Step::InsertSchedule { teacher_id: _ }, Reply::Done) => Step::RowDone,
        (Step::InsertSchedule { teacher_id: _ }, Reply::Created(_)) => Step::RowDone,
        (Step::InsertSchedule { teacher_id: _ }, _) => Step::Aborted,
        (Step::RowDone, _) => Step::RowDone,
        (Step::Aborted, _) => Step::Aborted,
    }
}

/// A billing row is dealt with after two replies and never aborts the
/// batch.
pub proof fn lemma_invoice_rows_end(a: Reply, b: Reply)
    ensures
        step_after(step_after(Step::FindInvoice, a), b) == Step::RowDone,
{
}

/// A schedule entry is dealt with, or the batch aborted, after four replies.
pub proof fn lemma_entry_rows_end(a: Reply, b: Reply, c: Reply, d: Reply)
    ensures
        ({
            let last = step_after(
                step_after(step_after(step_after(Step::FindTeacher, a), b), c),
                d,
            );
            last == Step::RowDone || last == Step::Aborted
        }),
{
}

/// What a store that holds `store` and does not fail answers to `step` for
/// the schedule entry `entry`.
pub open spec fn entry_reply(store: StoreState, entry: ScheduleDraft, step: Step) -> Reply {
    match step {
        Step::FindTeacher => match first_match(store.teachers, named(entry.teacher_name)) {
            Some(i) => Reply::Found((i + 1) as i32),
            None => Reply::Missing,
        },
        Step::InsertTeacher => Reply::Created((store.teachers.len() + 1) as i32),
        Step::FindSchedule { teacher_id } => match first_match(
            store.schedules,
            keyed(draft_key(entry, teacher_id as int)),
        ) {
            Some(i) => Reply::Found((i + 1) as i32),
            None => Reply::Missing,
        },
        Step::InsertSchedule { teacher_id } => Reply::Done,
        _ => Reply::Failed,
    }
}

/// What a store that holds `store` and does not fail answers to `step` for
/// the billing row `row`.
pub open spec fn invoice_reply(store: StoreState, row: BillingRow, step: Step) -> Reply {
    match step {
        Step::FindInvoice => match first_match(store.invoices, activity_of(row)) {
            Some(i) => Reply::Found((i + 1) as i32),
            None => Reply::Missing,
        },
        Step::UpdateInvoice { id } => Reply::Done,
        Step::InsertInvoice => Reply::Done,
        _ => Reply::Failed,
    }
}

/// The step and the tally after `n` requests, each answered by `answer`.
pub open spec fn after_requests(
    step: Step,
    tally: Tally,
    answer: spec_fn(Step) -> Reply,
    n: nat,
) -> (Step, Tally)
    decreases n,
{
    if n == 0 {
        (step, tally)
    } else {
        after_requests(
            step_after(step, answer(step)),
            tally_after(tally, step, answer(step)),
            answer,
            (n - 1) as nat,
        )
    }
}

/// Against a store that does not fail, the requests for a schedule entry
/// end with the row dealt with, and count what the upsert of the entry
/// counts.
pub proof fn lemma_entry_requests_count_the_upsert(
    store: StoreState,
    tally: Tally,
    entry: ScheduleDraft,
)
    requires
        store.teachers.len() < i32::MAX,
        store.schedules.len() < i32::MAX,
    ensures
        after_requests(
            Step::FindTeacher,
            tally,
            |step: Step| entry_reply(store, entry, step),
            4,
        ) == (Step::RowDone, entry_applied((store, tally), entry).1),
{
    let answer = |step: Step| entry_reply(store, entry, step);
    reveal_with_fuel(after_requests, 5);
    lemma_first_match(store.teachers, named(entry.teacher_name));
    let first = answer(Step::FindTeacher);
    let second_step = step_after(Step::FindTeacher, first);
    let third_step = step_after(second_step, answer(second_step));
    lemma_first_match(
        store.schedules,
        keyed(draft_key(entry, crate::persist::teacher_id_for(store.teachers, entry.teacher_name))),
    );
    let fourth_step = step_after(third_step, answer(third_step));
    assert(step_after(fourth_step, answer(fourth_step)) == Step::RowDone);
}

/// Against a store that does not fail, the requests for a billing row end
/// with the row dealt with, and count what the upsert of the row counts.
pub proof fn lemma_invoice_requests_count_the_upsert(
    store: StoreState,
    tally: Tally,
    row: BillingRow,
)
    requires
        store.invoices.len() < i32::MAX,
    ensures
        after_requests(Step::FindInvoice, tally, |step: Step| invoice_reply(store, row, step), 2)
            == (Step::RowDone, invoice_applied((store, tally), row).1),
{
    let answer = |step: Step| invoice_reply(store, row, step);
    reveal_with_fuel(after_requests, 3);
    lemma_first_match(store.invoices, activity_of(row));
    let second_step = step_after(Step::FindInvoice, answer(Step::FindInvoice));
    assert(step_after(second_step, answer(second_step)) == Step::RowDone);
}

} // verus!
