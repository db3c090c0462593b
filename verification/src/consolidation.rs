//! The consolidation of one reporting day, from the cells of the two roster
//! sheets and the bytes of the billing export to the store.
//!
//! The reporting day is read, the sheets are mapped, the billing export is
//! read and its rows of the day are stored, the two snapshots are reconciled
//! and the reconciled rows are stored. Nothing is stored where the day or the
//! export cannot be read or the store has no room for the batch.

use crate::billing::{
    billing, billing_rows, export_records, faulty_records, read_billing_export, RowFault,
};
use crate::calendar::{reporting_day, reporting_day_outcome, Timestamp};
use crate::persist::{
    drafts, persist, persisted, readable_drafts, schedule_entries, unreadable_shifts,
    PersistSummary, Store, StoreState,
};
use crate::reconcile::{reconcile_snapshots, reconciled, ReconciledShift};
use crate::roster::{
    cells, map_roster_sheet, mapped_rows, rows_touching, sheet_body, short_lines, RosterRow,
    TemplateLayout,
};
use vstd::prelude::*;

verus! {

/// Why a day was not consolidated.
#[derive(Clone, Copy, Debug, PartialEq, Eq, Structural)]
pub enum ConsolidationError {
    /// The reporting day cannot be read.
    MalformedDate,
    /// The billing export cannot be read as delimited records.
    BillingUnreadable,
    /// A table of the store has no room for the batch.
    StoreFull,
}

/// What the consolidation of a day did and what it left out.
#[derive(Debug)]
pub struct Consolidation {
    /// What was inserted, updated and skipped.
    pub summary: PersistSummary,
    /// Lines of the first and of the second sheet that lacked a column.
    pub roster_missing_column: (usize, usize),
    /// Records of the billing export that lacked a column.
    pub billing_missing_column: usize,
    /// Records of the billing export with a date that cannot be read.
    pub billing_malformed_date: usize,
    /// Reconciled rows with a date that cannot be read.
    pub schedule_malformed_date: usize,
}

/// The rows of a sheet that take part in the reconciliation of `day`.
pub open spec fn snapshot_of(grid: Seq<Vec<String>>, layout: TemplateLayout, day: Timestamp) -> Seq<
    RosterRow,
> {
    rows_touching(mapped_rows(sheet_body(cells(grid), layout)), day)
}

/// The reconciled shifts of the two sheets for `day`.
pub open spec fn reconciled_sheets(
    first: Seq<Vec<String>>,
    second: Seq<Vec<String>>,
    layout: TemplateLayout,
    day: Timestamp,
) -> Seq<ReconciledShift> {
    reconciled(snapshot_of(first, layout, day), snapshot_of(second, layout, day), day)
}

/// The store has room for so many more teachers and schedules, and for so
/// many more invoices.
pub open spec fn has_room(store: StoreState, entries: int, invoices: int) -> bool {
    &&& store.teachers.len() + entries <= i32::MAX
    &&& store.schedules.len() + entries <= i32::MAX
    &&& store.invoices.len() + invoices <= i32::MAX
}

/// Consolidates one reporting day into the store.
///
/// `date` names the day as `YYYY-MM-DD`; `first` and `second` hold the cells
/// of the earlier and the later roster sheet; `billing_export` holds the
/// bytes of the billing export. The billing rows of the day are upserted,
/// then the schedule entries of the reconciliation.
pub fn consolidate(
    store: &mut Store,
    first: &Vec<Vec<String>>,
    second: &Vec<Vec<String>>,
    billing_export: &[u8],
    date: &str,
    layout: TemplateLayout,
) -> (r: Result<Consolidation, ConsolidationError>)
    requires
        old(store).well_formed(),
    ensures
        final(store).well_formed(),
        match r {
            Ok(done) => {
                &&& reporting_day_outcome(date@) matches Ok(day)
                &&& export_records(billing_export@) matches Some(records)
                &&& has_room(
                    old(store)@,
                    readable_drafts(reconciled_sheets(first@, second@, layout, day)).len() as int,
                    billing_rows(records, day).len() as int,
                )
                &&& (final(store)@, done.summary@) == persisted(
                    old(store)@,
                    readable_drafts(reconciled_sheets(first@, second@, layout, day)),
                    billing_rows(records, day),
                )
                &&& done.roster_missing_column.0 == short_lines(sheet_body(cells(first@), layout))
                &&& done.roster_missing_column.1 == short_lines(sheet_body(cells(second@), layout))
                &&& done.billing_missing_column == faulty_records(records, RowFault::MissingColumn)
                &&& done.billing_malformed_date == faulty_records(records, RowFault::MalformedDate)
                &&& done.schedule_malformed_date == unreadable_shifts(
                    reconciled_sheets(first@, second@, layout, day),
                )
            },
            Err(ConsolidationError::MalformedDate) => {
                &&& reporting_day_outcome(date@) is Err
                &&& final(store)@ == old(store)@
            },
            Err(ConsolidationError::BillingUnreadable) => {
                &&& reporting_day_outcome(date@) is Ok
                &&& export_records(billing_export@) is None
                &&& final(store)@ == old(store)@
            },
            Err(ConsolidationError::StoreFull) => {
                &&& reporting_day_outcome(date@) matches Ok(day)
                &&& export_records(billing_export@) matches Some(records)
                &&& !has_room(
                    old(store)@,
                    readable_drafts(reconciled_sheets(first@, second@, layout, day)).len() as int,
                    billing_rows(records, day).len() as int,
                )
                &&& final(store)@ == old(store)@
            },
        },
{
    let day = match reporting_day(date) {
        Ok(day) => day,
        Err(_) => {
            return Err(ConsolidationError::MalformedDate);
        },
    };
    let earlier = map_roster_sheet(first, layout);
    let later = map_roster_sheet(second, layout);
    let sheet = match read_billing_export(billing_export, &day) {
        Some(sheet) => sheet,
        None => {
            return Err(ConsolidationError::BillingUnreadable);
        },
    };
    let rows = reconcile_snapshots(&earlier.rows, &later.rows, &day);
    let batch = schedule_entries(&rows);
    let limit: usize = 0x7fff_ffff;
    let teachers: usize = store.teachers().len();
    let schedules: usize = store.schedules().len();
    let invoices: usize = store.invoices().len();
    proof {
        store.lemma_sizes();
        assert(drafts(batch.entries@).len() == batch.entries.len());
        assert(billing(sheet.rows@).len() == sheet.rows.len());
    }
    if batch.entries.len() > limit - teachers || batch.entries.len() > limit - schedules
        || sheet.rows.len() > limit - invoices {
        return Err(ConsolidationError::StoreFull);
    }
    let summary = persist(store, &batch.entries, &sheet.rows);
    Ok(
        Consolidation {
            summary,
            roster_missing_column: (earlier.missing_column, later.missing_column),
            billing_missing_column: sheet.missing_column,
            billing_malformed_date: sheet.malformed_date,
            schedule_malformed_date: batch.malformed_date,
        },
    )
}

} // verus!
