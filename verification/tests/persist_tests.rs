use shift_reports::billing::InvoicingRow;
use shift_reports::calendar::{CalendarDate, Timestamp};
use shift_reports::persist::{
    persist, schedule_entries, schedule_entry, PersistSummary, ScheduleEntry, Store, Table,
    UpsertOutcome,
};
use shift_reports::reconcile::{ChangeKind, DialogueConsolidatedRow};

fn at(day: u32, hour: u32) -> Timestamp {
    Timestamp { date: CalendarDate { year: 2024, month: 3, day }, hour, minute: 0, second: 0 }
}

fn entry(teacher: &str, shift: &str, kind: ChangeKind) -> ScheduleEntry {
    ScheduleEntry {
        teacher_name: teacher.to_string(),
        start_date: at(1, 9),
        end_date: at(1, 10),
        shift: shift.to_string(),
        shift_type: kind,
        shift_group: "A".to_string(),
    }
}

fn invoice(teacher: &str, shift: &str, eligible: bool) -> InvoicingRow {
    InvoicingRow {
        teacher_name: teacher.to_string(),
        eligible,
        activity_start: at(1, 9),
        activity_end: at(1, 10),
        shift: shift.to_string(),
    }
}

fn zero() -> PersistSummary {
    PersistSummary {
        inserted_teachers: 0,
        skipped_teachers: 0,
        inserted_shifts: 0,
        skipped_shifts: 0,
        inserted_invoices: 0,
        updated_invoices: 0,
        skipped_invoices: 0,
    }
}

#[test]
fn first_run_inserts_and_second_run_skips() {
    let entries = vec![
        entry("Alice", "S1", ChangeKind::Unchanged),
        entry("Bob", "S2", ChangeKind::Pickup),
        entry("Alice", "S3", ChangeKind::Dropped),
    ];
    let rows = vec![invoice("Alice", "S1", true), invoice("Bob", "S2", false)];
    let mut store = Store::new();
    let first = persist(&mut store, &entries, &rows);
    assert_eq!(
        first,
        PersistSummary {
            inserted_teachers: 2,
            skipped_teachers: 1,
            inserted_shifts: 3,
            skipped_shifts: 0,
            inserted_invoices: 2,
            updated_invoices: 0,
            skipped_invoices: 0,
        }
    );
    let teachers: Vec<(i32, String)> = store.teachers().iter().map(|t| (t.id, t.name.clone())).collect();
    assert_eq!(teachers, vec![(1, "Alice".to_string()), (2, "Bob".to_string())]);
    let schedules: Vec<(i32, i32, String)> =
        store.schedules().iter().map(|s| (s.id, s.teacher_id, s.shift.clone())).collect();
    assert_eq!(
        schedules,
        vec![(1, 1, "S1".to_string()), (2, 2, "S2".to_string()), (3, 1, "S3".to_string())]
    );
    let second = persist(&mut store, &entries, &rows);
    assert_eq!(
        second,
        PersistSummary {
            inserted_teachers: 0,
            skipped_teachers: 3,
            inserted_shifts: 0,
            skipped_shifts: 3,
            inserted_invoices: 0,
            updated_invoices: 2,
            skipped_invoices: 0,
        }
    );
    assert_eq!(store.teachers().len(), 2);
    assert_eq!(store.schedules().len(), 3);
    assert_eq!(store.invoices().len(), 2);
    let eligible: Vec<bool> = store.invoices().iter().map(|i| i.eligible).collect();
    assert_eq!(eligible, vec![true, false]);
}

#[test]
fn same_billing_export_twice_updates_every_row_and_inserts_none() {
    let rows = vec![
        invoice("Alice", "S1", true),
        invoice("Bob", "S2", false),
        invoice("Cleo", "S3", true),
    ];
    let mut store = Store::new();
    let first = persist(&mut store, &Vec::new(), &rows);
    assert_eq!(first.inserted_invoices, 3);
    assert_eq!(first.updated_invoices, 0);
    let before: Vec<(i32, String, bool)> =
        store.invoices().iter().map(|i| (i.id, i.teacher_name.clone(), i.eligible)).collect();
    let second = persist(&mut store, &Vec::new(), &rows);
    assert_eq!(second.inserted_invoices, 0);
    assert_eq!(second.updated_invoices, 3);
    assert_eq!(second.skipped_invoices, 0);
    let after: Vec<(i32, String, bool)> =
        store.invoices().iter().map(|i| (i.id, i.teacher_name.clone(), i.eligible)).collect();
    assert_eq!(before, after);
}

#[test]
fn an_export_that_names_an_activity_twice_leaves_the_same_rows_again() {
    let rows = vec![
        invoice("Alice", "S1", true),
        invoice("Bob", "S2", false),
        invoice("Alice", "S1", false),
        invoice("Bob", "S2", true),
        invoice("Bob", "S2", false),
    ];
    let mut store = Store::new();
    let first = persist(&mut store, &Vec::new(), &rows);
    assert_eq!((first.inserted_invoices, first.updated_invoices), (2, 3));
    let before: Vec<(i32, String, String, bool)> = store
        .invoices()
        .iter()
        .map(|i| (i.id, i.teacher_name.clone(), i.shift.clone(), i.eligible))
        .collect();
    assert_eq!(
        before,
        vec![
            (1, "Alice".to_string(), "S1".to_string(), false),
            (2, "Bob".to_string(), "S2".to_string(), false),
        ]
    );
    let second = persist(&mut store, &Vec::new(), &rows);
    assert_eq!((second.inserted_invoices, second.updated_invoices), (0, 5));
    let after: Vec<(i32, String, String, bool)> = store
        .invoices()
        .iter()
        .map(|i| (i.id, i.teacher_name.clone(), i.shift.clone(), i.eligible))
        .collect();
    assert_eq!(before, after);
}

#[test]
fn corrected_export_flips_eligibility_without_a_new_row() {
    let mut store = Store::new();
    assert_eq!(store.upsert_invoice(&invoice("Alice", "S1", false)), UpsertOutcome::Inserted);
    assert_eq!(store.upsert_invoice(&invoice("Alice", "S1", true)), UpsertOutcome::Updated);
    assert_eq!(store.invoices().len(), 1);
    assert!(store.invoices()[0].eligible);
    assert_eq!(store.invoices()[0].id, 1);
    assert_eq!(store.upsert_invoice(&invoice("Alice", "S2", true)), UpsertOutcome::Inserted);
    assert_eq!(store.upsert_invoice(&invoice("alice", "S1", true)), UpsertOutcome::Inserted);
    assert_eq!(store.invoices().len(), 3);
    let mut later = invoice("Alice", "S1", false);
    later.activity_end = at(1, 11);
    assert_eq!(store.upsert_invoice(&later), UpsertOutcome::Inserted);
}

#[test]
fn teachers_are_found_by_exact_name() {
    let mut store = Store::new();
    assert_eq!(store.upsert_teacher(&"Alice".to_string()), (1, UpsertOutcome::Inserted));
    assert_eq!(store.upsert_teacher(&"alice".to_string()), (2, UpsertOutcome::Inserted));
    assert_eq!(store.upsert_teacher(&"Alice".to_string()), (1, UpsertOutcome::Skipped));
    assert_eq!(store.upsert_teacher(&"alice".to_string()), (2, UpsertOutcome::Skipped));
    assert_eq!(store.teachers().len(), 2);
}

#[test]
fn schedules_are_found_by_their_whole_key() {
    let mut store = Store::new();
    let base = entry("Alice", "S1", ChangeKind::Unchanged);
    assert_eq!(store.upsert_schedule(&base, 1), UpsertOutcome::Inserted);
    assert_eq!(store.upsert_schedule(&base, 1), UpsertOutcome::Skipped);
    assert_eq!(store.upsert_schedule(&base, 2), UpsertOutcome::Inserted);
    assert_eq!(
        store.upsert_schedule(&entry("Alice", "S1", ChangeKind::Pickup), 1),
        UpsertOutcome::Inserted
    );
    assert_eq!(
        store.upsert_schedule(&entry("Alice", "S2", ChangeKind::Unchanged), 1),
        UpsertOutcome::Inserted
    );
    let mut other_group = entry("Alice", "S1", ChangeKind::Unchanged);
    other_group.shift_group = "B".to_string();
    assert_eq!(store.upsert_schedule(&other_group, 1), UpsertOutcome::Inserted);
    let mut other_start = entry("Alice", "S1", ChangeKind::Unchanged);
    other_start.start_date = at(1, 8);
    assert_eq!(store.upsert_schedule(&other_start, 1), UpsertOutcome::Inserted);
    let mut other_end = entry("Alice", "S1", ChangeKind::Unchanged);
    other_end.end_date = at(2, 10);
    assert_eq!(store.upsert_schedule(&other_end, 1), UpsertOutcome::Inserted);
    assert_eq!(store.upsert_schedule(&other_end, 1), UpsertOutcome::Skipped);
    assert_eq!(store.schedules().len(), 7);
}

#[test]
fn summary_counts_each_outcome_in_its_table() {
    let mut summary = PersistSummary::new();
    assert_eq!(summary, zero());
    summary.count(Table::Teachers, UpsertOutcome::Inserted);
    summary.count(Table::Teachers, UpsertOutcome::Skipped);
    summary.count(Table::Teachers, UpsertOutcome::Skipped);
    summary.count(Table::Shifts, UpsertOutcome::Inserted);
    summary.count(Table::Shifts, UpsertOutcome::Skipped);
    summary.count(Table::Invoices, UpsertOutcome::Inserted);
    summary.count(Table::Invoices, UpsertOutcome::Updated);
    summary.count(Table::Invoices, UpsertOutcome::Updated);
    summary.count(Table::Invoices, UpsertOutcome::Skipped);
    summary.count(Table::Teachers, UpsertOutcome::Updated);
    summary.count(Table::Shifts, UpsertOutcome::Updated);
    assert_eq!(
        summary,
        PersistSummary {
            inserted_teachers: 1,
            skipped_teachers: 2,
            inserted_shifts: 1,
            skipped_shifts: 1,
            inserted_invoices: 1,
            updated_invoices: 2,
            skipped_invoices: 1,
        }
    );
}

fn reconciled(teacher: &str, start: &str, end: &str) -> DialogueConsolidatedRow {
    DialogueConsolidatedRow {
        shift_group: "A".to_string(),
        shift: "S1".to_string(),
        shift_type: ChangeKind::Pickup,
        teacher_name: teacher.to_string(),
        start_date: start.to_string(),
        end_date: end.to_string(),
    }
}

#[test]
fn reconciled_rows_become_entries_with_timestamps() {
    let row = reconciled("Alice", "3/1/2024 9:00 AM", "3/1/2024 10:00 PM");
    let entry = schedule_entry(&row).unwrap();
    assert_eq!(entry.teacher_name, "Alice");
    assert_eq!(entry.start_date, at(1, 9));
    assert_eq!(entry.end_date, at(1, 22));
    assert_eq!(entry.shift, "S1");
    assert_eq!(entry.shift_type, ChangeKind::Pickup);
    assert_eq!(entry.shift_group, "A");
    assert!(schedule_entry(&reconciled("Alice", "3/1/2024 9:00 AM", "later")).is_err());
    assert!(schedule_entry(&reconciled("Alice", "3/1/2024", "3/1/2024 10:00 PM")).is_err());
}

#[test]
fn rows_with_unreadable_dates_are_counted_and_left_out() {
    let rows = vec![
        reconciled("Alice", "3/1/2024 9:00 AM", "3/1/2024 10:00 AM"),
        reconciled("Bob", "3/1/2024 9:00 AM", "?"),
        reconciled("Cleo", "3/1/2024 11:00 AM", "3/1/2024 12:00 PM"),
    ];
    let batch = schedule_entries(&rows);
    assert_eq!(batch.malformed_date, 1);
    let names: Vec<&str> = batch.entries.iter().map(|e| e.teacher_name.as_str()).collect();
    assert_eq!(names, vec!["Alice", "Cleo"]);
}
