use shift_reports::consolidation::{consolidate, ConsolidationError};
use shift_reports::persist::{PersistSummary, Store};
use shift_reports::roster::TemplateLayout;

fn line(cells: [&str; 7]) -> Vec<String> {
    cells.iter().map(|c| c.to_string()).collect()
}

fn sheet(body: Vec<Vec<String>>) -> Vec<Vec<String>> {
    let mut grid = vec![line(["title", "", "", "", "", "", ""]); 10];
    grid.extend(body);
    grid.extend(vec![line(["sum", "", "", "", "", "", ""]); 3]);
    grid
}

fn export(rows: &[&str]) -> Vec<u8> {
    let mut text = String::from("h0\th1\th2\th3\th4\th5\th6\th7\th8\th9\n");
    text.push_str("u0\tu1\tu2\tu3\tu4\tu5\tu6\tu7\tu8\tu9\n");
    for row in rows {
        text.push_str(row);
        text.push('\n');
    }
    let mut raw = Vec::new();
    for byte in text.bytes() {
        raw.push(byte);
        raw.push(0);
    }
    raw
}

fn first_sheet() -> Vec<Vec<String>> {
    sheet(vec![
        line(["A", "Alice", "", "", "3/1/2024 9:00 AM", "3/1/2024 10:00 AM", "S1"]),
        line(["", "", "", "", "3/1/2024 10:00 AM", "3/1/2024 11:00 AM", "S2"]),
        line(["", "Bob", "", "", "3/1/2024 11:00 AM", "3/1/2024 12:00 PM", "S3"]),
        vec!["short".to_string()],
        line(["B", "Zed", "", "", "3/1/2024 9:00 AM", "3/1/2024 10:00 AM", "S9"]),
    ])
}

fn second_sheet() -> Vec<Vec<String>> {
    sheet(vec![
        line(["A", "Alice", "", "", "3/1/2024 9:00 AM", "3/1/2024 10:00 AM", "S1"]),
        line(["", "Carol", "", "", "3/1/2024 10:00 AM", "3/1/2024 11:00 AM", "S2"]),
        line(["", "", "", "", "3/1/2024 1:00 PM", "3/1/2024 2:00 PM", "S4"]),
        line(["", "", "", "", "3/2/2024 1:00 PM", "3/2/2024 2:00 PM", "S5"]),
    ])
}

fn billing() -> Vec<u8> {
    export(&[
        "x\tx\tx\tx\tAlice\tEligible\tx\t3/1/2024 9:00\t3/1/2024 10:00\tS1",
        "x\tx\tx\tx\tCarol\tNo show\tx\t3/1/2024 10:00\t3/1/2024 11:00\tS2",
        "x\tx\tx\tx\tCarol\tEligible\tx\t3/2/2024 10:00\t3/2/2024 11:00\tS5",
        "x\tx\tx\tx\tCarol\tEligible\tx\tsoon\t3/1/2024 11:00\tS6",
    ])
}

#[test]
fn a_day_is_consolidated_from_sheets_and_export() {
    let mut store = Store::new();
    let done = consolidate(
        &mut store,
        &first_sheet(),
        &second_sheet(),
        &billing(),
        "2024-03-01",
        TemplateLayout::roster_export(),
    )
    .unwrap();
    assert_eq!(
        done.summary,
        PersistSummary {
            inserted_teachers: 3,
            skipped_teachers: 2,
            inserted_shifts: 5,
            skipped_shifts: 0,
            inserted_invoices: 2,
            updated_invoices: 0,
            skipped_invoices: 0,
        }
    );
    assert_eq!(done.roster_missing_column, (1, 0));
    assert_eq!(done.billing_missing_column, 0);
    assert_eq!(done.billing_malformed_date, 1);
    assert_eq!(done.schedule_malformed_date, 0);
    let stored: Vec<(String, String)> = store
        .schedules()
        .iter()
        .map(|s| (s.shift.clone(), s.shift_type.label().to_string()))
        .collect();
    assert_eq!(
        stored,
        vec![
            ("S1".to_string(), "-".to_string()),
            ("S2".to_string(), "Dropped & Picked Up".to_string()),
            ("S3".to_string(), "Dropped".to_string()),
            ("S2".to_string(), "Internal Pickup".to_string()),
            ("S4".to_string(), "Pickup".to_string()),
        ]
    );
    let teachers: Vec<&str> = store.teachers().iter().map(|t| t.name.as_str()).collect();
    assert_eq!(teachers, vec!["Alice", "Bob", "Carol"]);
}

#[test]
fn consolidating_a_day_again_changes_nothing() {
    let mut store = Store::new();
    let layout = TemplateLayout::roster_export();
    consolidate(&mut store, &first_sheet(), &second_sheet(), &billing(), "2024-03-01", layout)
        .unwrap();
    let schedules = store.schedules().len();
    let teachers = store.teachers().len();
    let eligible: Vec<bool> = store.invoices().iter().map(|i| i.eligible).collect();
    let again =
        consolidate(&mut store, &first_sheet(), &second_sheet(), &billing(), "2024-03-01", layout)
            .unwrap();
    assert_eq!(
        again.summary,
        PersistSummary {
            inserted_teachers: 0,
            skipped_teachers: 5,
            inserted_shifts: 0,
            skipped_shifts: 5,
            inserted_invoices: 0,
            updated_invoices: 2,
            skipped_invoices: 0,
        }
    );
    assert_eq!(store.schedules().len(), schedules);
    assert_eq!(store.teachers().len(), teachers);
    assert_eq!(store.invoices().iter().map(|i| i.eligible).collect::<Vec<bool>>(), eligible);
}

#[test]
fn nothing_is_stored_where_the_day_or_the_export_cannot_be_read() {
    let mut store = Store::new();
    let layout = TemplateLayout::roster_export();
    let bad_day =
        consolidate(&mut store, &first_sheet(), &second_sheet(), &billing(), "March 1st", layout);
    assert_eq!(bad_day.err(), Some(ConsolidationError::MalformedDate));
    let bad_export = consolidate(
        &mut store,
        &first_sheet(),
        &second_sheet(),
        b"a,b\nc,d\ne\n",
        "2024-03-01",
        layout,
    );
    assert_eq!(bad_export.err(), Some(ConsolidationError::BillingUnreadable));
    assert!(store.teachers().is_empty());
    assert!(store.schedules().is_empty());
    assert!(store.invoices().is_empty());
}
