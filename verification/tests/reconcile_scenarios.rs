use shift_reports::calendar::reporting_day;
use shift_reports::reconcile::{
    classify, classify_row, find_holder, group_present, reconcile, reconcile_snapshots, ChangeKind,
};
use shift_reports::roster::DialogueRow;

fn row(group: &str, shift: &str, teacher: &str, start: &str, end: &str) -> DialogueRow {
    DialogueRow {
        shift_group: group.to_string(),
        shift: shift.to_string(),
        teacher_name: teacher.to_string(),
        start_date: start.to_string(),
        end_date: end.to_string(),
    }
}

fn on_day(group: &str, shift: &str, teacher: &str) -> DialogueRow {
    row(group, shift, teacher, "3/1/2024 9:00 AM", "3/1/2024 10:00 AM")
}

#[test]
fn reassigned_shift_gives_two_rows() {
    let before = vec![on_day("A", "S1", "Alice")];
    let after = vec![on_day("A", "S1", "Bob")];
    let day = reporting_day("2024-03-01").unwrap();
    let out = reconcile(&before, &after, &day);
    assert_eq!(out.len(), 2);
    assert_eq!(out[0].teacher_name, "Alice");
    assert_eq!(out[0].shift, "S1");
    assert_eq!(out[0].shift_type, ChangeKind::DroppedAndPickedUp);
    assert_eq!(out[1].teacher_name, "Bob");
    assert_eq!(out[1].shift, "S1");
    assert_eq!(out[1].shift_type, ChangeKind::InternalPickup);
}

#[test]
fn group_missing_from_earlier_snapshot_gives_nothing() {
    let before: Vec<DialogueRow> = Vec::new();
    let after = vec![on_day("B", "S9", "Carol")];
    let day = reporting_day("2024-03-01").unwrap();
    assert!(reconcile(&before, &after, &day).is_empty());
    assert!(classify(&before, &after).is_empty());
}

#[test]
fn group_missing_from_later_snapshot_gives_nothing() {
    let before = vec![on_day("B", "S9", "Carol"), on_day("A", "S1", "Alice")];
    let after = vec![on_day("A", "S1", "Alice")];
    let out = classify(&before, &after);
    assert_eq!(out.len(), 1);
    assert_eq!(out[0].shift_group, "A");
    assert_eq!(out[0].shift_type, ChangeKind::Unchanged);
}

#[test]
fn every_shift_is_classified_once() {
    let before = vec![
        on_day("A", "kept", "Alice"),
        on_day("A", "lost", "Alice"),
        on_day("A", "moved", "Alice"),
    ];
    let after = vec![
        on_day("A", "kept", "Alice"),
        on_day("A", "moved", "Bob"),
        on_day("A", "new", "Bob"),
    ];
    let out = classify(&before, &after);
    let seen: Vec<(String, String, ChangeKind)> = out
        .iter()
        .map(|r| (r.shift.clone(), r.teacher_name.clone(), r.shift_type))
        .collect();
    assert_eq!(
        seen,
        vec![
            ("new".to_string(), "Bob".to_string(), ChangeKind::Pickup),
            ("moved".to_string(), "Bob".to_string(), ChangeKind::InternalPickup),
            ("lost".to_string(), "Alice".to_string(), ChangeKind::Dropped),
            ("moved".to_string(), "Alice".to_string(), ChangeKind::DroppedAndPickedUp),
            ("kept".to_string(), "Alice".to_string(), ChangeKind::Unchanged),
        ]
    );
}

#[test]
fn groups_are_reconciled_apart() {
    let before = vec![on_day("A", "S1", "Alice"), on_day("B", "S1", "Bob")];
    let after = vec![on_day("A", "S1", "Alice"), on_day("B", "S1", "Carol")];
    let out = classify(&before, &after);
    let seen: Vec<(String, String, ChangeKind)> = out
        .iter()
        .map(|r| (r.shift_group.clone(), r.teacher_name.clone(), r.shift_type))
        .collect();
    assert_eq!(
        seen,
        vec![
            ("B".to_string(), "Carol".to_string(), ChangeKind::InternalPickup),
            ("B".to_string(), "Bob".to_string(), ChangeKind::DroppedAndPickedUp),
            ("A".to_string(), "Alice".to_string(), ChangeKind::Unchanged),
        ]
    );
}

#[test]
fn rows_come_sorted_by_group_teacher_and_start() {
    let before = vec![
        row("B", "b1", "Zed", "3/1/2024 9:00 AM", "3/1/2024 10:00 AM"),
        row("A", "a3", "bob", "3/1/2024 9:00 AM", "3/1/2024 10:00 AM"),
    ];
    let after = vec![
        row("B", "b1", "Zed", "3/1/2024 9:00 AM", "3/1/2024 10:00 AM"),
        row("A", "a1", "Bob", "3/1/2024 1:00 PM", "3/1/2024 2:00 PM"),
        row("A", "a2", "Bob", "3/1/2024 11:00 AM", "3/1/2024 12:00 PM"),
        row("A", "a3", "bob", "3/1/2024 9:00 AM", "3/1/2024 10:00 AM"),
        row("A", "a4", "Alice", "3/1/2024 12:00 AM", "3/1/2024 1:00 AM"),
        row("A", "a5", "Bob", "3/1/2024 12:00 PM", "3/1/2024 1:00 PM"),
    ];
    let day = reporting_day("2024-03-01").unwrap();
    let out = reconcile(&before, &after, &day);
    let shifts: Vec<&str> = out.iter().map(|r| r.shift.as_str()).collect();
    assert_eq!(shifts, vec!["a4", "a2", "a5", "a1", "a3", "b1"]);
}

#[test]
fn equal_keys_keep_the_order_of_the_classification() {
    let before = vec![on_day("A", "old", "Alice"), on_day("A", "same", "Alice")];
    let after = vec![on_day("A", "same", "Alice"), on_day("A", "fresh", "Alice")];
    let day = reporting_day("2024-03-01").unwrap();
    let out = reconcile(&before, &after, &day);
    let seen: Vec<(&str, ChangeKind)> = out.iter().map(|r| (r.shift.as_str(), r.shift_type)).collect();
    assert_eq!(
        seen,
        vec![
            ("fresh", ChangeKind::Pickup),
            ("old", ChangeKind::Dropped),
            ("same", ChangeKind::Unchanged),
        ]
    );
}

#[test]
fn only_rows_that_start_on_the_day_are_returned() {
    let before = vec![row("A", "S0", "Alice", "3/1/2024 9:00 AM", "3/1/2024 10:00 AM")];
    let after = vec![
        row("A", "S1", "Alice", "2/29/2024 11:00 PM", "3/1/2024 1:00 AM"),
        row("A", "S2", "Alice", "3/1/2024 11:00 PM", "3/2/2024 1:00 AM"),
        row("A", "S3", "Alice", "3/1/2024", "3/1/2024"),
        row("A", "S4", "Alice", "garbage", "3/1/2024 1:00 AM"),
    ];
    let day = reporting_day("2024-03-01").unwrap();
    let out = reconcile(&before, &after, &day);
    let shifts: Vec<&str> = out.iter().map(|r| r.shift.as_str()).collect();
    assert_eq!(shifts, vec!["S0", "S2"]);
    for r in &out {
        assert!(r.start_date.starts_with("3/1/2024"));
    }
}

#[test]
fn whole_snapshots_are_filtered_before_they_are_compared() {
    let before = vec![
        on_day("A", "S1", "Alice"),
        row("A", "S2", "Alice", "3/5/2024 9:00 AM", "3/5/2024 10:00 AM"),
    ];
    let after = vec![on_day("A", "S1", "Alice")];
    let day = reporting_day("2024-03-01").unwrap();
    let out = reconcile_snapshots(&before, &after, &day);
    assert_eq!(out.len(), 1);
    assert_eq!(out[0].shift, "S1");
    assert_eq!(out[0].shift_type, ChangeKind::Unchanged);
}

#[test]
fn lookups_find_the_first_row() {
    let rows = vec![on_day("A", "S1", "Alice"), on_day("B", "S1", "Bob"), on_day("B", "S2", "Bea")];
    assert!(group_present(&rows, &"B".to_string()));
    assert!(!group_present(&rows, &"C".to_string()));
    assert_eq!(find_holder(&rows, &"B".to_string(), &"S1".to_string()), Some(1));
    assert_eq!(find_holder(&rows, &"B".to_string(), &"S2".to_string()), Some(2));
    assert_eq!(find_holder(&rows, &"A".to_string(), &"S2".to_string()), None);
    assert_eq!(classify_row(&rows, &on_day("C", "S1", "Al"), true), None);
    assert_eq!(classify_row(&rows, &on_day("A", "S1", "Alice"), false), None);
    assert_eq!(classify_row(&rows, &on_day("A", "S1", "Alice"), true), Some(ChangeKind::Unchanged));
    assert_eq!(classify_row(&rows, &on_day("A", "S7", "Alice"), true), Some(ChangeKind::Pickup));
    assert_eq!(classify_row(&rows, &on_day("A", "S7", "Alice"), false), Some(ChangeKind::Dropped));
}
