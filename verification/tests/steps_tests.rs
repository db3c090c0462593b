use shift_reports::persist::{PersistSummary, Table, UpsertOutcome};
use shift_reports::reconcile::ChangeKind;
use shift_reports::steps::{counts_of, first_entry_step, first_invoice_step, next_step, Reply, Step};
use shift_reports::text::{push_decimal, push_digits, sort_texts};

fn run(first: Step, replies: &[Reply]) -> (Step, PersistSummary) {
    let mut summary = PersistSummary::new();
    let mut step = first;
    for reply in replies {
        step = next_step(step, *reply, &mut summary);
    }
    (step, summary)
}

#[test]
fn stored_invoice_is_updated() {
    let (step, summary) = run(first_invoice_step(), &[Reply::Found(7)]);
    assert_eq!(step, Step::UpdateInvoice { id: 7 });
    assert_eq!(summary, PersistSummary::new());
    let (step, summary) = run(first_invoice_step(), &[Reply::Found(7), Reply::Done]);
    assert_eq!(step, Step::RowDone);
    assert_eq!(summary.updated_invoices, 1);
    assert_eq!(summary.inserted_invoices + summary.skipped_invoices, 0);
}

#[test]
fn absent_invoice_is_inserted() {
    let (step, summary) = run(first_invoice_step(), &[Reply::Missing, Reply::Done]);
    assert_eq!(step, Step::RowDone);
    assert_eq!(summary.inserted_invoices, 1);
    assert_eq!(summary.updated_invoices + summary.skipped_invoices, 0);
}

#[test]
fn failing_invoice_is_skipped_and_the_batch_goes_on() {
    for replies in [
        vec![Reply::Failed],
        vec![Reply::Found(1), Reply::Failed],
        vec![Reply::Missing, Reply::Failed],
        vec![Reply::Done],
    ] {
        let (step, summary) = run(first_invoice_step(), &replies);
        assert_eq!(step, Step::RowDone);
        assert_eq!(summary.skipped_invoices, 1);
        assert_eq!(summary.inserted_invoices + summary.updated_invoices, 0);
    }
}

#[test]
fn new_teacher_and_new_schedule_are_inserted() {
    let replies = [Reply::Missing, Reply::Created(5), Reply::Missing, Reply::Done];
    let (step, summary) = run(first_entry_step(), &replies[..2]);
    assert_eq!(step, Step::FindSchedule { teacher_id: 5 });
    assert_eq!(summary.inserted_teachers, 1);
    let (step, summary) = run(first_entry_step(), &replies[..3]);
    assert_eq!(step, Step::InsertSchedule { teacher_id: 5 });
    assert_eq!(summary.inserted_shifts, 0);
    let (step, summary) = run(first_entry_step(), &replies);
    assert_eq!(step, Step::RowDone);
    assert_eq!(
        (
            summary.inserted_teachers,
            summary.skipped_teachers,
            summary.inserted_shifts,
            summary.skipped_shifts
        ),
        (1, 0, 1, 0)
    );
}

#[test]
fn stored_teacher_and_stored_schedule_are_skipped() {
    let (step, summary) = run(first_entry_step(), &[Reply::Found(3), Reply::Found(9)]);
    assert_eq!(step, Step::RowDone);
    assert_eq!(
        (
            summary.inserted_teachers,
            summary.skipped_teachers,
            summary.inserted_shifts,
            summary.skipped_shifts
        ),
        (0, 1, 0, 1)
    );
}

#[test]
fn failure_on_a_schedule_entry_aborts_with_the_counters_kept() {
    let (step, summary) = run(first_entry_step(), &[Reply::Failed]);
    assert_eq!(step, Step::Aborted);
    assert_eq!(summary, PersistSummary::new());
    let (step, _) = run(first_entry_step(), &[Reply::Missing, Reply::Failed]);
    assert_eq!(step, Step::Aborted);
    let (step, summary) = run(first_entry_step(), &[Reply::Found(3), Reply::Failed]);
    assert_eq!(step, Step::Aborted);
    assert_eq!(summary.skipped_teachers, 1);
    let (step, summary) = run(first_entry_step(), &[Reply::Found(3), Reply::Missing, Reply::Failed]);
    assert_eq!(step, Step::Aborted);
    assert_eq!(summary.skipped_teachers, 1);
    assert_eq!(summary.inserted_shifts, 0);
    let (step, _) = run(Step::Aborted, &[Reply::Done]);
    assert_eq!(step, Step::Aborted);
}

#[test]
fn only_completed_requests_are_counted() {
    assert_eq!(counts_of(Step::FindTeacher, Reply::Missing), None);
    assert_eq!(counts_of(Step::FindSchedule { teacher_id: 1 }, Reply::Missing), None);
    assert_eq!(counts_of(Step::RowDone, Reply::Done), None);
    assert_eq!(
        counts_of(Step::UpdateInvoice { id: 1 }, Reply::Done),
        Some((Table::Invoices, UpsertOutcome::Updated))
    );
}

#[test]
fn change_kinds_have_their_stored_text() {
    let all = [
        (ChangeKind::Pickup, "Pickup"),
        (ChangeKind::InternalPickup, "Internal Pickup"),
        (ChangeKind::Dropped, "Dropped"),
        (ChangeKind::DroppedAndPickedUp, "Dropped & Picked Up"),
        (ChangeKind::Unchanged, "-"),
    ];
    for (kind, text) in all {
        assert_eq!(kind.label(), text);
        assert_eq!(ChangeKind::from_label(&text.to_string()), Some(kind));
    }
    assert_eq!(ChangeKind::from_label(&"pickup".to_string()), None);
    assert_eq!(ChangeKind::from_label(&"".to_string()), None);
}

#[test]
fn numbers_are_written_in_decimal() {
    let decimal = |n: i128| -> String {
        let mut out = vec!['x'];
        push_decimal(&mut out, n);
        out.into_iter().collect()
    };
    assert_eq!(decimal(0), "x0");
    assert_eq!(decimal(7), "x7");
    assert_eq!(decimal(10), "x10");
    assert_eq!(decimal(-1), "x-1");
    assert_eq!(decimal(1234567890), "x1234567890");
    assert_eq!(decimal(-9050), "x-9050");
    assert_eq!(decimal(i128::MAX), format!("x{}", i128::MAX));
    assert_eq!(decimal(i128::MIN), format!("x{}", i128::MIN));
    let mut digits = Vec::new();
    push_digits(&mut digits, u128::MAX);
    assert_eq!(digits.into_iter().collect::<String>(), format!("{}", u128::MAX));
}

#[test]
fn texts_are_sorted_lexically() {
    let values: Vec<String> =
        ["bob", "Bob", "alice", "", "Zed", "bo"].iter().map(|s| s.to_string()).collect();
    assert_eq!(sort_texts(&values), vec!["", "Bob", "Zed", "alice", "bo", "bob"]);
    assert!(sort_texts(&Vec::new()).is_empty());
}

#[test]
fn a_summary_can_count_until_its_counters_are_full() {
    let mut summary = PersistSummary::new();
    assert!(summary.can_count());
    summary.inserted_invoices = u64::MAX - 1;
    assert!(summary.can_count());
    summary.skipped_shifts = 1;
    assert!(!summary.can_count());
    summary.updated_invoices = u64::MAX;
    assert!(!summary.can_count());
}
