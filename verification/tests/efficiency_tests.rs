use shift_reports::calendar::{CalendarDate, Timestamp};
use shift_reports::efficiency::{
    count_billed, day_efficiency, efficiency_table, report_days, Ratio,
};
use shift_reports::persist::Invoice;
use shift_reports::schedule::{schedules_for_report, select_schedules, Schedule};

fn day(month: u32, day: u32) -> CalendarDate {
    CalendarDate { year: 2024, month, day }
}

fn at(month: u32, d: u32, hour: u32) -> Timestamp {
    Timestamp { date: day(month, d), hour, minute: 0, second: 0 }
}

fn schedule(id: i32, teacher: &str, shift: &str, start: Timestamp) -> Schedule {
    Schedule {
        id,
        start_date: start,
        end_date: Timestamp { hour: start.hour + 1, ..start },
        teacher_name: teacher.to_string(),
        shift_group: "A".to_string(),
        shift: shift.to_string(),
        shift_type: "-".to_string(),
    }
}

fn invoice(id: i32, shift: &str, eligible: bool) -> Invoice {
    Invoice {
        id,
        teacher_name: "whoever".to_string(),
        eligible,
        activity_start: at(3, 1, 9),
        activity_end: at(3, 1, 10),
        shift: shift.to_string(),
    }
}

#[test]
fn one_shift_with_one_eligible_invoice() {
    let schedules = vec![schedule(1, "Dana", "S1", at(3, 1, 9))];
    let invoices = vec![invoice(1, "S1", true)];
    let figures = day_efficiency(&schedules, &invoices, &"Dana".to_string(), day(3, 1));
    assert_eq!(figures.scheduled, 2);
    assert_eq!(figures.taught, 1);
    assert_eq!(figures.no_shows, 0);
    assert_eq!(figures.variance, -1);
    assert_eq!(figures.teacher_name, "Dana");
    assert_eq!(figures.date, day(3, 1));
}

#[test]
fn invoices_are_joined_by_the_text_of_the_shift() {
    let schedules = vec![
        schedule(1, "Dana", "S1", at(3, 1, 9)),
        schedule(2, "Dana", "S1", at(3, 1, 11)),
        schedule(3, "Dana", "S2", at(3, 2, 9)),
        schedule(4, "Eve", "S1", at(3, 1, 9)),
    ];
    let invoices = vec![
        invoice(1, "S1", true),
        invoice(2, "S1", false),
        invoice(3, "S1", false),
        invoice(4, "S2", true),
        invoice(5, "S3", true),
    ];
    assert_eq!(count_billed(&invoices, &"S1".to_string()), (1, 2));
    assert_eq!(count_billed(&invoices, &"S2".to_string()), (1, 0));
    assert_eq!(count_billed(&invoices, &"S9".to_string()), (0, 0));
    let first = day_efficiency(&schedules, &invoices, &"Dana".to_string(), day(3, 1));
    assert_eq!((first.scheduled, first.taught, first.no_shows, first.variance), (4, 2, 4, -6));
    let second = day_efficiency(&schedules, &invoices, &"Dana".to_string(), day(3, 2));
    assert_eq!((second.scheduled, second.taught, second.no_shows, second.variance), (2, 1, 0, -1));
    let idle = day_efficiency(&schedules, &invoices, &"Dana".to_string(), day(3, 3));
    assert_eq!((idle.scheduled, idle.taught, idle.no_shows, idle.variance), (0, 0, 0, 0));
}

#[test]
fn report_days_run_from_first_to_last() {
    assert_eq!(
        report_days(day(2, 28), day(3, 2)),
        vec![day(2, 28), day(2, 29), day(3, 1), day(3, 2)]
    );
    assert_eq!(report_days(day(3, 1), day(3, 1)), vec![day(3, 1)]);
    assert!(report_days(day(3, 2), day(3, 1)).is_empty());
    let over_new_year = report_days(
        CalendarDate { year: 2023, month: 12, day: 31 },
        CalendarDate { year: 2024, month: 1, day: 1 },
    );
    assert_eq!(over_new_year.len(), 2);
}

#[test]
fn table_lists_teachers_days_and_summaries() {
    let schedules = vec![
        schedule(1, "Eve", "S4", at(3, 2, 9)),
        schedule(2, "Dana", "S1", at(3, 1, 9)),
        schedule(3, "Dana", "S2", at(3, 2, 9)),
        schedule(4, "Eve", "S5", at(3, 2, 12)),
    ];
    let invoices = vec![
        invoice(1, "S1", true),
        invoice(2, "S2", false),
        invoice(3, "S4", true),
        invoice(4, "S4", true),
        invoice(5, "S5", true),
    ];
    let days = report_days(day(3, 1), day(3, 2));
    let table = efficiency_table(&schedules, &invoices, &days, &"A".to_string());
    assert_eq!(table.shift_group, "A");
    assert_eq!(table.table_teachers, vec!["Eve".to_string(), "Dana".to_string()]);
    assert_eq!(table.table_days, vec![day(3, 1), day(3, 2)]);
    let cells: Vec<(&str, u32, i64, i64, i64, i64)> = table
        .table_days_efficiencies
        .iter()
        .map(|d| (d.teacher_name.as_str(), d.date.day, d.scheduled, d.taught, d.no_shows, d.variance))
        .collect();
    assert_eq!(
        cells,
        vec![
            ("Eve", 1, 0, 0, 0, 0),
            ("Eve", 2, 4, 3, 0, -1),
            ("Dana", 1, 2, 1, 0, -1),
            ("Dana", 2, 2, 0, 1, -3),
        ]
    );
    let sums: Vec<(&str, i64, i64, i64, i64)> = table
        .table_summary
        .iter()
        .map(|s| (s.teacher_name.as_str(), s.scheduled, s.taught, s.no_shows, s.variance))
        .collect();
    assert_eq!(sums, vec![("Eve", 4, 3, 0, -1), ("Dana", 4, 1, 1, -4)]);
    assert_eq!(
        table.table_summary[0].percentage_variance(),
        Some(Ratio { hundredfold: -100, scheduled: 4 })
    );
    assert_eq!(
        table.table_summary[1].percentage_variance(),
        Some(Ratio { hundredfold: -300, scheduled: 4 })
    );
}

#[test]
fn table_without_schedules_is_empty() {
    let days = report_days(day(3, 1), day(3, 2));
    let table = efficiency_table(&Vec::new(), &vec![invoice(1, "S1", true)], &days, &"A".to_string());
    assert!(table.table_teachers.is_empty());
    assert!(table.table_days.is_empty());
    assert!(table.table_days_efficiencies.is_empty());
    assert!(table.table_summary.is_empty());
}

#[test]
fn nothing_scheduled_gives_no_percentage() {
    let schedules = vec![schedule(1, "Dana", "S1", at(4, 1, 9))];
    let days = report_days(day(3, 1), day(3, 2));
    let table = efficiency_table(&schedules, &Vec::new(), &days, &"A".to_string());
    assert_eq!(table.table_summary.len(), 1);
    assert_eq!(table.table_summary[0].scheduled, 0);
    assert_eq!(table.table_summary[0].percentage_variance(), None);
}

#[test]
fn schedules_are_selected_by_group_and_window() {
    let mut other = schedule(5, "Eve", "S9", at(3, 1, 9));
    other.shift_group = "B".to_string();
    let mut long = schedule(6, "Eve", "S8", at(3, 2, 23));
    long.end_date = at(3, 3, 1);
    let all = vec![
        schedule(1, "Dana", "S1", at(2, 29, 9)),
        schedule(2, "Dana", "S2", at(3, 1, 0)),
        schedule(3, "Dana", "S3", at(3, 2, 22)),
        schedule(4, "Dana", "S4", at(3, 3, 0)),
        other,
        long,
    ];
    let chosen = schedules_for_report(&all, day(3, 1), day(3, 2), &"A".to_string());
    let ids: Vec<i32> = chosen.iter().map(|s| s.id).collect();
    assert_eq!(ids, vec![2, 3]);
    let by_start = select_schedules(&all, &at(3, 1, 0), &at(3, 2, 23), &"A".to_string(), true);
    let ids: Vec<i32> = by_start.iter().map(|s| s.id).collect();
    assert_eq!(ids, vec![2, 3, 6]);
}

#[test]
fn checked_table_is_the_table_where_it_fits() {
    let schedules = vec![schedule(1, "Dana", "S1", at(3, 1, 9))];
    let invoices = vec![invoice(1, "S1", true)];
    let days = report_days(day(3, 1), day(3, 1));
    let table = shift_reports::efficiency::checked_efficiency_table(
        &schedules,
        &invoices,
        &days,
        &"A".to_string(),
    )
    .unwrap();
    assert_eq!(table.table_teachers, vec!["Dana".to_string()]);
    assert_eq!(table.table_summary[0].variance, -1);
}

#[test]
fn report_window_runs_from_the_first_second_to_the_last() {
    let params = shift_reports::requests::EfficiencyReportParams {
        start_date: day(3, 1),
        end_date: day(3, 2),
        shift_group: "A".to_string(),
    };
    let (from, to) = params.window();
    assert_eq!(from, at(3, 1, 0));
    assert_eq!(to, Timestamp { date: day(3, 2), hour: 23, minute: 59, second: 59 });
    let other = shift_reports::requests::ConsolidatedReportParams {
        start_date: day(3, 1),
        end_date: day(3, 1),
        shift_group: "A".to_string(),
    };
    assert_eq!(other.window().1.date, day(3, 1));
}
