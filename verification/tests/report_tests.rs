use shift_reports::calendar::{CalendarDate, Timestamp};
use shift_reports::consolidated::{consolidated_csv, generate_consolidated_report, report_line, report_lines};
use shift_reports::efficiency::{efficiency_table, report_days, report_fits_in};
use shift_reports::efficiency_csv::{generate_efficiency_report, print_days, render_efficiency_csv};
use shift_reports::persist::Invoice;
use shift_reports::schedule::Schedule;

fn day(month: u32, day: u32) -> CalendarDate {
    CalendarDate { year: 2024, month, day }
}

fn at(month: u32, d: u32, hour: u32) -> Timestamp {
    Timestamp { date: day(month, d), hour, minute: 0, second: 0 }
}

fn schedule(id: i32, teacher: &str, shift: &str, kind: &str, start: Timestamp) -> Schedule {
    Schedule {
        id,
        start_date: start,
        end_date: Timestamp { hour: start.hour + 1, ..start },
        teacher_name: teacher.to_string(),
        shift_group: "A".to_string(),
        shift: shift.to_string(),
        shift_type: kind.to_string(),
    }
}

fn invoice(id: i32, shift: &str, eligible: bool) -> Invoice {
    Invoice {
        id,
        teacher_name: "whoever".to_string(),
        eligible,
        activity_start: at(3, 1, 9),
        activity_end: at(3, 1, 10),
        shift: shift.to_string(),
    }
}

#[test]
fn efficiency_table_is_rendered_with_sorted_teachers_and_totals() {
    let schedules = vec![
        schedule(1, "Eve", "S4", "-", at(3, 2, 9)),
        schedule(2, "Dana", "S1", "-", at(3, 1, 9)),
        schedule(3, "Dana", "S2", "-", at(3, 2, 9)),
        schedule(4, "Eve", "S5", "-", at(3, 2, 12)),
    ];
    let invoices = vec![
        invoice(1, "S1", true),
        invoice(2, "S2", false),
        invoice(3, "S4", true),
        invoice(4, "S4", true),
        invoice(5, "S5", true),
    ];
    let days = report_days(day(3, 1), day(3, 2));
    assert!(report_fits_in(schedules.len(), invoices.len(), days.len()));
    let table = efficiency_table(&schedules, &invoices, &days, &"A".to_string());
    let percentages = vec!["-25".to_string(), "-75".to_string()];
    let text = generate_efficiency_report(&table, &percentages, "-100").unwrap();
    let expected = "teacher,2024-03-01,scheduled,taught,no_shows,variance,\
                    2024-03-02,scheduled,taught,no_shows,variance,\
                    total,scheduled,taught,no_shows,variance,percentage_variance\n\
                    Dana,,2,1,0,-1,,2,0,1,-3,,4,1,1,-4,-75\n\
                    Eve,,0,0,0,0,,4,3,0,-1,,4,3,0,-1,-25\n\
                    total,,2,1,0,-1,,6,3,1,-4,,8,4,1,-5,-100";
    assert_eq!(text, expected);
}

#[test]
fn empty_table_has_a_header_and_a_total_line() {
    let table = efficiency_table(&Vec::new(), &Vec::new(), &Vec::new(), &"A".to_string());
    let text = render_efficiency_csv(&table, &Vec::new(), &Vec::new(), "NaN");
    assert_eq!(
        text,
        "teacher,total,scheduled,taught,no_shows,variance,percentage_variance\ntotal,,0,0,0,0,NaN"
    );
}

#[test]
fn missing_percentages_are_left_blank() {
    let schedules = vec![schedule(1, "Dana", "S1", "-", at(3, 1, 9))];
    let days = report_days(day(3, 1), day(3, 1));
    let table = efficiency_table(&schedules, &Vec::new(), &days, &"A".to_string());
    let text = render_efficiency_csv(&table, &vec!["D1".to_string()], &Vec::new(), "");
    assert_eq!(
        text,
        "teacher,D1,scheduled,taught,no_shows,variance,total,scheduled,taught,no_shows,variance,\
         percentage_variance\nDana,,2,0,0,-2,,2,0,0,-2,\ntotal,,2,0,0,-2,,2,0,0,-2,"
    );
}

#[test]
fn days_are_printed_year_first() {
    let days = vec![day(3, 1), CalendarDate { year: 987, month: 12, day: 31 }];
    assert_eq!(print_days(&days), Some(vec!["2024-03-01".to_string(), "0987-12-31".to_string()]));
    assert_eq!(day(3, 1).to_text(), Some("2024-03-01".to_string()));
    assert_eq!(CalendarDate { year: 2023, month: 2, day: 30 }.to_text(), None);
    assert_eq!(print_days(&vec![day(3, 1), CalendarDate { year: 2023, month: 2, day: 30 }]), None);
    assert_eq!(at(3, 1, 9).to_text(), Some("2024-03-01 09:00:00".to_string()));
    assert_eq!(at(3, 1, 9).time_to_text(), Some("09:00:00".to_string()));
    assert_eq!(
        Timestamp { date: day(3, 1), hour: 24, minute: 0, second: 0 }.to_text(),
        None
    );
}

#[test]
fn report_limits_are_checked() {
    assert!(report_fits_in(0, usize::MAX, usize::MAX));
    assert!(report_fits_in(usize::MAX, usize::MAX, 0));
    assert!(report_fits_in(1000, 1_000_000, 366));
    assert!(!report_fits_in(usize::MAX, 1, 1));
    assert!(!report_fits_in(1 << 31, 1 << 31, 2));
    assert!(report_fits_in(1 << 30, (1 << 31) - 1, 1));
    assert!(!report_fits_in(1 << 30, (1 << 31) - 1, 2));
    assert!(report_fits_in(1 << 30, (1 << 31) - 2, 2));
}

#[test]
fn consolidated_report_puts_summaries_beside_the_first_lines() {
    let schedules = vec![
        schedule(1, "Bob", "S2", "Pickup", at(3, 1, 10)),
        schedule(2, "alice", "S1", "-", at(3, 1, 9)),
        schedule(3, "Bob", "S3", "Dropped", at(3, 2, 9)),
    ];
    let text = generate_consolidated_report(&schedules).unwrap();
    let expected = "Teacher,Shift,Shift Type,Start Date,End Date,,,,Teacher,Scheduled,Picked Up,Dropped\n\
                    alice,S1,-,2024-03-01 09:00:00,2024-03-01 10:00:00,,,,Bob,2,1,1\n\
                    Bob,S2,Pickup,2024-03-01 10:00:00,2024-03-01 11:00:00,,,,alice,1,0,0\n\
                    Bob,S3,Dropped,2024-03-02 09:00:00,2024-03-02 10:00:00,,,,Total,3,1,1\n";
    assert_eq!(text, expected);
}

#[test]
fn consolidated_report_counts_every_kind_of_pickup() {
    let schedules = vec![
        schedule(1, "Zoe", "S1", "Pickup", at(3, 1, 1)),
        schedule(2, "Zoe", "S2", "Internal Pickup", at(3, 1, 2)),
        schedule(3, "Zoe", "S3", "Dropped & Picked Up", at(3, 1, 3)),
        schedule(4, "Zoe", "S4", "Dropped", at(3, 1, 4)),
        schedule(5, "Zoe", "S5", "-", at(3, 1, 5)),
        schedule(6, "Zoe", "S6", "dropped", at(3, 1, 6)),
    ];
    let text = generate_consolidated_report(&schedules).unwrap();
    let lines: Vec<&str> = text.lines().collect();
    assert_eq!(lines.len(), 7);
    assert!(lines[1].ends_with(",,,,Zoe,6,3,1"));
    assert!(lines[2].ends_with(",,,,Total,6,3,1"));
    assert!(lines[3].ends_with("2024-03-01 04:00:00,,,,"));
}

const HEADER: &str =
    "Teacher,Shift,Shift Type,Start Date,End Date,,,,Teacher,Scheduled,Picked Up,Dropped\n";

#[test]
fn consolidated_report_of_no_schedule_has_header_and_totals() {
    let expected = format!("{}{}", HEADER, ",,,,,,,,Total,0,0,0\n");
    assert_eq!(generate_consolidated_report(&Vec::new()), Some(expected.clone()));
    assert_eq!(consolidated_csv(Vec::new()), expected);
}

#[test]
fn consolidated_report_goes_on_beside_empty_cells() {
    let one = vec![schedule(1, "Bob", "S2", "Pickup", at(3, 1, 10))];
    let expected = format!(
        "{}{}{}",
        HEADER,
        "Bob,S2,Pickup,2024-03-01 10:00:00,2024-03-01 11:00:00,,,,Bob,1,1,0\n",
        ",,,,,,,,Total,1,1,0\n"
    );
    assert_eq!(generate_consolidated_report(&one), Some(expected));
    let two = vec![
        schedule(1, "Bob", "S2", "Dropped", at(3, 1, 10)),
        schedule(2, "Al", "S1", "Pickup", at(3, 1, 10)),
    ];
    let expected = format!(
        "{}{}{}{}",
        HEADER,
        "Al,S1,Pickup,2024-03-01 10:00:00,2024-03-01 11:00:00,,,,Al,1,1,0\n",
        "Bob,S2,Dropped,2024-03-01 10:00:00,2024-03-01 11:00:00,,,,Bob,1,0,1\n",
        ",,,,,,,,Total,2,1,1\n"
    );
    assert_eq!(generate_consolidated_report(&two), Some(expected));
}

#[test]
fn efficiency_report_is_computed_and_rendered_in_one() {
    let schedules = vec![
        schedule(1, "Eve", "S4", "-", at(3, 2, 9)),
        schedule(2, "Dana", "S1", "-", at(3, 1, 9)),
    ];
    let invoices = vec![invoice(1, "S1", true), invoice(2, "S4", false)];
    let days = report_days(day(3, 1), day(3, 2));
    let percentages = vec!["e".to_string(), "d".to_string()];
    let text = shift_reports::efficiency_csv::efficiency_report(
        &schedules,
        &invoices,
        &days,
        &"A".to_string(),
        &percentages,
        "t",
    )
    .unwrap();
    let expected = "teacher,2024-03-01,scheduled,taught,no_shows,variance,\
                    2024-03-02,scheduled,taught,no_shows,variance,\
                    total,scheduled,taught,no_shows,variance,percentage_variance\n\
                    Dana,,2,1,0,-1,,0,0,0,0,,2,1,0,-1,d\n\
                    Eve,,0,0,0,0,,2,0,1,-3,,2,0,1,-3,e\n\
                    total,,2,1,0,-1,,2,0,1,-3,,4,1,1,-4,t";
    assert_eq!(text, expected);
    let odd_days = vec![CalendarDate { year: 2023, month: 2, day: 30 }];
    let failed = shift_reports::efficiency_csv::efficiency_report(
        &schedules,
        &invoices,
        &odd_days,
        &"A".to_string(),
        &percentages,
        "t",
    );
    assert_eq!(failed, Err(shift_reports::efficiency_csv::ReportError::UnprintableDay));
}

#[test]
fn consolidated_report_needs_printable_times() {
    let mut odd = schedule(1, "Bob", "S2", "Pickup", at(3, 1, 10));
    odd.end_date.date.month = 13;
    assert!(report_line(&odd).is_none());
    let rows = vec![schedule(2, "Bob", "S3", "Pickup", at(3, 1, 10)), odd];
    assert!(report_lines(&rows).is_none());
    assert_eq!(generate_consolidated_report(&rows), None);
}

#[test]
fn report_lines_carry_a_lower_case_key() {
    let line = report_line(&schedule(1, "Bob ÄB", "S2", "Pickup", at(3, 1, 10))).unwrap();
    let key: String = line.key.iter().collect();
    assert_eq!(key, "2024-03-01-bob äb-10:00:00");
    assert_eq!(line.start_text, "2024-03-01 10:00:00");
    assert_eq!(line.end_text, "2024-03-01 11:00:00");
}

#[test]
fn line_feeds_inside_a_summary_line_are_removed() {
    let schedules = vec![
        schedule(1, "Bo\nb", "S\n2", "Pickup", at(3, 1, 10)),
        schedule(2, "Bo\nb", "S3", "Pickup", at(3, 1, 11)),
        schedule(3, "Bo\nb", "S4", "Pickup", at(3, 1, 12)),
    ];
    let text = generate_consolidated_report(&schedules).unwrap();
    let expected = "Teacher,Shift,Shift Type,Start Date,End Date,,,,Teacher,Scheduled,Picked Up,Dropped\n\
                    Bob,S2,Pickup,2024-03-01 10:00:00,2024-03-01 11:00:00,,,,Bo\nb,3,3,0\n\
                    Bob,S3,Pickup,2024-03-01 11:00:00,2024-03-01 12:00:00,,,,Total,3,3,0\n\
                    Bo\nb,S4,Pickup,2024-03-01 12:00:00,2024-03-01 13:00:00,,,,\n";
    assert_eq!(text, expected);
}
