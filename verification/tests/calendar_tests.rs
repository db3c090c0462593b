use shift_reports::calendar::{
    billing_instant, leap_year, month_length, parse, reporting_day, roster_day, roster_instant,
    timestamp_from_fields, CalendarDate, DateFormat, MalformedDate, Timestamp,
};

fn at(year: i32, month: u32, day: u32, hour: u32, minute: u32, second: u32) -> Timestamp {
    Timestamp { date: CalendarDate { year, month, day }, hour, minute, second }
}

#[test]
fn parse_reads_each_format() {
    assert_eq!(parse("05/09/2015", DateFormat::DateOnly), Ok(at(2015, 9, 5, 0, 0, 0)));
    assert_eq!(parse("05/09/2015 23:56:04", DateFormat::Seconds24), Ok(at(2015, 9, 5, 23, 56, 4)));
    assert_eq!(parse("05/09/2015 23:56", DateFormat::Minutes24), Ok(at(2015, 9, 5, 23, 56, 0)));
    assert_eq!(parse("05/09/2015 11:56 PM", DateFormat::Period12), Ok(at(2015, 9, 5, 23, 56, 0)));
    assert_eq!(parse("05/09/2015 12:05 AM", DateFormat::Period12), Ok(at(2015, 9, 5, 0, 5, 0)));
    assert_eq!(
        parse("2015-09-05 23:56:04", DateFormat::IsoSeconds24),
        Ok(at(2015, 9, 5, 23, 56, 4))
    );
}

#[test]
fn parse_rejects_month_out_of_range() {
    assert_eq!(parse("05/13/2015", DateFormat::DateOnly), Err(MalformedDate {}));
    assert_eq!(parse("05/13/2015 10:00:00", DateFormat::Seconds24), Err(MalformedDate {}));
}

#[test]
fn parse_rejects_wrong_separator_and_short_text() {
    assert_eq!(parse("05-09-2015", DateFormat::DateOnly), Err(MalformedDate {}));
    assert_eq!(parse("05/09", DateFormat::DateOnly), Err(MalformedDate {}));
    assert_eq!(parse("", DateFormat::DateOnly), Err(MalformedDate {}));
    assert_eq!(parse("05/09/2015 25:00", DateFormat::Minutes24), Err(MalformedDate {}));
    assert_eq!(parse("31/02/2015", DateFormat::DateOnly), Err(MalformedDate {}));
}

#[test]
fn parse_is_not_the_identity_on_its_text() {
    let read = parse("01/02/2003 04:05:06", DateFormat::Seconds24).unwrap();
    assert_eq!(read.date.day, 1);
    assert_eq!(read.date.month, 2);
    assert_eq!(read.date.year, 2003);
    assert_eq!((read.hour, read.minute, read.second), (4, 5, 6));
}

#[test]
fn same_calendar_day_ignores_the_time() {
    let morning = at(2024, 3, 1, 8, 0, 0);
    let evening = at(2024, 3, 1, 22, 30, 0);
    let next = at(2024, 3, 2, 8, 0, 0);
    assert!(morning.same_calendar_day(&evening));
    assert!(!morning.same_calendar_day(&next));
    assert!(!at(2024, 3, 1, 0, 0, 0).same_calendar_day(&at(2023, 3, 1, 0, 0, 0)));
    assert!(!at(2024, 3, 1, 0, 0, 0).same_calendar_day(&at(2024, 4, 1, 0, 0, 0)));
}

#[test]
fn roster_day_swaps_month_and_day() {
    assert_eq!(roster_day("3/1/2024 9:00 AM"), Ok(at(2024, 3, 1, 0, 0, 0)));
    assert_eq!(roster_day("12/31/2023"), Ok(at(2023, 12, 31, 0, 0, 0)));
    assert_eq!(roster_day("13/1/2024 9:00 AM"), Err(MalformedDate {}));
    assert_eq!(roster_day("3/1"), Err(MalformedDate {}));
    assert_eq!(roster_day(""), Err(MalformedDate {}));
}

#[test]
fn roster_instant_reads_the_twelve_hour_clock() {
    assert_eq!(roster_instant("3/1/2024 9:00 AM"), Ok(at(2024, 3, 1, 9, 0, 0)));
    assert_eq!(roster_instant("3/1/2024 9:15 PM"), Ok(at(2024, 3, 1, 21, 15, 0)));
    assert_eq!(roster_instant("3/1/2024 9:15"), Err(MalformedDate {}));
    assert_eq!(roster_instant("3/1/2024"), Err(MalformedDate {}));
    assert_eq!(roster_instant("3/1/2024 915 PM"), Err(MalformedDate {}));
}

#[test]
fn billing_instant_reads_the_twenty_four_hour_clock() {
    assert_eq!(billing_instant("3/1/2024 14:30"), Ok(at(2024, 3, 1, 14, 30, 0)));
    assert_eq!(billing_instant("3/1/2024 14:30:59"), Ok(at(2024, 3, 1, 14, 30, 0)));
    assert_eq!(billing_instant("3/1/2024"), Err(MalformedDate {}));
    assert_eq!(billing_instant("3/1/2024 1430"), Err(MalformedDate {}));
}

#[test]
fn reporting_day_rejects_other_shapes() {
    assert_eq!(reporting_day("2024-03"), Err(MalformedDate {}));
    assert_eq!(reporting_day("2024-13-01"), Err(MalformedDate {}));
    assert_eq!(reporting_day("2024/03/01"), Err(MalformedDate {}));
}

#[test]
fn timestamp_from_fields_checks_the_calendar() {
    assert_eq!(timestamp_from_fields(None), Err(MalformedDate {}));
    assert_eq!(timestamp_from_fields(Some((2024, 2, 29, 1, 2, 3))), Ok(at(2024, 2, 29, 1, 2, 3)));
    assert_eq!(timestamp_from_fields(Some((2023, 2, 29, 1, 2, 3))), Err(MalformedDate {}));
    assert_eq!(timestamp_from_fields(Some((2023, 0, 1, 1, 2, 3))), Err(MalformedDate {}));
    assert_eq!(timestamp_from_fields(Some((2023, 13, 1, 1, 2, 3))), Err(MalformedDate {}));
    assert_eq!(timestamp_from_fields(Some((2023, 4, 31, 1, 2, 3))), Err(MalformedDate {}));
    assert_eq!(timestamp_from_fields(Some((2023, 4, 30, 24, 0, 0))), Err(MalformedDate {}));
    assert_eq!(timestamp_from_fields(Some((2023, 4, 30, 23, 60, 0))), Err(MalformedDate {}));
    assert_eq!(timestamp_from_fields(Some((2023, 4, 30, 23, 59, 60))), Err(MalformedDate {}));
}

#[test]
fn leap_years_follow_the_gregorian_rule() {
    assert!(leap_year(2024));
    assert!(leap_year(2000));
    assert!(!leap_year(1900));
    assert!(!leap_year(2023));
    assert!(leap_year(-4));
    assert!(leap_year(0));
    assert!(!leap_year(-1));
    assert_eq!(month_length(2024, 2), 29);
    assert_eq!(month_length(2023, 2), 28);
    assert_eq!(month_length(2023, 4), 30);
    assert_eq!(month_length(2023, 12), 31);
}

#[test]
fn next_day_crosses_months_and_years() {
    let d = |year, month, day| CalendarDate { year, month, day };
    assert_eq!(d(2024, 2, 28).next_day(), Some(d(2024, 2, 29)));
    assert_eq!(d(2024, 2, 29).next_day(), Some(d(2024, 3, 1)));
    assert_eq!(d(2023, 2, 28).next_day(), Some(d(2023, 3, 1)));
    assert_eq!(d(2023, 12, 31).next_day(), Some(d(2024, 1, 1)));
    assert_eq!(d(i32::MAX, 12, 31).next_day(), None);
    assert!(d(2023, 12, 31).is_not_after(&d(2024, 1, 1)));
    assert!(d(2024, 1, 1).is_not_after(&d(2024, 1, 1)));
    assert!(!d(2024, 1, 2).is_not_after(&d(2024, 1, 1)));
}

#[test]
fn timestamps_compare_by_time() {
    assert!(at(2024, 3, 1, 9, 0, 0).is_not_after(&at(2024, 3, 1, 9, 0, 0)));
    assert!(at(2024, 3, 1, 9, 0, 0).is_not_after(&at(2024, 3, 1, 9, 0, 1)));
    assert!(!at(2024, 3, 1, 9, 1, 0).is_not_after(&at(2024, 3, 1, 9, 0, 59)));
    assert!(at(2023, 12, 31, 23, 59, 59).is_not_after(&at(2024, 1, 1, 0, 0, 0)));
}

#[test]
fn days_are_printed_with_padded_years() {
    let text = |year: i32, month: u32, day: u32| CalendarDate { year, month, day }.to_text();
    assert_eq!(text(2024, 2, 29), Some("2024-02-29".to_string()));
    assert_eq!(text(0, 1, 1), Some("0000-01-01".to_string()));
    assert_eq!(text(7, 12, 31), Some("0007-12-31".to_string()));
    assert_eq!(text(9999, 12, 31), Some("9999-12-31".to_string()));
    assert_eq!(text(10000, 1, 1), Some("+10000-01-01".to_string()));
    assert_eq!(text(262142, 12, 31), Some("+262142-12-31".to_string()));
    assert_eq!(text(-1, 1, 1), Some("-0001-01-01".to_string()));
    assert_eq!(text(-4, 2, 29), Some("-0004-02-29".to_string()));
    assert_eq!(text(-9999, 3, 4), Some("-9999-03-04".to_string()));
    assert_eq!(text(-10000, 3, 4), Some("-10000-03-04".to_string()));
    assert_eq!(text(-262143, 1, 1), Some("-262143-01-01".to_string()));
    assert_eq!(text(262143, 1, 1), None);
    assert_eq!(text(-262144, 12, 31), None);
    assert_eq!(text(2023, 2, 29), None);
    assert_eq!(text(1900, 2, 29), None);
    assert_eq!(text(2000, 2, 29), Some("2000-02-29".to_string()));
    assert_eq!(text(2023, 4, 31), None);
    assert_eq!(text(2023, 0, 1), None);
    assert_eq!(text(2023, 13, 1), None);
    assert_eq!(text(2023, 1, 0), None);
    assert_eq!(text(2023, 1, 32), None);
}

#[test]
fn times_are_printed_in_two_digits() {
    let text = |hour: u32, minute: u32, second: u32| {
        Timestamp { date: CalendarDate { year: 2024, month: 1, day: 1 }, hour, minute, second }
            .time_to_text()
    };
    assert_eq!(text(0, 0, 0), Some("00:00:00".to_string()));
    assert_eq!(text(9, 5, 7), Some("09:05:07".to_string()));
    assert_eq!(text(23, 59, 59), Some("23:59:59".to_string()));
    assert_eq!(text(24, 0, 0), None);
    assert_eq!(text(0, 60, 0), None);
    assert_eq!(text(0, 0, 60), None);
    assert_eq!(at(-5, 1, 2, 3, 4, 5).to_text(), Some("-0005-01-02 03:04:05".to_string()));
}

#[test]
fn well_formed_dates_are_recognised() {
    assert!(CalendarDate { year: 2024, month: 2, day: 29 }.is_well_formed());
    assert!(!CalendarDate { year: 2023, month: 2, day: 29 }.is_well_formed());
    assert!(!CalendarDate { year: 2023, month: 0, day: 1 }.is_well_formed());
    assert!(!CalendarDate { year: 2023, month: 13, day: 1 }.is_well_formed());
    assert!(!CalendarDate { year: 2023, month: 6, day: 0 }.is_well_formed());
    assert!(!CalendarDate { year: 2023, month: 6, day: 31 }.is_well_formed());
    assert!(at(2024, 3, 1, 23, 59, 59).is_well_formed());
    assert!(!at(2024, 3, 1, 24, 0, 0).is_well_formed());
    assert!(!at(2024, 3, 1, 0, 60, 0).is_well_formed());
    assert!(!at(2024, 3, 1, 0, 0, 60).is_well_formed());
    assert!(!at(2024, 2, 30, 0, 0, 0).is_well_formed());
}
