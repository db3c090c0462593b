use shift_reports::billing::{
    clean_export, collapse_line_breaks, map_billing_records, map_billing_row, read_billing_export,
    InvoicingParser, RowFault,
};
use shift_reports::text::text_is;
use shift_reports::calendar::{reporting_day, CalendarDate, Timestamp};

fn at(year: i32, month: u32, day: u32, hour: u32, minute: u32) -> Timestamp {
    Timestamp { date: CalendarDate { year, month, day }, hour, minute, second: 0 }
}

fn record(teacher: &str, status: &str, start: &str, end: &str, shift: &str) -> Vec<String> {
    vec!["a", "b", "c", "d", teacher, status, "g", start, end, shift]
        .into_iter()
        .map(|s| s.to_string())
        .collect()
}

#[test]
fn parser_drops_nul_bytes_and_turns_tabs_into_commas() {
    let raw = [b'a', 0, b'\t', 0, b'b', b'\n', 0, b'c', 0xe9];
    assert_eq!(InvoicingParser::parse_invoicing_file(&raw), "a,b\nc\u{e9}");
    assert_eq!(InvoicingParser::parse_invoicing_file(&[]), "");
    assert_eq!(InvoicingParser::parse_invoicing_file(&[0, 0]), "");
}

#[test]
fn fields_are_cleaned_onto_lines_of_their_own() {
    let records = vec![
        vec![vec![b'a', 0, b'\t', b'b'], vec![b'c', b'\n', b'd']],
        vec![vec![]],
        vec![vec![0xe9]],
    ];
    let cleaned: String = clean_export(&records).into_iter().collect();
    assert_eq!(cleaned, "a,b\ncd\n\n\u{e9}\n");
    assert!(clean_export(&Vec::new()).is_empty());
}

#[test]
fn doubled_line_breaks_are_collapsed_from_the_left() {
    let collapse = |s: &str| -> String {
        collapse_line_breaks(&s.chars().collect()).into_iter().collect()
    };
    assert_eq!(collapse("a\n\nb"), "a\nb");
    assert_eq!(collapse("a\n\n\nb"), "a\n\nb");
    assert_eq!(collapse("a\n\n\n\nb"), "a\n\nb");
    assert_eq!(collapse("\n\n"), "\n");
    assert_eq!(collapse("\n"), "\n");
    assert_eq!(collapse(""), "");
    assert_eq!(collapse("ab\n"), "ab\n");
}

#[test]
fn record_is_bound_by_column() {
    let row = map_billing_row(&record("Dana", "Eligible", "3/1/2024 9:00", "3/1/2024 10:30", "S1"))
        .unwrap();
    assert_eq!(row.teacher_name, "Dana");
    assert!(row.eligible);
    assert_eq!(row.activity_start, at(2024, 3, 1, 9, 0));
    assert_eq!(row.activity_end, at(2024, 3, 1, 10, 30));
    assert_eq!(row.shift, "S1");
    let other = map_billing_row(&record("Dana", "eligible", "3/1/2024 9:00", "3/1/2024 10:30", "S1"))
        .unwrap();
    assert!(!other.eligible);
    let none = map_billing_row(&record("Dana", "", "3/1/2024 9:00", "3/1/2024 10:30", "S1")).unwrap();
    assert!(!none.eligible);
}

#[test]
fn short_record_misses_a_column() {
    let mut fields = record("Dana", "Eligible", "3/1/2024 9:00", "3/1/2024 10:30", "S1");
    fields.pop();
    assert_eq!(map_billing_row(&fields).err(), Some(RowFault::MissingColumn));
    assert_eq!(map_billing_row(&Vec::new()).err(), Some(RowFault::MissingColumn));
}

#[test]
fn unreadable_date_is_a_fault_of_its_own() {
    let bad_start = record("Dana", "Eligible", "soon", "3/1/2024 10:30", "S1");
    assert_eq!(map_billing_row(&bad_start).err(), Some(RowFault::MalformedDate));
    let bad_end = record("Dana", "Eligible", "3/1/2024 9:00", "13/1/2024 10:30", "S1");
    assert_eq!(map_billing_row(&bad_end).err(), Some(RowFault::MalformedDate));
}

#[test]
fn records_are_filtered_by_day_and_counted_by_fault() {
    let day = reporting_day("2024-03-01").unwrap();
    let records = vec![
        Some(record("Dana", "Eligible", "3/1/2024 9:00", "3/1/2024 10:30", "S1")),
        None,
        Some(Vec::new()),
        Some(record("Eve", "No", "3/2/2024 9:00", "3/2/2024 10:30", "S2")),
        Some(vec!["short".to_string()]),
        Some(record("Fay", "Eligible", "never", "3/1/2024 10:30", "S3")),
        Some(record("Gus", "Not eligible", "3/1/2024 23:59", "3/2/2024 0:30", "S4")),
    ];
    let sheet = map_billing_records(&records, &day);
    let names: Vec<&str> = sheet.rows.iter().map(|r| r.teacher_name.as_str()).collect();
    assert_eq!(names, vec!["Dana", "Gus"]);
    assert_eq!(sheet.missing_column, 1);
    assert_eq!(sheet.malformed_date, 1);
}

#[test]
fn export_is_read_twice_and_each_reading_takes_a_header() {
    let text = "h0\th1\th2\th3\th4\th5\th6\th7\th8\th9\n\
                x\tx\tx\tx\tHead\tEligible\tx\t3/1/2024 1:00\t3/1/2024 2:00\tS0\n\
                x\tx\tx\tx\tDana\tEligible\tx\t3/1/2024 9:00\t3/1/2024 10:30\tS1\n\
                x\tx\tx\tx\tEve\tVoid\tx\t3/1/2024 11:00\t3/1/2024 12:00\tS2\n\
                x\tx\tx\tx\tFay\tEligible\tx\t3/2/2024 9:00\t3/2/2024 10:00\tS3\n";
    let mut raw: Vec<u8> = Vec::new();
    for b in text.bytes() {
        raw.push(b);
        raw.push(0);
    }
    let day = reporting_day("2024-03-01").unwrap();
    let sheet = read_billing_export(&raw, &day).unwrap();
    let seen: Vec<(&str, bool, &str)> = sheet
        .rows
        .iter()
        .map(|r| (r.teacher_name.as_str(), r.eligible, r.shift.as_str()))
        .collect();
    assert_eq!(seen, vec![("Dana", true, "S1"), ("Eve", false, "S2")]);
    assert_eq!(sheet.rows[0].activity_start, at(2024, 3, 1, 9, 0));
    assert_eq!(sheet.missing_column, 0);
    assert_eq!(sheet.malformed_date, 0);
}

#[test]
fn export_with_uneven_records_cannot_be_read() {
    let day = reporting_day("2024-03-01").unwrap();
    assert!(read_billing_export(b"a,b\nc,d\ne\n", &day).is_none());
    let empty = read_billing_export(b"", &day).unwrap();
    assert!(empty.rows.is_empty());
}

#[test]
fn text_is_compares_whole_texts() {
    assert!(text_is(&"Eligible".to_string(), "Eligible"));
    assert!(!text_is(&"Eligible ".to_string(), "Eligible"));
    assert!(!text_is(&"".to_string(), "Eligible"));
}
