use shift_reports::calendar::reporting_day;
use shift_reports::roster::{map_roster_sheet, snapshot_for_day, DialogueRow, TemplateLayout};

fn line(cells: [&str; 7]) -> Vec<String> {
    cells.iter().map(|c| c.to_string()).collect()
}

fn no_frame() -> TemplateLayout {
    TemplateLayout { header_rows: 0, footer_rows: 0 }
}

#[test]
fn blank_shift_group_takes_the_value_above() {
    let grid = vec![
        line(["Math-AM", "Alice", "", "", "3/1/2024 9:00 AM", "3/1/2024 10:00 AM", "S1"]),
        line(["", "Bob", "", "", "3/1/2024 10:00 AM", "3/1/2024 11:00 AM", "S2"]),
        line(["", "", "", "", "", "", "S3"]),
    ];
    let sheet = map_roster_sheet(&grid, no_frame());
    assert_eq!(sheet.missing_column, 0);
    assert_eq!(sheet.rows.len(), 3);
    assert_eq!(sheet.rows[0].shift_group, "Math-AM");
    assert_eq!(sheet.rows[1].shift_group, "Math-AM");
    assert_eq!(sheet.rows[2].shift_group, "Math-AM");
    assert_eq!(sheet.rows[1].teacher_name, "Bob");
    assert_eq!(sheet.rows[2].teacher_name, "Bob");
    assert_eq!(sheet.rows[2].start_date, "3/1/2024 10:00 AM");
    assert_eq!(sheet.rows[2].end_date, "3/1/2024 11:00 AM");
    assert_eq!(sheet.rows[2].shift, "S3");
}

#[test]
fn columns_are_bound_by_position() {
    let grid = vec![line(["G", "T", "x", "y", "START", "END", "SHIFT"])];
    let sheet = map_roster_sheet(&grid, no_frame());
    assert_eq!(sheet.rows.len(), 1);
    assert_eq!(sheet.rows[0].shift_group, "G");
    assert_eq!(sheet.rows[0].teacher_name, "T");
    assert_eq!(sheet.rows[0].start_date, "START");
    assert_eq!(sheet.rows[0].end_date, "END");
    assert_eq!(sheet.rows[0].shift, "SHIFT");
}

#[test]
fn title_and_summary_blocks_are_left_out() {
    let mut grid: Vec<Vec<String>> = Vec::new();
    for i in 0..10 {
        grid.push(line([&format!("title {}", i), "t", "", "", "1/1/2024", "1/1/2024", "T"]));
    }
    grid.push(line(["A", "Alice", "", "", "3/1/2024 9:00 AM", "3/1/2024 10:00 AM", "S1"]));
    grid.push(line(["", "", "", "", "", "", "S2"]));
    for i in 0..3 {
        grid.push(line([&format!("sum {}", i), "s", "", "", "1/1/2024", "1/1/2024", "F"]));
    }
    let sheet = map_roster_sheet(&grid, TemplateLayout::roster_export());
    assert_eq!(sheet.rows.len(), 2);
    assert_eq!(sheet.rows[0].shift, "S1");
    assert_eq!(sheet.rows[1].shift, "S2");
    assert_eq!(sheet.rows[1].shift_group, "A");
    assert_eq!(sheet.rows[1].teacher_name, "Alice");
}

#[test]
fn sheet_shorter_than_its_frame_gives_nothing() {
    let grid = vec![line(["A", "Alice", "", "", "3/1/2024", "3/1/2024", "S1"]); 12];
    let sheet = map_roster_sheet(&grid, TemplateLayout::roster_export());
    assert!(sheet.rows.is_empty());
    assert_eq!(sheet.missing_column, 0);
    let exact = vec![line(["A", "Alice", "", "", "3/1/2024", "3/1/2024", "S1"]); 13];
    assert!(map_roster_sheet(&exact, TemplateLayout::roster_export()).rows.is_empty());
    let one = vec![line(["A", "Alice", "", "", "3/1/2024", "3/1/2024", "S1"]); 14];
    assert_eq!(map_roster_sheet(&one, TemplateLayout::roster_export()).rows.len(), 1);
}

#[test]
fn short_lines_are_counted_and_do_not_touch_the_state() {
    let grid = vec![
        line(["A", "Alice", "", "", "3/1/2024 9:00 AM", "3/1/2024 10:00 AM", "S1"]),
        vec!["B".to_string(), "Zed".to_string()],
        line(["", "", "", "", "", "", "S2"]),
    ];
    let sheet = map_roster_sheet(&grid, no_frame());
    assert_eq!(sheet.missing_column, 1);
    assert_eq!(sheet.rows.len(), 2);
    assert_eq!(sheet.rows[1].shift_group, "A");
    assert_eq!(sheet.rows[1].teacher_name, "Alice");
}

#[test]
fn leading_blank_cells_stay_blank() {
    let grid = vec![line(["", "", "", "", "", "", ""])];
    let sheet = map_roster_sheet(&grid, no_frame());
    assert_eq!(sheet.rows.len(), 1);
    assert_eq!(sheet.rows[0].shift_group, "");
    assert_eq!(sheet.rows[0].shift, "");
}

fn row(group: &str, shift: &str, teacher: &str, start: &str, end: &str) -> DialogueRow {
    DialogueRow {
        shift_group: group.to_string(),
        shift: shift.to_string(),
        teacher_name: teacher.to_string(),
        start_date: start.to_string(),
        end_date: end.to_string(),
    }
}

#[test]
fn snapshot_keeps_rows_that_start_or_end_on_the_day() {
    let rows = vec![
        row("A", "S1", "Alice", "3/1/2024 9:00 AM", "3/1/2024 10:00 AM"),
        row("A", "S2", "Alice", "2/29/2024 11:00 PM", "3/1/2024 1:00 AM"),
        row("A", "S3", "Alice", "3/1/2024 11:00 PM", "3/2/2024 1:00 AM"),
        row("A", "S4", "Alice", "3/2/2024 9:00 AM", "3/2/2024 10:00 AM"),
        row("A", "S5", "Alice", "oops", "3/1/2024 10:00 AM"),
        row("A", "S6", "Alice", "3/1/2024 9:00 AM", ""),
    ];
    let day = reporting_day("2024-03-01").unwrap();
    let kept = snapshot_for_day(&rows, &day);
    let shifts: Vec<&str> = kept.iter().map(|r| r.shift.as_str()).collect();
    assert_eq!(shifts, vec!["S1", "S2", "S3"]);
}
