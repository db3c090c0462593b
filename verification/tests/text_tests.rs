use shift_reports::calendar::{CalendarDate, Timestamp};
use shift_reports::schedule::Schedule;
use shift_reports::requests::{
    get_schedules, get_shift_groups, Config, ConfigError, GetSchedulesParams, RangeError, StagedFile,
    UploadAndProcessQuery,
};
use shift_reports::text::{chars_of, distinct_texts, holds_text, split, text_of, text_precedes};

fn chars(s: &str) -> Vec<char> {
    s.chars().collect()
}

#[test]
fn text_round_trips_through_characters() {
    assert_eq!(chars_of("día 1"), vec!['d', 'í', 'a', ' ', '1']);
    assert_eq!(text_of(&chars("día 1")), "día 1");
    assert!(chars_of("").is_empty());
}

#[test]
fn split_yields_one_segment_more_than_separators() {
    let pieces = |s: &str| -> Vec<String> {
        split(&chars(s), '/').into_iter().map(|p| p.into_iter().collect()).collect()
    };
    assert_eq!(pieces("3/1/2024"), vec!["3", "1", "2024"]);
    assert_eq!(pieces(""), vec![""]);
    assert_eq!(pieces("/"), vec!["", ""]);
    assert_eq!(pieces("a//b/"), vec!["a", "", "b", ""]);
    assert_eq!(pieces("abc"), vec!["abc"]);
}

#[test]
fn lexical_order_is_by_code_point() {
    let le = |a: &str, b: &str| text_precedes(&chars(a), &chars(b));
    assert!(le("", ""));
    assert!(le("", "a"));
    assert!(!le("a", ""));
    assert!(le("Alice", "Bob"));
    assert!(le("Bob", "alice"));
    assert!(!le("alice", "Bob"));
    assert!(le("ab", "abc"));
    assert!(!le("abc", "ab"));
    assert!(le("abc", "abc"));
    assert!(le("z", "é"));
    for (a, b) in [("Alice", "Bob"), ("Bob", "alice"), ("ab", "abc"), ("z", "é"), ("", "a")] {
        assert_eq!(le(a, b), a <= b);
        assert_eq!(le(b, a), b <= a);
    }
}

#[test]
fn distinct_keeps_first_occurrences() {
    let values: Vec<String> = ["b", "a", "b", "c", "a"].iter().map(|s| s.to_string()).collect();
    assert_eq!(distinct_texts(&values), vec!["b", "a", "c"]);
    assert!(holds_text(&values, &"c".to_string()));
    assert!(!holds_text(&values, &"d".to_string()));
    let groups = get_shift_groups(&values);
    let names: Vec<&str> = groups.iter().map(|g| g.shift_group.as_str()).collect();
    assert_eq!(names, vec!["b", "a", "c"]);
}

#[test]
fn configuration_needs_the_environment_and_the_database() {
    assert_eq!(
        Config::init(false, Some("postgres://x".to_string())).err(),
        Some(ConfigError::EnvironmentNotLoaded)
    );
    assert_eq!(Config::init(false, None).err(), Some(ConfigError::EnvironmentNotLoaded));
    assert_eq!(Config::init(true, None).err(), Some(ConfigError::DatabaseUrlMissing));
    let config = Config::init(true, Some("postgres://x".to_string())).unwrap();
    assert_eq!(config.database_url, "postgres://x");
}

#[test]
fn uploads_are_staged_under_their_day() {
    let query = UploadAndProcessQuery { date: "2024-03-01".to_string() };
    assert_eq!(query.staging_directory(), "temp/2024-03-01");
    assert_eq!(query.staged_path("notes.txt"), "temp/2024-03-01/notes.txt");
    assert_eq!(query.staged_file(StagedFile::FirstRoster), "temp/2024-03-01/dialogue-1.xlsx");
    assert_eq!(query.staged_file(StagedFile::SecondRoster), "temp/2024-03-01/dialogue-2.xlsx");
    assert_eq!(query.staged_file(StagedFile::BillingExport), "temp/2024-03-01/invoicing-report.csv");
    let day = query.reporting_day().unwrap();
    assert_eq!((day.date.year, day.date.month, day.date.day), (2024, 3, 1));
    assert!(UploadAndProcessQuery { date: "today".to_string() }.reporting_day().is_err());
}

#[test]
fn schedule_listing_comes_by_teacher_and_start() {
    let at = |day: u32, hour: u32| Timestamp {
        date: CalendarDate { year: 2024, month: 3, day },
        hour,
        minute: 0,
        second: 0,
    };
    let row = |id: i32, teacher: &str, group: &str, start: Timestamp| Schedule {
        id,
        start_date: start,
        end_date: start,
        teacher_name: teacher.to_string(),
        shift_group: group.to_string(),
        shift: "S".to_string(),
        shift_type: "-".to_string(),
    };
    let stored = vec![
        row(1, "b", "A", at(1, 9)),
        row(2, "a", "A", at(2, 9)),
        row(3, "a", "A", at(1, 12)),
        row(4, "a", "B", at(1, 9)),
        row(5, "b", "A", at(1, 8)),
        row(6, "a", "A", at(3, 0)),
        row(7, "a", "A", at(1, 12)),
        row(8, "B", "A", at(2, 23)),
    ];
    let params = GetSchedulesParams {
        start_date: "2024-03-01 00:00:00".to_string(),
        end_date: "2024-03-02 23:00:00".to_string(),
        shift_group: "A".to_string(),
    };
    let listed = get_schedules(&params, &stored).unwrap();
    let ids: Vec<i32> = listed.iter().map(|s| s.id).collect();
    assert_eq!(ids, vec![8, 3, 7, 2, 5, 1]);
}

#[test]
fn schedule_listing_reads_both_bounds() {
    let params = |start: &str, end: &str| GetSchedulesParams {
        start_date: start.to_string(),
        end_date: end.to_string(),
        shift_group: "A".to_string(),
    };
    let (from, to) = params("2024-03-01 00:00:00", "2024-03-02 23:59:59").range().unwrap();
    assert_eq!((from.date.day, from.hour), (1, 0));
    assert_eq!((to.date.day, to.hour, to.minute, to.second), (2, 23, 59, 59));
    assert_eq!(params("2024-03-01", "2024-03-02 23:59:59").range().err(), Some(RangeError::StartDate));
    assert_eq!(params("2024-03-01 00:00:00", "soon").range().err(), Some(RangeError::EndDate));
    assert_eq!(params("x", "y").range().err(), Some(RangeError::StartDate));
    assert_eq!(RangeError::StartDate.message(), "Error parsing start_date");
    assert!(get_schedules(&params("x", "2024-03-02 23:59:59"), &Vec::new()).is_err());
    assert!(get_schedules(&params("2024-03-01 00:00:00", "2024-03-02 23:59:59"), &Vec::new())
        .unwrap()
        .is_empty());
    assert_eq!(RangeError::EndDate.message(), "Error parsing end_date");
}
