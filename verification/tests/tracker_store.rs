use jired::error::Error;
use jired::timefmt::Date;
use jired::tracker::Tracker;

fn day() -> Date {
    Date::new(2024, 1, 1).unwrap()
}

fn tracker_with(log: &str, current: &str) -> Tracker {
    Tracker::with_contents(
        "/tmp/jired/2024-01-01.jj".to_string(),
        day(),
        330,
        log.to_string(),
        current.to_string(),
    )
}

#[test]
fn test_create_entry_writes_to_file() {
    let mut tracker = tracker_with("", "");
    tracker
        .create_entry(
            &"proj".to_string(),
            &"PROJ-3".to_string(),
            "1234".to_string(),
            "1130".to_string(),
            "Task title".to_string(),
        )
        .unwrap();
    assert_eq!(tracker.log.trim(), "proj PROJ-3 1234 1130 \"Task title\"");
}

#[test]
fn open_writes_only_to_current() {
    let mut tracker = tracker_with("", "");
    tracker
        .open(
            &"PROJ".to_string(),
            &"T-1".to_string(),
            "Fix bug".to_string(),
            "0900".to_string(),
        )
        .unwrap();
    assert_eq!(tracker.log, "");
    assert_eq!(tracker.current, "PROJ T-1 -1 0900 \"Fix bug\"\n");
}

#[test]
fn open_then_close_end_to_end() {
    let mut tracker = tracker_with("", "");
    tracker
        .open(
            &"PROJ".to_string(),
            &"T-1".to_string(),
            "Fix bug".to_string(),
            "0900".to_string(),
        )
        .unwrap();
    tracker.close("1700".to_string()).unwrap();
    assert_eq!(tracker.log, "PROJ T-1 1700 0900 \"Fix bug\"\n");
    assert_eq!(tracker.current, "");
    let entries = tracker.read_day().unwrap();
    assert_eq!(entries.len(), 1);
    assert_eq!(entries[0].project_code, "PROJ");
    assert_eq!(entries[0].task_id, "T-1");
    assert_eq!(entries[0].end, "1700");
    assert_eq!(entries[0].start, "0900");
    assert_eq!(entries[0].title, "Fix bug");
}

#[test]
fn close_on_empty_current_is_a_no_op() {
    let mut tracker = tracker_with("prior T-0 1000 0900 \"done\"\n", "");
    tracker.close("-1".to_string()).unwrap();
    assert_eq!(tracker.log, "prior T-0 1000 0900 \"done\"\n");
    assert_eq!(tracker.current, "");
}

#[test]
fn close_on_malformed_current_is_a_no_op() {
    let mut tracker = tracker_with("prior T-0 1000 0900 \"done\"\n", "garbage");
    tracker.close("-1".to_string()).unwrap();
    assert_eq!(tracker.log, "prior T-0 1000 0900 \"done\"\n");
}

#[test]
fn close_before_start_fails_validation() {
    let mut tracker = tracker_with("", "");
    tracker
        .open(
            &"PROJ".to_string(),
            &"T-1".to_string(),
            "work".to_string(),
            "1200".to_string(),
        )
        .unwrap();
    let err = tracker.close("1100".to_string()).unwrap_err();
    assert!(matches!(err, Error::ValidationError(_)));
    assert_eq!(tracker.log, "");
    assert_eq!(tracker.current, "PROJ T-1 -1 1200 \"work\"\n");
}

#[test]
fn create_entry_rejects_end_before_start() {
    let mut tracker = tracker_with("", "");
    let err = tracker
        .create_entry(
            &"p".to_string(),
            &"t".to_string(),
            "1100".to_string(),
            "1200".to_string(),
            "x".to_string(),
        )
        .unwrap_err();
    assert!(matches!(err, Error::ValidationError(_)));
    assert_eq!(tracker.log, "");
}

#[test]
fn a_zero_length_interval_is_allowed() {
    let mut tracker = tracker_with("", "");
    tracker
        .open(
            &"P".to_string(),
            &"T".to_string(),
            "quick".to_string(),
            "0900".to_string(),
        )
        .unwrap();
    tracker.close("0900".to_string()).unwrap();
    assert_eq!(tracker.log, "P T 0900 0900 \"quick\"\n");
    assert_eq!(tracker.current, "");
}

#[test]
fn sentinel_end_bypasses_validation() {
    let mut tracker = tracker_with("", "");
    tracker
        .create_entry(
            &"p".to_string(),
            &"t".to_string(),
            "-1".to_string(),
            "2359".to_string(),
            "late".to_string(),
        )
        .unwrap();
    assert_eq!(tracker.current, "p t -1 2359 \"late\"\n");
}

#[test]
fn title_with_spaces_and_quotes_round_trips() {
    let mut tracker = tracker_with("", "");
    let title = "say \"hi\" and a \\ backslash";
    tracker
        .create_entry(
            &"proj".to_string(),
            &"T-9".to_string(),
            "1500".to_string(),
            "1400".to_string(),
            title.to_string(),
        )
        .unwrap();
    let entries = tracker.read_day().unwrap();
    assert_eq!(entries.len(), 1);
    assert_eq!(entries[0].title, title);
    assert_eq!(entries[0].project_code, "proj");
    assert_eq!(entries[0].task_id, "T-9");
    assert_eq!(entries[0].end, "1500");
    assert_eq!(entries[0].start, "1400");
}

#[test]
fn read_day_surfaces_log_corruption() {
    let tracker = tracker_with("only three tokens\n", "");
    let err = tracker.read_day().unwrap_err();
    assert!(matches!(err, Error::ParseError(_)));
}

#[test]
fn read_returns_the_log_lines() {
    let tracker = tracker_with("a b 1000 0900 \"x\"\nc d 1200 1100 \"y\"\n", "");
    let lines = tracker.read();
    assert_eq!(lines.len(), 2);
    assert_eq!(lines[0], "a b 1000 0900 \"x\"");
    assert_eq!(lines[1], "c d 1200 1100 \"y\"");
}

#[test]
fn close_takes_the_first_current_line() {
    let mut tracker = tracker_with("", "");
    tracker
        .open(
            &"A".to_string(),
            &"T-1".to_string(),
            "first".to_string(),
            "0800".to_string(),
        )
        .unwrap();
    tracker
        .open(
            &"B".to_string(),
            &"T-2".to_string(),
            "second".to_string(),
            "0900".to_string(),
        )
        .unwrap();
    tracker.close("1000".to_string()).unwrap();
    assert_eq!(tracker.log, "A T-1 1000 0800 \"first\"\n");
    assert_eq!(tracker.current, "");
}

#[test]
fn current_file_path_is_the_sibling_slot() {
    let tracker = tracker_with("", "");
    let p = tracker.get_current_file_path().unwrap();
    assert_eq!(p, "/tmp/jired/current.jj");
}

#[test]
fn current_file_path_without_directory() {
    let tracker = Tracker::with_contents(
        "2024-01-01.jj".to_string(),
        day(),
        0,
        String::new(),
        String::new(),
    );
    let p = tracker.get_current_file_path().unwrap();
    assert_eq!(p, "current.jj");
}

#[test]
fn empty_fields_survive_the_round_trip() {
    let mut tracker = tracker_with("", "");
    tracker
        .create_entry(
            &String::new(),
            &String::new(),
            "1000".to_string(),
            "0900".to_string(),
            String::new(),
        )
        .unwrap();
    assert_eq!(tracker.log, "\"\" \"\" 1000 0900 \"\"\n");
    let entries = tracker.read_day().unwrap();
    assert_eq!(entries.len(), 1);
    assert_eq!(entries[0].project_code, "");
    assert_eq!(entries[0].title, "");
}

#[test]
fn error_message_is_carried() {
    let v = Error::ValidationError("End time must be later than start time.".to_string());
    assert_eq!(v.message(), "End time must be later than start time.");
    let p = Error::ParseError("bad line".to_string());
    assert_eq!(p.message(), "bad line");
    let i = Error::IOError("cannot open".to_string());
    assert_eq!(i.message(), "cannot open");
    let c = Error::ConfigError("no mapping".to_string());
    assert_eq!(c.message(), "no mapping");
}
