use tracing_rolling_file_inc::{
    collect_indices, file_name_for, next_file_index, parse_index, LocalDateTime, Outcome, Request,
    RollingCondition, RollingConditionBase, RollingFileAppender, RollingFileError, RollingFrequency,
};

fn at(year: i32, month: u32, day: u32, hour: u32, minute: u32, second: u32) -> LocalDateTime {
    LocalDateTime { year, month, day, hour, minute, second }
}

fn names(list: &[&str]) -> Vec<String> {
    list.iter().map(|s| s.to_string()).collect()
}

fn request_text(r: &Request) -> String {
    format!("{:?}", r)
}

#[test]
fn equivalent_datetime_truncates_to_period() {
    let dt = at(2021, 3, 30, 13, 42, 7);
    assert_eq!(RollingFrequency::EveryDay.equivalent_datetime(&dt), at(2021, 3, 30, 0, 0, 0));
    assert_eq!(RollingFrequency::EveryHour.equivalent_datetime(&dt), at(2021, 3, 30, 13, 0, 0));
    assert_eq!(RollingFrequency::EveryMinute.equivalent_datetime(&dt), at(2021, 3, 30, 13, 42, 0));
    let once = RollingFrequency::EveryHour.equivalent_datetime(&dt);
    assert_eq!(RollingFrequency::EveryHour.equivalent_datetime(&once), once);
}

#[test]
fn new_condition_never_rolls_over() {
    let mut c = RollingConditionBase::new();
    assert!(!c.should_rollover(&at(2021, 3, 30, 1, 2, 3), 0));
    assert!(!c.should_rollover(&at(2024, 1, 1, 0, 0, 0), u64::MAX));
}

#[test]
fn daily_condition_rolls_on_new_day_only() {
    let mut c = RollingConditionBase::new().daily();
    assert!(!c.should_rollover(&at(2021, 3, 30, 1, 2, 3), 0));
    assert!(!c.should_rollover(&at(2021, 3, 30, 23, 59, 59), 1000));
    assert!(c.should_rollover(&at(2021, 3, 31, 0, 0, 0), 1000));
    assert!(!c.should_rollover(&at(2021, 3, 31, 5, 0, 0), 1000));
}

#[test]
fn hourly_and_minutely_conditions() {
    let mut h = RollingConditionBase::new().hourly();
    assert!(!h.should_rollover(&at(2021, 3, 30, 1, 2, 3), 0));
    assert!(!h.should_rollover(&at(2021, 3, 30, 1, 59, 3), 0));
    assert!(h.should_rollover(&at(2021, 3, 30, 2, 0, 0), 0));
    let mut m = RollingConditionBase::new().minutely();
    assert!(!m.should_rollover(&at(2021, 3, 30, 1, 2, 3), 0));
    assert!(!m.should_rollover(&at(2021, 3, 30, 1, 2, 59), 0));
    assert!(m.should_rollover(&at(2021, 3, 30, 1, 3, 0), 0));
}

#[test]
fn size_limit_rolls_at_limit() {
    let mut c = RollingConditionBase::new().max_size(10);
    assert!(!c.should_rollover(&at(2021, 3, 30, 1, 2, 3), 9));
    assert!(c.should_rollover(&at(2021, 3, 30, 1, 2, 3), 10));
    assert!(c.should_rollover(&at(2021, 3, 30, 1, 2, 3), 11));
}

#[test]
fn default_condition_is_daily() {
    let d = RollingConditionBase::default();
    assert_eq!(d, RollingConditionBase::new().daily());
    assert_eq!(d, RollingConditionBase::new().frequency(RollingFrequency::EveryDay));
    assert_eq!(
        RollingConditionBase::new().hourly().daily().max_size(5),
        RollingConditionBase::new().max_size(5).frequency(RollingFrequency::EveryDay)
    );
}

#[test]
fn file_names() {
    assert_eq!(file_name_for("test", 0), "test.current.log");
    assert_eq!(file_name_for("test", 1), "test.1.log");
    assert_eq!(file_name_for("log", 1207), "log.1207.log");
    assert_eq!(file_name_for("", 10), ".10.log");
    assert_eq!(file_name_for("x", usize::MAX), format!("x.{}.log", usize::MAX));
}

#[test]
fn parse_index_reads_like_from_str() {
    assert_eq!(parse_index("42"), Some(42));
    assert_eq!(parse_index("007"), Some(7));
    assert_eq!(parse_index("+7"), Some(7));
    assert_eq!(parse_index("+"), None);
    assert_eq!(parse_index(""), None);
    assert_eq!(parse_index("4a"), None);
    assert_eq!(parse_index("-0"), None);
    assert_eq!(parse_index("\u{0663}"), None);
    assert_eq!(parse_index(&usize::MAX.to_string()), Some(usize::MAX));
    assert_eq!(parse_index(&format!("{}0", usize::MAX)), None);
    for n in [0usize, 1, 9, 10, 99, 100, 123456789] {
        assert_eq!(parse_index(&n.to_string()), Some(n));
    }
}

#[test]
fn collect_indices_from_file_names() {
    let found = collect_indices(&names(&[
        "test.3.log",
        "test.current.log",
        "other7x12.log",
        "test.99999999999999999999999.log",
        "log\u{0663}.5",
        "12",
    ]))
    .unwrap();
    assert_eq!(found, vec![3, 7, 12]);
    assert_eq!(collect_indices(&names(&[])).unwrap(), Vec::<usize>::new());
}

#[test]
fn index_pattern_compiles() {
    let r: Result<Vec<usize>, RollingFileError> = collect_indices(&names(&["a.1.log"]));
    assert!(r.is_ok());
}

#[test]
fn next_index_follows_largest() {
    assert_eq!(next_file_index(&vec![]), 1);
    assert_eq!(next_file_index(&vec![3, 9, 2]), 10);
    assert_eq!(next_file_index(&vec![0]), 1);
    assert_eq!(next_file_index(&vec![usize::MAX - 1]), usize::MAX);
}

#[test]
fn open_writer_requests_current_file() {
    let mut a = RollingFileAppender::new("test", RollingConditionBase::new(), 9, vec![]);
    let r = a.open_writer_if_needed();
    assert_eq!(request_text(&r), "OpenFile(\"test.current.log\")");
    assert!(!a.is_idle());
    let r = a.resume(Outcome::Opened(17));
    assert!(matches!(r, Request::Finished(true)));
    assert!(a.is_idle());
    assert_eq!(a.current_filesize(), 17);
    assert!(matches!(a.open_writer_if_needed(), Request::Finished(true)));
}

#[test]
fn open_failure_ends_with_error() {
    let mut a = RollingFileAppender::new("test", RollingConditionBase::new(), 9, vec![]);
    a.open_writer_if_needed();
    assert!(matches!(a.resume(Outcome::Failed), Request::CreateDirectory));
    let r = a.resume(Outcome::Succeeded);
    assert_eq!(request_text(&r), "OpenFile(\"test.current.log\")");
    assert!(matches!(a.resume(Outcome::Failed), Request::Finished(false)));
    assert!(a.is_idle());
    a.open_writer_if_needed();
    a.resume(Outcome::Failed);
    assert!(matches!(a.resume(Outcome::Failed), Request::Finished(false)));
    assert!(a.is_idle());
    a.open_writer_if_needed();
    a.resume(Outcome::Failed);
    a.resume(Outcome::Succeeded);
    assert!(matches!(a.resume(Outcome::Opened(3)), Request::Finished(true)));
    assert_eq!(a.current_filesize(), 3);
}

#[test]
fn forced_rollover_sequence() {
    let mut a = RollingFileAppender::new("test", RollingConditionBase::new(), 3, vec![1, 2, 4]);
    assert_eq!(a.file_index(), 5);
    a.open_writer_if_needed();
    a.resume(Outcome::Opened(40));
    assert!(matches!(a.rollover(), Request::FlushAndClose));
    let r = a.resume(Outcome::Succeeded);
    assert_eq!(request_text(&r), "RemoveFile(\"test.2.log\")");
    assert_eq!(a.current_filesize(), 0);
    assert_eq!(a.file_index(), 5);
    let r = a.resume(Outcome::Failed);
    assert_eq!(request_text(&r), "RenameFile { from: \"test.current.log\", to: \"test.5.log\" }");
    assert_eq!(a.file_index(), 6);
    let r = a.resume(Outcome::Succeeded);
    assert_eq!(request_text(&r), "RemoveFile(\"test.2.log\")");
    let r = a.resume(Outcome::NotFound);
    assert_eq!(request_text(&r), "RemoveFile(\"test.1.log\")");
    let r = a.resume(Outcome::Failed);
    assert_eq!(request_text(&r), "OpenFile(\"test.current.log\")");
    assert!(matches!(a.resume(Outcome::Opened(0)), Request::Finished(true)));
    assert!(a.is_idle());
    assert_eq!(a.current_filesize(), 0);
}

#[test]
fn rollover_without_removal_when_few_files() {
    let mut a = RollingFileAppender::new("log", RollingConditionBase::new(), 9, vec![]);
    a.rollover();
    let r = a.resume(Outcome::Succeeded);
    assert_eq!(request_text(&r), "RenameFile { from: \"log.current.log\", to: \"log.1.log\" }");
    assert_eq!(a.file_index(), 2);
}

#[test]
fn forced_rollover_stops_at_failure() {
    let mut a = RollingFileAppender::new("test", RollingConditionBase::new(), 9, vec![3]);
    a.rollover();
    assert!(matches!(a.resume(Outcome::Failed), Request::Finished(false)));
    assert_eq!(a.file_index(), 4);
    a.rollover();
    a.resume(Outcome::Succeeded);
    assert!(matches!(a.resume(Outcome::Failed), Request::Finished(false)));
    assert_eq!(a.file_index(), 5);
    let mut b = RollingFileAppender::new("test", RollingConditionBase::new(), 2, vec![5]);
    b.rollover();
    let r = b.resume(Outcome::Succeeded);
    assert_eq!(request_text(&r), "RemoveFile(\"test.4.log\")");
    let r = b.resume(Outcome::Succeeded);
    assert_eq!(request_text(&r), "RenameFile { from: \"test.current.log\", to: \"test.6.log\" }");
    assert!(matches!(b.resume(Outcome::Failed), Request::Finished(false)));
    assert_eq!(b.file_index(), 7);
    assert!(a.is_idle());
}

#[test]
fn write_without_rollover() {
    let mut a = RollingFileAppender::new("test", RollingConditionBase::new().max_size(100), 9, vec![]);
    a.open_writer_if_needed();
    a.resume(Outcome::Opened(10));
    let r = a.write_with_datetime(&at(2021, 3, 30, 1, 2, 3), 7);
    assert!(matches!(r, Request::WriteBuffer));
    assert!(matches!(a.resume(Outcome::Succeeded), Request::Finished(true)));
    assert_eq!(a.current_filesize(), 17);
    a.write_with_datetime(&at(2021, 3, 30, 1, 2, 3), 5);
    assert!(matches!(a.resume(Outcome::Failed), Request::Finished(false)));
    assert_eq!(a.current_filesize(), 17);
}

#[test]
fn write_with_rollover_and_warning() {
    let mut a = RollingFileAppender::new("test", RollingConditionBase::new().max_size(10), 9, vec![1]);
    a.open_writer_if_needed();
    a.resume(Outcome::Opened(12));
    assert!(matches!(a.write_with_datetime(&at(2021, 3, 30, 1, 2, 3), 3), Request::FlushAndClose));
    // the flush fails: warn, then write to the still open file
    assert!(matches!(a.resume(Outcome::Failed), Request::WarnRolloverFailed));
    assert!(matches!(a.resume(Outcome::Succeeded), Request::WriteBuffer));
    assert!(matches!(a.resume(Outcome::Succeeded), Request::Finished(true)));
    assert_eq!(a.current_filesize(), 15);
    assert_eq!(a.file_index(), 2);
    // next write: the rename fails, the file is reopened and written
    a.write_with_datetime(&at(2021, 3, 30, 1, 2, 4), 4);
    let r = a.resume(Outcome::Succeeded);
    assert_eq!(request_text(&r), "RenameFile { from: \"test.current.log\", to: \"test.2.log\" }");
    assert!(matches!(a.resume(Outcome::Failed), Request::WarnRolloverFailed));
    let r = a.resume(Outcome::Succeeded);
    assert_eq!(request_text(&r), "OpenFile(\"test.current.log\")");
    assert!(matches!(a.resume(Outcome::Opened(15)), Request::WriteBuffer));
    assert!(matches!(a.resume(Outcome::Succeeded), Request::Finished(true)));
    assert_eq!(a.current_filesize(), 19);
    assert_eq!(a.file_index(), 3);
}

#[test]
fn write_reopen_failure_retries_open() {
    let mut a = RollingFileAppender::new("test", RollingConditionBase::new().max_size(1), 9, vec![]);
    a.open_writer_if_needed();
    a.resume(Outcome::Opened(5));
    a.write_with_datetime(&at(2021, 3, 30, 1, 2, 3), 2);
    a.resume(Outcome::Succeeded);
    assert!(matches!(a.resume(Outcome::Succeeded), Request::OpenFile(_)));
    assert!(matches!(a.resume(Outcome::Failed), Request::CreateDirectory));
    assert!(matches!(a.resume(Outcome::Failed), Request::WarnRolloverFailed));
    assert!(matches!(a.resume(Outcome::Succeeded), Request::OpenFile(_)));
    assert!(matches!(a.resume(Outcome::Failed), Request::CreateDirectory));
    assert!(matches!(a.resume(Outcome::Succeeded), Request::OpenFile(_)));
    assert!(matches!(a.resume(Outcome::Failed), Request::Finished(false)));
    assert!(a.is_idle());
}

#[test]
fn resume_definedness() {
    let mut a = RollingFileAppender::new("test", RollingConditionBase::new(), 9, vec![]);
    assert!(!a.resume_is_defined(&Outcome::Succeeded));
    a.open_writer_if_needed();
    a.resume(Outcome::Opened(u64::MAX - 1));
    a.write_with_datetime(&at(2021, 3, 30, 1, 2, 3), 2);
    assert!(!a.resume_is_defined(&Outcome::Succeeded));
    assert!(a.resume_is_defined(&Outcome::Failed));
    let mut b = RollingFileAppender::new("test", RollingConditionBase::new(), usize::MAX, vec![(1usize << 63) + 3]);
    b.rollover();
    assert!(b.resume_is_defined(&Outcome::Succeeded));
    let r = b.resume(Outcome::Succeeded);
    assert_eq!(request_text(&r), format!("RenameFile {{ from: \"test.current.log\", to: \"test.{}.log\" }}", (1usize << 63) + 4));
    let r = b.resume(Outcome::Succeeded);
    assert_eq!(request_text(&r), "OpenFile(\"test.current.log\")");
}

#[test]
fn index_wraps_around() {
    let mut a = RollingFileAppender::new("t", RollingConditionBase::new(), 0, vec![usize::MAX - 1]);
    assert_eq!(a.file_index(), usize::MAX);
    a.rollover();
    let r = a.resume(Outcome::Succeeded);
    assert_eq!(request_text(&r), "RemoveFile(\"t.18446744073709551615.log\")");
    let r = a.resume(Outcome::Succeeded);
    assert_eq!(request_text(&r), "RenameFile { from: \"t.current.log\", to: \"t.18446744073709551615.log\" }");
    assert_eq!(a.file_index(), 0);
    let r = a.resume(Outcome::Succeeded);
    assert_eq!(request_text(&r), "RemoveFile(\"t.18446744073709551615.log\")");
    let r = a.resume(Outcome::Succeeded);
    assert_eq!(request_text(&r), "RemoveFile(\"t.18446744073709551614.log\")");
}

#[test]
fn write_consults_condition() {
    let mut a = RollingFileAppender::new("test", RollingConditionBase::new().daily(), 9, vec![]);
    a.open_writer_if_needed();
    a.resume(Outcome::Opened(0));
    assert!(matches!(a.write_with_datetime(&at(2021, 3, 30, 1, 2, 3), 1), Request::WriteBuffer));
    a.resume(Outcome::Succeeded);
    let mut seen = RollingConditionBase::new().daily();
    seen.should_rollover(&at(2021, 3, 30, 1, 2, 3), 0);
    assert_eq!(*a.condition(), seen);
    assert_ne!(*a.condition(), RollingConditionBase::new().daily());
    assert!(matches!(a.write_with_datetime(&at(2021, 3, 31, 1, 2, 3), 1), Request::FlushAndClose));
}
