use std::collections::BTreeMap;

use tracing_rolling_file_inc::{
    collect_indices, LocalDateTime, Outcome, Request, RollingConditionBase,
    RollingFileAppender, RollingFileAppenderBase, RollingFrequency,
};

/// A log directory held in memory: file names and their contents.
type Directory = BTreeMap<String, Vec<u8>>;

/// An appender over an in-memory directory: performs the requests of the
/// state machine on the directory.
struct Appender {
    files: Directory,
    core: RollingFileAppenderBase,
    writer: Option<String>,
    warnings: usize,
}

impl Appender {
    fn open(files: Directory, suffix: &str, condition: RollingConditionBase, max_files: usize) -> Appender {
        let names: Vec<String> = files.keys().cloned().collect();
        let indices = collect_indices(&names).unwrap();
        assert!(indices.iter().all(|i| *i < usize::MAX));
        let mut appender = Appender {
            files,
            core: RollingFileAppender::new(suffix, condition, max_files, indices),
            writer: None,
            warnings: 0,
        };
        let request = appender.core.open_writer_if_needed();
        assert!(appender.drive(request, b""));
        appender
    }

    fn drive(&mut self, mut request: Request, buf: &[u8]) -> bool {
        loop {
            let outcome = match request {
                Request::Finished(ok) => return ok,
                Request::FlushAndClose => {
                    self.writer = None;
                    Outcome::Succeeded
                }
                Request::RemoveFile(name) => {
                    self.files.remove(&name);
                    Outcome::Succeeded
                }
                Request::RenameFile { from, to } => match self.files.remove(&from) {
                    Some(contents) => {
                        self.files.insert(to, contents);
                        Outcome::Succeeded
                    }
                    None => Outcome::NotFound,
                },
                Request::OpenFile(name) => {
                    let len = self.files.entry(name.clone()).or_default().len() as u64;
                    self.writer = Some(name);
                    Outcome::Opened(len)
                }
                Request::CreateDirectory => Outcome::Succeeded,
                Request::WriteBuffer => match &self.writer {
                    Some(name) => {
                        self.files.get_mut(name).unwrap().extend_from_slice(buf);
                        Outcome::Succeeded
                    }
                    None => Outcome::Failed,
                },
                Request::WarnRolloverFailed => {
                    self.warnings += 1;
                    Outcome::Succeeded
                }
            };
            assert!(self.core.resume_is_defined(&outcome));
            request = self.core.resume(outcome);
        }
    }

    fn write_with_datetime(&mut self, buf: &[u8], now: &LocalDateTime) -> Result<usize, ()> {
        let request = self.core.write_with_datetime(now, buf.len());
        if self.drive(request, buf) {
            Ok(buf.len())
        } else {
            Err(())
        }
    }

    fn rollover(&mut self) -> bool {
        let request = self.core.rollover();
        self.drive(request, b"")
    }

    fn has_file(&self, n: usize) -> bool {
        self.files.contains_key(&self.core.filename_for(n))
    }
}

struct Context {
    rolling: Appender,
}

impl Context {
    fn verify_contains(&mut self, needle: &str, n: usize) {
        let p = self.rolling.core.filename_for(n);
        let haystack = String::from_utf8(self.rolling.files.get(&p).cloned().unwrap()).unwrap();
        if !haystack.contains(needle) {
            panic!("file {:?} did not contain expected contents {}", p, needle);
        }
    }
}

fn build_context(condition: RollingConditionBase, max_files: usize) -> Context {
    Context { rolling: Appender::open(Directory::new(), "test", condition, max_files) }
}

fn at(year: i32, month: u32, day: u32, hour: u32, minute: u32, second: u32) -> LocalDateTime {
    LocalDateTime { year, month, day, hour, minute, second }
}

#[test]
fn frequency_every_day() {
    let mut c = build_context(RollingConditionBase::new().daily(), 9);
    c.rolling.write_with_datetime(b"Line 1\n", &at(2021, 3, 30, 1, 2, 3)).unwrap();
    c.rolling.write_with_datetime(b"Line 2\n", &at(2021, 3, 30, 1, 3, 0)).unwrap();
    c.rolling.write_with_datetime(b"Line 3\n", &at(2021, 3, 31, 1, 4, 0)).unwrap();
    c.rolling.write_with_datetime(b"Line 4\n", &at(2021, 5, 31, 1, 4, 0)).unwrap();
    c.rolling.write_with_datetime(b"Line 5\n", &at(2022, 5, 31, 1, 4, 0)).unwrap();
    assert!(!c.rolling.has_file(4));
    c.verify_contains("Line 1", 1);
    c.verify_contains("Line 2", 1);
    c.verify_contains("Line 3", 2);
    c.verify_contains("Line 4", 3);
    c.verify_contains("Line 5", 0);
}

#[test]
fn frequency_every_day_limited_files() {
    let mut c = build_context(RollingConditionBase::new().daily(), 2);
    c.rolling.write_with_datetime(b"Line 1\n", &at(2021, 3, 30, 1, 2, 3)).unwrap();
    c.rolling.write_with_datetime(b"Line 2\n", &at(2021, 3, 30, 1, 3, 0)).unwrap();
    c.rolling.write_with_datetime(b"Line 3\n", &at(2021, 3, 31, 1, 4, 0)).unwrap();
    c.rolling.write_with_datetime(b"Line 4\n", &at(2021, 5, 31, 1, 4, 0)).unwrap();
    c.rolling.write_with_datetime(b"Line 5\n", &at(2022, 5, 31, 1, 4, 0)).unwrap();
    assert!(!c.rolling.has_file(1));
    assert!(!c.rolling.has_file(4));
    c.verify_contains("Line 3", 2);
    c.verify_contains("Line 4", 3);
    c.verify_contains("Line 5", 0);
}

#[test]
fn frequency_every_hour() {
    let mut c = build_context(RollingConditionBase::new().hourly(), 9);
    c.rolling.write_with_datetime(b"Line 1\n", &at(2021, 3, 30, 1, 2, 3)).unwrap();
    c.rolling.write_with_datetime(b"Line 2\n", &at(2021, 3, 30, 1, 3, 2)).unwrap();
    c.rolling.write_with_datetime(b"Line 3\n", &at(2021, 3, 30, 2, 1, 0)).unwrap();
    c.rolling.write_with_datetime(b"Line 4\n", &at(2021, 3, 31, 2, 1, 0)).unwrap();
    assert!(!c.rolling.has_file(3));
    c.verify_contains("Line 1", 1);
    c.verify_contains("Line 2", 1);
    c.verify_contains("Line 3", 2);
    c.verify_contains("Line 4", 0);
}

#[test]
fn frequency_every_minute() {
    let mut c = build_context(RollingConditionBase::new().frequency(RollingFrequency::EveryMinute), 9);
    c.rolling.write_with_datetime(b"Line 1\n", &at(2021, 3, 30, 1, 2, 3)).unwrap();
    c.rolling.write_with_datetime(b"Line 2\n", &at(2021, 3, 30, 1, 2, 3)).unwrap();
    c.rolling.write_with_datetime(b"Line 3\n", &at(2021, 3, 30, 1, 2, 4)).unwrap();
    c.rolling.write_with_datetime(b"Line 4\n", &at(2021, 3, 30, 1, 3, 0)).unwrap();
    c.rolling.write_with_datetime(b"Line 5\n", &at(2021, 3, 30, 2, 3, 0)).unwrap();
    c.rolling.write_with_datetime(b"Line 6\n", &at(2022, 3, 30, 2, 3, 0)).unwrap();
    assert!(!c.rolling.has_file(4));
    c.verify_contains("Line 1", 1);
    c.verify_contains("Line 2", 1);
    c.verify_contains("Line 3", 1);
    c.verify_contains("Line 4", 2);
    c.verify_contains("Line 5", 3);
    c.verify_contains("Line 6", 0);
}

#[test]
fn max_size() {
    let mut c = build_context(RollingConditionBase::new().max_size(10), 9);
    c.rolling.write_with_datetime(b"12345", &at(2021, 3, 30, 1, 2, 3)).unwrap();
    c.rolling.write_with_datetime(b"6789", &at(2021, 3, 30, 1, 3, 3)).unwrap();
    c.rolling.write_with_datetime(b"0", &at(2021, 3, 30, 2, 3, 3)).unwrap();
    c.rolling.write_with_datetime(b"abcdefghijkl", &at(2021, 3, 31, 2, 3, 3)).unwrap();
    c.rolling.write_with_datetime(b"ZZZ", &at(2022, 3, 31, 1, 2, 3)).unwrap();
    assert!(!c.rolling.has_file(3));
    c.verify_contains("1234567890", 1);
    c.verify_contains("abcdefghijkl", 2);
    c.verify_contains("ZZZ", 0);
}

#[test]
fn max_size_existing() {
    let mut c = build_context(RollingConditionBase::new().max_size(10), 9);
    c.rolling.write_with_datetime(b"12345", &at(2021, 3, 30, 1, 2, 3)).unwrap();
    // close the file and make sure that it can re-open it, and that it
    // resets the file size properly.
    c.rolling.writer.take();
    let condition = *c.rolling.core.condition();
    c.rolling.core = RollingFileAppender::new("test", condition, 9, Vec::new());
    assert_eq!(c.rolling.core.file_index(), 1);
    assert_eq!(c.rolling.core.current_filesize(), 0);
    c.rolling.write_with_datetime(b"6789", &at(2021, 3, 30, 1, 3, 3)).unwrap();
    c.rolling.write_with_datetime(b"0", &at(2021, 3, 30, 2, 3, 3)).unwrap();
    c.rolling.write_with_datetime(b"abcdefghijkl", &at(2021, 3, 31, 2, 3, 3)).unwrap();
    c.rolling.write_with_datetime(b"ZZZ", &at(2022, 3, 31, 1, 2, 3)).unwrap();
    assert!(!c.rolling.has_file(3));
    c.verify_contains("1234567890", 1);
    c.verify_contains("abcdefghijkl", 2);
    c.verify_contains("ZZZ", 0);
}

#[test]
fn daily_and_max_size() {
    let mut c = build_context(RollingConditionBase::new().daily().max_size(10), 9);
    c.rolling.write_with_datetime(b"12345", &at(2021, 3, 30, 1, 2, 3)).unwrap();
    c.rolling.write_with_datetime(b"6789", &at(2021, 3, 30, 2, 3, 3)).unwrap();
    c.rolling.write_with_datetime(b"0", &at(2021, 3, 31, 2, 3, 3)).unwrap();
    c.rolling.write_with_datetime(b"abcdefghijkl", &at(2021, 3, 31, 3, 3, 3)).unwrap();
    c.rolling.write_with_datetime(b"ZZZ", &at(2021, 3, 31, 4, 4, 4)).unwrap();
    assert!(!c.rolling.has_file(3));
    c.verify_contains("123456789", 1);
    c.verify_contains("0abcdefghijkl", 2);
    c.verify_contains("ZZZ", 0);
}

#[test]
fn restart_continues_after_largest_index() {
    let mut c = build_context(RollingConditionBase::new().max_size(3), 9);
    c.rolling.write_with_datetime(b"aaaa", &at(2021, 3, 30, 1, 2, 3)).unwrap();
    c.rolling.write_with_datetime(b"bbbb", &at(2021, 3, 30, 1, 2, 4)).unwrap();
    c.rolling.write_with_datetime(b"cccc", &at(2021, 3, 30, 1, 2, 5)).unwrap();
    let files = c.rolling.files.clone();
    let mut again = Appender::open(files, "test", RollingConditionBase::new().max_size(3), 9);
    assert_eq!(again.core.file_index(), 3);
    assert_eq!(again.core.current_filesize(), 4);
    again.write_with_datetime(b"dddd", &at(2021, 3, 30, 1, 2, 6)).unwrap();
    assert_eq!(again.files.get("test.3.log").unwrap(), b"cccc");
    assert_eq!(again.files.get("test.current.log").unwrap(), b"dddd");
    assert_eq!(again.warnings, 0);
}

#[test]
fn only_newest_files_are_kept() {
    let mut c = build_context(RollingConditionBase::new().max_size(1), 2);
    for (i, line) in ["a", "b", "c", "d", "e"].iter().enumerate() {
        c.rolling.write_with_datetime(line.as_bytes(), &at(2021, 3, 30, 1, 2, i as u32)).unwrap();
    }
    let names: Vec<String> = c.rolling.files.keys().cloned().collect();
    assert_eq!(names, vec!["test.3.log", "test.4.log", "test.current.log"]);
    assert_eq!(c.rolling.files.get("test.4.log").unwrap(), b"d");
    assert_eq!(c.rolling.files.get("test.current.log").unwrap(), b"e");
}

fn numbered_directory(indices: &[usize]) -> Directory {
    let mut files = Directory::new();
    files.insert("test.current.log".to_string(), b"current".to_vec());
    for i in indices {
        files.insert(format!("test.{}.log", i), format!("old {}", i).into_bytes());
    }
    files
}

#[test]
fn rollover_prunes_every_expired_file() {
    let files = numbered_directory(&[1, 2, 3, 4, 5]);
    let mut a = Appender::open(files, "test", RollingConditionBase::new(), 2);
    assert_eq!(a.core.file_index(), 6);
    assert!(a.rollover());
    let names: Vec<String> = a.files.keys().cloned().collect();
    assert_eq!(names, vec!["test.5.log", "test.6.log", "test.current.log"]);
    assert_eq!(a.files.get("test.6.log").unwrap(), b"current");
    assert_eq!(a.files.get("test.5.log").unwrap(), b"old 5");
    assert_eq!(a.files.get("test.current.log").unwrap(), b"");
    assert_eq!(a.core.file_index(), 7);
}

#[test]
fn no_numbered_file_kept_when_none_allowed() {
    let files = numbered_directory(&[2, 3]);
    let mut a = Appender::open(files, "test", RollingConditionBase::new().max_size(1), 0);
    assert_eq!(a.core.file_index(), 4);
    a.write_with_datetime(b"x", &at(2021, 3, 30, 1, 2, 3)).unwrap();
    let names: Vec<String> = a.files.keys().cloned().collect();
    assert_eq!(names, vec!["test.current.log"]);
    assert_eq!(a.files.get("test.current.log").unwrap(), b"x");
    assert_eq!(a.core.file_index(), 5);
}

#[test]
fn rollover_removes_unknown_file_behind() {
    let files = numbered_directory(&[5]);
    let mut a = Appender::open(files, "test", RollingConditionBase::new(), 2);
    assert_eq!(a.core.file_index(), 6);
    a.files.insert("test.4.log".to_string(), b"late".to_vec());
    assert!(a.rollover());
    let names: Vec<String> = a.files.keys().cloned().collect();
    assert_eq!(names, vec!["test.5.log", "test.6.log", "test.current.log"]);
}
