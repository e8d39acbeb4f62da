//! A rolling file appender with customizable rolling conditions.
//!
//! The library decides, for every write, whether the current log file must be
//! rolled over (on a change of day, hour or minute, and/or when a size limit is
//! reached), which numbered file the current file becomes, which old file is
//! deleted, and how the sizes and indices evolve.  The files themselves are
//! touched by the caller, which performs the requests that the appender's
//! state machine hands out and reports their outcomes back.
//!
//! The current file is named `<suffix>.current.log`; rolled files are named
//! `<suffix>.<n>.log` with `n` growing by one at every rollover, and only the
//! numbered files with the `max_file_count` indices below the next one are
//! kept (none when `max_file_count` is 0).

pub mod frequency;
pub mod condition;
pub mod base;
pub mod naming;
pub mod scan;
pub mod appender;

pub use frequency::{LocalDateTime, RollingFrequency};
pub use condition::RollingCondition;
pub use base::RollingConditionBase;
pub use naming::{file_name_for, parse_index};
pub use scan::{collect_indices, next_file_index, RollingFileError};
pub use appender::{Outcome, Request, RollingFileAppender, RollingFileAppenderBase, Stage};
