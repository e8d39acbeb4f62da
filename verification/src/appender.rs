//! The rolling file appender as a state machine.
//!
//! Each operation of the appender (`open_writer_if_needed`, `rollover`,
//! `write_with_datetime`) starts from the idle state and hands out a
//! [`Request`]: a file operation the caller performs in the log directory.
//! The caller reports how it went with [`RollingFileAppender::resume`], which
//! hands out the next request, until a `Finished` request ends the operation
//! and the appender is idle again.
//!
//! A rollover flushes and closes the current file, deletes the numbered file
//! `max_file_count` indices behind the file index, renames the current file
//! to the file index (which then moves on by one), deletes every other
//! numbered file the appender knows of that falls out of the
//! `max_file_count` newest indices, and opens a fresh current file.  An open
//! that fails is tried once more after creating the file's directory.  The appender knows of the numbered files
//! whose indices it was started with and of those it created since.  Inside a write, a
//! failed rollover is reported with a warning and the write goes on; a
//! rollover asked for directly ends at its first failure.

use vstd::prelude::*;
use crate::base::RollingConditionBase;
use crate::condition::RollingCondition;
use crate::frequency::LocalDateTime;
use crate::naming::{file_name, file_name_for, lemma_file_names_distinct};

verus! {

/// Where an operation of the appender stands.  `forced` marks a rollover
/// asked for directly rather than one that a write triggered; `index` is the
/// index the current file is being renamed to; `retried` marks the second
/// attempt to open the current file, after creating its directory.  While
/// the directory is created, `flag` is `forced` for an open inside a
/// rollover and `then_write` otherwise.
#[derive(Copy, Clone, Debug, PartialEq, Eq, Structural)]
pub enum Stage {
    Idle,
    Flushing { forced: bool },
    Removing { forced: bool },
    Renaming { forced: bool, index: usize },
    Pruning { forced: bool },
    Reopening { forced: bool, retried: bool },
    MakingDirectory { rollover: bool, flag: bool },
    Warning,
    Opening { then_write: bool, retried: bool },
    Writing,
}

/// How the file operation of the last request went.
#[derive(Copy, Clone, Debug, PartialEq, Eq, Structural)]
pub enum Outcome {
    /// The operation succeeded.
    Succeeded,
    /// The file to act on does not exist.
    NotFound,
    /// The operation failed for another reason.
    Failed,
    /// The file was opened; it holds this many bytes.
    Opened(u64),
}

/// A file operation for the caller to perform, or the end of the operation.
/// File names are relative to the log directory.
#[derive(Debug)]
pub enum Request {
    /// Flush the buffered data of the current file, if it is open, and, if
    /// that succeeds, close it.
    FlushAndClose,
    /// Delete this file; its outcome does not matter.
    RemoveFile(String),
    /// Rename a file; a missing source counts as success.
    RenameFile { from: String, to: String },
    /// Open this file for appending, creating it if needed, and report its
    /// length.
    OpenFile(String),
    /// Create the directory of the current file, and the directories above
    /// it; when the file has no directory, fail with the failure of the open.
    CreateDirectory,
    /// Write the caller's buffer to the open current file.
    WriteBuffer,
    /// Report that the rollover failed (with the error of the failed step);
    /// the write goes on.
    WarnRolloverFailed,
    /// The operation is over: `true` if it succeeded, `false` if it failed
    /// with the error of the last step that failed.
    Finished(bool),
}

/// A request, with its file names as character sequences.
pub enum RequestView {
    FlushAndClose,
    RemoveFile(Seq<char>),
    RenameFile { from: Seq<char>, to: Seq<char> },
    OpenFile(Seq<char>),
    CreateDirectory,
    WriteBuffer,
    WarnRolloverFailed,
    Finished(bool),
}

impl View for Request {
    type V = RequestView;

    open spec fn view(&self) -> RequestView {
        match self {
            Request::FlushAndClose => RequestView::FlushAndClose,
            Request::RemoveFile(name) => RequestView::RemoveFile(name@),
            Request::RenameFile { from, to } => RequestView::RenameFile { from: from@, to: to@ },
            Request::OpenFile(name) => RequestView::OpenFile(name@),
            Request::CreateDirectory => RequestView::CreateDirectory,
            Request::WriteBuffer => RequestView::WriteBuffer,
            Request::WarnRolloverFailed => RequestView::WarnRolloverFailed,
            Request::Finished(ok) => RequestView::Finished(*ok),
        }
    }
}

/// The state of an appender, apart from its rolling condition.
pub struct AppenderModel {
    /// The base of the file names.
    pub suffix: Seq<char>,
    /// The index the current file gets at the next rollover.
    pub file_index: usize,
    /// How many numbered files are kept.
    pub max_file_count: usize,
    /// The size of the current file, as far as the appender knows.
    pub current_filesize: u64,
    /// Whether the current file is open.
    pub writer_open: bool,
    /// Where the running operation stands.
    pub stage: Stage,
    /// The length of the buffer being written.
    pub pending_len: usize,
    /// The indices of the numbered files the appender knows of.
    pub archives: Seq<usize>,
    /// The indices of the numbered files the running rollover still deletes.
    pub removals: Seq<usize>,
}

/// The index after `i`, wrapping around at the end of `usize`.
pub open spec fn index_after(i: usize) -> usize {
    if i == usize::MAX { 0 } else { (i + 1) as usize }
}

/// Whether the numbered file `j` falls out of the `keep` newest indices
/// once the current file has become `newest`.
pub open spec fn expired(j: usize, newest: usize, keep: usize) -> bool {
    j <= newest && newest - j >= keep
}

/// The indices of `s` that have expired, in order.
pub open spec fn expired_archives(s: Seq<usize>, newest: usize, keep: usize) -> Seq<usize>
    decreases s.len(),
{
    if s.len() == 0 {
        Seq::empty()
    } else if expired(s.last(), newest, keep) {
        expired_archives(s.drop_last(), newest, keep).push(s.last())
    } else {
        expired_archives(s.drop_last(), newest, keep)
    }
}

/// The indices of `s` that have not expired, in order.
pub open spec fn kept_archives(s: Seq<usize>, newest: usize, keep: usize) -> Seq<usize>
    decreases s.len(),
{
    if s.len() == 0 {
        Seq::empty()
    } else if expired(s.last(), newest, keep) {
        kept_archives(s.drop_last(), newest, keep)
    } else {
        kept_archives(s.drop_last(), newest, keep).push(s.last())
    }
}

/// The current file's name.
pub open spec fn current_name(m: AppenderModel) -> Seq<char> {
    file_name(m.suffix, 0)
}

/// Renames the current file to the file index and moves the index on.
pub open spec fn start_rename(m: AppenderModel, forced: bool) -> (AppenderModel, RequestView) {
    (
        AppenderModel {
            file_index: index_after(m.file_index),
            stage: Stage::Renaming { forced, index: m.file_index },
            ..m
        },
        RequestView::RenameFile { from: current_name(m), to: file_name(m.suffix, m.file_index as nat) },
    )
}

/// After the flush: the current file is closed and empty as far as the
/// appender knows; the numbered file `max_file_count` indices behind the
/// file index is deleted, when there is one, and the current file renamed.
pub open spec fn after_flush(m: AppenderModel, forced: bool) -> (AppenderModel, RequestView) {
    let closed = AppenderModel { writer_open: false, current_filesize: 0, ..m };
    if m.file_index > m.max_file_count {
        (
            AppenderModel { stage: Stage::Removing { forced }, ..closed },
            RequestView::RemoveFile(file_name(m.suffix, (m.file_index - m.max_file_count) as nat)),
        )
    } else {
        start_rename(closed, forced)
    }
}

/// Deletes the next expired numbered file, or reopens the current file when
/// none is left.
pub open spec fn next_removal(m: AppenderModel, forced: bool) -> (AppenderModel, RequestView) {
    if m.removals.len() > 0 {
        (
            AppenderModel { removals: m.removals.drop_last(), stage: Stage::Pruning { forced }, ..m },
            RequestView::RemoveFile(file_name(m.suffix, m.removals.last() as nat)),
        )
    } else {
        (AppenderModel { stage: Stage::Reopening { forced, retried: false }, ..m }, RequestView::OpenFile(current_name(m)))
    }
}

/// After the current file has been renamed to `index`: the numbered files
/// known, `index` among them, split into those kept and those deleted.
pub open spec fn after_rename(m: AppenderModel, forced: bool, index: usize) -> (AppenderModel, RequestView) {
    let all = m.archives.push(index);
    next_removal(
        AppenderModel {
            archives: kept_archives(all, index, m.max_file_count),
            removals: expired_archives(all, index, m.max_file_count),
            ..m
        },
        forced,
    )
}

/// A step of a rollover failed: a forced rollover ends with the failure, one
/// inside a write warns and goes on.
pub open spec fn fail_rollover(m: AppenderModel, forced: bool) -> (AppenderModel, RequestView) {
    if forced {
        (AppenderModel { stage: Stage::Idle, ..m }, RequestView::Finished(false))
    } else {
        (AppenderModel { stage: Stage::Warning, ..m }, RequestView::WarnRolloverFailed)
    }
}

/// Opens the current file unless it is open, then writes.
pub open spec fn open_then_write(m: AppenderModel) -> (AppenderModel, RequestView) {
    if m.writer_open {
        (AppenderModel { stage: Stage::Writing, ..m }, RequestView::WriteBuffer)
    } else {
        (
            AppenderModel { stage: Stage::Opening { then_write: true, retried: false }, ..m },
            RequestView::OpenFile(current_name(m)),
        )
    }
}

/// The state and request after the outcome `o` of the running operation's
/// last request.
pub open spec fn resume_spec(m: AppenderModel, o: Outcome) -> (AppenderModel, RequestView) {
    match m.stage {
        Stage::Idle => (m, RequestView::Finished(false)),
        Stage::Flushing { forced } => {
            if o is Failed {
                fail_rollover(m, forced)
            } else {
                after_flush(m, forced)
            }
        },
        Stage::Renaming { forced, index } => {
            if o is Failed {
                fail_rollover(m, forced)
            } else {
                after_rename(m, forced, index)
            }
        },
        Stage::Removing { forced } => start_rename(m, forced),
        Stage::Pruning { forced } => next_removal(m, forced),
        Stage::Reopening { forced, retried } => match o {
            Outcome::Opened(size) => {
                let opened = AppenderModel { writer_open: true, current_filesize: size, ..m };
                if forced {
                    (AppenderModel { stage: Stage::Idle, ..opened }, RequestView::Finished(true))
                } else {
                    (AppenderModel { stage: Stage::Writing, ..opened }, RequestView::WriteBuffer)
                }
            },
            _ => {
                if retried {
                    fail_rollover(m, forced)
                } else {
                    (
                        AppenderModel { stage: Stage::MakingDirectory { rollover: true, flag: forced }, ..m },
                        RequestView::CreateDirectory,
                    )
                }
            },
        },
        Stage::MakingDirectory { rollover, flag } => {
            if o is Failed {
                if rollover {
                    fail_rollover(m, flag)
                } else {
                    (AppenderModel { stage: Stage::Idle, ..m }, RequestView::Finished(false))
                }
            } else if rollover {
                (
                    AppenderModel { stage: Stage::Reopening { forced: flag, retried: true }, ..m },
                    RequestView::OpenFile(current_name(m)),
                )
            } else {
                (
                    AppenderModel { stage: Stage::Opening { then_write: flag, retried: true }, ..m },
                    RequestView::OpenFile(current_name(m)),
                )
            }
        },
        Stage::Warning => open_then_write(m),
        Stage::Opening { then_write, retried } => match o {
            Outcome::Opened(size) => {
                let opened = AppenderModel { writer_open: true, current_filesize: size, ..m };
                if then_write {
                    (AppenderModel { stage: Stage::Writing, ..opened }, RequestView::WriteBuffer)
                } else {
                    (AppenderModel { stage: Stage::Idle, ..opened }, RequestView::Finished(true))
                }
            },
            _ => {
                if retried {
                    (AppenderModel { stage: Stage::Idle, ..m }, RequestView::Finished(false))
                } else {
                    (
                        AppenderModel { stage: Stage::MakingDirectory { rollover: false, flag: then_write }, ..m },
                        RequestView::CreateDirectory,
                    )
                }
            },
        },
        Stage::Writing => {
            if o is Failed {
                (AppenderModel { stage: Stage::Idle, ..m }, RequestView::Finished(false))
            } else {
                (
                    AppenderModel {
                        stage: Stage::Idle,
                        current_filesize: (m.current_filesize + m.pending_len) as u64,
                        ..m
                    },
                    RequestView::Finished(true),
                )
            }
        },
    }
}

/// Whether `resume` may be called with outcome `o`: an operation is running,
/// and a successful write's grown file size fits in a `u64`.
pub open spec fn resume_defined(m: AppenderModel, o: Outcome) -> bool {
    match m.stage {
        Stage::Idle => false,
        Stage::Writing => o is Failed || m.current_filesize + m.pending_len <= u64::MAX,
        _ => true,
    }
}

/// Starting a write of `len` bytes, given whether the condition asked for a
/// rollover.
pub open spec fn begin_write_spec(m: AppenderModel, roll: bool, len: usize) -> (AppenderModel, RequestView) {
    let m1 = AppenderModel { pending_len: len, ..m };
    if roll {
        (AppenderModel { stage: Stage::Flushing { forced: false }, ..m1 }, RequestView::FlushAndClose)
    } else {
        open_then_write(m1)
    }
}

/// How many steps at most remain of an operation in state `m`.
pub open spec fn steps_left(m: AppenderModel) -> nat {
    match m.stage {
        Stage::Idle => 0,
        Stage::Writing => 1,
        Stage::Opening { retried: true, .. } => 2,
        Stage::MakingDirectory { rollover: false, .. } => 3,
        Stage::Opening { retried: false, .. } => 4,
        Stage::Warning => 5,
        Stage::Reopening { retried: true, .. } => 6,
        Stage::MakingDirectory { rollover: true, .. } => 7,
        Stage::Reopening { retried: false, .. } => 8,
        Stage::Pruning { .. } => 9 + m.removals.len(),
        Stage::Renaming { .. } => 10 + m.archives.len(),
        Stage::Removing { .. } => 11 + m.archives.len(),
        Stage::Flushing { .. } => 12 + m.archives.len(),
    }
}

/// Splitting a list of indices: every index lands on exactly the side its
/// expiry says, and nothing else lands anywhere.
pub proof fn lemma_split_archives(s: Seq<usize>, newest: usize, keep: usize)
    ensures
        expired_archives(s, newest, keep).len() <= s.len(),
        forall|j: usize| s.contains(j) && !expired(j, newest, keep) ==> #[trigger] kept_archives(s, newest, keep).contains(j),
        forall|j: usize| s.contains(j) && expired(j, newest, keep) ==> #[trigger] expired_archives(s, newest, keep).contains(j),
        forall|j: usize| #[trigger] kept_archives(s, newest, keep).contains(j) ==> s.contains(j) && !expired(j, newest, keep),
        forall|j: usize| #[trigger] expired_archives(s, newest, keep).contains(j) ==> s.contains(j) && expired(j, newest, keep),
    decreases s.len(),
{
    if s.len() > 0 {
        let p = s.drop_last();
        let x = s.last();
        lemma_split_archives(p, newest, keep);
        assert(s =~= p.push(x));
        let k = kept_archives(s, newest, keep);
        let e = expired_archives(s, newest, keep);
        let kp = kept_archives(p, newest, keep);
        let ep = expired_archives(p, newest, keep);
        if expired(x, newest, keep) {
            assert(e == ep.push(x));
            assert(k == kp);
        } else {
            assert(e == ep);
            assert(k == kp.push(x));
        }
        assert forall|j: usize| s.contains(j) implies (expired(j, newest, keep) ==> e.contains(j))
            && (!expired(j, newest, keep) ==> k.contains(j)) by {
            let i = choose|i: int| 0 <= i < s.len() && s[i] == j;
            if i < s.len() - 1 {
                assert(p[i] == j);
                assert(p.contains(j));
                if expired(j, newest, keep) {
                    assert(ep.contains(j));
                    let a = choose|a: int| 0 <= a < ep.len() && ep[a] == j;
                    assert(e[a] == j);
                } else {
                    assert(kp.contains(j));
                    let a = choose|a: int| 0 <= a < kp.len() && kp[a] == j;
                    assert(k[a] == j);
                }
            } else {
                if expired(j, newest, keep) { assert(e[e.len() - 1] == j); } else { assert(k[k.len() - 1] == j); }
            }
        }
        assert forall|j: usize| k.contains(j) implies s.contains(j) && !expired(j, newest, keep) by {
            let a = choose|a: int| 0 <= a < k.len() && k[a] == j;
            if !expired(x, newest, keep) && a == k.len() - 1 {
                assert(s[s.len() - 1] == j);
            } else {
                assert(kp[a] == j);
                assert(kp.contains(j));
                let i = choose|i: int| 0 <= i < p.len() && p[i] == j;
                assert(s[i] == j);
            }
        }
        assert forall|j: usize| e.contains(j) implies s.contains(j) && expired(j, newest, keep) by {
            let a = choose|a: int| 0 <= a < e.len() && e[a] == j;
            if expired(x, newest, keep) && a == e.len() - 1 {
                assert(s[s.len() - 1] == j);
            } else {
                assert(ep[a] == j);
                assert(ep.contains(j));
                let i = choose|i: int| 0 <= i < p.len() && p[i] == j;
                assert(s[i] == j);
            }
        }
    }
}

/// Every operation comes to an end: each step either finishes the operation,
/// leaving the appender idle, or moves it closer to its end.  An operation
/// finishes exactly when the appender becomes idle.
pub proof fn lemma_operations_terminate(m: AppenderModel, o: Outcome)
    requires
        resume_defined(m, o),
    ensures
        (resume_spec(m, o).1 is Finished) <==> resume_spec(m, o).0.stage == Stage::Idle,
        steps_left(resume_spec(m, o).0) < steps_left(m),
{
    if let Stage::Renaming { forced, index } = m.stage {
        lemma_split_archives(m.archives.push(index), index, m.max_file_count);
    }
}

/// A rollover closes the current file (its size restarts from zero); when
/// the file index `k` exceeds `max_file_count` (`N`), it first deletes the
/// numbered file `k - N`, whatever that deletion gives; then it renames the
/// current file to `k` and moves the file index on by one, whether or not the
/// rename then succeeds.  The files involved are all different.
pub proof fn lemma_rollover_removes_then_renames(m: AppenderModel, forced: bool, o: Outcome)
    ensures
        ({
            let closed = AppenderModel { writer_open: false, current_filesize: 0, ..m };
            let (m1, r1) = after_flush(m, forced);
            let (m2, r2) = start_rename(closed, forced);
            &&& m.file_index > m.max_file_count ==> {
                &&& r1 == RequestView::RemoveFile(file_name(m.suffix, (m.file_index - m.max_file_count) as nat))
                &&& resume_spec(m1, o) == (m2, r2)
            }
            &&& m.file_index <= m.max_file_count ==> (m1, r1) == (m2, r2)
            &&& r2 == (RequestView::RenameFile {
                from: file_name(m.suffix, 0),
                to: file_name(m.suffix, m.file_index as nat),
            })
            &&& m2.file_index == index_after(m.file_index)
            &&& !m2.writer_open
            &&& m2.current_filesize == 0
            &&& resume_spec(m2, Outcome::Failed) == fail_rollover(m2, forced)
        }),
        m.file_index > 0 ==> file_name(m.suffix, 0) != file_name(m.suffix, m.file_index as nat),
        m.file_index > m.max_file_count ==> file_name(m.suffix, 0)
            != file_name(m.suffix, (m.file_index - m.max_file_count) as nat),
        m.file_index > m.max_file_count > 0 ==> file_name(m.suffix, m.file_index as nat)
            != file_name(m.suffix, (m.file_index - m.max_file_count) as nat),
{
    if m.file_index > 0 {
        lemma_file_names_distinct(m.suffix, 0, m.file_index as nat);
    }
    if m.file_index > m.max_file_count {
        lemma_file_names_distinct(m.suffix, 0, (m.file_index - m.max_file_count) as nat);
        if m.max_file_count > 0 {
            lemma_file_names_distinct(m.suffix, m.file_index as nat, (m.file_index - m.max_file_count) as nat);
        }
    }
}

/// After the rename to `index`, the numbered files deleted are exactly the
/// known ones at least `max_file_count` indices behind `index`; the others
/// stay known.
pub proof fn lemma_rename_prunes_expired(m: AppenderModel, forced: bool, index: usize, j: usize)
    ensures
        ({
            let all = m.archives.push(index);
            let m1 = AppenderModel {
                archives: kept_archives(all, index, m.max_file_count),
                removals: expired_archives(all, index, m.max_file_count),
                ..m
            };
            &&& after_rename(m, forced, index) == next_removal(m1, forced)
            &&& all.contains(j) ==> (m1.removals.contains(j) <==> expired(j, index, m.max_file_count))
            &&& all.contains(j) ==> (m1.archives.contains(j) <==> !expired(j, index, m.max_file_count))
            &&& m1.archives.contains(j) || m1.removals.contains(j) ==> all.contains(j)
        }),
{
    lemma_split_archives(m.archives.push(index), index, m.max_file_count);
}

/// A write that needs no rollover, to an open current file, grows the file by
/// the bytes written and ends with success.
pub proof fn lemma_plain_write_grows_file(m: AppenderModel, len: usize)
    requires
        m.stage == Stage::Idle,
        m.writer_open,
        m.current_filesize + len <= u64::MAX,
    ensures
        begin_write_spec(m, false, len).1 == RequestView::WriteBuffer,
        resume_defined(begin_write_spec(m, false, len).0, Outcome::Succeeded),
        resume_spec(begin_write_spec(m, false, len).0, Outcome::Succeeded)
            == (AppenderModel { current_filesize: (m.current_filesize + len) as u64, pending_len: len, ..m },
                RequestView::Finished(true)),
{
}

/// What performing request `r` does to a directory (file names and their
/// contents) when no file operation fails.  `buf` is the buffer being
/// written; the file the appender writes to is always its current file.
pub open spec fn perform_ideal(
    m: AppenderModel,
    dir: Map<Seq<char>, Seq<u8>>,
    r: RequestView,
    buf: Seq<u8>,
) -> (Map<Seq<char>, Seq<u8>>, Outcome) {
    match r {
        RequestView::RemoveFile(name) => (dir.remove(name), Outcome::Succeeded),
        RequestView::RenameFile { from, to } => {
            if dir.dom().contains(from) {
                (dir.remove(from).insert(to, dir[from]), Outcome::Succeeded)
            } else {
                (dir, Outcome::NotFound)
            }
        },
        RequestView::OpenFile(name) => {
            if dir.dom().contains(name) {
                (dir, Outcome::Opened(dir[name].len() as u64))
            } else {
                (dir.insert(name, Seq::empty()), Outcome::Opened(0))
            }
        },
        RequestView::WriteBuffer => (dir.insert(current_name(m), dir[current_name(m)] + buf), Outcome::Succeeded),
        _ => (dir, Outcome::Succeeded),
    }
}

/// Runs an operation on a directory where no file operation fails, starting
/// from request `r`, for at most `fuel` steps: the final state, directory
/// and request.
pub open spec fn run_ideal(
    m: AppenderModel,
    dir: Map<Seq<char>, Seq<u8>>,
    r: RequestView,
    buf: Seq<u8>,
    fuel: nat,
) -> (AppenderModel, Map<Seq<char>, Seq<u8>>, RequestView)
    decreases fuel,
{
    if fuel == 0 || r is Finished {
        (m, dir, r)
    } else {
        let (dir2, o) = perform_ideal(m, dir, r, buf);
        let (m2, r2) = resume_spec(m, o);
        run_ideal(m2, dir2, r2, buf, (fuel - 1) as nat)
    }
}

/// A directory with the numbered files of the indices in `s` deleted, the
/// last index first.
pub open spec fn remove_names(dir: Map<Seq<char>, Seq<u8>>, suffix: Seq<char>, s: Seq<usize>) -> Map<Seq<char>, Seq<u8>>
    decreases s.len(),
{
    if s.len() == 0 {
        dir
    } else {
        remove_names(dir.remove(file_name(suffix, s.last() as nat)), suffix, s.drop_last())
    }
}

proof fn lemma_remove_names(dir: Map<Seq<char>, Seq<u8>>, suffix: Seq<char>, s: Seq<usize>)
    ensures
        forall|n: Seq<char>| #[trigger] remove_names(dir, suffix, s).dom().contains(n)
            ==> dir.dom().contains(n) && remove_names(dir, suffix, s)[n] == dir[n],
        forall|j: usize| s.contains(j) ==> !(#[trigger] remove_names(dir, suffix, s).dom().contains(file_name(suffix, j as nat))),
        forall|n: Seq<char>|
            dir.dom().contains(n) && (forall|j: usize| s.contains(j) ==> n != file_name(suffix, j as nat))
                ==> #[trigger] remove_names(dir, suffix, s).dom().contains(n),
    decreases s.len(),
{
    if s.len() > 0 {
        let d1 = dir.remove(file_name(suffix, s.last() as nat));
        let r = remove_names(dir, suffix, s);
        assert(r == remove_names(d1, suffix, s.drop_last()));
        lemma_remove_names(d1, suffix, s.drop_last());
        assert forall|n: Seq<char>| #[trigger] r.dom().contains(n) implies dir.dom().contains(n) && r[n] == dir[n] by {
            assert(d1.dom().contains(n));
        }
        assert forall|j: usize| s.contains(j) implies !r.dom().contains(file_name(suffix, j as nat)) by {
            let i = choose|i: int| 0 <= i < s.len() && s[i] == j;
            if i < s.len() - 1 {
                assert(s.drop_last()[i] == j);
                assert(s.drop_last().contains(j));
            } else {
                if r.dom().contains(file_name(suffix, j as nat)) {
                    assert(d1.dom().contains(file_name(suffix, j as nat)));
                }
            }
        }
        assert forall|n: Seq<char>|
            dir.dom().contains(n) && (forall|j: usize| s.contains(j) ==> n != file_name(suffix, j as nat))
            implies #[trigger] r.dom().contains(n) by {
            assert(s[s.len() - 1] == s.last());
            assert(s.contains(s.last()));
            assert(d1.dom().contains(n));
            assert forall|j: usize| s.drop_last().contains(j) implies n != file_name(suffix, j as nat) by {
                let i = choose|i: int| 0 <= i < s.drop_last().len() && s.drop_last()[i] == j;
                assert(s[i] == j);
                assert(s.contains(j));
            }
        }
    }
}

/// Deleting the pending numbered files one by one, on a directory where no
/// file operation fails, ends with the current file being reopened.
proof fn lemma_prune_run(m: AppenderModel, dir: Map<Seq<char>, Seq<u8>>, forced: bool, buf: Seq<u8>, fuel: nat)
    requires
        fuel >= m.removals.len(),
    ensures
        run_ideal(next_removal(m, forced).0, dir, next_removal(m, forced).1, buf, fuel) == run_ideal(
            AppenderModel { removals: Seq::empty(), stage: Stage::Reopening { forced, retried: false }, ..m },
            remove_names(dir, m.suffix, m.removals),
            RequestView::OpenFile(current_name(m)),
            buf,
            (fuel - m.removals.len()) as nat,
        ),
    decreases m.removals.len(),
{
    if m.removals.len() == 0 {
        assert(m.removals =~= Seq::<usize>::empty());
    } else {
        let (m1, r1) = next_removal(m, forced);
        let d1 = dir.remove(file_name(m.suffix, m.removals.last() as nat));
        assert(perform_ideal(m1, dir, r1, buf) == (d1, Outcome::Succeeded));
        assert(resume_spec(m1, Outcome::Succeeded) == next_removal(m1, forced));
        lemma_prune_run(m1, d1, forced, buf, (fuel - 1) as nat);
        assert(AppenderModel { removals: Seq::empty(), stage: Stage::Reopening { forced, retried: false }, ..m1 }
            == AppenderModel { removals: Seq::empty(), stage: Stage::Reopening { forced, retried: false }, ..m });
    }
}

/// The directory after the deletion that a rollover makes before renaming:
/// the numbered file `max_file_count` indices behind the file index, when
/// the file index exceeds `max_file_count`.
pub open spec fn early_removal(m: AppenderModel, dir: Map<Seq<char>, Seq<u8>>) -> Map<Seq<char>, Seq<u8>> {
    if m.file_index > m.max_file_count {
        dir.remove(file_name(m.suffix, (m.file_index - m.max_file_count) as nat))
    } else {
        dir
    }
}

/// The directory after a rollover where no file operation fails, before the
/// fresh current file is created: the current file renamed to the file
/// index, then the expired numbered files deleted.
pub open spec fn rolled_directory(m: AppenderModel, dir: Map<Seq<char>, Seq<u8>>) -> Map<Seq<char>, Seq<u8>> {
    let fi = m.file_index;
    let before = early_removal(m, dir);
    let renamed = before.remove(current_name(m)).insert(file_name(m.suffix, fi as nat), before[current_name(m)]);
    remove_names(renamed, m.suffix, expired_archives(m.archives.push(fi), fi, m.max_file_count))
}

/// The state after a rollover where no file operation fails.
pub open spec fn rolled_model(m: AppenderModel) -> AppenderModel {
    AppenderModel {
        file_index: index_after(m.file_index),
        writer_open: true,
        current_filesize: 0,
        stage: Stage::Idle,
        archives: kept_archives(m.archives.push(m.file_index), m.file_index, m.max_file_count),
        removals: Seq::empty(),
        ..m
    }
}

/// How far the run of a rollover goes on a directory where no file
/// operation fails: a forced one ends with an empty current file, one inside
/// a write with the buffer in it.
proof fn lemma_rollover_run(m: AppenderModel, dir: Map<Seq<char>, Seq<u8>>, forced: bool, buf: Seq<u8>, fuel: nat)
    requires
        m.stage == (Stage::Flushing { forced }),
        dir.dom().contains(current_name(m)),
        m.file_index > 0,
        fuel >= m.archives.len() + 7,
    ensures
        forced ==> run_ideal(m, dir, RequestView::FlushAndClose, buf, fuel) == (
            rolled_model(m),
            rolled_directory(m, dir).insert(current_name(m), Seq::empty()),
            RequestView::Finished(true),
        ),
        !forced ==> run_ideal(m, dir, RequestView::FlushAndClose, buf, fuel) == (
            AppenderModel { current_filesize: (0 + m.pending_len) as u64, ..rolled_model(m) },
            rolled_directory(m, dir).insert(current_name(m), buf),
            RequestView::Finished(true),
        ),
{
    let cur = current_name(m);
    let fi = m.file_index;
    let all = m.archives.push(fi);
    lemma_split_archives(all, fi, m.max_file_count);
    lemma_file_names_distinct(m.suffix, 0, fi as nat);
    let closed = AppenderModel { writer_open: false, current_filesize: 0, ..m };
    let (ma, ra) = after_flush(m, forced);
    let (m1, r1) = start_rename(closed, forced);
    let dir0 = early_removal(m, dir);
    lemma_rollover_removes_then_renames(m, forced, Outcome::Succeeded);
    assert(dir0.dom().contains(cur) && dir0[cur] == dir[cur]);
    assert(perform_ideal(m, dir, RequestView::FlushAndClose, buf) == (dir, Outcome::Succeeded));
    assert(resume_spec(m, Outcome::Succeeded) == (ma, ra));
    let f1: nat = if fi > m.max_file_count { (fuel - 2) as nat } else { (fuel - 1) as nat };
    assert(run_ideal(m, dir, RequestView::FlushAndClose, buf, fuel) == run_ideal(ma, dir, ra, buf, (fuel - 1) as nat));
    if fi > m.max_file_count {
        assert(perform_ideal(ma, dir, ra, buf) == (dir0, Outcome::Succeeded));
        assert(run_ideal(ma, dir, ra, buf, (fuel - 1) as nat) == run_ideal(m1, dir0, r1, buf, f1));
    }
    assert(run_ideal(m, dir, RequestView::FlushAndClose, buf, fuel) == run_ideal(m1, dir0, r1, buf, f1));
    let renamed = dir0.remove(cur).insert(file_name(m.suffix, fi as nat), dir0[cur]);
    assert(perform_ideal(m1, dir0, r1, buf) == (renamed, Outcome::Succeeded));
    let m2 = AppenderModel {
        archives: kept_archives(all, fi, m.max_file_count),
        removals: expired_archives(all, fi, m.max_file_count),
        ..m1
    };
    assert(resume_spec(m1, Outcome::Succeeded) == next_removal(m2, forced));
    lemma_prune_run(m2, renamed, forced, buf, (f1 - 1) as nat);
    let m3 = AppenderModel { removals: Seq::empty(), stage: Stage::Reopening { forced, retried: false }, ..m2 };
    let d2 = rolled_directory(m, dir);
    assert(d2 == remove_names(renamed, m.suffix, m2.removals));
    lemma_remove_names(renamed, m.suffix, m2.removals);
    assert(!d2.dom().contains(cur));
    let d3 = d2.insert(cur, Seq::empty());
    assert(perform_ideal(m3, d2, RequestView::OpenFile(cur), buf) == (d3, Outcome::Opened(0)));
    let f3 = (f1 - 1 - m2.removals.len()) as nat;
    assert(f3 >= 2);
    assert(run_ideal(m1, dir0, r1, buf, f1)
        == run_ideal(next_removal(m2, forced).0, renamed, next_removal(m2, forced).1, buf, (f1 - 1) as nat));
    assert(run_ideal(m, dir, RequestView::FlushAndClose, buf, fuel)
        == run_ideal(m3, d2, RequestView::OpenFile(cur), buf, f3));
    if forced {
        assert(resume_spec(m3, Outcome::Opened(0)) == (rolled_model(m), RequestView::Finished(true)));
        assert(run_ideal(m3, d2, RequestView::OpenFile(cur), buf, f3)
            == run_ideal(rolled_model(m), d3, RequestView::Finished(true), buf, (f3 - 1) as nat));
        assert(run_ideal(rolled_model(m), d3, RequestView::Finished(true), buf, (f3 - 1) as nat)
            == (rolled_model(m), d3, RequestView::Finished(true)));
    } else {
        let m4 = AppenderModel { stage: Stage::Writing, ..rolled_model(m) };
        assert(resume_spec(m3, Outcome::Opened(0)) == (m4, RequestView::WriteBuffer));
        assert(d3[cur] + buf =~= buf);
        let d4 = d3.insert(cur, buf);
        assert(d4 =~= d2.insert(cur, buf));
        assert(perform_ideal(m4, d3, RequestView::WriteBuffer, buf) == (d4, Outcome::Succeeded));
        let m5 = AppenderModel { current_filesize: (0 + m.pending_len) as u64, ..rolled_model(m) };
        assert(resume_spec(m4, Outcome::Succeeded) == (m5, RequestView::Finished(true)));
        assert(run_ideal(m3, d2, RequestView::OpenFile(cur), buf, f3)
            == run_ideal(m4, d3, RequestView::WriteBuffer, buf, (f3 - 1) as nat));
        assert(run_ideal(m4, d3, RequestView::WriteBuffer, buf, (f3 - 1) as nat)
            == run_ideal(m5, d4, RequestView::Finished(true), buf, (f3 - 2) as nat));
        assert(run_ideal(m5, d4, RequestView::Finished(true), buf, (f3 - 2) as nat)
            == (m5, d4, RequestView::Finished(true)));
    }
}

/// Every numbered file in `dir` is one the appender knows of, and every
/// index it knows of lies below the file index.
pub open spec fn archives_tracked(m: AppenderModel, dir: Map<Seq<char>, Seq<u8>>) -> bool {
    &&& forall|j: usize| j > 0 && #[trigger] dir.dom().contains(file_name(m.suffix, j as nat)) ==> m.archives.contains(j)
    &&& forall|j: usize| #[trigger] m.archives.contains(j) ==> j < m.file_index
}

/// Every numbered file in `dir` has one of the `max_file_count` indices just
/// below the file index: at most `max_file_count` numbered files exist.
pub open spec fn archives_within_window(m: AppenderModel, dir: Map<Seq<char>, Seq<u8>>) -> bool {
    forall|j: usize| j > 0 && #[trigger] dir.dom().contains(file_name(m.suffix, j as nat))
        ==> m.file_index - m.max_file_count <= j < m.file_index
}

/// Every index in the window of the `max_file_count` indices below the file
/// index (above 0) has its numbered file in `dir`.
pub open spec fn archives_complete(m: AppenderModel, dir: Map<Seq<char>, Seq<u8>>) -> bool {
    forall|j: usize|
        #![trigger file_name(m.suffix, j as nat)]
        0 < j < m.file_index && m.file_index - m.max_file_count <= j ==> dir.dom().contains(file_name(m.suffix, j as nat))
}

/// What a rollover leaves in the directory, whatever the fresh current file
/// then holds (`c`).
proof fn lemma_rolled_directory(m: AppenderModel, dir: Map<Seq<char>, Seq<u8>>, c: Seq<u8>)
    requires
        archives_tracked(m, dir),
        dir.dom().contains(current_name(m)),
        0 < m.file_index < usize::MAX,
    ensures
        ({
            let d = rolled_directory(m, dir).insert(current_name(m), c);
            let rolled = file_name(m.suffix, m.file_index as nat);
            &&& archives_tracked(rolled_model(m), d)
            &&& archives_within_window(rolled_model(m), d)
            &&& archives_complete(m, dir) ==> archives_complete(rolled_model(m), d)
            &&& m.max_file_count > 0 ==> d.dom().contains(rolled) && d[rolled] == dir[current_name(m)]
            &&& m.max_file_count == 0 ==> !d.dom().contains(rolled)
            &&& m.file_index > m.max_file_count ==> !d.dom().contains(
                file_name(m.suffix, (m.file_index - m.max_file_count) as nat))
            &&& d.dom().contains(current_name(m)) && d[current_name(m)] == c
            &&& rolled_model(m).file_index == m.file_index + 1
        }),
{
    let fi = m.file_index;
    let n = m.max_file_count;
    let cur = current_name(m);
    let all = m.archives.push(fi);
    let rolled = file_name(m.suffix, fi as nat);
    let before = early_removal(m, dir);
    let renamed = before.remove(cur).insert(rolled, before[cur]);
    let gone = expired_archives(all, fi, n);
    let kept = kept_archives(all, fi, n);
    let r = rolled_directory(m, dir);
    let d = r.insert(cur, c);
    let m2 = rolled_model(m);
    lemma_split_archives(all, fi, n);
    lemma_remove_names(renamed, m.suffix, gone);
    lemma_file_names_distinct(m.suffix, 0, fi as nat);
    if fi > n {
        lemma_file_names_distinct(m.suffix, 0, (fi - n) as nat);
    }
    assert(before.dom().contains(cur) && before[cur] == dir[cur]);
    assert(all[all.len() - 1] == fi);
    assert(all.contains(fi));
    assert forall|j: usize| j > 0 && #[trigger] d.dom().contains(file_name(m.suffix, j as nat)) implies kept.contains(j) && j <= fi by {
        let nj = file_name(m.suffix, j as nat);
        lemma_file_names_distinct(m.suffix, 0, j as nat);
        assert(r.dom().contains(nj));
        assert(renamed.dom().contains(nj));
        if j != fi {
            lemma_file_names_distinct(m.suffix, j as nat, fi as nat);
            assert(before.dom().contains(nj));
            assert(dir.dom().contains(nj));
            assert(m.archives.contains(j));
            let i = choose|i: int| 0 <= i < m.archives.len() && m.archives[i] == j;
            assert(all[i] == j);
        }
        assert(all.contains(j));
        if gone.contains(j) {
            assert(!r.dom().contains(nj));
        }
    }
    assert forall|j: usize| #[trigger] kept.contains(j) implies j < m2.file_index by {
        assert(all.contains(j));
        let i = choose|i: int| 0 <= i < all.len() && all[i] == j;
        if i < all.len() - 1 {
            assert(m.archives[i] == j);
            assert(m.archives.contains(j));
        }
    }
    if n > 0 {
        assert(!expired(fi, fi, n));
        assert(!gone.contains(fi));
        assert(renamed.dom().contains(rolled));
        assert forall|j: usize| gone.contains(j) implies rolled != file_name(m.suffix, j as nat) by {
            if j != fi {
                lemma_file_names_distinct(m.suffix, j as nat, fi as nat);
            }
        }
        assert(r.dom().contains(rolled));
        assert(r[rolled] == renamed[rolled]);
        assert(d.dom().contains(rolled) && d[rolled] == dir[cur]);
    } else {
        assert(gone.contains(fi));
        assert(!d.dom().contains(rolled));
    }
    if fi > n {
        let early = file_name(m.suffix, (fi - n) as nat);
        if n > 0 {
            lemma_file_names_distinct(m.suffix, (fi - n) as nat, fi as nat);
            assert(!before.dom().contains(early));
            assert(!renamed.dom().contains(early));
            assert(!r.dom().contains(early));
        } else {
            assert(!r.dom().contains(rolled));
        }
        assert(!d.dom().contains(early));
    }
    if archives_complete(m, dir) {
        assert forall|j: usize| 0 < j < m2.file_index && m2.file_index - m2.max_file_count <= j
            implies #[trigger] d.dom().contains(file_name(m.suffix, j as nat)) by {
            let nj = file_name(m.suffix, j as nat);
            lemma_file_names_distinct(m.suffix, 0, j as nat);
            if j != fi {
                assert(dir.dom().contains(nj));
                if fi > n {
                    lemma_file_names_distinct(m.suffix, j as nat, (fi - n) as nat);
                }
                assert(before.dom().contains(nj));
                assert(renamed.dom().contains(nj));
                assert forall|g: usize| gone.contains(g) implies nj != file_name(m.suffix, g as nat) by {
                    if g != j {
                        lemma_file_names_distinct(m.suffix, j as nat, g as nat);
                    }
                }
                assert(r.dom().contains(nj));
            }
        }
    }
    assert(archives_tracked(m2, d));
    assert(archives_within_window(m2, d));
}

/// A rollover asked for directly, where no file operation fails: it ends
/// with success; the current file's contents move to the file with the file
/// index (which is deleted again when `max_file_count` is 0); the known
/// numbered files at least `max_file_count` indices behind are deleted; a
/// fresh, empty current file is open; and afterwards at most
/// `max_file_count` numbered files exist, all just below the new file index.
pub proof fn lemma_forced_rollover_on_directory(m: AppenderModel, dir: Map<Seq<char>, Seq<u8>>)
    requires
        m.stage == Stage::Idle,
        dir.dom().contains(current_name(m)),
        archives_tracked(m, dir),
        0 < m.file_index < usize::MAX,
    ensures
        ({
            let rolled = file_name(m.suffix, m.file_index as nat);
            let (m2, d2, r2) = run_ideal(
                AppenderModel { stage: Stage::Flushing { forced: true }, ..m },
                dir,
                RequestView::FlushAndClose,
                Seq::empty(),
                m.archives.len() + 8,
            );
            &&& r2 == RequestView::Finished(true)
            &&& m2 == rolled_model(m)
            &&& m2.file_index == m.file_index + 1
            &&& d2.dom().contains(current_name(m)) && d2[current_name(m)] == Seq::<u8>::empty()
            &&& m.max_file_count > 0 ==> d2.dom().contains(rolled) && d2[rolled] == dir[current_name(m)]
            &&& m.max_file_count == 0 ==> !d2.dom().contains(rolled)
            &&& m.file_index > m.max_file_count ==> !d2.dom().contains(
                file_name(m.suffix, (m.file_index - m.max_file_count) as nat))
            &&& archives_tracked(m2, d2)
            &&& archives_within_window(m2, d2)
            &&& archives_complete(m, dir) ==> archives_complete(m2, d2)
        }),
{
    let m0 = AppenderModel { stage: Stage::Flushing { forced: true }, ..m };
    lemma_rollover_run(m0, dir, true, Seq::empty(), m.archives.len() + 8);
    assert(rolled_model(m0) == rolled_model(m));
    assert(rolled_directory(m0, dir) == rolled_directory(m, dir));
    lemma_rolled_directory(m, dir, Seq::empty());
}

/// A write that rolls over, where no file operation fails: as a forced
/// rollover, except that the fresh current file holds the buffer written.
pub proof fn lemma_rollover_write_on_directory(m: AppenderModel, dir: Map<Seq<char>, Seq<u8>>, buf: Seq<u8>)
    requires
        m.stage == Stage::Idle,
        dir.dom().contains(current_name(m)),
        archives_tracked(m, dir),
        0 < m.file_index < usize::MAX,
        buf.len() <= usize::MAX,
    ensures
        ({
            let rolled = file_name(m.suffix, m.file_index as nat);
            let (m1, r1) = begin_write_spec(m, true, buf.len() as usize);
            let (m2, d2, r2) = run_ideal(m1, dir, r1, buf, m.archives.len() + 8);
            &&& r1 == RequestView::FlushAndClose
            &&& r2 == RequestView::Finished(true)
            &&& m2 == AppenderModel {
                current_filesize: buf.len() as u64,
                pending_len: buf.len() as usize,
                ..rolled_model(m)
            }
            &&& d2.dom().contains(current_name(m)) && d2[current_name(m)] == buf
            &&& m.max_file_count > 0 ==> d2.dom().contains(rolled) && d2[rolled] == dir[current_name(m)]
            &&& m.max_file_count == 0 ==> !d2.dom().contains(rolled)
            &&& m.file_index > m.max_file_count ==> !d2.dom().contains(
                file_name(m.suffix, (m.file_index - m.max_file_count) as nat))
            &&& archives_tracked(m2, d2)
            &&& archives_within_window(m2, d2)
            &&& archives_complete(m, dir) ==> archives_complete(m2, d2)
        }),
{
    let (m1, r1) = begin_write_spec(m, true, buf.len() as usize);
    lemma_rollover_run(m1, dir, false, buf, m.archives.len() + 8);
    assert(rolled_model(m1) == AppenderModel { pending_len: buf.len() as usize, ..rolled_model(m) });
    assert(rolled_directory(m1, dir) == rolled_directory(m, dir));
    lemma_rolled_directory(m, dir, buf);
}

/// A write that needs no rollover, to an open current file, where no file
/// operation fails: it appends the buffer to the current file, grows the
/// size by its length, and leaves every other file, and the file index,
/// alone.
pub proof fn lemma_write_appends_to_current_file(m: AppenderModel, dir: Map<Seq<char>, Seq<u8>>, buf: Seq<u8>)
    requires
        m.stage == Stage::Idle,
        m.writer_open,
        dir.dom().contains(current_name(m)),
        buf.len() <= usize::MAX,
    ensures
        ({
            let (m1, r1) = begin_write_spec(m, false, buf.len() as usize);
            let (m2, dir2, r2) = run_ideal(m1, dir, r1, buf, m.archives.len() + 8);
            &&& r2 == RequestView::Finished(true)
            &&& dir2 == dir.insert(current_name(m), dir[current_name(m)] + buf)
            &&& m2 == AppenderModel {
                current_filesize: (m.current_filesize + buf.len()) as u64,
                pending_len: buf.len() as usize,
                ..m
            }
            &&& archives_tracked(m, dir) ==> archives_tracked(m2, dir2)
            &&& archives_within_window(m, dir) ==> archives_within_window(m2, dir2)
            &&& archives_complete(m, dir) ==> archives_complete(m2, dir2)
        }),
{
    reveal_with_fuel(run_ideal, 3);
    let (m1, r1) = begin_write_spec(m, false, buf.len() as usize);
    let (m2, dir2, r2) = run_ideal(m1, dir, r1, buf, m.archives.len() + 8);
    assert forall|j: usize| j > 0 && #[trigger] dir2.dom().contains(file_name(m.suffix, j as nat))
        implies dir.dom().contains(file_name(m.suffix, j as nat)) by {
        lemma_file_names_distinct(m.suffix, 0, j as nat);
    }
    if archives_complete(m, dir) {
        assert forall|j: usize| 0 < j < m2.file_index && m2.file_index - m2.max_file_count <= j
            implies #[trigger] dir2.dom().contains(file_name(m.suffix, j as nat)) by {
            lemma_file_names_distinct(m.suffix, 0, j as nat);
        }
    }
}

/// An operation on the log: a write of `buf` (rolling over or not), or a
/// rollover asked for directly.
pub enum Operation {
    Write { roll: bool, buf: Seq<u8> },
    Rollover,
}

/// Whether an operation rolls the current file over.
pub open spec fn rolls_over(op: Operation) -> bool {
    match op {
        Operation::Write { roll, .. } => roll,
        Operation::Rollover => true,
    }
}

/// Performing an operation where no file operation fails: the state and
/// directory afterwards.
pub open spec fn run_operation(m: AppenderModel, dir: Map<Seq<char>, Seq<u8>>, op: Operation)
    -> (AppenderModel, Map<Seq<char>, Seq<u8>>)
{
    match op {
        Operation::Write { roll, buf } => {
            let (m1, r1) = begin_write_spec(m, roll, buf.len() as usize);
            let (m2, d2, _r2) = run_ideal(m1, dir, r1, buf, m.archives.len() + 8);
            (m2, d2)
        },
        Operation::Rollover => {
            let (m2, d2, _r2) = run_ideal(
                AppenderModel { stage: Stage::Flushing { forced: true }, ..m },
                dir,
                RequestView::FlushAndClose,
                Seq::empty(),
                m.archives.len() + 8,
            );
            (m2, d2)
        },
    }
}

/// Performing a sequence of operations, first to last.
pub open spec fn run_operations(m: AppenderModel, dir: Map<Seq<char>, Seq<u8>>, ops: Seq<Operation>)
    -> (AppenderModel, Map<Seq<char>, Seq<u8>>)
    decreases ops.len(),
{
    if ops.len() == 0 {
        (m, dir)
    } else {
        let (m1, d1) = run_operations(m, dir, ops.drop_last());
        run_operation(m1, d1, ops.last())
    }
}

/// An idle appender with its current file open and present, a positive file
/// index, and every numbered file in the directory known to it.
pub open spec fn steady(m: AppenderModel, dir: Map<Seq<char>, Seq<u8>>) -> bool {
    &&& m.stage == Stage::Idle
    &&& m.writer_open
    &&& dir.dom().contains(current_name(m))
    &&& 0 < m.file_index
    &&& archives_tracked(m, dir)
}

proof fn lemma_operation_keeps(m: AppenderModel, dir: Map<Seq<char>, Seq<u8>>, op: Operation)
    requires
        steady(m, dir),
        m.file_index < usize::MAX,
        op matches Operation::Write { buf, .. } ==> buf.len() <= usize::MAX,
    ensures
        steady(run_operation(m, dir, op).0, run_operation(m, dir, op).1),
        run_operation(m, dir, op).0.file_index <= m.file_index + 1,
        run_operation(m, dir, op).0.file_index >= m.file_index,
        archives_within_window(m, dir) || rolls_over(op) ==> archives_within_window(
            run_operation(m, dir, op).0,
            run_operation(m, dir, op).1,
        ),
        archives_complete(m, dir) ==> archives_complete(run_operation(m, dir, op).0, run_operation(m, dir, op).1),
{
    match op {
        Operation::Write { roll, buf } => {
            if roll {
                lemma_rollover_write_on_directory(m, dir, buf);
            } else {
                lemma_write_appends_to_current_file(m, dir, buf);
            }
        },
        Operation::Rollover => {
            lemma_forced_rollover_on_directory(m, dir);
        },
    }
}

/// Over any sequence of writes and rollovers where no file operation fails,
/// the appender stays steady and keeps track of every numbered file; once a
/// rollover has happened, the directory never holds more than
/// `max_file_count` numbered files, all with the indices just below the
/// file index; and when every index of that window had its file, every one
/// still has.
pub proof fn lemma_retention_over_operations(m: AppenderModel, dir: Map<Seq<char>, Seq<u8>>, ops: Seq<Operation>)
    requires
        steady(m, dir),
        m.file_index + ops.len() < usize::MAX,
        forall|i: int| 0 <= i < ops.len() ==> (#[trigger] ops[i] matches Operation::Write { buf, .. } ==> buf.len() <= usize::MAX),
    ensures
        steady(run_operations(m, dir, ops).0, run_operations(m, dir, ops).1),
        run_operations(m, dir, ops).0.file_index <= m.file_index + ops.len(),
        archives_within_window(m, dir) || (exists|i: int| 0 <= i < ops.len() && rolls_over(#[trigger] ops[i]))
            ==> archives_within_window(run_operations(m, dir, ops).0, run_operations(m, dir, ops).1),
        archives_complete(m, dir) ==> archives_complete(run_operations(m, dir, ops).0, run_operations(m, dir, ops).1),
    decreases ops.len(),
{
    if ops.len() > 0 {
        let p = ops.drop_last();
        assert forall|i: int| 0 <= i < p.len() implies (#[trigger] p[i] matches Operation::Write { buf, .. } ==> buf.len() <= usize::MAX) by {
            assert(p[i] == ops[i]);
        }
        lemma_retention_over_operations(m, dir, p);
        let (m1, d1) = run_operations(m, dir, p);
        assert(ops[ops.len() - 1] == ops.last());
        lemma_operation_keeps(m1, d1, ops.last());
        if exists|i: int| 0 <= i < ops.len() && rolls_over(#[trigger] ops[i]) {
            let i = choose|i: int| 0 <= i < ops.len() && rolls_over(#[trigger] ops[i]);
            if i < ops.len() - 1 {
                assert(p[i] == ops[i]);
            }
        }
    }
}

/// An appender over a directory without numbered files, whose file index is
/// 1 (as one created over such a directory), has exactly the numbered files
/// of its window: none.
pub proof fn lemma_fresh_directory_is_exact(m: AppenderModel, dir: Map<Seq<char>, Seq<u8>>)
    requires
        m.file_index == 1,
        forall|j: usize| j > 0 ==> !(#[trigger] dir.dom().contains(file_name(m.suffix, j as nat))),
    ensures
        archives_within_window(m, dir),
        archives_complete(m, dir),
{
}

/// Starting from exactly the numbered files of the window, any sequence of
/// writes and rollovers where no file operation fails leaves exactly the
/// numbered files of the new window: those with the indices from
/// `file_index - max_file_count` (and at least 1) up to `file_index - 1`.
/// The newest numbered file has the highest index.
pub proof fn lemma_archives_exactly_window(m: AppenderModel, dir: Map<Seq<char>, Seq<u8>>, ops: Seq<Operation>)
    requires
        steady(m, dir),
        archives_within_window(m, dir),
        archives_complete(m, dir),
        m.file_index + ops.len() < usize::MAX,
        forall|i: int| 0 <= i < ops.len() ==> (#[trigger] ops[i] matches Operation::Write { buf, .. } ==> buf.len() <= usize::MAX),
    ensures
        ({
            let (m2, d2) = run_operations(m, dir, ops);
            forall|j: usize| j > 0 ==> (#[trigger] d2.dom().contains(file_name(m2.suffix, j as nat))
                <==> (m2.file_index - m2.max_file_count <= j < m2.file_index))
        }),
{
    lemma_retention_over_operations(m, dir, ops);
    let (m2, d2) = run_operations(m, dir, ops);
    assert forall|j: usize| j > 0 implies (#[trigger] d2.dom().contains(file_name(m2.suffix, j as nat))
        <==> (m2.file_index - m2.max_file_count <= j < m2.file_index)) by {
        if m2.file_index - m2.max_file_count <= j < m2.file_index {
            assert(d2.dom().contains(file_name(m2.suffix, j as nat)));
        }
    }
}

/// Writes data to a file, and "rolls over" to preserve older data in a
/// separate set of files.  Old files are named `<suffix>.<n>.log`, with `n`
/// growing by one at every rollover; the current one is
/// `<suffix>.current.log`.  At most `max_file_count` numbered files are kept.
pub struct RollingFileAppender<RC> {
    condition: RC,
    suffix: String,
    file_index: usize,
    max_file_count: usize,
    current_filesize: u64,
    writer_open: bool,
    stage: Stage,
    pending_len: usize,
    archives: Vec<usize>,
    removals: Vec<usize>,
}

/// A rolling file appender with a rolling condition based on date/time or
/// size.
pub type RollingFileAppenderBase = RollingFileAppender<RollingConditionBase>;

impl<RC> View for RollingFileAppender<RC> {
    type V = AppenderModel;

    closed spec fn view(&self) -> AppenderModel {
        AppenderModel {
            suffix: self.suffix@,
            file_index: self.file_index,
            max_file_count: self.max_file_count,
            current_filesize: self.current_filesize,
            writer_open: self.writer_open,
            stage: self.stage,
            pending_len: self.pending_len,
            archives: self.archives@,
            removals: self.removals@,
        }
    }
}

impl<RC: RollingCondition> RollingFileAppender<RC> {
    /// The appender's rolling condition.
    pub closed spec fn rolling_condition(&self) -> RC {
        self.condition
    }

    /// Creates an idle appender whose current file is not open yet, knowing
    /// of the numbered files with the indices `archives` (those found in the
    /// log directory).  The next rollover gives the current file the index
    /// after the largest of them, or 1 when there are none.
    pub fn new(suffix: &str, condition: RC, max_file_count: usize, archives: Vec<usize>) -> (r: Self)
        requires
            forall|i: int| 0 <= i < archives@.len() ==> archives@[i] < usize::MAX,
        ensures
            r@.suffix == suffix@,
            r@.max_file_count == max_file_count,
            r@.current_filesize == 0,
            !r@.writer_open,
            r@.stage == Stage::Idle,
            r@.pending_len == 0,
            r@.archives == archives@,
            r@.removals == Seq::<usize>::empty(),
            archives@.len() == 0 ==> r@.file_index == 1,
            archives@.len() > 0 ==> exists|i: int| 0 <= i < archives@.len() && r@.file_index == archives@[i] + 1,
            forall|i: int| 0 <= i < archives@.len() ==> archives@[i] < r@.file_index,
            r.rolling_condition() == condition,
    {
        let file_index = crate::scan::next_file_index(&archives);
        RollingFileAppender {
            condition,
            suffix: suffix.to_owned(),
            file_index,
            max_file_count,
            current_filesize: 0,
            writer_open: false,
            stage: Stage::Idle,
            pending_len: 0,
            archives,
            removals: Vec::new(),
        }
    }

    /// Determines the final filename, where `n == 0` indicates the current
    /// file.
    pub fn filename_for(&self, n: usize) -> (name: String)
        ensures
            name@ == file_name(self@.suffix, n as nat),
    {
        file_name_for(self.suffix.as_str(), n)
    }

    /// The base of the file names.
    pub fn suffix(&self) -> (s: &str)
        ensures
            s@ == self@.suffix,
    {
        self.suffix.as_str()
    }

    /// The size of the current file, as far as the appender knows.
    pub fn current_filesize(&self) -> (size: u64)
        ensures
            size == self@.current_filesize,
    {
        self.current_filesize
    }

    /// The index the current file gets at the next rollover.
    pub fn file_index(&self) -> (index: usize)
        ensures
            index == self@.file_index,
    {
        self.file_index
    }

    /// Whether no operation is running.
    pub fn is_idle(&self) -> (idle: bool)
        ensures
            idle == (self@.stage == Stage::Idle),
    {
        self.stage == Stage::Idle
    }

    /// The appender's rolling condition.
    pub fn condition(&self) -> (c: &RC)
        ensures
            *c == self.rolling_condition(),
    {
        &self.condition
    }

    fn current_file(&self) -> (name: String)
        ensures
            name@ == current_name(self@),
    {
        file_name_for(self.suffix.as_str(), 0)
    }

    fn open_then_write(&mut self) -> (r: Request)
        ensures
            (final(self)@, r@) == open_then_write(old(self)@),
            final(self).rolling_condition() == old(self).rolling_condition(),
    {
        if self.writer_open {
            self.stage = Stage::Writing;
            Request::WriteBuffer
        } else {
            self.stage = Stage::Opening { then_write: true, retried: false };
            Request::OpenFile(self.current_file())
        }
    }

    fn fail_rollover(&mut self, forced: bool) -> (r: Request)
        ensures
            (final(self)@, r@) == fail_rollover(old(self)@, forced),
            final(self).rolling_condition() == old(self).rolling_condition(),
    {
        if forced {
            self.stage = Stage::Idle;
            Request::Finished(false)
        } else {
            self.stage = Stage::Warning;
            Request::WarnRolloverFailed
        }
    }

    fn start_rename(&mut self, forced: bool) -> (r: Request)
        ensures
            (final(self)@, r@) == start_rename(old(self)@, forced),
            final(self).rolling_condition() == old(self).rolling_condition(),
    {
        let index: usize = self.file_index;
        self.file_index = self.file_index.wrapping_add(1);
        self.stage = Stage::Renaming { forced, index };
        Request::RenameFile { from: self.current_file(), to: self.filename_for(index) }
    }

    fn after_flush(&mut self, forced: bool) -> (r: Request)
        ensures
            (final(self)@, r@) == after_flush(old(self)@, forced),
            final(self).rolling_condition() == old(self).rolling_condition(),
    {
        self.writer_open = false;
        self.current_filesize = 0;
        if self.file_index > self.max_file_count {
            self.stage = Stage::Removing { forced };
            Request::RemoveFile(self.filename_for(self.file_index - self.max_file_count))
        } else {
            self.start_rename(forced)
        }
    }

    fn open_failed(&mut self, rollover: bool, flag: bool, retried: bool) -> (r: Request)
        requires
            rollover ==> old(self)@.stage == (Stage::Reopening { forced: flag, retried }),
            !rollover ==> old(self)@.stage == (Stage::Opening { then_write: flag, retried }),
        ensures
            (final(self)@, r@) == resume_spec(old(self)@, Outcome::Failed),
            final(self).rolling_condition() == old(self).rolling_condition(),
    {
        if retried {
            if rollover {
                self.fail_rollover(flag)
            } else {
                self.stage = Stage::Idle;
                Request::Finished(false)
            }
        } else {
            self.stage = Stage::MakingDirectory { rollover, flag };
            Request::CreateDirectory
        }
    }

    fn next_removal(&mut self, forced: bool) -> (r: Request)
        ensures
            (final(self)@, r@) == next_removal(old(self)@, forced),
            final(self).rolling_condition() == old(self).rolling_condition(),
    {
        match self.removals.pop() {
            Some(j) => {
                self.stage = Stage::Pruning { forced };
                Request::RemoveFile(self.filename_for(j))
            },
            None => {
                self.stage = Stage::Reopening { forced, retried: false };
                Request::OpenFile(self.current_file())
            },
        }
    }

    fn after_rename(&mut self, forced: bool, index: usize) -> (r: Request)
        ensures
            (final(self)@, r@) == after_rename(old(self)@, forced, index),
            final(self).rolling_condition() == old(self).rolling_condition(),
    {
        let ghost all = self.archives@.push(index);
        self.archives.push(index);
        let mut kept: Vec<usize> = Vec::new();
        let mut gone: Vec<usize> = Vec::new();
        let n: usize = self.archives.len();
        let keep: usize = self.max_file_count;
        for i in 0..n
            invariant
                n == self.archives@.len(),
                self.archives@ == all,
                keep == self.max_file_count,
                kept@ == kept_archives(all.take(i as int), index, keep),
                gone@ == expired_archives(all.take(i as int), index, keep),
        {
            proof {
                assert(all.take(i + 1).drop_last() =~= all.take(i as int));
                assert(all.take(i + 1).last() == all[i as int]);
            }
            let j = self.archives[i];
            if j <= index && index - j >= keep {
                gone.push(j);
            } else {
                kept.push(j);
            }
        }
        proof {
            assert(all.take(n as int) =~= all);
        }
        self.archives = kept;
        self.removals = gone;
        self.next_removal(forced)
    }

    /// Opens a writer for the current file, unless it is open.
    pub fn open_writer_if_needed(&mut self) -> (r: Request)
        requires
            old(self)@.stage == Stage::Idle,
        ensures
            old(self)@.writer_open ==> final(self)@ == old(self)@ && r@ == RequestView::Finished(true),
            !old(self)@.writer_open ==> final(self)@ == (AppenderModel {
                stage: Stage::Opening { then_write: false, retried: false },
                ..old(self)@
            }) && r@ == RequestView::OpenFile(current_name(old(self)@)),
            final(self).rolling_condition() == old(self).rolling_condition(),
    {
        if self.writer_open {
            Request::Finished(true)
        } else {
            self.stage = Stage::Opening { then_write: false, retried: false };
            Request::OpenFile(self.current_file())
        }
    }

    /// Forces a rollover to happen immediately.
    pub fn rollover(&mut self) -> (r: Request)
        requires
            old(self)@.stage == Stage::Idle,
        ensures
            final(self)@ == (AppenderModel { stage: Stage::Flushing { forced: true }, ..old(self)@ }),
            r@ == RequestView::FlushAndClose,
            final(self).rolling_condition() == old(self).rolling_condition(),
    {
        self.stage = Stage::Flushing { forced: true };
        Request::FlushAndClose
    }

    /// Starts a write of `len` bytes, given whether the rolling condition
    /// asked for a rollover.
    pub fn begin_write(&mut self, roll: bool, len: usize) -> (r: Request)
        requires
            old(self)@.stage == Stage::Idle,
        ensures
            (final(self)@, r@) == begin_write_spec(old(self)@, roll, len),
            final(self).rolling_condition() == old(self).rolling_condition(),
    {
        self.pending_len = len;
        if roll {
            self.stage = Stage::Flushing { forced: false };
            Request::FlushAndClose
        } else {
            self.open_then_write()
        }
    }

    /// Starts a write of `len` bytes at the date-time `now`: the write goes
    /// to a fresh file exactly when the rolling condition asks for it, given
    /// the current size; the condition then records the write.
    pub fn write_with_datetime(&mut self, now: &LocalDateTime, len: usize) -> (r: Request)
        requires
            old(self)@.stage == Stage::Idle,
        ensures
            (final(self)@, r@) == begin_write_spec(
                old(self)@,
                old(self).rolling_condition().rolls(*now, old(self)@.current_filesize),
                len,
            ),
            final(self).rolling_condition() == old(self).rolling_condition().after_write(*now),
    {
        let roll = self.condition.should_rollover(now, self.current_filesize);
        self.begin_write(roll, len)
    }

    /// Whether `resume` may be called with `outcome`.
    pub fn resume_is_defined(&self, outcome: &Outcome) -> (defined: bool)
        ensures
            defined == resume_defined(self@, *outcome),
    {
        match self.stage {
            Stage::Idle => false,
            Stage::Writing => {
                if let Outcome::Failed = outcome {
                    true
                } else {
                    self.current_filesize as u128 + self.pending_len as u128 <= u64::MAX as u128
                }
            },
            _ => true,
        }
    }

    /// Takes the outcome of the last request and hands out the next one.
    pub fn resume(&mut self, outcome: Outcome) -> (r: Request)
        requires
            resume_defined(old(self)@, outcome),
        ensures
            (final(self)@, r@) == resume_spec(old(self)@, outcome),
            final(self).rolling_condition() == old(self).rolling_condition(),
    {
        match self.stage {
            Stage::Idle => Request::Finished(false),
            Stage::Flushing { forced } => {
                if let Outcome::Failed = outcome {
                    self.fail_rollover(forced)
                } else {
                    self.after_flush(forced)
                }
            },
            Stage::Renaming { forced, index } => {
                if let Outcome::Failed = outcome {
                    self.fail_rollover(forced)
                } else {
                    self.after_rename(forced, index)
                }
            },
            Stage::Removing { forced } => self.start_rename(forced),
            Stage::Pruning { forced } => self.next_removal(forced),
            Stage::MakingDirectory { rollover, flag } => {
                if let Outcome::Failed = outcome {
                    if rollover {
                        self.fail_rollover(flag)
                    } else {
                        self.stage = Stage::Idle;
                        Request::Finished(false)
                    }
                } else {
                    if rollover {
                        self.stage = Stage::Reopening { forced: flag, retried: true };
                    } else {
                        self.stage = Stage::Opening { then_write: flag, retried: true };
                    }
                    Request::OpenFile(self.current_file())
                }
            },
            Stage::Reopening { forced, retried } => {
                if let Outcome::Opened(size) = outcome {
                    self.writer_open = true;
                    self.current_filesize = size;
                    if forced {
                        self.stage = Stage::Idle;
                        Request::Finished(true)
                    } else {
                        self.stage = Stage::Writing;
                        Request::WriteBuffer
                    }
                } else {
                    self.open_failed(true, forced, retried)
                }
            },
            Stage::Warning => self.open_then_write(),
            Stage::Opening { then_write, retried } => {
                if let Outcome::Opened(size) = outcome {
                    self.writer_open = true;
                    self.current_filesize = size;
                    if then_write {
                        self.stage = Stage::Writing;
                        Request::WriteBuffer
                    } else {
                        self.stage = Stage::Idle;
                        Request::Finished(true)
                    }
                } else {
                    self.open_failed(false, then_write, retried)
                }
            },
            Stage::Writing => {
                if let Outcome::Failed = outcome {
                    self.stage = Stage::Idle;
                    Request::Finished(false)
                } else {
                    self.current_filesize = self.current_filesize + self.pending_len as u64;
                    self.stage = Stage::Idle;
                    Request::Finished(true)
                }
            },
        }
    }
}

} // verus!
