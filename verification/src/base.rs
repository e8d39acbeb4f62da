//! Implements a rolling condition based on a certain frequency
//! and/or a size limit.  A condition built with `new` rolls over on
//! nothing; `default` rolls over daily.

use vstd::prelude::*;
use crate::condition::RollingCondition;
use crate::frequency::{LocalDateTime, RollingFrequency, period_start};

verus! {

#[derive(Copy, Clone, Debug, PartialEq, Eq, Structural)]
pub struct RollingConditionBase {
    last_write_opt: Option<LocalDateTime>,
    frequency_opt: Option<RollingFrequency>,
    max_size_opt: Option<u64>,
}

impl RollingConditionBase {
    /// The date-time of the last write the condition was asked about, if any.
    pub closed spec fn last_write(self) -> Option<LocalDateTime> {
        self.last_write_opt
    }

    /// The frequency on which the condition rolls over, if any.
    pub closed spec fn rolling_frequency(self) -> Option<RollingFrequency> {
        self.frequency_opt
    }

    /// The file size at which the condition rolls over, if any.
    pub closed spec fn size_limit(self) -> Option<u64> {
        self.max_size_opt
    }

    /// Whether a write at `now`, with the current file holding
    /// `current_filesize` bytes, must go to a fresh file: the frequency's
    /// period of `now` differs from that of the last write, or the size limit
    /// is reached.
    pub open spec fn rollover_due(self, now: LocalDateTime, current_filesize: u64) -> bool {
        ||| (self.rolling_frequency() matches Some(f) && self.last_write() matches Some(last)
                && period_start(f, now) != period_start(f, last))
        ||| (self.size_limit() matches Some(limit) && current_filesize >= limit)
    }

    /// Constructs a new struct that does not yet have any condition set.
    pub fn new() -> (r: RollingConditionBase)
        ensures
            r.last_write() is None,
            r.rolling_frequency() is None,
            r.size_limit() is None,
    {
        RollingConditionBase { last_write_opt: None, frequency_opt: None, max_size_opt: None }
    }

    /// Sets a condition to rollover on the given frequency
    pub fn frequency(self, x: RollingFrequency) -> (r: RollingConditionBase)
        ensures
            r.rolling_frequency() == Some(x),
            r.last_write() == self.last_write(),
            r.size_limit() == self.size_limit(),
    {
        let mut this = self;
        this.frequency_opt = Some(x);
        this
    }

    /// Sets a condition to rollover when the date changes
    pub fn daily(self) -> (r: RollingConditionBase)
        ensures
            r.rolling_frequency() == Some(RollingFrequency::EveryDay),
            r.last_write() == self.last_write(),
            r.size_limit() == self.size_limit(),
    {
        let mut this = self;
        this.frequency_opt = Some(RollingFrequency::EveryDay);
        this
    }

    /// Sets a condition to rollover when the date or hour changes
    pub fn hourly(self) -> (r: RollingConditionBase)
        ensures
            r.rolling_frequency() == Some(RollingFrequency::EveryHour),
            r.last_write() == self.last_write(),
            r.size_limit() == self.size_limit(),
    {
        let mut this = self;
        this.frequency_opt = Some(RollingFrequency::EveryHour);
        this
    }

    /// Sets a condition to rollover when the date or minute changes
    pub fn minutely(self) -> (r: RollingConditionBase)
        ensures
            r.rolling_frequency() == Some(RollingFrequency::EveryMinute),
            r.last_write() == self.last_write(),
            r.size_limit() == self.size_limit(),
    {
        let mut this = self;
        this.frequency_opt = Some(RollingFrequency::EveryMinute);
        this
    }

    /// Sets a condition to rollover when a certain size is reached
    pub fn max_size(self, x: u64) -> (r: RollingConditionBase)
        ensures
            r.size_limit() == Some(x),
            r.last_write() == self.last_write(),
            r.rolling_frequency() == self.rolling_frequency(),
    {
        let mut this = self;
        this.max_size_opt = Some(x);
        this
    }
}

/// Two conditions with the same last write, frequency and size limit are the
/// same condition.
pub proof fn lemma_condition_ext(a: RollingConditionBase, b: RollingConditionBase)
    requires
        a.last_write() == b.last_write(),
        a.rolling_frequency() == b.rolling_frequency(),
        a.size_limit() == b.size_limit(),
    ensures
        a == b,
{
}

/// A condition with neither a frequency nor a size limit never asks for a
/// rollover.
pub proof fn lemma_unset_condition_never_rolls(c: RollingConditionBase, now: LocalDateTime, current_filesize: u64)
    requires
        c.rolling_frequency() is None,
        c.size_limit() is None,
    ensures
        !c.rollover_due(now, current_filesize),
{
}

/// Before the first write has been seen, only the size limit can ask for a
/// rollover.
pub proof fn lemma_first_write_rolls_only_on_size(c: RollingConditionBase, now: LocalDateTime, current_filesize: u64)
    requires
        c.last_write() is None,
    ensures
        c.rollover_due(now, current_filesize) <==> (c.size_limit() matches Some(limit) && current_filesize >= limit),
{
}

/// A write in the same period as the last one rolls over only on size; one in
/// a different period always rolls over.
pub proof fn lemma_period_change_rolls(c: RollingConditionBase, now: LocalDateTime, current_filesize: u64)
    requires
        c.rolling_frequency() is Some,
        c.last_write() is Some,
    ensures
        period_start(c.rolling_frequency()->0, now) == period_start(c.rolling_frequency()->0, c.last_write()->0)
            ==> (c.rollover_due(now, current_filesize) <==> (c.size_limit() matches Some(limit) && current_filesize >= limit)),
        period_start(c.rolling_frequency()->0, now) != period_start(c.rolling_frequency()->0, c.last_write()->0)
            ==> c.rollover_due(now, current_filesize),
{
}

/// Whether a write of a file of `current_filesize` bytes reaches the size
/// limit of `c`.
pub open spec fn size_reached(c: RollingConditionBase, current_filesize: u64) -> bool {
    c.size_limit() matches Some(limit) && current_filesize >= limit
}

/// A condition without a rolling frequency rolls over exactly when the size
/// limit is reached, whatever writes it has seen before.
pub proof fn lemma_size_only_condition(c: RollingConditionBase, now: LocalDateTime, current_filesize: u64)
    requires
        c.rolling_frequency() is None,
    ensures
        c.rolls(now, current_filesize) <==> (c.size_limit() matches Some(limit) && current_filesize >= limit),
{
}

/// Reaching the size limit always rolls over, whatever the frequency and the
/// last write.
pub proof fn lemma_size_limit_always_rolls(c: RollingConditionBase, now: LocalDateTime, current_filesize: u64, limit: u64)
    requires
        c.size_limit() == Some(limit),
        current_filesize >= limit,
    ensures
        c.rolls(now, current_filesize),
{
}

/// Below the size limit, or without one, a condition rolls over exactly when
/// it has a frequency, has seen a write, and that write lies in another
/// period of the frequency than `now`.
pub proof fn lemma_below_limit_rolls_only_on_period_change(c: RollingConditionBase, now: LocalDateTime, current_filesize: u64)
    requires
        !(c.size_limit() matches Some(limit) && current_filesize >= limit),
    ensures
        c.rolls(now, current_filesize) <==> (c.rolling_frequency() is Some && c.last_write() is Some
            && period_start(c.rolling_frequency()->0, now) != period_start(c.rolling_frequency()->0, c.last_write()->0)),
{
}

/// The decision of `should_rollover`, case by case: a new period of the
/// frequency since the last write, or reaching the size limit, and nothing
/// else.
pub proof fn lemma_rollover_cases(c: RollingConditionBase, now: LocalDateTime, current_filesize: u64)
    ensures
        c.rolling_frequency() is None ==> (c.rolls(now, current_filesize) <==> size_reached(c, current_filesize)),
        c.last_write() is None ==> (c.rolls(now, current_filesize) <==> size_reached(c, current_filesize)),
        c.rolling_frequency() is Some && c.last_write() is Some ==> (c.rolls(now, current_filesize) <==> (
            period_start(c.rolling_frequency()->0, now) != period_start(c.rolling_frequency()->0, c.last_write()->0)
            || size_reached(c, current_filesize))),
{
}

impl Default for RollingConditionBase {
    /// The default condition rolls over daily.
    fn default() -> (r: Self)
        ensures
            r.last_write() is None,
            r.rolling_frequency() == Some(RollingFrequency::EveryDay),
            r.size_limit() is None,
    {
        RollingConditionBase::new().frequency(RollingFrequency::EveryDay)
    }
}

/// After a write, the condition remembers its date-time and nothing else
/// changes.
pub proof fn lemma_after_write(c: RollingConditionBase, now: LocalDateTime)
    ensures
        c.after_write(now).last_write() == Some(now),
        c.after_write(now).rolling_frequency() == c.rolling_frequency(),
        c.after_write(now).size_limit() == c.size_limit(),
{
}

impl RollingCondition for RollingConditionBase {
    open spec fn rolls(&self, now: LocalDateTime, current_filesize: u64) -> bool {
        self.rollover_due(now, current_filesize)
    }

    closed spec fn after_write(&self, now: LocalDateTime) -> Self {
        RollingConditionBase { last_write_opt: Some(now), ..*self }
    }

    fn should_rollover(&mut self, now: &LocalDateTime, current_filesize: u64) -> (rollover: bool)
        ensures
            rollover == old(self).rollover_due(*now, current_filesize),
            final(self).last_write() == Some(*now),
            final(self).rolling_frequency() == old(self).rolling_frequency(),
            final(self).size_limit() == old(self).size_limit(),
    {
        let mut rollover = false;
        if let Some(frequency) = self.frequency_opt.as_ref() {
            if let Some(last_write) = self.last_write_opt.as_ref() {
                if frequency.equivalent_datetime(now) != frequency.equivalent_datetime(last_write) {
                    rollover = true;
                }
            }
        }
        if let Some(max_size) = self.max_size_opt.as_ref() {
            if current_filesize >= *max_size {
                rollover = true;
            }
        }
        self.last_write_opt = Some(*now);
        rollover
    }
}

} // verus!
