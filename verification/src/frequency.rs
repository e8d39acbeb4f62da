//! Wall-clock date-times and the rolling frequencies that bucket them.

use vstd::prelude::*;

verus! {

/// A local wall-clock date and time, as its calendar fields.
///
/// `month` counts from 1, `day` from 1; `hour`, `minute` and `second` from 0.
#[derive(Copy, Clone, Debug, PartialEq, Eq, Structural)]
pub struct LocalDateTime {
    pub year: i32,
    pub month: u32,
    pub day: u32,
    pub hour: u32,
    pub minute: u32,
    pub second: u32,
}

/// Determines how often a file should be rolled over.
#[derive(Copy, Clone, Debug, PartialEq, Eq, Structural)]
pub enum RollingFrequency {
    EveryDay,
    EveryHour,
    EveryMinute,
}

/// The start of the period of `freq` that contains `dt`: the fields finer than
/// the frequency are set to zero.
pub open spec fn period_start(freq: RollingFrequency, dt: LocalDateTime) -> LocalDateTime {
    match freq {
        RollingFrequency::EveryDay => LocalDateTime { hour: 0, minute: 0, second: 0, ..dt },
        RollingFrequency::EveryHour => LocalDateTime { minute: 0, second: 0, ..dt },
        RollingFrequency::EveryMinute => LocalDateTime { second: 0, ..dt },
    }
}

impl RollingFrequency {
    /// Calculates a datetime that will be different if data should be in
    /// different files.
    pub fn equivalent_datetime(&self, dt: &LocalDateTime) -> (r: LocalDateTime)
        ensures
            r == period_start(*self, *dt),
    {
        let (hour, minute) = match self {
            RollingFrequency::EveryDay => (0, 0),
            RollingFrequency::EveryHour => (dt.hour, 0),
            RollingFrequency::EveryMinute => (dt.hour, dt.minute),
        };
        LocalDateTime {
            year: dt.year,
            month: dt.month,
            day: dt.day,
            hour,
            minute,
            second: 0,
        }
    }
}

/// Bucketing a date-time twice gives the same bucket as bucketing it once.
pub proof fn lemma_period_start_idempotent(freq: RollingFrequency, dt: LocalDateTime)
    ensures
        period_start(freq, period_start(freq, dt)) == period_start(freq, dt),
{
}

/// Two date-times in the same minute are in the same hour, and two in the same
/// hour are on the same day: a finer frequency rolls over whenever a coarser
/// one does.
pub proof fn lemma_finer_periods_refine_coarser(a: LocalDateTime, b: LocalDateTime)
    ensures
        period_start(RollingFrequency::EveryMinute, a) == period_start(RollingFrequency::EveryMinute, b)
            ==> period_start(RollingFrequency::EveryHour, a) == period_start(RollingFrequency::EveryHour, b),
        period_start(RollingFrequency::EveryHour, a) == period_start(RollingFrequency::EveryHour, b)
            ==> period_start(RollingFrequency::EveryDay, a) == period_start(RollingFrequency::EveryDay, b),
{
}

/// Two date-times are in the same period exactly when the fields down to the
/// frequency's unit agree.
pub proof fn lemma_same_period_iff_fields_agree(freq: RollingFrequency, a: LocalDateTime, b: LocalDateTime)
    ensures
        (period_start(freq, a) == period_start(freq, b)) <==> {
            &&& a.year == b.year
            &&& a.month == b.month
            &&& a.day == b.day
            &&& (freq != RollingFrequency::EveryDay ==> a.hour == b.hour)
            &&& (freq == RollingFrequency::EveryMinute ==> a.minute == b.minute)
        },
{
}

} // verus!
