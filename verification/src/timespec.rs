//! Sparse durations for timed communication suspensions.
//!
//! A [`TimeoutTime`] is a duration given by independently optional day, hour,
//! minute and second components, combined additively. A value with all
//! components absent is the sentinel "no duration specified" and must never be
//! used to compute an end time.

use vstd::prelude::*;

verus! {

/// A sparse duration: each component is independently optional and the
/// present components add up.
#[derive(Clone, Copy, Debug, PartialEq, Eq)]
pub struct TimeoutTime {
    pub seconds: Option<i64>,
    pub minutes: Option<i64>,
    pub hours: Option<i64>,
    pub days: Option<i64>,
}

/// The value of an optional component, taking an absent component as zero.
pub open spec fn component_or_zero(c: Option<i64>) -> int {
    match c {
        Option::Some(x) => x as int,
        Option::None => 0,
    }
}

impl TimeoutTime {
    /// Whether no component at all is present: the sentinel for
    /// "no duration specified".
    pub open spec fn spec_is_none(&self) -> bool {
        self.seconds is None && self.minutes is None && self.hours is None && self.days is None
    }

    /// Whether no component at all is present.
    pub fn is_none(&self) -> (r: bool)
        ensures
            r == self.spec_is_none(),
    {
        self.seconds.is_none() && self.minutes.is_none() && self.hours.is_none()
            && self.days.is_none()
    }

    /// The duration in seconds, as the sum of the present components.
    pub open spec fn total_seconds(&self) -> int {
        component_or_zero(self.seconds) + 60 * component_or_zero(self.minutes) + 3600
            * component_or_zero(self.hours) + 86400 * component_or_zero(self.days)
    }
}

/// The end instant reached by letting `time` elapse from `now`, both as
/// seconds of the Unix epoch, or `None` where that instant does not fit an
/// `i64`.
pub open spec fn spec_ending_time(now: i64, time: TimeoutTime) -> Option<i64> {
    let end = now + time.total_seconds();
    if i64::MIN <= end <= i64::MAX {
        Some(end as i64)
    } else {
        None
    }
}

/// The absolute end instant reached by letting `time` elapse from `now`,
/// both as seconds of the Unix epoch, or `None` where that instant does not
/// fit an `i64`.
pub fn ending_time_at(now: i64, time: &TimeoutTime) -> (r: Option<i64>)
    requires
        !time.spec_is_none(),
    ensures
        r == spec_ending_time(now, *time),
{
    let mut total: i128 = now as i128;
    if let Some(s) = time.seconds {
        total = total + s as i128;
    }
    if let Some(m) = time.minutes {
        total = total + (m as i128) * 60;
    }
    if let Some(h) = time.hours {
        total = total + (h as i128) * 3600;
    }
    if let Some(d) = time.days {
        total = total + (d as i128) * 86400;
    }
    if i64::MIN as i128 <= total && total <= i64::MAX as i128 {
        Some(total as i64)
    } else {
        None
    }
}

/// Relies on chrono's `Utc::now`: the current instant, as seconds of the
/// Unix epoch. Nothing can be promised of the clock's reading.
#[verifier::external_body]
pub(crate) fn now_unix() -> i64 {
    chrono::Utc::now().timestamp()
}

/// The absolute end instant reached by letting `time` elapse from the current
/// instant, or `None` where that instant does not fit an `i64`.
pub fn generate_ending_time(time: &TimeoutTime) -> (r: Option<i64>)
    requires
        !time.spec_is_none(),
    ensures
        exists|now: i64| r == #[trigger] spec_ending_time(now, *time),
{
    let now = now_unix();
    let r = ending_time_at(now, time);
    proof {
        assert(r == spec_ending_time(now, *time));
    }
    r
}

} // verus!
