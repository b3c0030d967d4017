//! Schedules that fire at a fixed interval.
use vstd::prelude::*;
use crate::duration::{duration_of, Duration, NANOS_PER_SEC};
use crate::time::{earlier, in_range, lemma_date_time_at, shifted, DateTime};

verus! {

/// A schedule that fires every `delay`, on whole seconds.
#[derive(Clone, Copy, Debug, PartialEq, Eq)]
pub struct ConstantDelaySchedule {
    pub delay: Duration,
}

/// The interval that `every` keeps for a requested interval of `d`
/// nanoseconds: at least one second, and cut down to whole seconds when the
/// span fits in an `i64` of nanoseconds.
pub open spec fn every_delay(d: int) -> int {
    let d1 = if d < NANOS_PER_SEC { NANOS_PER_SEC as int } else { d };
    if d1 <= i64::MAX {
        d1 - d1 % NANOS_PER_SEC as int
    } else {
        d1
    }
}

/// The activation after `after` of a schedule with interval `delay`: `after`
/// plus the interval, minus the nanoseconds of `after`.
pub open spec fn delay_next(delay: int, after: (int, int, u16)) -> Option<DateTime> {
    match shifted(after, delay) {
        None => None,
        Some(t) => shifted(t@, -after.1),
    }
}

/// The interval that `every` keeps is at least one second, and a whole
/// number of seconds unless it is too long to count in `i64` nanoseconds.
pub proof fn lemma_every_delay(d: int)
    ensures
        every_delay(d) >= NANOS_PER_SEC,
        every_delay(d) <= i64::MAX ==> every_delay(d) % NANOS_PER_SEC as int == 0,
{
    let d1 = if d < NANOS_PER_SEC {
        NANOS_PER_SEC as int
    } else {
        d
    };
    if d1 <= i64::MAX {
        vstd::arithmetic::div_mod::lemma_fundamental_div_mod(d1, NANOS_PER_SEC as int);
        vstd::arithmetic::div_mod::lemma_mod_multiples_basic(d1 / NANOS_PER_SEC as int, NANOS_PER_SEC as int);
        assert(d1 / NANOS_PER_SEC as int >= 1);
    }
}

/// A schedule with an interval of at least one second fires strictly after
/// the time it is asked about; with a whole number of seconds, on a whole
/// second.
pub proof fn lemma_delay_next_later(delay: int, after: (int, int, u16))
    requires
        delay >= NANOS_PER_SEC,
        0 <= after.1 < NANOS_PER_SEC,
        in_range(after.0),
    ensures
        delay_next(delay, after) matches Some(t) ==> earlier(after, t@),
        delay_next(delay, after) matches Some(t) ==> (delay % NANOS_PER_SEC as int == 0 ==> t@.1 == 0),
{
    broadcast use lemma_date_time_at;

    let n = NANOS_PER_SEC as int;
    let total = after.0 * n + after.1 + delay;
    if let Some(t1) = shifted(after, delay) {
        vstd::arithmetic::div_mod::lemma_fundamental_div_mod(total, n);
        vstd::arithmetic::div_mod::lemma_mod_bound(total, n);
        assert(t1@ == (total / n, total % n, after.2));
        let total2 = (total / n) * n + total % n - after.1;
        assert(total2 == after.0 * n + delay);
        if let Some(t) = shifted(t1@, -after.1) {
            vstd::arithmetic::div_mod::lemma_fundamental_div_mod(total2, n);
            vstd::arithmetic::div_mod::lemma_mod_bound(total2, n);
            assert(t@ == (total2 / n, total2 % n, after.2));
            assert(total2 / n >= after.0 + 1) by {
                vstd::arithmetic::div_mod::lemma_div_is_ordered(after.0 * n + n, total2, n);
                vstd::arithmetic::div_mod::lemma_div_multiples_vanish_fancy(after.0 + 1, 0, n);
                assert(after.0 * n + n == (after.0 + 1) * n) by (nonlinear_arith);
            }
            if delay % n == 0 {
                vstd::arithmetic::div_mod::lemma_fundamental_div_mod(delay, n);
                vstd::arithmetic::div_mod::lemma_mod_multiples_vanish(after.0 + delay / n, 0, n);
                assert(total2 == n * (after.0 + delay / n) + 0) by (nonlinear_arith)
                    requires
                        total2 == after.0 * n + delay,
                        delay == n * (delay / n) + delay % n,
                        delay % n == 0,
                ;
                vstd::arithmetic::div_mod::lemma_small_mod(0, n as nat);
            }
        }
    }
}

/// A schedule that fires every `duration`, rounded down to whole seconds
/// and at least one second.
pub fn every(duration: Duration) -> (s: ConstantDelaySchedule)
    ensures
        s.delay@ == every_delay(duration@),
        s.delay == duration_of(every_delay(duration@)),
{
    let one = Duration::seconds(1);
    let dur = if duration.is_shorter_than(one) {
        one
    } else {
        duration
    };
    let nanos: i64 = match dur.num_nanoseconds() {
        Some(n) => n,
        None => 0,
    };
    let rem = nanos % NANOS_PER_SEC;
    ConstantDelaySchedule { delay: dur.minus(Duration::nanoseconds(rem)) }
}

impl ConstantDelaySchedule {
    /// The activation after `after`: `after` plus the delay, minus its
    /// nanoseconds; `None` when that leaves the range `chrono` represents.
    pub fn next(&self, after: DateTime) -> (r: Option<DateTime>)
        ensures
            r == delay_next(self.delay@, after@),
    {
        match after.add_duration(self.delay) {
            None => None,
            Some(t) => {
                let n = after.subsec_nanos();
                proof {
                    broadcast use lemma_date_time_at;
                }
                t.add_duration(Duration::nanoseconds(-(n as i64)))
            },
        }
    }
}

} // verus!
