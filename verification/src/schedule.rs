//! The duty cycle of a job.
use vstd::prelude::*;
use crate::constant_delay::{delay_next, ConstantDelaySchedule};
use crate::spec::{next_activation, SpecSchedule};
use crate::time::DateTime;

verus! {

/// A schedule describes a job's duty cycle: its next activation time,
/// later than a given time, if any.
pub trait Schedule {
    fn next(&self, after: DateTime) -> Option<DateTime>;
}

/// The schedules a cron expression describes: a set of calendar fields, or
/// a fixed interval (`@every`).
#[derive(Clone, Copy, Debug, PartialEq, Eq)]
pub enum ParsedSchedule {
    Spec(SpecSchedule),
    Every(ConstantDelaySchedule),
}

/// The next activation of a parsed schedule after `after`.
pub open spec fn parsed_next(s: ParsedSchedule, after: (int, int, u16)) -> Option<DateTime> {
    match s {
        ParsedSchedule::Spec(sp) => next_activation(sp, after),
        ParsedSchedule::Every(c) => delay_next(c.delay@, after),
    }
}

impl Schedule for SpecSchedule {
    fn next(&self, after: DateTime) -> (r: Option<DateTime>)
        ensures
            r == next_activation(*self, after@),
    {
        SpecSchedule::next(self, after)
    }
}

impl Schedule for ConstantDelaySchedule {
    fn next(&self, after: DateTime) -> (r: Option<DateTime>)
        ensures
            r == delay_next(self.delay@, after@),
    {
        ConstantDelaySchedule::next(self, after)
    }
}

impl Schedule for ParsedSchedule {
    fn next(&self, after: DateTime) -> (r: Option<DateTime>)
        ensures
            r == parsed_next(*self, after@),
    {
        match self {
            ParsedSchedule::Spec(s) => SpecSchedule::next(s, after),
            ParsedSchedule::Every(c) => ConstantDelaySchedule::next(c, after),
        }
    }
}

} // verus!
