//! Wall-clock time of day, as plain data.

use vstd::prelude::*;

verus! {

/// A time of day: seconds since midnight, below 86400.
#[derive(Clone, Copy, Debug, PartialEq, Eq, Structural)]
pub struct TimeOfDay {
    pub seconds: u32,
}

impl TimeOfDay {
    pub open spec fn wf(self) -> bool {
        self.seconds < 86400
    }

    pub fn from_seconds(seconds: u32) -> (t: TimeOfDay)
        requires
            seconds < 86400,
        ensures
            t.seconds == seconds,
            t.wf(),
    {
        TimeOfDay { seconds }
    }

    pub fn hour(&self) -> (h: u32)
        requires
            self.wf(),
        ensures
            h == self.seconds / 3600,
            h < 24,
    {
        self.seconds / 3600
    }

    pub fn minute(&self) -> (m: u32)
        requires
            self.wf(),
        ensures
            m == (self.seconds / 60) % 60,
            m < 60,
    {
        (self.seconds / 60) % 60
    }

    pub fn second(&self) -> (s: u32)
        requires
            self.wf(),
        ensures
            s == self.seconds % 60,
            s < 60,
    {
        self.seconds % 60
    }
}

/// Relies on chrono's `Local::now` and `Timelike::num_seconds_from_midnight`:
/// the current time of day as `hour * 3600 + minute * 60 + second`, which is
/// below 86400 since hour, minute and second are below 24, 60 and 60.
#[verifier::external_body]
pub fn time_of_day_now() -> (t: TimeOfDay)
    ensures
        t.wf(),
{
    let now = chrono::Local::now().time();
    TimeOfDay { seconds: chrono::Timelike::num_seconds_from_midnight(&now) }
}


impl View for TimeOfDay {
    type V = TimeOfDay;

    open spec fn view(&self) -> TimeOfDay {
        *self
    }
}

impl DeepView for TimeOfDay {
    type V = TimeOfDay;

    open spec fn deep_view(&self) -> TimeOfDay {
        *self
    }
}

} // verus!
