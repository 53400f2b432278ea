use vstd::prelude::*;

use crate::civil::TIME_MAX;

verus! {

/// A settable clock for deterministic runs: time only moves when told to.
pub struct MockClock {
    current_time: i64,
}

impl MockClock {
    pub closed spec fn time(self) -> int {
        self.current_time as int
    }

    pub fn new(start: i64) -> (c: MockClock)
        requires
            -TIME_MAX <= start <= TIME_MAX,
        ensures
            c.time() == start,
            -TIME_MAX <= c.time() <= TIME_MAX,
    {
        MockClock { current_time: start }
    }

    pub fn now(&self) -> (r: i64)
        ensures
            r as int == self.time(),
    {
        self.current_time
    }

    pub fn set_time(&mut self, t: i64)
        requires
            -TIME_MAX <= t <= TIME_MAX,
        ensures
            final(self).time() == t,
    {
        self.current_time = t;
    }

    /// Moves the clock forward (or backward) by `seconds`, saturating at the
    /// supported range.
    pub fn advance(&mut self, seconds: i64)
        requires
            -TIME_MAX <= old(self).time() <= TIME_MAX,
        ensures
            -TIME_MAX <= final(self).time() <= TIME_MAX,
            -TIME_MAX + 1 <= old(self).time() + seconds <= TIME_MAX ==> final(self).time() == old(
                self,
            ).time() + seconds,
    {
        let cur = self.current_time;
        if seconds >= 0 {
            if cur <= TIME_MAX - seconds {
                self.current_time = cur + seconds;
            } else {
                self.current_time = TIME_MAX;
            }
        } else {
            if seconds <= -TIME_MAX - TIME_MAX {
                self.current_time = -TIME_MAX;
            } else {
                let t = cur + seconds;
                self.current_time = if t < -TIME_MAX {
                    -TIME_MAX
                } else {
                    t
                };
            }
        }
    }
}

/// The real-time clock.
pub struct OsClock {}

impl OsClock {
    pub fn new() -> OsClock {
        OsClock {  }
    }

    /// Relies on std::time::SystemTime::now and duration_since(UNIX_EPOCH):
    /// the wall-clock time as whole seconds since the Unix epoch, which is
    /// never negative on a sanely configured host; a clock before the epoch
    /// reads as zero.
    #[verifier::external_body]
    pub fn now(&self) -> (r: i64)
        ensures
            0 <= r,
    {
        match std::time::SystemTime::now().duration_since(std::time::SystemTime::UNIX_EPOCH) {
            Ok(d) => d.as_secs() as i64,
            Err(_) => 0,
        }
    }
}

} // verus!
