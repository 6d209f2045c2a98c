//! When not to scale pages down.
use vstd::prelude::*;

verus! {

/// A point in time in milliseconds.
pub type Millis = u64;

/// How long pages are not scaled down after a change of the resolution that follows soon on
/// another one.
pub const RESOLUTION_DELAY: Millis = 250;

/// Whether pages are scaled down. While the window is dragged to another size there is no use in
/// it, as each change throws away what the last one started.
#[derive(Clone, Copy, Debug, PartialEq, Eq, Structural)]
pub enum DownscaleDelay {
    Cleared,
    /// The resolution changed, but not for a while before. Another change until the given time
    /// makes pages wait.
    NotDelaying(Millis),
    /// Pages wait until the given time.
    Delaying(Millis),
}

impl DownscaleDelay {
    pub open spec fn delays(self, now: Millis) -> bool {
        self matches DownscaleDelay::Delaying(d) && now < d
    }

    /// What becomes of it when the resolution changes.
    pub open spec fn resized(self, now: Millis) -> DownscaleDelay {
        let until = (now + RESOLUTION_DELAY) as Millis;
        match self {
            DownscaleDelay::Cleared => DownscaleDelay::NotDelaying(until),
            DownscaleDelay::NotDelaying(d) => if now < d {
                DownscaleDelay::Delaying(until)
            } else {
                DownscaleDelay::NotDelaying(until)
            },
            DownscaleDelay::Delaying(_) => DownscaleDelay::Delaying(until),
        }
    }

    /// Whether pages wait.
    pub fn delay_downscale(&self, now: Millis) -> (r: bool)
        ensures
            r == self.delays(now),
    {
        match self {
            DownscaleDelay::Cleared | DownscaleDelay::NotDelaying(_) => false,
            DownscaleDelay::Delaying(d) => now < *d,
        }
    }

    /// Until when pages wait.
    pub fn wait_until(&self) -> (r: Millis)
        requires
            self is Delaying,
        ensures
            *self == DownscaleDelay::Delaying(r),
    {
        match self {
            DownscaleDelay::Delaying(d) => *d,
            _ => 0,
        }
    }

    /// The wait is over.
    pub fn clear(&mut self)
        ensures
            *final(self) == DownscaleDelay::Cleared,
    {
        *self = DownscaleDelay::Cleared;
    }

    /// The resolution changes.
    pub fn mark_resize(&mut self, now: Millis)
        requires
            now + RESOLUTION_DELAY <= u64::MAX,
        ensures
            *final(self) == old(self).resized(now),
    {
        let until: Millis = now + RESOLUTION_DELAY;
        *self = match *self {
            DownscaleDelay::Cleared => DownscaleDelay::NotDelaying(until),
            DownscaleDelay::NotDelaying(d) => if now < d {
                DownscaleDelay::Delaying(until)
            } else {
                DownscaleDelay::NotDelaying(until)
            },
            DownscaleDelay::Delaying(_) => DownscaleDelay::Delaying(until),
        };
    }
}

/// A single change of the resolution delays nothing. Two changes in short succession delay pages
/// until the resolution has not changed for the whole delay.
pub proof fn law_rapid_changes_delay(first: Millis, second: Millis, now: Millis)
    requires
        first <= second <= now,
        now + RESOLUTION_DELAY <= u64::MAX,
    ensures
        !DownscaleDelay::Cleared.resized(first).delays(now),
        DownscaleDelay::Cleared.resized(first).resized(second).delays(now) <==> second < first
            + RESOLUTION_DELAY && now < second + RESOLUTION_DELAY,
{
}

/// Pages wait a quarter of a second after the last of several changes.
pub proof fn law_length_of_the_delay(first: Millis, second: Millis, now: Millis)
    requires
        first <= second <= now,
        now + 250 <= u64::MAX,
    ensures
        DownscaleDelay::Cleared.resized(first).resized(second).delays(now) <==> second - first < 250
            && now - second < 250,
        DownscaleDelay::Delaying(first).resized(second).delays(now) <==> now - second < 250,
{
}

} // verus!
