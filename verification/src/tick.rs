use vstd::prelude::*;

verus! {

/// A logical timestamp with millisecond resolution, derived from the wall
/// clock. Ticks are compared to decide whether a triggering event has fired
/// since a system last ran.
#[derive(Clone, Copy, Debug, PartialEq, Eq, Structural)]
pub struct Tick {
    pub ms: u64,
}

/// Relies on chrono::Utc::now for the wall clock. The value depends on the
/// machine's clock at the moment of the call, so nothing is promised of it;
/// callers state what holds of every outcome. The clock call itself aborts
/// on a machine whose clock reads before the Unix epoch or beyond the
/// supported date range; that abort happens inside the call, so this
/// wrapper cannot absorb it.
#[verifier::external_body]
fn now_ms() -> u64 {
    let now = chrono::Utc::now().timestamp_millis();
    now as u64
}

impl Tick {
    /// A tick for the present moment, read from the wall clock.
    pub fn new() -> Self {
        Tick { ms: now_ms() }
    }

    /// A tick at a known millisecond timestamp.
    pub fn from_ms(ms: u64) -> (r: Self)
        ensures
            r.ms == ms,
    {
        Tick { ms }
    }

    /// Re-read the wall clock.
    pub fn touch(&mut self) {
        self.ms = now_ms();
    }

    /// Set this tick to another, already-known moment.
    pub fn touch_to(&mut self, now: Tick)
        ensures
            *final(self) == now,
    {
        self.ms = now.ms;
    }

    /// The absolute distance between two ticks, in milliseconds.
    pub fn delta(&self, other: &Tick) -> (r: u64)
        ensures
            r == if self.ms >= other.ms {
                self.ms - other.ms
            } else {
                other.ms - self.ms
            },
    {
        if self.ms >= other.ms {
            self.ms - other.ms
        } else {
            other.ms - self.ms
        }
    }

    /// Strictly-after comparison: the "happened after" order on ticks.
    pub fn is_after(&self, other: &Tick) -> (r: bool)
        ensures
            r == (self.ms > other.ms),
    {
        self.ms > other.ms
    }

    /// This tick advanced by a caller-controlled delta of milliseconds.
    pub fn advanced_by(self, delta: u32) -> (r: Tick)
        requires
            self.ms + delta <= u64::MAX,
        ensures
            r.ms == self.ms + delta,
    {
        Tick { ms: self.ms + delta as u64 }
    }

    /// This tick moved back by a caller-controlled delta of milliseconds.
    pub fn rewound_by(self, delta: u32) -> (r: Tick)
        requires
            self.ms >= delta,
        ensures
            r.ms == self.ms - delta,
    {
        Tick { ms: self.ms - delta as u64 }
    }
}

} // verus!
