use vstd::prelude::*;

verus! {

/// Relies on `std::time::SystemTime::now`: the clock's reading, converted to
/// a plain count of milliseconds since the epoch. The reading depends on the
/// machine's clock, so nothing is promised of the result.
#[verifier::external_body]
fn now_millis() -> u64 {
    match std::time::SystemTime::now().duration_since(std::time::UNIX_EPOCH) {
        Ok(d) => d.as_millis() as u64,
        Err(_) => 0,
    }
}

/// Paces the game loop: reports at most once per duration that a new frame
/// is due.
pub struct FrameTimer {
    duration_ms: u64,
    last_lap_ms: u64,
}

impl FrameTimer {
    pub closed spec fn duration(&self) -> u64 {
        self.duration_ms
    }

    pub closed spec fn last_lap(&self) -> u64 {
        self.last_lap_ms
    }

    /// A timer whose first lap starts at the clock reading of its creation.
    pub fn new(duration_ms: u64) -> (t: FrameTimer)
        ensures
            t.duration() == duration_ms,
    {
        let time_now = now_millis();
        FrameTimer { duration_ms, last_lap_ms: time_now }
    }

    /// True exactly when the clock has advanced past the last lap by more
    /// than one duration; the lap then restarts at the new reading. The
    /// clock is outside the engine, so all that is promised of a `true`
    /// answer is that the recorded lap moved forward by more than one
    /// duration; a `false` answer changes nothing.
    pub fn next_frame(&mut self) -> (b: bool)
        ensures
            final(self).duration() == old(self).duration(),
            !b ==> *final(self) == *old(self),
            b ==> final(self).last_lap() > old(self).last_lap() + old(self).duration(),
    {
        let time_now = now_millis();
        if time_now > self.last_lap_ms && time_now - self.last_lap_ms > self.duration_ms {
            self.last_lap_ms = time_now;
            true
        } else {
            false
        }
    }
}

} // verus!
