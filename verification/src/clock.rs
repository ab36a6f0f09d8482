//! The session clock: elapsed playback time, counted in milliseconds. It
//! runs from tick to tick while playback runs, and stands still otherwise.

use vstd::prelude::*;

verus! {

/// Elapsed time after one tick: the time accumulated so far plus the time
/// since the previous tick, held at `u64::MAX` where it would pass it. A tick
/// that carries an earlier time than the previous one adds nothing.
pub open spec fn elapsed_after(elapsed: u64, last: u64, now: u64) -> u64 {
    let delta: int = if now >= last {
        now - last
    } else {
        0
    };
    if elapsed + delta > u64::MAX {
        u64::MAX
    } else {
        (elapsed + delta) as u64
    }
}

/// Elapsed time after a run of ticks, taken in their order.
pub open spec fn elapsed_over(elapsed: u64, last: u64, ticks: Seq<u64>) -> u64
    decreases ticks.len(),
{
    if ticks.len() == 0 {
        elapsed
    } else if ticks.len() == 1 {
        elapsed_after(elapsed, last, ticks[0])
    } else {
        elapsed_after(
            elapsed_over(elapsed, last, ticks.drop_last()),
            ticks[ticks.len() - 2],
            ticks.last(),
        )
    }
}

/// Ticks whose times never fall add up to the time from the tick before
/// them to the last of them, however many they are and however they are
/// spaced.
pub proof fn lemma_ticks_add_up(elapsed: u64, last: u64, ticks: Seq<u64>)
    requires
        ticks.len() > 0,
        last <= ticks[0],
        forall|i: int, j: int| 0 <= i < j < ticks.len() ==> ticks[i] <= ticks[j],
        elapsed + (ticks.last() - last) <= u64::MAX,
    ensures
        elapsed_over(elapsed, last, ticks) == elapsed + (ticks.last() - last),
    decreases ticks.len(),
{
    if ticks.len() > 1 {
        let front = ticks.drop_last();
        assert(front[0] == ticks[0]);
        assert(front.last() == ticks[ticks.len() - 2]);
        assert(ticks[ticks.len() - 2] <= ticks[ticks.len() - 1]);
        assert forall|i: int, j: int| 0 <= i < j < front.len() implies front[i] <= front[j] by {
            assert(ticks[i] <= ticks[j]);
        }
        lemma_ticks_add_up(elapsed, last, front);
    }
}

/// The clock's state: the time accumulated, and the time of the last tick
/// while it runs.
#[derive(Clone, Copy, Debug, PartialEq, Eq, Structural)]
pub struct SessionClock {
    elapsed_ms: u64,
    last_tick_ms: Option<u64>,
}

/// Elapsed time as a display shows it.
#[derive(Clone, Copy, Debug, PartialEq, Eq, Structural)]
pub struct ClockReading {
    pub hours: u64,
    pub minutes: u64,
    pub seconds: u64,
    pub centiseconds: u64,
}

/// The reading of `elapsed_ms` milliseconds: whole hours, the minutes and
/// seconds past them, and the hundredths of the running second.
pub open spec fn reading_of(elapsed_ms: u64) -> ClockReading {
    ClockReading {
        hours: (elapsed_ms / 3_600_000) as u64,
        minutes: ((elapsed_ms / 60_000) % 60) as u64,
        seconds: ((elapsed_ms / 1_000) % 60) as u64,
        centiseconds: ((elapsed_ms % 1_000) / 10) as u64,
    }
}

/// A reading names its time to the hundredth of a second.
pub proof fn lemma_reading_exact(elapsed_ms: u64)
    ensures
        reading_of(elapsed_ms).minutes < 60,
        reading_of(elapsed_ms).seconds < 60,
        reading_of(elapsed_ms).centiseconds < 100,
        reading_of(elapsed_ms).hours * 360_000 + reading_of(elapsed_ms).minutes * 6_000
            + reading_of(elapsed_ms).seconds * 100 + reading_of(elapsed_ms).centiseconds
            == elapsed_ms / 10,
{
}

impl SessionClock {
    /// The time accumulated, in milliseconds.
    pub closed spec fn elapsed(self) -> u64 {
        self.elapsed_ms
    }

    /// The time of the last tick while the clock runs, `None` while it
    /// stands.
    pub closed spec fn last_tick(self) -> Option<u64> {
        self.last_tick_ms
    }

    /// A clock at zero that stands.
    pub fn new() -> (clock: SessionClock)
        ensures
            clock.elapsed() == 0,
            clock.last_tick() is None,
    {
        SessionClock { elapsed_ms: 0, last_tick_ms: None }
    }

    /// The time accumulated, in milliseconds.
    pub fn elapsed_ms(&self) -> (elapsed: u64)
        ensures
            elapsed == self.elapsed(),
    {
        self.elapsed_ms
    }

    /// Whether the clock runs.
    pub fn is_running(&self) -> (running: bool)
        ensures
            running == (self.last_tick() is Some),
    {
        self.last_tick_ms.is_some()
    }

    /// Lets the clock run from `now_ms` on. What it has accumulated stays.
    pub fn start(&mut self, now_ms: u64)
        ensures
            final(self).elapsed() == old(self).elapsed(),
            final(self).last_tick() == Some(now_ms),
    {
        self.last_tick_ms = Some(now_ms);
    }

    /// Halts the clock. What it has accumulated stays.
    pub fn stop(&mut self)
        ensures
            final(self).elapsed() == old(self).elapsed(),
            final(self).last_tick() is None,
    {
        self.last_tick_ms = None;
    }

    /// Sets the accumulated time to zero. A running clock runs on.
    pub fn reset(&mut self)
        ensures
            final(self).elapsed() == 0,
            final(self).last_tick() == old(self).last_tick(),
    {
        self.elapsed_ms = 0;
    }

    /// A tick at `now_ms`. A running clock adds the time since its last
    /// tick and takes `now_ms` as its last tick; a standing clock does not
    /// change. Returns the time accumulated after the tick.
    pub fn advance(&mut self, now_ms: u64) -> (elapsed: u64)
        ensures
            elapsed == final(self).elapsed(),
            match old(self).last_tick() {
                Some(last) => final(self).elapsed() == elapsed_after(
                    old(self).elapsed(),
                    last,
                    now_ms,
                ) && final(self).last_tick() == Some(now_ms),
                None => *final(self) == *old(self),
            },
    {
        match self.last_tick_ms {
            Some(last) => {
                let delta = now_ms.saturating_sub(last);
                self.elapsed_ms = self.elapsed_ms.saturating_add(delta);
                self.last_tick_ms = Some(now_ms);
            },
            None => {},
        }
        self.elapsed_ms
    }

    /// The accumulated time as a display shows it.
    pub fn reading(&self) -> (reading: ClockReading)
        ensures
            reading == reading_of(self.elapsed()),
    {
        let ms = self.elapsed_ms;
        ClockReading {
            hours: ms / 3_600_000,
            minutes: (ms / 60_000) % 60,
            seconds: (ms / 1_000) % 60,
            centiseconds: (ms % 1_000) / 10,
        }
    }
}

} // verus!
