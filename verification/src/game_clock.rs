//! The simulated day clock: elapsed time within a bounded day, conversion of
//! elapsed time to a 24-hour time of day, and the day-complete signal.

use vstd::prelude::*;
use crate::timer::SimTimer;

verus! {

/// Default length of one simulated day, in milliseconds.
pub const DEFAULT_TIME_PER_DAY_MS: u64 = 240_000;

/// Upper bound on a configured day length. Keeps the fixed-point conversions
/// to hours and spawn chances within integer range.
pub const MAX_TIME_PER_DAY_MS: u64 = 1_000_000_000_000;

/// Configured length of one simulated day.
#[derive(Clone, Copy, Debug, PartialEq, Eq, Structural)]
pub struct GameTimeConfig {
    pub time_per_day_ms: u64,
}

impl GameTimeConfig {
    pub open spec fn wf(self) -> bool {
        1 <= self.time_per_day_ms <= MAX_TIME_PER_DAY_MS
    }
}

impl Default for GameTimeConfig {
    fn default() -> (c: GameTimeConfig)
        ensures
            c.time_per_day_ms == DEFAULT_TIME_PER_DAY_MS,
            c.wf(),
    {
        GameTimeConfig { time_per_day_ms: DEFAULT_TIME_PER_DAY_MS }
    }
}

/// A time of day on the simulated 24-hour clock. `hour` can momentarily be 24
/// at the exact instant the day completes.
#[derive(Clone, Copy, Debug, Default, PartialEq, Eq, Structural, Hash)]
pub struct TimeOfDay {
    pub hour: u8,
    pub minute: u8,
}

/// Elapsed-time timer bounded by the configured day length.
#[derive(Clone, Debug)]
pub struct GameTime {
    pub time: SimTimer,
    pub config: GameTimeConfig,
}

impl GameTime {
    pub open spec fn wf(self) -> bool {
        &&& self.config.wf()
        &&& self.time.wf()
        &&& self.time.duration_ms == self.config.time_per_day_ms
    }

    pub open spec fn spec_elapsed_ms(self) -> u64 {
        self.time.elapsed_ms
    }

    pub open spec fn spec_day_ms(self) -> u64 {
        self.config.time_per_day_ms
    }

    /// The hour of day that the elapsed time maps to: `floor(24 * f)` where
    /// `f` is the elapsed fraction of the day.
    pub open spec fn spec_hour(self) -> int {
        24 * self.spec_elapsed_ms() / self.spec_day_ms() as int
    }

    /// The minute within the hour: `floor(60 * frac(24 * f))`.
    pub open spec fn spec_minute(self) -> int {
        (24 * self.spec_elapsed_ms() % self.spec_day_ms() as int) * 60
            / self.spec_day_ms() as int
    }

    pub fn new() -> (g: GameTime)
        ensures
            g.wf(),
            g.spec_elapsed_ms() == 0,
            g.spec_day_ms() == DEFAULT_TIME_PER_DAY_MS,
    {
        let config = GameTimeConfig::default();
        GameTime { time: SimTimer::new(config.time_per_day_ms), config }
    }

    /// A clock over a day of the given length.
    pub fn with_time_per_day(time_per_day_ms: u64) -> (g: GameTime)
        requires
            1 <= time_per_day_ms <= MAX_TIME_PER_DAY_MS,
        ensures
            g.wf(),
            g.spec_elapsed_ms() == 0,
            g.spec_day_ms() == time_per_day_ms,
    {
        GameTime {
            time: SimTimer::new(time_per_day_ms),
            config: GameTimeConfig { time_per_day_ms },
        }
    }

    /// Advance the clock; returns true once the day is complete. Elapsed time
    /// caps at the day length, so further ticks are no-ops.
    pub fn tick(&mut self, delta_ms: u64) -> (day_complete: bool)
        requires
            old(self).wf(),
        ensures
            final(self).wf(),
            final(self).config == old(self).config,
            final(self).spec_elapsed_ms() == if old(self).spec_elapsed_ms() + delta_ms
                >= old(self).spec_day_ms() {
                old(self).spec_day_ms() as int
            } else {
                old(self).spec_elapsed_ms() + delta_ms
            },
            day_complete == (final(self).spec_elapsed_ms() == final(self).spec_day_ms()),
    {
        self.time.tick(delta_ms);
        self.time.elapsed_ms >= self.config.time_per_day_ms
    }

    pub fn elapsed_ms(&self) -> (r: u64)
        ensures
            r == self.spec_elapsed_ms(),
    {
        self.time.elapsed_ms
    }

    pub fn config(&self) -> (c: &GameTimeConfig)
        ensures
            c == self.config,
    {
        &self.config
    }

    /// Convert the elapsed fraction of the day onto a 24-hour clock face,
    /// truncating (not rounding) both the hour and the minute.
    pub fn to_game_time_of_day(&self) -> (t: TimeOfDay)
        requires
            self.wf(),
        ensures
            t.hour == self.spec_hour(),
            t.minute == self.spec_minute(),
            t.hour <= 24,
            t.hour == 24 <==> self.spec_elapsed_ms() == self.spec_day_ms(),
            t.minute < 60,
    {
        let day = self.config.time_per_day_ms;
        let scaled: u64 = 24 * self.time.elapsed_ms;
        let hour: u64 = scaled / day;
        let minute: u64 = (scaled % day) * 60 / day;
        proof {
            let e = self.spec_elapsed_ms() as int;
            let d = self.spec_day_ms() as int;
            assert(24 * e <= 24 * d) by (nonlinear_arith)
                requires e <= d;
            assert(24 * e / d <= 24 && (24 * e / d == 24 ==> e == d) && (e == d ==> 24 * e / d
                == 24)) by (nonlinear_arith)
                requires d >= 1 && 0 <= e <= d;
            assert((24 * e % d) * 60 / d < 60) by (nonlinear_arith)
                requires d >= 1;
        }
        TimeOfDay { hour: hour as u8, minute: minute as u8 }
    }
}

} // verus!
