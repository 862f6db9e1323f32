//! The time controls: five speeds of the tick clock, from paused to unlimited.
use vstd::prelude::*;
use crate::tick::{Tick, TickThreadMsg};

verus! {

/// A speed of the tick clock.
#[derive(Debug, Clone, Copy, PartialEq, Eq, Structural)]
pub enum TimeSpeed {
    Paused,
    Slow,
    Medium,
    Fast,
    Unlimited,
}

/// The tick length of a speed, in milliseconds.
pub open spec fn speed_ms(speed: TimeSpeed) -> u32 {
    match speed {
        TimeSpeed::Paused => 0,
        TimeSpeed::Slow => 2500,
        TimeSpeed::Medium => 1000,
        TimeSpeed::Fast => 250,
        TimeSpeed::Unlimited => 1,
    }
}

/// The tick length of a speed, in milliseconds.
pub fn tick_length_of(speed: TimeSpeed) -> (r: u32)
    ensures
        r == speed_ms(speed),
{
    match speed {
        TimeSpeed::Paused => 0,
        TimeSpeed::Slow => 2500,
        TimeSpeed::Medium => 1000,
        TimeSpeed::Fast => 250,
        TimeSpeed::Unlimited => 1,
    }
}

/// The controls of the tick clock, with the speed chosen last.
pub struct TimeControls {
    tick: Tick,
    curspeed: TimeSpeed,
}

impl TimeControls {
    pub closed spec fn speed(&self) -> TimeSpeed {
        self.curspeed
    }

    pub closed spec fn tick(&self) -> Tick {
        self.tick
    }

    /// Controls of the clock behind `tick`, at medium speed.
    pub fn new(tick: Tick) -> (r: Self)
        ensures
            r.speed() == TimeSpeed::Medium,
            r.tick() == tick,
    {
        TimeControls { tick: tick, curspeed: TimeSpeed::Medium }
    }

    /// The speed chosen last.
    pub fn current_speed(&self) -> (r: TimeSpeed)
        ensures
            r == self.speed(),
    {
        self.curspeed
    }

    /// Chooses a speed: asks the clock for its tick length (see `speed_ms`)
    /// with a `SetSpeed` request. The clock's answer is not waited for; a gone
    /// clock is not reported.
    pub fn set_speed(&mut self, speed: TimeSpeed)
        ensures
            final(self).speed() == speed,
            final(self).tick().thread() == old(self).tick().thread(),
            final(self).tick().log() == old(self).tick().log().push(
                (TickThreadMsg::SetSpeed(speed_ms(speed)), final(self).tick().log().last().1),
            ),
    {
        let ms = tick_length_of(speed);
        self.curspeed = speed;
        let _ = self.tick.set_speed(ms);
    }
}

} // verus!
