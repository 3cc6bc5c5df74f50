use vstd::prelude::*;
use crate::units::{EXPLOSION_LEN, EXPLOSION_PERIOD_MS};

verus! {

/// Longest frame delta accepted by one tick of a timer, in milliseconds.
pub const DELTA_LIMIT_MS: i64 = 1_000_000;

/// Animation clock of an explosion: the frame shown and the time since the
/// last frame change.
#[derive(Clone, Copy, Debug, PartialEq, Eq, Structural)]
pub struct ExplosionTimer {
    pub elapsed_ms: i64,
    pub frame: u32,
}

/// The timer after `delta_ms` more milliseconds: each full period shows the
/// next frame; once the last frame is reached the timer stays there.
pub open spec fn spec_tick(t: ExplosionTimer, delta_ms: int) -> ExplosionTimer {
    let total = t.elapsed_ms + delta_ms;
    let fires = total / (EXPLOSION_PERIOD_MS as int);
    if fires >= EXPLOSION_LEN - t.frame {
        ExplosionTimer { elapsed_ms: 0, frame: EXPLOSION_LEN }
    } else {
        ExplosionTimer { elapsed_ms: (total % (EXPLOSION_PERIOD_MS as int)) as i64, frame: (t.frame + fires) as u32 }
    }
}

impl ExplosionTimer {
    pub open spec fn wf(&self) -> bool {
        0 <= self.elapsed_ms < EXPLOSION_PERIOD_MS && self.frame <= EXPLOSION_LEN
    }

    /// Total time the explosion has run, as the frames shown account for it.
    pub open spec fn age_ms(&self) -> int {
        self.frame * EXPLOSION_PERIOD_MS + self.elapsed_ms
    }

    pub open spec fn spec_finished(&self) -> bool {
        self.frame >= EXPLOSION_LEN
    }

    /// A timer at the first frame.
    pub fn new() -> (r: ExplosionTimer)
        ensures
            r.wf(),
            r.frame == 0,
            r.age_ms() == 0,
    {
        ExplosionTimer { elapsed_ms: 0, frame: 0 }
    }

    /// Advances the clock by `delta_ms`; every full period that passes shows
    /// the next frame. Frames stop counting at the last one.
    pub fn tick(&mut self, delta_ms: i64)
        requires
            old(self).wf(),
            0 <= delta_ms <= DELTA_LIMIT_MS,
        ensures
            *final(self) == spec_tick(*old(self), delta_ms as int),
            final(self).wf(),
            !final(self).spec_finished() ==> final(self).age_ms() == old(self).age_ms() + delta_ms,
            final(self).spec_finished() ==> final(self).age_ms() <= old(self).age_ms() + delta_ms,
            old(self).spec_finished() ==> final(self).spec_finished(),
    {
        let f0: u32 = self.frame;
        let total: i64 = self.elapsed_ms + delta_ms;
        let fires: i64 = total / EXPLOSION_PERIOD_MS;
        let rest: i64 = total % EXPLOSION_PERIOD_MS;
        let room: i64 = (EXPLOSION_LEN - self.frame) as i64;
        if fires >= room {
            self.frame = EXPLOSION_LEN;
            self.elapsed_ms = 0;
            assert(EXPLOSION_LEN * EXPLOSION_PERIOD_MS <= f0 * EXPLOSION_PERIOD_MS + fires * EXPLOSION_PERIOD_MS) by (nonlinear_arith)
                requires EXPLOSION_LEN == f0 + room, room <= fires;
        } else {
            self.frame = self.frame + fires as u32;
            self.elapsed_ms = rest;
        }
    }

    /// Whether the animation has shown its last frame.
    pub fn finished(&self) -> (r: bool)
        ensures
            r == self.spec_finished(),
    {
        self.frame >= EXPLOSION_LEN
    }
}

/// An explosion is removed no sooner than the time its frames take to
/// play: a timer that has finished has run for at least that long.
pub proof fn lemma_explosion_lifetime(t: ExplosionTimer)
    requires
        t.wf(),
        t.spec_finished(),
    ensures
        t.age_ms() >= EXPLOSION_LEN * EXPLOSION_PERIOD_MS,
{
}

} // verus!
