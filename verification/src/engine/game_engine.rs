use vstd::prelude::*;

verus! {

/// The most game updates that run in one frame.
pub const MAX_UPDATES_PER_FRAME: u32 = 5;

/// When the game loop runs the next update, and how far apart updates are,
/// both in nanoseconds since the loop's clock started.
#[derive(Debug, Clone, Copy, PartialEq, Eq, Structural)]
pub struct TickSchedule {
    pub next_tick: u64,
    pub tick_delta: u64,
}

impl TickSchedule {
    /// The schedule for `target_fps` updates a second, built when the clock
    /// reads `elapsed`: updates `1000 / target_fps` whole milliseconds apart,
    /// the first one interval after `elapsed`.
    pub fn new(target_fps: u32, elapsed: u64) -> (r: Self)
        requires
            target_fps > 0,
            elapsed + (1000int / (target_fps as int)) * 1_000_000int <= u64::MAX,
        ensures
            r.tick_delta == (1000int / (target_fps as int)) * 1_000_000int,
            r.next_tick == elapsed + r.tick_delta,
    {
        let millis: u64 = 1000 / (target_fps as u64);
        assert(millis == 1000int / (target_fps as int));
        assert(millis * 1_000_000 <= 1_000_000_000) by (nonlinear_arith)
            requires
                millis <= 1000,
        ;
        let tick_delta = millis * 1_000_000;
        TickSchedule { next_tick: elapsed + tick_delta, tick_delta }
    }

    /// One decision of a frame's update loop, with `updates` updates run in
    /// this frame so far and the clock reading `elapsed`: another update runs
    /// while the clock is past the next tick and fewer than
    /// `MAX_UPDATES_PER_FRAME` updates have run; running one moves the next
    /// tick one interval on.
    pub fn step(&mut self, elapsed: u64, updates: u32) -> (run: bool)
        requires
            elapsed > old(self).next_tick && updates < MAX_UPDATES_PER_FRAME ==> old(self).next_tick
                + old(self).tick_delta <= u64::MAX,
        ensures
            run == (elapsed > old(self).next_tick && updates < MAX_UPDATES_PER_FRAME),
            run ==> final(self).next_tick == old(self).next_tick + old(self).tick_delta,
            final(self).tick_delta == old(self).tick_delta,
            !run ==> *final(self) == *old(self),
    {
        if elapsed > self.next_tick && updates < MAX_UPDATES_PER_FRAME {
            self.next_tick = self.next_tick + self.tick_delta;
            true
        } else {
            false
        }
    }
}

} // verus!
