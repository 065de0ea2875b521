use vstd::prelude::*;
use crate::instant::{read_clock, Clock, Target, NANOS_PER_SEC};
use crate::remaining::Remaining;

verus! {

/// One recomputation: the span to publish, and how long to wait for the next one.
#[derive(Clone, Copy, Debug, PartialEq, Eq, Structural)]
pub struct Tick {
    pub remaining: Remaining,
    /// Nanoseconds from `now` to the next whole second.
    pub delay_nanos: u32,
}

/// `target - now`, with `now` cut down to its whole second.
pub open spec fn remaining_at(target: Target, now: Clock) -> int {
    target.instant_nanos() - now.secs * NANOS_PER_SEC
}

/// What a tick at `now` publishes and schedules.
pub open spec fn spec_tick(target: Target, now: Clock) -> Tick {
    Tick {
        remaining: Remaining { nanos: remaining_at(target, now) as i128 },
        delay_nanos: (NANOS_PER_SEC - now.nanos) as u32,
    }
}

/// Computes the span left at `now`, counted from the start of the current
/// second, and the wait until the next second begins.
pub fn tick(target: &Target, now: &Clock) -> (t: Tick)
    requires
        target.wf(),
        now.wf(),
    ensures
        t == spec_tick(*target, *now),
        t.remaining.wf(),
        t.remaining.nanos == target.instant_nanos() - now.secs * NANOS_PER_SEC,
        0 < t.delay_nanos <= NANOS_PER_SEC,
        now.instant_nanos() + t.delay_nanos == (now.secs + 1) * NANOS_PER_SEC,
{
    let at: i128 = target.timestamp as i128 * 1_000_000_000 + target.nanos as i128;
    let from: i128 = now.secs as i128 * 1_000_000_000;
    Tick { remaining: Remaining { nanos: at - from }, delay_nanos: NANOS_PER_SEC - now.nanos }
}

/// Counts down to a target: idle until started, then running until stopped.
/// Each timer firing while it runs yields the next tick; a firing after it has
/// been stopped yields nothing.
#[derive(Clone, Copy, Debug, PartialEq, Eq, Structural)]
pub struct Ticker {
    pub target: Target,
    pub running: bool,
}

impl Ticker {
    pub open spec fn wf(&self) -> bool {
        self.target.wf()
    }

    /// An idle ticker for `target`.
    pub fn new(target: Target) -> (r: Ticker)
        requires
            target.wf(),
        ensures
            r.wf(),
            r.target == target,
            !r.running,
    {
        Ticker { target, running: false }
    }

    /// Starts the countdown and makes its first tick at `now`.
    pub fn start(&mut self, now: Clock) -> (t: Tick)
        requires
            old(self).wf(),
            now.wf(),
        ensures
            final(self).target == old(self).target,
            final(self).running,
            t == spec_tick(old(self).target, now),
    {
        self.running = true;
        tick(&self.target, &now)
    }

    /// A timer has fired at `now`: the next tick while running, nothing once stopped.
    pub fn fire(&mut self, now: Clock) -> (r: Option<Tick>)
        requires
            old(self).wf(),
            now.wf(),
        ensures
            *final(self) == *old(self),
            old(self).running ==> r == Some(spec_tick(old(self).target, now)),
            !old(self).running ==> r is None,
    {
        if self.running {
            Some(tick(&self.target, &now))
        } else {
            None
        }
    }

    /// Stops the countdown: later firings do nothing.
    pub fn stop(&mut self)
        ensures
            final(self).target == old(self).target,
            !final(self).running,
    {
        self.running = false;
    }

    /// Starts the countdown at the current time.
    pub fn start_now(&mut self) -> (t: Tick)
        requires
            old(self).wf(),
        ensures
            final(self).target == old(self).target,
            final(self).running,
            exists|now: Clock| now.wf() && t == spec_tick(old(self).target, now),
    {
        let now = read_clock();
        self.start(now)
    }

    /// A timer has fired: the tick at the current time while running, nothing once stopped.
    pub fn fire_now(&mut self) -> (r: Option<Tick>)
        requires
            old(self).wf(),
        ensures
            *final(self) == *old(self),
            old(self).running ==> exists|now: Clock|
                now.wf() && r == Some(spec_tick(old(self).target, now)),
            !old(self).running ==> r is None,
    {
        let now = read_clock();
        self.fire(now)
    }
}

/// Ticks keep to whole seconds: each tick waits exactly until the next second
/// of the clock begins, and for a target on a whole second the span a tick
/// publishes is the target less the tick's second, so a tick in the following
/// second publishes exactly one second less, with its seconds-within-minute one
/// less unless the first stood at zero.
pub proof fn tick_alignment(target: Target, first: Clock, next: Clock)
    requires
        target.wf(),
        first.wf(),
        next.wf(),
        target.nanos == 0,
        next.secs == first.secs + 1,
    ensures
        first.instant_nanos() + spec_tick(target, first).delay_nanos == next.secs * NANOS_PER_SEC,
        spec_tick(target, first).remaining.whole_seconds() == target.timestamp - first.secs,
        spec_tick(target, next).remaining.whole_seconds() == spec_tick(target, first).remaining.whole_seconds() - 1,
        spec_tick(target, first).remaining.whole_seconds() > 0 && spec_tick(target, first).remaining.spec_parts().seconds
            > 0 ==> spec_tick(target, next).remaining.spec_parts().seconds == spec_tick(
            target,
            first,
        ).remaining.spec_parts().seconds - 1,
{
    lemma_whole_seconds(target, first);
    lemma_whole_seconds(target, next);
    let s = target.timestamp - first.secs;
    if s > 0 {
        assert(s - 1 >= 0);
        assert(s % 60 > 0 ==> (s - 1) % 60 == s % 60 - 1);
    }
}

proof fn lemma_whole_seconds(target: Target, now: Clock)
    requires
        target.wf(),
        now.wf(),
        target.nanos == 0,
    ensures
        spec_tick(target, now).remaining.whole_seconds() == target.timestamp - now.secs,
{
    let k: int = target.timestamp - now.secs;
    assert(remaining_at(target, now) == k * 1_000_000_000) by (nonlinear_arith)
        requires
            remaining_at(target, now) == target.timestamp * 1_000_000_000 + 0 - now.secs * 1_000_000_000,
            k == target.timestamp - now.secs,
    ;
    if k >= 0 {
        vstd::arithmetic::div_mod::lemma_div_by_multiple(k, 1_000_000_000);
    } else {
        vstd::arithmetic::div_mod::lemma_div_by_multiple(-k, 1_000_000_000);
        assert(-(k * 1_000_000_000) == (-k) * 1_000_000_000) by (nonlinear_arith);
    }
}

} // verus!
