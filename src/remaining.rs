use vstd::prelude::*;

verus! {

/// Division that rounds toward zero, as Rust's `/` does on signed integers.
pub open spec fn trunc_div(a: int, d: int) -> int {
    if a >= 0 {
        a / d
    } else {
        -((-a) / d)
    }
}

/// The remainder that goes with `trunc_div`: it takes the sign of `a`, as Rust's `%` does.
pub open spec fn trunc_rem(a: int, d: int) -> int {
    a - d * trunc_div(a, d)
}

/// The largest span, in nanoseconds, between two moments that chrono can represent.
pub const MAX_SPAN_NANOS: i128 = 20_000_000_000_000_000_000_000;

/// A signed span of time, `target - now`; negative once the target has passed.
#[derive(Clone, Copy, Debug, PartialEq, Eq, Structural)]
pub struct Remaining {
    pub nanos: i128,
}

/// A span as the countdown shows it: every part has the sign of the span.
#[derive(Clone, Copy, Debug, PartialEq, Eq, Structural)]
pub struct Parts {
    pub weeks: i64,
    pub days: i64,
    pub hours: i64,
    pub minutes: i64,
    pub seconds: i64,
}

impl Remaining {
    pub open spec fn wf(&self) -> bool {
        -MAX_SPAN_NANOS <= self.nanos <= MAX_SPAN_NANOS
    }

    /// The span in whole seconds, rounded toward zero.
    pub open spec fn whole_seconds(&self) -> int {
        trunc_div(self.nanos as int, 1_000_000_000)
    }

    /// Whole weeks, the days past them, and the hours, minutes and seconds past those.
    pub open spec fn spec_parts(&self) -> Parts {
        let s = self.whole_seconds();
        Parts {
            weeks: trunc_div(trunc_div(s, 86400), 7) as i64,
            days: trunc_rem(trunc_div(s, 86400), 7) as i64,
            hours: trunc_rem(trunc_div(s, 3600), 24) as i64,
            minutes: trunc_rem(trunc_div(s, 60), 60) as i64,
            seconds: trunc_rem(s, 60) as i64,
        }
    }

    /// Splits the span into weeks, days within the week, hours within the day,
    /// minutes within the hour and seconds within the minute. A negative span
    /// gives parts that are zero or negative.
    pub fn parts(&self) -> (p: Parts)
        requires
            self.wf(),
        ensures
            p == self.spec_parts(),
            p.weeks == trunc_div(trunc_div(self.whole_seconds(), 86400), 7),
            p.days == trunc_rem(trunc_div(self.whole_seconds(), 86400), 7),
            p.hours == trunc_rem(trunc_div(self.whole_seconds(), 3600), 24),
            p.minutes == trunc_rem(trunc_div(self.whole_seconds(), 60), 60),
            p.seconds == trunc_rem(self.whole_seconds(), 60),
            self.nanos < 0 ==> p.weeks <= 0 && p.days <= 0 && p.hours <= 0 && p.minutes <= 0 && p.seconds <= 0,
            self.nanos >= 0 ==> p.weeks >= 0 && p.days >= 0 && p.hours >= 0 && p.minutes >= 0 && p.seconds >= 0,
    {
        let negative = self.nanos < 0;
        let size: u128 = if negative { (0 - self.nanos) as u128 } else { self.nanos as u128 };
        let secs: u128 = size / 1_000_000_000;
        let days: u128 = secs / 86400;
        let w: u128 = days / 7;
        let d: u128 = days % 7;
        let h: u128 = (secs / 3600) % 24;
        let m: u128 = (secs / 60) % 60;
        let s: u128 = secs % 60;
        proof {
            lemma_trunc(size as int, negative, 1_000_000_000);
            lemma_trunc(secs as int, negative, 86400);
            lemma_trunc(days as int, negative, 7);
            lemma_trunc(secs as int, negative, 3600);
            lemma_trunc(secs as int, negative, 60);
            lemma_trunc((secs / 60) as int, negative, 60);
            lemma_trunc((secs / 3600) as int, negative, 24);
        }
        if negative {
            Parts {
                weeks: -(w as i64),
                days: -(d as i64),
                hours: -(h as i64),
                minutes: -(m as i64),
                seconds: -(s as i64),
            }
        } else {
            Parts { weeks: w as i64, days: d as i64, hours: h as i64, minutes: m as i64, seconds: s as i64 }
        }
    }
}

/// Rounding toward zero acts on the size of a number and keeps its sign.
proof fn lemma_trunc(x: int, negative: bool, d: int)
    requires
        x >= 0,
        d > 0,
    ensures
        trunc_div(if negative { -x } else { x }, d) == if negative { -(x / d) } else { x / d },
        trunc_rem(if negative { -x } else { x }, d) == if negative { -(x % d) } else { x % d },
{
    vstd::arithmetic::div_mod::lemma_fundamental_div_mod(x, d);
    if negative {
        if x == 0 {
            assert(0int / d == 0);
            assert(0int % d == 0);
        } else {
            assert(trunc_div(-x, d) == -(x / d));
            assert(trunc_rem(-x, d) == -x - d * (-(x / d)));
            assert(d * (-(x / d)) == -(d * (x / d))) by (nonlinear_arith);
        }
    }
}

} // verus!
