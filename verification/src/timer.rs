//! A repeating timer measured in whole nanoseconds.

use vstd::prelude::*;
use vstd::arithmetic::div_mod::{lemma_fundamental_div_mod, lemma_fundamental_div_mod_converse};
use bevy::time::{Timer, TimerMode};
use std::time::Duration;

verus! {

/// Longest span of time handed to the engine timer in one call.
pub const SLICE_NANOS: u64 = 0xFFFF_FFFF;

/// Advances a fresh repeating `bevy::time::Timer` of the given period, set to
/// `elapsed_nanos`, by `delta_nanos` through `Timer::tick`, and reads back
/// `Timer::elapsed` and `Timer::times_finished_this_tick`.
///
/// The contract restates what `tick` does to an unpaused repeating timer: the
/// time on the clock grows by the delta, the number of whole periods it then
/// holds is reported, and those periods are taken off the clock. The
/// preconditions leave out a zero period, on which `tick` divides by zero, and
/// a count that `tick` would truncate to 32 bits.
#[verifier::external_body]
fn tick_engine_timer(period_nanos: u64, elapsed_nanos: u64, delta_nanos: u64) -> (r: (u64, u32))
    requires
        period_nanos > 0,
        (elapsed_nanos + delta_nanos) / (period_nanos as int) <= u32::MAX,
    ensures
        r.0 == (elapsed_nanos + delta_nanos) % (period_nanos as int),
        r.1 == (elapsed_nanos + delta_nanos) / (period_nanos as int),
{
    let mut timer = Timer::new(Duration::from_nanos(period_nanos), TimerMode::Repeating);
    timer.set_elapsed(Duration::from_nanos(elapsed_nanos));
    timer.tick(Duration::from_nanos(delta_nanos));
    (timer.elapsed().as_nanos() as u64, timer.times_finished_this_tick())
}

/// A timer that fires every `period` nanoseconds and keeps the remainder.
#[derive(Clone, Copy, Debug)]
pub struct RepeatingTimer {
    period_nanos: u64,
    elapsed_nanos: u64,
}

impl RepeatingTimer {
    /// A timer has a period, and its clock stays below it.
    #[verifier::type_invariant]
    pub closed spec fn valid(self) -> bool {
        0 < self.period_nanos && self.elapsed_nanos < self.period_nanos
    }

    /// Length of one period, in nanoseconds.
    pub closed spec fn period(self) -> int {
        self.period_nanos as int
    }

    /// Time on the clock since the last firing, in nanoseconds.
    pub closed spec fn elapsed(self) -> int {
        self.elapsed_nanos as int
    }

    /// The timer of `millis` milliseconds with nothing on the clock.
    pub closed spec fn spec_from_millis(millis: u32) -> RepeatingTimer {
        RepeatingTimer { period_nanos: (millis * 1_000_000) as u64, elapsed_nanos: 0 }
    }

    /// This timer after `delta` more nanoseconds.
    pub closed spec fn advanced(self, delta: int) -> RepeatingTimer {
        RepeatingTimer {
            period_nanos: self.period_nanos,
            elapsed_nanos: elapsed_after(self.period(), self.elapsed(), delta) as u64,
        }
    }

    /// Advancing a timer twice is advancing it once by the sum, and leaves
    /// it a timer.
    pub proof fn lemma_advanced_twice(self, first: int, second: int)
        requires
            self.valid(),
            0 <= first,
            0 <= second,
        ensures
            self.advanced(first).advanced(second) == self.advanced(first + second),
    {
        lemma_ticks_compose(self.period(), self.elapsed(), first, second);
        self.lemma_advanced(first);
        self.lemma_advanced(first + second);
        self.advanced(first).lemma_advanced(second);
    }

    /// A timer of some milliseconds is a timer of as many million
    /// nanoseconds with nothing on the clock.
    pub proof fn lemma_from_millis(millis: u32)
        requires
            millis > 0,
        ensures
            Self::spec_from_millis(millis).valid(),
            Self::spec_from_millis(millis).period() == millis * 1_000_000,
            Self::spec_from_millis(millis).elapsed() == 0,
    {
    }

    /// The clock of a timer stays below its period.
    pub proof fn lemma_bounds(self)
        requires
            self.valid(),
        ensures
            0 <= self.elapsed() < self.period() <= u64::MAX,
    {
    }

    /// Advancing a timer keeps its period and moves its clock on, around the
    /// period.
    pub broadcast proof fn lemma_advanced(self, delta: int)
        requires
            self.valid(),
            0 <= delta,
        ensures
            #![trigger self.advanced(delta)]
            self.advanced(delta).valid(),
            self.advanced(delta).period() == self.period(),
            self.advanced(delta).elapsed() == elapsed_after(self.period(), self.elapsed(), delta),
    {
        vstd::arithmetic::div_mod::lemma_mod_bound(self.elapsed() + delta, self.period());
    }

    /// A timer of the given period with nothing on the clock.
    pub fn from_millis(millis: u32) -> (t: RepeatingTimer)
        requires
            millis > 0,
        ensures
            t == Self::spec_from_millis(millis),
            t.valid(),
            t.period() == millis * 1_000_000,
            t.elapsed() == 0,
    {
        RepeatingTimer { period_nanos: (millis as u64) * 1_000_000, elapsed_nanos: 0 }
    }

    /// Length of one period, in nanoseconds.
    pub fn period_nanos(&self) -> (p: u64)
        ensures
            p == self.period(),
            p > 0,
    {
        proof {
            use_type_invariant(self);
        }
        self.period_nanos
    }

    /// Time on the clock since the last firing, in nanoseconds.
    pub fn elapsed_nanos(&self) -> (e: u64)
        ensures
            e == self.elapsed(),
            e < self.period(),
    {
        proof {
            use_type_invariant(self);
        }
        self.elapsed_nanos
    }

    /// Advances the clock by `delta_nanos` and returns how many period
    /// boundaries were crossed. The remainder stays on the clock.
    pub fn tick(&mut self, delta_nanos: u64) -> (fired: u64)
        ensures
            *final(self) == old(self).advanced(delta_nanos as int),
            final(self).valid(),
            final(self).period() == old(self).period(),
            fired == fired_during(old(self).period(), old(self).elapsed(), delta_nanos as int),
            final(self).elapsed() == elapsed_after(
                old(self).period(),
                old(self).elapsed(),
                delta_nanos as int,
            ),
    {
        proof {
            use_type_invariant(&*self);
        }
        let period: u64 = self.period_nanos;
        let mut elapsed: u64 = self.elapsed_nanos;
        let mut remaining: u64 = delta_nanos;
        let mut fired: u64 = 0;
        while remaining > 0
            invariant
                0 < period,
                elapsed < period,
                fired * period + elapsed + remaining == old(self).elapsed_nanos + delta_nanos,
                period == old(self).period_nanos,
                old(self).elapsed_nanos < period,
            decreases remaining,
        {
            let step: u64 = if remaining > SLICE_NANOS {
                SLICE_NANOS
            } else {
                remaining
            };
            proof {
                lemma_slice_count_fits(period as int, elapsed as int, step as int);
            }
            let (clock, count) = tick_engine_timer(period, elapsed, step);
            proof {
                let total = elapsed + step;
                lemma_fundamental_div_mod(total, period as int);
                assert((fired + count) * period == fired * period + count * period)
                    by (nonlinear_arith);
                lemma_count_fits(
                    period as int,
                    old(self).elapsed_nanos as int,
                    delta_nanos as int,
                    fired + count,
                    clock as int + (remaining - step),
                );
            }
            fired = fired + count as u64;
            elapsed = clock;
            remaining = remaining - step;
        }
        proof {
            lemma_fundamental_div_mod_converse(
                old(self).elapsed_nanos + delta_nanos,
                period as int,
                fired as int,
                elapsed as int,
            );
        }
        self.elapsed_nanos = elapsed;
        fired
    }
}

/// Number of period boundaries crossed when a clock showing `elapsed` is
/// advanced by `delta`.
pub open spec fn fired_during(period: int, elapsed: int, delta: int) -> int {
    (elapsed + delta) / period
}

/// What the clock shows after being advanced by `delta` from `elapsed`.
pub open spec fn elapsed_after(period: int, elapsed: int, delta: int) -> int {
    (elapsed + delta) % period
}

proof fn lemma_slice_count_fits(period: int, elapsed: int, step: int)
    requires
        0 < period,
        0 <= elapsed < period,
        0 <= step <= SLICE_NANOS,
    ensures
        (elapsed + step) / period <= u32::MAX,
{
    let total = elapsed + step;
    lemma_fundamental_div_mod(total, period);
    let q = total / period;
    if q > u32::MAX {
        assert(period * q >= period * 0x1_0000_0000) by (nonlinear_arith)
            requires
                q >= 0x1_0000_0000,
                period > 0,
        ;
        assert(period * 0x1_0000_0000 >= period + 0xFFFF_FFFF) by (nonlinear_arith)
            requires
                period >= 1,
        ;
    }
}

proof fn lemma_count_fits(period: int, elapsed: int, delta: int, count: int, rest: int)
    requires
        0 < period,
        0 <= elapsed < period,
        0 <= delta <= u64::MAX,
        0 <= rest,
        0 <= count,
        count * period + rest == elapsed + delta,
    ensures
        count <= u64::MAX,
{
    if count > u64::MAX {
        assert(count * period >= 0x1_0000_0000_0000_0000 * period) by (nonlinear_arith)
            requires
                count >= 0x1_0000_0000_0000_0000,
                period > 0,
        ;
        assert(0x1_0000_0000_0000_0000 * period >= period + 0xFFFF_FFFF_FFFF_FFFF)
            by (nonlinear_arith)
            requires
                period >= 1,
        ;
    }
}

/// Splitting a span of time into two ticks changes neither the total number
/// of firings nor what the clock shows at the end.
pub proof fn lemma_ticks_compose(period: int, elapsed: int, first: int, second: int)
    requires
        0 < period,
        0 <= elapsed,
        0 <= first,
        0 <= second,
    ensures
        fired_during(period, elapsed, first) + fired_during(
            period,
            elapsed_after(period, elapsed, first),
            second,
        ) == fired_during(period, elapsed, first + second),
        elapsed_after(period, elapsed_after(period, elapsed, first), second) == elapsed_after(
            period,
            elapsed,
            first + second,
        ),
{
    let total1 = elapsed + first;
    let q1 = total1 / period;
    let r1 = total1 % period;
    lemma_fundamental_div_mod(total1, period);
    let total2 = r1 + second;
    let q2 = total2 / period;
    let r2 = total2 % period;
    lemma_fundamental_div_mod(total2, period);
    assert((q1 + q2) * period == period * q1 + period * q2) by (nonlinear_arith);
    vstd::arithmetic::div_mod::lemma_mod_bound(total1, period);
    vstd::arithmetic::div_mod::lemma_mod_bound(total2, period);
    lemma_fundamental_div_mod_converse(elapsed + first + second, period, q1 + q2, r2);
}

} // verus!
