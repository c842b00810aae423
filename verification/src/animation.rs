//! Frame timing for animations.
//!
//! An [`AnimationTimer`] counts elapsed frame ticks towards a fixed budget
//! and reports progress as an exact fraction, clamped to one. A [`Linear`]
//! animation couples a timer with an oriented segment and yields the point
//! the animation front has reached, so a renderer can paint the grown and
//! the remaining part of the segment separately.
//!
//! The host loop owns the clock: it hands each call the number of ticks
//! that elapsed since the previous one.

use vstd::prelude::*;
use vstd::arithmetic::mul::{lemma_mul_basics, lemma_mul_inequality};
use crate::geom::{lerp_point, lerp_point_spec, Point};

verus! {

/// An exact completion fraction `num / den`, between zero and one.
#[derive(Clone, Copy, Debug, PartialEq, Eq, Structural)]
pub struct Percent {
    pub num: usize,
    pub den: usize,
}

impl Percent {
    /// The denominator is positive and the fraction is at most one.
    pub open spec fn wf(self) -> bool {
        1 <= self.den && self.num <= self.den
    }

    /// The fraction equals one.
    pub open spec fn is_one(self) -> bool {
        self.num == self.den
    }
}

/// `p` is at most `q` as a fraction: `p.num / p.den <= q.num / q.den`,
/// cross-multiplied so it needs no division.
pub open spec fn frac_le(p: Percent, q: Percent) -> bool {
    p.num * q.den <= q.num * p.den
}

/// Converts elapsed frame ticks into a completion fraction for a
/// fixed-length animation, clamped to one.
#[derive(Clone, Copy, Debug, PartialEq, Eq, Structural)]
pub struct AnimationTimer {
    pub at_frame: usize,
    pub frames_count: usize,
}

impl AnimationTimer {
    /// The timer has consumed its whole frame budget.
    pub open spec fn ended_spec(self) -> bool {
        self.at_frame >= self.frames_count
    }

    /// The timer after consuming `ticks` elapsed ticks: the frame counter
    /// saturates at the budget, and a finished timer no longer counts.
    pub open spec fn advanced(self, ticks: int) -> AnimationTimer {
        if self.at_frame >= self.frames_count {
            self
        } else if self.at_frame + ticks >= self.frames_count {
            AnimationTimer { at_frame: self.frames_count, ..self }
        } else {
            AnimationTimer { at_frame: (self.at_frame + ticks) as usize, ..self }
        }
    }

    /// The fraction reported after consuming `ticks` elapsed ticks.
    pub open spec fn fraction(self, ticks: int) -> Percent {
        if self.at_frame >= self.frames_count {
            Percent { num: 1, den: 1 }
        } else {
            Percent { num: self.advanced(ticks).at_frame, den: self.frames_count }
        }
    }

    /// A fresh timer with the given frame budget, starting at progress
    /// zero. A budget of zero counts as already finished.
    pub fn new(frames_count: usize) -> (t: AnimationTimer)
        ensures
            t == (AnimationTimer { at_frame: 0, frames_count }),
            t.ended_spec() <==> frames_count == 0,
    {
        AnimationTimer { at_frame: 0, frames_count }
    }

    /// Consumes `ticks` elapsed ticks and reports the completion fraction.
    ///
    /// The counter saturates at the budget, so the fraction never exceeds
    /// one, and once the budget is reached every further call reports
    /// exactly one without counting on.
    pub fn percent(&mut self, ticks: usize) -> (p: Percent)
        ensures
            *final(self) == old(self).advanced(ticks as int),
            p == old(self).fraction(ticks as int),
            p.wf(),
            p.is_one() <==> final(self).ended_spec(),
            old(self).at_frame + ticks >= old(self).frames_count ==> p.is_one(),
    {
        if self.at_frame >= self.frames_count {
            Percent { num: 1, den: 1 }
        } else {
            let remaining: usize = self.frames_count - self.at_frame;
            if ticks >= remaining {
                self.at_frame = self.frames_count;
            } else {
                self.at_frame = self.at_frame + ticks;
            }
            Percent { num: self.at_frame, den: self.frames_count }
        }
    }

    /// Whether the frame budget has been consumed.
    pub fn is_ended(&self) -> (b: bool)
        ensures
            b == self.ended_spec(),
    {
        self.at_frame >= self.frames_count
    }
}

/// A fraction that is at most one is `frac_le` one-over-one.
proof fn proof_mul_one(p: Percent)
    requires
        p.num <= p.den,
    ensures
        frac_le(p, Percent { num: 1, den: 1 }),
{
    lemma_mul_basics(p.num as int);
    lemma_mul_basics(p.den as int);
}

/// Across two successive `percent` calls the reported fraction never
/// decreases, whatever tick counts the host hands in.
pub proof fn lemma_percent_monotonic(t: AnimationTimer, ticks1: usize, ticks2: usize)
    ensures
        frac_le(t.fraction(ticks1 as int), t.advanced(ticks1 as int).fraction(ticks2 as int)),
{
    let p1 = t.fraction(ticks1 as int);
    let t1 = t.advanced(ticks1 as int);
    let p2 = t1.fraction(ticks2 as int);
    if t.at_frame < t.frames_count {
        if t1.at_frame < t1.frames_count {
            let t2 = t1.advanced(ticks2 as int);
            assert(p1 == Percent { num: t1.at_frame, den: t.frames_count });
            assert(p2 == Percent { num: t2.at_frame, den: t.frames_count });
            assert(t1.at_frame <= t2.at_frame);
            lemma_mul_inequality(t1.at_frame as int, t2.at_frame as int, t.frames_count as int);
            assert(frac_le(p1, p2));
        } else {
            assert(p2 == Percent { num: 1, den: 1 });
            proof_mul_one(p1);
        }
    } else {
        assert(p1 == Percent { num: 1, den: 1 });
        assert(p2 == Percent { num: 1, den: 1 });
        proof_mul_one(p1);
    }
}

/// Once the consumed ticks cover the remaining budget, the timer ends and
/// reports exactly one; so with at least one tick per call, a positive
/// budget is exhausted after at most `frames_count` calls.
pub proof fn lemma_percent_completes(t: AnimationTimer, ticks: usize)
    requires
        t.at_frame + ticks >= t.frames_count,
    ensures
        t.advanced(ticks as int).ended_spec(),
        t.fraction(ticks as int).is_one(),
{
}

/// The ingredients of a [`Linear`] animation: the oriented segment to
/// grow, and the frame budget of its timer.
#[derive(Clone, Copy, Debug)]
pub struct LinearConfig {
    pub begin_state: (Point, Point),
    pub frame_count: usize,
}

impl LinearConfig {
    /// Starts the configured animation at progress zero.
    pub fn start(self) -> (l: Linear)
        ensures
            l == Linear::new_spec(self),
    {
        Linear::new(self)
    }
}

/// A linear "grow" effect along an oriented segment, driven by an
/// [`AnimationTimer`]. Each `draw` call advances the timer and yields the
/// point the front has reached.
#[derive(Clone, Copy, Debug)]
pub struct Linear {
    pub state: (Point, Point),
    pub timer: AnimationTimer,
}

impl Linear {
    /// The animation a [`LinearConfig`] starts: its segment, with a fresh
    /// timer over its frame budget.
    pub open spec fn new_spec(config: LinearConfig) -> Linear {
        Linear {
            state: config.begin_state,
            timer: AnimationTimer { at_frame: 0, frames_count: config.frame_count },
        }
    }

    pub fn new(config: LinearConfig) -> (l: Linear)
        ensures
            l == Linear::new_spec(config),
    {
        Linear { state: config.begin_state, timer: AnimationTimer::new(config.frame_count) }
    }

    /// Consumes `ticks` elapsed ticks and returns the point the animation
    /// front has reached on the way from the segment's first endpoint to
    /// its second.
    pub fn draw(&mut self, ticks: usize) -> (mid: Point)
        ensures
            *final(self) == (Linear {
                timer: old(self).timer.advanced(ticks as int),
                ..*old(self)
            }),
            mid == lerp_point_spec(
                old(self).state.0,
                old(self).state.1,
                old(self).timer.fraction(ticks as int).num as int,
                old(self).timer.fraction(ticks as int).den as int,
            ),
    {
        let p = self.timer.percent(ticks);
        lerp_point(self.state.0, self.state.1, p.num, p.den)
    }

    /// Whether the animation has consumed its whole frame budget.
    pub fn is_ended(&self) -> (b: bool)
        ensures
            b == self.timer.ended_spec(),
    {
        self.timer.is_ended()
    }
}

} // verus!
