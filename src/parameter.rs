//! One-pole smoothing of a control value toward a target.
use vstd::prelude::*;
use crate::fixed::{clamp, floor_div, lemma_mul_bounded, saturate, EPSILON, ONE, SAMPLE_MAX, SAMPLE_MIN};

verus! {

/// `diff * factor / ONE`, rounded away from zero, so that any non-zero
/// product moves by at least one raw step.
pub open spec fn smoothing_step(diff: int, factor: int) -> int {
    let p = diff * factor;
    if p >= 0 {
        (p + ONE - 1) / (ONE as int)
    } else {
        -((-p + ONE - 1) / (ONE as int))
    }
}

/// The value after one smoothing step from `current` toward `target`.
pub open spec fn next_value(current: int, target: int, factor: int) -> int {
    if current == target {
        current
    } else if -EPSILON < target - current < EPSILON {
        target
    } else {
        clamp(current + smoothing_step(target - current, factor))
    }
}

/// The state of a smoothed parameter as plain numbers.
pub struct ParamState {
    /// The value reached so far.
    pub current: int,
    /// The value being approached.
    pub target: int,
    /// The smoothing coefficient (Q16.16).
    pub factor: int,
}

impl ParamState {
    /// The state after one smoothing step.
    pub open spec fn step(self) -> ParamState {
        ParamState {
            current: next_value(self.current, self.target, self.factor),
            target: self.target,
            factor: self.factor,
        }
    }
}

/// The state after `n` smoothing steps.
pub open spec fn steps(p: ParamState, n: nat) -> ParamState
    decreases n,
{
    if n == 0 {
        p
    } else {
        steps(p, (n - 1) as nat).step()
    }
}

/// Both values of the state are samples.
pub open spec fn in_sample_range(p: ParamState) -> bool {
    SAMPLE_MIN <= p.current <= SAMPLE_MAX && SAMPLE_MIN <= p.target <= SAMPLE_MAX
}

/// With a factor in `(0, 1]`, a step moves the value strictly toward the
/// target by at least one raw unit and never past it.
pub proof fn lemma_step_approaches(p: ParamState)
    requires
        in_sample_range(p),
        0 < p.factor <= ONE,
    ensures
        p.step().target == p.target,
        p.step().factor == p.factor,
        p.current < p.target ==> p.current < p.step().current <= p.target,
        p.current > p.target ==> p.target <= p.step().current < p.current,
        p.current == p.target ==> p.step().current == p.target,
{
    let diff = p.target - p.current;
    let f = p.factor;
    let one = ONE as int;
    if diff > 0 {
        let prod = diff * f;
        assert(1 <= prod <= diff * one) by (nonlinear_arith)
            requires
                diff >= 1,
                1 <= f <= one,
                prod == diff * f,
        ;
        vstd::arithmetic::div_mod::lemma_fundamental_div_mod(prod + one - 1, one);
        vstd::arithmetic::div_mod::lemma_mod_bound(prod + one - 1, one);
    } else if diff < 0 {
        let prod = diff * f;
        assert(-(diff * one) >= -prod >= 1) by (nonlinear_arith)
            requires
                diff <= -1,
                1 <= f <= one,
                prod == diff * f,
        ;
        vstd::arithmetic::div_mod::lemma_fundamental_div_mod(-prod + one - 1, one);
        vstd::arithmetic::div_mod::lemma_mod_bound(-prod + one - 1, one);
    }
}

/// Repeated steps with a factor in `(0, 1]` reach the target exactly after at
/// most as many steps as raw units separate the value from the target, and
/// every step stays on the starting side of the target.
pub proof fn lemma_smoothing_converges(p: ParamState, n: nat)
    requires
        in_sample_range(p),
        0 < p.factor <= ONE,
    ensures
        in_sample_range(steps(p, n)),
        steps(p, n).target == p.target,
        steps(p, n).factor == p.factor,
        p.current <= p.target ==> p.current + n <= steps(p, n).current || steps(p, n).current
            == p.target,
        p.current <= p.target ==> steps(p, n).current <= p.target,
        p.current >= p.target ==> p.current - n >= steps(p, n).current || steps(p, n).current
            == p.target,
        p.current >= p.target ==> steps(p, n).current >= p.target,
        n >= (if p.current <= p.target {
            p.target - p.current
        } else {
            p.current - p.target
        }) ==> steps(p, n).current == p.target,
    decreases n,
{
    if n > 0 {
        let prev = steps(p, (n - 1) as nat);
        lemma_smoothing_converges(p, (n - 1) as nat);
        lemma_step_approaches(prev);
    }
}

/// With factor one, a single step lands exactly on the target.
pub proof fn lemma_immediate_factor(p: ParamState)
    requires
        in_sample_range(p),
        p.factor == ONE,
    ensures
        p.step().current == p.target,
{
    let diff = p.target - p.current;
    let one = ONE as int;
    if diff > 0 {
        vstd::arithmetic::div_mod::lemma_fundamental_div_mod_converse(diff * one + one - 1, one, diff, one - 1);
    } else if diff < 0 {
        vstd::arithmetic::div_mod::lemma_fundamental_div_mod_converse(-diff * one + one - 1, one, -diff, one - 1);
    }
}

/// A control value that glides toward its target by a fixed fraction of the
/// remaining distance per step; `factor` is Q16.16 (`ONE` jumps at once).
#[derive(Clone, Copy, Debug)]
pub struct SmoothedParam {
    current_value: i32,
    target_value: i32,
    factor: i32,
}

impl View for SmoothedParam {
    type V = ParamState;

    closed spec fn view(&self) -> ParamState {
        ParamState {
            current: self.current_value as int,
            target: self.target_value as int,
            factor: self.factor as int,
        }
    }
}

impl SmoothedParam {
    /// Starts at rest at `initial_value`.
    pub fn new(initial_value: i32, smooth_factor: i32) -> (r: Self)
        ensures
            r@ == (ParamState { current: initial_value as int, target: initial_value as int, factor: smooth_factor as int }),
    {
        SmoothedParam { current_value: initial_value, target_value: initial_value, factor: smooth_factor }
    }

    /// Sets the value to approach; the current value is left as it is.
    pub fn set_target(&mut self, target: i32)
        ensures
            final(self)@ == (ParamState { target: target as int, ..old(self)@ }),
    {
        self.target_value = target;
    }

    /// Jumps to `value` at once, bypassing smoothing.
    pub fn set_immediate(&mut self, value: i32)
        ensures
            final(self)@ == (ParamState { current: value as int, target: value as int, ..old(self)@ }),
    {
        self.current_value = value;
        self.target_value = value;
    }

    /// Sets the coefficient used by the following steps.
    pub fn set_factor(&mut self, factor: i32)
        ensures
            final(self)@ == (ParamState { factor: factor as int, ..old(self)@ }),
    {
        self.factor = factor;
    }

    /// Takes one smoothing step and returns the new current value.
    pub fn next(&mut self) -> (r: i32)
        ensures
            final(self)@ == old(self)@.step(),
            r == final(self)@.current,
    {
        if self.current_value != self.target_value {
            let diff: i64 = self.target_value as i64 - self.current_value as i64;
            if -EPSILON < diff && diff < EPSILON {
                self.current_value = self.target_value;
            } else {
                proof {
                    lemma_mul_bounded(diff as int, self.factor as int, 0x1_0000_0000, 0x8000_0000);
                }
                let p: i128 = diff as i128 * self.factor as i128;
                let step: i128 = if p >= 0 {
                    floor_div(p + (ONE - 1) as i128, ONE as i128)
                } else {
                    -floor_div(-p + (ONE - 1) as i128, ONE as i128)
                };
                self.current_value = saturate(self.current_value as i128 + step);
            }
        }
        self.current_value
    }

    /// The current value, without stepping.
    pub fn current(&self) -> (r: i32)
        ensures
            r == self@.current,
    {
        self.current_value
    }
}

} // verus!
