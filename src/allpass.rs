//! The first-order allpass filter with a smoothed fractional delay.
use vstd::prelude::*;
use crate::delay::{after_pushes, lemma_after_pushes, lemma_read_whole_delay, lemma_window_push, read_position, ring_window, DelayLine};
use crate::fixed::{clamp, fixed_mul, floor_div, lemma_mul_bounded, saturate, ONE};
use crate::interpolation::{Interpolator, Linear, MAX_CAPACITY};
use crate::parameter::{ParamState, SmoothedParam};

verus! {

/// Smoothing coefficient given to both parameters at construction (0.01).
pub const DEFAULT_SMOOTHING: i32 = 655;

/// The whole state of a filter as plain values.
pub struct FilterModel<I> {
    /// The delay line's slots.
    pub buffer: Seq<i32>,
    /// The slot that the next push overwrites.
    pub cursor: int,
    /// The read kernel.
    pub interp: I,
    /// The smoothed delay length (Q16.16 samples).
    pub delay: ParamState,
    /// The smoothed feedback gain (Q16.16).
    pub gain: ParamState,
}

/// One sample through the allpass recursion: the state after it and the output.
pub open spec fn allpass_step<I: Interpolator>(m: FilterModel<I>, input: int) -> (FilterModel<I>, int) {
    let delay = m.delay.step();
    let gain = m.gain.step();
    let g = gain.current;
    let delayed = m.interp.spec_interpolate(
        m.buffer,
        read_position(m.cursor, delay.current, m.buffer.len() as int),
    );
    let v = clamp(input + fixed_mul(g, delayed));
    let out = clamp(delayed - fixed_mul(g, v));
    (
        FilterModel {
            buffer: m.buffer.update(m.cursor, v as i32),
            cursor: (m.cursor + 1) % (m.buffer.len() as int),
            interp: m.interp,
            delay,
            gain,
        },
        out,
    )
}

/// A sequence of samples through the recursion, one after another: the state
/// after the last and the outputs in order.
pub open spec fn allpass_run<I: Interpolator>(m: FilterModel<I>, xs: Seq<i32>) -> (FilterModel<I>, Seq<i32>)
    decreases xs.len(),
{
    if xs.len() == 0 {
        (m, Seq::empty())
    } else {
        let prev = allpass_run(m, xs.drop_last());
        let next = allpass_step(prev.0, xs.last() as int);
        (next.0, prev.1.push(next.1 as i32))
    }
}

/// Processing `xs` and then `ys` gives the state and the outputs of
/// processing `xs + ys` at once: a block gives what its samples give one by
/// one, however the stream is cut into blocks.
pub proof fn lemma_run_concat<I: Interpolator>(m: FilterModel<I>, xs: Seq<i32>, ys: Seq<i32>)
    ensures
        allpass_run(m, xs + ys).0 == allpass_run(allpass_run(m, xs).0, ys).0,
        allpass_run(m, xs + ys).1 == allpass_run(m, xs).1 + allpass_run(allpass_run(m, xs).0, ys).1,
    decreases ys.len(),
{
    if ys.len() == 0 {
        assert(xs + ys =~= xs);
        assert(allpass_run(m, xs).1 + allpass_run(allpass_run(m, xs).0, ys).1 =~= allpass_run(m, xs).1);
    } else {
        lemma_run_concat(m, xs, ys.drop_last());
        assert((xs + ys).drop_last() =~= xs + ys.drop_last());
        let mid = allpass_run(m, xs);
        let tail = allpass_run(mid.0, ys.drop_last());
        let last = allpass_step(tail.0, ys.last() as int);
        assert(allpass_run(m, xs + ys).1 =~= mid.1 + tail.1.push(last.1 as i32));
    }
}

/// A filter at rest with `cap` silent slots, the delay at `delay_slots`
/// whole samples and the gain at `gain`.
pub open spec fn resting<I: Interpolator>(interp: I, cap: nat, delay_slots: int, gain: int, factor: int) -> FilterModel<I> {
    FilterModel {
        buffer: Seq::new(cap, |i: int| 0i32),
        cursor: 0,
        interp,
        delay: ParamState { current: delay_slots * ONE, target: delay_slots * ONE, factor },
        gain: ParamState { current: gain, target: gain, factor },
    }
}

/// With gain zero the filter is a pure delay of the silent line.
proof fn lemma_zero_gain_run<I: Interpolator>(m0: FilterModel<I>, d: int, xs: Seq<i32>)
    requires
        m0 == resting(m0.interp, m0.buffer.len(), d, 0, m0.delay.factor),
        0 < m0.buffer.len() <= MAX_CAPACITY,
        1 <= d <= m0.buffer.len(),
        d * ONE <= i32::MAX,
    ensures
        allpass_run(m0, xs).0.delay == m0.delay,
        allpass_run(m0, xs).0.gain == m0.gain,
        allpass_run(m0, xs).0.interp == m0.interp,
        allpass_run(m0, xs).0.buffer.len() == m0.buffer.len(),
        0 <= allpass_run(m0, xs).0.cursor < m0.buffer.len(),
        ring_window(allpass_run(m0, xs).0.buffer, allpass_run(m0, xs).0.cursor) == after_pushes(
            m0.buffer,
            xs,
        ),
        allpass_run(m0, xs).1.len() == xs.len(),
        forall|k: int| 0 <= k < xs.len() && k < d ==> allpass_run(m0, xs).1[k] == 0,
    decreases xs.len(),
{
    let cap = m0.buffer.len();
    if xs.len() == 0 {
        assert(ring_window(m0.buffer, 0) =~= m0.buffer);
    } else {
        let prev = xs.drop_last();
        lemma_zero_gain_run(m0, d, prev);
        let r = allpass_run(m0, prev);
        let m = r.0;
        let x = xs.last();
        lemma_read_whole_delay(m.interp, m.buffer, m.cursor, d);
        lemma_after_pushes(m0.buffer, prev);
        let delayed = m.interp.spec_interpolate(m.buffer, read_position(m.cursor, d * ONE, cap as int));
        assert(fixed_mul(0, delayed) == 0);
        assert(fixed_mul(0, x as int) == 0);
        lemma_window_push(m.buffer, m.cursor, x);
        assert(xs.drop_last() =~= prev);
        if prev.len() < d {
            assert(delayed == 0);
        }
    }
}

/// With gain zero, a delay of `d` whole samples and a silent line, the first
/// `d` outputs are zero, whatever comes in.
pub proof fn lemma_zero_gain_delay<I: Interpolator>(
    interp: I,
    cap: nat,
    d: int,
    factor: int,
    xs: Seq<i32>,
    k: int,
)
    requires
        0 < cap <= MAX_CAPACITY,
        1 <= d <= cap,
        d * ONE <= i32::MAX,
        0 <= k < xs.len(),
        k < d,
    ensures
        allpass_run(resting(interp, cap, d, 0, factor), xs).1[k] == 0,
{
    lemma_zero_gain_run(resting(interp, cap, d, 0, factor), d, xs);
}

/// A fractional-delay allpass filter: a delay line and two smoothed
/// parameters, the delay length and the feedback gain.
pub struct AllPassFilter<I> {
    delay_line: DelayLine<I>,
    delay_length: SmoothedParam,
    g: SmoothedParam,
}

impl<I: Interpolator> AllPassFilter<I> {
    /// The filter's state.
    pub closed spec fn model(&self) -> FilterModel<I> {
        FilterModel {
            buffer: self.delay_line.spec_buffer(),
            cursor: self.delay_line.spec_cursor(),
            interp: self.delay_line.spec_interpolator(),
            delay: self.delay_length@,
            gain: self.g@,
        }
    }

    /// The delay line is well formed.
    pub closed spec fn wf(&self) -> bool {
        self.delay_line.wf()
    }

    /// A silent filter of `max_delay_samples` slots with the delay and gain
    /// at rest at the given values (Q16.16).
    pub fn new(max_delay_samples: usize, initial_delay: i32, gain: i32, interpolator: I) -> (r: Self)
        requires
            0 < max_delay_samples <= MAX_CAPACITY,
        ensures
            r.wf(),
            r.model() == (FilterModel {
                buffer: Seq::new(max_delay_samples as nat, |i: int| 0i32),
                cursor: 0,
                interp: interpolator,
                delay: ParamState {
                    current: initial_delay as int,
                    target: initial_delay as int,
                    factor: DEFAULT_SMOOTHING as int,
                },
                gain: ParamState {
                    current: gain as int,
                    target: gain as int,
                    factor: DEFAULT_SMOOTHING as int,
                },
            }),
    {
        AllPassFilter {
            delay_line: DelayLine::new(max_delay_samples, interpolator),
            delay_length: SmoothedParam::new(initial_delay, DEFAULT_SMOOTHING),
            g: SmoothedParam::new(gain, DEFAULT_SMOOTHING),
        }
    }

    /// Sets the smoothing coefficient of both parameters.
    pub fn set_smoothing(&mut self, factor: i32)
        requires
            old(self).wf(),
        ensures
            final(self).wf(),
            final(self).model() == (FilterModel {
                delay: ParamState { factor: factor as int, ..old(self).model().delay },
                gain: ParamState { factor: factor as int, ..old(self).model().gain },
                ..old(self).model()
            }),
    {
        self.delay_length.set_factor(factor);
        self.g.set_factor(factor);
    }

    /// Sets the delay length (Q16.16 samples) to glide toward.
    pub fn set_delay(&mut self, delay: i32)
        requires
            old(self).wf(),
        ensures
            final(self).wf(),
            final(self).model() == (FilterModel {
                delay: ParamState { target: delay as int, ..old(self).model().delay },
                ..old(self).model()
            }),
    {
        self.delay_length.set_target(delay);
    }

    /// Sets the feedback gain (Q16.16) to glide toward.
    pub fn set_gain(&mut self, gain: i32)
        requires
            old(self).wf(),
        ensures
            final(self).wf(),
            final(self).model() == (FilterModel {
                gain: ParamState { target: gain as int, ..old(self).model().gain },
                ..old(self).model()
            }),
    {
        self.g.set_target(gain);
    }

    /// Processes one sample.
    pub fn process(&mut self, input: i32) -> (r: i32)
        requires
            old(self).wf(),
        ensures
            final(self).wf(),
            final(self).model() == allpass_step(old(self).model(), input as int).0,
            r as int == allpass_step(old(self).model(), input as int).1,
    {
        let current_delay = self.delay_length.next();
        let current_g = self.g.next();
        let delayed_value = self.delay_line.read_interpolated(current_delay);
        let v_n = saturate(input as i128 + scaled(current_g, delayed_value));
        let output = saturate(delayed_value as i128 - scaled(current_g, v_n));
        self.delay_line.push(v_n);
        proof {
            let len = old(self).delay_line.capacity();
            let c = old(self).delay_line.spec_cursor();
            if c + 1 < len {
                vstd::arithmetic::div_mod::lemma_small_mod((c + 1) as nat, len as nat);
            } else {
                vstd::arithmetic::div_mod::lemma_mod_self_0(len);
            }
        }
        output
    }

    /// Processes `input` into `output` pairwise, over the shorter of the two
    /// lengths; the rest of `output` is left as it was.
    pub fn process_block(&mut self, input: &[i32], output: &mut [i32])
        requires
            old(self).wf(),
        ensures
            final(self).wf(),
            ({
                let n = if input@.len() < old(output)@.len() {
                    input@.len() as int
                } else {
                    old(output)@.len() as int
                };
                let run = allpass_run(old(self).model(), input@.take(n));
                &&& final(self).model() == run.0
                &&& final(output)@ == run.1 + old(output)@.skip(n)
            }),
    {
        let n = if input.len() < output.len() {
            input.len()
        } else {
            output.len()
        };
        let mut i: usize = 0;
        while i < n
            invariant
                self.wf(),
                n <= input@.len(),
                n == output@.len() || n == input@.len(),
                n <= output@.len(),
                output@.len() == old(output)@.len(),
                i <= n,
                self.model() == allpass_run(old(self).model(), input@.take(i as int)).0,
                output@ == allpass_run(old(self).model(), input@.take(i as int)).1 + old(output)@.skip(i as int),
            decreases n - i,
        {
            let y = self.process(input[i]);
            proof {
                assert(input@.take(i + 1).drop_last() =~= input@.take(i as int));
            }
            output[i] = y;
            i = i + 1;
            proof {
                assert(output@ =~= allpass_run(old(self).model(), input@.take(i as int)).1 + old(output)@.skip(i as int));
            }
        }
    }

    /// Processes `buffer` in place, sample after sample.
    #[verifier::rlimit(40)]
    pub fn process_block_inplace(&mut self, buffer: &mut [i32])
        requires
            old(self).wf(),
        ensures
            final(self).wf(),
            final(self).model() == allpass_run(old(self).model(), old(buffer)@).0,
            final(buffer)@ == allpass_run(old(self).model(), old(buffer)@).1,
    {
        let n = buffer.len();
        let mut i: usize = 0;
        while i < n
            invariant
                self.wf(),
                buffer@.len() == n,
                n == old(buffer)@.len(),
                i <= n,
                buffer@.skip(i as int) == old(buffer)@.skip(i as int),
                self.model() == allpass_run(old(self).model(), old(buffer)@.take(i as int)).0,
                buffer@ == allpass_run(old(self).model(), old(buffer)@.take(i as int)).1 + old(buffer)@.skip(i as int),
            decreases n - i,
        {
            proof {
                assert(buffer@[i as int] == old(buffer)@.skip(i as int)[0]);
            }
            let y = self.process(buffer[i]);
            proof {
                assert(old(buffer)@.take(i + 1).drop_last() =~= old(buffer)@.take(i as int));
            }
            buffer[i] = y;
            i = i + 1;
            proof {
                assert(buffer@ =~= allpass_run(old(self).model(), old(buffer)@.take(i as int)).1 + old(buffer)@.skip(i as int));
                assert(buffer@.skip(i as int) =~= old(buffer)@.skip(i as int));
            }
        }
        proof {
            assert(old(buffer)@.take(n as int) =~= old(buffer)@);
            assert(buffer@ =~= allpass_run(old(self).model(), old(buffer)@).1);
        }
    }
}

impl AllPassFilter<Linear> {
    /// A filter with linear interpolation.
    pub fn new_default(max_delay_samples: usize, initial_delay: i32, gain: i32) -> (r: Self)
        requires
            0 < max_delay_samples <= MAX_CAPACITY,
        ensures
            r.wf(),
            r.model() == (FilterModel {
                buffer: Seq::new(max_delay_samples as nat, |i: int| 0i32),
                cursor: 0,
                interp: Linear,
                delay: ParamState {
                    current: initial_delay as int,
                    target: initial_delay as int,
                    factor: DEFAULT_SMOOTHING as int,
                },
                gain: ParamState {
                    current: gain as int,
                    target: gain as int,
                    factor: DEFAULT_SMOOTHING as int,
                },
            }),
    {
        Self::new(max_delay_samples, initial_delay, gain, Linear)
    }
}

/// The fixed-point product of two samples.
fn scaled(a: i32, b: i32) -> (r: i128)
    ensures
        r as int == fixed_mul(a as int, b as int),
        -0x4000_0000_0000 <= r <= 0x4000_0000_0000,
{
    proof {
        lemma_mul_bounded(a as int, b as int, 0x8000_0000, 0x8000_0000);
        vstd::arithmetic::div_mod::lemma_fundamental_div_mod(a as int * b as int, ONE as int);
        vstd::arithmetic::div_mod::lemma_mod_bound(a as int * b as int, ONE as int);
    }
    floor_div(a as i128 * b as i128, ONE as i128)
}

} // verus!
