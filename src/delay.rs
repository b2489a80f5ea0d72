//! A fixed-capacity ring buffer of samples, read at a fractional delay.
use vstd::prelude::*;
use crate::fixed::ONE;
use crate::interpolation::{sample_at, Interpolator, MAX_CAPACITY, MAX_POSITION};

verus! {

/// The buffer's contents from the oldest sample to the newest, for a write
/// cursor `c` (the slot that the next push overwrites).
pub open spec fn ring_window(b: Seq<i32>, c: int) -> Seq<i32> {
    Seq::new(
        b.len(),
        |k: int|
            if c + k < b.len() {
                b[c + k]
            } else {
                b[c + k - b.len()]
            },
    )
}

/// Read position for `delay` (Q16.16) behind cursor `c` in a buffer of `len`
/// slots: a negative position is brought up by whole buffer lengths.
pub open spec fn read_position(c: int, delay: int, len: int) -> int {
    let p = c * ONE - delay;
    if p >= 0 {
        p
    } else {
        p % (len * ONE)
    }
}

/// The window after pushing `xs` in order onto window `w`.
pub open spec fn after_pushes(w: Seq<i32>, xs: Seq<i32>) -> Seq<i32>
    decreases xs.len(),
{
    if xs.len() == 0 {
        w
    } else {
        after_pushes(w, xs.drop_last()).drop_first().push(xs.last())
    }
}

/// Writing at the cursor and advancing it drops the oldest sample of the
/// window and appends the new one.
pub proof fn lemma_window_push(b: Seq<i32>, c: int, x: i32)
    requires
        0 <= c < b.len(),
    ensures
        ring_window(b.update(c, x), (c + 1) % (b.len() as int)) == ring_window(b, c).drop_first().push(x),
{
    let len = b.len() as int;
    if c + 1 == len {
        vstd::arithmetic::div_mod::lemma_mod_self_0(len);
    } else {
        vstd::arithmetic::div_mod::lemma_small_mod((c + 1) as nat, len as nat);
    }
    assert(ring_window(b.update(c, x), (c + 1) % len) =~= ring_window(b, c).drop_first().push(x));
}

/// After pushes the window holds the last samples of the old window followed
/// by everything pushed, as many as fit.
pub proof fn lemma_after_pushes(w: Seq<i32>, xs: Seq<i32>)
    requires
        w.len() > 0,
    ensures
        after_pushes(w, xs) == (w + xs).subrange(xs.len() as int, (w.len() + xs.len()) as int),
    decreases xs.len(),
{
    if xs.len() > 0 {
        lemma_after_pushes(w, xs.drop_last());
        assert((w + xs).subrange(xs.len() as int, (w.len() + xs.len()) as int) =~= (w + xs.drop_last()).subrange(
            xs.len() - 1,
            w.len() + xs.len() - 1,
        ).drop_first().push(xs.last()));
    }
}

/// A read at a whole delay of `d` slots, `1 <= d <= len`, returns the sample
/// pushed `d` pushes ago, whatever the kernel.
pub proof fn lemma_read_whole_delay<I: Interpolator>(interp: I, b: Seq<i32>, c: int, d: int)
    requires
        0 < b.len() <= MAX_CAPACITY,
        0 <= c < b.len(),
        1 <= d <= b.len(),
    ensures
        interp.spec_interpolate(b, read_position(c, d * ONE, b.len() as int)) == ring_window(b, c)[b.len()
            - d] as int,
{
    let len = b.len() as int;
    let one = ONE as int;
    assert(c * one - d * one == (c - d) * one) by (nonlinear_arith);
    if c >= d {
        assert((c - d) * one <= MAX_POSITION) by (nonlinear_arith)
            requires
                0 <= c - d <= MAX_CAPACITY,
                one == ONE,
        ;
        interp.lemma_exact_at_slots(b, c - d);
        vstd::arithmetic::div_mod::lemma_small_mod((c - d) as nat, len as nat);
    } else {
        assert((c - d) * one == -1 * (len * one) + (c - d + len) * one) by (nonlinear_arith);
        assert(0 <= (c - d + len) * one < len * one) by (nonlinear_arith)
            requires
                0 <= c - d + len < len,
                one == ONE,
        ;
        assert((c - d + len) * one <= MAX_POSITION) by (nonlinear_arith)
            requires
                0 <= c - d + len <= MAX_CAPACITY,
                one == ONE,
        ;
        vstd::arithmetic::div_mod::lemma_fundamental_div_mod_converse(
            (c - d) * one,
            len * one,
            -1,
            (c - d + len) * one,
        );
        interp.lemma_exact_at_slots(b, c - d + len);
        vstd::arithmetic::div_mod::lemma_small_mod((c - d + len) as nat, len as nat);
    }
}

/// Wraparound: once at least `d` samples have been pushed (`1 <= d` and `d`
/// at most the capacity), a read at a whole delay of `d` slots returns the
/// sample pushed `d` pushes ago, however often the cursor wrapped.
pub proof fn lemma_wraparound<I: Interpolator>(line: DelayLine<I>, w: Seq<i32>, xs: Seq<i32>, d: int)
    requires
        line.wf(),
        w.len() == line.capacity(),
        line.window() == after_pushes(w, xs),
        1 <= d <= line.capacity(),
        d <= xs.len(),
    ensures
        line.spec_read(d * ONE) == xs[xs.len() - d] as int,
{
    lemma_after_pushes(w, xs);
    lemma_read_whole_delay(line.spec_interpolator(), line.spec_buffer(), line.spec_cursor(), d);
}

/// A ring buffer of samples with a write cursor and a read kernel.
pub struct DelayLine<I> {
    buffer: Vec<i32>,
    writer_ptr: usize,
    interpolator: I,
}

impl<I: Interpolator> DelayLine<I> {
    /// The slots of the ring buffer, by index.
    pub closed spec fn spec_buffer(&self) -> Seq<i32> {
        self.buffer@
    }

    /// The slot that the next push overwrites.
    pub closed spec fn spec_cursor(&self) -> int {
        self.writer_ptr as int
    }

    /// The read kernel.
    pub closed spec fn spec_interpolator(&self) -> I {
        self.interpolator
    }

    /// Number of slots.
    pub open spec fn capacity(&self) -> int {
        self.spec_buffer().len() as int
    }

    /// The capacity is positive and bounded and the cursor lies inside it.
    pub open spec fn wf(&self) -> bool {
        0 < self.capacity() <= MAX_CAPACITY && 0 <= self.spec_cursor() < self.capacity()
    }

    /// The stored samples from the oldest to the newest.
    pub open spec fn window(&self) -> Seq<i32> {
        ring_window(self.spec_buffer(), self.spec_cursor())
    }

    /// What a read at `delay` (Q16.16) returns.
    pub open spec fn spec_read(&self, delay: int) -> int {
        self.spec_interpolator().spec_interpolate(
            self.spec_buffer(),
            read_position(self.spec_cursor(), delay, self.capacity()),
        )
    }

    /// A silent line of `max_delay` slots.
    pub fn new(max_delay: usize, interpolator: I) -> (r: Self)
        requires
            0 < max_delay <= MAX_CAPACITY,
        ensures
            r.wf(),
            r.spec_buffer() == Seq::new(max_delay as nat, |i: int| 0i32),
            r.spec_cursor() == 0,
            r.spec_interpolator() == interpolator,
    {
        let mut buffer: Vec<i32> = Vec::with_capacity(max_delay);
        let mut i: usize = 0;
        while i < max_delay
            invariant
                i <= max_delay,
                buffer@ == Seq::new(i as nat, |j: int| 0i32),
            decreases max_delay - i,
        {
            buffer.push(0);
            i = i + 1;
        }
        DelayLine { buffer, writer_ptr: 0, interpolator }
    }

    /// Overwrites the oldest sample with `input` and advances the cursor.
    pub fn push(&mut self, input: i32)
        requires
            old(self).wf(),
        ensures
            final(self).wf(),
            final(self).spec_buffer() == old(self).spec_buffer().update(
                old(self).spec_cursor(),
                input,
            ),
            final(self).spec_cursor() == (old(self).spec_cursor() + 1) % old(self).capacity(),
            final(self).spec_interpolator() == old(self).spec_interpolator(),
            final(self).window() == old(self).window().drop_first().push(input),
    {
        let len = self.buffer.len();
        let at = self.writer_ptr;
        self.buffer.set(at, input);
        let next = at + 1;
        self.writer_ptr = if next == len {
            0
        } else {
            next
        };
        proof {
            lemma_window_push(old(self).spec_buffer(), at as int, input);
            if next == len {
                vstd::arithmetic::div_mod::lemma_mod_self_0(len as int);
            } else {
                vstd::arithmetic::div_mod::lemma_small_mod(next as nat, len as nat);
            }
        }
    }

    /// Reads the line `delay` samples (Q16.16) behind the write cursor
    /// through the kernel.
    pub fn read_interpolated(&self, delay: i32) -> (r: i32)
        requires
            self.wf(),
        ensures
            r as int == self.spec_read(delay as int),
    {
        let span: i64 = self.buffer.len() as i64 * ONE;
        let start: i64 = self.writer_ptr as i64 * ONE - delay as i64;
        let mut pos: i64 = start;
        let ghost mut k: int = 0;
        while pos < 0
            invariant
                span == self.capacity() * ONE,
                span > 0,
                pos == start + k * span,
                k >= 0,
                start < 0 ==> pos < span,
                start >= 0 ==> k == 0,
            decreases span - pos,
        {
            pos = pos + span;
            proof {
                assert((k + 1) * span == k * span + span) by (nonlinear_arith);
                k = k + 1;
            }
        }
        proof {
            if start < 0 {
                assert((-k) * span == -(k * span)) by (nonlinear_arith);
                vstd::arithmetic::div_mod::lemma_fundamental_div_mod_converse(
                    start as int,
                    span as int,
                    -k,
                    pos as int,
                );
            }
        }
        self.interpolator.interpolate(self.buffer.as_slice(), pos)
    }
}

} // verus!
