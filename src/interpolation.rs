//! Interpolation kernels that read a ring buffer at a fractional position.
//!
//! A read position is a non-negative Q16.16 value: its integer part selects a
//! slot, its fraction (in units of `1 / ONE`) the point between two slots.
//! Every index is reduced modulo the buffer length.
use vstd::prelude::*;
use crate::fixed::{clamp, floor_div, lemma_mul_bounded, saturate, HALF, ONE};

verus! {

/// Largest ring-buffer capacity, in samples.
pub const MAX_CAPACITY: usize = 16777216;

/// Largest read position accepted by an interpolator (raw Q16.16).
pub const MAX_POSITION: i64 = 2199023255552;

/// The sample in slot `i` of the circular buffer `b`.
pub open spec fn sample_at(b: Seq<i32>, i: int) -> int {
    b[i % (b.len() as int)] as int
}

/// Slot index of a read position.
pub open spec fn slot_of(pos: int) -> int {
    pos / (ONE as int)
}

/// Fraction of a read position, in `[0, ONE)`.
pub open spec fn frac_of(pos: int) -> int {
    pos % (ONE as int)
}

/// Nearest-sample kernel: the slot of the position rounded half up.
pub open spec fn nearest_value(b: Seq<i32>, pos: int) -> int {
    sample_at(b, (pos + HALF) / (ONE as int))
}

/// The straight line from slot `i` to slot `i + 1` at fraction `f`, scaled by `ONE`.
pub open spec fn linear_segment(b: Seq<i32>, i: int, f: int) -> int {
    sample_at(b, i) * (ONE - f) + sample_at(b, i + 1) * f
}

/// Linear kernel: the line between the two slots around the position.
pub open spec fn linear_value(b: Seq<i32>, pos: int) -> int {
    clamp(linear_segment(b, slot_of(pos), frac_of(pos)) / (ONE as int))
}

/// Scale of `catmull_rom`: twice `ONE` cubed.
pub open spec fn cubic_scale() -> int {
    2 * (ONE as int) * (ONE as int) * (ONE as int)
}

/// The Catmull-Rom cubic through `p1` and `p2` at fraction `f`, evaluated by
/// Horner's scheme on twice its coefficients and scaled by `cubic_scale()`.
pub open spec fn catmull_rom(p0: int, p1: int, p2: int, p3: int, f: int) -> int {
    let c1 = p2 - p0;
    let c2 = 2 * p0 - 5 * p1 + 4 * p2 - p3;
    let c3 = -p0 + 3 * p1 - 3 * p2 + p3;
    ((c3 * f + c2 * ONE) * f + c1 * ONE * ONE) * f + 2 * p1 * ONE * ONE * ONE
}

/// The cubic segment from slot `i` to slot `i + 1` at fraction `f`.
pub open spec fn cubic_segment(b: Seq<i32>, i: int, f: int) -> int {
    catmull_rom(
        sample_at(b, i + b.len() - 1),
        sample_at(b, i),
        sample_at(b, i + 1),
        sample_at(b, i + 2),
        f,
    )
}

/// Cubic kernel: the Catmull-Rom segment around the position.
pub open spec fn cubic_value(b: Seq<i32>, pos: int) -> int {
    clamp(cubic_segment(b, slot_of(pos), frac_of(pos)) / cubic_scale())
}

/// The linear kernel is continuous: the segment from slot `i` ends, as its
/// fraction reaches one, exactly where the segment from slot `i + 1` starts.
pub proof fn lemma_linear_continuous(b: Seq<i32>, i: int)
    requires
        b.len() > 0,
    ensures
        linear_segment(b, i, ONE as int) == linear_segment(b, i + 1, 0),
{
}

/// The cubic kernel is continuous: the Catmull-Rom segment from slot `i`
/// ends, as its fraction reaches one, exactly where the segment from slot
/// `i + 1` starts.
pub proof fn lemma_cubic_continuous(b: Seq<i32>, i: int)
    requires
        b.len() > 0,
    ensures
        cubic_segment(b, i, ONE as int) == cubic_segment(b, i + 1, 0),
{
    let p0 = sample_at(b, i + b.len() - 1);
    let p1 = sample_at(b, i);
    let p2 = sample_at(b, i + 1);
    let p3 = sample_at(b, i + 2);
    let q0 = sample_at(b, i + 1 + b.len() - 1);
    let q3 = sample_at(b, i + 1 + 2);
    assert(catmull_rom(p0, p1, p2, p3, ONE as int) == cubic_scale() * p2) by (nonlinear_arith);
    vstd::arithmetic::div_mod::lemma_mod_add_multiples_vanish(i, b.len() as int);
    assert(q0 == p1);
    assert(catmull_rom(q0, p2, p3, q3, 0) == cubic_scale() * p2) by (nonlinear_arith);
}

/// A strategy that reads a circular buffer at a fractional position.
pub trait Interpolator {
    /// The value read from `buffer` at position `pos`.
    spec fn spec_interpolate(&self, buffer: Seq<i32>, pos: int) -> int;

    /// At a whole-slot position the stored sample itself is read.
    proof fn lemma_exact_at_slots(&self, buffer: Seq<i32>, i: int)
        requires
            0 < buffer.len() <= MAX_CAPACITY,
            0 <= i,
            i * ONE <= MAX_POSITION,
        ensures
            self.spec_interpolate(buffer, i * ONE) == sample_at(buffer, i),
    ;

    fn interpolate(&self, buffer: &[i32], read_pos: i64) -> (r: i32)
        requires
            0 < buffer@.len() <= MAX_CAPACITY,
            0 <= read_pos <= MAX_POSITION,
        ensures
            r as int == self.spec_interpolate(buffer@, read_pos as int),
    ;
}

/// Linear interpolation between the two neighbouring slots.
#[derive(Clone, Copy, Debug, PartialEq, Eq, Structural)]
pub struct Linear;

/// The sample in the slot nearest to the position.
#[derive(Clone, Copy, Debug, PartialEq, Eq, Structural)]
pub struct Nearest;

/// Catmull-Rom cubic interpolation over four neighbouring slots.
#[derive(Clone, Copy, Debug, PartialEq, Eq, Structural)]
pub struct Cubic;

/// Slot `i` read at fraction zero gives `i * ONE` back as its position.
proof fn lemma_slot_position(i: int, extra: int)
    requires
        0 <= i,
        0 <= extra < ONE,
    ensures
        (i * ONE + extra) / (ONE as int) == i,
        (i * ONE + extra) % (ONE as int) == extra,
{
    vstd::arithmetic::div_mod::lemma_fundamental_div_mod_converse(
        i * ONE + extra,
        ONE as int,
        i,
        extra,
    );
}

impl Interpolator for Nearest {
    open spec fn spec_interpolate(&self, buffer: Seq<i32>, pos: int) -> int {
        nearest_value(buffer, pos)
    }

    proof fn lemma_exact_at_slots(&self, buffer: Seq<i32>, i: int) {
        lemma_slot_position(i, HALF as int);
    }

    fn interpolate(&self, buffer: &[i32], read_pos: i64) -> (r: i32) {
        let len = buffer.len();
        let slot = ((read_pos + HALF) / ONE) as usize;
        buffer[slot % len]
    }
}

impl Interpolator for Linear {
    open spec fn spec_interpolate(&self, buffer: Seq<i32>, pos: int) -> int {
        linear_value(buffer, pos)
    }

    proof fn lemma_exact_at_slots(&self, buffer: Seq<i32>, i: int) {
        lemma_slot_position(i, 0);
        let v = sample_at(buffer, i);
        assert(linear_segment(buffer, i, 0) == (ONE as int) * v);
        vstd::arithmetic::div_mod::lemma_div_multiples_vanish(v, ONE as int);
    }

    fn interpolate(&self, buffer: &[i32], read_pos: i64) -> (r: i32) {
        let len = buffer.len();
        let slot = (read_pos / ONE) as usize;
        let frac = read_pos % ONE;
        let v0 = buffer[slot % len];
        let v1 = buffer[(slot + 1) % len];
        proof {
            lemma_mul_bounded(v0 as int, ONE - frac, 0x8000_0000, ONE as int);
            lemma_mul_bounded(v1 as int, frac as int, 0x8000_0000, ONE as int);
        }
        let num: i128 = v0 as i128 * (ONE - frac) as i128 + v1 as i128 * frac as i128;
        saturate(floor_div(num, ONE as i128))
    }
}

impl Interpolator for Cubic {
    open spec fn spec_interpolate(&self, buffer: Seq<i32>, pos: int) -> int {
        cubic_value(buffer, pos)
    }

    proof fn lemma_exact_at_slots(&self, buffer: Seq<i32>, i: int) {
        lemma_slot_position(i, 0);
        let len = buffer.len() as int;
        let p0 = sample_at(buffer, i + len - 1);
        let p1 = sample_at(buffer, i);
        let p2 = sample_at(buffer, i + 1);
        let p3 = sample_at(buffer, i + 2);
        assert(catmull_rom(p0, p1, p2, p3, 0) == cubic_scale() * p1) by (nonlinear_arith);
        vstd::arithmetic::div_mod::lemma_div_multiples_vanish(p1, cubic_scale());
    }

    fn interpolate(&self, buffer: &[i32], read_pos: i64) -> (r: i32) {
        let len = buffer.len();
        let slot = (read_pos / ONE) as usize;
        let f = (read_pos % ONE) as i128;
        let p0 = buffer[(slot + len - 1) % len] as i128;
        let p1 = buffer[slot % len] as i128;
        let p2 = buffer[(slot + 1) % len] as i128;
        let p3 = buffer[(slot + 2) % len] as i128;
        let one = ONE as i128;
        let c1 = p2 - p0;
        let c2 = 2 * p0 - 5 * p1 + 4 * p2 - p3;
        let c3 = -p0 + 3 * p1 - 3 * p2 + p3;
        proof {
            lemma_mul_bounded(c3 as int, f as int, 0x4_0000_0000, 0x1_0000);
        }
        let t = c3 * f + c2 * one;
        proof {
            lemma_mul_bounded(t as int, f as int, 0x10_0000_0000_0000, 0x1_0000);
            lemma_mul_bounded(c1 as int, one * one, 0x1_0000_0000, 0x1_0000_0000);
        }
        let t = t * f + c1 * (one * one);
        proof {
            lemma_mul_bounded(t as int, f as int, 0x20_0000_0000_0000_0000, 0x1_0000);
            lemma_mul_bounded(p1 as int, one * one * one, 0x8000_0000, 0x1_0000_0000_0000);
        }
        let num = t * f + 2 * (p1 * (one * one * one));
        proof {
            assert(num as int == catmull_rom(p0 as int, p1 as int, p2 as int, p3 as int, f as int))
                by (nonlinear_arith)
                requires
                    num as int == (((c3 * f + c2 * one) * f + c1 * (one * one)) * f + 2 * (p1 * (
                    one * one * one))),
                    c1 == p2 - p0,
                    c2 == 2 * p0 - 5 * p1 + 4 * p2 - p3,
                    c3 == -p0 + 3 * p1 - 3 * p2 + p3,
                    one == ONE,
            ;
        }
        saturate(floor_div(num, 2 * (one * one * one)))
    }
}

} // verus!
