use allpass_filter::{from_ratio, Cubic, DelayLine, Interpolator, Linear, Nearest, SmoothedParam, HALF, ONE};

const ONE_S: i32 = ONE as i32;
const HALF_S: i32 = HALF as i32;

#[test]
fn ratio_builds_samples() {
    assert_eq!(from_ratio(11, 2), 5 * ONE_S + HALF_S);
    assert_eq!(from_ratio(1, 5), 13107);
    assert_eq!(from_ratio(-1, 2), -HALF_S);
    assert_eq!(from_ratio(-1, 3), -21846);
    assert_eq!(from_ratio(i32::MAX, 1), i32::MAX);
    assert_eq!(from_ratio(i32::MIN, 1), i32::MIN);
}

#[test]
fn factor_one_jumps_to_target() {
    let mut p = SmoothedParam::new(0, ONE_S);
    p.set_target(5 * ONE_S);
    assert_eq!(p.next(), 5 * ONE_S);
    p.set_target(-7);
    assert_eq!(p.next(), -7);
}

#[test]
fn half_factor_steps() {
    let mut p = SmoothedParam::new(0, HALF_S);
    p.set_target(4);
    assert_eq!(p.next(), 2);
    assert_eq!(p.next(), 3);
    assert_eq!(p.next(), 4);
    assert_eq!(p.next(), 4);
    p.set_target(0);
    assert_eq!(p.next(), 2);
}

#[test]
fn smoothing_converges_without_overshoot() {
    let mut p = SmoothedParam::new(0, from_ratio(1, 100));
    let target = 3 * ONE_S;
    p.set_target(target);
    let mut last = p.current();
    let mut steps = 0;
    while p.current() != target {
        let v = p.next();
        assert!(v > last && v <= target);
        last = v;
        steps += 1;
        assert!(steps <= target);
    }
    assert_eq!(p.next(), target);

    p.set_target(-target);
    let mut last = p.current();
    while p.current() != -target {
        let v = p.next();
        assert!(v < last && v >= -target);
        last = v;
    }
}

#[test]
fn set_immediate_and_current() {
    let mut p = SmoothedParam::new(ONE_S, from_ratio(1, 100));
    assert_eq!(p.current(), ONE_S);
    p.set_immediate(-HALF_S);
    assert_eq!(p.current(), -HALF_S);
    assert_eq!(p.next(), -HALF_S);
    p.set_factor(ONE_S);
    p.set_target(3);
    assert_eq!(p.current(), -HALF_S);
    assert_eq!(p.next(), 3);
}

#[test]
fn delay_line_wraps_around() {
    let mut line = DelayLine::new(4, Nearest);
    for k in 1..=7 {
        line.push(k * 100);
    }
    assert_eq!(line.read_interpolated(ONE_S), 700);
    assert_eq!(line.read_interpolated(2 * ONE_S), 600);
    assert_eq!(line.read_interpolated(3 * ONE_S), 500);
    assert_eq!(line.read_interpolated(4 * ONE_S), 400);
    assert_eq!(line.read_interpolated(0), 400);
    assert_eq!(line.read_interpolated(9 * ONE_S), 700);
}

#[test]
fn delay_line_starts_silent() {
    let line = DelayLine::new(8, Linear);
    assert_eq!(line.read_interpolated(3 * ONE_S), 0);
    assert_eq!(line.read_interpolated(HALF_S), 0);
}

#[test]
fn delay_line_fractional_read() {
    let mut line = DelayLine::new(8, Linear);
    line.push(0);
    line.push(ONE_S);
    assert_eq!(line.read_interpolated(ONE_S + HALF_S), HALF_S);
}

#[test]
fn linear_kernel_values() {
    let b = [0, ONE_S, -ONE_S];
    assert_eq!(Linear.interpolate(&b, 0), 0);
    assert_eq!(Linear.interpolate(&b, ONE / 2), HALF_S);
    assert_eq!(Linear.interpolate(&b, ONE + ONE / 4), HALF_S);
    assert_eq!(Linear.interpolate(&b, 2 * ONE + ONE / 2), -HALF_S);
    assert_eq!(Linear.interpolate(&b, 4 * ONE), ONE_S);
}

#[test]
fn nearest_kernel_rounds_half_up() {
    let b = [10, 20, 30];
    assert_eq!(Nearest.interpolate(&b, HALF - 1), 10);
    assert_eq!(Nearest.interpolate(&b, HALF), 20);
    assert_eq!(Nearest.interpolate(&b, 2 * ONE + HALF), 10);
}

#[test]
fn cubic_kernel_values() {
    let b = [0, 0, ONE_S, ONE_S];
    assert_eq!(Cubic.interpolate(&b, ONE + HALF), HALF_S);
    assert_eq!(Cubic.interpolate(&b, ONE), 0);
    assert_eq!(Cubic.interpolate(&b, 2 * ONE), ONE_S);
    let c = [0, ONE_S, 0, 0];
    // p0 = 0, p1 = 1, p2 = 0, p3 = 0 at f = 0.5: 0.5625.
    assert_eq!(Cubic.interpolate(&c, ONE + HALF), 36864);
}

#[test]
fn kernels_are_continuous_across_slots() {
    let b = [0, 3 * ONE_S, -ONE_S, 2 * ONE_S, 5];
    for i in 0..5i64 {
        let edge = (i + 1) * ONE;
        let lin_before = Linear.interpolate(&b, edge - 1) as i64;
        let lin_at = Linear.interpolate(&b, edge) as i64;
        // Neighbouring slots differ by at most 4.0: one raw step of position
        // moves the line by at most 4 raw units, plus one for rounding.
        assert!((lin_before - lin_at).abs() <= 5);
        let cub_before = Cubic.interpolate(&b, edge - 1) as i64;
        let cub_at = Cubic.interpolate(&b, edge) as i64;
        assert!((cub_before - cub_at).abs() <= 64);
    }
}

#[test]
fn cubic_saturates() {
    let b = [i32::MIN, i32::MAX, i32::MAX, i32::MIN];
    assert_eq!(Cubic.interpolate(&b, ONE + HALF), i32::MAX);
}
