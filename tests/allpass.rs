use allpass_filter::{from_ratio, AllPassFilter, Linear, Nearest, HALF, ONE};

const ONE_S: i32 = ONE as i32;
const HALF_S: i32 = HALF as i32;

#[test]
fn test_delay_behaviour_at_zero_gain() {
    let mut allpass_filter = AllPassFilter::new(100, 10 * ONE_S, 0, Linear);

    let _out0 = allpass_filter.process(0);

    for _ in 0..9 {
        let out = allpass_filter.process(0);
        assert_eq!(out, 0, "Output should be zero before delay is filled");
    }

    let out_delayed = allpass_filter.process(0);
    assert_eq!(out_delayed, 0, "Output should still be zero after delay is filled");
}

#[test]
fn test_block_processing_consistency() {
    let mut allpass_filter_single = AllPassFilter::new_default(100, from_ratio(11, 2), from_ratio(1, 2));
    let mut allpass_filter_block = AllPassFilter::new_default(100, from_ratio(11, 2), from_ratio(1, 2));

    let input = vec![ONE_S, -HALF_S, from_ratio(1, 5), 0, 0, 0];
    let mut output_block = vec![0; input.len()];

    allpass_filter_block.process_block(&input, &mut output_block);

    for (i, &sample) in input.iter().enumerate() {
        let out_single = allpass_filter_single.process(sample);
        let diff = (out_single - output_block[i]) as f64 / ONE as f64;
        assert!(diff.abs() < 1e-6, "Block and single sample outputs should match");
    }
}

#[test]
fn zero_gain_delays_a_constant_input() {
    let mut filter = AllPassFilter::new(100, 10 * ONE_S, 0, Linear);
    for _ in 0..10 {
        assert_eq!(filter.process(ONE_S), 0);
    }
    assert_eq!(filter.process(ONE_S), ONE_S);
}

#[test]
fn allpass_recursion_exact_values() {
    let mut filter = AllPassFilter::new(100, ONE_S, HALF_S, Nearest);
    assert_eq!(filter.process(ONE_S), -32768);
    assert_eq!(filter.process(0), 49152);
    assert_eq!(filter.process(0), 24576);
}

#[test]
fn block_in_two_parts_matches_one_block() {
    let input = vec![ONE_S, -HALF_S, from_ratio(1, 5), 0, 7, -3, 0, 0];
    let mut whole = AllPassFilter::new(16, from_ratio(5, 2), HALF_S, Linear);
    let mut parts = AllPassFilter::new(16, from_ratio(5, 2), HALF_S, Linear);
    let mut out_whole = vec![0; 8];
    let mut out_a = vec![0; 3];
    let mut out_b = vec![0; 5];
    whole.process_block(&input, &mut out_whole);
    parts.process_block(&input[..3], &mut out_a);
    parts.process_block(&input[3..], &mut out_b);
    out_a.extend_from_slice(&out_b);
    assert_eq!(out_whole, out_a);
}

#[test]
fn block_with_longer_output_leaves_the_rest() {
    let mut filter = AllPassFilter::new(16, ONE_S, HALF_S, Nearest);
    let input = vec![ONE_S, 0, 0];
    let mut output = vec![9; 5];
    filter.process_block(&input, &mut output);
    assert_eq!(output, vec![-32768, 49152, 24576, 9, 9]);
}

#[test]
fn block_with_shorter_output_processes_only_its_length() {
    let mut filter = AllPassFilter::new(16, ONE_S, HALF_S, Nearest);
    let input = vec![ONE_S, 0, 0];
    let mut output = vec![0; 2];
    filter.process_block(&input, &mut output);
    assert_eq!(output, vec![-32768, 49152]);
    assert_eq!(filter.process(0), 24576);
}

#[test]
fn in_place_block_matches_single_samples() {
    let input = vec![ONE_S, -HALF_S, from_ratio(1, 5), 0, 0, 0];
    let mut single = AllPassFilter::new_default(100, from_ratio(11, 2), HALF_S);
    let mut block = AllPassFilter::new_default(100, from_ratio(11, 2), HALF_S);
    let mut buffer = input.clone();
    block.process_block_inplace(&mut buffer);
    for (i, &x) in input.iter().enumerate() {
        assert_eq!(single.process(x), buffer[i]);
    }
}

#[test]
fn gain_change_with_immediate_smoothing() {
    let mut filter = AllPassFilter::new(16, ONE_S, HALF_S, Nearest);
    filter.set_smoothing(ONE_S);
    filter.set_gain(0);
    assert_eq!(filter.process(ONE_S), 0);
    assert_eq!(filter.process(0), ONE_S);
}

#[test]
fn gain_change_glides_with_default_smoothing() {
    let mut filter = AllPassFilter::new(16, ONE_S, 0, Nearest);
    filter.set_gain(ONE_S);
    // The gain moves by the default 0.01 of the remaining distance per sample:
    // first to 655, then to 655 + ceil(64881 * 655 / 65536) = 1304.
    assert_eq!(filter.process(ONE_S), -655);
    // delayed = 1.0, v = 1304, out = 65536 - floor(1304 * 1304 / 65536).
    assert_eq!(filter.process(0), 65511);
}

#[test]
fn delay_change_with_immediate_smoothing() {
    let mut filter = AllPassFilter::new(16, ONE_S, 0, Nearest);
    filter.set_smoothing(ONE_S);
    filter.set_delay(3 * ONE_S);
    assert_eq!(filter.process(ONE_S), 0);
    assert_eq!(filter.process(0), 0);
    assert_eq!(filter.process(0), 0);
    assert_eq!(filter.process(0), ONE_S);
}
