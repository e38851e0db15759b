use synth::envelope::{
    advance_phase, apply_gain, cycle_length, render_segment, samples_for, segment_gain, Segment,
    UNITY_GAIN,
};

#[test]
fn durations_to_samples() {
    assert_eq!(samples_for(5_000_000), 240);
    assert_eq!(samples_for(500_000_000), 24000);
    assert_eq!(samples_for(1_000_000_000), 48000);
    assert_eq!(samples_for(0), 0);
    // 10_416 ns is 0.4999 samples, 10_417 ns is 0.50002.
    assert_eq!(samples_for(10_416), 0);
    assert_eq!(samples_for(10_417), 1);
}

#[test]
fn cycle_lengths() {
    // 48000 / 440 = 109.09
    assert_eq!(cycle_length(440_000), Some(109));
    // 48000 / 261.626 = 183.47
    assert_eq!(cycle_length(261_626), Some(183));
    // 48000 / 1000 = 48 exactly
    assert_eq!(cycle_length(1_000_000), Some(48));
    // at the sample rate and above, one sample or none
    assert_eq!(cycle_length(48_000_000), Some(1));
    assert_eq!(cycle_length(200_000_000), Some(0));
    assert_eq!(cycle_length(0), None);
}

#[test]
fn gains_are_exact() {
    assert_eq!(apply_gain(1000, UNITY_GAIN), 1000);
    assert_eq!(apply_gain(1000, UNITY_GAIN / 2), 500);
    assert_eq!(apply_gain(-1001, UNITY_GAIN / 2), -500);
    assert_eq!(apply_gain(12345, 0), 0);
    assert_eq!(segment_gain(Segment::Attack, 1, 4, 0), 16384);
    assert_eq!(segment_gain(Segment::Decay, 2, 4, 32768), 49152);
    assert_eq!(segment_gain(Segment::Sustain, 3, 4, 32768), 32768);
    assert_eq!(segment_gain(Segment::Release, 1, 4, 32768), 24576);
}

#[test]
fn attack_segment_ramps_up() {
    let cycle = vec![1000, 2000, 3000];
    let out = render_segment(&cycle, 1, Segment::Attack, 4, 0);
    // gains 0, 1/4, 2/4, 3/4 over positions 1, 2, 0, 1
    assert_eq!(out, vec![0, 750, 500, 1500]);
}

#[test]
fn release_segment_ramps_down() {
    let cycle = vec![-4000, 4000];
    let out = render_segment(&cycle, 0, Segment::Release, 4, 32768);
    // gains 1/2, 3/8, 1/4, 1/8
    assert_eq!(out, vec![-2000, 1500, -1000, 500]);
}

#[test]
fn phase_carries_across_segments() {
    let cycle: Vec<i32> = (0..7).map(|i| i * 10).collect();
    let mut positions = Vec::new();
    let mut phase = 0;
    for count in [5usize, 9, 4] {
        let out = render_segment(&cycle, phase, Segment::Sustain, count, UNITY_GAIN);
        positions.extend(out.iter().map(|s| (*s / 10) as usize));
        phase = advance_phase(phase, count, cycle.len());
    }
    assert_eq!(positions.len(), 18);
    for k in 0..positions.len() - 1 {
        assert_eq!(positions[k + 1], (positions[k] + 1) % 7);
    }
    assert_eq!(phase, 18 % 7);
}
