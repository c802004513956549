//! Tests for the reverb engine: the construction schedule, the tap
//! envelope, and the decay of the feedback network.

use tap_reverb::reverb::{tap_weight_numer, MyReverb};

/// At 44.1 kHz the schedule keeps all nine delay times, 0.35 s through
/// 2.35 s in steps of 0.25 s, and every length is exact.
#[test]
fn lengths_at_44100_follow_the_schedule() {
    let r = MyReverb::new(44100).expect("44100 Hz is a valid rate");
    let expected: [usize; 9] = [
        15435,  // 0.35 s
        26460,  // 0.60 s
        37485,  // 0.85 s
        48510,  // 1.10 s
        59535,  // 1.35 s
        70560,  // 1.60 s
        81585,  // 1.85 s
        92610,  // 2.10 s
        103635, // 2.35 s
    ];
    assert_eq!(r.buffers.len(), expected.len());
    for (x, want) in expected.iter().enumerate() {
        assert_eq!(r.buffers[x].buffer.len(), *want, "line {}", x);
    }
    // Lengths strictly increase, so every line is distinct.
    for x in 1..r.buffers.len() {
        assert!(r.buffers[x - 1].buffer.len() < r.buffers[x].buffer.len());
    }
    // Every line starts silent.
    for line in &r.buffers {
        assert!(line.buffer.iter().all(|s| *s == 0));
    }
    assert_eq!(r.params.decay, 100_000);
}

/// The lowest workable rate keeps only the six longest delay times; rates
/// below it (and absurd ones) are rejected.
#[test]
fn degenerate_rates_are_rejected() {
    let r = MyReverb::new(2).expect("2 Hz still yields six lines");
    let lens: Vec<usize> = r.buffers.iter().map(|b| b.buffer.len()).collect();
    assert_eq!(lens, vec![2, 2, 3, 3, 4, 4]);
    assert!(MyReverb::new(1).is_none());
    assert!(MyReverb::new(0).is_none());
    assert!(MyReverb::new(-44100).is_none());
    assert!(MyReverb::new(1_000_001).is_none());
    assert!(MyReverb::new(1_000_000).is_some());
}

/// The triangular envelope over nine lines: zero at the first line, peak
/// 0.6 (numerator 9 over denominator 15) at the midpoint, linear on both
/// sides, negative near the far end.
#[test]
fn weights_form_a_triangle_over_nine_lines() {
    let m = 9 / 3;
    let numerators: Vec<i64> = (0..9).map(|x| tap_weight_numer(x, m)).collect();
    assert_eq!(numerators, vec![0, 3, 6, 9, 6, 3, 0, -3, -6]);
    // The maximum sits exactly at the midpoint, one third of the way in.
    let max = *numerators.iter().max().unwrap();
    assert_eq!(max, 9);
    assert_eq!(numerators[m], max);
    assert_eq!(numerators[0], 0);
}

/// Pure silence in gives pure silence out: with nothing stored, every
/// output is exactly zero.
#[test]
fn silence_in_silence_out() {
    let mut r = MyReverb::new(44100).unwrap();
    for _ in 0..10_000 {
        let mut s: i64 = 0;
        r.process(&mut s);
        assert_eq!(s, 0);
    }
}

/// After an impulse, feeding silence makes the circulating energy decay
/// toward zero: late outputs are far below the early echo peak.
#[test]
fn stored_energy_decays_under_silence() {
    let mut r = MyReverb::new(44100).unwrap();
    let mut s: i64 = 1_000_000;
    r.process(&mut s);
    let mut early_peak: i64 = 0;
    let mut late_peak: i64 = 0;
    let total = 500_000;
    for t in 1..total {
        let mut z: i64 = 0;
        r.process(&mut z);
        if t < 30_000 {
            early_peak = early_peak.max(z.abs());
        }
        if t >= total - 1_000 {
            late_peak = late_peak.max(z.abs());
        }
    }
    // The first echo (second-shortest line, weight 3/15) stands well above
    // what is left after several laps of the longest line.
    assert_eq!(early_peak, 22_222);
    assert!(late_peak < 10_000, "late peak {} has not decayed", late_peak);
    assert!(late_peak < early_peak / 2);
}
