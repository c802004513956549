//! End-to-end tests of the per-sample pipeline.

use tap_reverb::effect::MyEffect;

/// With unity pre- and post-gain, a single unit impulse passes straight
/// through at step zero (the scale-up by 100 and scale-down by 100
/// cancel before the network holds any energy), the shortest line's echo
/// carries weight zero, and the first audible echo arrives one step before
/// the second-shortest line's length.
#[test]
fn impulse_first_echo_at_second_shortest_line() {
    let mut fx = MyEffect::default();
    let mut s: i64 = 1_000_000;
    fx.process_sample(&mut s);
    assert_eq!(s, 1_000_000, "step 0 returns the dry impulse");

    // Shortest line: 15435 samples, echo due at step 15434 — but its tap
    // weight is zero. Second-shortest: 26460 samples, echo at step 26459.
    let mut first_nonzero: Option<(usize, i64)> = None;
    for t in 1..=26_459 {
        let mut z: i64 = 0;
        fx.process_sample(&mut z);
        if z != 0 && first_nonzero.is_none() {
            first_nonzero = Some((t, z));
        }
    }
    let (t, v) = first_nonzero.expect("the echo must arrive");
    assert_eq!(t, 26_459);
    // The stored mix is 100_000_000; weighted 3/15, averaged over 9 lines,
    // scaled down by 100: floor(300_000_000 / 135) / 100 = 22222.
    assert_eq!(v, 22_222);
}

/// The gains scale linearly around the reverb: at step zero the output is
/// input * pre * post (the network adds nothing yet).
#[test]
fn gains_scale_the_dry_impulse() {
    let mut fx = MyEffect::default();
    fx.params.set_parameter(0, 500_000); // pre 0.5
    fx.params.set_parameter(1, 250_000); // post 0.25
    let mut s: i64 = 800_000;
    fx.process_sample(&mut s);
    // 800000 * 0.5 = 400000 in; out = 400000 * 0.25 = 100000.
    assert_eq!(s, 100_000);
}

/// A zero pre-gain silences the network: nothing is stored, nothing comes
/// back.
#[test]
fn zero_pre_gain_keeps_the_network_silent() {
    let mut fx = MyEffect::default();
    fx.params.set_parameter(0, 0);
    let mut s: i64 = 1_000_000;
    fx.process_sample(&mut s);
    assert_eq!(s, 0);
    for _ in 0..30_000 {
        let mut z: i64 = 0;
        fx.process_sample(&mut z);
        assert_eq!(z, 0);
    }
}
