//! Tests for the parameter table: round-trips, names, and the percentage
//! text rendering.

use tap_reverb::params::EffectParams;

/// Gains are in millionths of unity, as everywhere in the library.
const MICRO: i64 = 1_000_000;

/// Setting a parameter and reading it back returns the same value; indexes
/// outside the table read as zero and render as the empty string.
#[test]
fn set_then_get_round_trips() {
    let mut p = EffectParams::default();
    p.set_parameter(0, 750_000); // 0.75
    assert_eq!(p.get_parameter(0), 750_000);
    p.set_parameter(1, 250_000); // 0.25
    assert_eq!(p.get_parameter(1), 250_000);
    // The other parameter is untouched.
    assert_eq!(p.get_parameter(0), 750_000);
    // Out-of-range indices degrade to the neutral default.
    assert_eq!(p.get_parameter(5), 0);
    assert_eq!(p.get_parameter(-1), 0);
    assert_eq!(p.get_parameter_text(5), "");
    p.set_parameter(5, MICRO); // no-op
    assert_eq!(p.get_parameter(0), 750_000);
    assert_eq!(p.get_parameter(1), 250_000);
}

/// Defaults: unity gains, 44.1 kHz.
#[test]
fn defaults_are_unity_and_44100() {
    let p = EffectParams::default();
    assert_eq!(p.get_parameter(0), MICRO);
    assert_eq!(p.get_parameter(1), MICRO);
    assert_eq!(p.sample_rate, 44100);
}

/// Names of the two parameters, and the empty name elsewhere.
#[test]
fn names_of_the_table() {
    let p = EffectParams::default();
    assert_eq!(p.get_parameter_name(0), "Pre Gain");
    assert_eq!(p.get_parameter_name(1), "Post Gain");
    assert_eq!(p.get_parameter_name(2), "");
    assert_eq!(p.get_parameter_name(-3), "");
}

/// The text rendering maps [0, 1] onto [-100, 100] percent: full scale to
/// "100", the midpoint to "0", zero to "-100".
#[test]
fn text_renders_signed_percentage() {
    let mut p = EffectParams::default();
    p.set_parameter(0, MICRO);
    assert_eq!(p.get_parameter_text(0), "100");
    p.set_parameter(0, 0);
    assert_eq!(p.get_parameter_text(0), "-100");
    p.set_parameter(0, 500_000);
    assert_eq!(p.get_parameter_text(0), "0");
    p.set_parameter(0, 750_000);
    assert_eq!(p.get_parameter_text(0), "50");
    p.set_parameter(1, 250_000);
    assert_eq!(p.get_parameter_text(1), "-50");
}

/// Rounding of the percentage is half-to-even, and a value just below the
/// midpoint keeps its sign even when it rounds to zero.
#[test]
fn text_rounds_half_to_even() {
    let mut p = EffectParams::default();
    // 502500 is exactly half a percent above the midpoint: ties go to even.
    p.set_parameter(0, 502_500);
    assert_eq!(p.get_parameter_text(0), "0");
    // One and a half percent: the tie rounds up to 2.
    p.set_parameter(0, 507_500);
    assert_eq!(p.get_parameter_text(0), "2");
    // Just below the midpoint: rounds to zero but keeps the sign.
    p.set_parameter(0, 499_000);
    assert_eq!(p.get_parameter_text(0), "-0");
    // A plain fractional value rounds to nearest.
    p.set_parameter(0, 513_000); // +2.6 percent
    assert_eq!(p.get_parameter_text(0), "3");
}
