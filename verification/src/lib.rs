//! A multi-tap delay-line reverb with two gain parameters, in fixed-point
//! arithmetic.
//!
//! Audio samples and gain values are carried as signed 64-bit integers in
//! units of one millionth (so `1_000_000` stands for a full-scale sample or a
//! unity gain). Working over integers keeps every step of the per-sample
//! transform an exact, fully specified function of the engine state.

pub mod effect;
pub mod laws;
pub mod num;
pub mod params;
pub mod reverb;
