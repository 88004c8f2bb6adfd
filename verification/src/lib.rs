//! A sample-triggering and step-sequencing audio engine in fixed-point
//! arithmetic.
//!
//! Every quantity is an integer. Amplitudes, gains, normalized positions and
//! fractions of a frame are counted in millionths ([`units::UNIT`] is one
//! whole); envelope times are microseconds; envelope progress is counted in
//! rendered frames. Each function states its result over mathematical
//! integers, so rounding is part of the contract.

pub mod adsr;
pub mod audio;
pub mod engine;
pub mod mixer;
pub mod playback;
pub mod samples;
pub mod sequencer;
pub mod units;
pub mod voice;
