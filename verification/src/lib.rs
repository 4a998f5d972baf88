//! An offline audio-rendering engine: a composable graph of sample-rate
//! signal generators and processors (oscillators, envelopes, filters,
//! effects) that fill fixed-size chunks of samples, plus a polyphonic
//! sequencer that turns timed note events into one continuous signal.
//!
//! The engine is generic over the scalar sample type through the
//! [`sample::Sample`] trait, so the verified graph logic is independent of
//! the concrete arithmetic; [`sample::Fixed`] is the crate's own scalar.

use vstd::prelude::*;

pub mod composition;
pub mod effect;
pub mod envelope;
pub mod filter;
pub mod note;
pub mod oscillator;
pub mod sample;
pub mod sequence;
pub mod value;

verus! {

/// The render context threaded through every fill call: the sample rate and
/// the current render time in nanoseconds. The driver alone advances `time`,
/// by exactly one chunk's duration after each fill.
#[derive(Clone, Copy, Debug)]
pub struct Env {
    pub sample_rate: u32,
    /// Current render time in nanoseconds since the start of the session.
    pub time: u64,
}

impl Env {
    /// A context at time zero with the given sample rate.
    pub fn new(sample_rate: u32) -> (env: Env)
        ensures
            env.sample_rate == sample_rate,
            env.time == 0,
    {
        Env { sample_rate, time: 0 }
    }
}

} // verus!
