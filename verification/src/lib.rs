//! Core of a real-time audio delay effect.
//!
//! The library implements the per-sample signal-processing engine of a
//! feedback delay: a circular-buffer delay line with fractional-delay
//! interpolation (`dsp::delay_line`), a one-pole lowpass filter that darkens
//! the feedback path (`dsp::filter`), and the per-sample signal-flow
//! algorithm that combines them under live parameter changes (`engine`).
//!
//! Samples and control parameters are carried as Q32.32 fixed-point numbers
//! (`fixedpoint`): signed 64-bit integers with 32 fractional bits, so that
//! every operation on the signal path is exact integer arithmetic with a
//! proved contract.  The host-facing layer converts to and from whatever
//! sample format it uses at the edge.

pub mod fixedpoint;

pub mod dsp;

pub mod engine;
