//! Signal-processing primitives of the delay effect.
//!
//! - [`delay_line`]: a ring buffer that stores past samples and reads them
//!   back at a (possibly fractional) delay, with linear interpolation.
//! - [`filter`]: a one-pole lowpass filter applied to the feedback path, so
//!   that successive echoes grow progressively darker.

pub mod delay_line;

pub mod filter;
