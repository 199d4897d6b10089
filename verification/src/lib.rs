//! The exact, integer side of a Fourier epicycle engine.
//!
//! A closed path sampled at `N` equally spaced times is redrawn by a chain of
//! rotating circles, one for each harmonic. The trigonometry of that chain is
//! floating-point work and lives with the caller. What is a matter of
//! counting lives here:
//!
//! - [`pattern`]: what the bits of a single-precision number say of it;
//! - [`input`]: which paths are accepted for analysis;
//! - [`period`]: how far a harmonic has turned at a sample time;
//! - [`spectrum`]: the order in which the epicycles are chained;
//! - [`visibility`]: how many of them a fraction of the chain shows;
//! - [`trace`]: the outline traced so far, and the segments that draw it.

pub mod input;
pub mod pattern;
pub mod period;
pub mod spectrum;
pub mod trace;
pub mod visibility;
