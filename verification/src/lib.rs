//! Screen magnification for a desktop compositor.
//!
//! An output is magnified around a focal point, which follows the pointer in one of three
//! ways, and a small overlay on it offers the controls. The library decides what is shown
//! where, how animations run, what the overlay's controls and menus hold and what follows
//! from using them. It computes over any [`scalar::Scalar`], is told the time, and leaves
//! drawing and input to the compositor.

pub mod binary;
pub mod config;
pub mod double;
pub mod geometry;
pub mod integers;
pub mod label;
pub mod laws;
pub mod menu;
pub mod message;
pub mod operations;
pub mod output_zoom;
pub mod precision;
pub mod program;
pub mod rounding;
pub mod scalar;
pub mod zoom_state;
