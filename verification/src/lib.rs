//! Core of an interpreter for a two-dimensional, color-encoded esoteric
//! programming language. A program is a raster image whose pixels ("codels")
//! are drawn from a fixed palette of twenty colors; execution segments the
//! image into maximal same-color regions and moves between regions according
//! to a direction pointer and a codel chooser.
//!
//! The crate is organised leaves first: `ty` holds the color model and the
//! small value types, `image` the pixel grid and its flood fill, `op` the
//! color-transition decoder, and `env` the execution state machine.

pub mod env;
pub mod image;
pub mod op;
pub mod ty;
