//! FrameSeed: the deterministic, integer-exact core of a procedural video engine.
//!
//! Pixels are `Rgba` values in a flat `Frame`; effects and the cellular
//! automaton operate on frames; small text helpers produce file names,
//! hex colors and Base64 previews.

use vstd::prelude::*;

pub mod text;
pub mod color;
pub mod frame;
pub mod effects;
pub mod conway;
pub mod files;
pub mod errors;
pub mod export;
pub mod scenes;
pub mod config;
pub mod encode;
pub mod gallery;
pub mod sheet;
pub mod contact;
pub mod cli;
pub mod jobs;
pub mod seeds;

verus! {

/// The greeting shown by the command line and desktop front ends.
pub fn welcome_message() -> (msg: &'static str)
    ensures
        msg@ == "Welcome to Frameseed."@,
{
    "Welcome to Frameseed."
}

} // verus!
