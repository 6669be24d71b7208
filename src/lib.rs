//! Real-time audio-to-spectrum core of a desktop audio visualiser: the three
//! frequency-binning strategies, the mono sample accumulator with its analysis
//! pacing, and the single-instance capture state.
#![allow(non_snake_case)]

pub mod structs;
pub mod util;
pub mod capture;
