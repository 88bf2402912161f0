//! Verified core of the Pico de Gallo tool set: protocol decoders for logic
//! captures, the analyzer's application state, the wire-protocol types shared
//! between host and firmware, and the firmware's computational helpers.
use vstd::prelude::*;

pub mod decode;
pub mod text;
pub mod analyzer;
pub mod wire;
pub mod pwm;
pub mod firmware;
pub mod cli;

verus! {

} // verus!
