//! A polyphonic tone generator: note parsing, fixed-point envelope
//! synthesis, per-voice producer sessions and a mixing voice registry.

pub mod envelope;
pub mod events;
pub mod registry;
pub mod scale;
pub mod voice;
pub mod wave;

use vstd::prelude::*;

verus! {

} // verus!
