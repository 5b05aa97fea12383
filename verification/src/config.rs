//! Stream configuration.

use vstd::prelude::*;

verus! {

/// The configuration of an audio source or sink.
#[derive(Debug, Clone, Copy, PartialEq, Eq, Structural)]
pub struct AudioConfig {
    pub sample_rate: u32,
    pub channels: u16,
}

} // verus!
