//! Parameters of a blue-noise point set.
use vstd::prelude::*;

verus! {

/// Parameters of a blue-noise texture: a seed, the least distance between two
/// samples, and the number of samples.
#[derive(Debug, Default, Clone, Copy, PartialEq, Eq, Structural)]
pub struct BlueNoiseBuilder {
    pub seed: u64,
    pub minimum_distance: usize,
    pub num_samples: usize,
}

} // verus!
