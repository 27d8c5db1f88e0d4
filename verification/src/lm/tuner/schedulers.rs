//! Rates of learning by step.
use vstd::prelude::*;

use crate::scalar::F32;

verus! {

/// The rate of a cosine decay at a step. The decay is not offered yet, and its
/// rate is zero at every step.
pub fn cosine_decay(init: F32, decay_steps: usize, end: F32, step: usize) -> (rate: F32)
    ensures
        rate == F32::zero(),
{
    F32::zero()
}

} // verus!
