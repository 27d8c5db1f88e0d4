//! Clipping of gradients.
use vstd::prelude::*;

use crate::array::Array;
use crate::error::{backend, Result};
use crate::lm::lora::layers::Weights;
use crate::scalar::F32;

verus! {

/// Clipping by the norm of all gradients is not offered yet: every call is
/// refused and the gradients stay as they are.
pub fn clip_grad_norm(grads: &mut Weights, max_norm: F32) -> (r: Result<Array>)
    ensures
        r is Err,
        r->Err_0 is Backend,
        r->Err_0.text() == "clip_grad_norm: not yet implemented"@,
        final(grads)@ == old(grads)@,
{
    Err(backend("clip_grad_norm: not yet implemented"))
}

} // verus!
