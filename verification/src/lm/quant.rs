//! Which layers of a model are quantized, and how.
use vstd::prelude::*;

use crate::names::{lookup, NameMap};
use crate::ops::quantized::QuantMode;

verus! {

/// How a layer is quantized.
#[derive(Clone, Copy, Debug, PartialEq, Eq, Structural)]
pub struct Quantization {
    pub group_size: i32,
    pub bits: i32,
    pub mode: QuantMode,
}

/// How the layers of a model are quantized: all in one way, but for those
/// named, which have their own or none.
#[derive(Debug)]
pub struct PerLayerQuantization {
    pub default: Option<Quantization>,
    pub layers: NameMap<Option<Quantization>>,
}

impl PerLayerQuantization {
    /// How the layer at `path` is quantized, if it is.
    pub open spec fn for_path(&self, path: Seq<char>) -> Option<Quantization> {
        match lookup(self.layers@, path) {
            Some(own) => own,
            None => self.default,
        }
    }

    /// How the layer at `path` is quantized, if it is.
    pub fn quantization_for(&self, path: &str) -> (r: Option<Quantization>)
        ensures
            r == self.for_path(path@),
    {
        match self.layers.get(path) {
            Some(own) => *own,
            None => self.default,
        }
    }
}

/// What is said of a layer by its path counts for it, also where that is that
/// it is not quantized; every other layer is quantized like all.
pub proof fn own_setting_counts(q: PerLayerQuantization, path: Seq<char>)
    ensures
        lookup(q.layers@, path) matches Some(own) ==> q.for_path(path) == own,
        lookup(q.layers@, path) is None ==> q.for_path(path) == q.default,
{
}

} // verus!
