//! One vector for each sequence.
use vstd::prelude::*;

use crate::array::{bind, binary, outcome, unary, Array, Op, Tensor};
use crate::error::{shape_mismatch, Error, Result};

verus! {

/// How the vectors of a sequence become one.
#[derive(Clone, Copy, Debug, PartialEq, Eq, Structural)]
pub enum PoolingStrategy {
    /// Their mean over the places that are marked.
    Mean,
    /// The first that is marked.
    Cls,
    /// The largest of them, number by number, over the places that are marked.
    Max,
    /// They stay as they are.
    Unpooled,
}

/// Whether `mask` marks places of the sequences in `hidden`.
pub open spec fn poolable(hidden: Tensor, mask: Tensor) -> bool {
    hidden.shape.len() == 3 && mask.shape == seq![hidden.shape[0], hidden.shape[1]]
}

/// The rows of `x` brought to a common size, where asked for; the second
/// asked for counts only without the first.
pub open spec fn evened(x: Tensor, layer_norm: bool, rms_norm: bool) -> Option<Tensor> {
    if layer_norm {
        unary(Op::LayerNorm, x.shape, x.dtype, Seq::empty(), x)
    } else if rms_norm {
        unary(Op::RmsNorm, x.shape, x.dtype, Seq::empty(), x)
    } else {
        Some(x)
    }
}

/// The first `dimension` columns of `x`, all where it has no more or none are
/// asked for.
pub open spec fn narrowed(x: Tensor, dimension: Option<usize>) -> Option<Tensor> {
    match dimension {
        Some(d) if d < x.shape.last() => unary(
            Op::TakeColumns,
            x.shape.update(x.shape.len() - 1, d),
            x.dtype,
            seq![d as i64],
            x,
        ),
        _ => Some(x),
    }
}

/// The vectors of each sequence of `hidden` made one, or as they are where
/// nothing else is asked for.
pub open spec fn gathered(hidden: Tensor, mask: Tensor, strategy: PoolingStrategy) -> Option<
    Tensor,
> {
    if strategy == PoolingStrategy::Unpooled {
        Some(hidden)
    } else {
        binary(
            Op::Pool(strategy),
            seq![hidden.shape[0], hidden.shape[2]],
            hidden.dtype,
            Seq::empty(),
            hidden,
            mask,
        )
    }
}

/// One vector for each sequence of `hidden`, or all of them: pooled, evened,
/// narrowed and brought to length one, as asked for.
pub open spec fn pooled(
    hidden: Tensor,
    mask: Tensor,
    strategy: PoolingStrategy,
    normalize: bool,
    dimension: Option<usize>,
    layer_norm: bool,
    rms_norm: bool,
) -> Option<Tensor> {
    if poolable(hidden, mask) {
        bind(
            bind(
                bind(
                    gathered(hidden, mask, strategy),
                    |x: Tensor| evened(x, layer_norm, rms_norm),
                ),
                |x: Tensor| narrowed(x, dimension),
            ),
            |x: Tensor|
                if normalize {
                    unary(Op::NormalizeRows, x.shape, x.dtype, Seq::empty(), x)
                } else {
                    Some(x)
                },
        )
    } else {
        None
    }
}

/// One vector for each sequence of `hidden`, or all of them where they are not
/// to be pooled.
pub fn pool(
    hidden: &Array,
    mask: &Array,
    strategy: PoolingStrategy,
    normalize: bool,
    dimension: Option<usize>,
    layer_norm: bool,
    rms_norm: bool,
) -> (r: Result<Array>)
    ensures
        outcome(r) == pooled(
            hidden@,
            mask@,
            strategy,
            normalize,
            dimension,
            layer_norm,
            rms_norm,
        ),
        match r {
            Ok(_) => true,
            Err(Error::ShapeMismatch { .. }) => !poolable(hidden@, mask@),
            Err(e) => e is Backend && poolable(hidden@, mask@),
        },
{
    let h = hidden.dims();
    let m = mask.dims();
    if h.len() != 3 || m.len() != 2 || m[0] != h[0] || m[1] != h[1] {
        return Err(shape_mismatch("pool: expected (batch, seq_len, hidden) and (batch, seq_len)"));
    }
    assert(mask@.shape =~= seq![hidden@.shape[0], hidden@.shape[1]]);
    let x = if strategy == PoolingStrategy::Unpooled {
        hidden.dup()
    } else {
        let mut shape: Vec<usize> = Vec::new();
        shape.push(h[0]);
        shape.push(h[2]);
        assert(shape@ =~= seq![hidden@.shape[0], hidden@.shape[2]]);
        Array::build_binary(
            Op::Pool(strategy),
            shape,
            hidden.dtype(),
            Vec::new(),
            hidden,
            mask,
        )?
    };
    let x = if layer_norm {
        Array::build_unary(Op::LayerNorm, x.shape(), x.dtype(), Vec::new(), &x)?
    } else if rms_norm {
        Array::build_unary(Op::RmsNorm, x.shape(), x.dtype(), Vec::new(), &x)?
    } else {
        x
    };
    let x = match dimension {
        Some(d) => {
            let mut shape: Vec<usize> = x.shape();
            let last: usize = shape.len() - 1;
            if d < shape[last] {
                shape.set(last, d);
                let mut params: Vec<i64> = Vec::new();
                params.push(d as i64);
                assert(params@ =~= seq![d as i64]);
                Array::build_unary(Op::TakeColumns, shape, x.dtype(), params, &x)?
            } else {
                x
            }
        },
        None => x,
    };
    if normalize {
        Array::build_unary(Op::NormalizeRows, x.shape(), x.dtype(), Vec::new(), &x)
    } else {
        Ok(x)
    }
}

/// Pooling gives one row for each sequence, no wider than the vectors nor than
/// asked for; without pooling there is one for each place of each sequence.
pub proof fn pooled_shape(
    hidden: Tensor,
    mask: Tensor,
    strategy: PoolingStrategy,
    normalize: bool,
    dimension: Option<usize>,
    layer_norm: bool,
    rms_norm: bool,
)
    requires
        pooled(hidden, mask, strategy, normalize, dimension, layer_norm, rms_norm) is Some,
    ensures
        ({
            let shape = pooled(
                hidden,
                mask,
                strategy,
                normalize,
                dimension,
                layer_norm,
                rms_norm,
            )->0.shape;
            let width = match dimension {
                Some(d) if d < hidden.shape[2] => d,
                _ => hidden.shape[2],
            };
            shape == if strategy == PoolingStrategy::Unpooled {
                seq![hidden.shape[0], hidden.shape[1], width]
            } else {
                seq![hidden.shape[0], width]
            }
        }),
{
    let x = gathered(hidden, mask, strategy)->0;
    let y = evened(x, layer_norm, rms_norm)->0;
    let z = narrowed(y, dimension)->0;
    let width = match dimension {
        Some(d) if d < hidden.shape[2] => d,
        _ => hidden.shape[2],
    };
    assert(z.shape =~= if strategy == PoolingStrategy::Unpooled {
        seq![hidden.shape[0], hidden.shape[1], width]
    } else {
        seq![hidden.shape[0], width]
    });
}

/// Without pooling, and with nothing else asked for, the vectors pass through
/// as they are.
pub proof fn unpooled_passes_through(hidden: Tensor, mask: Tensor)
    requires
        poolable(hidden, mask),
    ensures
        pooled(hidden, mask, PoolingStrategy::Unpooled, false, None, false, false) == Some(hidden),
{
}

} // verus!
