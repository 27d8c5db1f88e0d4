//! Element-by-element comparison and selection.
use vstd::prelude::*;

use crate::array::{made, outcome, views, Array, Op, Tensor};
use crate::dtype::{promote, promoted, Dtype};
use crate::error::{backend, Result};
use crate::ops::arithmetic::{build_elementwise, elementwise};
use crate::shape::{broadcast, broadcast_shapes, broadcastable};

verus! {

/// `a > b`.
pub open spec fn is_greater(a: Tensor, b: Tensor) -> Option<Tensor> {
    elementwise(Op::Greater, Dtype::Bool, a, b)
}

/// `a == b`.
pub open spec fn is_equal(a: Tensor, b: Tensor) -> Option<Tensor> {
    elementwise(Op::Equal, Dtype::Bool, a, b)
}

/// `x` where `mask` is true, else `y`.
pub open spec fn selection(mask: Tensor, x: Tensor, y: Tensor) -> Option<Tensor> {
    let xy = broadcast(x.shape, y.shape);
    if broadcastable(x.shape, y.shape) && broadcastable(mask.shape, xy) {
        made(
            Op::Select,
            broadcast(mask.shape, xy),
            promoted(x.dtype, y.dtype),
            Seq::empty(),
            Seq::empty(),
            seq![mask, x, y],
        )
    } else {
        None
    }
}

/// `a > b`.
pub fn greater(a: &Array, b: &Array) -> (r: Result<Array>)
    ensures
        outcome(r) == is_greater(a@, b@),
        r is Err ==> r->Err_0 is Backend,
{
    build_elementwise(Op::Greater, Dtype::Bool, a, b)
}

/// `a == b`.
pub fn equal(a: &Array, b: &Array) -> (r: Result<Array>)
    ensures
        outcome(r) == is_equal(a@, b@),
        r is Err ==> r->Err_0 is Backend,
{
    build_elementwise(Op::Equal, Dtype::Bool, a, b)
}

/// `x` where `mask` is true, else `y`.
pub fn select(mask: &Array, x: &Array, y: &Array) -> (r: Result<Array>)
    ensures
        outcome(r) == selection(mask@, x@, y@),
        r is Err ==> r->Err_0 is Backend,
{
    match broadcast_shapes(x.dims(), y.dims()) {
        Some(xy) => match broadcast_shapes(mask.dims(), &xy) {
            Some(shape) => {
                let mut args: Vec<Array> = Vec::new();
                args.push(mask.dup());
                args.push(x.dup());
                args.push(y.dup());
                assert(views(args@) =~= seq![mask@, x@, y@]);
                Array::build(
                    Op::Select,
                    shape,
                    promote(x.dtype(), y.dtype()),
                    Vec::new(),
                    Vec::new(),
                    args,
                )
            },
            None => Err(backend("select: the shapes cannot be broadcast")),
        },
        None => Err(backend("select: the shapes cannot be broadcast")),
    }
}

} // verus!
