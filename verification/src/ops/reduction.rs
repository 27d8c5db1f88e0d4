//! Reductions.
use vstd::prelude::*;

use crate::array::{outcome, unary, Array, Op, Tensor};
use crate::dtype::Dtype;
use crate::error::{backend, Result};
use crate::ops::fft::axis_at;

verus! {

/// The element type of a sum: sums of truth values and of narrow integers are
/// counted in 32 bits.
pub open spec fn sum_dtype(d: Dtype) -> Dtype {
    match d {
        Dtype::Bool | Dtype::I8 | Dtype::I16 => Dtype::I32,
        Dtype::U8 | Dtype::U16 => Dtype::U32,
        _ => d,
    }
}

fn sum_type(d: Dtype) -> (r: Dtype)
    ensures
        r == sum_dtype(d),
{
    match d {
        Dtype::Bool | Dtype::I8 | Dtype::I16 => Dtype::I32,
        Dtype::U8 | Dtype::U16 => Dtype::U32,
        _ => d,
    }
}

/// `op` over all elements of `x`.
pub open spec fn reduced(op: Op, x: Tensor, dtype: Dtype) -> Option<Tensor> {
    unary(op, Seq::empty(), dtype, Seq::empty(), x)
}

/// `op` over one axis of `x`.
pub open spec fn reduced_axis(op: Op, x: Tensor, axis: i32, dtype: Dtype) -> Option<Tensor> {
    let a = axis_at(x.shape.len() as int, axis as int);
    if 0 <= a < x.shape.len() {
        unary(op, x.shape.remove(a), dtype, seq![axis as i64], x)
    } else {
        None
    }
}

fn reduce(op: Op, x: &Array, dtype: Dtype) -> (r: Result<Array>)
    ensures
        outcome(r) == reduced(op, x@, dtype),
        r is Err ==> r->Err_0 is Backend,
{
    let shape: Vec<usize> = Vec::new();
    assert(shape@ =~= Seq::<usize>::empty());
    Array::build_unary(op, shape, dtype, Vec::new(), x)
}

/// The sum of all elements.
pub fn sum(x: &Array) -> (r: Result<Array>)
    ensures
        outcome(r) == reduced(Op::Sum, x@, sum_dtype(x@.dtype)),
        r is Err ==> r->Err_0 is Backend,
{
    reduce(Op::Sum, x, sum_type(x.dtype()))
}

/// The sums along one axis.
pub fn sum_axis(x: &Array, axis: i32) -> (r: Result<Array>)
    ensures
        outcome(r) == reduced_axis(Op::Sum, x@, axis, sum_dtype(x@.dtype)),
        r is Err ==> r->Err_0 is Backend,
{
    let mut shape: Vec<usize> = x.shape();
    let rank: usize = shape.len();
    let place: Option<usize> = if axis >= 0 {
        if (axis as usize) < rank {
            Some(axis as usize)
        } else {
            None
        }
    } else {
        rank.checked_sub((-(axis as i64)) as usize)
    };
    let place: usize = match place {
        Some(p) => p,
        None => {
            return Err(backend("sum: an axis is out of range"));
        },
    };
    let _ = shape.remove(place);
    let mut params: Vec<i64> = Vec::new();
    params.push(axis as i64);
    assert(params@ =~= seq![axis as i64]);
    Array::build_unary(Op::Sum, shape, sum_type(x.dtype()), params, x)
}

/// The least element.
pub fn min(x: &Array) -> (r: Result<Array>)
    ensures
        outcome(r) == reduced(Op::Min, x@, x@.dtype),
        r is Err ==> r->Err_0 is Backend,
{
    reduce(Op::Min, x, x.dtype())
}

/// The greatest element.
pub fn max(x: &Array) -> (r: Result<Array>)
    ensures
        outcome(r) == reduced(Op::Max, x@, x@.dtype),
        r is Err ==> r->Err_0 is Backend,
{
    reduce(Op::Max, x, x.dtype())
}

/// The place of the greatest element.
pub fn argmax(x: &Array) -> (r: Result<Array>)
    ensures
        outcome(r) == reduced(Op::ArgMax, x@, Dtype::I32),
        r is Err ==> r->Err_0 is Backend,
{
    reduce(Op::ArgMax, x, Dtype::I32)
}

} // verus!
