//! Element-by-element arithmetic with broadcasting.
use vstd::prelude::*;

use crate::array::{binary, outcome, Array, Op, Tensor};
use crate::dtype::{at_least_float, float_of, promote, promoted, Dtype};
use crate::error::{backend, Result};
use crate::shape::{broadcast, broadcast_shapes, broadcastable};

verus! {

/// `op` between the elements of two arrays, refused where the shapes do not
/// broadcast.
pub open spec fn elementwise(op: Op, dtype: Dtype, a: Tensor, b: Tensor) -> Option<Tensor> {
    if broadcastable(a.shape, b.shape) {
        binary(op, broadcast(a.shape, b.shape), dtype, Seq::empty(), a, b)
    } else {
        None
    }
}

/// `a + b`.
pub open spec fn sum(a: Tensor, b: Tensor) -> Option<Tensor> {
    elementwise(Op::Add, promoted(a.dtype, b.dtype), a, b)
}

/// `a - b`.
pub open spec fn difference(a: Tensor, b: Tensor) -> Option<Tensor> {
    elementwise(Op::Subtract, promoted(a.dtype, b.dtype), a, b)
}

/// `a * b`.
pub open spec fn product(a: Tensor, b: Tensor) -> Option<Tensor> {
    elementwise(Op::Multiply, promoted(a.dtype, b.dtype), a, b)
}

/// `a / b`.
pub open spec fn quotient(a: Tensor, b: Tensor) -> Option<Tensor> {
    elementwise(Op::Divide, at_least_float(promoted(a.dtype, b.dtype)), a, b)
}

/// The larger of `a` and `b`.
pub open spec fn larger(a: Tensor, b: Tensor) -> Option<Tensor> {
    elementwise(Op::Maximum, promoted(a.dtype, b.dtype), a, b)
}

pub(crate) fn build_elementwise(op: Op, dtype: Dtype, a: &Array, b: &Array) -> (r: Result<Array>)
    ensures
        outcome(r) == elementwise(op, dtype, a@, b@),
        r is Err ==> r->Err_0 is Backend,
{
    match broadcast_shapes(a.dims(), b.dims()) {
        Some(shape) => {
            let none: Vec<i64> = Vec::new();
            assert(none@ =~= Seq::<i64>::empty());
            Array::build_binary(op, shape, dtype, none, a, b)
        },
        None => Err(backend("the shapes cannot be broadcast")),
    }
}

/// `a + b`.
pub fn add(a: &Array, b: &Array) -> (r: Result<Array>)
    ensures
        outcome(r) == sum(a@, b@),
        r is Err ==> r->Err_0 is Backend,
{
    build_elementwise(Op::Add, promote(a.dtype(), b.dtype()), a, b)
}

/// `a - b`.
pub fn subtract(a: &Array, b: &Array) -> (r: Result<Array>)
    ensures
        outcome(r) == difference(a@, b@),
        r is Err ==> r->Err_0 is Backend,
{
    build_elementwise(Op::Subtract, promote(a.dtype(), b.dtype()), a, b)
}

/// `a * b`.
pub fn multiply(a: &Array, b: &Array) -> (r: Result<Array>)
    ensures
        outcome(r) == product(a@, b@),
        r is Err ==> r->Err_0 is Backend,
{
    build_elementwise(Op::Multiply, promote(a.dtype(), b.dtype()), a, b)
}

/// `a / b`.
pub fn divide(a: &Array, b: &Array) -> (r: Result<Array>)
    ensures
        outcome(r) == quotient(a@, b@),
        r is Err ==> r->Err_0 is Backend,
{
    build_elementwise(Op::Divide, float_of(promote(a.dtype(), b.dtype())), a, b)
}

/// The larger of `a` and `b`.
pub fn maximum(a: &Array, b: &Array) -> (r: Result<Array>)
    ensures
        outcome(r) == larger(a@, b@),
        r is Err ==> r->Err_0 is Backend,
{
    build_elementwise(Op::Maximum, promote(a.dtype(), b.dtype()), a, b)
}

} // verus!
