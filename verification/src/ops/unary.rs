//! Operations on each element of one array.
use vstd::prelude::*;

use crate::array::{outcome, unary, Array, Op, Tensor};
use crate::dtype::{float_of, at_least_float, Dtype};
use crate::error::Result;

verus! {

/// Magnitudes: a complex number's is a real number.
pub open spec fn magnitudes(x: Tensor) -> Option<Tensor> {
    unary(
        Op::Abs,
        x.shape,
        if x.dtype == Dtype::Complex64 {
            Dtype::F32
        } else {
            x.dtype
        },
        Seq::empty(),
        x,
    )
}

/// Squares.
pub open spec fn squares(x: Tensor) -> Option<Tensor> {
    unary(Op::Square, x.shape, x.dtype, Seq::empty(), x)
}

/// Natural logarithms.
pub open spec fn logarithms(x: Tensor) -> Option<Tensor> {
    unary(Op::Log, x.shape, at_least_float(x.dtype), Seq::empty(), x)
}

/// The same numbers in the element type `dtype`.
pub open spec fn converted(x: Tensor, dtype: Dtype) -> Option<Tensor> {
    unary(Op::Astype, x.shape, dtype, Seq::empty(), x)
}

impl Array {
    /// Magnitudes.
    pub fn abs(&self) -> (r: Result<Array>)
        ensures
            outcome(r) == magnitudes(self@),
            r is Err ==> r->Err_0 is Backend,
    {
        let dtype = if self.dtype() == Dtype::Complex64 {
            Dtype::F32
        } else {
            self.dtype()
        };
        Array::build_unary(Op::Abs, self.shape(), dtype, Vec::new(), self)
    }

    /// Squares.
    pub fn square(&self) -> (r: Result<Array>)
        ensures
            outcome(r) == squares(self@),
            r is Err ==> r->Err_0 is Backend,
    {
        Array::build_unary(Op::Square, self.shape(), self.dtype(), Vec::new(), self)
    }

    /// Natural logarithms.
    pub fn log(&self) -> (r: Result<Array>)
        ensures
            outcome(r) == logarithms(self@),
            r is Err ==> r->Err_0 is Backend,
    {
        Array::build_unary(Op::Log, self.shape(), float_of(self.dtype()), Vec::new(), self)
    }

    /// The same numbers in the element type `dtype`.
    pub fn astype(&self, dtype: Dtype) -> (r: Result<Array>)
        ensures
            outcome(r) == converted(self@, dtype),
            r is Err ==> r->Err_0 is Backend,
    {
        Array::build_unary(Op::Astype, self.shape(), dtype, Vec::new(), self)
    }
}

} // verus!
