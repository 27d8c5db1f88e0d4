//! Matrix products and norms.
use vstd::prelude::*;

use crate::array::{binary, outcome, unary, Array, Op, Tensor};
use crate::dtype::{at_least_float, float_of, promote, promoted, Kind};
use crate::error::{backend, Result};
use crate::shape::{broadcast, broadcast_shapes, broadcastable};

verus! {

/// The shape of a left operand as a stack of matrices: a vector is one row.
pub open spec fn as_rows(s: Seq<usize>) -> Seq<usize> {
    if s.len() == 1 {
        seq![1usize] + s
    } else {
        s
    }
}

/// The shape of a right operand as a stack of matrices: a vector is one
/// column.
pub open spec fn as_columns(s: Seq<usize>) -> Seq<usize> {
    if s.len() == 1 {
        s.push(1)
    } else {
        s
    }
}

/// The axes before the matrices of a stack.
pub open spec fn stack_axes(s: Seq<usize>) -> Seq<usize> {
    s.take(s.len() - 2)
}

/// Whether operands of these shapes can be multiplied: the inner lengths are
/// the same and the stacks broadcast.
pub open spec fn multiplicable(a: Seq<usize>, b: Seq<usize>) -> bool {
    &&& a.len() >= 1
    &&& b.len() >= 1
    &&& a.last() == as_columns(b)[as_columns(b).len() - 2]
    &&& broadcastable(stack_axes(as_rows(a)), stack_axes(as_columns(b)))
}

/// The shape of the product; an operand that was a vector leaves no axis.
pub open spec fn product_shape(a: Seq<usize>, b: Seq<usize>) -> Seq<usize> {
    let stack = broadcast(stack_axes(as_rows(a)), stack_axes(as_columns(b)));
    let rows = if a.len() == 1 {
        Seq::empty()
    } else {
        seq![a[a.len() - 2]]
    };
    let columns = if b.len() == 1 {
        Seq::empty()
    } else {
        seq![b.last()]
    };
    stack + rows + columns
}

/// The matrix product of `a` and `b`.
pub open spec fn matrix_product(a: Tensor, b: Tensor) -> Option<Tensor> {
    let dtype = promoted(a.dtype, b.dtype);
    if multiplicable(a.shape, b.shape) && dtype.kind() == Kind::Float {
        binary(Op::Matmul, product_shape(a.shape, b.shape), dtype, Seq::empty(), a, b)
    } else {
        None
    }
}

fn prefix(s: &[usize], n: usize) -> (v: Vec<usize>)
    requires
        n <= s.len(),
    ensures
        v@ == s@.take(n as int),
{
    let mut v: Vec<usize> = Vec::new();
    let mut i: usize = 0;
    while i < n
        invariant
            0 <= i <= n <= s.len(),
            v@ == s@.take(i as int),
        decreases n - i,
    {
        v.push(s[i]);
        assert(s@.take(i + 1) =~= s@.take(i as int).push(s@[i as int]));
        i = i + 1;
    }
    v
}

/// The shape of the product of operands of these shapes, if there is one.
pub(crate) fn product_dims(a: &[usize], b: &[usize]) -> (r: Option<Vec<usize>>)
    ensures
        r is Some <==> multiplicable(a@, b@),
        r is Some ==> r->0@ == product_shape(a@, b@),
{
    if a.len() == 0 || b.len() == 0 {
        return None;
    }
    let inner: usize = if b.len() == 1 {
        b[0]
    } else {
        b[b.len() - 2]
    };
    if a[a.len() - 1] != inner {
        return None;
    }
    let stack_a: Vec<usize> = if a.len() == 1 {
        Vec::new()
    } else {
        prefix(a, a.len() - 2)
    };
    let stack_b: Vec<usize> = if b.len() == 1 {
        Vec::new()
    } else {
        prefix(b, b.len() - 2)
    };
    assert(stack_a@ =~= stack_axes(as_rows(a@)));
    assert(stack_b@ =~= stack_axes(as_columns(b@)));
    match broadcast_shapes(&stack_a, &stack_b) {
        None => None,
        Some(mut shape) => {
            if a.len() > 1 {
                shape.push(a[a.len() - 2]);
            }
            if b.len() > 1 {
                shape.push(b[b.len() - 1]);
            }
            assert(shape@ =~= product_shape(a@, b@));
            Some(shape)
        },
    }
}

impl Array {
    /// The matrix product of this array and `other`.
    pub fn matmul(&self, other: &Array) -> (r: Result<Array>)
        ensures
            outcome(r) == matrix_product(self@, other@),
            r is Err ==> r->Err_0 is Backend,
    {
        let dtype = promote(self.dtype(), other.dtype());
        if dtype.kind() != Kind::Float {
            return Err(backend("matmul: the operands are not real floating-point arrays"));
        }
        match product_dims(self.dims(), other.dims()) {
            None => Err(backend("matmul: the shapes cannot be multiplied")),
            Some(shape) => Array::build_binary(
                Op::Matmul,
                shape,
                dtype,
                Vec::new(),
                self,
                other,
            ),
        }
    }
}

/// The Euclidean norms of the rows of the matrix `x`.
pub open spec fn row_norms(x: Tensor) -> Option<Tensor> {
    if x.shape.len() == 2 {
        unary(Op::Norm, seq![x.shape[0]], at_least_float(x.dtype), seq![1i64], x)
    } else {
        None
    }
}

/// The Euclidean norms of the rows of the matrix `a`.
pub fn norm_rows(a: &Array) -> (r: Result<Array>)
    ensures
        outcome(r) == row_norms(a@),
        r is Err ==> r->Err_0 is Backend,
{
    let s = a.dims();
    if s.len() != 2 {
        return Err(backend("norm: expected a matrix"));
    }
    let mut shape: Vec<usize> = Vec::new();
    shape.push(s[0]);
    let mut params: Vec<i64> = Vec::new();
    params.push(1);
    assert(shape@ =~= seq![a@.shape[0]]);
    assert(params@ =~= seq![1i64]);
    Array::build_unary(Op::Norm, shape, float_of(a.dtype()), params, a)
}

/// A matrix times a matrix has the rows of the first and the columns of the
/// second; a vector in the place of one of them leaves no axis; and they can be
/// multiplied exactly where the inner lengths are the same.
pub proof fn products_have_rows_and_columns(a: Seq<usize>, b: Seq<usize>)
    requires
        1 <= a.len() <= 2,
        1 <= b.len() <= 2,
    ensures
        multiplicable(a, b) <==> a.last() == b[0],
        a.len() == 2 && b.len() == 2 ==> product_shape(a, b) == seq![a[0], b[1]],
        a.len() == 2 && b.len() == 1 ==> product_shape(a, b) == seq![a[0]],
        a.len() == 1 && b.len() == 2 ==> product_shape(a, b) == seq![b[1]],
        a.len() == 1 && b.len() == 1 ==> product_shape(a, b) == Seq::<usize>::empty(),
{
    let (x, y) = (stack_axes(as_rows(a)), stack_axes(as_columns(b)));
    assert(x =~= Seq::<usize>::empty());
    assert(y =~= Seq::<usize>::empty());
    assert(broadcast(x, y) =~= Seq::<usize>::empty());
    assert(broadcastable(x, y));
    let p = product_shape(a, b);
    if a.len() == 2 && b.len() == 2 {
        assert(p =~= seq![a[0], b[1]]);
    } else if a.len() == 2 {
        assert(p =~= seq![a[0]]);
    } else if b.len() == 2 {
        assert(p =~= seq![b[1]]);
    } else {
        assert(p =~= Seq::<usize>::empty());
    }
}

} // verus!
