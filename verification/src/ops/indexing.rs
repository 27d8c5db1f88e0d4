//! Slices and scattered addition along one axis.
use vstd::prelude::*;

use crate::array::{made, outcome, unary, views, Array, Op, Tensor};
use crate::dtype::Kind;
use crate::error::{backend, Result};
use crate::shape::{elements, lemma_elements_one};

verus! {

/// A position counted from the end where it is negative.
pub open spec fn from_end(i: int, n: int) -> int {
    if i < 0 {
        i + n
    } else {
        i
    }
}

/// The first position that a slice of `n` elements takes.
pub open spec fn slice_first(n: int, start: int, stride: int) -> int {
    let s = from_end(start, n);
    if stride < 0 {
        if s < n - 1 {
            s
        } else {
            n - 1
        }
    } else if s < 0 {
        0
    } else if s < n {
        s
    } else {
        n
    }
}

/// The position before which a slice of `n` elements stops.
pub open spec fn slice_end(n: int, start: int, stop: int, stride: int) -> int {
    let e = from_end(stop, n);
    let first = slice_first(n, start, stride);
    if stride < 0 {
        let bound = if e > -1 {
            e
        } else {
            -1
        };
        if bound > first {
            first
        } else {
            bound
        }
    } else {
        let bound = if e < 0 {
            0
        } else if e < n {
            e
        } else {
            n
        };
        if bound < first {
            first
        } else {
            bound
        }
    }
}

/// How many of `n` elements a slice takes.
pub open spec fn slice_len(n: int, start: int, stop: int, stride: int) -> int {
    let first = slice_first(n, start, stride);
    let end = slice_end(n, start, stop, stride);
    if stride < 0 {
        (first - end - stride - 1) / (-stride)
    } else {
        (end - first + stride - 1) / stride
    }
}

/// The slice of a one-axis array.
pub open spec fn sliced(x: Tensor, start: int, stop: int, stride: int) -> Option<Tensor> {
    if x.shape.len() == 1 && stride != 0 {
        unary(
            Op::Slice,
            seq![slice_len(x.shape[0] as int, start, stop, stride) as usize],
            x.dtype,
            seq![start as i64, stop as i64, stride as i64],
            x,
        )
    } else {
        None
    }
}

/// A slice takes at most as many elements as there are.
pub proof fn slice_len_bound(n: int, start: int, stop: int, stride: int)
    requires
        0 <= n,
        stride != 0,
    ensures
        stride == 1 || stride == -1 ==> slice_len(n, start, stop, stride) == if stride < 0 {
            slice_first(n, start, stride) - slice_end(n, start, stop, stride)
        } else {
            slice_end(n, start, stop, stride) - slice_first(n, start, stride)
        },
        0 <= slice_len(n, start, stop, stride) <= n,
{
    let first = slice_first(n, start, stride);
    let end = slice_end(n, start, stop, stride);
    let w = if stride < 0 {
        first - end
    } else {
        end - first
    };
    let d = if stride < 0 {
        -stride
    } else {
        stride
    };
    assert(0 <= w <= n);
    assert(slice_len(n, start, stop, stride) == (w + d - 1) / d);
    if d == 1 {
        assert(w / 1 == w);
    } else if w == 0 {
        assert((d - 1) / d == 0) by (nonlinear_arith)
            requires
                d >= 1,
        ;
    } else {
        assert(0 <= (w + d - 1) / d <= w) by (nonlinear_arith)
            requires
                d >= 1,
                w >= 1,
        ;
    }
}

/// The slice of the one-axis array `a` from `start` towards `stop` by
/// `stride`. Negative positions count from the end, and a downward slice that
/// is to take the first element stops at `-(n + 1)`.
pub fn slice(a: &Array, start: i32, stop: i32, stride: i32) -> (r: Result<Array>)
    ensures
        outcome(r) == sliced(a@, start as int, stop as int, stride as int),
        r is Err ==> r->Err_0 is Backend,
{
    let s = a.dims();
    if s.len() != 1 {
        return Err(backend("slice: expected a one-axis array"));
    }
    if stride == 0 {
        return Err(backend("slice: the stride is zero"));
    }
    let n: i64 = s[0] as i64;
    let st: i64 = stride as i64;
    let b: i64 = if start < 0 {
        start as i64 + n
    } else {
        start as i64
    };
    let e: i64 = if stop < 0 {
        stop as i64 + n
    } else {
        stop as i64
    };
    let len: i64;
    if st < 0 {
        let first: i64 = if b < n - 1 {
            b
        } else {
            n - 1
        };
        let bound: i64 = if e > -1 {
            e
        } else {
            -1
        };
        let end: i64 = if bound > first {
            first
        } else {
            bound
        };
        len = (first - end - st - 1) / (-st);
    } else {
        let first: i64 = if b < 0 {
            0
        } else if b < n {
            b
        } else {
            n
        };
        let bound: i64 = if e < 0 {
            0
        } else if e < n {
            e
        } else {
            n
        };
        let end: i64 = if bound < first {
            first
        } else {
            bound
        };
        len = (end - first + st - 1) / st;
    }
    proof {
        slice_len_bound(n as int, start as int, stop as int, stride as int);
        lemma_elements_one(len as usize);
    }
    let mut shape: Vec<usize> = Vec::new();
    shape.push(len as usize);
    let mut params: Vec<i64> = Vec::new();
    params.push(start as i64);
    params.push(stop as i64);
    params.push(stride as i64);
    assert(shape@ =~= seq![len as usize]);
    assert(params@ =~= seq![start as i64, stop as i64, stride as i64]);
    Array::build_unary(Op::Slice, shape, a.dtype(), params, a)
}

/// The one-axis array `x` with each element of `updates` added at the position
/// that `indices` gives for it.
pub open spec fn scattered(x: Tensor, indices: Tensor, updates: Tensor) -> Option<Tensor> {
    if x.shape.len() == 1 && indices.shape.len() == 1 && updates.shape == indices.shape && (
    indices.dtype.kind() == Kind::Signed || indices.dtype.kind() == Kind::Unsigned) {
        made(
            Op::ScatterAdd,
            x.shape,
            x.dtype,
            Seq::empty(),
            Seq::empty(),
            seq![x, indices, updates],
        )
    } else {
        None
    }
}

/// The one-axis array `x` with each element of `updates` added at the position
/// that `indices` gives for it.
pub fn scatter_add_axis(x: &Array, indices: &Array, updates: &Array) -> (r: Result<Array>)
    ensures
        outcome(r) == scattered(x@, indices@, updates@),
        r is Err ==> r->Err_0 is Backend,
{
    let si = indices.dims();
    let su = updates.dims();
    if x.ndim() != 1 || si.len() != 1 || su.len() != 1 {
        return Err(backend("scatter_add_axis: expected one-axis arrays"));
    }
    if si[0] != su[0] {
        return Err(backend("scatter_add_axis: one update is needed for each index"));
    }
    match indices.dtype().kind() {
        Kind::Signed | Kind::Unsigned => {},
        _ => {
            return Err(backend("scatter_add_axis: the indices are no integers"));
        },
    }
    let mut args: Vec<Array> = Vec::new();
    args.push(x.dup());
    args.push(indices.dup());
    args.push(updates.dup());
    proof {
        assert(views(args@) =~= seq![x@, indices@, updates@]);
        assert(updates@.shape =~= indices@.shape);
    }
    Array::build(Op::ScatterAdd, x.shape(), x.dtype(), Vec::new(), Vec::new(), args)
}

/// A slice takes the elements from its start on, a stride apart, that stand
/// before its stop, and no others; start and stop are counted from the end
/// where they are negative, and are kept within the array.
pub proof fn slices_stop_before_their_end(n: int, start: int, stop: int, stride: int, i: int)
    requires
        0 <= n,
        stride != 0,
        0 <= i,
    ensures
        ({
            let first = slice_first(n, start, stride);
            let end = slice_end(n, start, stop, stride);
            &&& stride > 0 ==> (i < slice_len(n, start, stop, stride) <==> first + i * stride
                < end)
            &&& stride < 0 ==> (i < slice_len(n, start, stop, stride) <==> first + i * stride
                > end)
            &&& 0 <= start < n ==> first == start
            &&& start < 0 <= start + n && n > 0 ==> first == start + n
            &&& stride > 0 && 0 <= first <= stop <= n ==> end == stop
            &&& stride < 0 && 0 <= stop <= first ==> end == stop
        }),
{
    let first = slice_first(n, start, stride);
    let end = slice_end(n, start, stop, stride);
    if stride > 0 {
        let w = end - first;
        assert(i < (w + stride - 1) / stride <==> i * stride < w) by (nonlinear_arith)
            requires
                stride > 0,
        ;
    } else {
        let (w, d) = (first - end, -stride);
        assert(i < (w + d - 1) / d <==> i * d < w) by (nonlinear_arith)
            requires
                d > 0,
        ;
        assert(i * stride == -(i * d)) by (nonlinear_arith)
            requires
                d == -stride,
        ;
    }
}

} // verus!
