//! Operations that rearrange elements.
use vstd::prelude::*;

use crate::array::{made, outcome, slice_copy, unary, views, Array, Op, Tensor};
use crate::dtype::{promote, promoted, Dtype};
use crate::error::{backend, shape_mismatch, Error, Result};
use crate::shape::{
    broadcast, broadcast_shapes, broadcastable, checked_elements, dims_to_shape, dims_valid,
    dims_view, elements, fits, lemma_elements_concat, lemma_elements_one, lemma_elements_reverse,
    MAX_DIM,
};

verus! {

/// `x` under the shape `shape`, which must have as many elements.
pub open spec fn reshaped(x: Tensor, shape: Seq<usize>) -> Option<Tensor> {
    if elements(shape) == elements(x.shape) {
        unary(Op::Reshape, shape, x.dtype, Seq::empty(), x)
    } else {
        None
    }
}

/// Reshapes `a`. The new shape must have no negative length and as many
/// elements as `a`.
pub fn reshape(a: &Array, dims: &[i32]) -> (r: Result<Array>)
    ensures
        dims_valid(dims@) ==> outcome(r) == reshaped(a@, dims_view(dims@)),
        match r {
            Ok(_) => dims_valid(dims@),
            Err(Error::ShapeMismatch { .. }) => !dims_valid(dims@),
            Err(e) => e is Backend && dims_valid(dims@),
        },
{
    match dims_to_shape(dims) {
        Err(e) => Err(e),
        Ok(shape) => reshape_to(a, &shape),
    }
}

/// `a` under the shape `shape`, which must have as many elements.
pub(crate) fn reshape_to(a: &Array, shape: &[usize]) -> (r: Result<Array>)
    ensures
        outcome(r) == reshaped(a@, shape@),
        r is Err ==> r->Err_0 is Backend,
{
    match checked_elements(shape) {
        Some(n) if n == a.size() => Array::build_unary(
            Op::Reshape,
            slice_copy(shape),
            a.dtype(),
            Vec::new(),
            a,
        ),
        _ => Err(backend("reshape: the element counts differ")),
    }
}

impl Array {
    /// Reshapes this array. The new shape must have no negative length and as
    /// many elements.
    pub fn reshape(&self, dims: &[i32]) -> (r: Result<Array>)
        ensures
            dims_valid(dims@) ==> outcome(r) == reshaped(self@, dims_view(dims@)),
            match r {
                Ok(_) => dims_valid(dims@),
                Err(Error::ShapeMismatch { .. }) => !dims_valid(dims@),
                Err(e) => e is Backend && dims_valid(dims@),
            },
    {
        reshape(self, dims)
    }
}

/// A reshape keeps the element count and the element type, and undoes itself
/// as far as both go.
pub proof fn reshape_round_trip(x: Tensor, shape: Seq<usize>)
    requires
        fits(x.shape),
        fits(shape),
        elements(shape) == elements(x.shape),
    ensures
        reshaped(x, shape) is Some,
        elements(reshaped(x, shape)->0.shape) == elements(x.shape),
        reshaped(reshaped(x, shape)->0, x.shape) is Some,
        reshaped(reshaped(x, shape)->0, x.shape)->0.shape == x.shape,
        reshaped(reshaped(x, shape)->0, x.shape)->0.dtype == x.dtype,
{
}

/// The elements of `x` in one axis.
pub open spec fn flattened(x: Tensor) -> Option<Tensor> {
    reshaped(x, seq![elements(x.shape) as usize])
}

/// The elements of `a` in one axis.
pub fn flatten(a: &Array) -> (r: Result<Array>)
    ensures
        outcome(r) == flattened(a@),
        r is Err ==> r->Err_0 is Backend,
{
    let mut shape: Vec<usize> = Vec::new();
    shape.push(a.size());
    assert(shape@ =~= seq![elements(a@.shape) as usize]);
    reshape_to(a, &shape)
}

/// `x` repeated to the shape `shape`.
pub open spec fn spread(x: Tensor, shape: Seq<usize>) -> Option<Tensor> {
    if broadcastable(x.shape, shape) && broadcast(x.shape, shape) == shape {
        unary(Op::BroadcastTo, shape, x.dtype, Seq::empty(), x)
    } else {
        None
    }
}

fn same_shape(a: &[usize], b: &[usize]) -> (r: bool)
    ensures
        r == (a@ == b@),
{
    if a.len() != b.len() {
        return false;
    }
    let mut i: usize = 0;
    while i < a.len()
        invariant
            a.len() == b.len(),
            0 <= i <= a.len(),
            forall|j: int| 0 <= j < i ==> a@[j] == b@[j],
        decreases a.len() - i,
    {
        if a[i] != b[i] {
            return false;
        }
        i = i + 1;
    }
    assert(a@ =~= b@);
    true
}

/// `a` repeated to the shape `shape`.
pub fn broadcast_to(a: &Array, shape: &[usize]) -> (r: Result<Array>)
    ensures
        outcome(r) == spread(a@, shape@),
        r is Err ==> r->Err_0 is Backend,
{
    match broadcast_shapes(a.dims(), shape) {
        Some(common) if same_shape(&common, shape) => Array::build_unary(
            Op::BroadcastTo,
            common,
            a.dtype(),
            Vec::new(),
            a,
        ),
        _ => Err(backend("broadcast_to: the shape cannot be reached")),
    }
}

/// The axes of an array of rank `n` in reverse order.
pub open spec fn reverse_axes(n: nat) -> Seq<i64> {
    Seq::new(n, |i: int| (n - 1 - i) as i64)
}

/// `x` with its axes in reverse order.
pub open spec fn transposed(x: Tensor) -> Option<Tensor> {
    unary(Op::Transpose, x.shape.reverse(), x.dtype, reverse_axes(x.shape.len()), x)
}

impl Array {
    /// This array with its axes in reverse order.
    pub fn transpose(&self) -> (r: Result<Array>)
        ensures
            r is Ok,
            outcome(r) == transposed(self@),
    {
        let s = self.dims();
        let mut shape: Vec<usize> = Vec::new();
        let mut axes: Vec<i64> = Vec::new();
        let mut i: usize = 0;
        while i < s.len()
            invariant
                0 <= i <= s.len(),
                shape@.len() == i,
                axes@.len() == i,
                forall|j: int| 0 <= j < i ==> shape@[j] == s@[s.len() - 1 - j],
                forall|j: int| 0 <= j < i ==> axes@[j] == (s.len() - 1 - j) as i64,
            decreases s.len() - i,
        {
            let k: usize = s.len() - 1 - i;
            shape.push(s[k]);
            axes.push(k as i64);
            i = i + 1;
        }
        assert(shape@ =~= self@.shape.reverse());
        assert(axes@ =~= reverse_axes(self@.shape.len()));
        proof {
            lemma_elements_reverse(self@.shape);
        }
        Array::build_unary(Op::Transpose, shape, self.dtype(), axes, self)
    }
}

/// Transposing twice gives the shape back.
pub proof fn transpose_twice(x: Tensor)
    requires
        fits(x.shape),
    ensures
        transposed(x) is Some,
        transposed(transposed(x)->0) is Some,
        transposed(transposed(x)->0)->0.shape == x.shape,
{
    lemma_elements_reverse(x.shape);
    lemma_elements_reverse(x.shape.reverse());
    assert(x.shape.reverse().reverse() =~= x.shape);
}

/// `x` with a new last axis of length one.
pub open spec fn with_last_axis(x: Tensor) -> Option<Tensor> {
    unary(Op::ExpandDims, x.shape.push(1), x.dtype, seq![-1i64], x)
}

/// `x` with a new first axis of length one.
pub open spec fn with_first_axis(x: Tensor) -> Option<Tensor> {
    unary(Op::ExpandDims, seq![1usize] + x.shape, x.dtype, seq![0i64], x)
}

/// `x` without its axes of length one.
pub open spec fn squeezed(x: Tensor) -> Option<Tensor> {
    unary(Op::Squeeze, without_ones(x.shape), x.dtype, Seq::empty(), x)
}

/// The lengths other than one.
pub open spec fn without_ones(s: Seq<usize>) -> Seq<usize> {
    s.filter(|d: usize| d != 1)
}

/// Axes of length one do not change the element count.
pub proof fn lemma_without_ones(s: Seq<usize>)
    ensures
        elements(without_ones(s)) == elements(s),
        fits(s) ==> fits(without_ones(s)),
    decreases s.len(),
{
    reveal(Seq::filter);
    if s.len() > 0 {
        lemma_without_ones(s.drop_last());
        let f = without_ones(s.drop_last());
        if s.last() != 1 {
            assert(without_ones(s) =~= f.push(s.last()));
            assert(f.push(s.last()).drop_last() =~= f);
        }
    }
    if fits(s) {
        lemma_lengths_kept(s);
    }
}

proof fn lemma_lengths_kept(s: Seq<usize>)
    requires
        forall|i: int| 0 <= i < s.len() ==> s[i] <= MAX_DIM,
    ensures
        forall|i: int| 0 <= i < without_ones(s).len() ==> without_ones(s)[i] <= MAX_DIM,
    decreases s.len(),
{
    reveal(Seq::filter);
    if s.len() > 0 {
        let f = without_ones(s.drop_last());
        lemma_lengths_kept(s.drop_last());
        if s.last() != 1 {
            assert(without_ones(s) =~= f.push(s.last()));
        } else {
            assert(without_ones(s) =~= f);
        }
    }
}

impl Array {
    /// This array with a new last axis of length one.
    pub fn expand_last(&self) -> (r: Result<Array>)
        ensures
            r is Ok,
            outcome(r) == with_last_axis(self@),
    {
        let mut shape: Vec<usize> = self.shape();
        shape.push(1);
        let mut params: Vec<i64> = Vec::new();
        params.push(-1);
        proof {
            assert(self@.shape.push(1).drop_last() =~= self@.shape);
            assert(params@ =~= seq![-1i64]);
        }
        Array::build_unary(Op::ExpandDims, shape, self.dtype(), params, self)
    }

    /// This array with a new first axis of length one.
    pub fn expand_first(&self) -> (r: Result<Array>)
        ensures
            r is Ok,
            outcome(r) == with_first_axis(self@),
    {
        let mut shape: Vec<usize> = self.shape();
        shape.insert(0, 1);
        let mut params: Vec<i64> = Vec::new();
        params.push(0);
        proof {
            assert(shape@ =~= seq![1usize] + self@.shape);
            lemma_elements_concat(seq![1usize], self@.shape);
            lemma_elements_one(1);
            assert(params@ =~= seq![0i64]);
        }
        Array::build_unary(Op::ExpandDims, shape, self.dtype(), params, self)
    }

    /// This array without its axes of length one.
    pub fn squeeze(&self) -> (r: Result<Array>)
        ensures
            r is Ok,
            outcome(r) == squeezed(self@),
    {
        let s = self.dims();
        let mut shape: Vec<usize> = Vec::new();
        let mut i: usize = 0;
        assert(s@.take(0) =~= Seq::<usize>::empty());
        proof {
            reveal(Seq::filter);
        }
        while i < s.len()
            invariant
                0 <= i <= s.len(),
                shape@ == without_ones(s@.take(i as int)),
            decreases s.len() - i,
        {
            proof {
                reveal(Seq::filter);
                assert(s@.take(i + 1).drop_last() =~= s@.take(i as int));
            }
            if s[i] != 1 {
                shape.push(s[i]);
            }
            i = i + 1;
        }
        assert(s@.take(s.len() as int) =~= s@);
        proof {
            lemma_without_ones(self@.shape);
        }
        Array::build_unary(Op::Squeeze, shape, self.dtype(), Vec::new(), self)
    }
}

/// The one-axis array `x` followed by `count` zeros.
pub open spec fn padded(x: Tensor, count: nat) -> Option<Tensor> {
    if x.shape.len() == 1 && x.shape[0] + count <= MAX_DIM {
        unary(
            Op::Pad,
            seq![(x.shape[0] + count) as usize],
            x.dtype,
            seq![0i64, count as i64],
            x,
        )
    } else {
        None
    }
}

/// The one-axis array `a` followed by `count` zeros.
pub fn pad_end(a: &Array, count: usize) -> (r: Result<Array>)
    ensures
        outcome(r) == padded(a@, count as nat),
        r is Err ==> r->Err_0 is Backend,
{
    let s = a.dims();
    if s.len() != 1 {
        return Err(backend("pad: expected a one-axis array"));
    }
    if count > MAX_DIM || s[0] > MAX_DIM - count {
        return Err(backend("pad: the length is out of range"));
    }
    let mut shape: Vec<usize> = Vec::new();
    shape.push(s[0] + count);
    let mut params: Vec<i64> = Vec::new();
    params.push(0);
    params.push(count as i64);
    proof {
        assert(shape@ =~= seq![(a@.shape[0] + count) as usize]);
        assert(params@ =~= seq![0i64, count as i64]);
        lemma_elements_one((a@.shape[0] + count) as usize);
    }
    Array::build_unary(Op::Pad, shape, a.dtype(), params, a)
}

/// The total length of one-axis arrays.
pub open spec fn total_len(args: Seq<Tensor>) -> nat
    decreases args.len(),
{
    if args.len() == 0 {
        0
    } else {
        total_len(args.drop_last()) + args.last().shape[0] as nat
    }
}

/// The element type that all of `args` have in common.
pub open spec fn common_dtype(args: Seq<Tensor>) -> Dtype
    decreases args.len(),
{
    if args.len() <= 1 {
        args[0].dtype
    } else {
        promoted(common_dtype(args.drop_last()), args.last().dtype)
    }
}

/// One-axis arrays one behind another.
pub open spec fn concatenated(args: Seq<Tensor>) -> Option<Tensor> {
    if args.len() > 0 && (forall|i: int|
        0 <= i < args.len() ==> (#[trigger] args[i]).shape.len() == 1) && total_len(args)
        <= MAX_DIM {
        made(
            Op::Concatenate,
            seq![total_len(args) as usize],
            common_dtype(args),
            seq![0i64],
            Seq::empty(),
            args,
        )
    } else {
        None
    }
}

proof fn lemma_total_len_prefix(args: Seq<Tensor>, n: int)
    requires
        0 <= n <= args.len(),
    ensures
        total_len(args.take(n)) <= total_len(args),
    decreases args.len(),
{
    if n < args.len() {
        lemma_total_len_prefix(args.drop_last(), n);
        assert(args.drop_last().take(n) =~= args.take(n));
    } else {
        assert(args.take(n) =~= args);
    }
}

/// One-axis arrays one behind another.
pub fn concatenate(args: Vec<Array>) -> (r: Result<Array>)
    ensures
        outcome(r) == concatenated(views(args@)),
        r is Err ==> r->Err_0 is Backend,
{
    if args.len() == 0 {
        return Err(backend("concatenate: nothing to concatenate"));
    }
    let ghost t = views(args@);
    let mut total: usize = 0;
    let mut dtype: Dtype = args[0].dtype();
    let mut i: usize = 0;
    while i < args.len()
        invariant
            0 <= i <= args.len(),
            args.len() > 0,
            t == views(args@),
            total == total_len(t.take(i as int)),
            total <= MAX_DIM,
            i == 0 ==> dtype == t[0].dtype,
            i > 0 ==> dtype == common_dtype(t.take(i as int)),
            forall|j: int| 0 <= j < i ==> (#[trigger] t[j]).shape.len() == 1,
        decreases args.len() - i,
    {
        let s = args[i].dims();
        assert(t[i as int] == args[i as int]@);
        if s.len() != 1 {
            return Err(backend("concatenate: expected one-axis arrays"));
        }
        assert(t.take(i + 1).drop_last() =~= t.take(i as int));
        if s[0] > MAX_DIM - total {
            proof {
                lemma_total_len_prefix(t, i + 1);
            }
            return Err(backend("concatenate: the length is out of range"));
        }
        total = total + s[0];
        if i > 0 {
            dtype = promote(dtype, args[i].dtype());
        }
        i = i + 1;
    }
    assert(t.take(args.len() as int) =~= t);
    let mut shape: Vec<usize> = Vec::new();
    shape.push(total);
    let mut params: Vec<i64> = Vec::new();
    params.push(0);
    assert(shape@ =~= seq![total]);
    assert(params@ =~= seq![0i64]);
    Array::build(Op::Concatenate, shape, dtype, params, Vec::new(), args)
}

/// How far from the offset a view with the given strides puts the element at
/// the position `idx`.
pub open spec fn reach(idx: Seq<int>, strides: Seq<i64>) -> int
    decreases idx.len(),
{
    if idx.len() == 0 {
        0
    } else {
        reach(idx.drop_last(), strides.drop_last()) + idx.last() * strides.last()
    }
}

/// Whether `idx` is a position in an array of the given shape.
pub open spec fn is_position(idx: Seq<int>, shape: Seq<usize>) -> bool {
    &&& idx.len() == shape.len()
    &&& forall|k: int| 0 <= k < shape.len() ==> 0 <= #[trigger] idx[k] < shape[k]
}

/// Whether every element of a view lies among the `count` elements viewed.
pub open spec fn view_in_bounds(
    count: nat,
    shape: Seq<usize>,
    strides: Seq<i64>,
    offset: nat,
) -> bool {
    forall|idx: Seq<int>| #[trigger]
        is_position(idx, shape) ==> 0 <= offset + reach(idx, strides) < count
}

/// The view of the elements of `x` by strides.
pub open spec fn strided(
    x: Tensor,
    shape: Seq<usize>,
    strides: Seq<i64>,
    offset: usize,
) -> Option<Tensor> {
    made(Op::AsStrided, shape, x.dtype, strides, seq![offset as u64], seq![x])
}

/// The view of the elements of `a` by strides. The caller answers for it that
/// every element of the view is one of `a`'s.
pub fn as_strided(a: &Array, dims: &[i32], strides: &[i64], offset: usize) -> (r: Result<Array>)
    requires
        dims_valid(dims@) && dims@.len() == strides@.len() ==> view_in_bounds(
            elements(a@.shape),
            dims_view(dims@),
            strides@,
            offset as nat,
        ),
    ensures
        dims_valid(dims@) && dims@.len() == strides@.len() ==> outcome(r) == strided(
            a@,
            dims_view(dims@),
            strides@,
            offset,
        ),
        match r {
            Ok(_) => dims_valid(dims@) && dims@.len() == strides@.len(),
            Err(Error::ShapeMismatch { .. }) => !dims_valid(dims@) || dims@.len()
                != strides@.len(),
            Err(e) => e is Backend,
        },
{
    if dims.len() != strides.len() {
        return Err(shape_mismatch("as_strided: one stride is needed for each axis"));
    }
    match dims_to_shape(dims) {
        Err(e) => Err(e),
        Ok(shape) => {
            let mut bits: Vec<u64> = Vec::new();
            bits.push(offset as u64);
            let mut args: Vec<Array> = Vec::new();
            args.push(a.dup());
            assert(views(args@) =~= seq![a@]);
            assert(bits@ =~= seq![offset as u64]);
            Array::build(Op::AsStrided, shape, a.dtype(), slice_copy(strides), bits, args)
        },
    }
}

} // verus!
