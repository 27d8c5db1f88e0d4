//! Lazy arrays.
//!
//! An [`Array`] names a computation that has not been carried out: its shape
//! and element type are known, and it holds the operation that makes it with
//! that operation's parameters and operands. Operands are shared, so a copy
//! costs as much as its shape. The library decides shapes and builds
//! computations; a backend carries them out.
use std::sync::Arc;
use vstd::prelude::*;

use crate::dtype::Dtype;
use crate::embeddings::pool::PoolingStrategy;
use crate::error::{backend, shape_mismatch, Error, Result};
use crate::ops::fft::{FftKind, FftNorm};
use crate::ops::quantized::{QuantMode, QuantPart};
use crate::scalar::F32;
use crate::shape::{checked_elements, elements, fits, shape_fits};

verus! {

/// A window function sampled at `n` points, the first and the last included.
#[derive(Clone, Copy, Debug, PartialEq, Eq, Structural)]
pub enum WindowKind {
    /// `0.5 * (1 - cos(2 pi k / (n - 1)))`
    Hann,
    /// `0.54 - 0.46 * cos(2 pi k / (n - 1))`
    Hamming,
    /// `0.42 - 0.5 * cos(2 pi k / (n - 1)) + 0.08 * cos(4 pi k / (n - 1))`
    Blackman,
    /// `1 - 2 * |k - (n - 1) / 2| / (n - 1)`
    Bartlett,
}

/// What makes an array.
#[derive(Clone, Copy, Debug, PartialEq, Eq, Structural)]
pub enum Op {
    /// Given elements; `bits` holds one pattern for each.
    Data,
    /// The same element everywhere; `bits` holds its pattern.
    Full,
    /// A sampled window function.
    Window(WindowKind),
    /// Triangular mel filters; `bits` holds the sample rate and the patterns
    /// of the lowest and the highest frequency.
    MelFilterBank,
    /// The same elements in row-major order under another shape.
    Reshape,
    /// Repetition along the axes that the operand lacks or has once.
    BroadcastTo,
    /// Axes in the order `params`.
    Transpose,
    /// New axes of length one at `params`.
    ExpandDims,
    /// Without the axes of length one at `params`.
    Squeeze,
    /// Elements `start`, `start + stride`, .. before `stop` of the first axis;
    /// `params` holds `start`, `stop` and `stride`.
    Slice,
    /// Operands one behind another along the axis `params[0]`.
    Concatenate,
    /// Zeros before and after the first axis; `params` holds both counts.
    Pad,
    /// A view by strides; `params` holds one stride for each axis and `bits`
    /// the offset.
    AsStrided,
    /// A Fourier transform; `params` holds the length and the axis.
    Fft(FftKind, FftNorm),
    /// Axes turned round; `params` holds the axes and then how far each is
    /// turned.
    Roll,
    /// Magnitudes.
    Abs,
    /// Squares.
    Square,
    /// Natural logarithms.
    Log,
    /// Conversion to the element type of the result.
    Astype,
    /// Euclidean norms along the axis `params[0]`.
    Norm,
    /// Sums over the axes `params`.
    Sum,
    /// Least elements over the axes `params`.
    Min,
    /// Greatest elements over the axes `params`.
    Max,
    /// The position of the greatest element.
    ArgMax,
    Add,
    Subtract,
    Multiply,
    Divide,
    Maximum,
    Greater,
    Equal,
    Matmul,
    /// The second operand where the first is true, else the third.
    Select,
    /// The first operand with each element of the third added at the position
    /// the second gives for it.
    ScatterAdd,
    /// One part of a quantized matrix; `params` holds the group size and the
    /// number of bits.
    Quantize(QuantMode, QuantPart),
    /// A matrix out of its quantized parts.
    Dequantize(QuantMode),
    /// The product with a transposed quantized matrix.
    QuantizedMatmul(QuantMode),
    /// One vector for each sequence: its first operand pooled over the places
    /// that the second marks.
    Pool(PoolingStrategy),
    /// Each row brought to mean zero and variance one.
    LayerNorm,
    /// Each row divided by its root mean square.
    RmsNorm,
    /// The first `params[0]` columns.
    TakeColumns,
    /// Each row divided by its Euclidean norm.
    NormalizeRows,
}

/// One operation with its parameters and operands.
#[derive(Debug)]
pub struct Node {
    op: Op,
    params: Vec<i64>,
    bits: Vec<u64>,
    args: Vec<Array>,
}

/// A lazy array.
#[derive(Debug)]
pub struct Array {
    shape: Vec<usize>,
    dtype: Dtype,
    node: Arc<Node>,
}

/// What an array stands for: its shape, its element type and the tree of
/// operations that makes it.
#[verifier::ext_equal]
pub ghost struct Tensor {
    pub shape: Seq<usize>,
    pub dtype: Dtype,
    pub op: Op,
    pub params: Seq<i64>,
    pub bits: Seq<u64>,
    pub args: Seq<Tensor>,
}

closed spec fn array_view(a: Array) -> Tensor
    decreases a,
{
    Tensor {
        shape: a.shape@,
        dtype: a.dtype,
        op: a.node.op,
        params: a.node.params@,
        bits: a.node.bits@,
        args: Seq::new(
            a.node.args@.len(),
            |i: int|
                if 0 <= i < a.node.args@.len() {
                    array_view(a.node.args@[i])
                } else {
                    arbitrary()
                },
        ),
    }
}

impl View for Array {
    type V = Tensor;

    closed spec fn view(&self) -> Tensor {
        array_view(*self)
    }
}

/// What each array of a list stands for.
pub open spec fn views(args: Seq<Array>) -> Seq<Tensor> {
    args.map_values(|a: Array| a@)
}

/// What the outcome of an operation stands for, if it succeeded.
pub open spec fn outcome(r: Result<Array>) -> Option<Tensor> {
    match r {
        Ok(a) => Some(a@),
        Err(_) => None,
    }
}

/// What an optional array stands for.
pub open spec fn view_opt(a: Option<Array>) -> Option<Tensor> {
    match a {
        Some(x) => Some(x@),
        None => None,
    }
}

/// The outcome of a second operation on the outcome of a first.
pub open spec fn bind(x: Option<Tensor>, f: spec_fn(Tensor) -> Option<Tensor>) -> Option<Tensor> {
    match x {
        Some(t) => f(t),
        None => None,
    }
}

/// The tensor that `op` makes, where its shape can be named.
pub open spec fn made(
    op: Op,
    shape: Seq<usize>,
    dtype: Dtype,
    params: Seq<i64>,
    bits: Seq<u64>,
    args: Seq<Tensor>,
) -> Option<Tensor> {
    if fits(shape) {
        Some(Tensor { shape, dtype, op, params, bits, args })
    } else {
        None
    }
}

/// `op` without operands.
pub open spec fn leaf(op: Op, shape: Seq<usize>, dtype: Dtype, bits: Seq<u64>) -> Option<Tensor> {
    made(op, shape, dtype, Seq::empty(), bits, Seq::empty())
}

/// `op` on one operand.
pub open spec fn unary(
    op: Op,
    shape: Seq<usize>,
    dtype: Dtype,
    params: Seq<i64>,
    x: Tensor,
) -> Option<Tensor> {
    made(op, shape, dtype, params, Seq::empty(), seq![x])
}

/// `op` on two operands.
pub open spec fn binary(
    op: Op,
    shape: Seq<usize>,
    dtype: Dtype,
    params: Seq<i64>,
    x: Tensor,
    y: Tensor,
) -> Option<Tensor> {
    made(op, shape, dtype, params, Seq::empty(), seq![x, y])
}

/// The array with the same element everywhere.
pub open spec fn filled(shape: Seq<usize>, value: F32) -> Option<Tensor> {
    leaf(Op::Full, shape, Dtype::F32, seq![value.bits as u64])
}

/// The scalar `value`.
pub open spec fn scalar(value: F32) -> Tensor {
    Tensor {
        shape: Seq::empty(),
        dtype: Dtype::F32,
        op: Op::Full,
        params: Seq::empty(),
        bits: seq![value.bits as u64],
        args: Seq::empty(),
    }
}

impl Array {
    #[verifier::type_invariant]
    spec fn type_inv(self) -> bool {
        fits(self.shape@)
    }

    /// The array that `op` makes, refused where its shape cannot be named.
    pub(crate) fn build(
        op: Op,
        shape: Vec<usize>,
        dtype: Dtype,
        params: Vec<i64>,
        bits: Vec<u64>,
        args: Vec<Array>,
    ) -> (r: Result<Array>)
        ensures
            outcome(r) == made(op, shape@, dtype, params@, bits@, views(args@)),
            r is Err ==> r->Err_0 is Backend,
    {
        if !shape_fits(&shape) {
            return Err(backend("array: the shape is out of range"));
        }
        let a = Array { shape, dtype, node: Arc::new(Node { op, params, bits, args }) };
        assert(a@.args =~= views(args@));
        Ok(a)
    }

    /// A second handle on the same array.
    pub(crate) fn dup(&self) -> (r: Array)
        ensures
            r@ == self@,
    {
        proof {
            use_type_invariant(self);
        }
        Array { shape: self.shape.clone(), dtype: self.dtype, node: self.node.clone() }
    }

    /// `op` on one operand.
    pub(crate) fn build_unary(
        op: Op,
        shape: Vec<usize>,
        dtype: Dtype,
        params: Vec<i64>,
        x: &Array,
    ) -> (r: Result<Array>)
        ensures
            outcome(r) == unary(op, shape@, dtype, params@, x@),
            r is Err ==> r->Err_0 is Backend,
    {
        let mut args: Vec<Array> = Vec::new();
        args.push(x.dup());
        assert(views(args@) =~= seq![x@]);
        Array::build(op, shape, dtype, params, Vec::new(), args)
    }

    /// `op` on two operands.
    pub(crate) fn build_binary(
        op: Op,
        shape: Vec<usize>,
        dtype: Dtype,
        params: Vec<i64>,
        x: &Array,
        y: &Array,
    ) -> (r: Result<Array>)
        ensures
            outcome(r) == binary(op, shape@, dtype, params@, x@, y@),
            r is Err ==> r->Err_0 is Backend,
    {
        let mut args: Vec<Array> = Vec::new();
        args.push(x.dup());
        args.push(y.dup());
        assert(views(args@) =~= seq![x@, y@]);
        Array::build(op, shape, dtype, params, Vec::new(), args)
    }

    /// `op` without operands.
    pub(crate) fn build_leaf(op: Op, shape: Vec<usize>, dtype: Dtype, bits: Vec<u64>) -> (r:
        Result<Array>)
        ensures
            outcome(r) == leaf(op, shape@, dtype, bits@),
            r is Err ==> r->Err_0 is Backend,
    {
        let args: Vec<Array> = Vec::new();
        assert(views(args@) =~= Seq::<Tensor>::empty());
        Array::build(op, shape, dtype, Vec::new(), bits, args)
    }

    /// The array of the given elements, one bit pattern for each in row-major
    /// order. The count must be the shape's.
    pub fn from_slice(data: &[u64], shape: &[usize], dtype: Dtype) -> (r: Result<Array>)
        ensures
            match r {
                Ok(a) => data@.len() == elements(shape@) && leaf(Op::Data, shape@, dtype, data@)
                    == Some(a@),
                Err(Error::ShapeMismatch { .. }) => fits(shape@) && data@.len() != elements(shape@),
                Err(e) => e is Backend && !fits(shape@),
            },
    {
        if !shape_fits(shape) {
            return Err(backend("from_slice: the shape is out of range"));
        }
        match checked_elements(shape) {
            Some(n) if n == data.len() => {},
            _ => {
                return Err(shape_mismatch("from_slice: element count does not match the shape"));
            },
        }
        let s: Vec<usize> = slice_copy(shape);
        let b: Vec<u64> = slice_copy(data);
        Array::build_leaf(Op::Data, s, dtype, b)
    }

    /// The array of shape `shape` with `value` everywhere.
    pub fn full(shape: &[usize], value: F32) -> (r: Result<Array>)
        ensures
            outcome(r) == filled(shape@, value),
            r is Err ==> r->Err_0 is Backend,
    {
        let mut bits: Vec<u64> = Vec::new();
        bits.push(value.bits as u64);
        assert(bits@ =~= seq![value.bits as u64]);
        Array::build_leaf(Op::Full, slice_copy(shape), Dtype::F32, bits)
    }

    /// The scalar `value`.
    pub fn scalar(value: F32) -> (r: Array)
        ensures
            r@ == scalar(value),
    {
        let mut bits: Vec<u64> = Vec::new();
        bits.push(value.bits as u64);
        let shape: Vec<usize> = Vec::new();
        let args: Vec<Array> = Vec::new();
        let a = Array {
            shape,
            dtype: Dtype::F32,
            node: Arc::new(Node { op: Op::Full, params: Vec::new(), bits, args }),
        };
        assert(a@.args =~= Seq::<Tensor>::empty());
        assert(a@.bits =~= seq![value.bits as u64]);
        a
    }

    /// The array of shape `shape` with zero everywhere.
    pub fn zeros(shape: &[usize]) -> (r: Result<Array>)
        ensures
            outcome(r) == filled(shape@, F32::zero()),
            r is Err ==> r->Err_0 is Backend,
    {
        Array::full(shape, F32::zero())
    }

    /// The array of shape `shape` with one everywhere.
    pub fn ones(shape: &[usize]) -> (r: Result<Array>)
        ensures
            outcome(r) == filled(shape@, F32::one()),
            r is Err ==> r->Err_0 is Backend,
    {
        Array::full(shape, F32::one())
    }

    /// A second handle on the same array; no element is copied.
    pub fn try_clone(&self) -> (r: Result<Array>)
        ensures
            r is Ok,
            r->Ok_0@ == self@,
    {
        Ok(self.dup())
    }

    /// The lengths of the axes.
    pub fn shape(&self) -> (s: Vec<usize>)
        ensures
            s@ == self@.shape,
            fits(self@.shape),
    {
        proof {
            use_type_invariant(self);
        }
        self.shape.clone()
    }

    /// The lengths of the axes, borrowed.
    pub fn dims(&self) -> (s: &[usize])
        ensures
            s@ == self@.shape,
            fits(self@.shape),
    {
        proof {
            use_type_invariant(self);
        }
        self.shape.as_slice()
    }

    /// The number of axes.
    pub fn ndim(&self) -> (n: usize)
        ensures
            n == self@.shape.len(),
    {
        self.shape.len()
    }

    /// The number of elements.
    pub fn size(&self) -> (n: usize)
        ensures
            n == elements(self@.shape),
    {
        proof {
            use_type_invariant(self);
        }
        match checked_elements(&self.shape) {
            Some(n) => n,
            None => 0,
        }
    }

    /// The element type.
    pub fn dtype(&self) -> (d: Dtype)
        ensures
            d == self@.dtype,
    {
        self.dtype
    }

    /// The operation that makes the array.
    pub fn op(&self) -> (op: Op)
        ensures
            op == self@.op,
    {
        self.node.op
    }

    /// The integer parameters of the operation.
    pub fn params(&self) -> (p: &[i64])
        ensures
            p@ == self@.params,
    {
        self.node.params.as_slice()
    }

    /// The bit patterns that the operation holds.
    pub fn bits(&self) -> (b: &[u64])
        ensures
            b@ == self@.bits,
    {
        self.node.bits.as_slice()
    }

    /// The operands.
    pub fn args(&self) -> (a: &[Array])
        ensures
            views(a@) == self@.args,
    {
        assert(views(self.node.args@) =~= self@.args);
        self.node.args.as_slice()
    }
}

/// A copy of a slice of plain values.
pub(crate) fn slice_copy<T: Copy>(s: &[T]) -> (v: Vec<T>)
    ensures
        v@ == s@,
{
    let mut v: Vec<T> = Vec::new();
    let mut i: usize = 0;
    while i < s.len()
        invariant
            0 <= i <= s.len(),
            v@ == s@.take(i as int),
        decreases s.len() - i,
    {
        v.push(s[i]);
        assert(s@.take(i + 1) =~= s@.take(i as int).push(s@[i as int]));
        i = i + 1;
    }
    assert(s@.take(s.len() as int) =~= s@);
    v
}

} // verus!
