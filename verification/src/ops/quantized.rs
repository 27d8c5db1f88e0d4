//! Quantized matrices: each row is cut into groups of elements that share a
//! scale, and the elements are packed into 32-bit words.
use vstd::prelude::*;

use crate::array::{made, outcome, unary, view_opt, views, Array, Op, Tensor};
use crate::dtype::{promote, promoted, Dtype, Kind};
use crate::error::{backend, Result};
use crate::ops::linalg::{multiplicable, product_dims, product_shape};
use crate::shape::{elements, fits, MAX_DIM};
use crate::text::same_text;

verus! {

/// A quantization scheme.
#[derive(Clone, Copy, Debug, PartialEq, Eq, Structural)]
pub enum QuantMode {
    /// A scale and an offset for each group.
    Affine,
    Mxfp4,
    Mxfp8,
    Nvfp4,
}

/// A part of a quantized matrix.
#[derive(Clone, Copy, Debug, PartialEq, Eq, Structural)]
pub enum QuantPart {
    /// The packed words.
    Weight,
    /// One scale for each group.
    Scales,
    /// One offset for each group.
    Biases,
}

impl QuantMode {
    /// The name of the scheme.
    pub open spec fn spec_name(self) -> &'static str {
        match self {
            QuantMode::Affine => "affine",
            QuantMode::Mxfp4 => "mxfp4",
            QuantMode::Mxfp8 => "mxfp8",
            QuantMode::Nvfp4 => "nvfp4",
        }
    }

    /// The name of the scheme.
    #[verifier::when_used_as_spec(spec_name)]
    pub fn name(self) -> (s: &'static str)
        ensures
            s == self.spec_name(),
    {
        match self {
            QuantMode::Affine => "affine",
            QuantMode::Mxfp4 => "mxfp4",
            QuantMode::Mxfp8 => "mxfp8",
            QuantMode::Nvfp4 => "nvfp4",
        }
    }

    /// The scheme of the given name.
    pub fn from_name(name: &str) -> (r: Option<QuantMode>)
        ensures
            match r {
                Some(m) => name@ == m.name()@,
                None => forall|m: QuantMode| name@ != (#[trigger] m.name())@,
            },
    {
        if same_text(name, "affine") {
            Some(QuantMode::Affine)
        } else if same_text(name, "mxfp4") {
            Some(QuantMode::Mxfp4)
        } else if same_text(name, "mxfp8") {
            Some(QuantMode::Mxfp8)
        } else if same_text(name, "nvfp4") {
            Some(QuantMode::Nvfp4)
        } else {
            None
        }
    }

    /// Whether groups carry an offset besides the scale.
    pub open spec fn spec_has_biases(self) -> bool {
        self == QuantMode::Affine
    }

    /// Whether groups carry an offset besides the scale.
    #[verifier::when_used_as_spec(spec_has_biases)]
    pub fn has_biases(self) -> (r: bool)
        ensures
            r == self.spec_has_biases(),
    {
        match self {
            QuantMode::Affine => true,
            _ => false,
        }
    }
}

/// The scheme of a name is the scheme that has it.
pub proof fn names_differ(a: QuantMode, b: QuantMode)
    ensures
        a.name()@ == b.name()@ ==> a == b,
{
    reveal_strlit("affine");
    reveal_strlit("mxfp4");
    reveal_strlit("mxfp8");
    reveal_strlit("nvfp4");
    let (x, y) = (a.name()@, b.name()@);
    if x == y {
        assert(x.len() == y.len());
        assert(x[0] == y[0]);
        assert(x[4] == y[4]);
    }
}

/// Whether a scheme knows the group size and the number of bits.
pub open spec fn known_layout(mode: QuantMode, group_size: int, bits: int) -> bool {
    match mode {
        QuantMode::Affine => (group_size == 32 || group_size == 64 || group_size == 128) && (bits
            == 2 || bits == 3 || bits == 4 || bits == 5 || bits == 6 || bits == 8),
        QuantMode::Mxfp4 => group_size == 32 && bits == 4,
        QuantMode::Mxfp8 => group_size == 32 && bits == 8,
        QuantMode::Nvfp4 => group_size == 16 && bits == 4,
    }
}

fn layout_known(mode: QuantMode, group_size: i32, bits: i32) -> (r: bool)
    ensures
        r == known_layout(mode, group_size as int, bits as int),
{
    match mode {
        QuantMode::Affine => (group_size == 32 || group_size == 64 || group_size == 128) && (bits
            == 2 || bits == 3 || bits == 4 || bits == 5 || bits == 6 || bits == 8),
        QuantMode::Mxfp4 => group_size == 32 && bits == 4,
        QuantMode::Mxfp8 => group_size == 32 && bits == 8,
        QuantMode::Nvfp4 => group_size == 16 && bits == 4,
    }
}

/// `shape` with the last axis at length `n`.
pub open spec fn with_last(shape: Seq<usize>, n: int) -> Seq<usize> {
    shape.update(shape.len() - 1, n as usize)
}

/// How many packed words hold `n` elements.
pub open spec fn packed_len(n: int, bits: int) -> int {
    n * bits / 32
}

/// How many elements `n` packed words hold.
pub open spec fn unpacked_len(n: int, bits: int) -> int {
    n * 32 / bits
}

/// Whether `x` can be quantized: rows of whole groups of real numbers.
pub open spec fn quantizable(x: Tensor, mode: QuantMode, group_size: int, bits: int) -> bool {
    &&& known_layout(mode, group_size, bits)
    &&& x.shape.len() >= 2
    &&& x.dtype.kind() == Kind::Float
    &&& x.shape.last() as int % group_size == 0
}

/// One part of the quantized `x`.
pub open spec fn quantized_part(
    x: Tensor,
    mode: QuantMode,
    part: QuantPart,
    group_size: i32,
    bits: i32,
) -> Option<Tensor> {
    if quantizable(x, mode, group_size as int, bits as int) {
        unary(
            Op::Quantize(mode, part),
            if part == QuantPart::Weight {
                with_last(x.shape, packed_len(x.shape.last() as int, bits as int))
            } else {
                with_last(x.shape, x.shape.last() as int / group_size as int)
            },
            if part == QuantPart::Weight {
                Dtype::U32
            } else if mode == QuantMode::Affine {
                x.dtype
            } else {
                Dtype::U8
            },
            seq![group_size as i64, bits as i64],
            x,
        )
    } else {
        None
    }
}

fn layout_params(group_size: i32, bits: i32) -> (v: Vec<i64>)
    ensures
        v@ == seq![group_size as i64, bits as i64],
{
    let mut v: Vec<i64> = Vec::new();
    v.push(group_size as i64);
    v.push(bits as i64);
    assert(v@ =~= seq![group_size as i64, bits as i64]);
    v
}

fn quantize_part(x: &Array, mode: QuantMode, part: QuantPart, group_size: i32, bits: i32) -> (r:
    Result<Array>)
    ensures
        outcome(r) == quantized_part(x@, mode, part, group_size, bits),
        r is Err ==> r->Err_0 is Backend,
{
    if !layout_known(mode, group_size, bits) {
        return Err(backend("quantize: the scheme has no such group size and number of bits"));
    }
    let mut shape: Vec<usize> = x.shape();
    if shape.len() < 2 {
        return Err(backend("quantize: expected a matrix"));
    }
    if x.dtype().kind() != Kind::Float {
        return Err(backend("quantize: expected real numbers"));
    }
    let last: usize = shape.len() - 1;
    let n: u64 = shape[last] as u64;
    if n % (group_size as u64) != 0 {
        return Err(backend("quantize: a row is no whole number of groups"));
    }
    let dtype = match part {
        QuantPart::Weight => Dtype::U32,
        _ => if mode.has_biases() {
            x.dtype()
        } else {
            Dtype::U8
        },
    };
    match part {
        QuantPart::Weight => {
            assert(n * bits <= 8 * n) by (nonlinear_arith)
                requires
                    0 <= bits <= 8,
                    n >= 0,
            ;
            assert(n * bits >= 0) by (nonlinear_arith)
                requires
                    0 <= bits,
                    n >= 0,
            ;
            shape.set(last, (n * (bits as u64) / 32) as usize);
        },
        _ => {
            assert(0 <= n / (group_size as u64) <= n) by (nonlinear_arith)
                requires
                    group_size >= 1,
                    n >= 0,
            ;
            shape.set(last, (n / (group_size as u64)) as usize);
        },
    }
    Array::build_unary(Op::Quantize(mode, part), shape, dtype, layout_params(group_size, bits), x)
}

/// The parts of the quantized matrix `x`: the packed words, the scales, and
/// the offsets where the scheme has them.
pub open spec fn quantized_parts(x: Tensor, mode: QuantMode, group_size: i32, bits: i32) -> Option<
    (Tensor, Tensor, Option<Tensor>),
> {
    let w = quantized_part(x, mode, QuantPart::Weight, group_size, bits);
    let s = quantized_part(x, mode, QuantPart::Scales, group_size, bits);
    let b = quantized_part(x, mode, QuantPart::Biases, group_size, bits);
    if w is None || s is None || (mode.has_biases() && b is None) {
        None
    } else if mode.has_biases() {
        Some((w->0, s->0, Some(b->0)))
    } else {
        Some((w->0, s->0, None))
    }
}

/// What the parts stand for, if there are any.
pub open spec fn parts_outcome(r: Result<(Array, Array, Option<Array>)>) -> Option<
    (Tensor, Tensor, Option<Tensor>),
> {
    match r {
        Ok((w, s, b)) => Some((w@, s@, view_opt(b))),
        Err(_) => None,
    }
}

/// The parts of the quantized matrix `x`.
pub fn quantize_mode(x: &Array, group_size: i32, bits: i32, mode: QuantMode) -> (r: Result<
    (Array, Array, Option<Array>),
>)
    ensures
        parts_outcome(r) == quantized_parts(x@, mode, group_size, bits),
        r is Err ==> r->Err_0 is Backend,
{
    let w = match quantize_part(x, mode, QuantPart::Weight, group_size, bits) {
        Ok(w) => w,
        Err(e) => {
            return Err(e);
        },
    };
    let s = match quantize_part(x, mode, QuantPart::Scales, group_size, bits) {
        Ok(s) => s,
        Err(e) => {
            return Err(e);
        },
    };
    if mode.has_biases() {
        match quantize_part(x, mode, QuantPart::Biases, group_size, bits) {
            Ok(b) => Ok((w, s, Some(b))),
            Err(e) => Err(e),
        }
    } else {
        Ok((w, s, None))
    }
}

/// The parts of the matrix `x` quantized in the scheme of the given name.
pub fn quantize(x: &Array, group_size: i32, bits: i32, mode: &str) -> (r: Result<
    (Array, Array, Option<Array>),
>)
    ensures
        forall|m: QuantMode|
            mode@ == (#[trigger] m.name())@ ==> parts_outcome(r) == quantized_parts(
                x@,
                m,
                group_size,
                bits,
            ),
        (forall|m: QuantMode| mode@ != (#[trigger] m.name())@) ==> r is Err,
        r is Err ==> r->Err_0 is Backend,
{
    match QuantMode::from_name(mode) {
        None => Err(backend("quantize: unknown mode")),
        Some(m) => {
            assert forall|o: QuantMode| mode@ == (#[trigger] o.name())@ implies o == m by {
                names_differ(o, m);
            }
            quantize_mode(x, group_size, bits, m)
        },
    }
}

/// Whether packed words, scales and offsets of these shapes are the parts of
/// one matrix.
pub open spec fn parts_fit(
    w: Tensor,
    scales: Tensor,
    biases: Option<Tensor>,
    group_size: int,
    bits: int,
) -> bool {
    &&& group_size > 0
    &&& bits > 0
    &&& w.dtype == Dtype::U32
    &&& w.shape.len() >= 2
    &&& scales.shape == with_last(w.shape, scales.shape.last() as int)
    &&& unpacked_len(w.shape.last() as int, bits) == scales.shape.last() * group_size
    &&& match biases {
        Some(b) => b.shape == scales.shape,
        None => true,
    }
}

/// The parts as operands.
pub open spec fn part_list(w: Tensor, scales: Tensor, biases: Option<Tensor>) -> Seq<Tensor> {
    match biases {
        Some(b) => seq![w, scales, b],
        None => seq![w, scales],
    }
}

/// The matrix of the given parts.
pub open spec fn dequantized(
    w: Tensor,
    scales: Tensor,
    biases: Option<Tensor>,
    group_size: i32,
    bits: i32,
    mode: QuantMode,
) -> Option<Tensor> {
    if parts_fit(w, scales, biases, group_size as int, bits as int) && unpacked_len(
        w.shape.last() as int,
        bits as int,
    ) <= MAX_DIM {
        made(
            Op::Dequantize(mode),
            with_last(w.shape, unpacked_len(w.shape.last() as int, bits as int)),
            if mode == QuantMode::Affine {
                scales.dtype
            } else {
                Dtype::BF16
            },
            seq![group_size as i64, bits as i64],
            Seq::empty(),
            part_list(w, scales, biases),
        )
    } else {
        None
    }
}

fn same_axes(a: &[usize], b: &[usize]) -> (r: bool)
    ensures
        r == (a@ == b@),
{
    if a.len() != b.len() {
        return false;
    }
    let mut i: usize = 0;
    while i < a.len()
        invariant
            a.len() == b.len(),
            0 <= i <= a.len(),
            forall|j: int| 0 <= j < i ==> a@[j] == b@[j],
        decreases a.len() - i,
    {
        if a[i] != b[i] {
            return false;
        }
        i = i + 1;
    }
    assert(a@ =~= b@);
    true
}

/// The logical length of a row of packed words, where the parts fit together.
fn row_len(w: &Array, scales: &Array, biases: Option<&Array>, group_size: i32, bits: i32) -> (r:
    Option<u64>)
    ensures
        r is Some <==> parts_fit(
            w@,
            scales@,
            match biases {
                Some(b) => Some(b@),
                None => None,
            },
            group_size as int,
            bits as int,
        ),
        r is Some ==> r->0 == unpacked_len(w@.shape.last() as int, bits as int),
{
    if group_size <= 0 || bits <= 0 || w.dtype() != Dtype::U32 {
        return None;
    }
    let ws = w.dims();
    let ss = scales.dims();
    if ws.len() < 2 || ss.len() != ws.len() {
        return None;
    }
    let last: usize = ws.len() - 1;
    let mut expected: Vec<usize> = w.shape();
    expected.set(last, ss[last]);
    assert(expected@ =~= with_last(w@.shape, scales@.shape.last() as int));
    if !same_axes(ss, &expected) {
        return None;
    }
    let len: u64 = ws[last] as u64 * 32 / (bits as u64);
    let s: u64 = ss[last] as u64;
    assert(s * group_size <= MAX_DIM * MAX_DIM) by (nonlinear_arith)
        requires
            0 <= s <= MAX_DIM,
            0 <= group_size <= MAX_DIM,
    ;
    assert(s * group_size >= 0) by (nonlinear_arith)
        requires
            0 <= s,
            0 <= group_size,
    ;
    if len != s * (group_size as u64) {
        return None;
    }
    match biases {
        Some(b) => if same_axes(b.dims(), ss) {
            Some(len)
        } else {
            None
        },
        None => Some(len),
    }
}

fn collect_parts(w: &Array, scales: &Array, biases: Option<&Array>) -> (v: Vec<Array>)
    ensures
        views(v@) == part_list(
            w@,
            scales@,
            match biases {
                Some(b) => Some(b@),
                None => None,
            },
        ),
{
    let mut v: Vec<Array> = Vec::new();
    v.push(w.dup());
    v.push(scales.dup());
    match biases {
        Some(b) => {
            v.push(b.dup());
            assert(views(v@) =~= seq![w@, scales@, b@]);
        },
        None => {
            assert(views(v@) =~= seq![w@, scales@]);
        },
    }
    v
}

/// The matrix of the given parts.
pub fn dequantize(
    w: &Array,
    scales: &Array,
    biases: Option<&Array>,
    group_size: i32,
    bits: i32,
    mode: QuantMode,
) -> (r: Result<Array>)
    ensures
        outcome(r) == dequantized(
            w@,
            scales@,
            match biases {
                Some(b) => Some(b@),
                None => None,
            },
            group_size,
            bits,
            mode,
        ),
        r is Err ==> r->Err_0 is Backend,
{
    match row_len(w, scales, biases, group_size, bits) {
        None => Err(backend("dequantize: the parts do not fit together")),
        Some(len) => {
            if len > MAX_DIM as u64 {
                return Err(backend("dequantize: the shape is out of range"));
            }
            let mut shape: Vec<usize> = w.shape();
            let last: usize = shape.len() - 1;
            shape.set(last, len as usize);
            let dtype = if mode.has_biases() {
                scales.dtype()
            } else {
                Dtype::BF16
            };
            Array::build(
                Op::Dequantize(mode),
                shape,
                dtype,
                layout_params(group_size, bits),
                Vec::new(),
                collect_parts(w, scales, biases),
            )
        },
    }
}

/// The shape of the transposed matrix that packed words of the shape `w` hold.
pub open spec fn unpacked_transposed(w: Seq<usize>, bits: int) -> Seq<usize> {
    w.take(w.len() - 2) + seq![unpacked_len(w.last() as int, bits) as usize, w[w.len() - 2]]
}

/// The product of `x` with the transposed matrix of the given parts.
pub open spec fn quantized_product(
    x: Tensor,
    w: Tensor,
    scales: Tensor,
    biases: Option<Tensor>,
    group_size: i32,
    bits: i32,
    mode: QuantMode,
) -> Option<Tensor> {
    let right = unpacked_transposed(w.shape, bits as int);
    if parts_fit(w, scales, biases, group_size as int, bits as int) && unpacked_len(
        w.shape.last() as int,
        bits as int,
    ) <= MAX_DIM && multiplicable(x.shape, right) {
        made(
            Op::QuantizedMatmul(mode),
            product_shape(x.shape, right),
            if mode == QuantMode::Affine {
                promoted(x.dtype, scales.dtype)
            } else {
                x.dtype
            },
            seq![group_size as i64, bits as i64],
            Seq::empty(),
            seq![x] + part_list(w, scales, biases),
        )
    } else {
        None
    }
}

/// The product of `x` with the transposed matrix of the given parts; the
/// matrix itself is never made.
pub fn quantized_matmul(
    x: &Array,
    w: &Array,
    scales: &Array,
    biases: Option<&Array>,
    group_size: i32,
    bits: i32,
    mode: QuantMode,
) -> (r: Result<Array>)
    ensures
        outcome(r) == quantized_product(
            x@,
            w@,
            scales@,
            match biases {
                Some(b) => Some(b@),
                None => None,
            },
            group_size,
            bits,
            mode,
        ),
        r is Err ==> r->Err_0 is Backend,
{
    match row_len(w, scales, biases, group_size, bits) {
        None => Err(backend("quantized_matmul: the parts do not fit together")),
        Some(len) => {
            if len > MAX_DIM as u64 {
                return Err(backend("quantized_matmul: the shape is out of range"));
            }
            let mut right: Vec<usize> = w.shape();
            let n: usize = right.len();
            let rows: usize = right[n - 2];
            right.set(n - 2, len as usize);
            right.set(n - 1, rows);
            assert(right@ =~= unpacked_transposed(w@.shape, bits as int));
            match product_dims(x.dims(), &right) {
                None => Err(backend("quantized_matmul: the shapes cannot be multiplied")),
                Some(shape) => {
                    let dtype = if mode.has_biases() {
                        promote(x.dtype(), scales.dtype())
                    } else {
                        x.dtype()
                    };
                    let mut args: Vec<Array> = collect_parts(w, scales, biases);
                    let ghost parts = views(args@);
                    args.insert(0, x.dup());
                    assert(views(args@) =~= seq![x@] + parts);
                    Array::build(
                        Op::QuantizedMatmul(mode),
                        shape,
                        dtype,
                        layout_params(group_size, bits),
                        Vec::new(),
                        args,
                    )
                },
            }
        },
    }
}

/// Quantizing and dequantizing gives the shape back.
pub proof fn quantize_round_trip(x: Tensor, mode: QuantMode, group_size: i32, bits: i32)
    requires
        fits(x.shape),
        quantized_parts(x, mode, group_size, bits) is Some,
        x.shape.last() as int * bits % 32 == 0,
    ensures
        ({
            let (w, s, b) = quantized_parts(x, mode, group_size, bits)->0;
            &&& parts_fit(w, s, b, group_size as int, bits as int)
            &&& with_last(w.shape, unpacked_len(w.shape.last() as int, bits as int)) == x.shape
        }),
{
    let (w, s, b) = quantized_parts(x, mode, group_size, bits)->0;
    let n = x.shape.last() as int;
    let g = group_size as int;
    let k = bits as int;
    assert(0 <= n * k <= 8 * n) by (nonlinear_arith)
        requires
            0 <= k <= 8,
            n >= 0,
    ;
    assert(0 <= n / g <= n) by (nonlinear_arith)
        requires
            g >= 1,
            n >= 0,
    ;
    assert(n / g * g == n) by (nonlinear_arith)
        requires
            g >= 1,
            n % g == 0,
    ;
    assert(packed_len(n, k) * 32 == n * k);
    assert(n * k / k == n) by (nonlinear_arith)
        requires
            k >= 1,
    ;
    assert(with_last(w.shape, n) =~= x.shape);
    assert(s.shape =~= with_last(w.shape, s.shape.last() as int));
}

/// The layouts that a scheme knows: groups of 32, 64 or 128 numbers of two to
/// six or eight bits with offsets, and one layout each without.
pub proof fn schemes_know_their_layouts(mode: QuantMode, group_size: int, bits: int)
    ensures
        mode.has_biases() <==> mode == QuantMode::Affine,
        mode == QuantMode::Affine ==> (known_layout(mode, group_size, bits) <==> group_size % 32
            == 0 && 32 <= group_size <= 128 && group_size != 96 && 2 <= bits <= 8 && bits != 7),
        mode == QuantMode::Mxfp4 ==> (known_layout(mode, group_size, bits) <==> group_size == 32
            && bits == 4),
        mode == QuantMode::Mxfp8 ==> (known_layout(mode, group_size, bits) <==> group_size == 32
            && bits == 8),
        mode == QuantMode::Nvfp4 ==> (known_layout(mode, group_size, bits) <==> group_size == 16
            && bits == 4),
{
}

/// Packed words hold as many numbers as their bits make up.
pub proof fn words_hold_whole_numbers(n: int, bits: int)
    requires
        n >= 0,
        bits >= 1,
        n * bits % 32 == 0,
    ensures
        packed_len(n, bits) * 32 == n * bits,
        unpacked_len(packed_len(n, bits), bits) == n,
{
    assert(n * bits / bits == n) by (nonlinear_arith)
        requires
            bits >= 1,
    ;
}

} // verus!
