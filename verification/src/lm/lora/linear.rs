//! Linear layers, plain and adapted.
use vstd::prelude::*;

use crate::array::{bind, leaf, outcome, view_opt, Array, Op, Tensor};
use crate::dtype::Dtype;
use crate::error::{backend, shape_mismatch, Error, Fault, Result};
use crate::lm::lora::config::Scale;
use crate::ops::arithmetic::{divide, multiply, product, quotient, sum};
use crate::ops::linalg::{matrix_product, norm_rows, row_norms};
use crate::ops::quantized::{
    dequantize, dequantized, names_differ, quantize_mode, quantized_matmul, quantized_parts,
    quantized_product, unpacked_len, QuantMode,
};
use crate::ops::shape::{transposed, with_last_axis};
use crate::ops::unary::converted;
use crate::scalar::{nearest_bits, F32};
use crate::text::{
    concat, decimal, decimal_text, number_list, number_list_text, quoted, quoted_text,
    signed_decimal, signed_text, with_number, with_two,
};

verus! {

// ---------------------------------------------------------------------------
// The layer that is adapted
// ---------------------------------------------------------------------------

/// A linear layer.
#[derive(Debug)]
pub enum BaseLinear {
    /// With its weight, a row for each output, and perhaps a bias.
    Dense { weight: Array, bias: Option<Array> },
    /// With its weight quantized.
    Quantized {
        /// The packed words of the weight.
        weight: Array,
        /// The scales of the groups.
        scales: Array,
        /// The offsets of the groups, where the scheme has them.
        quant_biases: Option<Array>,
        /// The bias of the layer.
        bias: Option<Array>,
        group_size: i32,
        bits: i32,
        mode: QuantMode,
    },
}

/// What a linear layer stands for.
pub ghost enum LinearModel {
    Dense { weight: Tensor, bias: Option<Tensor> },
    Quantized {
        weight: Tensor,
        scales: Tensor,
        quant_biases: Option<Tensor>,
        bias: Option<Tensor>,
        group_size: i32,
        bits: i32,
        mode: QuantMode,
    },
}

impl View for BaseLinear {
    type V = LinearModel;

    open spec fn view(&self) -> LinearModel {
        match *self {
            BaseLinear::Dense { weight, bias } => LinearModel::Dense {
                weight: weight@,
                bias: view_opt(bias),
            },
            BaseLinear::Quantized {
                weight,
                scales,
                quant_biases,
                bias,
                group_size,
                bits,
                mode,
            } => LinearModel::Quantized {
                weight: weight@,
                scales: scales@,
                quant_biases: view_opt(quant_biases),
                bias: view_opt(bias),
                group_size,
                bits,
                mode,
            },
        }
    }
}

/// Whether `r` is what `m` says: the layer, or an error of that kind.
pub open spec fn is_linear(r: Result<BaseLinear>, m: core::result::Result<LinearModel, Fault>)
    -> bool {
    match (r, m) {
        (Ok(b), Ok(l)) => b@ == l,
        (Err(e), Err(f)) => e.is_fault(f),
        _ => false,
    }
}

/// Whether a bias has one number for each of `n` outputs, where there is one.
pub open spec fn bias_fits(bias: Option<Tensor>, n: usize) -> bool {
    match bias {
        Some(b) => b.shape.len() == 1 && b.shape[0] == n,
        None => true,
    }
}

/// The layer of a weight and a bias: the weight is a matrix and the bias has
/// one number for each of its rows.
pub open spec fn dense_of(weight: Tensor, bias: Option<Tensor>) -> core::result::Result<
    LinearModel,
    Fault,
> {
    if weight.shape.len() == 2 && bias_fits(bias, weight.shape[0]) {
        Ok(LinearModel::Dense { weight, bias })
    } else {
        Err(Fault::Shape)
    }
}

/// The layer of a quantized weight: offsets are there exactly where the scheme
/// has them, and group size and bits are positive.
pub open spec fn quantized_of(
    weight: Tensor,
    scales: Tensor,
    quant_biases: Option<Tensor>,
    bias: Option<Tensor>,
    group_size: i32,
    bits: i32,
    mode: QuantMode,
) -> core::result::Result<LinearModel, Fault> {
    if (quant_biases is Some) == mode.has_biases() && bits > 0 && group_size > 0 {
        Ok(
            LinearModel::Quantized {
                weight,
                scales,
                quant_biases,
                bias,
                group_size,
                bits,
                mode,
            },
        )
    } else {
        Err(Fault::Backend)
    }
}

impl LinearModel {
    /// The bias of the layer.
    pub open spec fn bias(self) -> Option<Tensor> {
        match self {
            LinearModel::Dense { bias, .. } => bias,
            LinearModel::Quantized { bias, .. } => bias,
        }
    }

    /// The weight as a matrix of numbers.
    pub open spec fn full_weight(self) -> Option<Tensor> {
        match self {
            LinearModel::Dense { weight, .. } => Some(weight),
            LinearModel::Quantized {
                weight,
                scales,
                quant_biases,
                group_size,
                bits,
                mode,
                ..
            } => dequantized(weight, scales, quant_biases, group_size, bits, mode),
        }
    }

    /// `x W^T`. A quantized weight is never unpacked for it.
    pub open spec fn applied(self, x: Tensor) -> Option<Tensor> {
        match self {
            LinearModel::Dense { weight, .. } => bind(
                transposed(weight),
                |t: Tensor| matrix_product(x, t),
            ),
            LinearModel::Quantized {
                weight,
                scales,
                quant_biases,
                group_size,
                bits,
                mode,
                ..
            } => quantized_product(x, weight, scales, quant_biases, group_size, bits, mode),
        }
    }

    /// `x W^T` and the bias.
    pub open spec fn output(self, x: Tensor) -> Option<Tensor> {
        bind(
            self.applied(x),
            |y: Tensor|
                match self.bias() {
                    Some(b) => sum(y, b),
                    None => Some(y),
                },
        )
    }

    /// The number of outputs.
    pub open spec fn output_dims(self) -> Option<int> {
        let shape = match self {
            LinearModel::Dense { weight, .. } => weight.shape,
            LinearModel::Quantized { weight, .. } => weight.shape,
        };
        if shape.len() >= 1 {
            Some(shape[0] as int)
        } else {
            None
        }
    }

    /// The number of inputs: for a quantized weight those that the packed
    /// words of a row hold.
    pub open spec fn input_dims(self) -> Option<int> {
        match self {
            LinearModel::Dense { weight, .. } => if weight.shape.len() >= 2 {
                Some(weight.shape[1] as int)
            } else {
                None
            },
            LinearModel::Quantized { weight, bits, .. } => if weight.shape.len() >= 2 && bits > 0 {
                Some(unpacked_len(weight.shape[1] as int, bits as int))
            } else {
                None
            },
        }
    }
}

fn opt_dup(a: Option<&Array>) -> (r: Option<Array>)
    ensures
        view_opt(r) == match a {
            Some(x) => Some(x@),
            None => None,
        },
{
    match a {
        Some(x) => Some(x.dup()),
        None => None,
    }
}

/// Why a weight and a bias are no layer, if they are not.
pub open spec fn dense_refusal(weight: Tensor, bias: Option<Tensor>) -> Option<Seq<char>> {
    if weight.shape.len() != 2 {
        Some(
            "BaseLinear::dense: weight must be 2-D [output_dims, input_dims], got "@ + number_list(
                weight.shape,
            ),
        )
    } else {
        match bias {
            Some(b) => if b.shape.len() != 1 || b.shape[0] != weight.shape[0] {
                Some(
                    "BaseLinear::dense: bias must be [output_dims="@ + decimal(
                        weight.shape[0] as nat,
                    ) + "], got "@ + number_list(b.shape),
                )
            } else {
                None
            },
            None => None,
        }
    }
}

/// Why the parts are no quantized layer in the given scheme, if they are not.
pub open spec fn quantized_refusal(
    biased: bool,
    group_size: i32,
    bits: i32,
    mode: QuantMode,
) -> Option<Seq<char>> {
    if mode.has_biases() && !biased {
        Some(
            "BaseLinear::quantized: `affine` mode requires quant_biases (mlx affine_quantize writes {w_q, scales, biases}), got None"@,
        )
    } else if !mode.has_biases() && biased {
        Some(
            "BaseLinear::quantized: `"@ + mode.name()@
                + "` mode is scale-only (mlx fp_quantize writes {w_q, scales}), but quant_biases was provided"@,
        )
    } else if bits <= 0 || group_size <= 0 {
        Some(
            "BaseLinear::quantized: bits ("@ + signed_decimal(bits as int)
                + ") and group_size ("@ + signed_decimal(group_size as int)
                + ") must be > 0 (per-mode value tables are validated by mlx-c)"@,
        )
    } else {
        None
    }
}

/// What is said of a scheme that is not known, of whose name `shown` is what is
/// shown.
pub open spec fn unknown_mode_text(shown: Seq<char>) -> Seq<char> {
    "BaseLinear::quantized: unknown mode "@ + shown
        + "; allowed: \"affine\", \"mxfp4\", \"mxfp8\", \"nvfp4\""@
}

/// The error of a scheme that is not known, of whose name `shown` is what is
/// shown.
pub fn unknown_mode(shown: &str) -> (e: Error)
    ensures
        e is Backend,
        e.text() == unknown_mode_text(shown@),
{
    let mut text = concat("BaseLinear::quantized: unknown mode ", shown);
    text.append("; allowed: \"affine\", \"mxfp4\", \"mxfp8\", \"nvfp4\"");
    backend(text.as_str())
}

impl BaseLinear {
    /// The layer of a weight and perhaps a bias.
    pub fn dense(weight: Array, bias: Option<Array>) -> (r: Result<BaseLinear>)
        ensures
            is_linear(r, dense_of(weight@, view_opt(bias))),
            r is Err ==> dense_refusal(weight@, view_opt(bias)) == Some(r->Err_0.text()),
    {
        let s = weight.dims();
        if s.len() != 2 {
            let text = concat(
                "BaseLinear::dense: weight must be 2-D [output_dims, input_dims], got ",
                number_list_text(s).as_str(),
            );
            return Err(shape_mismatch(text.as_str()));
        }
        match &bias {
            Some(b) => {
                let bs = b.dims();
                if bs.len() != 1 || bs[0] != s[0] {
                    let mut text = with_number(
                        "BaseLinear::dense: bias must be [output_dims=",
                        s[0],
                        "], got ",
                    );
                    text.append(number_list_text(bs).as_str());
                    return Err(shape_mismatch(text.as_str()));
                }
            },
            None => {},
        }
        Ok(BaseLinear::Dense { weight, bias })
    }

    /// The layer of a quantized weight, in the scheme of the given name.
    pub fn quantized(
        weight: Array,
        scales: Array,
        quant_biases: Option<Array>,
        bias: Option<Array>,
        group_size: i32,
        bits: i32,
        mode: &str,
    ) -> (r: Result<BaseLinear>)
        ensures
            forall|m: QuantMode|
                mode@ == (#[trigger] m.name())@ ==> is_linear(
                    r,
                    quantized_of(
                        weight@,
                        scales@,
                        view_opt(quant_biases),
                        view_opt(bias),
                        group_size,
                        bits,
                        m,
                    ),
                ),
            forall|m: QuantMode|
                mode@ == (#[trigger] m.name())@ && r is Err ==> quantized_refusal(
                    quant_biases is Some,
                    group_size,
                    bits,
                    m,
                ) == Some(r->Err_0.text()),
            (forall|m: QuantMode| mode@ != (#[trigger] m.name())@) ==> r is Err
                && r->Err_0.text() == unknown_mode_text(quoted(mode@)),
            r is Err ==> r->Err_0 is Backend,
    {
        match QuantMode::from_name(mode) {
            None => Err(unknown_mode(quoted_text(mode).as_str())),
            Some(m) => {
                assert forall|o: QuantMode| mode@ == (#[trigger] o.name())@ implies o == m by {
                    names_differ(o, m);
                }
                BaseLinear::quantized_mode(
                    weight,
                    scales,
                    quant_biases,
                    bias,
                    group_size,
                    bits,
                    m,
                )
            },
        }
    }

    /// The layer of a quantized weight.
    pub fn quantized_mode(
        weight: Array,
        scales: Array,
        quant_biases: Option<Array>,
        bias: Option<Array>,
        group_size: i32,
        bits: i32,
        mode: QuantMode,
    ) -> (r: Result<BaseLinear>)
        ensures
            is_linear(
                r,
                quantized_of(
                    weight@,
                    scales@,
                    view_opt(quant_biases),
                    view_opt(bias),
                    group_size,
                    bits,
                    mode,
                ),
            ),
            r is Err ==> quantized_refusal(quant_biases is Some, group_size, bits, mode) == Some(
                r->Err_0.text(),
            ),
    {
        if mode.has_biases() {
            if quant_biases.is_none() {
                return Err(
                    backend(
                        "BaseLinear::quantized: `affine` mode requires quant_biases (mlx affine_quantize writes {w_q, scales, biases}), got None",
                    ),
                );
            }
        } else if quant_biases.is_some() {
            let mut text = concat("BaseLinear::quantized: `", mode.name());
            text.append(
                "` mode is scale-only (mlx fp_quantize writes {w_q, scales}), but quant_biases was provided",
            );
            return Err(backend(text.as_str()));
        }
        if bits <= 0 || group_size <= 0 {
            let mut text = concat("BaseLinear::quantized: bits (", signed_text(bits).as_str());
            text.append(") and group_size (");
            text.append(signed_text(group_size).as_str());
            text.append(") must be > 0 (per-mode value tables are validated by mlx-c)");
            return Err(backend(text.as_str()));
        }
        Ok(
            BaseLinear::Quantized {
                weight,
                scales,
                quant_biases,
                bias,
                group_size,
                bits,
                mode,
            },
        )
    }

    /// The bias of the layer, not that of the quantization.
    pub fn bias(&self) -> (r: Option<&Array>)
        ensures
            match r {
                Some(b) => self@.bias() == Some(b@),
                None => self@.bias() is None,
            },
    {
        match self {
            BaseLinear::Dense { bias, .. } => bias.as_ref(),
            BaseLinear::Quantized { bias, .. } => bias.as_ref(),
        }
    }

    /// The weight as a matrix of numbers.
    pub fn dequantized_weight(&self) -> (r: Result<Array>)
        ensures
            outcome(r) == self@.full_weight(),
            r is Err ==> r->Err_0 is Backend,
    {
        match self {
            BaseLinear::Dense { weight, .. } => weight.try_clone(),
            BaseLinear::Quantized {
                weight,
                scales,
                quant_biases,
                group_size,
                bits,
                mode,
                ..
            } => dequantize(weight, scales, quant_biases.as_ref(), *group_size, *bits, *mode),
        }
    }

    /// `x W^T`.
    pub fn base_output_no_bias(&self, x: &Array) -> (r: Result<Array>)
        ensures
            outcome(r) == self@.applied(x@),
            r is Err ==> r->Err_0 is Backend,
    {
        match self {
            BaseLinear::Dense { weight, .. } => {
                let t = weight.transpose()?;
                x.matmul(&t)
            },
            BaseLinear::Quantized {
                weight,
                scales,
                quant_biases,
                group_size,
                bits,
                mode,
                ..
            } => quantized_matmul(
                x,
                weight,
                scales,
                quant_biases.as_ref(),
                *group_size,
                *bits,
                *mode,
            ),
        }
    }

    /// `x W^T` and the bias.
    pub fn base_output(&self, x: &Array) -> (r: Result<Array>)
        ensures
            outcome(r) == self@.output(x@),
            r is Err ==> r->Err_0 is Backend,
    {
        let y = self.base_output_no_bias(x)?;
        match self.bias() {
            Some(b) => crate::ops::arithmetic::add(&y, b),
            None => Ok(y),
        }
    }

    /// A layer of the given weight and bias, quantized as this one is.
    fn requantize_fused(&self, weight: Array, bias: Option<Array>) -> (r: Result<BaseLinear>)
        ensures
            is_linear(r, requantized(self@, weight@, view_opt(bias))),
    {
        match self {
            BaseLinear::Dense { .. } => BaseLinear::dense(weight, bias),
            BaseLinear::Quantized { group_size, bits, mode, .. } => {
                match quantize_mode(&weight, *group_size, *bits, *mode) {
                    Ok((w, s, b)) => BaseLinear::quantized_mode(
                        w,
                        s,
                        b,
                        bias,
                        *group_size,
                        *bits,
                        *mode,
                    ),
                    Err(e) => Err(e),
                }
            },
        }
    }

    /// Whether the weight is quantized.
    pub fn is_quantized(&self) -> (r: bool)
        ensures
            r == (self@ is Quantized),
    {
        match self {
            BaseLinear::Dense { .. } => false,
            BaseLinear::Quantized { .. } => true,
        }
    }
}

/// A layer of the given weight and bias, quantized as `like` is.
pub open spec fn requantized(like: LinearModel, weight: Tensor, bias: Option<Tensor>)
    -> core::result::Result<LinearModel, Fault> {
    match like {
        LinearModel::Dense { .. } => dense_of(weight, bias),
        LinearModel::Quantized { group_size, bits, mode, .. } => match quantized_parts(
            weight,
            mode,
            group_size,
            bits,
        ) {
            Some((w, s, b)) => quantized_of(w, s, b, bias, group_size, bits, mode),
            None => Err(Fault::Backend),
        },
    }
}

// ---------------------------------------------------------------------------
// The adapter
// ---------------------------------------------------------------------------

/// The tensors of an adapter of one layer.
#[derive(Debug)]
pub struct AdapterParams {
    /// A row for each input and a column for each rank.
    pub lora_a: Array,
    /// A row for each rank and a column for each output.
    pub lora_b: Array,
    /// The norms of the rows, for a weight-decomposed adapter.
    pub magnitude: Option<Array>,
}

/// What the tensors of an adapter stand for.
pub ghost struct Factors {
    pub a: Tensor,
    pub b: Tensor,
    pub magnitude: Option<Tensor>,
}

impl View for AdapterParams {
    type V = Factors;

    open spec fn view(&self) -> Factors {
        Factors { a: self.lora_a@, b: self.lora_b@, magnitude: view_opt(self.magnitude) }
    }
}

impl AdapterParams {
    /// Second handles on the same tensors.
    pub fn try_clone(&self) -> (r: Result<AdapterParams>)
        ensures
            r is Ok,
            r->Ok_0@ == self@,
    {
        Ok(
            AdapterParams {
                lora_a: self.lora_a.try_clone()?,
                lora_b: self.lora_b.try_clone()?,
                magnitude: opt_dup(self.magnitude.as_ref()),
            },
        )
    }
}

/// One number in one axis.
pub open spec fn one_number(bits: u64) -> Option<Tensor> {
    leaf(Op::Data, seq![1usize], Dtype::F32, seq![bits])
}

/// The scale as an array of one number.
pub open spec fn scale_array(scale: Scale) -> Option<Tensor> {
    match scale {
        Scale::Literal(v) => one_number(v.bits as u64),
        Scale::Ratio { alpha, rank } => bind(
            one_number(alpha.bits as u64),
            |a: Tensor|
                bind(one_number(nearest_bits(rank as nat) as u64), |r: Tensor| quotient(a, r)),
        ),
    }
}

/// `t` times the scale.
pub open spec fn scaled_by(t: Tensor, scale: Scale) -> Option<Tensor> {
    bind(scale_array(scale), |s: Tensor| product(t, s))
}

/// What the adapter adds to the weight: `(scale * b^T) a^T`.
pub open spec fn delta_of(p: Factors, scale: Scale) -> Option<Tensor> {
    bind(
        transposed(p.b),
        |bt: Tensor|
            bind(
                transposed(p.a),
                |at: Tensor|
                    bind(scaled_by(bt, scale), |sb: Tensor| matrix_product(sb, at)),
            ),
    )
}

/// The low-rank term `(x a) b`.
pub open spec fn low_rank(x: Tensor, p: Factors) -> Option<Tensor> {
    bind(matrix_product(x, p.a), |xa: Tensor| matrix_product(xa, p.b))
}

/// The scaled low-rank term in the element type of `x`.
pub open spec fn scaled_term(x: Tensor, p: Factors, scale: Scale) -> Option<Tensor> {
    bind(
        bind(low_rank(x, p), |z: Tensor| scaled_by(z, scale)),
        |z: Tensor| converted(z, x.dtype),
    )
}

/// The weight with what the adapter adds.
pub open spec fn adapted_weight(base: LinearModel, p: Factors, scale: Scale) -> Option<Tensor> {
    bind(
        base.full_weight(),
        |w: Tensor|
            bind(
                bind(delta_of(p, scale), |d: Tensor| converted(d, w.dtype)),
                |d: Tensor| sum(w, d),
            ),
    )
}

fn number(bits: u32) -> (r: Result<Array>)
    ensures
        outcome(r) == one_number(bits as u64),
        r is Err ==> r->Err_0 is Backend,
{
    let mut shape: Vec<usize> = Vec::new();
    shape.push(1);
    let mut data: Vec<u64> = Vec::new();
    data.push(bits as u64);
    assert(shape@ =~= seq![1usize]);
    assert(data@ =~= seq![bits as u64]);
    Array::build_leaf(Op::Data, shape, Dtype::F32, data)
}

fn build_scale(scale: Scale) -> (r: Result<Array>)
    ensures
        outcome(r) == scale_array(scale),
        r is Err ==> r->Err_0 is Backend,
{
    match scale {
        Scale::Literal(v) => number(v.bits),
        Scale::Ratio { alpha, rank } => {
            let a = number(alpha.bits)?;
            let d = F32::from_u32(rank);
            let r = number(d.bits)?;
            divide(&a, &r)
        },
    }
}

fn scaled(t: &Array, scale: Scale) -> (r: Result<Array>)
    ensures
        outcome(r) == scaled_by(t@, scale),
        r is Err ==> r->Err_0 is Backend,
{
    let s = build_scale(scale)?;
    multiply(t, &s)
}

/// What the adapter adds to the weight: `(scale * b^T) a^T`.
pub fn lora_delta(p: &AdapterParams, scale: Scale) -> (r: Result<Array>)
    ensures
        outcome(r) == delta_of(p@, scale),
        r is Err ==> r->Err_0 is Backend,
{
    let bt = p.lora_b.transpose()?;
    let at = p.lora_a.transpose()?;
    let sb = scaled(&bt, scale)?;
    sb.matmul(&at)
}

fn lora_z(x: &Array, p: &AdapterParams) -> (r: Result<Array>)
    ensures
        outcome(r) == low_rank(x@, p@),
        r is Err ==> r->Err_0 is Backend,
{
    let xa = x.matmul(&p.lora_a)?;
    xa.matmul(&p.lora_b)
}

fn build_term(x: &Array, p: &AdapterParams, scale: Scale) -> (r: Result<Array>)
    ensures
        outcome(r) == scaled_term(x@, p@, scale),
        r is Err ==> r->Err_0 is Backend,
{
    let z = lora_z(x, p)?;
    let s = scaled(&z, scale)?;
    s.astype(x.dtype())
}

fn build_adapted(base: &BaseLinear, p: &AdapterParams, scale: Scale) -> (r: Result<Array>)
    ensures
        outcome(r) == adapted_weight(base@, p@, scale),
        r is Err ==> r->Err_0 is Backend,
{
    let w = base.dequantized_weight()?;
    let d = lora_delta(p, scale)?;
    let d = d.astype(w.dtype())?;
    crate::ops::arithmetic::add(&w, &d)
}

/// Whether the factors fit the layer: `a` has a row for each input, `b` a
/// column for each output, and both the same rank.
pub open spec fn factors_fit(base: LinearModel, p: Factors) -> bool {
    &&& p.a.shape.len() == 2
    &&& p.b.shape.len() == 2
    &&& p.a.shape[1] == p.b.shape[0]
    &&& base.input_dims() == Some(p.a.shape[0] as int)
    &&& base.output_dims() == Some(p.b.shape[1] as int)
}

impl LinearModel {
    /// The shape of the weight as it is held.
    pub open spec fn weight_shape(self) -> Seq<usize> {
        match self {
            LinearModel::Dense { weight, .. } => weight.shape,
            LinearModel::Quantized { weight, .. } => weight.shape,
        }
    }
}

/// What is said of a weight that has no second axis.
pub open spec fn narrow_weight_text(base: LinearModel) -> Seq<char> {
    let start = match base {
        LinearModel::Dense { .. } =>
            "dense base weight must be 2-D [output_dims, input_dims]; got rank-"@,
        LinearModel::Quantized { .. } =>
            "quantized base weight must be 2-D [output_dims, input_dims*bits/32]; got rank-"@,
    };
    start + decimal(base.weight_shape().len()) + " shape "@ + number_list(base.weight_shape())
}

/// Why the factors do not fit the layer, if they do not; `who` asks.
pub open spec fn factor_refusal(who: Seq<char>, base: LinearModel, p: Factors) -> Option<
    Seq<char>,
> {
    if p.a.shape.len() != 2 {
        Some(who + ": lora_a must be 2-D [input_dims, r], got "@ + number_list(p.a.shape))
    } else if p.b.shape.len() != 2 {
        Some(who + ": lora_b must be 2-D [r, output_dims], got "@ + number_list(p.b.shape))
    } else if p.a.shape[1] != p.b.shape[0] {
        Some(
            who + ": rank mismatch — lora_a is [_, r="@ + decimal(p.a.shape[1] as nat)
                + "] but lora_b is [r="@ + decimal(p.b.shape[0] as nat) + ", _]"@,
        )
    } else if base.input_dims() is None {
        Some(narrow_weight_text(base))
    } else if base.input_dims() != Some(p.a.shape[0] as int) {
        Some(
            who + ": lora_a leading axis ("@ + decimal(p.a.shape[0] as nat)
                + ") must equal base input_dims ("@ + decimal(base.input_dims()->0 as nat) + ")"@,
        )
    } else if base.output_dims() != Some(p.b.shape[1] as int) {
        Some(
            who + ": lora_b last axis ("@ + decimal(p.b.shape[1] as nat)
                + ") must equal base output_dims ("@ + decimal(base.output_dims()->0 as nat)
                + ")"@,
        )
    } else {
        None
    }
}

/// Why the factors and norms do not fit the layer, if they do not.
pub open spec fn dora_refusal(base: LinearModel, p: Factors) -> Option<Seq<char>> {
    match factor_refusal("DoRALinear"@, base, p) {
        Some(text) => Some(text),
        None => match p.magnitude {
            None => Some(
                "DoRALinear::new: DoRA requires a magnitude `m` (loaded from adapters.safetensors), got None"@,
            ),
            Some(m) => if magnitude_fits(base, m) {
                None
            } else {
                Some(
                    "DoRALinear::new: magnitude `m` must be [output_dims="@ + decimal(
                        base.output_dims()->0 as nat,
                    ) + "], got "@ + number_list(m.shape),
                )
            },
        },
    }
}

fn base_output_dims(base: &BaseLinear) -> (r: Result<usize>)
    ensures
        match r {
            Ok(n) => base@.output_dims() == Some(n as int),
            Err(e) => base@.output_dims() is None && e is ShapeMismatch,
        },
{
    let s = match base {
        BaseLinear::Dense { weight, .. } => weight.dims(),
        BaseLinear::Quantized { weight, .. } => weight.dims(),
    };
    if s.len() == 0 {
        return Err(
            shape_mismatch("base linear weight has rank 0; cannot determine output_dims"),
        );
    }
    Ok(s[0])
}

fn refuse_weight(start: &str, s: &[usize]) -> (e: Error)
    ensures
        e is ShapeMismatch,
        e.text() == start@ + decimal(s@.len()) + " shape "@ + number_list(s@),
{
    let mut text = with_number(start, s.len(), " shape ");
    text.append(number_list_text(s).as_str());
    shape_mismatch(text.as_str())
}

fn base_input_dims(base: &BaseLinear) -> (r: Result<u64>)
    ensures
        match r {
            Ok(n) => base@.input_dims() == Some(n as int),
            Err(e) => {
                &&& base@.input_dims() is None
                &&& e is ShapeMismatch
                &&& e.text() == narrow_weight_text(base@)
            },
        },
{
    match base {
        BaseLinear::Dense { weight, .. } => {
            let s = weight.dims();
            if s.len() < 2 {
                return Err(
                    refuse_weight(
                        "dense base weight must be 2-D [output_dims, input_dims]; got rank-",
                        s,
                    ),
                );
            }
            Ok(s[1] as u64)
        },
        BaseLinear::Quantized { weight, bits, .. } => {
            let s = weight.dims();
            if s.len() < 2 || *bits <= 0 {
                return Err(
                    refuse_weight(
                        "quantized base weight must be 2-D [output_dims, input_dims*bits/32]; got rank-",
                        s,
                    ),
                );
            }
            Ok(s[1] as u64 * 32 / (*bits as u64))
        },
    }
}

/// Checks that the factors fit the layer; `who` asks.
pub fn validate_factor_shapes(base: &BaseLinear, p: &AdapterParams, who: &str) -> (r: Result<()>)
    ensures
        r is Ok <==> factors_fit(base@, p@),
        r is Err ==> r->Err_0 is ShapeMismatch && factor_refusal(who@, base@, p@) == Some(
            r->Err_0.text(),
        ),
        factor_refusal(who@, base@, p@) is Some ==> r is Err,
{
    let a = p.lora_a.dims();
    let b = p.lora_b.dims();
    if a.len() != 2 {
        let mut text = concat(who, ": lora_a must be 2-D [input_dims, r], got ");
        text.append(number_list_text(a).as_str());
        return Err(shape_mismatch(text.as_str()));
    }
    if b.len() != 2 {
        let mut text = concat(who, ": lora_b must be 2-D [r, output_dims], got ");
        text.append(number_list_text(b).as_str());
        return Err(shape_mismatch(text.as_str()));
    }
    if a[1] != b[0] {
        let start = concat(who, ": rank mismatch — lora_a is [_, r=");
        let text = with_two(start.as_str(), a[1], "] but lora_b is [r=", b[0], ", _]");
        return Err(shape_mismatch(text.as_str()));
    }
    let input_dims: u64 = base_input_dims(base)?;
    if a[0] as u64 != input_dims {
        let start = concat(who, ": lora_a leading axis (");
        let mut text = with_number(start.as_str(), a[0], ") must equal base input_dims (");
        text.append(decimal_text(input_dims).as_str());
        text.append(")");
        return Err(shape_mismatch(text.as_str()));
    }
    let output_dims: usize = base_output_dims(base)?;
    if b[1] != output_dims {
        let start = concat(who, ": lora_b last axis (");
        let text = with_two(
            start.as_str(),
            b[1],
            ") must equal base output_dims (",
            output_dims,
            ")",
        );
        return Err(shape_mismatch(text.as_str()));
    }
    Ok(())
}

/// The rank of the factors: the second axis of `a` and the first of `b`, zero
/// for one that has no such axis.
pub open spec fn rank_is(p: Factors, rank: int) -> bool {
    &&& (if p.a.shape.len() >= 2 {
        p.a.shape[1] as int
    } else {
        0
    }) == rank
    &&& (if p.b.shape.len() >= 1 {
        p.b.shape[0] as int
    } else {
        0
    }) == rank
}

/// What is said where the first factor has the rank `found` and the
/// configuration the rank `rank`; `who` asks.
pub open spec fn rank_text(who: Seq<char>, found: nat, rank: nat) -> Seq<char> {
    who + ": adapter factor rank ("@ + decimal(found)
        + ") does not match adapter_config.json rank ("@ + decimal(rank)
        + "); a stale config (or a PEFT config whose `r` key was not recognized) would silently scale by alpha/"@
        + decimal(rank) + " instead of alpha/"@ + decimal(found)
}

/// Checks that the factors have the rank of the configuration. One that has
/// drifted would scale by the wrong divisor. `who` asks.
pub fn validate_config_rank(p: &AdapterParams, rank: usize, who: &str) -> (r: Result<()>)
    ensures
        r is Ok <==> rank_is(p@, rank as int),
        r is Err ==> r->Err_0 is ShapeMismatch && r->Err_0.text() == rank_text(
            who@,
            if p@.a.shape.len() >= 2 {
                p@.a.shape[1] as nat
            } else {
                0
            },
            rank as nat,
        ),
{
    let a = p.lora_a.dims();
    let b = p.lora_b.dims();
    let ra: usize = if a.len() >= 2 {
        a[1]
    } else {
        0
    };
    let rb: usize = if b.len() >= 1 {
        b[0]
    } else {
        0
    };
    if ra != rank || rb != rank {
        let start = concat(who, ": adapter factor rank (");
        let mut text = with_two(
            start.as_str(),
            ra,
            ") does not match adapter_config.json rank (",
            rank,
            "); a stale config (or a PEFT config whose `r` key was not recognized) would silently scale by alpha/",
        );
        text.append(decimal_text(rank as u64).as_str());
        text.append(" instead of alpha/");
        text.append(decimal_text(ra as u64).as_str());
        return Err(shape_mismatch(text.as_str()));
    }
    Ok(())
}

// ---------------------------------------------------------------------------
// Adapted layers
// ---------------------------------------------------------------------------

/// A linear layer with a low-rank adapter.
#[derive(Debug)]
pub struct LoRALinear {
    base: BaseLinear,
    params: AdapterParams,
    scale: Scale,
}

/// A linear layer with a weight-decomposed low-rank adapter.
#[derive(Debug)]
pub struct DoRALinear {
    base: BaseLinear,
    params: AdapterParams,
    magnitude: Array,
    scale: Scale,
}

/// What an adapted layer stands for.
pub ghost enum LayerModel {
    Lora { base: LinearModel, factors: Factors, scale: Scale },
    Dora { base: LinearModel, factors: Factors, magnitude: Tensor, scale: Scale },
}

/// Whether the norms have one number for each output.
pub open spec fn magnitude_fits(base: LinearModel, m: Tensor) -> bool {
    m.shape.len() == 1 && base.output_dims() == Some(m.shape[0] as int)
}

/// A layer with a low-rank adapter: the factors fit it.
pub open spec fn lora_of(base: LinearModel, p: Factors, scale: Scale) -> core::result::Result<
    LayerModel,
    Fault,
> {
    if factors_fit(base, p) {
        Ok(LayerModel::Lora { base, factors: p, scale })
    } else {
        Err(Fault::Shape)
    }
}

/// A layer with a weight-decomposed adapter: the factors fit it, and there are
/// norms, one for each output.
pub open spec fn dora_of(base: LinearModel, p: Factors, scale: Scale) -> core::result::Result<
    LayerModel,
    Fault,
> {
    if !factors_fit(base, p) {
        Err(Fault::Shape)
    } else {
        match p.magnitude {
            None => Err(Fault::Backend),
            Some(m) => if magnitude_fits(base, m) {
                Ok(LayerModel::Dora { base, factors: p, magnitude: m, scale })
            } else {
                Err(Fault::Shape)
            },
        }
    }
}

/// The norms that the rows of the adapted weight are brought to, each divided
/// by the row's own.
pub open spec fn row_scales(adapted: Tensor, m: Tensor) -> Option<Tensor> {
    bind(row_norms(adapted), |d: Tensor| quotient(m, d))
}

impl LayerModel {
    /// What the layer gives for `x`.
    #[verifier::opaque]
    pub open spec fn output(self, x: Tensor) -> Option<Tensor> {
        match self {
            LayerModel::Lora { base, factors, scale } => bind(
                base.output(x),
                |y: Tensor| bind(scaled_term(x, factors, scale), |z: Tensor| sum(y, z)),
            ),
            LayerModel::Dora { base, factors, magnitude, scale } => bind(
                bind(
                    base.applied(x),
                    |y: Tensor| bind(scaled_term(x, factors, scale), |z: Tensor| sum(y, z)),
                ),
                |out: Tensor|
                    bind(
                        bind(
                            bind(
                                adapted_weight(base, factors, scale),
                                |w: Tensor| row_scales(w, magnitude),
                            ),
                            |s: Tensor| converted(s, x.dtype),
                        ),
                        |s: Tensor|
                            bind(
                                product(out, s),
                                |out: Tensor|
                                    match base.bias() {
                                        Some(b) => sum(out, b),
                                        None => Some(out),
                                    },
                            ),
                    ),
            ),
        }
    }

    /// The weight with the adapter worked in.
    #[verifier::opaque]
    pub open spec fn fused_weight(self) -> Option<Tensor> {
        match self {
            LayerModel::Lora { base, factors, scale } => adapted_weight(base, factors, scale),
            LayerModel::Dora { base, factors, magnitude, scale } => bind(
                adapted_weight(base, factors, scale),
                |w: Tensor|
                    bind(
                        bind(row_scales(w, magnitude), |s: Tensor| with_last_axis(s)),
                        |s: Tensor| product(s, w),
                    ),
            ),
        }
    }

    /// The layer under the adapter.
    pub open spec fn base(self) -> LinearModel {
        match self {
            LayerModel::Lora { base, .. } => base,
            LayerModel::Dora { base, .. } => base,
        }
    }

    /// A plain layer with the adapter worked into its weight, quantized again
    /// where the layer was, unless that is not wanted.
    pub open spec fn fused(self, dequantize: bool) -> core::result::Result<LinearModel, Fault> {
        match self.fused_weight() {
            None => Err(Fault::Backend),
            Some(w) => if self.base() is Quantized && !dequantize {
                requantized(self.base(), w, self.base().bias())
            } else {
                dense_of(w, self.base().bias())
            },
        }
    }
}

fn build_fused(base: &BaseLinear, weight: Array, dequantize: bool) -> (r: Result<BaseLinear>)
    ensures
        is_linear(
            r,
            if base@ is Quantized && !dequantize {
                requantized(base@, weight@, base@.bias())
            } else {
                dense_of(weight@, base@.bias())
            },
        ),
{
    let bias = opt_dup(base.bias());
    if base.is_quantized() && !dequantize {
        base.requantize_fused(weight, bias)
    } else {
        BaseLinear::dense(weight, bias)
    }
}

impl View for LoRALinear {
    type V = LayerModel;

    closed spec fn view(&self) -> LayerModel {
        LayerModel::Lora { base: self.base@, factors: self.params@, scale: self.scale }
    }
}

impl View for DoRALinear {
    type V = LayerModel;

    closed spec fn view(&self) -> LayerModel {
        LayerModel::Dora {
            base: self.base@,
            factors: self.params@,
            magnitude: self.magnitude@,
            scale: self.scale,
        }
    }
}

impl LoRALinear {
    /// The layer with the given adapter; norms in it are not used.
    pub fn new(base: BaseLinear, params: AdapterParams, scale: Scale) -> (r: Result<LoRALinear>)
        ensures
            match r {
                Ok(l) => lora_of(base@, params@, scale) == Ok::<LayerModel, Fault>(l@),
                Err(e) => {
                    &&& e is ShapeMismatch
                    &&& lora_of(base@, params@, scale) is Err
                    &&& factor_refusal("LoRALinear"@, base@, params@) == Some(e.text())
                },
            },
    {
        validate_factor_shapes(&base, &params, "LoRALinear")?;
        Ok(LoRALinear { base, params, scale })
    }

    /// The scale of the low-rank term.
    pub fn scale(&self) -> (s: Scale)
        ensures
            self@ matches LayerModel::Lora { scale, .. } && s == scale,
    {
        self.scale
    }

    /// The layer under the adapter.
    pub fn base(&self) -> (b: &BaseLinear)
        ensures
            b@ == self@.base(),
    {
        &self.base
    }

    /// `x W^T`, the bias and the scaled low-rank term.
    pub fn forward(&self, x: &Array) -> (r: Result<Array>)
        ensures
            outcome(r) == self@.output(x@),
            r is Err ==> r->Err_0 is Backend,
    {
        proof {
            reveal(LayerModel::output);
        }
        let y = self.base.base_output(x)?;
        let z = build_term(x, &self.params, self.scale)?;
        crate::ops::arithmetic::add(&y, &z)
    }

    /// A plain layer with the adapter worked into its weight.
    pub fn fuse(&self, dequantize: bool) -> (r: Result<BaseLinear>)
        ensures
            is_linear(r, self@.fused(dequantize)),
    {
        proof {
            reveal(LayerModel::fused_weight);
        }
        match build_adapted(&self.base, &self.params, self.scale) {
            Ok(w) => build_fused(&self.base, w, dequantize),
            Err(e) => Err(e),
        }
    }
}

impl DoRALinear {
    /// The layer with the given adapter, which must have norms.
    pub fn new(base: BaseLinear, params: AdapterParams, scale: Scale) -> (r: Result<DoRALinear>)
        ensures
            match r {
                Ok(l) => dora_of(base@, params@, scale) == Ok::<LayerModel, Fault>(l@),
                Err(e) => {
                    &&& dora_of(base@, params@, scale) matches Err(f) && e.is_fault(f)
                    &&& dora_refusal(base@, params@) == Some(e.text())
                },
            },
    {
        validate_factor_shapes(&base, &params, "DoRALinear")?;
        let magnitude = match &params.magnitude {
            Some(m) => m.dup(),
            None => {
                return Err(
                    backend(
                        "DoRALinear::new: DoRA requires a magnitude `m` (loaded from adapters.safetensors), got None",
                    ),
                );
            },
        };
        let output_dims: usize = base_output_dims(&base)?;
        let s = magnitude.dims();
        if s.len() != 1 || s[0] != output_dims {
            let mut text = with_number(
                "DoRALinear::new: magnitude `m` must be [output_dims=",
                output_dims,
                "], got ",
            );
            text.append(number_list_text(s).as_str());
            return Err(shape_mismatch(text.as_str()));
        }
        Ok(DoRALinear { base, params, magnitude, scale })
    }

    /// The scale of the low-rank term.
    pub fn scale(&self) -> (s: Scale)
        ensures
            self@ matches LayerModel::Dora { scale, .. } && s == scale,
    {
        self.scale
    }

    /// The layer under the adapter.
    pub fn base(&self) -> (b: &BaseLinear)
        ensures
            b@ == self@.base(),
    {
        &self.base
    }

    /// The norms that the rows are brought to.
    pub fn magnitude(&self) -> (m: &Array)
        ensures
            self@ matches LayerModel::Dora { magnitude, .. } && m@ == magnitude,
    {
        &self.magnitude
    }

    fn build_row_scales(&self, adapted: &Array) -> (r: Result<Array>)
        ensures
            outcome(r) == row_scales(adapted@, self.magnitude@),
            r is Err ==> r->Err_0 is Backend,
    {
        let d = norm_rows(adapted)?;
        divide(&self.magnitude, &d)
    }

    /// `x W^T` and the scaled low-rank term, each output brought to its norm,
    /// and then the bias.
    pub fn forward(&self, x: &Array) -> (r: Result<Array>)
        ensures
            outcome(r) == self@.output(x@),
            r is Err ==> r->Err_0 is Backend,
    {
        proof {
            reveal(LayerModel::output);
        }
        let y = self.base.base_output_no_bias(x)?;
        let z = build_term(x, &self.params, self.scale)?;
        let out = crate::ops::arithmetic::add(&y, &z)?;
        let w = build_adapted(&self.base, &self.params, self.scale)?;
        let s = self.build_row_scales(&w)?;
        let s = s.astype(x.dtype())?;
        let out = multiply(&out, &s)?;
        match self.base.bias() {
            Some(b) => crate::ops::arithmetic::add(&out, b),
            None => Ok(out),
        }
    }

    fn build_fused_weight(&self) -> (r: Result<Array>)
        ensures
            outcome(r) == self@.fused_weight(),
            r is Err ==> r->Err_0 is Backend,
    {
        proof {
            reveal(LayerModel::fused_weight);
        }
        let w = build_adapted(&self.base, &self.params, self.scale)?;
        let s = self.build_row_scales(&w)?;
        let s = s.expand_last()?;
        multiply(&s, &w)
    }

    /// A plain layer with the adapter worked into its weight.
    pub fn fuse(&self, dequantize: bool) -> (r: Result<BaseLinear>)
        ensures
            is_linear(r, self@.fused(dequantize)),
    {
        match self.build_fused_weight() {
            Ok(w) => build_fused(&self.base, w, dequantize),
            Err(e) => Err(e),
        }
    }
}

/// An adapted layer of either kind.
#[derive(Debug)]
pub enum LoraLayer {
    Lora(LoRALinear),
    Dora(DoRALinear),
}

impl View for LoraLayer {
    type V = LayerModel;

    open spec fn view(&self) -> LayerModel {
        match *self {
            LoraLayer::Lora(l) => l@,
            LoraLayer::Dora(d) => d@,
        }
    }
}

impl LoraLayer {
    /// What the layer gives for `x`.
    pub fn forward(&self, x: &Array) -> (r: Result<Array>)
        ensures
            outcome(r) == self@.output(x@),
            r is Err ==> r->Err_0 is Backend,
    {
        match self {
            LoraLayer::Lora(l) => l.forward(x),
            LoraLayer::Dora(d) => d.forward(x),
        }
    }

    /// A plain layer with the adapter worked into its weight.
    pub fn fuse(&self, dequantize: bool) -> (r: Result<BaseLinear>)
        ensures
            is_linear(r, self@.fused(dequantize)),
    {
        match self {
            LoraLayer::Lora(l) => l.fuse(dequantize),
            LoraLayer::Dora(d) => d.fuse(dequantize),
        }
    }

    /// The layer under the adapter.
    pub fn base(&self) -> (b: &BaseLinear)
        ensures
            b@ == self@.base(),
    {
        match self {
            LoraLayer::Lora(l) => l.base(),
            LoraLayer::Dora(d) => d.base(),
        }
    }
}

} // verus!
