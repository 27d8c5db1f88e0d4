//! The numbers that scale an adapter, in exact arithmetic.
use vstd::prelude::*;

use crate::array::Tensor;
use crate::dtype::Dtype;
use crate::exact::{
    lemma_elementwise, lemma_given, lemma_matrix_place, lemma_passed_on, lemma_real, lemma_reals,
    lemma_row_norm, lemma_same_shape, lemma_small_number, lemma_source_same, lemma_total_same,
    lemma_total_times, number, re, reals, source, squares_about, Meaning,
};
use crate::lm::lora::config::Scale;
use crate::lm::lora::exact::decomposed;
use crate::lm::lora::linear::{
    adapted_weight, one_number, row_scales, scale_array, Factors, LayerModel, LinearModel,
};
use crate::ops::arithmetic::product;
use crate::ops::linalg::row_norms;
use crate::ops::shape::with_last_axis;
use crate::scalar::nearest_bits;
use crate::shape::{
    broadcast, broadcast_self, fits, lemma_elements_one, lemma_elements_two,
};

verus! {

/// A scale is the given number, or the given one divided by the rank.
pub proof fn scale_is_its_number(scale: Scale, m: Meaning)
    requires
        scale_array(scale) is Some,
        scale matches Scale::Ratio { rank, .. } ==> rank < 0x100_0000,
    ensures
        scale_array(scale)->0.shape == seq![1usize],
        re(scale_array(scale)->0, m, 0) == match scale {
            Scale::Literal(v) => number(v),
            Scale::Ratio { alpha, rank } => number(alpha) / (rank as real),
        },
{
    lemma_elements_one(1);
    match scale {
        Scale::Literal(v) => {
            lemma_given(one_number(v.bits as u64)->0, m, 0);
        },
        Scale::Ratio { alpha, rank } => {
            let a = one_number(alpha.bits as u64)->0;
            let r = one_number(nearest_bits(rank as nat) as u64)->0;
            lemma_small_number(rank as nat);
            lemma_given(a, m, 0);
            lemma_given(r, m, 0);
            assert(a.shape =~= seq![1usize]);
            lemma_same_shape(a, r, m, 0);
        },
    }
}

proof fn lemma_source_column(rows: usize, n: usize, r: int, j: int)
    requires
        rows >= 1,
        n >= 1,
        0 <= r < rows,
        0 <= j < n,
    ensures
        source(seq![rows, 1usize], seq![rows, n], r * n + j) == r,
{
    let k = r * n + j;
    vstd::arithmetic::div_mod::lemma_fundamental_div_mod_converse(k, n as int, r, j);
    let (a, s) = (seq![rows, 1usize], seq![rows, n]);
    assert(a.drop_last() =~= seq![rows]);
    assert(s.drop_last() =~= seq![rows]);
    lemma_elements_one(rows);
    lemma_source_same(seq![rows], r);
    let unit = a.last() as int;
    assert(r * unit == r) by (nonlinear_arith)
        requires
            unit == 1,
    ;
    assert(source(a, s, k) == source(seq![rows], seq![rows], r) * unit + 0);
}

/// The rows of a fused weight-decomposed layer have the given norms, where the
/// rows of the weight with the adapter are not zero: the squares of what a row
/// holds add up to the square of its norm, and the row has the direction of
/// that of the weight with the adapter.
pub proof fn decomposed_rows_have_their_norms(
    base: LinearModel,
    p: Factors,
    magnitude: Tensor,
    scale: Scale,
    m: Meaning,
    j: int,
)
    requires
        m.has_roots(),
        decomposed(base, p, magnitude, scale).fused_weight() is Some,
        adapted_weight(base, p, scale)->0.shape.len() == 2,
        fits(adapted_weight(base, p, scale)->0.shape),
        adapted_weight(base, p, scale)->0.dtype != Dtype::Complex64,
        magnitude.shape == seq![adapted_weight(base, p, scale)->0.shape[0]],
        magnitude.dtype != Dtype::Complex64,
        0 <= j < magnitude.shape[0],
        squares_about(
            adapted_weight(base, p, scale)->0.shape[1] as int,
            reals(
                adapted_weight(base, p, scale)->0,
                m,
                j * adapted_weight(base, p, scale)->0.shape[1],
                1,
            ),
            0real,
        ) > 0real,
    ensures
        ({
            let f = decomposed(base, p, magnitude, scale).fused_weight()->0;
            let w = adapted_weight(base, p, scale)->0;
            let n = w.shape[1] as int;
            let own = (m.root)(squares_about(n, reals(w, m, j * n, 1), 0real));
            &&& f.shape == w.shape
            &&& squares_about(n, reals(f, m, j * n, 1), 0real) == re(magnitude, m, j) * re(
                magnitude,
                m,
                j,
            )
            &&& forall|k: int|
                0 <= k < n ==> (#[trigger] reals(f, m, j * n, 1)(k)) * own == re(magnitude, m, j)
                    * re(w, m, j * n + k)
        }),
{
    reveal(LayerModel::fused_weight);
    let w = adapted_weight(base, p, scale)->0;
    let (rows, n) = (w.shape[0], w.shape[1] as int);
    assert(w.shape =~= seq![rows, w.shape[1]]);
    let d = row_norms(w)->0;
    let q = row_scales(w, magnitude)->0;
    let c = with_last_axis(q)->0;
    let f = product(c, w)->0;
    lemma_elements_one(rows);
    lemma_elements_two(rows, w.shape[1]);
    broadcast_self(seq![rows]);
    assert(d.shape =~= seq![rows]);
    assert(d.args =~= seq![w]);
    assert(d.params =~= seq![1i64]);
    lemma_row_norm(d, m, j);
    lemma_same_shape(magnitude, d, m, j);
    assert(fits(magnitude.shape));
    assert(c.shape =~= seq![rows, 1usize]);
    assert(broadcast(c.shape, w.shape) =~= w.shape);
    assert(f.args =~= seq![c, w]);
    let own = squares_about(n, reals(w, m, j * n, 1), 0real);
    let root = (m.root)(own);
    let (mag, factor) = (re(magnitude, m, j), re(q, m, j));
    assert(root * root == own && root >= 0real);
    assert(root > 0real) by (nonlinear_arith)
        requires
            root * root == own,
            own > 0real,
            root >= 0real,
    ;
    assert(factor == mag / root);
    assert(factor * root == mag) by (nonlinear_arith)
        requires
            factor == mag / root,
            root > 0real,
    ;
    lemma_reals(f, m, j * n);
    lemma_reals(w, m, j * n);
    let (x, y) = (reals(f, m, j * n, 1), reals(w, m, j * n, 1));
    assert forall|k: int| 0 <= k < n implies #[trigger] x(k) == factor * y(k) by {
        let at = j * n + k;
        lemma_matrix_place(rows, w.shape[1], j, k);
        lemma_source_same(w.shape, at);
        lemma_source_column(rows, w.shape[1], j, k);
        lemma_elementwise(f, m, at);
        lemma_passed_on(c, m, j);
        lemma_real(w, m, at);
        lemma_real(c, m, j);
        assert(0real * 0real == 0real) by (nonlinear_arith);
    }
    assert forall|k: int| 0 <= k < n implies (#[trigger] x(k)) * root == mag * re(
        w,
        m,
        j * n + k,
    ) by {
        let v = y(k);
        assert(x(k) == factor * v);
        assert((factor * v) * root == mag * v) by (nonlinear_arith)
            requires
                factor * root == mag,
        ;
    }
    let sx = |k: int| (x(k) - 0real) * (x(k) - 0real);
    let sy = |k: int| (y(k) - 0real) * (y(k) - 0real);
    let scaled = |k: int| (factor * factor) * sy(k);
    assert forall|k: int| 0 <= k < n implies #[trigger] sx(k) == scaled(k) by {
        let v = y(k);
        assert(x(k) == factor * v);
        assert((factor * v - 0real) * (factor * v - 0real) == (factor * factor) * ((v - 0real) * (
        v - 0real))) by (nonlinear_arith);
    }
    lemma_total_same(n, sx, scaled);
    lemma_total_times(n, factor * factor, sy);
    assert((factor * factor) * own == mag * mag) by (nonlinear_arith)
        requires
            factor * root == mag,
            root * root == own,
    ;
}

} // verus!
