//! What adapted layers compute in exact arithmetic.
//!
//! The value of an array is taken entry by entry over the integers, where a
//! sum does not depend on its order and no conversion loses anything. What the
//! arrays at the bottom hold is left open.
use vstd::prelude::*;

use crate::array::{Op, Tensor};
use crate::lm::lora::config::Scale;
use crate::lm::lora::linear::{
    adapted_weight, bias_fits, dense_of, factors_fit, magnitude_fits, quantized_of, row_scales,
    scale_array, scaled_term, Factors, LayerModel, LinearModel,
};
use crate::ops::arithmetic::{product, sum};
use crate::ops::linalg::{as_columns, as_rows, matrix_product, product_shape, stack_axes};
use crate::ops::quantized::{dequantized, quantized_parts, unpacked_transposed, QuantMode};
use crate::ops::shape::{transposed, with_last_axis};
use crate::ops::unary::converted;
use crate::shape::{broadcast, broadcast_scalar, broadcast_self, elements, lemma_elements_one};

verus! {

/// What the arrays at the bottom hold, by row and column.
pub type Entries = spec_fn(Tensor, int, int) -> int;

/// `f(0) + .. + f(n - 1)`.
pub open spec fn total(n: int, f: spec_fn(int) -> int) -> int
    decreases n,
{
    if n <= 0 {
        0
    } else {
        total(n - 1, f) + f(n - 1)
    }
}

/// The row of `a` that stands in row `i` of a broadcast result of the given
/// shape. Rows are counted over all axes but the last, and `a` has that shape,
/// or is one row or, beside a matrix, one column.
pub open spec fn row_of(a: Tensor, shape: Seq<usize>, i: int) -> int {
    if a.shape == shape || (a.shape.len() == 2 && shape.len() == 2 && a.shape[0] != 1) {
        i
    } else {
        0
    }
}

/// The column of `a` that stands in column `j` of a broadcast result of the
/// given shape.
pub open spec fn column_of(a: Tensor, shape: Seq<usize>, j: int) -> int {
    if a.shape == shape || (a.shape.len() >= 1 && a.shape.last() != 1) {
        j
    } else {
        0
    }
}

/// The matrix whose parts a quantized product holds.
pub open spec fn unpacked(t: Tensor) -> Tensor {
    dequantized(
        t.args[1],
        t.args[2],
        if t.args.len() == 4 {
            Some(t.args[3])
        } else {
            None
        },
        t.params[0] as i32,
        t.params[1] as i32,
        match t.op {
            Op::QuantizedMatmul(mode) => mode,
            _ => arbitrary(),
        },
    )->0
}

/// The entry in row `i` and column `j` of an array, whose rows are counted over
/// all axes but the last; a vector is one row.
pub open spec fn entry(t: Tensor, e: Entries, i: int, j: int) -> int
    decreases t, 1int, 0int,
{
    if t.op == Op::Add && t.args.len() == 2 {
        let (a, b) = (t.args[0], t.args[1]);
        entry(a, e, row_of(a, t.shape, i), column_of(a, t.shape, j)) + entry(b, e, row_of(b, t.shape, i), column_of(b, t.shape, j))
    } else if t.op == Op::Multiply && t.args.len() == 2 {
        let (a, b) = (t.args[0], t.args[1]);
        entry(a, e, row_of(a, t.shape, i), column_of(a, t.shape, j)) * entry(b, e, row_of(b, t.shape, i), column_of(b, t.shape, j))
    } else if t.op == Op::Matmul && t.args.len() == 2 {
        dot(t, e, i, j, t.args[0].shape.last() as int)
    } else if t.op == Op::Transpose && t.args.len() == 1 {
        entry(t.args[0], e, j, i)
    } else if t.op == Op::Astype && t.args.len() == 1 {
        entry(t.args[0], e, i, j)
    } else if t.op == Op::ExpandDims && t.args.len() == 1 {
        entry(t.args[0], e, 0, i)
    } else if t.op is QuantizedMatmul && t.args.len() >= 1 {
        dot(t, e, i, j, t.args[0].shape.last() as int)
    } else {
        e(t, i, j)
    }
}

/// The first `n` terms of the entry in row `i` and column `j` of a product.
pub open spec fn dot(t: Tensor, e: Entries, i: int, j: int, n: int) -> int
    decreases t, 0int, n,
{
    if n <= 0 || t.args.len() == 0 {
        0
    } else {
        dot(t, e, i, j, n - 1) + entry(t.args[0], e, i, n - 1) * if t.op is QuantizedMatmul {
            e(unpacked(t), j, n - 1)
        } else if t.args.len() >= 2 {
            entry(t.args[1], e, n - 1, j)
        } else {
            0
        }
    }
}

// ---------------------------------------------------------------------------
// Sums
// ---------------------------------------------------------------------------

proof fn lemma_total_same(n: int, f: spec_fn(int) -> int, g: spec_fn(int) -> int)
    requires
        forall|k: int| 0 <= k < n ==> #[trigger] f(k) == g(k),
    ensures
        total(n, f) == total(n, g),
    decreases n,
{
    if n > 0 {
        lemma_total_same(n - 1, f, g);
        assert(f(n - 1) == g(n - 1));
    }
}

proof fn lemma_total_sum(n: int, f: spec_fn(int) -> int, g: spec_fn(int) -> int)
    ensures
        total(n, |k: int| f(k) + g(k)) == total(n, f) + total(n, g),
    decreases n,
{
    if n > 0 {
        lemma_total_sum(n - 1, f, g);
    }
}

proof fn lemma_total_times(n: int, f: spec_fn(int) -> int, c: int)
    ensures
        total(n, |k: int| f(k) * c) == total(n, f) * c,
    decreases n,
{
    if n > 0 {
        lemma_total_times(n - 1, f, c);
        assert((total(n - 1, f) + f(n - 1)) * c == total(n - 1, f) * c + f(n - 1) * c)
            by (nonlinear_arith);
    } else {
        assert(0 * c == 0);
    }
}

proof fn lemma_dot(t: Tensor, e: Entries, i: int, j: int, n: int, f: spec_fn(int) -> int)
    requires
        t.args.len() >= 1,
        t.op is QuantizedMatmul || t.args.len() >= 2,
        forall|k: int|
            0 <= k < n ==> #[trigger] f(k) == entry(t.args[0], e, i, k) * if t.op is QuantizedMatmul {
                e(unpacked(t), j, k)
            } else {
                entry(t.args[1], e, k, j)
            },
    ensures
        dot(t, e, i, j, n) == total(n, f),
    decreases n,
{
    if n > 0 {
        lemma_dot(t, e, i, j, n - 1, f);
        assert(f(n - 1) == entry(t.args[0], e, i, n - 1) * if t.op is QuantizedMatmul {
            e(unpacked(t), j, n - 1)
        } else {
            entry(t.args[1], e, n - 1, j)
        });
    }
}

/// A double sum does not depend on which sum is taken first.
proof fn lemma_total_swapped(n: int, m: int, h: spec_fn(int, int) -> int)
    ensures
        total(n, |k: int| total(m, |r: int| h(k, r))) == total(
            m,
            |r: int| total(n, |k: int| h(k, r)),
        ),
    decreases n,
{
    if n > 0 {
        lemma_total_swapped(n - 1, m, h);
        let rest = |r: int| total(n - 1, |k: int| h(k, r));
        let last = |r: int| h(n - 1, r);
        lemma_total_sum(m, rest, last);
        let both = |r: int| total(n, |k: int| h(k, r));
        assert forall|r: int| 0 <= r < m implies #[trigger] both(r) == rest(r) + last(r) by {
            let f = |k: int| h(k, r);
            assert(total(n, f) == total(n - 1, f) + f(n - 1));
        }
        lemma_total_same(m, both, |r: int| rest(r) + last(r));
        let f = |k: int| total(m, |r: int| h(k, r));
        assert(total(n, f) == total(n - 1, f) + f(n - 1));
        assert(f(n - 1) == total(m, last));
    } else {
        let zero = |r: int| total(n, |k: int| h(k, r));
        lemma_total_zero(m, zero);
    }
}

proof fn lemma_total_zero(n: int, f: spec_fn(int) -> int)
    requires
        forall|k: int| 0 <= k < n ==> #[trigger] f(k) == 0,
    ensures
        total(n, f) == 0,
    decreases n,
{
    if n > 0 {
        lemma_total_zero(n - 1, f);
        assert(f(n - 1) == 0);
    }
}

// ---------------------------------------------------------------------------
// Operations
// ---------------------------------------------------------------------------

/// Whether `i` and `j` are a row and a column of an array.
pub open spec fn in_rows(t: Tensor, i: int, j: int) -> bool {
    &&& t.shape.len() >= 1
    &&& 0 <= i < elements(t.shape.drop_last())
    &&& 0 <= j < t.shape.last()
}

/// The shape with another length in place of its last.
#[verifier::opaque]
pub open spec fn with_width(shape: Seq<usize>, n: usize) -> Seq<usize> {
    shape.drop_last().push(n)
}

proof fn lemma_width(s: Seq<usize>, m: usize, n: usize)
    requires
        s.len() >= 1,
    ensures
        with_width(s, m).drop_last() == s.drop_last(),
        with_width(s, m).last() == m,
        with_width(s, m).len() == s.len(),
        with_width(with_width(s, m), n) == with_width(s, n),
        s.len() == 2 ==> with_width(s, m) == seq![s[0], m],
{
    reveal(with_width);
    assert(with_width(s, m).drop_last() =~= s.drop_last());
    assert(with_width(with_width(s, m), n) =~= with_width(s, n));
    if s.len() == 2 {
        assert(with_width(s, m) =~= seq![s[0], m]);
    }
}

proof fn lemma_in_matrix(t: Tensor, i: int, j: int)
    requires
        t.shape.len() == 2,
        0 <= i < t.shape[0],
        0 <= j < t.shape[1],
    ensures
        in_rows(t, i, j),
{
    assert(t.shape.drop_last() =~= seq![t.shape[0]]);
    lemma_elements_one(t.shape[0]);
}

proof fn lemma_row_broadcast(shape: Seq<usize>, n: usize)
    requires
        shape.len() >= 1,
        n == shape.last() || n == 1,
    ensures
        broadcast(shape, seq![n]) == shape,
{
    assert(broadcast(shape, seq![n]) =~= shape);
}

/// A vector has one row.
proof fn lemma_one_row(t: Tensor, i: int, j: int)
    requires
        in_rows(t, i, j),
        t.shape.len() == 1,
    ensures
        i == 0,
{
    assert(t.shape.drop_last() =~= Seq::<usize>::empty());
}

proof fn lemma_entry_transposed(t: Tensor, e: Entries, i: int, j: int)
    requires
        transposed(t) is Some,
        t.shape.len() == 2,
    ensures
        entry(transposed(t)->0, e, i, j) == entry(t, e, j, i),
        transposed(t)->0.shape == seq![t.shape[1], t.shape[0]],
{
    assert(t.shape.reverse() =~= seq![t.shape[1], t.shape[0]]);
}

proof fn lemma_product_shape(a: Seq<usize>, b: Seq<usize>)
    requires
        a.len() >= 1,
        b.len() == 2,
    ensures
        product_shape(a, b) == with_width(a, b[1]),
{
    reveal(with_width);
    assert(stack_axes(as_columns(b)) =~= Seq::<usize>::empty());
    broadcast_scalar(stack_axes(as_rows(a)));
    if a.len() == 1 {
        assert(stack_axes(as_rows(a)) =~= Seq::<usize>::empty());
    }
    assert(product_shape(a, b) =~= with_width(a, b[1]));
}

proof fn lemma_entry_product(a: Tensor, b: Tensor, e: Entries, i: int, j: int)
    requires
        matrix_product(a, b) is Some,
        a.shape.len() >= 1,
        b.shape.len() == 2,
    ensures
        entry(matrix_product(a, b)->0, e, i, j) == total(
            a.shape.last() as int,
            |k: int| entry(a, e, i, k) * entry(b, e, k, j),
        ),
        matrix_product(a, b)->0.shape == with_width(a.shape, b.shape[1]),
        a.shape.last() == b.shape[0],
{
    lemma_product_shape(a.shape, b.shape);
    lemma_dot(
        matrix_product(a, b)->0,
        e,
        i,
        j,
        a.shape.last() as int,
        |k: int| entry(a, e, i, k) * entry(b, e, k, j),
    );
}

proof fn lemma_entry_sum(a: Tensor, b: Tensor, e: Entries, i: int, j: int)
    requires
        sum(a, b) is Some,
        b.shape == a.shape,
    ensures
        entry(sum(a, b)->0, e, i, j) == entry(a, e, i, j) + entry(b, e, i, j),
        sum(a, b)->0.shape == a.shape,
{
    broadcast_self(a.shape);
}

proof fn lemma_entry_biased(a: Tensor, b: Tensor, e: Entries, i: int, j: int)
    requires
        sum(a, b) is Some,
        in_rows(a, i, j),
        b.shape == seq![a.shape.last()],
    ensures
        entry(sum(a, b)->0, e, i, j) == entry(a, e, i, j) + entry(b, e, 0, j),
        sum(a, b)->0.shape == a.shape,
{
    lemma_row_broadcast(a.shape, a.shape.last());
    if a.shape.len() == 1 {
        lemma_one_row(a, i, j);
    }
}

proof fn lemma_entry_scaled(a: Tensor, s: Tensor, e: Entries, i: int, j: int)
    requires
        product(a, s) is Some,
        in_rows(a, i, j),
        s.shape == seq![1usize],
    ensures
        entry(product(a, s)->0, e, i, j) == entry(a, e, i, j) * entry(s, e, 0, 0),
        product(a, s)->0.shape == a.shape,
{
    lemma_row_broadcast(a.shape, 1);
    if a.shape.len() == 1 {
        lemma_one_row(a, i, j);
    }
}

proof fn lemma_scale_shape(scale: Scale)
    requires
        scale_array(scale) is Some,
    ensures
        scale_array(scale)->0.shape == seq![1usize],
{
    let one = seq![1usize];
    broadcast_self(one);
}

// ---------------------------------------------------------------------------
// Layers
// ---------------------------------------------------------------------------

/// `x W^T` in row `i` and column `j`.
pub open spec fn plain_value(x: Tensor, w: Tensor, e: Entries, i: int, j: int) -> int {
    total(x.shape.last() as int, |k: int| entry(x, e, i, k) * entry(w, e, j, k))
}

/// The bias in column `j`, nothing where there is none.
pub open spec fn bias_value(bias: Option<Tensor>, e: Entries, j: int) -> int {
    match bias {
        Some(b) => entry(b, e, 0, j),
        None => 0,
    }
}

/// `(x a) b` in row `i` and column `j`.
pub open spec fn low_rank_value(x: Tensor, p: Factors, e: Entries, i: int, j: int) -> int {
    total(
        p.a.shape[1] as int,
        |r: int|
            total(x.shape.last() as int, |k: int| entry(x, e, i, k) * entry(p.a, e, k, r)) * entry(
                p.b,
                e,
                r,
                j,
            ),
    )
}

/// `(s b^T) a^T` in row `j` and column `k`.
pub open spec fn delta_value(p: Factors, s: int, e: Entries, j: int, k: int) -> int {
    total(
        p.a.shape[1] as int,
        |r: int| entry(p.b, e, r, j) * s * entry(p.a, e, k, r),
    )
}

proof fn lemma_applied(base: LinearModel, x: Tensor, e: Entries, i: int, j: int)
    requires
        base.applied(x) is Some,
        base.full_weight() is Some,
        base.full_weight()->0.shape.len() == 2,
        x.shape.len() >= 1,
    ensures
        entry(base.applied(x)->0, e, i, j) == plain_value(x, base.full_weight()->0, e, i, j),
        base.applied(x)->0.shape == with_width(x.shape, base.full_weight()->0.shape[0]),
{
    let w = base.full_weight()->0;
    let y = base.applied(x)->0;
    match base {
        LinearModel::Dense { weight, .. } => {
            let t = transposed(weight)->0;
            lemma_entry_transposed(weight, e, 0, 0);
            lemma_entry_product(x, t, e, i, j);
            assert forall|k: int| #[trigger] entry(t, e, k, j) == entry(w, e, j, k) by {
                lemma_entry_transposed(weight, e, k, j);
            }
            let f = |k: int| entry(x, e, i, k) * entry(t, e, k, j);
            let g = |k: int| entry(x, e, i, k) * entry(w, e, j, k);
            assert forall|k: int| 0 <= k < x.shape.last() implies #[trigger] f(k) == g(k) by {
                assert(entry(t, e, k, j) == entry(w, e, j, k));
            }
            lemma_total_same(x.shape.last() as int, f, g);
        },
        LinearModel::Quantized {
            weight,
            scales,
            quant_biases,
            group_size,
            bits,
            mode,
            ..
        } => {
            assert(y.args[0] == x);
            assert(y.args[1] == weight);
            assert(y.args[2] == scales);
            assert(quant_biases is Some ==> y.args[3] == quant_biases->0);
            assert(unpacked(y) == w);
            assert(w.op == Op::Dequantize(mode));
            lemma_dot(
                y,
                e,
                i,
                j,
                x.shape.last() as int,
                |k: int| entry(x, e, i, k) * entry(w, e, j, k),
            );
            let right = unpacked_transposed(weight.shape, bits as int);
            lemma_product_shape(x.shape, right);
        },
    }
}

proof fn lemma_term(
    base: LinearModel,
    p: Factors,
    scale: Scale,
    x: Tensor,
    e: Entries,
    i: int,
    j: int,
)
    requires
        factors_fit(base, p),
        scaled_term(x, p, scale) is Some,
        x.shape.len() >= 1,
        0 <= i < elements(x.shape.drop_last()),
        0 <= j < p.b.shape[1],
    ensures
        scale_array(scale) is Some,
        entry(scaled_term(x, p, scale)->0, e, i, j) == low_rank_value(x, p, e, i, j) * entry(
            scale_array(scale)->0,
            e,
            0,
            0,
        ),
        scaled_term(x, p, scale)->0.shape == with_width(x.shape, p.b.shape[1]),
{
    let s = scale_array(scale)->0;
    let xa = matrix_product(x, p.a)->0;
    let z = matrix_product(xa, p.b)->0;
    lemma_scale_shape(scale);
    lemma_width(x.shape, p.a.shape[1], p.b.shape[1]);
    lemma_width(x.shape, p.b.shape[1], p.b.shape[1]);
    lemma_entry_product(x, p.a, e, i, 0);
    lemma_entry_product(xa, p.b, e, i, j);
    assert forall|r: int| #[trigger]
        entry(xa, e, i, r) == total(
            x.shape.last() as int,
            |k: int| entry(x, e, i, k) * entry(p.a, e, k, r),
        ) by {
        lemma_entry_product(x, p.a, e, i, r);
    }
    lemma_total_same(
        p.a.shape[1] as int,
        |r: int| entry(xa, e, i, r) * entry(p.b, e, r, j),
        |r: int|
            total(x.shape.last() as int, |k: int| entry(x, e, i, k) * entry(p.a, e, k, r)) * entry(
                p.b,
                e,
                r,
                j,
            ),
    );
    lemma_entry_scaled(z, s, e, i, j);
}

proof fn lemma_adapted(
    base: LinearModel,
    p: Factors,
    scale: Scale,
    e: Entries,
    j: int,
    k: int,
)
    requires
        factors_fit(base, p),
        adapted_weight(base, p, scale) is Some,
        base.full_weight()->0.shape == seq![p.b.shape[1], p.a.shape[0]],
        0 <= j < p.b.shape[1],
        0 <= k < p.a.shape[0],
    ensures
        scale_array(scale) is Some,
        entry(adapted_weight(base, p, scale)->0, e, j, k) == entry(
            base.full_weight()->0,
            e,
            j,
            k,
        ) + delta_value(p, entry(scale_array(scale)->0, e, 0, 0), e, j, k),
        adapted_weight(base, p, scale)->0.shape == base.full_weight()->0.shape,
{
    let s = scale_array(scale)->0;
    let v = entry(s, e, 0, 0);
    let w = base.full_weight()->0;
    let bt = transposed(p.b)->0;
    let at = transposed(p.a)->0;
    let sb = product(bt, s)->0;
    lemma_scale_shape(scale);
    lemma_entry_transposed(p.b, e, 0, 0);
    lemma_entry_transposed(p.a, e, 0, 0);
    assert(broadcast(bt.shape, s.shape) =~= bt.shape);
    lemma_width(sb.shape, at.shape[1], at.shape[1]);
    lemma_entry_product(sb, at, e, j, k);
    let f = |r: int| entry(sb, e, j, r) * entry(at, e, r, k);
    let g = |r: int| entry(p.b, e, r, j) * v * entry(p.a, e, k, r);
    assert forall|r: int| 0 <= r < p.a.shape[1] implies #[trigger] f(r) == g(r) by {
        lemma_in_matrix(bt, j, r);
        lemma_entry_scaled(bt, s, e, j, r);
        lemma_entry_transposed(p.b, e, j, r);
        lemma_entry_transposed(p.a, e, r, k);
    }
    lemma_total_same(p.a.shape[1] as int, f, g);
    let d = matrix_product(sb, at)->0;
    let c = converted(d, w.dtype)->0;
    lemma_entry_sum(w, c, e, j, k);
}

/// Working the adapter into the weight changes nothing: with
/// `d(k) = (s b^T) a^T`, `x (w + d)` is `x w` and `s` times `(x a) b`.
proof fn lemma_worked_in(x: Tensor, w: Tensor, p: Factors, s: int, e: Entries, i: int, j: int)
    requires
        x.shape.len() >= 1,
    ensures
        total(
            x.shape.last() as int,
            |k: int| entry(x, e, i, k) * (entry(w, e, j, k) + delta_value(p, s, e, j, k)),
        ) == plain_value(x, w, e, i, j) + low_rank_value(x, p, e, i, j) * s,
{
    let n = x.shape.last() as int;
    let m = p.a.shape[1] as int;
    let plain = |k: int| entry(x, e, i, k) * entry(w, e, j, k);
    let h = |k: int, r: int| entry(p.b, e, r, j) * s * entry(p.a, e, k, r) * entry(x, e, i, k);
    let extra = |k: int| total(m, |r: int| h(k, r));
    let all = |k: int| entry(x, e, i, k) * (entry(w, e, j, k) + delta_value(p, s, e, j, k));
    assert forall|k: int| 0 <= k < n implies #[trigger] all(k) == plain(k) + extra(k) by {
        let f = |r: int| entry(p.b, e, r, j) * s * entry(p.a, e, k, r);
        lemma_total_times(m, f, entry(x, e, i, k));
        lemma_total_same(m, |r: int| f(r) * entry(x, e, i, k), |r: int| h(k, r));
        let (a, b, c) = (entry(x, e, i, k), entry(w, e, j, k), delta_value(p, s, e, j, k));
        assert(a * (b + c) == a * b + c * a) by (nonlinear_arith);
    }
    lemma_total_same(n, all, |k: int| plain(k) + extra(k));
    lemma_total_sum(n, plain, extra);
    lemma_total_swapped(n, m, h);
    let low = |r: int|
        total(n, |k: int| entry(x, e, i, k) * entry(p.a, e, k, r)) * entry(p.b, e, r, j);
    let column = |r: int| total(n, |k: int| h(k, r));
    assert forall|r: int| 0 <= r < m implies #[trigger] column(r) == low(r) * s by {
        let f = |k: int| entry(x, e, i, k) * entry(p.a, e, k, r);
        let c = entry(p.b, e, r, j) * s;
        lemma_total_times(n, f, c);
        let g = |k: int| f(k) * c;
        let hr = |k: int| h(k, r);
        assert forall|k: int| 0 <= k < n implies #[trigger] g(k) == hr(k) by {
            let (u, v, b) = (entry(x, e, i, k), entry(p.a, e, k, r), entry(p.b, e, r, j));
            assert((u * v) * (b * s) == b * s * v * u) by (nonlinear_arith);
        }
        lemma_total_same(n, g, hr);
        let (t, b) = (total(n, f), entry(p.b, e, r, j));
        assert(t * (b * s) == (t * b) * s) by (nonlinear_arith);
    }
    lemma_total_same(m, column, |r: int| low(r) * s);
    lemma_total_times(m, low, s);
}

/// `x W^T` for the weight with the adapter worked in.
proof fn lemma_adapted_applied(
    base: LinearModel,
    p: Factors,
    scale: Scale,
    x: Tensor,
    e: Entries,
    i: int,
    j: int,
)
    requires
        factors_fit(base, p),
        adapted_weight(base, p, scale) is Some,
        base.full_weight()->0.shape == seq![p.b.shape[1], p.a.shape[0]],
        x.shape.len() >= 1,
        x.shape.last() == p.a.shape[0],
        0 <= j < p.b.shape[1],
    ensures
        scale_array(scale) is Some,
        plain_value(x, adapted_weight(base, p, scale)->0, e, i, j) == plain_value(
            x,
            base.full_weight()->0,
            e,
            i,
            j,
        ) + low_rank_value(x, p, e, i, j) * entry(scale_array(scale)->0, e, 0, 0),
{
    let w = base.full_weight()->0;
    let adapted = adapted_weight(base, p, scale)->0;
    let s = entry(scale_array(scale)->0, e, 0, 0);
    let n = x.shape.last() as int;
    let f = |k: int| entry(x, e, i, k) * entry(adapted, e, j, k);
    let g = |k: int| entry(x, e, i, k) * (entry(w, e, j, k) + delta_value(p, s, e, j, k));
    assert forall|k: int| 0 <= k < n implies #[trigger] f(k) == g(k) by {
        lemma_adapted(base, p, scale, e, j, k);
    }
    lemma_total_same(n, f, g);
    lemma_worked_in(x, w, p, s, e, i, j);
}

/// Whether a layer is made of parts that fit together and its weight is a
/// matrix.
pub open spec fn layer_fits(layer: LayerModel) -> bool {
    let (base, p) = match layer {
        LayerModel::Lora { base, factors, .. } => (base, factors),
        LayerModel::Dora { base, factors, .. } => (base, factors),
    };
    &&& factors_fit(base, p)
    &&& base.full_weight() is Some
    &&& base.full_weight()->0.shape.len() == 2
    &&& bias_fits(base.bias(), p.b.shape[1])
    &&& match layer {
        LayerModel::Lora { .. } => true,
        LayerModel::Dora { magnitude, .. } => magnitude_fits(base, magnitude),
    }
}

proof fn lemma_weight_shape(base: LinearModel, p: Factors)
    requires
        factors_fit(base, p),
        base.full_weight() is Some,
        base.full_weight()->0.shape.len() == 2,
    ensures
        base.full_weight()->0.shape == seq![p.b.shape[1], p.a.shape[0]],
{
    assert(base.full_weight()->0.shape =~= seq![p.b.shape[1], p.a.shape[0]]);
}

proof fn lemma_lora(
    base: LinearModel,
    p: Factors,
    scale: Scale,
    x: Tensor,
    e: Entries,
    i: int,
    j: int,
)
    requires
        ({
            let layer = LayerModel::Lora { base, factors: p, scale };
            &&& layer_fits(layer)
            &&& x.shape.len() >= 1
            &&& layer.output(x) is Some
            &&& layer.fused_weight() is Some
            &&& in_rows(layer.output(x)->0, i, j)
        }),
    ensures
        ({
            let layer = LayerModel::Lora { base, factors: p, scale };
            let y = layer.output(x)->0;
            &&& layer.fused_weight()->0.shape == seq![p.b.shape[1], p.a.shape[0]]
            &&& y.shape == with_width(x.shape, p.b.shape[1])
            &&& x.shape.last() == p.a.shape[0]
            &&& entry(y, e, i, j) == plain_value(x, layer.fused_weight()->0, e, i, j) + bias_value(
                base.bias(),
                e,
                j,
            )
        }),
{
    reveal(LayerModel::output);
    reveal(LayerModel::fused_weight);
    let layer = LayerModel::Lora { base, factors: p, scale };
    let adapted = adapted_weight(base, p, scale)->0;
    let w = base.full_weight()->0;
    let y = base.applied(x)->0;
    let b = base.output(x)->0;
    let t = scaled_term(x, p, scale)->0;
    lemma_weight_shape(base, p);
    lemma_applied(base, x, e, i, j);
    let xa = matrix_product(x, p.a)->0;
    lemma_width(x.shape, p.a.shape[1], p.b.shape[1]);
    lemma_width(x.shape, p.b.shape[1], p.b.shape[1]);
    lemma_entry_product(x, p.a, e, i, j);
    match base.bias() {
        Some(c) => {
            assert(c.shape =~= seq![y.shape.last()]);
            lemma_row_broadcast(y.shape, y.shape.last());
        },
        None => {},
    }
    assert(b.shape == y.shape);
    lemma_entry_product(xa, p.b, e, i, j);
    lemma_scale_shape(scale);
    let zz = matrix_product(xa, p.b)->0;
    lemma_row_broadcast(zz.shape, 1);
    assert(t.shape == b.shape);
    broadcast_self(b.shape);
    assert(layer.output(x)->0.shape == y.shape);
    lemma_term(base, p, scale, x, e, i, j);
    lemma_entry_sum(b, t, e, i, j);
    lemma_adapted_applied(base, p, scale, x, e, i, j);
    lemma_adapted_shape(base, p, scale);
    match base.bias() {
        Some(c) => {
            lemma_entry_biased(y, c, e, i, j);
        },
        None => {},
    }
}

proof fn lemma_adapted_shape(base: LinearModel, p: Factors, scale: Scale)
    requires
        factors_fit(base, p),
        adapted_weight(base, p, scale) is Some,
        base.full_weight()->0.shape == seq![p.b.shape[1], p.a.shape[0]],
    ensures
        adapted_weight(base, p, scale)->0.shape == base.full_weight()->0.shape,
{
    let e = |t: Tensor, i: int, j: int| 0int;
    let s = scale_array(scale)->0;
    let w = base.full_weight()->0;
    let bt = transposed(p.b)->0;
    let at = transposed(p.a)->0;
    let sb = product(bt, s)->0;
    lemma_scale_shape(scale);
    lemma_entry_transposed(p.b, e, 0, 0);
    lemma_entry_transposed(p.a, e, 0, 0);
    assert(broadcast(bt.shape, s.shape) =~= bt.shape);
    lemma_width(sb.shape, at.shape[1], at.shape[1]);
    lemma_entry_product(sb, at, e, 0, 0);
    broadcast_self(w.shape);
}

proof fn lemma_dora(
    base: LinearModel,
    p: Factors,
    magnitude: Tensor,
    scale: Scale,
    x: Tensor,
    e: Entries,
    i: int,
    j: int,
)
    requires
        ({
            let layer = LayerModel::Dora { base, factors: p, magnitude, scale };
            &&& layer_fits(layer)
            &&& x.shape.len() >= 1
            &&& layer.output(x) is Some
            &&& layer.fused_weight() is Some
            &&& in_rows(layer.output(x)->0, i, j)
        }),
    ensures
        ({
            let layer = LayerModel::Dora { base, factors: p, magnitude, scale };
            let y = layer.output(x)->0;
            &&& layer.fused_weight()->0.shape == seq![p.b.shape[1], p.a.shape[0]]
            &&& y.shape == with_width(x.shape, p.b.shape[1])
            &&& x.shape.last() == p.a.shape[0]
            &&& entry(y, e, i, j) == plain_value(x, layer.fused_weight()->0, e, i, j) + bias_value(
                base.bias(),
                e,
                j,
            )
        }),
{
    reveal(LayerModel::output);
    reveal(LayerModel::fused_weight);
    let layer = LayerModel::Dora { base, factors: p, magnitude, scale };
    let adapted = adapted_weight(base, p, scale)->0;
    let w = base.full_weight()->0;
    let y = base.applied(x)->0;
    let t = scaled_term(x, p, scale)->0;
    let out = sum(y, t)->0;
    let q = row_scales(adapted, magnitude)->0;
    let c = converted(q, x.dtype)->0;
    let column = with_last_axis(q)->0;
    let weight = product(column, adapted)->0;
    let scaled_out = product(out, c)->0;
    lemma_weight_shape(base, p);
    lemma_adapted_shape(base, p, scale);
    lemma_applied(base, x, e, i, j);
    let xa = matrix_product(x, p.a)->0;
    lemma_width(x.shape, p.a.shape[1], p.b.shape[1]);
    lemma_width(x.shape, p.b.shape[1], p.b.shape[1]);
    lemma_entry_product(x, p.a, e, i, j);
    lemma_entry_product(xa, p.b, e, i, j);
    lemma_scale_shape(scale);
    let zz = matrix_product(xa, p.b)->0;
    lemma_row_broadcast(zz.shape, 1);
    assert(t.shape == y.shape);
    broadcast_self(y.shape);
    assert(out.shape == y.shape);
    let n_out = p.b.shape[1];
    assert(magnitude.shape =~= seq![n_out]);
    broadcast_self(seq![n_out]);
    assert(q.shape == seq![n_out]);
    lemma_row_broadcast(out.shape, n_out);
    assert(scaled_out.shape == y.shape);
    match base.bias() {
        Some(b) => {
            assert(b.shape =~= seq![y.shape.last()]);
            lemma_row_broadcast(scaled_out.shape, y.shape.last());
        },
        None => {},
    }
    assert(layer.output(x)->0.shape == y.shape);
    assert(column.shape =~= seq![n_out, 1usize]);
    assert(broadcast(column.shape, adapted.shape) =~= adapted.shape);
    lemma_term(base, p, scale, x, e, i, j);
    lemma_entry_sum(y, t, e, i, j);
    lemma_adapted_applied(base, p, scale, x, e, i, j);
    let d = entry(q, e, 0, j);
    assert(entry(c, e, 0, j) == d);
    if out.shape.len() == 1 {
        lemma_one_row(out, i, j);
    }
    assert(row_of(out, out.shape, i) == i && column_of(out, out.shape, j) == j);
    assert(row_of(c, out.shape, i) == 0 && column_of(c, out.shape, j) == j);
    assert(entry(scaled_out, e, i, j) == entry(out, e, i, j) * d);
    let n = x.shape.last() as int;
    let f = |k: int| entry(x, e, i, k) * entry(weight, e, j, k);
    let g = |k: int| entry(x, e, i, k) * entry(adapted, e, j, k);
    assert forall|k: int| 0 <= k < n implies #[trigger] f(k) == g(k) * d by {
        assert(entry(weight, e, j, k) == d * entry(adapted, e, j, k)) by {
            assert(entry(column, e, j, 0) == entry(q, e, 0, j));
        }
        let (u, v) = (entry(x, e, i, k), entry(adapted, e, j, k));
        assert(u * (d * v) == (u * v) * d) by (nonlinear_arith);
    }
    lemma_total_same(n, f, |k: int| g(k) * d);
    lemma_total_times(n, g, d);
    match base.bias() {
        Some(b) => {
            lemma_entry_biased(scaled_out, b, e, i, j);
        },
        None => {},
    }
}

/// What a plain layer gives: `x W^T` and the bias.
proof fn lemma_output_value(f: LinearModel, x: Tensor, e: Entries, i: int, j: int)
    requires
        x.shape.len() >= 1,
        f.output(x) is Some,
        f.full_weight() is Some,
        f.full_weight()->0.shape.len() == 2,
        bias_fits(f.bias(), f.full_weight()->0.shape[0]),
        0 <= i < elements(x.shape.drop_last()),
        0 <= j < f.full_weight()->0.shape[0],
    ensures
        f.output(x)->0.shape == with_width(x.shape, f.full_weight()->0.shape[0]),
        entry(f.output(x)->0, e, i, j) == plain_value(x, f.full_weight()->0, e, i, j) + bias_value(
            f.bias(),
            e,
            j,
        ),
{
    let n = f.full_weight()->0.shape[0];
    let y = f.applied(x)->0;
    lemma_applied(f, x, e, i, j);
    lemma_width(x.shape, n, n);
    match f.bias() {
        Some(c) => {
            assert(c.shape =~= seq![y.shape.last()]);
            lemma_entry_biased(y, c, e, i, j);
        },
        None => {},
    }
}

/// The number of outputs of an adapted layer.
spec fn layer_outputs(layer: LayerModel) -> usize {
    match layer {
        LayerModel::Lora { factors, .. } => factors.b.shape[1],
        LayerModel::Dora { factors, .. } => factors.b.shape[1],
    }
}

/// What an adapted layer gives: `x W^T` for the fused weight, and the bias.
proof fn lemma_layer_value(layer: LayerModel, x: Tensor, e: Entries, i: int, j: int)
    requires
        layer_fits(layer),
        x.shape.len() >= 1,
        layer.output(x) is Some,
        layer.fused_weight() is Some,
        in_rows(layer.output(x)->0, i, j),
    ensures
        layer.fused_weight()->0.shape == seq![layer_outputs(layer), x.shape.last()],
        bias_fits(layer.base().bias(), layer_outputs(layer)),
        layer.output(x)->0.shape == with_width(x.shape, layer_outputs(layer)),
        entry(layer.output(x)->0, e, i, j) == plain_value(x, layer.fused_weight()->0, e, i, j)
            + bias_value(layer.base().bias(), e, j),
{
    match layer {
        LayerModel::Lora { base, factors, scale } => {
            lemma_lora(base, factors, scale, x, e, i, j);
        },
        LayerModel::Dora { base, factors, magnitude, scale } => {
            lemma_dora(base, factors, magnitude, scale, x, e, i, j);
        },
    }
}

/// Whether the weight of `f` holds the numbers of `w` in row `j`: always for a
/// plain weight, and for a quantized one where quantizing loses nothing.
pub open spec fn row_survives(f: LinearModel, w: Tensor, e: Entries, j: int) -> bool {
    &&& f.full_weight() is Some
    &&& f.full_weight()->0.shape == w.shape
    &&& forall|k: int|
        0 <= k < w.shape[1] ==> #[trigger] entry(f.full_weight()->0, e, j, k) == entry(w, e, j, k)
}

proof fn lemma_same_rows(f: LinearModel, w: Tensor, x: Tensor, e: Entries, i: int, j: int)
    requires
        x.shape.len() >= 1,
        f.output(x) is Some,
        w.shape.len() == 2,
        w.shape[1] == x.shape.last(),
        bias_fits(f.bias(), w.shape[0]),
        row_survives(f, w, e, j),
        0 <= i < elements(x.shape.drop_last()),
        0 <= j < w.shape[0],
    ensures
        f.output(x)->0.shape == with_width(x.shape, w.shape[0]),
        entry(f.output(x)->0, e, i, j) == plain_value(x, w, e, i, j) + bias_value(f.bias(), e, j),
{
    lemma_output_value(f, x, e, i, j);
    lemma_total_same(
        x.shape.last() as int,
        |k: int| entry(x, e, i, k) * entry(f.full_weight()->0, e, j, k),
        |k: int| entry(x, e, i, k) * entry(w, e, j, k),
    );
}

/// A dense fused layer holds the fused weight itself.
pub proof fn dense_rows_survive(layer: LayerModel, dequantize: bool, e: Entries, j: int)
    requires
        layer.fused(dequantize) is Ok,
        layer.fused(dequantize)->Ok_0 is Dense,
    ensures
        row_survives(layer.fused(dequantize)->Ok_0, layer.fused_weight()->0, e, j),
{
}

/// Fusing changes nothing but rounding: in exact arithmetic the plain layer
/// that fusing gives has the same outputs as the adapted layer, for inputs of
/// any shape and whatever the arrays hold, as far as quantizing the fused
/// weight again, where it is, loses nothing.
pub proof fn fused_layer_gives_the_same(
    layer: LayerModel,
    dequantize: bool,
    x: Tensor,
    e: Entries,
    i: int,
    j: int,
)
    requires
        layer_fits(layer),
        x.shape.len() >= 1,
        layer.output(x) is Some,
        layer.fused(dequantize) is Ok,
        layer.fused(dequantize)->Ok_0.output(x) is Some,
        in_rows(layer.output(x)->0, i, j),
        layer.fused(dequantize)->Ok_0 is Quantized ==> row_survives(
            layer.fused(dequantize)->Ok_0,
            layer.fused_weight()->0,
            e,
            j,
        ),
    ensures
        layer.fused(dequantize)->Ok_0.output(x)->0.shape == layer.output(x)->0.shape,
        entry(layer.fused(dequantize)->Ok_0.output(x)->0, e, i, j) == entry(
            layer.output(x)->0,
            e,
            i,
            j,
        ),
{
    let f = layer.fused(dequantize)->Ok_0;
    let n = layer_outputs(layer);
    lemma_layer_value(layer, x, e, i, j);
    lemma_width(x.shape, n, n);
    if f is Dense {
        dense_rows_survive(layer, dequantize, e, j);
    }
    fused_layer_keeps_its_kind(layer, dequantize);
    lemma_same_rows(f, layer.fused_weight()->0, x, e, i, j);
}

/// What kind of layer fusing gives: a quantized one of the same scheme exactly
/// where the layer was quantized and is not to be left dense, and always one
/// with the bias of the layer.
pub proof fn fused_layer_keeps_its_kind(layer: LayerModel, dequantize: bool)
    requires
        layer.fused(dequantize) is Ok,
    ensures
        layer.fused(dequantize)->Ok_0 is Quantized <==> layer.base() is Quantized && !dequantize,
        layer.fused(dequantize)->Ok_0.bias() == layer.base().bias(),
        match (layer.fused(dequantize)->Ok_0, layer.base()) {
            (
                LinearModel::Quantized { group_size, bits, mode, .. },
                LinearModel::Quantized { group_size: g, bits: b, mode: m, .. },
            ) => group_size == g && bits == b && mode == m,
            (LinearModel::Dense { weight, .. }, _) => layer.fused_weight() == Some(weight),
            _ => false,
        },
{
}

/// The layer with a low-rank adapter.
pub open spec fn plain_adapted(base: LinearModel, p: Factors, scale: Scale) -> LayerModel {
    LayerModel::Lora { base, factors: p, scale }
}

/// An adapter whose second factor is zero changes nothing.
pub proof fn zero_factor_changes_nothing(
    base: LinearModel,
    p: Factors,
    scale: Scale,
    x: Tensor,
    e: Entries,
    i: int,
    j: int,
)
    requires
        layer_fits(plain_adapted(base, p, scale)),
        x.shape.len() >= 1,
        plain_adapted(base, p, scale).output(x) is Some,
        in_rows(base.output(x)->0, i, j),
        forall|r: int| 0 <= r < p.b.shape[0] ==> #[trigger] entry(p.b, e, r, j) == 0,
    ensures
        entry(plain_adapted(base, p, scale).output(x)->0, e, i, j) == entry(
            base.output(x)->0,
            e,
            i,
            j,
        ),
{
    reveal(LayerModel::output);
    let y = base.applied(x)->0;
    let b = base.output(x)->0;
    let t = scaled_term(x, p, scale)->0;
    lemma_weight_shape(base, p);
    lemma_width(x.shape, p.b.shape[1], p.b.shape[1]);
    lemma_applied(base, x, e, i, j);
    match base.bias() {
        Some(c) => {
            assert(c.shape =~= seq![y.shape.last()]);
            lemma_row_broadcast(y.shape, y.shape.last());
        },
        None => {},
    }
    assert(b.shape == y.shape);
    lemma_term(base, p, scale, x, e, i, j);
    lemma_entry_sum(b, t, e, i, j);
    let low = |r: int|
        total(x.shape.last() as int, |k: int| entry(x, e, i, k) * entry(p.a, e, k, r)) * entry(
            p.b,
            e,
            r,
            j,
        );
    assert forall|r: int| 0 <= r < p.a.shape[1] implies #[trigger] low(r) == 0 by {
        assert(entry(p.b, e, r, j) == 0);
    }
    lemma_total_zero(p.a.shape[1] as int, low);
}

/// A plain layer gives `x W^T` and the bias.
pub proof fn plain_layer_applies_its_weight(f: LinearModel, x: Tensor, e: Entries, i: int, j: int)
    requires
        x.shape.len() >= 1,
        f.output(x) is Some,
        f.full_weight() is Some,
        f.full_weight()->0.shape.len() == 2,
        bias_fits(f.bias(), f.full_weight()->0.shape[0]),
        0 <= i < elements(x.shape.drop_last()),
        0 <= j < f.full_weight()->0.shape[0],
    ensures
        f.output(x)->0.shape == with_width(x.shape, f.full_weight()->0.shape[0]),
        entry(f.output(x)->0, e, i, j) == total(
            x.shape.last() as int,
            |k: int| entry(x, e, i, k) * entry(f.full_weight()->0, e, j, k),
        ) + bias_value(f.bias(), e, j),
{
    lemma_output_value(f, x, e, i, j);
}

/// A layer with a low-rank adapter gives `x W^T`, the bias, and the scale times
/// `(x a) b`.
pub proof fn adapted_layer_adds_the_low_rank_term(
    base: LinearModel,
    p: Factors,
    scale: Scale,
    x: Tensor,
    e: Entries,
    i: int,
    j: int,
)
    requires
        layer_fits(plain_adapted(base, p, scale)),
        x.shape.len() >= 1,
        plain_adapted(base, p, scale).output(x) is Some,
        in_rows(plain_adapted(base, p, scale).output(x)->0, i, j),
    ensures
        scale_array(scale) is Some,
        plain_adapted(base, p, scale).output(x)->0.shape == with_width(x.shape, p.b.shape[1]),
        entry(plain_adapted(base, p, scale).output(x)->0, e, i, j) == plain_value(
            x,
            base.full_weight()->0,
            e,
            i,
            j,
        ) + bias_value(base.bias(), e, j) + low_rank_value(x, p, e, i, j) * entry(
            scale_array(scale)->0,
            e,
            0,
            0,
        ),
{
    reveal(LayerModel::output);
    let layer = plain_adapted(base, p, scale);
    let y = base.applied(x)->0;
    let b = base.output(x)->0;
    let t = scaled_term(x, p, scale)->0;
    lemma_weight_shape(base, p);
    lemma_applied(base, x, e, i, j);
    let xa = matrix_product(x, p.a)->0;
    lemma_width(x.shape, p.a.shape[1], p.b.shape[1]);
    lemma_width(x.shape, p.b.shape[1], p.b.shape[1]);
    lemma_entry_product(x, p.a, e, i, j);
    match base.bias() {
        Some(c) => {
            assert(c.shape =~= seq![y.shape.last()]);
            lemma_row_broadcast(y.shape, y.shape.last());
        },
        None => {},
    }
    lemma_entry_product(xa, p.b, e, i, j);
    lemma_scale_shape(scale);
    lemma_row_broadcast(matrix_product(xa, p.b)->0.shape, 1);
    assert(t.shape == b.shape);
    broadcast_self(b.shape);
    assert(layer.output(x)->0.shape == y.shape);
    lemma_term(base, p, scale, x, e, i, j);
    lemma_entry_sum(b, t, e, i, j);
    match base.bias() {
        Some(c) => {
            lemma_entry_biased(y, c, e, i, j);
        },
        None => {},
    }
}

/// The layer with a weight-decomposed adapter.
pub open spec fn decomposed(
    base: LinearModel,
    p: Factors,
    magnitude: Tensor,
    scale: Scale,
) -> LayerModel {
    LayerModel::Dora { base, factors: p, magnitude, scale }
}

/// A layer with a weight-decomposed adapter gives `x W^T` and the scale times
/// `(x a) b`, both times the factor of the output, and then the bias. The
/// factors are the given norms divided by those of the rows of the weight with
/// the adapter.
#[verifier::rlimit(40)]
pub proof fn decomposed_layer_rescales_its_outputs(
    base: LinearModel,
    p: Factors,
    magnitude: Tensor,
    scale: Scale,
    x: Tensor,
    e: Entries,
    i: int,
    j: int,
)
    requires
        layer_fits(decomposed(base, p, magnitude, scale)),
        x.shape.len() >= 1,
        decomposed(base, p, magnitude, scale).output(x) is Some,
        in_rows(decomposed(base, p, magnitude, scale).output(x)->0, i, j),
    ensures
        scale_array(scale) is Some,
        adapted_weight(base, p, scale) is Some,
        row_scales(adapted_weight(base, p, scale)->0, magnitude) is Some,
        decomposed(base, p, magnitude, scale).output(x)->0.shape == with_width(
            x.shape,
            p.b.shape[1],
        ),
        entry(decomposed(base, p, magnitude, scale).output(x)->0, e, i, j) == (plain_value(
            x,
            base.full_weight()->0,
            e,
            i,
            j,
        ) + low_rank_value(x, p, e, i, j) * entry(scale_array(scale)->0, e, 0, 0)) * entry(
            row_scales(adapted_weight(base, p, scale)->0, magnitude)->0,
            e,
            0,
            j,
        ) + bias_value(base.bias(), e, j),
{
    reveal(LayerModel::output);
    let layer = decomposed(base, p, magnitude, scale);
    let adapted = adapted_weight(base, p, scale)->0;
    let y = base.applied(x)->0;
    let t = scaled_term(x, p, scale)->0;
    let out = sum(y, t)->0;
    let q = row_scales(adapted, magnitude)->0;
    let c = converted(q, x.dtype)->0;
    let scaled_out = product(out, c)->0;
    lemma_weight_shape(base, p);
    lemma_adapted_shape(base, p, scale);
    lemma_applied(base, x, e, i, j);
    let xa = matrix_product(x, p.a)->0;
    lemma_width(x.shape, p.a.shape[1], p.b.shape[1]);
    lemma_width(x.shape, p.b.shape[1], p.b.shape[1]);
    lemma_entry_product(x, p.a, e, i, j);
    lemma_entry_product(xa, p.b, e, i, j);
    lemma_scale_shape(scale);
    lemma_row_broadcast(matrix_product(xa, p.b)->0.shape, 1);
    assert(t.shape == y.shape);
    broadcast_self(y.shape);
    assert(out.shape == y.shape);
    let n_out = p.b.shape[1];
    assert(magnitude.shape =~= seq![n_out]);
    broadcast_self(seq![n_out]);
    assert(q.shape == seq![n_out]);
    lemma_row_broadcast(out.shape, n_out);
    assert(scaled_out.shape == y.shape);
    match base.bias() {
        Some(b) => {
            assert(b.shape =~= seq![y.shape.last()]);
            lemma_row_broadcast(scaled_out.shape, y.shape.last());
        },
        None => {},
    }
    assert(layer.output(x)->0.shape == y.shape);
    lemma_term(base, p, scale, x, e, i, j);
    lemma_entry_sum(y, t, e, i, j);
    let d = entry(q, e, 0, j);
    assert(entry(c, e, 0, j) == d);
    if out.shape.len() == 1 {
        lemma_one_row(out, i, j);
    }
    assert(row_of(out, out.shape, i) == i && column_of(out, out.shape, j) == j);
    assert(row_of(c, out.shape, i) == 0 && column_of(c, out.shape, j) == j);
    assert(entry(scaled_out, e, i, j) == entry(out, e, i, j) * d);
    match base.bias() {
        Some(b) => {
            lemma_entry_biased(scaled_out, b, e, i, j);
        },
        None => {},
    }
}

/// The weight with an adapter holds the weight of the layer and the scale times
/// the product of the factors, whose columns and rows are the outputs and the
/// inputs.
pub proof fn adapted_weight_adds_the_product(
    base: LinearModel,
    p: Factors,
    scale: Scale,
    e: Entries,
    j: int,
    k: int,
)
    requires
        layer_fits(plain_adapted(base, p, scale)),
        adapted_weight(base, p, scale) is Some,
        0 <= j < p.b.shape[1],
        0 <= k < p.a.shape[0],
    ensures
        scale_array(scale) is Some,
        adapted_weight(base, p, scale)->0.shape == seq![p.b.shape[1], p.a.shape[0]],
        entry(adapted_weight(base, p, scale)->0, e, j, k) == entry(
            base.full_weight()->0,
            e,
            j,
            k,
        ) + delta_value(p, entry(scale_array(scale)->0, e, 0, 0), e, j, k),
        plain_adapted(base, p, scale).fused_weight() == adapted_weight(base, p, scale),
{
    reveal(LayerModel::fused_weight);
    lemma_weight_shape(base, p);
    lemma_adapted(base, p, scale, e, j, k);
}

/// The parts of a layer that is quantized again are those of the fused weight
/// itself, quantized as the layer was.
pub proof fn fused_weight_is_quantized_again(layer: LayerModel)
    requires
        layer.fused(false) is Ok,
        layer.base() is Quantized,
    ensures
        match (layer.fused(false)->Ok_0, layer.base()) {
            (
                LinearModel::Quantized { weight, scales, quant_biases, .. },
                LinearModel::Quantized { group_size, bits, mode, .. },
            ) => quantized_parts(layer.fused_weight()->0, mode, group_size, bits) == Some(
                (weight, scales, quant_biases),
            ),
            _ => false,
        },
{
}

/// A plain layer is made exactly of a matrix and, where there is one, of a bias
/// with a number for each of its rows; a quantized one exactly with offsets
/// where its scheme has them, and with a positive group size and number of
/// bits.
pub proof fn layers_are_made_of_what_fits(
    weight: Tensor,
    scales: Tensor,
    offsets: Option<Tensor>,
    bias: Option<Tensor>,
    group_size: i32,
    bits: i32,
    mode: QuantMode,
)
    ensures
        dense_of(weight, bias) is Ok <==> weight.shape.len() == 2 && (bias matches Some(b)
            ==> b.shape.len() == 1 && b.shape[0] == weight.shape[0]),
        quantized_of(weight, scales, offsets, bias, group_size, bits, mode) is Ok <==> (offsets is Some
            <==> mode == QuantMode::Affine) && group_size > 0 && bits > 0,
{
}

} // verus!
