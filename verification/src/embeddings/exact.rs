//! What pooling gives, in exact arithmetic.
use vstd::prelude::*;

use crate::array::{Op, Tensor};
use crate::embeddings::pool::{
    evened, gathered, narrowed, poolable, pooled, pooled_shape, PoolingStrategy,
};
use crate::exact::{
    lemma_pooled, lemma_rows, lemma_total_same, lemma_total_times, marks, mean_of, pooled_number,
    re, reals, squares_about, total, Meaning,
};
use crate::shape::fits;

verus! {

/// Bringing vectors to length one comes last, whatever else is asked for: with
/// it the result is the array without it, row by row divided by its length.
pub proof fn normalizing_comes_last(
    hidden: Tensor,
    mask: Tensor,
    strategy: PoolingStrategy,
    dimension: Option<usize>,
    layer_norm: bool,
    rms_norm: bool,
)
    requires
        fits(hidden.shape),
    ensures
        ({
            let y = pooled(hidden, mask, strategy, true, dimension, layer_norm, rms_norm);
            let x = pooled(hidden, mask, strategy, false, dimension, layer_norm, rms_norm);
            &&& y is Some <==> x is Some
            &&& y is Some ==> {
                &&& y->0.op == Op::NormalizeRows
                &&& y->0.args == seq![x->0]
                &&& y->0.shape == x->0.shape
                &&& y->0.dtype == x->0.dtype
            }
        }),
{
    if poolable(hidden, mask) && gathered(hidden, mask, strategy) is Some {
        let g = gathered(hidden, mask, strategy)->0;
        if evened(g, layer_norm, rms_norm) is Some {
            let e = evened(g, layer_norm, rms_norm)->0;
            if narrowed(e, dimension) is Some {
                assert(fits(narrowed(e, dimension)->0.shape));
            }
        }
    }
}

proof fn lemma_row_place(row: int, j: int, w: int)
    requires
        0 <= j < w,
    ensures
        (row * w + j) / w == row,
        (row * w + j) % w == j,
{
    assert((row * w + j) / w == row && (row * w + j) % w == j) by (nonlinear_arith)
        requires
            0 <= j < w,
    ;
}

/// Where vectors are brought to length one, the squares of a vector's numbers
/// add up to one, unless all of them are zero, and each is its number before
/// divided by the vector's length.
pub proof fn normalized_vectors_have_length_one(
    hidden: Tensor,
    mask: Tensor,
    strategy: PoolingStrategy,
    dimension: Option<usize>,
    layer_norm: bool,
    rms_norm: bool,
    m: Meaning,
    row: int,
)
    requires
        fits(hidden.shape),
        pooled(hidden, mask, strategy, true, dimension, layer_norm, rms_norm) is Some,
        m.has_roots(),
    ensures
        ({
            let y = pooled(hidden, mask, strategy, true, dimension, layer_norm, rms_norm)->0;
            let x = pooled(hidden, mask, strategy, false, dimension, layer_norm, rms_norm)->0;
            let w = y.shape.last() as int;
            let square = total(w, |j: int| re(x, m, row * w + j) * re(x, m, row * w + j));
            square > 0real ==> {
                &&& total(w, |j: int| re(y, m, row * w + j) * re(y, m, row * w + j)) == 1real
                &&& forall|j: int|
                    0 <= j < w ==> #[trigger] re(y, m, row * w + j) * (m.root)(square) == re(
                        x,
                        m,
                        row * w + j,
                    )
            }
        }),
{
    normalizing_comes_last(hidden, mask, strategy, dimension, layer_norm, rms_norm);
    let y = pooled(hidden, mask, strategy, true, dimension, layer_norm, rms_norm)->0;
    let x = pooled(hidden, mask, strategy, false, dimension, layer_norm, rms_norm)->0;
    let w = y.shape.last() as int;
    let before = |j: int| re(x, m, row * w + j) * re(x, m, row * w + j);
    let after = |j: int| re(y, m, row * w + j) * re(y, m, row * w + j);
    let square = total(w, before);
    if square > 0real {
        let len = (m.root)(square);
        assert(len >= 0real && len * len == square);
        assert(len > 0real) by (nonlinear_arith)
            requires
                len >= 0real,
                len * len > 0real,
        ;
        let c = 1real / square;
        assert forall|j: int| 0 <= j < w implies #[trigger] re(y, m, row * w + j) * len == re(
            x,
            m,
            row * w + j,
        ) && after(j) == c * before(j) by {
            let k = row * w + j;
            lemma_row_place(row, j, w);
            lemma_rows(y, m, k);
            assert(y.args[0] == x);
            let inner = reals(x, m, k / w * w, 1);
            assert(squares_about(w, inner, 0real) == square) by {
                assert forall|i: int| 0 <= i < w implies #[trigger] before(i) == (|i: int|
                    (inner(i) - 0real) * (inner(i) - 0real))(i) by {
                    let unit = 1int;
                    assert(i * unit == i) by (nonlinear_arith)
                        requires
                            unit == 1,
                    ;
                }
                lemma_total_same(
                    w,
                    before,
                    |i: int| (inner(i) - 0real) * (inner(i) - 0real),
                );
            }
            let (p, q) = (re(y, m, k), re(x, m, k));
            assert(p == q / len);
            assert(p * len == q) by (nonlinear_arith)
                requires
                    p == q / len,
                    len > 0real,
            ;
            assert(p * p == c * (q * q)) by (nonlinear_arith)
                requires
                    p * len == q,
                    len * len == square,
                    c == 1real / square,
                    square > 0real,
            ;
        }
        assert forall|j: int| 0 <= j < w implies #[trigger] after(j) == (|i: int|
            c * before(i))(j) by {
            assert(re(y, m, row * w + j) * len == re(x, m, row * w + j));
        }
        lemma_total_same(w, after, |i: int| c * before(i));
        lemma_total_times(w, c, before);
        assert(c * square == 1real) by (nonlinear_arith)
            requires
                c == 1real / square,
                square > 0real,
        ;
    }
}

/// Narrowing takes the first numbers of each vector as they are, whatever else
/// is asked for, before vectors are brought to length one.
pub proof fn narrowing_takes_the_first_numbers(
    hidden: Tensor,
    mask: Tensor,
    strategy: PoolingStrategy,
    dimension: Option<usize>,
    layer_norm: bool,
    rms_norm: bool,
    m: Meaning,
    row: int,
    j: int,
)
    requires
        pooled(hidden, mask, strategy, false, dimension, layer_norm, rms_norm) is Some,
        0 <= j < pooled(hidden, mask, strategy, false, dimension, layer_norm, rms_norm)->0.shape.last(),
    ensures
        ({
            let y = pooled(hidden, mask, strategy, false, dimension, layer_norm, rms_norm)->0;
            let x = pooled(hidden, mask, strategy, false, None, layer_norm, rms_norm);
            &&& x is Some
            &&& y.shape.last() == match dimension {
                Some(d) if d < hidden.shape[2] => d,
                _ => hidden.shape[2],
            }
            &&& re(y, m, row * y.shape.last() + j) == re(x->0, m, row * hidden.shape[2] + j)
        }),
{
    pooled_shape(hidden, mask, strategy, false, dimension, layer_norm, rms_norm);
    pooled_shape(hidden, mask, strategy, false, None, layer_norm, rms_norm);
    let y = pooled(hidden, mask, strategy, false, dimension, layer_norm, rms_norm)->0;
    let x = pooled(hidden, mask, strategy, false, None, layer_norm, rms_norm)->0;
    let w = y.shape.last() as int;
    lemma_row_place(row, j, w);
    if y.op == Op::TakeColumns && y.args == seq![x] {
        lemma_rows(y, m, row * w + j);
    }
}

/// With nothing else asked for, each number of a sequence's vector is made of
/// the numbers at its place in the vectors that are marked: their mean, the
/// first of them, or the largest. Without pooling each vector stays.
pub proof fn vectors_are_pooled_number_by_number(
    hidden: Tensor,
    mask: Tensor,
    strategy: PoolingStrategy,
    m: Meaning,
    row: int,
    d: int,
)
    requires
        pooled(hidden, mask, strategy, false, None, false, false) is Some,
        0 <= d < hidden.shape[2],
    ensures
        ({
            let y = pooled(hidden, mask, strategy, false, None, false, false)->0;
            let (s, h) = (hidden.shape[1] as int, hidden.shape[2] as int);
            re(y, m, row * h + d) == if strategy == PoolingStrategy::Unpooled {
                re(hidden, m, row * h + d)
            } else {
                pooled_number(
                    strategy,
                    s,
                    marks(mask, m, row * s),
                    reals(hidden, m, row * s * h + d, h),
                )
            }
        }),
{
    let y = pooled(hidden, mask, strategy, false, None, false, false)->0;
    let h = hidden.shape[2] as int;
    lemma_row_place(row, d, h);
    if strategy != PoolingStrategy::Unpooled {
        lemma_pooled(y, strategy, m, row * h + d);
    }
}

/// Where vectors are evened, each is brought to mean zero and variance one,
/// whether or not its root mean square is to be one too; where only that is
/// asked for it is divided by it.
pub proof fn evened_vectors_have_a_common_size(
    hidden: Tensor,
    mask: Tensor,
    strategy: PoolingStrategy,
    layer_norm: bool,
    rms_norm: bool,
    m: Meaning,
    row: int,
    j: int,
)
    requires
        pooled(hidden, mask, strategy, false, None, layer_norm, rms_norm) is Some,
        0 <= j < hidden.shape[2],
    ensures
        ({
            let y = pooled(hidden, mask, strategy, false, None, layer_norm, rms_norm)->0;
            let x = pooled(hidden, mask, strategy, false, None, false, false);
            let h = hidden.shape[2] as int;
            let k = row * h + j;
            let old = reals(x->0, m, row * h, 1);
            let mean = mean_of(h, old);
            &&& x is Some
            &&& re(y, m, k) == if layer_norm {
                (re(x->0, m, k) - mean) / (m.root)(squares_about(h, old, mean) / (h as real))
            } else if rms_norm {
                re(x->0, m, k) / (m.root)(squares_about(h, old, 0real) / (h as real))
            } else {
                re(x->0, m, k)
            }
        }),
{
    pooled_shape(hidden, mask, strategy, false, None, layer_norm, rms_norm);
    let y = pooled(hidden, mask, strategy, false, None, layer_norm, rms_norm)->0;
    let h = hidden.shape[2] as int;
    lemma_row_place(row, j, h);
    if layer_norm || rms_norm {
        lemma_rows(y, m, row * h + j);
    }
}

} // verus!
