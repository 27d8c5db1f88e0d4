//! What arrays hold, in exact arithmetic.
//!
//! The elements of an array are taken in row-major order as complex numbers
//! with real parts and imaginary parts in the reals, where a sum does not
//! depend on its order and nothing is rounded. Every operation is taken for
//! what it stands for, element by element; what the arrays at the bottom hold,
//! and the functions that are no arithmetic, are left open.
use vstd::arithmetic::power2::{lemma_pow2_adds, lemma_pow2_pos, pow2};
use vstd::prelude::*;

use crate::array::{scalar, Op, Tensor, WindowKind};
use crate::dtype::Dtype;
use crate::embeddings::pool::PoolingStrategy;
use crate::ops::arithmetic::{difference, product, quotient, sum};
use crate::ops::fft::{FftKind, FftNorm};
use crate::ops::indexing::slice_first;
use crate::ops::shape::{is_position, reach, transposed};
use crate::scalar::{floor_log2, lemma_floor_log2, nearest_bits, F32};
use crate::shape::{broadcast_scalar, broadcast_self, elements, fits};

verus! {

// ---------------------------------------------------------------------------
// Sums
// ---------------------------------------------------------------------------

/// `f(0) + .. + f(n - 1)`.
pub open spec fn total(n: int, f: spec_fn(int) -> real) -> real
    decreases n,
{
    if n <= 0 {
        0real
    } else {
        total(n - 1, f) + f(n - 1)
    }
}

pub proof fn lemma_total_same(n: int, f: spec_fn(int) -> real, g: spec_fn(int) -> real)
    requires
        forall|k: int| 0 <= k < n ==> #[trigger] f(k) == g(k),
    ensures
        total(n, f) == total(n, g),
    decreases n,
{
    if n > 0 {
        lemma_total_same(n - 1, f, g);
        assert(f(n - 1) == g(n - 1));
    }
}

pub proof fn lemma_total_times(n: int, c: real, f: spec_fn(int) -> real)
    ensures
        total(n, |k: int| c * f(k)) == c * total(n, f),
    decreases n,
{
    if n > 0 {
        lemma_total_times(n - 1, c, f);
        let (a, b) = (total(n - 1, f), f(n - 1));
        assert(c * (a + b) == c * a + c * b) by (nonlinear_arith);
    } else {
        assert(c * 0real == 0real) by (nonlinear_arith);
    }
}

/// A sum of terms that are each at least zero is at least zero.
pub proof fn lemma_total_nonneg(n: int, f: spec_fn(int) -> real)
    requires
        forall|k: int| 0 <= k < n ==> #[trigger] f(k) >= 0real,
    ensures
        total(n, f) >= 0real,
    decreases n,
{
    if n > 0 {
        lemma_total_nonneg(n - 1, f);
        assert(f(n - 1) >= 0real);
    }
}

pub proof fn lemma_total_split(a: int, b: int, f: spec_fn(int) -> real)
    requires
        0 <= a,
        0 <= b,
    ensures
        total(a + b, f) == total(a, f) + total(b, |k: int| f(a + k)),
    decreases b,
{
    if b > 0 {
        lemma_total_split(a, b - 1, f);
    }
}

/// A sum over rows of `n` terms, row by row.
pub proof fn lemma_total_rows(rows: int, n: int, f: spec_fn(int) -> real)
    requires
        0 <= rows,
        0 <= n,
    ensures
        total(rows * n, f) == total(rows, |r: int| total(n, |j: int| f(r * n + j))),
    decreases rows,
{
    if rows > 0 {
        lemma_total_rows(rows - 1, n, f);
        assert(rows * n == (rows - 1) * n + n) by (nonlinear_arith);
        assert((rows - 1) * n >= 0) by (nonlinear_arith)
            requires
                rows >= 1,
                n >= 0,
        ;
        lemma_total_split((rows - 1) * n, n, f);
        let row = |r: int| total(n, |j: int| f(r * n + j));
        assert(row(rows - 1) == total(n, |j: int| f((rows - 1) * n + j)));
    } else {
        assert(rows * n == 0) by (nonlinear_arith)
            requires
                rows == 0,
        ;
    }
}

// ---------------------------------------------------------------------------
// Numbers
// ---------------------------------------------------------------------------

/// The number that a bit pattern stands for, where that is finite: a sign, and
/// 24 significant bits under an exponent.
pub open spec fn number(x: F32) -> real {
    let exponent = x.magnitude() / 0x80_0000;
    let fraction = x.magnitude() % 0x80_0000;
    let significand = if exponent == 0 {
        2 * fraction
    } else {
        0x80_0000 + fraction
    };
    let size = (significand as real) * (pow2(exponent as nat) as real) / (pow2(150) as real);
    if x.rank() < 0 {
        -size
    } else {
        size
    }
}

proof fn lemma_powers(a: nat, b: nat)
    ensures
        (pow2(a) as real) * (pow2(b) as real) == (pow2(a + b) as real),
        pow2(a) as real > 0real,
{
    lemma_pow2_adds(a, b);
    lemma_pow2_pos(a);
    let (x, y) = (pow2(a) as int, pow2(b) as int);
    assert((x as real) * (y as real) == ((x * y) as real)) by (nonlinear_arith);
}

/// Zero and one stand for themselves.
pub proof fn lemma_units()
    ensures
        number(F32::zero()) == 0real,
        number(F32::one()) == 1real,
        forall|x: F32| x.is_zero() ==> #[trigger] number(x) == 0real,
{
    vstd::arithmetic::power2::lemma2_to64();
    lemma_powers(23, 127);
    lemma_powers(150, 0);
    let p = pow2(150) as real;
    assert(p / p == 1real) by (nonlinear_arith)
        requires
            p > 0real,
    ;
    assert(0x3f80_0000int / 0x80_0000 == 127);
    assert(0x3f80_0000int % 0x80_0000 == 0);
    assert(pow2(23) as real == 0x80_0000 as real);
    assert forall|x: F32| x.is_zero() implies #[trigger] number(x) == 0real by {
        let q = pow2(0) as real;
        assert((0 as real) * q / p == 0real) by (nonlinear_arith)
            requires
                p > 0real,
        ;
    }
}

/// A whole number below `2^24` stands for itself.
pub proof fn lemma_small_number(n: nat)
    requires
        n < 0x100_0000,
    ensures
        0 <= nearest_bits(n) < 0x8000_0000,
        number(F32 { bits: nearest_bits(n) as u32 }) == n as real,
{
    lemma_units();
    vstd::arithmetic::power2::lemma2_to64();
    if n > 0 {
        lemma_floor_log2(n);
        let k = floor_log2(n);
        if k >= 24 {
            if k > 24 {
                vstd::arithmetic::power2::lemma_pow2_strictly_increases(24, k);
            }
        }
        let up = pow2((23 - k) as nat) as int;
        lemma_pow2_adds(k, (23 - k) as nat);
        lemma_pow2_adds((k + 1) as nat, (23 - k) as nat);
        lemma_pow2_pos((23 - k) as nat);
        let s = n as int * up;
        let (low, high) = (pow2(k) as int, pow2((k + 1) as nat) as int);
        assert(0x80_0000 <= s < 0x100_0000) by (nonlinear_arith)
            requires
                s == n * up,
                low <= n < high,
                low * up == 0x80_0000,
                high * up == 0x100_0000,
                up > 0,
        ;
        let bits = (k + 126) * 0x80_0000 + s;
        assert(nearest_bits(n) == bits);
        let f = s - 0x80_0000;
        assert(bits == (k + 127) * 0x80_0000 + f);
        assert(bits / 0x80_0000 == k + 127 && bits % 0x80_0000 == f);
        let x = F32 { bits: bits as u32 };
        assert(x.magnitude() == bits);
        lemma_powers((23 - k) as nat, (k + 127) as nat);
        lemma_powers(150, 0);
        let (u, e, p) = (up as real, pow2((k + 127) as nat) as real, pow2(150) as real);
        assert(s as real == (n as real) * u) by (nonlinear_arith)
            requires
                s == n * up,
                u == up as real,
        ;
        assert((n as real) * u * e / p == n as real) by (nonlinear_arith)
            requires
                u * e == p,
                p > 0real,
        ;
    }
}

// ---------------------------------------------------------------------------
// Places
// ---------------------------------------------------------------------------

/// The position along each axis of the element at the place `k`.
pub open spec fn unravelled(shape: Seq<usize>, k: int) -> Seq<int>
    decreases shape.len(),
{
    if shape.len() == 0 {
        Seq::empty()
    } else {
        unravelled(shape.drop_last(), k / (shape.last() as int)).push(k % (shape.last() as int))
    }
}

/// The place of the element at the given position along each axis.
pub open spec fn place(shape: Seq<usize>, idx: Seq<int>) -> int
    decreases shape.len(),
{
    if shape.len() == 0 {
        0
    } else {
        place(shape.drop_last(), idx.drop_last()) * shape.last() + idx.last()
    }
}

/// A position is found again at its place.
pub proof fn place_is_read_back(shape: Seq<usize>, idx: Seq<int>)
    requires
        is_position(idx, shape),
    ensures
        unravelled(shape, place(shape, idx)) == idx,
        0 <= place(shape, idx) < elements(shape),
    decreases shape.len(),
{
    if shape.len() > 0 {
        let (s, i) = (shape.drop_last(), idx.drop_last());
        assert(is_position(i, s));
        place_is_read_back(s, i);
        let (q, n, r) = (place(s, i), shape.last() as int, idx.last());
        assert(0 <= r < n);
        assert((q * n + r) / n == q && (q * n + r) % n == r) by (nonlinear_arith)
            requires
                0 <= r < n,
        ;
        let e = elements(s) as int;
        assert(0 <= q * n + r < e * n) by (nonlinear_arith)
            requires
                0 <= q < e,
                0 <= r < n,
        ;
        assert(unravelled(shape, q * n + r) =~= idx);
    } else {
        assert(unravelled(shape, 0) =~= idx);
    }
}

/// The place in an operand of the shape `a` of what stands at the place `k` of
/// a result of the shape `shape`: axes of length one and missing ones repeat.
pub open spec fn source(a: Seq<usize>, shape: Seq<usize>, k: int) -> int
    decreases shape.len(),
{
    if a.len() == 0 || shape.len() == 0 {
        0
    } else {
        let n = shape.last() as int;
        source(a.drop_last(), shape.drop_last(), k / n) * a.last() + if a.last() == 1 {
            0
        } else {
            k % n
        }
    }
}

/// An operand of the shape of the result is taken place by place.
pub proof fn lemma_source_same(shape: Seq<usize>, k: int)
    requires
        0 <= k < elements(shape),
    ensures
        source(shape, shape, k) == k,
    decreases shape.len(),
{
    if shape.len() > 0 {
        let n = shape.last() as int;
        let e = elements(shape.drop_last()) as int;
        let (q, r) = (k / n, k % n);
        assert(n > 0) by (nonlinear_arith)
            requires
                0 <= k < e * n,
                n >= 0,
        ;
        assert(0 <= q < e && q * n + r == k && 0 <= r < n) by (nonlinear_arith)
            requires
                0 <= k < e * n,
                n > 0,
                q == k / n,
                r == k % n,
        ;
        lemma_source_same(shape.drop_last(), q);
        if n == 1 {
            assert(r == 0);
        }
    }
}

/// A scalar is everywhere the same, and a vector goes along the last axis.
pub proof fn lemma_source_vector(n: usize, shape: Seq<usize>, k: int)
    requires
        shape.len() >= 1,
        shape.last() == n,
        n >= 1,
    ensures
        source(seq![n], shape, k) == k % (n as int),
        source(Seq::empty(), shape, k) == 0,
{
    assert(seq![n].drop_last() =~= Seq::<usize>::empty());
    let rest = source(Seq::empty(), shape.drop_last(), k / (n as int));
    assert(rest == 0);
    if n == 1 {
        assert(k % 1 == 0);
    }
}

/// The position that `idx` has before the axes are put into the order `axes`.
pub open spec fn unpermuted(idx: Seq<int>, axes: Seq<i64>) -> Seq<int> {
    Seq::new(axes.len(), |b: int| idx[axes.index_of(b as i64)])
}

// ---------------------------------------------------------------------------
// Operations
// ---------------------------------------------------------------------------

/// What is left open: what given arrays hold, and functions that are no
/// arithmetic.
pub ghost struct Meaning {
    /// The real and the imaginary part of an element of a given array.
    pub given: spec_fn(Tensor, int) -> (real, real),
    /// The cosine of the second number in parts of a full turn, of which there
    /// are as many as the first number says.
    pub cosine: spec_fn(int, int) -> real,
    /// The sine of the same.
    pub sine: spec_fn(int, int) -> real,
    /// The square root.
    pub root: spec_fn(real) -> real,
    /// The natural logarithm.
    pub logarithm: spec_fn(real) -> real,
}

impl Meaning {
    /// Whether the root of what is not negative is the number at least zero
    /// whose square it is.
    pub open spec fn has_roots(self) -> bool {
        forall|x: real|
            x >= 0real ==> (#[trigger] (self.root)(x)) >= 0real && (self.root)(x) * (self.root)(x)
                == x
    }
}

/// The sample `k` of a window of `n`, the first and the last included.
pub open spec fn window_sample(kind: WindowKind, m: Meaning, n: int, k: int) -> real {
    let c = (m.cosine)(n - 1, k);
    match kind {
        WindowKind::Hann => (1real - c) / 2real,
        WindowKind::Hamming => (27real - 23real * c) / 50real,
        WindowKind::Blackman => (21real - 25real * c + 4real * (m.cosine)(n - 1, 2 * k)) / 50real,
        WindowKind::Bartlett => {
            let off = 2 * k - (n - 1);
            1real - ((if off < 0 {
                -off
            } else {
                off
            }) as real) / ((n - 1) as real)
        },
    }
}

/// The factor of a transform over `n` samples, of its inverse where `inverse`.
pub open spec fn transform_factor(norm: FftNorm, m: Meaning, n: int, inverse: bool) -> real {
    match norm {
        FftNorm::Backward => if inverse {
            1real / (n as real)
        } else {
            1real
        },
        FftNorm::Forward => if inverse {
            1real
        } else {
            1real / (n as real)
        },
        FftNorm::Ortho => 1real / (m.root)(n as real),
    }
}

/// The frequency `f` of `n` real samples: their sum, each turned back by `f`
/// times its share of a full turn.
pub open spec fn frequency(m: Meaning, n: int, x: spec_fn(int) -> real, f: int) -> (real, real) {
    (
        total(n, |j: int| x(j) * (m.cosine)(n, j * f)),
        -total(n, |j: int| x(j) * (m.sine)(n, j * f)),
    )
}

/// The sample `j` of the `n` that have the given frequencies, of which those
/// above the middle mirror those below it, without the factor.
pub open spec fn sample_at(m: Meaning, n: int, x: spec_fn(int) -> (real, real), j: int) -> real {
    total(
        n,
        |f: int|
            if f <= n / 2 {
                x(f).0 * (m.cosine)(n, j * f) - x(f).1 * (m.sine)(n, j * f)
            } else {
                x(n - f).0 * (m.cosine)(n, j * f) + x(n - f).1 * (m.sine)(n, j * f)
            },
    )
}

/// The product of two complex numbers.
pub open spec fn times(x: (real, real), y: (real, real)) -> (real, real) {
    (x.0 * y.0 - x.1 * y.1, x.0 * y.1 + x.1 * y.0)
}

/// The first of `n` places that is marked, and `n` where none is.
pub open spec fn first_marked(n: int, marked: spec_fn(int) -> bool) -> int
    decreases n,
{
    if n <= 0 {
        0
    } else if first_marked(n - 1, marked) < n - 1 {
        first_marked(n - 1, marked)
    } else if marked(n - 1) {
        n - 1
    } else {
        n
    }
}

/// The largest of the numbers at the marked ones of `n` places, nothing where
/// none is.
pub open spec fn largest_marked(
    n: int,
    marked: spec_fn(int) -> bool,
    x: spec_fn(int) -> real,
) -> Option<real>
    decreases n,
{
    if n <= 0 {
        None
    } else if !marked(n - 1) {
        largest_marked(n - 1, marked, x)
    } else {
        match largest_marked(n - 1, marked, x) {
            Some(y) if y >= x(n - 1) => Some(y),
            _ => Some(x(n - 1)),
        }
    }
}

/// One number for the numbers `x` at the marked ones of `n` places.
pub open spec fn pooled_number(
    strategy: PoolingStrategy,
    n: int,
    marked: spec_fn(int) -> bool,
    x: spec_fn(int) -> real,
) -> real {
    match strategy {
        PoolingStrategy::Mean => total(
            n,
            |s: int|
                if marked(s) {
                    x(s)
                } else {
                    0real
                },
        ) / total(
            n,
            |s: int|
                if marked(s) {
                    1real
                } else {
                    0real
                },
        ),
        PoolingStrategy::Cls => if first_marked(n, marked) < n {
            x(first_marked(n, marked))
        } else {
            0real
        },
        PoolingStrategy::Max => match largest_marked(n, marked, x) {
            Some(y) => y,
            None => 0real,
        },
        PoolingStrategy::Unpooled => 0real,
    }
}

/// The mean of `n` numbers.
pub open spec fn mean_of(n: int, x: spec_fn(int) -> real) -> real {
    total(n, x) / (n as real)
}

/// What the squares of `n` numbers add up to, each taken from `c`.
pub open spec fn squares_about(n: int, x: spec_fn(int) -> real, c: real) -> real {
    total(n, |j: int| (x(j) - c) * (x(j) - c))
}

/// What `n` numbers, each times one of `n` others, add up to.
pub open spec fn products_total(
    n: int,
    x: spec_fn(int) -> real,
    y: spec_fn(int) -> real,
) -> real {
    total(n, |j: int| x(j) * y(j))
}

/// The numbers whose position is `at`, and zeros for the others.
pub open spec fn landing(
    positions: Seq<u64>,
    x: spec_fn(int) -> real,
    at: int,
) -> spec_fn(int) -> real {
    |p: int|
        if positions[p] == at {
            x(p)
        } else {
            0real
        }
}

/// What those of `n` numbers add up to whose position is `at`.
pub open spec fn landing_total(
    n: int,
    positions: Seq<u64>,
    x: spec_fn(int) -> real,
    at: int,
) -> real {
    total(n, landing(positions, x, at))
}

/// What the operands of an operation hold: of an operand and a place.
pub type Operands = spec_fn(int, int) -> (real, real);

/// The real parts of the operand `i` at `start` and at every `stride`th place
/// behind it.
pub open spec fn reals_of(x: Operands, i: int, start: int, stride: int) -> spec_fn(int) -> real {
    |j: int| x(i, start + j * stride).0
}

/// The elements of the operand `i` from `start` on.
pub open spec fn numbers_of(x: Operands, i: int, start: int) -> spec_fn(int) -> (real, real) {
    |j: int| x(i, start + j)
}

/// Which elements of the operand `i` from `start` on are not zero.
pub open spec fn marks_of(x: Operands, i: int, start: int) -> spec_fn(int) -> bool {
    |j: int| x(i, start + j).0 != 0real
}

/// The first `n` of some numbers, and zeros behind them.
pub open spec fn first_of(n: int, x: spec_fn(int) -> real) -> spec_fn(int) -> real {
    |j: int|
        if j < n {
            x(j)
        } else {
            0real
        }
}

/// What the operation of `t` gives at the place `k`, where `x(i, p)` is what its
/// operand `i` holds at the place `p`.
#[verifier::opaque]
pub open spec fn computed(
    t: Tensor,
    m: Meaning,
    x: Operands,
    k: int,
) -> (real, real) {
    let a = t.args[0].shape;
    let b = t.args[1].shape;
    let c = t.args[2].shape;
    let w = t.shape.last() as int;
    match t.op {
        Op::Data => if t.dtype == Dtype::F32 {
            (number(F32 { bits: t.bits[k] as u32 }), 0real)
        } else {
            (m.given)(t, k)
        },
        Op::Full => if t.dtype == Dtype::F32 {
            (number(F32 { bits: t.bits[0] as u32 }), 0real)
        } else if t.bits[0] == 0 {
            (0real, 0real)
        } else {
            (m.given)(t, k)
        },
        Op::Window(kind) => (window_sample(kind, m, t.shape[0] as int, k), 0real),
        Op::Reshape => x(0, k),
        Op::ExpandDims => x(0, k),
        Op::Squeeze => x(0, k),
        Op::Astype => x(0, k),
        Op::BroadcastTo => x(0, source(a, t.shape, k)),
        Op::Transpose => x(0, place(a, unpermuted(unravelled(t.shape, k), t.params))),
        Op::Slice => x(
            0,
            slice_first(a[0] as int, t.params[0] as int, t.params[2] as int) + k * t.params[2],
        ),
        Op::Concatenate => if t.args.len() != 3 {
            (m.given)(t, k)
        } else if k < a[0] {
            x(0, k)
        } else if k < a[0] + b[0] {
            x(1, k - a[0])
        } else {
            x(2, k - a[0] - b[0])
        },
        Op::Pad => if t.params[0] <= k < t.params[0] + a[0] {
            x(0, k - t.params[0])
        } else {
            (0real, 0real)
        },
        Op::AsStrided => x(0, t.bits[0] + reach(unravelled(t.shape, k), t.params)),
        Op::Fft(kind, norm) => {
            let n = t.params[0] as int;
            let l = a.last() as int;
            if a.len() != 2 || t.params.len() != 2 || t.params[1] != 1 {
                (m.given)(t, k)
            } else if kind == FftKind::Real {
                let s = transform_factor(norm, m, n, false);
                let y = frequency(m, n, first_of(l, reals_of(x, 0, k / w * l, 1)), k % w);
                (s * y.0, s * y.1)
            } else if kind == FftKind::InverseReal {
                let s = transform_factor(norm, m, n, true);
                (s * sample_at(m, n, numbers_of(x, 0, k / w * l), k % w), 0real)
            } else {
                (m.given)(t, k)
            }
        },
        Op::Abs => ((m.root)(x(0, k).0 * x(0, k).0 + x(0, k).1 * x(0, k).1), 0real),
        Op::Square => times(x(0, k), x(0, k)),
        Op::Log => ((m.logarithm)(x(0, k).0), 0real),
        Op::Add => {
            let (p, q) = (x(0, source(a, t.shape, k)), x(1, source(b, t.shape, k)));
            (p.0 + q.0, p.1 + q.1)
        },
        Op::Subtract => {
            let (p, q) = (x(0, source(a, t.shape, k)), x(1, source(b, t.shape, k)));
            (p.0 - q.0, p.1 - q.1)
        },
        Op::Multiply => times(x(0, source(a, t.shape, k)), x(1, source(b, t.shape, k))),
        Op::Divide => {
            let (p, q) = (x(0, source(a, t.shape, k)), x(1, source(b, t.shape, k)));
            (p.0 / q.0, p.1 / q.0)
        },
        Op::Maximum => {
            let (p, q) = (x(0, source(a, t.shape, k)).0, x(1, source(b, t.shape, k)).0);
            (
                if p >= q {
                    p
                } else {
                    q
                },
                0real,
            )
        },
        Op::Greater => (
            if x(0, source(a, t.shape, k)).0 > x(1, source(b, t.shape, k)).0 {
                1real
            } else {
                0real
            },
            0real,
        ),
        Op::Select => if x(0, source(a, t.shape, k)).0 != 0real {
            x(1, source(b, t.shape, k))
        } else {
            x(2, source(c, t.shape, k))
        },
        Op::Matmul => if a.len() != 2 || b.len() != 2 {
            (m.given)(t, k)
        } else {
            (
                products_total(
                    a.last() as int,
                    reals_of(x, 0, k / w * a.last(), 1),
                    reals_of(x, 1, k % w, w),
                ),
                0real,
            )
        },
        Op::ScatterAdd => (
            x(0, k).0 + landing_total(c[0] as int, t.args[1].bits, reals_of(x, 2, 0, 1), k),
            0real,
        ),
        Op::Pool(strategy) => {
            let (row, d, s) = (k / w, k % w, b.last() as int);
            (
                pooled_number(
                    strategy,
                    s,
                    marks_of(x, 1, row * s),
                    reals_of(x, 0, row * s * w + d, w),
                ),
                0real,
            )
        },
        Op::LayerNorm => {
            let row = reals_of(x, 0, k / w * w, 1);
            let mean = mean_of(w, row);
            (
                (x(0, k).0 - mean) / (m.root)(squares_about(w, row, mean) / (w as real)),
                0real,
            )
        },
        Op::RmsNorm => {
            let row = reals_of(x, 0, k / w * w, 1);
            (x(0, k).0 / (m.root)(squares_about(w, row, 0real) / (w as real)), 0real)
        },
        Op::TakeColumns => x(0, k / w * a.last() + k % w),
        Op::NormalizeRows => {
            let row = reals_of(x, 0, k / w * w, 1);
            (x(0, k).0 / (m.root)(squares_about(w, row, 0real)), 0real)
        },
        Op::Norm => if a.len() == 2 && t.params.len() == 1 && t.params[0] == 1 {
            let n = a.last() as int;
            ((m.root)(squares_about(n, reals_of(x, 0, k * n, 1), 0real)), 0real)
        } else {
            (m.given)(t, k)
        },
        _ => (m.given)(t, k),
    }
}

/// The element at the place `k`. Only complex numbers have an imaginary part.
#[verifier::opaque]
pub open spec fn held(t: Tensor, m: Meaning, k: int) -> (real, real)
    decreases t, 1int,
{
    let y = computed(t, m, operands(t, m), k);
    (
        y.0,
        if t.dtype == Dtype::Complex64 {
            y.1
        } else {
            0real
        },
    )
}

/// What the operands of `t` hold.
pub open spec fn operands(t: Tensor, m: Meaning) -> Operands
    decreases t, 0int,
{
    |i: int, p: int|
        if 0 <= i < t.args.len() {
            held(t.args[i], m, p)
        } else {
            (0real, 0real)
        }
}

/// The real parts of the elements at `start` and at every `stride`th place
/// behind it.
pub open spec fn reals(t: Tensor, m: Meaning, start: int, stride: int) -> spec_fn(int) -> real {
    |j: int| re(t, m, start + j * stride)
}

/// The elements from `start` on.
pub open spec fn numbers(t: Tensor, m: Meaning, start: int) -> spec_fn(int) -> (real, real) {
    |j: int| held(t, m, start + j)
}

/// Which elements from `start` on are not zero.
pub open spec fn marks(t: Tensor, m: Meaning, start: int) -> spec_fn(int) -> bool {
    |j: int| re(t, m, start + j) != 0real
}

/// The element at a place is what the operation of the array gives there.
pub proof fn lemma_held(t: Tensor, m: Meaning, k: int)
    ensures
        re(t, m, k) == computed(t, m, operands(t, m), k).0,
        t.dtype == Dtype::Complex64 ==> im(t, m, k) == computed(t, m, operands(t, m), k).1,
        forall|i: int, p: int|
            0 <= i < t.args.len() ==> #[trigger] operands(t, m)(i, p) == held(t.args[i], m, p),
        forall|i: int, start: int, stride: int|
            0 <= i < t.args.len() ==> #[trigger] reals_of(operands(t, m), i, start, stride)
                == reals(t.args[i], m, start, stride),
        forall|i: int, start: int|
            0 <= i < t.args.len() ==> #[trigger] numbers_of(operands(t, m), i, start) == numbers(
                t.args[i],
                m,
                start,
            ),
        forall|i: int, start: int|
            0 <= i < t.args.len() ==> #[trigger] marks_of(operands(t, m), i, start) == marks(
                t.args[i],
                m,
                start,
            ),
{
    reveal(held);
    assert forall|i: int, start: int, stride: int| 0 <= i < t.args.len() implies #[trigger]
        reals_of(operands(t, m), i, start, stride) == reals(t.args[i], m, start, stride) by {
        assert(reals_of(operands(t, m), i, start, stride) =~= reals(t.args[i], m, start, stride));
    }
    assert forall|i: int, start: int| 0 <= i < t.args.len() implies #[trigger]
        numbers_of(operands(t, m), i, start) == numbers(t.args[i], m, start) by {
        assert(numbers_of(operands(t, m), i, start) =~= numbers(t.args[i], m, start));
    }
    assert forall|i: int, start: int| 0 <= i < t.args.len() implies #[trigger]
        marks_of(operands(t, m), i, start) == marks(t.args[i], m, start) by {
        assert(marks_of(operands(t, m), i, start) =~= marks(t.args[i], m, start));
    }
}

/// The real part of the element at the place `k`.
pub open spec fn re(t: Tensor, m: Meaning, k: int) -> real {
    held(t, m, k).0
}

/// The imaginary part of the element at the place `k`.
pub open spec fn im(t: Tensor, m: Meaning, k: int) -> real {
    held(t, m, k).1
}

/// Arrays of real numbers have no imaginary parts.
pub proof fn lemma_real(t: Tensor, m: Meaning, k: int)
    requires
        t.dtype != Dtype::Complex64,
    ensures
        im(t, m, k) == 0real,
{
    reveal(held);
}

/// What an operation between the elements of two arrays gives.
pub proof fn lemma_elementwise(t: Tensor, m: Meaning, k: int)
    requires
        t.args.len() == 2,
    ensures
        ({
            let p = held(t.args[0], m, source(t.args[0].shape, t.shape, k));
            let q = held(t.args[1], m, source(t.args[1].shape, t.shape, k));
            &&& t.op == Op::Add ==> re(t, m, k) == p.0 + q.0
            &&& t.op == Op::Subtract ==> re(t, m, k) == p.0 - q.0
            &&& t.op == Op::Multiply ==> re(t, m, k) == p.0 * q.0 - p.1 * q.1
            &&& t.op == Op::Divide ==> re(t, m, k) == p.0 / q.0
            &&& t.op == Op::Maximum ==> re(t, m, k) == if p.0 >= q.0 {
                p.0
            } else {
                q.0
            }
            &&& t.op == Op::Greater ==> re(t, m, k) == if p.0 > q.0 {
                1real
            } else {
                0real
            }
        }),
{
    lemma_held(t, m, k);
    reveal(computed);
}

/// What operations that leave every element as it is, or where it is, give.
pub proof fn lemma_passed_on(t: Tensor, m: Meaning, k: int)
    requires
        t.args.len() == 1,
        t.op == Op::Reshape || t.op == Op::ExpandDims || t.op == Op::Squeeze || t.op == Op::Astype,
    ensures
        re(t, m, k) == re(t.args[0], m, k),
        t.dtype == Dtype::Complex64 ==> im(t, m, k) == im(t.args[0], m, k),
{
    lemma_held(t, m, k);
    reveal(computed);
}

/// Given single-precision numbers.
pub proof fn lemma_given(t: Tensor, m: Meaning, k: int)
    requires
        t.op == Op::Data,
        t.dtype == Dtype::F32,
    ensures
        re(t, m, k) == number(F32 { bits: t.bits[k] as u32 }),
{
    lemma_held(t, m, k);
    reveal(computed);
}

/// The same element everywhere.
pub proof fn lemma_scalar(x: F32, m: Meaning, k: int)
    ensures
        re(scalar(x), m, k) == number(x),
        im(scalar(x), m, k) == 0real,
{
    reveal(held);
    reveal(computed);
}

/// `a + b`, `a - b`, `a * b` and `a / b` of arrays of one shape.
pub proof fn lemma_same_shape(a: Tensor, b: Tensor, m: Meaning, k: int)
    requires
        fits(a.shape),
        a.shape == b.shape,
        0 <= k < elements(a.shape),
    ensures
        sum(a, b) is Some && sum(a, b)->0.shape == a.shape,
        re(sum(a, b)->0, m, k) == re(a, m, k) + re(b, m, k),
        difference(a, b) is Some && difference(a, b)->0.shape == a.shape,
        re(difference(a, b)->0, m, k) == re(a, m, k) - re(b, m, k),
        product(a, b) is Some && product(a, b)->0.shape == a.shape,
        re(product(a, b)->0, m, k) == re(a, m, k) * re(b, m, k) - im(a, m, k) * im(b, m, k),
        quotient(a, b) is Some && quotient(a, b)->0.shape == a.shape,
        re(quotient(a, b)->0, m, k) == re(a, m, k) / re(b, m, k),
{
    broadcast_self(a.shape);
    lemma_source_same(a.shape, k);
    lemma_elementwise(sum(a, b)->0, m, k);
    lemma_elementwise(difference(a, b)->0, m, k);
    lemma_elementwise(product(a, b)->0, m, k);
    lemma_elementwise(quotient(a, b)->0, m, k);
}

/// Every element of an array times the same number.
pub proof fn lemma_scaled(x: F32, a: Tensor, m: Meaning, k: int)
    requires
        fits(a.shape),
        0 <= k < elements(a.shape),
    ensures
        product(scalar(x), a) is Some && product(scalar(x), a)->0.shape == a.shape,
        re(product(scalar(x), a)->0, m, k) == number(x) * re(a, m, k),
{
    broadcast_scalar(a.shape);
    lemma_source_same(a.shape, k);
    lemma_scalar(x, m, 0);
    let t = product(scalar(x), a)->0;
    assert(scalar(x).shape =~= Seq::<usize>::empty());
    lemma_elementwise(t, m, k);
    let (p, q) = (number(x), re(a, m, k));
    assert(0real * im(a, m, k) == 0real) by (nonlinear_arith);
}

/// What bringing rows to a common size, and narrowing them, gives.
pub proof fn lemma_rows(t: Tensor, m: Meaning, k: int)
    requires
        t.args.len() >= 1,
    ensures
        ({
            let a = t.args[0];
            let w = t.shape.last() as int;
            let row = reals(a, m, k / w * w, 1);
            let mean = mean_of(w, row);
            &&& t.op == Op::TakeColumns ==> re(t, m, k) == re(
                a,
                m,
                k / w * a.shape.last() + k % w,
            )
            &&& t.op == Op::NormalizeRows ==> re(t, m, k) == re(a, m, k) / (m.root)(
                squares_about(w, row, 0real),
            )
            &&& t.op == Op::RmsNorm ==> re(t, m, k) == re(a, m, k) / (m.root)(
                squares_about(w, row, 0real) / (w as real),
            )
            &&& t.op == Op::LayerNorm ==> re(t, m, k) == (re(a, m, k) - mean) / (m.root)(
                squares_about(w, row, mean) / (w as real),
            )
        }),
{
    lemma_held(t, m, k);
    reveal(computed);
    let w = t.shape.last() as int;
    assert(reals_of(operands(t, m), 0, k / w * w, 1) == reals(t.args[0], m, k / w * w, 1));
}

/// What pooling gives.
pub proof fn lemma_pooled(t: Tensor, strategy: PoolingStrategy, m: Meaning, k: int)
    requires
        t.op == Op::Pool(strategy),
        t.args.len() == 2,
    ensures
        ({
            let (hidden, mask) = (t.args[0], t.args[1]);
            let w = t.shape.last() as int;
            let (row, d, s) = (k / w, k % w, mask.shape.last() as int);
            re(t, m, k) == pooled_number(
                strategy,
                s,
                marks(mask, m, row * s),
                reals(hidden, m, row * s * w + d, w),
            )
        }),
{
    lemma_held(t, m, k);
    reveal(computed);
    let (hidden, mask) = (t.args[0], t.args[1]);
    let w = t.shape.last() as int;
    let (row, d, s) = (k / w, k % w, mask.shape.last() as int);
    assert(marks_of(operands(t, m), 1, row * s) == marks(mask, m, row * s));
    assert(reals_of(operands(t, m), 0, row * s * w + d, w) == reals(
        hidden,
        m,
        row * s * w + d,
        w,
    ));
}

/// What operations that take elements from other places of one array give.
pub proof fn lemma_rearranged(t: Tensor, m: Meaning, k: int)
    requires
        t.args.len() == 1,
    ensures
        ({
            let a = t.args[0];
            &&& t.op == Op::BroadcastTo ==> re(t, m, k) == re(a, m, source(a.shape, t.shape, k))
            &&& t.op == Op::Slice ==> re(t, m, k) == re(
                a,
                m,
                slice_first(a.shape[0] as int, t.params[0] as int, t.params[2] as int) + k
                    * t.params[2],
            )
            &&& t.op == Op::Pad ==> re(t, m, k) == if t.params[0] <= k < t.params[0]
                + a.shape[0] {
                re(a, m, k - t.params[0])
            } else {
                0real
            }
            &&& t.op == Op::AsStrided ==> re(t, m, k) == re(
                a,
                m,
                t.bits[0] + reach(unravelled(t.shape, k), t.params),
            )
            &&& t.op == Op::Transpose ==> re(t, m, k) == re(
                a,
                m,
                place(a.shape, unpermuted(unravelled(t.shape, k), t.params)),
            )
        }),
{
    lemma_held(t, m, k);
    reveal(computed);
}

/// What operations on each element of one array give.
pub proof fn lemma_unary(t: Tensor, m: Meaning, k: int)
    requires
        t.args.len() == 1,
    ensures
        ({
            let p = held(t.args[0], m, k);
            &&& t.op == Op::Abs ==> re(t, m, k) == (m.root)(p.0 * p.0 + p.1 * p.1)
            &&& t.op == Op::Square ==> re(t, m, k) == p.0 * p.0 - p.1 * p.1
            &&& t.op == Op::Log ==> re(t, m, k) == (m.logarithm)(p.0)
        }),
{
    lemma_held(t, m, k);
    reveal(computed);
}

/// A sampled window function.
pub proof fn lemma_window(t: Tensor, kind: WindowKind, m: Meaning, k: int)
    requires
        t.op == Op::Window(kind),
    ensures
        re(t, m, k) == window_sample(kind, m, t.shape[0] as int, k),
{
    lemma_held(t, m, k);
    reveal(computed);
}

/// Three arrays one behind another.
pub proof fn lemma_joined(t: Tensor, m: Meaning, k: int)
    requires
        t.op == Op::Concatenate,
        t.args.len() == 3,
    ensures
        ({
            let (a, b) = (t.args[0].shape[0] as int, t.args[1].shape[0] as int);
            re(t, m, k) == if k < a {
                re(t.args[0], m, k)
            } else if k < a + b {
                re(t.args[1], m, k - a)
            } else {
                re(t.args[2], m, k - a - b)
            }
        }),
{
    lemma_held(t, m, k);
    reveal(computed);
}

/// Selection and scattered addition.
pub proof fn lemma_ternary(t: Tensor, m: Meaning, k: int)
    requires
        t.args.len() == 3,
    ensures
        t.op == Op::Select ==> re(t, m, k) == if re(
            t.args[0],
            m,
            source(t.args[0].shape, t.shape, k),
        ) != 0real {
            re(t.args[1], m, source(t.args[1].shape, t.shape, k))
        } else {
            re(t.args[2], m, source(t.args[2].shape, t.shape, k))
        },
        t.op == Op::ScatterAdd ==> re(t, m, k) == re(t.args[0], m, k) + landing_total(
            t.args[2].shape[0] as int,
            t.args[1].bits,
            reals(t.args[2], m, 0, 1),
            k,
        ),
{
    lemma_held(t, m, k);
    reveal(computed);
    assert(reals_of(operands(t, m), 2, 0, 1) == reals(t.args[2], m, 0, 1));
}

/// The entry of a product of two matrices.
pub proof fn lemma_matmul(t: Tensor, m: Meaning, k: int)
    requires
        t.op == Op::Matmul,
        t.args.len() == 2,
        t.args[0].shape.len() == 2,
        t.args[1].shape.len() == 2,
    ensures
        ({
            let w = t.shape.last() as int;
            let n = t.args[0].shape.last() as int;
            re(t, m, k) == products_total(
                n,
                reals(t.args[0], m, k / w * n, 1),
                reals(t.args[1], m, k % w, w),
            )
        }),
{
    lemma_held(t, m, k);
    reveal(computed);
    let w = t.shape.last() as int;
    let n = t.args[0].shape.last() as int;
    assert(reals_of(operands(t, m), 0, k / w * n, 1) == reals(t.args[0], m, k / w * n, 1));
    assert(reals_of(operands(t, m), 1, k % w, w) == reals(t.args[1], m, k % w, w));
}

/// The transform of the rows of a matrix of real numbers.
pub proof fn lemma_transform(t: Tensor, norm: FftNorm, m: Meaning, k: int)
    requires
        t.op == Op::Fft(FftKind::Real, norm),
        t.dtype == Dtype::Complex64,
        t.args.len() == 1,
        t.args[0].shape.len() == 2,
        t.params.len() == 2,
        t.params[1] == 1,
    ensures
        ({
            let (n, l) = (t.params[0] as int, t.args[0].shape.last() as int);
            let w = t.shape.last() as int;
            let s = transform_factor(norm, m, n, false);
            let y = frequency(m, n, first_of(l, reals(t.args[0], m, k / w * l, 1)), k % w);
            re(t, m, k) == s * y.0 && im(t, m, k) == s * y.1
        }),
{
    lemma_held(t, m, k);
    reveal(computed);
    let l = t.args[0].shape.last() as int;
    let w = t.shape.last() as int;
    assert(reals_of(operands(t, m), 0, k / w * l, 1) == reals(t.args[0], m, k / w * l, 1));
}

/// The rows of real numbers that have the given frequencies.
pub proof fn lemma_inverse(t: Tensor, norm: FftNorm, m: Meaning, k: int)
    requires
        t.op == Op::Fft(FftKind::InverseReal, norm),
        t.args.len() == 1,
        t.args[0].shape.len() == 2,
        t.params.len() == 2,
        t.params[1] == 1,
    ensures
        ({
            let (n, l) = (t.params[0] as int, t.args[0].shape.last() as int);
            let w = t.shape.last() as int;
            re(t, m, k) == transform_factor(norm, m, n, true) * sample_at(
                m,
                n,
                numbers(t.args[0], m, k / w * l),
                k % w,
            )
        }),
{
    lemma_held(t, m, k);
    reveal(computed);
    let l = t.args[0].shape.last() as int;
    let w = t.shape.last() as int;
    assert(numbers_of(operands(t, m), 0, k / w * l) == numbers(t.args[0], m, k / w * l));
}

/// The place of the column `j` of the row `r` of a matrix.
pub proof fn lemma_matrix_place(rows: usize, columns: usize, r: int, j: int)
    requires
        0 <= r < rows,
        0 <= j < columns,
    ensures
        unravelled(seq![rows, columns], r * columns + j) == seq![r, j],
        place(seq![rows, columns], seq![r, j]) == r * columns + j,
        (r * columns + j) / (columns as int) == r,
        (r * columns + j) % (columns as int) == j,
        0 <= r * columns + j < rows * columns,
{
    let (shape, idx) = (seq![rows, columns], seq![r, j]);
    assert(shape.drop_last() =~= seq![rows]);
    assert(idx.drop_last() =~= seq![r]);
    assert(seq![rows].drop_last() =~= Seq::<usize>::empty());
    assert(place(seq![rows], seq![r]) == r) by {
        assert(place(Seq::<usize>::empty(), seq![r].drop_last()) == 0);
        let n = rows as int;
        assert(0 * n + r == r) by (nonlinear_arith);
    }
    assert(is_position(idx, shape));
    place_is_read_back(shape, idx);
    let c = columns as int;
    assert((r * c + j) / c == r && (r * c + j) % c == j) by (nonlinear_arith)
        requires
            0 <= j < c,
    ;
    crate::shape::lemma_elements_two(rows, columns);
}

/// The row and the column of a transposed matrix change places.
pub proof fn lemma_transposed(a: Tensor, m: Meaning, r: int, j: int)
    requires
        transposed(a) is Some,
        a.shape.len() == 2,
        0 <= r < a.shape[1],
        0 <= j < a.shape[0],
    ensures
        transposed(a)->0.shape == seq![a.shape[1], a.shape[0]],
        re(transposed(a)->0, m, r * a.shape[0] + j) == re(a, m, j * a.shape[1] + r),
{
    let t = transposed(a)->0;
    assert(a.shape =~= seq![a.shape[0], a.shape[1]]);
    assert(t.shape =~= seq![a.shape[1], a.shape[0]]);
    lemma_matrix_place(a.shape[1], a.shape[0], r, j);
    lemma_matrix_place(a.shape[0], a.shape[1], j, r);
    lemma_rearranged(t, m, r * a.shape[0] + j);
    let axes = t.params;
    assert(axes =~= seq![1i64, 0i64]);
    assert(axes[0] == 1 && axes[1] == 0);
    assert(axes.contains(0i64) && axes.contains(1i64));
    let (p, q) = (axes.index_of(0i64), axes.index_of(1i64));
    assert(0 <= p < 2 && axes[p] == 0);
    assert(0 <= q < 2 && axes[q] == 1);
    assert(p == 1 && q == 0);
    assert(unpermuted(seq![r, j], axes) =~= seq![j, r]);
}

/// The real parts one behind another.
pub proof fn lemma_reals(t: Tensor, m: Meaning, start: int)
    ensures
        forall|j: int| #[trigger] reals(t, m, start, 1)(j) == re(t, m, start + j),
{
    assert forall|j: int| #[trigger] reals(t, m, start, 1)(j) == re(t, m, start + j) by {
        let unit = 1int;
        assert(j * unit == j) by (nonlinear_arith)
            requires
                unit == 1,
        ;
    }
}

/// The frequencies of the same samples are the same.
pub proof fn lemma_frequency_same(
    m: Meaning,
    n: int,
    x: spec_fn(int) -> real,
    y: spec_fn(int) -> real,
    f: int,
)
    requires
        forall|j: int| 0 <= j < n ==> #[trigger] x(j) == y(j),
    ensures
        frequency(m, n, x, f) == frequency(m, n, y, f),
{
    lemma_total_same(
        n,
        |j: int| x(j) * (m.cosine)(n, j * f),
        |j: int| y(j) * (m.cosine)(n, j * f),
    );
    lemma_total_same(n, |j: int| x(j) * (m.sine)(n, j * f), |j: int| y(j) * (m.sine)(n, j * f));
}

/// The frequencies of samples that are all multiplied are multiplied.
pub proof fn lemma_frequency_times(
    m: Meaning,
    n: int,
    c: real,
    x: spec_fn(int) -> real,
    y: spec_fn(int) -> real,
    f: int,
)
    requires
        forall|j: int| 0 <= j < n ==> #[trigger] y(j) == c * x(j),
    ensures
        frequency(m, n, y, f).0 == c * frequency(m, n, x, f).0,
        frequency(m, n, y, f).1 == c * frequency(m, n, x, f).1,
{
    let a = |j: int| x(j) * (m.cosine)(n, j * f);
    let b = |j: int| y(j) * (m.cosine)(n, j * f);
    assert forall|j: int| 0 <= j < n implies #[trigger] b(j) == (|j: int| c * a(j))(j) by {
        let (p, q) = (x(j), (m.cosine)(n, j * f));
        assert(y(j) == c * p);
        assert((c * p) * q == c * (p * q)) by (nonlinear_arith);
    }
    lemma_total_same(n, b, |j: int| c * a(j));
    lemma_total_times(n, c, a);
    let a2 = |j: int| x(j) * (m.sine)(n, j * f);
    let b2 = |j: int| y(j) * (m.sine)(n, j * f);
    assert forall|j: int| 0 <= j < n implies #[trigger] b2(j) == (|j: int| c * a2(j))(j) by {
        let (p, q) = (x(j), (m.sine)(n, j * f));
        assert(y(j) == c * p);
        assert((c * p) * q == c * (p * q)) by (nonlinear_arith);
    }
    lemma_total_same(n, b2, |j: int| c * a2(j));
    lemma_total_times(n, c, a2);
    let s = total(n, a2);
    assert(-(c * s) == c * (-s)) by (nonlinear_arith);
}

/// An array filled with one single-precision number.
pub proof fn lemma_filled(t: Tensor, m: Meaning, k: int)
    requires
        t.op == Op::Full,
        t.dtype == Dtype::F32,
    ensures
        re(t, m, k) == number(F32 { bits: t.bits[0] as u32 }),
{
    lemma_held(t, m, k);
    reveal(computed);
}

/// The norm of a row of a matrix.
pub proof fn lemma_row_norm(t: Tensor, m: Meaning, k: int)
    requires
        t.op == Op::Norm,
        t.args.len() == 1,
        t.args[0].shape.len() == 2,
        t.params == seq![1i64],
    ensures
        re(t, m, k) == (m.root)(
            squares_about(
                t.args[0].shape[1] as int,
                reals(t.args[0], m, k * t.args[0].shape[1], 1),
                0real,
            ),
        ),
{
    lemma_held(t, m, k);
    reveal(computed);
    let n = t.args[0].shape[1] as int;
    assert(reals_of(operands(t, m), 0, k * n, 1) == reals(t.args[0], m, k * n, 1));
}

proof fn lemma_size(x: F32)
    ensures
        ({
            let e = x.magnitude() / 0x80_0000;
            let f = x.magnitude() % 0x80_0000;
            let s = if e == 0 {
                2 * f
            } else {
                0x80_0000 + f
            };
            &&& 0 <= e
            &&& 0 <= f < 0x80_0000
            &&& x.magnitude() == e * 0x80_0000 + f
            &&& number(x) * (pow2(150) as real) == (s as real) * (pow2(e as nat) as real) * (
            if x.rank() < 0 {
                -1real
            } else {
                1real
            })
            &&& pow2(150) as real > 0real
            &&& pow2(e as nat) as real > 0real
        }),
{
    let e = x.magnitude() / 0x80_0000;
    let f = x.magnitude() % 0x80_0000;
    let s = if e == 0 {
        2 * f
    } else {
        0x80_0000 + f
    };
    lemma_powers(e as nat, 0);
    lemma_powers(150, 0);
    let (a, b, p) = (s as real, pow2(e as nat) as real, pow2(150) as real);
    assert(a * b / p * p == a * b) by (nonlinear_arith)
        requires
            p > 0real,
    ;
    assert((-(a * b / p)) * p == a * b * (-1real)) by (nonlinear_arith)
        requires
            a * b / p * p == a * b,
    ;
    assert(a * b * 1real == a * b) by (nonlinear_arith);
}

/// What is positive is above zero, what is zero is zero, and what is below
/// zero is neither.
pub proof fn signs_are_those_of_numbers(x: F32)
    requires
        x.is_finite(),
    ensures
        x.is_positive() <==> number(x) > 0real,
        x.is_zero() <==> number(x) == 0real,
        x.is_not_above_zero() <==> number(x) <= 0real,
{
    lemma_size(x);
    let e = x.magnitude() / 0x80_0000;
    let f = x.magnitude() % 0x80_0000;
    let s = if e == 0 {
        2 * f
    } else {
        0x80_0000 + f
    };
    let (n, a, b, p) = (number(x), s as real, pow2(e as nat) as real, pow2(150) as real);
    if x.rank() == 0 {
        assert(a == 0real);
        assert(n == 0real) by (nonlinear_arith)
            requires
                n * p == a * b * 1real,
                a == 0real,
                p > 0real,
        ;
    } else if x.rank() > 0 {
        assert(s > 0);
        assert(a > 0real);
        assert(n > 0real) by (nonlinear_arith)
            requires
                n * p == a * b * 1real,
                a > 0real,
                b > 0real,
                p > 0real,
        ;
    } else {
        assert(s > 0);
        assert(a > 0real);
        assert(n < 0real) by (nonlinear_arith)
            requires
                n * p == a * b * (-1real),
                a > 0real,
                b > 0real,
                p > 0real,
        ;
    }
}

proof fn lemma_larger_size(x: F32, y: F32)
    requires
        0 <= x.magnitude() < y.magnitude(),
        x.rank() >= 0,
        y.rank() >= 0,
    ensures
        number(x) < number(y),
{
    lemma_size(x);
    lemma_size(y);
    let (e, g) = (x.magnitude() / 0x80_0000, y.magnitude() / 0x80_0000);
    let (f, h) = (x.magnitude() % 0x80_0000, y.magnitude() % 0x80_0000);
    let s = if e == 0 {
        2 * f
    } else {
        0x80_0000 + f
    };
    let t = if g == 0 {
        2 * h
    } else {
        0x80_0000 + h
    };
    let (a, b) = (s as real, pow2(e as nat) as real);
    let (c, d) = (t as real, pow2(g as nat) as real);
    let p = pow2(150) as real;
    assert(a * b < c * d) by {
        if e == g {
            assert(s < t);
            assert(a < c);
            assert(a * b < c * d) by (nonlinear_arith)
                requires
                    a < c,
                    b == d,
                    b > 0real,
            ;
        } else {
            assert(e < g);
            lemma_powers(1, e as nat);
            vstd::arithmetic::power2::lemma2_to64();
            if e + 1 < g {
                vstd::arithmetic::power2::lemma_pow2_strictly_increases((1 + e) as nat, g as nat);
            }
            assert(pow2((1 + e) as nat) <= pow2(g as nat));
            assert(2real * b <= d);
            assert(a < 16777216real && c >= 8388608real);
            assert(a * b < c * d) by (nonlinear_arith)
                requires
                    a < 16777216real,
                    c >= 8388608real,
                    2real * b <= d,
                    b > 0real,
            ;
        }
    }
    let (m, n) = (number(x), number(y));
    assert(m < n) by (nonlinear_arith)
        requires
            m * p == a * b * 1real,
            n * p == c * d * 1real,
            a * b < c * d,
            p > 0real,
    ;
}

/// Numbers are ordered as what they stand for.
pub proof fn numbers_are_ordered(x: F32, y: F32)
    requires
        x.is_finite(),
        y.is_finite(),
    ensures
        x.lt(y) <==> number(x) < number(y),
{
    signs_are_those_of_numbers(x);
    signs_are_those_of_numbers(y);
    if x.rank() > 0 && y.rank() > 0 {
        if x.rank() < y.rank() {
            lemma_larger_size(x, y);
        } else if y.rank() < x.rank() {
            lemma_larger_size(y, x);
        }
    } else if x.rank() < 0 && y.rank() < 0 {
        let (u, v) = (F32 { bits: (x.bits - 0x8000_0000) as u32 }, F32 {
            bits: (y.bits - 0x8000_0000) as u32,
        });
        assert(number(x) == -number(u));
        assert(number(y) == -number(v));
        if x.rank() < y.rank() {
            lemma_larger_size(v, u);
        } else if y.rank() < x.rank() {
            lemma_larger_size(u, v);
        }
    }
}

} // verus!
