//! Resampling of RGBA images with eight bits for each channel.
//!
//! An image is resampled along its rows and then along its columns; between
//! the two it is rounded to eight bits. Each output is a weighted sum of the
//! inputs in a window. Weights are fixed-point numbers with 22 bits behind the
//! point, so a sum is one of integers and is the same on every machine.
use vstd::prelude::*;

use crate::error::{out_of_memory, shape_mismatch, Error, Result};
use crate::text::{decimal, decimal_text, with_three, with_two};
use crate::vlm::raster::{lemma_raster_place, raster};

verus! {

/// The bits behind the point of a weight.
pub const PRECISION_BITS: u32 = 22;

/// The weight one.
pub const ONE: i32 = 0x40_0000;

/// Half of the weight one, added before a sum is cut to an integer.
pub const ROUND_BIAS: i32 = 0x20_0000;

/// The bytes of a pixel.
pub const CHANNELS: usize = 4;

/// The largest sum of the magnitudes of one window's weights for which no sum
/// of bytes leaves the range of `i32`.
pub const MAX_TAP_SUM: i64 = 0x80_6060;

/// How an image is resampled.
#[derive(Clone, Copy, Debug, PartialEq, Eq, Structural)]
pub enum Filter {
    /// The nearest pixel.
    Nearest,
    /// A triangle, one pixel to each side.
    Bilinear,
    /// The Keys cubic with `a = -0.5`, two pixels to each side.
    Bicubic,
    /// A windowed sinc, three pixels to each side.
    Lanczos3,
}

/// The windows and weights that resample one axis.
///
/// Output `o` is the sum of the `n` inputs from `xmin` on, where
/// `bounds[o] == (xmin, n)`, each times one of the `n` weights from
/// `o * ksize` on.
#[derive(Debug)]
pub struct Coeffs {
    bounds: Vec<(usize, usize)>,
    weights: Vec<i32>,
    ksize: usize,
    in_size: usize,
}

/// The sum of the magnitudes of `n` weights from `base` on.
pub open spec fn tap_magnitude(weights: Seq<i32>, base: int, n: int) -> int
    decreases n,
{
    if n <= 0 {
        0
    } else {
        let w = weights[base + n - 1] as int;
        tap_magnitude(weights, base, n - 1) + if w < 0 {
            -w
        } else {
            w
        }
    }
}

/// The sum of `n` weights from `base` on.
pub open spec fn tap_sum(weights: Seq<i32>, base: int, n: int) -> int
    decreases n,
{
    if n <= 0 {
        0
    } else {
        tap_sum(weights, base, n - 1) + weights[base + n - 1]
    }
}

/// Whether the window and the weights of one output are in range.
pub open spec fn window_fits(
    bound: (usize, usize),
    weights: Seq<i32>,
    o: int,
    ksize: int,
    in_size: int,
) -> bool {
    &&& bound.1 <= ksize
    &&& bound.0 + bound.1 <= in_size
    &&& tap_magnitude(weights, o * ksize, bound.1 as int) <= MAX_TAP_SUM
}

/// Whether windows and weights can resample an axis of `in_size` inputs.
pub open spec fn coeffs_fit(
    bounds: Seq<(usize, usize)>,
    weights: Seq<i32>,
    ksize: int,
    in_size: int,
) -> bool {
    &&& weights.len() == bounds.len() * ksize
    &&& forall|o: int|
        0 <= o < bounds.len() ==> window_fits(#[trigger] bounds[o], weights, o, ksize, in_size)
}

impl Coeffs {
    pub closed spec fn bounds(&self) -> Seq<(usize, usize)> {
        self.bounds@
    }

    pub closed spec fn weights(&self) -> Seq<i32> {
        self.weights@
    }

    pub closed spec fn ksize(&self) -> int {
        self.ksize as int
    }

    /// The inputs that the axis has.
    pub closed spec fn in_size(&self) -> int {
        self.in_size as int
    }

    #[verifier::type_invariant]
    spec fn type_inv(self) -> bool {
        coeffs_fit(self.bounds@, self.weights@, self.ksize as int, self.in_size as int)
    }

    /// The number of outputs.
    pub fn out_size(&self) -> (n: usize)
        ensures
            n == self.bounds().len(),
    {
        self.bounds.len()
    }

    /// The window of output `o`: its first input and how many there are.
    pub fn bound(&self, o: usize) -> (b: (usize, usize))
        requires
            o < self.bounds().len(),
        ensures
            b == self.bounds()[o as int],
    {
        self.bounds[o]
    }

    /// The weights of output `o`.
    pub fn taps(&self, o: usize) -> (t: Vec<i32>)
        requires
            o < self.bounds().len(),
        ensures
            t@ == self.weights().subrange(
                o * self.ksize(),
                o * self.ksize() + self.bounds()[o as int].1,
            ),
    {
        proof {
            use_type_invariant(self);
            lemma_row(self.bounds@.len() as int, self.ksize as int, o as int);
            assert(window_fits(
                self.bounds@[o as int],
                self.weights@,
                o as int,
                self.ksize as int,
                self.in_size as int,
            ));
        }
        let n: usize = self.bounds[o].1;
        let total: usize = self.weights.len();
        let base: usize = o * self.ksize;
        let mut t: Vec<i32> = Vec::new();
        let mut i: usize = 0;
        while i < n
            invariant
                0 <= i <= n,
                base + n <= total == self.weights@.len(),
                t@ == self.weights@.subrange(base as int, base + i),
            decreases n - i,
        {
            t.push(self.weights[base + i]);
            assert(self.weights@.subrange(base as int, base + i + 1) =~= self.weights@.subrange(
                base as int,
                base + i,
            ).push(self.weights@[base + i]));
            i = i + 1;
        }
        t
    }
}

proof fn lemma_row(rows: int, ksize: int, o: int)
    requires
        0 <= o < rows,
        ksize >= 0,
    ensures
        0 <= o * ksize,
        o * ksize + ksize <= rows * ksize,
{
    assert(o * ksize + ksize <= rows * ksize) by (nonlinear_arith)
        requires
            o + 1 <= rows,
            ksize >= 0,
    ;
    assert(o * ksize >= 0) by (nonlinear_arith)
        requires
            o >= 0,
            ksize >= 0,
    ;
}

proof fn lemma_tap_magnitude(weights: Seq<i32>, base: int, n: int, m: int)
    requires
        0 <= n <= m,
    ensures
        0 <= tap_magnitude(weights, base, n) <= tap_magnitude(weights, base, m),
    decreases m,
{
    if n < m {
        lemma_tap_magnitude(weights, base, n, m - 1);
    } else if n > 0 {
        lemma_tap_magnitude(weights, base, n - 1, n - 1);
    }
}

fn magnitude_within(weights: &Vec<i32>, base: usize, n: usize) -> (r: bool)
    requires
        base + n <= weights@.len(),
    ensures
        r == (tap_magnitude(weights@, base as int, n as int) <= MAX_TAP_SUM),
{
    let total: usize = weights.len();
    let mut sum: i64 = 0;
    let mut i: usize = 0;
    while i < n
        invariant
            0 <= i <= n,
            base + n <= total == weights@.len(),
            sum == tap_magnitude(weights@, base as int, i as int),
            0 <= sum <= MAX_TAP_SUM,
        decreases n - i,
    {
        let w: i64 = weights[base + i] as i64;
        sum = sum + if w < 0 {
            -w
        } else {
            w
        };
        i = i + 1;
        if sum > MAX_TAP_SUM {
            proof {
                lemma_tap_magnitude(weights@, base as int, i as int, n as int);
            }
            return false;
        }
    }
    true
}

/// A finished sum as a byte: cut to an integer and kept between 0 and 255.
pub open spec fn clipped(acc: int) -> u8 {
    if acc < 0 {
        0
    } else if acc / (ONE as int) > 255 {
        255
    } else {
        (acc / (ONE as int)) as u8
    }
}

/// A finished sum as a byte: cut to an integer and kept between 0 and 255.
pub fn clip8(acc: i32) -> (b: u8)
    ensures
        b == clipped(acc as int),
{
    if acc < 0 {
        0
    } else {
        let v: i32 = acc / ONE;
        if v > 255 {
            255
        } else {
            v as u8
        }
    }
}

/// The sum of `n` bytes, `stride` apart from `start` on, each times one of the
/// weights from `base` on.
pub open spec fn weighted(
    data: Seq<u8>,
    start: int,
    stride: int,
    weights: Seq<i32>,
    base: int,
    n: int,
) -> int
    decreases n,
{
    if n <= 0 {
        0
    } else {
        weighted(data, start, stride, weights, base, n - 1) + data[start + (n - 1) * stride]
            * weights[base + n - 1]
    }
}

proof fn lemma_weighted_bound(
    data: Seq<u8>,
    start: int,
    stride: int,
    weights: Seq<i32>,
    base: int,
    n: int,
)
    requires
        n >= 0,
    ensures
        -255 * tap_magnitude(weights, base, n) <= weighted(data, start, stride, weights, base, n)
            <= 255 * tap_magnitude(weights, base, n),
    decreases n,
{
    if n > 0 {
        lemma_weighted_bound(data, start, stride, weights, base, n - 1);
        let d = data[start + (n - 1) * stride] as int;
        let w = weights[base + n - 1] as int;
        let a = if w < 0 {
            -w
        } else {
            w
        };
        assert(-255 * a <= d * w <= 255 * a) by (nonlinear_arith)
            requires
                0 <= d <= 255,
                a == w || a == -w,
                a >= 0,
        ;
    }
}

/// One byte of a resampled image.
pub open spec fn resampled(
    data: Seq<u8>,
    start: int,
    stride: int,
    weights: Seq<i32>,
    base: int,
    n: int,
) -> u8 {
    clipped(ROUND_BIAS + weighted(data, start, stride, weights, base, n))
}

/// One byte of a resampled image.
fn resample(
    data: &[u8],
    start: usize,
    stride: usize,
    weights: &Vec<i32>,
    base: usize,
    n: usize,
) -> (b: u8)
    requires
        base + n <= weights@.len(),
        n > 0 ==> start + (n - 1) * stride < data@.len(),
        tap_magnitude(weights@, base as int, n as int) <= MAX_TAP_SUM,
    ensures
        b == resampled(data@, start as int, stride as int, weights@, base as int, n as int),
{
    let total: usize = weights.len();
    let size: usize = data.len();
    let mut acc: i32 = ROUND_BIAS;
    let mut i: usize = 0;
    while i < n
        invariant
            0 <= i <= n,
            base + n <= total == weights@.len(),
            n > 0 ==> start + (n - 1) * stride < size,
            size == data@.len(),
            tap_magnitude(weights@, base as int, n as int) <= MAX_TAP_SUM,
            acc == ROUND_BIAS + weighted(
                data@,
                start as int,
                stride as int,
                weights@,
                base as int,
                i as int,
            ),
        decreases n - i,
    {
        proof {
            assert(0 <= i * stride <= (n - 1) * stride) by (nonlinear_arith)
                requires
                    0 <= i <= n - 1,
                    stride >= 0,
            ;
            lemma_weighted_bound(
                data@,
                start as int,
                stride as int,
                weights@,
                base as int,
                i as int,
            );
            lemma_weighted_bound(
                data@,
                start as int,
                stride as int,
                weights@,
                base as int,
                i + 1,
            );
            lemma_tap_magnitude(weights@, base as int, i as int, n as int);
            lemma_tap_magnitude(weights@, base as int, i + 1, n as int);
            assert(i * stride == ((i + 1) - 1) * stride);
        }
        let d: i32 = data[start + i * stride] as i32;
        let w: i32 = weights[base + i];
        proof {
            let a = if w < 0 {
                -w
            } else {
                w as int
            };
            assert(-255 * a <= d * w <= 255 * a) by (nonlinear_arith)
                requires
                    0 <= d <= 255,
                    a == w || a == -w,
                    a >= 0,
            ;
            assert(a <= tap_magnitude(weights@, base as int, i + 1));
        }
        acc = acc + d * w;
        i = i + 1;
    }
    clip8(acc)
}

/// The byte of channel `ch` at column `x` of row `y` after the rows have been
/// resampled.
pub open spec fn row_byte(src: Seq<u8>, src_w: int, c: &Coeffs, y: int, x: int, ch: int) -> u8 {
    resampled(
        src,
        (y * src_w + c.bounds()[x].0) * CHANNELS + ch,
        CHANNELS as int,
        c.weights(),
        x * c.ksize(),
        c.bounds()[x].1 as int,
    )
}

/// The byte of channel `ch` at column `x` of row `y` after the columns have
/// been resampled.
pub open spec fn column_byte(src: Seq<u8>, w: int, c: &Coeffs, y: int, x: int, ch: int) -> u8 {
    resampled(
        src,
        (c.bounds()[y].0 * w + x) * CHANNELS + ch,
        w * CHANNELS,
        c.weights(),
        y * c.ksize(),
        c.bounds()[y].1 as int,
    )
}

/// The image with its rows resampled.
pub open spec fn rows_resampled(src: Seq<u8>, src_w: int, rows: int, c: &Coeffs) -> Seq<u8> {
    raster(
        rows,
        c.bounds().len() as int,
        CHANNELS as int,
        |y: int, x: int, ch: int| row_byte(src, src_w, c, y, x, ch),
    )
}

/// The image with its columns resampled.
pub open spec fn columns_resampled(src: Seq<u8>, w: int, c: &Coeffs) -> Seq<u8> {
    raster(
        c.bounds().len() as int,
        w,
        CHANNELS as int,
        |y: int, x: int, ch: int| column_byte(src, w, c, y, x, ch),
    )
}

proof fn lemma_row_window(rows: int, y: int, src_w: int, xmin: int, n: int, ch: int)
    requires
        0 <= y < rows,
        0 <= xmin,
        1 <= n,
        xmin + n <= src_w,
        0 <= ch < 4,
    ensures
        0 <= (y * src_w + xmin) * 4 + ch,
        (y * src_w + xmin) * 4 + ch + (n - 1) * 4 < rows * src_w * 4,
{
    assert(y * src_w + src_w <= rows * src_w) by (nonlinear_arith)
        requires
            y + 1 <= rows,
            src_w >= 0,
    ;
    assert(y * src_w >= 0) by (nonlinear_arith)
        requires
            y >= 0,
            src_w >= 0,
    ;
}

/// Resamples the rows of an image into `out`.
fn convolve_axis_scalar(
    src: &[u8],
    src_w: usize,
    rows: usize,
    c: &Coeffs,
    out: Vec<u8>,
) -> (r: Vec<u8>)
    requires
        out@.len() == 0,
        src@.len() == src_w * rows * CHANNELS,
        c.in_size() == src_w,
        c.bounds().len() * rows * CHANNELS <= usize::MAX,
    ensures
        r@ == rows_resampled(src@, src_w as int, rows as int, c),
{
    proof {
        use_type_invariant(c);
    }
    let out_w: usize = c.bounds.len();
    let ghost all = rows_resampled(src@, src_w as int, rows as int, c);
    proof {
        assert(rows * out_w * 4 == out_w * rows * 4) by (nonlinear_arith);
        assert(rows * src_w * 4 == src_w * rows * 4) by (nonlinear_arith);
        assert(out_w * rows >= 0) by (nonlinear_arith)
            requires
                out_w >= 0,
                rows >= 0,
        ;
    }
    let size: usize = src.len();
    let total: usize = c.weights.len();
    let mut out: Vec<u8> = out;
    let mut y: usize = 0;
    while y < rows
        invariant
            0 <= y <= rows,
            out_w == c.bounds@.len(),
            size == src@.len(),
            total == c.weights@.len(),
            src@.len() == rows * src_w * 4,
            c.in_size == src_w,
            all == rows_resampled(src@, src_w as int, rows as int, c),
            all.len() == rows * out_w * 4,
            coeffs_fit(c.bounds@, c.weights@, c.ksize as int, c.in_size as int),
            out@.len() == y * out_w * 4,
            forall|k: int| 0 <= k < out@.len() ==> out@[k] == all[k],
        decreases rows - y,
    {
        let mut x: usize = 0;
        while x < out_w
            invariant
                0 <= y < rows,
                0 <= x <= out_w,
                out_w == c.bounds@.len(),
                size == src@.len(),
                total == c.weights@.len(),
                src@.len() == rows * src_w * 4,
                c.in_size == src_w,
                all == rows_resampled(src@, src_w as int, rows as int, c),
                all.len() == rows * out_w * 4,
                coeffs_fit(c.bounds@, c.weights@, c.ksize as int, c.in_size as int),
                out@.len() == (y * out_w + x) * 4,
                forall|k: int| 0 <= k < out@.len() ==> out@[k] == all[k],
            decreases out_w - x,
        {
            let (xmin, n) = c.bounds[x];
            proof {
                assert(window_fits(
                    c.bounds@[x as int],
                    c.weights@,
                    x as int,
                    c.ksize as int,
                    c.in_size as int,
                ));
                lemma_row(c.bounds@.len() as int, c.ksize as int, x as int);
            }
            let base: usize = x * c.ksize;
            let mut ch: usize = 0;
            while ch < 4
                invariant
                    0 <= y < rows,
                    0 <= x < out_w,
                    0 <= ch <= 4,
                    out_w == c.bounds@.len(),
                    size == src@.len(),
                    src@.len() == rows * src_w * 4,
                    c.in_size == src_w,
                    all == rows_resampled(src@, src_w as int, rows as int, c),
                    all.len() == rows * out_w * 4,
                    (xmin, n) == c.bounds@[x as int],
                    base == x * c.ksize,
                    base + n <= c.weights@.len(),
                    window_fits(
                        (xmin, n),
                        c.weights@,
                        x as int,
                        c.ksize as int,
                        c.in_size as int,
                    ),
                    out@.len() == (y * out_w + x) * 4 + ch,
                    forall|k: int| 0 <= k < out@.len() ==> out@[k] == all[k],
                decreases 4 - ch,
            {
                proof {
                    lemma_raster_place(
                        rows as int,
                        out_w as int,
                        4,
                        y as int,
                        x as int,
                        ch as int,
                    );
                    if n > 0 {
                        lemma_row_window(
                            rows as int,
                            y as int,
                            src_w as int,
                            xmin as int,
                            n as int,
                            ch as int,
                        );
                    }
                }
                let b: u8 = if n == 0 {
                    clip8(ROUND_BIAS)
                } else {
                    resample(
                        src,
                        (y * src_w + xmin) * 4 + ch,
                        CHANNELS,
                        &c.weights,
                        base,
                        n,
                    )
                };
                assert(b == row_byte(src@, src_w as int, c, y as int, x as int, ch as int));
                out.push(b);
                ch = ch + 1;
            }
            x = x + 1;
        }
        proof {
            assert((y + 1) * out_w == y * out_w + out_w) by (nonlinear_arith);
        }
        y = y + 1;
    }
    assert(out@ =~= all);
    out
}

proof fn lemma_column_window(h: int, w: int, x: int, ymin: int, n: int, ch: int)
    requires
        0 <= x < w,
        0 <= ymin,
        1 <= n,
        ymin + n <= h,
        0 <= ch < 4,
    ensures
        0 <= ymin * w,
        0 <= (ymin * w + x) * 4 + ch,
        (n - 1) * (w * 4) >= 0,
        (ymin * w + x) * 4 + ch + (n - 1) * (w * 4) < w * h * 4,
{
    assert(ymin * w + (n - 1) * w + w <= w * h) by (nonlinear_arith)
        requires
            ymin + n <= h,
            w >= 0,
    ;
    assert(ymin * w >= 0 && (n - 1) * w >= 0) by (nonlinear_arith)
        requires
            ymin >= 0,
            n >= 1,
            w >= 0,
    ;
    assert((n - 1) * (w * 4) == (n - 1) * w * 4) by (nonlinear_arith);
}

/// Resamples the columns of an image of `h` rows into `out`.
fn convolve_vertical_scalar(src: &[u8], w: usize, h: usize, c: &Coeffs, out: Vec<u8>) -> (r: Vec<
    u8,
>)
    requires
        out@.len() == 0,
        src@.len() == w * h * CHANNELS,
        c.in_size() == h,
        h >= 1,
        c.bounds().len() * w * CHANNELS <= usize::MAX,
    ensures
        r@ == columns_resampled(src@, w as int, c),
{
    proof {
        use_type_invariant(c);
    }
    let out_h: usize = c.bounds.len();
    let ghost all = columns_resampled(src@, w as int, c);
    let size: usize = src.len();
    let total: usize = c.weights.len();
    proof {
        assert(out_h * w >= 0) by (nonlinear_arith)
            requires
                out_h >= 0,
                w >= 0,
        ;
        assert(w * 4 <= w * h * 4) by (nonlinear_arith)
            requires
                h >= 1,
                w >= 0,
        ;
    }
    let stride: usize = w * CHANNELS;
    let mut out: Vec<u8> = out;
    let mut y: usize = 0;
    while y < out_h
        invariant
            0 <= y <= out_h,
            out_h == c.bounds@.len(),
            size == src@.len(),
            total == c.weights@.len(),
            stride == w * 4,
            src@.len() == w * h * 4,
            c.in_size == h,
            all == columns_resampled(src@, w as int, c),
            all.len() == out_h * w * 4,
            coeffs_fit(c.bounds@, c.weights@, c.ksize as int, c.in_size as int),
            out@.len() == y * w * 4,
            forall|k: int| 0 <= k < out@.len() ==> out@[k] == all[k],
        decreases out_h - y,
    {
        let (ymin, n) = c.bounds[y];
        proof {
            assert(window_fits(
                c.bounds@[y as int],
                c.weights@,
                y as int,
                c.ksize as int,
                c.in_size as int,
            ));
            lemma_row(c.bounds@.len() as int, c.ksize as int, y as int);
        }
        let base: usize = y * c.ksize;
        let mut x: usize = 0;
        while x < w
            invariant
                0 <= y < out_h,
                0 <= x <= w,
                out_h == c.bounds@.len(),
                size == src@.len(),
                stride == w * 4,
                src@.len() == w * h * 4,
                c.in_size == h,
                all == columns_resampled(src@, w as int, c),
                all.len() == out_h * w * 4,
                (ymin, n) == c.bounds@[y as int],
                base == y * c.ksize,
                base + n <= c.weights@.len(),
                window_fits((ymin, n), c.weights@, y as int, c.ksize as int, c.in_size as int),
                out@.len() == (y * w + x) * 4,
                forall|k: int| 0 <= k < out@.len() ==> out@[k] == all[k],
            decreases w - x,
        {
            let mut ch: usize = 0;
            while ch < 4
                invariant
                    0 <= y < out_h,
                    0 <= x < w,
                    0 <= ch <= 4,
                    out_h == c.bounds@.len(),
                    size == src@.len(),
                    stride == w * 4,
                    src@.len() == w * h * 4,
                    c.in_size == h,
                    all == columns_resampled(src@, w as int, c),
                    all.len() == out_h * w * 4,
                    (ymin, n) == c.bounds@[y as int],
                    base == y * c.ksize,
                    base + n <= c.weights@.len(),
                    window_fits((ymin, n), c.weights@, y as int, c.ksize as int, c.in_size as int),
                    out@.len() == (y * w + x) * 4 + ch,
                    forall|k: int| 0 <= k < out@.len() ==> out@[k] == all[k],
                decreases 4 - ch,
            {
                proof {
                    lemma_raster_place(out_h as int, w as int, 4, y as int, x as int, ch as int);
                    if n > 0 {
                        lemma_column_window(
                            h as int,
                            w as int,
                            x as int,
                            ymin as int,
                            n as int,
                            ch as int,
                        );
                    }
                }
                let b: u8 = if n == 0 {
                    clip8(ROUND_BIAS)
                } else {
                    resample(src, (ymin * w + x) * 4 + ch, stride, &c.weights, base, n)
                };
                assert(b == column_byte(src@, w as int, c, y as int, x as int, ch as int));
                out.push(b);
                ch = ch + 1;
            }
            x = x + 1;
        }
        proof {
            assert((y + 1) * w == y * w + w) by (nonlinear_arith);
        }
        y = y + 1;
    }
    assert(out@ =~= all);
    out
}

/// The input pixel nearest to output pixel `o` of an axis resampled from
/// `in_size` to `out_size` pixels.
pub open spec fn nearest_index(o: int, in_size: int, out_size: int) -> int {
    let i = (2 * o + 1) * in_size / (2 * out_size);
    if i < in_size {
        i
    } else {
        in_size - 1
    }
}

/// Every nearest pixel is one of the axis.
pub proof fn nearest_index_in_range(o: int, in_size: int, out_size: int)
    requires
        0 <= o,
        in_size >= 1,
        out_size >= 1,
    ensures
        0 <= nearest_index(o, in_size, out_size) < in_size,
{
    assert((2 * o + 1) * in_size / (2 * out_size) >= 0) by (nonlinear_arith)
        requires
            0 <= o,
            in_size >= 1,
            out_size >= 1,
    ;
}

/// An axis of unchanged size keeps every pixel in place.
pub proof fn nearest_index_identity(o: int, size: int)
    requires
        0 <= o < size,
    ensures
        nearest_index(o, size, size) == o,
{
    assert((2 * o + 1) * size / (2 * size) == o) by (nonlinear_arith)
        requires
            0 <= o < size,
    ;
}

fn nearest(o: usize, in_size: usize, out_size: usize) -> (i: usize)
    requires
        o < out_size,
        in_size >= 1,
        out_size * CHANNELS <= usize::MAX,
    ensures
        i == nearest_index(o as int, in_size as int, out_size as int),
        i < in_size,
{
    proof {
        nearest_index_in_range(o as int, in_size as int, out_size as int);
        let (a, b) = (2 * o + 1, in_size as int);
        assert(0 <= a * b <= 0x1_0000_0000_0000_0000 * 0x1_0000_0000_0000_0000 - 1) by (
        nonlinear_arith)
            requires
                1 <= a < 0x1_0000_0000_0000_0000,
                0 <= b < 0x1_0000_0000_0000_0000,
        ;
    }
    let i: u128 = (2 * o as u128 + 1) * in_size as u128 / (2 * out_size as u128);
    if i < in_size as u128 {
        i as usize
    } else {
        in_size - 1
    }
}

/// The image resampled by taking the nearest pixel.
pub open spec fn nearest_resampled(
    src: Seq<u8>,
    src_w: int,
    src_h: int,
    dst_w: int,
    dst_h: int,
) -> Seq<u8> {
    raster(
        dst_h,
        dst_w,
        CHANNELS as int,
        |y: int, x: int, ch: int|
            src[(nearest_index(y, src_h, dst_h) * src_w + nearest_index(x, src_w, dst_w)) * CHANNELS
                + ch],
    )
}

/// Resamples an image into `out` by taking the nearest pixel.
fn resize_nearest(
    src: &[u8],
    src_w: usize,
    src_h: usize,
    dst_w: usize,
    dst_h: usize,
    out: Vec<u8>,
) -> (r: Vec<u8>)
    requires
        out@.len() == 0,
        src_w >= 1,
        src_h >= 1,
        dst_w >= 1,
        dst_h >= 1,
        src@.len() == src_w * src_h * CHANNELS,
        dst_w * dst_h * CHANNELS <= usize::MAX,
    ensures
        r@ == nearest_resampled(
            src@,
            src_w as int,
            src_h as int,
            dst_w as int,
            dst_h as int,
        ),
{
    let ghost all = nearest_resampled(
        src@,
        src_w as int,
        src_h as int,
        dst_w as int,
        dst_h as int,
    );
    let size: usize = src.len();
    proof {
        assert(dst_w * 4 <= dst_w * dst_h * 4 && dst_h * 4 <= dst_w * dst_h * 4) by (
        nonlinear_arith)
            requires
                dst_w >= 1,
                dst_h >= 1,
        ;
        assert(dst_h * dst_w == dst_w * dst_h) by (nonlinear_arith);
        assert(src_h * src_w == src_w * src_h) by (nonlinear_arith);
    }
    let mut out: Vec<u8> = out;
    let mut y: usize = 0;
    while y < dst_h
        invariant
            0 <= y <= dst_h,
            src_w >= 1,
            src_h >= 1,
            dst_w * 4 <= usize::MAX,
            dst_h * 4 <= usize::MAX,
            size == src@.len(),
            src@.len() == src_h * src_w * 4,
            all == nearest_resampled(
                src@,
                src_w as int,
                src_h as int,
                dst_w as int,
                dst_h as int,
            ),
            all.len() == dst_h * dst_w * 4,
            out@.len() == y * dst_w * 4,
            forall|k: int| 0 <= k < out@.len() ==> out@[k] == all[k],
        decreases dst_h - y,
    {
        let sy: usize = nearest(y, src_h, dst_h);
        let mut x: usize = 0;
        while x < dst_w
            invariant
                0 <= y < dst_h,
                0 <= x <= dst_w,
                src_w >= 1,
                dst_w * 4 <= usize::MAX,
                size == src@.len(),
                src@.len() == src_h * src_w * 4,
                sy == nearest_index(y as int, src_h as int, dst_h as int),
                sy < src_h,
                all == nearest_resampled(
                    src@,
                    src_w as int,
                    src_h as int,
                    dst_w as int,
                    dst_h as int,
                ),
                all.len() == dst_h * dst_w * 4,
                out@.len() == (y * dst_w + x) * 4,
                forall|k: int| 0 <= k < out@.len() ==> out@[k] == all[k],
            decreases dst_w - x,
        {
            let sx: usize = nearest(x, src_w, dst_w);
            let mut ch: usize = 0;
            while ch < 4
                invariant
                    0 <= y < dst_h,
                    0 <= x < dst_w,
                    0 <= ch <= 4,
                    size == src@.len(),
                    src@.len() == src_h * src_w * 4,
                    sy == nearest_index(y as int, src_h as int, dst_h as int),
                    sx == nearest_index(x as int, src_w as int, dst_w as int),
                    sy < src_h,
                    sx < src_w,
                    all == nearest_resampled(
                        src@,
                        src_w as int,
                        src_h as int,
                        dst_w as int,
                        dst_h as int,
                    ),
                    all.len() == dst_h * dst_w * 4,
                    out@.len() == (y * dst_w + x) * 4 + ch,
                    forall|k: int| 0 <= k < out@.len() ==> out@[k] == all[k],
                decreases 4 - ch,
            {
                proof {
                    lemma_raster_place(
                        dst_h as int,
                        dst_w as int,
                        4,
                        y as int,
                        x as int,
                        ch as int,
                    );
                    lemma_raster_place(
                        src_h as int,
                        src_w as int,
                        4,
                        sy as int,
                        sx as int,
                        ch as int,
                    );
                    assert(sy * src_w >= 0) by (nonlinear_arith)
                        requires
                            sy >= 0,
                            src_w >= 0,
                    ;
                }
                out.push(src[(sy * src_w + sx) * 4 + ch]);
                ch = ch + 1;
            }
            x = x + 1;
        }
        proof {
            assert((y + 1) * dst_w == y * dst_w + dst_w) by (nonlinear_arith);
        }
        y = y + 1;
    }
    assert(out@ =~= all);
    out
}

/// The weights of one output: those of the inputs from `xmin` on.
#[derive(Debug)]
pub struct Taps {
    pub xmin: usize,
    pub weights: Vec<i32>,
}

impl Filter {
    /// How many pixels the filter reaches to each side of an axis that is not
    /// made smaller.
    pub open spec fn spec_radius(self) -> int {
        match self {
            Filter::Nearest => 0,
            Filter::Bilinear => 1,
            Filter::Bicubic => 2,
            Filter::Lanczos3 => 3,
        }
    }

    /// How many pixels the filter reaches to each side.
    pub fn radius(self) -> (r: usize)
        ensures
            r == self.spec_radius(),
    {
        match self {
            Filter::Nearest => 0,
            Filter::Bilinear => 1,
            Filter::Bicubic => 2,
            Filter::Lanczos3 => 3,
        }
    }
}

/// How far the filter reaches along an axis: its radius, widened with the
/// pixels where the axis is made smaller, rounded up.
pub open spec fn support(filter: Filter, in_size: int, out_size: int) -> int {
    if in_size <= out_size {
        filter.spec_radius()
    } else {
        (filter.spec_radius() * in_size + out_size - 1) / out_size
    }
}

/// The length of a row of weights: both sides and the middle, but no more than
/// the axis has.
pub open spec fn kernel_size(filter: Filter, in_size: int, out_size: int) -> int {
    let k = 2 * support(filter, in_size, out_size) + 1;
    if k < in_size {
        k
    } else {
        in_size
    }
}

/// Weights in rows of `ksize`, each filled up with zeros.
pub open spec fn rows_of_weights(taps: Seq<Taps>, ksize: int) -> Seq<i32> {
    Seq::new(
        (taps.len() * ksize) as nat,
        |k: int|
            if k % ksize < taps[k / ksize].weights@.len() {
                taps[k / ksize].weights@[k % ksize]
            } else {
                0
            },
    )
}

/// The windows of the weights.
pub open spec fn windows_of(taps: Seq<Taps>) -> Seq<(usize, usize)> {
    Seq::new(taps.len(), |o: int| (taps[o].xmin, taps[o].weights@.len() as usize))
}

/// Whether the weights of one output fit an axis: there are some, no more than
/// a row holds, they lie within the axis, no sum of bytes can leave the range
/// of `i32`, and they add up to one, but for the rounding of each.
pub open spec fn tap_fits(t: Taps, ksize: int, in_size: int) -> bool {
    let n = t.weights@.len() as int;
    &&& 1 <= n <= ksize
    &&& t.xmin + n <= in_size
    &&& tap_magnitude(t.weights@, 0, n) <= MAX_TAP_SUM
    &&& ONE - (n + 1) <= tap_sum(t.weights@, 0, n) <= ONE + n + 1
}

/// Whether the weights of output `o` take the input `o` as it is.
pub open spec fn keeps_in_place(t: Taps, o: int) -> bool {
    &&& t.xmin <= o < t.xmin + t.weights@.len()
    &&& forall|i: int|
        0 <= i < t.weights@.len() ==> #[trigger] t.weights@[i] == if t.xmin + i == o {
            ONE
        } else {
            0
        }
}

/// Whether the sizes are in order: no axis is empty, a row of weights and all
/// of them can be counted, and there are weights for each output.
pub open spec fn sizes_fit(count: int, in_size: int, out_size: int, filter: Filter) -> bool {
    &&& in_size >= 1
    &&& out_size >= 1
    &&& 2 * support(filter, in_size, out_size) + 1 <= usize::MAX
    &&& count == out_size
    &&& out_size * kernel_size(filter, in_size, out_size) <= usize::MAX
}

/// Whether the weights can resample an axis from `in_size` to `out_size`
/// pixels with the given filter: the weights of each output fit, the windows
/// go along the axis, and an axis that keeps its size keeps its pixels.
pub open spec fn taps_fit(taps: Seq<Taps>, in_size: int, out_size: int, filter: Filter) -> bool {
    let ksize = kernel_size(filter, in_size, out_size);
    &&& sizes_fit(taps.len() as int, in_size, out_size, filter)
    &&& forall|o: int| 0 <= o < taps.len() ==> tap_fits(#[trigger] taps[o], ksize, in_size)
    &&& forall|o: int, p: int|
        0 <= o <= p < taps.len() ==> (#[trigger] taps[o]).xmin <= (#[trigger] taps[p]).xmin
    &&& in_size == out_size ==> forall|o: int|
        0 <= o < taps.len() ==> keeps_in_place(#[trigger] taps[o], o)
}

/// A weight of an output stands in its row.
pub(crate) proof fn lemma_row_weight(taps: Seq<Taps>, ksize: int, o: int, i: int)
    requires
        0 <= o < taps.len(),
        0 <= i < taps[o].weights@.len() <= ksize,
    ensures
        0 <= o * ksize + i < taps.len() * ksize,
        rows_of_weights(taps, ksize)[o * ksize + i] == taps[o].weights@[i],
{
    lemma_row(taps.len() as int, ksize, o);
    vstd::arithmetic::div_mod::lemma_fundamental_div_mod_converse(o * ksize + i, ksize, o, i);
}

/// The sums over the first `n` weights of an output are those over its row.
proof fn lemma_row_sums(taps: Seq<Taps>, ksize: int, o: int, n: int)
    requires
        0 <= o < taps.len(),
        0 <= n <= taps[o].weights@.len() <= ksize,
    ensures
        tap_magnitude(rows_of_weights(taps, ksize), o * ksize, n) == tap_magnitude(
            taps[o].weights@,
            0,
            n,
        ),
        tap_sum(rows_of_weights(taps, ksize), o * ksize, n) == tap_sum(taps[o].weights@, 0, n),
    decreases n,
{
    if n > 0 {
        lemma_row_sums(taps, ksize, o, n - 1);
        lemma_row_weight(taps, ksize, o, n - 1);
    }
}

/// Weights that fit an axis can resample it.
proof fn lemma_coeffs_fit(taps: Seq<Taps>, in_size: int, out_size: int, filter: Filter)
    requires
        taps_fit(taps, in_size, out_size, filter),
        forall|o: int| 0 <= o < taps.len() ==> (#[trigger] taps[o]).weights@.len() <= usize::MAX,
    ensures
        coeffs_fit(
            windows_of(taps),
            rows_of_weights(taps, kernel_size(filter, in_size, out_size)),
            kernel_size(filter, in_size, out_size),
            in_size,
        ),
{
    let ksize = kernel_size(filter, in_size, out_size);
    let bounds = windows_of(taps);
    let weights = rows_of_weights(taps, ksize);
    assert(taps.len() * ksize >= 0) by (nonlinear_arith)
        requires
            ksize >= 0,
    ;
    assert forall|o: int| 0 <= o < bounds.len() implies window_fits(
        #[trigger] bounds[o],
        weights,
        o,
        ksize,
        in_size,
    ) by {
        assert(tap_fits(taps[o], ksize, in_size));
        lemma_row_sums(taps, ksize, o, taps[o].weights@.len() as int);
    }
}

fn row_length(filter: Filter, in_size: usize, out_size: usize) -> (r: Option<usize>)
    requires
        in_size >= 1,
        out_size >= 1,
    ensures
        match r {
            Some(k) => k == kernel_size(filter, in_size as int, out_size as int) && 2 * support(
                filter,
                in_size as int,
                out_size as int,
            ) + 1 <= usize::MAX,
            None => 2 * support(filter, in_size as int, out_size as int) + 1 > usize::MAX,
        },
{
    let r: u128 = filter.radius() as u128;
    proof {
        assert(0 <= r * in_size <= 3 * in_size) by (nonlinear_arith)
            requires
                0 <= r <= 3,
                in_size >= 0,
        ;
    }
    let s: u128 = if in_size <= out_size {
        r
    } else {
        (r * in_size as u128 + out_size as u128 - 1) / out_size as u128
    };
    proof {
        assert(s <= 4 * in_size + 3) by (nonlinear_arith)
            requires
                s == r || s == (r * in_size + out_size - 1) / out_size as int,
                0 <= r <= 3,
                in_size >= 1,
                out_size >= 1,
        ;
    }
    let k: u128 = 2 * s + 1;
    if k > usize::MAX as u128 {
        return None;
    }
    if k < in_size as u128 {
        Some(k as usize)
    } else {
        Some(in_size)
    }
}

fn sum_near_one(weights: &Vec<i32>) -> (r: bool)
    requires
        tap_magnitude(weights@, 0, weights@.len() as int) <= MAX_TAP_SUM,
    ensures
        r == (ONE - (weights@.len() + 1) <= tap_sum(weights@, 0, weights@.len() as int) <= ONE
            + weights@.len() + 1),
{
    let n: usize = weights.len();
    let mut sum: i64 = 0;
    let mut i: usize = 0;
    while i < n
        invariant
            0 <= i <= n,
            n == weights@.len(),
            tap_magnitude(weights@, 0, n as int) <= MAX_TAP_SUM,
            sum == tap_sum(weights@, 0, i as int),
            -tap_magnitude(weights@, 0, i as int) <= sum <= tap_magnitude(weights@, 0, i as int),
        decreases n - i,
    {
        proof {
            lemma_tap_magnitude(weights@, 0, i as int, n as int);
        }
        sum = sum + weights[i] as i64;
        i = i + 1;
    }
    proof {
        lemma_tap_magnitude(weights@, 0, n as int, n as int);
    }
    let off: i64 = if sum < ONE as i64 {
        ONE as i64 - sum
    } else {
        sum - ONE as i64
    };
    off as u64 <= n as u64 || off as u64 - 1 == n as u64
}

fn fits_one(t: &Taps, ksize: usize, in_size: usize) -> (r: bool)
    ensures
        r == tap_fits(*t, ksize as int, in_size as int),
{
    let n: usize = t.weights.len();
    n >= 1 && n <= ksize && n <= in_size && t.xmin <= in_size - n && magnitude_within(
        &t.weights,
        0,
        n,
    ) && sum_near_one(&t.weights)
}

fn stays_in_place(t: &Taps, o: usize) -> (r: bool)
    requires
        t.xmin + t.weights@.len() <= usize::MAX,
    ensures
        r == keeps_in_place(*t, o as int),
{
    let n: usize = t.weights.len();
    if o < t.xmin || o - t.xmin >= n {
        return false;
    }
    let mut i: usize = 0;
    while i < n
        invariant
            0 <= i <= n,
            n == t.weights@.len(),
            t.xmin + n <= usize::MAX,
            forall|j: int|
                0 <= j < i ==> #[trigger] t.weights@[j] == if t.xmin + j == o {
                    ONE
                } else {
                    0
                },
        decreases n - i,
    {
        let expected: i32 = if t.xmin + i == o {
            ONE
        } else {
            0
        };
        if t.weights[i] != expected {
            assert(t.weights@[i as int] != expected);
            return false;
        }
        i = i + 1;
    }
    true
}

/// Checks the weights of an axis; gives the length of a row of them.
fn check_taps(in_size: usize, out_size: usize, filter: Filter, taps: &[Taps]) -> (r: Result<usize>)
    ensures
        match r {
            Ok(ksize) => taps_fit(taps@, in_size as int, out_size as int, filter) && ksize
                == kernel_size(filter, in_size as int, out_size as int) && out_size * ksize
                <= usize::MAX,
            Err(e) => e is ShapeMismatch && !taps_fit(
                taps@,
                in_size as int,
                out_size as int,
                filter,
            ),
        },
{
    if in_size == 0 || out_size == 0 {
        let text = with_two(
            "precompute_coeffs: in_size=",
            in_size,
            " out_size=",
            out_size,
            " must be non-zero",
        );
        return Err(shape_mismatch(text.as_str()));
    }
    let ksize: usize = match row_length(filter, in_size, out_size) {
        Some(k) => k,
        None => {
            return Err(shape_mismatch("precompute_coeffs: ksize overflows"));
        },
    };
    let count: usize = taps.len();
    if out_size.checked_mul(ksize).is_none() {
        let text = with_two(
            "precompute_coeffs: out_size*ksize overflows for ",
            out_size,
            "*",
            ksize,
            "",
        );
        return Err(shape_mismatch(text.as_str()));
    }
    if count != out_size {
        return Err(shape_mismatch("precompute_coeffs: one window is needed for each output"));
    }
    let mut o: usize = 0;
    while o < count
        invariant
            0 <= o <= count,
            count == taps@.len(),
            sizes_fit(taps@.len() as int, in_size as int, out_size as int, filter),
            ksize == kernel_size(filter, in_size as int, out_size as int),
            forall|i: int|
                0 <= i < o ==> tap_fits(#[trigger] taps@[i], ksize as int, in_size as int),
            forall|i: int, j: int|
                0 <= i <= j < o ==> (#[trigger] taps@[i]).xmin <= (#[trigger] taps@[j]).xmin,
            in_size == out_size ==> forall|i: int|
                0 <= i < o ==> keeps_in_place(#[trigger] taps@[i], i),
        decreases count - o,
    {
        if !fits_one(&taps[o], ksize, in_size) {
            assert(!tap_fits(taps@[o as int], ksize as int, in_size as int));
            return Err(shape_mismatch("precompute_coeffs: the weights of a window do not fit"));
        }
        if o > 0 && taps[o].xmin < taps[o - 1].xmin {
            assert(!(taps@[o - 1].xmin <= taps@[o as int].xmin));
            return Err(shape_mismatch("precompute_coeffs: the windows do not ascend"));
        }
        if in_size == out_size && !stays_in_place(&taps[o], o) {
            assert(!keeps_in_place(taps@[o as int], o as int));
            return Err(
                shape_mismatch("precompute_coeffs: an axis of the same size does not stay"),
            );
        }
        assert forall|i: int, j: int| 0 <= i <= j < o + 1 implies (#[trigger] taps@[i]).xmin <= (
        #[trigger] taps@[j]).xmin by {
            if j == o && i < o {
                assert(taps@[i].xmin <= taps@[o - 1].xmin);
            }
        }
        o = o + 1;
    }
    Ok(ksize)
}

/// Room for the windows and the weights of one axis.
#[derive(Debug)]
pub struct CoeffBuffers {
    pub bounds: Vec<(usize, usize)>,
    pub weights: Vec<i32>,
}

/// Reserves room for `outputs` windows and `weights` weights.
fn reserve_coeffs(outputs: usize, weights: usize) -> (r: Result<CoeffBuffers>)
    ensures
        r is Err ==> r->Err_0 is OutOfMemory,
{
    let mut b = CoeffBuffers { bounds: Vec::new(), weights: Vec::new() };
    if b.weights.try_reserve(weights).is_err() || b.bounds.try_reserve(outputs).is_err() {
        return Err(out_of_memory("precompute_coeffs: the weights could not be reserved"));
    }
    Ok(b)
}

/// Whether `c` has the given weights in rows of the filter's length.
pub open spec fn laid_out(
    c: &Coeffs,
    in_size: int,
    out_size: int,
    filter: Filter,
    taps: Seq<Taps>,
) -> bool {
    let ksize = kernel_size(filter, in_size, out_size);
    &&& c.bounds() == windows_of(taps)
    &&& c.weights() == rows_of_weights(taps, ksize)
    &&& c.ksize() == ksize
    &&& c.in_size() == in_size
}

/// Lays the weights of an axis out in rows, in the given room. Refused exactly
/// where they do not fit the axis.
pub fn lay_out(
    in_size: usize,
    out_size: usize,
    filter: Filter,
    taps: &[Taps],
    room: CoeffBuffers,
) -> (r: Result<Coeffs>)
    ensures
        match r {
            Ok(c) => taps_fit(taps@, in_size as int, out_size as int, filter) && laid_out(
                &c,
                in_size as int,
                out_size as int,
                filter,
                taps@,
            ),
            Err(e) => e is ShapeMismatch && !taps_fit(
                taps@,
                in_size as int,
                out_size as int,
                filter,
            ),
        },
{
    let ksize: usize = check_taps(in_size, out_size, filter, taps)?;
    let mut weights: Vec<i32> = room.weights;
    let mut bounds: Vec<(usize, usize)> = room.bounds;
    weights.clear();
    bounds.clear();
    let count: usize = taps.len();
    let ghost all = rows_of_weights(taps@, ksize as int);
    let mut o: usize = 0;
    while o < count
        invariant
            0 <= o <= count,
            count == taps@.len(),
            ksize >= 1,
            count * ksize <= usize::MAX,
            all == rows_of_weights(taps@, ksize as int),
            forall|i: int| 0 <= i < count ==> (#[trigger] taps@[i]).weights@.len() <= ksize,
            bounds@.len() == o,
            forall|i: int| 0 <= i < o ==> bounds@[i] == windows_of(taps@)[i],
            weights@.len() == o * ksize,
            forall|k: int| 0 <= k < weights@.len() ==> weights@[k] == all[k],
        decreases count - o,
    {
        let n: usize = taps[o].weights.len();
        let mut i: usize = 0;
        while i < ksize
            invariant
                0 <= o < count,
                0 <= i <= ksize,
                count == taps@.len(),
                n == taps@[o as int].weights@.len(),
                all == rows_of_weights(taps@, ksize as int),
                weights@.len() == o * ksize + i,
                forall|k: int| 0 <= k < weights@.len() ==> weights@[k] == all[k],
            decreases ksize - i,
        {
            proof {
                lemma_row(taps@.len() as int, ksize as int, o as int);
                vstd::arithmetic::div_mod::lemma_fundamental_div_mod_converse(
                    o * ksize + i,
                    ksize as int,
                    o as int,
                    i as int,
                );
            }
            let w: i32 = if i < n {
                taps[o].weights[i]
            } else {
                0
            };
            weights.push(w);
            i = i + 1;
        }
        proof {
            assert((o + 1) * ksize == o * ksize + ksize) by (nonlinear_arith);
        }
        bounds.push((taps[o].xmin, n));
        o = o + 1;
    }
    proof {
        assert(bounds@ =~= windows_of(taps@));
        assert(weights@ =~= all);
        lemma_coeffs_fit(taps@, in_size as int, out_size as int, filter);
    }
    Ok(Coeffs { bounds, weights, ksize, in_size })
}

/// Lays the weights of an axis out in rows. Refused where an axis is empty, a
/// size overflows, or the weights do not fit the axis; only for weights that
/// fit can the room for them be missing.
pub fn precompute_coeffs(in_size: usize, out_size: usize, filter: Filter, taps: &[Taps]) -> (r:
    Result<Coeffs>)
    ensures
        match r {
            Ok(c) => taps_fit(taps@, in_size as int, out_size as int, filter) && laid_out(
                &c,
                in_size as int,
                out_size as int,
                filter,
                taps@,
            ),
            Err(Error::ShapeMismatch { .. }) => !taps_fit(
                taps@,
                in_size as int,
                out_size as int,
                filter,
            ),
            Err(e) => e is OutOfMemory && taps_fit(
                taps@,
                in_size as int,
                out_size as int,
                filter,
            ),
        },
{
    let ksize: usize = check_taps(in_size, out_size, filter, taps)?;
    let room = reserve_coeffs(out_size, out_size * ksize)?;
    lay_out(in_size, out_size, filter, taps, room)
}

/// How long a buffer of `w` by `h` pixels is.
pub open spec fn buffer_len(w: int, h: int) -> int {
    w * h * CHANNELS
}

fn checked_buffer_len(w: usize, h: usize) -> (r: Option<usize>)
    ensures
        match r {
            Some(n) => n == buffer_len(w as int, h as int),
            None => buffer_len(w as int, h as int) > usize::MAX,
        },
{
    match w.checked_mul(h) {
        Some(n) => n.checked_mul(CHANNELS),
        None => None,
    }
}

/// Whether an image of `len` bytes can be resized: no side is empty, the
/// buffer is as long as its sides say, and no buffer on the way is too long to
/// address. `convolved` says whether the rows are resampled on their own.
pub open spec fn resizable(
    len: int,
    src_w: int,
    src_h: int,
    dst_w: int,
    dst_h: int,
    convolved: bool,
) -> bool {
    &&& src_w >= 1
    &&& src_h >= 1
    &&& dst_w >= 1
    &&& dst_h >= 1
    &&& len == buffer_len(src_w, src_h)
    &&& buffer_len(dst_w, dst_h) <= usize::MAX
    &&& convolved ==> buffer_len(src_h, dst_w) <= usize::MAX
}

/// Why an image of `len` bytes is not resized, where that lies in its sides or
/// in its buffer.
pub open spec fn resize_refusal(
    len: nat,
    src_w: nat,
    src_h: nat,
    dst_w: nat,
    dst_h: nat,
) -> Option<Seq<char>> {
    if src_w == 0 || src_h == 0 || dst_w == 0 || dst_h == 0 {
        Some(
            "resize_rgba8: dimensions must be non-zero, got src "@ + decimal(src_w) + "x"@
                + decimal(src_h) + " dst "@ + decimal(dst_w) + "x"@ + decimal(dst_h),
        )
    } else if buffer_len(src_w as int, src_h as int) > usize::MAX {
        Some(
            "resize_rgba8: src_w*src_h*4 overflows usize for "@ + decimal(src_w) + "x"@ + decimal(
                src_h,
            ),
        )
    } else if len != buffer_len(src_w as int, src_h as int) {
        Some(
            "resize_rgba8: src buffer is "@ + decimal(len)
                + " bytes, expected src_w*src_h*4="@ + decimal(
                buffer_len(src_w as int, src_h as int) as nat,
            ) + " for "@ + decimal(src_w) + "x"@ + decimal(src_h),
        )
    } else if buffer_len(dst_w as int, dst_h as int) > usize::MAX {
        Some(
            "resize_rgba8: dst_w*dst_h*4 overflows usize for "@ + decimal(dst_w) + "x"@ + decimal(
                dst_h,
            ),
        )
    } else {
        None
    }
}

/// `w` and `h` with a cross between them behind a text.
fn sides_text(start: &str, w: usize, h: usize) -> (r: String)
    ensures
        r@ == start@ + decimal(w as nat) + "x"@ + decimal(h as nat),
{
    let mut text = start.to_owned();
    text.append(decimal_text(w as u64).as_str());
    text.append("x");
    text.append(decimal_text(h as u64).as_str());
    text
}

/// Whether an image can be resized with the given weights.
pub open spec fn accepted(
    len: int,
    src_w: int,
    src_h: int,
    dst_w: int,
    dst_h: int,
    filter: Filter,
    horizontal: Seq<Taps>,
    vertical: Seq<Taps>,
) -> bool {
    let convolved = filter != Filter::Nearest;
    &&& resizable(len, src_w, src_h, dst_w, dst_h, convolved)
    &&& convolved ==> taps_fit(horizontal, src_w, dst_w, filter)
    &&& convolved ==> taps_fit(vertical, src_h, dst_h, filter)
}

/// The bytes of a resized image: the nearest pixels, or with any other filter
/// the rows and then the columns resampled.
pub open spec fn resized_bytes(
    src: Seq<u8>,
    src_w: int,
    src_h: int,
    dst_w: int,
    dst_h: int,
    filter: Filter,
    horizontal: Seq<Taps>,
    vertical: Seq<Taps>,
) -> Seq<u8> {
    if filter == Filter::Nearest {
        nearest_resampled(src, src_w, src_h, dst_w, dst_h)
    } else {
        twice_resampled(
            src,
            src_w,
            src_h,
            horizontal,
            kernel_size(filter, src_w, dst_w),
            vertical,
            kernel_size(filter, src_h, dst_h),
        )
    }
}

/// Checks whether an image can be resized; gives the lengths of the rows of
/// weights, none where there are none.
fn check_resize(
    len: usize,
    src_w: usize,
    src_h: usize,
    dst_w: usize,
    dst_h: usize,
    filter: Filter,
    horizontal: &[Taps],
    vertical: &[Taps],
) -> (r: Result<(usize, usize)>)
    ensures
        match r {
            Ok((hk, vk)) => {
                &&& accepted(
                    len as int,
                    src_w as int,
                    src_h as int,
                    dst_w as int,
                    dst_h as int,
                    filter,
                    horizontal@,
                    vertical@,
                )
                &&& dst_w * hk <= usize::MAX
                &&& dst_h * vk <= usize::MAX
            },
            Err(e) => e is ShapeMismatch && !accepted(
                len as int,
                src_w as int,
                src_h as int,
                dst_w as int,
                dst_h as int,
                filter,
                horizontal@,
                vertical@,
            ),
        },
        resize_refusal(
            len as nat,
            src_w as nat,
            src_h as nat,
            dst_w as nat,
            dst_h as nat,
        ) matches Some(text) ==> r is Err && r->Err_0.text() == text,
{
    if src_w == 0 || src_h == 0 || dst_w == 0 || dst_h == 0 {
        let mut text = sides_text(
            "resize_rgba8: dimensions must be non-zero, got src ",
            src_w,
            src_h,
        );
        text.append(" dst ");
        text.append(decimal_text(dst_w as u64).as_str());
        text.append("x");
        text.append(decimal_text(dst_h as u64).as_str());
        return Err(shape_mismatch(text.as_str()));
    }
    let src_len: usize = match checked_buffer_len(src_w, src_h) {
        Some(n) => n,
        None => {
            let text = sides_text(
                "resize_rgba8: src_w*src_h*4 overflows usize for ",
                src_w,
                src_h,
            );
            return Err(shape_mismatch(text.as_str()));
        },
    };
    if len != src_len {
        let mut text = with_three(
            "resize_rgba8: src buffer is ",
            len,
            " bytes, expected src_w*src_h*4=",
            src_len,
            " for ",
            src_w,
            "x",
        );
        text.append(decimal_text(src_h as u64).as_str());
        return Err(shape_mismatch(text.as_str()));
    }
    match checked_buffer_len(dst_w, dst_h) {
        Some(_) => {},
        None => {
            let text = sides_text(
                "resize_rgba8: dst_w*dst_h*4 overflows usize for ",
                dst_w,
                dst_h,
            );
            return Err(shape_mismatch(text.as_str()));
        },
    }
    if filter == Filter::Nearest {
        return Ok((0, 0));
    }
    let hk: usize = check_taps(src_w, dst_w, filter, horizontal)?;
    let vk: usize = check_taps(src_h, dst_h, filter, vertical)?;
    match checked_buffer_len(src_h, dst_w) {
        Some(_) => {},
        None => {
            let text = sides_text(
                "resize_rgba8: src_h*dst_w*4 overflows usize for ",
                src_h,
                dst_w,
            );
            return Err(shape_mismatch(text.as_str()));
        },
    }
    Ok((hk, vk))
}

/// Room for everything that resizing an image needs.
#[derive(Debug)]
pub struct ResizeBuffers {
    pub horizontal: CoeffBuffers,
    pub vertical: CoeffBuffers,
    /// The image between the rows and the columns.
    pub inter: Vec<u8>,
    pub out: Vec<u8>,
}

fn reserve_buffers(
    inter: usize,
    out: usize,
    horizontal: CoeffBuffers,
    vertical: CoeffBuffers,
) -> (r: Result<ResizeBuffers>)
    ensures
        r is Err ==> r->Err_0 is OutOfMemory,
{
    let mut b = ResizeBuffers { horizontal, vertical, inter: Vec::new(), out: Vec::new() };
    if b.inter.try_reserve(inter).is_err() || b.out.try_reserve(out).is_err() {
        return Err(out_of_memory("resize: a buffer could not be reserved"));
    }
    Ok(b)
}

/// Resizes an RGBA image in the given room. Refused exactly where a side is
/// empty, the buffer does not have its size, a size overflows, or the weights
/// do not fit.
pub fn resize_within(
    src: &[u8],
    src_w: usize,
    src_h: usize,
    dst_w: usize,
    dst_h: usize,
    filter: Filter,
    horizontal: &[Taps],
    vertical: &[Taps],
    room: ResizeBuffers,
) -> (r: Result<Vec<u8>>)
    ensures
        match r {
            Ok(out) => {
                &&& accepted(
                    src@.len() as int,
                    src_w as int,
                    src_h as int,
                    dst_w as int,
                    dst_h as int,
                    filter,
                    horizontal@,
                    vertical@,
                )
                &&& out@.len() == buffer_len(dst_w as int, dst_h as int)
                &&& out@ == resized_bytes(
                    src@,
                    src_w as int,
                    src_h as int,
                    dst_w as int,
                    dst_h as int,
                    filter,
                    horizontal@,
                    vertical@,
                )
            },
            Err(e) => e is ShapeMismatch && !accepted(
                src@.len() as int,
                src_w as int,
                src_h as int,
                dst_w as int,
                dst_h as int,
                filter,
                horizontal@,
                vertical@,
            ),
        },
        resize_refusal(
            src@.len(),
            src_w as nat,
            src_h as nat,
            dst_w as nat,
            dst_h as nat,
        ) matches Some(text) ==> r is Err && r->Err_0.text() == text,
{
    let size: usize = src.len();
    let _ = check_resize(size, src_w, src_h, dst_w, dst_h, filter, horizontal, vertical)?;
    proof {
        assert(dst_w * dst_h == dst_h * dst_w) by (nonlinear_arith);
        assert(dst_w * src_h == src_h * dst_w) by (nonlinear_arith);
        assert(dst_h * dst_w * 4 >= 0 && src_h * dst_w * 4 >= 0) by (nonlinear_arith)
            requires
                dst_h >= 0,
                dst_w >= 0,
                src_h >= 0,
        ;
    }
    let mut inter: Vec<u8> = room.inter;
    let mut out: Vec<u8> = room.out;
    inter.clear();
    out.clear();
    if filter == Filter::Nearest {
        return Ok(resize_nearest(src, src_w, src_h, dst_w, dst_h, out));
    }
    let h = lay_out(src_w, dst_w, filter, horizontal, room.horizontal)?;
    let v = lay_out(src_h, dst_h, filter, vertical, room.vertical)?;
    let inter = convolve_axis_scalar(src, src_w, src_h, &h, inter);
    let out = convolve_vertical_scalar(&inter, dst_w, src_h, &v, out);
    proof {
        let hk = kernel_size(filter, src_w as int, dst_w as int);
        let vk = kernel_size(filter, src_h as int, dst_h as int);
        assert forall|o: int| 0 <= o < horizontal@.len() implies (#[trigger] horizontal@[o]).weights@.len()
            <= usize::MAX by {
            assert(tap_fits(horizontal@[o], hk, src_w as int));
        }
        assert forall|o: int| 0 <= o < vertical@.len() implies (#[trigger] vertical@[o]).weights@.len()
            <= usize::MAX by {
            assert(tap_fits(vertical@[o], vk, src_h as int));
        }
        assert(inter@ =~= rows_with(src@, src_w as int, src_h as int, horizontal@, hk)) by {
            lemma_rows_with(src@, src_w as int, src_h as int, &h, horizontal@, hk);
        }
        assert(out@ =~= columns_with(inter@, dst_w as int, vertical@, vk)) by {
            lemma_columns_with(inter@, dst_w as int, &v, vertical@, vk);
        }
    }
    Ok(out)
}

/// Resizes an RGBA image. The nearest pixel is taken as it is; with any other
/// filter the rows are resampled with the weights `horizontal` and then the
/// columns with the weights `vertical`. Refused where a side is empty, the
/// buffer does not have its size, a size overflows, or the weights do not fit;
/// only for an image that can be resized can the room for it be missing.
pub fn resize_rgba8(
    src: &[u8],
    src_w: usize,
    src_h: usize,
    dst_w: usize,
    dst_h: usize,
    filter: Filter,
    horizontal: &[Taps],
    vertical: &[Taps],
) -> (r: Result<Vec<u8>>)
    ensures
        ({
            let ok = accepted(
                src@.len() as int,
                src_w as int,
                src_h as int,
                dst_w as int,
                dst_h as int,
                filter,
                horizontal@,
                vertical@,
            );
            match r {
                Ok(out) => {
                    &&& ok
                    &&& out@.len() == buffer_len(dst_w as int, dst_h as int)
                    &&& out@ == resized_bytes(
                        src@,
                        src_w as int,
                        src_h as int,
                        dst_w as int,
                        dst_h as int,
                        filter,
                        horizontal@,
                        vertical@,
                    )
                },
                Err(Error::ShapeMismatch { .. }) => !ok,
                Err(e) => e is OutOfMemory && ok,
            }
        }),
        resize_refusal(
            src@.len(),
            src_w as nat,
            src_h as nat,
            dst_w as nat,
            dst_h as nat,
        ) matches Some(text) ==> r is Err && r->Err_0.text() == text,
{
    let size: usize = src.len();
    let (hk, vk) = check_resize(
        size,
        src_w,
        src_h,
        dst_w,
        dst_h,
        filter,
        horizontal,
        vertical,
    )?;
    proof {
        assert(dst_w * dst_h >= 0 && src_h * dst_w >= 0) by (nonlinear_arith)
            requires
                dst_h >= 0,
                dst_w >= 0,
                src_h >= 0,
        ;
    }
    let room = if filter == Filter::Nearest {
        let (h, v) = (reserve_coeffs(0, 0)?, reserve_coeffs(0, 0)?);
        reserve_buffers(0, dst_w * dst_h * CHANNELS, h, v)?
    } else {
        let h = reserve_coeffs(dst_w, dst_w * hk)?;
        let v = reserve_coeffs(dst_h, dst_h * vk)?;
        reserve_buffers(src_h * dst_w * CHANNELS, dst_w * dst_h * CHANNELS, h, v)?
    };
    resize_within(src, src_w, src_h, dst_w, dst_h, filter, horizontal, vertical, room)
}

/// One byte of an image with its rows resampled.
pub open spec fn row_byte_with(
    src: Seq<u8>,
    src_w: int,
    taps: Seq<Taps>,
    ksize: int,
    y: int,
    x: int,
    ch: int,
) -> u8 {
    resampled(
        src,
        (y * src_w + taps[x].xmin) * CHANNELS + ch,
        CHANNELS as int,
        rows_of_weights(taps, ksize),
        x * ksize,
        taps[x].weights@.len() as int,
    )
}

/// One byte of an image with its columns resampled.
pub open spec fn column_byte_with(
    src: Seq<u8>,
    w: int,
    taps: Seq<Taps>,
    ksize: int,
    y: int,
    x: int,
    ch: int,
) -> u8 {
    resampled(
        src,
        (taps[y].xmin * w + x) * CHANNELS + ch,
        w * CHANNELS,
        rows_of_weights(taps, ksize),
        y * ksize,
        taps[y].weights@.len() as int,
    )
}

/// An image of `rows` rows with the rows resampled.
pub open spec fn rows_with(
    src: Seq<u8>,
    src_w: int,
    rows: int,
    taps: Seq<Taps>,
    ksize: int,
) -> Seq<u8> {
    raster(
        rows,
        taps.len() as int,
        CHANNELS as int,
        |y: int, x: int, ch: int| row_byte_with(src, src_w, taps, ksize, y, x, ch),
    )
}

/// An image of `w` columns with the columns resampled.
pub open spec fn columns_with(src: Seq<u8>, w: int, taps: Seq<Taps>, ksize: int) -> Seq<u8> {
    raster(
        taps.len() as int,
        w,
        CHANNELS as int,
        |y: int, x: int, ch: int| column_byte_with(src, w, taps, ksize, y, x, ch),
    )
}

/// An image with the rows and then the columns resampled.
pub open spec fn twice_resampled(
    src: Seq<u8>,
    src_w: int,
    src_h: int,
    horizontal: Seq<Taps>,
    hk: int,
    vertical: Seq<Taps>,
    vk: int,
) -> Seq<u8> {
    columns_with(
        rows_with(src, src_w, src_h, horizontal, hk),
        horizontal.len() as int,
        vertical,
        vk,
    )
}

proof fn lemma_split(k: int, h: int, w: int)
    requires
        0 <= k < h * w * 4,
        w >= 0,
        h >= 0,
    ensures
        0 <= k / 4 / w < h,
        0 <= k / 4 % w < w,
        0 <= k % 4 < 4,
{
    let p = k / 4;
    assert(w > 0) by (nonlinear_arith)
        requires
            h * w * 4 > 0,
            w >= 0,
            h >= 0,
    ;
    assert(0 <= p < h * w);
    assert(0 <= p / w < h) by (nonlinear_arith)
        requires
            0 <= p < h * w,
            w > 0,
    ;
}

proof fn lemma_rows_with(
    src: Seq<u8>,
    src_w: int,
    rows: int,
    c: &Coeffs,
    taps: Seq<Taps>,
    ksize: int,
)
    requires
        rows >= 0,
        c.bounds() == windows_of(taps),
        c.weights() == rows_of_weights(taps, ksize),
        c.ksize() == ksize,
        forall|o: int| 0 <= o < taps.len() ==> (#[trigger] taps[o]).weights@.len() <= usize::MAX,
    ensures
        rows_resampled(src, src_w, rows, c) == rows_with(src, src_w, rows, taps, ksize),
{
    let a = rows_resampled(src, src_w, rows, c);
    let b = rows_with(src, src_w, rows, taps, ksize);
    assert forall|k: int| 0 <= k < a.len() implies a[k] == b[k] by {
        lemma_split(k, rows, taps.len() as int);
        let x = k / 4 % (taps.len() as int);
        assert(taps[x].weights@.len() <= usize::MAX);
    }
    assert(a =~= b);
}

proof fn lemma_columns_with(src: Seq<u8>, w: int, c: &Coeffs, taps: Seq<Taps>, ksize: int)
    requires
        w >= 0,
        c.bounds() == windows_of(taps),
        c.weights() == rows_of_weights(taps, ksize),
        c.ksize() == ksize,
        forall|o: int| 0 <= o < taps.len() ==> (#[trigger] taps[o]).weights@.len() <= usize::MAX,
    ensures
        columns_resampled(src, w, c) == columns_with(src, w, taps, ksize),
{
    let a = columns_resampled(src, w, c);
    let b = columns_with(src, w, taps, ksize);
    assert forall|k: int| 0 <= k < a.len() implies a[k] == b[k] by {
        lemma_split(k, taps.len() as int, w);
        let y = k / 4 / w;
        assert(taps[y].weights@.len() <= usize::MAX);
    }
    assert(a =~= b);
}

/// How far the weights of one output may add up beside one for a flat image to
/// keep its bytes.
pub const FLAT_TOLERANCE: i32 = 8224;

/// Whether the weights of every output add up to one, as far as it matters.
pub open spec fn sums_to_one(taps: Seq<Taps>, ksize: int) -> bool {
    forall|o: int|
        0 <= o < taps.len() ==> ONE - FLAT_TOLERANCE <= tap_sum(
            rows_of_weights(taps, ksize),
            o * ksize,
            (#[trigger] taps[o]).weights@.len() as int,
        ) <= ONE + FLAT_TOLERANCE
}

/// Whether every pixel of an image is `color`.
pub open spec fn is_flat(image: Seq<u8>, color: Seq<u8>) -> bool {
    forall|k: int| 0 <= k < image.len() ==> #[trigger] image[k] == color[k % 4]
}

proof fn lemma_flat_weighted(
    data: Seq<u8>,
    v: u8,
    start: int,
    stride: int,
    weights: Seq<i32>,
    base: int,
    n: int,
)
    requires
        n >= 0,
        forall|i: int| 0 <= i < n ==> data[#[trigger] (start + i * stride)] == v,
    ensures
        weighted(data, start, stride, weights, base, n) == v * tap_sum(weights, base, n),
    decreases n,
{
    if n > 0 {
        lemma_flat_weighted(data, v, start, stride, weights, base, n - 1);
        assert(data[start + (n - 1) * stride] == v);
        let s = tap_sum(weights, base, n - 1);
        let w = weights[base + n - 1] as int;
        let b = v as int;
        assert(b * s + b * w == b * (s + w)) by (nonlinear_arith);
    } else {
        let b = v as int;
        assert(b * 0 == 0) by (nonlinear_arith);
    }
}

proof fn lemma_flat_clipped(v: u8, sum: int)
    requires
        ONE - FLAT_TOLERANCE <= sum <= ONE + FLAT_TOLERANCE,
    ensures
        clipped(ROUND_BIAS + v * sum) == v,
{
    let b = v as int;
    let d = sum - ONE;
    assert(b * sum == b * 0x40_0000 + b * d) by (nonlinear_arith)
        requires
            sum == 0x40_0000 + d,
    ;
    assert(-2097120 <= b * d <= 2097120) by (nonlinear_arith)
        requires
            0 <= b <= 255,
            -8224 <= d <= 8224,
    ;
}

proof fn lemma_flat_rows(
    src: Seq<u8>,
    color: Seq<u8>,
    src_w: int,
    rows: int,
    taps: Seq<Taps>,
    ksize: int,
)
    requires
        src.len() == buffer_len(src_w, rows),
        src_w >= 1,
        rows >= 0,
        is_flat(src, color),
        sums_to_one(taps, ksize),
        forall|o: int|
            0 <= o < taps.len() ==> (#[trigger] taps[o]).xmin + taps[o].weights@.len() <= src_w,
    ensures
        is_flat(rows_with(src, src_w, rows, taps, ksize), color),
{
    let out = rows_with(src, src_w, rows, taps, ksize);
    assert forall|k: int| 0 <= k < out.len() implies #[trigger] out[k] == color[k % 4] by {
        let w = taps.len() as int;
        lemma_split(k, rows, w);
        let y = k / 4 / w;
        let x = k / 4 % w;
        let ch = k % 4;
        let n = taps[x].weights@.len() as int;
        let start = (y * src_w + taps[x].xmin) * 4 + ch;
        let weights = rows_of_weights(taps, ksize);
        assert(src_w * rows == rows * src_w) by (nonlinear_arith);
        assert forall|i: int| 0 <= i < n implies src[#[trigger] (start + i * 4)] == color[ch] by {
            lemma_row_window(rows, y, src_w, taps[x].xmin as int, i + 1, ch);
            assert((start + i * 4) % 4 == ch);
        }
        lemma_flat_weighted(src, color[ch], start, 4, weights, x * ksize, n);
        lemma_flat_clipped(color[ch], tap_sum(weights, x * ksize, n));
    }
}

proof fn lemma_flat_columns(
    src: Seq<u8>,
    color: Seq<u8>,
    w: int,
    h: int,
    taps: Seq<Taps>,
    ksize: int,
)
    requires
        src.len() == buffer_len(w, h),
        w >= 0,
        is_flat(src, color),
        sums_to_one(taps, ksize),
        forall|o: int|
            0 <= o < taps.len() ==> (#[trigger] taps[o]).xmin + taps[o].weights@.len() <= h,
    ensures
        is_flat(columns_with(src, w, taps, ksize), color),
{
    let out = columns_with(src, w, taps, ksize);
    assert forall|k: int| 0 <= k < out.len() implies #[trigger] out[k] == color[k % 4] by {
        lemma_split(k, taps.len() as int, w);
        let y = k / 4 / w;
        let x = k / 4 % w;
        let ch = k % 4;
        let n = taps[y].weights@.len() as int;
        let start = (taps[y].xmin * w + x) * 4 + ch;
        let weights = rows_of_weights(taps, ksize);
        assert forall|i: int| 0 <= i < n implies src[#[trigger] (start + i * (w * 4))]
            == color[ch] by {
            lemma_column_window(h, w, x, taps[y].xmin as int, i + 1, ch);
            assert(i * (w * 4) == 4 * (i * w)) by (nonlinear_arith);
            assert((start + 4 * (i * w)) % 4 == ch);
        }
        lemma_flat_weighted(src, color[ch], start, w * 4, weights, y * ksize, n);
        lemma_flat_clipped(color[ch], tap_sum(weights, y * ksize, n));
    }
}

/// Whether the windows of an axis are so narrow that their weights add up to
/// one, as far as it matters: no window has more than 8223 pixels. Those of the
/// nearest pixel have one.
pub open spec fn narrow(filter: Filter, in_size: int, out_size: int) -> bool {
    filter == Filter::Nearest || kernel_size(filter, in_size, out_size) < FLAT_TOLERANCE
}

/// Weights that fit an axis of narrow windows add up to one, as far as it
/// matters.
proof fn lemma_sums_to_one(taps: Seq<Taps>, in_size: int, out_size: int, filter: Filter)
    requires
        taps_fit(taps, in_size, out_size, filter),
        filter != Filter::Nearest,
        narrow(filter, in_size, out_size),
    ensures
        sums_to_one(taps, kernel_size(filter, in_size, out_size)),
        forall|o: int|
            0 <= o < taps.len() ==> (#[trigger] taps[o]).xmin + taps[o].weights@.len() <= in_size,
{
    let ksize = kernel_size(filter, in_size, out_size);
    assert forall|o: int| 0 <= o < taps.len() implies ONE - FLAT_TOLERANCE <= tap_sum(
        rows_of_weights(taps, ksize),
        o * ksize,
        (#[trigger] taps[o]).weights@.len() as int,
    ) <= ONE + FLAT_TOLERANCE by {
        assert(tap_fits(taps[o], ksize, in_size));
        lemma_row_sums(taps, ksize, o, taps[o].weights@.len() as int);
    }
    assert forall|o: int| 0 <= o < taps.len() implies (#[trigger] taps[o]).xmin
        + taps[o].weights@.len() <= in_size by {
        assert(tap_fits(taps[o], ksize, in_size));
    }
}

/// An image of one color keeps it at every size and with every filter, as long
/// as no pixel of the result is made of more than 8223 pixels of a row or a
/// column. The weights of so many may be off by so much in all that a byte
/// changes.
pub proof fn flat_image_is_preserved(
    src: Seq<u8>,
    color: Seq<u8>,
    src_w: int,
    src_h: int,
    dst_w: int,
    dst_h: int,
    filter: Filter,
    horizontal: Seq<Taps>,
    vertical: Seq<Taps>,
)
    requires
        accepted(src.len() as int, src_w, src_h, dst_w, dst_h, filter, horizontal, vertical),
        narrow(filter, src_w, dst_w),
        narrow(filter, src_h, dst_h),
        is_flat(src, color),
    ensures
        is_flat(
            resized_bytes(src, src_w, src_h, dst_w, dst_h, filter, horizontal, vertical),
            color,
        ),
{
    if filter == Filter::Nearest {
        nearest_preserves(src, color, src_w, src_h, dst_w, dst_h);
    } else {
        let hk = kernel_size(filter, src_w, dst_w);
        let vk = kernel_size(filter, src_h, dst_h);
        lemma_sums_to_one(horizontal, src_w, dst_w, filter);
        lemma_sums_to_one(vertical, src_h, dst_h, filter);
        let inter = rows_with(src, src_w, src_h, horizontal, hk);
        lemma_flat_rows(src, color, src_w, src_h, horizontal, hk);
        assert(inter.len() == buffer_len(dst_w, src_h)) by {
            assert(src_h * dst_w == dst_w * src_h) by (nonlinear_arith);
            assert(src_h * dst_w * 4 >= 0) by (nonlinear_arith)
                requires
                    src_h >= 0,
                    dst_w >= 0,
            ;
        }
        lemma_flat_columns(inter, color, dst_w, src_h, vertical, vk);
    }
}

proof fn lemma_in_place(
    data: Seq<u8>,
    start: int,
    stride: int,
    weights: Seq<i32>,
    base: int,
    n: int,
    p: int,
)
    requires
        0 <= n,
        0 <= p,
        forall|i: int|
            0 <= i < n ==> weights[#[trigger] (base + i)] == if i == p {
                ONE
            } else {
                0
            },
    ensures
        weighted(data, start, stride, weights, base, n) == if p < n {
            data[start + p * stride] * ONE
        } else {
            0
        },
    decreases n,
{
    if n > 0 {
        lemma_in_place(data, start, stride, weights, base, n - 1, p);
        let d = data[start + (n - 1) * stride] as int;
        let w = weights[base + (n - 1)] as int;
        if n - 1 != p {
            assert(d * w == 0) by (nonlinear_arith)
                requires
                    w == 0,
            ;
        }
    }
}

/// A byte that is resampled in place is the byte itself.
proof fn lemma_resampled_in_place(
    data: Seq<u8>,
    start: int,
    stride: int,
    taps: Seq<Taps>,
    ksize: int,
    o: int,
)
    requires
        0 <= o < taps.len(),
        keeps_in_place(taps[o], o),
        taps[o].weights@.len() <= ksize,
    ensures
        resampled(
            data,
            start,
            stride,
            rows_of_weights(taps, ksize),
            o * ksize,
            taps[o].weights@.len() as int,
        ) == data[start + (o - taps[o].xmin) * stride],
{
    let n = taps[o].weights@.len() as int;
    let weights = rows_of_weights(taps, ksize);
    let p = o - taps[o].xmin;
    assert forall|i: int| 0 <= i < n implies weights[#[trigger] (o * ksize + i)] == if i == p {
        ONE
    } else {
        0
    } by {
        lemma_row_weight(taps, ksize, o, i);
    }
    lemma_in_place(data, start, stride, weights, o * ksize, n, p);
    lemma_flat_clipped(data[start + p * stride], ONE as int);
}

/// An image resized to its own size stays as it is, byte for byte, with every
/// filter.
pub proof fn same_size_is_kept(
    src: Seq<u8>,
    w: int,
    h: int,
    filter: Filter,
    horizontal: Seq<Taps>,
    vertical: Seq<Taps>,
)
    requires
        accepted(src.len() as int, w, h, w, h, filter, horizontal, vertical),
    ensures
        resized_bytes(src, w, h, w, h, filter, horizontal, vertical) == src,
{
    if filter == Filter::Nearest {
        nearest_preserves(src, Seq::empty(), w, h, w, h);
    } else {
        let hk = kernel_size(filter, w, w);
        let vk = kernel_size(filter, h, h);
        let rows = rows_with(src, w, h, horizontal, hk);
        assert(w * h == h * w) by (nonlinear_arith);
        assert(h * w * 4 >= 0) by (nonlinear_arith)
            requires
                h >= 0,
                w >= 0,
        ;
        assert forall|k: int| 0 <= k < rows.len() implies rows[k] == src[k] by {
            lemma_split(k, h, w);
            let (y, x, ch) = (k / 4 / w, k / 4 % w, k % 4);
            assert(tap_fits(horizontal[x], hk, w));
            assert(keeps_in_place(horizontal[x], x));
            lemma_resampled_in_place(
                src,
                (y * w + horizontal[x].xmin) * 4 + ch,
                4,
                horizontal,
                hk,
                x,
            );
            vstd::arithmetic::div_mod::lemma_fundamental_div_mod(k / 4, w);
            assert(y * w == w * y) by (nonlinear_arith);
        }
        assert(rows =~= src);
        let out = columns_with(src, w, vertical, vk);
        assert forall|k: int| 0 <= k < out.len() implies out[k] == src[k] by {
            lemma_split(k, h, w);
            let (y, x, ch) = (k / 4 / w, k / 4 % w, k % 4);
            assert(tap_fits(vertical[y], vk, h));
            assert(keeps_in_place(vertical[y], y));
            let m = vertical[y].xmin as int;
            lemma_resampled_in_place(src, (m * w + x) * 4 + ch, w * 4, vertical, vk, y);
            vstd::arithmetic::div_mod::lemma_fundamental_div_mod(k / 4, w);
            assert((y - m) * (w * 4) == 4 * (y * w) - 4 * (m * w)) by (nonlinear_arith);
            assert(y * w == w * y) by (nonlinear_arith);
        }
        assert(out =~= src);
    }
}

/// An image of one color keeps it when the nearest pixels are taken, and an
/// image resized to its own size stays as it is.
pub proof fn nearest_preserves(
    src: Seq<u8>,
    color: Seq<u8>,
    src_w: int,
    src_h: int,
    dst_w: int,
    dst_h: int,
)
    requires
        resizable(src.len() as int, src_w, src_h, dst_w, dst_h, false),
    ensures
        is_flat(src, color) ==> is_flat(
            nearest_resampled(src, src_w, src_h, dst_w, dst_h),
            color,
        ),
        src_w == dst_w && src_h == dst_h ==> nearest_resampled(src, src_w, src_h, dst_w, dst_h)
            == src,
{
    let out = nearest_resampled(src, src_w, src_h, dst_w, dst_h);
    assert(src_w * src_h == src_h * src_w) by (nonlinear_arith);
    assert(dst_h * dst_w * 4 >= 0) by (nonlinear_arith)
        requires
            dst_h >= 0,
            dst_w >= 0,
    ;
    assert forall|k: int| 0 <= k < out.len() implies (is_flat(src, color) ==> #[trigger] out[k]
        == color[k % 4]) && (src_w == dst_w && src_h == dst_h ==> out[k] == src[k]) by {
        lemma_split(k, dst_h, dst_w);
        let y = k / 4 / dst_w;
        let x = k / 4 % dst_w;
        let ch = k % 4;
        nearest_index_in_range(y, src_h, dst_h);
        nearest_index_in_range(x, src_w, dst_w);
        let sy = nearest_index(y, src_h, dst_h);
        let sx = nearest_index(x, src_w, dst_w);
        lemma_raster_place(src_h, src_w, 4, sy, sx, ch);
        assert(((sy * src_w + sx) * 4 + ch) % 4 == ch);
        if src_w == dst_w && src_h == dst_h {
            nearest_index_identity(y, src_h);
            nearest_index_identity(x, src_w);
            vstd::arithmetic::div_mod::lemma_fundamental_div_mod(k / 4, dst_w);
            assert(y * dst_w == dst_w * y) by (nonlinear_arith);
        }
    }
    if src_w == dst_w && src_h == dst_h {
        assert(out =~= src);
    }
}

} // verus!
