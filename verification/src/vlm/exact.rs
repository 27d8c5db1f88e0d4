//! What prepared images hold, in exact arithmetic.
use vstd::prelude::*;

use crate::array::{scalar, Tensor};
use crate::dtype::Dtype;
use crate::exact::{
    im, lemma_elementwise, lemma_given, lemma_passed_on, lemma_real, lemma_rearranged,
    lemma_scalar, lemma_small_number, lemma_source_same, lemma_source_vector, number, place,
    place_is_read_back, re, unpermuted, Meaning,
};
use crate::ops::arithmetic::{difference, product, quotient};
use crate::ops::shape::{is_position, reshaped};
use crate::ops::unary::converted;
use crate::scalar::F32;
use crate::shape::{broadcast, broadcast_scalar, elements, fits};
use crate::vlm::image::{
    normalizable, normalized, patchable, patched, per_colour, pixel_array, prepared, rescaled,
    ColorOrder, ImageProcessorConfig,
};

verus! {

/// Rescaling multiplies every element by the factor.
pub proof fn rescaling_multiplies(x: Tensor, factor: F32, m: Meaning, k: int)
    requires
        fits(x.shape),
        0 <= k < elements(x.shape),
    ensures
        rescaled(x, factor) is Some,
        rescaled(x, factor)->0.shape == x.shape,
        re(rescaled(x, factor)->0, m, k) == number(factor) * re(x, m, k),
{
    let s = scalar(factor);
    assert(s.shape =~= Seq::<usize>::empty());
    let f = converted(s, x.dtype)->0;
    broadcast_scalar(x.shape);
    lemma_source_same(x.shape, k);
    lemma_scalar(factor, m, 0);
    lemma_passed_on(f, m, 0);
    if x.dtype != Dtype::Complex64 {
        lemma_real(f, m, 0);
    }
    let t = product(x, f)->0;
    lemma_elementwise(t, m, k);
    let (p, q) = (re(x, m, k), number(factor));
    assert(p * q == q * p) by (nonlinear_arith);
    assert(im(x, m, k) * 0real == 0real) by (nonlinear_arith);
}

proof fn lemma_per_colour(v: Seq<F32>, dtype: Dtype, m: Meaning, c: int)
    requires
        v.len() == 3,
        0 <= c < 3,
    ensures
        per_colour(v) is Some,
        converted(per_colour(v)->0, dtype) is Some,
        converted(per_colour(v)->0, dtype)->0.shape == seq![3usize],
        re(converted(per_colour(v)->0, dtype)->0, m, c) == number(v[c]),
{
    crate::shape::lemma_elements_one(3);
    assert(seq![3usize][0] == 3);
    let p = per_colour(v)->0;
    lemma_given(p, m, c);
    lemma_passed_on(converted(p, dtype)->0, m, c);
    assert(F32 { bits: v[c].bits as u64 as u32 } == v[c]);
}

/// Normalizing takes the mean of its colour from every element and divides it
/// by the spread of its colour.
pub proof fn normalizing_centres_and_divides(
    x: Tensor,
    mean: Seq<F32>,
    std: Seq<F32>,
    m: Meaning,
    k: int,
)
    requires
        fits(x.shape),
        normalizable(x),
        mean.len() == 3,
        std.len() == 3,
        0 <= k < elements(x.shape),
    ensures
        normalized(x, mean, std) is Some,
        normalized(x, mean, std)->0.shape == x.shape,
        re(normalized(x, mean, std)->0, m, k) == (re(x, m, k) - number(mean[k % 3])) / number(
            std[k % 3],
        ),
{
    let c = k % 3;
    lemma_per_colour(mean, x.dtype, m, c);
    lemma_per_colour(std, x.dtype, m, c);
    let a = converted(per_colour(mean)->0, x.dtype)->0;
    let b = converted(per_colour(std)->0, x.dtype)->0;
    assert(broadcast(x.shape, seq![3usize]) =~= x.shape);
    assert(crate::shape::broadcastable(x.shape, seq![3usize]));
    lemma_source_same(x.shape, k);
    lemma_source_vector(3, x.shape, k);
    let centred = difference(x, a)->0;
    lemma_elementwise(centred, m, k);
    let y = quotient(centred, b)->0;
    lemma_elementwise(y, m, k);
}

proof fn lemma_pixel_place(h: int, w: int, y: int, x: int, c: int)
    requires
        0 <= y < h,
        0 <= x < w,
        0 <= c < 3,
    ensures
        ({
            let k = (y * w + x) * 3 + c;
            &&& 0 <= k < h * w * 3
            &&& k % 3 == c
            &&& k / 3 / w == y
            &&& k / 3 % w == x
        }),
{
    let p = y * w + x;
    assert(p / w == y && p % w == x && 0 <= p < h * w) by (nonlinear_arith)
        requires
            p == y * w + x,
            0 <= x < w,
            0 <= y < h,
    ;
    assert((p * 3 + c) / 3 == p && (p * 3 + c) % 3 == c);
}

/// The number at a colour of a pixel of the array of an image is the byte of
/// that colour.
pub proof fn array_holds_the_bytes(
    h: usize,
    w: usize,
    depth: int,
    data: Seq<u8>,
    order: ColorOrder,
    m: Meaning,
    y: int,
    x: int,
    c: int,
)
    requires
        pixel_array(h as int, w as int, depth, data, order) is Some,
        0 <= y < h,
        0 <= x < w,
        0 <= c < 3,
    ensures
        re(pixel_array(h as int, w as int, depth, data, order)->0, m, (y * w + x) * 3 + c)
            == data[(y * w + x) * depth + if order == ColorOrder::Bgr {
            2 - c
        } else {
            c
        }] as real,
{
    lemma_pixel_place(h as int, w as int, y, x, c);
    let t = pixel_array(h as int, w as int, depth, data, order)->0;
    let k = (y * w + x) * 3 + c;
    lemma_given(t, m, k);
    let b = data[(y * w + x) * depth + if order == ColorOrder::Bgr {
        2 - c
    } else {
        c
    }];
    lemma_small_number(b as nat);
}

/// A prepared image holds, for each colour of each pixel, its byte; times the
/// factor where rescaling is asked for, and from that the mean of the colour
/// taken and the rest divided by the spread of the colour where normalizing is
/// asked for, each whatever is asked for beside it.
pub proof fn prepared_image_holds_its_colours(
    h: usize,
    w: usize,
    depth: int,
    data: Seq<u8>,
    cfg: ImageProcessorConfig,
    m: Meaning,
    y: int,
    x: int,
    c: int,
)
    requires
        h * w * 3 <= usize::MAX,
        prepared(h as int, w as int, depth, data, cfg) is Some,
        0 <= y < h,
        0 <= x < w,
        0 <= c < 3,
    ensures
        ({
            let byte = data[(y * w + x) * depth + if cfg.color_order == ColorOrder::Bgr {
                2 - c
            } else {
                c
            }] as real;
            let scaled = if cfg.do_rescale {
                number(cfg.rescale_factor) * byte
            } else {
                byte
            };
            re(prepared(h as int, w as int, depth, data, cfg)->0, m, (y * w + x) * 3 + c)
                == if cfg.do_normalize {
                (scaled - number(cfg.mean@[c])) / number(cfg.std@[c])
            } else {
                scaled
            }
        }),
{
    crate::vlm::image::prepared_shape(h, w, depth, data, cfg);
    lemma_pixel_place(h as int, w as int, y, x, c);
    array_holds_the_bytes(h, w, depth, data, cfg.color_order, m, y, x, c);
    let k = (y * w + x) * 3 + c;
    let a = pixel_array(h as int, w as int, depth, data, cfg.color_order)->0;
    crate::vlm::image::lemma_elements_three(h, w, 3);
    let b = if cfg.do_rescale {
        rescaling_multiplies(a, cfg.rescale_factor, m, k);
        rescaled(a, cfg.rescale_factor)->0
    } else {
        a
    };
    assert(b.shape == a.shape && b.dtype == Dtype::F32);
    if cfg.do_normalize {
        normalizing_centres_and_divides(b, cfg.mean@, cfg.std@, m, k);
    }
}

proof fn lemma_place_of_five(a: usize, b: usize, c: usize, d: usize, e: usize, idx: Seq<int>)
    requires
        idx.len() == 5,
    ensures
        place(seq![a, b, c, d, e], idx) == (((idx[0] * b + idx[1]) * c + idx[2]) * d + idx[3]) * e
            + idx[4],
{
    let s = seq![a, b, c, d, e];
    reveal_with_fuel(place, 6);
    let (s4, i4) = (s.drop_last(), idx.drop_last());
    let (s3, i3) = (s4.drop_last(), i4.drop_last());
    let (s2, i2) = (s3.drop_last(), i3.drop_last());
    let (s1, i1) = (s2.drop_last(), i2.drop_last());
    assert(s1.drop_last() =~= Seq::<usize>::empty());
    assert(place(s1.drop_last(), i1.drop_last()) == 0);
    assert(s1.last() == a && i1.last() == idx[0]);
    assert(0 * a == 0) by (nonlinear_arith);
    assert(place(s1, i1) == idx[0]);
    assert(place(s2, i2) == idx[0] * b + idx[1]);
    assert(place(s3, i3) == (idx[0] * b + idx[1]) * c + idx[2]);
    assert(place(s4, i4) == ((idx[0] * b + idx[1]) * c + idx[2]) * d + idx[3]);
}

/// The element of the channel `c` in row `i` and column `j` of the patch that
/// is the one in column `q` of the row `r` of patches is the element of that
/// channel in row `r * p + i` and column `q * p + j` of the image, where `p` is
/// the side of a patch.
pub proof fn patches_hold_their_part_of_the_image(
    x: Tensor,
    p: usize,
    m: Meaning,
    r: int,
    q: int,
    i: int,
    j: int,
    c: int,
)
    requires
        patchable(x, p),
        patched(x, p) is Some,
        0 <= r < x.shape[0] as int / p as int,
        0 <= q < x.shape[1] as int / p as int,
        0 <= i < p,
        0 <= j < p,
        0 <= c < x.shape[2],
    ensures
        ({
            let (w, ch) = (x.shape[1] as int, x.shape[2] as int);
            re(patched(x, p)->0, m, (((r * (w / p as int) + q) * p + i) * p + j) * ch + c) == re(
                x,
                m,
                ((r * p + i) * w + (q * p + j)) * ch + c,
            )
        }),
{
    let (rows, cols, ch) = ((x.shape[0] / p) as usize, (x.shape[1] / p) as usize, x.shape[2]);
    let split = reshaped(x, seq![rows, p, cols, p, ch])->0;
    let y = patched(x, p)->0;
    let t = y.args[0];
    let idx = seq![r, q, i, j, c];
    lemma_place_of_five(rows, cols, p, p, ch, idx);
    assert(is_position(idx, t.shape));
    place_is_read_back(t.shape, idx);
    let k = place(t.shape, idx);
    lemma_passed_on(y, m, k);
    lemma_rearranged(t, m, k);
    let axes = t.params;
    assert(axes =~= seq![0i64, 2, 1, 3, 4]);
    assert(axes[0] == 0 && axes[1] == 2 && axes[2] == 1 && axes[3] == 3 && axes[4] == 4);
    assert(axes.contains(0i64) && axes.contains(1i64) && axes.contains(2i64));
    assert(axes.contains(3i64) && axes.contains(4i64));
    let back = unpermuted(idx, axes);
    assert(axes.index_of(0i64) == 0 && axes.index_of(1i64) == 2 && axes.index_of(2i64) == 1);
    assert(axes.index_of(3i64) == 3 && axes.index_of(4i64) == 4);
    assert(back =~= seq![r, i, q, j, c]);
    lemma_place_of_five(rows, p, cols, p, ch, back);
    lemma_passed_on(split, m, place(split.shape, back));
    let w = x.shape[1] as int;
    vstd::arithmetic::div_mod::lemma_fundamental_div_mod(w, p as int);
    assert(cols * p == w) by (nonlinear_arith)
        requires
            w == p * cols,
    ;
    assert(((r * p + i) * cols + q) * p + j == (r * p + i) * w + (q * p + j)) by (nonlinear_arith)
        requires
            cols * p == w,
    ;
}

} // verus!
