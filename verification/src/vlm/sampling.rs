//! What the bytes of resized images are.
use vstd::prelude::*;

use crate::vlm::image::{can_resize, resized, with_opacity, Image};
use crate::vlm::raster::lemma_raster_place;
use crate::vlm::resize::{
    accepted, kernel_size, lemma_row_weight, nearest_index, resampled, resized_bytes,
    rows_of_weights, rows_with, same_size_is_kept, support, tap_fits, weighted, Filter, Taps,
};

verus! {

/// `f(0) + .. + f(n - 1)`.
pub open spec fn sum_of(n: int, f: spec_fn(int) -> int) -> int
    decreases n,
{
    if n <= 0 {
        0
    } else {
        sum_of(n - 1, f) + f(n - 1)
    }
}

/// Whether `b` is the byte nearest to `s`, which has 22 bits behind its point;
/// of two it is the larger one.
pub open spec fn is_nearest_byte(b: u8, s: int) -> bool {
    &&& b == 0 || b * 0x40_0000 - 0x20_0000 <= s
    &&& b == 255 || s < b * 0x40_0000 + 0x20_0000
}

proof fn lemma_resampled(
    data: Seq<u8>,
    start: int,
    stride: int,
    taps: Seq<Taps>,
    ksize: int,
    o: int,
    f: spec_fn(int) -> int,
)
    requires
        0 <= o < taps.len(),
        taps[o].weights@.len() <= ksize,
        forall|i: int|
            0 <= i < taps[o].weights@.len() ==> #[trigger] f(i) == data[start + i * stride]
                * taps[o].weights@[i],
    ensures
        is_nearest_byte(
            resampled(
                data,
                start,
                stride,
                rows_of_weights(taps, ksize),
                o * ksize,
                taps[o].weights@.len() as int,
            ),
            sum_of(taps[o].weights@.len() as int, f),
        ),
{
    let n = taps[o].weights@.len() as int;
    lemma_weighted(data, start, stride, taps, ksize, o, f, n);
}

proof fn lemma_weighted(
    data: Seq<u8>,
    start: int,
    stride: int,
    taps: Seq<Taps>,
    ksize: int,
    o: int,
    f: spec_fn(int) -> int,
    n: int,
)
    requires
        0 <= o < taps.len(),
        0 <= n <= taps[o].weights@.len() <= ksize,
        forall|i: int|
            0 <= i < taps[o].weights@.len() ==> #[trigger] f(i) == data[start + i * stride]
                * taps[o].weights@[i],
    ensures
        weighted(data, start, stride, rows_of_weights(taps, ksize), o * ksize, n) == sum_of(n, f),
    decreases n,
{
    if n > 0 {
        lemma_weighted(data, start, stride, taps, ksize, o, f, n - 1);
        lemma_row_weight(taps, ksize, o, n - 1);
        assert(f(n - 1) == data[start + (n - 1) * stride] * taps[o].weights@[n - 1]);
    }
}

/// Each byte of a resampled image is that nearest to a weighted sum down its
/// column, over the image whose rows have been resampled, and each byte of
/// that one is that nearest to a weighted sum along its row of the source. The
/// weights are those of the column and of the row, taken from the first pixel
/// of their window on.
pub proof fn resampled_bytes_are_rounded_sums(
    src: Seq<u8>,
    src_w: int,
    src_h: int,
    dst_w: int,
    dst_h: int,
    filter: Filter,
    horizontal: Seq<Taps>,
    vertical: Seq<Taps>,
    y: int,
    x: int,
    ch: int,
)
    requires
        filter != Filter::Nearest,
        accepted(src.len() as int, src_w, src_h, dst_w, dst_h, filter, horizontal, vertical),
        0 <= x < dst_w,
        0 <= ch < 4,
    ensures
        ({
            let rows = rows_with(
                src,
                src_w,
                src_h,
                horizontal,
                kernel_size(filter, src_w, dst_w),
            );
            let out = resized_bytes(src, src_w, src_h, dst_w, dst_h, filter, horizontal, vertical);
            let (h, v) = (horizontal[x], vertical[y]);
            &&& 0 <= y < src_h ==> is_nearest_byte(
                rows[(y * dst_w + x) * 4 + ch],
                sum_of(
                    h.weights@.len() as int,
                    |i: int| src[(y * src_w + (h.xmin + i)) * 4 + ch] * h.weights@[i],
                ),
            )
            &&& 0 <= y < dst_h ==> is_nearest_byte(
                out[(y * dst_w + x) * 4 + ch],
                sum_of(
                    v.weights@.len() as int,
                    |i: int| rows[((v.xmin + i) * dst_w + x) * 4 + ch] * v.weights@[i],
                ),
            )
        }),
{
    let hk = kernel_size(filter, src_w, dst_w);
    let vk = kernel_size(filter, src_h, dst_h);
    let rows = rows_with(src, src_w, src_h, horizontal, hk);
    let (h, v) = (horizontal[x], vertical[y]);
    if 0 <= y < src_h {
        assert(tap_fits(h, hk, src_w));
        lemma_raster_place(src_h, dst_w, 4, y, x, ch);
        let f = |i: int| src[(y * src_w + (h.xmin + i)) * 4 + ch] * h.weights@[i];
        let start = (y * src_w + h.xmin) * 4 + ch;
        assert forall|i: int| 0 <= i < h.weights@.len() implies #[trigger] f(i) == src[start + i
            * 4] * h.weights@[i] by {}
        lemma_resampled(src, start, 4, horizontal, hk, x, f);
    }
    if 0 <= y < dst_h {
        assert(tap_fits(v, vk, src_h));
        lemma_raster_place(dst_h, dst_w, 4, y, x, ch);
        let f = |i: int| rows[((v.xmin + i) * dst_w + x) * 4 + ch] * v.weights@[i];
        let start = (v.xmin * dst_w + x) * 4 + ch;
        assert forall|i: int| 0 <= i < v.weights@.len() implies #[trigger] f(i) == rows[start + i
            * (dst_w * 4)] * v.weights@[i] by {
            let a = v.xmin as int;
            assert(((a + i) * dst_w + x) * 4 + ch == (a * dst_w + x) * 4 + ch + i * (dst_w * 4))
                by (nonlinear_arith);
        }
        lemma_resampled(rows, start, dst_w * 4, vertical, vk, y, f);
    }
}

/// With the filter that takes the nearest pixel, a pixel is that of the source
/// in which its own centre lies.
pub proof fn nearest_pixel_lies_under_the_centre(
    src: Seq<u8>,
    src_w: int,
    src_h: int,
    dst_w: int,
    dst_h: int,
    horizontal: Seq<Taps>,
    vertical: Seq<Taps>,
    y: int,
    x: int,
    ch: int,
    sy: int,
    sx: int,
)
    requires
        accepted(
            src.len() as int,
            src_w,
            src_h,
            dst_w,
            dst_h,
            Filter::Nearest,
            horizontal,
            vertical,
        ),
        0 <= y < dst_h,
        0 <= x < dst_w,
        0 <= ch < 4,
        2 * dst_h * sy <= (2 * y + 1) * src_h < 2 * dst_h * (sy + 1),
        2 * dst_w * sx <= (2 * x + 1) * src_w < 2 * dst_w * (sx + 1),
    ensures
        resized_bytes(
            src,
            src_w,
            src_h,
            dst_w,
            dst_h,
            Filter::Nearest,
            horizontal,
            vertical,
        )[(y * dst_w + x) * 4 + ch] == src[(sy * src_w + sx) * 4 + ch],
{
    lemma_raster_place(dst_h, dst_w, 4, y, x, ch);
    lemma_under_the_centre(y, src_h, dst_h, sy);
    lemma_under_the_centre(x, src_w, dst_w, sx);
}

proof fn lemma_under_the_centre(o: int, in_size: int, out_size: int, i: int)
    requires
        0 <= o < out_size,
        in_size >= 1,
        2 * out_size * i <= (2 * o + 1) * in_size < 2 * out_size * (i + 1),
    ensures
        nearest_index(o, in_size, out_size) == i,
{
    let (a, d) = ((2 * o + 1) * in_size, 2 * out_size);
    let r = a - d * i;
    assert(0 <= r < d) by (nonlinear_arith)
        requires
            r == a - d * i,
            d * i <= a < d * (i + 1),
    ;
    assert(a == i * d + r) by (nonlinear_arith)
        requires
            r == a - d * i,
    ;
    vstd::arithmetic::div_mod::lemma_fundamental_div_mod_converse(a, d, i, r);
    assert(i < in_size) by (nonlinear_arith)
        requires
            2 * out_size * i <= (2 * o + 1) * in_size,
            2 * o + 1 < 2 * out_size,
            in_size >= 1,
            out_size >= 1,
    ;
}

/// How far a filter reaches: its radius where the axis is not made smaller,
/// else the least number of pixels that covers the radius in pixels of the
/// result. The radius is one pixel for triangles, two for cubics and three for
/// the windowed sinc.
pub proof fn filters_reach_as_far_as_needed(filter: Filter, in_size: int, out_size: int)
    requires
        in_size >= 1,
        out_size >= 1,
    ensures
        ({
            let radius: int = match filter {
                Filter::Nearest => 0,
                Filter::Bilinear => 1,
                Filter::Bicubic => 2,
                Filter::Lanczos3 => 3,
            };
            let s = support(filter, in_size, out_size);
            &&& in_size <= out_size ==> s == radius
            &&& in_size > out_size ==> (s - 1) * out_size < radius * in_size <= s * out_size
            &&& kernel_size(filter, in_size, out_size) <= in_size
            &&& 2 * s + 1 <= in_size ==> kernel_size(filter, in_size, out_size) == 2 * s + 1
            &&& 2 * s + 1 > in_size ==> kernel_size(filter, in_size, out_size) == in_size
        }),
{
    let a = filter.spec_radius() * in_size;
    let s = support(filter, in_size, out_size);
    if in_size > out_size {
        let r = (a + out_size - 1) % out_size;
        vstd::arithmetic::div_mod::lemma_fundamental_div_mod(a + out_size - 1, out_size);
        assert((s - 1) * out_size < a <= s * out_size) by (nonlinear_arith)
            requires
                a + out_size - 1 == out_size * s + r,
                0 <= r < out_size,
        ;
    }
}

/// A resized image is made of the image with its opacity, its columns to the
/// columns and its rows to the rows asked for; resized to its own size it stays
/// as it is.
pub proof fn images_are_resized_side_by_side(
    img: Image,
    target: (usize, usize),
    filter: Filter,
    horizontal: Seq<Taps>,
    vertical: Seq<Taps>,
)
    requires
        can_resize(img, target, filter, horizontal, vertical),
        with_opacity(img).len() == img.h() * img.w() * 4,
    ensures
        resized(img, target, filter, horizontal, vertical) == resized_bytes(
            with_opacity(img),
            img.w(),
            img.h(),
            target.1 as int,
            target.0 as int,
            filter,
            horizontal,
            vertical,
        ),
        target.0 == img.h() && target.1 == img.w() ==> resized(
            img,
            target,
            filter,
            horizontal,
            vertical,
        ) == with_opacity(img),
{
    if target.0 == img.h() && target.1 == img.w() {
        same_size_is_kept(with_opacity(img), img.w(), img.h(), filter, horizontal, vertical);
    }
}

} // verus!
