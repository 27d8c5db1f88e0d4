//! Images as rows of pixels, and pixels as channels.
use vstd::prelude::*;

verus! {

/// The bytes of an image of `h` rows, `w` columns and `channels` channels,
/// row by row, whose byte of channel `c` at column `x` of row `y` is
/// `f(y, x, c)`.
pub open spec fn raster(h: int, w: int, channels: int, f: spec_fn(int, int, int) -> u8) -> Seq<
    u8,
> {
    Seq::new(
        (h * w * channels) as nat,
        |k: int| f(k / channels / w, k / channels % w, k % channels),
    )
}

/// The byte of channel `c` at column `x` of row `y` stands at
/// `(y * w + x) * channels + c`.
pub proof fn lemma_raster_place(h: int, w: int, channels: int, y: int, x: int, c: int)
    requires
        0 <= y < h,
        0 <= x < w,
        0 <= c < channels,
    ensures
        0 <= (y * w + x) * channels + c < h * w * channels,
        ((y * w + x) * channels + c) / channels / w == y,
        ((y * w + x) * channels + c) / channels % w == x,
        ((y * w + x) * channels + c) % channels == c,
{
    let p = y * w + x;
    let k = p * channels + c;
    assert(0 <= p < h * w) by (nonlinear_arith)
        requires
            p == y * w + x,
            0 <= y < h,
            0 <= x < w,
    ;
    assert(0 <= k < h * w * channels) by (nonlinear_arith)
        requires
            k == p * channels + c,
            0 <= p < h * w,
            0 <= c < channels,
    ;
    vstd::arithmetic::div_mod::lemma_fundamental_div_mod_converse(k, channels, p, c);
    vstd::arithmetic::div_mod::lemma_fundamental_div_mod_converse(p, w, y, x);
}

/// Reading an image at a pixel gives what was put there.
pub proof fn raster_reads_back(
    h: int,
    w: int,
    channels: int,
    f: spec_fn(int, int, int) -> u8,
    y: int,
    x: int,
    c: int,
)
    requires
        0 <= y < h,
        0 <= x < w,
        0 <= c < channels,
    ensures
        raster(h, w, channels, f)[(y * w + x) * channels + c] == f(y, x, c),
{
    lemma_raster_place(h, w, channels, y, x, c);
}

} // verus!
