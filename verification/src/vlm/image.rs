//! Images and what is done to them before a model sees them.
use vstd::prelude::*;

use crate::array::{bind, leaf, outcome, scalar, slice_copy, unary, Array, Op, Tensor};
use crate::dtype::{Dtype, Kind};
use crate::error::{backend, shape_mismatch, Error, Result};
use crate::ops::arithmetic::{difference, divide, multiply, product, quotient, subtract};
use crate::ops::shape::{reshape_to, reshaped};
use crate::ops::unary::converted;
use crate::scalar::{nearest_bits, F32};
use crate::shape::{
    broadcast, broadcastable, elements, fits, lemma_elements_one, lemma_elements_two, MAX_DIM,
};
use crate::vlm::raster::{lemma_raster_place, raster};
use crate::vlm::resize::{
    accepted, resize_rgba8, resize_within, resized_bytes, Filter, ResizeBuffers, Taps,
};

verus! {

/// The order of the three colours of a pixel.
#[derive(Clone, Copy, Debug, PartialEq, Eq, Structural)]
pub enum ColorOrder {
    /// Red, green, blue.
    Rgb,
    /// Blue, green, red.
    Bgr,
}

/// An image with three or four bytes for each pixel: red, green, blue and
/// opacity. Bytes behind the last pixel are no part of it.
#[derive(Debug)]
pub struct Image {
    width: usize,
    height: usize,
    depth: usize,
    data: Vec<u8>,
}

impl Image {
    pub closed spec fn w(&self) -> int {
        self.width as int
    }

    pub closed spec fn h(&self) -> int {
        self.height as int
    }

    /// The bytes of a pixel.
    pub closed spec fn depth(&self) -> int {
        self.depth as int
    }

    pub closed spec fn data(&self) -> Seq<u8> {
        self.data@
    }

    /// The byte `c` of the pixel in column `x` of row `y`.
    pub open spec fn at(&self, y: int, x: int, c: int) -> u8 {
        self.data()[(y * self.w() + x) * self.depth() + c]
    }

    /// The bytes of all pixels.
    pub open spec fn bytes(&self) -> Seq<u8> {
        raster(self.h(), self.w(), self.depth(), |y: int, x: int, c: int| self.at(y, x, c))
    }

    #[verifier::type_invariant]
    spec fn type_inv(self) -> bool {
        &&& self.depth == 3 || self.depth == 4
        &&& self.height * self.width * self.depth <= self.data@.len()
        &&& self.data@.len() <= usize::MAX
    }

    /// The image of the given bytes, row by row. There is none where they are
    /// too few, or where a pixel has neither three nor four bytes.
    pub fn from_raw(width: usize, height: usize, depth: usize, data: Vec<u8>) -> (r: Option<Image>)
        ensures
            r is Some <==> (depth == 3 || depth == 4) && height * width * depth <= data@.len(),
            r matches Some(i) ==> i.w() == width && i.h() == height && i.depth() == depth
                && i.data() == data@,
    {
        if depth != 3 && depth != 4 {
            return None;
        }
        let size: usize = data.len();
        let pixels: usize = match height.checked_mul(width) {
            Some(n) => n,
            None => {
                assert(height * width * depth >= height * width) by (nonlinear_arith)
                    requires
                        depth >= 1,
                        height * width >= 0,
                ;
                return None;
            },
        };
        match pixels.checked_mul(depth) {
            Some(n) if n <= size => Some(Image { width, height, depth, data }),
            _ => None,
        }
    }

    /// The number of columns.
    pub fn width(&self) -> (n: usize)
        ensures
            n == self.w(),
    {
        self.width
    }

    /// The number of rows.
    pub fn height(&self) -> (n: usize)
        ensures
            n == self.h(),
    {
        self.height
    }

    /// The number of bytes of a pixel: three or four.
    pub fn channels(&self) -> (n: usize)
        ensures
            n == self.depth(),
            n == 3 || n == 4,
            self.h() * self.w() * self.depth() <= usize::MAX,
    {
        proof {
            use_type_invariant(self);
        }
        self.depth
    }

    fn byte_at(&self, y: usize, x: usize, c: usize) -> (b: u8)
        requires
            y < self.h(),
            x < self.w(),
            c < self.depth(),
        ensures
            b == self.at(y as int, x as int, c as int),
    {
        proof {
            use_type_invariant(self);
            let (h, w, d) = (self.height as int, self.width as int, self.depth as int);
            lemma_raster_place(h, w, d, y as int, x as int, c as int);
            let p = y * w + x;
            assert(0 <= y * w) by (nonlinear_arith)
                requires
                    w >= 0,
                    y >= 0,
            ;
            assert(p <= p * d) by (nonlinear_arith)
                requires
                    d >= 1,
                    p >= 0,
            ;
        }
        self.data[(y * self.width + x) * self.depth + c]
    }

    /// The byte `c` of the pixel in column `x` of row `y`, where there is one.
    pub fn get(&self, x: usize, y: usize, c: usize) -> (b: Option<u8>)
        ensures
            b == if x < self.w() && y < self.h() && c < self.depth() {
                Some(self.at(y as int, x as int, c as int))
            } else {
                None
            },
    {
        if x < self.width && y < self.height && c < self.depth {
            Some(self.byte_at(y, x, c))
        } else {
            None
        }
    }
}

/// A copy of an image.
fn copy_of(img: &Image) -> (out: Image)
    ensures
        out.w() == img.w(),
        out.h() == img.h(),
        out.depth() == img.depth(),
        out.bytes() == img.bytes(),
{
    proof {
        use_type_invariant(img);
    }
    let out = Image {
        width: img.width,
        height: img.height,
        depth: img.depth,
        data: slice_copy(img.data.as_slice()),
    };
    assert(out.bytes() =~= img.bytes());
    out
}

/// The place of byte `k` of an image of `w` columns and `d` bytes a pixel.
fn split_place(k: usize, w: usize, d: usize, h: usize) -> (r: (usize, usize, usize))
    requires
        w >= 1,
        d >= 1,
        k < h * w * d,
    ensures
        r.0 == k as int / d as int / w as int,
        r.1 == k as int / d as int % (w as int),
        r.2 == k as int % (d as int),
        r.0 < h,
        r.1 < w,
        r.2 < d,
{
    let p: usize = k / d;
    let y: usize = p / w;
    let x: usize = p % w;
    let c: usize = k % d;
    assert(p < h * w) by (nonlinear_arith)
        requires
            k < h * w * d,
            p == k / d,
            d >= 1,
    ;
    assert(y < h) by (nonlinear_arith)
        requires
            p < h * w,
            y == p / w,
            w >= 1,
    ;
    (y, x, c)
}

/// The image of the given bytes, which are those of a raster.
fn of_raster(width: usize, height: usize, depth: usize, data: Vec<u8>, Ghost(f): Ghost<
    spec_fn(int, int, int) -> u8,
>) -> (out: Image)
    requires
        depth == 3 || depth == 4,
        data@ == raster(height as int, width as int, depth as int, f),
        data@.len() <= usize::MAX,
    ensures
        out.w() == width,
        out.h() == height,
        out.depth() == depth,
        out.bytes() == raster(height as int, width as int, depth as int, f),
{
    proof {
        assert(height * width * depth >= 0) by (nonlinear_arith);
    }
    let out = Image { width, height, depth, data };
    assert(out.bytes() =~= raster(height as int, width as int, depth as int, f)) by {
        let (h, w, d) = (height as int, width as int, depth as int);
        assert forall|k: int| 0 <= k < h * w * d implies out.bytes()[k] == #[trigger] raster(
            h,
            w,
            d,
            f,
        )[k] by {
            if w == 0 {
                assert(h * w * d == 0) by (nonlinear_arith)
                    requires
                        w == 0,
                ;
            }
            vstd::arithmetic::div_mod::lemma_fundamental_div_mod(k, d);
            vstd::arithmetic::div_mod::lemma_fundamental_div_mod(k / d, w);
            assert(((k / d / w) * w + k / d % w) * d + k % d == k) by (nonlinear_arith)
                requires
                    k == d * (k / d) + k % d,
                    k / d == w * (k / d / w) + k / d % w,
            ;
        }
    }
    out
}

/// Whether an image is to be cropped: it exceeds the target on both axes.
pub open spec fn is_cropped(h: int, w: int, target_h: int, target_w: int) -> bool {
    h > target_h && w > target_w
}

/// The middle `target_h` rows and `target_w` columns; where the rest is odd
/// the larger part of it lies behind. An image that does not exceed the
/// target on both axes is left as it is.
pub fn center_crop(img: &Image, target_h: usize, target_w: usize) -> (out: Image)
    ensures
        out.depth() == img.depth(),
        !is_cropped(img.h(), img.w(), target_h as int, target_w as int) ==> out.h() == img.h()
            && out.w() == img.w() && out.bytes() == img.bytes(),
        is_cropped(img.h(), img.w(), target_h as int, target_w as int) ==> out.h() == target_h
            && out.w() == target_w && out.bytes() == raster(
            target_h as int,
            target_w as int,
            img.depth(),
            |y: int, x: int, c: int|
                img.at(y + (img.h() - target_h) / 2, x + (img.w() - target_w) / 2, c),
        ),
{
    let (h, w): (usize, usize) = (img.height(), img.width());
    let d: usize = img.channels();
    if h <= target_h || w <= target_w {
        return copy_of(img);
    }
    let top: usize = (h - target_h) / 2;
    let left: usize = (w - target_w) / 2;
    let ghost f = |y: int, x: int, c: int|
        img.at(y + (img.h() - target_h) / 2, x + (img.w() - target_w) / 2, c);
    let ghost all = raster(target_h as int, target_w as int, d as int, f);
    proof {
        assert(0 <= target_h * target_w * d <= h * w * d) by (nonlinear_arith)
            requires
                target_h <= h,
                target_w <= w,
                d >= 0,
        ;
        assert(target_h * target_w <= target_h * target_w * d) by (nonlinear_arith)
            requires
                d >= 1,
                target_h * target_w >= 0,
        ;
    }
    let n: usize = target_h * target_w * d;
    let mut data: Vec<u8> = Vec::new();
    let mut k: usize = 0;
    assert(all.take(0) =~= Seq::<u8>::empty());
    while k < n
        invariant
            0 <= k <= n,
            n == target_h * target_w * d,
            d == img.depth(),
            d >= 1,
            h == img.h(),
            w == img.w(),
            h > target_h,
            w > target_w,
            top == (h - target_h) / 2,
            left == (w - target_w) / 2,
            all == raster(target_h as int, target_w as int, d as int, f),
            f == (|y: int, x: int, c: int|
                img.at(y + (img.h() - target_h) / 2, x + (img.w() - target_w) / 2, c)),
            data@ == all.take(k as int),
        decreases n - k,
    {
        proof {
            if target_w == 0 {
                assert(target_h * target_w * d == 0) by (nonlinear_arith)
                    requires
                        target_w == 0,
                ;
            }
        }
        let (y, x, c): (usize, usize, usize) = split_place(k, target_w, d, target_h);
        data.push(img.byte_at(y + top, x + left, c));
        assert(all.take(k + 1) =~= all.take(k as int).push(all[k as int]));
        k = k + 1;
    }
    assert(all.take(n as int) =~= all);
    of_raster(target_w, target_h, d, data, Ghost(f))
}

/// The byte `c` of the pixel in column `x` of row `y` of an image set into a
/// square of side `side`.
pub open spec fn square_byte(img: Image, side: int, fill: Seq<u8>, y: int, x: int, c: int) -> u8 {
    let top = (side - img.h()) / 2;
    let left = (side - img.w()) / 2;
    if top <= y < top + img.h() && left <= x < left + img.w() {
        img.at(y - top, x - left, c)
    } else {
        fill[c]
    }
}

/// The longer side of an image.
pub open spec fn longer_side(img: Image) -> int {
    if img.h() < img.w() {
        img.w()
    } else {
        img.h()
    }
}

/// The image in the middle of a square of its longer side, with `fill` around
/// it; where the rest is odd the larger part of it lies behind. Opacity is
/// dropped. A square image is left as it is.
pub fn pad_to_square(img: &Image, fill: [u8; 3]) -> (out: Image)
    requires
        longer_side(*img) * longer_side(*img) * 3 <= usize::MAX,
    ensures
        img.h() == img.w() ==> out.h() == img.h() && out.w() == img.w() && out.depth()
            == img.depth() && out.bytes() == img.bytes(),
        img.h() != img.w() ==> out.h() == longer_side(*img) && out.w() == longer_side(*img)
            && out.depth() == 3 && out.bytes() == raster(
            longer_side(*img),
            longer_side(*img),
            3,
            |y: int, x: int, c: int| square_byte(*img, longer_side(*img), fill@, y, x, c),
        ),
{
    let (h, w): (usize, usize) = (img.height(), img.width());
    let d: usize = img.channels();
    if h == w {
        return copy_of(img);
    }
    let side: usize = if h < w {
        w
    } else {
        h
    };
    let top: usize = (side - h) / 2;
    let left: usize = (side - w) / 2;
    let ghost f = |y: int, x: int, c: int|
        square_byte(*img, longer_side(*img), fill@, y, x, c);
    let ghost all = raster(side as int, side as int, 3, f);
    proof {
        assert(side * side >= 0) by (nonlinear_arith);
    }
    let n: usize = side * side * 3;
    let mut data: Vec<u8> = Vec::new();
    let mut k: usize = 0;
    assert(all.take(0) =~= Seq::<u8>::empty());
    while k < n
        invariant
            0 <= k <= n,
            n == side * side * 3,
            d == img.depth(),
            d >= 3,
            h == img.h(),
            w == img.w(),
            side == longer_side(*img),
            side >= 1,
            top == (side - h) / 2,
            left == (side - w) / 2,
            all == raster(side as int, side as int, 3, f),
            f == (|y: int, x: int, c: int|
                square_byte(*img, longer_side(*img), fill@, y, x, c)),
            data@ == all.take(k as int),
        decreases n - k,
    {
        let (y, x, c): (usize, usize, usize) = split_place(k, side, 3, side);
        let b: u8 = if top <= y && y - top < h && left <= x && x - left < w {
            img.byte_at(y - top, x - left, c)
        } else {
            fill[c]
        };
        data.push(b);
        assert(all.take(k + 1) =~= all.take(k as int).push(all[k as int]));
        k = k + 1;
    }
    assert(all.take(n as int) =~= all);
    of_raster(side, side, 3, data, Ghost(f))
}

/// The image with an opacity for each pixel, which is full where it had none.
pub open spec fn with_opacity(img: Image) -> Seq<u8> {
    raster(
        img.h(),
        img.w(),
        4,
        |y: int, x: int, c: int|
            if c < img.depth() {
                img.at(y, x, c)
            } else {
                255
            },
    )
}

fn to_rgba(img: &Image) -> (data: Vec<u8>)
    requires
        img.h() * img.w() * 4 <= usize::MAX,
    ensures
        data@ == with_opacity(*img),
{
    let (h, w): (usize, usize) = (img.height(), img.width());
    let d: usize = img.channels();
    let ghost all = with_opacity(*img);
    proof {
        assert(h * w >= 0) by (nonlinear_arith);
    }
    let n: usize = h * w * 4;
    let mut data: Vec<u8> = Vec::new();
    let mut k: usize = 0;
    assert(all.take(0) =~= Seq::<u8>::empty());
    while k < n
        invariant
            0 <= k <= n,
            n == h * w * 4,
            d == img.depth(),
            h == img.h(),
            w == img.w(),
            all == with_opacity(*img),
            data@ == all.take(k as int),
        decreases n - k,
    {
        proof {
            if w == 0 {
                assert(h * w * 4 == 0) by (nonlinear_arith)
                    requires
                        w == 0,
                ;
            }
        }
        let (y, x, c): (usize, usize, usize) = split_place(k, w, 4, h);
        let b: u8 = if c < d {
            img.byte_at(y, x, c)
        } else {
            255
        };
        data.push(b);
        assert(all.take(k + 1) =~= all.take(k as int).push(all[k as int]));
        k = k + 1;
    }
    assert(all.take(n as int) =~= all);
    data
}

/// Whether an image can be resized to `target`, its rows and columns.
pub open spec fn can_resize(
    img: Image,
    target: (usize, usize),
    filter: Filter,
    horizontal: Seq<Taps>,
    vertical: Seq<Taps>,
) -> bool {
    &&& img.h() * img.w() * 4 <= usize::MAX
    &&& accepted(
        img.h() * img.w() * 4,
        img.w(),
        img.h(),
        target.1 as int,
        target.0 as int,
        filter,
        horizontal,
        vertical,
    )
}

/// The bytes of an image after it was resized.
pub open spec fn resized(
    img: Image,
    target: (usize, usize),
    filter: Filter,
    horizontal: Seq<Taps>,
    vertical: Seq<Taps>,
) -> Seq<u8> {
    resized_bytes(
        with_opacity(img),
        img.w(),
        img.h(),
        target.1 as int,
        target.0 as int,
        filter,
        horizontal,
        vertical,
    )
}

/// The image in `target.0` rows and `target.1` columns. Every pixel of the
/// result has an opacity.
pub fn resize(
    img: &Image,
    target: (usize, usize),
    filter: Filter,
    horizontal: &[Taps],
    vertical: &[Taps],
) -> (r: Result<Image>)
    ensures
        match r {
            Ok(out) => {
                &&& can_resize(*img, target, filter, horizontal@, vertical@)
                &&& out.h() == target.0
                &&& out.w() == target.1
                &&& out.depth() == 4
                &&& out.data() == resized(*img, target, filter, horizontal@, vertical@)
            },
            Err(Error::ShapeMismatch { .. }) => !can_resize(
                *img,
                target,
                filter,
                horizontal@,
                vertical@,
            ),
            Err(e) => e is OutOfMemory && can_resize(
                *img,
                target,
                filter,
                horizontal@,
                vertical@,
            ),
        },
{
    let (h, w): (usize, usize) = (img.height(), img.width());
    let _d: usize = img.channels();
    proof {
        let d = img.depth();
        assert(h * w <= h * w * d) by (nonlinear_arith)
            requires
                d >= 1,
                h >= 0,
                w >= 0,
        ;
        assert(h * w == w * h) by (nonlinear_arith);
    }
    match (h * w).checked_mul(4) {
        Some(_) => {},
        None => {
            return Err(shape_mismatch("resize: the image is too large"));
        },
    }
    let source: Vec<u8> = to_rgba(img);
    let data = resize_rgba8(&source, w, h, target.1, target.0, filter, horizontal, vertical)?;
    proof {
        let (th, tw) = (target.0 as int, target.1 as int);
        assert(th * tw * 4 == tw * th * 4) by (nonlinear_arith);
    }
    let out = Image { width: target.1, height: target.0, depth: 4, data };
    Ok(out)
}

/// The image in `target.0` rows and `target.1` columns, resized in the given
/// room. Refused exactly where it cannot be resized.
pub fn resize_in(
    img: &Image,
    target: (usize, usize),
    filter: Filter,
    horizontal: &[Taps],
    vertical: &[Taps],
    room: ResizeBuffers,
) -> (r: Result<Image>)
    ensures
        match r {
            Ok(out) => {
                &&& can_resize(*img, target, filter, horizontal@, vertical@)
                &&& out.h() == target.0
                &&& out.w() == target.1
                &&& out.depth() == 4
                &&& out.data() == resized(*img, target, filter, horizontal@, vertical@)
            },
            Err(e) => e is ShapeMismatch && !can_resize(
                *img,
                target,
                filter,
                horizontal@,
                vertical@,
            ),
        },
{
    let (h, w): (usize, usize) = (img.height(), img.width());
    let _d: usize = img.channels();
    proof {
        let d = img.depth();
        assert(h * w <= h * w * d) by (nonlinear_arith)
            requires
                d >= 1,
                h >= 0,
                w >= 0,
        ;
        assert(h * w == w * h) by (nonlinear_arith);
    }
    match (h * w).checked_mul(4) {
        Some(_) => {},
        None => {
            return Err(shape_mismatch("resize: the image is too large"));
        },
    }
    let source: Vec<u8> = to_rgba(img);
    let data = resize_within(
        &source,
        w,
        h,
        target.1,
        target.0,
        filter,
        horizontal,
        vertical,
        room,
    )?;
    proof {
        let (th, tw) = (target.0 as int, target.1 as int);
        assert(th * tw * 4 == tw * th * 4) by (nonlinear_arith);
    }
    let out = Image { width: target.1, height: target.0, depth: 4, data };
    Ok(out)
}

/// The image resampled with [`Filter::Lanczos3`].
pub fn resize_lanczos(
    img: &Image,
    target_h: usize,
    target_w: usize,
    horizontal: &[Taps],
    vertical: &[Taps],
) -> (r: Result<Image>)
    ensures
        match r {
            Ok(out) => {
                &&& can_resize(
                    *img,
                    (target_h, target_w),
                    Filter::Lanczos3,
                    horizontal@,
                    vertical@,
                )
                &&& out.h() == target_h
                &&& out.w() == target_w
                &&& out.depth() == 4
                &&& out.data() == resized(
                    *img,
                    (target_h, target_w),
                    Filter::Lanczos3,
                    horizontal@,
                    vertical@,
                )
            },
            Err(Error::ShapeMismatch { .. }) => !can_resize(
                *img,
                (target_h, target_w),
                Filter::Lanczos3,
                horizontal@,
                vertical@,
            ),
            Err(e) => e is OutOfMemory && can_resize(
                *img,
                (target_h, target_w),
                Filter::Lanczos3,
                horizontal@,
                vertical@,
            ),
        },
{
    resize(img, (target_h, target_w), Filter::Lanczos3, horizontal, vertical)
}

/// Which byte of a pixel is its colour `c` in the given order.
pub open spec fn channel(order: ColorOrder, c: int) -> int {
    match order {
        ColorOrder::Rgb => c,
        ColorOrder::Bgr => 2 - c,
    }
}

/// The three colours of each pixel as numbers from 0 to 255.
pub open spec fn colours(h: int, w: int, depth: int, data: Seq<u8>, order: ColorOrder) -> Seq<
    u64,
> {
    Seq::new(
        (h * w * 3) as nat,
        |k: int|
            nearest_bits(
                data[(k / 3 / w * w + k / 3 % w) * depth + channel(order, k % 3)] as nat,
            ) as u64,
    )
}

/// The array of the pixels in `data`: rows, columns and three colours.
pub open spec fn pixel_array(h: int, w: int, depth: int, data: Seq<u8>, order: ColorOrder) -> Option<
    Tensor,
> {
    leaf(
        Op::Data,
        seq![h as usize, w as usize, 3usize],
        Dtype::F32,
        colours(h, w, depth, data, order),
    )
}

/// The array of an image: its rows, its columns and three colours.
pub open spec fn image_array(img: Image, order: ColorOrder) -> Option<Tensor> {
    pixel_array(img.h(), img.w(), img.depth(), img.data(), order)
}

pub(crate) proof fn lemma_elements_three(a: usize, b: usize, c: usize)
    ensures
        elements(seq![a, b, c]) == a * b * c,
{
    assert(seq![a, b, c].drop_last() =~= seq![a, b]);
    lemma_elements_two(a, b);
}

/// The array of an image: its rows, its columns and three colours, each a
/// number from 0 to 255. Opacity is dropped. Refused where an axis is out of
/// range.
pub fn image_to_array(img: &Image, order: ColorOrder) -> (r: Result<Array>)
    ensures
        outcome(r) == image_array(*img, order),
        r is Ok <==> img.h() <= MAX_DIM && img.w() <= MAX_DIM,
        r is Err ==> r->Err_0 is Backend,
{
    let (h, w): (usize, usize) = (img.height(), img.width());
    let d: usize = img.channels();
    let ghost all = colours(img.h(), img.w(), img.depth(), img.data(), order);
    let ghost shape = seq![h, w, 3usize];
    proof {
        lemma_elements_three(h, w, 3);
        assert(h * w * 3 <= h * w * d) by (nonlinear_arith)
            requires
                d >= 3,
                h >= 0,
                w >= 0,
        ;
        assert(h * w >= 0) by (nonlinear_arith);
        assert(shape[0] == h && shape[1] == w);
    }
    let n: usize = h * w * 3;
    let mut bits: Vec<u64> = Vec::new();
    let mut k: usize = 0;
    assert(all.take(0) =~= Seq::<u64>::empty());
    while k < n
        invariant
            0 <= k <= n,
            n == h * w * 3,
            d == img.depth(),
            d >= 3,
            h == img.h(),
            w == img.w(),
            all == colours(img.h(), img.w(), img.depth(), img.data(), order),
            bits@ == all.take(k as int),
        decreases n - k,
    {
        proof {
            if w == 0 {
                assert(h * w * 3 == 0) by (nonlinear_arith)
                    requires
                        w == 0,
                ;
            }
        }
        let (y, x, c): (usize, usize, usize) = split_place(k, w, 3, h);
        let c: usize = match order {
            ColorOrder::Rgb => c,
            ColorOrder::Bgr => 2 - c,
        };
        let b: u8 = img.byte_at(y, x, c);
        bits.push(F32::from_u32(b as u32).bits as u64);
        assert(all.take(k + 1) =~= all.take(k as int).push(all[k as int]));
        k = k + 1;
    }
    assert(all.take(n as int) =~= all);
    let mut dims: Vec<usize> = Vec::new();
    dims.push(h);
    dims.push(w);
    dims.push(3);
    assert(dims@ =~= shape);
    Array::build_leaf(Op::Data, dims, Dtype::F32, bits)
}

/// Whether the elements are real or complex numbers in floating point.
pub open spec fn is_floating(d: Dtype) -> bool {
    d.kind() == Kind::Float || d.kind() == Kind::Complex
}

/// Every element times `factor`.
pub open spec fn rescaled(x: Tensor, factor: F32) -> Option<Tensor> {
    bind(converted(scalar(factor), x.dtype), |f: Tensor| product(x, f))
}

/// Every element times `factor`, in the element type of `arr`. Refused for
/// integers, which would lose the factor.
pub fn rescale(arr: &Array, factor: F32) -> (r: Result<Array>)
    ensures
        is_floating(arr@.dtype) ==> outcome(r) == rescaled(arr@, factor),
        match r {
            Ok(_) => is_floating(arr@.dtype),
            Err(Error::ShapeMismatch { .. }) => !is_floating(arr@.dtype),
            Err(e) => e is Backend && is_floating(arr@.dtype),
        },
{
    let d = arr.dtype();
    if !floating(d) {
        return Err(shape_mismatch("rescale: the elements must be floating-point numbers"));
    }
    let f = Array::scalar(factor).astype(d)?;
    multiply(arr, &f)
}

fn floating(d: Dtype) -> (r: bool)
    ensures
        r == is_floating(d),
{
    match d.kind() {
        Kind::Float => true,
        Kind::Complex => true,
        _ => false,
    }
}

/// One number for each colour.
pub open spec fn per_colour(v: Seq<F32>) -> Option<Tensor> {
    leaf(
        Op::Data,
        seq![3usize],
        Dtype::F32,
        seq![v[0].bits as u64, v[1].bits as u64, v[2].bits as u64],
    )
}

fn colour_array(v: &[F32; 3]) -> (r: Result<Array>)
    ensures
        outcome(r) == per_colour(v@),
        r is Err ==> r->Err_0 is Backend,
{
    let mut bits: Vec<u64> = Vec::new();
    bits.push(v[0].bits as u64);
    bits.push(v[1].bits as u64);
    bits.push(v[2].bits as u64);
    let mut shape: Vec<usize> = Vec::new();
    shape.push(3);
    assert(shape@ =~= seq![3usize]);
    assert(bits@ =~= seq![v@[0].bits as u64, v@[1].bits as u64, v@[2].bits as u64]);
    Array::build_leaf(Op::Data, shape, Dtype::F32, bits)
}

/// `(x - mean) / std` for each colour.
pub open spec fn normalized(x: Tensor, mean: Seq<F32>, std: Seq<F32>) -> Option<Tensor> {
    bind(
        bind(
            bind(per_colour(mean), |m: Tensor| converted(m, x.dtype)),
            |m: Tensor| difference(x, m),
        ),
        |centred: Tensor|
            bind(
                bind(per_colour(std), |s: Tensor| converted(s, x.dtype)),
                |s: Tensor| quotient(centred, s),
            ),
    )
}

/// Whether an array can be normalized: its last axis holds three colours in
/// floating point.
pub open spec fn normalizable(x: Tensor) -> bool {
    &&& x.shape.len() >= 1
    &&& x.shape.last() == 3
    &&& is_floating(x.dtype)
}

/// `(x - mean) / std` for each colour, in the element type of `arr`. Refused
/// for integers, and where the last axis does not hold three colours.
pub fn normalize(arr: &Array, mean: &[F32; 3], std: &[F32; 3]) -> (r: Result<Array>)
    ensures
        normalizable(arr@) ==> outcome(r) == normalized(arr@, mean@, std@),
        match r {
            Ok(_) => normalizable(arr@),
            Err(Error::ShapeMismatch { .. }) => !normalizable(arr@),
            Err(e) => e is Backend && normalizable(arr@),
        },
{
    let s = arr.dims();
    if s.len() == 0 || s[s.len() - 1] != 3 {
        return Err(shape_mismatch("normalize: the last axis must hold three colours"));
    }
    let d = arr.dtype();
    if !floating(d) {
        return Err(shape_mismatch("normalize: the elements must be floating-point numbers"));
    }
    let m = colour_array(mean)?.astype(d)?;
    let centred = subtract(arr, &m)?;
    let s = colour_array(std)?.astype(d)?;
    divide(&centred, &s)
}

/// The same as [`normalize`].
pub fn normalize_imagenet(arr: &Array, mean: &[F32; 3], std: &[F32; 3]) -> (r: Result<Array>)
    ensures
        normalizable(arr@) ==> outcome(r) == normalized(arr@, mean@, std@),
        match r {
            Ok(_) => normalizable(arr@),
            Err(Error::ShapeMismatch { .. }) => !normalizable(arr@),
            Err(e) => e is Backend && normalizable(arr@),
        },
{
    normalize(arr, mean, std)
}

/// Whether an array of rows, columns and channels is cut into whole patches.
pub open spec fn patchable(x: Tensor, p: usize) -> bool {
    &&& p >= 1
    &&& x.shape.len() == 3
    &&& x.shape[0] % p == 0
    &&& x.shape[1] % p == 0
}

/// An array of rows, columns and channels in square patches of side `p`, row
/// by row: the rows and the columns are split, the two axes within the patches
/// are brought behind those between them, and these are joined.
pub open spec fn patched(x: Tensor, p: usize) -> Option<Tensor> {
    let (rows, cols, ch) = ((x.shape[0] / p) as usize, (x.shape[1] / p) as usize, x.shape[2]);
    bind(
        bind(
            reshaped(x, seq![rows, p, cols, p, ch]),
            |s: Tensor|
                unary(
                    Op::Transpose,
                    seq![rows, cols, p, p, ch],
                    s.dtype,
                    seq![0i64, 2, 1, 3, 4],
                    s,
                ),
        ),
        |t: Tensor|
            if rows * cols <= MAX_DIM {
                reshaped(t, seq![(rows * cols) as usize, p, p, ch])
            } else {
                None
            },
    )
}

/// An array of rows, columns and channels in square patches of side
/// `patch_size`, row by row. Refused where it has not three axes or its rows
/// and columns are not made of whole patches.
pub fn patchify(arr: &Array, patch_size: usize) -> (r: Result<Array>)
    ensures
        patchable(arr@, patch_size) ==> outcome(r) == patched(arr@, patch_size),
        match r {
            Ok(_) => patchable(arr@, patch_size),
            Err(Error::ShapeMismatch { .. }) => !patchable(arr@, patch_size),
            Err(e) => e is Backend && patchable(arr@, patch_size),
        },
{
    let p: usize = patch_size;
    if p == 0 {
        return Err(shape_mismatch("patchify: the side of a patch must be positive"));
    }
    let s = arr.dims();
    if s.len() != 3 {
        return Err(shape_mismatch("patchify: expected rows, columns and channels"));
    }
    if s[0] % p != 0 || s[1] % p != 0 {
        return Err(shape_mismatch("patchify: the image is not made of whole patches"));
    }
    let rows: usize = s[0] / p;
    let cols: usize = s[1] / p;
    let ch: usize = s[2];
    let mut split: Vec<usize> = Vec::new();
    split.push(rows);
    split.push(p);
    split.push(cols);
    split.push(p);
    split.push(ch);
    assert(split@ =~= seq![rows, p, cols, p, ch]);
    let a = reshape_to(arr, &split)?;
    let mut swapped: Vec<usize> = Vec::new();
    swapped.push(rows);
    swapped.push(cols);
    swapped.push(p);
    swapped.push(p);
    swapped.push(ch);
    assert(swapped@ =~= seq![rows, cols, p, p, ch]);
    let mut axes: Vec<i64> = Vec::new();
    axes.push(0);
    axes.push(2);
    axes.push(1);
    axes.push(3);
    axes.push(4);
    assert(axes@ =~= seq![0i64, 2, 1, 3, 4]);
    let b = Array::build_unary(Op::Transpose, swapped, a.dtype(), axes, &a)?;
    let n: usize = match rows.checked_mul(cols) {
        Some(n) => n,
        None => {
            return Err(backend("patchify: there are too many patches"));
        },
    };
    let mut joined: Vec<usize> = Vec::new();
    joined.push(n);
    joined.push(p);
    joined.push(p);
    joined.push(ch);
    assert(joined@ =~= seq![n, p, p, ch]);
    assert(joined@[0] == n);
    reshape_to(&b, &joined)
}

proof fn lemma_elements_patches(rows: usize, cols: usize, p: usize, ch: usize)
    ensures
        elements(seq![rows, p, cols, p, ch]) == rows * p * (cols * p) * ch,
        elements(seq![rows, cols, p, p, ch]) == rows * p * (cols * p) * ch,
        rows * cols <= usize::MAX ==> elements(seq![(rows * cols) as usize, p, p, ch]) == rows * p
            * (cols * p) * ch,
{
    lemma_elements_three(rows, p, cols);
    assert(seq![rows, p, cols, p, ch].drop_last() =~= seq![rows, p, cols, p]);
    assert(seq![rows, p, cols, p].drop_last() =~= seq![rows, p, cols]);
    assert(elements(seq![rows, p, cols, p]) == rows * p * cols * p);
    lemma_elements_three(rows, cols, p);
    assert(seq![rows, cols, p, p, ch].drop_last() =~= seq![rows, cols, p, p]);
    assert(seq![rows, cols, p, p].drop_last() =~= seq![rows, cols, p]);
    assert(elements(seq![rows, cols, p, p]) == rows * cols * p * p);
    let n = (rows * cols) as usize;
    lemma_elements_three(n, p, p);
    assert(seq![n, p, p, ch].drop_last() =~= seq![n, p, p]);
    assert(rows * p * cols * p == rows * p * (cols * p)) by (nonlinear_arith);
    assert(rows * cols * p * p == rows * p * (cols * p)) by (nonlinear_arith);
}

/// Patches hold every element of the image once: where there are no more than
/// an axis can hold, cutting succeeds and keeps the element count, the element
/// type and the channels.
pub proof fn patches_cover_the_image(x: Tensor, p: usize)
    requires
        fits(x.shape),
        patchable(x, p),
        (x.shape[0] / p) * (x.shape[1] / p) <= MAX_DIM,
        p <= MAX_DIM,
    ensures
        patched(x, p) is Some,
        patched(x, p)->0.shape == seq![
            ((x.shape[0] / p) * (x.shape[1] / p)) as usize,
            p,
            p,
            x.shape[2],
        ],
        elements(patched(x, p)->0.shape) == elements(x.shape),
        patched(x, p)->0.dtype == x.dtype,
{
    let (rows, cols, ch) = ((x.shape[0] / p) as usize, (x.shape[1] / p) as usize, x.shape[2]);
    let (h, w) = (x.shape[0], x.shape[1]);
    assert(x.shape =~= seq![h, w, ch]);
    lemma_elements_three(h, w, ch);
    lemma_elements_patches(rows, cols, p, ch);
    vstd::arithmetic::div_mod::lemma_fundamental_div_mod(h as int, p as int);
    vstd::arithmetic::div_mod::lemma_fundamental_div_mod(w as int, p as int);
    assert(rows * p == h) by (nonlinear_arith)
        requires
            h == p * rows,
    ;
    assert(cols * p == w) by (nonlinear_arith)
        requires
            w == p * cols,
    ;
    assert(rows <= h) by (nonlinear_arith)
        requires
            h == p * rows,
            p >= 1,
    ;
    assert(cols <= w) by (nonlinear_arith)
        requires
            w == p * cols,
            p >= 1,
    ;
    let s = reshaped(x, seq![rows, p, cols, p, ch]);
    assert(fits(seq![rows, p, cols, p, ch]));
    assert(s is Some);
    assert(fits(seq![rows, cols, p, p, ch]));
    assert(fits(seq![(rows * cols) as usize, p, p, ch]));
}

/// How an image is prepared.
#[derive(Clone, Copy, Debug)]
pub struct ImageProcessorConfig {
    /// The rows and columns to resize to.
    pub size: (usize, usize),
    /// How to resample.
    pub resample: Filter,
    pub do_resize: bool,
    pub do_rescale: bool,
    pub do_normalize: bool,
    pub rescale_factor: F32,
    pub mean: [F32; 3],
    pub std: [F32; 3],
    pub color_order: ColorOrder,
}

/// 0.485, 0.456 and 0.406: the mean colour of a large collection of images.
pub open spec fn usual_mean() -> Seq<F32> {
    seq![F32::from_bits(0x3ef851ec), F32::from_bits(0x3ee978d5), F32::from_bits(0x3ecfdf3b)]
}

/// 0.229, 0.224 and 0.225: the spread of that collection's colours.
pub open spec fn usual_std() -> Seq<F32> {
    seq![F32::from_bits(0x3e6a7efa), F32::from_bits(0x3e656042), F32::from_bits(0x3e666666)]
}

impl Default for ImageProcessorConfig {
    /// Everything is done, to 224 by 224 pixels and with a factor of 1/255.
    fn default() -> (c: ImageProcessorConfig)
        ensures
            c.size == (224usize, 224usize),
            c.resample == Filter::Bicubic,
            c.do_resize,
            c.do_rescale,
            c.do_normalize,
            c.rescale_factor == F32::from_bits(0x3b808081),
            c.mean@ == usual_mean(),
            c.std@ == usual_std(),
            c.color_order == ColorOrder::Rgb,
    {
        let mean = [
            F32::from_bits(0x3ef851ec),
            F32::from_bits(0x3ee978d5),
            F32::from_bits(0x3ecfdf3b),
        ];
        let std = [
            F32::from_bits(0x3e6a7efa),
            F32::from_bits(0x3e656042),
            F32::from_bits(0x3e666666),
        ];
        assert(mean@ =~= usual_mean());
        assert(std@ =~= usual_std());
        ImageProcessorConfig {
            size: (224, 224),
            resample: Filter::Bicubic,
            do_resize: true,
            do_rescale: true,
            do_normalize: true,
            rescale_factor: F32::from_bits(0x3b808081),
            mean,
            std,
            color_order: ColorOrder::Rgb,
        }
    }
}

/// The array that is prepared of the pixels in `data`.
pub open spec fn prepared(
    h: int,
    w: int,
    depth: int,
    data: Seq<u8>,
    cfg: ImageProcessorConfig,
) -> Option<Tensor> {
    bind(
        bind(
            pixel_array(h, w, depth, data, cfg.color_order),
            |x: Tensor|
                if cfg.do_rescale {
                    rescaled(x, cfg.rescale_factor)
                } else {
                    Some(x)
                },
        ),
        |x: Tensor|
            if cfg.do_normalize {
                normalized(x, cfg.mean@, cfg.std@)
            } else {
                Some(x)
            },
    )
}

proof fn lemma_prepared_colours(
    h: usize,
    w: usize,
    depth: int,
    data: Seq<u8>,
    cfg: ImageProcessorConfig,
)
    requires
        pixel_array(h as int, w as int, depth, data, cfg.color_order) is Some,
    ensures
        ({
            let x = pixel_array(h as int, w as int, depth, data, cfg.color_order)->0;
            &&& normalizable(x)
            &&& rescaled(x, cfg.rescale_factor) is Some
            &&& normalizable(rescaled(x, cfg.rescale_factor)->0)
        }),
{
    let x = pixel_array(h as int, w as int, depth, data, cfg.color_order)->0;
    crate::shape::broadcast_scalar(x.shape);
    assert(x.shape.last() == 3);
    assert(fits(Seq::<usize>::empty()));
}

/// The array of an image that a model sees: the image resized, as numbers,
/// each times the factor and normalized, as far as `cfg` asks for it.
pub fn preprocess(
    img: &Image,
    cfg: &ImageProcessorConfig,
    horizontal: &[Taps],
    vertical: &[Taps],
) -> (r: Result<Array>)
    ensures
        match r {
            Ok(a) => if cfg.do_resize {
                &&& can_resize(*img, cfg.size, cfg.resample, horizontal@, vertical@)
                &&& prepared(
                    cfg.size.0 as int,
                    cfg.size.1 as int,
                    4,
                    resized(*img, cfg.size, cfg.resample, horizontal@, vertical@),
                    *cfg,
                ) == Some(a@)
            } else {
                prepared(img.h(), img.w(), img.depth(), img.data(), *cfg) == Some(a@)
            },
            Err(Error::ShapeMismatch { .. }) => cfg.do_resize && !can_resize(
                *img,
                cfg.size,
                cfg.resample,
                horizontal@,
                vertical@,
            ),
            Err(Error::Backend { .. }) => if cfg.do_resize {
                can_resize(*img, cfg.size, cfg.resample, horizontal@, vertical@) && prepared(
                    cfg.size.0 as int,
                    cfg.size.1 as int,
                    4,
                    resized(*img, cfg.size, cfg.resample, horizontal@, vertical@),
                    *cfg,
                ) is None
            } else {
                prepared(img.h(), img.w(), img.depth(), img.data(), *cfg) is None
            },
            Err(e) => cfg.do_resize && e is OutOfMemory && can_resize(
                *img,
                cfg.size,
                cfg.resample,
                horizontal@,
                vertical@,
            ),
        },
{
    if cfg.do_resize {
        let small = resize(img, cfg.size, cfg.resample, horizontal, vertical)?;
        prepare(&small, cfg)
    } else {
        prepare(img, cfg)
    }
}

/// The array of an image of the size that a model sees: as numbers, each times
/// the factor and normalized, as far as `cfg` asks for it.
pub fn prepare(img: &Image, cfg: &ImageProcessorConfig) -> (r: Result<Array>)
    ensures
        outcome(r) == prepared(img.h(), img.w(), img.depth(), img.data(), *cfg),
        r is Err ==> r->Err_0 is Backend,
{
    let h: usize = img.height();
    let w: usize = img.width();
    let a = image_to_array(img, cfg.color_order)?;
    proof {
        lemma_prepared_colours(h, w, img.depth(), img.data(), *cfg);
    }
    let b = if cfg.do_rescale {
        rescale(&a, cfg.rescale_factor)?
    } else {
        a
    };
    if cfg.do_normalize {
        normalize(&b, &cfg.mean, &cfg.std)
    } else {
        Ok(b)
    }
}

/// What is prepared of an image has its rows, its columns and three colours
/// in single precision, whatever is asked for, and is refused exactly where an
/// axis is out of range.
pub proof fn prepared_shape(
    h: usize,
    w: usize,
    depth: int,
    data: Seq<u8>,
    cfg: ImageProcessorConfig,
)
    requires
        h * w * 3 <= usize::MAX,
    ensures
        prepared(h as int, w as int, depth, data, cfg) is Some <==> h <= MAX_DIM && w <= MAX_DIM,
        prepared(h as int, w as int, depth, data, cfg) matches Some(x) ==> x.shape == seq![
            h,
            w,
            3usize,
        ] && x.dtype == Dtype::F32,
{
    let s = seq![h, w, 3usize];
    lemma_elements_three(h, w, 3);
    assert(s[0] == h && s[1] == w && s[2] == 3);
    if h <= MAX_DIM && w <= MAX_DIM {
        lemma_prepared_colours(h, w, depth, data, cfg);
        let x = pixel_array(h as int, w as int, depth, data, cfg.color_order)->0;
        crate::shape::broadcast_scalar(x.shape);
        lemma_elements_one(3);
        let three = seq![3usize];
        assert(broadcast(s, three) =~= s);
        assert(broadcastable(s, three));
        assert(fits(three));
    }
}

/// An image set into a square stands in its middle, pixel by pixel.
pub proof fn square_keeps_the_image(img: Image, side: int, fill: Seq<u8>, y: int, x: int, c: int)
    requires
        img.h() <= side,
        img.w() <= side,
        0 <= y < img.h(),
        0 <= x < img.w(),
    ensures
        square_byte(
            img,
            side,
            fill,
            y + (side - img.h()) / 2,
            x + (side - img.w()) / 2,
            c,
        ) == img.at(y, x, c),
{
}

/// What stands around an image that was set into a square is the filling.
pub proof fn square_is_filled_around_the_image(
    img: Image,
    side: int,
    fill: Seq<u8>,
    y: int,
    x: int,
    c: int,
)
    requires
        y < (side - img.h()) / 2 || y >= (side - img.h()) / 2 + img.h() || x < (side - img.w()) / 2
            || x >= (side - img.w()) / 2 + img.w(),
    ensures
        square_byte(img, side, fill, y, x, c) == fill[c],
{
}

/// The square that an image is set into is just large enough.
pub proof fn square_is_just_large_enough(img: Image)
    ensures
        longer_side(img) >= img.h(),
        longer_side(img) >= img.w(),
        longer_side(img) == img.h() || longer_side(img) == img.w(),
{
}

/// An image is cropped exactly where it has more rows and more columns than
/// the target: one that is too small on one axis alone stays whole.
pub proof fn cropping_needs_more_on_both_axes(h: int, w: int, target_h: int, target_w: int)
    ensures
        h > target_h && w > target_w ==> is_cropped(h, w, target_h, target_w),
        h <= target_h ==> !is_cropped(h, w, target_h, target_w),
        w <= target_w ==> !is_cropped(h, w, target_h, target_w),
{
}

/// An image that is given an opacity keeps its colours. It keeps an opacity
/// that it has, and is opaque where it has none.
pub proof fn opacity_leaves_the_colours(img: Image, y: int, x: int, c: int)
    requires
        img.depth() == 3 || img.depth() == 4,
        0 <= y < img.h(),
        0 <= x < img.w(),
        0 <= c < 4,
    ensures
        with_opacity(img).len() == img.h() * img.w() * 4,
        with_opacity(img)[(y * img.w() + x) * 4 + c] == if c < 3 || img.depth() == 4 {
            img.at(y, x, c)
        } else {
            255
        },
{
    lemma_raster_place(img.h(), img.w(), 4, y, x, c);
}

} // verus!
