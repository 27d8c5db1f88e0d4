//! Signal processing: windows, the short-time Fourier transform and its
//! inverse, and mel spectrograms.
//!
//! A spectrum has one row for each frame and `n_fft / 2 + 1` columns, and
//! [`istft`] takes what [`stft`] gives. Windows are symmetric: the first and
//! the last sample are both taken.
use vstd::prelude::*;

use crate::array::{
    bind, filled, leaf, outcome, scalar, views, Array, Op, Tensor, WindowKind,
};
use crate::dtype::Dtype;
use crate::error::{backend, Error, Result};
use crate::ops::arithmetic::{divide, larger, maximum, multiply, product, quotient};
use crate::ops::comparison::{greater, is_greater, select, selection};
use crate::ops::fft::{irfft, rfft, transformed, with_lengths, FftKind, FftNorm};
use crate::ops::indexing::{
    scatter_add_axis, scattered, slice, slice_first, slice_len, slice_len_bound, sliced,
};
use crate::ops::linalg::matrix_product;
use crate::ops::shape::{
    as_strided, broadcast_to, concatenate, concatenated, flatten, flattened, is_position,
    pad_end, padded, reach, reshape_to, reshaped, spread, strided, total_len, transposed,
    view_in_bounds,
};
use crate::ops::unary::{logarithms, magnitudes, squares};
use crate::scalar::{nearest_bits, F32};
use crate::shape::{
    broadcast, broadcast_scalar, broadcast_self, broadcastable, dim_from_end, dims_agree,
    dims_view, elements, fits, lemma_elements_one, lemma_elements_two, MAX_DIM,
};
use crate::text::{
    concat, decimal, decimal_text, lowered, same_text, to_lower, with_number, with_three, with_two,
};

verus! {

/// The most samples that one signal or window may have.
pub const MAX_DECODED_SAMPLES: usize = 0x400_0000;

/// The most additions that one inverse transform may scatter. The length of
/// the signal alone does not bound them: with a small hop there are far more.
pub const MAX_OLA_WORK: usize = 0x400_0000;

/// The number below which a sum of windows counts as zero: `1e-10`.
pub const WINDOW_SUM_FLOOR: u32 = 0x2edb_e6ff;

// ---------------------------------------------------------------------------
// Windows
// ---------------------------------------------------------------------------

/// The window of `n` samples.
pub open spec fn window(kind: WindowKind, n: int) -> Option<Tensor> {
    if 2 <= n <= MAX_DECODED_SAMPLES {
        leaf(Op::Window(kind), seq![n as usize], Dtype::F32, Seq::empty())
    } else {
        None
    }
}

/// The window function of the given name in lower case.
pub open spec fn window_kind(name: Seq<char>) -> Option<WindowKind> {
    if name == "hann"@ || name == "hanning"@ {
        Some(WindowKind::Hann)
    } else if name == "hamming"@ {
        Some(WindowKind::Hamming)
    } else if name == "blackman"@ {
        Some(WindowKind::Blackman)
    } else if name == "bartlett"@ {
        Some(WindowKind::Bartlett)
    } else {
        None
    }
}

/// The window of `n` samples of the given name, in upper or lower case.
pub open spec fn named_window(name: Seq<char>, n: int) -> Option<Tensor> {
    match window_kind(lowered(name)) {
        Some(kind) => window(kind, n),
        None => None,
    }
}

/// What a window function is called.
pub open spec fn window_name(kind: WindowKind) -> Seq<char> {
    match kind {
        WindowKind::Hann => "hann_window"@,
        WindowKind::Hamming => "hamming"@,
        WindowKind::Blackman => "blackman"@,
        WindowKind::Bartlett => "bartlett"@,
    }
}

/// Why there is no window of `n` samples, if there is none.
pub open spec fn window_refusal(kind: WindowKind, n: nat) -> Option<Seq<char>> {
    if n < 2 {
        Some(window_name(kind) + ": n must be >= 2 (got "@ + decimal(n) + ")"@)
    } else if n > MAX_DECODED_SAMPLES {
        Some(
            window_name(kind) + ": n "@ + decimal(n) + " exceeds the "@ + decimal(
                MAX_DECODED_SAMPLES as nat,
            ) + " cap"@,
        )
    } else {
        None
    }
}

/// Why there is no window of `n` samples of the given name, if there is none.
pub open spec fn named_window_refusal(name: Seq<char>, n: nat) -> Option<Seq<char>> {
    match window_kind(lowered(name)) {
        Some(kind) => window_refusal(kind, n),
        None => Some("window_from_name: unknown window function: "@ + lowered(name)),
    }
}

fn symmetric_window(name: &str, kind: WindowKind, n: usize) -> (r: Result<Array>)
    requires
        name@ == window_name(kind),
    ensures
        outcome(r) == window(kind, n as int),
        r is Err ==> r->Err_0 is Backend && window_refusal(kind, n as nat) == Some(
            r->Err_0.text(),
        ),
{
    if n < 2 {
        let start = concat(name, ": n must be >= 2 (got ");
        return Err(backend(with_number(start.as_str(), n, ")").as_str()));
    }
    if n > MAX_DECODED_SAMPLES {
        let start = concat(name, ": n ");
        let text = with_two(start.as_str(), n, " exceeds the ", MAX_DECODED_SAMPLES, " cap");
        return Err(backend(text.as_str()));
    }
    proof {
        window_exists(kind, n as int);
    }
    let mut shape: Vec<usize> = Vec::new();
    shape.push(n);
    assert(shape@ =~= seq![n]);
    Array::build_leaf(Op::Window(kind), shape, Dtype::F32, Vec::new())
}

/// Every window within the cap exists: a window is refused only for its
/// length.
pub proof fn window_exists(kind: WindowKind, n: int)
    ensures
        window(kind, n) is Some <==> 2 <= n <= MAX_DECODED_SAMPLES,
        window(kind, n) is Some ==> window(kind, n)->0.shape == seq![n as usize],
{
    if 2 <= n <= MAX_DECODED_SAMPLES {
        lemma_elements_one(n as usize);
    }
}

/// The symmetric Hann window `0.5 * (1 - cos(2 pi k / (n - 1)))`, refused for
/// fewer than two samples and beyond the cap.
pub fn hann_window(n: usize) -> (r: Result<Array>)
    ensures
        outcome(r) == window(WindowKind::Hann, n as int),
        r is Err ==> r->Err_0 is Backend && window_refusal(WindowKind::Hann, n as nat) == Some(
            r->Err_0.text(),
        ),
{
    symmetric_window("hann_window", WindowKind::Hann, n)
}

/// The symmetric Hamming window `0.54 - 0.46 * cos(2 pi k / (n - 1))`.
pub fn hamming(n: usize) -> (r: Result<Array>)
    ensures
        outcome(r) == window(WindowKind::Hamming, n as int),
        r is Err ==> r->Err_0 is Backend && window_refusal(WindowKind::Hamming, n as nat) == Some(
            r->Err_0.text(),
        ),
{
    symmetric_window("hamming", WindowKind::Hamming, n)
}

/// The symmetric Blackman window
/// `0.42 - 0.5 * cos(2 pi k / (n - 1)) + 0.08 * cos(4 pi k / (n - 1))`.
pub fn blackman(n: usize) -> (r: Result<Array>)
    ensures
        outcome(r) == window(WindowKind::Blackman, n as int),
        r is Err ==> r->Err_0 is Backend && window_refusal(WindowKind::Blackman, n as nat) == Some(
            r->Err_0.text(),
        ),
{
    symmetric_window("blackman", WindowKind::Blackman, n)
}

/// The symmetric Bartlett window `1 - 2 * |k - (n - 1) / 2| / (n - 1)`.
pub fn bartlett(n: usize) -> (r: Result<Array>)
    ensures
        outcome(r) == window(WindowKind::Bartlett, n as int),
        r is Err ==> r->Err_0 is Backend && window_refusal(WindowKind::Bartlett, n as nat) == Some(
            r->Err_0.text(),
        ),
{
    symmetric_window("bartlett", WindowKind::Bartlett, n)
}

/// The window of `n` samples of the given name; upper and lower case are the
/// same.
pub fn window_from_name(name: &str, n: usize) -> (r: Result<Array>)
    ensures
        outcome(r) == named_window(name@, n as int),
        r is Err ==> r->Err_0 is Backend && named_window_refusal(name@, n as nat) == Some(
            r->Err_0.text(),
        ),
{
    let lower = to_lower(name);
    let key = lower.as_str();
    if same_text(key, "hann") || same_text(key, "hanning") {
        hann_window(n)
    } else if same_text(key, "hamming") {
        hamming(n)
    } else if same_text(key, "blackman") {
        blackman(n)
    } else if same_text(key, "bartlett") {
        bartlett(n)
    } else {
        let text = concat("window_from_name: unknown window function: ", key);
        Err(backend(text.as_str()))
    }
}

// ---------------------------------------------------------------------------
// Reflection
// ---------------------------------------------------------------------------

/// Where a downward slice of `len` elements stops so that its last element is
/// the one at `len - padding - 1`.
pub open spec fn suffix_stop(len: int, padding: int) -> int {
    if padding + 1 < len {
        len - padding - 2
    } else {
        -(len + 1)
    }
}

/// The signal `x` with `padding` mirrored samples before and after it; the
/// first and the last sample are not repeated.
pub open spec fn reflect_padded(x: Tensor, padding: nat) -> Option<Tensor> {
    if padding == 0 {
        Some(x)
    } else if x.shape.len() == 1 && padding < x.shape[0] {
        let len = x.shape[0] as int;
        bind(
            sliced(x, padding as int, 0, -1),
            |prefix: Tensor|
                bind(
                    sliced(x, len - 2, suffix_stop(len, padding as int), -1),
                    |suffix: Tensor| concatenated(seq![prefix, x, suffix]),
                ),
        )
    } else {
        None
    }
}

pub(crate) proof fn lemma_prefix_slice(len: int, padding: int)
    requires
        0 < padding < len,
    ensures
        slice_first(len, padding, -1) == padding,
        slice_len(len, padding, 0, -1) == padding,
{
    slice_len_bound(len, padding, 0, -1);
}

pub(crate) proof fn lemma_suffix_slice(len: int, padding: int)
    requires
        0 < padding < len,
    ensures
        slice_first(len, len - 2, -1) == len - 2,
        slice_len(len, len - 2, suffix_stop(len, padding), -1) == padding,
{
    slice_len_bound(len, len - 2, suffix_stop(len, padding), -1);
}

/// Padding by reflection adds `padding` samples at each end, and is refused
/// exactly for a signal of more than one axis, for one with no more samples
/// than the padding, and where the length is out of range.
pub proof fn reflect_padded_len(x: Tensor, padding: nat)
    requires
        fits(x.shape),
    ensures
        padding > 0 ==> (reflect_padded(x, padding) is Some <==> x.shape.len() == 1 && padding
            < x.shape[0] && x.shape[0] + 2 * padding <= MAX_DIM),
        reflect_padded(x, padding) is Some && padding > 0 ==> reflect_padded(x, padding)->0.shape
            == seq![(x.shape[0] + 2 * padding) as usize],
{
    if padding > 0 && x.shape.len() == 1 && padding < x.shape[0] {
        let len = x.shape[0] as int;
        lemma_prefix_slice(len, padding as int);
        lemma_suffix_slice(len, padding as int);
        lemma_elements_one(padding as usize);
        let prefix = sliced(x, padding as int, 0, -1)->0;
        let suffix = sliced(x, len - 2, suffix_stop(len, padding as int), -1)->0;
        let args = seq![prefix, x, suffix];
        lemma_total_of_three(prefix, x, suffix);
        if total_len(args) <= MAX_DIM {
            lemma_elements_one(total_len(args) as usize);
            assert forall|i: int| 0 <= i < args.len() implies (#[trigger] args[i]).shape.len()
                == 1 by {}
        }
    }
}

proof fn lemma_total_of_three(a: Tensor, b: Tensor, c: Tensor)
    ensures
        total_len(seq![a, b, c]) == a.shape[0] + b.shape[0] + c.shape[0],
{
    let s = seq![a, b, c];
    reveal_with_fuel(total_len, 4);
    assert(s.drop_last() =~= seq![a, b]);
    assert(seq![a, b].drop_last() =~= seq![a]);
    assert(seq![a].drop_last() =~= Seq::<Tensor>::empty());
}

/// The position mirrored at the ends of `len` samples, neither end repeated.
pub open spec fn mirrored(i: int, len: int) -> int {
    if i < 0 {
        -i
    } else if i >= len {
        2 * (len - 1) - i
    } else {
        i
    }
}

/// The sample of `x` at the position `i` of a signal put together out of
/// downward slices of `x` and `x` itself.
pub open spec fn origin(t: Tensor, x: Tensor, i: int) -> int
    decreases t,
{
    if t == x {
        i
    } else if t.op == Op::Slice && t.args.len() == 1 {
        origin(
            t.args[0],
            x,
            slice_first(t.args[0].shape[0] as int, t.params[0] as int, t.params[2] as int) + i
                * t.params[2],
        )
    } else if t.op == Op::Concatenate && t.args.len() == 3 {
        let a = t.args[0].shape[0] as int;
        let b = t.args[1].shape[0] as int;
        if i < a {
            origin(t.args[0], x, i)
        } else if i < a + b {
            origin(t.args[1], x, i - a)
        } else {
            origin(t.args[2], x, i - a - b)
        }
    } else {
        i
    }
}

/// Padding by reflection mirrors: the sample `i` of the padded signal is the
/// sample of the signal at `i - padding` mirrored at the ends.
pub proof fn reflect_padding_mirrors(x: Tensor, padding: nat, i: int)
    requires
        fits(x.shape),
        padding > 0,
        reflect_padded(x, padding) is Some,
        0 <= i < x.shape[0] + 2 * padding,
    ensures
        origin(reflect_padded(x, padding)->0, x, i) == mirrored(i - padding, x.shape[0] as int),
        0 <= mirrored(i - padding, x.shape[0] as int) < x.shape[0],
{
    reflect_padded_len(x, padding);
    let len = x.shape[0] as int;
    lemma_prefix_slice(len, padding as int);
    lemma_suffix_slice(len, padding as int);
    let prefix = sliced(x, padding as int, 0, -1)->0;
    let suffix = sliced(x, len - 2, suffix_stop(len, padding as int), -1)->0;
    let t = reflect_padded(x, padding)->0;
    assert(prefix.args[0] == x && suffix.args[0] == x);
    assert(t.args =~= seq![prefix, x, suffix]);
    reveal_with_fuel(origin, 3);
    assert(t.shape[0] != x.shape[0]);
    if i < padding {
        if prefix == x {
            lemma_not_own_operand(x);
        }
        let down = prefix.params[2] as int;
        assert(i * down == -i) by (nonlinear_arith)
            requires
                down == -1,
        ;
        assert(origin(prefix, x, i) == padding - i);
    } else if i < padding + len {
        assert(origin(x, x, i - padding) == i - padding);
    } else {
        if suffix == x {
            lemma_not_own_operand(x);
        }
        let down = suffix.params[2] as int;
        let k = i - padding - len;
        assert(k * down == -k) by (nonlinear_arith)
            requires
                down == -1,
        ;
        assert(origin(suffix, x, i - padding - len) == len - 2 - (i - padding - len));
    }
}

proof fn lemma_not_own_operand(x: Tensor)
    requires
        x.args.len() == 1,
    ensures
        x.args[0] != x,
{
    assert(decreases_to!(x => x.args));
    assert(decreases_to!(x.args => x.args[0]));
}

/// Why a signal is not mirrored at its ends, where that lies in its shape.
pub open spec fn reflect_refusal(shape: Seq<usize>, padding: nat) -> Option<Seq<char>> {
    if padding == 0 {
        None
    } else if shape.len() != 1 {
        Some("reflect_pad_1d: expected 1-D input, got "@ + decimal(shape.len()) + "-D"@)
    } else if shape[0] <= padding {
        Some(
            "reflect_pad_1d: samples len "@ + decimal(shape[0] as nat)
                + " too short for reflect padding "@ + decimal(padding)
                + " (need len >= padding + 1)"@,
        )
    } else {
        None
    }
}

/// The signal with `padding` mirrored samples before and after it.
pub fn reflect_pad_1d(samples: &Array, padding: usize) -> (r: Result<Array>)
    ensures
        outcome(r) == reflect_padded(samples@, padding as nat),
        r is Err ==> r->Err_0 is Backend,
        reflect_refusal(samples@.shape, padding as nat) matches Some(text) ==> r is Err
            && r->Err_0.text() == text,
{
    if padding == 0 {
        return samples.try_clone();
    }
    let shape = samples.dims();
    if shape.len() != 1 {
        let text = with_number("reflect_pad_1d: expected 1-D input, got ", shape.len(), "-D");
        return Err(backend(text.as_str()));
    }
    let len: usize = shape[0];
    if len <= padding {
        let text = with_two(
            "reflect_pad_1d: samples len ",
            len,
            " too short for reflect padding ",
            padding,
            " (need len >= padding + 1)",
        );
        return Err(backend(text.as_str()));
    }
    let p: i32 = padding as i32;
    let n: i32 = len as i32;
    let prefix = slice(samples, p, 0, -1)?;
    let stop: i32 = if padding < len - 1 {
        n - p - 2
    } else {
        -n - 1
    };
    let suffix = slice(samples, n - 2, stop, -1)?;
    let mut parts: Vec<Array> = Vec::new();
    parts.push(prefix);
    parts.push(samples.dup());
    parts.push(suffix);
    assert(views(parts@) =~= seq![prefix@, samples@, suffix@]);
    concatenate(parts)
}

// ---------------------------------------------------------------------------
// Short-time Fourier transform
// ---------------------------------------------------------------------------

/// How many frames of `n_fft` samples begin `hop` apart in `len` samples.
pub open spec fn frame_count(len: int, n_fft: int, hop: int) -> int {
    1 + (len - n_fft) / hop
}

/// A window brought to `n_fft` samples by zeros behind it.
pub open spec fn widened_window(w: Tensor, win_length: nat, n_fft: nat) -> Option<Tensor> {
    if win_length < n_fft {
        padded(w, (n_fft - win_length) as nat)
    } else {
        Some(w)
    }
}

/// The frames of the padded signal `x`, as a view: frame `i` is the `n_fft`
/// samples from `i * hop` on.
pub open spec fn framed(x: Tensor, n_fft: nat, hop: nat) -> Option<Tensor> {
    if x.shape[0] >= n_fft && hop <= i64::MAX {
        strided(
            x,
            seq![frame_count(x.shape[0] as int, n_fft as int, hop as int) as usize, n_fft as usize],
            seq![hop as i64, 1i64],
            0,
        )
    } else {
        None
    }
}

/// The short-time Fourier transform of a signal: its frames, each times the
/// Hann window, transformed.
#[verifier::opaque]
pub open spec fn stft_of(x: Tensor, n_fft: nat, hop: nat, win_length: Option<usize>) -> Option<
    Tensor,
> {
    let win = match win_length {
        Some(w) => w as nat,
        None => n_fft,
    };
    if n_fft == 0 || hop == 0 || win == 0 || win > n_fft || x.shape.len() != 1 {
        None
    } else {
        bind(
            bind(window(WindowKind::Hann, win as int), |w: Tensor| widened_window(w, win, n_fft)),
            |w: Tensor|
                bind(
                    reflect_padded(x, n_fft / 2),
                    |p: Tensor|
                        bind(
                            framed(p, n_fft, hop),
                            |f: Tensor|
                                bind(
                                    product(f, w),
                                    |y: Tensor|
                                        transformed(
                                            FftKind::Real,
                                            FftNorm::Backward,
                                            y,
                                            seq![n_fft as i32],
                                            seq![1i32],
                                        ),
                                ),
                        ),
                ),
        )
    }
}

/// Every element of the frames is a sample: the last frame ends within the
/// signal.
pub proof fn frames_in_bounds(len: int, n_fft: int, hop: int)
    requires
        0 < n_fft <= len <= MAX_DIM,
        0 < hop <= i64::MAX,
    ensures
        1 <= frame_count(len, n_fft, hop) <= len - n_fft + 1,
        (frame_count(len, n_fft, hop) - 1) * hop + n_fft <= len,
        view_in_bounds(
            len as nat,
            seq![frame_count(len, n_fft, hop) as usize, n_fft as usize],
            seq![hop as i64, 1i64],
            0,
        ),
{
    let last = (len - n_fft) / hop;
    assert(0 <= last <= len - n_fft && last * hop <= len - n_fft) by (nonlinear_arith)
        requires
            last == (len - n_fft) / hop,
            hop >= 1,
            len >= n_fft,
    ;
    let shape = seq![frame_count(len, n_fft, hop) as usize, n_fft as usize];
    let strides = seq![hop as i64, 1i64];
    assert forall|idx: Seq<int>| #[trigger] is_position(idx, shape) implies 0 <= 0 + reach(
        idx,
        strides,
    ) < len by {
        reveal_with_fuel(reach, 3);
        assert(0 <= idx[0] < shape[0] && 0 <= idx[1] < shape[1]);
        assert(idx.drop_last() =~= seq![idx[0]]);
        assert(strides.drop_last() =~= seq![hop as i64]);
        assert(seq![idx[0]].drop_last() =~= Seq::<int>::empty());
        let i = idx[0];
        let j = idx[1];
        assert(reach(Seq::<int>::empty(), Seq::<i64>::empty()) == 0);
        assert(reach(seq![i], seq![hop as i64]) == i * hop) by {
            assert(seq![hop as i64].drop_last() =~= Seq::<i64>::empty());
            assert(seq![i].last() == i && seq![hop as i64].last() == hop);
        }
        let unit = strides.last() as int;
        assert(j * unit == j) by (nonlinear_arith)
            requires
                unit == 1,
        ;
        assert(reach(idx, strides) == i * hop + j);
        assert(0 <= i * hop <= last * hop) by (nonlinear_arith)
            requires
                0 <= i <= last,
                hop >= 1,
        ;
    }
}

/// Why there is no transform, where that lies in the settings or in the shape
/// of the signal.
pub open spec fn stft_refusal(
    shape: Seq<usize>,
    n_fft: nat,
    hop: nat,
    win_length: Option<usize>,
) -> Option<Seq<char>> {
    let win = match win_length {
        Some(w) => w as nat,
        None => n_fft,
    };
    if n_fft == 0 {
        Some("stft: n_fft must be > 0"@)
    } else if hop == 0 {
        Some("stft: hop_length must be > 0"@)
    } else if win == 0 {
        Some("stft: win_length must be > 0"@)
    } else if win > n_fft {
        Some(
            "stft: win_length "@ + decimal(win) + " > n_fft "@ + decimal(n_fft)
                + " (unsupported)"@,
        )
    } else if shape.len() != 1 {
        Some("stft: expected 1-D input, got "@ + decimal(shape.len()) + "-D"@)
    } else if window_refusal(WindowKind::Hann, win) is Some {
        window_refusal(WindowKind::Hann, win)
    } else if n_fft - win > i32::MAX {
        Some("stft: window pad "@ + decimal((n_fft - win) as nat) + " exceeds i32::MAX"@)
    } else {
        None
    }
}

/// The short-time Fourier transform of a one-axis signal, with the signal
/// reflected by `n_fft / 2` samples at each end and a Hann window of
/// `win_length` samples, `n_fft` where none is given.
pub fn stft(samples: &Array, n_fft: usize, hop_length: usize, win_length: Option<usize>) -> (r:
    Result<Array>)
    ensures
        outcome(r) == stft_of(samples@, n_fft as nat, hop_length as nat, win_length),
        r is Err ==> r->Err_0 is Backend,
        stft_refusal(samples@.shape, n_fft as nat, hop_length as nat, win_length) matches Some(
            text,
        ) ==> r is Err && r->Err_0.text() == text,
{
    proof {
        reveal(stft_of);
    }
    if n_fft == 0 {
        return Err(backend("stft: n_fft must be > 0"));
    }
    if hop_length == 0 {
        return Err(backend("stft: hop_length must be > 0"));
    }
    let win: usize = match win_length {
        Some(w) => w,
        None => n_fft,
    };
    if win == 0 {
        return Err(backend("stft: win_length must be > 0"));
    }
    if win > n_fft {
        let text = with_two("stft: win_length ", win, " > n_fft ", n_fft, " (unsupported)");
        return Err(backend(text.as_str()));
    }
    if samples.dims().len() != 1 {
        let text = with_number("stft: expected 1-D input, got ", samples.dims().len(), "-D");
        return Err(backend(text.as_str()));
    }
    let window = match hann_window(win) {
        Ok(w) => w,
        Err(e) => {
            return Err(e);
        },
    };
    proof {
        window_exists(WindowKind::Hann, win as int);
    }
    if n_fft - win > MAX_DIM {
        let text = with_number("stft: window pad ", n_fft - win, " exceeds i32::MAX");
        return Err(backend(text.as_str()));
    }
    let window = if win < n_fft {
        pad_end(&window, n_fft - win)?
    } else {
        window
    };
    proof {
        window_exists(WindowKind::Hann, win as int);
    }
    assert(n_fft <= MAX_DIM);
    let padded = reflect_pad_1d(samples, n_fft / 2)?;
    proof {
        reflect_padded_len(samples@, n_fft as nat / 2);
    }
    let padded_len: usize = padded.dims()[0];
    if padded_len < n_fft {
        let text = with_two(
            "stft: input is too short (padded_len=",
            padded_len,
            ") for n_fft=",
            n_fft,
            " (need padded_len >= n_fft)",
        );
        return Err(backend(text.as_str()));
    }
    if hop_length as u64 > i64::MAX as u64 {
        let text = with_number("stft: hop_length ", hop_length, " exceeds i64::MAX");
        return Err(backend(text.as_str()));
    }
    let num_frames: usize = 1 + (padded_len - n_fft) / hop_length;
    proof {
        frames_in_bounds(padded_len as int, n_fft as int, hop_length as int);
        lemma_elements_one(padded_len);
    }
    let mut dims: Vec<i32> = Vec::new();
    dims.push(num_frames as i32);
    dims.push(n_fft as i32);
    let mut strides: Vec<i64> = Vec::new();
    strides.push(hop_length as i64);
    strides.push(1);
    proof {
        assert(dims_view(dims@) =~= seq![num_frames, n_fft]);
        assert(strides@ =~= seq![hop_length as i64, 1i64]);
        assert(padded@.shape =~= seq![padded_len]);
    }
    let frames = as_strided(&padded, &dims, &strides, 0)?;
    let windowed = multiply(&frames, &window)?;
    rfft(&windowed, n_fft as i32, 1, FftNorm::Backward)
}

/// The transform has one row for each frame and `n_fft / 2 + 1` columns, and
/// is refused exactly where one of its lengths is out of range: a window of
/// fewer than two samples or wider than the frame or the cap, a signal with no
/// more than `n_fft / 2` samples, or a result too large to name.
pub proof fn stft_shape(x: Tensor, n_fft: nat, hop: nat, win_length: Option<usize>)
    requires
        fits(x.shape),
        n_fft <= usize::MAX,
        hop <= usize::MAX,
    ensures
        ({
            let win = match win_length {
                Some(w) => w as nat,
                None => n_fft,
            };
            let len = x.shape[0] + 2 * (n_fft / 2);
            let frames = frame_count(len as int, n_fft as int, hop as int);
            let admitted = {
                &&& 0 < hop <= i64::MAX
                &&& 2 <= win <= n_fft
                &&& win <= MAX_DECODED_SAMPLES
                &&& n_fft <= MAX_DIM
                &&& x.shape.len() == 1
                &&& n_fft / 2 < x.shape[0]
                &&& len <= MAX_DIM
                &&& frames * n_fft <= usize::MAX
            };
            &&& stft_of(x, n_fft, hop, win_length) is Some <==> admitted
            &&& stft_of(x, n_fft, hop, win_length) is Some ==> stft_of(
                x,
                n_fft,
                hop,
                win_length,
            )->0.shape == seq![frames as usize, (n_fft / 2 + 1) as usize]
            &&& stft_of(x, n_fft, hop, win_length) is Some ==> stft_of(
                x,
                n_fft,
                hop,
                win_length,
            )->0.dtype == Dtype::Complex64
        }),
{
    reveal(stft_of);
    let win = match win_length {
        Some(w) => w as nat,
        None => n_fft,
    };
    if n_fft == 0 || hop == 0 || win == 0 || win > n_fft || x.shape.len() != 1 {
        return ;
    }
    window_exists(WindowKind::Hann, win as int);
    reflect_padded_len(x, n_fft / 2);
    if !(2 <= win <= MAX_DECODED_SAMPLES) {
        return ;
    }
    let w = window(WindowKind::Hann, win as int)->0;
    if n_fft > MAX_DIM {
        return ;
    }
    lemma_elements_one(n_fft as usize);
    let w2 = widened_window(w, win, n_fft)->0;
    assert(w2.shape =~= seq![n_fft as usize]);
    if reflect_padded(x, n_fft / 2) is None || hop > i64::MAX {
        return ;
    }
    let p = reflect_padded(x, n_fft / 2)->0;
    let len = p.shape[0] as int;
    frames_in_bounds(len, n_fft as int, hop as int);
    let frames = frame_count(len, n_fft as int, hop as int);
    lemma_elements_two(frames as usize, n_fft as usize);
    let shape = seq![frames as usize, n_fft as usize];
    if !(frames * n_fft <= usize::MAX) {
        return ;
    }
    let f = framed(p, n_fft, hop)->0;
    assert(broadcastable(shape, w2.shape));
    assert(broadcast(shape, w2.shape) =~= shape);
    let y = product(f, w2)->0;
    reveal_with_fuel(with_lengths, 2);
    let bins = n_fft / 2 + 1;
    lemma_elements_two(frames as usize, bins as usize);
    assert(frames * bins <= frames * n_fft) by (nonlinear_arith)
        requires
            bins <= n_fft,
            frames >= 0,
    ;
    let z = transformed(FftKind::Real, FftNorm::Backward, y, seq![n_fft as i32], seq![1i32]);
    assert(y.shape.update(1, n_fft as usize).update(1, bins as usize) =~= seq![
        frames as usize,
        bins as usize,
    ]);
}

// ---------------------------------------------------------------------------
// Inverse short-time Fourier transform
// ---------------------------------------------------------------------------

/// The synthesis window of an inverse transform.
#[derive(Clone, Copy, Debug)]
pub enum Window<'a> {
    /// A window function by its name, in upper or lower case, in its periodic
    /// form: one sample more than needed, without the last.
    Named(&'a str),
    /// A given window, followed by zeros where it is shorter.
    Array(&'a Array),
}

/// The synthesis window before it is brought to its length.
pub open spec fn synthesis_window(w: Window, win: nat) -> Option<Tensor> {
    match w {
        Window::Named(name) => bind(
            named_window(name@, win as int + 1),
            |full: Tensor| sliced(full, 0, win as int, 1),
        ),
        Window::Array(a) => if a@.shape.len() == 1 {
            Some(a@)
        } else {
            None
        },
    }
}

/// The synthesis window of `n_fft` samples: brought to `win` samples and then
/// to `n_fft` by zeros behind it.
#[verifier::opaque]
pub open spec fn full_window(w: Window, win: nat, n_fft: nat) -> Option<Tensor> {
    bind(
        bind(
            synthesis_window(w, win),
            |v: Tensor|
                if v.shape[0] < win {
                    padded(v, (win - v.shape[0]) as nat)
                } else {
                    Some(v)
                },
        ),
        |v: Tensor| widened_window(v, win, n_fft),
    )
}

/// The positions to which the samples of the frames are added: sample `j` of
/// frame `m` goes to `m * hop + j`.
pub open spec fn overlap_positions(frames: nat, n_fft: nat, hop: nat) -> Seq<u64> {
    Seq::new(frames * n_fft, |k: int| (k / n_fft as int * hop + k % n_fft as int) as u64)
}

/// The positions as an array.
pub open spec fn position_array(frames: nat, n_fft: nat, hop: nat) -> Option<Tensor> {
    leaf(
        Op::Data,
        seq![(frames * n_fft) as usize],
        Dtype::I32,
        overlap_positions(frames, n_fft, hop),
    )
}

/// `updates` added into `t` zeros at the overlapping positions.
pub open spec fn overlap_added(
    updates: Tensor,
    t: nat,
    frames: nat,
    n_fft: nat,
    hop: nat,
) -> Option<Tensor> {
    bind(
        position_array(frames, n_fft, hop),
        |idx: Tensor|
            bind(filled(seq![t as usize], F32::zero()), |z: Tensor| scattered(z, idx, updates)),
    )
}

/// The window, squared where the inverse is to be normalized, once for each
/// frame.
pub open spec fn window_updates(w: Tensor, frames: nat, n_fft: nat, normalized: bool) -> Option<
    Tensor,
> {
    bind(
        if normalized {
            product(w, w)
        } else {
            Some(w)
        },
        |v: Tensor|
            bind(
                reshaped(v, seq![1usize, n_fft as usize]),
                |row: Tensor|
                    bind(
                        spread(row, seq![frames as usize, n_fft as usize]),
                        |tiled: Tensor| flattened(tiled),
                    ),
            ),
    )
}

/// The overlapping sum divided by the sum of the windows, where that is not
/// zero.
pub open spec fn normalized_by(sum: Tensor, windows: Tensor) -> Option<Tensor> {
    bind(
        is_greater(windows, scalar(F32::from_bits(WINDOW_SUM_FLOOR))),
        |mask: Tensor| bind(quotient(sum, windows), |q: Tensor| selection(mask, q, sum)),
    )
}

/// The signal without what the centring added, `length` samples of it where
/// given.
#[verifier::opaque]
pub open spec fn trimmed_signal(
    y: Tensor,
    t: nat,
    pad: nat,
    center: bool,
    length: Option<usize>,
) -> Option<Tensor> {
    match length {
        Some(n) => {
            let start = if center {
                pad as int
            } else {
                0
            };
            if start + n <= t {
                sliced(y, start, start + n, 1)
            } else {
                None
            }
        },
        None => if center {
            sliced(y, pad as int, t - pad, 1)
        } else {
            Some(y)
        },
    }
}

/// The number of samples that `frames` overlapping frames cover.
pub open spec fn overlap_len(frames: nat, n_fft: nat, hop: nat) -> nat {
    ((frames - 1) * hop + n_fft) as nat
}

/// The frames of the spectrum `x` back in time, each times the window `v`, in
/// one axis.
pub open spec fn frame_updates(x: Tensor, v: Tensor, n_fft: nat) -> Option<Tensor> {
    bind(
        bind(
            transformed(
                FftKind::InverseReal,
                FftNorm::Backward,
                x,
                seq![n_fft as i32],
                seq![1i32],
            ),
            |f: Tensor| product(f, v),
        ),
        |f: Tensor| flattened(f),
    )
}

/// The overlapping sum of the frames of the spectrum `x` under the window `v`,
/// divided by that of the windows.
#[verifier::opaque]
pub open spec fn reconstruction(
    x: Tensor,
    v: Tensor,
    frames: nat,
    n_fft: nat,
    hop: nat,
    normalized: bool,
) -> Option<Tensor> {
    let t = overlap_len(frames, n_fft, hop);
    bind(
        bind(
            frame_updates(x, v, n_fft),
            |updates: Tensor| overlap_added(updates, t, frames, n_fft, hop),
        ),
        |sum: Tensor|
            bind(
                bind(
                    window_updates(v, frames, n_fft, normalized),
                    |u: Tensor| overlap_added(u, t, frames, n_fft, hop),
                ),
                |windows: Tensor| normalized_by(sum, windows),
            ),
    )
}

/// The signal of a spectrum by overlapping addition.
#[verifier::opaque]
pub open spec fn istft_of(
    x: Tensor,
    hop_length: Option<usize>,
    win_length: Option<usize>,
    w: Window,
    center: bool,
    length: Option<usize>,
    normalized: bool,
) -> Option<Tensor> {
    if x.shape.len() != 2 || x.shape[1] < 2 || x.shape[0] == 0 {
        None
    } else {
        let frames = x.shape[0] as nat;
        let n_fft = 2 * (x.shape[1] - 1) as nat;
        let win = match win_length {
            Some(n) => n as nat,
            None => n_fft,
        };
        let hop = match hop_length {
            Some(n) => n as nat,
            None => win / 4,
        };
        let t = overlap_len(frames, n_fft, hop);
        if win == 0 || win > n_fft || hop == 0 || t > MAX_DECODED_SAMPLES || frames * n_fft
            > MAX_OLA_WORK {
            None
        } else {
            bind(
                full_window(w, win, n_fft),
                |v: Tensor|
                    bind(
                        reconstruction(x, v, frames, n_fft, hop, normalized),
                        |y: Tensor| trimmed_signal(y, t, n_fft / 2, center, length),
                    ),
            )
        }
    }
}

/// Every position is within the signal: no addition goes astray.
pub proof fn overlap_positions_in_bounds(frames: nat, n_fft: nat, hop: nat, k: int)
    requires
        frames >= 1,
        n_fft >= 1,
        overlap_len(frames, n_fft, hop) <= u64::MAX,
        0 <= k < frames * n_fft,
    ensures
        overlap_positions(frames, n_fft, hop)[k] < overlap_len(frames, n_fft, hop),
{
    let m = k / n_fft as int;
    let j = k % n_fft as int;
    assert(0 <= m < frames) by (nonlinear_arith)
        requires
            m == k / n_fft as int,
            0 <= k < frames * n_fft,
            n_fft >= 1,
    ;
    assert(0 <= m * hop <= (frames - 1) * hop) by (nonlinear_arith)
        requires
            0 <= m <= frames - 1,
            hop >= 0,
    ;
}

/// Each sample of each frame is added exactly once: the position of sample `j`
/// of frame `m` stands at `m * n_fft + j`.
pub proof fn overlap_positions_by_frame(frames: nat, n_fft: nat, hop: nat, m: int, j: int)
    requires
        n_fft >= 1,
        overlap_len(frames, n_fft, hop) <= u64::MAX,
        0 <= m < frames,
        0 <= j < n_fft,
    ensures
        0 <= m * n_fft + j < frames * n_fft,
        overlap_positions(frames, n_fft, hop)[m * n_fft + j] == m * hop + j,
{
    let k = m * n_fft + j;
    assert(0 <= k < frames * n_fft) by (nonlinear_arith)
        requires
            k == m * n_fft + j,
            0 <= m < frames,
            0 <= j < n_fft,
    ;
    vstd::arithmetic::div_mod::lemma_fundamental_div_mod_converse(k, n_fft as int, m, j);
    assert(0 <= m * hop <= (frames - 1) * hop) by (nonlinear_arith)
        requires
            0 <= m <= frames - 1,
            hop >= 0,
    ;
}

fn build_positions(frames: usize, n_fft: usize, hop: usize) -> (r: Result<Array>)
    requires
        frames >= 1,
        n_fft >= 1,
        frames * n_fft <= MAX_OLA_WORK,
        overlap_len(frames as nat, n_fft as nat, hop as nat) <= MAX_DECODED_SAMPLES,
    ensures
        outcome(r) == position_array(frames as nat, n_fft as nat, hop as nat),
        r is Err ==> r->Err_0 is Backend,
{
    let ghost all = overlap_positions(frames as nat, n_fft as nat, hop as nat);
    let mut bits: Vec<u64> = Vec::new();
    let mut m: usize = 0;
    proof {
        assert(frames * n_fft >= 0) by (nonlinear_arith)
            requires
                frames >= 1,
                n_fft >= 1,
        ;
    }
    while m < frames
        invariant
            0 <= m <= frames,
            n_fft >= 1,
            frames * n_fft <= MAX_OLA_WORK,
            overlap_len(frames as nat, n_fft as nat, hop as nat) <= MAX_DECODED_SAMPLES,
            all == overlap_positions(frames as nat, n_fft as nat, hop as nat),
            bits@.len() == m * n_fft,
            forall|k: int| 0 <= k < m * n_fft ==> bits@[k] == all[k],
        decreases frames - m,
    {
        proof {
            overlap_positions_by_frame(frames as nat, n_fft as nat, hop as nat, m as int, 0);
            assert(m * hop <= (frames - 1) * hop) by (nonlinear_arith)
                requires
                    m <= frames - 1,
                    hop >= 0,
            ;
            assert(m * hop >= 0) by (nonlinear_arith)
                requires
                    m >= 0,
                    hop >= 0,
            ;
        }
        let off: u64 = (m * hop) as u64;
        let mut j: usize = 0;
        while j < n_fft
            invariant
                0 <= m < frames,
                0 <= j <= n_fft,
                n_fft >= 1,
                off == m * hop,
                off + n_fft <= MAX_DECODED_SAMPLES,
                frames * n_fft <= MAX_OLA_WORK,
                overlap_len(frames as nat, n_fft as nat, hop as nat) <= MAX_DECODED_SAMPLES,
                all == overlap_positions(frames as nat, n_fft as nat, hop as nat),
                bits@.len() == m * n_fft + j,
                forall|k: int| 0 <= k < m * n_fft + j ==> bits@[k] == all[k],
            decreases n_fft - j,
        {
            proof {
                overlap_positions_by_frame(
                    frames as nat,
                    n_fft as nat,
                    hop as nat,
                    m as int,
                    j as int,
                );
            }
            bits.push(off + j as u64);
            j = j + 1;
        }
        proof {
            assert(m * n_fft + n_fft == (m + 1) * n_fft) by (nonlinear_arith);
        }
        m = m + 1;
    }
    assert(bits@ =~= all);
    let mut shape: Vec<usize> = Vec::new();
    shape.push(bits.len());
    assert(shape@ =~= seq![(frames * n_fft) as usize]);
    Array::build_leaf(Op::Data, shape, Dtype::I32, bits)
}

fn overlap_add(
    updates: &Array,
    indices: &Array,
    t: usize,
    Ghost(frames): Ghost<nat>,
    Ghost(n_fft): Ghost<nat>,
    Ghost(hop): Ghost<nat>,
) -> (r: Result<Array>)
    requires
        position_array(frames, n_fft, hop) == Some(indices@),
    ensures
        outcome(r) == overlap_added(updates@, t as nat, frames, n_fft, hop),
        r is Err ==> r->Err_0 is Backend,
{
    let mut shape: Vec<usize> = Vec::new();
    shape.push(t);
    assert(shape@ =~= seq![t]);
    let zeros = Array::zeros(&shape)?;
    scatter_add_axis(&zeros, indices, updates)
}

fn build_window(w: Window<'_>, win: usize, n_fft: usize) -> (r: Result<Array>)
    requires
        1 <= win <= n_fft,
        win <= MAX_DIM,
    ensures
        outcome(r) == full_window(w, win as nat, n_fft as nat),
        r is Err ==> r->Err_0 is Backend,
{
    proof {
        reveal(full_window);
    }
    let v = match w {
        Window::Named(name) => {
            let full = window_from_name(name, win + 1)?;
            slice(&full, 0, win as i32, 1)?
        },
        Window::Array(a) => {
            if a.ndim() != 1 {
                let text = with_number("istft: explicit window must be 1-D, got ", a.ndim(), "-D");
                return Err(backend(text.as_str()));
            }
            a.try_clone()?
        },
    };
    let len: usize = v.dims()[0];
    let v = if len < win {
        pad_end(&v, win - len)?
    } else {
        v
    };
    if win < n_fft {
        pad_end(&v, n_fft - win)
    } else {
        Ok(v)
    }
}

fn build_window_updates(w: &Array, frames: usize, n_fft: usize, normalized: bool) -> (r: Result<
    Array,
>)
    ensures
        outcome(r) == window_updates(w@, frames as nat, n_fft as nat, normalized),
        r is Err ==> r->Err_0 is Backend,
{
    let v = if normalized {
        multiply(w, w)?
    } else {
        w.dup()
    };
    let mut row_shape: Vec<usize> = Vec::new();
    row_shape.push(1);
    row_shape.push(n_fft);
    assert(row_shape@ =~= seq![1usize, n_fft]);
    let row = reshape_to(&v, &row_shape)?;
    let mut tiled_shape: Vec<usize> = Vec::new();
    tiled_shape.push(frames);
    tiled_shape.push(n_fft);
    assert(tiled_shape@ =~= seq![frames, n_fft]);
    let tiled = broadcast_to(&row, &tiled_shape)?;
    flatten(&tiled)
}

fn normalize_by(sum: &Array, windows: &Array) -> (r: Result<Array>)
    ensures
        outcome(r) == normalized_by(sum@, windows@),
        r is Err ==> r->Err_0 is Backend,
{
    let floor = Array::scalar(F32::from_bits(WINDOW_SUM_FLOOR));
    let mask = greater(windows, &floor)?;
    let q = divide(sum, windows)?;
    select(&mask, &q, sum)
}

/// Why `n` samples cannot be taken from `pad` on, or from the start without
/// `center`, of a signal of `t`.
pub open spec fn length_refusal(n: usize, t: nat, pad: nat, center: bool) -> Seq<char> {
    if !center {
        "istft: requested length "@ + decimal(n as nat) + " exceeds reconstruction length "@
            + decimal(t)
    } else if pad + n > usize::MAX {
        "istft: center offset "@ + decimal(pad) + " + length "@ + decimal(n as nat)
            + " overflows usize"@
    } else {
        "istft: center offset "@ + decimal(pad) + " + length "@ + decimal(n as nat) + " = "@
            + decimal((pad + n) as nat) + " exceeds reconstruction length "@ + decimal(t)
    }
}

fn refuse_length(n: usize, t: usize, pad: usize, center: bool) -> (e: Error)
    ensures
        e is Backend,
        e.text() == length_refusal(n, t as nat, pad as nat, center),
{
    let text = if !center {
        with_two("istft: requested length ", n, " exceeds reconstruction length ", t, "")
    } else {
        match pad.checked_add(n) {
            None => with_two("istft: center offset ", pad, " + length ", n, " overflows usize"),
            Some(end) => {
                let mut text = with_three(
                    "istft: center offset ",
                    pad,
                    " + length ",
                    n,
                    " = ",
                    end,
                    " exceeds reconstruction length ",
                );
                text.append(decimal_text(t as u64).as_str());
                text
            },
        }
    };
    proof {
        reveal_strlit("");
        assert(text@ =~= length_refusal(n, t as nat, pad as nat, center));
    }
    backend(text.as_str())
}

fn trim_signal(y: &Array, t: usize, pad: usize, center: bool, length: Option<usize>) -> (r: Result<
    Array,
>)
    requires
        pad <= t <= MAX_DECODED_SAMPLES,
    ensures
        outcome(r) == trimmed_signal(y@, t as nat, pad as nat, center, length),
        r is Err ==> r->Err_0 is Backend,
        length matches Some(n) ==> n + (if center {
            pad as int
        } else {
            0
        }) > t ==> r is Err && r->Err_0.text() == length_refusal(n, t as nat, pad as nat, center),
{
    proof {
        reveal(trimmed_signal);
    }
    match length {
        Some(n) => {
            let start: usize = if center {
                pad
            } else {
                0
            };
            if n > t - start {
                return Err(refuse_length(n, t, pad, center));
            }
            slice(y, start as i32, (start + n) as i32, 1)
        },
        None => if center {
            slice(y, pad as i32, (t - pad) as i32, 1)
        } else {
            Ok(y.dup())
        },
    }
}

fn rebuild(
    x: &Array,
    v: &Array,
    num_frames: usize,
    n_fft: usize,
    hop: usize,
    t: usize,
    normalized: bool,
) -> (r: Result<Array>)
    requires
        num_frames >= 1,
        n_fft >= 1,
        t == overlap_len(num_frames as nat, n_fft as nat, hop as nat),
        t <= MAX_DECODED_SAMPLES,
        num_frames * n_fft <= MAX_OLA_WORK,
    ensures
        outcome(r) == reconstruction(
            x@,
            v@,
            num_frames as nat,
            n_fft as nat,
            hop as nat,
            normalized,
        ),
        r is Err ==> r->Err_0 is Backend,
{
    proof {
        reveal(reconstruction);
    }
    let frames_time = irfft(x, n_fft as i32, 1, FftNorm::Backward)?;
    let windowed = multiply(&frames_time, v)?;
    let updates = flatten(&windowed)?;
    let indices = build_positions(num_frames, n_fft, hop)?;
    let sum = overlap_add(
        &updates,
        &indices,
        t,
        Ghost(num_frames as nat),
        Ghost(n_fft as nat),
        Ghost(hop as nat),
    )?;
    let window_part = build_window_updates(v, num_frames, n_fft, normalized)?;
    let windows = overlap_add(
        &window_part,
        &indices,
        t,
        Ghost(num_frames as nat),
        Ghost(n_fft as nat),
        Ghost(hop as nat),
    )?;
    normalize_by(&sum, &windows)
}

/// Why there is no signal, where that lies in the settings or in the shape of
/// the spectrum; the window is looked at before the lengths.
pub open spec fn istft_refusal(
    shape: Seq<usize>,
    hop_length: Option<usize>,
    win_length: Option<usize>,
) -> Option<Seq<char>> {
    if shape.len() != 2 {
        Some(
            "istft: expected 2-D (num_frames, n_freqs) input, got "@ + decimal(shape.len())
                + "-D"@,
        )
    } else if shape[1] < 2 {
        Some(
            "istft: n_freqs "@ + decimal(shape[1] as nat) + " < 2 (need >= 2 bins for irfft)"@,
        )
    } else if shape[0] == 0 {
        Some("istft: num_frames must be > 0"@)
    } else {
        let n_fft = 2 * (shape[1] - 1) as nat;
        let win = match win_length {
            Some(n) => n as nat,
            None => n_fft,
        };
        let hop = match hop_length {
            Some(n) => n as nat,
            None => win / 4,
        };
        if win == 0 {
            Some("istft: win_length must be > 0"@)
        } else if win > n_fft {
            Some(
                "istft: win_length "@ + decimal(win) + " > n_fft "@ + decimal(n_fft)
                    + " (unsupported)"@,
            )
        } else if hop == 0 {
            Some("istft: hop_length must be > 0"@)
        } else if win > i32::MAX {
            Some("istft: win_length "@ + decimal(win) + " exceeds i32::MAX"@)
        } else {
            None
        }
    }
}

/// Why a signal of `frames` overlapping frames is too much, if it is.
pub open spec fn overlap_refusal(frames: nat, n_fft: nat, hop: nat) -> Option<Seq<char>> {
    let t = overlap_len(frames, n_fft, hop);
    if t > usize::MAX {
        Some(
            "istft: OLA length (num_frames-1)*hop + n_fft overflows usize (num_frames="@
                + decimal(frames) + ", hop="@ + decimal(hop) + ", n_fft="@ + decimal(n_fft) + ")"@,
        )
    } else if t > MAX_DECODED_SAMPLES {
        Some(
            "istft: OLA length "@ + decimal(t) + " exceeds the "@ + decimal(
                MAX_DECODED_SAMPLES as nat,
            ) + " cap"@,
        )
    } else if frames * n_fft > usize::MAX {
        Some(
            "istft: scatter work count num_frames * n_fft overflows usize (num_frames="@
                + decimal(frames) + ", n_fft="@ + decimal(n_fft) + ")"@,
        )
    } else if frames * n_fft > MAX_OLA_WORK {
        Some(
            "istft: scatter work count "@ + decimal((frames * n_fft) as nat) + " (num_frames="@
                + decimal(frames) + " * n_fft="@ + decimal(n_fft) + ") exceeds the "@ + decimal(
                MAX_OLA_WORK as nat,
            ) + " work cap"@,
        )
    } else {
        None
    }
}

/// Checks that a signal of overlapping frames is not too much, and gives its
/// length.
pub fn check_overlap(num_frames: usize, n_fft: usize, hop: usize) -> (r: Result<usize>)
    requires
        num_frames >= 1,
    ensures
        match overlap_refusal(num_frames as nat, n_fft as nat, hop as nat) {
            Some(text) => r is Err && r->Err_0 is Backend && r->Err_0.text() == text,
            None => r is Ok && r->Ok_0 == overlap_len(num_frames as nat, n_fft as nat, hop as nat),
        },
{
    let ghost span = (num_frames - 1) * hop;
    assert(span >= 0) by (nonlinear_arith)
        requires
            span == (num_frames - 1) * hop,
            num_frames >= 1,
    ;
    let len: Option<usize> = match (num_frames - 1).checked_mul(hop) {
        Some(v) => v.checked_add(n_fft),
        None => None,
    };
    let t: usize = match len {
        Some(t) => t,
        None => {
            let text = with_three(
                "istft: OLA length (num_frames-1)*hop + n_fft overflows usize (num_frames=",
                num_frames,
                ", hop=",
                hop,
                ", n_fft=",
                n_fft,
                ")",
            );
            return Err(backend(text.as_str()));
        },
    };
    if t > MAX_DECODED_SAMPLES {
        let text = with_two("istft: OLA length ", t, " exceeds the ", MAX_DECODED_SAMPLES, " cap");
        return Err(backend(text.as_str()));
    }
    match num_frames.checked_mul(n_fft) {
        None => {
            let text = with_two(
                "istft: scatter work count num_frames * n_fft overflows usize (num_frames=",
                num_frames,
                ", n_fft=",
                n_fft,
                ")",
            );
            Err(backend(text.as_str()))
        },
        Some(work) => if work > MAX_OLA_WORK {
            let mut text = with_three(
                "istft: scatter work count ",
                work,
                " (num_frames=",
                num_frames,
                " * n_fft=",
                n_fft,
                ") exceeds the ",
            );
            text.append(decimal_text(MAX_OLA_WORK as u64).as_str());
            text.append(" work cap");
            Err(backend(text.as_str()))
        } else {
            Ok(t)
        },
    }
}

/// The signal of a spectrum by overlapping addition: the inverse of [`stft`].
///
/// `win_length` is `n_fft` and `hop_length` a quarter of it where none is
/// given. Each sample is divided by the sum of the windows over it, or of
/// their squares where `normalized`, unless that sum is zero. With `center`
/// the `n_fft / 2` samples that [`stft`] added in front are removed first and
/// `length` counts from there; without a length the same number is removed at
/// the end.
pub fn istft(
    x: &Array,
    hop_length: Option<usize>,
    win_length: Option<usize>,
    window: Window<'_>,
    center: bool,
    length: Option<usize>,
    normalized: bool,
) -> (r: Result<Array>)
    ensures
        outcome(r) == istft_of(x@, hop_length, win_length, window, center, length, normalized),
        r is Err ==> r->Err_0 is Backend,
        istft_refusal(x@.shape, hop_length, win_length) matches Some(text) ==> r is Err
            && r->Err_0.text() == text,
{
    proof {
        reveal(istft_of);
    }
    let shape = x.dims();
    if shape.len() != 2 {
        let text = with_number(
            "istft: expected 2-D (num_frames, n_freqs) input, got ",
            shape.len(),
            "-D",
        );
        return Err(backend(text.as_str()));
    }
    let num_frames: usize = shape[0];
    let n_freqs: usize = shape[1];
    if n_freqs < 2 {
        let text = with_number("istft: n_freqs ", n_freqs, " < 2 (need >= 2 bins for irfft)");
        return Err(backend(text.as_str()));
    }
    if num_frames == 0 {
        return Err(backend("istft: num_frames must be > 0"));
    }
    let n_fft: usize = (n_freqs - 1) * 2;
    let win: usize = match win_length {
        Some(n) => n,
        None => n_fft,
    };
    if win == 0 {
        return Err(backend("istft: win_length must be > 0"));
    }
    if win > n_fft {
        let text = with_two("istft: win_length ", win, " > n_fft ", n_fft, " (unsupported)");
        return Err(backend(text.as_str()));
    }
    let hop: usize = match hop_length {
        Some(n) => n,
        None => win / 4,
    };
    if hop == 0 {
        return Err(backend("istft: hop_length must be > 0"));
    }
    if win > MAX_DIM {
        let text = with_number("istft: win_length ", win, " exceeds i32::MAX");
        return Err(backend(text.as_str()));
    }
    let v = build_window(window, win, n_fft)?;
    let t: usize = check_overlap(num_frames, n_fft, hop)?;
    let y = rebuild(x, &v, num_frames, n_fft, hop, t, normalized)?;
    trim_signal(&y, t, n_fft / 2, center, length)
}

/// The number of samples that an inverse transform gives.
pub open spec fn signal_len(frames: nat, n_fft: nat, hop: nat, center: bool, length: Option<
    usize,
>) -> int {
    match length {
        Some(n) => n as int,
        None => if center {
            (frames - 1) * hop
        } else {
            overlap_len(frames, n_fft, hop) as int
        },
    }
}

/// Whether the requested samples are among those reconstructed.
pub open spec fn length_available(
    frames: nat,
    n_fft: nat,
    hop: nat,
    center: bool,
    length: Option<usize>,
) -> bool {
    match length {
        Some(n) => (if center {
            n_fft / 2
        } else {
            0
        }) + n <= overlap_len(frames, n_fft, hop),
        None => true,
    }
}

proof fn lemma_overlap_added(updates: Tensor, t: nat, frames: nat, n_fft: nat, hop: nat)
    requires
        frames * n_fft <= MAX_OLA_WORK,
        t <= MAX_DECODED_SAMPLES,
        updates.shape == seq![(frames * n_fft) as usize],
    ensures
        overlap_added(updates, t, frames, n_fft, hop) is Some,
        overlap_added(updates, t, frames, n_fft, hop)->0.shape == seq![t as usize],
        overlap_added(updates, t, frames, n_fft, hop)->0.dtype == Dtype::F32,
{
    lemma_elements_one((frames * n_fft) as usize);
    lemma_elements_one(t as usize);
    let idx = position_array(frames, n_fft, hop)->0;
    assert(updates.shape == idx.shape);
}

proof fn lemma_window_updates(w: Tensor, frames: nat, n_fft: nat, normalized: bool)
    requires
        w.shape == seq![n_fft as usize],
        1 <= frames <= MAX_DIM,
        2 <= n_fft <= MAX_DIM,
        frames * n_fft <= MAX_OLA_WORK,
    ensures
        window_updates(w, frames, n_fft, normalized) is Some,
        window_updates(w, frames, n_fft, normalized)->0.shape == seq![(frames * n_fft) as usize],
{
    let n = n_fft as usize;
    let f = frames as usize;
    lemma_elements_one(n);
    lemma_elements_two(1, n);
    lemma_elements_two(f, n);
    lemma_elements_one((frames * n_fft) as usize);
    broadcast_self(w.shape);
    let v = if normalized {
        product(w, w)->0
    } else {
        w
    };
    assert(v.shape == seq![n]);
    let row = reshaped(v, seq![1usize, n])->0;
    assert(broadcastable(row.shape, seq![f, n]));
    assert(broadcast(row.shape, seq![f, n]) =~= seq![f, n]);
}

/// The inverse transform gives one axis of samples, and is refused exactly
/// where the spectrum is no matrix of at least one row and two columns, the
/// window or the hop is empty, the window does not come out `n_fft` samples
/// wide, a cap is exceeded, or more samples are requested than there are.
pub proof fn istft_shape(
    x: Tensor,
    hop_length: Option<usize>,
    win_length: Option<usize>,
    w: Window,
    center: bool,
    length: Option<usize>,
    normalized: bool,
)
    requires
        fits(x.shape),
        w matches Window::Array(a) ==> fits(a@.shape),
    ensures
        ({
            let y = istft_of(x, hop_length, win_length, w, center, length, normalized);
            let frames = x.shape[0] as nat;
            let n_fft = 2 * (x.shape[1] - 1) as nat;
            let win = match win_length {
                Some(n) => n as nat,
                None => n_fft,
            };
            let hop = match hop_length {
                Some(n) => n as nat,
                None => win / 4,
            };
            let admitted = {
                &&& x.shape.len() == 2
                &&& x.shape[0] >= 1
                &&& x.shape[1] >= 2
                &&& 1 <= win <= n_fft
                &&& hop >= 1
                &&& overlap_len(frames, n_fft, hop) <= MAX_DECODED_SAMPLES
                &&& frames * n_fft <= MAX_OLA_WORK
                &&& full_window(w, win, n_fft) is Some
                &&& full_window(w, win, n_fft)->0.shape == seq![n_fft as usize]
                &&& length_available(frames, n_fft, hop, center, length)
            };
            &&& y is Some <==> admitted
            &&& y is Some ==> y->0.shape == seq![
                signal_len(frames, n_fft, hop, center, length) as usize,
            ]
            &&& y is Some ==> y->0.dtype == Dtype::F32
        }),
{
    reveal(istft_of);
    if x.shape.len() != 2 || x.shape[1] < 2 || x.shape[0] == 0 {
        return ;
    }
    let frames = x.shape[0] as nat;
    let n_fft = 2 * (x.shape[1] - 1) as nat;
    let win = match win_length {
        Some(n) => n as nat,
        None => n_fft,
    };
    let hop = match hop_length {
        Some(n) => n as nat,
        None => win / 4,
    };
    let t = overlap_len(frames, n_fft, hop);
    if win == 0 || win > n_fft || hop == 0 || t > MAX_DECODED_SAMPLES || frames * n_fft
        > MAX_OLA_WORK {
        return ;
    }
    if full_window(w, win, n_fft) is None {
        return ;
    }
    let v = full_window(w, win, n_fft)->0;
    lemma_full_window(w, win, n_fft);
    assert((frames - 1) * hop >= 0) by (nonlinear_arith)
        requires
            frames >= 1,
            hop >= 1,
    ;
    lemma_reconstruction(x, v, frames, n_fft, hop, normalized);
    if v.shape == seq![n_fft as usize] {
        let y = reconstruction(x, v, frames, n_fft, hop, normalized)->0;
        lemma_trimmed(y, t, n_fft / 2, center, length);
    }
}

proof fn lemma_frame_updates(x: Tensor, v: Tensor, n_fft: nat)
    requires
        x.shape.len() == 2,
        1 <= x.shape[0] <= MAX_DIM,
        2 <= n_fft <= MAX_DIM,
        x.shape[0] * n_fft <= MAX_OLA_WORK,
        v.shape.len() == 1,
        v.shape[0] >= n_fft,
    ensures
        frame_updates(x, v, n_fft) is Some <==> v.shape == seq![n_fft as usize],
        frame_updates(x, v, n_fft) is Some ==> frame_updates(x, v, n_fft)->0.shape == seq![
            (x.shape[0] * n_fft) as usize,
        ],
{
    let frames = x.shape[0];
    let shape = seq![frames, n_fft as usize];
    lemma_elements_two(frames, n_fft as usize);
    lemma_elements_one((frames * n_fft) as usize);
    reveal_with_fuel(with_lengths, 2);
    let f = transformed(
        FftKind::InverseReal,
        FftNorm::Backward,
        x,
        seq![n_fft as i32],
        seq![1i32],
    )->0;
    assert(x.shape.update(1, n_fft as usize) =~= shape);
    assert(f.shape == shape);
    if v.shape[0] != n_fft {
        assert(!dims_agree(dim_from_end(f.shape, 0), dim_from_end(v.shape, 0)));
        assert(product(f, v) is None);
    } else {
        assert(v.shape =~= seq![n_fft as usize]);
        assert(broadcastable(f.shape, v.shape));
        assert(broadcast(f.shape, v.shape) =~= shape);
    }
}

proof fn lemma_reconstruction(
    x: Tensor,
    v: Tensor,
    frames: nat,
    n_fft: nat,
    hop: nat,
    normalized: bool,
)
    requires
        x.shape.len() == 2,
        x.shape[0] == frames,
        1 <= frames <= MAX_DIM,
        2 <= n_fft <= MAX_DIM,
        frames * n_fft <= MAX_OLA_WORK,
        overlap_len(frames, n_fft, hop) <= MAX_DECODED_SAMPLES,
        v.shape.len() == 1,
        v.shape[0] >= n_fft,
    ensures
        reconstruction(x, v, frames, n_fft, hop, normalized) is Some <==> v.shape == seq![
            n_fft as usize,
        ],
        reconstruction(x, v, frames, n_fft, hop, normalized) is Some ==> reconstruction(
            x,
            v,
            frames,
            n_fft,
            hop,
            normalized,
        )->0.shape == seq![overlap_len(frames, n_fft, hop) as usize],
        reconstruction(x, v, frames, n_fft, hop, normalized) is Some ==> reconstruction(
            x,
            v,
            frames,
            n_fft,
            hop,
            normalized,
        )->0.dtype == Dtype::F32,
{
    reveal(reconstruction);
    let t = overlap_len(frames, n_fft, hop);
    lemma_frame_updates(x, v, n_fft);
    if v.shape == seq![n_fft as usize] {
        let updates = frame_updates(x, v, n_fft)->0;
        lemma_overlap_added(updates, t, frames, n_fft, hop);
        lemma_window_updates(v, frames, n_fft, normalized);
        let u = window_updates(v, frames, n_fft, normalized)->0;
        lemma_overlap_added(u, t, frames, n_fft, hop);
        lemma_normalized(
            overlap_added(updates, t, frames, n_fft, hop)->0,
            overlap_added(u, t, frames, n_fft, hop)->0,
            t,
        );
    }
}

proof fn lemma_normalized(sum: Tensor, windows: Tensor, t: nat)
    requires
        t <= MAX_DECODED_SAMPLES,
        sum.shape == seq![t as usize],
        windows.shape == seq![t as usize],
        sum.dtype == Dtype::F32,
        windows.dtype == Dtype::F32,
    ensures
        normalized_by(sum, windows) is Some,
        normalized_by(sum, windows)->0.shape == seq![t as usize],
        normalized_by(sum, windows)->0.dtype == Dtype::F32,
{
    broadcast_self(seq![t as usize]);
    broadcast_scalar(seq![t as usize]);
    lemma_elements_one(t as usize);
    let floor = scalar(F32::from_bits(WINDOW_SUM_FLOOR));
    assert(floor.shape =~= Seq::<usize>::empty());
}

proof fn lemma_trimmed(y: Tensor, t: nat, pad: nat, center: bool, length: Option<usize>)
    requires
        y.shape == seq![t as usize],
        2 * pad <= t <= MAX_DECODED_SAMPLES,
    ensures
        trimmed_signal(y, t, pad, center, length) is Some <==> (length matches Some(n) ==> (
        if center {
            pad
        } else {
            0
        }) + n <= t),
        trimmed_signal(y, t, pad, center, length) is Some ==> trimmed_signal(
            y,
            t,
            pad,
            center,
            length,
        )->0.dtype == y.dtype,
        trimmed_signal(y, t, pad, center, length) is Some ==> trimmed_signal(
            y,
            t,
            pad,
            center,
            length,
        )->0.shape == seq![
            (match length {
                Some(n) => n as int,
                None => if center {
                    t - 2 * pad
                } else {
                    t as int
                },
            }) as usize,
        ],
{
    reveal(trimmed_signal);
    match length {
        Some(n) => {
            let start = if center {
                pad as int
            } else {
                0
            };
            if start + n <= t {
                slice_len_bound(t as int, start, start + n, 1);
                lemma_elements_one(n);
            }
        },
        None => {
            if center {
                slice_len_bound(t as int, pad as int, t - pad, 1);
                lemma_elements_one((t - 2 * pad) as usize);
            }
        },
    }
}

/// A synthesis window is one axis of at least `n_fft` samples.
proof fn lemma_full_window(w: Window, win: nat, n_fft: nat)
    requires
        1 <= win <= n_fft <= MAX_DECODED_SAMPLES,
        full_window(w, win, n_fft) is Some,
        w matches Window::Array(a) ==> fits(a@.shape),
    ensures
        full_window(w, win, n_fft)->0.shape.len() == 1,
        full_window(w, win, n_fft)->0.shape[0] >= n_fft,
{
    reveal(full_window);
    match w {
        Window::Named(name) => {
            let kind = window_kind(lowered(name@))->0;
            window_exists(kind, win as int + 1);
            slice_len_bound(win as int + 1, 0, win as int, 1);
        },
        Window::Array(a) => {},
    }
}

/// A spectrum of [`stft`] with an even `n_fft` goes back through [`istft`] with
/// the same hop and a window of `win_length` samples: without a length it
/// gives the whole hops of the signal, and it can give any number of samples
/// up to half a frame beyond them, the signal's own number among them.
pub proof fn istft_inverts_stft_shape(
    x: Tensor,
    n_fft: nat,
    hop: nat,
    win_length: Option<usize>,
    w: &Array,
    length: Option<usize>,
    normalized: bool,
)
    requires
        fits(x.shape),
        n_fft <= usize::MAX,
        hop <= usize::MAX,
        n_fft % 2 == 0,
        stft_of(x, n_fft, hop, win_length) is Some,
        w@.shape == seq![
            (match win_length {
                Some(n) => n as nat,
                None => n_fft,
            }) as usize,
        ],
        x.shape[0] + n_fft <= MAX_DECODED_SAMPLES,
        frame_count(x.shape[0] + n_fft, n_fft as int, hop as int) * n_fft <= MAX_OLA_WORK,
        length matches Some(n) ==> n <= x.shape[0] as int / hop as int * hop + n_fft / 2,
    ensures
        ({
            let s = stft_of(x, n_fft, hop, win_length)->0;
            let y = istft_of(
                s,
                Some(hop as usize),
                win_length,
                Window::Array(w),
                true,
                length,
                normalized,
            );
            &&& y is Some
            &&& y->0.shape == seq![
                (match length {
                    Some(n) => n as int,
                    None => x.shape[0] as int / hop as int * hop,
                }) as usize,
            ]
        }),
        x.shape[0] < x.shape[0] as int / hop as int * hop + hop,
{
    stft_shape(x, n_fft, hop, win_length);
    let s = stft_of(x, n_fft, hop, win_length)->0;
    let len = x.shape[0] as int;
    let h = hop as int;
    let frames = frame_count(len + n_fft, n_fft as int, h);
    assert(frames == 1 + len / h);
    assert(len / h * h <= len < len / h * h + h) by (nonlinear_arith)
        requires
            h >= 1,
            len >= 0,
    ;
    let win = match win_length {
        Some(n) => n as nat,
        None => n_fft,
    };
    lemma_elements_one(n_fft as usize);
    lemma_elements_one(win as usize);
    assert(len / h >= 0) by (nonlinear_arith)
        requires
            h >= 1,
            len >= 0,
    ;
    assert(frames * n_fft >= frames) by (nonlinear_arith)
        requires
            n_fft >= 1,
            frames >= 1,
    ;
    assert(s.shape[0] == frames && s.shape[1] == n_fft / 2 + 1);
    assert(2 * (s.shape[1] - 1) == n_fft);
    lemma_elements_two(s.shape[0], s.shape[1]);
    assert(s.shape =~= seq![s.shape[0], s.shape[1]]);
    assert(frames * (n_fft / 2 + 1) <= frames * n_fft) by (nonlinear_arith)
        requires
            frames >= 1,
            n_fft >= 2,
            n_fft % 2 == 0,
    ;
    reveal(full_window);
    assert(full_window(Window::Array(w), win, n_fft)->0.shape =~= seq![n_fft as usize]);
    istft_shape(s, Some(hop as usize), win_length, Window::Array(w), true, length, normalized);
}

// ---------------------------------------------------------------------------
// Mel spectrograms
// ---------------------------------------------------------------------------

/// The least energy of a logarithmic mel spectrogram.
#[derive(Clone, Copy, Debug, PartialEq, Eq, Structural)]
pub enum LogFloor {
    /// `1e-10`.
    Whisper,
    /// `1e-8`. Only the floor differs: the filters are the same.
    Kaldi,
    /// A given floor. One that is not a finite number above zero stands for
    /// the least positive normal number.
    Custom(F32),
}

impl Default for LogFloor {
    fn default() -> (r: LogFloor)
        ensures
            r == LogFloor::Whisper,
    {
        LogFloor::Whisper
    }
}

impl LogFloor {
    /// The floor as a number.
    pub open spec fn spec_value(self) -> F32 {
        match self {
            LogFloor::Whisper => F32 { bits: 0x2edb_e6ff },
            LogFloor::Kaldi => F32 { bits: 0x322b_cc77 },
            LogFloor::Custom(x) => if x.is_finite() && x.is_positive() {
                x
            } else {
                F32 { bits: 0x80_0000 }
            },
        }
    }

    /// The floor as a number.
    #[verifier::when_used_as_spec(spec_value)]
    pub fn value(self) -> (r: F32)
        ensures
            r == self.spec_value(),
    {
        match self {
            LogFloor::Whisper => F32 { bits: 0x2edb_e6ff },
            LogFloor::Kaldi => F32 { bits: 0x322b_cc77 },
            LogFloor::Custom(x) => if x.is_finite() && x.is_positive() {
                x
            } else {
                F32 { bits: 0x80_0000 }
            },
        }
    }
}

/// Every floor is a finite number above zero, so its logarithm is finite.
pub proof fn floor_is_positive(floor: LogFloor)
    ensures
        floor.value().is_finite(),
        floor.value().is_positive(),
{
}

/// The highest frequency of a filter bank: half the sample rate, rounded down,
/// where none is given.
pub open spec fn highest_frequency(sample_rate: u32, f_max: Option<F32>) -> F32 {
    match f_max {
        Some(f) => f,
        None => F32 { bits: nearest_bits((sample_rate / 2) as nat) as u32 },
    }
}

/// Triangular mel filters: one row for each filter and `n_fft / 2 + 1`
/// columns.
pub open spec fn mel_filters(
    n_mels: nat,
    n_fft: nat,
    sample_rate: u32,
    f_min: F32,
    f_max: Option<F32>,
) -> Option<Tensor> {
    let high = highest_frequency(sample_rate, f_max);
    if n_fft > 0 && n_mels > 0 && sample_rate > 0 && !f_min.is_nan() && f_min.rank() >= 0
        && f_min.lt(high) && n_mels <= MAX_DIM && n_fft / 2 < MAX_DIM {
        leaf(
            Op::MelFilterBank,
            seq![n_mels as usize, (n_fft / 2 + 1) as usize],
            Dtype::F32,
            seq![sample_rate as u64, f_min.bits as u64, high.bits as u64],
        )
    } else {
        None
    }
}

/// Why there are no filters, where that does not lie in the frequencies.
pub open spec fn mel_refusal(
    n_mels: nat,
    n_fft: nat,
    sample_rate: u32,
    f_min: F32,
    f_max: Option<F32>,
) -> Option<Seq<char>> {
    let high = highest_frequency(sample_rate, f_max);
    let n_freqs = n_fft / 2 + 1;
    if n_fft == 0 {
        Some("mel_filter_bank: n_fft must be > 0"@)
    } else if n_mels == 0 {
        Some("mel_filter_bank: n_mels must be > 0"@)
    } else if sample_rate == 0 {
        Some("mel_filter_bank: sample_rate must be > 0"@)
    } else if f_min.is_nan() || f_min.rank() < 0 || !f_min.lt(high) {
        None
    } else if n_mels + 2 > usize::MAX {
        Some("mel_filter_bank: n_mels "@ + decimal(n_mels) + " + 2 overflows usize"@)
    } else if n_mels * n_freqs > usize::MAX {
        Some(
            "mel_filter_bank: n_mels * n_freqs overflows usize (n_mels="@ + decimal(n_mels)
                + ", n_freqs="@ + decimal(n_freqs) + ")"@,
        )
    } else if n_mels > i32::MAX {
        Some("mel_filter_bank: n_mels "@ + decimal(n_mels) + " exceeds i32::MAX"@)
    } else if n_freqs > i32::MAX {
        Some("mel_filter_bank: n_freqs "@ + decimal(n_freqs) + " exceeds i32::MAX"@)
    } else {
        None
    }
}

/// Triangular mel filters on the scale `2595 * log10(1 + hz / 700)`, from
/// `f_min` to `f_max` or half the sample rate.
pub fn mel_filter_bank(
    n_mels: usize,
    n_fft: usize,
    sample_rate: u32,
    f_min: F32,
    f_max: Option<F32>,
) -> (r: Result<Array>)
    ensures
        outcome(r) == mel_filters(n_mels as nat, n_fft as nat, sample_rate, f_min, f_max),
        r is Err ==> r->Err_0 is Backend,
        mel_refusal(n_mels as nat, n_fft as nat, sample_rate, f_min, f_max) matches Some(text)
            ==> r is Err && r->Err_0.text() == text,
{
    if n_fft == 0 {
        return Err(backend("mel_filter_bank: n_fft must be > 0"));
    }
    if n_mels == 0 {
        return Err(backend("mel_filter_bank: n_mels must be > 0"));
    }
    if sample_rate == 0 {
        return Err(backend("mel_filter_bank: sample_rate must be > 0"));
    }
    let high = match f_max {
        Some(f) => f,
        None => F32::from_u32(sample_rate / 2),
    };
    if f_min.is_nan() || f_min.lt(F32::zero()) || !f_min.lt(high) {
        return Err(backend("mel_filter_bank: invalid f_min / f_max"));
    }
    if n_mels > usize::MAX - 2 {
        let text = with_number("mel_filter_bank: n_mels ", n_mels, " + 2 overflows usize");
        return Err(backend(text.as_str()));
    }
    let n_freqs: usize = n_fft / 2 + 1;
    if n_mels.checked_mul(n_freqs).is_none() {
        proof {
            lemma_elements_two(n_mels, n_freqs);
        }
        let text = with_two(
            "mel_filter_bank: n_mels * n_freqs overflows usize (n_mels=",
            n_mels,
            ", n_freqs=",
            n_freqs,
            ")",
        );
        return Err(backend(text.as_str()));
    }
    if n_mels > MAX_DIM {
        let text = with_number("mel_filter_bank: n_mels ", n_mels, " exceeds i32::MAX");
        return Err(backend(text.as_str()));
    }
    if n_freqs > MAX_DIM {
        let text = with_number("mel_filter_bank: n_freqs ", n_freqs, " exceeds i32::MAX");
        return Err(backend(text.as_str()));
    }
    let mut shape: Vec<usize> = Vec::new();
    shape.push(n_mels);
    shape.push(n_freqs);
    let mut bits: Vec<u64> = Vec::new();
    bits.push(sample_rate as u64);
    bits.push(f_min.bits as u64);
    bits.push(high.bits as u64);
    assert(shape@ =~= seq![n_mels, (n_fft / 2 + 1) as usize]);
    assert(bits@ =~= seq![sample_rate as u64, f_min.bits as u64, high.bits as u64]);
    Array::build_leaf(Op::MelFilterBank, shape, Dtype::F32, bits)
}

/// The settings of a mel spectrogram.
#[derive(Clone, Copy, Debug)]
pub struct MelSettings {
    pub n_fft: usize,
    pub hop_length: usize,
    pub win_length: Option<usize>,
    pub n_mels: usize,
    pub sample_rate: u32,
    pub f_min: F32,
    pub f_max: Option<F32>,
}

/// The mel spectrogram of a signal: the filters times the squared magnitudes
/// of its spectrum.
pub open spec fn mel_spectrogram_of(x: Tensor, m: MelSettings) -> Option<Tensor> {
    bind(
        bind(
            bind(
                stft_of(x, m.n_fft as nat, m.hop_length as nat, m.win_length),
                |s: Tensor| magnitudes(s),
            ),
            |s: Tensor| squares(s),
        ),
        |power: Tensor|
            bind(
                mel_filters(m.n_mels as nat, m.n_fft as nat, m.sample_rate, m.f_min, m.f_max),
                |mel: Tensor| bind(transposed(power), |p: Tensor| matrix_product(mel, p)),
            ),
    )
}

/// The mel spectrogram of a signal: one row for each filter and one column for
/// each frame.
pub fn mel_spectrogram(
    samples: &Array,
    n_fft: usize,
    hop_length: usize,
    win_length: Option<usize>,
    n_mels: usize,
    sample_rate: u32,
    f_min: F32,
    f_max: Option<F32>,
) -> (r: Result<Array>)
    ensures
        outcome(r) == mel_spectrogram_of(
            samples@,
            (MelSettings { n_fft, hop_length, win_length, n_mels, sample_rate, f_min, f_max }),
        ),
        r is Err ==> r->Err_0 is Backend,
{
    let spec = stft(samples, n_fft, hop_length, win_length)?;
    let mag = spec.abs()?;
    let power = mag.square()?;
    let mel = mel_filter_bank(n_mels, n_fft, sample_rate, f_min, f_max)?;
    let power_t = power.transpose()?;
    mel.matmul(&power_t)
}

/// A mel spectrogram has one row for each filter and one column for each frame
/// of the signal.
pub proof fn mel_spectrogram_shape(x: Tensor, m: MelSettings)
    requires
        fits(x.shape),
        mel_spectrogram_of(x, m) is Some,
    ensures
        mel_spectrogram_of(x, m)->0.shape == seq![
            m.n_mels,
            frame_count(
                x.shape[0] + 2 * (m.n_fft / 2),
                m.n_fft as int,
                m.hop_length as int,
            ) as usize,
        ],
        mel_spectrogram_of(x, m)->0.dtype == Dtype::F32,
{
    stft_shape(x, m.n_fft as nat, m.hop_length as nat, m.win_length);
    let s = stft_of(x, m.n_fft as nat, m.hop_length as nat, m.win_length)->0;
    let power = squares(magnitudes(s)->0)->0;
    let mel = mel_filters(m.n_mels as nat, m.n_fft as nat, m.sample_rate, m.f_min, m.f_max)->0;
    let p = transposed(power)->0;
    assert(p.shape =~= seq![s.shape[1], s.shape[0]]);
    let y = matrix_product(mel, p)->0;
    assert(y.shape =~= seq![m.n_mels, s.shape[0]]);
}

/// The logarithm of a mel spectrogram, with energies below the floor raised to
/// it.
pub open spec fn log_mel_of(x: Tensor, m: MelSettings, floor: LogFloor) -> Option<Tensor> {
    bind(
        bind(mel_spectrogram_of(x, m), |y: Tensor| larger(y, scalar(floor.value()))),
        |y: Tensor| logarithms(y),
    )
}

/// The logarithmic mel spectrogram of a signal with the default floor.
pub fn log_mel_spectrogram(
    samples: &Array,
    n_fft: usize,
    hop_length: usize,
    win_length: Option<usize>,
    n_mels: usize,
    sample_rate: u32,
    f_min: F32,
    f_max: Option<F32>,
) -> (r: Result<Array>)
    ensures
        outcome(r) == log_mel_of(
            samples@,
            (MelSettings { n_fft, hop_length, win_length, n_mels, sample_rate, f_min, f_max }),
            LogFloor::Whisper,
        ),
        r is Err ==> r->Err_0 is Backend,
{
    log_mel_spectrogram_with(
        samples,
        n_fft,
        hop_length,
        win_length,
        n_mels,
        sample_rate,
        f_min,
        f_max,
        LogFloor::Whisper,
    )
}

/// The logarithmic mel spectrogram of a signal with the given floor.
pub fn log_mel_spectrogram_with(
    samples: &Array,
    n_fft: usize,
    hop_length: usize,
    win_length: Option<usize>,
    n_mels: usize,
    sample_rate: u32,
    f_min: F32,
    f_max: Option<F32>,
    floor: LogFloor,
) -> (r: Result<Array>)
    ensures
        outcome(r) == log_mel_of(
            samples@,
            (MelSettings { n_fft, hop_length, win_length, n_mels, sample_rate, f_min, f_max }),
            floor,
        ),
        r is Err ==> r->Err_0 is Backend,
{
    let mel = mel_spectrogram(
        samples,
        n_fft,
        hop_length,
        win_length,
        n_mels,
        sample_rate,
        f_min,
        f_max,
    )?;
    let eps = Array::scalar(floor.value());
    let floored = maximum(&mel, &eps)?;
    floored.log()
}

/// What is added up at the position `t` of those of the first `n` terms that
/// go there.
pub open spec fn added_at(positions: Seq<u64>, term: spec_fn(int) -> int, n: int, t: int) -> int
    decreases n,
{
    if n <= 0 {
        0
    } else {
        added_at(positions, term, n - 1, t) + if positions[n - 1] == t {
            term(n - 1)
        } else {
            0
        }
    }
}

/// Overlapping addition undoes the cutting into frames: where the term at
/// place `m` is the sample at its position times a factor, what is added up at
/// a position is the sample there times what the factors add up to. Division
/// by the latter gives the sample back.
pub proof fn overlapping_frames_add_up(
    signal: spec_fn(int) -> int,
    factor: spec_fn(int) -> int,
    positions: Seq<u64>,
    n: int,
    t: int,
)
    ensures
        added_at(positions, |m: int| signal(positions[m] as int) * factor(m), n, t) == signal(t)
            * added_at(positions, factor, n, t),
    decreases n,
{
    if n > 0 {
        overlapping_frames_add_up(signal, factor, positions, n - 1, t);
        let (s, a, f) = (signal(t), added_at(positions, factor, n - 1, t), factor(n - 1));
        assert(s * (a + f) == s * a + s * f) by (nonlinear_arith);
        assert(s * (a + 0) == s * a);
    } else {
        assert(signal(t) * 0 == 0);
    }
}

} // verus!
