//! What the inverse short-time Fourier transform gives in exact arithmetic.
//!
//! The value of an array is taken element by element, in row-major order, over
//! the integers, and a spectrum is taken as the signal that it is the spectrum
//! of. What the arrays at the bottom hold is left open.
use vstd::prelude::*;

use crate::array::{filled, scalar, Array, Op, Tensor, WindowKind};
use crate::audio::dsp::{
    added_at, frame_count, frame_updates, framed, full_window, istft_inverts_stft_shape, istft_of,
    lemma_prefix_slice, normalized_by, overlap_added, overlap_len, overlap_positions,
    overlap_positions_by_frame, overlapping_frames_add_up, position_array, reconstruction,
    reflect_padded, reflect_padded_len, stft_of, stft_shape, suffix_stop, trimmed_signal,
    widened_window, window, window_exists, window_updates, Window, MAX_DECODED_SAMPLES,
    MAX_OLA_WORK, WINDOW_SUM_FLOOR,
};
use crate::ops::arithmetic::{product, quotient};
use crate::ops::comparison::is_greater;
use crate::ops::fft::{transformed, with_lengths, FftKind, FftNorm};
use crate::ops::indexing::{slice_first, sliced};
use crate::ops::shape::{flattened, reshaped, spread};
use crate::scalar::F32;
use crate::shape::{broadcast, broadcast_scalar, broadcast_self, fits, lemma_elements_one};

verus! {

/// What the arrays at the bottom hold, by position.
pub type Samples = spec_fn(Tensor, int) -> int;

/// The position of the element of `a`, a scalar, one axis or an array of the
/// shape `shape`, that stands at the position `k` of a broadcast result of that
/// shape.
pub open spec fn place(a: Tensor, shape: Seq<usize>, k: int) -> int {
    if a.shape == shape {
        k
    } else if a.shape.len() == 1 {
        k % (a.shape[0] as int)
    } else {
        0
    }
}

/// The element at the position `k`.
pub open spec fn value(t: Tensor, e: Samples, k: int) -> int
    decreases t, 1int, 0int,
{
    if t.op == Op::Reshape && t.args.len() == 1 {
        value(t.args[0], e, k)
    } else if t.op == Op::BroadcastTo && t.args.len() == 1 && t.shape.len() == 2
        && t.args[0].shape == seq![1usize, t.shape[1]] {
        value(t.args[0], e, k % (t.shape[1] as int))
    } else if t.op == Op::AsStrided && t.args.len() == 1 && t.shape.len() == 2 && t.params.len()
        == 2 && t.bits.len() == 1 {
        let c = t.shape[1] as int;
        value(t.args[0], e, t.bits[0] + k / c * t.params[0] + k % c * t.params[1])
    } else if t.op == Op::Slice && t.args.len() == 1 && t.params.len() == 3 {
        value(
            t.args[0],
            e,
            slice_first(t.args[0].shape[0] as int, t.params[0] as int, t.params[2] as int) + k
                * t.params[2],
        )
    } else if t.op == Op::Concatenate && t.args.len() == 3 {
        let a = t.args[0].shape[0] as int;
        let b = t.args[1].shape[0] as int;
        if k < a {
            value(t.args[0], e, k)
        } else if k < a + b {
            value(t.args[1], e, k - a)
        } else {
            value(t.args[2], e, k - a - b)
        }
    } else if t.op == Op::Pad && t.args.len() == 1 {
        if k < t.args[0].shape[0] {
            value(t.args[0], e, k)
        } else {
            0
        }
    } else if t.op == Op::Multiply && t.args.len() == 2 {
        value(t.args[0], e, place(t.args[0], t.shape, k)) * value(
            t.args[1],
            e,
            place(t.args[1], t.shape, k),
        )
    } else if t.op == Op::Divide && t.args.len() == 2 {
        value(t.args[0], e, place(t.args[0], t.shape, k)) / value(
            t.args[1],
            e,
            place(t.args[1], t.shape, k),
        )
    } else if t.op == Op::Greater && t.args.len() == 2 {
        if value(t.args[0], e, place(t.args[0], t.shape, k)) > value(
            t.args[1],
            e,
            place(t.args[1], t.shape, k),
        ) {
            1
        } else {
            0
        }
    } else if t.op == Op::Select && t.args.len() == 3 {
        if value(t.args[0], e, place(t.args[0], t.shape, k)) != 0 {
            value(t.args[1], e, place(t.args[1], t.shape, k))
        } else {
            value(t.args[2], e, place(t.args[2], t.shape, k))
        }
    } else if t.args.len() == 1 && (is_spectrum(t) || is_inverse(t)) {
        value(t.args[0], e, k)
    } else if t.op == Op::ScatterAdd && t.args.len() == 3 && t.args[1].op == Op::Data {
        value(t.args[0], e, k) + landed(t, e, k, t.args[1].bits.len() as int)
    } else if t.op == Op::Full && t.bits == seq![0u64] {
        0
    } else {
        e(t, k)
    }
}

/// What the first `n` of the elements that are added bring to the position
/// `k`.
pub open spec fn landed(t: Tensor, e: Samples, k: int, n: int) -> int
    decreases t, 0int, n,
{
    if n <= 0 || t.args.len() != 3 {
        0
    } else {
        landed(t, e, k, n - 1) + if t.args[1].bits[n - 1] == k {
            value(t.args[2], e, n - 1)
        } else {
            0
        }
    }
}

/// Whether `t` is the spectrum of the rows of a real array of their own length.
pub open spec fn is_spectrum(t: Tensor) -> bool {
    &&& t.op matches Op::Fft(kind, _) && kind == FftKind::Real
    &&& t.args.len() == 1
    &&& t.args[0].shape.len() == 2
    &&& t.params == seq![t.args[0].shape[1] as i64, 1i64]
}

/// Whether `t` brings back, at their own length and with the same scale, the
/// rows that a spectrum is of.
pub open spec fn is_inverse(t: Tensor) -> bool {
    &&& t.args.len() == 1
    &&& is_spectrum(t.args[0])
    &&& t.params == t.args[0].params
    &&& t.op matches Op::Fft(kind, norm) && kind == FftKind::InverseReal && t.args[0].op == Op::Fft(
        FftKind::Real,
        norm,
    )
}

proof fn lemma_landed(t: Tensor, e: Samples, k: int, n: int, f: spec_fn(int) -> int)
    requires
        t.args.len() == 3,
        n <= t.args[1].bits.len(),
        forall|m: int| 0 <= m < n ==> #[trigger] f(m) == value(t.args[2], e, m),
    ensures
        landed(t, e, k, n) == added_at(t.args[1].bits, f, n, k),
    decreases n,
{
    if n > 0 {
        lemma_landed(t, e, k, n - 1, f);
        assert(f(n - 1) == value(t.args[2], e, n - 1));
    }
}

/// The length of the analysis window.
pub open spec fn window_len(win_length: Option<usize>, n_fft: nat) -> nat {
    match win_length {
        Some(n) => n as nat,
        None => n_fft,
    }
}

/// The analysis window of a transform, brought to the length of a frame.
pub open spec fn analysis_window(n_fft: nat, win_length: Option<usize>) -> Tensor {
    let win = window_len(win_length, n_fft);
    widened_window(window(WindowKind::Hann, win as int)->0, win, n_fft)->0
}

/// The sample `k % n_fft` of the frame `k / n_fft`, times the window.
proof fn lemma_spectrum(
    x: Tensor,
    n_fft: nat,
    hop: nat,
    win_length: Option<usize>,
    e: Samples,
    k: int,
)
    requires
        fits(x.shape),
        n_fft <= usize::MAX,
        hop <= usize::MAX,
        stft_of(x, n_fft, hop, win_length) is Some,
    ensures
        ({
            let s = stft_of(x, n_fft, hop, win_length)->0;
            let n = n_fft as int;
            &&& is_spectrum(s)
            &&& s.op == Op::Fft(FftKind::Real, FftNorm::Backward)
            &&& s.params == seq![n_fft as i64, 1i64]
            &&& analysis_window(n_fft, win_length).shape == seq![n_fft as usize]
            &&& reflect_padded(x, n_fft / 2) is Some
            &&& value(s, e, k) == value(
                reflect_padded(x, n_fft / 2)->0,
                e,
                k / n * hop + k % n,
            ) * value(analysis_window(n_fft, win_length), e, k % n)
        }),
{
    stft_shape(x, n_fft, hop, win_length);
    reveal(stft_of);
    let win = window_len(win_length, n_fft);
    window_exists(WindowKind::Hann, win as int);
    reflect_padded_len(x, n_fft / 2);
    let w = analysis_window(n_fft, win_length);
    assert(w.shape =~= seq![n_fft as usize]);
    let p = reflect_padded(x, n_fft / 2)->0;
    let f = framed(p, n_fft, hop)->0;
    let y = product(f, w)->0;
    let s = stft_of(x, n_fft, hop, win_length)->0;
    let shape = f.shape;
    assert(shape.len() == 2 && shape[1] == n_fft);
    assert(broadcast(shape, w.shape) =~= shape);
    assert(s.args =~= seq![y]);
    assert(s.params =~= seq![n_fft as i64, 1i64]);
    assert(is_spectrum(s));
    assert(value(s, e, k) == value(y, e, k));
    assert(y.args =~= seq![f, w]);
    assert(value(y, e, k) == value(f, e, k) * value(w, e, k % n_fft as int));
    let at = k % n_fft as int;
    let unit = f.params[1] as int;
    assert(at * unit == at) by (nonlinear_arith)
        requires
            unit == 1,
    ;
    assert(value(f, e, k) == value(p, e, k / n_fft as int * hop + at));
}

/// The samples that are added up: those of the frames, times the windows of
/// analysis and synthesis.
proof fn lemma_frame_terms(
    x: Tensor,
    n_fft: nat,
    hop: nat,
    win_length: Option<usize>,
    v: Tensor,
    e: Samples,
    k: int,
)
    requires
        fits(x.shape),
        n_fft <= usize::MAX,
        hop <= usize::MAX,
        stft_of(x, n_fft, hop, win_length) is Some,
        v.shape == seq![n_fft as usize],
        frame_updates(stft_of(x, n_fft, hop, win_length)->0, v, n_fft) is Some,
    ensures
        value(frame_updates(stft_of(x, n_fft, hop, win_length)->0, v, n_fft)->0, e, k) == value(
            reflect_padded(x, n_fft / 2)->0,
            e,
            k / n_fft as int * hop + k % n_fft as int,
        ) * value(analysis_window(n_fft, win_length), e, k % n_fft as int) * value(
            v,
            e,
            k % n_fft as int,
        ),
{
    lemma_spectrum(x, n_fft, hop, win_length, e, k);
    stft_shape(x, n_fft, hop, win_length);
    let s = stft_of(x, n_fft, hop, win_length)->0;
    reveal_with_fuel(with_lengths, 2);
    let g = transformed(
        FftKind::InverseReal,
        FftNorm::Backward,
        s,
        seq![n_fft as i32],
        seq![1i32],
    )->0;
    assert(g.params =~= seq![n_fft as i64, 1i64]);
    assert(g.args =~= seq![s]);
    assert(is_inverse(g));
    assert(!is_spectrum(g));
    assert(value(g, e, k) == value(s, e, k));
    let h = product(g, v)->0;
    assert(h.args =~= seq![g, v]);
    assert(broadcast(g.shape, v.shape) =~= g.shape);
    assert(value(h, e, k) == value(g, e, k) * value(v, e, k % n_fft as int));
    let u = flattened(h)->0;
    assert(u.args =~= seq![h]);
    assert(value(u, e, k) == value(h, e, k));
}

/// The windows that are added up: the squares of the synthesis window.
proof fn lemma_window_terms(v: Tensor, frames: nat, n_fft: nat, e: Samples, k: int)
    requires
        1 <= n_fft <= usize::MAX,
        v.shape == seq![n_fft as usize],
        window_updates(v, frames, n_fft, true) is Some,
    ensures
        value(window_updates(v, frames, n_fft, true)->0, e, k) == value(v, e, k % n_fft as int)
            * value(v, e, k % n_fft as int),
{
    let at = k % n_fft as int;
    broadcast_self(v.shape);
    let square = product(v, v)->0;
    assert(square.args =~= seq![v, v]);
    assert(value(square, e, at) == value(v, e, at) * value(v, e, at));
    let row = reshaped(square, seq![1usize, n_fft as usize])->0;
    assert(row.args =~= seq![square]);
    assert(value(row, e, at) == value(square, e, at));
    let tiled = spread(row, seq![frames as usize, n_fft as usize])->0;
    assert(tiled.args =~= seq![row]);
    assert(value(tiled, e, k) == value(row, e, at));
    let u = flattened(tiled)->0;
    assert(u.args =~= seq![tiled]);
    assert(value(u, e, k) == value(tiled, e, k));
}

/// Overlapping addition puts together what goes to each position.
proof fn lemma_added(
    updates: Tensor,
    t: nat,
    frames: nat,
    n_fft: nat,
    hop: nat,
    e: Samples,
    at: int,
    f: spec_fn(int) -> int,
)
    requires
        overlap_added(updates, t, frames, n_fft, hop) is Some,
        forall|m: int| 0 <= m < frames * n_fft ==> #[trigger] f(m) == value(updates, e, m),
    ensures
        value(overlap_added(updates, t, frames, n_fft, hop)->0, e, at) == added_at(
            overlap_positions(frames, n_fft, hop),
            f,
            frames * n_fft as int,
            at,
        ),
{
    let sum = overlap_added(updates, t, frames, n_fft, hop)->0;
    let zeros = filled(seq![t as usize], F32::zero())->0;
    let places = position_array(frames, n_fft, hop)->0;
    assert(sum.args =~= seq![zeros, places, updates]);
    assert(zeros.bits =~= seq![0u64]);
    assert(value(zeros, e, at) == 0);
    lemma_landed(sum, e, at, frames * n_fft as int, f);
}

/// The sum over the frames of the squares of the window `v` at the position
/// `at` of the padded signal.
pub open spec fn weight(
    v: Tensor,
    frames: nat,
    n_fft: nat,
    hop: nat,
    e: Samples,
    at: int,
) -> int {
    added_at(
        overlap_positions(frames, n_fft, hop),
        |m: int| value(v, e, m % n_fft as int) * value(v, e, m % n_fft as int),
        frames * n_fft as int,
        at,
    )
}

/// The sum below which the overlapping windows count as none.
pub open spec fn least_weight(e: Samples) -> int {
    value(scalar(F32::from_bits(WINDOW_SUM_FLOOR)), e, 0)
}

/// The middle of the padded signal is the signal.
proof fn lemma_middle(x: Tensor, padding: nat, e: Samples, i: int)
    requires
        fits(x.shape),
        reflect_padded(x, padding) is Some,
        x.shape.len() == 1,
        0 <= i < x.shape[0],
    ensures
        value(reflect_padded(x, padding)->0, e, padding + i) == value(x, e, i),
{
    if padding > 0 {
        reflect_padded_len(x, padding);
        let len = x.shape[0] as int;
        let prefix = sliced(x, padding as int, 0, -1)->0;
        let suffix = sliced(x, len - 2, suffix_stop(len, padding as int), -1)->0;
        let p = reflect_padded(x, padding)->0;
        assert(p.args =~= seq![prefix, x, suffix]);
        lemma_prefix_slice(len, padding as int);
        assert(prefix.shape[0] == padding);
    }
}

/// What is added up at a position of a spectrum that came from a signal is the
/// padded signal there times the weight of the windows.
proof fn lemma_sums(
    x: Tensor,
    n_fft: nat,
    hop: nat,
    win_length: Option<usize>,
    frames: nat,
    e: Samples,
    at: int,
)
    requires
        fits(x.shape),
        1 <= n_fft <= usize::MAX,
        hop <= usize::MAX,
        stft_of(x, n_fft, hop, win_length) is Some,
        frames >= 1,
        overlap_len(frames, n_fft, hop) <= u64::MAX,
        ({
            let s = stft_of(x, n_fft, hop, win_length)->0;
            let v = analysis_window(n_fft, win_length);
            let t = overlap_len(frames, n_fft, hop);
            &&& frame_updates(s, v, n_fft) is Some
            &&& window_updates(v, frames, n_fft, true) is Some
            &&& overlap_added(frame_updates(s, v, n_fft)->0, t, frames, n_fft, hop) is Some
            &&& overlap_added(
                window_updates(v, frames, n_fft, true)->0,
                t,
                frames,
                n_fft,
                hop,
            ) is Some
        }),
    ensures
        ({
            let s = stft_of(x, n_fft, hop, win_length)->0;
            let v = analysis_window(n_fft, win_length);
            let t = overlap_len(frames, n_fft, hop);
            let sum = overlap_added(frame_updates(s, v, n_fft)->0, t, frames, n_fft, hop)->0;
            let windows = overlap_added(
                window_updates(v, frames, n_fft, true)->0,
                t,
                frames,
                n_fft,
                hop,
            )->0;
            &&& value(windows, e, at) == weight(v, frames, n_fft, hop, e, at)
            &&& value(sum, e, at) == value(reflect_padded(x, n_fft / 2)->0, e, at) * weight(
                v,
                frames,
                n_fft,
                hop,
                e,
                at,
            )
        }),
{
    let s = stft_of(x, n_fft, hop, win_length)->0;
    let v = analysis_window(n_fft, win_length);
    let t = overlap_len(frames, n_fft, hop);
    let p = reflect_padded(x, n_fft / 2)->0;
    let positions = overlap_positions(frames, n_fft, hop);
    let n = n_fft as int;
    let count = frames * n_fft as int;
    lemma_spectrum(x, n_fft, hop, win_length, e, 0);
    let factor = |m: int| value(v, e, m % n) * value(v, e, m % n);
    let signal = |i: int| value(p, e, i);
    let term = |m: int| signal(positions[m] as int) * factor(m);
    assert forall|m: int| 0 <= m < frames * n_fft implies #[trigger] term(m) == value(
        frame_updates(s, v, n_fft)->0,
        e,
        m,
    ) by {
        lemma_frame_terms(x, n_fft, hop, win_length, v, e, m);
        let (row, col) = (m / n, m % n);
        assert(0 <= row < frames && 0 <= col < n && row * n + col == m) by (nonlinear_arith)
            requires
                row == m / n,
                col == m % n,
                0 <= m < frames * n,
                n >= 1,
        ;
        overlap_positions_by_frame(frames, n_fft, hop, row, col);
        let (a, b) = (value(p, e, m / n * hop + m % n), value(v, e, m % n));
        assert(a * b * b == a * (b * b)) by (nonlinear_arith);
    }
    lemma_added(frame_updates(s, v, n_fft)->0, t, frames, n_fft, hop, e, at, term);
    assert forall|m: int| 0 <= m < frames * n_fft implies #[trigger] factor(m) == value(
        window_updates(v, frames, n_fft, true)->0,
        e,
        m,
    ) by {
        lemma_window_terms(v, frames, n_fft, e, m);
    }
    lemma_added(window_updates(v, frames, n_fft, true)->0, t, frames, n_fft, hop, e, at, factor);
    overlapping_frames_add_up(signal, factor, positions, count, at);
    assert(term =~= |m: int| signal(positions[m] as int) * factor(m));
    assert(factor =~= |m: int|
        value(v, e, m % n_fft as int) * value(v, e, m % n_fft as int));
}

/// The quotient of two sums of one length, where the divisor is above the
/// least weight.
proof fn lemma_quotient(sum: Tensor, windows: Tensor, t: nat, e: Samples, at: int, sample: int)
    requires
        sum.shape == seq![t as usize],
        windows.shape == seq![t as usize],
        normalized_by(sum, windows) is Some,
        value(windows, e, at) > least_weight(e) >= 0,
        value(sum, e, at) == sample * value(windows, e, at),
    ensures
        value(normalized_by(sum, windows)->0, e, at) == sample,
{
    let shape = seq![t as usize];
    broadcast_self(shape);
    broadcast_scalar(shape);
    let floor = scalar(F32::from_bits(WINDOW_SUM_FLOOR));
    let mask = is_greater(windows, floor)->0;
    let q = quotient(sum, windows)->0;
    let y = normalized_by(sum, windows)->0;
    assert(mask.args =~= seq![windows, floor]);
    assert(q.args =~= seq![sum, windows]);
    assert(y.args =~= seq![mask, q, sum]);
    assert(floor.shape.len() == 0);
    assert(value(mask, e, at) == 1);
    let (a, b) = (value(sum, e, at), value(windows, e, at));
    assert(value(q, e, at) == a / b);
    assert(a / b == sample) by (nonlinear_arith)
        requires
            a == sample * b,
            b > 0,
    ;
}

/// [`crate::audio::dsp::istft`] undoes [`crate::audio::dsp::stft`]: from the
/// spectrum of a signal with an even `n_fft`, with the same hop and window and
/// normalized by the squares of the window, it gives each sample of the signal
/// that the windows weigh on.
pub proof fn istft_gives_the_signal_back(
    x: Tensor,
    n_fft: nat,
    hop: nat,
    win_length: Option<usize>,
    w: &Array,
    length: Option<usize>,
    e: Samples,
    i: int,
)
    requires
        fits(x.shape),
        n_fft <= usize::MAX,
        hop <= usize::MAX,
        n_fft % 2 == 0,
        stft_of(x, n_fft, hop, win_length) is Some,
        window(WindowKind::Hann, window_len(win_length, n_fft) as int) == Some(w@),
        x.shape[0] + n_fft <= MAX_DECODED_SAMPLES,
        frame_count(x.shape[0] + n_fft, n_fft as int, hop as int) * n_fft <= MAX_OLA_WORK,
        length matches Some(n) ==> n <= x.shape[0] as int / hop as int * hop + n_fft / 2,
        0 <= i < x.shape[0],
        weight(
            analysis_window(n_fft, win_length),
            frame_count(x.shape[0] + n_fft, n_fft as int, hop as int) as nat,
            n_fft,
            hop,
            e,
            n_fft / 2 + i,
        ) > least_weight(e) >= 0,
    ensures
        ({
            let s = stft_of(x, n_fft, hop, win_length)->0;
            let y = istft_of(
                s,
                Some(hop as usize),
                win_length,
                Window::Array(w),
                true,
                length,
                true,
            );
            y is Some && (i < y->0.shape[0] ==> value(y->0, e, i) == value(x, e, i))
        }),
{
    let win = window_len(win_length, n_fft);
    stft_shape(x, n_fft, hop, win_length);
    window_exists(WindowKind::Hann, win as int);
    istft_inverts_stft_shape(x, n_fft, hop, win_length, w, length, true);
    let s = stft_of(x, n_fft, hop, win_length)->0;
    let v = analysis_window(n_fft, win_length);
    let frames = s.shape[0] as nat;
    let t = overlap_len(frames, n_fft, hop);
    lemma_spectrum(x, n_fft, hop, win_length, e, 0);
    assert(full_window(Window::Array(w), win, n_fft) == Some(v)) by {
        reveal(full_window);
        lemma_elements_one(n_fft as usize);
    }
    reveal(istft_of);
    assert(2 * (s.shape[1] - 1) == n_fft);
    let y = reconstruction(s, v, frames, n_fft, hop, true)->0;
    let z = istft_of(
        s,
        Some(hop as usize),
        win_length,
        Window::Array(w),
        true,
        length,
        true,
    )->0;
    let at = n_fft / 2 + i;
    assert(value(y, e, at) == value(x, e, i)) by {
        reveal(reconstruction);
        let sum = overlap_added(frame_updates(s, v, n_fft)->0, t, frames, n_fft, hop)->0;
        let windows = overlap_added(
            window_updates(v, frames, n_fft, true)->0,
            t,
            frames,
            n_fft,
            hop,
        )->0;
        lemma_sums(x, n_fft, hop, win_length, frames, e, at);
        lemma_middle(x, n_fft / 2, e, i);
        lemma_quotient(sum, windows, t, e, at, value(x, e, i));
    }
    if i < z.shape[0] {
        reveal(trimmed_signal);
        assert(z.args =~= seq![y]);
        assert(y.shape == seq![t as usize]) by {
            reveal(reconstruction);
            broadcast_self(seq![t as usize]);
            broadcast_scalar(seq![t as usize]);
        }
        let unit = z.params[2] as int;
        assert(i * unit == i) by (nonlinear_arith)
            requires
                unit == 1,
        ;
        assert(value(z, e, i) == value(y, e, at));
    }
}

} // verus!
