//! What spectra, and signals made of them, hold in exact arithmetic.
use vstd::arithmetic::power2::{lemma_pow2_pos, pow2};
use vstd::prelude::*;

use crate::array::{filled, leaf, scalar, Op, Tensor, WindowKind};
use crate::audio::dsp::{
    frame_count, frame_updates, framed, frames_in_bounds, full_window, istft_of,
    lemma_prefix_slice, lemma_suffix_slice, length_available, log_mel_of, mel_filters,
    mel_spectrogram_of, mel_spectrogram_shape, mirrored, named_window, normalized_by, overlap_added, overlap_len,
    overlap_positions, overlap_positions_by_frame, position_array, reconstruction, reflect_padded,
    reflect_padded_len, stft_of, stft_shape, suffix_stop, synthesis_window, trimmed_signal,
    widened_window, window, window_exists, window_kind, window_updates, LogFloor, MelSettings,
    Window, MAX_DECODED_SAMPLES,
};
use crate::dtype::Dtype;
use crate::exact::{
    first_of, frequency, held, landing, landing_total, lemma_elementwise, lemma_filled,
    lemma_frequency_same, lemma_frequency_times, lemma_inverse, lemma_joined, lemma_matmul,
    lemma_matrix_place, lemma_passed_on, lemma_real, lemma_reals, lemma_rearranged,
    lemma_same_shape, lemma_scalar, lemma_source_same, lemma_source_vector, lemma_ternary,
    lemma_total_rows, lemma_total_same, lemma_total_times, lemma_transform, lemma_transposed,
    lemma_unary, lemma_units, lemma_window, number, numbers, re, reals, sample_at, source, total,
    window_sample, Meaning,
};
use crate::ops::arithmetic::{larger, product, quotient};
use crate::ops::comparison::is_greater;
use crate::ops::fft::{transformed, with_lengths, FftKind, FftNorm};
use crate::ops::indexing::{slice_len_bound, sliced};
use crate::ops::linalg::matrix_product;
use crate::ops::shape::{padded, reach, reshaped, spread, transposed};
use crate::ops::unary::{magnitudes, squares};
use crate::scalar::{nearest_bits, F32};
use crate::shape::{
    broadcast, broadcast_scalar, broadcast_self, elements, fits, lemma_elements_one,
    lemma_elements_two, MAX_DIM,
};
use crate::text::lowered;

verus! {

// ---------------------------------------------------------------------------
// Spectra
// ---------------------------------------------------------------------------

/// A signal padded by reflection holds its samples mirrored at its ends.
pub proof fn padded_signal_is_mirrored(x: Tensor, padding: nat, m: Meaning, i: int)
    requires
        fits(x.shape),
        x.shape.len() == 1,
        reflect_padded(x, padding) is Some,
        0 <= i < x.shape[0] + 2 * padding,
    ensures
        re(reflect_padded(x, padding)->0, m, i) == re(
            x,
            m,
            mirrored(i - padding, x.shape[0] as int),
        ),
{
    if padding > 0 {
        reflect_padded_len(x, padding);
        let len = x.shape[0] as int;
        let p = padding as int;
        lemma_prefix_slice(len, p);
        lemma_suffix_slice(len, p);
        let prefix = sliced(x, p, 0, -1)->0;
        let suffix = sliced(x, len - 2, suffix_stop(len, p), -1)->0;
        let t = reflect_padded(x, padding)->0;
        assert(t.args =~= seq![prefix, x, suffix]);
        lemma_joined(t, m, i);
        assert(prefix.shape[0] == p);
        assert(prefix.params =~= seq![p as i64, 0i64, -1i64]);
        assert(suffix.params =~= seq![
            (len - 2) as i64,
            suffix_stop(len, p) as i64,
            -1i64,
        ]);
        if i < p {
            lemma_rearranged(prefix, m, i);
            let step = prefix.params[2] as int;
            assert(i * step == -i) by (nonlinear_arith)
                requires
                    step == -1,
            ;
        } else if i >= p + len {
            let k = i - p - len;
            lemma_rearranged(suffix, m, k);
            let step = suffix.params[2] as int;
            assert(k * step == -k) by (nonlinear_arith)
                requires
                    step == -1,
            ;
        }
    }
}

/// The length of the window of a transform.
pub open spec fn window_length(win_length: Option<usize>, n_fft: int) -> int {
    match win_length {
        Some(n) => n as int,
        None => n_fft,
    }
}

/// The samples of the frame `r`: those of the signal from `r * hop` on, counted
/// from half a frame before its start and mirrored at its ends, each times the
/// sample of a symmetric Hann window, with zeros behind the window.
pub open spec fn windowed_frame(
    x: Tensor,
    n_fft: int,
    hop: int,
    win: int,
    m: Meaning,
    r: int,
) -> spec_fn(int) -> real {
    |j: int|
        re(x, m, mirrored(r * hop + j - n_fft / 2, x.shape[0] as int)) * if j < win {
            window_sample(WindowKind::Hann, m, win, j)
        } else {
            0real
        }
}

proof fn lemma_analysis_window(win: nat, n_fft: nat, m: Meaning, j: int)
    requires
        win <= n_fft <= usize::MAX,
        window(WindowKind::Hann, win as int) is Some,
        widened_window(window(WindowKind::Hann, win as int)->0, win, n_fft) is Some,
        0 <= j < n_fft,
    ensures
        widened_window(window(WindowKind::Hann, win as int)->0, win, n_fft)->0.shape == seq![
            n_fft as usize,
        ],
        widened_window(window(WindowKind::Hann, win as int)->0, win, n_fft)->0.dtype == Dtype::F32,
        re(widened_window(window(WindowKind::Hann, win as int)->0, win, n_fft)->0, m, j) == if j
            < win {
            window_sample(WindowKind::Hann, m, win as int, j)
        } else {
            0real
        },
{
    let w = window(WindowKind::Hann, win as int)->0;
    let v = widened_window(w, win, n_fft)->0;
    assert(v.shape =~= seq![n_fft as usize]);
    if j < win {
        lemma_window(w, WindowKind::Hann, m, j);
    }
    if win < n_fft {
        lemma_rearranged(v, m, j);
    }
}

/// A short-time Fourier transform holds the frequencies of the windowed frames
/// of the signal, a row for each frame.
pub proof fn stft_holds_the_frequencies_of_frames(
    x: Tensor,
    n_fft: nat,
    hop: nat,
    win_length: Option<usize>,
    m: Meaning,
    r: int,
    f: int,
)
    requires
        fits(x.shape),
        n_fft <= usize::MAX,
        hop <= usize::MAX,
        stft_of(x, n_fft, hop, win_length) is Some,
        0 <= r < stft_of(x, n_fft, hop, win_length)->0.shape[0],
        0 <= f <= n_fft / 2,
    ensures
        held(stft_of(x, n_fft, hop, win_length)->0, m, r * (n_fft / 2 + 1) + f) == frequency(
            m,
            n_fft as int,
            windowed_frame(
                x,
                n_fft as int,
                hop as int,
                window_length(win_length, n_fft as int),
                m,
                r,
            ),
            f,
        ),
{
    stft_shape(x, n_fft, hop, win_length);
    reveal(stft_of);
    let win = window_length(win_length, n_fft as int) as nat;
    let n = n_fft as int;
    window_exists(WindowKind::Hann, win as int);
    reflect_padded_len(x, n_fft / 2);
    let w = widened_window(window(WindowKind::Hann, win as int)->0, win, n_fft)->0;
    lemma_analysis_window(win, n_fft, m, 0);
    let p = reflect_padded(x, n_fft / 2)->0;
    let g = framed(p, n_fft, hop)->0;
    let rows = g.shape[0];
    assert(g.shape =~= seq![rows, n_fft as usize]);
    assert(broadcast(g.shape, w.shape) =~= g.shape);
    let y = product(g, w)->0;
    reveal_with_fuel(with_lengths, 2);
    let s = stft_of(x, n_fft, hop, win_length)->0;
    let bins = n_fft / 2 + 1;
    assert(s.args =~= seq![y]);
    assert(s.params =~= seq![n_fft as i64, 1i64]);
    assert(s.shape =~= seq![rows, bins as usize]);
    let k = r * bins + f;
    lemma_matrix_place(rows, bins as usize, r, f);
    lemma_transform(s, FftNorm::Backward, m, k);
    lemma_reals(y, m, r * n);
    let frame = windowed_frame(x, n, hop as int, win as int, m, r);
    let taken = first_of(n, reals(y, m, r * n, 1));
    assert forall|j: int| 0 <= j < n implies #[trigger] taken(j) == frame(j) by {
        lemma_matrix_place(rows, n_fft as usize, r, j);
        let at = r * n + j;
        lemma_elements_two(rows, n_fft as usize);
        lemma_source_same(y.shape, at);
        lemma_source_vector(n_fft as usize, y.shape, at);
        lemma_elementwise(y, m, at);
        lemma_real(w, m, j);
        let (gr, gi) = held(g, m, at);
        assert(gi * 0real == 0real) by (nonlinear_arith);
        lemma_analysis_window(win, n_fft, m, j);
        lemma_rearranged(g, m, at);
        let idx = seq![r, j];
        let strides = seq![hop as i64, 1i64];
        assert(reach(idx, strides) == r * hop + j) by {
            assert(idx.drop_last() =~= seq![r]);
            assert(strides.drop_last() =~= seq![hop as i64]);
            assert(seq![r].drop_last() =~= Seq::<int>::empty());
            assert(seq![hop as i64].drop_last() =~= Seq::<i64>::empty());
            assert(reach(Seq::<int>::empty(), Seq::<i64>::empty()) == 0);
            assert(reach(seq![r], seq![hop as i64]) == r * hop);
            let unit = strides.last() as int;
            assert(j * unit == j) by (nonlinear_arith)
                requires
                    unit == 1,
            ;
        }
        assert(g.params == strides && g.bits == seq![0u64]);
        assert(re(g, m, at) == re(p, m, r * hop + j));
        assert(0 <= r * hop + j < x.shape[0] + 2 * (n_fft / 2)) by {
            frames_in_bounds(p.shape[0] as int, n, hop as int);
            let last = frame_count(p.shape[0] as int, n, hop as int) - 1;
            assert(0 <= r * hop <= last * hop) by (nonlinear_arith)
                requires
                    0 <= r <= last,
                    hop >= 0,
            ;
        }
        padded_signal_is_mirrored(x, n_fft / 2, m, r * hop + j);
    }
    lemma_frequency_same(m, n, taken, frame, f);
    let z = frequency(m, n, frame, f);
    assert(1real * z.0 == z.0 && 1real * z.1 == z.1) by (nonlinear_arith);
}

/// The bank of filters of a mel spectrogram: a row for each filter, up to the
/// highest frequency given, else up to half the sample rate.
pub open spec fn bank(c: MelSettings) -> Tensor {
    leaf(
        Op::MelFilterBank,
        seq![c.n_mels, (c.n_fft / 2 + 1) as usize],
        Dtype::F32,
        seq![
            c.sample_rate as u64,
            c.f_min.bits as u64,
            match c.f_max {
                Some(f) => f.bits as u64,
                None => nearest_bits((c.sample_rate / 2) as nat) as u32 as u64,
            },
        ],
    )->0
}

/// The energy of the frequency `f` in the frame `t` of a signal.
pub open spec fn energy(x: Tensor, c: MelSettings, m: Meaning, t: int, f: int) -> real {
    let z = frequency(
        m,
        c.n_fft as int,
        windowed_frame(
            x,
            c.n_fft as int,
            c.hop_length as int,
            window_length(c.win_length, c.n_fft as int),
            m,
            t,
        ),
        f,
    );
    z.0 * z.0 + z.1 * z.1
}

/// What the filter `b` lets through of the energies of the frame `t`.
pub open spec fn filtered_energy(
    x: Tensor,
    c: MelSettings,
    m: Meaning,
    b: int,
    t: int,
) -> spec_fn(int) -> real {
    let bins = c.n_fft as int / 2 + 1;
    |f: int| re(bank(c), m, b * bins + f) * energy(x, c, m, t, f)
}

proof fn lemma_power(s: Tensor, m: Meaning, k: int)
    requires
        m.has_roots(),
        magnitudes(s) is Some,
        squares(magnitudes(s)->0) is Some,
    ensures
        re(squares(magnitudes(s)->0)->0, m, k) == held(s, m, k).0 * held(s, m, k).0 + held(
            s,
            m,
            k,
        ).1 * held(s, m, k).1,
{
    let a = magnitudes(s)->0;
    let q = squares(a)->0;
    lemma_unary(a, m, k);
    lemma_unary(q, m, k);
    lemma_real(a, m, k);
    let z = held(s, m, k);
    let e = z.0 * z.0 + z.1 * z.1;
    assert(e >= 0real) by (nonlinear_arith)
        requires
            e == z.0 * z.0 + z.1 * z.1,
    ;
    let root = (m.root)(e);
    assert(root * root == e);
    assert(0real * 0real == 0real) by (nonlinear_arith);
}

/// A mel spectrogram holds at the filter `b` and the frame `t` what the filter
/// lets through of the energies of the frame: the sum over the frequencies of
/// the filter times the square of the real part and the square of the
/// imaginary part.
pub proof fn mel_spectrogram_sums_energies(x: Tensor, c: MelSettings, m: Meaning, b: int, t: int)
    requires
        m.has_roots(),
        fits(x.shape),
        mel_spectrogram_of(x, c) is Some,
        0 <= b < c.n_mels,
        0 <= t < mel_spectrogram_of(x, c)->0.shape[1],
    ensures
        mel_spectrogram_of(x, c)->0.shape.len() == 2,
        re(
            mel_spectrogram_of(x, c)->0,
            m,
            b * mel_spectrogram_of(x, c)->0.shape[1] + t,
        ) == total(c.n_fft as int / 2 + 1, filtered_energy(x, c, m, b, t)),
{
    mel_spectrogram_shape(x, c);
    stft_shape(x, c.n_fft as nat, c.hop_length as nat, c.win_length);
    let s = stft_of(x, c.n_fft as nat, c.hop_length as nat, c.win_length)->0;
    let power = squares(magnitudes(s)->0)->0;
    let filters = mel_filters(c.n_mels as nat, c.n_fft as nat, c.sample_rate, c.f_min, c.f_max)->0;
    assert(filters == bank(c));
    let p = transposed(power)->0;
    let y = matrix_product(filters, p)->0;
    let bins = c.n_fft as int / 2 + 1;
    let frames = s.shape[0];
    assert(s.shape =~= seq![frames, bins as usize]);
    assert(p.shape =~= seq![bins as usize, frames]);
    assert(y.shape =~= seq![c.n_mels, frames]);
    assert(y.args =~= seq![filters, p]);
    let k = b * frames + t;
    lemma_matrix_place(c.n_mels, frames, b, t);
    lemma_matmul(y, m, k);
    lemma_reals(filters, m, b * bins);
    let sum = filtered_energy(x, c, m, b, t);
    let (u, v) = (reals(filters, m, b * bins, 1), reals(p, m, t, frames as int));
    let products = |j: int| u(j) * v(j);
    assert forall|f: int| 0 <= f < bins implies #[trigger] products(f) == sum(f) by {
        lemma_transposed(power, m, f, t);
        lemma_matrix_place(frames, bins as usize, t, f);
        lemma_power(s, m, t * bins + f);
        stft_holds_the_frequencies_of_frames(
            x,
            c.n_fft as nat,
            c.hop_length as nat,
            c.win_length,
            m,
            t,
            f,
        );
        assert(v(f) == re(p, m, t + f * frames));
        assert(u(f) == re(filters, m, b * bins + f));
    }
    lemma_total_same(bins, products, sum);
}

/// A signal that is `z` times as loud has a mel spectrogram that is `z` times
/// `z` times as large.
pub proof fn louder_signals_have_squared_energies(
    x: Tensor,
    y: Tensor,
    z: real,
    c: MelSettings,
    m: Meaning,
    b: int,
    t: int,
)
    requires
        m.has_roots(),
        fits(x.shape),
        y.shape == x.shape,
        forall|i: int| 0 <= i < x.shape[0] ==> #[trigger] re(y, m, i) == z * re(x, m, i),
        mel_spectrogram_of(x, c) is Some,
        mel_spectrogram_of(y, c) is Some,
        0 <= b < c.n_mels,
        0 <= t < mel_spectrogram_of(x, c)->0.shape[1],
    ensures
        mel_spectrogram_of(y, c)->0.shape == mel_spectrogram_of(x, c)->0.shape,
        re(mel_spectrogram_of(y, c)->0, m, b * mel_spectrogram_of(x, c)->0.shape[1] + t) == (z * z)
            * re(mel_spectrogram_of(x, c)->0, m, b * mel_spectrogram_of(x, c)->0.shape[1] + t),
{
    mel_spectrogram_shape(x, c);
    mel_spectrogram_shape(y, c);
    mel_spectrogram_sums_energies(x, c, m, b, t);
    mel_spectrogram_sums_energies(y, c, m, b, t);
    let bins = c.n_fft as int / 2 + 1;
    let (n, hop) = (c.n_fft as int, c.hop_length as int);
    let win = window_length(c.win_length, n);
    let (p, q) = (windowed_frame(x, n, hop, win, m, t), windowed_frame(y, n, hop, win, m, t));
    stft_shape(x, c.n_fft as nat, c.hop_length as nat, c.win_length);
    assert forall|j: int| 0 <= j < n implies #[trigger] q(j) == z * p(j) by {
        lemma_frame_in_signal(x, c.n_fft as nat, c.hop_length as nat, c.win_length, t, j);
        let i = mirrored(t * hop + j - n / 2, x.shape[0] as int);
        let (a, w) = (
            re(x, m, i),
            if j < win {
                window_sample(WindowKind::Hann, m, win, j)
            } else {
                0real
            },
        );
        assert(re(y, m, i) == z * a);
        assert((z * a) * w == z * (a * w)) by (nonlinear_arith);
    }
    let (f, g) = (filtered_energy(x, c, m, b, t), filtered_energy(y, c, m, b, t));
    let scaled = |k: int| (z * z) * f(k);
    assert forall|k: int| 0 <= k < bins implies #[trigger] g(k) == scaled(k) by {
        lemma_frequency_times(m, n, z, p, q, k);
        let v = frequency(m, n, p, k);
        let h = re(bank(c), m, b * bins + k);
        assert(h * ((z * v.0) * (z * v.0) + (z * v.1) * (z * v.1)) == (z * z) * (h * (v.0 * v.0
            + v.1 * v.1))) by (nonlinear_arith);
    }
    lemma_total_same(bins, g, scaled);
    lemma_total_times(bins, z * z, f);
}

/// Every sample of every frame lies in the signal.
proof fn lemma_frame_in_signal(
    x: Tensor,
    n_fft: nat,
    hop: nat,
    win_length: Option<usize>,
    r: int,
    j: int,
)
    requires
        fits(x.shape),
        n_fft <= usize::MAX,
        hop <= usize::MAX,
        stft_of(x, n_fft, hop, win_length) is Some,
        0 <= r < stft_of(x, n_fft, hop, win_length)->0.shape[0],
        0 <= j < n_fft,
    ensures
        0 <= mirrored(r * hop + j - n_fft / 2, x.shape[0] as int) < x.shape[0],
{
    stft_shape(x, n_fft, hop, win_length);
    reveal(stft_of);
    reflect_padded_len(x, n_fft / 2);
    let p = reflect_padded(x, n_fft / 2)->0;
    frames_in_bounds(p.shape[0] as int, n_fft as int, hop as int);
    let last = frame_count(p.shape[0] as int, n_fft as int, hop as int) - 1;
    assert(0 <= r * hop <= last * hop) by (nonlinear_arith)
        requires
            0 <= r <= last,
            hop >= 0,
    ;
}

/// A logarithmic mel spectrogram holds the logarithms of what the mel
/// spectrogram holds, or of the floor where that is less.
pub proof fn log_mel_spectrogram_holds_logarithms(
    x: Tensor,
    c: MelSettings,
    floor: LogFloor,
    m: Meaning,
    k: int,
)
    requires
        fits(x.shape),
        log_mel_of(x, c, floor) is Some,
        0 <= k < elements(mel_spectrogram_of(x, c)->0.shape),
    ensures
        log_mel_of(x, c, floor)->0.shape == mel_spectrogram_of(x, c)->0.shape,
        ({
            let e = re(mel_spectrogram_of(x, c)->0, m, k);
            let f = number(floor.value());
            re(log_mel_of(x, c, floor)->0, m, k) == (m.logarithm)(
                if e < f {
                    f
                } else {
                    e
                },
            )
        }),
{
    mel_spectrogram_shape(x, c);
    let y = mel_spectrogram_of(x, c)->0;
    let f = scalar(floor.value());
    broadcast_scalar(y.shape);
    let l = larger(y, f)->0;
    assert(l.args =~= seq![y, f]);
    lemma_scalar(floor.value(), m, 0);
    lemma_source_same(y.shape, k);
    assert(f.shape =~= Seq::<usize>::empty());
    lemma_elementwise(l, m, k);
    lemma_unary(log_mel_of(x, c, floor)->0, m, k);
}

// ---------------------------------------------------------------------------
// Signals out of spectra
// ---------------------------------------------------------------------------

/// What the samples at `at` of frames of `n` samples add up to, where the frame
/// `r` begins at `r * hop` and has the sample `g(r, j)` at its place `j`.
pub open spec fn overlap_at(
    frames: int,
    n: int,
    hop: int,
    g: spec_fn(int, int) -> real,
    at: int,
) -> real {
    total(
        frames,
        |r: int|
            if 0 <= at - r * hop < n {
                g(r, at - r * hop)
            } else {
                0real
            },
    )
}

proof fn lemma_total_single(n: int, f: spec_fn(int) -> real, at: int)
    requires
        0 <= n,
        forall|j: int| 0 <= j < n && j != at ==> #[trigger] f(j) == 0real,
    ensures
        total(n, f) == if 0 <= at < n {
            f(at)
        } else {
            0real
        },
    decreases n,
{
    if n > 0 {
        lemma_total_single(n - 1, f, at);
    }
}

/// The sum of all that lands at a place, frame by frame.
proof fn lemma_landing(
    frames: nat,
    n: nat,
    hop: nat,
    x: spec_fn(int) -> real,
    g: spec_fn(int, int) -> real,
    at: int,
)
    requires
        frames >= 1,
        n >= 1,
        overlap_len(frames, n, hop) <= u64::MAX,
        forall|r: int, j: int|
            0 <= r < frames && 0 <= j < n ==> x(r * n + j) == #[trigger] g(r, j),
    ensures
        landing_total((frames * n) as int, overlap_positions(frames, n, hop), x, at) == overlap_at(
            frames as int,
            n as int,
            hop as int,
            g,
            at,
        ),
{
    let positions = overlap_positions(frames, n, hop);
    let f = landing(positions, x, at);
    let lands = |r: int|
        if 0 <= at - r * hop < n as int {
            g(r, at - r * hop)
        } else {
            0real
        };
    lemma_total_rows(frames as int, n as int, f);
    let rows = |r: int| total(n as int, |j: int| f(r * n as int + j));
    assert forall|r: int| 0 <= r < frames implies #[trigger] rows(r) == lands(r) by {
        let row = |j: int| f(r * n as int + j);
        let place = at - r * hop;
        assert forall|j: int| 0 <= j < n && j != place implies #[trigger] row(j) == 0real by {
            overlap_positions_by_frame(frames, n, hop, r, j);
        }
        if 0 <= place < n {
            overlap_positions_by_frame(frames, n, hop, r, place);
            assert(x(r * n + place) == g(r, place));
        }
        lemma_total_single(n as int, row, place);
    }
    lemma_total_same(frames as int, rows, lands);
}

/// Overlapping addition puts the sample `j` of the frame `r` at `r * hop + j`.
proof fn lemma_added(
    updates: Tensor,
    t: nat,
    frames: nat,
    n: nat,
    hop: nat,
    m: Meaning,
    g: spec_fn(int, int) -> real,
    at: int,
)
    requires
        frames >= 1,
        n >= 1,
        overlap_len(frames, n, hop) <= u64::MAX,
        overlap_added(updates, t, frames, n, hop) is Some,
        frames * n <= usize::MAX,
        forall|r: int, j: int|
            0 <= r < frames && 0 <= j < n ==> re(updates, m, r * n + j) == #[trigger] g(r, j),
    ensures
        overlap_added(updates, t, frames, n, hop)->0.shape == seq![t as usize],
        re(overlap_added(updates, t, frames, n, hop)->0, m, at) == overlap_at(
            frames as int,
            n as int,
            hop as int,
            g,
            at,
        ),
{
    let s = overlap_added(updates, t, frames, n, hop)->0;
    let z = filled(seq![t as usize], F32::zero())->0;
    let idx = position_array(frames, n, hop)->0;
    assert(s.args =~= seq![z, idx, updates]);
    lemma_ternary(s, m, at);
    lemma_filled(z, m, at);
    lemma_units();
    lemma_reals(updates, m, 0);
    let x = reals(updates, m, 0, 1);
    assert forall|r: int, j: int| 0 <= r < frames && 0 <= j < n implies x(r * n + j)
        == #[trigger] g(r, j) by {
        assert(x(r * n + j) == re(updates, m, 0 + (r * n + j)));
    }
    lemma_landing(frames, n, hop, x, g, at);
}

/// What one frame of the spectrum `x` is in time, at the place `j`.
pub open spec fn frame_sample(x: Tensor, m: Meaning, n: int, r: int, j: int) -> real {
    1real / (n as real) * sample_at(m, n, numbers(x, m, r * (n / 2 + 1)), j)
}

/// The frames of a spectrum back in time under a window.
proof fn lemma_frame_updates(x: Tensor, v: Tensor, n_fft: nat, m: Meaning, r: int, j: int)
    requires
        x.shape.len() == 2,
        n_fft == 2 * (x.shape[1] - 1),
        1 <= n_fft <= i32::MAX,
        frame_updates(x, v, n_fft) is Some,
        v.shape == seq![n_fft as usize],
        v.dtype != Dtype::Complex64,
        0 <= r < x.shape[0],
        0 <= j < n_fft,
    ensures
        re(frame_updates(x, v, n_fft)->0, m, r * n_fft + j) == frame_sample(
            x,
            m,
            n_fft as int,
            r,
            j,
        ) * re(v, m, j),
{
    let n = n_fft as int;
    reveal_with_fuel(with_lengths, 2);
    let back = transformed(
        FftKind::InverseReal,
        FftNorm::Backward,
        x,
        seq![n_fft as i32],
        seq![1i32],
    )->0;
    assert(back.args =~= seq![x]);
    assert(back.params =~= seq![n_fft as i64, 1i64]);
    let rows = x.shape[0];
    assert(back.shape =~= seq![rows, n_fft as usize]);
    assert(broadcast(back.shape, v.shape) =~= back.shape);
    let y = product(back, v)->0;
    let k = r * n + j;
    lemma_matrix_place(rows, n_fft as usize, r, j);
    lemma_elements_two(rows, n_fft as usize);
    lemma_source_same(y.shape, k);
    lemma_source_vector(n_fft as usize, y.shape, k);
    lemma_elementwise(y, m, k);
    lemma_real(v, m, j);
    assert(held(back, m, k).1 * 0real == 0real) by (nonlinear_arith);
    lemma_inverse(back, FftNorm::Backward, m, k);
    lemma_passed_on(frame_updates(x, v, n_fft)->0, m, k);
}

/// The window once for each frame, itself or its square.
proof fn lemma_window_updates(
    v: Tensor,
    frames: nat,
    n: nat,
    normalized: bool,
    m: Meaning,
    r: int,
    j: int,
)
    requires
        1 <= frames <= usize::MAX,
        1 <= n <= usize::MAX,
        fits(v.shape),
        v.shape.len() == 1,
        v.dtype != Dtype::Complex64,
        window_updates(v, frames, n, normalized) is Some,
        0 <= r < frames,
        0 <= j < n,
    ensures
        v.shape == seq![n as usize],
        re(window_updates(v, frames, n, normalized)->0, m, r * n + j) == if normalized {
            re(v, m, j) * re(v, m, j)
        } else {
            re(v, m, j)
        },
{
    broadcast_self(v.shape);
    let u = if normalized {
        product(v, v)->0
    } else {
        v
    };
    let row = reshaped(u, seq![1usize, n as usize])->0;
    let tiled = spread(row, seq![frames as usize, n as usize])->0;
    assert(v.shape =~= seq![v.shape[0]]);
    lemma_elements_one(v.shape[0]);
    lemma_elements_two(1, n as usize);
    assert(v.shape =~= seq![n as usize]);
    let k = r * n as int + j;
    lemma_matrix_place(frames as usize, n as usize, r, j);
    lemma_passed_on(window_updates(v, frames, n, normalized)->0, m, k);
    assert(tiled.args =~= seq![row]);
    lemma_rearranged(tiled, m, k);
    lemma_source_row(frames as usize, n as usize, r, j);
    lemma_passed_on(row, m, j);
    if normalized {
        lemma_same_shape(v, v, m, j);
        lemma_real(v, m, j);
        assert(0real * 0real == 0real) by (nonlinear_arith);
    }
}

/// A row goes along the last axis.
proof fn lemma_source_row(rows: usize, n: usize, r: int, j: int)
    requires
        rows >= 1,
        n >= 1,
        0 <= r < rows,
        0 <= j < n,
    ensures
        source(seq![1usize, n], seq![rows, n], r * n + j) == j,
{
    let k = r * n + j;
    vstd::arithmetic::div_mod::lemma_fundamental_div_mod_converse(k, n as int, r, j);
    let (a, s) = (seq![1usize, n], seq![rows, n]);
    assert(a.drop_last() =~= seq![1usize]);
    assert(s.drop_last() =~= seq![rows]);
    assert(seq![1usize].drop_last() =~= Seq::<usize>::empty());
    assert(seq![rows].drop_last() =~= Seq::<usize>::empty());
    assert(source(Seq::<usize>::empty(), Seq::<usize>::empty(), r / rows as int) == 0);
    assert(source(seq![1usize], seq![rows], r) == 0);
}

/// The sample `j` of the window that an inverse transform is given: that of
/// the given array, or of the periodic form of a window function of `win`
/// samples, with zeros behind it.
pub open spec fn given_window(w: Window, win: int, m: Meaning, j: int) -> real {
    match w {
        Window::Named(name) => if j < win {
            window_sample(window_kind(lowered(name@))->0, m, win + 1, j)
        } else {
            0real
        },
        Window::Array(a) => if j < a@.shape[0] {
            re(a@, m, j)
        } else {
            0real
        },
    }
}

proof fn lemma_full_window(w: Window, win: nat, n_fft: nat, m: Meaning, j: int)
    requires
        1 <= win <= n_fft <= usize::MAX,
        full_window(w, win, n_fft) is Some,
        w matches Window::Array(a) ==> fits(a@.shape) && a@.dtype != Dtype::Complex64,
        0 <= j < n_fft,
    ensures
        full_window(w, win, n_fft)->0.shape.len() == 1,
        full_window(w, win, n_fft)->0.dtype != Dtype::Complex64,
        fits(full_window(w, win, n_fft)->0.shape),
        full_window(w, win, n_fft)->0.shape[0] == n_fft ==> re(
            full_window(w, win, n_fft)->0,
            m,
            j,
        ) == given_window(w, win as int, m, j),
{
    reveal(full_window);
    let v = synthesis_window(w, win)->0;
    match w {
        Window::Named(name) => {
            let kind = window_kind(lowered(name@))->0;
            window_exists(kind, win as int + 1);
            let full = window(kind, win as int + 1)->0;
            slice_len_bound(win as int + 1, 0, win as int, 1);
            assert(v.args =~= seq![full]);
            assert(v.shape[0] == win);
            if j < win {
                lemma_rearranged(v, m, j);
                let unit = v.params[2] as int;
                assert(j * unit == j) by (nonlinear_arith)
                    requires
                        unit == 1,
                ;
                lemma_window(full, kind, m, j);
            }
        },
        Window::Array(a) => {},
    }
    let u = if v.shape[0] < win {
        padded(v, (win - v.shape[0]) as nat)->0
    } else {
        v
    };
    if v.shape[0] < win {
        assert(u.args =~= seq![v]);
        lemma_rearranged(u, m, j);
    }
    let y = full_window(w, win, n_fft)->0;
    if win < n_fft {
        assert(y.args =~= seq![u]);
        lemma_rearranged(y, m, j);
    }
}

/// The sum divided by the windows, where these are above the floor.
proof fn lemma_normalized(sum: Tensor, windows: Tensor, t: nat, m: Meaning, at: int)
    requires
        sum.shape == seq![t as usize],
        windows.shape == seq![t as usize],
        fits(sum.shape),
        normalized_by(sum, windows) is Some,
        0 <= at < t <= usize::MAX,
    ensures
        normalized_by(sum, windows)->0.shape == seq![t as usize],
        re(normalized_by(sum, windows)->0, m, at) == if re(windows, m, at) > number(
            F32::from_bits(0x2edb_e6ff),
        ) {
            re(sum, m, at) / re(windows, m, at)
        } else {
            re(sum, m, at)
        },
{
    let shape = seq![t as usize];
    broadcast_self(shape);
    broadcast_scalar(shape);
    lemma_elements_one(t as usize);
    let floor = scalar(F32::from_bits(0x2edb_e6ff));
    let mask = is_greater(windows, floor)->0;
    let y = normalized_by(sum, windows)->0;
    let q = quotient(sum, windows)->0;
    assert(mask.args =~= seq![windows, floor]);
    assert(q.args =~= seq![sum, windows]);
    assert(y.args =~= seq![mask, q, sum]);
    assert(floor.shape =~= Seq::<usize>::empty());
    lemma_scalar(F32::from_bits(0x2edb_e6ff), m, 0);
    lemma_source_same(shape, at);
    lemma_elementwise(mask, m, at);
    lemma_elementwise(q, m, at);
    lemma_ternary(y, m, at);
}

/// The least sum of the windows by which a sample is divided is positive.
proof fn lemma_floor_is_positive()
    ensures
        number(F32::from_bits(0x2edb_e6ff)) > 0real,
{
    let x = F32::from_bits(0x2edb_e6ff);
    let (e, s) = (
        pow2((x.magnitude() / 0x80_0000) as nat) as real,
        (0x80_0000 + x.magnitude() % 0x80_0000) as real,
    );
    let p = pow2(150) as real;
    lemma_pow2_pos((x.magnitude() / 0x80_0000) as nat);
    lemma_pow2_pos(150);
    assert(s * e / p > 0real) by (nonlinear_arith)
        requires
            s > 0real,
            e > 0real,
            p > 0real,
    ;
}

/// The signal of a spectrum has the length asked for, else that of the
/// overlapping frames, less half a frame at each end where they were centred.
/// Each sample of it, times the overlapping sum of the
/// windows there, is the overlapping sum of the frames under the window, where
/// the sum of the windows is above its floor; elsewhere the sample is the sum
/// of the frames itself. The windows count with their squares where the
/// inverse is normalized, else as they are.
#[verifier::rlimit(40)]
pub proof fn istft_weighs_frames_by_the_window(
    x: Tensor,
    hop_length: Option<usize>,
    win_length: Option<usize>,
    w: Window,
    center: bool,
    length: Option<usize>,
    normalized: bool,
    m: Meaning,
    i: int,
)
    requires
        istft_of(x, hop_length, win_length, w, center, length, normalized) is Some,
        w matches Window::Array(a) ==> fits(a@.shape) && a@.dtype != Dtype::Complex64,
        0 <= i < istft_of(
            x,
            hop_length,
            win_length,
            w,
            center,
            length,
            normalized,
        )->0.shape[0],
    ensures
        ({
            let y = istft_of(x, hop_length, win_length, w, center, length, normalized)->0;
            let n = 2 * (x.shape[1] - 1);
            let win = window_length(win_length, n);
            let hop = match hop_length {
                Some(h) => h as int,
                None => win / 4,
            };
            let whole = (x.shape[0] - 1) * hop + n;
            let at = if center {
                i + n / 2
            } else {
                i
            };
            let weight = overlap_at(
                x.shape[0] as int,
                n,
                hop,
                |r: int, j: int|
                    if normalized {
                        given_window(w, win, m, j) * given_window(w, win, m, j)
                    } else {
                        given_window(w, win, m, j)
                    },
                at,
            );
            let sum = overlap_at(
                x.shape[0] as int,
                n,
                hop,
                |r: int, j: int| frame_sample(x, m, n, r, j) * given_window(w, win, m, j),
                at,
            );
            &&& y.shape.len() == 1
            &&& y.shape[0] == match length {
                Some(k) => k as int,
                None => if center {
                    whole - n
                } else {
                    whole
                },
            }
            &&& if weight > number(F32::from_bits(0x2edb_e6ff)) {
                re(y, m, i) * weight == sum
            } else {
                re(y, m, i) == sum
            }
        }),
{
    reveal(istft_of);
    let z = istft_of(x, hop_length, win_length, w, center, length, normalized)->0;
    let frames = x.shape[0] as nat;
    let n_fft = 2 * (x.shape[1] - 1) as nat;
    let n = n_fft as int;
    let win = window_length(win_length, n);
    let hop = match hop_length {
        Some(h) => h as nat,
        None => (win / 4) as nat,
    };
    let t = overlap_len(frames, n_fft, hop);
    let v = full_window(w, win as nat, n_fft)->0;
    let y = reconstruction(x, v, frames, n_fft, hop, normalized)->0;
    reveal(reconstruction);
    let at = if center {
        i + n / 2
    } else {
        i
    };
    lemma_full_window(w, win as nat, n_fft, m, 0);
    lemma_window_updates(v, frames, n_fft, normalized, m, 0, 0);
    let fu = frame_updates(x, v, n_fft)->0;
    let wu = window_updates(v, frames, n_fft, normalized)->0;
    let weights = |r: int, j: int|
        if normalized {
            given_window(w, win, m, j) * given_window(w, win, m, j)
        } else {
            given_window(w, win, m, j)
        };
    let samples = |r: int, j: int| frame_sample(x, m, n, r, j) * given_window(w, win, m, j);
    assert forall|r: int, j: int| 0 <= r < frames && 0 <= j < n_fft implies re(
        wu,
        m,
        r * n_fft + j,
    ) == #[trigger] weights(r, j) by {
        lemma_full_window(w, win as nat, n_fft, m, j);
        lemma_window_updates(v, frames, n_fft, normalized, m, r, j);
    }
    assert forall|r: int, j: int| 0 <= r < frames && 0 <= j < n_fft implies re(
        fu,
        m,
        r * n_fft + j,
    ) == #[trigger] samples(r, j) by {
        lemma_full_window(w, win as nat, n_fft, m, j);
        lemma_frame_updates(x, v, n_fft, m, r, j);
    }
    lemma_added(fu, t, frames, n_fft, hop, m, samples, at);
    lemma_added(wu, t, frames, n_fft, hop, m, weights, at);
    let sum = overlap_added(fu, t, frames, n_fft, hop)->0;
    let windows = overlap_added(wu, t, frames, n_fft, hop)->0;
    lemma_elements_one(t as usize);
    reveal(trimmed_signal);
    assert(normalized_by(sum, windows) == Some(y));
    assert(y.shape == seq![t as usize]) by {
        broadcast_self(seq![t as usize]);
        broadcast_scalar(seq![t as usize]);
    }
    assert((frames - 1) * hop >= 0) by (nonlinear_arith)
        requires
            frames >= 1,
            hop >= 0,
    ;
    lemma_trimmed(y, t, n_fft / 2, center, length, m, i);
    lemma_normalized(sum, windows, t, m, at);
    lemma_floor_is_positive();
    let (p, q) = (re(sum, m, at), re(windows, m, at));
    if q > number(F32::from_bits(0x2edb_e6ff)) {
        assert(p / q * q == p) by (nonlinear_arith)
            requires
                q > 0real,
        ;
    }
}

/// The samples that are kept, from half a frame on where the frames were
/// centred.
proof fn lemma_trimmed(
    y: Tensor,
    t: nat,
    pad: nat,
    center: bool,
    length: Option<usize>,
    m: Meaning,
    i: int,
)
    requires
        y.shape == seq![t as usize],
        t <= MAX_DECODED_SAMPLES,
        trimmed_signal(y, t, pad, center, length) is Some,
        0 <= i < trimmed_signal(y, t, pad, center, length)->0.shape[0],
    ensures
        trimmed_signal(y, t, pad, center, length)->0.shape.len() == 1,
        2 * pad <= t ==> trimmed_signal(y, t, pad, center, length)->0.shape[0] == match length {
            Some(n) => n as int,
            None => if center {
                t - 2 * pad
            } else {
                t as int
            },
        },
        0 <= i + if center {
            pad as int
        } else {
            0int
        } < t,
        re(trimmed_signal(y, t, pad, center, length)->0, m, i) == re(
            y,
            m,
            i + if center {
                pad as int
            } else {
                0int
            },
        ),
{
    reveal(trimmed_signal);
    let z = trimmed_signal(y, t, pad, center, length)->0;
    let start = if center {
        pad as int
    } else {
        0int
    };
    let stop = match length {
        Some(n) => start + n,
        None => t - pad,
    };
    if center || length is Some {
        assert(z.args =~= seq![y]);
        slice_len_bound(t as int, start, stop, 1);
        lemma_rearranged(z, m, i);
        let unit = z.params[2] as int;
        assert(i * unit == i) by (nonlinear_arith)
            requires
                unit == 1,
        ;
    }
}

/// There are filters exactly of a positive number, for frames and rates that
/// are not empty, and over a band that begins at no negative frequency and ends
/// above its beginning, by default at half the sample rate.
pub proof fn filters_need_a_band(c: MelSettings)
    requires
        c.n_mels <= MAX_DIM,
        c.n_fft / 2 < MAX_DIM,
        (c.n_fft / 2 + 1) * c.n_mels <= usize::MAX,
    ensures
        ({
            let high = match c.f_max {
                Some(f) => f,
                None => F32 { bits: nearest_bits((c.sample_rate / 2) as nat) as u32 },
            };
            mel_filters(c.n_mels as nat, c.n_fft as nat, c.sample_rate, c.f_min, c.f_max) is Some
                <==> c.n_fft > 0 && c.n_mels > 0 && c.sample_rate > 0 && !c.f_min.is_nan()
                && c.f_min.rank() >= 0 && !high.is_nan() && c.f_min.rank() < high.rank()
        }),
{
    let shape = seq![c.n_mels, (c.n_fft / 2 + 1) as usize];
    lemma_elements_two(c.n_mels, (c.n_fft / 2 + 1) as usize);
    assert(c.n_mels * (c.n_fft / 2 + 1) == (c.n_fft / 2 + 1) * c.n_mels) by (nonlinear_arith);
    assert(shape[0] == c.n_mels && shape[1] == c.n_fft / 2 + 1);
}

/// A floor that is given counts where it is a finite number above zero, and
/// else the least positive normal number.
pub proof fn given_floors_count(x: F32)
    ensures
        x.is_finite() && x.is_positive() ==> LogFloor::Custom(x).value() == x,
        !(x.is_finite() && x.is_positive()) ==> LogFloor::Custom(x).value() == (F32 {
            bits: 0x80_0000,
        }),
{
}

/// A signal is mirrored at its first and at its last sample, which stand once:
/// what is `i` samples before the first is what is `i` samples behind it, and
/// what is `i` samples behind the last is what is `i` samples before it.
pub proof fn end_samples_are_the_mirrors(i: int, len: int)
    requires
        0 <= i < len,
    ensures
        mirrored(i, len) == i,
        mirrored(-i, len) == i,
        mirrored(len - 1 + i, len) == len - 1 - i,
{
}

/// There are as many frames as begin a hop apart and lie within the samples:
/// the last one does, and one more would not.
pub proof fn frames_fill_the_signal(len: int, n_fft: int, hop: int)
    requires
        0 <= n_fft <= len,
        hop >= 1,
    ensures
        (frame_count(len, n_fft, hop) - 1) * hop + n_fft <= len,
        frame_count(len, n_fft, hop) * hop + n_fft > len,
        frame_count(len, n_fft, hop) >= 1,
{
    let q = (len - n_fft) / hop;
    assert(q * hop <= len - n_fft && (q + 1) * hop > len - n_fft && q >= 0) by (nonlinear_arith)
        requires
            q == (len - n_fft) / hop,
            hop >= 1,
            len >= n_fft,
    ;
}

/// Samples can be asked for exactly as far as the overlapping frames reach,
/// counted from half a frame on where these were centred.
pub proof fn samples_reach_to_the_last_frame(
    frames: nat,
    n_fft: nat,
    hop: nat,
    center: bool,
    length: usize,
)
    requires
        frames >= 1,
    ensures
        length_available(frames, n_fft, hop, center, Some(length)) <==> length + (if center {
            n_fft / 2
        } else {
            0
        }) <= (frames - 1) * hop + n_fft,
        length_available(frames, n_fft, hop, center, None),
{
    assert((frames - 1) * hop >= 0) by (nonlinear_arith)
        requires
            frames >= 1,
            hop >= 0,
    ;
}

/// Each name of a window function is that of its own function, and no other
/// text is a name; a window is the one of its name whatever the case of its
/// letters.
pub proof fn window_names_are_told_apart(name: Seq<char>, n: int)
    ensures
        window_kind("hann"@) == Some(WindowKind::Hann),
        window_kind("hanning"@) == Some(WindowKind::Hann),
        window_kind("hamming"@) == Some(WindowKind::Hamming),
        window_kind("blackman"@) == Some(WindowKind::Blackman),
        window_kind("bartlett"@) == Some(WindowKind::Bartlett),
        window_kind(name) is Some ==> name == "hann"@ || name == "hanning"@ || name == "hamming"@
            || name == "blackman"@ || name == "bartlett"@,
        named_window(name, n) == match window_kind(lowered(name)) {
            Some(kind) => window(kind, n),
            None => None,
        },
{
    reveal_strlit("hann");
    reveal_strlit("hanning");
    reveal_strlit("hamming");
    reveal_strlit("blackman");
    reveal_strlit("bartlett");
    assert("hanning"@[2] != "hamming"@[2]);
    assert("blackman"@[1] != "bartlett"@[1]);
    assert("hann"@.len() == 4 && "hanning"@.len() == 7 && "hamming"@.len() == 7);
    assert("blackman"@.len() == 8 && "bartlett"@.len() == 8);
}

} // verus!
