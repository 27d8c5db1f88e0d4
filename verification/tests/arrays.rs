//! What the computations that the library builds give when they are carried
//! out.
use mlxrs::array::{Array, Op, WindowKind};
use mlxrs::audio::dsp::{
    bartlett, blackman, check_overlap, hamming, hann_window, istft, log_mel_spectrogram,
    mel_filter_bank, mel_spectrogram, reflect_pad_1d, stft, window_from_name, LogFloor, Window,
    MAX_DECODED_SAMPLES, MAX_OLA_WORK,
};
use mlxrs::dtype::Dtype;
use mlxrs::embeddings::encode::{
    encode, encode_rows, tokenize, tokenize_and_pad, EmbeddingModel, EmbeddingOutput, EncodeConfig,
    Tokenizer,
};
use mlxrs::embeddings::pool::PoolingStrategy;
use mlxrs::error::Error;
use mlxrs::lm::lora::config::{
    check_adapter_safetensors, check_config, config_text, read_bounded_adapter_config,
    ConfigFields, FineTuneType, LoraConfig, LoraParameters, Scale, DEFAULT_LORA_RANK,
    DEFAULT_LORA_SCALE, DEFAULT_NUM_LAYERS, MAX_ADAPTER_SAFETENSORS_BYTES, MAX_CONFIG_BYTES,
};
use mlxrs::lm::lora::layers::{
    linear_to_lora_layers, load_adapters, missing_error, parse_block_index, path_matches_key,
    split_adapter_params, unused_error, Weights, NOTHING_ADAPTED,
};
use mlxrs::lm::lora::linear::{
    lora_delta, unknown_mode, validate_config_rank, AdapterParams, BaseLinear, DoRALinear,
    LoRALinear, LoraLayer,
};
use mlxrs::lm::tuner::clip::clip_grad_norm;
use mlxrs::lm::tuner::schedulers::cosine_decay;
use mlxrs::lm::tuner::sgd::{LearningRate, SGD};
use mlxrs::names::NameMap;
use mlxrs::ops::arithmetic::{add, divide, multiply, subtract};
use mlxrs::ops::comparison::{equal, greater};
use mlxrs::ops::fft::{
    fft, fft2, fftn, fftshift, ifft, ifft2, ifftn, ifftshift, irfft, irfft2, irfftn, rfft, rfft2,
    rfftn, FftKind, FftNorm,
};
use mlxrs::ops::indexing::slice;
use mlxrs::ops::linalg::norm_rows;
use mlxrs::ops::quantized::{quantize, QuantMode};
use mlxrs::ops::reduction::{argmax, max, min, sum, sum_axis};
use mlxrs::ops::shape::{as_strided, broadcast_to, reshape};
use mlxrs::order::sort_texts;
use mlxrs::scalar::F32;
use mlxrs::shape::validate_dims;
use mlxrs::stream::{DefaultStream, Device, DeviceKind, Stream, StreamCache};
use mlxrs::text::{bracket, decimal_text, number_list_text, quoted_list, signed_text};
use mlxrs::transforms::closure::{closure_custom_new, settle, Call, Callee, Closure};
use mlxrs::vlm::image::{
    center_crop, image_to_array, normalize, normalize_imagenet, pad_to_square, patchify,
    preprocess, rescale, resize, resize_lanczos, ColorOrder, Image, ImageProcessorConfig,
};
use mlxrs::vlm::resize::{Filter, Taps, PRECISION_BITS};

/// What an array holds: its shape and its elements, row by row.
#[derive(Clone, Debug)]
struct Value {
    shape: Vec<usize>,
    re: Vec<f64>,
    im: Vec<f64>,
}

fn f32s(v: &[f32]) -> Vec<u64> {
    v.iter().map(|x| x.to_bits() as u64).collect()
}

fn floats(v: &[f32], shape: &[usize]) -> Array {
    Array::from_slice(&f32s(v), shape, Dtype::F32).unwrap()
}

fn filled(shape: &[usize], v: f32) -> Array {
    Array::full(shape, num(v)).unwrap()
}

fn num(v: f32) -> F32 {
    F32::from_bits(v.to_bits())
}

fn decode(bits: u64, dtype: Dtype) -> f64 {
    match dtype {
        Dtype::F32 => f32::from_bits(bits as u32) as f64,
        Dtype::I32 => (bits as u32 as i32) as f64,
        Dtype::Bool | Dtype::U8 | Dtype::U32 => bits as f64,
        _ => panic!("no element of this type is read"),
    }
}

fn round(v: f64, dtype: Dtype) -> f64 {
    match dtype {
        Dtype::F32 | Dtype::Complex64 => v as f32 as f64,
        _ => v,
    }
}

fn count(shape: &[usize]) -> usize {
    shape.iter().product()
}

fn places(shape: &[usize]) -> Vec<Vec<usize>> {
    let mut all = Vec::new();
    for k in 0..count(shape) {
        let mut idx = vec![0; shape.len()];
        let mut rest = k;
        for d in (0..shape.len()).rev() {
            idx[d] = rest % shape[d];
            rest /= shape[d];
        }
        all.push(idx);
    }
    all
}

fn offset(shape: &[usize], idx: &[usize]) -> usize {
    let mut k = 0;
    for d in 0..shape.len() {
        k = k * shape[d] + idx[d];
    }
    k
}

/// The place of an operand's element at `idx` of a broadcast result.
fn spread(shape: &[usize], idx: &[usize]) -> usize {
    let skip = idx.len() - shape.len();
    let own: Vec<usize> =
        (0..shape.len()).map(|d| if shape[d] == 1 { 0 } else { idx[d + skip] }).collect();
    offset(shape, &own)
}

fn window_value(kind: WindowKind, k: usize, n: usize) -> f64 {
    let t = 2.0 * std::f64::consts::PI * k as f64 / (n - 1) as f64;
    match kind {
        WindowKind::Hann => 0.5 * (1.0 - t.cos()),
        WindowKind::Hamming => 0.54 - 0.46 * t.cos(),
        WindowKind::Blackman => 0.42 - 0.5 * t.cos() + 0.08 * (2.0 * t).cos(),
        WindowKind::Bartlett => {
            let half = (n - 1) as f64 / 2.0;
            1.0 - 2.0 * (k as f64 - half).abs() / (n - 1) as f64
        }
    }
}

/// The discrete Fourier transform of a row of complex numbers.
fn transform(re: &[f64], im: &[f64], inverse: bool) -> (Vec<f64>, Vec<f64>) {
    let n = re.len();
    let sign = if inverse { 1.0 } else { -1.0 };
    let mut out_re = vec![0.0; n];
    let mut out_im = vec![0.0; n];
    for k in 0..n {
        for t in 0..n {
            let phase = sign * 2.0 * std::f64::consts::PI * (k * t % n) as f64 / n as f64;
            out_re[k] += re[t] * phase.cos() - im[t] * phase.sin();
            out_im[k] += re[t] * phase.sin() + im[t] * phase.cos();
        }
        if inverse {
            out_re[k] /= n as f64;
            out_im[k] /= n as f64;
        }
    }
    (out_re, out_im)
}

/// A matrix after it was quantized and unpacked again, group by group.
fn requantized(w: &Value, group: usize, bits: u32) -> Value {
    let levels = ((1u64 << bits) - 1) as f64;
    let mut out = w.clone();
    for chunk in out.re.chunks_mut(group) {
        let low = chunk.iter().cloned().fold(f64::INFINITY, f64::min);
        let high = chunk.iter().cloned().fold(f64::NEG_INFINITY, f64::max);
        let step = ((high - low) / levels).max(1e-7);
        for x in chunk.iter_mut() {
            let q = ((*x - low) / step).round().clamp(0.0, levels);
            *x = q * step + low;
        }
    }
    out
}

fn product(a: &Value, b: &Value, transposed: bool) -> Vec<f64> {
    let n = a.shape[a.shape.len() - 1];
    let m = a.re.len() / n;
    let p = if transposed { b.shape[0] } else { b.shape[1] };
    let mut out = Vec::new();
    for i in 0..m {
        for j in 0..p {
            let mut s = 0.0;
            for k in 0..n {
                let y = if transposed { b.re[j * n + k] } else { b.re[k * p + j] };
                s += a.re[i * n + k] * y;
            }
            out.push(s);
        }
    }
    out
}

/// Carries out the computation that an array stands for.
fn eval(a: &Array) -> Value {
    let shape = a.shape();
    let size = count(&shape);
    let args = a.args();
    let params = a.params();
    let mut im = vec![0.0; size];
    let pair = |f: fn(f64, f64) -> f64| -> Vec<f64> {
        let x = eval(&args[0]);
        let y = eval(&args[1]);
        places(&shape)
            .iter()
            .map(|idx| f(x.re[spread(&x.shape, idx)], y.re[spread(&y.shape, idx)]))
            .collect()
    };
    let re: Vec<f64> = match a.op() {
        Op::Data => a.bits().iter().map(|b| decode(*b, a.dtype())).collect(),
        Op::Full => vec![decode(a.bits()[0], a.dtype()); size],
        Op::Window(kind) => (0..size).map(|k| window_value(kind, k, size)).collect(),
        Op::Reshape | Op::ExpandDims | Op::Squeeze | Op::Astype => {
            let x = eval(&args[0]);
            im = x.im;
            x.re
        }
        Op::BroadcastTo => {
            let x = eval(&args[0]);
            places(&shape).iter().map(|idx| x.re[spread(&x.shape, idx)]).collect()
        }
        Op::Transpose => {
            let x = eval(&args[0]);
            places(&shape)
                .iter()
                .map(|idx| {
                    let mut own = vec![0; idx.len()];
                    for d in 0..idx.len() {
                        own[params[d] as usize] = idx[d];
                    }
                    x.re[offset(&x.shape, &own)]
                })
                .collect()
        }
        Op::Slice => {
            let x = eval(&args[0]);
            (0..size).map(|k| x.re[params[0] as usize + k * params[2] as usize]).collect()
        }
        Op::Concatenate => args.iter().flat_map(|x| eval(x).re).collect(),
        Op::Pad => {
            let x = eval(&args[0]);
            let mut v = vec![0.0; params[0] as usize];
            v.extend(x.re);
            v.resize(size, 0.0);
            v
        }
        Op::AsStrided => {
            let x = eval(&args[0]);
            places(&shape)
                .iter()
                .map(|idx| {
                    let mut k = a.bits()[0] as i64;
                    for d in 0..idx.len() {
                        k += idx[d] as i64 * params[d];
                    }
                    x.re[k as usize]
                })
                .collect()
        }
        Op::Fft(kind, _) => {
            let x = eval(&args[0]);
            let n = params[0] as usize;
            let width = x.shape[x.shape.len() - 1];
            let mut v = Vec::new();
            im = Vec::new();
            for row in 0..x.re.len() / width {
                let mut r: Vec<f64> = x.re[row * width..(row + 1) * width].to_vec();
                let mut i: Vec<f64> = x.im[row * width..(row + 1) * width].to_vec();
                match kind {
                    FftKind::InverseReal => {
                        r.resize(n, 0.0);
                        i.resize(n, 0.0);
                        for k in n / 2 + 1..n {
                            r[k] = r[n - k];
                            i[k] = -i[n - k];
                        }
                        v.extend(transform(&r, &i, true).0);
                    }
                    _ => {
                        r.resize(n, 0.0);
                        i.resize(n, 0.0);
                        let keep = shape[shape.len() - 1];
                        let (u, w) = transform(&r, &i, kind == FftKind::InverseComplex);
                        v.extend(&u[..keep]);
                        im.extend(&w[..keep]);
                    }
                }
            }
            im.resize(size, 0.0);
            v
        }
        Op::Roll => {
            let x = eval(&args[0]);
            let n = params.len() / 2;
            let mut v = vec![0.0; size];
            for idx in places(&shape) {
                let mut to = idx.clone();
                for d in 0..n {
                    let axis = params[d].rem_euclid(shape.len() as i64) as usize;
                    to[axis] = (to[axis] + params[n + d] as usize) % shape[axis];
                }
                v[offset(&shape, &to)] = x.re[offset(&shape, &idx)];
            }
            v
        }
        Op::Abs => {
            let x = eval(&args[0]);
            (0..size).map(|k| (x.re[k] * x.re[k] + x.im[k] * x.im[k]).sqrt()).collect()
        }
        Op::Square => eval(&args[0]).re.iter().map(|x| x * x).collect(),
        Op::Log => eval(&args[0]).re.iter().map(|x| x.ln()).collect(),
        Op::Norm => {
            let x = eval(&args[0]);
            x.re.chunks(x.shape[1]).map(|r| r.iter().map(|v| v * v).sum::<f64>().sqrt()).collect()
        }
        Op::Sum => {
            let x = eval(&args[0]);
            if params.is_empty() {
                vec![x.re.iter().sum()]
            } else {
                let axis = params[0].rem_euclid(x.shape.len() as i64) as usize;
                let mut v = vec![0.0; size];
                for idx in places(&x.shape) {
                    let mut to = idx.clone();
                    to.remove(axis);
                    v[offset(&shape, &to)] += x.re[offset(&x.shape, &idx)];
                }
                v
            }
        }
        Op::Min => vec![eval(&args[0]).re.iter().cloned().fold(f64::INFINITY, f64::min)],
        Op::Max => vec![eval(&args[0]).re.iter().cloned().fold(f64::NEG_INFINITY, f64::max)],
        Op::ArgMax => {
            let x = eval(&args[0]);
            let mut best = 0;
            for k in 1..x.re.len() {
                if x.re[k] > x.re[best] {
                    best = k;
                }
            }
            vec![best as f64]
        }
        Op::Add => pair(|x, y| x + y),
        Op::Subtract => pair(|x, y| x - y),
        Op::Multiply => pair(|x, y| x * y),
        Op::Divide => pair(|x, y| x / y),
        Op::Maximum => pair(f64::max),
        Op::Greater => pair(|x, y| if x > y { 1.0 } else { 0.0 }),
        Op::Equal => pair(|x, y| if x == y { 1.0 } else { 0.0 }),
        Op::Matmul => product(&eval(&args[0]), &eval(&args[1]), false),
        Op::Select => {
            let (m, x, y) = (eval(&args[0]), eval(&args[1]), eval(&args[2]));
            places(&shape)
                .iter()
                .map(|idx| {
                    if m.re[spread(&m.shape, idx)] != 0.0 {
                        x.re[spread(&x.shape, idx)]
                    } else {
                        y.re[spread(&y.shape, idx)]
                    }
                })
                .collect()
        }
        Op::ScatterAdd => {
            let mut v = eval(&args[0]).re;
            let (at, by) = (eval(&args[1]), eval(&args[2]));
            for k in 0..by.re.len() {
                v[at.re[k] as usize] += by.re[k];
            }
            v
        }
        Op::Dequantize(_) => {
            let w = eval(&args[0].args()[0]);
            requantized(&w, params[0] as usize, params[1] as u32).re
        }
        Op::QuantizedMatmul(_) => {
            let w = eval(&args[1].args()[0]);
            product(
                &eval(&args[0]),
                &requantized(&w, params[0] as usize, params[1] as u32),
                true,
            )
        }
        Op::Pool(strategy) => {
            let (h, m) = (eval(&args[0]), eval(&args[1]));
            let (batch, len, width) = (h.shape[0], h.shape[1], h.shape[2]);
            let mut v = Vec::new();
            for b in 0..batch {
                let marked: Vec<usize> = (0..len).filter(|t| m.re[b * len + t] != 0.0).collect();
                let taken: Vec<usize> = match strategy {
                    PoolingStrategy::Mean => marked,
                    PoolingStrategy::Cls => marked[..1].to_vec(),
                    PoolingStrategy::Max => marked,
                    PoolingStrategy::Unpooled => panic!("nothing is pooled"),
                };
                for c in 0..width {
                    if strategy == PoolingStrategy::Max {
                        let all = taken.iter().map(|t| h.re[(b * len + t) * width + c]);
                        v.push(all.fold(f64::NEG_INFINITY, f64::max));
                        continue;
                    }
                    let s: f64 = taken.iter().map(|t| h.re[(b * len + t) * width + c]).sum();
                    v.push(s / taken.len() as f64);
                }
            }
            v
        }
        Op::TakeColumns => {
            let x = eval(&args[0]);
            let keep = params[0] as usize;
            x.re.chunks(x.shape[1]).flat_map(|r| r[..keep].to_vec()).collect()
        }
        Op::NormalizeRows => {
            let x = eval(&args[0]);
            x.re
                .chunks(x.shape[1])
                .flat_map(|r| {
                    let n = r.iter().map(|v| v * v).sum::<f64>().sqrt();
                    r.iter().map(|v| v / n).collect::<Vec<f64>>()
                })
                .collect()
        }
        other => panic!("{other:?} is not carried out"),
    };
    let re = re.into_iter().map(|v| round(v, a.dtype())).collect();
    let im = im.into_iter().map(|v| round(v, a.dtype())).collect();
    Value { shape, re, im }
}

fn to_vec(a: &Array) -> Vec<f32> {
    eval(a).re.iter().map(|x| *x as f32).collect()
}

/// How far a window may be from its formula.
const WIN_TOL: f32 = 1e-6;

#[test]
fn hamming_matches_closed_form_n5() {
    let v = to_vec(&hamming(5).unwrap());
    let expected = [0.08_f32, 0.54, 1.0, 0.54, 0.08];
    assert_eq!(v.len(), 5);
    for (i, (g, e)) in v.iter().zip(expected.iter()).enumerate() {
        assert!((g - e).abs() < WIN_TOL, "hamming[{i}]: got {g}, want {e}");
    }
}

#[test]
fn hamming_endpoints_are_0_08() {
    let v = to_vec(&hamming(8).unwrap());
    assert!((v[0] - 0.08).abs() < WIN_TOL, "first: {}", v[0]);
    assert!((v[7] - 0.08).abs() < WIN_TOL, "last: {}", v[7]);
}

#[test]
fn blackman_matches_closed_form_n5() {
    let v = to_vec(&blackman(5).unwrap());
    let expected = [0.0_f32, 0.34, 1.0, 0.34, 0.0];
    assert_eq!(v.len(), 5);
    for (i, (g, e)) in v.iter().zip(expected.iter()).enumerate() {
        assert!((g - e).abs() < WIN_TOL, "blackman[{i}]: got {g}, want {e}");
    }
}

#[test]
fn bartlett_matches_closed_form_n5_and_n4() {
    let v5 = to_vec(&bartlett(5).unwrap());
    let e5 = [0.0_f32, 0.5, 1.0, 0.5, 0.0];
    assert_eq!(v5.len(), 5);
    for (i, (g, e)) in v5.iter().zip(e5.iter()).enumerate() {
        assert!((g - e).abs() < WIN_TOL, "bartlett5[{i}]: got {g}, want {e}");
    }
    let v4 = to_vec(&bartlett(4).unwrap());
    let e4 = [0.0_f32, 2.0 / 3.0, 2.0 / 3.0, 0.0];
    assert_eq!(v4.len(), 4);
    for (i, (g, e)) in v4.iter().zip(e4.iter()).enumerate() {
        assert!((g - e).abs() < WIN_TOL, "bartlett4[{i}]: got {g}, want {e}");
    }
}

#[test]
fn windows_reject_n_lt_2() {
    for r in [hamming(0), hamming(1), blackman(1), bartlett(0), bartlett(1)] {
        assert!(matches!(r, Err(Error::Backend { .. })));
    }
}

#[test]
fn window_from_name_dispatches_case_insensitively() {
    let hann = to_vec(&window_from_name("HaNn", 8).unwrap());
    assert!(hann[0].abs() < WIN_TOL && hann[7].abs() < WIN_TOL);
    let hanning = to_vec(&window_from_name("hanning", 8).unwrap());
    assert_eq!(hann, hanning, "hann and hanning must be identical");
    let hamming = to_vec(&window_from_name("HAMMING", 8).unwrap());
    assert!((hamming[0] - 0.08).abs() < WIN_TOL);
    let bartlett = to_vec(&window_from_name("Bartlett", 5).unwrap());
    assert!((bartlett[2] - 1.0).abs() < WIN_TOL);
}

#[test]
fn window_from_name_rejects_unknown() {
    assert!(matches!(window_from_name("kaiser", 8), Err(Error::Backend { .. })));
}

fn signal_16() -> [f32; 16] {
    [
        0.1, 0.5, -0.3, 0.8, -0.2, 0.6, 0.0, -0.7, 0.4, 0.9, -0.5, 0.2, 0.3, -0.1, 0.7, -0.4,
    ]
}

#[test]
fn istft_reconstructs_stft_with_matching_window() {
    let buf = signal_16();
    let x = floats(&buf, &[16]);
    let spec = stft(&x, 8, 4, None).unwrap();
    assert_eq!(spec.shape(), vec![5, 5]);
    let w = hann_window(8).unwrap();
    let rec = istft(&spec, Some(4), Some(8), Window::Array(&w), true, None, true).unwrap();
    let r = to_vec(&rec);
    assert_eq!(r.len(), buf.len(), "round-trip length mismatch");
    for (i, (g, e)) in r.iter().zip(buf.iter()).enumerate() {
        assert!((g - e).abs() < 1e-5, "reconstruction[{i}]: got {g}, want {e}");
    }
}

#[test]
fn istft_center_length_removes_pad_before_truncating() {
    let buf = signal_16();
    let x = floats(&buf, &[16]);
    let spec = stft(&x, 8, 4, None).unwrap();
    let w = hann_window(8).unwrap();
    let rec = istft(&spec, Some(4), Some(8), Window::Array(&w), true, Some(10), true).unwrap();
    let r = to_vec(&rec);
    assert_eq!(r.len(), 10, "length override should yield exactly 10 samples");
    for (i, (g, e)) in r.iter().zip(buf.iter().take(10)).enumerate() {
        assert!((g - e).abs() < 1e-5, "center+length reconstruction[{i}]: got {g}, want {e}");
    }
    let rec_no_center =
        istft(&spec, Some(4), Some(8), Window::Array(&w), false, Some(10), true).unwrap();
    let r_nc = to_vec(&rec_no_center);
    assert_eq!(r_nc.len(), 10);
    assert!((r_nc[0] - buf[0]).abs() > 1e-3, "the head should be the reflected prefix");
}

#[test]
fn istft_named_window_runs_and_is_finite() {
    let buf = signal_16();
    let x = floats(&buf, &[16]);
    let spec = stft(&x, 8, 4, None).unwrap();
    let rec = istft(&spec, Some(4), Some(8), Window::Named("hann"), true, None, false).unwrap();
    for (i, v) in to_vec(&rec).iter().enumerate() {
        assert!(v.is_finite(), "istft[{i}] not finite: {v}");
    }
}

#[test]
fn istft_named_window_is_periodic_no_trailing_zero() {
    let full = hann_window(9).unwrap();
    let periodic = slice(&full, 0, 8, 1).unwrap();
    let v = to_vec(&periodic);
    assert_eq!(v.len(), 8);
    assert!(v[0].abs() < WIN_TOL, "periodic[0] should be 0, got {}", v[0]);
    assert!((v[7] - 0.146_447).abs() < 1e-4, "periodic[7] should be ~0.1464, got {}", v[7]);
}

#[test]
fn istft_rejects_bad_shapes_and_params() {
    let one_d = floats(&[1.0, 2.0, 3.0], &[3]);
    assert!(matches!(
        istft(&one_d, None, None, Window::Named("hann"), true, None, false),
        Err(Error::Backend { .. })
    ));
    let buf = signal_16();
    let x = floats(&buf, &[16]);
    let spec = stft(&x, 8, 4, None).unwrap();
    let w = hann_window(8).unwrap();
    assert!(matches!(
        istft(&spec, Some(0), Some(8), Window::Array(&w), true, None, false),
        Err(Error::Backend { .. })
    ));
    assert!(matches!(
        istft(&spec, Some(4), Some(16), Window::Array(&w), true, None, false),
        Err(Error::Backend { .. })
    ));
    assert!(matches!(
        istft(&spec, Some(4), Some(8), Window::Array(&w), true, Some(1000), true),
        Err(Error::Backend { .. })
    ));
}

fn signal_19() -> [f32; 19] {
    [
        0.1, 0.5, -0.3, 0.8, -0.2, 0.6, 0.0, -0.7, 0.4, 0.9, -0.5, 0.2, 0.3, -0.1, 0.7, -0.4, 0.55,
        0.66, -0.77,
    ]
}

#[test]
fn istft_roundtrip_non_hop_aligned_length_asserts_values() {
    for &len in &[17usize, 19usize] {
        let full = signal_19();
        let buf = &full[..len];
        let x = floats(buf, &[len]);
        let spec = stft(&x, 8, 4, None).unwrap();
        assert_eq!(spec.shape(), vec![5, 5]);
        let w = hann_window(8).unwrap();
        let rec = istft(&spec, Some(4), Some(8), Window::Array(&w), true, Some(len), true).unwrap();
        let r = to_vec(&rec);
        assert_eq!(r.len(), len, "non-hop-aligned length {len}: wrong output length");
        for (i, (g, e)) in r.iter().zip(buf.iter()).enumerate() {
            assert!((g - e).abs() < 1e-5, "non-hop-aligned[{len}][{i}]: got {g}, want {e}");
        }
    }
}

#[test]
fn istft_roundtrip_win_length_lt_n_fft_asserts_values() {
    let buf = signal_16();
    let x = floats(&buf, &[16]);
    let spec = stft(&x, 16, 4, Some(8)).unwrap();
    assert_eq!(spec.shape(), vec![5, 9]);
    let w = hann_window(8).unwrap();
    let rec = istft(&spec, Some(4), Some(8), Window::Array(&w), true, Some(16), true).unwrap();
    let r = to_vec(&rec);
    assert_eq!(r.len(), 16, "win<n_fft round-trip length mismatch");
    for (i, (g, e)) in r.iter().zip(buf.iter()).take(15).enumerate() {
        assert!((g - e).abs() < 1e-5, "win<n_fft reconstruction[{i}]: got {g}, want {e}");
    }
}

#[test]
fn istft_roundtrip_win_length_lt_n_fft_full_coverage_exact() {
    let buf = signal_16();
    let x = floats(&buf, &[16]);
    let spec = stft(&x, 16, 4, Some(12)).unwrap();
    assert_eq!(spec.shape(), vec![5, 9]);
    let w = hann_window(12).unwrap();
    let rec = istft(&spec, Some(4), Some(12), Window::Array(&w), true, Some(16), true).unwrap();
    let r = to_vec(&rec);
    assert_eq!(r.len(), 16);
    for (i, (g, e)) in r.iter().zip(buf.iter()).enumerate() {
        assert!((g - e).abs() < 1e-5, "win12<n_fft16 reconstruction[{i}]: got {g}, want {e}");
    }
}

#[test]
fn istft_rejects_pathological_scatter_work_before_alloc() {
    let n_freqs: usize = 9 * 1024 * 1024 + 1;
    let num_frames: usize = 4;
    let spec = Array::zeros(&[num_frames, n_freqs]).unwrap().astype(Dtype::Complex64).unwrap();
    let w = hann_window(8).unwrap();
    let res = istft(&spec, Some(2), Some(8), Window::Array(&w), true, None, false);
    assert!(
        matches!(res, Err(Error::Backend { .. })),
        "pathological num_frames*n_fft must be rejected by the cap on the work"
    );
}

#[test]
fn stft_reflects_at_both_ends() {
    // Frames of one sample show the padded signal as it is.
    let x = floats(&[1.0, 2.0, 3.0, 4.0], &[4]);
    let padded = reflect_pad_1d(&x, 2).unwrap();
    assert_eq!(to_vec(&padded), vec![3.0, 2.0, 1.0, 2.0, 3.0, 4.0, 3.0, 2.0]);
}

#[test]
fn stft_refuses_empty_frames_and_short_signals() {
    let x = floats(&signal_16(), &[16]);
    for r in [stft(&x, 0, 4, None), stft(&x, 8, 0, None), stft(&x, 8, 4, Some(9))] {
        assert!(matches!(r, Err(Error::Backend { .. })));
    }
    let short = floats(&[1.0], &[1]);
    assert!(stft(&short, 8, 4, None).is_err());
}

#[test]
fn log_floors_have_their_values() {
    assert_eq!(f32::from_bits(LogFloor::Whisper.value().bits), 1e-10_f32);
    assert_eq!(f32::from_bits(LogFloor::Kaldi.value().bits), 1e-8_f32);
    assert_eq!(f32::from_bits(LogFloor::Custom(num(0.25)).value().bits), 0.25);
    for bad in [0.0_f32, -1.0, f32::NAN, f32::INFINITY] {
        let v = f32::from_bits(LogFloor::Custom(num(bad)).value().bits);
        assert_eq!(v, f32::MIN_POSITIVE);
    }
}

#[test]
fn mel_spectrogram_has_a_row_for_each_filter() {
    let x = floats(&[0.25; 64], &[64]);
    let m = mel_spectrogram(&x, 16, 4, None, 5, 16_000, num(0.0), None).unwrap();
    assert_eq!(m.shape(), vec![5, 17]);
    assert_eq!(m.dtype(), Dtype::F32);
    let l = log_mel_spectrogram(&x, 16, 4, None, 5, 16_000, num(0.0), None).unwrap();
    assert_eq!(l.shape(), vec![5, 17]);
    assert_eq!(l.op(), Op::Log);
    assert!(mel_filter_bank(0, 16, 16_000, num(0.0), None).is_err());
    assert!(mel_filter_bank(5, 16, 0, num(0.0), None).is_err());
}

fn base_weight() -> Array {
    floats(&[1.0, 0.0, 0.0, 0.0, 1.0, 0.0], &[2, 3])
}

fn lora_a() -> Array {
    floats(&[1.0, 0.0, 0.0, 1.0, 0.0, 0.0], &[3, 2])
}

fn lora_b() -> Array {
    floats(&[1.0, 0.0, 0.0, 1.0], &[2, 2])
}

fn params_of(lora_a: Array, lora_b: Array, magnitude: Option<Array>) -> AdapterParams {
    AdapterParams { lora_a, lora_b, magnitude }
}

fn plain_params() -> AdapterParams {
    params_of(lora_a(), lora_b(), None)
}

fn literal(v: f32) -> Scale {
    Scale::Literal(num(v))
}

/// The number that a scale stands for.
fn scale_value(s: Scale) -> f32 {
    match s {
        Scale::Literal(v) => f32::from_bits(v.bits),
        Scale::Ratio { alpha, rank } => f32::from_bits(alpha.bits) / rank as f32,
    }
}

fn approx_eq(a: &[f32], b: &[f32], tol: f32) {
    assert_eq!(a.len(), b.len(), "length mismatch: {a:?} vs {b:?}");
    for (x, y) in a.iter().zip(b.iter()) {
        assert!((x - y).abs() <= tol, "|{x} - {y}| > {tol} ({a:?} vs {b:?})");
    }
}

fn input() -> Array {
    floats(&[1.0, 2.0, 3.0], &[1, 3])
}

#[test]
fn lora_linear_forward_hand_traced() {
    let base = BaseLinear::dense(base_weight(), None).unwrap();
    let layer = LoRALinear::new(base, plain_params(), literal(2.0)).unwrap();
    let out = layer.forward(&input()).unwrap();
    approx_eq(&to_vec(&out), &[3.0, 6.0], 1e-5);
}

#[test]
fn lora_linear_forward_with_bias() {
    let bias = floats(&[10.0, 20.0], &[2]);
    let base = BaseLinear::dense(base_weight(), Some(bias)).unwrap();
    let layer = LoRALinear::new(base, plain_params(), literal(2.0)).unwrap();
    let out = layer.forward(&input()).unwrap();
    approx_eq(&to_vec(&out), &[13.0, 26.0], 1e-5);
}

#[test]
fn lora_linear_zero_b_is_identity() {
    let zero_b = Array::zeros(&[2, 2]).unwrap();
    let base = BaseLinear::dense(base_weight(), None).unwrap();
    let layer = LoRALinear::new(base, params_of(lora_a(), zero_b, None), literal(20.0)).unwrap();
    let out = layer.forward(&input()).unwrap();
    approx_eq(&to_vec(&out), &[1.0, 2.0], 1e-5);
}

#[test]
fn lora_fuse_matches_forward() {
    let base = BaseLinear::dense(base_weight(), None).unwrap();
    let layer = LoRALinear::new(base, plain_params(), literal(2.0)).unwrap();
    let via_forward = layer.forward(&input()).unwrap();
    let fused = layer.fuse(false).unwrap();
    let via_fused = fused.base_output(&input()).unwrap();
    approx_eq(&to_vec(&via_fused), &to_vec(&via_forward), 1e-5);
    approx_eq(&to_vec(&via_fused), &[3.0, 6.0], 1e-5);
}

#[test]
fn lora_fuse_with_bias_matches_forward() {
    let bias = floats(&[10.0, 20.0], &[2]);
    let base = BaseLinear::dense(base_weight(), Some(bias)).unwrap();
    let layer = LoRALinear::new(base, plain_params(), literal(2.0)).unwrap();
    let via_forward = layer.forward(&input()).unwrap();
    let fused = layer.fuse(false).unwrap();
    let via_fused = fused.base_output(&input()).unwrap();
    approx_eq(&to_vec(&via_fused), &to_vec(&via_forward), 1e-5);
}

#[test]
fn dora_linear_forward_hand_traced() {
    let m = floats(&[3.0, 3.0], &[2]);
    let base = BaseLinear::dense(base_weight(), None).unwrap();
    let layer =
        DoRALinear::new(base, params_of(lora_a(), lora_b(), Some(m)), literal(2.0)).unwrap();
    let out = layer.forward(&input()).unwrap();
    approx_eq(&to_vec(&out), &[3.0, 6.0], 1e-5);
}

#[test]
fn dora_linear_forward_renorm_halves() {
    let m = floats(&[1.5, 1.5], &[2]);
    let base = BaseLinear::dense(base_weight(), None).unwrap();
    let layer =
        DoRALinear::new(base, params_of(lora_a(), lora_b(), Some(m)), literal(2.0)).unwrap();
    let out = layer.forward(&input()).unwrap();
    approx_eq(&to_vec(&out), &[1.5, 3.0], 1e-5);
}

#[test]
fn dora_fuse_matches_forward() {
    let m = floats(&[1.5, 2.5], &[2]);
    let base = BaseLinear::dense(base_weight(), None).unwrap();
    let layer =
        DoRALinear::new(base, params_of(lora_a(), lora_b(), Some(m)), literal(2.0)).unwrap();
    let via_forward = layer.forward(&input()).unwrap();
    let fused = layer.fuse(false).unwrap();
    let via_fused = fused.base_output(&input()).unwrap();
    approx_eq(&to_vec(&via_fused), &to_vec(&via_forward), 1e-4);
}

#[test]
fn dora_requires_magnitude() {
    let base = BaseLinear::dense(base_weight(), None).unwrap();
    let err = DoRALinear::new(base, plain_params(), literal(2.0)).unwrap_err();
    assert!(matches!(err, Error::Backend { .. }));
}

#[test]
fn refusals_of_signals_say_what_is_wrong() {
    let cap = MAX_DECODED_SAMPLES;
    let says = |r: std::result::Result<Array, Error>, text: &str| {
        assert_eq!(r.unwrap_err().message(), text);
    };
    says(hann_window(1), "hann_window: n must be >= 2 (got 1)");
    says(hamming(0), "hamming: n must be >= 2 (got 0)");
    says(
        blackman(cap + 1),
        &format!("blackman: n {} exceeds the {cap} cap", cap + 1),
    );
    says(window_from_name("BARTLETT", 1), "bartlett: n must be >= 2 (got 1)");
    says(
        window_from_name("KAISER", 8),
        "window_from_name: unknown window function: kaiser",
    );
    let x = floats(&signal_16(), &[16]);
    let m = floats(&signal_16(), &[4, 4]);
    says(reflect_pad_1d(&m, 2), "reflect_pad_1d: expected 1-D input, got 2-D");
    says(
        reflect_pad_1d(&x, 16),
        "reflect_pad_1d: samples len 16 too short for reflect padding 16 (need len >= padding + 1)",
    );
    says(stft(&x, 0, 4, None), "stft: n_fft must be > 0");
    says(stft(&x, 8, 0, None), "stft: hop_length must be > 0");
    says(stft(&x, 8, 4, Some(0)), "stft: win_length must be > 0");
    says(stft(&x, 8, 4, Some(9)), "stft: win_length 9 > n_fft 8 (unsupported)");
    says(stft(&m, 8, 4, None), "stft: expected 1-D input, got 2-D");
    says(stft(&x, 8, 4, Some(1)), "hann_window: n must be >= 2 (got 1)");
    let spec = stft(&x, 8, 4, None).unwrap();
    let w = hann_window(8).unwrap();
    let back = |x: &Array, hop: usize, win: usize, center: bool, length: Option<usize>| {
        istft(x, Some(hop), Some(win), Window::Array(&w), center, length, true)
    };
    says(
        back(&x, 4, 8, true, None),
        "istft: expected 2-D (num_frames, n_freqs) input, got 1-D",
    );
    says(
        back(&Array::zeros(&[3, 1]).unwrap(), 4, 8, true, None),
        "istft: n_freqs 1 < 2 (need >= 2 bins for irfft)",
    );
    says(back(&Array::zeros(&[0, 5]).unwrap(), 4, 8, true, None), "istft: num_frames must be > 0");
    says(back(&spec, 4, 0, true, None), "istft: win_length must be > 0");
    says(back(&spec, 4, 16, true, None), "istft: win_length 16 > n_fft 8 (unsupported)");
    says(back(&spec, 0, 8, true, None), "istft: hop_length must be > 0");
    says(
        istft(&spec, Some(4), Some(8), Window::Array(&m), true, None, true),
        "istft: explicit window must be 1-D, got 2-D",
    );
    says(
        back(&spec, 4, 8, true, Some(1000)),
        "istft: center offset 4 + length 1000 = 1004 exceeds reconstruction length 24",
    );
    says(
        back(&spec, 4, 8, true, Some(usize::MAX)),
        &format!("istft: center offset 4 + length {} overflows usize", usize::MAX),
    );
    says(
        back(&spec, 4, 8, false, Some(25)),
        "istft: requested length 25 exceeds reconstruction length 24",
    );
    let overlap = |frames: usize, n_fft: usize, hop: usize| {
        check_overlap(frames, n_fft, hop).unwrap_err().message().to_string()
    };
    assert_eq!(check_overlap(5, 8, 4).unwrap(), 24);
    assert_eq!(
        overlap(3, 8, usize::MAX),
        format!(
            "istft: OLA length (num_frames-1)*hop + n_fft overflows usize (num_frames=3, hop={}, \
             n_fft=8)",
            usize::MAX
        )
    );
    assert_eq!(
        overlap(2, 8, cap),
        format!("istft: OLA length {} exceeds the {cap} cap", cap + 8)
    );
    assert_eq!(
        overlap(65_536, 65_536, 1),
        format!(
            "istft: scatter work count 4294967296 (num_frames=65536 * n_fft=65536) exceeds the \
             {MAX_OLA_WORK} work cap"
        )
    );
    says(mel_filter_bank(5, 0, 1, num(0.0), None), "mel_filter_bank: n_fft must be > 0");
    says(mel_filter_bank(0, 16, 1, num(0.0), None), "mel_filter_bank: n_mels must be > 0");
    says(mel_filter_bank(5, 16, 0, num(0.0), None), "mel_filter_bank: sample_rate must be > 0");
    says(
        mel_filter_bank(usize::MAX, 16, 16_000, num(0.0), None),
        &format!("mel_filter_bank: n_mels {} + 2 overflows usize", usize::MAX),
    );
    says(
        mel_filter_bank(1 << 31, 16, 16_000, num(0.0), None),
        "mel_filter_bank: n_mels 2147483648 exceeds i32::MAX",
    );
    says(
        mel_filter_bank(1, 1 << 33, 16_000, num(0.0), None),
        "mel_filter_bank: n_freqs 4294967297 exceeds i32::MAX",
    );
}

#[test]
fn refusals_of_layers_say_what_is_wrong() {
    let text = |e: Error| e.message().to_string();
    assert_eq!(
        text(BaseLinear::dense(filled(&[2, 3, 4], 1.0), None).unwrap_err()),
        "BaseLinear::dense: weight must be 2-D [output_dims, input_dims], got [2, 3, 4]"
    );
    assert_eq!(
        text(BaseLinear::dense(base_weight(), Some(filled(&[3], 1.0))).unwrap_err()),
        "BaseLinear::dense: bias must be [output_dims=2], got [3]"
    );
    let quantized = |bias: bool, group_size: i32, bits: i32, mode: &str| {
        let b = if bias { Some(filled(&[2, 2], 1.0)) } else { None };
        text(
            BaseLinear::quantized(base_weight(), base_weight(), b, None, group_size, bits, mode)
                .unwrap_err(),
        )
    };
    assert_eq!(
        quantized(false, 32, 8, "affine"),
        "BaseLinear::quantized: `affine` mode requires quant_biases (mlx affine_quantize writes \
         {w_q, scales, biases}), got None"
    );
    assert_eq!(
        quantized(true, 32, 4, "mxfp4"),
        "BaseLinear::quantized: `mxfp4` mode is scale-only (mlx fp_quantize writes \
         {w_q, scales}), but quant_biases was provided"
    );
    assert_eq!(
        quantized(true, 32, 4, "q\"x"),
        "BaseLinear::quantized: unknown mode \"q\\\"x\"; allowed: \"affine\", \"mxfp4\", \
         \"mxfp8\", \"nvfp4\""
    );
    assert_eq!(
        quantized(true, -32, 0, "affine"),
        "BaseLinear::quantized: bits (0) and group_size (-32) must be > 0 (per-mode value tables \
         are validated by mlx-c)"
    );
    let lora = |a: &[usize], b: &[usize]| {
        let base = BaseLinear::dense(base_weight(), None).unwrap();
        let params = params_of(filled(a, 1.0), filled(b, 1.0), None);
        text(LoRALinear::new(base, params, literal(1.0)).unwrap_err())
    };
    assert_eq!(lora(&[3], &[2, 2]), "LoRALinear: lora_a must be 2-D [input_dims, r], got [3]");
    assert_eq!(
        lora(&[3, 2], &[2, 2, 1]),
        "LoRALinear: lora_b must be 2-D [r, output_dims], got [2, 2, 1]"
    );
    assert_eq!(
        lora(&[3, 2], &[4, 2]),
        "LoRALinear: rank mismatch \u{2014} lora_a is [_, r=2] but lora_b is [r=4, _]"
    );
    assert_eq!(
        lora(&[5, 2], &[2, 2]),
        "LoRALinear: lora_a leading axis (5) must equal base input_dims (3)"
    );
    assert_eq!(
        lora(&[3, 2], &[2, 7]),
        "LoRALinear: lora_b last axis (7) must equal base output_dims (2)"
    );
    let narrow = BaseLinear::Dense { weight: filled(&[2], 1.0), bias: None };
    assert_eq!(
        text(LoRALinear::new(narrow, plain_params(), literal(1.0)).unwrap_err()),
        "dense base weight must be 2-D [output_dims, input_dims]; got rank-1 shape [2]"
    );
    let dora = |m: Option<Array>| {
        let base = BaseLinear::dense(base_weight(), None).unwrap();
        text(
            DoRALinear::new(base, params_of(lora_a(), lora_b(), m), literal(1.0)).unwrap_err(),
        )
    };
    assert_eq!(
        dora(None),
        "DoRALinear::new: DoRA requires a magnitude `m` (loaded from adapters.safetensors), got \
         None"
    );
    assert_eq!(
        dora(Some(filled(&[2, 1], 1.0))),
        "DoRALinear::new: magnitude `m` must be [output_dims=2], got [2, 1]"
    );
    assert_eq!(
        text(validate_config_rank(&plain_params(), 8, "DoRALinear").unwrap_err()),
        "DoRALinear: adapter factor rank (2) does not match adapter_config.json rank (8); a stale \
         config (or a PEFT config whose `r` key was not recognized) would silently scale by \
         alpha/8 instead of alpha/2"
    );
    assert!(unknown_mode("?").message().contains("unknown mode ?; allowed"));
}

/// A row of ones and a row of halves, 64 wide.
fn wide_weight() -> Array {
    let mut data = vec![1.0f32; 64];
    data.extend(vec![0.5f32; 64]);
    floats(&data, &[2, 64])
}

fn wide_params(magnitude: Option<Array>) -> AdapterParams {
    params_of(filled(&[64, 2], 0.01), lora_b(), magnitude)
}

fn quantized_base(bias: Option<Array>) -> BaseLinear {
    let (w, s, b) = quantize(&wide_weight(), 32, 8, "affine").unwrap();
    BaseLinear::quantized(w, s, b, bias, 32, 8, "affine").unwrap()
}

#[test]
fn qlora_forward_matches_dense_within_quant_error() {
    let x = filled(&[1, 64], 1.0);
    let dense_base = BaseLinear::dense(wide_weight(), None).unwrap();
    let params = wide_params(None);
    let dense_layer =
        LoRALinear::new(dense_base, params.try_clone().unwrap(), literal(2.0)).unwrap();
    let dense_out = dense_layer.forward(&x).unwrap();
    let q_layer = LoRALinear::new(quantized_base(None), params, literal(2.0)).unwrap();
    let q_out = q_layer.forward(&x).unwrap();
    approx_eq(&to_vec(&q_out), &to_vec(&dense_out), 1e-2);
}

#[test]
fn qlora_fuse_dequantize_matches_forward() {
    let x = filled(&[1, 64], 1.0);
    let q_layer = LoRALinear::new(quantized_base(None), wide_params(None), literal(2.0)).unwrap();
    let via_forward = q_layer.forward(&x).unwrap();
    let fused = q_layer.fuse(true).unwrap();
    assert!(matches!(fused, BaseLinear::Dense { .. }));
    let via_fused = fused.base_output(&x).unwrap();
    approx_eq(&to_vec(&via_fused), &to_vec(&via_forward), 1e-2);
}

#[test]
fn qlora_fuse_keeps_the_scheme_unless_asked() {
    let q_layer = LoRALinear::new(quantized_base(None), wide_params(None), literal(2.0)).unwrap();
    let fused = q_layer.fuse(false).unwrap();
    assert!(matches!(
        fused,
        BaseLinear::Quantized { group_size: 32, bits: 8, mode: QuantMode::Affine, .. }
    ));
}

fn fields() -> ConfigFields {
    ConfigFields {
        fine_tune_type: None,
        num_layers: None,
        use_dora: None,
        rank: None,
        scale: None,
        alpha: None,
        keys: None,
        dropout: None,
    }
}

#[test]
fn config_parse_lora_basic() {
    let cfg = LoraConfig::from_fields(ConfigFields {
        fine_tune_type: Some("lora".to_string()),
        num_layers: Some(4),
        rank: Some(16),
        scale: Some(num(20.0)),
        ..fields()
    })
    .unwrap();
    assert_eq!(cfg.fine_tune_type, FineTuneType::Lora);
    assert_eq!(cfg.num_layers, 4);
    assert_eq!(cfg.rank(), 16);
    assert_eq!(scale_value(cfg.scale()), 20.0);
    assert!(!cfg.is_dora());
}

#[test]
fn config_parse_dora_and_alpha_scale() {
    let cfg = LoraConfig::from_fields(ConfigFields {
        fine_tune_type: Some("dora".to_string()),
        num_layers: Some(2),
        rank: Some(8),
        alpha: Some(num(32.0)),
        ..fields()
    })
    .unwrap();
    assert!(cfg.is_dora());
    assert_eq!(scale_value(cfg.scale()), 4.0);
}

#[test]
fn config_use_dora_flag() {
    let cfg = LoraConfig::from_fields(ConfigFields {
        fine_tune_type: Some("lora".to_string()),
        use_dora: Some(true),
        rank: Some(8),
        scale: Some(num(10.0)),
        ..fields()
    })
    .unwrap();
    assert!(cfg.is_dora());
}

#[test]
fn config_defaults_and_unknown_keys_ignored() {
    let cfg = LoraConfig::from_fields(fields()).unwrap();
    assert_eq!(cfg.fine_tune_type, FineTuneType::Lora);
    assert_eq!(cfg.num_layers, DEFAULT_NUM_LAYERS);
    assert_eq!(cfg.rank(), DEFAULT_LORA_RANK);
    assert_eq!(scale_value(cfg.scale()), f32::from_bits(DEFAULT_LORA_SCALE));
    assert_eq!(f32::from_bits(DEFAULT_LORA_SCALE), 20.0);
}

#[test]
fn config_unknown_fine_tune_type_is_err() {
    let r = LoraConfig::from_fields(ConfigFields {
        fine_tune_type: Some("bogus".to_string()),
        ..fields()
    });
    assert!(matches!(r, Err(Error::Backend { .. })));
}

#[test]
fn path_key_matching() {
    assert!(path_matches_key("model.layers.27.self_attn.q_proj", "self_attn.q_proj"));
    assert!(path_matches_key("self_attn.q_proj", "self_attn.q_proj"));
    assert!(!path_matches_key("model.layers.27.self_attn.k_proj", "q_proj"));
    assert!(!path_matches_key("model.xq_proj", "q_proj"));
}

#[test]
fn block_index_parsing() {
    assert_eq!(parse_block_index("model.layers.27.self_attn.q_proj"), Some(27));
    assert_eq!(parse_block_index("model.layers.0.mlp.down_proj"), Some(0));
    assert_eq!(parse_block_index("model.embed_tokens"), None);
    assert_eq!(parse_block_index("lm_head"), None);
}

fn toy_weights() -> Weights {
    let mut w = Weights::new();
    for b in 0..4 {
        w.insert(&format!("model.layers.{b}.self_attn.q_proj.weight"), base_weight());
    }
    w.insert("model.layers.0.self_attn.k_proj.weight", base_weight());
    w.insert("lm_head.weight", base_weight());
    w
}

fn toy_adapter_params() -> NameMap<AdapterParams> {
    toy_adapter_params_for(&[0, 1, 2, 3])
}

fn toy_adapter_params_for(blocks: &[i32]) -> NameMap<AdapterParams> {
    let mut m = NameMap::new();
    for &b in blocks {
        m.insert(&format!("model.layers.{b}.self_attn.q_proj"), plain_params());
    }
    m
}

fn toy_config(num_layers: i32, keys: Option<Vec<String>>) -> LoraConfig {
    LoraConfig {
        fine_tune_type: FineTuneType::Lora,
        num_layers,
        lora_parameters: LoraParameters {
            rank: 2,
            scale: Some(num(2.0)),
            alpha: None,
            keys,
            dropout: None,
        },
        use_dora: false,
    }
}

fn q_proj() -> Option<Vec<String>> {
    Some(vec!["self_attn.q_proj".to_string()])
}

#[test]
fn lora_layers_keys_and_num_layers_window() {
    let weights = toy_weights();
    let params = toy_adapter_params_for(&[2, 3]);
    let cfg = toy_config(2, q_proj());
    let layers = linear_to_lora_layers(&weights, &cfg, &params, None, 4).unwrap();
    assert!(layers.contains_key("model.layers.2.self_attn.q_proj"));
    assert!(layers.contains_key("model.layers.3.self_attn.q_proj"));
    assert!(!layers.contains_key("model.layers.0.self_attn.q_proj"));
    assert!(!layers.contains_key("model.layers.1.self_attn.q_proj"));
    assert!(!layers.contains_key("model.layers.0.self_attn.k_proj"));
    assert!(!layers.contains_key("lm_head"));
    assert_eq!(layers.len(), 2);
}

#[test]
fn lora_layers_covers_all_blocks_when_num_layers_large() {
    let cfg = toy_config(16, q_proj());
    let layers =
        linear_to_lora_layers(&toy_weights(), &cfg, &toy_adapter_params(), None, 4).unwrap();
    assert_eq!(layers.len(), 4);
}

fn mock_config(fine_tune_type: &str) -> LoraConfig {
    LoraConfig::from_fields(ConfigFields {
        fine_tune_type: Some(fine_tune_type.to_string()),
        num_layers: Some(16),
        rank: Some(2),
        scale: Some(num(2.0)),
        keys: q_proj(),
        ..fields()
    })
    .unwrap()
}

fn mock_arrays(with_m: bool) -> NameMap<Array> {
    let mut arrays = NameMap::new();
    for b in 0..4 {
        let path = format!("model.layers.{b}.self_attn.q_proj");
        arrays.insert(&format!("{path}.lora_a"), lora_a());
        arrays.insert(&format!("{path}.lora_b"), lora_b());
        if with_m {
            arrays.insert(&format!("{path}.m"), floats(&[3.0, 3.0], &[2]));
        }
    }
    arrays
}

#[test]
fn load_adapters_lora_end_to_end() {
    let layers =
        load_adapters(&toy_weights(), &mock_config("lora"), &mock_arrays(false), None, 4).unwrap();
    assert_eq!(layers.len(), 4);
    assert!(matches!(
        layers.get("model.layers.0.self_attn.q_proj"),
        Some(LoraLayer::Lora(_))
    ));
    let out =
        layers.get("model.layers.0.self_attn.q_proj").unwrap().forward(&input()).unwrap();
    approx_eq(&to_vec(&out), &[3.0, 6.0], 1e-5);
}

fn rank_arrays(r: usize) -> NameMap<Array> {
    let mut arrays = NameMap::new();
    for b in 0..4 {
        let path = format!("model.layers.{b}.self_attn.q_proj");
        arrays.insert(&format!("{path}.lora_a"), filled(&[3, r], 0.01));
        arrays.insert(&format!("{path}.lora_b"), filled(&[r, 2], 0.01));
    }
    arrays
}

fn alpha_config(rank: i32) -> LoraConfig {
    LoraConfig::from_fields(ConfigFields {
        fine_tune_type: Some("lora".to_string()),
        num_layers: Some(16),
        rank: Some(rank),
        alpha: Some(num(32.0)),
        keys: q_proj(),
        ..fields()
    })
    .unwrap()
}

#[test]
fn load_adapters_peft_r_alias_rank16_loads() {
    let layers =
        load_adapters(&toy_weights(), &alpha_config(16), &rank_arrays(16), None, 4).unwrap();
    assert_eq!(layers.len(), 4);
    if let Some(LoraLayer::Lora(l)) = layers.get("model.layers.0.self_attn.q_proj") {
        assert_eq!(scale_value(l.scale()), 2.0);
    } else {
        panic!("expected a LoRA layer");
    }
}

#[test]
fn load_adapters_rank_drift_is_shape_mismatch() {
    let err =
        load_adapters(&toy_weights(), &alpha_config(8), &rank_arrays(16), None, 4).unwrap_err();
    assert!(matches!(err, Error::ShapeMismatch { .. }), "rank drift: got {err:?}");
}

#[test]
fn load_adapters_dora_end_to_end() {
    let layers =
        load_adapters(&toy_weights(), &mock_config("dora"), &mock_arrays(true), None, 4).unwrap();
    assert_eq!(layers.len(), 4);
    assert!(matches!(
        layers.get("model.layers.0.self_attn.q_proj"),
        Some(LoraLayer::Dora(_))
    ));
}

#[test]
fn load_adapters_dora_missing_magnitude_is_err() {
    let err = load_adapters(&toy_weights(), &mock_config("dora"), &mock_arrays(false), None, 4)
        .unwrap_err();
    assert!(matches!(err, Error::Backend { .. }));
}

#[test]
fn load_adapters_full_is_unsupported_err() {
    let err = load_adapters(&toy_weights(), &mock_config("full"), &mock_arrays(false), None, 4)
        .unwrap_err();
    assert!(matches!(err, Error::Backend { .. }));
}

#[test]
fn load_adapters_nonpositive_rank_is_err() {
    let err = load_adapters(&toy_weights(), &alpha_config(0), &rank_arrays(2), None, 4)
        .unwrap_err();
    assert!(matches!(err, Error::Backend { .. }));
}

#[test]
fn lora_rejects_mismatched_output_dims() {
    let bad_b = floats(&[1.0, 0.0, 0.0, 0.0, 1.0, 0.0], &[2, 3]);
    let base = BaseLinear::dense(base_weight(), None).unwrap();
    let err = LoRALinear::new(base, params_of(lora_a(), bad_b, None), literal(2.0)).unwrap_err();
    assert!(matches!(err, Error::ShapeMismatch { .. }));
}

#[test]
fn lora_rejects_rank_mismatch() {
    let bad_b = floats(&[1.0, 0.0, 0.0, 1.0, 0.0, 0.0], &[3, 2]);
    let base = BaseLinear::dense(base_weight(), None).unwrap();
    let err = LoRALinear::new(base, params_of(lora_a(), bad_b, None), literal(2.0)).unwrap_err();
    assert!(matches!(err, Error::ShapeMismatch { .. }));
}

#[test]
fn lora_rejects_wrong_lora_a_input_dim_dense() {
    let bad_a = floats(&[1.0, 0.0, 0.0, 1.0], &[2, 2]);
    let base = BaseLinear::dense(base_weight(), None).unwrap();
    let err = LoRALinear::new(base, params_of(bad_a, lora_b(), None), literal(2.0)).unwrap_err();
    assert!(matches!(err, Error::ShapeMismatch { .. }));
}

#[test]
fn lora_rejects_wrong_lora_a_input_dim_quantized() {
    let bad_a = filled(&[32, 2], 0.01);
    let err = LoRALinear::new(
        quantized_base(None),
        params_of(bad_a, lora_b(), None),
        literal(2.0),
    )
    .unwrap_err();
    assert!(matches!(err, Error::ShapeMismatch { .. }));
}

#[test]
fn lora_a_correct_input_dim_quantized_ok() {
    assert!(LoRALinear::new(quantized_base(None), wide_params(None), literal(2.0)).is_ok());
}

fn parameters(rank: i32, scale: Option<f32>, alpha: Option<f32>) -> LoraParameters {
    LoraParameters { rank, scale: scale.map(num), alpha: alpha.map(num), keys: None, dropout: None }
}

#[test]
fn resolved_scale_alpha_only() {
    assert_eq!(scale_value(parameters(8, None, Some(32.0)).resolved_scale()), 4.0);
}

#[test]
fn resolved_scale_scale_only() {
    assert_eq!(scale_value(parameters(8, Some(7.5), None).resolved_scale()), 7.5);
}

#[test]
fn resolved_scale_alpha_wins_over_scale() {
    assert_eq!(scale_value(parameters(16, Some(99.0), Some(64.0)).resolved_scale()), 4.0);
}

#[test]
fn resolved_scale_neither_is_default() {
    let s = scale_value(parameters(8, None, None).resolved_scale());
    assert_eq!(s, f32::from_bits(DEFAULT_LORA_SCALE));
}

#[test]
fn resolved_scale_alpha_with_nonpositive_rank_falls_back() {
    assert_eq!(scale_value(parameters(0, Some(5.0), Some(32.0)).resolved_scale()), 5.0);
    let s = scale_value(parameters(-1, None, Some(32.0)).resolved_scale());
    assert_eq!(s, f32::from_bits(DEFAULT_LORA_SCALE));
}

#[test]
fn config_both_scale_and_alpha_alpha_wins() {
    let cfg = LoraConfig::from_fields(ConfigFields {
        fine_tune_type: Some("lora".to_string()),
        rank: Some(8),
        scale: Some(num(50.0)),
        alpha: Some(num(16.0)),
        ..fields()
    })
    .unwrap();
    assert_eq!(scale_value(cfg.scale()), 2.0);
}

#[test]
fn scale_ratio_is_divided_in_the_layer() {
    // alpha / rank = 4 / 2, so the same as a scale of two.
    let base = BaseLinear::dense(base_weight(), None).unwrap();
    let ratio = Scale::Ratio { alpha: num(4.0), rank: 2 };
    let layer = LoRALinear::new(base, plain_params(), ratio).unwrap();
    approx_eq(&to_vec(&layer.forward(&input()).unwrap()), &[3.0, 6.0], 1e-5);
}

#[test]
fn lora_layers_num_layers_negative_one_selects_all_blocks() {
    let cfg = toy_config(-1, q_proj());
    let layers =
        linear_to_lora_layers(&toy_weights(), &cfg, &toy_adapter_params(), None, 4).unwrap();
    assert_eq!(layers.len(), 4, "num_layers=-1 must adapt all 4 blocks");
    for b in 0..4 {
        assert!(layers.contains_key(&format!("model.layers.{b}.self_attn.q_proj")));
    }
}

#[test]
fn lora_layers_num_layers_zero_selects_all_blocks() {
    let cfg = toy_config(0, q_proj());
    let layers =
        linear_to_lora_layers(&toy_weights(), &cfg, &toy_adapter_params(), None, 4).unwrap();
    assert_eq!(layers.len(), 4, "num_layers=0 must adapt all 4 blocks");
}

fn backend_message(e: Error) -> String {
    match e {
        Error::Backend { message } => message,
        other => panic!("expected Backend, got {other:?}"),
    }
}

#[test]
fn lora_layers_explicit_key_missing_factors_is_err() {
    let params = toy_adapter_params_for(&[0, 1]);
    let cfg = toy_config(16, q_proj());
    let err = linear_to_lora_layers(&toy_weights(), &cfg, &params, None, 4).unwrap_err();
    let message = backend_message(err);
    assert!(message.contains("missing factors"), "got: {message}");
    assert!(message.contains("model.layers.2.self_attn.q_proj"), "got: {message}");
}

#[test]
fn lora_layers_unused_adapter_factor_is_err() {
    let mut params = toy_adapter_params();
    params.insert("model.layers.99.self_attn.q_proj", plain_params());
    let cfg = toy_config(16, q_proj());
    let err = linear_to_lora_layers(&toy_weights(), &cfg, &params, None, 4).unwrap_err();
    let message = backend_message(err);
    assert!(message.contains("match no base layer"), "got: {message}");
    assert!(message.contains("model.layers.99.self_attn.q_proj"), "got: {message}");
}

#[test]
fn layers_outside_the_blocks_need_a_key() {
    let mut weights: Weights = NameMap::new();
    weights.insert("lm_head.weight", base_weight());
    let mut params: NameMap<AdapterParams> = NameMap::new();
    params.insert("lm_head", plain_params());
    let r = linear_to_lora_layers(&weights, &toy_config(16, None), &params, None, 4);
    assert!(backend_message(r.unwrap_err()).contains("match no base layer"));
    let cfg = toy_config(16, Some(vec!["lm_head".to_string()]));
    let layers = linear_to_lora_layers(&weights, &cfg, &params, None, 4).unwrap();
    assert!(layers.contains_key("lm_head"));
}

#[test]
fn norms_that_are_not_needed_are_left_out() {
    let mut arrays: NameMap<Array> = NameMap::new();
    arrays.insert("p.lora_a", lora_a());
    arrays.insert("p.lora_b", lora_b());
    arrays.insert("p.m", floats(&[3.0, 3.0], &[2]));
    let plain = split_adapter_params(&arrays, false).unwrap();
    assert_eq!(plain.len(), 1);
    assert!(plain.get("p").unwrap().magnitude.is_none());
    let decomposed = split_adapter_params(&arrays, true).unwrap();
    assert!(decomposed.get("p").unwrap().magnitude.is_some());
}

#[test]
fn incomplete_groups_are_named() {
    let with = |names: &[&str], dora: bool| {
        let mut arrays: NameMap<Array> = NameMap::new();
        for name in names {
            arrays.insert(name, lora_a());
        }
        backend_message(split_adapter_params(&arrays, dora).unwrap_err())
    };
    assert_eq!(
        with(&["x.lora_a"], false),
        "load_adapters: adapter path \"x\" has `lora_a` but no matching `lora_b`"
    );
    assert_eq!(
        with(&["other", "y.lora_b"], false),
        "load_adapters: adapter path \"y\" has `lora_b` but no matching `lora_a`"
    );
    assert_eq!(
        with(&["z.lora_a", "z.lora_b"], true),
        "load_adapters: DoRA adapter path \"z\" is missing its magnitude `m`"
    );
    // First factors are looked at before second ones, and names are escaped.
    assert_eq!(
        with(&["b.lora_b", "a\"\n.lora_a"], false),
        "load_adapters: adapter path \"a\\\"\\n\" has `lora_a` but no matching `lora_b`"
    );
}

#[test]
fn fused_layer_takes_inputs_of_any_shape() {
    let base = BaseLinear::dense(base_weight(), None).unwrap();
    let layer = LoRALinear::new(base, plain_params(), Scale::Literal(num(2.0))).unwrap();
    let fused = layer.fuse(true).unwrap();
    let data: Vec<f32> = (0..12).map(|v| v as f32 - 5.0).collect();
    for shape in [vec![4, 3], vec![2, 2, 3]] {
        let x = floats(&data, &shape);
        let (y, z) = (layer.forward(&x).unwrap(), fused.base_output(&x).unwrap());
        assert_eq!(y.shape(), z.shape());
        approx_eq(&to_vec(&y), &to_vec(&z), 1e-5);
    }
}

#[test]
fn left_over_factors_are_named_in_alphabetical_order() {
    let mut params = toy_adapter_params();
    for path in ["b.z", "b", "a.q", "B"] {
        params.insert(path, plain_params());
    }
    let cfg = toy_config(16, q_proj());
    let err = linear_to_lora_layers(&toy_weights(), &cfg, &params, None, 4).unwrap_err();
    assert_eq!(
        backend_message(err),
        "load_adapters: 4 adapter factor group(s) match no base layer: [\"B\", \"a.q\", \"b\", \
         \"b.z\"]; the adapters.safetensors paths do not line up with the base model weights \
         (path-prefix mismatch or config drift)"
    );
    let few = toy_adapter_params_for(&[0, 1]);
    let err = linear_to_lora_layers(&toy_weights(), &cfg, &few, None, 4).unwrap_err();
    assert_eq!(
        backend_message(err),
        "load_adapters: adapter is missing factors for 2 explicitly-selected target(s): \
         [\"model.layers.2.self_attn.q_proj\", \"model.layers.3.self_attn.q_proj\"]; the \
         adapter_config.json `keys`/`num_layers` selection does not match the \
         adapters.safetensors contents"
    );
    assert_eq!(missing_error(7, "[]").message().matches("for 7 explicitly").count(), 1);
    assert!(unused_error(12, "[x]").message().starts_with("load_adapters: 12 adapter factor"));
    let texts = ["b", "", "ab", "a"].map(String::from).to_vec();
    assert_eq!(sort_texts(&texts), ["", "a", "ab", "b"]);
}

#[test]
fn lora_layers_empty_result_is_err() {
    let params: NameMap<AdapterParams> = NameMap::new();
    let cfg = toy_config(16, Some(vec!["self_attn.nonexistent_proj".to_string()]));
    let err = linear_to_lora_layers(&toy_weights(), &cfg, &params, None, 4).unwrap_err();
    let message = backend_message(err);
    assert!(message.contains("no base layer was adapted"), "got: {message}");
    assert_eq!(message, NOTHING_ADAPTED);
}

#[test]
fn lora_layers_autodiscovery_partial_factors_is_ok() {
    let params = toy_adapter_params_for(&[2, 3]);
    let cfg = toy_config(16, None);
    let layers = linear_to_lora_layers(&toy_weights(), &cfg, &params, None, 4).unwrap();
    assert_eq!(layers.len(), 2);
}

#[test]
fn load_adapters_unused_factor_end_to_end_is_err() {
    let mut arrays = mock_arrays(false);
    arrays.insert("model.layers.42.self_attn.q_proj.lora_a", lora_a());
    arrays.insert("model.layers.42.self_attn.q_proj.lora_b", lora_b());
    let err =
        load_adapters(&toy_weights(), &mock_config("lora"), &arrays, None, 4).unwrap_err();
    assert!(matches!(err, Error::Backend { .. }));
}

#[test]
fn load_adapters_empty_safetensors_is_err() {
    let arrays: NameMap<Array> = NameMap::new();
    let err =
        load_adapters(&toy_weights(), &mock_config("lora"), &arrays, None, 4).unwrap_err();
    assert!(matches!(err, Error::Backend { .. }));
}

#[test]
fn qdora_forward_matches_dense_within_quant_error() {
    let bias = floats(&[3.0, -1.0], &[2]);
    let scale = literal(2.0);
    let delta = lora_delta(&wide_params(None), scale).unwrap();
    let adapted = add(&wide_weight(), &delta).unwrap();
    let m = norm_rows(&adapted).unwrap();
    let dense_base =
        BaseLinear::dense(wide_weight(), Some(bias.try_clone().unwrap())).unwrap();
    let dense_layer =
        DoRALinear::new(dense_base, wide_params(Some(m.try_clone().unwrap())), scale).unwrap();
    let x = filled(&[1, 64], 1.0);
    let dense_out = dense_layer.forward(&x).unwrap();
    let q_layer =
        DoRALinear::new(quantized_base(Some(bias)), wide_params(Some(m)), scale).unwrap();
    let q_out = q_layer.forward(&x).unwrap();
    approx_eq(&to_vec(&q_out), &to_vec(&dense_out), 2e-2);
}

#[test]
fn qdora_forward_matches_fuse() {
    let m = floats(&[1.5, 2.5], &[2]);
    let x = filled(&[1, 64], 1.0);
    let q_layer =
        DoRALinear::new(quantized_base(None), wide_params(Some(m)), literal(2.0)).unwrap();
    let via_forward = q_layer.forward(&x).unwrap();
    let fused = q_layer.fuse(true).unwrap();
    let via_fused = fused.base_output(&x).unwrap();
    approx_eq(&to_vec(&via_fused), &to_vec(&via_forward), 2e-2);
}

#[test]
fn load_adapters_non_regular_safetensors_is_err() {
    let message = backend_message(check_adapter_safetensors("d/a", false, 0).unwrap_err());
    assert!(message.contains("not a regular file"), "got: {message}");
    assert_eq!(message, "load_adapters: d/a is not a regular file; refusing to load");
}

#[test]
fn load_adapters_oversized_safetensors_is_err() {
    let over = MAX_ADAPTER_SAFETENSORS_BYTES + 1;
    let message = backend_message(check_adapter_safetensors("d/a", true, over).unwrap_err());
    assert!(message.contains("adapter budget"), "got: {message}");
    assert_eq!(
        message,
        format!(
            "load_adapters: d/a is {over} bytes, exceeding the {MAX_ADAPTER_SAFETENSORS_BYTES}-byte \
             adapter budget; refusing to load"
        )
    );
    assert!(check_adapter_safetensors("d/a", true, MAX_ADAPTER_SAFETENSORS_BYTES).is_ok());
}

#[test]
fn adapter_config_file_is_bounded() {
    let cap = MAX_CONFIG_BYTES as usize;
    let read = |is_file: bool, bytes: Vec<u8>| read_bounded_adapter_config("d/c", is_file, bytes);
    let text = read(true, "{ \"k\": \"\u{e4}\" }".as_bytes().to_vec());
    assert_eq!(text.unwrap(), "{ \"k\": \"\u{e4}\" }");
    assert_eq!(read(true, vec![32; cap]).unwrap().len(), cap);
    let message = |r: std::result::Result<String, Error>| backend_message(r.unwrap_err());
    assert_eq!(
        message(read(true, vec![32; cap + 1])),
        format!("load_adapters: d/c exceeds the {cap}-byte cap; refusing to read")
    );
    assert_eq!(
        message(read(false, vec![32])),
        "load_adapters: d/c is not a regular file; refusing to read"
    );
    assert_eq!(
        message(read(true, vec![32, 0xff, 0xfe])),
        "load_adapters: d/c is not valid UTF-8: invalid utf-8 sequence of 1 bytes from index 1"
    );
    assert_eq!(config_text("p", Ok("t".to_string())).unwrap(), "t");
    assert_eq!(
        message(config_text("p", Err("why".to_string()))),
        "load_adapters: p is not valid UTF-8: why"
    );
}

#[test]
fn a_configuration_that_is_no_adapter_says_why() {
    assert_eq!(
        backend_message(check_config(&mock_config("full")).unwrap_err()),
        "load_adapters: fine_tune_type \"full\" is a full-weight fine-tune, not an adapter; merge \
         it at the weight-map level via lm::load::load_weights instead"
    );
    assert_eq!(
        backend_message(check_config(&alpha_config(-3)).unwrap_err()),
        "load_adapters: adapter rank must be > 0, got -3"
    );
    assert_eq!(
        backend_message(check_config(&alpha_config(0)).unwrap_err()),
        "load_adapters: adapter rank must be > 0, got 0"
    );
    assert!(check_config(&alpha_config(1)).is_ok());
}

#[test]
fn numbers_and_lists_are_written_out() {
    for n in [0, 9, 10, 1_907, u64::MAX] {
        assert_eq!(decimal_text(n), n.to_string());
    }
    for n in [0, 7, -1, i32::MIN, i32::MAX] {
        assert_eq!(signed_text(n), n.to_string());
    }
    assert_eq!(number_list_text(&[2, 30, 0]), "[2, 30, 0]");
    assert_eq!(number_list_text(&[]), "[]");
    let names = ["a", "\"\\", "\u{e4}"].map(String::from).to_vec();
    assert_eq!(quoted_list(&names), format!("{names:?}"));
    assert_eq!(bracket(&names), "[a, \"\\, \u{e4}]");
}

fn scalar(v: f32) -> Array {
    Array::scalar(num(v))
}

fn read_scalar(a: &Array) -> f32 {
    to_vec(a)[0]
}

fn constant(v: f32) -> LearningRate<fn(usize) -> F32> {
    LearningRate::Constant(num(v))
}

fn one_parameter(v: f32) -> Weights {
    let mut w = Weights::new();
    w.insert("w", scalar(v));
    w
}

fn read(v: F32) -> f32 {
    f32::from_bits(v.bits)
}

#[test]
fn vanilla_sgd_single_step_matches_python_ref() {
    let mut sgd = SGD::vanilla(constant(0.1)).unwrap();
    let mut params = one_parameter(1.0);
    let grads = one_parameter(0.5);
    sgd.apply_gradients(&grads, &mut params).unwrap();
    let got = read_scalar(params.get("w").unwrap());
    assert!((got - 0.95).abs() < 1e-6, "expected 0.95, got {got}");
    assert_eq!(sgd.step(), 1);
    assert!((read(sgd.learning_rate()) - 0.1).abs() < 1e-6);
}

#[test]
fn sgd_with_momentum_single_step_matches_python_ref() {
    let mut sgd = SGD::new(constant(0.1), num(0.9), num(0.0), num(0.0), false).unwrap();
    let mut params = one_parameter(1.0);
    let grads = one_parameter(0.5);
    sgd.apply_gradients(&grads, &mut params).unwrap();
    assert!((read_scalar(params.get("w").unwrap()) - 0.95).abs() < 1e-6);
    let v = read_scalar(sgd.velocity("w").unwrap());
    assert!((v - 0.5).abs() < 1e-6, "expected v=0.5, got {v}");
    // The second step: v = 0.9 * 0.5 + 0.5 = 0.95, w = 0.95 - 0.1 * 0.95.
    sgd.apply_gradients(&grads, &mut params).unwrap();
    assert!((read_scalar(params.get("w").unwrap()) - 0.855).abs() < 1e-6);
}

#[test]
fn sgd_with_weight_decay_matches_python_ref() {
    let mut sgd = SGD::new(constant(0.1), num(0.0), num(0.5), num(0.0), false).unwrap();
    let mut params = one_parameter(2.0);
    let grads = one_parameter(1.0);
    sgd.apply_gradients(&grads, &mut params).unwrap();
    assert!((read_scalar(params.get("w").unwrap()) - 1.8).abs() < 1e-6);
}

#[test]
fn sgd_dampening_and_nesterov_take_effect() {
    // v = 0.5 * 0 + (1 - 0.25) * 1 = 0.75, w = 1 - 0.1 * 0.75.
    let mut sgd = SGD::new(constant(0.1), num(0.5), num(0.0), num(0.25), false).unwrap();
    let mut params = one_parameter(1.0);
    sgd.apply_gradients(&one_parameter(1.0), &mut params).unwrap();
    assert!((read_scalar(params.get("w").unwrap()) - 0.925).abs() < 1e-6);
    // v = 1, u = 1 + 0.5 * 1 = 1.5, w = 1 - 0.1 * 1.5.
    let mut sgd = SGD::new(constant(0.1), num(0.5), num(0.0), num(0.0), true).unwrap();
    let mut params = one_parameter(1.0);
    sgd.apply_gradients(&one_parameter(1.0), &mut params).unwrap();
    assert!((read_scalar(params.get("w").unwrap()) - 0.85).abs() < 1e-6);
}

#[test]
fn sgd_stops_at_the_first_parameter_that_cannot_move() {
    let mut sgd = SGD::vanilla(constant(0.5)).unwrap();
    let mut params: Weights = NameMap::new();
    let mut grads: Weights = NameMap::new();
    for (name, width) in [("a", 2), ("b", 3), ("c", 2)] {
        params.insert(name, floats(&[1.0; 2], &[2]));
        grads.insert(name, floats(&vec![1.0; width], &[width]));
    }
    let err = sgd.apply_gradients(&grads, &mut params).unwrap_err();
    assert!(matches!(err, Error::Backend { .. }));
    assert_eq!(to_vec(params.get("a").unwrap()), vec![0.5, 0.5]);
    assert_eq!(to_vec(params.get("b").unwrap()), vec![1.0, 1.0]);
    assert_eq!(to_vec(params.get("c").unwrap()), vec![1.0, 1.0]);
    assert_eq!(sgd.step(), 1);
}

#[test]
fn encode_config_setters_change_one_field() {
    let c = EncodeConfig::new()
        .max_length(Some(7))
        .pad_token_id(3)
        .apply_layer_norm(true)
        .apply_rms_norm(true);
    assert_eq!((c.max_length, c.pad_token_id), (Some(7), 3));
    assert!(c.apply_layer_norm && c.apply_rms_norm);
    assert_eq!(c.dimension, EncodeConfig::new().dimension);
}

#[test]
fn sgd_nesterov_precondition_rejects_zero_momentum() {
    let res = SGD::new(constant(0.1), num(0.0), num(0.0), num(0.0), true);
    assert!(matches!(res, Err(Error::Backend { .. })));
    let res = SGD::new(constant(0.1), num(0.9), num(0.0), num(0.1), true);
    assert!(matches!(res, Err(Error::Backend { .. })));
}

#[test]
fn sgd_schedule_advances_lr_each_step() {
    let sched = |step: usize| num(0.1 / (step as f32).max(1.0));
    let mut sgd = SGD::vanilla(LearningRate::Schedule(sched)).unwrap();
    let mut params = one_parameter(1.0);
    let grads = one_parameter(1.0);
    sgd.apply_gradients(&grads, &mut params).unwrap();
    assert!((read(sgd.learning_rate()) - 0.1).abs() < 1e-6);
    sgd.apply_gradients(&grads, &mut params).unwrap();
    assert!((read(sgd.learning_rate()) - 0.05).abs() < 1e-6);
}

#[test]
fn sgd_leaves_parameters_without_gradients_alone() {
    let mut sgd = SGD::vanilla(constant(0.1)).unwrap();
    let mut params = one_parameter(1.0);
    params.insert("other", scalar(7.0));
    sgd.apply_gradients(&one_parameter(0.5), &mut params).unwrap();
    assert_eq!(read_scalar(params.get("other").unwrap()), 7.0);
}

#[test]
fn clip_grad_norm_is_not_offered() {
    let mut grads = one_parameter(3.0);
    let message = clip_grad_norm(&mut grads, num(1.0)).unwrap_err().message().to_string();
    assert!(message.contains("not yet implemented"));
    assert_eq!(read_scalar(grads.get("w").unwrap()), 3.0);
    assert_eq!(read(cosine_decay(num(0.1), 10, num(0.0), 3)), 0.0);
}

const TOL: f32 = 1e-5;

fn close(a: f32, b: f32) -> bool {
    (a - b).abs() <= TOL
}

fn vclose(a: &[f32], b: &[f32]) -> bool {
    a.len() == b.len() && a.iter().zip(b).all(|(x, y)| close(*x, *y))
}

/// One token for each word, by its first letter; a special token in front where
/// asked for. Upper-case letters are unknown.
struct WordTokenizer;

impl Tokenizer for WordTokenizer {
    fn encode(
        &self,
        text: &str,
        add_special_tokens: bool,
    ) -> std::result::Result<Vec<u32>, Error> {
        let mut ids = if add_special_tokens { vec![100] } else { Vec::new() };
        for word in text.split(' ') {
            let first = word.as_bytes()[0];
            if first.is_ascii_uppercase() {
                return Err(Error::Backend { message: format!("unknown word {word}") });
            }
            ids.push(first as u32 - 'a' as u32);
        }
        Ok(ids)
    }
}

#[test]
fn special_tokens_steer_the_encoding() {
    let rows = tokenize(&WordTokenizer, &["a b", "c"], true).unwrap();
    assert_eq!(rows, vec![vec![100, 0, 1], vec![100, 2]]);
    let rows = tokenize(&WordTokenizer, &["a b", "c"], false).unwrap();
    assert_eq!(rows, vec![vec![0, 1], vec![2]]);
    let (ids, _, len) = tokenize_and_pad(&WordTokenizer, &["a", "b c"], true, Some(2), 9).unwrap();
    assert_eq!((to_vec(&ids), len), (vec![100.0, 0.0, 100.0, 1.0], 2));
    let r = tokenize_and_pad(&WordTokenizer, &["a", "Bad", "Worse"], true, None, 9);
    assert_eq!(r.unwrap_err().message(), "unknown word Bad");
}

#[test]
fn unpooled_vectors_pass_through() {
    let model = MockEmbeddingModel { rows: vec![vec![3.0, 4.0], vec![0.0, 2.0]] };
    let cfg = EncodeConfig::new()
        .add_special_tokens(false)
        .strategy(PoolingStrategy::Unpooled)
        .normalize(false);
    let emb = encode(&model, &WordTokenizer, &["a b", "c"], &cfg).unwrap();
    assert_eq!(emb.shape(), vec![2, 2, 2]);
    assert_eq!(to_vec(&emb), vec![3.0, 4.0, 0.0, 2.0, 3.0, 4.0, 0.0, 2.0]);
    let same = encode_rows(&model, &vec![vec![0, 1], vec![2]], &cfg).unwrap();
    assert_eq!(to_vec(&same), to_vec(&emb));
    let narrow = encode(&model, &WordTokenizer, &["a b"], &cfg.dimension(Some(1))).unwrap();
    assert_eq!(narrow.shape(), vec![1, 2, 1]);
    let bad = encode(&model, &WordTokenizer, &["a", "B"], &cfg);
    assert_eq!(bad.unwrap_err().message(), "unknown word B");
}

#[test]
fn max_pooling_takes_the_largest_of_the_marked() {
    let model = MockEmbeddingModel { rows: vec![vec![3.0, -4.0], vec![0.0, 2.0]] };
    let cfg = EncodeConfig::new()
        .add_special_tokens(false)
        .strategy(PoolingStrategy::Max)
        .normalize(false);
    let emb = encode(&model, &WordTokenizer, &["a b", "c"], &cfg).unwrap();
    assert_eq!(to_vec(&emb), vec![3.0, 2.0, 3.0, -4.0]);
}

/// A model that gives the same row for a place in every text.
struct MockEmbeddingModel {
    rows: Vec<Vec<f32>>,
}

impl EmbeddingModel for MockEmbeddingModel {
    fn forward(
        &self,
        input_ids: &Array,
        attention_mask: &Array,
    ) -> std::result::Result<EmbeddingOutput, Error> {
        assert_eq!(input_ids.shape(), attention_mask.shape());
        let (batch, len) = (input_ids.shape()[0], input_ids.shape()[1]);
        let width = self.rows[0].len();
        let mut data = Vec::new();
        for _ in 0..batch {
            for t in 0..len {
                data.extend(&self.rows[t]);
            }
        }
        Ok(EmbeddingOutput { last_hidden_state: floats(&data, &[batch, len, width]) })
    }
}

#[test]
fn tokenize_and_pad_builds_right_padded_ids_and_mask() {
    let (ids, mask, seq_len) = tokenize_and_pad(&WordTokenizer, &["a b c", "d e"], false, None, 7).unwrap();
    assert_eq!(seq_len, 3);
    assert_eq!(ids.shape(), vec![2, 3]);
    assert_eq!(mask.shape(), vec![2, 3]);
    assert_eq!(ids.dtype(), Dtype::U32);
    assert_eq!(to_vec(&ids), vec![0.0, 1.0, 2.0, 3.0, 4.0, 7.0]);
    assert_eq!(to_vec(&mask), vec![1.0, 1.0, 1.0, 1.0, 1.0, 0.0]);
}

#[test]
fn tokenize_and_pad_truncates_to_max_length() {
    let (ids, mask, seq_len) = tokenize_and_pad(&WordTokenizer, &["a b c", "d e"], false, Some(2), 0).unwrap();
    assert_eq!(seq_len, 2);
    assert_eq!(to_vec(&ids), vec![0.0, 1.0, 3.0, 4.0]);
    assert_eq!(to_vec(&mask), vec![1.0, 1.0, 1.0, 1.0]);
}

#[test]
fn encode_mean_pool_normalized_two_text_batch() {
    let model =
        MockEmbeddingModel { rows: vec![vec![1.0, 0.0], vec![0.0, 1.0], vec![1.0, 1.0]] };
    let cfg = EncodeConfig::new()
        .add_special_tokens(false)
        .strategy(PoolingStrategy::Mean)
        .normalize(true);
    let emb = encode(&model, &WordTokenizer, &["a b c", "d e"], &cfg).unwrap();
    assert_eq!(emb.shape(), vec![2, 2]);
    let v = to_vec(&emb);
    let inv_sqrt2 = 1.0 / 2.0_f32.sqrt();
    assert!(vclose(&v[0..2], &[inv_sqrt2, inv_sqrt2]));
    assert!(vclose(&v[2..4], &[inv_sqrt2, inv_sqrt2]));
}

#[test]
fn encode_mean_pool_unnormalized_excludes_padding() {
    let model =
        MockEmbeddingModel { rows: vec![vec![1.0, 0.0], vec![0.0, 1.0], vec![1.0, 1.0]] };
    let cfg = EncodeConfig::new()
        .add_special_tokens(false)
        .strategy(PoolingStrategy::Mean)
        .normalize(false);
    let emb = encode(&model, &WordTokenizer, &["a b c", "d e"], &cfg).unwrap();
    let v = to_vec(&emb);
    assert!(vclose(&v[0..2], &[2.0 / 3.0, 2.0 / 3.0]));
    assert!(vclose(&v[2..4], &[0.5, 0.5]));
}

#[test]
fn encode_cls_pool_selects_first_real_token() {
    let model =
        MockEmbeddingModel { rows: vec![vec![9.0, 3.0], vec![0.0, 1.0], vec![1.0, 1.0]] };
    let cfg = EncodeConfig::new()
        .add_special_tokens(false)
        .strategy(PoolingStrategy::Cls)
        .normalize(false);
    let emb = encode(&model, &WordTokenizer, &["a b c", "d e"], &cfg).unwrap();
    assert_eq!(emb.shape(), vec![2, 2]);
    let v = to_vec(&emb);
    assert!(vclose(&v[0..2], &[9.0, 3.0]));
    assert!(vclose(&v[2..4], &[9.0, 3.0]));
}

#[test]
fn encode_keeps_the_first_columns_where_asked() {
    let model = MockEmbeddingModel { rows: vec![vec![3.0, 4.0, 12.0], vec![3.0, 4.0, 12.0]] };
    let cfg = EncodeConfig::new()
        .add_special_tokens(false)
        .normalize(false)
        .dimension(Some(2));
    let emb = encode(&model, &WordTokenizer, &["a b"], &cfg).unwrap();
    assert_eq!(to_vec(&emb), vec![3.0, 4.0]);
}

// ---- images ---------------------------------------------------------------

fn picture(width: usize, height: usize, pixel: impl Fn(usize, usize) -> [u8; 3]) -> Image {
    let mut data = Vec::new();
    for y in 0..height {
        for x in 0..width {
            data.extend(pixel(x, y));
        }
    }
    Image::from_raw(width, height, 3, data).unwrap()
}

fn synthetic_image(width: usize, height: usize) -> Image {
    picture(width, height, |x, y| [((y * 10) % 256) as u8, ((x * 10) % 256) as u8, 100])
}

fn gradient_image(width: usize, height: usize) -> Image {
    picture(width, height, |x, y| [((x * 8) % 256) as u8, ((y * 8) % 256) as u8, 128])
}

fn pixel(img: &Image, x: usize, y: usize) -> [u8; 3] {
    [img.get(x, y, 0).unwrap(), img.get(x, y, 1).unwrap(), img.get(x, y, 2).unwrap()]
}

fn sinc(x: f64) -> f64 {
    if x == 0.0 {
        1.0
    } else {
        let t = x * std::f64::consts::PI;
        t.sin() / t
    }
}

fn kernel(filter: Filter, x: f64) -> f64 {
    let x = x.abs();
    match filter {
        Filter::Nearest => panic!("the nearest pixel has no kernel"),
        Filter::Bilinear => (1.0 - x).max(0.0),
        Filter::Bicubic => {
            let a = -0.5;
            if x < 1.0 {
                ((a + 2.0) * x - (a + 3.0)) * x * x + 1.0
            } else if x < 2.0 {
                (((x - 5.0) * x + 8.0) * x - 4.0) * a
            } else {
                0.0
            }
        }
        Filter::Lanczos3 => {
            if x < 3.0 {
                sinc(x) * sinc(x / 3.0)
            } else {
                0.0
            }
        }
    }
}

/// The weights that resample one axis, as fixed-point numbers.
fn weights(filter: Filter, in_size: usize, out_size: usize) -> Vec<Taps> {
    if filter == Filter::Nearest {
        return Vec::new();
    }
    let scale = in_size as f64 / out_size as f64;
    let stretch = scale.max(1.0);
    let support = filter.radius() as f64 * stretch;
    let mut all = Vec::new();
    for o in 0..out_size {
        let center = (o as f64 + 0.5) * scale;
        let xmin = ((center - support + 0.5) as i64).max(0) as usize;
        let xmax = ((center + support + 0.5) as i64).min(in_size as i64) as usize;
        let raw: Vec<f64> = (xmin..xmax)
            .map(|i| kernel(filter, (i as f64 - center + 0.5) / stretch))
            .collect();
        let sum: f64 = raw.iter().sum();
        let weights = raw
            .iter()
            .map(|w| (w / sum * (1u64 << PRECISION_BITS) as f64).round() as i32)
            .collect();
        all.push(Taps { xmin, weights });
    }
    all
}

fn resized(img: &Image, target: (usize, usize), filter: Filter) -> Image {
    let horizontal = weights(filter, img.width(), target.1);
    let vertical = weights(filter, img.height(), target.0);
    resize(img, target, filter, &horizontal, &vertical).unwrap()
}

fn lanczos(img: &Image, h: usize, w: usize) -> Image {
    let horizontal = weights(Filter::Lanczos3, img.width(), w);
    let vertical = weights(Filter::Lanczos3, img.height(), h);
    resize_lanczos(img, h, w, &horizontal, &vertical).unwrap()
}

fn prepared(img: &Image, cfg: &ImageProcessorConfig) -> Array {
    let horizontal = weights(cfg.resample, img.width(), cfg.size.1);
    let vertical = weights(cfg.resample, img.height(), cfg.size.0);
    preprocess(img, cfg, &horizontal, &vertical).unwrap()
}

fn nums(v: [f32; 3]) -> [F32; 3] {
    [num(v[0]), num(v[1]), num(v[2])]
}

#[test]
fn resize_changes_shape_preserves_dtype() {
    let img = synthetic_image(8, 6);
    let out = resized(&img, (16, 32), Filter::Bicubic);
    assert_eq!(out.width(), 32, "width = target.1");
    assert_eq!(out.height(), 16, "height = target.0");
}

#[test]
fn resize_filters_all_succeed() {
    let img = synthetic_image(8, 8);
    for f in [Filter::Nearest, Filter::Bilinear, Filter::Bicubic, Filter::Lanczos3] {
        let out = resized(&img, (4, 4), f);
        assert_eq!((out.width(), out.height()), (4, 4), "filter {:?}", f);
    }
}

#[test]
fn image_to_array_shape_dtype_range() {
    let img = synthetic_image(4, 3);
    let arr = image_to_array(&img, ColorOrder::Rgb).unwrap();
    assert_eq!(arr.shape(), vec![3, 4, 3], "shape [H, W, 3]");
    assert_eq!(arr.dtype(), Dtype::F32);
    assert!(to_vec(&arr).iter().all(|&x| (0.0..=255.0).contains(&x)));
}

#[test]
fn image_to_array_rgb_vs_bgr_swap() {
    let img = Image::from_raw(2, 1, 3, vec![10, 20, 30, 40, 50, 60]).unwrap();
    let rgb = image_to_array(&img, ColorOrder::Rgb).unwrap();
    let bgr = image_to_array(&img, ColorOrder::Bgr).unwrap();
    assert!(vclose(&to_vec(&rgb), &[10.0, 20.0, 30.0, 40.0, 50.0, 60.0]));
    assert!(vclose(&to_vec(&bgr), &[30.0, 20.0, 10.0, 60.0, 50.0, 40.0]));
}

#[test]
fn image_to_array_drops_alpha_from_rgba() {
    let img = Image::from_raw(1, 1, 4, vec![11, 22, 33, 44]).unwrap();
    let arr = image_to_array(&img, ColorOrder::Rgb).unwrap();
    assert_eq!(arr.shape(), vec![1, 1, 3], "alpha channel dropped");
    assert!(vclose(&to_vec(&arr), &[11.0, 22.0, 33.0]));
}

fn layout_image() -> Image {
    picture(4, 4, |x, y| [((x + 1) * 10) as u8, ((y + 1) * 20) as u8, (x + y) as u8])
}

#[test]
fn image_to_array_rgb_preserves_row_major_layout() {
    let arr = image_to_array(&layout_image(), ColorOrder::Rgb).unwrap();
    assert_eq!(arr.shape(), vec![4, 4, 3]);
    let v = to_vec(&arr);
    let mut expected = Vec::new();
    for y in 0..4 {
        for x in 0..4 {
            expected.push(((x + 1) * 10) as f32);
            expected.push(((y + 1) * 20) as f32);
            expected.push((x + y) as f32);
        }
    }
    assert!(vclose(&v, &expected), "got {v:?}\nexpected {expected:?}");
}

#[test]
fn image_to_array_bgr_swaps_channels_correctly() {
    let arr = image_to_array(&layout_image(), ColorOrder::Bgr).unwrap();
    assert_eq!(arr.shape(), vec![4, 4, 3]);
    let v = to_vec(&arr);
    let mut expected = Vec::new();
    for y in 0..4 {
        for x in 0..4 {
            expected.push((x + y) as f32);
            expected.push(((y + 1) * 20) as f32);
            expected.push(((x + 1) * 10) as f32);
        }
    }
    assert!(vclose(&v, &expected), "got {v:?}\nexpected {expected:?}");
}

#[test]
fn image_to_array_rgb_overlong_backing_buffer_ignores_tail() {
    let img = Image::from_raw(1, 1, 3, vec![10, 20, 30, 99, 99, 99, 99]).unwrap();
    let arr = image_to_array(&img, ColorOrder::Rgb).unwrap();
    assert_eq!(arr.shape(), vec![1, 1, 3]);
    let v = to_vec(&arr);
    assert!(vclose(&v, &[10.0, 20.0, 30.0]), "got {v:?}, expected [10,20,30]");
}

#[test]
fn image_to_array_bgr_overlong_backing_buffer_ignores_tail() {
    let img = Image::from_raw(1, 1, 3, vec![10, 20, 30, 99, 99, 99, 99]).unwrap();
    let arr = image_to_array(&img, ColorOrder::Bgr).unwrap();
    assert_eq!(arr.shape(), vec![1, 1, 3]);
    let v = to_vec(&arr);
    assert!(vclose(&v, &[30.0, 20.0, 10.0]), "got {v:?}, expected [30,20,10]");
}

#[test]
fn image_needs_its_bytes() {
    assert!(Image::from_raw(2, 2, 3, vec![0; 11]).is_none());
    assert!(Image::from_raw(2, 2, 2, vec![0; 8]).is_none());
    assert!(Image::from_raw(usize::MAX, 2, 3, vec![0; 8]).is_none());
}

#[test]
fn rescale_1_over_255_maps_uchar_to_unit_interval() {
    let img = synthetic_image(4, 4);
    let arr = image_to_array(&img, ColorOrder::Rgb).unwrap();
    let scaled = rescale(&arr, num(1.0 / 255.0)).unwrap();
    let v = to_vec(&scaled);
    assert!(v.iter().all(|&x| (0.0..=1.0).contains(&x)), "rescaled values out of [0, 1]: {v:?}");
}

#[test]
fn rescale_preserves_dtype() {
    let arr = floats(&[100.0, 200.0], &[2]);
    let scaled = rescale(&arr, num(0.5)).unwrap();
    assert_eq!(scaled.dtype(), Dtype::F32);
    assert!(vclose(&to_vec(&scaled), &[50.0, 100.0]));
}

#[test]
fn rescale_rejects_integer_dtypes() {
    let arr = Array::from_slice(&[0, 128, 255], &[3], Dtype::U8).unwrap();
    let err = rescale(&arr, num(1.0 / 255.0)).unwrap_err();
    assert!(matches!(err, Error::ShapeMismatch { .. }), "want ShapeMismatch, got {err:?}");
    let arr_i = Array::from_slice(&[0, 1, 2], &[3], Dtype::I32).unwrap();
    let err_i = rescale(&arr_i, num(0.5)).unwrap_err();
    assert!(matches!(err_i, Error::ShapeMismatch { .. }));
}

#[test]
fn normalize_imagenet_zero_mean_unit_std_for_synthetic_input() {
    let data: [f32; 12] =
        [1.0, 10.0, 100.0, 2.0, 20.0, 100.0, 3.0, 30.0, 100.0, 4.0, 40.0, 100.0];
    let arr = floats(&data, &[2, 2, 3]);
    let mean = nums([2.5, 25.0, 100.0]);
    let std = nums([1.118_034, 11.180_34, 1.0]);
    let v = to_vec(&normalize_imagenet(&arr, &mean, &std).unwrap());
    let expected: [f32; 12] = [
        (1.0 - 2.5) / 1.118_034,
        (10.0 - 25.0) / 11.180_34,
        0.0,
        (2.0 - 2.5) / 1.118_034,
        (20.0 - 25.0) / 11.180_34,
        0.0,
        (3.0 - 2.5) / 1.118_034,
        (30.0 - 25.0) / 11.180_34,
        0.0,
        (4.0 - 2.5) / 1.118_034,
        (40.0 - 25.0) / 11.180_34,
        0.0,
    ];
    assert!(vclose(&v, &expected), "got {v:?}\nexpected {expected:?}");
}

#[test]
fn normalize_imagenet_broadcasts_over_rank4_batch() {
    let arr = floats(&[1.0, 2.0, 3.0, 4.0, 5.0, 6.0], &[2, 1, 1, 3]);
    let out = normalize_imagenet(&arr, &nums([0.5; 3]), &nums([2.0; 3])).unwrap();
    assert!(vclose(&to_vec(&out), &[0.25, 0.75, 1.25, 1.75, 2.25, 2.75]));
}

#[test]
fn normalize_imagenet_rejects_non_3_channel_input() {
    let arr = floats(&[0.0; 16], &[2, 2, 4]);
    let err = normalize_imagenet(&arr, &nums([0.0; 3]), &nums([1.0; 3])).unwrap_err();
    assert!(matches!(err, Error::ShapeMismatch { .. }), "want ShapeMismatch, got {err:?}");
}

#[test]
fn normalize_imagenet_rejects_non_three_trailing_dim() {
    let arr = floats(&[1.0], &[1]);
    let err = normalize_imagenet(&arr, &nums([0.0; 3]), &nums([1.0; 3])).unwrap_err();
    assert!(matches!(err, Error::ShapeMismatch { .. }));
}

#[test]
fn normalize_imagenet_rejects_integer_dtypes() {
    let arr = Array::from_slice(&[0; 3], &[1, 1, 3], Dtype::U8).unwrap();
    let err =
        normalize_imagenet(&arr, &nums([0.485, 0.456, 0.406]), &nums([0.229, 0.224, 0.225]))
            .unwrap_err();
    assert!(matches!(err, Error::ShapeMismatch { .. }), "want ShapeMismatch, got {err:?}");
}

#[test]
fn patchify_uniform_grid_shape() {
    let data: Vec<f32> = (0..48).map(|i| i as f32).collect();
    let arr = floats(&data, &[4, 4, 3]);
    let out = patchify(&arr, 2).unwrap();
    assert_eq!(out.shape(), vec![4, 2, 2, 3]);
}

#[test]
fn patchify_goes_row_by_row() {
    let data: Vec<f32> = (0..16).map(|i| i as f32).collect();
    let out = patchify(&floats(&data, &[4, 4, 1]), 2).unwrap();
    let expected =
        [0.0, 1.0, 4.0, 5.0, 2.0, 3.0, 6.0, 7.0, 8.0, 9.0, 12.0, 13.0, 10.0, 11.0, 14.0, 15.0];
    assert_eq!(to_vec(&out), expected);
}

#[test]
fn patchify_non_divisible_dimensions_errors() {
    let arr = floats(&[0.0; 5 * 4 * 3], &[5, 4, 3]);
    let err = patchify(&arr, 2).unwrap_err();
    assert!(matches!(err, Error::ShapeMismatch { .. }), "want ShapeMismatch, got {err:?}");
}

#[test]
fn patchify_zero_patch_size_errors() {
    let arr = floats(&[0.0; 12], &[2, 2, 3]);
    let err = patchify(&arr, 0).unwrap_err();
    assert!(matches!(err, Error::ShapeMismatch { .. }));
}

#[test]
fn patchify_wrong_rank_errors() {
    let arr = floats(&[0.0; 6], &[2, 3]);
    let err = patchify(&arr, 1).unwrap_err();
    assert!(matches!(err, Error::ShapeMismatch { .. }));
}

#[test]
fn patchify_unit_patch_size_passthrough_shape() {
    let arr = floats(&[0.0; 12], &[2, 2, 3]);
    let out = patchify(&arr, 1).unwrap();
    assert_eq!(out.shape(), vec![4, 1, 1, 3]);
}

#[test]
fn patchify_preserves_pixel_values() {
    let data: Vec<f32> = (0..48).map(|i| i as f32 + 1.0).collect();
    let out = patchify(&floats(&data, &[4, 4, 3]), 2).unwrap();
    let mut sorted = to_vec(&out);
    sorted.sort_by(|a, b| a.partial_cmp(b).unwrap());
    assert_eq!(sorted, data, "all pixels preserved");
}

#[test]
fn preprocess_pipeline_imagenet_defaults() {
    let out = prepared(&gradient_image(16, 16), &ImageProcessorConfig::default());
    assert_eq!(out.shape(), vec![224, 224, 3]);
    assert_eq!(out.dtype(), Dtype::F32);
}

fn passing(do_resize: bool, do_rescale: bool, do_normalize: bool) -> ImageProcessorConfig {
    ImageProcessorConfig { do_resize, do_rescale, do_normalize, ..ImageProcessorConfig::default() }
}

#[test]
fn preprocess_no_resize_passthrough() {
    let cfg = ImageProcessorConfig { size: (32, 32), ..passing(false, false, false) };
    let out = prepared(&gradient_image(8, 6), &cfg);
    assert_eq!(out.shape(), vec![6, 8, 3]);
    assert!(to_vec(&out).iter().all(|&x| (0.0..=255.0).contains(&x)));
}

#[test]
fn preprocess_no_normalize_passthrough() {
    let cfg =
        ImageProcessorConfig { rescale_factor: num(1.0 / 255.0), ..passing(false, true, false) };
    let out = prepared(&synthetic_image(4, 4), &cfg);
    assert!(to_vec(&out).iter().all(|&x| (0.0..=1.0).contains(&x)));
}

#[test]
fn preprocess_no_rescale_no_normalize_keeps_raw_u8_range() {
    let out = prepared(&synthetic_image(2, 2), &passing(false, false, false));
    assert!(to_vec(&out).iter().all(|&x| (0.0..=255.0).contains(&x)));
}

#[test]
fn preprocess_resize_applies_filter() {
    let cfg = ImageProcessorConfig { size: (4, 4), ..passing(true, false, false) };
    let out = prepared(&synthetic_image(8, 8), &cfg);
    assert_eq!(out.shape(), vec![4, 4, 3]);
}

#[test]
fn imageprocessor_config_default_is_imagenet() {
    let cfg = ImageProcessorConfig::default();
    let plain = |v: [F32; 3]| -> Vec<f32> { v.iter().map(|x| read(*x)).collect() };
    assert_eq!(cfg.size, (224, 224));
    assert!(vclose(&plain(cfg.mean), &[0.485, 0.456, 0.406]));
    assert!(vclose(&plain(cfg.std), &[0.229, 0.224, 0.225]));
    assert!(close(read(cfg.rescale_factor), 1.0 / 255.0));
    assert!(cfg.do_resize && cfg.do_rescale && cfg.do_normalize);
    assert_eq!(cfg.resample, Filter::Bicubic);
    assert_eq!(cfg.color_order, ColorOrder::Rgb);
}

#[test]
fn resize_lanczos_target_dimensions() {
    let out = lanczos(&synthetic_image(8, 6), 16, 32);
    assert_eq!(out.width(), 32);
    assert_eq!(out.height(), 16);
}

#[test]
fn resize_lanczos_equivalent_to_resize_with_lanczos3_filter() {
    let img = synthetic_image(12, 10);
    let a = lanczos(&img, 8, 16);
    let b = resized(&img, (8, 16), Filter::Lanczos3);
    for y in 0..8 {
        for x in 0..16 {
            for c in 0..4 {
                assert_eq!(a.get(x, y, c).unwrap(), b.get(x, y, c).unwrap());
            }
        }
    }
}

#[test]
fn resize_lanczos_smooth_on_constant_input_preserves_value() {
    let img = picture(8, 8, |_, _| [128, 64, 200]);
    let out = lanczos(&img, 4, 4);
    assert_eq!(out.width(), 4);
    assert_eq!(out.height(), 4);
    for y in 0..4 {
        for x in 0..4 {
            let [r, g, b] = pixel(&out, x, y);
            assert!(r.abs_diff(128) <= 1, "R={r} expected ~128");
            assert!(g.abs_diff(64) <= 1, "G={g} expected ~64");
            assert!(b.abs_diff(200) <= 1, "B={b} expected ~200");
        }
    }
}

#[test]
fn center_crop_4x4_to_2x2_returns_center_pixels() {
    let img = picture(4, 4, |x, y| [(10 * x + y) as u8, 0, 0]);
    let out = center_crop(&img, 2, 2);
    assert_eq!(out.width(), 2);
    assert_eq!(out.height(), 2);
    assert_eq!(pixel(&out, 0, 0), [11, 0, 0]);
    assert_eq!(pixel(&out, 1, 0), [21, 0, 0]);
    assert_eq!(pixel(&out, 0, 1), [12, 0, 0]);
    assert_eq!(pixel(&out, 1, 1), [22, 0, 0]);
}

#[test]
fn center_crop_source_smaller_returns_source_unchanged() {
    let out = center_crop(&synthetic_image(4, 4), 8, 8);
    assert_eq!(out.width(), 4);
    assert_eq!(out.height(), 4);
    assert_eq!(pixel(&out, 2, 3), [30, 20, 100]);
}

#[test]
fn center_crop_one_axis_smaller_returns_source_unchanged() {
    let out = center_crop(&synthetic_image(4, 8), 4, 6);
    assert_eq!(out.width(), 4);
    assert_eq!(out.height(), 8);
}

#[test]
fn pad_to_square_4x2_with_black_fill_produces_4x4_with_pad_rows() {
    let img = picture(4, 2, |x, _| [(10 * x) as u8, 200, 50]);
    let out = pad_to_square(&img, [0, 0, 0]);
    assert_eq!(out.width(), 4);
    assert_eq!(out.height(), 4);
    for x in 0..4 {
        assert_eq!(pixel(&out, x, 0), [0, 0, 0], "row 0 must be fill; x={x}");
    }
    for y in 1..3 {
        for x in 0..4 {
            assert_eq!(pixel(&out, x, y), [(10 * x) as u8, 200, 50], "source row y={y} x={x}");
        }
    }
    for x in 0..4 {
        assert_eq!(pixel(&out, x, 3), [0, 0, 0], "row 3 must be fill; x={x}");
    }
}

#[test]
fn pad_to_square_2x4_pads_left_and_right() {
    let img = picture(2, 4, |x, y| [(10 * x + y) as u8, 1, 2]);
    let out = pad_to_square(&img, [255, 128, 64]);
    assert_eq!(out.width(), 4);
    assert_eq!(out.height(), 4);
    for y in 0..4 {
        assert_eq!(pixel(&out, 0, y), [255, 128, 64]);
        assert_eq!(pixel(&out, 3, y), [255, 128, 64]);
    }
    for y in 0..4 {
        for x_src in 0..2 {
            assert_eq!(pixel(&out, 1 + x_src, y), [(10 * x_src + y) as u8, 1, 2]);
        }
    }
}

#[test]
fn pad_to_square_already_square_returns_clone() {
    let out = pad_to_square(&synthetic_image(4, 4), [99, 99, 99]);
    assert_eq!(out.width(), 4);
    assert_eq!(out.height(), 4);
    assert_eq!(pixel(&out, 2, 3), [30, 20, 100]);
}

#[test]
fn pad_to_square_odd_difference_extra_row_on_bottom() {
    let img = picture(3, 2, |x, y| [(x + 10 * y) as u8, 7, 8]);
    let out = pad_to_square(&img, [42, 43, 44]);
    assert_eq!((out.width(), out.height()), (3, 3));
    for y in 0..2 {
        for x in 0..3 {
            assert_eq!(pixel(&out, x, y), [(x + 10 * y) as u8, 7, 8], "source y={y} x={x}");
        }
    }
    for x in 0..3 {
        assert_eq!(pixel(&out, x, 2), [42, 43, 44], "pad row x={x}");
    }
}

#[test]
fn normalize_hand_computed_1x1x3() {
    let arr = floats(&[3.0, 5.0, 7.0], &[1, 1, 3]);
    let out = normalize(&arr, &nums([1.0, 2.0, 3.0]), &nums([2.0, 1.0, 0.5])).unwrap();
    let v = to_vec(&out);
    assert!(vclose(&v, &[1.0, 3.0, 8.0]), "got {v:?}");
}

#[test]
fn normalize_imagenet_is_alias_for_normalize() {
    let arr = floats(&[0.1, 0.2, 0.3, 0.4, 0.5, 0.6], &[2, 1, 3]);
    let mean = nums([0.485, 0.456, 0.406]);
    let std = nums([0.229, 0.224, 0.225]);
    let a = normalize(&arr, &mean, &std).unwrap();
    let b = normalize_imagenet(&arr, &mean, &std).unwrap();
    assert!(vclose(&to_vec(&a), &to_vec(&b)));
}

#[test]
fn normalize_rejects_integer_dtypes() {
    let arr = Array::from_slice(&[0; 3], &[1, 1, 3], Dtype::U8).unwrap();
    let err = normalize(&arr, &nums([0.485, 0.456, 0.406]), &nums([0.229, 0.224, 0.225]))
        .unwrap_err();
    assert!(matches!(err, Error::ShapeMismatch { .. }), "want ShapeMismatch, got {err:?}");
}

#[test]
fn as_strided_accepts_zero_shape() {
    let a = floats(&[1.0, 2.0, 3.0, 4.0], &[4]);
    let view = as_strided(&a, &[0, 4], &[1, 1], 0).unwrap();
    assert_eq!(view.size(), 0);
}

#[test]
fn as_strided_rejects_mismatched_lengths() {
    let a = floats(&[1.0, 2.0, 3.0, 4.0], &[4]);
    let result = as_strided(&a, &[4], &[1, 1], 0);
    assert!(result.is_err(), "mismatched shape/strides should be rejected");
}

#[test]
fn as_strided_rejects_negative_dim() {
    let a = floats(&[1.0, 2.0, 3.0, 4.0], &[4]);
    let result = as_strided(&a, &[-1, 4], &[1, 1], 0);
    assert!(result.is_err(), "negative dim should be rejected");
}

#[test]
fn as_strided_valid_params() {
    let a = floats(&[1.0, 2.0, 3.0, 4.0, 5.0, 6.0], &[6]);
    let result = as_strided(&a, &[2, 3], &[3, 1], 0);
    assert!(result.is_ok(), "valid as_strided should succeed");
    assert_eq!(to_vec(&result.unwrap()), vec![1.0, 2.0, 3.0, 4.0, 5.0, 6.0]);
}

#[test]
fn quantize_accepts_zero_group_size() {
    let w = floats(&[1.0; 64], &[8, 8]);
    assert!(quantize(&w, 0, 8, "affine").is_err());
}

#[test]
fn quantize_accepts_zero_bits() {
    let w = floats(&[1.0; 64], &[8, 8]);
    assert!(quantize(&w, 64, 0, "affine").is_err());
}

#[test]
fn quantize_accepts_negative_group_size() {
    let w = floats(&[1.0; 64], &[8, 8]);
    assert!(quantize(&w, -1, 8, "affine").is_err());
}

#[test]
fn quantize_rejects_invalid_mode() {
    let w = floats(&[1.0; 64], &[8, 8]);
    let result = quantize(&w, 64, 8, "invalid_mode");
    assert!(result.is_err(), "invalid mode should be rejected");
}

#[test]
fn array_is_not_copy() {
    let a = floats(&[1.0], &[1]);
    let b = a;
    assert_eq!(b.size(), 1);
}

fn assert_copy<T: Copy>() {}

fn assert_send<T: Send>() {}

fn assert_sync<T: Sync>() {}

#[test]
fn dtype_is_copy() {
    assert_copy::<Dtype>();
}

#[test]
fn error_is_send() {
    assert_send::<Error>();
}

#[test]
fn error_is_sync() {
    assert_sync::<Error>();
}

#[test]
fn validate_dims_empty_is_ok() {
    assert!(validate_dims(&[]).is_ok());
}

#[test]
fn validate_dims_single_zero() {
    assert!(validate_dims(&[0]).is_ok());
}

#[test]
fn validate_dims_negative() {
    assert!(validate_dims(&[-1]).is_err());
}

#[test]
fn validate_dims_large_positive() {
    assert!(validate_dims(&[1_000_000]).is_ok());
}

#[test]
fn validate_dims_mixed() {
    assert!(validate_dims(&[2, -3, 4]).is_err());
}

#[test]
fn default_stream_is_stable() {
    let gpu = Device { kind: DeviceKind::Gpu, index: 0 };
    let mut cache = StreamCache::new();
    assert_eq!(cache.default_stream(), DefaultStream::Make);
    let s = cache.made(Some(Stream::at(gpu, 0))).unwrap();
    assert_eq!(cache.default_stream(), DefaultStream::Cached(s));
    assert_eq!(cache.default_stream(), DefaultStream::Cached(s));
    cache.reset_default_stream_cache();
    assert_eq!(cache.default_stream(), DefaultStream::Make);
    assert_eq!(
        cache.made(None).unwrap_err().message(),
        "mlx_default_gpu_stream_new returned NULL ctx \u{2014} GPU unavailable or initialization \
         failed. Aborting."
    );
    cache.made(Some(s)).unwrap();
    assert_eq!(
        cache.clear_current_thread_streams(1).unwrap_err().message(),
        "mlxrs_shim_clear_streams: mlx::core::clear_streams() threw"
    );
    assert_eq!(cache.default_stream(), DefaultStream::Make);
    assert!(s.equal(&s.try_clone().unwrap()));
    assert!(!s.equal(&Stream::at(gpu, 1)));
}

#[test]
fn from_slice_wrong_size() {
    let result = Array::from_slice(&f32s(&[1.0, 2.0, 3.0, 4.0]), &[3], Dtype::F32);
    assert!(matches!(result, Err(Error::ShapeMismatch { .. })));
}

#[test]
fn from_slice_scalar() {
    let arr = Array::from_slice(&f32s(&[42.0]), &[], Dtype::F32).unwrap();
    assert_eq!(arr.size(), 1);
}

#[test]
fn from_slice_empty() {
    let arr = Array::from_slice(&[], &[0], Dtype::F32).unwrap();
    assert_eq!(arr.size(), 0);
}

#[test]
fn f32_array_has_correct_dtype() {
    let a = floats(&[1.0], &[1]);
    assert_eq!(a.dtype(), Dtype::F32);
}

#[test]
fn f16_array_has_correct_dtype() {
    // 0x3c00 is one in half precision.
    let a = Array::from_slice(&[0x3c00], &[1], Dtype::F16).unwrap();
    assert_eq!(a.dtype(), Dtype::F16);
}

#[test]
fn i32_array_has_correct_dtype() {
    let a = Array::from_slice(&[1], &[1], Dtype::I32).unwrap();
    assert_eq!(a.dtype(), Dtype::I32);
}

#[test]
fn bool_array_has_correct_dtype() {
    let a = Array::from_slice(&[1], &[1], Dtype::Bool).unwrap();
    assert_eq!(a.dtype(), Dtype::Bool);
}

#[test]
fn multiply_by_zero() {
    let a = floats(&[1.0, 2.0, 3.0], &[3]);
    let zero = floats(&[0.0], &[1]);
    let result = multiply(&a, &zero);
    assert!(result.is_ok());
    assert_eq!(to_vec(&result.unwrap()), vec![0.0, 0.0, 0.0]);
}

#[test]
fn add_broadcast_shapes() {
    let a = floats(&[1.0, 2.0, 3.0, 4.0], &[2, 2]);
    let b = floats(&[10.0, 20.0], &[2]);
    let result = add(&a, &b);
    assert!(result.is_ok());
    assert_eq!(to_vec(&result.unwrap()), vec![11.0, 22.0, 13.0, 24.0]);
}

#[test]
fn subtract_same_shape() {
    let a = floats(&[5.0, 10.0], &[2]);
    let b = floats(&[3.0, 4.0], &[2]);
    let result = subtract(&a, &b);
    assert!(result.is_ok());
    assert_eq!(to_vec(&result.unwrap()), vec![2.0, 6.0]);
}

#[test]
fn divide_by_zero_f32() {
    let a = floats(&[1.0, 2.0], &[2]);
    let zero = floats(&[0.0], &[1]);
    let result = divide(&a, &zero);
    assert!(result.is_ok());
    assert_eq!(to_vec(&result.unwrap()), vec![f32::INFINITY, f32::INFINITY]);
}

#[test]
fn equal_returns_bool() {
    let a = floats(&[1.0, 2.0], &[2]);
    let b = floats(&[1.0, 3.0], &[2]);
    let result = equal(&a, &b).unwrap();
    assert_eq!(result.dtype(), Dtype::Bool);
    assert_eq!(to_vec(&result), vec![1.0, 0.0]);
}

#[test]
fn greater_returns_bool() {
    let a = floats(&[2.0, 1.0], &[2]);
    let b = floats(&[1.0, 2.0], &[2]);
    let result = greater(&a, &b).unwrap();
    assert_eq!(result.dtype(), Dtype::Bool);
    assert_eq!(to_vec(&result), vec![1.0, 0.0]);
}

#[test]
fn shapes_that_do_not_broadcast_are_refused() {
    let a = floats(&[1.0, 2.0, 3.0], &[3]);
    let b = floats(&[1.0, 2.0], &[2]);
    assert!(matches!(add(&a, &b), Err(Error::Backend { .. })));
    assert!(matches!(broadcast_to(&a, &[2]), Err(Error::Backend { .. })));
}

#[test]
fn reshape_preserves_size() {
    let a = floats(&[1.0, 2.0, 3.0, 4.0, 5.0, 6.0], &[2, 3]);
    let reshaped = reshape(&a, &[3, 2]).unwrap();
    assert_eq!(reshaped.size(), 6);
    assert_eq!(a.reshape(&[3, 2]).unwrap().shape(), vec![3, 2]);
    assert!(matches!(reshape(&a, &[-1, 6]), Err(Error::ShapeMismatch { .. })));
}

#[test]
fn reshape_rejects_wrong_size() {
    let a = floats(&[1.0, 2.0, 3.0, 4.0], &[2, 2]);
    let result = reshape(&a, &[3, 2]);
    assert!(result.is_err());
}

#[test]
fn transpose_swaps_dims() {
    let a = floats(&[1.0, 2.0, 3.0, 4.0, 5.0, 6.0], &[2, 3]);
    let t = a.transpose().unwrap();
    assert_eq!(t.shape(), vec![3, 2]);
    assert_eq!(to_vec(&t), vec![1.0, 4.0, 2.0, 5.0, 3.0, 6.0]);
}

#[test]
fn squeeze_removes_size_one_dim() {
    let a = floats(&[1.0, 2.0, 3.0], &[1, 3, 1]);
    let s = a.squeeze().unwrap();
    assert_eq!(s.shape(), vec![3]);
}

#[test]
fn expand_dims_adds_dim() {
    let a = floats(&[1.0, 2.0, 3.0], &[3]);
    let e = a.expand_first().unwrap();
    assert_eq!(e.shape(), vec![1, 3]);
}

#[test]
fn sum_empty_axis() {
    let a = floats(&[1.0, 2.0, 3.0, 4.0], &[2, 2]);
    let result = sum(&a);
    assert!(result.is_ok());
    assert_eq!(to_vec(&result.unwrap()), vec![10.0]);
}

#[test]
fn sum_single_axis() {
    let a = floats(&[1.0, 2.0, 3.0, 4.0], &[2, 2]);
    let result = sum_axis(&a, 0);
    assert!(result.is_ok());
    assert_eq!(to_vec(&result.unwrap()), vec![4.0, 6.0]);
    assert_eq!(to_vec(&sum_axis(&a, -1).unwrap()), vec![3.0, 7.0]);
    assert!(sum_axis(&a, 2).is_err());
}

#[test]
fn argmax_returns_i32() {
    let a = floats(&[1.0, 5.0, 3.0], &[3]);
    let result = argmax(&a).unwrap();
    assert_eq!(result.dtype(), Dtype::I32);
    assert_eq!(to_vec(&result), vec![1.0]);
}

#[test]
fn min_max_consistency() {
    let a = floats(&[3.0, 1.0, 4.0, 1.0, 5.0], &[5]);
    let min_val = to_vec(&min(&a).unwrap())[0];
    let max_val = to_vec(&max(&a).unwrap())[0];
    assert!(min_val <= max_val);
    assert_eq!((min_val, max_val), (1.0, 5.0));
}

#[test]
fn error_is_not_panic() {
    let err = Error::Backend { message: "test".into() };
    assert!(matches!(err, Error::Backend { .. }));
    assert_eq!(err.message(), "test");
}

#[test]
fn fftshift_and_its_inverse_undo_each_other() {
    let a = floats(&[0.0, 1.0, 2.0, 3.0, 4.0], &[5]);
    let there = fftshift(&a, &[]).unwrap();
    assert_eq!(to_vec(&there), vec![3.0, 4.0, 0.0, 1.0, 2.0]);
    let back = ifftshift(&there, &[0]).unwrap();
    assert_eq!(to_vec(&back), to_vec(&a));
    assert!(fftshift(&a, &[1]).is_err());
}

#[test]
fn rfft_and_irfft_undo_each_other() {
    let a = floats(&[1.0, 2.0, 0.0, -1.0], &[4]);
    let f = rfft(&a, 4, -1, FftNorm::Backward).unwrap();
    assert_eq!(f.shape(), vec![3]);
    assert_eq!(f.dtype(), Dtype::Complex64);
    let back = irfft(&f, 4, -1, FftNorm::Backward).unwrap();
    approx_eq(&to_vec(&back), &[1.0, 2.0, 0.0, -1.0], 1e-6);
    assert!(rfft(&a, 0, -1, FftNorm::Backward).is_err());
    assert!(rfft(&a, 4, 1, FftNorm::Backward).is_err());
}

#[test]
fn complex_transforms_undo_each_other() {
    let a = floats(&[1.0, 2.0, 0.0, -1.0, 4.0], &[5]);
    let f = fft(&a, 5, 0, FftNorm::Backward).unwrap();
    assert_eq!(f.dtype(), Dtype::Complex64);
    assert_eq!(f.shape(), vec![5]);
    let back = ifft(&f, 5, 0, FftNorm::Backward).unwrap();
    approx_eq(&to_vec(&back), &[1.0, 2.0, 0.0, -1.0, 4.0], 1e-6);
    assert_eq!(back.op(), Op::Fft(FftKind::InverseComplex, FftNorm::Backward));
}

#[test]
fn inverses_keep_or_widen_the_last_axis() {
    let a = floats(&[1.0; 12], &[3, 4]);
    assert_eq!(ifftn(&a, &[], &[], FftNorm::Ortho).unwrap().shape(), vec![3, 4]);
    assert_eq!(ifft2(&a, &[6, 2], &[], FftNorm::Ortho).unwrap().shape(), vec![6, 2]);
    let half = rfftn(&a, &[], &[], FftNorm::Ortho).unwrap();
    assert_eq!(half.shape(), vec![3, 3]);
    let back = irfftn(&half, &[], &[], FftNorm::Ortho).unwrap();
    assert_eq!(back.shape(), vec![3, 4]);
    assert_eq!(back.dtype(), Dtype::F32);
}

#[test]
fn fftn_takes_several_different_axes() {
    let a = floats(&[1.0; 12], &[3, 4]);
    assert_eq!(fftn(&a, &[3, 4], &[0, 1], FftNorm::Ortho).unwrap().shape(), vec![3, 4]);
    assert_eq!(rfft2(&a, &[3, 8], &[-2, -1], FftNorm::Forward).unwrap().shape(), vec![3, 5]);
    assert!(fftn(&a, &[3, 4], &[1, -1], FftNorm::Ortho).is_err());
    assert!(fftn(&a, &[3], &[0, 1], FftNorm::Ortho).is_err());
}

#[test]
fn fftn_without_axes_takes_the_last_ones() {
    let a = floats(&[1.0; 24], &[2, 3, 4]);
    let all = fftn(&a, &[], &[], FftNorm::Backward).unwrap();
    assert_eq!(all.shape(), vec![2, 3, 4]);
    assert_eq!(all.params(), &[2, 3, 4, -3, -2, -1]);
    let plane = rfft2(&a, &[], &[], FftNorm::Backward).unwrap();
    assert_eq!(plane.params(), &[3, 4, -2, -1]);
    assert_eq!(plane.shape(), vec![2, 3, 3]);
    let back = irfft2(&plane, &[], &[], FftNorm::Backward).unwrap();
    assert_eq!(back.shape(), vec![2, 3, 4]);
    assert_eq!(fftn(&a, &[8], &[], FftNorm::Backward).unwrap().shape(), vec![2, 3, 8]);
    assert!(fft2(&floats(&[1.0; 4], &[4]), &[], &[], FftNorm::Backward).is_err());
}

#[test]
fn closure_results_are_settled() {
    let twice = Closure::new(|xs: &[Array]| Ok(vec![add(&xs[0], &xs[0])?])).unwrap();
    let input = [floats(&[1.0, 2.0], &[2])];
    assert_eq!(to_vec(&(twice.as_raw())(&input).unwrap()[0]), vec![2.0, 4.0]);
    let out = twice.apply(&input);
    let (code, arrays, error) = settle(Callee::Plain, Call::Returned(out));
    assert_eq!(code, 0);
    assert!(error.is_none());
    assert_eq!(to_vec(&arrays[0]), vec![2.0, 4.0]);
    let refused = Error::ShapeMismatch { message: "no".into() };
    let (code, arrays, error) = settle::<Array>(Callee::Plain, Call::Returned(Err(refused)));
    assert_eq!((code, arrays.len()), (1, 0));
    assert!(matches!(error, Some(Error::ShapeMismatch { .. })));
    let (_, _, error) = settle::<Array>(Callee::Plain, Call::Panicked(Some("boom".into())));
    assert_eq!(
        error.unwrap().message(),
        "mlxrs::transforms closure trampoline caught panic: boom"
    );
    let (_, _, error) = settle::<Array>(Callee::CustomVjp, Call::Panicked(None));
    assert_eq!(
        error.unwrap().message(),
        "mlxrs::transforms custom-VJP trampoline caught panic: \
         panic in mlxrs::transforms custom-VJP trampoline"
    );
}

#[test]
fn custom_derivatives_get_all_their_inputs() {
    let vjp = closure_custom_new(|p: &[Array], o: &[Array], c: &[Array]| {
        Ok(vec![add(&p[0], &multiply(&o[0], &c[0])?)?])
    })
    .unwrap();
    let one = |v: f32| floats(&[v], &[1]);
    let out = vjp.apply(&[one(1.0)], &[one(2.0)], &[one(3.0)]).unwrap();
    assert_eq!(to_vec(&out[0]), vec![7.0]);
}
