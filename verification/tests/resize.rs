//! Resampling of images.
use mlxrs::error::Error;
use mlxrs::vlm::resize::{
    clip8, lay_out, precompute_coeffs, resize_rgba8, resize_within, CoeffBuffers, Coeffs, Filter,
    ResizeBuffers, Taps, CHANNELS, FLAT_TOLERANCE, PRECISION_BITS,
};

fn sinc(x: f64) -> f64 {
    if x == 0.0 {
        1.0
    } else {
        let t = x * std::f64::consts::PI;
        t.sin() / t
    }
}

fn kernel(filter: Filter, x: f64) -> f64 {
    let x = x.abs();
    match filter {
        Filter::Nearest => panic!("the nearest pixel has no kernel"),
        Filter::Bilinear => (1.0 - x).max(0.0),
        Filter::Bicubic => {
            let a = -0.5;
            if x < 1.0 {
                ((a + 2.0) * x - (a + 3.0)) * x * x + 1.0
            } else if x < 2.0 {
                (((x - 5.0) * x + 8.0) * x - 4.0) * a
            } else {
                0.0
            }
        }
        Filter::Lanczos3 => {
            if x < 3.0 {
                sinc(x) * sinc(x / 3.0)
            } else {
                0.0
            }
        }
    }
}

/// The weights that resample one axis, as fixed-point numbers.
fn weights(filter: Filter, in_size: usize, out_size: usize) -> Vec<Taps> {
    if filter == Filter::Nearest {
        return Vec::new();
    }
    let scale = in_size as f64 / out_size as f64;
    let stretch = scale.max(1.0);
    let support = filter.radius() as f64 * stretch;
    let mut all = Vec::new();
    for o in 0..out_size {
        let center = (o as f64 + 0.5) * scale;
        let xmin = ((center - support + 0.5) as i64).max(0) as usize;
        let xmax = ((center + support + 0.5) as i64).min(in_size as i64) as usize;
        let raw: Vec<f64> = (xmin..xmax)
            .map(|i| kernel(filter, (i as f64 - center + 0.5) / stretch))
            .collect();
        let sum: f64 = raw.iter().sum();
        let weights = raw
            .iter()
            .map(|w| (w / sum * (1u64 << PRECISION_BITS) as f64).round() as i32)
            .collect();
        all.push(Taps { xmin, weights });
    }
    all
}

fn resize(
    src: &[u8],
    sw: usize,
    sh: usize,
    dw: usize,
    dh: usize,
    f: Filter,
) -> std::result::Result<Vec<u8>, Error> {
    let horizontal = if sw == 0 || dw == 0 { Vec::new() } else { weights(f, sw, dw) };
    let vertical = if sh == 0 || dh == 0 { Vec::new() } else { weights(f, sh, dh) };
    resize_rgba8(src, sw, sh, dw, dh, f, &horizontal, &vertical)
}

/// One axis resampled with plain integers.
fn axis_by_hand(line: &[u8], c: &Coeffs, o: usize) -> u8 {
    let (xmin, n) = c.bound(o);
    let mut acc: i64 = 1 << (PRECISION_BITS - 1);
    for (i, w) in c.taps(o).iter().enumerate() {
        assert!(i < n);
        acc += i64::from(line[xmin + i]) * i64::from(*w);
    }
    (acc >> PRECISION_BITS).clamp(0, 255) as u8
}

/// The same image computed pixel by pixel.
fn resize_rgba8_scalar(
    src: &[u8],
    sw: usize,
    sh: usize,
    dw: usize,
    dh: usize,
    f: Filter,
) -> Vec<u8> {
    let mut dst = vec![0u8; dw * dh * CHANNELS];
    if f == Filter::Nearest {
        for y in 0..dh {
            for x in 0..dw {
                let sx = ((2 * x + 1) * sw / (2 * dw)).min(sw - 1);
                let sy = ((2 * y + 1) * sh / (2 * dh)).min(sh - 1);
                for c in 0..CHANNELS {
                    dst[(y * dw + x) * CHANNELS + c] = src[(sy * sw + sx) * CHANNELS + c];
                }
            }
        }
        return dst;
    }
    let hc = precompute_coeffs(sw, dw, f, &weights(f, sw, dw)).unwrap();
    let vc = precompute_coeffs(sh, dh, f, &weights(f, sh, dh)).unwrap();
    let mut inter = vec![0u8; sh * dw * CHANNELS];
    for y in 0..sh {
        for c in 0..CHANNELS {
            let line: Vec<u8> = (0..sw).map(|x| src[(y * sw + x) * CHANNELS + c]).collect();
            for x in 0..dw {
                inter[(y * dw + x) * CHANNELS + c] = axis_by_hand(&line, &hc, x);
            }
        }
    }
    for x in 0..dw {
        for c in 0..CHANNELS {
            let line: Vec<u8> = (0..sh).map(|y| inter[(y * dw + x) * CHANNELS + c]).collect();
            for y in 0..dh {
                dst[(y * dw + x) * CHANNELS + c] = axis_by_hand(&line, &vc, y);
            }
        }
    }
    dst
}

fn make_src(w: usize, h: usize, seed: u32) -> Vec<u8> {
    let mut s = seed.wrapping_add(1);
    let mut v = Vec::with_capacity(w * h * CHANNELS);
    for _ in 0..w * h * CHANNELS {
        s = s.wrapping_mul(1_664_525).wrapping_add(1_013_904_223);
        v.push((s >> 24) as u8);
    }
    v
}

#[test]
fn neon_matches_scalar_across_sizes_and_filters() {
    let filters = [Filter::Bilinear, Filter::Bicubic, Filter::Lanczos3, Filter::Nearest];
    let cases = [
        (4usize, 4usize, 2usize, 2usize),
        (3, 5, 7, 2),
        (5, 3, 2, 8),
        (8, 6, 4, 3),
        (2, 2, 9, 9),
        (5, 1, 2, 1),
        (1, 5, 1, 2),
        (7, 7, 7, 7),
        (16, 9, 5, 11),
    ];
    for (i, &(sw, sh, dw, dh)) in cases.iter().enumerate() {
        let src = make_src(sw, sh, i as u32 * 7 + 1);
        for &f in &filters {
            let resized = resize(&src, sw, sh, dw, dh, f).unwrap();
            let scalar = resize_rgba8_scalar(&src, sw, sh, dw, dh, f);
            assert_eq!(resized, scalar, "mismatch for {f:?} {sw}x{sh}->{dw}x{dh}");
        }
    }
}

#[test]
fn rejects_zero_dimensions() {
    let src = [0u8; 4];
    for (sw, sh, dw, dh) in [(0usize, 1usize, 2, 2), (1, 0, 2, 2), (1, 1, 0, 2), (1, 1, 2, 0)] {
        let r = resize(&src[..sw.max(1) * sh.max(1) * CHANNELS], sw, sh, dw, dh, Filter::Bilinear);
        assert!(
            matches!(r, Err(Error::ShapeMismatch { .. })),
            "zero dim {sw}x{sh}->{dw}x{dh} must be ShapeMismatch, got {r:?}"
        );
    }
}

#[test]
fn rejects_src_buffer_length_mismatch() {
    let src = [0u8; 4];
    let r = resize(&src, 2, 2, 1, 1, Filter::Bilinear);
    assert!(matches!(r, Err(Error::ShapeMismatch { .. })), "got {r:?}");
}

#[test]
fn rejects_overflowing_dst_product() {
    let src = [0u8; 4];
    let big = usize::MAX / 2 + 1;
    let r = resize_rgba8(&src, 1, 1, big, big, Filter::Bilinear, &[], &[]);
    assert!(matches!(r, Err(Error::ShapeMismatch { .. })), "got {r:?}");
}

#[test]
fn output_length_is_exact() {
    let src = make_src(8, 6, 3);
    for f in [Filter::Nearest, Filter::Bilinear, Filter::Bicubic, Filter::Lanczos3] {
        let out = resize(&src, 8, 6, 5, 4, f).unwrap();
        assert_eq!(out.len(), 5 * 4 * CHANNELS, "filter {f:?} output length");
    }
}

#[test]
fn constant_image_is_preserved() {
    let mut src = Vec::with_capacity(6 * 6 * CHANNELS);
    for _ in 0..6 * 6 {
        src.extend_from_slice(&[123, 45, 200, 255]);
    }
    for f in [Filter::Bilinear, Filter::Bicubic, Filter::Lanczos3] {
        for &(dw, dh) in &[(3usize, 3usize), (9, 9), (4, 7)] {
            let out = resize(&src, 6, 6, dw, dh, f).unwrap();
            for px in out.chunks_exact(CHANNELS) {
                assert_eq!(px, &[123, 45, 200, 255], "constant must survive {f:?} -> {dw}x{dh}");
            }
        }
    }
}

#[test]
fn precompute_coeffs_weights_sum_to_unity_fixedpoint() {
    let one = 1i64 << PRECISION_BITS;
    for f in [Filter::Bilinear, Filter::Bicubic, Filter::Lanczos3] {
        for &(insz, outsz) in &[(8usize, 3usize), (3, 8), (5, 5), (16, 4)] {
            let c = precompute_coeffs(insz, outsz, f, &weights(f, insz, outsz)).unwrap();
            assert_eq!(c.out_size(), outsz);
            for o in 0..outsz {
                let (_, n) = c.bound(o);
                let s: i64 = c.taps(o).iter().map(|&w| i64::from(w)).sum();
                let tol = n as i64 + 1;
                assert!(
                    (s - one).abs() <= tol,
                    "{f:?} {insz}->{outsz} out {o}: tap sum {s} not within {tol} of {one}"
                );
                assert!((s - one).abs() <= i64::from(FLAT_TOLERANCE));
            }
        }
    }
}

#[test]
fn weights_that_do_not_fit_are_refused() {
    // A window behind the end of the axis, too few windows, weights whose sums
    // could leave the range of the accumulator, an empty window, and weights
    // that do not add up to one.
    let behind = vec![Taps { xmin: 2, weights: vec![1 << 22] }];
    let few: Vec<Taps> = Vec::new();
    let large = vec![Taps { xmin: 0, weights: vec![i32::MAX] }];
    let empty = vec![Taps { xmin: 0, weights: Vec::new() }];
    let light = vec![Taps { xmin: 0, weights: vec![1 << 21] }];
    for taps in [behind, few, large, empty, light] {
        let r = precompute_coeffs(2, 1, Filter::Bilinear, &taps);
        assert!(matches!(r, Err(Error::ShapeMismatch { .. })), "got {r:?}");
    }
    // Windows that go back, and an axis of the same size that is shifted.
    let one = |xmin: usize| Taps { xmin, weights: vec![1 << 22] };
    let r = precompute_coeffs(3, 2, Filter::Bilinear, &[one(2), one(0)]);
    assert!(matches!(r, Err(Error::ShapeMismatch { .. })), "got {r:?}");
    let r = precompute_coeffs(2, 2, Filter::Bilinear, &[one(1), one(1)]);
    assert!(matches!(r, Err(Error::ShapeMismatch { .. })), "got {r:?}");
    assert!(precompute_coeffs(2, 2, Filter::Bilinear, &[one(0), one(1)]).is_ok());
}

#[test]
fn refusals_of_images_say_what_is_wrong() {
    let src = [0u8; 16];
    let says = |sw: usize, sh: usize, dw: usize, dh: usize, text: String| {
        let r = resize_rgba8(&src, sw, sh, dw, dh, Filter::Nearest, &[], &[]);
        assert_eq!(r.unwrap_err().message(), text);
    };
    says(
        0,
        2,
        3,
        4,
        "resize_rgba8: dimensions must be non-zero, got src 0x2 dst 3x4".to_string(),
    );
    says(
        usize::MAX,
        2,
        1,
        1,
        format!("resize_rgba8: src_w*src_h*4 overflows usize for {}x2", usize::MAX),
    );
    says(
        3,
        2,
        1,
        1,
        "resize_rgba8: src buffer is 16 bytes, expected src_w*src_h*4=24 for 3x2".to_string(),
    );
    says(
        2,
        2,
        1,
        usize::MAX,
        format!("resize_rgba8: dst_w*dst_h*4 overflows usize for 1x{}", usize::MAX),
    );
    let r = precompute_coeffs(0, 7, Filter::Bilinear, &[]);
    assert_eq!(
        r.unwrap_err().message(),
        "precompute_coeffs: in_size=0 out_size=7 must be non-zero"
    );
    let r = precompute_coeffs(4, usize::MAX, Filter::Bilinear, &[]);
    assert_eq!(
        r.unwrap_err().message(),
        format!("precompute_coeffs: out_size*ksize overflows for {}*3", usize::MAX)
    );
}

#[test]
fn accumulators_are_clipped() {
    assert_eq!(clip8(-1), 0);
    assert_eq!(clip8(0), 0);
    assert_eq!(clip8(255 << 22), 255);
    assert_eq!(clip8((255 << 22) + (1 << 22)), 255);
    assert_eq!(clip8(7 << 22), 7);
}

#[test]
fn every_filter_keeps_an_image_of_the_same_size() {
    let src = make_src(5, 4, 9);
    for f in [Filter::Nearest, Filter::Bilinear, Filter::Bicubic, Filter::Lanczos3] {
        assert_eq!(resize(&src, 5, 4, 5, 4, f).unwrap(), src, "{f:?}");
    }
}

#[test]
fn given_room_is_used_and_the_answer_is_the_same() {
    let src = make_src(6, 5, 2);
    let room = || ResizeBuffers {
        horizontal: CoeffBuffers { bounds: vec![(9, 9)], weights: vec![7] },
        vertical: CoeffBuffers { bounds: Vec::new(), weights: Vec::new() },
        inter: vec![1, 2, 3],
        out: vec![4],
    };
    for f in [Filter::Nearest, Filter::Bilinear, Filter::Lanczos3] {
        let (h, v) = (weights(f, 6, 4), weights(f, 5, 9));
        let out = resize_within(&src, 6, 5, 4, 9, f, &h, &v, room()).unwrap();
        assert_eq!(out, resize(&src, 6, 5, 4, 9, f).unwrap());
    }
    let r = resize_within(&src, 6, 5, 0, 9, Filter::Nearest, &[], &[], room());
    assert!(matches!(r, Err(Error::ShapeMismatch { .. })), "got {r:?}");
    let taps = weights(Filter::Bilinear, 6, 4);
    let room = CoeffBuffers { bounds: Vec::new(), weights: Vec::new() };
    let c = lay_out(6, 4, Filter::Bilinear, &taps, room).unwrap();
    assert_eq!(c.taps(1), taps[1].weights);
}
