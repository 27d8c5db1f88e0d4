//! Fourier transforms along one or several axes.
use vstd::prelude::*;

use crate::array::{outcome, unary, Array, Op, Tensor};
use crate::dtype::Dtype;
use crate::error::{backend, Result};
use crate::shape::fits;

verus! {

/// Which way a transform and its inverse share the factor `1 / n`.
#[derive(Clone, Copy, Debug, PartialEq, Eq, Structural)]
pub enum FftNorm {
    /// All of it on the inverse.
    Backward,
    /// Its square root on both.
    Ortho,
    /// All of it on the transform.
    Forward,
}

impl Default for FftNorm {
    fn default() -> (r: FftNorm)
        ensures
            r == FftNorm::Backward,
    {
        FftNorm::Backward
    }
}

/// Which transform.
#[derive(Clone, Copy, Debug, PartialEq, Eq, Structural)]
pub enum FftKind {
    /// Complex to complex.
    Complex,
    /// Complex to complex, inverse.
    InverseComplex,
    /// Real to the non-negative frequencies.
    Real,
    /// The non-negative frequencies to real.
    InverseReal,
}

/// The axis that `axis` names in an array of the given rank, counted from the
/// end where it is negative.
pub open spec fn axis_at(rank: int, axis: int) -> int {
    if axis < 0 {
        axis + rank
    } else {
        axis
    }
}

/// Whether `n` and `axes` describe a transform: one positive length for each
/// of several different axes.
pub open spec fn transformable(rank: int, n: Seq<i32>, axes: Seq<i32>) -> bool {
    &&& n.len() == axes.len()
    &&& forall|i: int| 0 <= i < n.len() ==> #[trigger] n[i] > 0
    &&& forall|i: int| 0 <= i < axes.len() ==> 0 <= axis_at(rank, #[trigger] axes[i] as int) < rank
    &&& forall|i: int, j: int|
        0 <= i < j < axes.len() ==> axis_at(rank, #[trigger] axes[i] as int) != axis_at(
            rank,
            #[trigger] axes[j] as int,
        )
}

/// `shape` with the first `count` of the axes at their transform lengths.
pub open spec fn with_lengths(
    shape: Seq<usize>,
    n: Seq<i32>,
    axes: Seq<i32>,
    count: int,
) -> Seq<usize>
    decreases count,
{
    if count <= 0 {
        shape
    } else {
        with_lengths(shape, n, axes, count - 1).update(
            axis_at(shape.len() as int, axes[count - 1] as int),
            n[count - 1] as usize,
        )
    }
}

/// The shape of a transform. A real transform keeps half of its last axis and
/// the middle.
pub open spec fn transform_shape(
    kind: FftKind,
    shape: Seq<usize>,
    n: Seq<i32>,
    axes: Seq<i32>,
) -> Seq<usize> {
    let full = with_lengths(shape, n, axes, axes.len() as int);
    if kind == FftKind::Real && axes.len() > 0 {
        full.update(
            axis_at(shape.len() as int, axes.last() as int),
            (n.last() / 2 + 1) as usize,
        )
    } else {
        full
    }
}

/// The element type of a transform.
pub open spec fn transform_dtype(kind: FftKind) -> Dtype {
    if kind == FftKind::InverseReal {
        Dtype::F32
    } else {
        Dtype::Complex64
    }
}

pub open spec fn widened(s: Seq<i32>) -> Seq<i64> {
    s.map_values(|d: i32| d as i64)
}

/// The transform of `x` along `axes` with the lengths `n`.
pub open spec fn transformed(
    kind: FftKind,
    norm: FftNorm,
    x: Tensor,
    n: Seq<i32>,
    axes: Seq<i32>,
) -> Option<Tensor> {
    if transformable(x.shape.len() as int, n, axes) {
        unary(
            Op::Fft(kind, norm),
            transform_shape(kind, x.shape, n, axes),
            transform_dtype(kind),
            widened(n) + widened(axes),
            x,
        )
    } else {
        None
    }
}

fn transform(kind: FftKind, a: &Array, n: &[i32], axes: &[i32], norm: FftNorm) -> (r: Result<Array>)
    ensures
        outcome(r) == transformed(kind, norm, a@, n@, axes@),
        r is Err ==> r->Err_0 is Backend,
{
    if n.len() != axes.len() {
        return Err(backend("fft: one length is needed for each axis"));
    }
    let mut shape: Vec<usize> = a.shape();
    let rank: usize = shape.len();
    let mut lengths: Vec<i64> = Vec::new();
    let mut places: Vec<usize> = Vec::new();
    let mut i: usize = 0;
    while i < n.len()
        invariant
            n.len() == axes.len(),
            0 <= i <= n.len(),
            rank == a@.shape.len(),
            shape@.len() == rank,
            shape@ == with_lengths(a@.shape, n@, axes@, i as int),
            places@.len() == i,
            lengths@ == widened(n@.take(i as int)),
            forall|j: int| 0 <= j < i ==> #[trigger] n@[j] > 0,
            forall|j: int|
                0 <= j < i ==> 0 <= axis_at(rank as int, #[trigger] axes@[j] as int) < rank,
            forall|j: int|
                0 <= j < i ==> places@[j] == axis_at(rank as int, #[trigger] axes@[j] as int),
            forall|j: int, k: int|
                0 <= j < k < i ==> axis_at(rank as int, #[trigger] axes@[j] as int) != axis_at(
                    rank as int,
                    #[trigger] axes@[k] as int,
                ),
        decreases n.len() - i,
    {
        if n[i] <= 0 {
            return Err(backend("fft: a transform length is not positive"));
        }
        let axis: i32 = axes[i];
        let place: usize;
        if axis >= 0 {
            place = axis as usize;
        } else {
            let back: usize = (-(axis as i64)) as usize;
            if back > rank {
                return Err(backend("fft: an axis is out of range"));
            }
            place = rank - back;
        }
        if place >= rank {
            return Err(backend("fft: an axis is out of range"));
        }
        let mut j: usize = 0;
        while j < i
            invariant
                n.len() == axes.len(),
                0 <= j <= i < axes.len(),
                places@.len() == i,
                place == axis_at(rank as int, axes@[i as int] as int),
                forall|k: int|
                    0 <= k < i ==> places@[k] == axis_at(rank as int, #[trigger] axes@[k] as int),
                forall|k: int|
                    0 <= k < j ==> axis_at(rank as int, #[trigger] axes@[k] as int) != place,
                rank == a@.shape.len(),
            decreases i - j,
        {
            assert(places@[j as int] == axis_at(rank as int, axes@[j as int] as int));
            if places[j] == place {
                assert(!transformable(a@.shape.len() as int, n@, axes@));
                return Err(backend("fft: an axis is named twice"));
            }
            j = j + 1;
        }
        shape.set(place, n[i] as usize);
        places.push(place);
        lengths.push(n[i] as i64);
        assert(widened(n@.take(i + 1)) =~= widened(n@.take(i as int)).push(n@[i as int] as i64));
        i = i + 1;
    }
    if n.len() > 0 {
        match kind {
            FftKind::Real => {
                let last: usize = n.len() - 1;
                assert(places@[last as int] == axis_at(rank as int, axes@[last as int] as int));
                shape.set(places[last], (n[last] / 2 + 1) as usize);
            },
            _ => {},
        }
    }
    let mut k: usize = 0;
    assert(n@.take(n.len() as int) =~= n@);
    assert(widened(axes@.take(0)) =~= Seq::<i64>::empty());
    while k < axes.len()
        invariant
            0 <= k <= axes.len(),
            lengths@ == widened(n@) + widened(axes@.take(k as int)),
        decreases axes.len() - k,
    {
        lengths.push(axes[k] as i64);
        assert(widened(n@) + widened(axes@.take(k + 1)) =~= (widened(n@) + widened(
            axes@.take(k as int),
        )).push(axes@[k as int] as i64));
        k = k + 1;
    }
    assert(axes@.take(axes.len() as int) =~= axes@);
    let dtype = match kind {
        FftKind::InverseReal => Dtype::F32,
        _ => Dtype::Complex64,
    };
    Array::build_unary(Op::Fft(kind, norm), shape, dtype, lengths, a)
}

fn transform_axis(kind: FftKind, a: &Array, n: i32, axis: i32, norm: FftNorm) -> (r: Result<Array>)
    ensures
        outcome(r) == transformed(kind, norm, a@, seq![n], seq![axis]),
        r is Err ==> r->Err_0 is Backend,
{
    let mut lengths: Vec<i32> = Vec::new();
    lengths.push(n);
    let mut axes: Vec<i32> = Vec::new();
    axes.push(axis);
    assert(lengths@ =~= seq![n]);
    assert(axes@ =~= seq![axis]);
    transform(kind, a, &lengths, &axes, norm)
}

/// The transform along `axis` with the length `n`.
pub fn fft(a: &Array, n: i32, axis: i32, norm: FftNorm) -> (r: Result<Array>)
    ensures
        outcome(r) == transformed(FftKind::Complex, norm, a@, seq![n], seq![axis]),
        r is Err ==> r->Err_0 is Backend,
{
    transform_axis(FftKind::Complex, a, n, axis, norm)
}

/// The inverse transform along `axis` with the length `n`.
pub fn ifft(a: &Array, n: i32, axis: i32, norm: FftNorm) -> (r: Result<Array>)
    ensures
        outcome(r) == transformed(FftKind::InverseComplex, norm, a@, seq![n], seq![axis]),
        r is Err ==> r->Err_0 is Backend,
{
    transform_axis(FftKind::InverseComplex, a, n, axis, norm)
}

/// The transform of a real array along `axis` with the length `n`.
pub fn rfft(a: &Array, n: i32, axis: i32, norm: FftNorm) -> (r: Result<Array>)
    ensures
        outcome(r) == transformed(FftKind::Real, norm, a@, seq![n], seq![axis]),
        r is Err ==> r->Err_0 is Backend,
{
    transform_axis(FftKind::Real, a, n, axis, norm)
}

/// The inverse of [`rfft`] along `axis` with the length `n`.
pub fn irfft(a: &Array, n: i32, axis: i32, norm: FftNorm) -> (r: Result<Array>)
    ensures
        outcome(r) == transformed(FftKind::InverseReal, norm, a@, seq![n], seq![axis]),
        r is Err ==> r->Err_0 is Backend,
{
    transform_axis(FftKind::InverseReal, a, n, axis, norm)
}

/// How many axes are transformed where none is named: as many as there are
/// lengths, and without lengths all of them, or the two of an image.
pub open spec fn default_count(planar: bool, rank: nat, n: Seq<i32>) -> nat {
    if n.len() > 0 {
        n.len()
    } else if planar {
        2
    } else {
        rank
    }
}

/// The axes that are transformed: the last ones where none is named.
pub open spec fn chosen_axes(planar: bool, rank: nat, n: Seq<i32>, axes: Seq<i32>) -> Seq<i32> {
    if axes.len() > 0 {
        axes
    } else {
        let count = default_count(planar, rank, n);
        Seq::new(count, |i: int| (i - count) as i32)
    }
}

/// The length of the last axis of the real array that has a spectrum of `m`
/// frequencies, where none is given.
pub open spec fn own_length(kind: FftKind, m: int, last: bool) -> int {
    if kind == FftKind::InverseReal && last {
        2 * (m - 1)
    } else {
        m
    }
}

/// The lengths of the transform: the axes' own where neither lengths nor axes
/// are given.
pub open spec fn chosen_lengths(
    kind: FftKind,
    planar: bool,
    shape: Seq<usize>,
    n: Seq<i32>,
    axes: Seq<i32>,
) -> Seq<i32> {
    if n.len() > 0 || axes.len() > 0 {
        n
    } else {
        let count = default_count(planar, shape.len(), n);
        Seq::new(
            count,
            |i: int|
                own_length(kind, shape[shape.len() - count + i] as int, i == count - 1) as i32,
        )
    }
}

/// Whether the lengths that are chosen where none is given are in range.
pub open spec fn defaults_fit(
    kind: FftKind,
    planar: bool,
    shape: Seq<usize>,
    n: Seq<i32>,
    axes: Seq<i32>,
) -> bool {
    axes.len() == 0 ==> {
        let count = default_count(planar, shape.len(), n);
        &&& count <= shape.len()
        &&& count <= i32::MAX
        &&& n.len() == 0 && count > 0 ==> own_length(kind, shape.last() as int, true) <= i32::MAX
    }
}

/// The transform of `x` along several axes; without axes along the last ones,
/// and without lengths with the axes' own.
pub open spec fn transformed_axes(
    kind: FftKind,
    norm: FftNorm,
    planar: bool,
    x: Tensor,
    n: Seq<i32>,
    axes: Seq<i32>,
) -> Option<Tensor> {
    if defaults_fit(kind, planar, x.shape, n, axes) {
        transformed(
            kind,
            norm,
            x,
            chosen_lengths(kind, planar, x.shape, n, axes),
            chosen_axes(planar, x.shape.len(), n, axes),
        )
    } else {
        None
    }
}

fn transform_axes(
    kind: FftKind,
    planar: bool,
    a: &Array,
    n: &[i32],
    axes: &[i32],
    norm: FftNorm,
) -> (r: Result<Array>)
    ensures
        outcome(r) == transformed_axes(kind, norm, planar, a@, n@, axes@),
        r is Err ==> r->Err_0 is Backend,
{
    if axes.len() > 0 {
        return transform(kind, a, n, axes, norm);
    }
    let shape = a.dims();
    let rank: usize = shape.len();
    let count: usize = if n.len() > 0 {
        n.len()
    } else if planar {
        2
    } else {
        rank
    };
    if count > rank || count > 0x7fff_ffff {
        return Err(backend("fft: there are not enough axes"));
    }
    let inverse: bool = match kind {
        FftKind::InverseReal => true,
        _ => false,
    };
    if n.len() == 0 && count > 0 && inverse && shape[rank - 1] > 0x4000_0000 {
        return Err(backend("fft: a transform length is out of range"));
    }
    let ghost all_axes = chosen_axes(planar, rank as nat, n@, axes@);
    let ghost all_lengths = chosen_lengths(kind, planar, shape@, n@, axes@);
    let mut own_axes: Vec<i32> = Vec::new();
    let mut lengths: Vec<i32> = Vec::new();
    let mut i: usize = 0;
    while i < count
        invariant
            0 <= i <= count,
            count <= rank,
            count <= 0x7fff_ffff,
            rank == shape@.len(),
            fits(shape@),
            axes@.len() == 0,
            inverse == (kind == FftKind::InverseReal),
            count == default_count(planar, rank as nat, n@),
            n@.len() == 0 && count > 0 && inverse ==> shape@[rank - 1] <= 0x4000_0000,
            all_axes == chosen_axes(planar, rank as nat, n@, axes@),
            all_lengths == chosen_lengths(kind, planar, shape@, n@, axes@),
            own_axes@.len() == i,
            lengths@.len() == if n@.len() == 0 {
                i as nat
            } else {
                0
            },
            forall|j: int| 0 <= j < i ==> own_axes@[j] == all_axes[j],
            n@.len() == 0 ==> forall|j: int| 0 <= j < i ==> lengths@[j] == all_lengths[j],
        decreases count - i,
    {
        own_axes.push((i as i64 - count as i64) as i32);
        if n.len() == 0 {
            let m: usize = shape[rank - count + i];
            let length: i32 = if inverse && i == count - 1 {
                (2 * (m as i64 - 1)) as i32
            } else {
                m as i32
            };
            lengths.push(length);
        }
        i = i + 1;
    }
    assert(own_axes@ =~= all_axes);
    if n.len() > 0 {
        transform(kind, a, n, &own_axes, norm)
    } else {
        assert(lengths@ =~= all_lengths);
        transform(kind, a, &lengths, &own_axes, norm)
    }
}

/// The transform along several axes; along the last ones where none is named,
/// and with the axes' own lengths where none is given.
pub fn fftn(a: &Array, n: &[i32], axes: &[i32], norm: FftNorm) -> (r: Result<Array>)
    ensures
        outcome(r) == transformed_axes(FftKind::Complex, norm, false, a@, n@, axes@),
        r is Err ==> r->Err_0 is Backend,
{
    transform_axes(FftKind::Complex, false, a, n, axes, norm)
}

/// The inverse transform along several axes.
pub fn ifftn(a: &Array, n: &[i32], axes: &[i32], norm: FftNorm) -> (r: Result<Array>)
    ensures
        outcome(r) == transformed_axes(FftKind::InverseComplex, norm, false, a@, n@, axes@),
        r is Err ==> r->Err_0 is Backend,
{
    transform_axes(FftKind::InverseComplex, false, a, n, axes, norm)
}

/// The transform along the two axes of an image, the last two where none is
/// named.
pub fn fft2(a: &Array, n: &[i32], axes: &[i32], norm: FftNorm) -> (r: Result<Array>)
    ensures
        outcome(r) == transformed_axes(FftKind::Complex, norm, true, a@, n@, axes@),
        r is Err ==> r->Err_0 is Backend,
{
    transform_axes(FftKind::Complex, true, a, n, axes, norm)
}

/// The inverse of [`fft2`].
pub fn ifft2(a: &Array, n: &[i32], axes: &[i32], norm: FftNorm) -> (r: Result<Array>)
    ensures
        outcome(r) == transformed_axes(FftKind::InverseComplex, norm, true, a@, n@, axes@),
        r is Err ==> r->Err_0 is Backend,
{
    transform_axes(FftKind::InverseComplex, true, a, n, axes, norm)
}

/// The transform of a real array along several axes.
pub fn rfftn(a: &Array, n: &[i32], axes: &[i32], norm: FftNorm) -> (r: Result<Array>)
    ensures
        outcome(r) == transformed_axes(FftKind::Real, norm, false, a@, n@, axes@),
        r is Err ==> r->Err_0 is Backend,
{
    transform_axes(FftKind::Real, false, a, n, axes, norm)
}

/// The inverse of [`rfftn`].
pub fn irfftn(a: &Array, n: &[i32], axes: &[i32], norm: FftNorm) -> (r: Result<Array>)
    ensures
        outcome(r) == transformed_axes(FftKind::InverseReal, norm, false, a@, n@, axes@),
        r is Err ==> r->Err_0 is Backend,
{
    transform_axes(FftKind::InverseReal, false, a, n, axes, norm)
}

/// The transform of a real image along its two axes.
pub fn rfft2(a: &Array, n: &[i32], axes: &[i32], norm: FftNorm) -> (r: Result<Array>)
    ensures
        outcome(r) == transformed_axes(FftKind::Real, norm, true, a@, n@, axes@),
        r is Err ==> r->Err_0 is Backend,
{
    transform_axes(FftKind::Real, true, a, n, axes, norm)
}

/// The inverse of [`rfft2`].
pub fn irfft2(a: &Array, n: &[i32], axes: &[i32], norm: FftNorm) -> (r: Result<Array>)
    ensures
        outcome(r) == transformed_axes(FftKind::InverseReal, norm, true, a@, n@, axes@),
        r is Err ==> r->Err_0 is Backend,
{
    transform_axes(FftKind::InverseReal, true, a, n, axes, norm)
}

/// A real transform and its inverse with the same length give the shape back.
pub proof fn real_transform_round_trip(x: Tensor, n: i32, axis: i32, norm: FftNorm)
    requires
        n > 0,
        0 <= axis_at(x.shape.len() as int, axis as int) < x.shape.len(),
        x.shape[axis_at(x.shape.len() as int, axis as int)] == n,
        transformed(FftKind::Real, norm, x, seq![n], seq![axis]) is Some,
    ensures
        ({
            let y = transformed(FftKind::Real, norm, x, seq![n], seq![axis])->0;
            transform_shape(FftKind::InverseReal, y.shape, seq![n], seq![axis]) == x.shape
        }),
{
    let y = transformed(FftKind::Real, norm, x, seq![n], seq![axis])->0;
    reveal_with_fuel(with_lengths, 3);
    assert(transform_shape(FftKind::InverseReal, y.shape, seq![n], seq![axis]) =~= x.shape);
}

/// How far a shift that brings the zero frequency to the middle of an axis of
/// length `n` moves it, or the way back, going round.
pub open spec fn shift_by(inverse: bool, n: usize) -> int {
    if inverse {
        n - n / 2
    } else {
        n as int / 2
    }
}

/// The axes that are shifted: all where none is named.
pub open spec fn shifted_axes(rank: nat, axes: Seq<i32>) -> Seq<i64> {
    if axes.len() == 0 {
        Seq::new(rank, |i: int| i as i64)
    } else {
        widened(axes)
    }
}

/// How far each of the axes is shifted.
pub open spec fn shift_amounts(inverse: bool, shape: Seq<usize>, axes: Seq<i32>) -> Seq<i64> {
    if axes.len() == 0 {
        Seq::new(shape.len(), |i: int| shift_by(inverse, shape[i]) as i64)
    } else {
        Seq::new(
            axes.len(),
            |i: int| shift_by(inverse, shape[axis_at(shape.len() as int, axes[i] as int)]) as i64,
        )
    }
}

/// `x` with the zero frequency in the middle of each of the axes, or back from
/// there.
pub open spec fn shifted(inverse: bool, x: Tensor, axes: Seq<i32>) -> Option<Tensor> {
    let rank = x.shape.len();
    let all = shifted_axes(rank, axes);
    if forall|i: int| 0 <= i < axes.len() ==> 0 <= axis_at(rank as int, #[trigger] axes[i] as int)
        < rank {
        unary(Op::Roll, x.shape, x.dtype, all + shift_amounts(inverse, x.shape, axes), x)
    } else {
        None
    }
}

fn shift(inverse: bool, a: &Array, axes: &[i32]) -> (r: Result<Array>)
    ensures
        outcome(r) == shifted(inverse, a@, axes@),
        r is Err ==> r->Err_0 is Backend,
{
    let shape: Vec<usize> = a.shape();
    let rank: usize = shape.len();
    let ghost all = shifted_axes(rank as nat, axes@);
    let ghost amounts = shift_amounts(inverse, shape@, axes@);
    let mut params: Vec<i64> = Vec::new();
    let mut moved: Vec<i64> = Vec::new();
    let count: usize = if axes.len() == 0 {
        rank
    } else {
        axes.len()
    };
    assert(all.len() == count);
    let mut i: usize = 0;
    assert(all.take(0) =~= Seq::<i64>::empty());
    assert(amounts.take(0) =~= Seq::<i64>::empty());
    while i < count
        invariant
            0 <= i <= count,
            rank == a@.shape.len(),
            shape@ == a@.shape,
            fits(a@.shape),
            count == all.len(),
            count == if axes@.len() == 0 {
                rank as nat
            } else {
                axes@.len()
            },
            all == shifted_axes(rank as nat, axes@),
            amounts == shift_amounts(inverse, shape@, axes@),
            params@ == all.take(i as int),
            moved@ == amounts.take(i as int),
            forall|j: int|
                0 <= j < i && j < axes@.len() ==> 0 <= axis_at(
                    rank as int,
                    #[trigger] axes@[j] as int,
                ) < rank,
        decreases count - i,
    {
        let place: usize = if axes.len() == 0 {
            i
        } else if axes[i] >= 0 {
            axes[i] as usize
        } else {
            let back: usize = (-(axes[i] as i64)) as usize;
            if back > rank {
                assert(axis_at(rank as int, axes@[i as int] as int) < 0);
                return Err(backend("fft: an axis is out of range"));
            }
            rank - back
        };
        if place >= rank {
            assert(axis_at(rank as int, axes@[i as int] as int) >= rank);
            return Err(backend("fft: an axis is out of range"));
        }
        let n: usize = shape[place];
        let by: usize = if inverse {
            n - n / 2
        } else {
            n / 2
        };
        params.push(if axes.len() == 0 {
            i as i64
        } else {
            axes[i] as i64
        });
        moved.push(by as i64);
        assert(all.take(i + 1) =~= all.take(i as int).push(all[i as int]));
        assert(amounts.take(i + 1) =~= amounts.take(i as int).push(amounts[i as int]));
        i = i + 1;
    }
    assert(all.take(count as int) =~= all);
    assert(amounts.take(count as int) =~= amounts);
    params.append(&mut moved);
    Array::build_unary(Op::Roll, shape, a.dtype(), params, a)
}

/// The zero frequency brought to the middle of each of the axes, or of all
/// where none is named.
pub fn fftshift(a: &Array, axes: &[i32]) -> (r: Result<Array>)
    ensures
        outcome(r) == shifted(false, a@, axes@),
        r is Err ==> r->Err_0 is Backend,
{
    shift(false, a, axes)
}

/// The inverse of [`fftshift`].
pub fn ifftshift(a: &Array, axes: &[i32]) -> (r: Result<Array>)
    ensures
        outcome(r) == shifted(true, a@, axes@),
        r is Err ==> r->Err_0 is Backend,
{
    shift(true, a, axes)
}

/// The two shifts of an axis together move every element round once, back to
/// its place.
pub proof fn shifts_undo_each_other(n: usize, i: int)
    requires
        0 <= i < n,
    ensures
        (i + shift_by(false, n) + shift_by(true, n)) % (n as int) == i,
{
    assert((i + n) % (n as int) == i) by (nonlinear_arith)
        requires
            0 <= i < n,
    ;
}

/// The zero frequency goes to the middle of an axis, and back from there.
pub proof fn zero_frequency_goes_to_the_middle(n: usize)
    requires
        n >= 1,
    ensures
        shift_by(false, n) % (n as int) == (n as int) / 2,
        ((n as int) / 2 + shift_by(true, n)) % (n as int) == 0,
{
    assert(((n as int) / 2) % (n as int) == (n as int) / 2) by (nonlinear_arith)
        requires
            n >= 1,
    ;
    assert((n as int) % (n as int) == 0) by (nonlinear_arith)
        requires
            n >= 1,
    ;
}

/// Each axis that is named is shifted by what its own length asks for, and
/// without names every axis is.
pub proof fn axes_are_shifted_by_their_own_lengths(
    inverse: bool,
    shape: Seq<usize>,
    axes: Seq<i32>,
    i: int,
)
    requires
        forall|j: int| 0 <= j < shape.len() ==> #[trigger] shape[j] <= 0x7fff_ffff,
        forall|j: int|
            0 <= j < axes.len() ==> 0 <= axis_at(shape.len() as int, #[trigger] axes[j] as int)
                < shape.len(),
    ensures
        axes.len() == 0 ==> shifted_axes(shape.len(), axes).len() == shape.len(),
        axes.len() == 0 && 0 <= i < shape.len() <= i64::MAX ==> shifted_axes(shape.len(), axes)[i]
            == i && shift_amounts(inverse, shape, axes)[i] == shift_by(inverse, shape[i]),
        0 <= i < axes.len() ==> shifted_axes(shape.len(), axes)[i] == axes[i] && shift_amounts(
            inverse,
            shape,
            axes,
        )[i] == shift_by(inverse, shape[axis_at(shape.len() as int, axes[i] as int)]),
{
}

proof fn lemma_with_lengths(shape: Seq<usize>, n: Seq<i32>, axes: Seq<i32>, count: int, k: int)
    requires
        transformable(shape.len() as int, n, axes),
        0 <= count <= axes.len(),
        0 <= k < shape.len(),
    ensures
        with_lengths(shape, n, axes, count).len() == shape.len(),
        forall|i: int|
            0 <= i < count && axis_at(shape.len() as int, #[trigger] axes[i] as int) == k
                ==> with_lengths(shape, n, axes, count)[k] == n[i],
        (forall|i: int|
            0 <= i < count ==> axis_at(shape.len() as int, #[trigger] axes[i] as int) != k)
            ==> with_lengths(shape, n, axes, count)[k] == shape[k],
    decreases count,
{
    if count > 0 {
        lemma_with_lengths(shape, n, axes, count - 1, k);
        let rank = shape.len() as int;
        let before = with_lengths(shape, n, axes, count - 1);
        let last = axis_at(rank, axes[count - 1] as int);
        assert(n[count - 1] > 0);
        assert forall|i: int|
            0 <= i < count && axis_at(rank, #[trigger] axes[i] as int) == k implies with_lengths(
            shape,
            n,
            axes,
            count,
        )[k] == n[i] by {
            if i < count - 1 {
                assert(axis_at(rank, axes[i] as int) != axis_at(rank, axes[count - 1] as int));
            }
        }
    }
}

/// A transform has its own length along each axis that is named, and leaves
/// the others as they are; a real one keeps of the last axis that is named the
/// frequencies from zero to the middle.
pub proof fn transforms_have_their_lengths(
    kind: FftKind,
    shape: Seq<usize>,
    n: Seq<i32>,
    axes: Seq<i32>,
    k: int,
)
    requires
        transformable(shape.len() as int, n, axes),
        0 <= k < shape.len(),
    ensures
        transform_shape(kind, shape, n, axes).len() == shape.len(),
        forall|i: int|
            0 <= i < axes.len() && axis_at(shape.len() as int, #[trigger] axes[i] as int) == k
                ==> transform_shape(kind, shape, n, axes)[k] == if kind == FftKind::Real && i
                == axes.len() - 1 {
                n[i] as int / 2 + 1
            } else {
                n[i] as int
            },
        (forall|i: int|
            0 <= i < axes.len() ==> axis_at(shape.len() as int, #[trigger] axes[i] as int) != k)
            ==> transform_shape(kind, shape, n, axes)[k] == shape[k],
{
    lemma_with_lengths(shape, n, axes, axes.len() as int, k);
    let rank = shape.len() as int;
    if axes.len() > 0 {
        let z = axes.len() - 1;
        assert(n[z] > 0);
        assert(axes.last() == axes[z] && n.last() == n[z]);
        assert forall|i: int|
            0 <= i < axes.len() && axis_at(rank, #[trigger] axes[i] as int)
                == k implies transform_shape(kind, shape, n, axes)[k] == if kind == FftKind::Real
            && i == axes.len() - 1 {
            n[i] as int / 2 + 1
        } else {
            n[i] as int
        } by {
            if i < z {
                assert(axis_at(rank, axes[i] as int) != axis_at(rank, axes[z] as int));
            }
        }
    }
}

/// Without axes and lengths all axes are transformed, the last two of an
/// image, each with its own length; the last axis of a spectrum of real numbers
/// has twice as many numbers as it has steps between its frequencies.
pub proof fn own_axes_and_lengths_are_chosen(
    kind: FftKind,
    planar: bool,
    shape: Seq<usize>,
    i: int,
)
    requires
        defaults_fit(kind, planar, shape, Seq::empty(), Seq::empty()),
        fits(shape),
        planar ==> 0 <= i < 2,
        !planar ==> 0 <= i < shape.len(),
    ensures
        ({
            let none = Seq::<i32>::empty();
            let count: int = if planar {
                2
            } else {
                shape.len() as int
            };
            let m = shape[shape.len() - count + i] as int;
            &&& chosen_axes(planar, shape.len(), none, none).len() == count
            &&& chosen_lengths(kind, planar, shape, none, none).len() == count
            &&& chosen_axes(planar, shape.len(), none, none)[i] == i - count
            &&& m >= 1 ==> chosen_lengths(kind, planar, shape, none, none)[i] == if kind
                == FftKind::InverseReal && i == count - 1 {
                2 * (m - 1)
            } else {
                m
            }
        }),
{
}

/// With lengths alone as many of the last axes are transformed, with these
/// lengths; with axes these are.
pub proof fn given_axes_and_lengths_count(
    kind: FftKind,
    planar: bool,
    shape: Seq<usize>,
    n: Seq<i32>,
    axes: Seq<i32>,
)
    requires
        n.len() <= i32::MAX,
    ensures
        axes.len() > 0 ==> chosen_axes(planar, shape.len(), n, axes) == axes && chosen_lengths(
            kind,
            planar,
            shape,
            n,
            axes,
        ) == n,
        n.len() > 0 ==> chosen_lengths(kind, planar, shape, n, axes) == n,
        n.len() > 0 && axes.len() == 0 ==> chosen_axes(planar, shape.len(), n, axes).len()
            == n.len() && forall|i: int|
            0 <= i < n.len() ==> #[trigger] chosen_axes(planar, shape.len(), n, axes)[i] == i
                - n.len(),
{
}

/// Only the inverse of a real transform gives real numbers.
pub proof fn spectra_are_complex(kind: FftKind)
    ensures
        transform_dtype(kind) == Dtype::F32 <==> kind == FftKind::InverseReal,
        kind != FftKind::InverseReal ==> transform_dtype(kind) == Dtype::Complex64,
{
}

} // verus!
