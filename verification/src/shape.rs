//! Shapes: element counts, dimension checks and broadcasting.
use vstd::prelude::*;

use crate::error::{shape_mismatch, Result};

verus! {

/// The largest length of one axis: the backend counts axes in `i32`.
pub const MAX_DIM: usize = 0x7fff_ffff;

/// The number of elements of an array of shape `s`.
pub open spec fn elements(s: Seq<usize>) -> nat
    decreases s.len(),
{
    if s.len() == 0 {
        1
    } else {
        elements(s.drop_last()) * s.last() as nat
    }
}

/// Whether an array of shape `s` can be named: every axis is in the backend's
/// range and the element count is a machine word.
pub open spec fn fits(s: Seq<usize>) -> bool {
    &&& forall|i: int| 0 <= i < s.len() ==> s[i] <= MAX_DIM
    &&& elements(s) <= usize::MAX
}

/// A shape with an axis of length zero has no elements.
pub proof fn lemma_zero_axis(s: Seq<usize>, i: int)
    requires
        0 <= i < s.len(),
        s[i] == 0,
    ensures
        elements(s) == 0,
    decreases s.len(),
{
    if i < s.len() - 1 {
        lemma_zero_axis(s.drop_last(), i);
        assert(0nat * s.last() as nat == 0) by (nonlinear_arith);
    } else {
        assert(elements(s.drop_last()) * 0nat == 0) by (nonlinear_arith);
    }
}

/// Without empty axes a prefix has at most as many elements as the whole.
pub proof fn lemma_prefix_elements(s: Seq<usize>, n: int)
    requires
        0 <= n <= s.len(),
        forall|i: int| 0 <= i < s.len() ==> s[i] >= 1,
    ensures
        1 <= elements(s.take(n)) <= elements(s),
    decreases s.len(),
{
    if n == s.len() {
        assert(s.take(n) =~= s);
        if s.len() > 0 {
            lemma_prefix_elements(s.drop_last(), s.len() - 1);
            assert(s.drop_last().take(s.len() - 1) =~= s.drop_last());
            let a = elements(s.drop_last());
            let b = s.last() as nat;
            assert(a * b >= 1) by (nonlinear_arith)
                requires
                    a >= 1,
                    b >= 1,
            ;
        }
    } else {
        lemma_prefix_elements(s.drop_last(), n);
        assert(s.drop_last().take(n) =~= s.take(n));
        let a = elements(s.drop_last());
        let b = s.last() as nat;
        assert(a * b >= a) by (nonlinear_arith)
            requires
                a >= 1,
                b >= 1,
        ;
    }
}

/// The element count of two shapes one behind the other is the product.
pub proof fn lemma_elements_concat(a: Seq<usize>, b: Seq<usize>)
    ensures
        elements(a + b) == elements(a) * elements(b),
    decreases b.len(),
{
    if b.len() == 0 {
        assert(a + b =~= a);
        let x = elements(a);
        assert(x * 1nat == x) by (nonlinear_arith);
    } else {
        lemma_elements_concat(a, b.drop_last());
        assert((a + b).drop_last() =~= a + b.drop_last());
        let x = elements(a);
        let y = elements(b.drop_last());
        let z = b.last() as nat;
        assert((x * y) * z == x * (y * z)) by (nonlinear_arith);
    }
}

/// The element count of a one-axis shape is its length.
pub proof fn lemma_elements_one(n: usize)
    ensures
        elements(seq![n]) == n,
{
    assert(seq![n].drop_last() =~= Seq::<usize>::empty());
    let x = n as nat;
    let one = elements(Seq::<usize>::empty());
    assert(one * x == x) by (nonlinear_arith)
        requires
            one == 1,
    ;
}

/// The element count of a two-axis shape is the product of its lengths.
pub proof fn lemma_elements_two(m: usize, n: usize)
    ensures
        elements(seq![m, n]) == m * n,
{
    lemma_elements_one(m);
    assert(seq![m, n].drop_last() =~= seq![m]);
}

/// The order of the axes does not change the element count.
pub proof fn lemma_elements_reverse(s: Seq<usize>)
    ensures
        elements(s.reverse()) == elements(s),
        fits(s) ==> fits(s.reverse()),
    decreases s.len(),
{
    if s.len() == 0 {
        assert(s.reverse() =~= s);
    } else {
        let front = s.drop_last();
        lemma_elements_reverse(front);
        assert(s.reverse() =~= seq![s.last()] + front.reverse());
        lemma_elements_concat(seq![s.last()], front.reverse());
        lemma_elements_one(s.last());
        let x = s.last() as nat;
        let y = elements(front);
        assert(x * y == y * x) by (nonlinear_arith);
    }
}

/// The element count of `s`, or `None` where it is more than a machine word.
pub fn checked_elements(s: &[usize]) -> (r: Option<usize>)
    ensures
        match r {
            Some(n) => n == elements(s@),
            None => elements(s@) > usize::MAX,
        },
{
    let mut i: usize = 0;
    while i < s.len()
        invariant
            0 <= i <= s.len(),
            forall|j: int| 0 <= j < i ==> s@[j] >= 1,
        decreases s.len() - i,
    {
        if s[i] == 0 {
            proof {
                lemma_zero_axis(s@, i as int);
            }
            return Some(0);
        }
        i = i + 1;
    }
    let mut n: usize = 1;
    let mut k: usize = 0;
    while k < s.len()
        invariant
            0 <= k <= s.len(),
            forall|j: int| 0 <= j < s.len() ==> s@[j] >= 1,
            n == elements(s@.take(k as int)),
        decreases s.len() - k,
    {
        assert(s@.take(k + 1).drop_last() =~= s@.take(k as int));
        match n.checked_mul(s[k]) {
            Some(m) => {
                n = m;
            }
            None => {
                proof {
                    lemma_prefix_elements(s@, k + 1);
                }
                return None;
            }
        }
        k = k + 1;
    }
    assert(s@.take(s.len() as int) =~= s@);
    Some(n)
}

/// Whether an array of shape `s` can be named.
pub fn shape_fits(s: &[usize]) -> (r: bool)
    ensures
        r == fits(s@),
{
    let mut i: usize = 0;
    while i < s.len()
        invariant
            0 <= i <= s.len(),
            forall|j: int| 0 <= j < i ==> s@[j] <= MAX_DIM,
        decreases s.len() - i,
    {
        if s[i] > MAX_DIM {
            return false;
        }
        i = i + 1;
    }
    match checked_elements(s) {
        Some(_) => true,
        None => false,
    }
}

/// The lengths `dims` stand for.
pub open spec fn dims_view(dims: Seq<i32>) -> Seq<usize> {
    dims.map_values(|d: i32| d as usize)
}

/// Whether no length in `dims` is negative.
pub open spec fn dims_valid(dims: Seq<i32>) -> bool {
    forall|i: int| 0 <= i < dims.len() ==> dims[i] >= 0
}

/// Checks that no length is negative; the empty shape is a scalar and valid.
pub fn validate_dims(dims: &[i32]) -> (r: Result<()>)
    ensures
        r is Ok <==> dims_valid(dims@),
        r is Err ==> r->Err_0 is ShapeMismatch,
{
    let mut i: usize = 0;
    while i < dims.len()
        invariant
            0 <= i <= dims.len(),
            forall|j: int| 0 <= j < i ==> dims@[j] >= 0,
        decreases dims.len() - i,
    {
        if dims[i] < 0 {
            return Err(shape_mismatch("shape: negative dimension"));
        }
        i = i + 1;
    }
    Ok(())
}

/// The lengths `dims` stand for, as machine words.
pub fn dims_to_shape(dims: &[i32]) -> (r: Result<Vec<usize>>)
    ensures
        r is Ok <==> dims_valid(dims@),
        r is Ok ==> r->Ok_0@ == dims_view(dims@),
        r is Err ==> r->Err_0 is ShapeMismatch,
{
    let mut out: Vec<usize> = Vec::new();
    let mut i: usize = 0;
    while i < dims.len()
        invariant
            0 <= i <= dims.len(),
            out@.len() == i,
            forall|j: int| 0 <= j < i ==> dims@[j] >= 0 && out@[j] == dims@[j],
        decreases dims.len() - i,
    {
        if dims[i] < 0 {
            return Err(shape_mismatch("shape: negative dimension"));
        }
        out.push(dims[i] as usize);
        i = i + 1;
    }
    assert(out@ =~= dims_view(dims@));
    Ok(out)
}

/// The length of the axis `k` places from the end, one where there is none.
pub open spec fn dim_from_end(s: Seq<usize>, k: int) -> usize {
    if 0 <= k < s.len() {
        s[s.len() - 1 - k]
    } else {
        1
    }
}

pub open spec fn max_rank(a: Seq<usize>, b: Seq<usize>) -> nat {
    if a.len() >= b.len() {
        a.len()
    } else {
        b.len()
    }
}

/// Whether two axis lengths can be broadcast against each other.
pub open spec fn dims_agree(x: usize, y: usize) -> bool {
    x == y || x == 1 || y == 1
}

/// Whether the shapes can be broadcast: aligned at the last axis, the lengths
/// agree or one of them is one.
pub open spec fn broadcastable(a: Seq<usize>, b: Seq<usize>) -> bool {
    forall|k: int|
        0 <= k < max_rank(a, b) ==> #[trigger] dims_agree(dim_from_end(a, k), dim_from_end(b, k))
}

/// The shape that two broadcastable shapes have in common.
pub open spec fn broadcast(a: Seq<usize>, b: Seq<usize>) -> Seq<usize> {
    let n = max_rank(a, b);
    Seq::new(
        n,
        |i: int|
            if dim_from_end(a, n - 1 - i) == 1 {
                dim_from_end(b, n - 1 - i)
            } else {
                dim_from_end(a, n - 1 - i)
            },
    )
}

fn axis_from_end(s: &[usize], k: usize) -> (d: usize)
    ensures
        d == dim_from_end(s@, k as int),
{
    if k < s.len() {
        s[s.len() - 1 - k]
    } else {
        1
    }
}

/// The shape that `a` and `b` have in common after broadcasting, if any.
pub fn broadcast_shapes(a: &[usize], b: &[usize]) -> (r: Option<Vec<usize>>)
    ensures
        r is Some <==> broadcastable(a@, b@),
        r is Some ==> r->0@ == broadcast(a@, b@),
{
    let n: usize = if a.len() >= b.len() {
        a.len()
    } else {
        b.len()
    };
    let mut out: Vec<usize> = Vec::new();
    let mut i: usize = 0;
    while i < n
        invariant
            0 <= i <= n,
            n == max_rank(a@, b@),
            out@.len() == i,
            forall|j: int| 0 <= j < i ==> out@[j] == broadcast(a@, b@)[j],
            forall|k: int|
                n - i <= k < n ==> #[trigger] dims_agree(dim_from_end(a@, k), dim_from_end(b@, k)),
        decreases n - i,
    {
        let k: usize = n - 1 - i;
        let x: usize = axis_from_end(a, k);
        let y: usize = axis_from_end(b, k);
        if x != y && x != 1 && y != 1 {
            assert(!dims_agree(dim_from_end(a@, k as int), dim_from_end(b@, k as int)));
            return None;
        }
        out.push(if x == 1 { y } else { x });
        i = i + 1;
    }
    assert(out@ =~= broadcast(a@, b@));
    Some(out)
}

/// Broadcasting is symmetric.
pub proof fn broadcast_symmetric(a: Seq<usize>, b: Seq<usize>)
    ensures
        broadcastable(a, b) == broadcastable(b, a),
        broadcastable(a, b) ==> broadcast(a, b) == broadcast(b, a),
{
    if broadcastable(a, b) {
        assert forall|k: int| 0 <= k < max_rank(b, a) implies #[trigger] dims_agree(
            dim_from_end(b, k),
            dim_from_end(a, k),
        ) by {
            assert(dims_agree(dim_from_end(a, k), dim_from_end(b, k)));
        }
        let n = max_rank(a, b);
        assert forall|i: int| 0 <= i < n implies broadcast(a, b)[i] == broadcast(b, a)[i] by {
            assert(dims_agree(dim_from_end(a, n - 1 - i), dim_from_end(b, n - 1 - i)));
        }
        assert(broadcast(a, b) =~= broadcast(b, a));
    }
    if broadcastable(b, a) {
        assert forall|k: int| 0 <= k < max_rank(a, b) implies #[trigger] dims_agree(
            dim_from_end(a, k),
            dim_from_end(b, k),
        ) by {
            assert(dims_agree(dim_from_end(b, k), dim_from_end(a, k)));
        }
    }
}

/// A shape broadcasts with itself to itself.
pub proof fn broadcast_self(a: Seq<usize>)
    ensures
        broadcastable(a, a),
        broadcast(a, a) == a,
{
    assert(broadcast(a, a) =~= a);
}

/// A scalar broadcasts with every shape to that shape.
pub proof fn broadcast_scalar(a: Seq<usize>)
    ensures
        broadcastable(Seq::empty(), a),
        broadcast(Seq::empty(), a) == a,
        broadcastable(a, Seq::empty()),
        broadcast(a, Seq::empty()) == a,
{
    assert(broadcast(Seq::empty(), a) =~= a);
    assert(broadcast(a, Seq::empty()) =~= a);
}

/// Aligned at the last axis, an axis of a common shape has the length of both,
/// or of the one that is not of length one; there is a common shape exactly
/// where no two lengths other than one differ.
pub proof fn common_axes_have_the_longer_length(a: Seq<usize>, b: Seq<usize>, k: int)
    requires
        0 <= k < a.len(),
        0 <= k < b.len(),
    ensures
        ({
            let (x, y) = (a[a.len() - 1 - k], b[b.len() - 1 - k]);
            let c = broadcast(a, b);
            &&& c.len() >= a.len() && c.len() >= b.len() && (c.len() == a.len() || c.len()
                == b.len())
            &&& x == 1 ==> c[c.len() - 1 - k] == y
            &&& x != 1 ==> c[c.len() - 1 - k] == x
            &&& broadcastable(a, b) ==> x == y || x == 1 || y == 1
        }),
{
    if broadcastable(a, b) {
        assert(dims_agree(dim_from_end(a, k), dim_from_end(b, k)));
    }
}

/// An axis that one shape alone has is that of the common shape.
pub proof fn missing_axes_are_taken_over(a: Seq<usize>, b: Seq<usize>, k: int)
    requires
        b.len() <= k < a.len(),
    ensures
        broadcast(a, b).len() == a.len(),
        broadcast(a, b)[a.len() - 1 - k] == a[a.len() - 1 - k],
        broadcast(b, a)[a.len() - 1 - k] == a[a.len() - 1 - k],
{
}

} // verus!
