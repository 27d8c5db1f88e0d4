//! How much memory is to be kept wired.
//!
//! Requests for wired memory are admitted and the limit is set by a policy.
use vstd::prelude::*;

use crate::hex::{hex, push_hex, sixteen_digits_differ};
use crate::text::{concat, text_of};

verus! {

/// The largest amount.
pub const LARGEST: u64 = 0xffff_ffff_ffff_ffff;

/// The sum of all sizes, the largest amount where it is out of range.
pub open spec fn total(sizes: Seq<u64>) -> int
    decreases sizes.len(),
{
    if sizes.len() == 0 {
        0
    } else {
        total(sizes.drop_last()) + sizes.last()
    }
}

/// `n`, or the largest amount where it is out of range.
pub open spec fn bounded(n: int) -> u64 {
    if n < LARGEST {
        n as u64
    } else {
        LARGEST
    }
}

/// The largest size and `floor`.
pub open spec fn largest(floor: u64, sizes: Seq<u64>) -> u64
    decreases sizes.len(),
{
    if sizes.len() == 0 {
        floor
    } else {
        let rest = largest(floor, sizes.drop_last());
        if rest < sizes.last() {
            sizes.last()
        } else {
            rest
        }
    }
}

/// `n`, but no more than the cap, or else than is recommended.
pub open spec fn capped(n: u64, cap: Option<u64>, recommended: Option<u64>) -> u64 {
    match (cap, recommended) {
        (Some(c), _) => if n < c {
            n
        } else {
            c
        },
        (None, Some(c)) => if n < c {
            n
        } else {
            c
        },
        (None, None) => n,
    }
}

/// Whether `n` is within the cap, or else within what is recommended.
pub open spec fn within(n: u64, cap: Option<u64>, recommended: Option<u64>) -> bool {
    match (cap, recommended) {
        (Some(c), _) => n <= c,
        (None, Some(c)) => n <= c,
        (None, None) => true,
    }
}

proof fn lemma_total(sizes: Seq<u64>)
    ensures
        total(sizes) >= 0,
    decreases sizes.len(),
{
    if sizes.len() > 0 {
        lemma_total(sizes.drop_last());
    }
}

fn sum_from(start: u64, sizes: &[u64]) -> (n: u64)
    ensures
        n == bounded(start + total(sizes@)),
{
    let mut n: u64 = start;
    let mut i: usize = 0;
    assert(sizes@.take(0) =~= Seq::<u64>::empty());
    while i < sizes.len()
        invariant
            0 <= i <= sizes@.len(),
            n == bounded(start + total(sizes@.take(i as int))),
        decreases sizes@.len() - i,
    {
        n = n.saturating_add(sizes[i]);
        proof {
            assert(sizes@.take(i + 1).drop_last() =~= sizes@.take(i as int));
            lemma_total(sizes@.take(i as int));
        }
        i = i + 1;
    }
    assert(sizes@.take(sizes.len() as int) =~= sizes@);
    n
}

fn cap_at(n: u64, cap: Option<u64>, recommended: Option<u64>) -> (r: u64)
    ensures
        r == capped(n, cap, recommended),
{
    match cap {
        Some(c) => if n < c {
            n
        } else {
            c
        },
        None => match recommended {
            Some(c) => if n < c {
                n
            } else {
                c
            },
            None => n,
        },
    }
}

fn is_within(n: u64, cap: Option<u64>, recommended: Option<u64>) -> (r: bool)
    ensures
        r == within(n, cap, recommended),
{
    match cap {
        Some(c) => n <= c,
        None => match recommended {
            Some(c) => n <= c,
            None => true,
        },
    }
}

/// The limit is the baseline and all requests, within a cap.
#[derive(Clone, Copy, Debug, PartialEq, Eq, Structural)]
pub struct WiredSumPolicy {
    pub cap: Option<u64>,
}

impl WiredSumPolicy {
    pub fn new(cap: Option<u64>) -> (p: WiredSumPolicy)
        ensures
            p.cap == cap,
    {
        WiredSumPolicy { cap }
    }

    /// The limit with the given requests.
    pub fn limit(&self, baseline: u64, active: &[u64], recommended: Option<u64>) -> (n: u64)
        ensures
            n == capped(bounded(baseline + total(active@)), self.cap, recommended),
    {
        cap_at(sum_from(baseline, active), self.cap, recommended)
    }

    /// Whether a new request is admitted.
    pub fn can_admit(
        &self,
        baseline: u64,
        active: &[u64],
        new_size: u64,
        recommended: Option<u64>,
    ) -> (r: bool)
        ensures
            r == within(bounded(baseline + total(active@) + new_size), self.cap, recommended),
    {
        proof {
            lemma_total(active@);
        }
        is_within(sum_from(baseline, active).saturating_add(new_size), self.cap, recommended)
    }
}

/// An admitted request does not take the limit to the cap: with it the limit
/// is the baseline and all requests.
pub proof fn admitted_request_fits(
    baseline: u64,
    active: Seq<u64>,
    new_size: u64,
    cap: Option<u64>,
    recommended: Option<u64>,
)
    requires
        within(bounded(baseline + total(active) + new_size), cap, recommended),
    ensures
        capped(bounded(baseline + total(active.push(new_size))), cap, recommended) == bounded(
            baseline + total(active) + new_size,
        ),
{
    assert(active.push(new_size).drop_last() =~= active);
}

/// The limit is the baseline or the largest request.
#[derive(Clone, Copy, Debug, PartialEq, Eq, Structural)]
pub struct WiredMaxPolicy {}

impl WiredMaxPolicy {
    pub fn new() -> WiredMaxPolicy {
        WiredMaxPolicy {  }
    }

    /// The limit with the given requests.
    pub fn limit(&self, baseline: u64, active: &[u64]) -> (n: u64)
        ensures
            n == largest(baseline, active@),
    {
        let mut n: u64 = baseline;
        let mut i: usize = 0;
        assert(active@.take(0) =~= Seq::<u64>::empty());
        while i < active.len()
            invariant
                0 <= i <= active@.len(),
                n == largest(baseline, active@.take(i as int)),
            decreases active@.len() - i,
        {
            assert(active@.take(i + 1).drop_last() =~= active@.take(i as int));
            if n < active[i] {
                n = active[i];
            }
            i = i + 1;
        }
        assert(active@.take(active.len() as int) =~= active@);
        n
    }

    /// Every request is admitted.
    pub fn can_admit(&self, baseline: u64, active: &[u64], new_size: u64) -> (r: bool)
        ensures
            r,
    {
        true
    }
}

/// The limit is always the same.
#[derive(Clone, Copy, Debug, PartialEq, Eq, Structural)]
pub struct WiredFixedPolicy {
    pub limit_bytes: u64,
}

impl WiredFixedPolicy {
    pub fn new(limit_bytes: u64) -> (p: WiredFixedPolicy)
        ensures
            p.limit_bytes == limit_bytes,
    {
        WiredFixedPolicy { limit_bytes }
    }

    /// The limit, whatever the requests.
    pub fn limit(&self, baseline: u64, active: &[u64]) -> (n: u64)
        ensures
            n == self.limit_bytes,
    {
        self.limit_bytes
    }

    /// Every request is admitted.
    pub fn can_admit(&self, baseline: u64, active: &[u64], new_size: u64) -> (r: bool)
        ensures
            r,
    {
        true
    }
}

/// The limit is the baseline, a budget and all requests, within a cap. Two
/// such policies are the same where their names are.
#[derive(Clone, Debug)]
pub struct WiredBudgetPolicy {
    id: String,
    base_bytes: u64,
    cap: Option<u64>,
}

impl PartialEq for WiredBudgetPolicy {
    /// The names decide.
    fn eq(&self, other: &WiredBudgetPolicy) -> (r: bool) {
        self.id == other.id
    }
}

impl vstd::std_specs::cmp::PartialEqSpecImpl for WiredBudgetPolicy {
    open spec fn obeys_eq_spec() -> bool {
        true
    }

    open spec fn eq_spec(&self, other: &WiredBudgetPolicy) -> bool {
        self.id() == other.id()
    }
}

impl Eq for WiredBudgetPolicy {

}

/// Feeds a text into a hasher. Stands for `<str as Hash>::hash`, of which
/// nothing is said: what a hasher makes of it is its own.
#[verifier::external_body]
fn hash_text<H: std::hash::Hasher>(text: &str, state: &mut H) {
    std::hash::Hash::hash(text, state);
}

impl std::hash::Hash for WiredBudgetPolicy {
    /// The name alone, as it alone decides whether two are the same.
    fn hash<H: std::hash::Hasher>(&self, state: &mut H) {
        hash_text(self.id.as_str(), state);
    }
}

/// The name of the policy with the number `serial`.
pub open spec fn own_name(serial: u64) -> Seq<char> {
    "auto-"@ + hex(serial as int, 16)
}

/// Policies with different numbers have different names.
pub proof fn own_names_differ(a: u64, b: u64)
    requires
        own_name(a) == own_name(b),
    ensures
        a == b,
{
    reveal_strlit("auto-");
    let (x, y) = (own_name(a), own_name(b));
    assert(x.skip(5) =~= hex(a as int, 16));
    assert(y.skip(5) =~= hex(b as int, 16));
    sixteen_digits_differ(a, b);
}

impl WiredBudgetPolicy {
    pub closed spec fn id(&self) -> Seq<char> {
        self.id@
    }

    pub closed spec fn budget(&self) -> u64 {
        self.base_bytes
    }

    pub closed spec fn cap(&self) -> Option<u64> {
        self.cap
    }

    /// A policy with a name of its own: that of its number `serial`. Policies
    /// with different numbers have different names.
    pub fn new(serial: u64, base_bytes: u64, cap: Option<u64>) -> (p: WiredBudgetPolicy)
        ensures
            p.id() == own_name(serial),
            p.budget() == base_bytes,
            p.cap() == cap,
    {
        let mut digits: Vec<char> = Vec::new();
        push_hex(&mut digits, serial, 16);
        assert(digits@ =~= hex(serial as int, 16));
        let id = concat("auto-", text_of(&digits).as_str());
        WiredBudgetPolicy { id, base_bytes, cap }
    }

    /// A policy with the given name.
    pub fn with_id(id: &str, base_bytes: u64, cap: Option<u64>) -> (p: WiredBudgetPolicy)
        ensures
            p.id() == id@,
            p.budget() == base_bytes,
            p.cap() == cap,
    {
        WiredBudgetPolicy { id: id.to_owned(), base_bytes, cap }
    }

    /// The name.
    pub fn id_str(&self) -> (s: &str)
        ensures
            s@ == self.id(),
    {
        self.id.as_str()
    }

    /// The limit with the given requests.
    pub fn limit(&self, baseline: u64, active: &[u64], recommended: Option<u64>) -> (n: u64)
        ensures
            n == capped(
                bounded(baseline + self.budget() + total(active@)),
                self.cap(),
                recommended,
            ),
    {
        proof {
            lemma_total(active@);
        }
        let n: u64 = sum_from(baseline, active).saturating_add(self.base_bytes);
        cap_at(n, self.cap, recommended)
    }

    /// Whether a new request is admitted.
    pub fn can_admit(
        &self,
        baseline: u64,
        active: &[u64],
        new_size: u64,
        recommended: Option<u64>,
    ) -> (r: bool)
        ensures
            r == within(
                bounded(baseline + self.budget() + total(active@) + new_size),
                self.cap(),
                recommended,
            ),
    {
        proof {
            lemma_total(active@);
        }
        let n: u64 = sum_from(baseline, active).saturating_add(self.base_bytes).saturating_add(
            new_size,
        );
        is_within(n, self.cap, recommended)
    }
}

/// The memory of a run.
#[derive(Clone, Copy, Debug, PartialEq, Eq, Structural)]
pub struct WiredMemoryMeasurement {
    pub weight_bytes: u64,
    pub kv_bytes: u64,
    pub workspace_bytes: u64,
    pub peak_active_bytes: u64,
    pub token_count: usize,
    pub prefill_step_size: usize,
}

impl WiredMemoryMeasurement {
    /// The memory of weights, cache and workspace.
    pub fn total_bytes(&self) -> (n: u64)
        ensures
            n == bounded(self.weight_bytes + self.kv_bytes + self.workspace_bytes),
    {
        self.weight_bytes.saturating_add(self.kv_bytes).saturating_add(self.workspace_bytes)
    }
}

/// All requests count: the sum over two lists is that over both.
pub proof fn every_request_counts(a: Seq<u64>, b: Seq<u64>)
    ensures
        total(Seq::<u64>::empty()) == 0,
        total(a + b) == total(a) + total(b),
        forall|x: u64| #[trigger] total(a.push(x)) == total(a) + x,
    decreases b.len(),
{
    if b.len() > 0 {
        every_request_counts(a, b.drop_last());
        assert((a + b).drop_last() =~= a + b.drop_last());
        assert((a + b).last() == b.last());
    } else {
        assert(a + b =~= a);
    }
    assert forall|x: u64| #[trigger] total(a.push(x)) == total(a) + x by {
        assert(a.push(x).drop_last() =~= a);
    }
}

/// A limit is never above the cap, nor, without a cap, above what is
/// recommended; below that it is what is asked for. A cap counts in place of
/// what is recommended, also where it is above it.
pub proof fn caps_come_before_recommendations(n: u64, cap: Option<u64>, recommended: Option<u64>)
    ensures
        cap matches Some(c) ==> capped(n, cap, recommended) <= c && (n <= c ==> capped(
            n,
            cap,
            recommended,
        ) == n) && (n > c ==> capped(n, cap, recommended) == c),
        cap is None ==> (recommended matches Some(c) ==> capped(n, cap, recommended) <= c && (n <= c
            ==> capped(n, cap, recommended) == n) && (n > c ==> capped(n, cap, recommended) == c)),
        cap is None && recommended is None ==> capped(n, cap, recommended) == n,
        within(n, cap, recommended) <==> capped(n, cap, recommended) == n,
{
}

/// An amount out of range counts as the largest one, and every other as it is.
pub proof fn amounts_are_kept_in_range(n: int)
    requires
        n >= 0,
    ensures
        n <= u64::MAX ==> bounded(n) == n,
        n > u64::MAX ==> bounded(n) == u64::MAX,
{
}

/// The largest of the requests and the baseline is none below any of them, and
/// is one of them.
pub proof fn largest_is_one_of_them(floor: u64, sizes: Seq<u64>)
    ensures
        largest(floor, sizes) >= floor,
        forall|i: int| 0 <= i < sizes.len() ==> #[trigger] sizes[i] <= largest(floor, sizes),
        largest(floor, sizes) == floor || sizes.contains(largest(floor, sizes)),
    decreases sizes.len(),
{
    if sizes.len() > 0 {
        let rest = sizes.drop_last();
        largest_is_one_of_them(floor, rest);
        assert forall|i: int| 0 <= i < sizes.len() implies #[trigger] sizes[i] <= largest(
            floor,
            sizes,
        ) by {
            if i < rest.len() {
                assert(rest[i] == sizes[i]);
            }
        }
        if rest.contains(largest(floor, rest)) {
            let i = choose|i: int| 0 <= i < rest.len() && rest[i] == largest(floor, rest);
            assert(sizes[i] == largest(floor, rest));
        }
        assert(sizes[sizes.len() - 1] == sizes.last());
    }
}

} // verus!
