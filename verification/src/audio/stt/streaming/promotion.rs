//! Which tokens of a decode pass are confirmed.
//!
//! A pass gives the confirmed tokens again and new ones behind them. A new
//! token becomes confirmed when it has come out the same in enough passes and
//! has stood for long enough, and all tokens before it have.
use vstd::prelude::*;

verus! {

/// The tokens of a session that are not in finished text yet.
#[derive(Debug)]
pub struct Provisional {
    /// The tokens that may still change.
    pub ids: Vec<u32>,
    /// When each was first seen.
    pub first_seen: Vec<u64>,
    /// In how many passes each has come out the same.
    pub agreement: Vec<usize>,
}

/// What [`Provisional`] stands for: token, time first seen and passes.
pub open spec fn entries(p: Provisional) -> Seq<(u32, u64, usize)> {
    Seq::new(p.ids@.len(), |i: int| (p.ids@[i], p.first_seen@[i], p.agreement@[i]))
}

impl Provisional {
    /// Whether each token has its time and its count.
    pub open spec fn wf(&self) -> bool {
        &&& self.first_seen@.len() == self.ids@.len()
        &&& self.agreement@.len() == self.ids@.len()
    }

    /// No tokens.
    pub fn new() -> (p: Provisional)
        ensures
            p.wf(),
            p.ids@ == Seq::<u32>::empty(),
    {
        Provisional { ids: Vec::new(), first_seen: Vec::new(), agreement: Vec::new() }
    }
}

/// How many tokens at the beginning of `a` and `b` are the same.
pub open spec fn common_prefix(a: Seq<u32>, b: Seq<u32>) -> nat
    decreases a.len(),
{
    if a.len() == 0 || b.len() == 0 || a[0] != b[0] {
        0
    } else {
        1 + common_prefix(a.drop_first(), b.drop_first())
    }
}

/// The number after `n`, or `n` where there is none.
pub open spec fn counted_up(n: usize) -> usize {
    if n < usize::MAX {
        (n + 1) as usize
    } else {
        n
    }
}

/// The new tokens of a pass at the time `now`, each with the time it was first
/// seen and the number of passes in which it came out the same. Tokens that
/// agree with the last pass keep their time and gain a pass.
pub open spec fn observed(
    previous: Seq<(u32, u64, usize)>,
    tokens: Seq<u32>,
    now: u64,
) -> Seq<(u32, u64, usize)> {
    let same = common_prefix(previous.map_values(|e: (u32, u64, usize)| e.0), tokens);
    Seq::new(
        tokens.len(),
        |i: int|
            if i < same {
                (tokens[i], previous[i].1, counted_up(previous[i].2))
            } else {
                (tokens[i], now, 1usize)
            },
    )
}

/// Whether a token has come out the same in `required` passes, at least one,
/// and has stood for `delay` at the time `now`.
pub open spec fn is_settled(e: (u32, u64, usize), now: u64, delay: u64, required: usize) -> bool {
    &&& delay == 0 || now - e.1 >= delay
    &&& e.2 >= required
    &&& e.2 >= 1
}

/// Whether `k` is how many tokens are settled before the first that is not.
pub open spec fn is_settled_count(
    s: Seq<(u32, u64, usize)>,
    k: int,
    now: u64,
    delay: u64,
    required: usize,
) -> bool {
    &&& 0 <= k <= s.len()
    &&& forall|i: int| 0 <= i < k ==> is_settled(#[trigger] s[i], now, delay, required)
    &&& k < s.len() ==> !is_settled(s[k], now, delay, required)
}

/// There is one such number.
pub proof fn settled_count_is_unique(
    s: Seq<(u32, u64, usize)>,
    a: int,
    b: int,
    now: u64,
    delay: u64,
    required: usize,
)
    requires
        is_settled_count(s, a, now, delay, required),
        is_settled_count(s, b, now, delay, required),
    ensures
        a == b,
{
    if a < b {
        assert(is_settled(s[a], now, delay, required));
    } else if b < a {
        assert(is_settled(s[b], now, delay, required));
    }
}

/// What a pass makes of its tokens.
#[derive(Debug)]
pub struct Promotion {
    /// The tokens that are confirmed now.
    pub promoted: Vec<u32>,
    /// Those that may still change.
    pub provisional: Provisional,
}

proof fn lemma_common_prefix(a: Seq<u32>, b: Seq<u32>, k: int)
    requires
        0 <= k <= a.len(),
        k <= b.len(),
        forall|i: int| 0 <= i < k ==> a[i] == b[i],
        k == a.len() || k == b.len() || a[k] != b[k],
    ensures
        common_prefix(a, b) == k,
    decreases a.len(),
{
    if k > 0 {
        assert(a[0] == b[0]);
        let (x, y) = (a.drop_first(), b.drop_first());
        assert forall|i: int| 0 <= i < k - 1 implies x[i] == y[i] by {
            assert(a[i + 1] == b[i + 1]);
        }
        lemma_common_prefix(x, y, k - 1);
    }
}

fn matching(a: &Vec<u32>, b: &[u32], skip: usize) -> (k: usize)
    requires
        skip <= b@.len(),
    ensures
        k == common_prefix(a@, b@.skip(skip as int)),
        k <= a@.len(),
        k <= b@.len() - skip,
{
    let mut k: usize = 0;
    while k < a.len() && k < b.len() - skip && a[k] == b[skip + k]
        invariant
            skip <= b@.len(),
            0 <= k <= a@.len(),
            k <= b@.len() - skip,
            forall|i: int| 0 <= i < k ==> a@[i] == b@.skip(skip as int)[i],
        decreases a@.len() - k,
    {
        k = k + 1;
    }
    proof {
        lemma_common_prefix(a@, b@.skip(skip as int), k as int);
    }
    k
}

/// The tokens behind the first `confirmed`.
pub open spec fn behind(tokens: Seq<u32>, confirmed: int) -> Seq<u32> {
    if confirmed <= tokens.len() {
        tokens.skip(confirmed)
    } else {
        Seq::empty()
    }
}

/// The tokens of a pass that begin with `confirmed` confirmed ones: the
/// settled ones at their front are promoted and the others stay provisional.
pub fn promote(
    previous: &Provisional,
    tokens: &[u32],
    confirmed: usize,
    now: u64,
    delay: u64,
    required: usize,
) -> (r: Promotion)
    requires
        previous.wf(),
    ensures
        r.provisional.wf(),
        ({
            let new = observed(entries(*previous), behind(tokens@, confirmed as int), now);
            let k = r.promoted@.len() as int;
            &&& is_settled_count(new, k, now, delay, required)
            &&& r.promoted@ == behind(tokens@, confirmed as int).take(k)
            &&& entries(r.provisional) == new.skip(k)
        }),
{
    let skip: usize = if confirmed <= tokens.len() {
        confirmed
    } else {
        tokens.len()
    };
    let ghost rest = behind(tokens@, confirmed as int);
    let ghost new = observed(entries(*previous), rest, now);
    assert(rest =~= tokens@.skip(skip as int));
    let same: usize = matching(&previous.ids, tokens, skip);
    proof {
        assert(entries(*previous).map_values(|e: (u32, u64, usize)| e.0) =~= previous.ids@);
    }
    let total: usize = tokens.len();
    let n: usize = total - skip;
    let mut promoted: Vec<u32> = Vec::new();
    let mut p = Provisional::new();
    let mut open: bool = true;
    let mut i: usize = 0;
    while i < n
        invariant
            0 <= i <= n,
            total == tokens@.len(),
            n == total - skip,
            skip <= total,
            previous.wf(),
            rest == tokens@.skip(skip as int),
            new == observed(entries(*previous), rest, now),
            same <= previous.ids@.len(),
            entries(*previous).map_values(|e: (u32, u64, usize)| e.0) == previous.ids@,
            same == common_prefix(previous.ids@, rest),
            p.wf(),
            promoted@.len() + p.ids@.len() == i,
            promoted@ == rest.take(promoted@.len() as int),
            entries(p) == new.subrange(promoted@.len() as int, i as int),
            open ==> p.ids@.len() == 0,
            forall|j: int|
                0 <= j < promoted@.len() ==> is_settled(#[trigger] new[j], now, delay, required),
            !open ==> promoted@.len() < i && !is_settled(
                new[promoted@.len() as int],
                now,
                delay,
                required,
            ),
        decreases n - i,
    {
        let id: u32 = tokens[skip + i];
        let seen: u64 = if i < same {
            previous.first_seen[i]
        } else {
            now
        };
        let count: usize = if i < same {
            if previous.agreement[i] < usize::MAX {
                previous.agreement[i] + 1
            } else {
                previous.agreement[i]
            }
        } else {
            1
        };
        assert(new[i as int] == (id, seen, count));
        let stood: bool = delay == 0 || (now >= seen && now - seen >= delay);
        let settled: bool = stood && count >= required && count >= 1;
        assert(settled == is_settled(new[i as int], now, delay, required));
        if open && settled {
            let ghost before = promoted@;
            promoted.push(id);
            assert(promoted@ =~= rest.take(promoted@.len() as int));
            assert(entries(p) =~= new.subrange(promoted@.len() as int, i + 1));
        } else {
            let ghost before = entries(p);
            p.ids.push(id);
            p.first_seen.push(seen);
            p.agreement.push(count);
            assert(entries(p) =~= new.subrange(promoted@.len() as int, i + 1));
            open = false;
        }
        i = i + 1;
    }
    assert(entries(p) =~= new.skip(promoted@.len() as int));
    Promotion { promoted, provisional: p }
}

/// No token is lost or changed: the promoted and the provisional tokens are
/// those behind the confirmed ones, in order.
pub proof fn promotion_keeps_tokens(
    previous: Seq<(u32, u64, usize)>,
    tokens: Seq<u32>,
    now: u64,
    k: int,
)
    requires
        0 <= k <= tokens.len(),
    ensures
        tokens.take(k) + observed(previous, tokens, now).skip(k).map_values(
            |e: (u32, u64, usize)| e.0,
        ) == tokens,
{
    assert(tokens.take(k) + observed(previous, tokens, now).skip(k).map_values(
        |e: (u32, u64, usize)| e.0,
    ) =~= tokens);
}

/// A token that a pass shows for the first time is not promoted where more
/// than one pass or a delay is required.
pub proof fn new_token_waits(
    previous: Seq<(u32, u64, usize)>,
    tokens: Seq<u32>,
    now: u64,
    delay: u64,
    required: usize,
    k: int,
    i: int,
)
    requires
        is_settled_count(observed(previous, tokens, now), k, now, delay, required),
        required > 1 || delay > 0,
        common_prefix(previous.map_values(|e: (u32, u64, usize)| e.0), tokens) <= i < tokens.len(),
    ensures
        k <= i,
{
    let s = observed(previous, tokens, now);
    if i < k {
        assert(is_settled(s[i], now, delay, required));
    }
}

proof fn lemma_common_prefix_is(a: Seq<u32>, b: Seq<u32>)
    ensures
        common_prefix(a, b) <= a.len(),
        common_prefix(a, b) <= b.len(),
        forall|i: int| 0 <= i < common_prefix(a, b) ==> #[trigger] a[i] == b[i],
        common_prefix(a, b) == a.len() || common_prefix(a, b) == b.len() || a[common_prefix(a, b) as int]
            != b[common_prefix(a, b) as int],
    decreases a.len(),
{
    if a.len() > 0 && b.len() > 0 && a[0] == b[0] {
        let (x, y) = (a.drop_first(), b.drop_first());
        lemma_common_prefix_is(x, y);
        assert forall|i: int| 0 <= i < common_prefix(a, b) implies #[trigger] a[i] == b[i] by {
            if i > 0 {
                assert(x[i - 1] == y[i - 1]);
            }
        }
    }
}

/// A token keeps the time at which it was first seen, and gains a pass, exactly
/// where it and all before it are those of the last pass; every other token is
/// new, and seen now for the first time.
pub proof fn agreeing_tokens_grow_older(
    previous: Seq<(u32, u64, usize)>,
    tokens: Seq<u32>,
    now: u64,
    i: int,
)
    requires
        0 <= i < tokens.len(),
    ensures
        observed(previous, tokens, now).len() == tokens.len(),
        observed(previous, tokens, now)[i].0 == tokens[i],
        i < previous.len() && (forall|j: int|
            #![trigger previous[j]]
            0 <= j <= i ==> previous[j].0 == tokens[j]) ==> observed(previous, tokens, now)[i].1
            == previous[i].1 && observed(previous, tokens, now)[i].2 == if previous[i].2
            < usize::MAX {
            previous[i].2 + 1
        } else {
            usize::MAX as int
        },
        i >= previous.len() || (exists|j: int|
            #![trigger previous[j]]
            0 <= j <= i && previous[j].0 != tokens[j]) ==> observed(previous, tokens, now)[i].1
            == now && observed(previous, tokens, now)[i].2 == 1,
{
    let ids = previous.map_values(|e: (u32, u64, usize)| e.0);
    lemma_common_prefix_is(ids, tokens);
    let same = common_prefix(ids, tokens) as int;
    if i < same {
        assert forall|j: int| #![trigger previous[j]] 0 <= j <= i implies previous[j].0
            == tokens[j] by {
            assert(ids[j] == tokens[j]);
        }
    } else if same < previous.len() {
        assert(previous[same].0 == ids[same]);
        assert(previous[same].0 != tokens[same]);
    }
}

/// A token is settled exactly where it has come out the same in as many passes
/// as are required, and has stood for as long as is required.
pub proof fn settled_tokens_have_stood(
    e: (u32, u64, usize),
    now: u64,
    delay: u64,
    required: usize,
)
    requires
        e.2 >= 1,
    ensures
        e.2 < required ==> !is_settled(e, now, delay, required),
        now < e.1 + delay && delay > 0 ==> !is_settled(e, now, delay, required),
        e.2 >= required && (now >= e.1 + delay || delay == 0) ==> is_settled(
            e,
            now,
            delay,
            required,
        ),
{
}

/// The tokens behind the confirmed ones are all that follow them.
pub proof fn nothing_stands_between(tokens: Seq<u32>, confirmed: int)
    requires
        0 <= confirmed,
    ensures
        confirmed <= tokens.len() ==> tokens.take(confirmed) + behind(tokens, confirmed) == tokens,
        confirmed > tokens.len() ==> behind(tokens, confirmed).len() == 0,
{
    if confirmed <= tokens.len() {
        assert(tokens.take(confirmed) + behind(tokens, confirmed) =~= tokens);
    }
}

} // verus!
