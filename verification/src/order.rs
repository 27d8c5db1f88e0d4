//! Texts in alphabetical order.
use vstd::prelude::*;
use vstd::seq_lib::to_multiset_build;
use vstd::seq_lib::to_multiset_insert;

use crate::text::{chars_of, texts};

verus! {

/// Whether `a` stands before `b` or is the same: by the first character in
/// which they differ, and a beginning before what it is the beginning of.
pub open spec fn precedes(a: Seq<char>, b: Seq<char>) -> bool
    decreases a.len(),
{
    if a.len() == 0 {
        true
    } else if b.len() == 0 {
        false
    } else if a[0] == b[0] {
        precedes(a.drop_first(), b.drop_first())
    } else {
        (a[0] as u32) < (b[0] as u32)
    }
}

/// `x` put into `s` behind the last text that does not stand behind it.
pub open spec fn placed(s: Seq<Seq<char>>, x: Seq<char>) -> Seq<Seq<char>>
    decreases s.len(),
{
    if s.len() == 0 || precedes(s.last(), x) {
        s.push(x)
    } else {
        placed(s.drop_last(), x).push(s.last())
    }
}

/// The texts in alphabetical order.
pub open spec fn alphabetical(s: Seq<Seq<char>>) -> Seq<Seq<char>>
    decreases s.len(),
{
    if s.len() == 0 {
        s
    } else {
        placed(alphabetical(s.drop_last()), s.last())
    }
}

/// Whether each text stands before those behind it.
pub open spec fn in_order(s: Seq<Seq<char>>) -> bool {
    forall|i: int, j: int| 0 <= i < j < s.len() ==> #[trigger] precedes(s[i], s[j])
}

proof fn lemma_codes_differ(x: char, y: char)
    ensures
        x as u32 == y as u32 ==> x == y,
{
}

proof fn lemma_either(a: Seq<char>, b: Seq<char>)
    ensures
        precedes(a, b) || precedes(b, a),
    decreases a.len(),
{
    if a.len() > 0 && b.len() > 0 && a[0] == b[0] {
        lemma_either(a.drop_first(), b.drop_first());
    } else if a.len() > 0 && b.len() > 0 {
        lemma_codes_differ(a[0], b[0]);
    }
}

proof fn lemma_transitive(a: Seq<char>, b: Seq<char>, c: Seq<char>)
    requires
        precedes(a, b),
        precedes(b, c),
    ensures
        precedes(a, c),
    decreases a.len(),
{
    if a.len() > 0 && a[0] == b[0] && b[0] == c[0] {
        lemma_transitive(a.drop_first(), b.drop_first(), c.drop_first());
    }
}

proof fn lemma_placed(s: Seq<Seq<char>>, x: Seq<char>, p: int)
    requires
        0 <= p <= s.len(),
        p == 0 || precedes(s[p - 1], x),
        forall|q: int| p <= q < s.len() ==> !precedes(#[trigger] s[q], x),
    ensures
        placed(s, x) == s.insert(p, x),
    decreases s.len(),
{
    if p == s.len() {
        assert(s.insert(p, x) =~= s.push(x));
    } else {
        assert(!precedes(s[s.len() - 1], x));
        let front = s.drop_last();
        lemma_placed(front, x, p);
        assert(s.insert(p, x) =~= front.insert(p, x).push(s.last()));
    }
}

proof fn lemma_place(s: Seq<Seq<char>>, x: Seq<char>) -> (p: int)
    ensures
        0 <= p <= s.len(),
        p == 0 || precedes(s[p - 1], x),
        forall|q: int| p <= q < s.len() ==> !precedes(#[trigger] s[q], x),
    decreases s.len(),
{
    if s.len() == 0 || precedes(s.last(), x) {
        s.len() as int
    } else {
        let p = lemma_place(s.drop_last(), x);
        assert forall|q: int| p <= q < s.len() implies !precedes(#[trigger] s[q], x) by {
            if q < s.len() - 1 {
                assert(s.drop_last()[q] == s[q]);
            }
        }
        p
    }
}

/// Alphabetical order keeps the texts and puts each before those behind it.
pub proof fn alphabetical_is_in_order(s: Seq<Seq<char>>)
    ensures
        in_order(alphabetical(s)),
        alphabetical(s).to_multiset() == s.to_multiset(),
        alphabetical(s).len() == s.len(),
    decreases s.len(),
{
    if s.len() > 0 {
        let front = alphabetical(s.drop_last());
        let x = s.last();
        alphabetical_is_in_order(s.drop_last());
        let p = lemma_place(front, x);
        lemma_placed(front, x, p);
        to_multiset_insert(front, p, x);
        to_multiset_build(s.drop_last(), x);
        assert(s.drop_last().push(x) =~= s);
        let t = alphabetical(s);
        assert forall|i: int, j: int| 0 <= i < j < t.len() implies #[trigger] precedes(
            t[i],
            t[j],
        ) by {
            if i == p {
                lemma_either(front[j - 1], x);
            } else if j == p {
                if i < p - 1 {
                    assert(precedes(front[i], front[p - 1]));
                    lemma_transitive(front[i], front[p - 1], x);
                }
            } else {
                let a = if i < p {
                    i
                } else {
                    i - 1
                };
                let b = if j < p {
                    j
                } else {
                    j - 1
                };
                assert(precedes(front[a], front[b]));
            }
        }
    }
}

fn stands_before(a: &str, b: &str) -> (r: bool)
    ensures
        r == precedes(a@, b@),
{
    let x: Vec<char> = chars_of(a);
    let y: Vec<char> = chars_of(b);
    let mut i: usize = 0;
    assert(a@.skip(0) =~= a@);
    assert(b@.skip(0) =~= b@);
    while i < x.len() && i < y.len() && x[i] == y[i]
        invariant
            x@ == a@,
            y@ == b@,
            0 <= i <= x.len(),
            i <= y.len(),
            precedes(a@, b@) == precedes(a@.skip(i as int), b@.skip(i as int)),
        decreases x.len() - i,
    {
        assert(a@.skip(i as int)[0] == x@[i as int]);
        assert(b@.skip(i as int)[0] == y@[i as int]);
        assert(a@.skip(i as int).drop_first() =~= a@.skip(i + 1));
        assert(b@.skip(i as int).drop_first() =~= b@.skip(i + 1));
        i = i + 1;
    }
    if i == x.len() {
        return true;
    }
    assert(a@.skip(i as int)[0] == x@[i as int]);
    if i == y.len() {
        return false;
    }
    assert(b@.skip(i as int)[0] == y@[i as int]);
    (x[i] as u32) < (y[i] as u32)
}

/// The texts in alphabetical order.
pub fn sort_texts(v: &Vec<String>) -> (out: Vec<String>)
    ensures
        texts(out@) == alphabetical(texts(v@)),
{
    let ghost all = texts(v@);
    let mut out: Vec<String> = Vec::new();
    let mut i: usize = 0;
    assert(texts(out@) =~= alphabetical(all.take(0)));
    while i < v.len()
        invariant
            0 <= i <= v.len(),
            all == texts(v@),
            texts(out@) == alphabetical(all.take(i as int)),
        decreases v.len() - i,
    {
        let x = v[i].as_str().to_owned();
        let mut p: usize = out.len();
        while p > 0 && !stands_before(out[p - 1].as_str(), x.as_str())
            invariant
                0 <= p <= out.len(),
                forall|q: int|
                    p <= q < out@.len() ==> !precedes(#[trigger] texts(out@)[q], x@),
            decreases p,
        {
            assert(texts(out@)[p - 1] == out@[p - 1]@);
            p = p - 1;
        }
        proof {
            let s = texts(out@);
            if p > 0 {
                assert(s[p - 1] == out@[p - 1]@);
            }
            lemma_placed(s, x@, p as int);
            assert(all.take(i + 1).drop_last() =~= all.take(i as int));
            assert(all.take(i + 1).last() == x@);
            assert(texts(out@.insert(p as int, x)) =~= s.insert(p as int, x@));
        }
        out.insert(p, x);
        i = i + 1;
    }
    assert(all.take(v.len() as int) =~= all);
    out
}

/// The first character in which two texts differ decides which stands before
/// the other, by its code; a text stands before every longer one that begins
/// with it.
pub proof fn first_difference_decides(a: Seq<char>, b: Seq<char>, p: int)
    requires
        0 <= p,
        p <= a.len(),
        p <= b.len(),
        forall|i: int| 0 <= i < p ==> #[trigger] a[i] == b[i],
    ensures
        p == a.len() ==> precedes(a, b),
        p == b.len() && p < a.len() ==> !precedes(a, b),
        p < a.len() && p < b.len() && a[p] != b[p] ==> (precedes(a, b) <==> (a[p] as u32) < (
        b[p] as u32)),
    decreases p,
{
    if p > 0 {
        let (x, y) = (a.drop_first(), b.drop_first());
        assert(a[0] == b[0]);
        assert forall|i: int| 0 <= i < p - 1 implies #[trigger] x[i] == y[i] by {
            assert(a[i + 1] == b[i + 1]);
        }
        first_difference_decides(x, y, p - 1);
    }
}

} // verus!
