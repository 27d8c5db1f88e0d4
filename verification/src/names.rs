//! Values by name.
use vstd::prelude::*;

use crate::text::same_text;

verus! {

/// The value under the name `k`, if any.
pub open spec fn lookup<V>(s: Seq<(Seq<char>, V)>, k: Seq<char>) -> Option<V>
    decreases s.len(),
{
    if s.len() == 0 {
        None
    } else if s.last().0 == k {
        Some(s.last().1)
    } else {
        lookup(s.drop_last(), k)
    }
}

/// Whether no name occurs twice.
pub open spec fn keys_distinct<V>(s: Seq<(Seq<char>, V)>) -> bool {
    forall|i: int, j: int| 0 <= i < j < s.len() ==> (#[trigger] s[i]).0 != (#[trigger] s[j]).0
}

/// The entries with `v` under `k`: in place of an entry under `k`, else behind
/// all others.
pub open spec fn assigned<V>(s: Seq<(Seq<char>, V)>, k: Seq<char>, v: V) -> Seq<(Seq<char>, V)>
    decreases s.len(),
{
    if s.len() == 0 {
        seq![(k, v)]
    } else if s.last().0 == k {
        s.drop_last().push((k, v))
    } else if lookup(s.drop_last(), k) is Some {
        assigned(s.drop_last(), k, v).push(s.last())
    } else {
        s.push((k, v))
    }
}

/// A name that no later entry has is looked up where it stands.
pub proof fn lemma_last_match<V>(s: Seq<(Seq<char>, V)>, k: Seq<char>, p: int)
    requires
        0 <= p < s.len(),
        s[p].0 == k,
        forall|i: int| p < i < s.len() ==> (#[trigger] s[i]).0 != k,
    ensures
        lookup(s, k) == Some(s[p].1),
    decreases s.len(),
{
    if p < s.len() - 1 {
        lemma_last_match(s.drop_last(), k, p);
    }
}

/// A name that no entry has is not found.
pub proof fn lemma_no_match<V>(s: Seq<(Seq<char>, V)>, k: Seq<char>)
    requires
        forall|i: int| 0 <= i < s.len() ==> (#[trigger] s[i]).0 != k,
    ensures
        lookup(s, k) is None,
    decreases s.len(),
{
    if s.len() > 0 {
        lemma_no_match(s.drop_last(), k);
    }
}

/// Where the name `k` is found.
pub proof fn lemma_match_place<V>(s: Seq<(Seq<char>, V)>, k: Seq<char>) -> (p: int)
    requires
        lookup(s, k) is Some,
    ensures
        0 <= p < s.len(),
        s[p].0 == k,
        lookup(s, k) == Some(s[p].1),
        forall|i: int| p < i < s.len() ==> (#[trigger] s[i]).0 != k,
    decreases s.len(),
{
    if s.last().0 == k {
        s.len() - 1
    } else {
        let p = lemma_match_place(s.drop_last(), k);
        assert forall|i: int| p < i < s.len() implies (#[trigger] s[i]).0 != k by {
            if i < s.len() - 1 {
                assert(s.drop_last()[i].0 != k);
            }
        }
        p
    }
}

/// With distinct names every entry is found under its own.
pub proof fn every_entry_is_found<V>(s: Seq<(Seq<char>, V)>, p: int)
    requires
        keys_distinct(s),
        0 <= p < s.len(),
    ensures
        lookup(s, s[p].0) == Some(s[p].1),
{
    lemma_last_match(s, s[p].0, p);
}

proof fn lemma_assigned_at<V>(s: Seq<(Seq<char>, V)>, p: int, v: V)
    requires
        keys_distinct(s),
        0 <= p < s.len(),
    ensures
        assigned(s, s[p].0, v) == s.update(p, (s[p].0, v)),
    decreases s.len(),
{
    if p == s.len() - 1 {
        assert(s.drop_last().push((s[p].0, v)) =~= s.update(p, (s[p].0, v)));
    } else {
        let d = s.drop_last();
        lemma_assigned_at(d, p, v);
        every_entry_is_found(d, p);
        assert(d.update(p, (s[p].0, v)).push(s.last()) =~= s.update(p, (s[p].0, v)));
    }
}

proof fn lemma_assigned_new<V>(s: Seq<(Seq<char>, V)>, k: Seq<char>, v: V)
    requires
        lookup(s, k) is None,
    ensures
        assigned(s, k, v) == s.push((k, v)),
{
    if s.len() == 0 {
        assert(seq![(k, v)] =~= s.push((k, v)));
    }
}

/// An assignment keeps names distinct, is found again, and changes nothing
/// else.
pub proof fn assignment_reads_back<V>(s: Seq<(Seq<char>, V)>, k: Seq<char>, v: V)
    requires
        keys_distinct(s),
    ensures
        keys_distinct(assigned(s, k, v)),
        lookup(assigned(s, k, v), k) == Some(v),
        forall|j: Seq<char>| j != k ==> #[trigger] lookup(assigned(s, k, v), j) == lookup(s, j),
        assigned(s, k, v).len() == s.len() + if lookup(s, k) is Some {
            0int
        } else {
            1int
        },
{
    let t = assigned(s, k, v);
    let p = if lookup(s, k) is Some {
        let p = lemma_match_place(s, k);
        lemma_assigned_at(s, p, v);
        p
    } else {
        lemma_assigned_new(s, k, v);
        assert forall|i: int| 0 <= i < s.len() implies (#[trigger] s[i]).0 != k by {
            every_entry_is_found(s, i);
        }
        s.len() as int
    };
    assert forall|i: int, j: int| 0 <= i < j < t.len() implies (#[trigger] t[i]).0 != (
    #[trigger] t[j]).0 by {
        if j < s.len() {
            assert(s[i].0 != s[j].0);
        }
    }
    every_entry_is_found(t, p);
    assert forall|j: Seq<char>| j != k implies #[trigger] lookup(t, j) == lookup(s, j) by {
        if lookup(s, j) is Some {
            let q = lemma_match_place(s, j);
            assert(t[q] == s[q]);
            every_entry_is_found(t, q);
        } else {
            assert forall|i: int| 0 <= i < t.len() implies (#[trigger] t[i]).0 != j by {
                if i < s.len() {
                    every_entry_is_found(s, i);
                }
            }
            lemma_no_match(t, j);
        }
    }
}

/// The entries with each value replaced by what `f` makes of it.
pub open spec fn mapped<V, W>(s: Seq<(Seq<char>, V)>, f: spec_fn(V) -> W) -> Seq<(Seq<char>, W)> {
    Seq::new(s.len(), |i: int| (s[i].0, f(s[i].1)))
}

/// A lookup among replaced values finds what the value found is replaced by.
pub proof fn lemma_mapped_lookup<V, W>(s: Seq<(Seq<char>, V)>, f: spec_fn(V) -> W, k: Seq<char>)
    ensures
        lookup(mapped(s, f), k) == match lookup(s, k) {
            Some(v) => Some(f(v)),
            None => None,
        },
    decreases s.len(),
{
    if s.len() > 0 {
        lemma_mapped_lookup(s.drop_last(), f, k);
        assert(mapped(s, f).drop_last() =~= mapped(s.drop_last(), f));
    }
}

/// An assignment among replaced values is one of what the value is replaced by.
pub proof fn lemma_mapped_assigned<V, W>(
    s: Seq<(Seq<char>, V)>,
    f: spec_fn(V) -> W,
    k: Seq<char>,
    v: V,
)
    ensures
        mapped(assigned(s, k, v), f) == assigned(mapped(s, f), k, f(v)),
    decreases s.len(),
{
    let m = mapped(s, f);
    if s.len() == 0 {
        assert(mapped(assigned(s, k, v), f) =~= assigned(m, k, f(v)));
    } else {
        let d = s.drop_last();
        assert(m.drop_last() =~= mapped(d, f));
        lemma_mapped_lookup(d, f, k);
        lemma_mapped_assigned(d, f, k, v);
        assert(mapped(assigned(s, k, v), f) =~= assigned(m, k, f(v)));
    }
}

/// Values by name, in the order in which the names first came.
#[derive(Debug)]
pub struct NameMap<V> {
    entries: Vec<(String, V)>,
}

pub(crate) open spec fn entries_of<V>(entries: Seq<(String, V)>) -> Seq<(Seq<char>, V)> {
    entries.map_values(|e: (String, V)| (e.0@, e.1))
}

impl<V> View for NameMap<V> {
    type V = Seq<(Seq<char>, V)>;

    closed spec fn view(&self) -> Seq<(Seq<char>, V)> {
        entries_of(self.entries@)
    }
}

impl<V> NameMap<V> {
    #[verifier::type_invariant]
    spec fn type_inv(self) -> bool {
        keys_distinct(entries_of(self.entries@))
    }

    /// Without any name.
    pub fn new() -> (m: NameMap<V>)
        ensures
            m@ == Seq::<(Seq<char>, V)>::empty(),
    {
        let m = NameMap { entries: Vec::new() };
        assert(m@ =~= Seq::<(Seq<char>, V)>::empty());
        m
    }

    /// The number of names.
    pub fn len(&self) -> (n: usize)
        ensures
            n == self@.len(),
            keys_distinct(self@),
    {
        proof {
            use_type_invariant(self);
        }
        self.entries.len()
    }

    /// Whether there is no name.
    pub fn is_empty(&self) -> (r: bool)
        ensures
            r == (self@.len() == 0),
            keys_distinct(self@),
    {
        proof {
            use_type_invariant(self);
        }
        self.entries.len() == 0
    }

    /// The name at `i`.
    pub fn name_at(&self, i: usize) -> (name: &str)
        requires
            i < self@.len(),
        ensures
            name@ == self@[i as int].0,
    {
        self.entries[i].0.as_str()
    }

    /// The value at `i`.
    pub fn value_at(&self, i: usize) -> (value: &V)
        requires
            i < self@.len(),
        ensures
            *value == self@[i as int].1,
    {
        &self.entries[i].1
    }

    fn position(&self, name: &str) -> (r: Option<usize>)
        ensures
            match r {
                Some(p) => p < self@.len() && self@[p as int].0 == name@ && lookup(self@, name@)
                    == Some(self@[p as int].1),
                None => lookup(self@, name@) is None,
            },
    {
        let mut p: usize = self.entries.len();
        while p > 0
            invariant
                0 <= p <= self@.len(),
                forall|i: int| p <= i < self@.len() ==> (#[trigger] self@[i]).0 != name@,
            decreases p,
        {
            p = p - 1;
            if same_text(self.entries[p].0.as_str(), name) {
                proof {
                    lemma_last_match(self@, name@, p as int);
                }
                return Some(p);
            }
        }
        proof {
            lemma_no_match(self@, name@);
        }
        None
    }

    /// The value under `name`, if any.
    pub fn get(&self, name: &str) -> (r: Option<&V>)
        ensures
            match r {
                Some(v) => lookup(self@, name@) == Some(*v),
                None => lookup(self@, name@) is None,
            },
    {
        match self.position(name) {
            Some(p) => Some(&self.entries[p].1),
            None => None,
        }
    }

    /// Whether there is a value under `name`.
    pub fn contains_key(&self, name: &str) -> (r: bool)
        ensures
            r == (lookup(self@, name@) is Some),
    {
        match self.position(name) {
            Some(_) => true,
            None => false,
        }
    }

    /// Puts `value` under `name`, in place of what was there.
    pub fn insert(&mut self, name: &str, value: V)
        ensures
            final(self)@ == assigned(old(self)@, name@, value),
            keys_distinct(final(self)@),
    {
        let place = self.position(name);
        let ghost before = self@;
        proof {
            use_type_invariant(&*self);
            assignment_reads_back(before, name@, value);
            if place is Some {
                lemma_assigned_at(before, place->0 as int, value);
            } else {
                lemma_assigned_new(before, name@, value);
            }
        }
        let mut entries: Vec<(String, V)> = Vec::new();
        std::mem::swap(&mut self.entries, &mut entries);
        match place {
            Some(p) => {
                entries.set(p, (name.to_owned(), value));
            },
            None => {
                entries.push((name.to_owned(), value));
            },
        }
        assert(entries_of(entries@) =~= assigned(before, name@, value));
        self.entries = entries;
    }
}

/// An assignment to a name that is there changes just its entry, in its place;
/// one to another name adds an entry behind all others.
pub proof fn assignments_keep_the_order<V>(s: Seq<(Seq<char>, V)>, k: Seq<char>, v: V, p: int)
    requires
        keys_distinct(s),
    ensures
        0 <= p < s.len() && s[p].0 == k ==> assigned(s, k, v) == s.update(p, (k, v)),
        (forall|i: int| 0 <= i < s.len() ==> (#[trigger] s[i]).0 != k) ==> assigned(s, k, v)
            == s.push((k, v)),
    decreases s.len(),
{
    if forall|i: int| 0 <= i < s.len() ==> (#[trigger] s[i]).0 != k {
        if s.len() > 0 {
            let r = s.drop_last();
            assert(s.last() == s[s.len() - 1]);
            assert forall|i: int| 0 <= i < r.len() implies (#[trigger] r[i]).0 != k by {
                assert(s[i].0 != k);
            }
            lemma_no_match(r, k);
        } else {
            assert(seq![(k, v)] =~= s.push((k, v)));
        }
    }
    if 0 <= p < s.len() && s[p].0 == k {
        let r = s.drop_last();
        if p == s.len() - 1 {
            assert(r.push((k, v)) =~= s.update(p, (k, v)));
        } else {
            assert(s[p].0 != s[s.len() - 1].0);
            assert(r[p] == s[p]);
            assert(keys_distinct(r)) by {
                assert forall|i: int, j: int| 0 <= i < j < r.len() implies (#[trigger] r[i]).0 != (
                #[trigger] r[j]).0 by {
                    assert(s[i].0 != s[j].0);
                }
            }
            assignments_keep_the_order(r, k, v, p);
            assert forall|i: int| p < i < r.len() implies (#[trigger] r[i]).0 != k by {
                assert(s[p].0 != s[i].0);
            }
            lemma_last_match(r, k, p);
            assert(r.update(p, (k, v)).push(s.last()) =~= s.update(p, (k, v)));
        }
    }
}

} // verus!
