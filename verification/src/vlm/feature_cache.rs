//! A cache of image features for conversations that return to an image.
//!
//! The cache holds at most a fixed number of entries. A lookup or a store
//! makes its entry the most recent one, and where a new entry finds the cache
//! full the least recent one leaves.
use std::hash::{DefaultHasher, Hasher};
use vstd::bytes::{spec_u64_to_le_bytes, u64_to_le_bytes};
use vstd::prelude::*;
use vstd::std_specs::hash::DefaultHasherAdditionalSpecFns;
use vstd::string::*;

use crate::array::{Array, Tensor};
use crate::error::{shape_mismatch, Result};
use crate::hex::{hex, push_hex, sixteen_digits_differ};
use crate::names::{keys_distinct, lemma_match_place, lemma_no_match, lookup};
use crate::text::{same_text, text_of};

verus! {

/// How many entries a cache holds where nothing else is asked for.
pub const DEFAULT_MAX_SIZE: usize = 20;

// ---------------------------------------------------------------------------
// Keys
// ---------------------------------------------------------------------------

/// What an image is found by: two keys are the same where their texts are.
#[derive(Clone, Debug, PartialEq, Eq, Hash)]
pub struct Key {
    text: String,
}

impl View for Key {
    type V = Seq<char>;

    closed spec fn view(&self) -> Seq<char> {
        self.text@
    }
}

/// The texts one behind another with a bar between them.
pub open spec fn joined(parts: Seq<&str>) -> Seq<char>
    decreases parts.len(),
{
    if parts.len() == 0 {
        Seq::empty()
    } else if parts.len() == 1 {
        parts[0]@
    } else {
        joined(parts.drop_last()) + "|"@ + parts.last()@
    }
}

/// The key of an image with the content hash `h`.
pub open spec fn hashed_key(h: u64) -> Seq<char> {
    "pil:"@ + hex(h as int, 16)
}

/// The content hash of an image: that of the number of its bytes, in eight
/// bytes with the lowest first, and of the bytes.
pub open spec fn content_hash(bytes: Seq<u8>) -> u64 {
    DefaultHasher::spec_finish(seq![spec_u64_to_le_bytes(bytes.len() as u64), bytes])
}

impl Key {
    /// The key of an image by its path or address, taken as it is.
    pub fn from_source(source: &str) -> (k: Key)
        ensures
            k@ == source@,
    {
        Key { text: source.to_owned() }
    }

    /// The key of several images: their sources in order with bars between.
    pub fn from_sources(sources: &[&str]) -> (k: Key)
        ensures
            k@ == joined(sources@),
    {
        let mut text = String::new();
        let mut i: usize = 0;
        assert(sources@.take(0) =~= Seq::<&str>::empty());
        while i < sources.len()
            invariant
                0 <= i <= sources.len(),
                text@ == joined(sources@.take(i as int)),
            decreases sources.len() - i,
        {
            if i > 0 {
                text.append("|");
            }
            text.append(sources[i]);
            proof {
                let next = sources@.take(i + 1);
                assert(next.drop_last() =~= sources@.take(i as int));
                assert(next.last() == sources@[i as int]);
                if i == 0 {
                    assert(text@ =~= sources@[0]@);
                }
            }
            i = i + 1;
        }
        assert(sources@.take(sources.len() as int) =~= sources@);
        Key { text }
    }

    /// The key of an image with the content hash `h`.
    pub fn from_hash(h: u64) -> (k: Key)
        ensures
            k@ == hashed_key(h),
    {
        let mut text = "pil:".to_owned();
        let mut digits: Vec<char> = Vec::new();
        push_hex(&mut digits, h, 16);
        assert(digits@ =~= hex(h as int, 16));
        let tail = text_of(&digits);
        text.append(tail.as_str());
        Key { text }
    }

    /// The key of an image by a hash of its bytes: the same bytes have the same
    /// key.
    pub fn from_bytes(bytes: &[u8]) -> (k: Key)
        ensures
            k@ == hashed_key(content_hash(bytes@)),
    {
        let mut hasher = DefaultHasher::new();
        let n: u64 = bytes.len() as u64;
        let len = u64_to_le_bytes(n);
        hasher.write(len.as_slice());
        hasher.write(bytes);
        assert(hasher@ =~= seq![spec_u64_to_le_bytes(bytes@.len() as u64), bytes@]);
        Key::from_hash(hasher.finish())
    }

    /// The text of the key.
    pub fn as_str(&self) -> (s: &str)
        ensures
            s@ == self@,
    {
        self.text.as_str()
    }
}

impl<'a> From<&'a str> for Key {
    /// The key of one image by its path or address.
    fn from(source: &'a str) -> (k: Key)
        ensures
            k@ == source@,
    {
        Key::from_source(source)
    }
}

impl<'a> vstd::std_specs::convert::FromSpecImpl<&'a str> for Key {
    open spec fn obeys_from_spec() -> bool {
        false
    }

    open spec fn from_spec(v: &'a str) -> Key {
        arbitrary()
    }
}

/// Different content hashes give different keys.
pub proof fn hashed_keys_differ(a: u64, b: u64)
    requires
        hashed_key(a) == hashed_key(b),
    ensures
        a == b,
{
    reveal_strlit("pil:");
    let (x, y) = (hashed_key(a), hashed_key(b));
    assert(x.skip(4) =~= hex(a as int, 16));
    assert(y.skip(4) =~= hex(b as int, 16));
    sixteen_digits_differ(a, b);
}

/// The key of a content hash is that of no path, unless the path itself begins
/// with `pil:`.
pub proof fn hashed_key_is_no_path(h: u64, path: Seq<char>)
    requires
        hashed_key(h) == path,
    ensures
        "pil:"@.is_prefix_of(path),
{
    assert(path.take("pil:"@.len() as int) =~= "pil:"@);
}

/// One source in a list has the same key as alone, and none has the empty key.
pub proof fn joined_short(a: &str)
    ensures
        joined(Seq::empty()) == Seq::<char>::empty(),
        joined(seq![a]) == a@,
{
}

// ---------------------------------------------------------------------------
// The cache
// ---------------------------------------------------------------------------

/// The entries without the one under `k`.
pub open spec fn without(s: Seq<(Seq<char>, Tensor)>, k: Seq<char>) -> Seq<(Seq<char>, Tensor)>
    decreases s.len(),
{
    if s.len() == 0 {
        s
    } else if s.last().0 == k {
        s.drop_last()
    } else {
        without(s.drop_last(), k).push(s.last())
    }
}

/// The entries with the one under `k` as the most recent.
pub open spec fn touched(s: Seq<(Seq<char>, Tensor)>, k: Seq<char>) -> Seq<(Seq<char>, Tensor)> {
    match lookup(s, k) {
        Some(v) => without(s, k).push((k, v)),
        None => s,
    }
}

/// The entries with `v` stored under `k`: an entry under `k` is replaced; else
/// the least recent entry leaves where there are already `max` of them.
pub open spec fn stored(s: Seq<(Seq<char>, Tensor)>, max: int, k: Seq<char>, v: Tensor) -> Seq<
    (Seq<char>, Tensor),
> {
    if lookup(s, k) is Some {
        without(s, k).push((k, v))
    } else if s.len() >= max {
        s.drop_first().push((k, v))
    } else {
        s.push((k, v))
    }
}

/// Features by image, the least recent first.
#[derive(Debug)]
pub struct VisionFeatureCache {
    max_size: usize,
    entries: Vec<(Key, Array)>,
}

spec fn entry_view(e: (Key, Array)) -> (Seq<char>, Tensor) {
    (e.0@, e.1@)
}

impl View for VisionFeatureCache {
    type V = Seq<(Seq<char>, Tensor)>;

    closed spec fn view(&self) -> Seq<(Seq<char>, Tensor)> {
        entries_view(self.entries@)
    }
}

proof fn lemma_found(s: Seq<(Seq<char>, Tensor)>, k: Seq<char>, p: int)
    requires
        0 <= p < s.len(),
        s[p].0 == k,
        forall|i: int| p < i < s.len() ==> (#[trigger] s[i]).0 != k,
    ensures
        lookup(s, k) == Some(s[p].1),
        without(s, k) == s.remove(p),
    decreases s.len(),
{
    if p == s.len() - 1 {
        assert(s.drop_last() =~= s.remove(p));
    } else {
        lemma_found(s.drop_last(), k, p);
        assert(s.drop_last().remove(p).push(s.last()) =~= s.remove(p));
    }
}

impl VisionFeatureCache {
    /// The most entries that the cache holds.
    pub closed spec fn limit(&self) -> int {
        self.max_size as int
    }

    #[verifier::type_invariant]
    spec fn type_inv(self) -> bool {
        &&& self.max_size >= 1
        &&& self.entries@.len() <= self.max_size
        &&& keys_distinct(entries_view(self.entries@))
    }

    /// An empty cache of the default size.
    pub fn new() -> (c: VisionFeatureCache)
        ensures
            c@ == Seq::<(Seq<char>, Tensor)>::empty(),
            c.limit() == DEFAULT_MAX_SIZE,
    {
        let c = VisionFeatureCache { max_size: DEFAULT_MAX_SIZE, entries: Vec::new() };
        assert(c@ =~= Seq::<(Seq<char>, Tensor)>::empty());
        c
    }

    /// An empty cache for at most `max_size` entries, of which there must be
    /// one.
    pub fn with_max_size(max_size: usize) -> (r: Result<VisionFeatureCache>)
        ensures
            match r {
                Ok(c) => max_size >= 1 && c.limit() == max_size && c@ == Seq::<
                    (Seq<char>, Tensor),
                >::empty(),
                Err(e) => {
                    &&& max_size == 0
                    &&& e is ShapeMismatch
                    &&& e.text()
                        == "VisionFeatureCache: max_size must be >= 1 (a zero-capacity cache can never hold an entry)"@
                },
            },
    {
        if max_size == 0 {
            return Err(
                shape_mismatch(
                    "VisionFeatureCache: max_size must be >= 1 (a zero-capacity cache can never hold an entry)",
                ),
            );
        }
        let c = VisionFeatureCache { max_size, entries: Vec::new() };
        assert(c@ =~= Seq::<(Seq<char>, Tensor)>::empty());
        Ok(c)
    }

    /// The most entries that the cache holds.
    pub fn max_size(&self) -> (n: usize)
        ensures
            n == self.limit(),
            n >= 1,
    {
        proof {
            use_type_invariant(self);
        }
        self.max_size
    }

    /// The number of entries.
    pub fn len(&self) -> (n: usize)
        ensures
            n == self@.len(),
            n <= self.limit(),
            keys_distinct(self@),
    {
        proof {
            use_type_invariant(self);
        }
        self.entries.len()
    }

    /// Whether there is no entry.
    pub fn is_empty(&self) -> (r: bool)
        ensures
            r == (self@.len() == 0),
    {
        self.entries.len() == 0
    }

    fn position(&self, key: &Key) -> (r: Option<usize>)
        ensures
            match r {
                Some(p) => {
                    &&& p < self.entries@.len()
                    &&& self.entries@[p as int].0@ == key@
                    &&& lookup(self@, key@) == Some(self.entries@[p as int].1@)
                    &&& without(self@, key@) == self@.remove(p as int)
                },
                None => lookup(self@, key@) is None,
            },
    {
        let mut p: usize = self.entries.len();
        while p > 0
            invariant
                0 <= p <= self.entries@.len(),
                forall|i: int| p <= i < self@.len() ==> (#[trigger] self@[i]).0 != key@,
            decreases p,
        {
            p = p - 1;
            assert(self@[p as int] == entry_view(self.entries@[p as int]));
            if same_text(self.entries[p].0.as_str(), key.as_str()) {
                proof {
                    lemma_found(self@, key@, p as int);
                }
                return Some(p);
            }
        }
        proof {
            lemma_no_match(self@, key@);
        }
        None
    }

    /// The features stored under `key`; their entry becomes the most recent.
    pub fn get(&mut self, key: &Key) -> (r: Result<Option<Array>>)
        ensures
            r is Ok,
            match r->Ok_0 {
                Some(a) => lookup(old(self)@, key@) == Some(a@),
                None => lookup(old(self)@, key@) is None,
            },
            final(self)@ == touched(old(self)@, key@),
            final(self).limit() == old(self).limit(),
    {
        match self.position(key) {
            None => Ok(None),
            Some(p) => {
                let found = self.entries[p].1.try_clone()?;
                proof {
                    use_type_invariant(&*self);
                    let q = lemma_match_place(self@, key@);
                    lemma_found(self@, key@, q);
                    touched_keeps(self@, self.max_size as int, key@);
                    lemma_same_place(self@, key@, p as int, q);
                }
                let again = found.dup();
                let mut entries: Vec<(Key, Array)> = Vec::new();
                std::mem::swap(&mut self.entries, &mut entries);
                touch(&mut entries, p, again);
                self.entries = entries;
                Ok(Some(found))
            },
        }
    }

    /// Stores features under `key` as the most recent entry. Where the key is
    /// new and the cache full, the least recent entry leaves.
    pub fn put(&mut self, key: Key, features: &Array) -> (r: Result<()>)
        ensures
            r is Ok,
            final(self)@ == stored(old(self)@, old(self).limit(), key@, features@),
            final(self).limit() == old(self).limit(),
    {
        let kept = features.try_clone()?;
        proof {
            use_type_invariant(&*self);
            stored_keeps(self@, self.max_size as int, key@, features@);
        }
        let place = self.position(&key);
        let full: bool = self.entries.len() >= self.max_size;
        proof {
            if place is Some {
                let q = lemma_match_place(self@, key@);
                lemma_found(self@, key@, q);
                lemma_same_place(self@, key@, place->0 as int, q);
            }
        }
        let mut entries: Vec<(Key, Array)> = Vec::new();
        std::mem::swap(&mut self.entries, &mut entries);
        match place {
            Some(p) => {
                touch(&mut entries, p, kept);
            },
            None => {
                if full {
                    let _ = entries.remove(0);
                }
                entries.push((key, kept));
            },
        }
        assert(entries_view(entries@) =~= stored(old(self)@, old(self).limit(), key@, features@));
        self.entries = entries;
        Ok(())
    }

    /// Whether features are stored under `key`; the order stays as it is.
    pub fn contains(&self, key: &Key) -> (r: bool)
        ensures
            r == (lookup(self@, key@) is Some),
    {
        match self.position(key) {
            Some(_) => true,
            None => false,
        }
    }

    /// Removes every entry.
    pub fn clear(&mut self)
        ensures
            final(self)@ == Seq::<(Seq<char>, Tensor)>::empty(),
            final(self).limit() == old(self).limit(),
    {
        proof {
            use_type_invariant(&*self);
        }
        self.entries = Vec::new();
        assert(self@ =~= Seq::<(Seq<char>, Tensor)>::empty());
    }
}

impl Default for VisionFeatureCache {
    fn default() -> (c: VisionFeatureCache)
        ensures
            c@ == Seq::<(Seq<char>, Tensor)>::empty(),
            c.limit() == DEFAULT_MAX_SIZE,
    {
        VisionFeatureCache::new()
    }
}

spec fn entries_view(entries: Seq<(Key, Array)>) -> Seq<(Seq<char>, Tensor)> {
    entries.map_values(|e: (Key, Array)| entry_view(e))
}

/// Makes the entry at `p` the most recent, with the given features.
fn touch(entries: &mut Vec<(Key, Array)>, p: usize, features: Array)
    requires
        p < old(entries)@.len(),
    ensures
        entries_view(final(entries)@) == entries_view(old(entries)@).remove(p as int).push(
            (old(entries)@[p as int].0@, features@),
        ),
{
    let ghost before = entries@;
    let (key, _) = entries.remove(p);
    entries.push((key, features));
    assert(entries_view(entries@) =~= entries_view(before).remove(p as int).push(
        (before[p as int].0@, features@),
    ));
}

proof fn lemma_same_place(s: Seq<(Seq<char>, Tensor)>, k: Seq<char>, p: int, q: int)
    requires
        keys_distinct(s),
        0 <= p < s.len(),
        0 <= q < s.len(),
        s[p].0 == k,
        s[q].0 == k,
    ensures
        p == q,
{
}

/// A key in a list of distinct keys is looked up where it stands.
proof fn lemma_lookup_at(s: Seq<(Seq<char>, Tensor)>, p: int)
    requires
        keys_distinct(s),
        0 <= p < s.len(),
    ensures
        lookup(s, s[p].0) == Some(s[p].1),
        without(s, s[p].0) == s.remove(p),
{
    lemma_found(s, s[p].0, p);
}

/// A lookup keeps the number of entries, their distinct keys and everything
/// stored, and makes the entry the most recent.
pub proof fn touched_keeps(s: Seq<(Seq<char>, Tensor)>, max: int, k: Seq<char>)
    requires
        keys_distinct(s),
        s.len() <= max,
    ensures
        keys_distinct(touched(s, k)),
        touched(s, k).len() == s.len(),
        forall|j: Seq<char>| #[trigger] lookup(touched(s, k), j) == lookup(s, j),
        lookup(s, k) is Some ==> touched(s, k).last().0 == k,
{
    if lookup(s, k) is Some {
        let v = lookup(s, k)->0;
        let p = lemma_match_place(s, k);
        lemma_found(s, k, p);
        let t = touched(s, k);
        assert(t == s.remove(p).push((k, v)));
        lemma_moved_distinct(s, p, v);
        assert forall|j: Seq<char>| #[trigger] lookup(t, j) == lookup(s, j) by {
            lemma_moved_lookup(s, p, v, j);
        }
    }
}

proof fn lemma_moved_distinct(s: Seq<(Seq<char>, Tensor)>, p: int, v: Tensor)
    requires
        keys_distinct(s),
        0 <= p < s.len(),
    ensures
        keys_distinct(s.remove(p).push((s[p].0, v))),
{
    let t = s.remove(p).push((s[p].0, v));
    assert forall|i: int, j: int| 0 <= i < j < t.len() implies (#[trigger] t[i]).0 != (
    #[trigger] t[j]).0 by {
        let oi = if i < p {
            i
        } else {
            i + 1
        };
        let oj = if j == t.len() - 1 {
            p
        } else if j < p {
            j
        } else {
            j + 1
        };
        assert(t[i] == s[oi]);
        assert(t[j].0 == s[oj].0);
        assert(oi != oj);
        if oi < oj {
            assert(s[oi].0 != s[oj].0);
        } else {
            assert(s[oj].0 != s[oi].0);
        }
    }
}

proof fn lemma_moved_lookup(s: Seq<(Seq<char>, Tensor)>, p: int, v: Tensor, j: Seq<char>)
    requires
        keys_distinct(s),
        0 <= p < s.len(),
    ensures
        lookup(s.remove(p).push((s[p].0, v)), j) == if j == s[p].0 {
            Some(v)
        } else {
            lookup(s, j)
        },
{
    let t = s.remove(p).push((s[p].0, v));
    lemma_moved_distinct(s, p, v);
    if j == s[p].0 {
        lemma_lookup_at(t, t.len() - 1);
    } else if lookup(s, j) is Some {
        let q = lemma_match_place(s, j);
        lemma_lookup_at(s, q);
        let tq = if q < p {
            q
        } else {
            q - 1
        };
        assert(t[tq] == s[q]);
        lemma_lookup_at(t, tq);
    } else {
        assert forall|i: int| 0 <= i < t.len() implies (#[trigger] t[i]).0 != j by {
            if i < t.len() - 1 {
                let oi = if i < p {
                    i
                } else {
                    i + 1
                };
                assert(t[i] == s[oi]);
                lemma_lookup_at(s, oi);
            }
        }
        lemma_no_match(t, j);
    }
}

/// A store leaves no more entries than the limit and their keys distinct; what
/// was stored is found again, and everything else is as before, but for the
/// least recent entry where a new key found the cache full.
pub proof fn stored_keeps(s: Seq<(Seq<char>, Tensor)>, max: int, k: Seq<char>, v: Tensor)
    requires
        keys_distinct(s),
        1 <= max,
        s.len() <= max,
    ensures
        keys_distinct(stored(s, max, k, v)),
        stored(s, max, k, v).len() <= max,
        stored(s, max, k, v).last() == (k, v),
        lookup(stored(s, max, k, v), k) == Some(v),
        forall|j: Seq<char>|
            j != k && !(lookup(s, k) is None && s.len() == max && s[0].0 == j) ==> #[trigger] lookup(
                stored(s, max, k, v),
                j,
            ) == lookup(s, j),
        lookup(s, k) is None && s.len() == max ==> lookup(stored(s, max, k, v), s[0].0) is None,
{
    let t = stored(s, max, k, v);
    if lookup(s, k) is Some {
        let p = lemma_match_place(s, k);
        lemma_found(s, k, p);
        lemma_moved_distinct(s, p, v);
        assert forall|j: Seq<char>| j != k implies #[trigger] lookup(t, j) == lookup(s, j) by {
            lemma_moved_lookup(s, p, v, j);
        }
        lemma_lookup_at(t, t.len() - 1);
    } else {
        assert forall|i: int| 0 <= i < s.len() implies (#[trigger] s[i]).0 != k by {
            lemma_lookup_at(s, i);
        }
        let d: int = if s.len() >= max {
            1
        } else {
            0
        };
        assert forall|i: int| 0 <= i < t.len() - 1 implies #[trigger] t[i] == s[i + d] by {}
        assert(keys_distinct(t)) by {
            assert forall|i: int, j: int| 0 <= i < j < t.len() implies (#[trigger] t[i]).0 != (
            #[trigger] t[j]).0 by {
                assert(t[i] == s[i + d]);
                if j < t.len() - 1 {
                    assert(t[j] == s[j + d]);
                    assert(s[i + d].0 != s[j + d].0);
                }
            }
        }
        lemma_lookup_at(t, t.len() - 1);
        assert forall|j: Seq<char>| j != k && !(s.len() == max && s[0].0 == j) implies #[trigger]
            lookup(t, j) == lookup(s, j) by {
            if lookup(s, j) is Some {
                let q = lemma_match_place(s, j);
                lemma_lookup_at(s, q);
                assert(q >= d);
                assert(t[q - d] == s[q]);
                lemma_lookup_at(t, q - d);
            } else {
                assert forall|i: int| 0 <= i < t.len() implies (#[trigger] t[i]).0 != j by {
                    if i < t.len() - 1 {
                        assert(t[i] == s[i + d]);
                        lemma_lookup_at(s, i + d);
                    }
                }
                lemma_no_match(t, j);
            }
        }
        if s.len() == max {
            let j = s[0].0;
            assert forall|i: int| 0 <= i < t.len() implies (#[trigger] t[i]).0 != j by {
                if i < t.len() - 1 {
                    assert(t[i] == s[i + d]);
                    assert(s[0].0 != s[i + d].0);
                }
            }
            lemma_no_match(t, j);
        }
    }
}

/// An entry grows no older than the number of stores since it was last the
/// most recent: with fewer than `age` entries behind it before a store under
/// another key, and `age` less than the limit, it is still there afterwards,
/// with no more than `age` entries behind it. So an entry outlives any
/// `max - 1` stores.
pub proof fn recent_entry_survives(
    s: Seq<(Seq<char>, Tensor)>,
    max: int,
    p: int,
    k: Seq<char>,
    v: Tensor,
    age: int,
) -> (q: int)
    requires
        keys_distinct(s),
        1 <= max,
        s.len() <= max,
        0 <= p < s.len(),
        s[p].0 != k,
        s.len() - 1 - p < age < max,
    ensures
        0 <= q < stored(s, max, k, v).len(),
        stored(s, max, k, v)[q] == s[p],
        stored(s, max, k, v).len() - 1 - q <= age,
{
    let t = stored(s, max, k, v);
    if lookup(s, k) is Some {
        let r = lemma_match_place(s, k);
        lemma_found(s, k, r);
        if p < r {
            p
        } else {
            p - 1
        }
    } else if s.len() >= max {
        p - 1
    } else {
        p
    }
}

/// A lookup that finds an entry moves just this one: it goes behind all
/// others, which stay in their order. One that finds none moves nothing.
pub proof fn lookups_move_one_entry(s: Seq<(Seq<char>, Tensor)>, k: Seq<char>, p: int)
    requires
        keys_distinct(s),
    ensures
        0 <= p < s.len() && s[p].0 == k ==> touched(s, k) == s.remove(p).push(s[p]),
        (forall|i: int| 0 <= i < s.len() ==> (#[trigger] s[i]).0 != k) ==> touched(s, k) == s,
{
    if 0 <= p < s.len() && s[p].0 == k {
        lemma_found_again(s, p);
    }
    if forall|i: int| 0 <= i < s.len() ==> (#[trigger] s[i]).0 != k {
        lemma_no_match(s, k);
    }
}

/// A store under a key that is there replaces just this entry, which goes
/// behind all others. One under another key goes behind all others too, and
/// where there are as many entries as the limit allows, the first of them, the
/// least recent, leaves. The others stay in their order.
pub proof fn stores_move_one_entry(
    s: Seq<(Seq<char>, Tensor)>,
    max: int,
    k: Seq<char>,
    v: Tensor,
    p: int,
)
    requires
        keys_distinct(s),
        1 <= max,
    ensures
        0 <= p < s.len() && s[p].0 == k ==> stored(s, max, k, v) == s.remove(p).push((k, v)),
        (forall|i: int| 0 <= i < s.len() ==> (#[trigger] s[i]).0 != k) && s.len() < max ==> stored(
            s,
            max,
            k,
            v,
        ) == s.push((k, v)),
        (forall|i: int| 0 <= i < s.len() ==> (#[trigger] s[i]).0 != k) && s.len() == max ==> stored(
            s,
            max,
            k,
            v,
        ) == s.remove(0).push((k, v)),
{
    if 0 <= p < s.len() && s[p].0 == k {
        lemma_found_again(s, p);
    }
    if forall|i: int| 0 <= i < s.len() ==> (#[trigger] s[i]).0 != k {
        lemma_no_match(s, k);
        if s.len() == max {
            assert(s.drop_first() =~= s.remove(0));
        }
    }
}

proof fn lemma_found_again(s: Seq<(Seq<char>, Tensor)>, p: int)
    requires
        keys_distinct(s),
        0 <= p < s.len(),
    ensures
        lookup(s, s[p].0) == Some(s[p].1),
        without(s, s[p].0) == s.remove(p),
{
    assert forall|i: int| p < i < s.len() implies (#[trigger] s[i]).0 != s[p].0 by {
        assert(s[p].0 != s[i].0);
    }
    lemma_found(s, s[p].0, p);
}

/// The key of several images is that of all but the last, a bar and the last.
pub proof fn keys_are_joined_in_order(parts: Seq<&str>, last: &str)
    requires
        parts.len() >= 1,
    ensures
        joined(parts.push(last)) == joined(parts) + "|"@ + last@,
{
    assert(parts.push(last).drop_last() =~= parts);
}

/// The content hash of an image is over two things in turn: the number of its
/// bytes and the bytes themselves.
pub proof fn content_hash_covers_number_and_bytes(bytes: Seq<u8>)
    ensures
        content_hash(bytes) == DefaultHasher::spec_finish(
            seq![spec_u64_to_le_bytes(bytes.len() as u64), bytes],
        ),
{
}

} // verus!
