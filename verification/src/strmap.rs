//! `StrMap`: a map from strings to values that keeps its entries sorted by
//! key, in the order of `str`. It stands where an ordered map keyed by strings
//! is needed: lookups find the value stored under a key, and iteration visits
//! the keys in increasing order.

use vstd::prelude::*;
use crate::text::{less_than, same_text, str_lt, lemma_str_lt_irreflexive, lemma_str_lt_transitive, lemma_str_lt_total};

verus! {

/// The keys of `s` increase strictly from each entry to the next.
pub open spec fn sorted_keys<V>(s: Seq<(Seq<char>, V)>) -> bool {
    forall|i: int, j: int| 0 <= i < j < s.len() ==> str_lt(#[trigger] s[i].0, #[trigger] s[j].0)
}

/// No key occurs twice in `s`.
pub open spec fn distinct_keys<V>(s: Seq<(Seq<char>, V)>) -> bool {
    forall|i: int, j: int| 0 <= i < s.len() && 0 <= j < s.len() && i != j ==> #[trigger] s[i].0 != #[trigger] s[j].0
}

/// `k` is the key of some entry of `s`.
pub open spec fn has_key<V>(s: Seq<(Seq<char>, V)>, k: Seq<char>) -> bool {
    exists|i: int| 0 <= i < s.len() && #[trigger] s[i].0 == k
}

/// The value of the first entry of `s` whose key is `k`.
pub open spec fn lookup<V>(s: Seq<(Seq<char>, V)>, k: Seq<char>) -> Option<V>
    decreases s.len(),
{
    if s.len() == 0 {
        None
    } else if s[0].0 == k {
        Some(s[0].1)
    } else {
        lookup(s.drop_first(), k)
    }
}

/// The number of leading entries of `s` whose keys come before `k`: in a
/// sorted sequence, the position where `k` is found or belongs.
pub open spec fn lower_bound<V>(s: Seq<(Seq<char>, V)>, k: Seq<char>) -> int
    decreases s.len(),
{
    if s.len() == 0 {
        0
    } else if str_lt(s[0].0, k) {
        1 + lower_bound(s.drop_first(), k)
    } else {
        0
    }
}

/// `s` with `v` stored under `k`: the entry holding `k` is updated in place,
/// or a new entry is put where `k` belongs in the order.
pub open spec fn insert_sorted<V>(s: Seq<(Seq<char>, V)>, k: Seq<char>, v: V) -> Seq<(Seq<char>, V)> {
    let p = lower_bound(s, k);
    if p < s.len() && s[p].0 == k {
        s.update(p, (k, v))
    } else {
        s.insert(p, (k, v))
    }
}

/// The index of the first entry of `s` whose key is `k`.
pub open spec fn first_index<V>(s: Seq<(Seq<char>, V)>, k: Seq<char>) -> int
    decreases s.len(),
{
    if s.len() == 0 || s[0].0 == k {
        0
    } else {
        1 + first_index(s.drop_first(), k)
    }
}

/// `s` with `v` stored under `k`: the entry holding `k` keeps its place and
/// takes the new value; a new key goes last.
pub open spec fn index_insert<V>(s: Seq<(Seq<char>, V)>, k: Seq<char>, v: V) -> Seq<(Seq<char>, V)> {
    if has_key(s, k) {
        s.update(first_index(s, k), (k, v))
    } else {
        s.push((k, v))
    }
}

/// Where the scan for the first entry holding `k` stops: at `i`, when every
/// entry before `i` holds another key and the entry at `i`, if any, holds `k`.
pub proof fn lemma_first_index_at<V>(s: Seq<(Seq<char>, V)>, k: Seq<char>, i: int)
    requires
        0 <= i <= s.len(),
        forall|j: int| 0 <= j < i ==> #[trigger] s[j].0 != k,
        i < s.len() ==> s[i].0 == k,
    ensures
        has_key(s, k) <==> i < s.len(),
        i < s.len() ==> first_index(s, k) == i,
        i < s.len() ==> lookup(s, k) == Some(s[i].1),
        i == s.len() ==> lookup(s, k) is None,
    decreases s.len(),
{
    if s.len() > 0 {
        if i == 0 {
            assert(s[0].0 == k);
        } else {
            let t = s.drop_first();
            assert(s[0].0 != k);
            assert forall|j: int| 0 <= j < i - 1 implies #[trigger] t[j].0 != k by {
                assert(t[j] == s[j + 1]);
            }
            if i - 1 < t.len() {
                assert(t[i - 1] == s[i]);
            }
            lemma_first_index_at(t, k, i - 1);
            if has_key(t, k) {
                let j = choose|j: int| 0 <= j < t.len() && #[trigger] t[j].0 == k;
                assert(s[j + 1].0 == k);
            }
            if has_key(s, k) {
                let j = choose|j: int| 0 <= j < s.len() && #[trigger] s[j].0 == k;
                assert(t[j - 1].0 == k);
            }
        }
    }
}

/// Where some entry holds `k`, `first_index` is the position of the first
/// such entry.
pub proof fn lemma_first_index<V>(s: Seq<(Seq<char>, V)>, k: Seq<char>)
    requires
        has_key(s, k),
    ensures
        0 <= first_index(s, k) < s.len(),
        s[first_index(s, k)].0 == k,
        forall|j: int| 0 <= j < first_index(s, k) ==> #[trigger] s[j].0 != k,
    decreases s.len(),
{
    if s[0].0 != k {
        let t = s.drop_first();
        let i = choose|i: int| 0 <= i < s.len() && #[trigger] s[i].0 == k;
        assert(t[i - 1].0 == k);
        lemma_first_index(t, k);
        assert forall|j: int| 0 <= j < first_index(s, k) implies #[trigger] s[j].0 != k by {
            if j > 0 {
                assert(s[j] == t[j - 1]);
            }
        }
    }
}

/// After `k` is stored with `v` in the order of writing, looking `k` up gives
/// `v`, and looking up any other key gives what it gave before.
pub proof fn lemma_index_insert_lookup<V>(s: Seq<(Seq<char>, V)>, k: Seq<char>, v: V, other: Seq<char>)
    ensures
        lookup(index_insert(s, k, v), k) == Some(v),
        other != k ==> lookup(index_insert(s, k, v), other) == lookup(s, other),
{
    let r = index_insert(s, k, v);
    if has_key(s, k) {
        lemma_first_index(s, k);
        let i = first_index(s, k);
        assert forall|j: int| 0 <= j < i implies #[trigger] r[j].0 != k by {
            assert(r[j] == s[j]);
        }
        lemma_first_index_at(r, k, i);
    } else {
        assert forall|j: int| 0 <= j < s.len() implies #[trigger] r[j].0 != k by {
            assert(r[j] == s[j]);
        }
        lemma_first_index_at(r, k, s.len() as int);
    }
    if other != k {
        let p = if has_key(s, other) {
            lemma_first_index(s, other);
            first_index(s, other)
        } else {
            s.len() as int
        };
        lemma_first_index_at(s, other, p);
        if p < s.len() {
            assert forall|j: int| 0 <= j < p implies #[trigger] r[j].0 != other by {
                assert(r[j].0 == s[j].0);
            }
            assert(r[p] == s[p]);
            lemma_first_index_at(r, other, p);
        } else {
            assert forall|j: int| 0 <= j < r.len() implies #[trigger] r[j].0 != other by {
                if j < s.len() {
                    assert(r[j].0 == s[j].0);
                }
            }
            lemma_first_index_at(r, other, r.len() as int);
        }
    }
}

/// What holds of every value of `s` and of `v` holds of every value after
/// `v` is stored under `k` in sorted order.
pub proof fn lemma_insert_sorted_values<V>(s: Seq<(Seq<char>, V)>, k: Seq<char>, v: V, p: spec_fn(V) -> bool)
    requires
        sorted_keys(s),
        forall|i: int| 0 <= i < s.len() ==> p(#[trigger] s[i].1),
        p(v),
    ensures
        forall|j: int| 0 <= j < insert_sorted(s, k, v).len() ==> p(#[trigger] insert_sorted(s, k, v)[j].1),
{
    lemma_lower_bound(s, k);
    let pos = lower_bound(s, k);
    let r = insert_sorted(s, k, v);
    assert forall|j: int| 0 <= j < r.len() implies p(#[trigger] r[j].1) by {
        if pos < s.len() && s[pos].0 == k {
            if j != pos {
                assert(r[j] == s[j]);
            }
        } else if j < pos {
            assert(r[j] == s[j]);
        } else if j > pos {
            assert(r[j] == s[j - 1]);
        }
    }
}

/// Sorted keys are distinct.
pub proof fn lemma_sorted_distinct<V>(s: Seq<(Seq<char>, V)>)
    requires
        sorted_keys(s),
    ensures
        distinct_keys(s),
{
    assert forall|i: int, j: int| 0 <= i < s.len() && 0 <= j < s.len() && i != j implies #[trigger] s[i].0 != #[trigger] s[j].0 by {
        if i < j {
            assert(str_lt(s[i].0, s[j].0));
            lemma_str_lt_irreflexive(s[i].0);
        } else {
            assert(str_lt(s[j].0, s[i].0));
            lemma_str_lt_irreflexive(s[j].0);
        }
    }
}

/// `lookup` finds nothing exactly where no entry has the key.
pub proof fn lemma_lookup_none<V>(s: Seq<(Seq<char>, V)>, k: Seq<char>)
    ensures
        lookup(s, k) is None <==> !has_key(s, k),
    decreases s.len(),
{
    if s.len() > 0 {
        lemma_lookup_none(s.drop_first(), k);
        if has_key(s.drop_first(), k) {
            let i = choose|i: int| 0 <= i < s.drop_first().len() && #[trigger] s.drop_first()[i].0 == k;
            assert(s[i + 1].0 == k);
        }
        if has_key(s, k) && s[0].0 != k {
            let i = choose|i: int| 0 <= i < s.len() && #[trigger] s[i].0 == k;
            assert(s.drop_first()[i - 1].0 == k);
        }
    }
}

/// With distinct keys, `lookup` gives the value of the entry holding the key.
pub proof fn lemma_lookup_at<V>(s: Seq<(Seq<char>, V)>, k: Seq<char>, i: int)
    requires
        distinct_keys(s),
        0 <= i < s.len(),
        s[i].0 == k,
    ensures
        lookup(s, k) == Some(s[i].1),
    decreases s.len(),
{
    if i > 0 {
        assert(s[0].0 != s[i].0);
        let t = s.drop_first();
        assert(distinct_keys(t)) by {
            assert forall|a: int, b: int| 0 <= a < t.len() && 0 <= b < t.len() && a != b implies #[trigger] t[a].0 != #[trigger] t[b].0 by {
                assert(t[a] == s[a + 1] && t[b] == s[b + 1]);
            }
        }
        lemma_lookup_at(t, k, i - 1);
    }
}

/// What `lower_bound` is in a sorted sequence: every entry before it has a
/// smaller key, and none from it on.
pub proof fn lemma_lower_bound<V>(s: Seq<(Seq<char>, V)>, k: Seq<char>)
    requires
        sorted_keys(s),
    ensures
        0 <= lower_bound(s, k) <= s.len(),
        forall|i: int| 0 <= i < lower_bound(s, k) ==> str_lt(#[trigger] s[i].0, k),
        forall|i: int| lower_bound(s, k) <= i < s.len() ==> !str_lt(#[trigger] s[i].0, k),
    decreases s.len(),
{
    if s.len() > 0 {
        let t = s.drop_first();
        assert(sorted_keys(t)) by {
            assert forall|a: int, b: int| 0 <= a < b < t.len() implies str_lt(#[trigger] t[a].0, #[trigger] t[b].0) by {
                assert(t[a] == s[a + 1] && t[b] == s[b + 1]);
            }
        }
        lemma_lower_bound(t, k);
        if str_lt(s[0].0, k) {
            assert forall|i: int| 0 <= i < lower_bound(s, k) implies str_lt(#[trigger] s[i].0, k) by {
                if i > 0 {
                    assert(s[i] == t[i - 1]);
                }
            }
            assert forall|i: int| lower_bound(s, k) <= i < s.len() implies !str_lt(#[trigger] s[i].0, k) by {
                assert(s[i] == t[i - 1]);
            }
        } else {
            assert forall|i: int| 0 <= i < s.len() implies !str_lt(#[trigger] s[i].0, k) by {
                if i > 0 && str_lt(s[i].0, k) {
                    assert(str_lt(s[0].0, s[i].0));
                    lemma_str_lt_transitive(s[0].0, s[i].0, k);
                }
            }
        }
    }
}

/// A position before which every key is smaller than `k`, and at which the
/// key is not, is `lower_bound`.
pub proof fn lemma_lower_bound_at<V>(s: Seq<(Seq<char>, V)>, k: Seq<char>, p: int)
    requires
        0 <= p <= s.len(),
        forall|i: int| 0 <= i < p ==> str_lt(#[trigger] s[i].0, k),
        p < s.len() ==> !str_lt(s[p].0, k),
    ensures
        lower_bound(s, k) == p,
    decreases s.len(),
{
    if s.len() > 0 && p > 0 {
        let t = s.drop_first();
        assert(str_lt(s[0].0, k));
        assert forall|i: int| 0 <= i < p - 1 implies str_lt(#[trigger] t[i].0, k) by {
            assert(t[i] == s[i + 1]);
        }
        lemma_lower_bound_at(t, k, p - 1);
    }
}

/// Storing a value keeps the keys sorted.
pub proof fn lemma_insert_sorted<V>(s: Seq<(Seq<char>, V)>, k: Seq<char>, v: V)
    requires
        sorted_keys(s),
    ensures
        sorted_keys(insert_sorted(s, k, v)),
{
    lemma_lower_bound(s, k);
    let p = lower_bound(s, k);
    let r = insert_sorted(s, k, v);
    if p < s.len() && s[p].0 == k {
        assert forall|i: int, j: int| 0 <= i < j < r.len() implies str_lt(#[trigger] r[i].0, #[trigger] r[j].0) by {
            assert(r[i].0 == s[i].0 && r[j].0 == s[j].0);
        }
    } else {
        if p < s.len() {
            lemma_str_lt_total(s[p].0, k);
        }
        assert forall|i: int, j: int| 0 <= i < j < r.len() implies str_lt(#[trigger] r[i].0, #[trigger] r[j].0) by {
            if j < p {
                assert(r[i] == s[i] && r[j] == s[j]);
            } else if j == p {
                assert(r[i] == s[i]);
            } else if i < p {
                assert(r[i] == s[i] && r[j] == s[j - 1]);
                assert(str_lt(k, s[p].0));
                if j - 1 > p {
                    lemma_str_lt_transitive(k, s[p].0, s[j - 1].0);
                }
                lemma_str_lt_transitive(s[i].0, k, s[j - 1].0);
            } else if i == p {
                assert(r[j] == s[j - 1]);
                assert(str_lt(k, s[p].0));
                if j - 1 > p {
                    lemma_str_lt_transitive(k, s[p].0, s[j - 1].0);
                }
            } else {
                assert(r[i] == s[i - 1] && r[j] == s[j - 1]);
            }
        }
    }
}

/// After `k` is stored with `v`, looking `k` up gives `v`, and looking up any
/// other key gives what it gave before.
pub proof fn lemma_insert_lookup<V>(s: Seq<(Seq<char>, V)>, k: Seq<char>, v: V, other: Seq<char>)
    requires
        sorted_keys(s),
    ensures
        lookup(insert_sorted(s, k, v), k) == Some(v),
        other != k ==> lookup(insert_sorted(s, k, v), other) == lookup(s, other),
{
    lemma_insert_sorted(s, k, v);
    lemma_sorted_distinct(s);
    let r = insert_sorted(s, k, v);
    lemma_sorted_distinct(r);
    lemma_lower_bound(s, k);
    let p = lower_bound(s, k);
    assert(r[p] == (k, v));
    lemma_lookup_at(r, k, p);
    if other != k {
        lemma_lookup_none(s, other);
        lemma_lookup_none(r, other);
        if has_key(s, other) {
            let i = choose|i: int| 0 <= i < s.len() && #[trigger] s[i].0 == other;
            lemma_lookup_at(s, other, i);
            if p < s.len() && s[p].0 == k {
                assert(r[i] == s[i]);
                lemma_lookup_at(r, other, i);
            } else if i < p {
                assert(r[i] == s[i]);
                lemma_lookup_at(r, other, i);
            } else {
                assert(r[i + 1] == s[i]);
                lemma_lookup_at(r, other, i + 1);
            }
        } else {
            assert forall|j: int| 0 <= j < r.len() implies #[trigger] r[j].0 != other by {
                if p < s.len() && s[p].0 == k {
                    if j != p {
                        assert(r[j] == s[j]);
                    }
                } else if j < p {
                    assert(r[j] == s[j]);
                } else if j > p {
                    assert(r[j] == s[j - 1]);
                }
            }
        }
    }
}

/// A map from strings to values, its entries sorted by key.
pub struct StrMap<T: DeepView> {
    entries: Vec<(String, T)>,
}

impl<T: DeepView> View for StrMap<T> {
    type V = Seq<(Seq<char>, T::V)>;

    closed spec fn view(&self) -> Seq<(Seq<char>, T::V)> {
        Seq::new(self.entries@.len(), |i: int| (self.entries@[i].0@, self.entries@[i].1.deep_view()))
    }
}

impl<T: DeepView> DeepView for StrMap<T> {
    type V = Seq<(Seq<char>, T::V)>;

    open spec fn deep_view(&self) -> Seq<(Seq<char>, T::V)> {
        self@
    }
}

impl<T: DeepView> StrMap<T> {
    #[verifier::type_invariant]
    closed spec fn keys_in_order(self) -> bool {
        sorted_keys(self@)
    }

    /// An empty map.
    pub fn new() -> (m: Self)
        ensures
            m@ == Seq::<(Seq<char>, T::V)>::empty(),
    {
        let m = StrMap { entries: Vec::new() };
        assert(m@ =~= Seq::<(Seq<char>, T::V)>::empty());
        m
    }

    /// The number of entries.
    pub fn len(&self) -> (n: usize)
        ensures
            n == self@.len(),
            sorted_keys(self@),
            distinct_keys(self@),
    {
        proof {
            use_type_invariant(self);
            lemma_sorted_distinct(self@);
        }
        self.entries.len()
    }

    /// The key of the entry at position `i`.
    pub fn key_at(&self, i: usize) -> (k: &String)
        requires
            i < self@.len(),
        ensures
            k@ == self@[i as int].0,
    {
        &self.entries[i].0
    }

    /// The value of the entry at position `i`.
    pub fn value_at(&self, i: usize) -> (v: &T)
        requires
            i < self@.len(),
        ensures
            v.deep_view() == self@[i as int].1,
    {
        &self.entries[i].1
    }

    /// Where `key` is found or belongs, and whether it is found there.
    fn position(&self, key: &str) -> (r: (usize, bool))
        ensures
            r.0 == lower_bound(self@, key@),
            r.1 <==> (r.0 < self@.len() && self@[r.0 as int].0 == key@),
    {
        proof {
            use_type_invariant(self);
        }
        let mut i: usize = 0;
        while i < self.entries.len() && less_than(self.entries[i].0.as_str(), key)
            invariant
                i <= self@.len(),
                self@.len() == self.entries@.len(),
                forall|j: int| 0 <= j < i ==> str_lt(#[trigger] self@[j].0, key@),
            decreases self.entries.len() - i,
        {
            i = i + 1;
        }
        proof {
            lemma_lower_bound_at(self@, key@, i as int);
        }
        let found = i < self.entries.len() && same_text(self.entries[i].0.as_str(), key);
        (i, found)
    }

    /// The value stored under `key`, if any.
    pub fn get(&self, key: &str) -> (r: Option<&T>)
        ensures
            r is Some <==> has_key(self@, key@),
            r matches Some(v) ==> lookup(self@, key@) == Some(v.deep_view()),
            r is None ==> lookup(self@, key@) is None,
    {
        proof {
            use_type_invariant(self);
            lemma_sorted_distinct(self@);
            lemma_lower_bound(self@, key@);
            lemma_lookup_none(self@, key@);
        }
        let (p, found) = self.position(key);
        if found {
            proof {
                lemma_lookup_at(self@, key@, p as int);
            }
            Some(&self.entries[p].1)
        } else {
            proof {
                let s = self@;
                assert forall|j: int| 0 <= j < s.len() implies #[trigger] s[j].0 != key@ by {
                    if j < p {
                        lemma_str_lt_irreflexive(key@);
                    } else if j > p {
                        lemma_str_lt_total(s[p as int].0, key@);
                        lemma_str_lt_transitive(key@, s[p as int].0, s[j].0);
                        lemma_str_lt_irreflexive(key@);
                    }
                }
            }
            None
        }
    }

    /// Stores `value` under `key`, replacing the value stored there before.
    pub fn insert(&mut self, key: String, value: T)
        ensures
            final(self)@ == insert_sorted(old(self)@, key@, value.deep_view()),
    {
        proof {
            use_type_invariant(&*self);
        }
        let ghost k = key@;
        let ghost v = value.deep_view();
        let ghost before = self@;
        let (p, found) = self.position(key.as_str());
        let mut entries: Vec<(String, T)> = Vec::new();
        std::mem::swap(&mut entries, &mut self.entries);
        let ghost ev = entries@;
        proof {
            lemma_lower_bound(before, k);
        }
        if found {
            entries.set(p, (key, value));
        } else {
            entries.insert(p, (key, value));
        }
        proof {
            lemma_lower_bound(before, k);
            lemma_insert_sorted(before, k, v);
        }
        let ghost after = Seq::new(entries@.len(), |i: int| (entries@[i].0@, entries@[i].1.deep_view()));
        assert(after =~= insert_sorted(before, k, v)) by {
            if found {
                assert forall|i: int| 0 <= i < after.len() implies after[i] == insert_sorted(before, k, v)[i] by {
                    if i != p {
                        assert(entries@[i] == ev[i]);
                    }
                }
            } else {
                assert forall|i: int| 0 <= i < after.len() implies after[i] == insert_sorted(before, k, v)[i] by {
                    if i < p {
                        assert(entries@[i] == ev[i]);
                    } else if i > p {
                        assert(entries@[i] == ev[i - 1]);
                    }
                }
            }
        }
        assert(sorted_keys(after));
        self.entries = entries;
    }
}

impl StrMap<String> {
    /// A copy of the map.
    pub fn duplicate(&self) -> (m: Self)
        ensures
            m@ == self@,
    {
        proof {
            use_type_invariant(self);
        }
        let mut entries: Vec<(String, String)> = Vec::new();
        let mut i: usize = 0;
        while i < self.entries.len()
            invariant
                i <= self.entries@.len(),
                entries@.len() == i,
                forall|j: int| 0 <= j < i ==> (#[trigger] entries@[j]).0@ == self.entries@[j].0@ && entries@[j].1@ == self.entries@[j].1@,
            decreases self.entries.len() - i,
        {
            let k = self.entries[i].0.clone();
            let v = self.entries[i].1.clone();
            entries.push((k, v));
            i = i + 1;
        }
        let ghost copied = Seq::new(entries@.len(), |i: int| (entries@[i].0@, entries@[i].1.deep_view()));
        assert(copied =~= self@);
        StrMap { entries }
    }
}

} // verus!
