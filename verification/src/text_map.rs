//! A map keyed by text, with at most one entry per key, kept in insertion
//! order. It stands where string-keyed hash maps hold parameters.
use vstd::prelude::*;
use crate::text::text_eq;

verus! {

/// A map from string keys to values; inserting an existing key replaces its
/// value.
#[derive(Debug)]
pub struct TextMap<V> {
    entries: Vec<(String, V)>,
}

/// Some position of `s` whose key is `k`.
pub open spec fn key_position<V>(s: Seq<(String, V)>, k: Seq<char>) -> int {
    choose|i: int| 0 <= i < s.len() && s[i].0@ == k
}

/// The map that a sequence of entries with distinct keys stands for.
pub open spec fn entries_map<V>(s: Seq<(String, V)>) -> Map<Seq<char>, V> {
    Map::new(
        |k: Seq<char>| exists|i: int| 0 <= i < s.len() && s[i].0@ == k,
        |k: Seq<char>| s[key_position(s, k)].1,
    )
}

/// No two entries share a key.
pub open spec fn distinct_keys<V>(s: Seq<(String, V)>) -> bool {
    forall|i: int, j: int| 0 <= i < s.len() && 0 <= j < s.len() && i != j ==> s[i].0@ != s[j].0@
}

impl<V> View for TextMap<V> {
    type V = Map<Seq<char>, V>;

    closed spec fn view(&self) -> Map<Seq<char>, V> {
        entries_map(self.entries@)
    }
}

proof fn lemma_position_unique<V>(s: Seq<(String, V)>, i: int)
    requires
        distinct_keys(s),
        0 <= i < s.len(),
    ensures
        key_position(s, s[i].0@) == i,
        entries_map(s).dom().contains(s[i].0@),
        entries_map(s)[s[i].0@] == s[i].1,
{
    let k = s[i].0@;
    assert(exists|j: int| 0 <= j < s.len() && s[j].0@ == k);
    let p = key_position(s, k);
    assert(0 <= p < s.len() && s[p].0@ == k);
}

impl<V> TextMap<V> {
    #[verifier::type_invariant]
    spec fn keys_distinct(self) -> bool {
        distinct_keys(self.entries@)
    }

    /// Creates an empty map.
    pub fn new() -> (m: Self)
        ensures
            m@ == Map::<Seq<char>, V>::empty(),
    {
        let m = TextMap { entries: Vec::new() };
        assert(m@ =~= Map::<Seq<char>, V>::empty());
        m
    }

    /// The position of the entry with key `key`, if any.
    fn position(&self, key: &str) -> (r: Option<usize>)
        ensures
            match r {
                Some(i) => i < self.entries@.len() && self.entries@[i as int].0@ == key@,
                None => !self@.dom().contains(key@),
            },
    {
        let mut i: usize = 0;
        while i < self.entries.len()
            invariant
                i <= self.entries@.len(),
                forall|j: int| 0 <= j < i ==> self.entries@[j].0@ != key@,
            decreases self.entries@.len() - i,
        {
            if text_eq(self.entries[i].0.as_str(), key) {
                return Some(i);
            }
            i += 1;
        }
        None
    }

    /// Whether the map has no entries.
    pub fn is_empty(&self) -> (r: bool)
        ensures
            r == (self@.dom() =~= Set::<Seq<char>>::empty()),
    {
        let r = self.entries.len() == 0;
        if !r {
            assert(self@.dom().contains(self.entries@[0].0@));
        }
        r
    }

    /// Whether the map has an entry for `key`.
    pub fn contains_key(&self, key: &str) -> (r: bool)
        ensures
            r == self@.dom().contains(key@),
    {
        match self.position(key) {
            Some(_) => true,
            None => false,
        }
    }

    /// The value stored under `key`, if any.
    pub fn get(&self, key: &str) -> (r: Option<&V>)
        ensures
            match r {
                Some(v) => self@.dom().contains(key@) && *v == self@[key@],
                None => !self@.dom().contains(key@),
            },
    {
        proof {
            use_type_invariant(self);
        }
        match self.position(key) {
            Some(i) => {
                proof {
                    lemma_position_unique(self.entries@, i as int);
                }
                Some(&self.entries[i].1)
            },
            None => None,
        }
    }

    /// The number of entries.
    pub fn len(&self) -> (n: usize)
        ensures
            n == self@.dom().len(),
            self@.dom().finite(),
    {
        proof {
            use_type_invariant(self);
            lemma_entries_map_len(self.entries@);
        }
        self.entries.len()
    }

    /// The entry at position `i` in insertion order, if there are more than
    /// `i` entries.
    pub fn entry_at(&self, i: usize) -> (r: Option<&(String, V)>)
        ensures
            r is Some <==> i < self@.dom().len(),
            r matches Some(e) ==> self@.dom().contains(e.0@) && e.1 == self@[e.0@],
    {
        proof {
            use_type_invariant(self);
            lemma_entries_map_len(self.entries@);
        }
        if i < self.entries.len() {
            proof {
                lemma_position_unique(self.entries@, i as int);
            }
            Some(&self.entries[i])
        } else {
            None
        }
    }

    /// Removes the entry stored under `key`, if any.
    pub fn remove(&mut self, key: &str)
        ensures
            final(self)@ == old(self)@.remove(key@),
    {
        proof {
            use_type_invariant(&*self);
        }
        let pos = self.position(key);
        match pos {
            Some(i) => {
                let ghost s = self.entries@;
                let mut entries: Vec<(String, V)> = Vec::new();
                std::mem::swap(&mut entries, &mut self.entries);
                entries.remove(i);
                let ghost t = entries@;
                assert(t =~= s.take(i as int) + s.skip(i + 1));
                assert(forall|j: int| 0 <= j < t.len() ==> t[j] == if j < i { s[j] } else { s[j + 1] });
                assert(distinct_keys(t)) by {
                    assert forall|a: int, b: int| 0 <= a < t.len() && 0 <= b < t.len() && a != b implies t[a].0@ != t[b].0@ by {
                        let sa = if a < i { a } else { a + 1 };
                        let sb = if b < i { b } else { b + 1 };
                        assert(t[a] == s[sa] && t[b] == s[sb]);
                    }
                }
                assert forall|q: Seq<char>| #![auto] entries_map(t).dom().contains(q) == entries_map(s).remove(key@).dom().contains(q) by {
                    if entries_map(t).dom().contains(q) {
                        let j = choose|j: int| 0 <= j < t.len() && t[j].0@ == q;
                        let sj = if j < i { j } else { j + 1 };
                        assert(t[j] == s[sj]);
                        assert(s[sj].0@ != s[i as int].0@);
                    }
                    if entries_map(s).remove(key@).dom().contains(q) {
                        let j = choose|j: int| 0 <= j < s.len() && s[j].0@ == q;
                        assert(j != i);
                        let tj = if j < i { j } else { j - 1 };
                        assert(t[tj] == s[j]);
                    }
                }
                assert forall|q: Seq<char>| #![auto] entries_map(t).dom().contains(q) implies entries_map(t)[q] == entries_map(s).remove(key@)[q] by {
                    let j = choose|j: int| 0 <= j < t.len() && t[j].0@ == q;
                    let sj = if j < i { j } else { j + 1 };
                    assert(t[j] == s[sj]);
                    assert(s[sj].0@ != s[i as int].0@);
                    lemma_position_unique(t, j);
                    lemma_position_unique(s, sj);
                }
                assert(entries_map(t) =~= entries_map(s).remove(key@));
                self.entries = entries;
            },
            None => {
                assert(self@ =~= old(self)@.remove(key@));
            },
        }
    }

    /// Stores `value` under `key`, replacing any value stored there before.
    pub fn insert(&mut self, key: String, value: V)
        ensures
            final(self)@ == old(self)@.insert(key@, value),
    {
        proof {
            use_type_invariant(&*self);
        }
        let pos = self.position(key.as_str());
        let ghost old_entries = self.entries@;
        let ghost k = key@;
        let mut entries: Vec<(String, V)> = Vec::new();
        std::mem::swap(&mut entries, &mut self.entries);
        match pos {
            Some(i) => {
                entries.set(i, (key, value));
            },
            None => {
                entries.push((key, value));
            },
        }
        let ghost s = entries@;
        assert(distinct_keys(s));
        assert forall|q: Seq<char>| #![auto]
            entries_map(s).dom().contains(q) == entries_map(old_entries).insert(k, value).dom().contains(q)
        by {
            if q != k {
                if entries_map(old_entries).dom().contains(q) {
                    let j = choose|j: int| 0 <= j < old_entries.len() && old_entries[j].0@ == q;
                    assert(s[j].0@ == q);
                }
                if entries_map(s).dom().contains(q) {
                    let j = choose|j: int| 0 <= j < s.len() && s[j].0@ == q;
                    assert(old_entries[j].0@ == q);
                }
            } else {
                match pos {
                    Some(i) => { assert(s[i as int].0@ == k); },
                    None => { assert(s[s.len() - 1].0@ == k); },
                }
            }
        }
        assert forall|q: Seq<char>| #![auto] entries_map(s).dom().contains(q) implies
            entries_map(s)[q] == entries_map(old_entries).insert(k, value)[q]
        by {
            let j = choose|j: int| 0 <= j < s.len() && s[j].0@ == q;
            lemma_position_unique(s, j);
            if q != k {
                assert(old_entries[j].0@ == q);
                lemma_position_unique(old_entries, j);
            }
        }
        assert(entries_map(s) =~= entries_map(old_entries).insert(k, value));
        self.entries = entries;
    }
}

/// The views of the values of a map whose values are strings.
pub open spec fn text_values(m: Map<Seq<char>, String>) -> Map<Seq<char>, Seq<char>> {
    Map::new(|k: Seq<char>| m.dom().contains(k), |k: Seq<char>| m[k]@)
}

/// The entries of `m` whose value is at most `bound`.
pub open spec fn values_at_most(m: Map<Seq<char>, usize>, bound: usize) -> Map<Seq<char>, usize> {
    Map::new(|k: Seq<char>| m.dom().contains(k) && m[k] <= bound, |k: Seq<char>| m[k])
}

/// `m` with every value above `bound` raised by one.
pub open spec fn values_shifted_above(m: Map<Seq<char>, usize>, bound: usize) -> Map<Seq<char>, usize> {
    Map::new(
        |k: Seq<char>| m.dom().contains(k),
        |k: Seq<char>|
            if m[k] > bound {
                (m[k] + 1) as usize
            } else {
                m[k]
            },
    )
}

proof fn lemma_entries_map_push<V>(s: Seq<(String, V)>, e: (String, V))
    requires
        distinct_keys(s.push(e)),
    ensures
        entries_map(s.push(e)) == entries_map(s).insert(e.0@, e.1),
{
    let t = s.push(e);
    assert(distinct_keys(s)) by {
        assert forall|i: int, j: int| 0 <= i < s.len() && 0 <= j < s.len() && i != j implies s[i].0@ != s[j].0@ by {
            assert(t[i] == s[i] && t[j] == s[j]);
        }
    }
    assert forall|q: Seq<char>| #![auto]
        entries_map(t).dom().contains(q) == entries_map(s).insert(e.0@, e.1).dom().contains(q)
    by {
        if entries_map(t).dom().contains(q) && q != e.0@ {
            let j = choose|j: int| 0 <= j < t.len() && t[j].0@ == q;
            assert(j < s.len());
            assert(s[j].0@ == q);
        }
        if entries_map(s).dom().contains(q) {
            let j = choose|j: int| 0 <= j < s.len() && s[j].0@ == q;
            assert(t[j].0@ == q);
        }
        if q == e.0@ {
            assert(t[s.len() as int].0@ == q);
        }
    }
    assert forall|q: Seq<char>| #![auto] entries_map(t).dom().contains(q) implies entries_map(t)[q]
        == entries_map(s).insert(e.0@, e.1)[q] by {
        let j = choose|j: int| 0 <= j < t.len() && t[j].0@ == q;
        lemma_position_unique(t, j);
        if j < s.len() {
            assert(t[j] == s[j]);
            assert(t[s.len() as int] == e);
            assert(q != e.0@);
            lemma_position_unique(s, j);
        } else {
            assert(t[j] == e);
        }
    }
    assert(entries_map(t) =~= entries_map(s).insert(e.0@, e.1));
}

proof fn lemma_entries_map_len<V>(s: Seq<(String, V)>)
    requires
        distinct_keys(s),
    ensures
        entries_map(s).dom().finite(),
        entries_map(s).dom().len() == s.len(),
    decreases s.len(),
{
    if s.len() == 0 {
        assert(entries_map(s).dom() =~= Set::<Seq<char>>::empty());
    } else {
        let p = s.drop_last();
        assert(s =~= p.push(s.last()));
        assert(distinct_keys(p)) by {
            assert forall|a: int, b: int| 0 <= a < p.len() && 0 <= b < p.len() && a != b implies p[a].0@ != p[b].0@ by {
                assert(p[a] == s[a] && p[b] == s[b]);
            }
        }
        lemma_entries_map_len(p);
        lemma_entries_map_push(p, s.last());
        assert(!entries_map(p).dom().contains(s.last().0@)) by {
            if entries_map(p).dom().contains(s.last().0@) {
                let j = choose|j: int| 0 <= j < p.len() && p[j].0@ == s.last().0@;
                assert(s[j].0@ == s[s.len() - 1].0@);
            }
        }
        assert(entries_map(s).dom() =~= entries_map(p).dom().insert(s.last().0@));
    }
}

impl TextMap<usize> {
    /// Removes every entry whose value exceeds `bound`.
    pub fn retain_at_most(&mut self, bound: usize)
        ensures
            final(self)@ == values_at_most(old(self)@, bound),
    {
        proof {
            use_type_invariant(&*self);
        }
        let ghost s = self.entries@;
        let mut kept: TextMap<usize> = TextMap::new();
        let mut i: usize = 0;
        assert(s.take(0) =~= Seq::<(String, usize)>::empty());
        assert(values_at_most(entries_map(s.take(0)), bound) =~= Map::<Seq<char>, usize>::empty());
        while i < self.entries.len()
            invariant
                s == self.entries@,
                distinct_keys(s),
                i <= s.len(),
                kept@ == values_at_most(entries_map(s.take(i as int)), bound),
            decreases s.len() - i,
        {
            let ghost pre = s.take(i as int);
            assert(s.take(i + 1) == pre.push(s[i as int]));
            assert(distinct_keys(pre.push(s[i as int]))) by {
                assert forall|a: int, b: int| 0 <= a < i + 1 && 0 <= b < i + 1 && a != b implies
                    pre.push(s[i as int])[a].0@ != pre.push(s[i as int])[b].0@ by {
                    assert(pre.push(s[i as int])[a] == s[a]);
                    assert(pre.push(s[i as int])[b] == s[b]);
                }
            }
            proof {
                lemma_entries_map_push(pre, s[i as int]);
            }
            let ghost k = s[i as int].0@;
            assert(!entries_map(pre).dom().contains(k)) by {
                if entries_map(pre).dom().contains(k) {
                    let j = choose|j: int| 0 <= j < pre.len() && pre[j].0@ == k;
                    assert(s[j].0@ == k);
                }
            }
            if self.entries[i].1 <= bound {
                let key = self.entries[i].0.clone();
                kept.insert(key, self.entries[i].1);
                assert(kept@ =~= values_at_most(entries_map(s.take(i + 1)), bound));
            } else {
                assert(kept@ =~= values_at_most(entries_map(s.take(i + 1)), bound));
            }
            i += 1;
        }
        assert(s.take(s.len() as int) =~= s);
        *self = kept;
    }
}

impl TextMap<usize> {
    /// Raises by one every value above `bound`.
    pub fn shift_above(&mut self, bound: usize)
        requires
            forall|k: Seq<char>| #[trigger] old(self)@.dom().contains(k) && old(self)@[k] > bound
                ==> old(self)@[k] < usize::MAX,
        ensures
            final(self)@ == values_shifted_above(old(self)@, bound),
    {
        proof {
            use_type_invariant(&*self);
        }
        let ghost s = self.entries@;
        let mut out: TextMap<usize> = TextMap::new();
        let mut i: usize = 0;
        assert(s.take(0) =~= Seq::<(String, usize)>::empty());
        assert(values_shifted_above(entries_map(s.take(0)), bound) =~= Map::<Seq<char>, usize>::empty());
        assert(self@ == entries_map(s));
        assert forall|k: Seq<char>| #[trigger] entries_map(s).dom().contains(k) && entries_map(s)[k] > bound
            implies entries_map(s)[k] < usize::MAX by {
            assert(old(self)@.dom().contains(k));
        }
        while i < self.entries.len()
            invariant
                s == self.entries@,
                distinct_keys(s),
                i <= s.len(),
                forall|k: Seq<char>| #[trigger] entries_map(s).dom().contains(k) && entries_map(s)[k] > bound
                    ==> entries_map(s)[k] < usize::MAX,
                out@ == values_shifted_above(entries_map(s.take(i as int)), bound),
            decreases s.len() - i,
        {
            let ghost pre = s.take(i as int);
            assert(s.take(i + 1) == pre.push(s[i as int]));
            assert(distinct_keys(pre.push(s[i as int]))) by {
                assert forall|a: int, b: int| 0 <= a < i + 1 && 0 <= b < i + 1 && a != b implies
                    pre.push(s[i as int])[a].0@ != pre.push(s[i as int])[b].0@ by {
                    assert(pre.push(s[i as int])[a] == s[a]);
                    assert(pre.push(s[i as int])[b] == s[b]);
                }
            }
            proof {
                lemma_entries_map_push(pre, s[i as int]);
                lemma_position_unique(s, i as int);
            }
            let ghost k = s[i as int].0@;
            assert(!entries_map(pre).dom().contains(k)) by {
                if entries_map(pre).dom().contains(k) {
                    let j = choose|j: int| 0 <= j < pre.len() && pre[j].0@ == k;
                    assert(s[j].0@ == k);
                }
            }
            let key = self.entries[i].0.clone();
            let v = self.entries[i].1;
            if v > bound {
                assert(entries_map(s)[k] == v);
                out.insert(key, v + 1);
            } else {
                out.insert(key, v);
            }
            assert(out@ =~= values_shifted_above(entries_map(s.take(i + 1)), bound));
            i += 1;
        }
        assert(s.take(s.len() as int) =~= s);
        *self = out;
    }
}

impl<V: Clone> Clone for TextMap<V> {
    /// A copy with the same keys, each value cloned.
    fn clone(&self) -> (r: Self)
        ensures
            r@.dom() == self@.dom(),
            forall|k: Seq<char>| #[trigger] self@.dom().contains(k) ==> cloned(self@[k], r@[k]),
    {
        proof {
            use_type_invariant(self);
        }
        let ghost s = self.entries@;
        let mut out: Vec<(String, V)> = Vec::new();
        let mut i: usize = 0;
        while i < self.entries.len()
            invariant
                s == self.entries@,
                distinct_keys(s),
                i <= s.len(),
                out@.len() == i,
                forall|j: int| 0 <= j < i ==> (#[trigger] out@[j]).0@ == s[j].0@ && cloned(s[j].1, out@[j].1),
            decreases s.len() - i,
        {
            let k = self.entries[i].0.clone();
            let v = self.entries[i].1.clone();
            out.push((k, v));
            i += 1;
        }
        assert(distinct_keys(out@)) by {
            assert forall|a: int, b: int| 0 <= a < out@.len() && 0 <= b < out@.len() && a != b implies
                out@[a].0@ != out@[b].0@ by {
                assert(out@[a].0@ == s[a].0@);
                assert(out@[b].0@ == s[b].0@);
            }
        }
        let r = TextMap { entries: out };
        assert forall|k: Seq<char>| #![auto] r@.dom().contains(k) == self@.dom().contains(k) by {
            if r@.dom().contains(k) {
                let j = choose|j: int| 0 <= j < out@.len() && out@[j].0@ == k;
                assert(s[j].0@ == k);
            }
            if self@.dom().contains(k) {
                let j = choose|j: int| 0 <= j < s.len() && s[j].0@ == k;
                assert(out@[j].0@ == k);
            }
        }
        assert(r@.dom() =~= self@.dom());
        assert forall|k: Seq<char>| #[trigger] self@.dom().contains(k) implies cloned(self@[k], r@[k]) by {
            let j = choose|j: int| 0 <= j < s.len() && s[j].0@ == k;
            lemma_position_unique(s, j);
            lemma_position_unique(out@, j);
            assert(out@[j].0@ == k);
        }
        r
    }
}

impl<V> Default for TextMap<V> {
    /// An empty map.
    fn default() -> (m: Self)
        ensures
            m@ == Map::<Seq<char>, V>::empty(),
    {
        Self::new()
    }
}

} // verus!
