//! An ordered map with text keys.

use vstd::prelude::*;

use crate::text;

verus! {

/// The keys of a list of entries.
pub open spec fn entry_keys<V>(entries: Seq<(String, V)>) -> Seq<Seq<char>> {
    entries.map_values(|e: (String, V)| e.0@)
}

/// A map from text to `V`, walked in lexicographic order of its keys.
pub struct TextMap<V> {
    entries: Vec<(String, V)>,
}

impl<V> TextMap<V> {
    #[verifier::type_invariant]
    spec fn well_formed(self) -> bool {
        text::strictly_ordered(entry_keys(self.entries@))
    }

    /// The keys, in order.
    pub closed spec fn keys(self) -> Seq<Seq<char>> {
        entry_keys(self.entries@)
    }

    /// The values, in the order of their keys.
    pub closed spec fn values(self) -> Seq<V> {
        self.entries@.map_values(|e: (String, V)| e.1)
    }

    pub open spec fn has(self, k: Seq<char>) -> bool {
        self.keys().contains(k)
    }
}

/// The map made of keys and the values at the same places.
pub open spec fn zipped<V>(keys: Seq<Seq<char>>, values: Seq<V>) -> Map<Seq<char>, V> {
    Map::new(|k: Seq<char>| keys.contains(k), |k: Seq<char>| values[keys.index_of(k)])
}

impl<V> View for TextMap<V> {
    type V = Map<Seq<char>, V>;

    open spec fn view(&self) -> Map<Seq<char>, V> {
        zipped(self.keys(), self.values())
    }
}

/// In a strictly ordered list each text stands once.
pub proof fn lemma_strict_unique(s: Seq<Seq<char>>, i: int, j: int)
    requires
        text::strictly_ordered(s),
        0 <= i < s.len(),
        0 <= j < s.len(),
        s[i] == s[j],
    ensures
        i == j,
{
    text::lemma_precedes_irreflexive(s[i]);
    if i < j {
        assert(text::precedes(s[i], s[j]));
    } else if j < i {
        assert(text::precedes(s[j], s[i]));
    }
}

/// The value that a map holds at the place of a key.
pub proof fn lemma_zipped_at<V>(keys: Seq<Seq<char>>, values: Seq<V>, i: int)
    requires
        text::strictly_ordered(keys),
        0 <= i < keys.len(),
    ensures
        zipped(keys, values).dom().contains(keys[i]),
        zipped(keys, values)[keys[i]] == values[i],
{
    assert(keys.contains(keys[i]));
    lemma_strict_unique(keys, keys.index_of(keys[i]), i);
}

impl<V> TextMap<V> {
    pub fn new() -> (r: Self)
        ensures
            r@ == Map::<Seq<char>, V>::empty(),
            r.keys() == Seq::<Seq<char>>::empty(),
    {
        let r = TextMap { entries: Vec::new() };
        assert(r@ =~= Map::<Seq<char>, V>::empty());
        r
    }

    /// The number of entries.
    pub fn len(&self) -> (r: usize)
        ensures
            r == self.keys().len(),
            r == self.values().len(),
            text::strictly_ordered(self.keys()),
            forall|i: int|
                0 <= i < r ==> self@.dom().contains(#[trigger] self.keys()[i])
                    && self@[self.keys()[i]] == self.values()[i],
    {
        proof {
            use_type_invariant(self);
            assert forall|i: int| 0 <= i < self.keys().len() implies self@.dom().contains(
                #[trigger] self.keys()[i],
            ) && self@[self.keys()[i]] == self.values()[i] by {
                lemma_zipped_at(self.keys(), self.values(), i);
            }
        }
        self.entries.len()
    }

    /// The key at place `i`.
    pub fn key_at(&self, i: usize) -> (r: &String)
        requires
            i < self.keys().len(),
        ensures
            r@ == self.keys()[i as int],
    {
        &self.entries[i].0
    }

    /// The value at place `i`.
    pub fn value_at(&self, i: usize) -> (r: &V)
        requires
            i < self.keys().len(),
        ensures
            *r == self.values()[i as int],
            self@[self.keys()[i as int]] == *r,
    {
        proof {
            use_type_invariant(self);
            lemma_zipped_at(self.keys(), self.values(), i as int);
        }
        &self.entries[i].1
    }

    /// The place of `k`, or the place where it would go.
    fn place(&self, k: &str) -> (r: (usize, bool))
        ensures
            r.0 <= self.entries@.len(),
            forall|j: int| 0 <= j < r.0 ==> text::precedes(self.keys()[j], k@),
            r.1 ==> r.0 < self.entries@.len() && self.keys()[r.0 as int] == k@,
            !r.1 ==> forall|j: int|
                r.0 <= j < self.entries@.len() ==> text::precedes(k@, #[trigger] self.keys()[j]),
    {
        proof {
            use_type_invariant(self);
        }
        let mut i: usize = 0;
        while i < self.entries.len() && text::before(self.entries[i].0.as_str(), k)
            invariant
                i <= self.entries@.len(),
                forall|j: int| 0 <= j < i ==> text::precedes(self.keys()[j], k@),
            decreases self.entries@.len() - i,
        {
            i += 1;
        }
        if i < self.entries.len() {
            let found = text::same(self.entries[i].0.as_str(), k);
            proof {
                text::lemma_precedes_total(self.keys()[i as int], k@);
                if !found {
                    assert forall|j: int| i <= j < self.entries@.len() implies text::precedes(
                        k@,
                        #[trigger] self.keys()[j],
                    ) by {
                        if i < j {
                            text::lemma_precedes_transitive(k@, self.keys()[i as int], self.keys()[j]);
                        }
                    }
                }
            }
            (i, found)
        } else {
            (i, false)
        }
    }

    /// The value of `k`, if there is one.
    pub fn get(&self, k: &str) -> (r: Option<&V>)
        ensures
            match r {
                Some(v) => self@.dom().contains(k@) && self@[k@] == *v,
                None => !self@.dom().contains(k@),
            },
            r is Some == self.has(k@),
    {
        proof {
            use_type_invariant(self);
        }
        let p = self.place(k);
        if p.1 {
            proof {
                lemma_zipped_at(self.keys(), self.values(), p.0 as int);
            }
            Some(&self.entries[p.0].1)
        } else {
            proof {
                assert forall|j: int| 0 <= j < self.keys().len() implies self.keys()[j] != k@ by {
                    text::lemma_precedes_irreflexive(k@);
                    if j < p.0 {
                        assert(text::precedes(self.keys()[j], k@));
                    } else {
                        assert(text::precedes(k@, self.keys()[j]));
                    }
                }
            }
            None
        }
    }

    /// Whether `k` is a key.
    pub fn contains_key(&self, k: &str) -> (r: bool)
        ensures
            r == self@.dom().contains(k@),
            r == self.has(k@),
    {
        self.get(k).is_some()
    }

    /// Takes the value of `k` out, if there is one.
    pub fn remove(&mut self, k: &str) -> (r: Option<V>)
        ensures
            final(self)@ == old(self)@.remove(k@),
            match r {
                Some(v) => old(self)@.dom().contains(k@) && old(self)@[k@] == v,
                None => !old(self)@.dom().contains(k@),
            },
    {
        proof {
            use_type_invariant(&*self);
        }
        let p = self.place(k);
        let ghost keys = self.keys();
        let ghost values = self.values();
        if !p.1 {
            proof {
                assert forall|j: int| 0 <= j < keys.len() implies keys[j] != k@ by {
                    text::lemma_precedes_irreflexive(k@);
                    if j < p.0 {
                        assert(text::precedes(keys[j], k@));
                    } else {
                        assert(text::precedes(k@, keys[j]));
                    }
                }
                assert(self@.remove(k@) =~= self@);
            }
            return None;
        }
        let mut entries: Vec<(String, V)> = Vec::new();
        std::mem::swap(&mut entries, &mut self.entries);
        let taken = entries.remove(p.0);
        proof {
            let at = p.0 as int;
            let now_keys = entry_keys(entries@);
            let now = entries@.map_values(|e: (String, V)| e.1);
            assert(now_keys =~= keys.remove(at));
            assert(now =~= values.remove(at));
            lemma_zipped_at(keys, values, at);
            assert(taken.1 == values[at]);
            assert forall|i: int, j: int| 0 <= i < j < now_keys.len() implies text::precedes(
                #[trigger] now_keys[i],
                #[trigger] now_keys[j],
            ) by {
                let i0 = if i < at { i } else { i + 1 };
                let j0 = if j < at { j } else { j + 1 };
                assert(now_keys[i] == keys[i0] && now_keys[j] == keys[j0]);
            }
            assert(text::strictly_ordered(now_keys));
            assert forall|x: Seq<char>| #[trigger] now_keys.contains(x) == (keys.contains(x) && x
                != k@) by {
                if now_keys.contains(x) {
                    let i = now_keys.index_of(x);
                    let i0 = if i < at { i } else { i + 1 };
                    assert(keys[i0] == x);
                    if x == k@ {
                        lemma_strict_unique(keys, i0, at);
                    }
                }
                if keys.contains(x) && x != k@ {
                    let i = keys.index_of(x);
                    assert(now_keys[if i < at { i } else { i - 1 }] == x);
                }
            }
            assert forall|x: Seq<char>| now_keys.contains(x) implies (
            #[trigger] zipped(now_keys, now)[x]) == zipped(keys, values)[x] by {
                let i = now_keys.index_of(x);
                let i0 = if i < at { i } else { i + 1 };
                assert(keys[i0] == x && now[i] == values[i0]);
                lemma_zipped_at(keys, values, i0);
                lemma_zipped_at(now_keys, now, i);
            }
            assert(zipped(now_keys, now) =~= zipped(keys, values).remove(k@));
        }
        self.entries = entries;
        Some(taken.1)
    }

    /// Sets the value of `k`.
    pub fn insert(&mut self, k: String, v: V)
        ensures
            final(self)@ == old(self)@.insert(k@, v),
    {
        proof {
            use_type_invariant(&*self);
        }
        let p = self.place(k.as_str());
        let ghost keys = self.keys();
        let ghost values = self.values();
        let ghost key = k@;
        let mut entries: Vec<(String, V)> = Vec::new();
        std::mem::swap(&mut entries, &mut self.entries);
        if p.1 {
            entries.set(p.0, (k, v));
            proof {
                assert(entry_keys(entries@) =~= keys);
                let now = entries@.map_values(|e: (String, V)| e.1);
                assert(now =~= values.update(p.0 as int, v));
                lemma_zipped_at(keys, values, p.0 as int);
                lemma_zipped_at(keys, now, p.0 as int);
                assert forall|x: Seq<char>| keys.contains(x) implies (#[trigger] zipped(keys, now)[x])
                    == zipped(keys, values).insert(key, v)[x] by {
                    let i = keys.index_of(x);
                    lemma_zipped_at(keys, values, i);
                    lemma_zipped_at(keys, now, i);
                    if x != key {
                        assert(i != p.0);
                    }
                }
                assert(zipped(keys, now) =~= zipped(keys, values).insert(key, v));
            }
        } else {
            entries.insert(p.0, (k, v));
            proof {
                let at = p.0 as int;
                let now_keys = entry_keys(entries@);
                let now = entries@.map_values(|e: (String, V)| e.1);
                assert(now_keys =~= keys.insert(at, key));
                assert(now =~= values.insert(at, v));
                assert forall|i: int, j: int| 0 <= i < j < now_keys.len() implies text::precedes(
                    #[trigger] now_keys[i],
                    #[trigger] now_keys[j],
                ) by {
                    let i0 = if i < at { i } else { i - 1 };
                    let j0 = if j < at { j } else { j - 1 };
                    assert(i != at ==> now_keys[i] == keys[i0]);
                    assert(j != at ==> now_keys[j] == keys[j0]);
                    if i == at {
                        assert(text::precedes(key, keys[j0]));
                    } else if j == at {
                        assert(text::precedes(keys[i0], key));
                    }
                }
                assert(text::strictly_ordered(now_keys));
                assert(now_keys[at] == key && now[at] == v);
                lemma_zipped_at(now_keys, now, at);
                assert forall|x: Seq<char>| x != key implies (#[trigger] now_keys.contains(x))
                    == keys.contains(x) by {
                    if keys.contains(x) {
                        let i = keys.index_of(x);
                        assert(now_keys[if i < at { i } else { i + 1 }] == x);
                    }
                    if now_keys.contains(x) {
                        let i = now_keys.index_of(x);
                        assert(keys[if i < at { i } else { i - 1 }] == x);
                    }
                }
                assert forall|x: Seq<char>| keys.contains(x) && x != key implies (
                #[trigger] zipped(now_keys, now)[x]) == zipped(keys, values)[x] by {
                    let i = keys.index_of(x);
                    let i1 = if i < at { i } else { i + 1 };
                    assert(now_keys[i1] == x && now[i1] == values[i]);
                    lemma_zipped_at(keys, values, i);
                    lemma_zipped_at(now_keys, now, i1);
                }
                assert(zipped(now_keys, now) =~= zipped(keys, values).insert(key, v));
            }
        }
        self.entries = entries;
    }
}

} // verus!
