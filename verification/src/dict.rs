//! A small map keyed by strings, stored as parallel vectors with unique keys.
//!
//! Entries keep the order in which their keys were first inserted, so a walk
//! over the map is reproducible.

use vstd::prelude::*;

verus! {

/// Position of `key` in `keys`, arbitrary when the key does not occur.
pub open spec fn position(keys: Seq<String>, key: Seq<char>) -> int {
    choose|i: int| 0 <= i < keys.len() && keys[i]@ == key
}

/// `key` occurs in `keys`.
pub open spec fn occurs(keys: Seq<String>, key: Seq<char>) -> bool {
    exists|i: int| 0 <= i < keys.len() && keys[i]@ == key
}

/// No two positions of `keys` hold the same text.
pub open spec fn distinct(keys: Seq<String>) -> bool {
    forall|i: int, j: int| 0 <= i < j < keys.len() ==> keys[i]@ != keys[j]@
}

/// The map that parallel sequences of distinct keys and values stand for.
pub open spec fn as_map<V>(keys: Seq<String>, vals: Seq<V>) -> Map<Seq<char>, V> {
    Map::new(|k: Seq<char>| occurs(keys, k), |k: Seq<char>| vals[position(keys, k)])
}

/// With distinct keys, the position of a key is the one place where it stands.
pub proof fn lemma_position(keys: Seq<String>, i: int)
    requires
        distinct(keys),
        0 <= i < keys.len(),
    ensures
        occurs(keys, keys[i]@),
        position(keys, keys[i]@) == i,
{
    let p = position(keys, keys[i]@);
    assert(0 <= p < keys.len() && keys[p]@ == keys[i]@);
    if p < i {
        assert(keys[p]@ != keys[i]@);
    } else if i < p {
        assert(keys[i]@ != keys[p]@);
    }
}

/// Appending a fresh key inserts it into the map.
pub proof fn lemma_push<V>(keys: Seq<String>, vals: Seq<V>, key: String, value: V)
    requires
        distinct(keys),
        keys.len() == vals.len(),
        !occurs(keys, key@),
    ensures
        distinct(keys.push(key)),
        as_map(keys.push(key), vals.push(value)) == as_map(keys, vals).insert(key@, value),
{
    let keys2 = keys.push(key);
    let vals2 = vals.push(value);
    assert forall|i: int, j: int| 0 <= i < j < keys2.len() implies keys2[i]@ != keys2[j]@ by {
        if j == keys.len() {
            if keys[i]@ == key@ {
                assert(occurs(keys, key@));
            }
        } else {
            assert(keys[i]@ != keys[j]@);
        }
    }
    let m1 = as_map(keys2, vals2);
    let m2 = as_map(keys, vals).insert(key@, value);
    assert forall|k: Seq<char>| m1.contains_key(k) <==> m2.contains_key(k) by {
        if occurs(keys2, k) {
            let i = position(keys2, k);
            if i < keys.len() {
                assert(keys[i]@ == k);
            }
        }
        if occurs(keys, k) {
            let i = position(keys, k);
            assert(keys2[i]@ == k);
        }
        if k == key@ {
            assert(keys2[keys.len() as int]@ == k);
        }
    }
    assert forall|k: Seq<char>| m1.contains_key(k) implies m1[k] == m2[k] by {
        let i = position(keys2, k);
        lemma_position(keys2, i);
        if i < keys.len() {
            assert(keys[i]@ == k);
            lemma_position(keys, i);
        }
    }
    assert(m1 =~= m2);
}

/// Replacing the value at the position of a key overwrites it in the map.
pub proof fn lemma_update<V>(keys: Seq<String>, vals: Seq<V>, i: int, value: V)
    requires
        distinct(keys),
        keys.len() == vals.len(),
        0 <= i < keys.len(),
    ensures
        as_map(keys, vals.update(i, value)) == as_map(keys, vals).insert(keys[i]@, value),
{
    let m1 = as_map(keys, vals.update(i, value));
    let m2 = as_map(keys, vals).insert(keys[i]@, value);
    lemma_position(keys, i);
    assert forall|k: Seq<char>| m1.contains_key(k) implies m1[k] == m2[k] by {
        let p = position(keys, k);
        lemma_position(keys, p);
    }
    assert(m1 =~= m2);
}

/// A map from strings to values of type `V`.
#[derive(Clone, Debug)]
pub struct Dict<V> {
    keys: Vec<String>,
    vals: Vec<V>,
}

impl<V> Dict<V> {
    /// The keys, in the order of their first insertion.
    pub closed spec fn keys(&self) -> Seq<String> {
        self.keys@
    }

    /// The values, each at the position of its key.
    pub closed spec fn vals(&self) -> Seq<V> {
        self.vals@
    }

    /// Keys are distinct and each has its value.
    pub open spec fn wf(&self) -> bool {
        &&& self.keys().len() == self.vals().len()
        &&& distinct(self.keys())
    }

    /// The map this dictionary stands for.
    pub open spec fn view(&self) -> Map<Seq<char>, V> {
        as_map(self.keys(), self.vals())
    }

    /// Every stored pair is a pair of the map, and the map has no others.
    pub proof fn lemma_entries(&self)
        requires
            self.wf(),
        ensures
            forall|i: int|
                0 <= i < self.keys().len() ==> self@.contains_key(#[trigger] self.keys()[i]@)
                    && self@[self.keys()[i]@] == self.vals()[i],
            forall|k: Seq<char>| #[trigger]
                self@.contains_key(k) ==> 0 <= position(self.keys(), k) < self.keys().len()
                    && self.keys()[position(self.keys(), k)]@ == k,
    {
        assert forall|i: int| 0 <= i < self.keys().len() implies self@.contains_key(
            #[trigger] self.keys()[i]@,
        ) && self@[self.keys()[i]@] == self.vals()[i] by {
            lemma_position(self.keys(), i);
        }
    }

    /// The map made of the first `n` entries.
    pub open spec fn upto(&self, n: int) -> Map<Seq<char>, V> {
        as_map(self.keys().subrange(0, n), self.vals().subrange(0, n))
    }

    /// No entries make the empty map.
    pub proof fn lemma_upto_start(&self)
        ensures
            self.upto(0) == Map::<Seq<char>, V>::empty(),
    {
        assert(self.upto(0) =~= Map::<Seq<char>, V>::empty());
    }

    /// One more entry inserts its key, which the entries before it lack.
    pub proof fn lemma_upto_step(&self, i: int)
        requires
            self.wf(),
            0 <= i < self.keys().len(),
        ensures
            self.upto(i + 1) == self.upto(i).insert(self.keys()[i]@, self.vals()[i]),
            !self.upto(i).contains_key(self.keys()[i]@),
    {
        let ks = self.keys().subrange(0, i);
        let vs = self.vals().subrange(0, i);
        if occurs(ks, self.keys()[i]@) {
            let j = position(ks, self.keys()[i]@);
            assert(self.keys()[j]@ == self.keys()[i]@);
        }
        assert(distinct(ks)) by {
            assert forall|a: int, b: int| 0 <= a < b < ks.len() implies ks[a]@ != ks[b]@ by {
                assert(self.keys()[a]@ != self.keys()[b]@);
            }
        }
        lemma_push(ks, vs, self.keys()[i], self.vals()[i]);
        assert(ks.push(self.keys()[i]) =~= self.keys().subrange(0, i + 1));
        assert(vs.push(self.vals()[i]) =~= self.vals().subrange(0, i + 1));
    }

    /// All entries make the whole map.
    pub proof fn lemma_upto_end(&self)
        requires
            self.wf(),
        ensures
            self.upto(self.keys().len() as int) == self@,
    {
        assert(self.keys().subrange(0, self.keys().len() as int) =~= self.keys());
        assert(self.vals().subrange(0, self.vals().len() as int) =~= self.vals());
    }

    /// The map has as many keys as the dictionary has entries.
    pub proof fn lemma_len(&self)
        requires
            self.wf(),
        ensures
            self@.dom().finite(),
            self@.dom().len() == self.keys().len(),
    {
        let keys = self.keys();
        let codes = Seq::new(keys.len(), |i: int| keys[i]@);
        assert(codes.no_duplicates());
        assert forall|k: Seq<char>| codes.to_set().contains(k) <==> self@.dom().contains(k) by {
            if occurs(keys, k) {
                let p = position(keys, k);
                assert(codes[p] == k);
            }
            if codes.contains(k) {
                let p = choose|p: int| 0 <= p < codes.len() && codes[p] == k;
                assert(keys[p]@ == k);
            }
        }
        assert(codes.to_set() =~= self@.dom());
        codes.unique_seq_to_set();
    }

    /// The empty dictionary.
    pub fn new() -> (d: Self)
        ensures
            d.wf(),
            d@ == Map::<Seq<char>, V>::empty(),
            d.keys().len() == 0,
    {
        let d = Dict { keys: Vec::new(), vals: Vec::new() };
        assert(d@ =~= Map::<Seq<char>, V>::empty());
        d
    }

    /// Number of entries.
    pub fn len(&self) -> (n: usize)
        requires
            self.wf(),
        ensures
            n == self.keys().len(),
            n == self.vals().len(),
    {
        self.keys.len()
    }

    /// The key stored at position `i`.
    pub fn key_at(&self, i: usize) -> (k: &String)
        requires
            self.wf(),
            i < self.keys().len(),
        ensures
            *k == self.keys()[i as int],
    {
        &self.keys[i]
    }

    /// The value stored at position `i`.
    pub fn value_at(&self, i: usize) -> (v: &V)
        requires
            self.wf(),
            i < self.keys().len(),
        ensures
            *v == self.vals()[i as int],
    {
        &self.vals[i]
    }

    /// Position of `key`, if it is present.
    pub fn find(&self, key: &str) -> (r: Option<usize>)
        requires
            self.wf(),
        ensures
            r is Some <==> self@.contains_key(key@),
            r matches Some(i) ==> i < self.keys().len() && self.keys()[i as int]@ == key@
                && self@[key@] == self.vals()[i as int],
    {
        let wanted = key.to_owned();
        let mut i: usize = 0;
        while i < self.keys.len()
            invariant
                self.wf(),
                wanted@ == key@,
                i <= self.keys@.len(),
                forall|j: int| 0 <= j < i ==> self.keys@[j]@ != key@,
            decreases self.keys@.len() - i,
        {
            if self.keys[i] == wanted {
                proof {
                    lemma_position(self.keys@, i as int);
                }
                return Some(i);
            }
            i += 1;
        }
        None
    }

    /// The value stored under `key`, if any.
    pub fn get(&self, key: &str) -> (r: Option<&V>)
        requires
            self.wf(),
        ensures
            r is Some <==> self@.contains_key(key@),
            r matches Some(v) ==> *v == self@[key@],
    {
        match self.find(key) {
            Some(i) => Some(&self.vals[i]),
            None => None,
        }
    }

    /// Stores `value` under `key`, replacing what was stored there.
    pub fn insert(&mut self, key: String, value: V)
        requires
            old(self).wf(),
        ensures
            final(self).wf(),
            final(self)@ == old(self)@.insert(key@, value),
            forall|i: int|
                0 <= i < old(self).keys().len() ==> #[trigger] final(self).keys()[i] == old(
                    self,
                ).keys()[i],
            old(self).keys().len() <= final(self).keys().len(),
            old(self).keys().len() == 0 ==> final(self).keys() == seq![key],
    {
        match self.find(key.as_str()) {
            Some(i) => {
                proof {
                    lemma_update(self.keys@, self.vals@, i as int, value);
                }
                self.vals.set(i, value);
            },
            None => {
                proof {
                    lemma_push(self.keys@, self.vals@, key, value);
                }
                self.keys.push(key);
                self.vals.push(value);
                assert(old(self).keys().len() == 0 ==> self.keys@ =~= seq![key]);
            },
        }
    }

    /// The keys and the values, each value at the position of its key.
    pub fn into_parts(self) -> (r: (Vec<String>, Vec<V>))
        requires
            self.wf(),
        ensures
            r.0@ == self.keys(),
            r.1@ == self.vals(),
            r.0@.len() == r.1@.len(),
            distinct(r.0@),
            self@ == as_map(r.0@, r.1@),
    {
        (self.keys, self.vals)
    }

    /// Takes the entry that was inserted last out of the dictionary.
    pub fn pop(&mut self) -> (r: Option<(String, V)>)
        requires
            old(self).wf(),
        ensures
            final(self).wf(),
            old(self).keys().len() == 0 ==> r is None && final(self)@ == old(self)@,
            old(self).keys().len() > 0 ==> r is Some,
            r matches Some(e) ==> old(self)@.contains_key(e.0@) && old(self)@[e.0@] == e.1
                && final(self)@ == old(self)@.remove(e.0@) && final(self).keys().len() + 1 == old(
                self,
            ).keys().len(),
    {
        let ghost keys0 = self.keys@;
        let ghost vals0 = self.vals@;
        match self.keys.pop() {
            Some(key) => {
                let value = self.vals.pop().unwrap();
                proof {
                    let ks = self.keys@;
                    let vs = self.vals@;
                    assert(ks =~= keys0.drop_last());
                    assert(vs =~= vals0.drop_last());
                    assert(distinct(ks)) by {
                        assert forall|a: int, b: int| 0 <= a < b < ks.len() implies ks[a]@
                            != ks[b]@ by {
                            assert(keys0[a]@ != keys0[b]@);
                        }
                    }
                    if occurs(ks, key@) {
                        let j = position(ks, key@);
                        assert(keys0[j]@ != keys0[keys0.len() - 1]@);
                    }
                    lemma_push(ks, vs, key, value);
                    assert(ks.push(key) =~= keys0);
                    assert(vs.push(value) =~= vals0);
                    assert(as_map(ks, vs) =~= as_map(keys0, vals0).remove(key@));
                }
                Some((key, value))
            },
            None => None,
        }
    }
}

} // verus!
