//! The attribute mapping of a feature: string keys to string values, kept in
//! the order in which the keys first appeared.

use vstd::prelude::*;

verus! {

/// A key with its value.
pub type Pair = (Seq<char>, Seq<char>);

/// Whether no key occurs twice among the pairs.
pub open spec fn distinct_keys(p: Seq<Pair>) -> bool {
    forall|i: int, j: int| 0 <= i < j < p.len() ==> (#[trigger] p[i]).0 != (#[trigger] p[j]).0
}

/// Whether some pair has the key `k`.
pub open spec fn has_key(p: Seq<Pair>, k: Seq<char>) -> bool {
    exists|i: int| 0 <= i < p.len() && (#[trigger] p[i]).0 == k
}

/// The position of a pair with the key `k`.
pub open spec fn index_of_key(p: Seq<Pair>, k: Seq<char>) -> int {
    choose|i: int| 0 <= i < p.len() && (#[trigger] p[i]).0 == k
}

/// The mapping that the pairs spell.
pub open spec fn map_of(p: Seq<Pair>) -> Map<Seq<char>, Seq<char>> {
    Map::new(|k: Seq<char>| has_key(p, k), |k: Seq<char>| p[index_of_key(p, k)].1)
}

/// The pairs after `k` was given the value `v`: a key that is there keeps its
/// place, a new key goes to the end.
pub open spec fn put(p: Seq<Pair>, k: Seq<char>, v: Seq<char>) -> Seq<Pair> {
    if has_key(p, k) {
        p.update(index_of_key(p, k), (k, v))
    } else {
        p.push((k, v))
    }
}

/// With distinct keys, each pair is an entry of the mapping.
pub proof fn lemma_map_lookup(p: Seq<Pair>, i: int)
    requires
        distinct_keys(p),
        0 <= i < p.len(),
    ensures
        map_of(p).contains_key(p[i].0),
        map_of(p)[p[i].0] == p[i].1,
{
    let k = p[i].0;
    assert(has_key(p, k));
    let j = index_of_key(p, k);
    assert(0 <= j < p.len() && p[j].0 == k);
    if i < j {
        assert(p[i].0 != p[j].0);
    } else if j < i {
        assert(p[j].0 != p[i].0);
    }
}

/// Appending a pair with a new key inserts it into the mapping.
pub proof fn lemma_map_push(p: Seq<Pair>, k: Seq<char>, v: Seq<char>)
    requires
        distinct_keys(p),
        !has_key(p, k),
    ensures
        distinct_keys(p.push((k, v))),
        map_of(p.push((k, v))) == map_of(p).insert(k, v),
{
    let q = p.push((k, v));
    assert forall|i: int, j: int| 0 <= i < j < q.len() implies (#[trigger] q[i]).0 != (
    #[trigger] q[j]).0 by {
        if j < p.len() {
            assert(p[i].0 != p[j].0);
        } else {
            assert(q[i] == p[i]);
            assert(q[j].0 == k);
        }
    }
    assert forall|x: Seq<char>| has_key(q, x) <==> (x == k || has_key(p, x)) by {
        if has_key(q, x) {
            let i = choose|i: int| 0 <= i < q.len() && (#[trigger] q[i]).0 == x;
            if i < p.len() {
                assert(p[i] == q[i]);
            }
        }
        if x == k {
            assert(q[p.len() as int].0 == k);
        }
        if has_key(p, x) {
            let i = choose|i: int| 0 <= i < p.len() && (#[trigger] p[i]).0 == x;
            assert(q[i] == p[i]);
        }
    }
    assert forall|x: Seq<char>| has_key(q, x) implies map_of(q)[x] == map_of(p).insert(k, v)[x] by {
        let i = index_of_key(q, x);
        lemma_map_lookup(q, i);
        if x != k {
            assert(i < p.len());
            assert(q[i] == p[i]);
            lemma_map_lookup(p, i);
        } else {
            lemma_map_lookup(q, p.len() as int);
        }
    }
    assert(map_of(q) =~= map_of(p).insert(k, v));
}

/// Replacing the value of a pair replaces it in the mapping.
pub proof fn lemma_map_update(p: Seq<Pair>, i: int, v: Seq<char>)
    requires
        distinct_keys(p),
        0 <= i < p.len(),
    ensures
        distinct_keys(p.update(i, (p[i].0, v))),
        map_of(p.update(i, (p[i].0, v))) == map_of(p).insert(p[i].0, v),
{
    let k = p[i].0;
    let q = p.update(i, (k, v));
    assert forall|a: int, b: int| 0 <= a < b < q.len() implies (#[trigger] q[a]).0 != (
    #[trigger] q[b]).0 by {
        assert(q[a].0 == p[a].0);
        assert(q[b].0 == p[b].0);
        assert(p[a].0 != p[b].0);
    }
    assert forall|x: Seq<char>| has_key(q, x) <==> has_key(p, x) by {
        if has_key(q, x) {
            let j = choose|j: int| 0 <= j < q.len() && (#[trigger] q[j]).0 == x;
            assert(p[j].0 == x);
        }
        if has_key(p, x) {
            let j = choose|j: int| 0 <= j < p.len() && (#[trigger] p[j]).0 == x;
            assert(q[j].0 == x);
        }
    }
    lemma_map_lookup(p, i);
    assert forall|x: Seq<char>| has_key(q, x) implies map_of(q)[x] == map_of(p).insert(k, v)[x] by {
        let j = index_of_key(q, x);
        lemma_map_lookup(q, j);
        if x != k {
            assert(j != i);
            assert(q[j] == p[j]);
            lemma_map_lookup(p, j);
        } else {
            lemma_map_lookup(q, i);
        }
    }
    assert(map_of(q) =~= map_of(p).insert(k, v));
}

/// Taking a pair out removes its key from the mapping.
pub proof fn lemma_map_remove(p: Seq<Pair>, i: int)
    requires
        distinct_keys(p),
        0 <= i < p.len(),
    ensures
        distinct_keys(p.remove(i)),
        map_of(p.remove(i)) == map_of(p).remove(p[i].0),
{
    let k = p[i].0;
    let q = p.remove(i);
    assert forall|a: int| 0 <= a < q.len() implies #[trigger] q[a] == p[if a < i {
        a
    } else {
        a + 1
    }] by {}
    assert forall|a: int, b: int| 0 <= a < b < q.len() implies (#[trigger] q[a]).0 != (
    #[trigger] q[b]).0 by {
        let a1 = if a < i {
            a
        } else {
            a + 1
        };
        let b1 = if b < i {
            b
        } else {
            b + 1
        };
        assert(q[a] == p[a1] && q[b] == p[b1]);
        assert(p[a1].0 != p[b1].0);
    }
    assert forall|x: Seq<char>| has_key(q, x) <==> (x != k && has_key(p, x)) by {
        if has_key(q, x) {
            let j = choose|j: int| 0 <= j < q.len() && (#[trigger] q[j]).0 == x;
            let j1 = if j < i {
                j
            } else {
                j + 1
            };
            assert(q[j] == p[j1]);
            assert(p[j1].0 == x);
            if j1 < i {
                assert(p[j1].0 != p[i].0);
            } else {
                assert(p[i].0 != p[j1].0);
            }
        }
        if x != k && has_key(p, x) {
            let j = choose|j: int| 0 <= j < p.len() && (#[trigger] p[j]).0 == x;
            assert(j != i);
            let j0 = if j < i {
                j
            } else {
                j - 1
            };
            assert(q[j0] == p[j]);
        }
    }
    assert forall|x: Seq<char>| has_key(q, x) implies map_of(q)[x] == map_of(p).remove(k)[x] by {
        let j = index_of_key(q, x);
        lemma_map_lookup(q, j);
        let j1 = if j < i {
            j
        } else {
            j + 1
        };
        assert(q[j] == p[j1]);
        lemma_map_lookup(p, j1);
    }
    assert(map_of(q) =~= map_of(p).remove(k));
}

/// With distinct keys the mapping has as many entries as there are pairs.
pub proof fn lemma_map_len(p: Seq<Pair>)
    requires
        distinct_keys(p),
    ensures
        map_of(p).dom().finite(),
        map_of(p).len() == p.len(),
    decreases p.len(),
{
    if p.len() == 0 {
        assert(map_of(p) =~= Map::<Seq<char>, Seq<char>>::empty());
    } else {
        let q = p.drop_last();
        let (k, v) = p.last();
        assert forall|i: int, j: int| 0 <= i < j < q.len() implies (#[trigger] q[i]).0 != (
        #[trigger] q[j]).0 by {
            assert(p[i].0 != p[j].0);
        }
        assert(!has_key(q, k)) by {
            if has_key(q, k) {
                let i = choose|i: int| 0 <= i < q.len() && (#[trigger] q[i]).0 == k;
                assert(p[i].0 != p[p.len() - 1].0);
            }
        }
        lemma_map_len(q);
        lemma_map_push(q, k, v);
        assert(q.push((k, v)) =~= p);
        assert(map_of(p).dom() =~= map_of(q).dom().insert(k));
    }
}

/// An attribute mapping. No key occurs twice; the pairs keep the order in
/// which their keys were first inserted.
#[derive(Debug)]
pub struct Attributes {
    entries: Vec<(String, String)>,
}

impl View for Attributes {
    type V = Map<Seq<char>, Seq<char>>;

    open spec fn view(&self) -> Map<Seq<char>, Seq<char>> {
        map_of(self.pairs())
    }
}

impl Attributes {
    /// The pairs in insertion order.
    pub closed spec fn pairs(&self) -> Seq<Pair> {
        Seq::new(self.entries@.len(), |i: int| (self.entries@[i].0@, self.entries@[i].1@))
    }

    #[verifier::type_invariant]
    spec fn distinct(&self) -> bool {
        distinct_keys(self.pairs())
    }

    /// The empty mapping.
    pub fn new() -> (r: Attributes)
        ensures
            r.pairs() == Seq::<Pair>::empty(),
            r@ == Map::<Seq<char>, Seq<char>>::empty(),
    {
        let r = Attributes { entries: Vec::new() };
        proof {
            assert(r.pairs() =~= Seq::<Pair>::empty());
            assert(r@ =~= Map::<Seq<char>, Seq<char>>::empty());
        }
        r
    }

    /// The number of keys.
    pub fn len(&self) -> (n: usize)
        ensures
            n == self.pairs().len(),
            n == self@.len(),
            distinct_keys(self.pairs()),
    {
        proof {
            use_type_invariant(self);
            lemma_map_len(self.pairs());
        }
        self.entries.len()
    }

    /// Whether the mapping has no key.
    pub fn is_empty(&self) -> (b: bool)
        ensures
            b == (self.pairs().len() == 0),
            b == (self@.len() == 0),
    {
        self.len() == 0
    }

    /// The position of `key` among the pairs, if it is there.
    fn position(&self, key: &String) -> (r: Option<usize>)
        ensures
            match r {
                Some(i) => i < self.pairs().len() && self.pairs()[i as int].0 == key@,
                None => !has_key(self.pairs(), key@),
            },
    {
        let mut i: usize = 0;
        while i < self.entries.len()
            invariant
                i <= self.entries@.len(),
                forall|j: int| 0 <= j < i ==> (#[trigger] self.pairs()[j]).0 != key@,
            decreases self.entries@.len() - i,
        {
            if self.entries[i].0 == *key {
                return Some(i);
            }
            i += 1;
        }
        None
    }

    /// Whether `key` has a value.
    pub fn contains_key(&self, key: &str) -> (b: bool)
        ensures
            b == self@.contains_key(key@),
    {
        let k = key.to_owned();
        self.position(&k).is_some()
    }

    /// The value of `key`, if it has one.
    pub fn get(&self, key: &str) -> (r: Option<&String>)
        ensures
            match r {
                Some(v) => self@.contains_key(key@) && v@ == self@[key@],
                None => !self@.contains_key(key@),
            },
    {
        let k = key.to_owned();
        match self.position(&k) {
            Some(i) => {
                proof {
                    use_type_invariant(self);
                    lemma_map_lookup(self.pairs(), i as int);
                }
                Some(&self.entries[i].1)
            },
            None => None,
        }
    }

    /// The key of the pair at position `i`.
    pub fn key_at(&self, i: usize) -> (k: &String)
        requires
            i < self.pairs().len(),
        ensures
            k@ == self.pairs()[i as int].0,
    {
        &self.entries[i].0
    }

    /// The value of the pair at position `i`.
    pub fn value_at(&self, i: usize) -> (v: &String)
        requires
            i < self.pairs().len(),
        ensures
            v@ == self.pairs()[i as int].1,
    {
        &self.entries[i].1
    }

    /// Gives `key` the value `value`. A key that had a value keeps its place
    /// among the pairs; a new key goes to the end.
    pub fn insert(&mut self, key: String, value: String)
        ensures
            final(self)@ == old(self)@.insert(key@, value@),
            final(self).pairs() == put(old(self).pairs(), key@, value@),
    {
        proof {
            use_type_invariant(&*self);
        }
        let ghost before = self.pairs();
        match self.position(&key) {
            Some(i) => {
                proof {
                    lemma_map_update(before, i as int, value@);
                    lemma_map_lookup(before, i as int);
                    let j = index_of_key(before, key@);
                    if j < i {
                        assert(before[j].0 != before[i as int].0);
                    } else if i < j {
                        assert(before[i as int].0 != before[j].0);
                    }
                }
                let mut entries: Vec<(String, String)> = Vec::new();
                std::mem::swap(&mut self.entries, &mut entries);
                entries.set(i, (key, value));
                proof {
                    assert(Seq::new(entries@.len(), |j: int| (entries@[j].0@, entries@[j].1@))
                        =~= before.update(i as int, (key@, value@)));
                }
                std::mem::swap(&mut self.entries, &mut entries);
            },
            None => {
                proof {
                    lemma_map_push(before, key@, value@);
                }
                let mut entries: Vec<(String, String)> = Vec::new();
                std::mem::swap(&mut self.entries, &mut entries);
                entries.push((key, value));
                proof {
                    assert(Seq::new(entries@.len(), |j: int| (entries@[j].0@, entries@[j].1@))
                        =~= before.push((key@, value@)));
                }
                std::mem::swap(&mut self.entries, &mut entries);
            },
        }
    }

    /// Takes `key` out of the mapping and returns the value it had.
    pub fn remove(&mut self, key: &str) -> (r: Option<String>)
        ensures
            final(self)@ == old(self)@.remove(key@),
            match r {
                Some(v) => old(self)@.contains_key(key@) && v@ == old(self)@[key@]
                    && final(self).pairs() == old(self).pairs().remove(
                    index_of_key(old(self).pairs(), key@),
                ),
                None => !old(self)@.contains_key(key@) && final(self).pairs() == old(self).pairs(),
            },
    {
        proof {
            use_type_invariant(&*self);
        }
        let ghost before = self.pairs();
        let k = key.to_owned();
        match self.position(&k) {
            Some(i) => {
                proof {
                    lemma_map_remove(before, i as int);
                    lemma_map_lookup(before, i as int);
                    let j = index_of_key(before, key@);
                    if j < i {
                        assert(before[j].0 != before[i as int].0);
                    } else if i < j {
                        assert(before[i as int].0 != before[j].0);
                    }
                }
                let mut entries: Vec<(String, String)> = Vec::new();
                std::mem::swap(&mut self.entries, &mut entries);
                let pair = entries.remove(i);
                proof {
                    assert(Seq::new(entries@.len(), |j: int| (entries@[j].0@, entries@[j].1@))
                        =~= before.remove(i as int));
                }
                std::mem::swap(&mut self.entries, &mut entries);
                Some(pair.1)
            },
            None => {
                proof {
                    assert(self@ =~= self@.remove(key@));
                }
                None
            },
        }
    }
}

impl Attributes {
    /// Whether every key of this mapping has the same value in `other`.
    pub open spec fn within(&self, other: &Attributes) -> bool {
        forall|k: Seq<char>| #[trigger]
            self@.contains_key(k) ==> other@.contains_key(k) && other@[k] == self@[k]
    }

    /// Decides whether every key of this mapping has the same value in
    /// `other`.
    pub fn included_in(&self, other: &Attributes) -> (b: bool)
        ensures
            b == self.within(other),
    {
        proof {
            use_type_invariant(self);
        }
        let mut i: usize = 0;
        while i < self.entries.len()
            invariant
                i <= self.entries@.len(),
                distinct_keys(self.pairs()),
                forall|j: int|
                    0 <= j < i ==> other@.contains_key((#[trigger] self.pairs()[j]).0)
                        && other@[self.pairs()[j].0] == self.pairs()[j].1,
            decreases self.entries@.len() - i,
        {
            proof {
                lemma_map_lookup(self.pairs(), i as int);
            }
            let found = match other.get(self.entries[i].0.as_str()) {
                Some(v) => *v == self.entries[i].1,
                None => false,
            };
            if !found {
                proof {
                    let k = self.pairs()[i as int].0;
                    assert(k == self.entries@[i as int].0@);
                    assert(self@.contains_key(k));
                    assert(self@[k] == self.entries@[i as int].1@);
                    assert(!(other@.contains_key(k) && other@[k] == self@[k]));
                }
                return false;
            }
            i += 1;
        }
        proof {
            assert forall|k: Seq<char>| #[trigger]
                self@.contains_key(k) implies other@.contains_key(k) && other@[k] == self@[k] by {
                let j = index_of_key(self.pairs(), k);
                lemma_map_lookup(self.pairs(), j);
                assert(self.pairs()[j].0 == k);
            }
        }
        true
    }

    /// Whether the two mappings have the same keys with the same values.
    pub fn same(&self, other: &Attributes) -> (b: bool)
        ensures
            b == (self@ == other@),
    {
        let b = self.included_in(other) && other.included_in(self);
        proof {
            if b {
                assert(self@ =~= other@);
            }
        }
        b
    }
}

impl Clone for Attributes {
    fn clone(&self) -> (r: Attributes)
        ensures
            r.pairs() == self.pairs(),
            r@ == self@,
    {
        proof {
            use_type_invariant(self);
        }
        let mut entries: Vec<(String, String)> = Vec::new();
        let mut i: usize = 0;
        while i < self.entries.len()
            invariant
                i <= self.entries@.len(),
                entries@.len() == i,
                forall|j: int|
                    0 <= j < i ==> (#[trigger] entries@[j]).0@ == self.entries@[j].0@
                        && entries@[j].1@ == self.entries@[j].1@,
            decreases self.entries@.len() - i,
        {
            let k = self.entries[i].0.clone();
            let v = self.entries[i].1.clone();
            entries.push((k, v));
            i += 1;
        }
        let ghost copied = Seq::new(entries@.len(), |j: int| (entries@[j].0@, entries@[j].1@));
        proof {
            assert(copied =~= self.pairs());
        }
        let r = Attributes { entries };
        proof {
            assert(r.pairs() =~= copied);
        }
        r
    }
}

} // verus!
