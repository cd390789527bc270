//! A map keyed by strings, kept as parallel vectors of keys and values in the order
//! the keys were first inserted.
use vstd::prelude::*;

use crate::text::str_eq;

verus! {

/// A finite map from strings to values that remembers the order in which keys arrived.
#[derive(Debug)]
pub struct StrMap<V> {
    keys: Vec<String>,
    vals: Vec<V>,
}

impl<V> StrMap<V> {
    /// The keys, in the order they arrived.
    pub closed spec fn key_order(&self) -> Seq<Seq<char>> {
        self.keys@.map_values(|k: String| k@)
    }

    /// The values, in the order of their keys.
    pub closed spec fn values(&self) -> Seq<V> {
        self.vals@
    }

    /// Keys and values line up and no key occurs twice.
    pub closed spec fn wf(&self) -> bool {
        &&& self.keys@.len() == self.vals@.len()
        &&& self.key_order().no_duplicates()
    }

    /// The map the vectors stand for.
    pub closed spec fn as_map(&self) -> Map<Seq<char>, V> {
        Map::new(
            |k: Seq<char>| self.key_order().contains(k),
            |k: Seq<char>| self.vals@[self.key_order().index_of(k)],
        )
    }
}

impl<V> View for StrMap<V> {
    type V = Map<Seq<char>, V>;

    open spec fn view(&self) -> Map<Seq<char>, V> {
        self.as_map()
    }
}

/// In a sequence without duplicates, the index of an element is its position.
pub proof fn lemma_index_unique(s: Seq<Seq<char>>, i: int)
    requires
        s.no_duplicates(),
        0 <= i < s.len(),
    ensures
        s.index_of(s[i]) == i,
{
    assert(s.contains(s[i]));
    let j = s.index_of(s[i]);
    assert(0 <= j < s.len() && s[j] == s[i]);
}

impl<V> StrMap<V> {
    /// How the map relates to its key order and values.
    pub proof fn lemma_view(&self)
        requires
            self.wf(),
        ensures
            self.key_order().len() == self.values().len(),
            forall|i: int|
                0 <= i < self.key_order().len() ==> #[trigger] self@.contains_key(self.key_order()[i])
                    && self@[self.key_order()[i]] == self.values()[i],
            forall|k: Seq<char>| #[trigger] self@.contains_key(k) <==> self.key_order().contains(k),
            self@.dom() == self.key_order().to_set(),
            self@.dom().finite(),
            self.key_order().no_duplicates(),
    {
        assert forall|i: int| 0 <= i < self.key_order().len() implies #[trigger] self@.contains_key(
            self.key_order()[i],
        ) && self@[self.key_order()[i]] == self.values()[i] by {
            lemma_index_unique(self.key_order(), i);
        }
        assert(self@.dom() =~= self.key_order().to_set());
        vstd::seq_lib::seq_to_set_is_finite(self.key_order());
    }

    /// An empty map.
    pub fn new() -> (m: Self)
        ensures
            m.wf(),
            m@ == Map::<Seq<char>, V>::empty(),
            m.key_order() == Seq::<Seq<char>>::empty(),
    {
        let m = StrMap { keys: Vec::new(), vals: Vec::new() };
        assert(m.key_order() =~= Seq::<Seq<char>>::empty());
        assert(m@ =~= Map::<Seq<char>, V>::empty());
        m
    }

    /// The number of keys.
    pub fn len(&self) -> (n: usize)
        requires
            self.wf(),
        ensures
            n == self.key_order().len(),
            n == self@.len(),
    {
        proof {
            self.lemma_view();
            self.key_order().unique_seq_to_set();
        }
        self.keys.len()
    }

    /// The position of key `k`, if present.
    pub fn find(&self, k: &str) -> (r: Option<usize>)
        requires
            self.wf(),
        ensures
            match r {
                Some(i) => i < self.key_order().len() && self.key_order()[i as int] == k@,
                None => !self@.contains_key(k@),
            },
    {
        proof {
            self.lemma_view();
        }
        let mut i: usize = 0;
        while i < self.keys.len()
            invariant
                self.wf(),
                i <= self.keys@.len(),
                forall|j: int| 0 <= j < i ==> self.key_order()[j] != k@,
            decreases self.keys.len() - i,
        {
            if str_eq(self.keys[i].as_str(), k) {
                return Some(i);
            }
            i = i + 1;
        }
        None
    }

    /// Whether key `k` is present.
    pub fn contains_key(&self, k: &str) -> (b: bool)
        requires
            self.wf(),
        ensures
            b == self@.contains_key(k@),
    {
        proof {
            self.lemma_view();
        }
        match self.find(k) {
            Some(i) => true,
            None => false,
        }
    }

    /// The value of key `k`, if present.
    pub fn get(&self, k: &str) -> (r: Option<&V>)
        requires
            self.wf(),
        ensures
            r is Some <==> self@.contains_key(k@),
            r matches Some(v) ==> *v == self@[k@],
    {
        proof {
            self.lemma_view();
        }
        match self.find(k) {
            Some(i) => Some(&self.vals[i]),
            None => None,
        }
    }

    /// The key at position `i`.
    pub fn key_at(&self, i: usize) -> (k: &String)
        requires
            self.wf(),
            i < self.key_order().len(),
        ensures
            k@ == self.key_order()[i as int],
    {
        &self.keys[i]
    }

    /// The value at position `i`.
    pub fn val_at(&self, i: usize) -> (v: &V)
        requires
            self.wf(),
            i < self.key_order().len(),
        ensures
            *v == self.values()[i as int],
            *v == self@[self.key_order()[i as int]],
    {
        proof {
            self.lemma_view();
        }
        &self.vals[i]
    }

    /// Maps key `k` to `v`; a new key goes last in the key order.
    pub fn insert(&mut self, k: String, v: V)
        requires
            old(self).wf(),
        ensures
            final(self).wf(),
            final(self)@ == old(self)@.insert(k@, v),
            old(self)@.contains_key(k@) ==> final(self).key_order() == old(self).key_order(),
            !old(self)@.contains_key(k@) ==> final(self).key_order() == old(self).key_order().push(
                k@,
            ),
    {
        proof {
            self.lemma_view();
        }
        match self.find(k.as_str()) {
            Some(i) => {
                self.vals.set(i, v);
                proof {
                    assert(self.key_order() =~= old(self).key_order());
                    assert forall|kk: Seq<char>| #![auto]
                        self@.contains_key(kk) == old(self)@.insert(k@, v).contains_key(kk) by {}
                    assert forall|kk: Seq<char>| #![auto] self@.contains_key(kk) implies self@[kk]
                        == old(self)@.insert(k@, v)[kk] by {
                        let j = self.key_order().index_of(kk);
                        lemma_index_unique(self.key_order(), i as int);
                        if kk != k@ {
                            assert(j != i);
                        }
                    }
                    assert(self@ =~= old(self)@.insert(k@, v));
                }
            },
            None => {
                let ghost kv = k@;
                self.keys.push(k);
                self.vals.push(v);
                proof {
                    assert(self.key_order() =~= old(self).key_order().push(kv));
                    assert(!old(self).key_order().contains(kv));
                    assert forall|a: int, b: int|
                        0 <= a < self.key_order().len() && 0 <= b < self.key_order().len() && a
                            != b implies self.key_order()[a] != self.key_order()[b] by {
                        if a == self.key_order().len() - 1 {
                            assert(old(self).key_order().contains(self.key_order()[b]) || b == a);
                        } else if b == self.key_order().len() - 1 {
                            assert(old(self).key_order().contains(self.key_order()[a]));
                        }
                    }
                    self.lemma_view();
                    assert forall|kk: Seq<char>| #![auto]
                        self@.contains_key(kk) == old(self)@.insert(kv, v).contains_key(kk) by {
                        if old(self).key_order().contains(kk) {
                            let j = old(self).key_order().index_of(kk);
                            assert(self.key_order()[j] == kk);
                        }
                        if self.key_order().contains(kk) && kk != kv {
                            let j = self.key_order().index_of(kk);
                            assert(old(self).key_order()[j] == kk);
                        }
                        if kk == kv {
                            assert(self.key_order()[self.key_order().len() - 1] == kk);
                        }
                    }
                    assert forall|kk: Seq<char>| #![auto] self@.contains_key(kk) implies self@[kk]
                        == old(self)@.insert(kv, v)[kk] by {
                        if kk == kv {
                            assert(self.key_order()[self.key_order().len() - 1] == kv);
                        } else {
                            let j = old(self).key_order().index_of(kk);
                            assert(self.key_order()[j] == kk);
                            lemma_index_unique(old(self).key_order(), j);
                        }
                    }
                    assert(self@ =~= old(self)@.insert(kv, v));
                }
            },
        }
    }

    /// Removes key `k` and hands back its value; the other keys keep their order.
    pub fn remove(&mut self, k: &str) -> (r: Option<V>)
        requires
            old(self).wf(),
        ensures
            final(self).wf(),
            final(self)@ == old(self)@.remove(k@),
            r is Some <==> old(self)@.contains_key(k@),
            r matches Some(v) ==> v == old(self)@[k@],
            !old(self)@.contains_key(k@) ==> final(self).key_order() == old(self).key_order(),
    {
        proof {
            self.lemma_view();
        }
        match self.find(k) {
            Some(i) => {
                let ghost ko = self.key_order();
                let _ = self.keys.remove(i);
                let v = self.vals.remove(i);
                proof {
                    assert(self.key_order() =~= ko.remove(i as int));
                    assert forall|a: int, b: int|
                        0 <= a < self.key_order().len() && 0 <= b < self.key_order().len() && a
                            != b implies self.key_order()[a] != self.key_order()[b] by {
                        let a2 = if a < i { a } else { a + 1 };
                        let b2 = if b < i { b } else { b + 1 };
                        assert(self.key_order()[a] == ko[a2]);
                        assert(self.key_order()[b] == ko[b2]);
                    }
                    self.lemma_view();
                    assert forall|kk: Seq<char>| #![auto]
                        self@.contains_key(kk) == old(self)@.remove(k@).contains_key(kk) by {
                        if ko.contains(kk) && kk != k@ {
                            let j = ko.index_of(kk);
                            assert(j != i);
                            let j2 = if j < i { j } else { j - 1 };
                            assert(self.key_order()[j2] == kk);
                        }
                        if self.key_order().contains(kk) {
                            let j = self.key_order().index_of(kk);
                            let j2 = if j < i { j } else { j + 1 };
                            assert(ko[j2] == kk);
                            assert(j2 != i);
                        }
                    }
                    assert forall|kk: Seq<char>| #![auto] self@.contains_key(kk) implies self@[kk]
                        == old(self)@.remove(k@)[kk] by {
                        let j = self.key_order().index_of(kk);
                        let j2 = if j < i { j } else { j + 1 };
                        assert(ko[j2] == kk);
                        lemma_index_unique(ko, j2);
                    }
                    assert(self@ =~= old(self)@.remove(k@));
                    lemma_index_unique(ko, i as int);
                }
                Some(v)
            },
            None => {
                proof {
                    assert(self@ =~= old(self)@.remove(k@));
                }
                None
            },
        }
    }
}

impl<V> StrMap<V> {
    /// The keys, in key order.
    pub fn keys(&self) -> (r: Vec<String>)
        requires
            self.wf(),
        ensures
            r.deep_view() == self.key_order(),
    {
        let mut r: Vec<String> = Vec::new();
        let mut i: usize = 0;
        while i < self.keys.len()
            invariant
                self.wf(),
                i <= self.keys@.len(),
                r.deep_view() == self.key_order().subrange(0, i as int),
            decreases self.keys.len() - i,
        {
            let ghost before = r.deep_view();
            r.push(self.keys[i].clone());
            assert(r.deep_view() =~= before.push(self.key_order()[i as int]));
            i = i + 1;
            assert(r.deep_view() =~= self.key_order().subrange(0, i as int));
        }
        assert(self.key_order().subrange(0, i as int) =~= self.key_order());
        r
    }

    /// The keys at the marked positions, in key order, without repeats.
    pub fn keys_marked(&self, marks: &Vec<bool>) -> (r: Vec<String>)
        requires
            self.wf(),
            marks@.len() == self.key_order().len(),
        ensures
            r.deep_view().no_duplicates(),
            forall|k: Seq<char>| #[trigger]
                r.deep_view().contains(k) <==> (self@.contains_key(k) && marks@[
                    self.key_order().index_of(k)
                ]),
    {
        proof {
            self.lemma_view();
        }
        let mut r: Vec<String> = Vec::new();
        let mut i: usize = 0;
        while i < self.keys.len()
            invariant
                self.wf(),
                marks@.len() == self.key_order().len(),
                i <= self.keys@.len(),
                r.deep_view().no_duplicates(),
                forall|k: Seq<char>| #[trigger]
                    r.deep_view().contains(k) <==> exists|j: int|
                        0 <= j < i && self.key_order()[j] == k && marks@[j],
            decreases self.keys.len() - i,
        {
            if marks[i] {
                let ghost before = r.deep_view();
                let ghost ki = self.key_order()[i as int];
                r.push(self.keys[i].clone());
                proof {
                    assert(r.deep_view() =~= before.push(ki));
                    assert(!before.contains(ki)) by {
                        if before.contains(ki) {
                            let j = choose|j: int|
                                0 <= j < i && self.key_order()[j] == ki && marks@[j];
                            assert(self.key_order()[j] == self.key_order()[i as int]);
                        }
                    }
                    assert forall|a: int, b: int|
                        0 <= a < r.deep_view().len() && 0 <= b < r.deep_view().len() && a != b
                            implies r.deep_view()[a] != r.deep_view()[b] by {
                        if a == before.len() {
                            assert(before.contains(r.deep_view()[b]));
                        } else if b == before.len() {
                            assert(before.contains(r.deep_view()[a]));
                        }
                    }
                    assert forall|k: Seq<char>| #[trigger]
                        r.deep_view().contains(k) <==> exists|j: int|
                            0 <= j < i + 1 && self.key_order()[j] == k && marks@[j] by {
                        if r.deep_view().contains(k) && k != ki {
                            let t = choose|t: int| 0 <= t < r.deep_view().len() && r.deep_view()[t] == k;
                            assert(before[t] == k);
                            assert(before.contains(k));
                        }
                        if k == ki {
                            assert(r.deep_view()[before.len() as int] == k);
                        }
                        if exists|j: int| 0 <= j < i + 1 && self.key_order()[j] == k && marks@[j] {
                            if !(exists|j: int| 0 <= j < i && self.key_order()[j] == k && marks@[j]) {
                                assert(k == ki);
                            } else {
                                assert(before.contains(k));
                                let t = choose|t: int| 0 <= t < before.len() && before[t] == k;
                                assert(r.deep_view()[t] == k);
                            }
                        }
                    }
                }
            }
            i = i + 1;
        }
        proof {
            assert forall|k: Seq<char>| #[trigger]
                r.deep_view().contains(k) <==> (self@.contains_key(k) && marks@[
                    self.key_order().index_of(k)
                ]) by {
                if self@.contains_key(k) {
                    let j = self.key_order().index_of(k);
                    lemma_index_unique(self.key_order(), j);
                }
                if exists|j: int| 0 <= j < self.key_order().len() && self.key_order()[j] == k && marks@[j] {
                    let j = choose|j: int| 0 <= j < self.key_order().len() && self.key_order()[j] == k && marks@[j];
                    lemma_index_unique(self.key_order(), j);
                }
            }
        }
        r
    }

    /// The position of a present key.
    pub proof fn lemma_position(&self, k: Seq<char>)
        requires
            self.wf(),
            self@.contains_key(k),
        ensures
            0 <= self.key_order().index_of(k) < self.key_order().len(),
            self.key_order()[self.key_order().index_of(k)] == k,
            self.values()[self.key_order().index_of(k)] == self@[k],
    {
        self.lemma_view();
        let j = self.key_order().index_of(k);
        lemma_index_unique(self.key_order(), j);
    }
}

impl StrMap<String> {
    /// The keys whose value is `v`, in key order, without repeats.
    pub fn keys_with_value(&self, v: &str) -> (r: Vec<String>)
        requires
            self.wf(),
        ensures
            r.deep_view().no_duplicates(),
            forall|k: Seq<char>| #[trigger]
                r.deep_view().contains(k) <==> (self@.contains_key(k) && self@[k]@ == v@),
    {
        proof {
            self.lemma_view();
        }
        let mut marks: Vec<bool> = Vec::new();
        let mut i: usize = 0;
        while i < self.keys.len()
            invariant
                self.wf(),
                i <= self.keys@.len(),
                marks@.len() == i,
                forall|j: int| 0 <= j < i ==> marks@[j] == (self.values()[j]@ == v@),
            decreases self.keys.len() - i,
        {
            marks.push(str_eq(self.vals[i].as_str(), v));
            i = i + 1;
        }
        let r = self.keys_marked(&marks);
        proof {
            assert forall|k: Seq<char>| #[trigger]
                r.deep_view().contains(k) <==> (self@.contains_key(k) && self@[k]@ == v@) by {
                if self@.contains_key(k) {
                    self.lemma_position(k);
                }
            }
        }
        r
    }
}

} // verus!
