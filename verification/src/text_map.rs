//! A map from texts to values that keeps its keys in ascending order.

use vstd::prelude::*;

use crate::text;

verus! {

#[derive(Debug)]
pub struct TextMap<V> {
    items: Vec<(String, V)>,
}

impl<V> View for TextMap<V> {
    type V = Map<Seq<char>, V>;

    closed spec fn view(&self) -> Map<Seq<char>, V> {
        Map::new(
            |k: Seq<char>| self.keys().contains(k),
            |k: Seq<char>| self.values()[self.keys().index_of(k)],
        )
    }
}

impl<V> TextMap<V> {
    /// The keys in the order in which they are held.
    pub closed spec fn keys(&self) -> Seq<Seq<char>> {
        Seq::new(self.items@.len(), |i: int| self.items@[i].0@)
    }

    /// The values, each at the place of its key.
    pub closed spec fn values(&self) -> Seq<V> {
        Seq::new(self.items@.len(), |i: int| self.items@[i].1)
    }

    /// The keys ascend strictly.
    pub open spec fn wf(&self) -> bool {
        forall|i: int, j: int|
            0 <= i < j < self.keys().len() ==> text::text_lt(#[trigger] self.keys()[i], #[trigger] self.keys()[j])
    }

    /// The map and the two sequences say the same.
    pub proof fn lemma_entries(&self)
        requires
            self.wf(),
        ensures
            self.keys().len() == self.values().len(),
            self.keys().no_duplicates(),
            self@.dom() == self.keys().to_set(),
            self@.dom().finite(),
            self@.dom().len() == self.keys().len(),
            forall|i: int|
                0 <= i < self.keys().len() ==> self@.contains_key(#[trigger] self.keys()[i])
                    && self@[self.keys()[i]] == self.values()[i],
    {
        let keys = self.keys();
        assert forall|i: int, j: int| 0 <= i < keys.len() && 0 <= j < keys.len() && i != j implies
            keys[i] != keys[j] by {
            text::lemma_text_lt_irreflexive(keys[i]);
            if i < j {
                assert(text::text_lt(keys[i], keys[j]));
            } else {
                assert(text::text_lt(keys[j], keys[i]));
            }
        }
        assert(self@.dom() =~= keys.to_set());
        keys.unique_seq_to_set();
        assert forall|i: int| 0 <= i < keys.len() implies self@.contains_key(#[trigger] keys[i])
            && self@[keys[i]] == self.values()[i] by {
            assert(keys.contains(keys[i]));
            assert(keys[keys.index_of(keys[i])] == keys[i]);
        }
    }

    pub fn new() -> (r: Self)
        ensures
            r.wf(),
            r@ == Map::<Seq<char>, V>::empty(),
            r.keys() == Seq::<Seq<char>>::empty(),
    {
        let r = TextMap { items: Vec::new() };
        assert(r@ =~= Map::<Seq<char>, V>::empty());
        r
    }

    pub fn len(&self) -> (r: usize)
        requires
            self.wf(),
        ensures
            r == self.keys().len(),
            r == self@.dom().len(),
            self@.dom().finite(),
    {
        proof {
            self.lemma_entries();
        }
        self.items.len()
    }

    pub fn key_at(&self, i: usize) -> (r: &String)
        requires
            i < self.keys().len(),
        ensures
            r@ == self.keys()[i as int],
    {
        &self.items[i].0
    }

    pub fn value_at(&self, i: usize) -> (r: &V)
        requires
            i < self.keys().len(),
        ensures
            *r == self.values()[i as int],
    {
        &self.items[i].1
    }

    /// The place of `key`, or the place at which it would have to be put in.
    fn locate(&self, key: &str) -> (r: (usize, bool))
        requires
            self.wf(),
        ensures
            r.0 <= self.keys().len(),
            forall|i: int| 0 <= i < r.0 ==> text::text_lt(#[trigger] self.keys()[i], key@),
            r.1 ==> r.0 < self.keys().len() && self.keys()[r.0 as int] == key@,
            !r.1 ==> forall|i: int|
                r.0 <= i < self.keys().len() ==> text::text_lt(key@, #[trigger] self.keys()[i]),
            r.1 == self@.contains_key(key@),
    {
        let mut lo: usize = 0;
        let mut hi: usize = self.items.len();
        while lo < hi
            invariant
                self.wf(),
                lo <= hi <= self.keys().len(),
                self.keys().len() == self.items@.len(),
                forall|i: int| 0 <= i < lo ==> text::text_lt(#[trigger] self.keys()[i], key@),
                forall|i: int|
                    hi <= i < self.keys().len() ==> text::text_lt(key@, #[trigger] self.keys()[i]),
            decreases hi - lo,
        {
            let mid: usize = lo + (hi - lo) / 2;
            let probe = self.items[mid].0.as_str();
            let ghost keys = self.keys();
            assert(probe@ == keys[mid as int]);
            if text::str_eq(probe, key) {
                proof {
                    assert forall|i: int| 0 <= i < mid implies text::text_lt(#[trigger] keys[i], key@) by {
                        assert(text::text_lt(keys[i], keys[mid as int]));
                    }
                    self.lemma_entries();
                    assert(self@.contains_key(keys[mid as int]));
                }
                return (mid, true);
            }
            if text::text_less(probe, key) {
                proof {
                    assert forall|i: int| 0 <= i < mid + 1 implies text::text_lt(#[trigger] keys[i], key@) by {
                        if i < mid {
                            assert(text::text_lt(keys[i], keys[mid as int]));
                            text::lemma_text_lt_transitive(keys[i], keys[mid as int], key@);
                        }
                    }
                }
                lo = mid + 1;
            } else {
                proof {
                    text::lemma_text_lt_total(probe@, key@);
                    assert forall|i: int| mid <= i < keys.len() implies text::text_lt(key@, #[trigger] keys[i]) by {
                        if i > mid {
                            assert(text::text_lt(keys[mid as int], keys[i]));
                            text::lemma_text_lt_transitive(key@, keys[mid as int], keys[i]);
                        }
                    }
                }
                hi = mid;
            }
        }
        proof {
            self.lemma_absent(key@, lo as int);
        }
        (lo, false)
    }

    proof fn lemma_absent(&self, key: Seq<char>, at: int)
        requires
            0 <= at <= self.keys().len(),
            forall|i: int| 0 <= i < at ==> text::text_lt(#[trigger] self.keys()[i], key),
            forall|i: int| at <= i < self.keys().len() ==> text::text_lt(key, #[trigger] self.keys()[i]),
        ensures
            !self@.contains_key(key),
    {
        text::lemma_text_lt_irreflexive(key);
        if self@.contains_key(key) {
            let i = self.keys().index_of(key);
            assert(self.keys()[i] == key);
        }
    }

    pub fn contains(&self, key: &str) -> (r: bool)
        requires
            self.wf(),
        ensures
            r == self@.contains_key(key@),
    {
        self.locate(key).1
    }

    pub fn get(&self, key: &str) -> (r: Option<&V>)
        requires
            self.wf(),
        ensures
            match r {
                Some(v) => self@.contains_key(key@) && *v == self@[key@],
                None => !self@.contains_key(key@),
            },
    {
        let (at, found) = self.locate(key);
        if found {
            proof {
                self.lemma_entries();
            }
            Some(&self.items[at].1)
        } else {
            None
        }
    }

    /// Takes the entry of `key` out.
    pub fn remove(&mut self, key: &str) -> (r: Option<V>)
        requires
            old(self).wf(),
        ensures
            final(self).wf(),
            final(self)@ == old(self)@.remove(key@),
            r == (if old(self)@.contains_key(key@) {
                Some(old(self)@[key@])
            } else {
                None
            }),
    {
        let (at, found) = self.locate(key);
        let ghost before = *self;
        if found {
            let (_, value) = self.items.remove(at);
            proof {
                before.lemma_entries();
                assert(self.keys() =~= before.keys().remove(at as int));
                assert(self.values() =~= before.values().remove(at as int));
                self.lemma_entries();
                assert forall|k: Seq<char>| #[trigger] self@.contains_key(k) implies before@.remove(
                    key@,
                ).contains_key(k) && before@.remove(key@)[k] == self@[k] by {
                    let i = self.keys().index_of(k);
                    assert(self.keys()[i] == k);
                    let j = if i < at { i } else { i + 1 };
                    assert(before.keys()[j] == k);
                    assert(before@[before.keys()[j]] == before.values()[j]);
                    assert(self@[self.keys()[i]] == self.values()[i]);
                }
                assert forall|k: Seq<char>| #[trigger] before@.remove(key@).contains_key(k) implies self@.contains_key(
                    k,
                ) by {
                    let j = before.keys().index_of(k);
                    assert(before.keys()[j] == k);
                    let i = if j < at { j } else { j - 1 };
                    assert(self.keys()[i] == k);
                    assert(self@.contains_key(self.keys()[i]));
                }
                assert(self@ =~= before@.remove(key@));
            }
            Some(value)
        } else {
            assert(before@.remove(key@) =~= before@);
            None
        }
    }

    /// Puts `value` in under `key`, in place of what stood there.
    pub fn insert(&mut self, key: String, value: V)
        requires
            old(self).wf(),
        ensures
            final(self).wf(),
            final(self)@ == old(self)@.insert(key@, value),
    {
        let ghost origin = *self;
        let _ = self.remove(key.as_str());
        let ghost before = *self;
        let (at, _) = self.locate(key.as_str());
        let ghost k0 = key@;
        self.items.insert(at, (key, value));
        proof {
            before.lemma_entries();
            assert(self.keys() =~= before.keys().insert(at as int, k0));
            assert(self.values() =~= before.values().insert(at as int, value));
            assert forall|i: int, j: int| 0 <= i < j < self.keys().len() implies text::text_lt(
                #[trigger] self.keys()[i],
                #[trigger] self.keys()[j],
            ) by {
                if i < at && j > at {
                    assert(text::text_lt(before.keys()[i], before.keys()[j - 1]));
                } else if j < at {
                    assert(text::text_lt(before.keys()[i], before.keys()[j]));
                } else if i > at {
                    assert(text::text_lt(before.keys()[i - 1], before.keys()[j - 1]));
                } else if j == at {
                    assert(text::text_lt(before.keys()[i], k0));
                } else {
                    assert(text::text_lt(k0, before.keys()[j - 1]));
                }
            }
            self.lemma_entries();
            assert forall|k: Seq<char>| #[trigger] self@.contains_key(k) implies before@.insert(
                k0,
                value,
            ).contains_key(k) && before@.insert(k0, value)[k] == self@[k] by {
                let i = self.keys().index_of(k);
                assert(self.keys()[i] == k);
                assert(self@[self.keys()[i]] == self.values()[i]);
                if i != at {
                    let j = if i < at { i } else { i - 1 };
                    assert(before.keys()[j] == k);
                    assert(before@[before.keys()[j]] == before.values()[j]);
                }
            }
            assert forall|k: Seq<char>| #[trigger] before@.insert(k0, value).contains_key(k) implies self@.contains_key(
                k,
            ) by {
                if k == k0 {
                    assert(self.keys()[at as int] == k);
                } else {
                    let j = before.keys().index_of(k);
                    assert(before.keys()[j] == k);
                    let i = if j < at { j } else { j + 1 };
                    assert(self.keys()[i] == k);
                    assert(self@.contains_key(self.keys()[i]));
                }
            }
            assert(self@ =~= before@.insert(k0, value));
            assert(self@ =~= origin@.insert(k0, value));
        }
    }

    /// Takes the entry with the greatest key out.
    pub fn pop_last(&mut self) -> (r: Option<(String, V)>)
        requires
            old(self).wf(),
        ensures
            final(self).wf(),
            match r {
                Some((k, v)) => old(self)@.contains_key(k@) && old(self)@[k@] == v && final(self)@
                    == old(self)@.remove(k@) && final(self).keys().len() + 1 == old(self).keys().len(),
                None => old(self)@ == Map::<Seq<char>, V>::empty() && *final(self) == *old(self),
            },
    {
        let ghost before = *self;
        if self.items.len() == 0 {
            assert(self@ =~= Map::<Seq<char>, V>::empty());
            return None;
        }
        let at: usize = self.items.len() - 1;
        proof {
            before.lemma_entries();
            assert(before.keys()[at as int] == before.items@[at as int].0@);
        }
        let key = self.items[at].0.clone();
        match self.remove(key.as_str()) {
            Some(value) => {
                proof {
                    self.lemma_entries();
                    assert(before@.remove(key@).dom() =~= before@.dom().remove(key@));
                }
                Some((key, value))
            },
            None => None,
        }
    }

    pub fn clear(&mut self)
        ensures
            final(self).wf(),
            final(self)@ == Map::<Seq<char>, V>::empty(),
    {
        self.items.clear();
        assert(self@ =~= Map::<Seq<char>, V>::empty());
    }

}

} // verus!
