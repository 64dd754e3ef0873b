use vstd::prelude::*;

use crate::text::{chars_eq, chars_of, seq_views};

verus! {

/// A map from strings to strings, kept as a list of entries with distinct
/// keys in the order they were first inserted.
pub struct StringMap {
    entries: Vec<(String, String)>,
    model: Ghost<Map<Seq<char>, Seq<char>>>,
}

impl View for StringMap {
    type V = Map<Seq<char>, Seq<char>>;

    closed spec fn view(&self) -> Map<Seq<char>, Seq<char>> {
        self.model@
    }
}

impl StringMap {
    /// The keys in the order of their entries.
    pub closed spec fn key_order(&self) -> Seq<Seq<char>> {
        self.entries@.map_values(|e: (String, String)| e.0@)
    }

    /// Keys are distinct, and the entries are exactly the map's contents.
    pub closed spec fn wf(&self) -> bool {
        &&& forall|i: int, j: int|
            0 <= i < j < self.entries@.len() ==> self.entries@[i].0@ != self.entries@[j].0@
        &&& forall|i: int|
            #![trigger self.entries@[i]]
            0 <= i < self.entries@.len() ==> self.model@.contains_key(self.entries@[i].0@)
                && self.model@[self.entries@[i].0@] == self.entries@[i].1@
        &&& forall|k: Seq<char>|
            #![trigger self.model@.contains_key(k)]
            self.model@.contains_key(k) ==> exists|i: int|
                0 <= i < self.entries@.len() && self.entries@[i].0@ == k
    }

    /// An empty map.
    pub fn new() -> (m: StringMap)
        ensures
            m.wf(),
            m@ == Map::<Seq<char>, Seq<char>>::empty(),
            m.key_order() == Seq::<Seq<char>>::empty(),
    {
        let m = StringMap { entries: Vec::new(), model: Ghost(Map::empty()) };
        proof {
            assert(m.key_order() =~= Seq::<Seq<char>>::empty());
        }
        m
    }

    /// The number of entries.
    pub fn len(&self) -> (n: usize)
        requires
            self.wf(),
        ensures
            n == self.key_order().len(),
            n == self@.dom().len(),
    {
        proof {
            self.lemma_dom_is_keys();
        }
        self.entries.len()
    }

    pub proof fn lemma_dom_is_keys(&self)
        requires
            self.wf(),
        ensures
            self.key_order().no_duplicates(),
            self.key_order().to_set() == self@.dom(),
            self@.dom().len() == self.key_order().len(),
            self@.dom().finite(),
    {
        let ks = self.key_order();
        assert forall|i: int, j: int| 0 <= i < ks.len() && 0 <= j < ks.len() && i != j implies ks[i]
            != ks[j] by {
            if i < j {
                assert(self.entries@[i].0@ != self.entries@[j].0@);
            } else {
                assert(self.entries@[j].0@ != self.entries@[i].0@);
            }
        }
        assert forall|k: Seq<char>| ks.to_set().contains(k) <==> self@.dom().contains(k) by {
            if self@.dom().contains(k) {
                assert(self.model@.contains_key(k));
                let i = choose|i: int| 0 <= i < self.entries@.len() && self.entries@[i].0@ == k;
                assert(ks[i] == k);
            }
            if ks.to_set().contains(k) {
                let i = choose|i: int| 0 <= i < ks.len() && ks[i] == k;
                assert(self.entries@[i].0@ == k);
            }
        }
        assert(ks.to_set() =~= self@.dom());
        ks.unique_seq_to_set();
    }

    /// The position of `key`'s entry, if it has one.
    fn find(&self, key: &str) -> (r: Option<usize>)
        requires
            self.wf(),
        ensures
            match r {
                Some(i) => i < self.entries@.len() && self.entries@[i as int].0@ == key@,
                None => !self@.contains_key(key@),
            },
    {
        let target = chars_of(key);
        let mut i: usize = 0;
        while i < self.entries.len()
            invariant
                self.wf(),
                target@ == key@,
                i <= self.entries@.len(),
                forall|j: int| 0 <= j < i ==> self.entries@[j].0@ != key@,
            decreases self.entries.len() - i,
        {
            let k = chars_of(self.entries[i].0.as_str());
            if chars_eq(k.as_slice(), target.as_slice()) {
                return Some(i);
            }
            i = i + 1;
        }
        proof {
            if self.model@.contains_key(key@) {
                let j = choose|j: int| 0 <= j < self.entries@.len() && self.entries@[j].0@ == key@;
                assert(self.entries@[j].0@ != key@);
            }
        }
        None
    }

    /// Sets `key` to `value`, replacing any value it had; a new key is
    /// appended to the key order.
    pub fn insert(&mut self, key: &str, value: &str)
        requires
            old(self).wf(),
        ensures
            final(self).wf(),
            final(self)@ == old(self)@.insert(key@, value@),
            final(self).key_order() == (if old(self)@.contains_key(key@) {
                old(self).key_order()
            } else {
                old(self).key_order().push(key@)
            }),
    {
        let ghost old_model = self.model@;
        let ghost old_entries = self.entries@;
        let ghost old_keys = self.key_order();
        match self.find(key) {
            Some(i) => {
                self.entries.set(i, (key.to_owned(), value.to_owned()));
                self.model = Ghost(old_model.insert(key@, value@));
                proof {
                    assert(self.key_order() =~= old_keys);
                    assert forall|k: Seq<char>|
                        #![trigger self.model@.contains_key(k)]
                        self.model@.contains_key(k) implies exists|j: int|
                            0 <= j < self.entries@.len() && self.entries@[j].0@ == k by {
                        if k == key@ {
                            assert(self.entries@[i as int].0@ == k);
                        } else {
                            assert(old_model.contains_key(k));
                            let j = choose|j: int|
                                0 <= j < old_entries.len() && old_entries[j].0@ == k;
                            assert(self.entries@[j].0@ == k);
                        }
                    }
                    assert(old_model.contains_key(key@));
                }
            },
            None => {
                self.entries.push((key.to_owned(), value.to_owned()));
                self.model = Ghost(old_model.insert(key@, value@));
                proof {
                    let n = old_entries.len() as int;
                    assert(self.key_order() =~= old_keys.push(key@));
                    assert forall|a: int, b: int|
                        0 <= a < b < self.entries@.len() implies self.entries@[a].0@
                        != self.entries@[b].0@ by {
                        if b == n {
                            assert(old_model.contains_key(old_entries[a].0@));
                        }
                    }
                    assert forall|k: Seq<char>|
                        #![trigger self.model@.contains_key(k)]
                        self.model@.contains_key(k) implies exists|j: int|
                            0 <= j < self.entries@.len() && self.entries@[j].0@ == k by {
                        if k == key@ {
                            assert(self.entries@[n].0@ == k);
                        } else {
                            assert(old_model.contains_key(k));
                            let j = choose|j: int|
                                0 <= j < old_entries.len() && old_entries[j].0@ == k;
                            assert(self.entries@[j].0@ == k);
                        }
                    }
                }
            },
        }
    }

    /// The value stored under `key`, if any.
    pub fn get(&self, key: &str) -> (r: Option<String>)
        requires
            self.wf(),
        ensures
            match r {
                Some(v) => self@.contains_key(key@) && v@ == self@[key@],
                None => !self@.contains_key(key@),
            },
    {
        match self.find(key) {
            Some(i) => {
                proof {
                    assert(self.entries@[i as int] == self.entries@[i as int]);
                }
                Some(self.entries[i].1.clone())
            },
            None => None,
        }
    }

    /// Removes `key`'s entry; returns whether there was one.
    pub fn remove(&mut self, key: &str) -> (removed: bool)
        requires
            old(self).wf(),
        ensures
            final(self).wf(),
            removed == old(self)@.contains_key(key@),
            final(self)@ == old(self)@.remove(key@),
            final(self).key_order() == keys_without(old(self).key_order(), key@),
    {
        let ghost old_model = self.model@;
        let ghost old_entries = self.entries@;
        let ghost old_keys = self.key_order();
        match self.find(key) {
            Some(i) => {
                proof {
                    assert(old_entries[i as int] == old_entries[i as int]);
                }
                self.entries.remove(i);
                self.model = Ghost(old_model.remove(key@));
                proof {
                    let ii = i as int;
                    assert(self.entries@ =~= old_entries.remove(ii));
                    assert forall|k: Seq<char>|
                        #![trigger self.model@.contains_key(k)]
                        self.model@.contains_key(k) implies exists|j: int|
                            0 <= j < self.entries@.len() && self.entries@[j].0@ == k by {
                        assert(old_model.contains_key(k));
                        let j = choose|j: int|
                            0 <= j < old_entries.len() && old_entries[j].0@ == k;
                        assert(j != ii);
                        if j < ii {
                            assert(self.entries@[j].0@ == k);
                        } else {
                            assert(self.entries@[j - 1].0@ == k);
                        }
                    }
                    assert forall|a: int|
                        #![trigger self.entries@[a]]
                        0 <= a < self.entries@.len() implies self.model@.contains_key(
                            self.entries@[a].0@,
                        ) && self.model@[self.entries@[a].0@] == self.entries@[a].1@ by {
                        if a < ii {
                            assert(old_entries[a] == self.entries@[a]);
                            assert(old_entries[a].0@ != old_entries[ii].0@);
                        } else {
                            assert(old_entries[a + 1] == self.entries@[a]);
                            assert(old_entries[ii].0@ != old_entries[a + 1].0@);
                        }
                    }
                    assert(self.key_order() =~= old_keys.remove(ii));
                    assert forall|a: int, b: int| 0 <= a < b < old_keys.len() implies old_keys[a]
                        != old_keys[b] by {
                        assert(old_entries[a].0@ != old_entries[b].0@);
                    }
                    self.lemma_filter_after_remove(old_keys, ii, key@);
                    assert(self.key_order() == keys_without(old_keys, key@));
                }
                true
            },
            None => {
                proof {
                    assert(old_model.remove(key@) =~= old_model);
                    assert forall|j: int| 0 <= j < old_keys.len() implies old_keys[j] != key@ by {
                        assert(old_keys[j] == old_entries[j].0@);
                        assert(old_entries[j] == old_entries[j]);
                    }
                    lemma_filter_all(old_keys, key@);
                    assert(self.key_order() == keys_without(old_keys, key@));
                }
                false
            },
        }
    }

    proof fn lemma_filter_after_remove(&self, old_keys: Seq<Seq<char>>, i: int, key: Seq<char>)
        requires
            0 <= i < old_keys.len(),
            old_keys[i] == key,
            forall|a: int, b: int| 0 <= a < b < old_keys.len() ==> old_keys[a] != old_keys[b],
            self.key_order() == old_keys.remove(i),
        ensures
            self.key_order() == keys_without(old_keys, key),
    {
        let pred = not_key(key);
        let left = old_keys.subrange(0, i);
        let right = old_keys.subrange(i + 1, old_keys.len() as int);
        assert(old_keys =~= left + seq![key] + right);
        Seq::filter_distributes_over_add(left + seq![key], right, pred);
        Seq::filter_distributes_over_add(left, seq![key], pred);
        assert forall|j: int| 0 <= j < left.len() implies left[j] != key by {
            assert(old_keys[j] != old_keys[i]);
        }
        assert forall|j: int| 0 <= j < right.len() implies right[j] != key by {
            assert(old_keys[i] != old_keys[i + 1 + j]);
        }
        lemma_filter_all(left, key);
        lemma_filter_all(right, key);
        assert(seq![key].filter(pred) =~= Seq::<Seq<char>>::empty()) by {
            reveal_with_fuel(Seq::filter, 2);
            assert(seq![key].drop_last() =~= Seq::<Seq<char>>::empty());
        }
        assert(old_keys.remove(i) =~= left + right);
    }

    /// The keys, each once, in the order of their entries.
    pub fn keys(&self) -> (r: Vec<String>)
        requires
            self.wf(),
        ensures
            seq_views(r@) == self.key_order(),
            seq_views(r@).no_duplicates(),
            seq_views(r@).to_set() == self@.dom(),
    {
        proof {
            self.lemma_dom_is_keys();
        }
        let mut r: Vec<String> = Vec::new();
        let mut i: usize = 0;
        while i < self.entries.len()
            invariant
                self.wf(),
                i <= self.entries@.len(),
                seq_views(r@) == self.key_order().take(i as int),
            decreases self.entries.len() - i,
        {
            let ghost before = r@;
            let k = self.entries[i].0.clone();
            r.push(k);
            proof {
                assert(r@ =~= before.push(k));
                assert(seq_views(r@) =~= seq_views(before).push(k@));
                assert(self.key_order()[i as int] == self.entries@[i as int].0@);
                assert(self.key_order().take(i + 1) =~= self.key_order().take(i as int).push(k@));
            }
            i = i + 1;
        }
        proof {
            assert(self.key_order().take(i as int) =~= self.key_order());
        }
        r
    }

    /// The key and value of the `i`-th entry.
    pub fn entry_at(&self, i: usize) -> (e: (&String, &String))
        requires
            self.wf(),
            i < self.key_order().len(),
        ensures
            e.0@ == self.key_order()[i as int],
            self@.contains_key(e.0@),
            e.1@ == self@[e.0@],
    {
        proof {
            assert(self.entries@[i as int] == self.entries@[i as int]);
        }
        (&self.entries[i].0, &self.entries[i].1)
    }
}

/// The keys other than `key`, in order.
pub open spec fn keys_without(keys: Seq<Seq<char>>, key: Seq<char>) -> Seq<Seq<char>> {
    keys.filter(not_key(key))
}

/// The test "is not `key`".
pub open spec fn not_key(key: Seq<char>) -> spec_fn(Seq<char>) -> bool {
    |k: Seq<char>| k != key
}

/// Filtering out a value that does not occur leaves a sequence unchanged.
pub proof fn lemma_filter_all(s: Seq<Seq<char>>, key: Seq<char>)
    requires
        forall|j: int| 0 <= j < s.len() ==> s[j] != key,
    ensures
        keys_without(s, key) == s,
    decreases s.len(),
{
    reveal_with_fuel(Seq::filter, 1);
    if s.len() > 0 {
        lemma_filter_all(s.drop_last(), key);
        assert(s.drop_last().push(s.last()) =~= s);
    } else {
        assert(keys_without(s, key) =~= s);
    }
}

} // verus!
