use vstd::prelude::*;

verus! {

/// Whether two texts are the same.
pub fn same_text(a: &str, b: &str) -> (r: bool)
    ensures
        r == (a@ == b@),
{
    let left: String = a.to_owned();
    let right: String = b.to_owned();
    left == right
}

/// One entry of a `TextMap`.
pub struct TextEntry<V> {
    pub key: String,
    pub value: V,
}

/// A map from texts to values that keeps its entries in the order in which
/// their keys first came. No key occurs twice.
pub struct TextMap<V> {
    entries: Vec<TextEntry<V>>,
}

impl<V> TextMap<V> {
    /// The entries, in order.
    pub closed spec fn spec_entries(&self) -> Seq<TextEntry<V>> {
        self.entries@
    }

    /// No key occurs twice.
    pub open spec fn wf(&self) -> bool {
        forall|i: int, j: int|
            #![trigger self.spec_entries()[i], self.spec_entries()[j]]
            0 <= i < j < self.spec_entries().len() ==> self.spec_entries()[i].key@
                != self.spec_entries()[j].key@
    }

    /// Whether the entry at `i` has the key `key`.
    pub open spec fn spec_at(&self, i: int, key: Seq<char>) -> bool {
        0 <= i < self.spec_entries().len() && self.spec_entries()[i].key@ == key
    }

    /// Whether the map holds the key.
    pub open spec fn spec_has(&self, key: Seq<char>) -> bool {
        exists|i: int| self.spec_at(i, key)
    }

    /// The place of the key among the entries, where the map holds it.
    pub open spec fn spec_index(&self, key: Seq<char>) -> int {
        choose|i: int| self.spec_at(i, key)
    }

    /// The value under the key, where the map holds it.
    pub open spec fn spec_get(&self, key: Seq<char>) -> Option<V> {
        if self.spec_has(key) {
            Some(self.spec_entries()[self.spec_index(key)].value)
        } else {
            None
        }
    }

    /// How many entries the map holds.
    pub open spec fn spec_len(&self) -> nat {
        self.spec_entries().len()
    }

    /// In a well-formed map a key has one place only.
    pub proof fn lemma_index_unique(&self, i: int, key: Seq<char>)
        requires
            self.wf(),
            self.spec_at(i, key),
        ensures
            self.spec_has(key),
            self.spec_index(key) == i,
            self.spec_get(key) == Some(self.spec_entries()[i].value),
    {
        let j = self.spec_index(key);
        assert(self.spec_at(j, key));
        if i < j {
            assert(self.spec_entries()[i].key@ != self.spec_entries()[j].key@);
        } else if j < i {
            assert(self.spec_entries()[j].key@ != self.spec_entries()[i].key@);
        }
    }

    /// A map without entries.
    pub fn new() -> (r: Self)
        ensures
            r.wf(),
            r.spec_len() == 0,
            forall|key: Seq<char>| !r.spec_has(key),
    {
        Self { entries: Vec::new() }
    }

    pub fn len(&self) -> (r: usize)
        ensures
            r == self.spec_len(),
    {
        self.entries.len()
    }

    pub fn is_empty(&self) -> (r: bool)
        ensures
            r == (self.spec_len() == 0),
    {
        self.entries.len() == 0
    }

    /// The place of the key among the entries, where the map holds it.
    pub fn find(&self, key: &str) -> (r: Option<usize>)
        ensures
            match r {
                Some(i) => self.spec_at(i as int, key@),
                None => !self.spec_has(key@),
            },
    {
        let mut i: usize = 0;
        while i < self.entries.len()
            invariant
                i <= self.entries@.len(),
                forall|k: int| 0 <= k < i ==> !self.spec_at(k, key@),
            decreases self.entries@.len() - i,
        {
            if same_text(self.entries[i].key.as_str(), key) {
                return Some(i);
            }
            i = i + 1;
        }
        None
    }

    /// The key of the entry at `i`.
    pub fn key_at(&self, i: usize) -> (r: &String)
        requires
            i < self.spec_len(),
        ensures
            r@ == self.spec_entries()[i as int].key@,
    {
        &self.entries[i].key
    }

    /// The value of the entry at `i`.
    pub fn value_at(&self, i: usize) -> (r: &V)
        requires
            i < self.spec_len(),
        ensures
            *r == self.spec_entries()[i as int].value,
    {
        &self.entries[i].value
    }

    /// The value under the key, where the map holds it.
    pub fn get(&self, key: &str) -> (r: Option<&V>)
        requires
            self.wf(),
        ensures
            match r {
                Some(value) => self.spec_get(key@) == Some(*value),
                None => self.spec_get(key@).is_none(),
            },
    {
        match self.find(key) {
            Some(i) => {
                proof {
                    self.lemma_index_unique(i as int, key@);
                }
                Some(&self.entries[i].value)
            },
            None => None,
        }
    }

    /// Puts `value` under `key`, in place of the value that was there if
    /// there was one; every other key keeps its value and its place.
    pub fn insert(&mut self, key: String, value: V)
        requires
            old(self).wf(),
        ensures
            final(self).wf(),
            forall|k: Seq<char>|
                #[trigger] final(self).spec_get(k) == if k == key@ {
                    Some(value)
                } else {
                    old(self).spec_get(k)
                },
            final(self).spec_len() == if old(self).spec_has(key@) {
                old(self).spec_len()
            } else {
                old(self).spec_len() + 1
            },
            forall|i: int|
                0 <= i < old(self).spec_len() ==> (#[trigger] final(self).spec_entries()[i]).key@
                    == old(self).spec_entries()[i].key@,
            !old(self).spec_has(key@) ==> final(self).spec_entries() == old(
                self
            ).spec_entries().push(TextEntry { key, value }),
            old(self).spec_has(key@) ==> final(self).spec_entries() == old(
                self
            ).spec_entries().update(old(self).spec_index(key@), TextEntry { key, value }),
    {
        let ghost prev = *self;
        let ghost name = key@;
        match self.find(key.as_str()) {
            Some(i) => {
                proof {
                    prev.lemma_index_unique(i as int, name);
                }
                self.entries.set(i, TextEntry { key, value });
                proof {
                    assert forall|a: int, b: int|
                        #![trigger self.spec_entries()[a], self.spec_entries()[b]]
                        0 <= a < b < self.spec_entries().len() implies self.spec_entries()[a].key@
                        != self.spec_entries()[b].key@ by {
                        assert(prev.spec_entries()[a].key@ != prev.spec_entries()[b].key@);
                    }
                    assert forall|k: Seq<char>| #[trigger]
                        self.spec_get(k) == if k == name {
                            Some(value)
                        } else {
                            prev.spec_get(k)
                        } by {
                        if k == name {
                            self.lemma_index_unique(i as int, k);
                        } else if prev.spec_has(k) {
                            let j = prev.spec_index(k);
                            assert(prev.spec_at(j, k));
                            prev.lemma_index_unique(j, k);
                            assert(self.spec_at(j, k));
                            self.lemma_index_unique(j, k);
                        } else if self.spec_has(k) {
                            let j = self.spec_index(k);
                            assert(self.spec_at(j, k));
                            assert(prev.spec_at(j, k));
                        }
                    }
                    assert(prev.spec_at(i as int, name));
                }
            },
            None => {
                self.entries.push(TextEntry { key, value });
                proof {
                    let last = prev.spec_entries().len() as int;
                    assert forall|a: int, b: int|
                        #![trigger self.spec_entries()[a], self.spec_entries()[b]]
                        0 <= a < b < self.spec_entries().len() implies self.spec_entries()[a].key@
                        != self.spec_entries()[b].key@ by {
                        assert(self.spec_entries()[a] == prev.spec_entries()[a]);
                        if b < last {
                            assert(prev.spec_entries()[a].key@ != prev.spec_entries()[b].key@);
                        } else {
                            assert(!prev.spec_at(a, name));
                        }
                    }
                    assert forall|k: Seq<char>| #[trigger]
                        self.spec_get(k) == if k == name {
                            Some(value)
                        } else {
                            prev.spec_get(k)
                        } by {
                        if k == name {
                            assert(self.spec_at(last, k));
                            self.lemma_index_unique(last, k);
                        } else if prev.spec_has(k) {
                            let j = prev.spec_index(k);
                            assert(prev.spec_at(j, k));
                            prev.lemma_index_unique(j, k);
                            assert(self.spec_entries()[j] == prev.spec_entries()[j]);
                            assert(self.spec_at(j, k));
                            self.lemma_index_unique(j, k);
                        } else if self.spec_has(k) {
                            let j = self.spec_index(k);
                            assert(self.spec_at(j, k));
                            assert(self.spec_entries()[j] == prev.spec_entries()[j]);
                            assert(prev.spec_at(j, k));
                        }
                    }
                }
            },
        }
    }

    /// Takes the key and its value out; every other key keeps its value, and
    /// the entries that stay keep their order.
    pub fn remove(&mut self, key: &str) -> (r: Option<V>)
        requires
            old(self).wf(),
        ensures
            final(self).wf(),
            r == old(self).spec_get(key@),
            forall|k: Seq<char>|
                #[trigger] final(self).spec_get(k) == if k == key@ {
                    None
                } else {
                    old(self).spec_get(k)
                },
            final(self).spec_len() == if old(self).spec_has(key@) {
                old(self).spec_len() - 1
            } else {
                old(self).spec_len() as int
            },
            !old(self).spec_has(key@) ==> final(self).spec_entries() == old(self).spec_entries(),
            old(self).spec_has(key@) ==> final(self).spec_entries() == old(
                self
            ).spec_entries().remove(old(self).spec_index(key@)),
    {
        let ghost prev = *self;
        match self.find(key) {
            Some(i) => {
                proof {
                    prev.lemma_index_unique(i as int, key@);
                }
                let entry = self.entries.remove(i);
                proof {
                    assert forall|a: int, b: int|
                        #![trigger self.spec_entries()[a], self.spec_entries()[b]]
                        0 <= a < b < self.spec_entries().len() implies self.spec_entries()[a].key@
                        != self.spec_entries()[b].key@ by {
                        let pa = if a < i { a } else { a + 1 };
                        let pb = if b < i { b } else { b + 1 };
                        assert(prev.spec_entries()[pa].key@ != prev.spec_entries()[pb].key@);
                    }
                    assert forall|k: Seq<char>| #[trigger]
                        self.spec_get(k) == if k == key@ {
                            None
                        } else {
                            prev.spec_get(k)
                        } by {
                        if self.spec_has(k) {
                            let j = self.spec_index(k);
                            assert(self.spec_at(j, k));
                            let pj = if j < i { j } else { j + 1 };
                            assert(prev.spec_at(pj, k));
                            prev.lemma_index_unique(pj, k);
                            self.lemma_index_unique(j, k);
                        } else if k != key@ && prev.spec_has(k) {
                            let pj = prev.spec_index(k);
                            assert(prev.spec_at(pj, k));
                            let j = if pj < i { pj } else { pj - 1 };
                            assert(self.spec_at(j, k));
                        }
                    }
                }
                Some(entry.value)
            },
            None => None,
        }
    }

    /// Takes the entry at `i` out for a while; `put_back` returns it.
    pub fn take_at(&mut self, i: usize) -> (r: TextEntry<V>)
        requires
            old(self).wf(),
            i < old(self).spec_len(),
        ensures
            final(self).wf(),
            r == old(self).spec_entries()[i as int],
            final(self).spec_entries() == old(self).spec_entries().remove(i as int),
            !final(self).spec_has(r.key@),
    {
        let ghost prev = *self;
        let entry = self.entries.remove(i);
        proof {
            assert forall|a: int, b: int|
                #![trigger self.spec_entries()[a], self.spec_entries()[b]]
                0 <= a < b < self.spec_entries().len() implies self.spec_entries()[a].key@
                != self.spec_entries()[b].key@ by {
                let pa = if a < i { a } else { a + 1 };
                let pb = if b < i { b } else { b + 1 };
                assert(prev.spec_entries()[pa].key@ != prev.spec_entries()[pb].key@);
            }
            assert forall|j: int| !self.spec_at(j, entry.key@) by {
                if 0 <= j < self.spec_entries().len() {
                    let pj = if j < i { j } else { j + 1 };
                    if pj < i {
                        assert(prev.spec_entries()[pj].key@ != prev.spec_entries()[i as int].key@);
                    } else {
                        assert(prev.spec_entries()[i as int].key@ != prev.spec_entries()[pj].key@);
                    }
                }
            }
        }
        entry
    }

    /// Puts an entry at place `i` whose key the map does not hold.
    pub fn put_back(&mut self, i: usize, entry: TextEntry<V>)
        requires
            old(self).wf(),
            i <= old(self).spec_len(),
            !old(self).spec_has(entry.key@),
        ensures
            final(self).wf(),
            final(self).spec_entries() == old(self).spec_entries().insert(i as int, entry),
    {
        let ghost prev = *self;
        self.entries.insert(i, entry);
        proof {
            assert forall|a: int, b: int|
                #![trigger self.spec_entries()[a], self.spec_entries()[b]]
                0 <= a < b < self.spec_entries().len() implies self.spec_entries()[a].key@
                != self.spec_entries()[b].key@ by {
                let pa = if a < i { a } else { a - 1 };
                let pb = if b < i { b } else { b - 1 };
                if a == i {
                    assert(!prev.spec_at(pb, entry.key@));
                } else if b == i {
                    assert(!prev.spec_at(pa, entry.key@));
                } else {
                    assert(prev.spec_entries()[pa].key@ != prev.spec_entries()[pb].key@);
                }
            }
        }
    }

    /// Takes every entry out.
    pub fn clear(&mut self)
        ensures
            final(self).wf(),
            final(self).spec_len() == 0,
            forall|key: Seq<char>| !final(self).spec_has(key),
    {
        self.entries.clear();
    }

    /// The keys, in the order of the entries.
    pub fn keys(&self) -> (r: Vec<String>)
        ensures
            r@.len() == self.spec_len(),
            forall|i: int| 0 <= i < r@.len() ==> (#[trigger] r@[i])@ == self.spec_entries()[i].key@,
    {
        let mut out: Vec<String> = Vec::new();
        let mut i: usize = 0;
        while i < self.entries.len()
            invariant
                i <= self.entries@.len(),
                out@.len() == i,
                forall|k: int| 0 <= k < i ==> (#[trigger] out@[k])@ == self.spec_entries()[k].key@,
            decreases self.entries@.len() - i,
        {
            out.push(self.entries[i].key.clone());
            i = i + 1;
        }
        out
    }
}

} // verus!
