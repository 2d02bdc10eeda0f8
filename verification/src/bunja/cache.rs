use crate::registry::{TextEntry, TextMap};
use vstd::prelude::*;

verus! {

/// What a cache asks of the rule by which it throws entries out. The rule
/// keeps the keys with their sizes, in the order in which it would throw
/// them out.
pub trait EvictionPolicy {
    /// What the rule needs to hold of its own books.
    spec fn policy_wf(&self) -> bool;

    /// The keys with their sizes, the one to be thrown out first in front.
    spec fn policy_entries(&self) -> TextMap<u64>;

    /// Notes that `key`, of `size` bytes, was used: the rule knows the key
    /// with that size, and every other key as before.
    fn record_access(&mut self, key: &str, size: u64)
        requires
            old(self).policy_wf(),
        ensures
            final(self).policy_wf(),
            forall|k: Seq<char>|
                #[trigger] final(self).policy_entries().spec_get(k) == if k == key@ {
                    Some(size)
                } else {
                    old(self).policy_entries().spec_get(k)
                },
    ;

    /// The keys to throw out to free `space_needed` bytes: from the front of
    /// the order on, as few as free that much, and all where all together do
    /// not.
    fn get_eviction_candidates(&self, space_needed: u64) -> (r: Vec<String>)
        requires
            self.policy_wf(),
        ensures
            r@.len() <= self.policy_entries().spec_len(),
            forall|i: int|
                0 <= i < r@.len() ==> (#[trigger] r@[i])@
                    == self.policy_entries().spec_entries()[i].key@,
            r@.len() == self.policy_entries().spec_len() || prefix_size(
                self.policy_entries().spec_entries(),
                r@.len(),
            ) >= space_needed,
            forall|n: nat|
                n < r@.len() ==> #[trigger] prefix_size(self.policy_entries().spec_entries(), n)
                    < space_needed,
    ;

    /// Forgets `key`: every other key stays, in its order.
    fn remove(&mut self, key: &str)
        requires
            old(self).policy_wf(),
        ensures
            final(self).policy_wf(),
            forall|k: Seq<char>|
                #[trigger] final(self).policy_entries().spec_get(k) == if k == key@ {
                    None
                } else {
                    old(self).policy_entries().spec_get(k)
                },
            final(self).policy_entries().spec_entries() == if old(
                self
            ).policy_entries().spec_has(key@) {
                old(self).policy_entries().spec_entries().remove(
                    old(self).policy_entries().spec_index(key@),
                )
            } else {
                old(self).policy_entries().spec_entries()
            },
    ;

    /// Forgets every key.
    fn clear(&mut self)
        ensures
            final(self).policy_wf(),
            final(self).policy_entries().spec_len() == 0,
    ;

    /// How many keys the rule knows.
    fn len(&self) -> (r: usize)
        requires
            self.policy_wf(),
        ensures
            r == self.policy_entries().spec_len(),
    ;

    /// The sizes of all keys together; the largest number there is where
    /// they come to more.
    fn total_size(&self) -> (r: u64)
        requires
            self.policy_wf(),
        ensures
            r == spec_total_size(self.policy_entries().spec_entries()),
    ;
}

/// The sizes of the entries together, up to the largest number there is.
pub open spec fn spec_total_size(entries: Seq<TextEntry<u64>>) -> u64 {
    if prefix_size(entries, entries.len()) <= u64::MAX {
        prefix_size(entries, entries.len()) as u64
    } else {
        u64::MAX
    }
}

/// The sizes of the first `n` entries together.
pub open spec fn prefix_size(entries: Seq<TextEntry<u64>>, n: nat) -> nat
    decreases n,
{
    if n == 0 {
        0
    } else {
        prefix_size(entries, (n - 1) as nat) + entries[n - 1].value as nat
    }
}

/// Throws out what was used longest ago: the keys with their sizes, from
/// the one used longest ago to the one used last.
pub struct LruEviction {
    entries: TextMap<u64>,
}

impl LruEviction {
    /// The keys with their sizes, the one used longest ago first.
    pub closed spec fn spec_entries(&self) -> TextMap<u64> {
        self.entries
    }

    pub open spec fn wf(&self) -> bool {
        self.spec_entries().wf()
    }

    pub fn new() -> (r: Self)
        ensures
            r.wf(),
            r.spec_entries().spec_len() == 0,
    {
        Self { entries: TextMap::new() }
    }

    /// Notes that `key`, of `size` bytes, was used just now: it becomes the
    /// last to be thrown out.
    pub fn record_access(&mut self, key: &str, size: u64)
        requires
            old(self).wf(),
        ensures
            final(self).wf(),
            forall|k: Seq<char>|
                #[trigger] final(self).spec_entries().spec_get(k) == if k == key@ {
                    Some(size)
                } else {
                    old(self).spec_entries().spec_get(k)
                },
            final(self).spec_entries().spec_len() > 0,
            final(self).spec_entries().spec_entries().last().key@ == key@,
            final(self).spec_entries().spec_entries().last().value == size,
            final(self).spec_entries().spec_entries().drop_last() == if old(
                self
            ).spec_entries().spec_has(key@) {
                old(self).spec_entries().spec_entries().remove(
                    old(self).spec_entries().spec_index(key@),
                )
            } else {
                old(self).spec_entries().spec_entries()
            },
    {
        let ghost prev = self.entries;
        self.entries.remove(key);
        let ghost mid = self.entries;
        assert(!mid.spec_has(key@)) by {
            assert(mid.spec_get(key@).is_none());
        }
        self.entries.insert(key.to_owned(), size);
        proof {
            assert(self.entries.spec_entries().drop_last() =~= mid.spec_entries());
            assert forall|k: Seq<char>| #[trigger]
                self.entries.spec_get(k) == if k == key@ {
                    Some(size)
                } else {
                    prev.spec_get(k)
                } by {
                if k != key@ {
                    assert(self.entries.spec_get(k) == mid.spec_get(k));
                    assert(mid.spec_get(k) == prev.spec_get(k));
                }
            }
        }
    }

    /// The keys to throw out to free `space_needed` bytes: from the one used
    /// longest ago on, as few as free that much, and all where all together
    /// do not.
    pub fn get_eviction_candidates(&self, space_needed: u64) -> (r: Vec<String>)
        ensures
            r@.len() <= self.spec_entries().spec_len(),
            forall|i: int|
                0 <= i < r@.len() ==> (#[trigger] r@[i])@
                    == self.spec_entries().spec_entries()[i].key@,
            r@.len() == self.spec_entries().spec_len() || prefix_size(
                self.spec_entries().spec_entries(),
                r@.len(),
            ) >= space_needed,
            forall|n: nat|
                n < r@.len() ==> #[trigger] prefix_size(self.spec_entries().spec_entries(), n)
                    < space_needed,
    {
        let mut candidates: Vec<String> = Vec::new();
        let mut freed: u64 = 0;
        let mut i: usize = 0;
        while i < self.entries.len() && freed < space_needed
            invariant
                i <= self.spec_entries().spec_len(),
                candidates@.len() == i,
                freed < space_needed ==> freed == prefix_size(
                    self.spec_entries().spec_entries(),
                    i as nat,
                ),
                freed >= space_needed ==> prefix_size(self.spec_entries().spec_entries(), i as nat)
                    >= space_needed,
                forall|k: int|
                    0 <= k < i ==> (#[trigger] candidates@[k])@
                        == self.spec_entries().spec_entries()[k].key@,
                forall|n: nat|
                    n < i ==> #[trigger] prefix_size(self.spec_entries().spec_entries(), n)
                        < space_needed,
            decreases self.spec_entries().spec_len() - i,
        {
            candidates.push(self.entries.key_at(i).clone());
            let size: u64 = *self.entries.value_at(i);
            freed = if size >= space_needed - freed {
                space_needed
            } else {
                freed + size
            };
            i = i + 1;
        }
        candidates
    }

    /// Forgets `key`.
    pub fn remove(&mut self, key: &str)
        requires
            old(self).wf(),
        ensures
            final(self).wf(),
            forall|k: Seq<char>|
                #[trigger] final(self).spec_entries().spec_get(k) == if k == key@ {
                    None
                } else {
                    old(self).spec_entries().spec_get(k)
                },
            final(self).spec_entries().spec_entries() == if old(self).spec_entries().spec_has(
                key@,
            ) {
                old(self).spec_entries().spec_entries().remove(
                    old(self).spec_entries().spec_index(key@),
                )
            } else {
                old(self).spec_entries().spec_entries()
            },
    {
        self.entries.remove(key);
    }

    /// Forgets every key.
    pub fn clear(&mut self)
        ensures
            final(self).wf(),
            final(self).spec_entries().spec_len() == 0,
    {
        self.entries.clear();
    }

    /// How many keys are known.
    pub fn len(&self) -> (r: usize)
        ensures
            r == self.spec_entries().spec_len(),
    {
        self.entries.len()
    }

    /// The sizes of all keys together; the largest number there is where
    /// they come to more.
    pub fn total_size(&self) -> (r: u64)
        ensures
            r == if prefix_size(
                self.spec_entries().spec_entries(),
                self.spec_entries().spec_len(),
            ) <= u64::MAX {
                prefix_size(self.spec_entries().spec_entries(), self.spec_entries().spec_len())
            } else {
                u64::MAX as nat
            },
    {
        let mut total: u64 = 0;
        let mut i: usize = 0;
        while i < self.entries.len()
            invariant
                i <= self.spec_entries().spec_len(),
                total == if prefix_size(self.spec_entries().spec_entries(), i as nat)
                    <= u64::MAX {
                    prefix_size(self.spec_entries().spec_entries(), i as nat)
                } else {
                    u64::MAX as nat
                },
            decreases self.spec_entries().spec_len() - i,
        {
            let size: u64 = *self.entries.value_at(i);
            total = if size > u64::MAX - total {
                u64::MAX
            } else {
                total + size
            };
            i = i + 1;
        }
        total
    }
}

impl EvictionPolicy for LruEviction {
    open spec fn policy_wf(&self) -> bool {
        self.wf()
    }

    open spec fn policy_entries(&self) -> TextMap<u64> {
        self.spec_entries()
    }

    /// The key that was used becomes the last to be thrown out; the others
    /// keep their order.
    fn record_access(&mut self, key: &str, size: u64)
        ensures
            final(self).spec_entries().spec_len() > 0,
            final(self).spec_entries().spec_entries().last().key@ == key@,
            final(self).spec_entries().spec_entries().last().value == size,
            final(self).spec_entries().spec_entries().drop_last() == if old(
                self
            ).spec_entries().spec_has(key@) {
                old(self).spec_entries().spec_entries().remove(
                    old(self).spec_entries().spec_index(key@),
                )
            } else {
                old(self).spec_entries().spec_entries()
            },
    {
        LruEviction::record_access(self, key, size);
    }

    fn get_eviction_candidates(&self, space_needed: u64) -> (r: Vec<String>) {
        LruEviction::get_eviction_candidates(self, space_needed)
    }

    fn remove(&mut self, key: &str) {
        LruEviction::remove(self, key);
    }

    fn clear(&mut self) {
        LruEviction::clear(self);
    }

    fn len(&self) -> (r: usize) {
        LruEviction::len(self)
    }

    fn total_size(&self) -> (r: u64) {
        LruEviction::total_size(self)
    }
}

/// What the cache holds, in numbers.
#[derive(Debug, Clone, Copy, PartialEq, Eq, Structural)]
pub struct CacheStats {
    pub total_entries: usize,
    pub total_size_bytes: u64,
    pub max_size_bytes: u64,
}

/// What is known of one cached file: its size, and when it was made, in
/// seconds since the epoch.
#[derive(Debug, Clone, Copy, PartialEq, Eq, Structural)]
pub struct CacheMetadata {
    pub size: u64,
    pub created_at: u64,
}

/// Where the cache keeps its files.
pub struct CacheStorage {
    cache_dir: String,
}

impl CacheStorage {
    pub closed spec fn spec_cache_dir(&self) -> Seq<char> {
        self.cache_dir@
    }

    pub fn new(cache_dir: String) -> (r: Self)
        ensures
            r.spec_cache_dir() == cache_dir@,
    {
        Self { cache_dir }
    }

    pub fn cache_dir(&self) -> (r: &str)
        ensures
            r@ == self.spec_cache_dir(),
    {
        self.cache_dir.as_str()
    }
}

} // verus!
