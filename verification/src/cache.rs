use vstd::prelude::*;

use crate::key::CacheKey;
use crate::model::distinct_keys;
use crate::model::evict_to_fit;
use crate::model::has_key;
use crate::model::lemma_evict_to_fit_absent;
use crate::model::lemma_evict_to_fit_fits;
use crate::model::lemma_total_weight_push;
use crate::model::lemma_total_weight_remove;
use crate::model::total_weight;
use crate::weight::Weighted;

verus! {

/// The ways a cache operation can fail.
#[derive(Debug, PartialEq, Eq)]
pub enum LruError {
    /// A value's weight exceeds the per-item ceiling; insertion is rejected.
    ExceedsMaximumWeight,
    /// Construction was requested with a zero count or zero per-item weight.
    NonsenseParameters,
}

/// One cached key/value pair.
#[derive(Debug)]
pub struct LruCacheItem<K, V> {
    pub key: K,
    pub value: V,
}

impl<K, V> LruCacheItem<K, V> {
    /// Build an entry from a key and a value.
    pub fn new(key: K, value: V) -> (r: LruCacheItem<K, V>)
        ensures
            r.key == key,
            r.value == value,
    {
        LruCacheItem { key, value }
    }
}

/// A least-recently-used cache whose fullness is decided by the total
/// weight of the stored values rather than by their count.
///
/// The live entries are kept in recency order, least recently inserted
/// first; the view of the cache is that sequence, each entry abstracted to
/// the identity of its key paired with the stored value.  The sum of the
/// weights of the live values never exceeds `max_item_weight * max_count`.
#[derive(Debug)]
pub struct LruWeightedCache<K, V> {
    /// Live entries, least recently inserted first.
    entries: Vec<LruCacheItem<K, V>>,
    /// The largest weight a single admitted value may have.
    max_item_weight: usize,
    /// The weight budget: `max_item_weight * max_count`.
    max_total_weight: usize,
    /// The sum of the weights of the live values.
    current_weight: usize,
}

impl<K: CacheKey, V: Weighted> View for LruWeightedCache<K, V> {
    type V = Seq<(Seq<u8>, V)>;

    closed spec fn view(&self) -> Seq<(Seq<u8>, V)> {
        self.entries@.map_values(|e: LruCacheItem<K, V>| (e.key.key_id(), e.value))
    }
}

impl<K: CacheKey, V: Weighted> LruWeightedCache<K, V> {
    /// The per-item weight ceiling this cache was built with.
    pub closed spec fn spec_max_item_weight(&self) -> usize {
        self.max_item_weight
    }

    /// The total weight budget this cache was built with.
    pub closed spec fn spec_max_total_weight(&self) -> usize {
        self.max_total_weight
    }

    /// The recorded sum of the weights of the live values.
    pub closed spec fn spec_current_weight(&self) -> usize {
        self.current_weight
    }

    /// Well-formedness: the recorded weight is the true sum of the live
    /// values' weights and stays within the budget, no two entries share a
    /// key, and every live value fits the per-item ceiling.
    pub closed spec fn wf(&self) -> bool {
        &&& 1 <= self.max_item_weight
        &&& self.max_item_weight <= self.max_total_weight
        &&& self.current_weight == total_weight(self@)
        &&& self.current_weight <= self.max_total_weight
        &&& distinct_keys(self@)
        &&& forall|i: int|
            0 <= i < self@.len() ==> (#[trigger] self@[i]).1.spec_weight() <= self.max_item_weight
    }

    /// Build a new cache able to hold `max_count` values of at most
    /// `max_item_weight` each, or any other mix of values whose weights sum
    /// to at most `max_count * max_item_weight`.
    pub fn new(max_count: usize, max_item_weight: usize) -> (r: Result<
        LruWeightedCache<K, V>,
        LruError,
    >)
        requires
            max_count * max_item_weight <= usize::MAX,
        ensures
            (r is Err) <==> (max_count == 0 || max_item_weight == 0),
            match r {
                Ok(c) => {
                    &&& c.wf()
                    &&& c@ == Seq::<(Seq<u8>, V)>::empty()
                    &&& c.spec_max_item_weight() == max_item_weight
                    &&& c.spec_max_total_weight() == max_count * max_item_weight
                    &&& c.spec_current_weight() == 0
                },
                Err(e) => e == LruError::NonsenseParameters,
            },
    {
        if max_count == 0 || max_item_weight == 0 {
            return Err(LruError::NonsenseParameters);
        }
        let max_total_weight = max_item_weight * max_count;
        let c = LruWeightedCache {
            entries: Vec::new(),
            max_item_weight,
            max_total_weight,
            current_weight: 0,
        };
        proof {
            assert(c@ =~= Seq::<(Seq<u8>, V)>::empty());
            assert(max_item_weight * 1 <= max_item_weight * max_count) by (nonlinear_arith)
                requires
                    1 <= max_count,
                    0 <= max_item_weight,
            ;
        }
        Ok(c)
    }

    /// True exactly when the value's weight does not exceed the per-item
    /// ceiling, so that `insert` would admit it.  Does not consider current
    /// occupancy: room is made by eviction, not refused by admission.
    pub fn will_accept(&mut self, value: &V) -> (r: bool)
        ensures
            *final(self) == *old(self),
            r == (value.spec_weight() <= old(self).spec_max_item_weight()),
    {
        value.weight() <= self.max_item_weight
    }

    /// The number of live entries.
    pub fn len(&self) -> (n: usize)
        ensures
            n == self@.len(),
    {
        self.entries.len()
    }

    /// True exactly when the cache holds no entry.
    pub fn is_empty(&self) -> (r: bool)
        ensures
            r == (self@.len() == 0),
    {
        self.entries.len() == 0
    }

    /// The current total weight of the cache.
    pub fn weight(&self) -> (w: usize)
        requires
            self.wf(),
        ensures
            w == total_weight(self@),
            w <= self.spec_max_total_weight(),
    {
        self.current_weight
    }

    /// The position of the entry whose key has the same identity as `key`,
    /// if one is live.
    fn find_index(&self, key: &K) -> (r: Option<usize>)
        ensures
            match r {
                Some(i) => i < self@.len() && self@[i as int].0 == key.key_id(),
                None => !has_key(self@, key.key_id()),
            },
    {
        let n = self.entries.len();
        let mut i: usize = 0;
        while i < n
            invariant
                n == self.entries@.len(),
                i <= n,
                forall|j: int| 0 <= j < i ==> (#[trigger] self@[j]).0 != key.key_id(),
            decreases n - i,
        {
            if self.entries[i].key.same_key(key) {
                return Some(i);
            }
            i = i + 1;
        }
        None
    }

    /// True exactly when a live entry carries the identity of `key`.
    pub fn contains_key(&self, key: &K) -> (r: bool)
        ensures
            r == has_key(self@, key.key_id()),
    {
        self.find_index(key).is_some()
    }

    /// Look the key up without touching the recency order: a lookup is a
    /// pure read with respect to the eviction policy, so only insertion or
    /// replacement affects which entry is discarded next.
    pub fn get(&mut self, key: &K) -> (r: Option<&V>)
        ensures
            *final(self) == *old(self),
            (r is Some) <==> has_key(old(self)@, key.key_id()),
            match r {
                Some(v) => exists|i: int|
                    0 <= i < old(self)@.len() && (#[trigger] old(self)@[i]).0 == key.key_id()
                        && *v == old(self)@[i].1,
                None => true,
            },
    {
        match self.find_index(key) {
            Some(i) => Some(&self.entries[i].value),
            None => None,
        }
    }

    /// Remove the entry carrying the identity of `key`, if one is live, and
    /// hand its value back.  The order of the remaining entries is kept.
    pub fn remove(&mut self, key: &K) -> (r: Option<V>)
        requires
            old(self).wf(),
        ensures
            final(self).wf(),
            final(self).spec_max_item_weight() == old(self).spec_max_item_weight(),
            final(self).spec_max_total_weight() == old(self).spec_max_total_weight(),
            (r is Some) <==> has_key(old(self)@, key.key_id()),
            match r {
                Some(v) => exists|i: int|
                    0 <= i < old(self)@.len() && (#[trigger] old(self)@[i]).0 == key.key_id()
                        && v == old(self)@[i].1 && final(self)@ == old(self)@.remove(i),
                None => *final(self) == *old(self),
            },
    {
        let ghost s0 = self@;
        match self.find_index(key) {
            None => None,
            Some(i) => {
                let ghost ii = i as int;
                let entry = self.entries.remove(i);
                let vw = entry.value.weight();
                proof {
                    assert(self@ =~= s0.remove(ii));
                    lemma_total_weight_remove(s0, ii);
                    assert(forall|a: int|
                        0 <= a < s0.remove(ii).len() ==> #[trigger] s0.remove(ii)[a] == (if a < ii {
                            s0[a]
                        } else {
                            s0[a + 1]
                        }));
                }
                self.current_weight = self.current_weight - vw;
                Some(entry.value)
            },
        }
    }

    /// Discard least-recently-inserted entries until a value of weight `w`
    /// would fit within the budget beside the remaining entries.
    fn eject(&mut self, w: usize)
        requires
            old(self).wf(),
            w <= old(self).spec_max_item_weight(),
        ensures
            final(self).wf(),
            final(self)@ == evict_to_fit(
                old(self)@,
                w as nat,
                old(self).spec_max_total_weight() as nat,
            ),
            final(self).spec_max_item_weight() == old(self).spec_max_item_weight(),
            final(self).spec_max_total_weight() == old(self).spec_max_total_weight(),
            final(self).spec_current_weight() + w <= final(self).spec_max_total_weight(),
    {
        let ghost s0 = self@;
        let ghost cap = self.max_total_weight as nat;
        while self.current_weight > self.max_total_weight - w
            invariant
                self.wf(),
                w <= self.spec_max_item_weight(),
                self.spec_max_item_weight() == old(self).spec_max_item_weight(),
                self.spec_max_total_weight() == old(self).spec_max_total_weight(),
                cap == self.spec_max_total_weight() as nat,
                evict_to_fit(self@, w as nat, cap) == evict_to_fit(s0, w as nat, cap),
            decreases self@.len(),
        {
            proof {
                if self@.len() == 0 {
                    assert(total_weight(self@) == 0);
                }
            }
            let ghost pre = self@;
            let victim = self.entries.remove(0);
            let vw = victim.value.weight();
            proof {
                assert(self@ =~= pre.drop_first());
                assert(pre.remove(0) =~= pre.drop_first());
                lemma_total_weight_remove(pre, 0);
                assert(forall|a: int|
                    0 <= a < pre.drop_first().len() ==> #[trigger] pre.drop_first()[a] == pre[a
                        + 1]);
                assert(evict_to_fit(pre, w as nat, cap) == evict_to_fit(
                    pre.drop_first(),
                    w as nat,
                    cap,
                ));
            }
            self.current_weight = self.current_weight - vw;
        }
    }

    /// Put a key/value pair into the cache, discarding the least recently
    /// inserted entries as necessary until the value fits.  A value whose
    /// weight exceeds the per-item ceiling is rejected and nothing changes.
    /// If the key is already present its entry is replaced and becomes the
    /// most recently used; otherwise a new entry is added as the most
    /// recently used.
    pub fn insert(&mut self, key: K, value: V) -> (r: Result<(), LruError>)
        requires
            old(self).wf(),
        ensures
            final(self).wf(),
            final(self).spec_max_item_weight() == old(self).spec_max_item_weight(),
            final(self).spec_max_total_weight() == old(self).spec_max_total_weight(),
            (r is Err) <==> value.spec_weight() > old(self).spec_max_item_weight(),
            match r {
                Err(e) => {
                    &&& e == LruError::ExceedsMaximumWeight
                    &&& *final(self) == *old(self)
                },
                Ok(_) => ({
                    let id = key.key_id();
                    let w = value.spec_weight() as nat;
                    let cap = old(self).spec_max_total_weight() as nat;
                    if has_key(old(self)@, id) {
                        exists|i: int|
                            0 <= i < old(self)@.len() && (#[trigger] old(self)@[i]).0 == id
                                && final(self)@ == evict_to_fit(old(self)@.remove(i), w, cap).push(
                                (id, value),
                            )
                    } else {
                        final(self)@ == evict_to_fit(old(self)@, w, cap).push((id, value))
                    }
                }),
            },
    {
        let w = value.weight();
        if w > self.max_item_weight {
            return Err(LruError::ExceedsMaximumWeight);
        }
        let ghost s0 = self@;
        let ghost id = key.key_id();
        let ghost cap = self.max_total_weight as nat;
        let found = self.find_index(&key);
        let ghost mut witness: int = 0;
        match found {
            Some(i) => {
                proof {
                    witness = i as int;
                }
                let ghost ii = i as int;
                let entry = self.entries.remove(i);
                let ow = entry.value.weight();
                proof {
                    assert(self@ =~= s0.remove(ii));
                    lemma_total_weight_remove(s0, ii);
                    assert(forall|a: int|
                        0 <= a < s0.remove(ii).len() ==> #[trigger] s0.remove(ii)[a] == (if a < ii {
                            s0[a]
                        } else {
                            s0[a + 1]
                        }));
                }
                self.current_weight = self.current_weight - ow;
            },
            None => {},
        }
        let ghost mid = self@;
        proof {
            assert(!has_key(mid, id)) by {
                if has_key(mid, id) {
                    let j = choose|j: int| 0 <= j < mid.len() && (#[trigger] mid[j]).0 == id;
                    if found is Some {
                        assert(mid[j] == (if j < witness {
                            s0[j]
                        } else {
                            s0[j + 1]
                        }));
                    }
                }
            }
        }
        self.eject(w);
        let ghost t = self@;
        proof {
            lemma_evict_to_fit_absent(mid, w as nat, cap, id);
            lemma_evict_to_fit_fits(mid, w as nat, cap);
        }
        self.current_weight = self.current_weight + w;
        self.entries.push(LruCacheItem::new(key, value));
        proof {
            assert(self@ =~= t.push((id, value)));
            lemma_total_weight_push(t, (id, value));
            assert(distinct_keys(self@)) by {
                assert(forall|a: int| 0 <= a < t.len() ==> #[trigger] self@[a] == t[a]);
                assert(self@[t.len() as int].0 == id);
                assert(forall|a: int| 0 <= a < t.len() ==> (#[trigger] t[a]).0 != id);
            }
        }
        Ok(())
    }
}

/// Law: a well-formed cache's recorded total weight is exactly the sum of
/// the weights of the values it holds, it never exceeds the weight budget
/// the cache was built with, and no two live entries share a key.  Every
/// cache built by `new` is well-formed, and every operation keeps it so,
/// so this holds after every completed call.
pub proof fn lemma_weight_invariant<K: CacheKey, V: Weighted>(c: &LruWeightedCache<K, V>)
    requires
        c.wf(),
    ensures
        c.spec_current_weight() == total_weight(c@),
        total_weight(c@) <= c.spec_max_total_weight(),
        distinct_keys(c@),
{
}

/// Law: re-inserting a key that is already live replaces its value and its
/// weight without changing the number of entries, whenever the replacement
/// fits the budget without forcing an eviction.  The state `insert` leaves
/// behind in that case — evicting nothing from the sequence less the old
/// entry, then appending the replacement — has as many entries as before,
/// and the replacement is the most recently used.
pub proof fn lemma_replace_keeps_len<V: Weighted>(s: Seq<(Seq<u8>, V)>, i: int, v: V, cap: nat)
    requires
        0 <= i < s.len(),
        total_weight(s.remove(i)) + v.spec_weight() <= cap,
    ensures
        evict_to_fit(s.remove(i), v.spec_weight() as nat, cap).push((s[i].0, v)).len() == s.len(),
        evict_to_fit(s.remove(i), v.spec_weight() as nat, cap).push((s[i].0, v)).last() == (
            s[i].0,
            v,
        ),
{
}

} // verus!
