//! The artifact cache: the durable memory that makes rebuilds idempotent.
//!
//! Each record pairs the content hash of the last successfully deployed
//! artifact with the on-chain contract identifier it was deployed under,
//! keyed by environment name and contract name. `commit` is the only
//! mutator; `lookup` never changes the cache.

use vstd::prelude::*;
use vstd::map::*;
use crate::text::str_eq;

verus! {

/// The persisted memory of one successful deploy: the content hash of the
/// artifact and the on-chain identifier of the contract instance.
pub struct ArtifactRecord {
    pub hash: Vec<u8>,
    pub contract_id: String,
}

/// The mathematical model of a record: the hash bytes and the identifier text.
pub struct RecordModel {
    pub hash: Seq<u8>,
    pub contract_id: Seq<char>,
}

impl ArtifactRecord {
    pub open spec fn model(&self) -> RecordModel {
        RecordModel { hash: self.hash@, contract_id: self.contract_id@ }
    }
}

/// A cache key: an environment name paired with a contract name.
#[verifier::ext_equal]
pub struct CacheKey {
    pub env: Seq<char>,
    pub contract: Seq<char>,
}

pub open spec fn cache_key(env: Seq<char>, contract: Seq<char>) -> CacheKey {
    CacheKey { env, contract }
}

/// One cache entry: an (environment name, contract name) key with its record.
pub struct CacheEntry {
    pub env: String,
    pub contract: String,
    pub record: ArtifactRecord,
}

impl CacheEntry {
    pub open spec fn key(&self) -> CacheKey {
        cache_key(self.env@, self.contract@)
    }
}

/// The cache of artifact records, keyed by environment name and contract name.
///
/// Modelled as a map from keys to record models; the entry list holds each
/// key at most once.
pub struct ArtifactCache {
    pub entries: Vec<CacheEntry>,
}

impl View for ArtifactCache {
    type V = Map<CacheKey, RecordModel>;

    open spec fn view(&self) -> Map<CacheKey, RecordModel> {
        Map::new(
            |k: CacheKey|
                exists|i: int| 0 <= i < self.entries@.len() && (#[trigger] self.entries@[i]).key()
                    == k,
            |k: CacheKey|
                {
                    let i = choose|i: int|
                        0 <= i < self.entries@.len() && (#[trigger] self.entries@[i]).key() == k;
                    self.entries@[i].record.model()
                },
        )
    }
}

impl ArtifactCache {
    /// No two entries share a key, so the map view determines each entry.
    pub open spec fn wf(&self) -> bool {
        forall|i: int, j: int|
            0 <= i < j < self.entries@.len() ==> (#[trigger] self.entries@[i]).key() != (
            #[trigger] self.entries@[j]).key()
    }

    pub fn new() -> (r: ArtifactCache)
        ensures
            r.wf(),
            r@ === Map::empty(),
    {
        let r = ArtifactCache { entries: Vec::new() };
        proof {
            assert(r@ =~= Map::<CacheKey, RecordModel>::empty());
        }
        r
    }

    /// In a well-formed cache, entry `i` is the unique witness for its key, so
    /// the map view at that key is exactly entry `i`'s record.
    proof fn lemma_view_at(&self, i: int)
        requires
            self.wf(),
            0 <= i < self.entries@.len(),
        ensures
            self@.dom().contains(self.entries@[i].key()),
            self@[self.entries@[i].key()] == self.entries@[i].record.model(),
    {
        let k = self.entries@[i].key();
        assert(self.entries@[i].key() == k);
        let j = choose|j: int|
            0 <= j < self.entries@.len() && (#[trigger] self.entries@[j]).key() == k;
        if i != j {
            assert(false);
        }
    }

    /// The last deploy recorded for this environment and contract, if any.
    pub fn lookup(&self, env: &str, contract: &str) -> (r: Option<&ArtifactRecord>)
        requires
            self.wf(),
        ensures
            r is Some <==> self@.dom().contains(cache_key(env@, contract@)),
            r matches Some(rec) ==> self@[cache_key(env@, contract@)] == rec.model(),
    {
        let ghost key = cache_key(env@, contract@);
        let n = self.entries.len();
        let mut i: usize = 0;
        while i < n
            invariant
                0 <= i <= n,
                n == self.entries@.len(),
                self.wf(),
                key == cache_key(env@, contract@),
                forall|j: int| 0 <= j < i ==> (#[trigger] self.entries@[j]).key() != key,
            decreases n - i,
        {
            let e = &self.entries[i];
            if str_eq(e.env.as_str(), env) && str_eq(e.contract.as_str(), contract) {
                proof {
                    assert(self.entries@[i as int].key() =~= key);
                    self.lemma_view_at(i as int);
                }
                return Some(&self.entries[i].record);
            }
            proof {
                assert(self.entries@[i as int].key() != key);
            }
            i = i + 1;
        }
        proof {
            assert(!self@.dom().contains(key));
        }
        None
    }

    /// Record a successful deploy: overwrite the record for this key, or add
    /// one if it is the first successful deploy of this contract here.
    #[verifier::loop_isolation(false)]
    pub fn commit(&mut self, env: &str, contract: &str, record: ArtifactRecord)
        requires
            old(self).wf(),
        ensures
            final(self).wf(),
            final(self)@ == old(self)@.insert(cache_key(env@, contract@), record.model()),
    {
        let ghost key = cache_key(env@, contract@);
        let ghost target = old(self)@.insert(key, record.model());
        let n = self.entries.len();
        let mut i: usize = 0;
        while i < n
            invariant
                0 <= i <= n,
                n == self.entries@.len(),
                self == old(self),
                self.wf(),
                key == cache_key(env@, contract@),
                forall|j: int| 0 <= j < i ==> (#[trigger] self.entries@[j]).key() != key,
            decreases n - i,
        {
            let e = &self.entries[i];
            if str_eq(e.env.as_str(), env) && str_eq(e.contract.as_str(), contract) {
                let new_entry = CacheEntry {
                    env: env.to_owned(),
                    contract: contract.to_owned(),
                    record,
                };
                let ghost old_cache = *self;
                proof {
                    assert(old_cache.entries@[i as int].key() =~= key);
                }
                self.entries.set(i, new_entry);
                proof {
                    assert(self.entries@[i as int].key() =~= key);
                    assert forall|p: int, q: int|
                        0 <= p < q < self.entries@.len() implies (
                    #[trigger] self.entries@[p]).key() != (#[trigger] self.entries@[q]).key() by {
                        assert(old_cache.entries@[p].key() == self.entries@[p].key() || p == i as int);
                        assert(old_cache.entries@[q].key() == self.entries@[q].key() || q == i as int);
                    }
                    assert_maps_equal!(self@, target, k => {
                        if k == key {
                            self.lemma_view_at(i as int);
                        } else {
                            if old_cache@.dom().contains(k) {
                                let j = choose|j: int|
                                    0 <= j < old_cache.entries@.len()
                                        && (#[trigger] old_cache.entries@[j]).key() == k;
                                assert(j != i as int);
                                assert(self.entries@[j].key() == k);
                                old_cache.lemma_view_at(j);
                                self.lemma_view_at(j);
                            }
                            if self@.dom().contains(k) {
                                let j = choose|j: int|
                                    0 <= j < self.entries@.len()
                                        && (#[trigger] self.entries@[j]).key() == k;
                                assert(j != i as int);
                                assert(old_cache.entries@[j].key() == k);
                            }
                        }
                    });
                }
                return ;
            }
            proof {
                assert(self.entries@[i as int].key() != key);
            }
            i = i + 1;
        }
        let new_entry = CacheEntry { env: env.to_owned(), contract: contract.to_owned(), record };
        let ghost old_cache = *self;
        self.entries.push(new_entry);
        proof {
            let last = old_cache.entries@.len() as int;
            assert(self.entries@[last].key() =~= key);
            assert forall|p: int, q: int|
                0 <= p < q < self.entries@.len() implies (#[trigger] self.entries@[p]).key() != (
            #[trigger] self.entries@[q]).key() by {
                if q == last {
                    assert(self.entries@[p] == old_cache.entries@[p]);
                }
            }
            assert_maps_equal!(self@, target, k => {
                if k == key {
                    self.lemma_view_at(last);
                } else {
                    if old_cache@.dom().contains(k) {
                        let j = choose|j: int|
                            0 <= j < old_cache.entries@.len()
                                && (#[trigger] old_cache.entries@[j]).key() == k;
                        assert(self.entries@[j].key() == k);
                        old_cache.lemma_view_at(j);
                        self.lemma_view_at(j);
                    }
                    if self@.dom().contains(k) {
                        let j = choose|j: int|
                            0 <= j < self.entries@.len() && (#[trigger] self.entries@[j]).key()
                                == k;
                        assert(j != last);
                        assert(old_cache.entries@[j].key() == k);
                    }
                }
            });
        }
    }
}

} // verus!
