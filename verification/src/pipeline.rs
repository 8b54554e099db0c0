//! Build-pipeline classification: content-addressing a freshly built artifact
//! and comparing it against the cached record of the last deploy.

use vstd::prelude::*;
use crate::cache::{ArtifactCache, ArtifactRecord, CacheKey, RecordModel, cache_key};
use sha2::Digest;

verus! {

/// The digest that content-addresses an artifact: a function of the bytes
/// alone, computed by the trusted wrapper below.
pub uninterp spec fn digest_of(bytes: Seq<u8>) -> Seq<u8>;

/// Relies on `sha2::Sha256` (`Digest::digest`): the digest depends on the
/// input bytes alone and is 32 bytes long.
#[verifier::external_body]
fn sha256_digest(bytes: &Vec<u8>) -> (r: Vec<u8>)
    ensures
        r@ == digest_of(bytes@),
        r@.len() == 32,
{
    sha2::Sha256::digest(bytes.as_slice()).to_vec()
}

/// An element-for-element copy of a byte vector.
pub fn copy_bytes(v: &Vec<u8>) -> (r: Vec<u8>)
    ensures
        r@ == v@,
{
    let mut r: Vec<u8> = Vec::new();
    let n = v.len();
    let mut i: usize = 0;
    while i < n
        invariant
            0 <= i <= n,
            n == v@.len(),
            r@ =~= v@.subrange(0, i as int),
        decreases n - i,
    {
        r.push(v[i]);
        i = i + 1;
    }
    proof {
        assert(r@ =~= v@);
    }
    r
}

/// The per-pass, per-contract verdict driving deploy behaviour.
#[derive(Clone, Copy, PartialEq, Eq, Structural, Debug)]
pub enum BuildClassification {
    Unchanged,
    New,
    Updated,
}

/// What a freshly built artifact classifies as, given the cached record of the
/// last deploy (if any) and the new content hash.
pub open spec fn spec_classify(record: Option<RecordView>, hash: Seq<u8>) -> BuildClassification {
    match record {
        Option::None => BuildClassification::New,
        Option::Some(r) => if r == hash {
            BuildClassification::Unchanged
        } else {
            BuildClassification::Updated
        },
    }
}

/// The hash stored in a cached record, if one exists.
pub type RecordView = Seq<u8>;

/// Classify a contract for this pass: no record means `New`; a record with the
/// same hash means `Unchanged`; a record with a different hash means `Updated`.
pub fn classify(record: Option<&ArtifactRecord>, hash: &Vec<u8>) -> (c: BuildClassification)
    ensures
        c == spec_classify(
            match record {
                Option::None => Option::None,
                Option::Some(r) => Option::Some(r.hash@),
            },
            hash@,
        ),
{
    match record {
        Option::None => BuildClassification::New,
        Option::Some(r) => {
            if bytes_eq(&r.hash, hash) {
                BuildClassification::Unchanged
            } else {
                BuildClassification::Updated
            }
        },
    }
}

/// The hash recorded for this environment and contract, if a deploy was ever
/// recorded for it.
pub open spec fn cached_hash(
    m: Map<CacheKey, RecordModel>,
    env: Seq<char>,
    contract: Seq<char>,
) -> Option<Seq<u8>> {
    if m.dom().contains(cache_key(env, contract)) {
        Option::Some(m[cache_key(env, contract)].hash)
    } else {
        Option::None
    }
}

/// Content-address a freshly built artifact and classify the contract for
/// this pass against the cache: the hash is the digest of the artifact bytes,
/// and the classification compares it with the recorded hash, if any.
pub fn classify_artifact(cache: &ArtifactCache, env: &str, contract: &str, artifact: &Vec<u8>) -> (r:
    (Vec<u8>, BuildClassification))
    requires
        cache.wf(),
    ensures
        r.0@ == digest_of(artifact@),
        r.1 == spec_classify(cached_hash(cache@, env@, contract@), digest_of(artifact@)),
{
    let hash = sha256_digest(artifact);
    let record = cache.lookup(env, contract);
    let class = classify(record, &hash);
    (hash, class)
}

/// Idempotence of the pipeline: once a deploy of hash `h` is recorded for a
/// contract, rebuilding the identical artifact classifies it `Unchanged`, so
/// the pass performs no further work for it.
pub proof fn lemma_idempotence(
    m: Map<CacheKey, RecordModel>,
    env: Seq<char>,
    contract: Seq<char>,
    h: Seq<u8>,
)
    requires
        m.dom().contains(cache_key(env, contract)),
        m[cache_key(env, contract)].hash == h,
    ensures
        spec_classify(cached_hash(m, env, contract), h) is Unchanged,
{
}

/// Hash sensitivity: a contract whose artifact hash changed classifies as
/// `Updated`, while any contract whose hash is unchanged classifies as
/// `Unchanged` — a change to one contract's source never reclassifies
/// another.
pub proof fn lemma_hash_sensitivity(
    m: Map<CacheKey, RecordModel>,
    env: Seq<char>,
    changed: Seq<char>,
    unchanged: Seq<char>,
    new_hash: Seq<u8>,
)
    requires
        m.dom().contains(cache_key(env, changed)),
        m[cache_key(env, changed)].hash != new_hash,
        m.dom().contains(cache_key(env, unchanged)),
    ensures
        spec_classify(cached_hash(m, env, changed), new_hash) is Updated,
        spec_classify(
            cached_hash(m, env, unchanged),
            m[cache_key(env, unchanged)].hash,
        ) is Unchanged,
{
}

/// Byte-for-byte equality of two byte vectors.
pub fn bytes_eq(a: &Vec<u8>, b: &Vec<u8>) -> (r: bool)
    ensures
        r <==> a@ == b@,
{
    if a.len() != b.len() {
        proof {
            assert(a@.len() != b@.len());
        }
        return false;
    }
    let n = a.len();
    let mut i: usize = 0;
    while i < n
        invariant
            0 <= i <= n,
            n == a@.len() == b@.len(),
            forall|j: int| 0 <= j < i ==> a@[j] == b@[j],
        decreases n - i,
    {
        if a[i] != b[i] {
            return false;
        }
        i = i + 1;
    }
    proof {
        assert(a@ =~= b@);
    }
    true
}

} // verus!
