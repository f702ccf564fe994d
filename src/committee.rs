use vstd::prelude::*;
use crate::types::{AccountId, H256};
use rand::rngs::SmallRng;
use rand::seq::SliceRandom;
use rand::SeedableRng;

verus! {

/// The 16-byte BLAKE2b digest of `data`.
pub uninterp spec fn blake2_128_of(data: Seq<u8>) -> Seq<u8>;

/// The order in which a SmallRng seeded with `seed` shuffles `ids`.
pub uninterp spec fn shuffled_by_seed(seed: Seq<u8>, ids: Seq<AccountId>) -> Seq<AccountId>;

/// Relies on sp_crypto_hashing::blake2_128: the BLAKE2b digest of the input
/// with a 16-byte output length.
#[verifier::external_body]
fn blake2_128(data: &[u8; 32]) -> (r: [u8; 16])
    ensures
        r@ == blake2_128_of(data@),
{
    sp_crypto_hashing::blake2_128(data)
}

/// Relies on rand 0.8's SmallRng::from_seed and SliceRandom::shuffle: a
/// Fisher-Yates shuffle of a copy of `ids`, driven by a generator seeded with
/// `seed`. It permutes the items, and the order depends on the seed and the
/// input alone (for a given pointer width, which selects SmallRng's algorithm).
#[verifier::external_body]
fn shuffle_with_seed(ids: &Vec<AccountId>, seed: [u8; 32]) -> (r: Vec<AccountId>)
    ensures
        r@ == shuffled_by_seed(seed@, ids@),
        r@.len() == ids@.len(),
        r@.to_multiset() == ids@.to_multiset(),
{
    let mut rng = SmallRng::from_seed(seed);
    let mut out = ids.clone();
    out.shuffle(&mut rng);
    out
}

/// The generator seed for a claim: the 128-bit digest of its hash, zero-extended to 32 bytes.
pub open spec fn seed_of(hash: H256) -> Seq<u8> {
    blake2_128_of(hash.bytes@) + Seq::new(16, |i: int| 0u8)
}

/// `n` clamped into `[lo, hi]`.
pub open spec fn clamp(n: int, lo: int, hi: int) -> int {
    if n < lo {
        lo
    } else if n > hi {
        hi
    } else {
        n
    }
}

/// How many verifiers a committee drawn from `n` has: all of them, up to ten.
pub open spec fn committee_size(n: nat) -> nat {
    if n > 10 {
        10
    } else {
        n
    }
}

/// The committee of a claim: the first members of the pool shuffled by the claim's seed.
pub open spec fn committee_of(hash: H256, pool: Seq<AccountId>) -> Seq<AccountId> {
    shuffled_by_seed(seed_of(hash), pool).take(committee_size(pool.len()) as int)
}

/// The seed of the committee draw for `hash`.
pub fn committee_seed(hash: &H256) -> (r: [u8; 32])
    ensures
        r@ == seed_of(*hash),
{
    let d = blake2_128(&hash.bytes);
    let r: [u8; 32] = [
        d[0], d[1], d[2], d[3], d[4], d[5], d[6], d[7],
        d[8], d[9], d[10], d[11], d[12], d[13], d[14], d[15],
        0, 0, 0, 0, 0, 0, 0, 0, 0, 0, 0, 0, 0, 0, 0, 0,
    ];
    assert(r@ =~= seed_of(*hash));
    r
}

/// A permutation of a sequence without duplicates has none, and holds only its members.
pub proof fn lemma_permutation_distinct(a: Seq<AccountId>, b: Seq<AccountId>)
    requires
        a.to_multiset() == b.to_multiset(),
        a.no_duplicates(),
    ensures
        b.no_duplicates(),
        forall|x: AccountId| b.contains(x) ==> a.contains(x),
{
    a.lemma_multiset_has_no_duplicates();
    b.lemma_multiset_has_no_duplicates_conv();
    assert forall|x: AccountId| b.contains(x) implies a.contains(x) by {
        vstd::seq_lib::to_multiset_contains(b, x);
        vstd::seq_lib::to_multiset_contains(a, x);
    }
}

/// The committee drawn for `hash` from `pool` has `min(|pool|, 10)` members,
/// all from the pool and, for a pool without repeats, pairwise distinct.
pub open spec fn well_drawn(hash: H256, pool: Seq<AccountId>) -> bool {
    let c = committee_of(hash, pool);
    &&& c.len() == committee_size(pool.len())
    &&& pool.no_duplicates() ==> c.no_duplicates()
    &&& forall|x: AccountId| c.contains(x) ==> pool.contains(x)
}

/// Draws the committee for `hash` from `pool`: a seeded shuffle, then its first
/// `min(|pool|, 10)` members.
pub fn select_committee(pool: &Vec<AccountId>, hash: &H256) -> (r: Vec<AccountId>)
    ensures
        r@ == committee_of(*hash, pool@),
        well_drawn(*hash, pool@),
        pool@.len() >= 3 ==> r@.len() == clamp(pool@.len() as int, 3, 10),
{
    let seed = committee_seed(hash);
    let shuffled = shuffle_with_seed(pool, seed);
    let k: usize = if pool.len() > 10 {
        10
    } else {
        pool.len()
    };
    let mut r: Vec<AccountId> = Vec::new();
    let mut i: usize = 0;
    while i < k
        invariant
            k <= shuffled@.len(),
            0 <= i <= k,
            r@ == shuffled@.take(i as int),
        decreases k - i,
    {
        r.push(shuffled[i]);
        i = i + 1;
        assert(r@ =~= shuffled@.take(i as int));
    }
    proof {
        let t = shuffled@.take(k as int);
        assert forall|x: AccountId| t.contains(x) implies shuffled@.contains(x) by {
            let j = choose|j: int| 0 <= j < t.len() && t[j] == x;
            assert(shuffled@[j] == x);
        }
        if pool@.no_duplicates() {
            lemma_permutation_distinct(pool@, shuffled@);
        } else {
            assert forall|x: AccountId| shuffled@.contains(x) implies pool@.contains(x) by {
                vstd::seq_lib::to_multiset_contains(shuffled@, x);
                vstd::seq_lib::to_multiset_contains(pool@, x);
            }
        }
    }
    r
}

/// The committee is a function of the claim's hash and the pool snapshot: equal
/// inputs draw equal committees, on every run and every replica.
pub proof fn lemma_committee_deterministic(h1: H256, h2: H256, p1: Seq<AccountId>, p2: Seq<AccountId>)
    requires
        h1 == h2,
        p1 == p2,
    ensures
        committee_of(h1, p1) == committee_of(h2, p2),
{
}

} // verus!
