//! The pseudo-random number generator that orders subnets and friends.

use rand::rngs::OsRng;
use rand::rngs::StdRng;
use rand::seq::SliceRandom;
use rand::Rng;
use rand::SeedableRng;
use vstd::prelude::*;

verus! {

#[verifier::external_type_specification]
#[verifier::external_body]
pub struct ExStdRng(rand::rngs::StdRng);

/// `StdRng::seed_from_u64` of the rand crate: a generator whose output is fixed by `seed`.
/// Nothing is claimed of the generator.
#[verifier::external_body]
fn std_rng_from_seed(seed: u64) -> StdRng {
    StdRng::seed_from_u64(seed)
}

/// `StdRng::from_rng` of the rand crate with the operating system's generator as the source:
/// a generator seeded from the system's entropy, or nothing where the system gives none.
/// Nothing is claimed of the generator.
#[verifier::external_body]
fn std_rng_from_os() -> Option<StdRng> {
    StdRng::from_rng(OsRng).ok()
}

/// `SliceRandom::shuffle` of the rand crate on the items of a vector. The crate shuffles by
/// exchanging pairs of items, so the claim is that the vector holds the same items as before,
/// each as often as before. Nothing is claimed of their order.
#[verifier::external_body]
fn shuffle_items<T>(items: &mut Vec<T>, rng: &mut StdRng)
    ensures
        final(items)@.to_multiset() == old(items)@.to_multiset(),
{
    items.shuffle(rng);
}

/// `Rng::gen_range` of the rand crate on the range from 0 up to `bound`, which the crate
/// refuses when it is empty: a number below `bound`.
#[verifier::external_body]
fn std_rng_below(rng: &mut StdRng, bound: u32) -> (value: u32)
    requires
        bound > 0,
    ensures
        value < bound,
{
    rng.gen_range(0..bound)
}

/// `Rng::fill` of the rand crate on the bytes of a vector: the bytes are replaced by random
/// ones, and their number stays.
#[verifier::external_body]
fn std_rng_fill(rng: &mut StdRng, data: &mut Vec<u8>)
    ensures
        final(data)@.len() == old(data)@.len(),
{
    rng.fill(&mut data[..]);
}

/// Whether `b` holds the items of `a`, each as often as `a` does.
pub open spec fn is_permutation<T>(a: Seq<T>, b: Seq<T>) -> bool {
    a.to_multiset() == b.to_multiset()
}

/// A permutation of a sequence has its length and its members, and has no duplicates if the
/// sequence has none.
pub proof fn lemma_permutation<T>(a: Seq<T>, b: Seq<T>)
    requires
        is_permutation(a, b),
    ensures
        a.len() == b.len(),
        forall|x: T| a.contains(x) <==> b.contains(x),
        a.to_set() == b.to_set(),
        a.no_duplicates() ==> b.no_duplicates(),
{
    vstd::seq_lib::to_multiset_len(a);
    vstd::seq_lib::to_multiset_len(b);
    assert forall|x: T| a.contains(x) <==> b.contains(x) by {
        vstd::seq_lib::to_multiset_contains(a, x);
        vstd::seq_lib::to_multiset_contains(b, x);
    }
    assert(a.to_set() =~= b.to_set());
    if a.no_duplicates() {
        a.lemma_multiset_has_no_duplicates();
        b.lemma_multiset_has_no_duplicates_conv();
    }
}

/// A seedable generator of permutations.
pub struct Prng {
    core: StdRng,
}

impl Prng {
    /// A generator that produces the same permutations whenever it is made from the same seed.
    pub fn from_seed(seed: u64) -> (rng: Prng) {
        Prng { core: std_rng_from_seed(seed) }
    }

    /// A generator seeded by the operating system, or `None` where the system has no entropy
    /// to give.
    pub fn from_os() -> (rng: Option<Prng>) {
        match std_rng_from_os() {
            Some(core) => Some(Prng { core }),
            None => None,
        }
    }

    /// A random number below `bound`, or 0 where `bound` is 0.
    pub fn below(&mut self, bound: u32) -> (value: u32)
        ensures
            bound > 0 ==> value < bound,
            bound == 0 ==> value == 0,
    {
        if bound == 0 {
            0
        } else {
            std_rng_below(&mut self.core, bound)
        }
    }

    /// `len` random bytes.
    pub fn random_bytes(&mut self, len: usize) -> (data: Vec<u8>)
        ensures
            data@.len() == len,
    {
        let mut data: Vec<u8> = Vec::new();
        let mut i: usize = 0;
        while i < len
            invariant
                i <= len,
                data@.len() == i,
            decreases len - i,
        {
            data.push(0u8);
            i = i + 1;
        }
        std_rng_fill(&mut self.core, &mut data);
        data
    }

    /// Puts the items of `items` in a random order.
    pub fn shuffle<T>(&mut self, items: &mut Vec<T>)
        ensures
            is_permutation(old(items)@, final(items)@),
            final(items)@.len() == old(items)@.len(),
    {
        shuffle_items(items, &mut self.core);
        proof {
            lemma_permutation(old(items)@, items@);
        }
    }
}

} // verus!
