use rand::rngs::StdRng;
use rand::Rng;
use rand::SeedableRng;
use vstd::prelude::*;

verus! {

/// Index in `[0, bound)` that a generator seeded with `seed` yields first.
pub uninterp spec fn index_from_seed(seed: Seq<u8>, bound: u32) -> u32;

/// Relies on rand's `StdRng::from_seed` and `Rng::gen_range`: a generator built
/// from a 32-byte seed is deterministic, and `gen_range(0, bound)` returns a value
/// in `[0, bound)` (it panics where `bound` is zero).
#[verifier::external_body]
fn sample_index(seed: [u8; 32], bound: u32) -> (r: u32)
    requires
        bound > 0,
    ensures
        r < bound,
        r == index_from_seed(seed@, bound),
{
    let mut rng: StdRng = SeedableRng::from_seed(seed);
    rng.gen_range(0, bound)
}

/// The seed after a draw: its first byte advanced by one, wrapping.
pub open spec fn perturbed(seed: Seq<u8>) -> Seq<u8> {
    seed.update(0, ((seed[0] + 1) % 256) as u8)
}

/// The seed that a draw at `height` starts from: the ledger's randomness when the
/// height is new, else the seed that the previous draw left.
pub open spec fn seed_for(last_height: u64, seed: Seq<u8>, height: u64, ledger_seed: Seq<u8>) -> Seq<u8> {
    if height != last_height {
        ledger_seed
    } else {
        seed
    }
}

/// Source of bounded draws, fed with the ledger's randomness per height.
pub struct EntropyState {
    pub last_height: u64,
    pub seed: [u8; 32],
}

impl EntropyState {
    /// State at engine start: height zero and an all-zero seed.
    pub fn new() -> (r: EntropyState)
        ensures
            r.last_height == 0,
            r.seed@ == Seq::new(32, |i: int| 0u8),
    {
        let r = EntropyState { last_height: 0, seed: [0u8; 32] };
        proof {
            assert(r.seed@ =~= Seq::new(32, |i: int| 0u8));
        }
        r
    }

    /// Draws an index in `[0, bound)` at ledger `height`, whose randomness is
    /// `ledger_seed`, and advances the seed so that a later draw at the same
    /// height starts elsewhere.
    pub fn draw(&mut self, bound: u32, height: u64, ledger_seed: [u8; 32]) -> (r: u32)
        requires
            bound > 0,
        ensures
            r < bound,
            r == index_from_seed(
                seed_for(old(self).last_height, old(self).seed@, height, ledger_seed@),
                bound,
            ),
            final(self).last_height == height,
            final(self).seed@ == perturbed(
                seed_for(old(self).last_height, old(self).seed@, height, ledger_seed@),
            ),
    {
        if height != self.last_height {
            self.seed = ledger_seed;
            self.last_height = height;
        }
        let r = sample_index(self.seed, bound);
        let first = self.seed[0];
        self.seed[0] = first.wrapping_add(1);
        proof {
            assert(self.seed@ =~= perturbed(
                seed_for(old(self).last_height, old(self).seed@, height, ledger_seed@),
            ));
        }
        r
    }
}

/// A draw never leaves the seed it started from: two draws at one height start
/// from different seeds.
pub proof fn lemma_same_height_draws_differ(
    last_height: u64,
    seed: Seq<u8>,
    height: u64,
    first_ledger_seed: Seq<u8>,
    second_ledger_seed: Seq<u8>,
)
    requires
        seed.len() == 32,
        first_ledger_seed.len() == 32,
        second_ledger_seed.len() == 32,
    ensures
        ({
            let first = seed_for(last_height, seed, height, first_ledger_seed);
            let second = seed_for(height, perturbed(first), height, second_ledger_seed);
            second != first
        }),
{
    let first = seed_for(last_height, seed, height, first_ledger_seed);
    assert(perturbed(first)[0] != first[0]);
}

} // verus!
