//! A seedable random-number source for rule code.
use vstd::prelude::*;
use rand::Rng;
use rand::SeedableRng;
use rand_chacha::ChaCha20Rng;

verus! {

#[verifier::external_type_specification]
#[verifier::external_body]
pub struct ExChaCha20Rng(ChaCha20Rng);

/// Relies on `rand_core::SeedableRng::seed_from_u64` for `ChaCha20Rng`: a
/// generator whose stream is fixed by `seed`.
#[verifier::external_body]
fn rng_from_seed(seed: u64) -> ChaCha20Rng {
    ChaCha20Rng::seed_from_u64(seed)
}

/// Relies on `rand_core::SeedableRng::from_rng` with `rand::thread_rng`: a
/// generator seeded from the thread's generator, or `None` when that fails.
#[verifier::external_body]
fn rng_from_thread() -> Option<ChaCha20Rng> {
    ChaCha20Rng::from_rng(rand::thread_rng()).ok()
}

/// Relies on `rand::Rng::gen_range` on a `Range<u64>`: a value in
/// `lo..hi`; it panics on an empty range, which `requires` leaves out.
#[verifier::external_body]
fn draw_in_range(rng: &mut ChaCha20Rng, lo: u64, hi: u64) -> (r: u64)
    requires
        lo < hi,
    ensures
        lo <= r < hi,
{
    rng.gen_range(lo..hi)
}

/// Relies on `rand::Rng::gen::<u64>`: any `u64`.
#[verifier::external_body]
fn draw_any(rng: &mut ChaCha20Rng) -> u64 {
    rng.gen::<u64>()
}

/// A ChaCha20 generator, with the seed it was last given, if any.
pub struct Random {
    rng: ChaCha20Rng,
    seed: Option<u64>,
}

impl Random {
    /// The seed that fixed the current stream, if the generator was seeded
    /// explicitly.
    pub closed spec fn seed_spec(&self) -> Option<u64> {
        self.seed
    }

    /// A generator seeded from the thread's generator; `None` when that
    /// generator fails.
    pub fn new() -> (r: Option<Random>)
        ensures
            r matches Some(g) ==> g.seed_spec() is None,
    {
        match rng_from_thread() {
            Some(rng) => Some(Random { rng, seed: None }),
            None => None,
        }
    }

    /// A generator whose stream is fixed by `seed`.
    pub fn new_seed(seed: u64) -> (r: Random)
        ensures
            r.seed_spec() == Some(seed),
    {
        Random { rng: rng_from_seed(seed), seed: Some(seed) }
    }

    /// A value below `max` when one is given, else any value.
    pub fn random(&mut self, max: Option<u64>) -> (r: u64)
        requires
            max matches Some(m) ==> m > 0,
        ensures
            final(self).seed_spec() == old(self).seed_spec(),
            max matches Some(m) ==> r < m,
    {
        match max {
            Some(m) => draw_in_range(&mut self.rng, 0, m),
            None => draw_any(&mut self.rng),
        }
    }

    /// A value in `range`.
    pub fn range(&mut self, range: std::ops::Range<u64>) -> (r: u64)
        requires
            range.start < range.end,
        ensures
            final(self).seed_spec() == old(self).seed_spec(),
            range.start <= r < range.end,
    {
        draw_in_range(&mut self.rng, range.start, range.end)
    }

    /// Restarts the stream from `seed`.
    pub fn seed(&mut self, seed: u64)
        ensures
            final(self).seed_spec() == Some(seed),
    {
        self.seed = Some(seed);
        self.rng = rng_from_seed(seed);
    }
}

} // verus!
