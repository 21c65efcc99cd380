//! The random generator behind the word pools, and the record of what it
//! handed out.

use rand::rngs::{OsRng, StdRng};
use rand::{Rng, SeedableRng};
use vstd::prelude::*;

verus! {

#[verifier::external_type_specification]
#[verifier::external_body]
pub struct ExStdRng(StdRng);

/// `StdRng::from_rng(OsRng)`: a generator seeded from the operating system's
/// random source, or `None` when that source fails (rand reports the failure
/// as an error rather than panicking). Whether it fails, and the generator's
/// state, depend on the machine, so nothing is stated of them.
#[verifier::external_body]
fn rng_from_os() -> Option<StdRng> {
    StdRng::from_rng(OsRng).ok()
}

/// `StdRng::seed_from_u64`: a generator whose sequence depends on `seed`
/// alone. Nothing is stated of its state.
#[verifier::external_body]
fn rng_seeded(seed: u64) -> StdRng {
    StdRng::seed_from_u64(seed)
}

/// `Rng::gen_range(0..n)`: a uniformly drawn index below `n`, returned with
/// the bound it was drawn below. rand panics on an empty range, hence
/// `n > 0`. Which index comes up is chance, so only its range is stated.
#[verifier::external_body]
fn rng_below(rng: &mut StdRng, n: usize) -> (r: (usize, usize))
    requires
        n > 0,
    ensures
        r.0 < n,
        r.1 == n,
{
    (rng.gen_range(0..n), n)
}

/// A random generator that keeps a record of every index it hands out. Only
/// `below` adds to the record, and only with what the generator returned.
pub struct Generator {
    rng: StdRng,
    outputs: Ghost<Seq<(nat, nat)>>,
}

impl Generator {
    /// Every index handed out so far, in order: the bound it was drawn below
    /// and the index itself.
    pub closed spec fn outputs(&self) -> Seq<(nat, nat)> {
        self.outputs@
    }

    /// A generator seeded from the operating system, with nothing handed out
    /// yet; `None` when the system cannot supply a seed.
    pub fn from_os() -> (r: Option<Generator>)
        ensures
            r matches Some(g) ==> g.outputs() == Seq::<(nat, nat)>::empty(),
    {
        match rng_from_os() {
            Some(rng) => Some(Generator { rng, outputs: Ghost(Seq::empty()) }),
            None => None,
        }
    }

    /// A generator whose sequence depends on `seed` alone, with nothing
    /// handed out yet.
    pub fn seeded(seed: u64) -> (g: Generator)
        ensures
            g.outputs() == Seq::<(nat, nat)>::empty(),
    {
        Generator { rng: rng_seeded(seed), outputs: Ghost(Seq::empty()) }
    }

    /// A uniformly drawn index below `n`, recorded with its bound.
    pub fn below(&mut self, n: usize) -> (r: usize)
        requires
            n > 0,
        ensures
            r < n,
            final(self).outputs() == old(self).outputs().push((n as nat, r as nat)),
    {
        let (r, b) = rng_below(&mut self.rng, n);
        self.outputs = Ghost(self.outputs@.push((b as nat, r as nat)));
        r
    }
}

} // verus!
