use vstd::prelude::*;

verus! {

/// One xorshift step: the whole generator is this pure function, so every
/// draw is determined by the seed alone.
pub open spec fn rng_next(s: u64) -> u64 {
    let a = (s ^ (s << 13)) as u64;
    let b = (a ^ (a >> 7)) as u64;
    (b ^ (b << 17)) as u64
}

/// A small deterministic pseudo-random generator for picking stitch
/// texture variants; identical seeds give identical draws on every run.
pub struct Random {
    pub state: u64,
}

impl Random {
    pub fn new_from_seed(seed: u64) -> (r: Random)
        ensures
            r.state == seed,
    {
        Random { state: seed }
    }

    /// Draws a value below `bound`.
    pub fn u32_bounded_exclusive(&mut self, bound: u32) -> (r: u32)
        requires
            bound >= 1,
        ensures
            final(self).state == rng_next(old(self).state),
            r == rng_next(old(self).state) % (bound as u64),
            r < bound,
    {
        let a: u64 = self.state ^ (self.state << 13);
        let b: u64 = a ^ (a >> 7);
        let next: u64 = b ^ (b << 17);
        self.state = next;
        (next % (bound as u64)) as u32
    }
}

} // verus!
