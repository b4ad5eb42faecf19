use vstd::prelude::*;

verus! {

/// One xorshift64 step: shifts by 13 left, 7 right and 17 left, each
/// folded in with exclusive or.
pub open spec fn xorshift(x: u64) -> u64 {
    let a = x ^ (x << 13u64);
    let b = a ^ (a >> 7u64);
    b ^ (b << 17u64)
}

/// A xorshift64 generator of pseudo-random numbers.
pub struct RNG(pub u64);

impl RNG {
    pub fn new(seed: u64) -> (r: Self)
        ensures
            r.0 == seed,
    {
        RNG(seed)
    }

    /// Advances the state and hands back the new state.
    pub fn next(&mut self) -> (r: u64)
        ensures
            r == xorshift(old(self).0),
            final(self).0 == r,
    {
        let mut x = self.0;
        x = x ^ (x << 13u64);
        x = x ^ (x >> 7u64);
        x = x ^ (x << 17u64);
        self.0 = x;
        x
    }
}

} // verus!
