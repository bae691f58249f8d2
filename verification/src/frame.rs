//! The counter of fixed frames that the solver has run.
use vstd::prelude::*;

verus! {

/// Number of fixed frames run so far, counted modulo 2^32.
#[derive(Debug)]
pub struct FixFrameCount(pub u32);

impl FixFrameCount {
    /// Counts one more fixed frame; after `u32::MAX` the count wraps to 0.
    pub fn advance(&mut self)
        ensures
            final(self).0 == (old(self).0 + 1) % 0x1_0000_0000,
    {
        self.0 = self.0.wrapping_add(1);
    }
}

impl Default for FixFrameCount {
    fn default() -> (count: Self)
        ensures
            count.0 == 0,
    {
        FixFrameCount(0)
    }
}

} // verus!
