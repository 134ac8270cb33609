//! Units shared by the whole library.
//!
//! Depths are whole millimetres, times whole seconds and gradient factors
//! hundredths of a percent, so that every quantity the statistics touch is an
//! exact integer.
use vstd::prelude::*;

verus! {

/// Elapsed time, in seconds.
pub type Seconds = u64;

/// Depth below the surface, in millimetres.
pub type Depth = u64;

/// A gradient factor, in hundredths of a percent (`7050` is 70.5 %).
pub type GF = u64;

/// Gradient factors (low, high) in whole percent.
pub type GradientFactorsSetting = (u8, u8);

/// Millimetres in one metre.
pub const MM_PER_METRE: u64 = 1000;

/// Hundredths of a percent in one percent.
pub const GF_PER_PERCENT: u64 = 100;

/// The whole of a breathing gas: gas fractions are given in ten-thousandths.
pub const FRACTION_ONE: u32 = 10000;

/// Oxygen fraction of air, in ten-thousandths.
pub const AIR_O2: u32 = 2100;

/// A breathing gas by its oxygen and helium fractions (ten-thousandths); the
/// rest is nitrogen.
#[derive(Clone, Copy, Debug, PartialEq, Eq, Structural)]
pub struct Gas {
    pub o2: u32,
    pub he: u32,
}

impl Gas {
    /// The fractions are each at most the whole, and together too.
    pub open spec fn wf(self) -> bool {
        self.o2 + self.he <= FRACTION_ONE
    }

    /// The gas breathed before any switch: 21 % oxygen, no helium.
    pub fn air() -> (r: Gas)
        ensures
            r == (Gas { o2: AIR_O2, he: 0 }),
            r.wf(),
    {
        Gas { o2: AIR_O2, he: 0 }
    }

    /// Nitrogen fraction: what oxygen and helium leave of the whole.
    pub fn n2(&self) -> (r: u32)
        requires
            self.wf(),
        ensures
            r == FRACTION_ONE - self.o2 - self.he,
    {
        FRACTION_ONE - self.o2 - self.he
    }
}

/// A (depth, seconds) table as mathematical integers.
pub open spec fn table_view(v: Seq<(u64, u64)>) -> Seq<(nat, nat)> {
    v.map_values(|e: (u64, u64)| (e.0 as nat, e.1 as nat))
}

} // verus!
