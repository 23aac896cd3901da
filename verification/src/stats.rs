//! Per-inference measurements.

use vstd::prelude::*;

verus! {

/// Timings and cache counters for one inference.
///
/// Returned rather than logged, so that the caller decides the sampling
/// policy.
#[derive(Clone, Copy, Debug, PartialEq, Eq)]
pub struct Stats {
    /// Wall time of the hardware epochs, summed.
    pub hw_us: u32,
    /// Wall time of the CPU-side operators, summed.
    pub sw_us: u32,
    pub hw_ops: u32,
    pub sw_ops: u32,
    /// Cache read hits and misses across the whole schedule. A miss is a
    /// weight or activation fetch that went out to NOR or PSRAM.
    pub cache_read_hits: u32,
    pub cache_read_misses: u32,
}

impl Default for Stats {
    /// Nothing measured yet.
    fn default() -> (stats: Self)
        ensures
            stats == Stats::zero(),
    {
        Stats {
            hw_us: 0,
            sw_us: 0,
            hw_ops: 0,
            sw_ops: 0,
            cache_read_hits: 0,
            cache_read_misses: 0,
        }
    }
}

impl Stats {
    /// Nothing measured yet.
    pub open spec fn zero() -> Stats {
        Stats {
            hw_us: 0,
            sw_us: 0,
            hw_ops: 0,
            sw_ops: 0,
            cache_read_hits: 0,
            cache_read_misses: 0,
        }
    }

    /// Total time attributable to the schedule itself, modulo the counter's
    /// range.
    pub fn total_us(&self) -> (us: u32)
        ensures
            us == (self.hw_us + self.sw_us) % 0x1_0000_0000,
    {
        self.hw_us.wrapping_add(self.sw_us)
    }

    /// Before anything is measured every count is zero.
    pub proof fn law_nothing_is_measured_at_first()
        ensures
            Stats::zero().hw_us == 0 && Stats::zero().sw_us == 0,
            Stats::zero().hw_ops == 0 && Stats::zero().sw_ops == 0,
            Stats::zero().cache_read_hits == 0 && Stats::zero().cache_read_misses == 0,
    {
    }
}

} // verus!
