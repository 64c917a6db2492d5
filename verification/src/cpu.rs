use vstd::prelude::*;

verus! {

/// Ordered CPU instruction-set tiers for this architecture.  `Rust` is the
/// portable baseline, which never has accelerated kernels; `Neon` is the
/// vector tier.  Every dispatch table has exactly one row per tier.
#[derive(Clone, Copy, PartialEq, Eq, Structural, Debug)]
pub enum CpuFeatureLevel {
    Rust,
    Neon,
}

/// Number of capability tiers: the row count of every dispatch table.
pub const CPU_LEVEL_COUNT: usize = 2;

/// Table row assigned to a capability tier.
pub open spec fn spec_cpu_index(cpu: CpuFeatureLevel) -> int {
    match cpu {
        CpuFeatureLevel::Rust => 0,
        CpuFeatureLevel::Neon => 1,
    }
}

impl CpuFeatureLevel {
    /// Bijective, total mapping of a tier to its dispatch-table row.
    pub fn as_index(self) -> (r: usize)
        ensures
            r == spec_cpu_index(self),
            r < CPU_LEVEL_COUNT,
    {
        match self {
            CpuFeatureLevel::Rust => 0,
            CpuFeatureLevel::Neon => 1,
        }
    }
}

/// Every capability level maps inside the table bounds.
pub proof fn lemma_cpu_index_total(cpu: CpuFeatureLevel)
    ensures
        0 <= spec_cpu_index(cpu) < CPU_LEVEL_COUNT,
{
}

} // verus!
