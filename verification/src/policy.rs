//! Repair policies: the rules that gate repairs.

use vstd::prelude::*;
use crate::artifact::KintsugiArtifact;
use crate::float_bits::Float64;

verus! {

/// The encoding of `1.1`, the default golden-value multiplier.
pub const DEFAULT_MULTIPLIER_BITS: u64 = 0x3FF1_9999_9999_999A;

/// Configurable rules for repairs. Only the repair cap is enforced here; the
/// other settings are carried for runtimes built on the library.
#[derive(Clone, Debug)]
pub struct KintsugiPolicy {
    pub auto_repair: bool,
    pub golden_value_multiplier: Float64,
    pub max_repairs_per_artifact: Option<usize>,
    pub decay_rate: Float64,
    pub min_golden_value: Float64,
}

impl KintsugiPolicy {
    /// The default settings: automatic repair on, multiplier 1.1, no repair
    /// cap, decay rate and minimum golden value 0.0.
    pub open spec fn is_default(self) -> bool {
        &&& self.auto_repair
        &&& self.golden_value_multiplier.bits == DEFAULT_MULTIPLIER_BITS
        &&& self.max_repairs_per_artifact is None
        &&& self.decay_rate.bits == 0
        &&& self.min_golden_value.bits == 0
    }

    /// A policy with the default settings.
    pub fn new() -> (r: KintsugiPolicy)
        ensures
            r.is_default(),
    {
        KintsugiPolicy::default()
    }

    /// This policy with automatic repair switched on or off.
    pub fn with_auto_repair(self, v: bool) -> (r: KintsugiPolicy)
        ensures
            r == (KintsugiPolicy { auto_repair: v, ..self }),
    {
        KintsugiPolicy { auto_repair: v, ..self }
    }

    /// This policy with the golden-value multiplier set.
    pub fn with_multiplier(self, m: Float64) -> (r: KintsugiPolicy)
        ensures
            r == (KintsugiPolicy { golden_value_multiplier: m, ..self }),
    {
        KintsugiPolicy { golden_value_multiplier: m, ..self }
    }

    /// This policy with a cap of `n` repairs per artifact.
    pub fn with_max_repairs(self, n: usize) -> (r: KintsugiPolicy)
        ensures
            r == (KintsugiPolicy { max_repairs_per_artifact: Some(n), ..self }),
    {
        KintsugiPolicy { max_repairs_per_artifact: Some(n), ..self }
    }

    /// This policy with the decay rate set.
    pub fn with_decay_rate(self, r: Float64) -> (p: KintsugiPolicy)
        ensures
            p == (KintsugiPolicy { decay_rate: r, ..self }),
    {
        KintsugiPolicy { decay_rate: r, ..self }
    }

    /// This policy with the minimum golden value set.
    pub fn with_min_golden_value(self, v: Float64) -> (r: KintsugiPolicy)
        ensures
            r == (KintsugiPolicy { min_golden_value: v, ..self }),
    {
        KintsugiPolicy { min_golden_value: v, ..self }
    }

    /// Whether the artifact's repairs are within the cap: always without a
    /// cap, else when its repair count (as a `usize`) is at most the cap.
    pub fn is_within_limits(&self, artifact: &KintsugiArtifact) -> (r: bool)
        ensures
            r == match self.max_repairs_per_artifact {
                Some(max) => artifact.repair_count as usize <= max,
                None => true,
            },
    {
        match self.max_repairs_per_artifact {
            Some(max) => (artifact.repair_count as usize) <= max,
            None => true,
        }
    }
}

impl Default for KintsugiPolicy {
    fn default() -> (r: KintsugiPolicy)
        ensures
            r.is_default(),
    {
        KintsugiPolicy {
            auto_repair: true,
            golden_value_multiplier: Float64 { bits: DEFAULT_MULTIPLIER_BITS },
            max_repairs_per_artifact: None,
            decay_rate: Float64 { bits: 0 },
            min_golden_value: Float64 { bits: 0 },
        }
    }
}

} // verus!
