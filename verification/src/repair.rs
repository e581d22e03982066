//! A single break and the repair that answered it.

use vstd::prelude::*;
use crate::break_type::BreakType;
use crate::float_bits::Float64;

verus! {

/// One break-repair event on an artifact.
#[derive(Clone, Debug)]
pub struct KintsugiRepair {
    pub id: String,
    pub artifact_id: String,
    pub break_type: BreakType,
    /// When the break happened (milliseconds since the epoch).
    pub break_time: u64,
    /// When the repair was done (milliseconds since the epoch).
    pub repair_time: u64,
    /// The value that the repair added.
    pub golden_value: Float64,
    pub repair_description: String,
    /// What the repair taught.
    pub lessons: Vec<String>,
    /// Who or what performed the repair.
    pub repairer: String,
}

impl KintsugiRepair {
    /// The time from break to repair, or zero when the repair is not later
    /// than the break.
    pub open spec fn duration_view(self) -> int {
        if self.repair_time >= self.break_time {
            self.repair_time - self.break_time
        } else {
            0
        }
    }

    /// A repair record with the given fields.
    pub fn new(
        id: &str,
        artifact_id: &str,
        break_type: BreakType,
        break_time: u64,
        repair_time: u64,
        golden_value: Float64,
        repair_description: &str,
        lessons: Vec<String>,
        repairer: &str,
    ) -> (r: KintsugiRepair)
        ensures
            r.id@ == id@,
            r.artifact_id@ == artifact_id@,
            r.break_type == break_type,
            r.break_time == break_time,
            r.repair_time == repair_time,
            r.golden_value == golden_value,
            r.repair_description@ == repair_description@,
            r.lessons == lessons,
            r.repairer@ == repairer@,
    {
        KintsugiRepair {
            id: id.to_owned(),
            artifact_id: artifact_id.to_owned(),
            break_type,
            break_time,
            repair_time,
            golden_value,
            repair_description: repair_description.to_owned(),
            lessons,
            repairer: repairer.to_owned(),
        }
    }

    /// The time from break to repair, saturating at zero.
    pub fn duration(&self) -> (r: u64)
        ensures
            r == self.duration_view(),
    {
        self.repair_time.saturating_sub(self.break_time)
    }
}

} // verus!
