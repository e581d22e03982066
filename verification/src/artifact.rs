//! Artifacts: software components that accumulate repairs.

use vstd::prelude::*;
use crate::clock::{decimal_digits, decimal_text, uuid_stamp};
use crate::float_bits::Float64;
use crate::repair::KintsugiRepair;

verus! {

/// A repairable software component and the history of its repairs.
#[derive(Clone, Debug)]
pub struct KintsugiArtifact {
    pub id: String,
    pub name: String,
    pub artifact_type: String,
    pub original_value: Float64,
    pub break_count: u64,
    pub repair_count: u64,
    pub current_value: Float64,
    pub repairs: Vec<KintsugiRepair>,
}

/// The encoding of `1.0`, the value a new artifact starts with.
pub const ONE_BITS: u64 = 0x3FF0_0000_0000_0000;

/// The index of the repair that `Iterator::max_by_key` on durations returns:
/// the last of the repairs with the longest duration.
pub open spec fn longest_repair_index(s: Seq<KintsugiRepair>) -> int
    decreases s.len(),
{
    if s.len() <= 1 {
        0
    } else {
        let i = longest_repair_index(s.drop_last());
        if s[i].duration_view() > s.last().duration_view() {
            i
        } else {
            s.len() - 1
        }
    }
}

/// The index of the repair that `Iterator::max_by` on golden values returns,
/// where incomparable values (NaN) count as equal: a repair replaces the one
/// held so far unless the one held so far is strictly greater.
pub open spec fn strongest_repair_index(s: Seq<KintsugiRepair>) -> int
    decreases s.len(),
{
    if s.len() <= 1 {
        0
    } else {
        let i = strongest_repair_index(s.drop_last());
        if s.last().golden_value.less(s[i].golden_value) {
            i
        } else {
            s.len() - 1
        }
    }
}

/// The identifier of a new artifact with the given name and clock stamp:
/// `artifact-<name>-<stamp in decimal>`.
pub fn artifact_id(name: &str, stamp: u64) -> (r: String)
    ensures
        r@ == "artifact-"@ + name@ + "-"@ + decimal_digits(stamp),
{
    let digits = decimal_text(stamp);
    let mut id = "artifact-".to_owned();
    id.append(name);
    id.append("-");
    id.append(digits.as_str());
    id
}

impl KintsugiArtifact {
    /// A repair with identifier `repair_id` is among this artifact's repairs.
    pub open spec fn holds_repair(self, repair_id: Seq<char>) -> bool {
        exists|k: int| 0 <= k < self.repairs@.len() && (#[trigger] self.repairs@[k]).id@ == repair_id
    }

    /// Whether a repair with identifier `repair_id` is among this artifact's
    /// repairs.
    pub fn has_repair(&self, repair_id: &String) -> (r: bool)
        ensures
            r == self.holds_repair(repair_id@),
    {
        let len = self.repairs.len();
        let mut k: usize = 0;
        while k < len
            invariant
                len == self.repairs@.len(),
                0 <= k <= len,
                forall|j: int| 0 <= j < k ==> (#[trigger] self.repairs@[j]).id@ != repair_id@,
            decreases len - k,
        {
            if self.repairs[k].id == *repair_id {
                return true;
            }
            k = k + 1;
        }
        false
    }

    /// `self` is `before` after one break and its repair `repair`, with the
    /// current value `value`: both counts grow by one, the repair is appended,
    /// everything else stays.
    pub open spec fn records_repair(self, before: KintsugiArtifact, repair: KintsugiRepair, value: Float64) -> bool {
        &&& self.id == before.id
        &&& self.name == before.name
        &&& self.artifact_type == before.artifact_type
        &&& self.original_value == before.original_value
        &&& self.break_count == before.break_count + 1
        &&& self.repair_count == before.repair_count + 1
        &&& self.current_value == value
        &&& self.repairs@ == before.repairs@.push(repair)
    }

    /// A new artifact with value 1.0 and no repairs. Its identifier is
    /// `artifact-<name>-<stamp>`, where the stamp is the clock reading of
    /// [`uuid_stamp`] in decimal.
    pub fn new(name: &str, artifact_type: &str) -> (r: KintsugiArtifact)
        ensures
            exists|stamp: u64| r.id@ == "artifact-"@ + name@ + "-"@ + #[trigger] decimal_digits(stamp),
            r.name@ == name@,
            r.artifact_type@ == artifact_type@,
            r.original_value.bits == ONE_BITS,
            r.current_value.bits == ONE_BITS,
            r.break_count == 0,
            r.repair_count == 0,
            r.repairs@.len() == 0,
    {
        let stamp: u64 = uuid_stamp();
        let id = artifact_id(name, stamp);
        KintsugiArtifact {
            id,
            name: name.to_owned(),
            artifact_type: artifact_type.to_owned(),
            original_value: Float64 { bits: ONE_BITS },
            break_count: 0,
            repair_count: 0,
            current_value: Float64 { bits: ONE_BITS },
            repairs: Vec::new(),
        }
    }

    /// This artifact with its identifier replaced.
    pub fn with_id(self, id: &str) -> (r: KintsugiArtifact)
        ensures
            r.id@ == id@,
            r.name == self.name,
            r.artifact_type == self.artifact_type,
            r.original_value == self.original_value,
            r.break_count == self.break_count,
            r.repair_count == self.repair_count,
            r.current_value == self.current_value,
            r.repairs == self.repairs,
    {
        let mut a = self;
        a.id = id.to_owned();
        a
    }

    /// This artifact with both its original and its current value set to `v`.
    pub fn with_original_value(self, v: Float64) -> (r: KintsugiArtifact)
        ensures
            r.id == self.id,
            r.name == self.name,
            r.artifact_type == self.artifact_type,
            r.original_value == v,
            r.break_count == self.break_count,
            r.repair_count == self.repair_count,
            r.current_value == v,
            r.repairs == self.repairs,
    {
        let mut a = self;
        a.original_value = v;
        a.current_value = v;
        a
    }

    /// Records a break and its repair: both counts grow by one, the repair is
    /// kept, and the repair's golden value is added to the current value by
    /// `sum`, which computes the binary64 sum of its arguments.
    pub fn break_and_repair<F: Fn(Float64, Float64) -> Float64>(&mut self, repair: KintsugiRepair, sum: F)
        requires
            old(self).break_count < u64::MAX,
            old(self).repair_count < u64::MAX,
            call_requires(sum, (old(self).current_value, repair.golden_value)),
        ensures
            call_ensures(sum, (old(self).current_value, repair.golden_value), final(self).current_value),
            final(self).records_repair(*old(self), repair, final(self).current_value),
    {
        self.break_count = self.break_count + 1;
        self.repair_count = self.repair_count + 1;
        let value = sum(self.current_value, repair.golden_value);
        self.current_value = value;
        self.repairs.push(repair);
    }

    /// Whether the current value is above the original value.
    pub fn is_more_valuable(&self) -> (r: bool)
        ensures
            r == self.original_value.less(self.current_value),
    {
        self.original_value.less_than(&self.current_value)
    }

    /// The repair that took longest (the last of them on a tie); `None`
    /// without repairs.
    pub fn weakest_break(&self) -> (r: Option<&KintsugiRepair>)
        ensures
            match r {
                None => self.repairs@.len() == 0,
                Some(x) => self.repairs@.len() > 0 && *x == self.repairs@[longest_repair_index(self.repairs@)],
            },
    {
        let len = self.repairs.len();
        if len == 0 {
            return None;
        }
        let mut best: usize = 0;
        let mut k: usize = 1;
        while k < len
            invariant
                len == self.repairs@.len(),
                1 <= k <= len,
                best == longest_repair_index(self.repairs@.take(k as int)),
                best < k,
            decreases len - k,
        {
            let ghost prefix = self.repairs@.take(k as int);
            assert(self.repairs@.take(k + 1).drop_last() =~= prefix);
            assert(prefix[best as int] == self.repairs@[best as int]);
            if self.repairs[best].duration() > self.repairs[k].duration() {
            } else {
                best = k;
            }
            k = k + 1;
        }
        assert(self.repairs@.take(len as int) =~= self.repairs@);
        Some(&self.repairs[best])
    }

    /// The repair with the greatest golden value (the last of them on a tie,
    /// NaN comparing equal to everything); `None` without repairs.
    pub fn strongest_repair(&self) -> (r: Option<&KintsugiRepair>)
        ensures
            match r {
                None => self.repairs@.len() == 0,
                Some(x) => self.repairs@.len() > 0 && *x == self.repairs@[strongest_repair_index(self.repairs@)],
            },
    {
        let len = self.repairs.len();
        if len == 0 {
            return None;
        }
        let mut best: usize = 0;
        let mut k: usize = 1;
        while k < len
            invariant
                len == self.repairs@.len(),
                1 <= k <= len,
                best == strongest_repair_index(self.repairs@.take(k as int)),
                best < k,
            decreases len - k,
        {
            let ghost prefix = self.repairs@.take(k as int);
            assert(self.repairs@.take(k + 1).drop_last() =~= prefix);
            assert(prefix[best as int] == self.repairs@[best as int]);
            if self.repairs[k].golden_value.less_than(&self.repairs[best].golden_value) {
            } else {
                best = k;
            }
            k = k + 1;
        }
        assert(self.repairs@.take(len as int) =~= self.repairs@);
        Some(&self.repairs[best])
    }
}

/// Law: the repair that `weakest_break` returns took longest: no repair took
/// longer, and every later one took strictly less time.
pub proof fn lemma_longest_repair_index(s: Seq<KintsugiRepair>)
    requires
        s.len() > 0,
    ensures
        0 <= longest_repair_index(s) < s.len(),
        forall|j: int| 0 <= j < s.len() ==> (#[trigger] s[j]).duration_view() <= s[longest_repair_index(s)].duration_view(),
        forall|j: int| longest_repair_index(s) < j < s.len()
            ==> (#[trigger] s[j]).duration_view() < s[longest_repair_index(s)].duration_view(),
    decreases s.len(),
{
    if s.len() > 1 {
        let d = s.drop_last();
        lemma_longest_repair_index(d);
        assert forall|j: int| 0 <= j < d.len() implies #[trigger] s[j] == d[j] by {}
    }
}

/// Law: when no golden value is NaN, the repair that `strongest_repair`
/// returns has the greatest golden value, and every later repair a strictly
/// smaller one.
pub proof fn lemma_strongest_repair_index(s: Seq<KintsugiRepair>)
    requires
        s.len() > 0,
        forall|j: int| 0 <= j < s.len() ==> !(#[trigger] s[j]).golden_value.nan(),
    ensures
        0 <= strongest_repair_index(s) < s.len(),
        forall|j: int| 0 <= j < s.len() ==> (#[trigger] s[j]).golden_value.key() <= s[strongest_repair_index(s)].golden_value.key(),
        forall|j: int| strongest_repair_index(s) < j < s.len()
            ==> (#[trigger] s[j]).golden_value.key() < s[strongest_repair_index(s)].golden_value.key(),
    decreases s.len(),
{
    if s.len() > 1 {
        let d = s.drop_last();
        assert forall|j: int| 0 <= j < d.len() implies #[trigger] s[j] == d[j] by {}
        lemma_strongest_repair_index(d);
    }
}

/// Law: a recorded repair keeps an artifact's counts in step with its repair
/// history: if both counts equalled the number of repairs before, they do after.
pub proof fn lemma_repair_keeps_counts_in_step(
    before: KintsugiArtifact,
    after: KintsugiArtifact,
    repair: KintsugiRepair,
    value: Float64,
)
    requires
        after.records_repair(before, repair, value),
        before.break_count == before.repairs@.len(),
        before.repair_count == before.repairs@.len(),
    ensures
        after.break_count == after.repairs@.len(),
        after.repair_count == after.repairs@.len(),
{
}

/// The golden values of a sequence of repairs.
pub open spec fn golden_values(rs: Seq<KintsugiRepair>) -> Seq<Float64> {
    rs.map_values(|r: KintsugiRepair| r.golden_value)
}

/// `partials` are the running sums of `start` and `goldens`, each step
/// computed by `sum`: the first is `start`, and each next one is a result of
/// `sum` on the one before and the next golden value.
pub open spec fn is_value_chain<F: Fn(Float64, Float64) -> Float64>(
    sum: F,
    start: Float64,
    goldens: Seq<Float64>,
    partials: Seq<Float64>,
) -> bool {
    &&& partials.len() == goldens.len() + 1
    &&& partials[0] == start
    &&& forall|i: int| #![trigger goldens[i]] 0 <= i < goldens.len() ==> call_ensures(sum, (partials[i], goldens[i]), partials[i + 1])
}

/// Law: an artifact that has no repairs holds its original value as the
/// (empty) running sum of its golden values.
pub proof fn lemma_unrepaired_value_chain<F: Fn(Float64, Float64) -> Float64>(a: KintsugiArtifact, sum: F)
    requires
        a.repairs@.len() == 0,
        a.current_value == a.original_value,
    ensures
        is_value_chain(sum, a.original_value, golden_values(a.repairs@), seq![a.current_value]),
{
}

/// Law: value accrues. When an artifact's current value is the running sum
/// of its original value and the golden values of its repairs, it still is
/// after `break_and_repair`: the current value equals the original value plus
/// every golden value, added in the order of the repairs.
pub proof fn lemma_repair_accrues_value<F: Fn(Float64, Float64) -> Float64>(
    before: KintsugiArtifact,
    after: KintsugiArtifact,
    repair: KintsugiRepair,
    sum: F,
    partials: Seq<Float64>,
)
    requires
        is_value_chain(sum, before.original_value, golden_values(before.repairs@), partials),
        partials.last() == before.current_value,
        after.records_repair(before, repair, after.current_value),
        call_ensures(sum, (before.current_value, repair.golden_value), after.current_value),
    ensures
        is_value_chain(sum, after.original_value, golden_values(after.repairs@), partials.push(after.current_value)),
        partials.push(after.current_value).last() == after.current_value,
{
    let g0 = golden_values(before.repairs@);
    let g1 = golden_values(after.repairs@);
    let p1 = partials.push(after.current_value);
    assert(g1 =~= g0.push(repair.golden_value));
    assert forall|i: int| #![trigger g1[i]] 0 <= i < g1.len() implies call_ensures(sum, (p1[i], g1[i]), p1[i + 1]) by {
        if i < g0.len() {
            assert(g1[i] == g0[i]);
            assert(p1[i] == partials[i]);
            assert(p1[i + 1] == partials[i + 1]);
        } else {
            assert(p1[i] == partials.last());
        }
    }
}

} // verus!
