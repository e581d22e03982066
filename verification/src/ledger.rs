//! The ledger: the registry of artifacts, their repairs and what they taught.

use vstd::prelude::*;
use crate::artifact::KintsugiArtifact;
use crate::distribution::{tally, CategoryCounts};
use crate::error::KintsugiError;
use crate::float_bits::Float64;
use crate::ranking::{int_keys, is_descending_ranking, rank_descending, lemma_ranking_prefix_is_top};
use crate::repair::KintsugiRepair;

verus! {

/// No two artifacts share an identifier.
pub open spec fn ids_distinct(s: Seq<KintsugiArtifact>) -> bool {
    forall|i: int, j: int|
        0 <= i < s.len() && 0 <= j < s.len() && i != j ==> (#[trigger] s[i]).id@ != (#[trigger] s[j]).id@
}

/// Some artifact has the identifier `id`.
pub open spec fn has_id(s: Seq<KintsugiArtifact>, id: Seq<char>) -> bool {
    exists|i: int| 0 <= i < s.len() && (#[trigger] s[i]).id@ == id
}

/// The artifact with identifier `id` already holds a repair with identifier
/// `repair_id`.
pub open spec fn already_repaired(s: Seq<KintsugiArtifact>, id: Seq<char>, repair_id: Seq<char>) -> bool {
    exists|i: int| 0 <= i < s.len() && (#[trigger] s[i]).id@ == id && s[i].holds_repair(repair_id)
}

/// The artifact with identifier `id`, if there is one.
pub open spec fn lookup(s: Seq<KintsugiArtifact>, id: Seq<char>) -> Option<KintsugiArtifact> {
    if has_id(s, id) {
        Some(s[choose|i: int| 0 <= i < s.len() && (#[trigger] s[i]).id@ == id])
    } else {
        None
    }
}

/// Every repair of every artifact, artifact by artifact, each artifact's
/// repairs in the order they were recorded.
pub open spec fn all_repairs(s: Seq<KintsugiArtifact>) -> Seq<KintsugiRepair>
    decreases s.len(),
{
    if s.len() == 0 {
        seq![]
    } else {
        all_repairs(s.drop_last()) + s.last().repairs@
    }
}

/// The break categories of a sequence of repairs.
pub open spec fn categories_of(rs: Seq<KintsugiRepair>) -> Seq<Seq<char>> {
    rs.map_values(|r: KintsugiRepair| r.break_type.category_view())
}

/// The lessons of a sequence of repairs, repair by repair.
pub open spec fn lessons_of(rs: Seq<KintsugiRepair>) -> Seq<Seq<char>>
    decreases rs.len(),
{
    if rs.len() == 0 {
        seq![]
    } else {
        lessons_of(rs.drop_last()) + rs.last().lessons@.map_values(|l: String| l@)
    }
}

/// The ranking keys of artifacts by their number of breaks.
pub open spec fn break_keys(s: Seq<KintsugiArtifact>) -> Seq<int> {
    s.map_values(|a: KintsugiArtifact| a.break_count as int)
}

/// The ranking keys of artifacts by their current value (NaN lowest).
pub open spec fn value_keys(s: Seq<KintsugiArtifact>) -> Seq<int> {
    s.map_values(|a: KintsugiArtifact| a.current_value.rank_key())
}

/// The ranking keys of a sequence of scores (NaN lowest).
pub open spec fn score_keys(scores: Seq<Float64>) -> Seq<int> {
    scores.map_values(|f: Float64| f.rank_key())
}

/// `r` lists the first `n` (or all, if fewer) artifacts of `s` in the
/// descending ranking by `keys`, in which equal keys keep the ledger's order.
pub open spec fn lists_top(s: Seq<KintsugiArtifact>, keys: Seq<int>, n: int, r: Seq<&KintsugiArtifact>) -> bool {
    &&& r.len() == if n < s.len() { n } else { s.len() as int }
    &&& exists|order: Seq<usize>|
        #[trigger] is_descending_ranking(keys, order) && forall|p: int| 0 <= p < r.len() ==> *r[p] == s[order[p] as int]
}

/// The registry of artifacts. Artifacts are kept in the order in which they
/// were first registered, and no two share an identifier.
#[derive(Debug)]
pub struct KintsugiLedger {
    artifacts: Vec<KintsugiArtifact>,
    total_breaks: u64,
    total_repairs: u64,
}

impl KintsugiLedger {
    /// The registered artifacts, in registration order.
    pub closed spec fn entries(self) -> Seq<KintsugiArtifact> {
        self.artifacts@
    }

    /// The number of breaks recorded through the ledger.
    pub closed spec fn breaks(self) -> u64 {
        self.total_breaks
    }

    /// The number of repairs recorded through the ledger.
    pub closed spec fn repairs_recorded(self) -> u64 {
        self.total_repairs
    }

    /// The ledger's invariant: no two artifacts share an identifier.
    #[verifier::type_invariant]
    pub closed spec fn wf(self) -> bool {
        ids_distinct(self.artifacts@)
    }

    /// The invariant, stated over the registered artifacts.
    pub proof fn lemma_wf(self)
        ensures
            self.wf() == ids_distinct(self.entries()),
    {
    }

    /// `self` is `before` with `a` registered: an artifact with the same
    /// identifier is replaced in place, otherwise `a` is appended; the totals
    /// stay.
    pub open spec fn is_registration(self, before: KintsugiLedger, a: KintsugiArtifact) -> bool {
        &&& self.breaks() == before.breaks()
        &&& self.repairs_recorded() == before.repairs_recorded()
        &&& if has_id(before.entries(), a.id@) {
            &&& self.entries().len() == before.entries().len()
            &&& forall|i: int| 0 <= i < before.entries().len() ==>
                #[trigger] self.entries()[i] == if before.entries()[i].id@ == a.id@ { a } else { before.entries()[i] }
        } else {
            self.entries() == before.entries().push(a)
        }
    }

    /// `self` is `before` after the repair `repair` was recorded on the
    /// artifact with identifier `id`, its value summed by `sum`: both totals
    /// grow by one, that artifact records the repair, the others stay.
    pub open spec fn is_recorded_repair<F: Fn(Float64, Float64) -> Float64>(
        self,
        before: KintsugiLedger,
        id: Seq<char>,
        repair: KintsugiRepair,
        sum: F,
    ) -> bool {
        &&& self.breaks() == before.breaks() + 1
        &&& self.repairs_recorded() == before.repairs_recorded() + 1
        &&& self.entries().len() == before.entries().len()
        &&& forall|i: int| 0 <= i < before.entries().len() ==>
            if before.entries()[i].id@ == id {
                &&& call_ensures(sum, (before.entries()[i].current_value, repair.golden_value), (#[trigger] self.entries()[i]).current_value)
                &&& self.entries()[i].records_repair(before.entries()[i], repair, self.entries()[i].current_value)
            } else {
                self.entries()[i] == before.entries()[i]
            }
    }

    /// An empty ledger.
    pub fn new() -> (r: KintsugiLedger)
        ensures
            r.wf(),
            r.entries().len() == 0,
            r.breaks() == 0,
            r.repairs_recorded() == 0,
    {
        KintsugiLedger { artifacts: Vec::new(), total_breaks: 0, total_repairs: 0 }
    }

    /// A ledger holding `artifacts` in the given order and the given totals;
    /// `None` when two of the artifacts share an identifier.
    pub fn from_parts(artifacts: Vec<KintsugiArtifact>, total_breaks: u64, total_repairs: u64) -> (r: Option<KintsugiLedger>)
        ensures
            match r {
                Some(l) => {
                    &&& l.wf()
                    &&& l.entries() == artifacts@
                    &&& l.breaks() == total_breaks
                    &&& l.repairs_recorded() == total_repairs
                },
                None => !ids_distinct(artifacts@),
            },
    {
        let len = artifacts.len();
        let mut i: usize = 0;
        while i < len
            invariant
                len == artifacts@.len(),
                0 <= i <= len,
                forall|x: int, y: int|
                    0 <= x < i && 0 <= y < len && x != y ==> (#[trigger] artifacts@[x]).id@ != (#[trigger] artifacts@[y]).id@,
            decreases len - i,
        {
            let mut j: usize = 0;
            while j < len
                invariant
                    len == artifacts@.len(),
                    0 <= i < len,
                    0 <= j <= len,
                    forall|x: int, y: int|
                        0 <= x < i && 0 <= y < len && x != y ==> (#[trigger] artifacts@[x]).id@ != (#[trigger] artifacts@[y]).id@,
                    forall|y: int| 0 <= y < j && y != i ==> artifacts@[i as int].id@ != (#[trigger] artifacts@[y]).id@,
                decreases len - j,
            {
                if j != i && artifacts[i].id == artifacts[j].id {
                    return None;
                }
                j = j + 1;
            }
            i = i + 1;
        }
        Some(KintsugiLedger { artifacts, total_breaks, total_repairs })
    }

    /// The registered artifacts, in registration order.
    pub fn artifacts(&self) -> (r: &Vec<KintsugiArtifact>)
        ensures
            r@ == self.entries(),
    {
        &self.artifacts
    }

    /// The number of breaks recorded through the ledger.
    pub fn total_breaks(&self) -> (r: u64)
        ensures
            r == self.breaks(),
    {
        self.total_breaks
    }

    /// The number of repairs recorded through the ledger.
    pub fn total_repairs(&self) -> (r: u64)
        ensures
            r == self.repairs_recorded(),
    {
        self.total_repairs
    }

    /// The number of registered artifacts.
    pub fn len(&self) -> (r: usize)
        ensures
            r == self.entries().len(),
    {
        self.artifacts.len()
    }

    /// Whether no artifact is registered.
    pub fn is_empty(&self) -> (r: bool)
        ensures
            r == (self.entries().len() == 0),
    {
        self.artifacts.len() == 0
    }

    /// The position of the artifact with identifier `id`.
    fn position(&self, id: &String) -> (r: Option<usize>)
        ensures
            match r {
                Some(i) => i < self.entries().len() && self.entries()[i as int].id@ == id@,
                None => !has_id(self.entries(), id@),
            },
    {
        let len = self.artifacts.len();
        let mut k: usize = 0;
        while k < len
            invariant
                len == self.artifacts@.len(),
                0 <= k <= len,
                forall|j: int| 0 <= j < k ==> (#[trigger] self.artifacts@[j]).id@ != id@,
            decreases len - k,
        {
            if self.artifacts[k].id == *id {
                return Some(k);
            }
            k = k + 1;
        }
        None
    }

    /// Whether an artifact with identifier `id` is registered.
    pub fn contains_artifact(&self, id: &str) -> (r: bool)
        ensures
            r == has_id(self.entries(), id@),
    {
        let target = id.to_owned();
        self.position(&target).is_some()
    }

    /// The artifact with identifier `id`, if one is registered.
    pub fn get_artifact(&self, id: &str) -> (r: Option<&KintsugiArtifact>)
        ensures
            match r {
                Some(a) => lookup(self.entries(), id@) == Some(*a),
                None => lookup(self.entries(), id@) is None,
            },
    {
        proof {
            use_type_invariant(self);
        }
        let target = id.to_owned();
        match self.position(&target) {
            Some(i) => {
                let ghost s = self.entries();
                let ghost c = choose|j: int| 0 <= j < s.len() && (#[trigger] s[j]).id@ == id@;
                assert(c == i);
                Some(&self.artifacts[i])
            },
            None => None,
        }
    }

    /// Registers an artifact under its identifier, replacing one registered
    /// under the same identifier.
    pub fn register_artifact(&mut self, artifact: KintsugiArtifact)
        ensures
            final(self).wf(),
            final(self).is_registration(*old(self), artifact),
    {
        proof {
            use_type_invariant(&*self);
        }
        let found = self.position(&artifact.id);
        let ghost before = self.artifacts@;
        let mut artifacts: Vec<KintsugiArtifact> = Vec::new();
        std::mem::swap(&mut artifacts, &mut self.artifacts);
        match found {
            Some(i) => {
                artifacts[i] = artifact;
                proof {
                    assert forall|j: int| 0 <= j < before.len() implies
                        #[trigger] artifacts@[j] == if before[j].id@ == artifact.id@ { artifact } else { before[j] } by {
                        if j != i && before[j].id@ == artifact.id@ {
                            assert(before[i as int].id@ == before[j].id@);
                        }
                    }
                    assert forall|x: int, y: int| 0 <= x < artifacts@.len() && 0 <= y < artifacts@.len() && x != y implies
                        (#[trigger] artifacts@[x]).id@ != (#[trigger] artifacts@[y]).id@ by {
                        if x != i && y != i {
                            assert(artifacts@[x] == before[x] && artifacts@[y] == before[y]);
                        } else if x == i {
                            assert(artifacts@[y] == before[y]);
                        } else {
                            assert(artifacts@[x] == before[x]);
                        }
                    }
                }
            },
            None => {
                artifacts.push(artifact);
                proof {
                    assert forall|x: int, y: int| 0 <= x < artifacts@.len() && 0 <= y < artifacts@.len() && x != y implies
                        (#[trigger] artifacts@[x]).id@ != (#[trigger] artifacts@[y]).id@ by {
                        if x < before.len() && y < before.len() {
                            assert(artifacts@[x] == before[x] && artifacts@[y] == before[y]);
                        } else if x < before.len() {
                            assert(artifacts@[x] == before[x]);
                        } else {
                            assert(artifacts@[y] == before[y]);
                        }
                    }
                }
            },
        }
        self.artifacts = artifacts;
    }

    /// Records a break and its repair on the artifact `artifact_id`: its
    /// counts grow, the repair is kept, and its golden value is added to the
    /// artifact's current value by `sum`, which computes binary64 sums. Refused
    /// with `ArtifactNotFound` when no such artifact is registered, else with
    /// `NegativeValue` when the golden value is below zero, else with
    /// `AlreadyRepaired` when the artifact already holds a repair with the
    /// same identifier; a refused repair changes nothing.
    pub fn record_repair<F: Fn(Float64, Float64) -> Float64>(
        &mut self,
        artifact_id: &str,
        repair: KintsugiRepair,
        sum: F,
    ) -> (r: Result<(), KintsugiError>)
        requires
            has_id(old(self).entries(), artifact_id@) && !repair.golden_value.negative()
                && !already_repaired(old(self).entries(), artifact_id@, repair.id@) ==> {
                &&& old(self).breaks() < u64::MAX
                &&& old(self).repairs_recorded() < u64::MAX
                &&& forall|i: int|
                    0 <= i < old(self).entries().len() && (#[trigger] old(self).entries()[i]).id@ == artifact_id@
                        ==> old(self).entries()[i].break_count < u64::MAX && old(self).entries()[i].repair_count < u64::MAX
            },
            forall|a: Float64, b: Float64| call_requires(sum, (a, b)),
        ensures
            final(self).wf(),
            !has_id(old(self).entries(), artifact_id@) ==> {
                &&& r matches Err(KintsugiError::ArtifactNotFound(m)) && m@ == artifact_id@
                &&& *final(self) == *old(self)
            },
            has_id(old(self).entries(), artifact_id@) && repair.golden_value.negative() ==> {
                &&& r == Err::<(), KintsugiError>(KintsugiError::NegativeValue(repair.golden_value))
                &&& *final(self) == *old(self)
            },
            has_id(old(self).entries(), artifact_id@) && !repair.golden_value.negative()
                && already_repaired(old(self).entries(), artifact_id@, repair.id@) ==> {
                &&& r matches Err(KintsugiError::AlreadyRepaired(m)) && m@ == repair.id@
                &&& *final(self) == *old(self)
            },
            has_id(old(self).entries(), artifact_id@) && !repair.golden_value.negative()
                && !already_repaired(old(self).entries(), artifact_id@, repair.id@) ==> {
                &&& r is Ok
                &&& final(self).is_recorded_repair(*old(self), artifact_id@, repair, sum)
            },
    {
        proof {
            use_type_invariant(&*self);
        }
        let target = artifact_id.to_owned();
        match self.position(&target) {
            None => Err(KintsugiError::ArtifactNotFound(target)),
            Some(i) => {
                if repair.golden_value.is_negative() {
                    return Err(KintsugiError::NegativeValue(repair.golden_value));
                }
                if self.artifacts[i].has_repair(&repair.id) {
                    return Err(KintsugiError::AlreadyRepaired(repair.id));
                }
                proof {
                    let s = self.entries();
                    assert forall|j: int| 0 <= j < s.len() && (#[trigger] s[j]).id@ == artifact_id@ implies
                        !s[j].holds_repair(repair.id@) by {
                        if j != i {
                            assert(s[i as int].id@ == s[j].id@);
                        }
                    }
                }
                let ghost before = *self;
                self.total_breaks = self.total_breaks + 1;
                self.total_repairs = self.total_repairs + 1;
                let mut artifacts: Vec<KintsugiArtifact> = Vec::new();
                std::mem::swap(&mut artifacts, &mut self.artifacts);
                artifacts[i].break_and_repair(repair, sum);
                proof {
                    let b = before.entries();
                    let a = artifacts@;
                    assert forall|j: int| 0 <= j < b.len() implies
                        if b[j].id@ == artifact_id@ {
                            &&& call_ensures(sum, (b[j].current_value, repair.golden_value), (#[trigger] a[j]).current_value)
                            &&& a[j].records_repair(b[j], repair, a[j].current_value)
                        } else {
                            a[j] == b[j]
                        } by {
                        if j != i && b[j].id@ == artifact_id@ {
                            assert(b[i as int].id@ == b[j].id@);
                        }
                    }
                    assert forall|x: int, y: int| 0 <= x < a.len() && 0 <= y < a.len() && x != y implies
                        (#[trigger] a[x]).id@ != (#[trigger] a[y]).id@ by {
                        assert(a[x].id == b[x].id);
                        assert(a[y].id == b[y].id);
                    }
                }
                self.artifacts = artifacts;
                Ok(())
            },
        }
    }

    /// The first `n` artifacts of the descending ranking by `keys`.
    fn top_by_keys<'a>(&'a self, keys: &Vec<i128>, n: usize) -> (r: Vec<&'a KintsugiArtifact>)
        requires
            keys@.len() == self.entries().len(),
        ensures
            lists_top(self.entries(), int_keys(keys@), n as int, r@),
    {
        let order = rank_descending(keys);
        let len = self.artifacts.len();
        let m: usize = if n < len { n } else { len };
        let mut out: Vec<&'a KintsugiArtifact> = Vec::new();
        let mut p: usize = 0;
        while p < m
            invariant
                len == self.artifacts@.len(),
                keys@.len() == len,
                order@.len() == len,
                m <= len,
                is_descending_ranking(int_keys(keys@), order@),
                0 <= p <= m,
                out@.len() == p,
                forall|q: int| 0 <= q < p ==> *out@[q] == self.artifacts@[#[trigger] order@[q] as int],
            decreases m - p,
        {
            let idx = order[p];
            out.push(&self.artifacts[idx]);
            p = p + 1;
        }
        out
    }

    /// The `n` artifacts with the most breaks, most first; on equal counts in
    /// registration order.
    pub fn most_broken(&self, n: usize) -> (r: Vec<&KintsugiArtifact>)
        ensures
            lists_top(self.entries(), break_keys(self.entries()), n as int, r@),
    {
        let mut keys: Vec<i128> = Vec::new();
        let len = self.artifacts.len();
        let mut k: usize = 0;
        while k < len
            invariant
                len == self.artifacts@.len(),
                0 <= k <= len,
                keys@.len() == k,
                forall|j: int| 0 <= j < k ==> keys@[j] == (#[trigger] self.artifacts@[j]).break_count,
            decreases len - k,
        {
            keys.push(self.artifacts[k].break_count as i128);
            k = k + 1;
        }
        assert(int_keys(keys@) =~= break_keys(self.entries()));
        self.top_by_keys(&keys, n)
    }

    /// The `n` artifacts with the highest current value, highest first; on
    /// equal values in registration order, a NaN value ranking last.
    pub fn most_valuable(&self, n: usize) -> (r: Vec<&KintsugiArtifact>)
        ensures
            lists_top(self.entries(), value_keys(self.entries()), n as int, r@),
    {
        let mut keys: Vec<i128> = Vec::new();
        let len = self.artifacts.len();
        let mut k: usize = 0;
        while k < len
            invariant
                len == self.artifacts@.len(),
                0 <= k <= len,
                keys@.len() == k,
                forall|j: int| 0 <= j < k ==> keys@[j] == (#[trigger] self.artifacts@[j]).current_value.rank_key(),
            decreases len - k,
        {
            keys.push(self.artifacts[k].current_value.ranking_key());
            k = k + 1;
        }
        assert(int_keys(keys@) =~= value_keys(self.entries()));
        self.top_by_keys(&keys, n)
    }

    /// The `n` most resilient artifacts, most resilient first, where
    /// `resilience_scores[i]` is the resilience score of the `i`-th artifact
    /// in registration order; on equal scores in registration order, a NaN
    /// score ranking last.
    pub fn most_resilient(&self, n: usize, resilience_scores: &Vec<Float64>) -> (r: Vec<&KintsugiArtifact>)
        requires
            resilience_scores@.len() == self.entries().len(),
        ensures
            lists_top(self.entries(), score_keys(resilience_scores@), n as int, r@),
    {
        let mut keys: Vec<i128> = Vec::new();
        let len = resilience_scores.len();
        let mut k: usize = 0;
        while k < len
            invariant
                len == resilience_scores@.len(),
                0 <= k <= len,
                keys@.len() == k,
                forall|j: int| 0 <= j < k ==> keys@[j] == (#[trigger] resilience_scores@[j]).rank_key(),
            decreases len - k,
        {
            keys.push(resilience_scores[k].ranking_key());
            k = k + 1;
        }
        assert(int_keys(keys@) =~= score_keys(resilience_scores@));
        self.top_by_keys(&keys, n)
    }

    /// Every repair of every artifact, in ledger order.
    fn repairs_in_order(&self) -> (r: Vec<&KintsugiRepair>)
        ensures
            r@.map_values(|x: &KintsugiRepair| *x) == all_repairs(self.entries()),
    {
        let mut out: Vec<&KintsugiRepair> = Vec::new();
        let len = self.artifacts.len();
        let mut a: usize = 0;
        while a < len
            invariant
                len == self.artifacts@.len(),
                0 <= a <= len,
                out@.map_values(|x: &KintsugiRepair| *x) == all_repairs(self.artifacts@.take(a as int)),
            decreases len - a,
        {
            let ghost start = out@.map_values(|x: &KintsugiRepair| *x);
            let rs = &self.artifacts[a].repairs;
            let rlen = rs.len();
            let mut j: usize = 0;
            while j < rlen
                invariant
                    rlen == rs@.len(),
                    0 <= j <= rlen,
                    out@.map_values(|x: &KintsugiRepair| *x) == start + rs@.take(j as int),
                decreases rlen - j,
            {
                let ghost prev = out@;
                out.push(&rs[j]);
                proof {
                    assert(out@.map_values(|x: &KintsugiRepair| *x) =~= prev.map_values(|x: &KintsugiRepair| *x).push(rs@[j as int]));
                    assert(rs@.take(j + 1) =~= rs@.take(j as int).push(rs@[j as int]));
                    assert(start + rs@.take(j + 1) =~= (start + rs@.take(j as int)).push(rs@[j as int]));
                }
                j = j + 1;
            }
            proof {
                let t = self.artifacts@.take(a + 1);
                assert(t.drop_last() =~= self.artifacts@.take(a as int));
                assert(rs@.take(rlen as int) =~= rs@);
            }
            a = a + 1;
        }
        assert(self.artifacts@.take(len as int) =~= self.artifacts@);
        out
    }

    /// How many recorded repairs answered each category of break, in the
    /// order in which the categories first appear.
    pub fn break_type_distribution(&self) -> (r: CategoryCounts)
        ensures
            r@ == tally(categories_of(all_repairs(self.entries()))),
    {
        let flat = self.repairs_in_order();
        let ghost rs = flat@.map_values(|x: &KintsugiRepair| *x);
        let mut cats: Vec<&str> = Vec::new();
        let len = flat.len();
        let mut k: usize = 0;
        while k < len
            invariant
                len == flat@.len(),
                rs == flat@.map_values(|x: &KintsugiRepair| *x),
                0 <= k <= len,
                cats@.map_values(|c: &str| c@) == categories_of(rs.take(k as int)),
            decreases len - k,
        {
            let r: &KintsugiRepair = flat[k];
            let ghost prev = cats@;
            let c = r.break_type.category();
            cats.push(c);
            proof {
                assert(cats@.map_values(|c: &str| c@) =~= prev.map_values(|c: &str| c@).push(rs[k as int].break_type.category_view()));
                assert(rs.take(k + 1) =~= rs.take(k as int).push(rs[k as int]));
                assert(categories_of(rs.take(k + 1)) =~= categories_of(rs.take(k as int)).push(rs[k as int].break_type.category_view()));
            }
            k = k + 1;
        }
        assert(rs.take(len as int) =~= rs);
        CategoryCounts::from_categories(&cats)
    }

    /// Every lesson of every repair, in ledger order.
    pub fn lessons_learned(&self) -> (r: Vec<&str>)
        ensures
            r@.map_values(|s: &str| s@) == lessons_of(all_repairs(self.entries())),
    {
        let flat = self.repairs_in_order();
        let ghost rs = flat@.map_values(|x: &KintsugiRepair| *x);
        let mut out: Vec<&str> = Vec::new();
        let len = flat.len();
        let mut k: usize = 0;
        while k < len
            invariant
                len == flat@.len(),
                rs == flat@.map_values(|x: &KintsugiRepair| *x),
                0 <= k <= len,
                out@.map_values(|s: &str| s@) == lessons_of(rs.take(k as int)),
            decreases len - k,
        {
            let r: &KintsugiRepair = flat[k];
            let ghost start = out@.map_values(|s: &str| s@);
            let ghost ls = r.lessons@.map_values(|l: String| l@);
            let llen = r.lessons.len();
            let mut j: usize = 0;
            while j < llen
                invariant
                    llen == r.lessons@.len(),
                    ls == r.lessons@.map_values(|l: String| l@),
                    0 <= j <= llen,
                    out@.map_values(|s: &str| s@) == start + ls.take(j as int),
                decreases llen - j,
            {
                let ghost prev = out@;
                out.push(r.lessons[j].as_str());
                proof {
                    assert(out@.map_values(|s: &str| s@) =~= prev.map_values(|s: &str| s@).push(ls[j as int]));
                    assert(ls.take(j + 1) =~= ls.take(j as int).push(ls[j as int]));
                    assert(start + ls.take(j + 1) =~= (start + ls.take(j as int)).push(ls[j as int]));
                }
                j = j + 1;
            }
            proof {
                assert(ls.take(llen as int) =~= ls);
                assert(rs.take(k + 1).drop_last() =~= rs.take(k as int));
                assert(rs.take(k + 1).last() == *r);
            }
            k = k + 1;
        }
        assert(rs.take(len as int) =~= rs);
        out
    }
}

impl Clone for KintsugiLedger {
    /// A copy of the ledger: the same totals and, in the same order, artifacts
    /// with the same identifiers, names, types, values and counts, each with
    /// its repairs cloned one by one, in the same order.
    fn clone(&self) -> (r: KintsugiLedger)
        ensures
            r.breaks() == self.breaks(),
            r.repairs_recorded() == self.repairs_recorded(),
            r.entries().len() == self.entries().len(),
            forall|i: int| 0 <= i < self.entries().len() ==> {
                &&& (#[trigger] r.entries()[i]).id == self.entries()[i].id
                &&& r.entries()[i].name == self.entries()[i].name
                &&& r.entries()[i].artifact_type == self.entries()[i].artifact_type
                &&& r.entries()[i].original_value == self.entries()[i].original_value
                &&& r.entries()[i].break_count == self.entries()[i].break_count
                &&& r.entries()[i].repair_count == self.entries()[i].repair_count
                &&& r.entries()[i].current_value == self.entries()[i].current_value
                &&& r.entries()[i].repairs@.len() == self.entries()[i].repairs@.len()
                &&& forall|k: int| 0 <= k < self.entries()[i].repairs@.len() ==>
                    cloned::<KintsugiRepair>(self.entries()[i].repairs@[k], #[trigger] r.entries()[i].repairs@[k])
            },
    {
        proof {
            use_type_invariant(self);
        }
        let len = self.artifacts.len();
        let mut artifacts: Vec<KintsugiArtifact> = Vec::new();
        let mut k: usize = 0;
        while k < len
            invariant
                len == self.artifacts@.len(),
                0 <= k <= len,
                artifacts@.len() == k,
                forall|j: int| 0 <= j < k ==> {
                    &&& (#[trigger] artifacts@[j]).id == self.artifacts@[j].id
                    &&& artifacts@[j].name == self.artifacts@[j].name
                    &&& artifacts@[j].artifact_type == self.artifacts@[j].artifact_type
                    &&& artifacts@[j].original_value == self.artifacts@[j].original_value
                    &&& artifacts@[j].break_count == self.artifacts@[j].break_count
                    &&& artifacts@[j].repair_count == self.artifacts@[j].repair_count
                    &&& artifacts@[j].current_value == self.artifacts@[j].current_value
                    &&& artifacts@[j].repairs@.len() == self.artifacts@[j].repairs@.len()
                    &&& forall|m: int| 0 <= m < self.artifacts@[j].repairs@.len() ==>
                        cloned::<KintsugiRepair>(self.artifacts@[j].repairs@[m], #[trigger] artifacts@[j].repairs@[m])
                },
            decreases len - k,
        {
            let a = &self.artifacts[k];
            artifacts.push(
                KintsugiArtifact {
                    id: a.id.clone(),
                    name: a.name.clone(),
                    artifact_type: a.artifact_type.clone(),
                    original_value: a.original_value,
                    break_count: a.break_count,
                    repair_count: a.repair_count,
                    current_value: a.current_value,
                    repairs: a.repairs.clone(),
                },
            );
            k = k + 1;
        }
        proof {
            assert forall|x: int, y: int| 0 <= x < artifacts@.len() && 0 <= y < artifacts@.len() && x != y implies
                (#[trigger] artifacts@[x]).id@ != (#[trigger] artifacts@[y]).id@ by {
                assert(artifacts@[x].id == self.artifacts@[x].id);
                assert(artifacts@[y].id == self.artifacts@[y].id);
            }
        }
        KintsugiLedger { artifacts, total_breaks: self.total_breaks, total_repairs: self.total_repairs }
    }
}

impl Default for KintsugiLedger {
    fn default() -> (r: KintsugiLedger)
        ensures
            r.wf(),
            r.entries().len() == 0,
            r.breaks() == 0,
            r.repairs_recorded() == 0,
    {
        KintsugiLedger::new()
    }
}

/// Law: registering an artifact is a write of that artifact under its
/// identifier: a lookup of that identifier afterwards gives the artifact, and a
/// lookup of any other identifier gives what it gave before.
pub proof fn lemma_register_then_lookup(before: KintsugiLedger, after: KintsugiLedger, a: KintsugiArtifact, id: Seq<char>)
    requires
        before.wf(),
        after.is_registration(before, a),
    ensures
        lookup(after.entries(), id) == if id == a.id@ { Some(a) } else { lookup(before.entries(), id) },
{
    let b = before.entries();
    let n = after.entries();
    if has_id(b, a.id@) {
        let i0 = choose|i: int| 0 <= i < b.len() && (#[trigger] b[i]).id@ == a.id@;
        assert(n[i0] == a);
        if id == a.id@ {
            assert(has_id(n, id));
            let c = choose|i: int| 0 <= i < n.len() && (#[trigger] n[i]).id@ == id;
            assert(n[c] == if b[c].id@ == a.id@ { a } else { b[c] });
        } else {
            assert forall|j: int| 0 <= j < n.len() implies ((#[trigger] n[j]).id@ == id <==> b[j].id@ == id) by {
                assert(n[j] == if b[j].id@ == a.id@ { a } else { b[j] });
            }
            if has_id(b, id) {
                let cb = choose|i: int| 0 <= i < b.len() && (#[trigger] b[i]).id@ == id;
                assert(n[cb].id@ == id);
                assert(has_id(n, id));
                let cn = choose|i: int| 0 <= i < n.len() && (#[trigger] n[i]).id@ == id;
                assert(b[cn].id@ == id);
                assert(cn == cb);
                assert(n[cn] == b[cn]);
            } else {
                if has_id(n, id) {
                    let cn = choose|i: int| 0 <= i < n.len() && (#[trigger] n[i]).id@ == id;
                    assert(b[cn].id@ == id);
                }
            }
        }
    } else {
        assert(n == b.push(a));
        if id == a.id@ {
            assert(n[b.len() as int] == a);
            assert(has_id(n, id));
            let c = choose|i: int| 0 <= i < n.len() && (#[trigger] n[i]).id@ == id;
            if c < b.len() {
                assert(n[c] == b[c]);
            }
        } else {
            if has_id(b, id) {
                let cb = choose|i: int| 0 <= i < b.len() && (#[trigger] b[i]).id@ == id;
                assert(n[cb] == b[cb]);
                assert(has_id(n, id));
                let cn = choose|i: int| 0 <= i < n.len() && (#[trigger] n[i]).id@ == id;
                assert(cn < b.len());
                assert(n[cn] == b[cn]);
                assert(cn == cb);
            } else {
                if has_id(n, id) {
                    let cn = choose|i: int| 0 <= i < n.len() && (#[trigger] n[i]).id@ == id;
                    assert(cn < b.len());
                    assert(n[cn] == b[cn]);
                }
            }
        }
    }
}

/// Law: a recorded repair is a write to one artifact: looking up the repaired
/// identifier afterwards gives the artifact as it was, with the repair
/// recorded and its value summed; any other identifier looks up as before.
pub proof fn lemma_record_then_lookup<F: Fn(Float64, Float64) -> Float64>(
    before: KintsugiLedger,
    after: KintsugiLedger,
    id: Seq<char>,
    repair: KintsugiRepair,
    sum: F,
    other: Seq<char>,
)
    requires
        before.wf(),
        has_id(before.entries(), id),
        after.is_recorded_repair(before, id, repair, sum),
    ensures
        lookup(after.entries(), id) matches Some(x) && lookup(before.entries(), id) matches Some(y)
            && x.records_repair(y, repair, x.current_value)
            && call_ensures(sum, (y.current_value, repair.golden_value), x.current_value),
        other != id ==> lookup(after.entries(), other) == lookup(before.entries(), other),
{
    let b = before.entries();
    let n = after.entries();
    assert forall|j: int| 0 <= j < n.len() implies (#[trigger] n[j]).id@ == b[j].id@ by {
        if b[j].id@ == id {
            assert(n[j].records_repair(b[j], repair, n[j].current_value));
        } else {
            assert(n[j] == b[j]);
        }
    }
    let cb = choose|i: int| 0 <= i < b.len() && (#[trigger] b[i]).id@ == id;
    assert(n[cb].id@ == id);
    assert(has_id(n, id));
    let cn = choose|i: int| 0 <= i < n.len() && (#[trigger] n[i]).id@ == id;
    assert(b[cn].id@ == id);
    assert(cn == cb);
    if other != id {
        if has_id(b, other) {
            let ob = choose|i: int| 0 <= i < b.len() && (#[trigger] b[i]).id@ == other;
            assert(n[ob].id@ == other);
            assert(has_id(n, other));
            let on = choose|i: int| 0 <= i < n.len() && (#[trigger] n[i]).id@ == other;
            assert(b[on].id@ == other);
            assert(on == ob);
            assert(n[on] == b[on]);
        } else {
            if has_id(n, other) {
                let on = choose|i: int| 0 <= i < n.len() && (#[trigger] n[i]).id@ == other;
                assert(b[on].id@ == other);
            }
        }
    }
}

/// Law: a top list runs from the highest key down, and no artifact left out
/// of it has a higher key than any artifact in it. `key` is the key of an
/// artifact, as `keys` gives it position by position.
pub proof fn lemma_top_list(
    s: Seq<KintsugiArtifact>,
    keys: Seq<int>,
    key: spec_fn(KintsugiArtifact) -> int,
    n: int,
    r: Seq<&KintsugiArtifact>,
)
    requires
        lists_top(s, keys, n, r),
        keys.len() == s.len(),
        s.len() <= usize::MAX,
        forall|i: int| 0 <= i < s.len() ==> keys[i] == key(#[trigger] s[i]),
    ensures
        forall|p: int, q: int| 0 <= p < q < r.len() ==> key(*r[p]) >= key(*r[q]),
        forall|p: int, j: int|
            #![trigger r[p], s[j]]
            0 <= p < r.len() && 0 <= j < s.len() && !r.map_values(|x: &KintsugiArtifact| *x).contains(s[j])
                ==> key(s[j]) <= key(*r[p]),
{
    let order = choose|order: Seq<usize>|
        #[trigger] is_descending_ranking(keys, order) && forall|p: int| 0 <= p < r.len() ==> *r[p] == s[order[p] as int];
    assert forall|p: int, q: int| 0 <= p < q < r.len() implies key(*r[p]) >= key(*r[q]) by {
        assert(crate::ranking::ranks_before(keys, order[p] as int, order[q] as int));
        assert(keys[order[p] as int] == key(s[order[p] as int]));
        assert(keys[order[q] as int] == key(s[order[q] as int]));
    }
    assert forall|p: int, j: int|
        #![trigger r[p], s[j]]
        0 <= p < r.len() && 0 <= j < s.len() && !r.map_values(|x: &KintsugiArtifact| *x).contains(s[j])
        implies key(s[j]) <= key(*r[p]) by {
        let m = r.len() as int;
        if order.take(m).contains(j as usize) {
            let q = choose|q: int| 0 <= q < m && order.take(m)[q] == j as usize;
            assert(order[q] == j as usize);
            assert(*r[q] == s[j]);
            assert(r.map_values(|x: &KintsugiArtifact| *x)[q] == s[j]);
        }
        lemma_ranking_prefix_is_top(keys, order, m, p, j as usize);
        assert(keys[order[p] as int] == key(s[order[p] as int]));
        assert(keys[j] == key(s[j]));
    }
}

/// Law: the break distribution counts every recorded repair exactly once:
/// its counts add up to the number of repairs in the ledger.
pub proof fn lemma_distribution_counts_every_repair(l: KintsugiLedger)
    ensures
        crate::distribution::count_sum(tally(categories_of(all_repairs(l.entries())))) == all_repairs(l.entries()).len(),
{
    crate::distribution::lemma_tally(categories_of(all_repairs(l.entries())));
}

/// Law: the ledger's two totals move together: registering leaves both as
/// they are and a recorded repair adds one to each, so a ledger built from
/// `new` always has as many recorded breaks as recorded repairs.
pub proof fn lemma_totals_in_step<F: Fn(Float64, Float64) -> Float64>(
    before: KintsugiLedger,
    after_register: KintsugiLedger,
    after_repair: KintsugiLedger,
    a: KintsugiArtifact,
    id: Seq<char>,
    repair: KintsugiRepair,
    sum: F,
)
    requires
        before.breaks() == before.repairs_recorded(),
    ensures
        after_register.is_registration(before, a) ==> after_register.breaks() == after_register.repairs_recorded(),
        after_repair.is_recorded_repair(before, id, repair, sum) ==> after_repair.breaks() == after_repair.repairs_recorded(),
{
}

/// The number of repairs that the artifacts hold, summed artifact by artifact.
pub open spec fn repair_count_of(s: Seq<KintsugiArtifact>) -> nat
    decreases s.len(),
{
    if s.len() == 0 {
        0
    } else {
        repair_count_of(s.drop_last()) + s.last().repairs@.len()
    }
}

/// The number of lessons that the repairs hold, summed repair by repair.
pub open spec fn lesson_count_of(rs: Seq<KintsugiRepair>) -> nat
    decreases rs.len(),
{
    if rs.len() == 0 {
        0
    } else {
        lesson_count_of(rs.drop_last()) + rs.last().lessons@.len()
    }
}

proof fn lemma_repair_count_prefix(s: Seq<KintsugiArtifact>, i: int)
    requires
        0 <= i <= s.len(),
    ensures
        repair_count_of(s.take(i)) <= repair_count_of(s),
        i < s.len() ==> repair_count_of(s.take(i + 1)) == repair_count_of(s.take(i)) + s[i].repairs@.len(),
    decreases s.len() - i,
{
    if i < s.len() {
        assert(s.take(i + 1).drop_last() =~= s.take(i));
        lemma_repair_count_prefix(s, i + 1);
    } else {
        assert(s.take(i) =~= s);
    }
}

proof fn lemma_lesson_count_prefix(rs: Seq<KintsugiRepair>, k: int)
    requires
        0 <= k <= rs.len(),
    ensures
        lesson_count_of(rs.take(k)) <= lesson_count_of(rs),
        k < rs.len() ==> lesson_count_of(rs.take(k + 1)) == lesson_count_of(rs.take(k)) + rs[k].lessons@.len(),
    decreases rs.len() - k,
{
    if k < rs.len() {
        assert(rs.take(k + 1).drop_last() =~= rs.take(k));
        lemma_lesson_count_prefix(rs, k + 1);
    } else {
        assert(rs.take(k) =~= rs);
    }
}

/// Law: the ledger's repairs, taken together, are every repair of every
/// artifact, each once, artifact after artifact and each artifact's repairs in
/// their order: there are as many as the artifacts hold, and the `k`-th repair
/// of the `i`-th artifact stands after the repairs of the artifacts before it.
pub proof fn lemma_all_repairs_holds_every_repair(s: Seq<KintsugiArtifact>)
    ensures
        all_repairs(s).len() == repair_count_of(s),
        forall|i: int, k: int|
            0 <= i < s.len() && 0 <= k < s[i].repairs@.len()
                ==> all_repairs(s)[repair_count_of(s.take(i)) + k] == #[trigger] s[i].repairs@[k],
    decreases s.len(),
{
    if s.len() > 0 {
        let d = s.drop_last();
        lemma_all_repairs_holds_every_repair(d);
        assert forall|i: int, k: int|
            0 <= i < s.len() && 0 <= k < s[i].repairs@.len()
            implies all_repairs(s)[repair_count_of(s.take(i)) + k] == #[trigger] s[i].repairs@[k] by {
            if i < d.len() {
                assert(s.take(i) =~= d.take(i));
                assert(s[i] == d[i]);
                lemma_repair_count_prefix(d, i);
                lemma_repair_count_prefix(d, i + 1);
            } else {
                assert(s.take(i) =~= d);
            }
        }
    }
}

/// Law: the lessons of a sequence of repairs are every lesson of every
/// repair, each once and in order: there are as many as the repairs hold, and
/// the `j`-th lesson of the `k`-th repair stands after the lessons of the
/// repairs before it.
pub proof fn lemma_lessons_of_holds_every_lesson(rs: Seq<KintsugiRepair>)
    ensures
        lessons_of(rs).len() == lesson_count_of(rs),
        forall|k: int, j: int|
            0 <= k < rs.len() && 0 <= j < rs[k].lessons@.len()
                ==> lessons_of(rs)[lesson_count_of(rs.take(k)) + j] == (#[trigger] rs[k].lessons@[j])@,
    decreases rs.len(),
{
    if rs.len() > 0 {
        let d = rs.drop_last();
        lemma_lessons_of_holds_every_lesson(d);
        assert forall|k: int, j: int|
            0 <= k < rs.len() && 0 <= j < rs[k].lessons@.len()
            implies lessons_of(rs)[lesson_count_of(rs.take(k)) + j] == (#[trigger] rs[k].lessons@[j])@ by {
            if k < d.len() {
                assert(rs.take(k) =~= d.take(k));
                assert(rs[k] == d[k]);
                lemma_lesson_count_prefix(d, k);
                lemma_lesson_count_prefix(d, k + 1);
            } else {
                assert(rs.take(k) =~= d);
            }
        }
    }
}

/// Law: the break distribution counts every repair that the artifacts hold:
/// its counts add up to the number of repairs summed over the artifacts.
pub proof fn lemma_distribution_counts_all_artifacts(s: Seq<KintsugiArtifact>)
    ensures
        crate::distribution::count_sum(tally(categories_of(all_repairs(s)))) == repair_count_of(s),
{
    lemma_all_repairs_holds_every_repair(s);
    crate::distribution::lemma_tally(categories_of(all_repairs(s)));
}

/// Law: `lessons_learned` holds every lesson of every repair of every
/// artifact, and as many lessons as those repairs hold.
pub proof fn lemma_every_lesson_is_learned(s: Seq<KintsugiArtifact>)
    ensures
        lessons_of(all_repairs(s)).len() == lesson_count_of(all_repairs(s)),
        forall|i: int, k: int, j: int|
            0 <= i < s.len() && 0 <= k < s[i].repairs@.len() && 0 <= j < s[i].repairs@[k].lessons@.len()
                ==> lessons_of(all_repairs(s)).contains((#[trigger] s[i].repairs@[k].lessons@[j])@),
{
    lemma_all_repairs_holds_every_repair(s);
    lemma_lessons_of_holds_every_lesson(all_repairs(s));
    assert forall|i: int, k: int, j: int|
        0 <= i < s.len() && 0 <= k < s[i].repairs@.len() && 0 <= j < s[i].repairs@[k].lessons@.len()
        implies lessons_of(all_repairs(s)).contains((#[trigger] s[i].repairs@[k].lessons@[j])@) by {
        let rs = all_repairs(s);
        let p = repair_count_of(s.take(i)) + k;
        assert(rs[p] == s[i].repairs@[k]);
        lemma_repair_count_prefix(s, i);
        lemma_repair_count_prefix(s, i + 1);
        lemma_lesson_count_prefix(rs, p);
        lemma_lesson_count_prefix(rs, p + 1);
        let q = lesson_count_of(rs.take(p)) + j;
        assert(lessons_of(rs)[q] == rs[p].lessons@[j]@);
    }
}

} // verus!
