//! Counting repairs per break category.

use vstd::prelude::*;

verus! {

/// How often `c` occurs in `cats`.
pub open spec fn occurrences(cats: Seq<Seq<char>>, c: Seq<char>) -> nat
    decreases cats.len(),
{
    if cats.len() == 0 {
        0
    } else {
        occurrences(cats.drop_last(), c) + if cats.last() == c {
            1nat
        } else {
            0nat
        }
    }
}

/// Whether a tally has an entry for `c`.
pub open spec fn has_key(t: Seq<(Seq<char>, nat)>, c: Seq<char>) -> bool {
    exists|k: int| 0 <= k < t.len() && (#[trigger] t[k]).0 == c
}

/// A tally after one more occurrence of `c`: its count grows by one, or it is
/// appended with count 1 when it was not there.
pub open spec fn bump(t: Seq<(Seq<char>, nat)>, c: Seq<char>) -> Seq<(Seq<char>, nat)> {
    if has_key(t, c) {
        let k = choose|k: int| 0 <= k < t.len() && (#[trigger] t[k]).0 == c;
        t.update(k, (c, t[k].1 + 1))
    } else {
        t.push((c, 1nat))
    }
}

/// The counts of the categories in `cats`, in the order in which each first
/// appears.
pub open spec fn tally(cats: Seq<Seq<char>>) -> Seq<(Seq<char>, nat)>
    decreases cats.len(),
{
    if cats.len() == 0 {
        seq![]
    } else {
        bump(tally(cats.drop_last()), cats.last())
    }
}

/// The sum of the counts of a tally.
pub open spec fn count_sum(t: Seq<(Seq<char>, nat)>) -> nat
    decreases t.len(),
{
    if t.len() == 0 {
        0
    } else {
        count_sum(t.drop_last()) + t.last().1
    }
}

/// No category has two entries.
pub open spec fn keys_distinct(t: Seq<(Seq<char>, nat)>) -> bool {
    forall|i: int, j: int| 0 <= i < t.len() && 0 <= j < t.len() && i != j ==> (#[trigger] t[i]).0 != (#[trigger] t[j]).0
}

proof fn lemma_count_sum_update(t: Seq<(Seq<char>, nat)>, k: int, e: (Seq<char>, nat))
    requires
        0 <= k < t.len(),
    ensures
        count_sum(t.update(k, e)) + t[k].1 == count_sum(t) + e.1,
    decreases t.len(),
{
    let u = t.update(k, e);
    if k == t.len() - 1 {
        assert(u.drop_last() =~= t.drop_last());
    } else {
        assert(u.drop_last() =~= t.drop_last().update(k, e));
        lemma_count_sum_update(t.drop_last(), k, e);
    }
}

proof fn lemma_occurrences_bounded(cats: Seq<Seq<char>>, c: Seq<char>)
    ensures
        occurrences(cats, c) <= cats.len(),
    decreases cats.len(),
{
    if cats.len() > 0 {
        lemma_occurrences_bounded(cats.drop_last(), c);
    }
}

/// Law: a tally lists each category once; each count is the number of
/// occurrences of its category; a category is listed exactly when it occurs;
/// and the counts add up to the number of categories counted.
pub proof fn lemma_tally(cats: Seq<Seq<char>>)
    ensures
        keys_distinct(tally(cats)),
        forall|k: int| 0 <= k < tally(cats).len() ==>
            (#[trigger] tally(cats)[k]).1 == occurrences(cats, tally(cats)[k].0) && tally(cats)[k].1 >= 1,
        forall|c: Seq<char>| #[trigger] occurrences(cats, c) > 0 <==> has_key(tally(cats), c),
        count_sum(tally(cats)) == cats.len(),
        forall|k: int| 0 <= k < tally(cats).len() ==> (#[trigger] tally(cats)[k]).1 <= cats.len(),
    decreases cats.len(),
{
    if cats.len() > 0 {
        let d = cats.drop_last();
        let c = cats.last();
        let t = tally(d);
        lemma_tally(d);
        lemma_occurrences_bounded(cats, c);
        let n = tally(cats);
        assert(n == bump(t, c));
        if has_key(t, c) {
            let k0 = choose|k: int| 0 <= k < t.len() && (#[trigger] t[k]).0 == c;
            assert(n == t.update(k0, (c, t[k0].1 + 1)));
            lemma_count_sum_update(t, k0, (c, t[k0].1 + 1));
            assert forall|k: int| 0 <= k < n.len() implies
                (#[trigger] n[k]).1 == occurrences(cats, n[k].0) && n[k].1 >= 1 by {
                if k != k0 {
                    assert(n[k] == t[k]);
                    assert(t[k].0 != t[k0].0);
                }
            }
            assert forall|x: Seq<char>| #[trigger] occurrences(cats, x) > 0 <==> has_key(n, x) by {
                assert(occurrences(cats, x) == occurrences(d, x) + if c == x { 1nat } else { 0nat });
                assert(occurrences(d, x) > 0 <==> has_key(t, x));
                if x == c {
                    assert(n[k0].0 == x);
                } else {
                    if has_key(t, x) {
                        let j = choose|j: int| 0 <= j < t.len() && (#[trigger] t[j]).0 == x;
                        assert(n[j] == t[j]);
                    }
                    if has_key(n, x) {
                        let j = choose|j: int| 0 <= j < n.len() && (#[trigger] n[j]).0 == x;
                        assert(n[j] == t[j]);
                    }
                }
            }
            assert forall|i: int, j: int| 0 <= i < n.len() && 0 <= j < n.len() && i != j implies
                (#[trigger] n[i]).0 != (#[trigger] n[j]).0 by {
                if i != k0 && j != k0 {
                    assert(n[i] == t[i] && n[j] == t[j]);
                } else if i == k0 {
                    assert(n[j] == t[j]);
                } else {
                    assert(n[i] == t[i]);
                }
            }
        } else {
            assert(n == t.push((c, 1nat)));
            assert(n.drop_last() =~= t);
            assert(occurrences(d, c) == 0);
            assert forall|k: int| 0 <= k < n.len() implies
                (#[trigger] n[k]).1 == occurrences(cats, n[k].0) && n[k].1 >= 1 by {
                if k < t.len() {
                    assert(n[k] == t[k]);
                    if t[k].0 == c {
                        assert(has_key(t, c));
                    }
                }
            }
            assert forall|x: Seq<char>| #[trigger] occurrences(cats, x) > 0 <==> has_key(n, x) by {
                assert(occurrences(cats, x) == occurrences(d, x) + if c == x { 1nat } else { 0nat });
                assert(occurrences(d, x) > 0 <==> has_key(t, x));
                if x == c {
                    assert(n[t.len() as int].0 == x);
                } else {
                    if has_key(t, x) {
                        let j = choose|j: int| 0 <= j < t.len() && (#[trigger] t[j]).0 == x;
                        assert(n[j] == t[j]);
                    }
                    if has_key(n, x) {
                        let j = choose|j: int| 0 <= j < n.len() && (#[trigger] n[j]).0 == x;
                        if j < t.len() {
                            assert(n[j] == t[j]);
                        }
                    }
                }
            }
            assert forall|i: int, j: int| 0 <= i < n.len() && 0 <= j < n.len() && i != j implies
                (#[trigger] n[i]).0 != (#[trigger] n[j]).0 by {
                if i < t.len() && j < t.len() {
                    assert(n[i] == t[i] && n[j] == t[j]);
                } else if i < t.len() {
                    assert(n[i] == t[i]);
                    if t[i].0 == c {
                        assert(has_key(t, c));
                    }
                } else {
                    assert(n[j] == t[j]);
                    if t[j].0 == c {
                        assert(has_key(t, c));
                    }
                }
            }
        }
        assert forall|k: int| 0 <= k < n.len() implies (#[trigger] n[k]).1 <= cats.len() by {
            lemma_occurrences_bounded(cats, n[k].0);
        }
    }
}

/// Repair counts per break category, in the order in which the categories
/// first appear.
#[derive(Clone, Debug)]
pub struct CategoryCounts {
    entries: Vec<(String, u64)>,
}

impl View for CategoryCounts {
    type V = Seq<(Seq<char>, nat)>;

    closed spec fn view(&self) -> Seq<(Seq<char>, nat)> {
        self.entries@.map_values(|e: (String, u64)| (e.0@, e.1 as nat))
    }
}

impl CategoryCounts {
    /// Counts of the categories `cats`, in order of first appearance.
    pub fn from_categories(cats: &Vec<&str>) -> (r: CategoryCounts)
        ensures
            r@ == tally(cats@.map_values(|c: &str| c@)),
    {
        let ghost views = cats@.map_values(|c: &str| c@);
        let mut entries: Vec<(String, u64)> = Vec::new();
        let n = cats.len();
        let mut i: usize = 0;
        while i < n
            invariant
                n == cats@.len(),
                views == cats@.map_values(|c: &str| c@),
                0 <= i <= n,
                entries@.map_values(|e: (String, u64)| (e.0@, e.1 as nat)) == tally(views.take(i as int)),
            decreases n - i,
        {
            let ghost before = entries@.map_values(|e: (String, u64)| (e.0@, e.1 as nat));
            let ghost done = views.take(i as int);
            proof {
                lemma_tally(done);
                assert(views.take(i + 1).drop_last() =~= done);
                assert(views.take(i + 1).last() == cats@[i as int]@);
            }
            let c = cats[i].to_owned();
            let mut k: usize = 0;
            let len = entries.len();
            while k < len && entries[k].0 != c
                invariant
                    len == entries@.len(),
                    0 <= k <= len,
                    forall|j: int| 0 <= j < k ==> (#[trigger] entries@[j]).0@ != c@,
                decreases len - k,
            {
                k = k + 1;
            }
            if k < len {
                proof {
                    assert(before[k as int].0 == c@);
                    assert(has_key(before, c@));
                    lemma_occurrences_bounded(done, c@);
                }
                let count: u64 = entries[k].1;
                assert(count <= i);
                entries[k].1 = count + 1;
                proof {
                    let after = entries@.map_values(|e: (String, u64)| (e.0@, e.1 as nat));
                    let k0 = choose|j: int| 0 <= j < before.len() && (#[trigger] before[j]).0 == c@;
                    assert(k0 == k);
                    assert(after =~= before.update(k as int, (c@, before[k as int].1 + 1)));
                }
            } else {
                proof {
                    assert forall|j: int| 0 <= j < before.len() implies (#[trigger] before[j]).0 != c@ by {
                        assert(entries@[j].0@ != c@);
                    }
                }
                entries.push((c, 1));
                proof {
                    let after = entries@.map_values(|e: (String, u64)| (e.0@, e.1 as nat));
                    assert(after =~= before.push((cats@[i as int]@, 1nat)));
                }
            }
            i = i + 1;
        }
        assert(views.take(n as int) =~= views);
        CategoryCounts { entries }
    }

    /// The number of categories.
    pub fn len(&self) -> (r: usize)
        ensures
            r == self@.len(),
    {
        self.entries.len()
    }

    /// Whether no category was counted.
    pub fn is_empty(&self) -> (r: bool)
        ensures
            r == (self@.len() == 0),
    {
        self.entries.len() == 0
    }

    /// The count of a category; `None` when it was not counted.
    pub fn get(&self, category: &str) -> (r: Option<&u64>)
        ensures
            match r {
                Some(v) => exists|k: int| 0 <= k < self@.len() && (#[trigger] self@[k]).0 == category@ && self@[k].1 == *v,
                None => !has_key(self@, category@),
            },
    {
        let c = category.to_owned();
        let len = self.entries.len();
        let mut k: usize = 0;
        while k < len
            invariant
                len == self.entries@.len(),
                c@ == category@,
                0 <= k <= len,
                forall|j: int| 0 <= j < k ==> (#[trigger] self.entries@[j]).0@ != c@,
            decreases len - k,
        {
            if self.entries[k].0 == c {
                assert(self@[k as int] == (self.entries@[k as int].0@, self.entries@[k as int].1 as nat));
                assert(self@[k as int].0 == category@);
                return Some(&self.entries[k].1);
            }
            k = k + 1;
        }
        proof {
            assert forall|j: int| 0 <= j < self@.len() implies (#[trigger] self@[j]).0 != category@ by {
                assert(self.entries@[j].0@ != c@);
            }
        }
        None
    }

    /// The counts, in the order of the categories.
    pub fn values(&self) -> (r: Vec<u64>)
        ensures
            r@.len() == self@.len(),
            forall|k: int| 0 <= k < r@.len() ==> r@[k] == (#[trigger] self@[k]).1,
    {
        let mut out: Vec<u64> = Vec::new();
        let len = self.entries.len();
        let mut k: usize = 0;
        while k < len
            invariant
                len == self.entries@.len(),
                0 <= k <= len,
                out@.len() == k,
                forall|j: int| 0 <= j < k ==> out@[j] == (#[trigger] self@[j]).1,
            decreases len - k,
        {
            out.push(self.entries[k].1);
            k = k + 1;
        }
        out
    }
}

} // verus!
