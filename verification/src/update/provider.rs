//! Discovery of the complete, ordered set of migration units.
//!
//! A provider yields units in any order; [`arrange`] then sorts them by
//! ordinal and enforces the sequencing invariant: the i-th unit (counting
//! from 1) must carry ordinal exactly i. The first mismatch aborts
//! discovery with a `SequenceError` naming the expected and the found
//! ordinal — no partial or gapped set is ever accepted.

use vstd::prelude::*;
use vstd::multiset::Multiset;
use vstd::relations::{sorted_by, total_ordering};
use vstd::seq_lib::lemma_sorted_unique;
use crate::update::error::Error;
use crate::update::version::{Version, VersionView};

verus! {

/// The view of each unit of a sequence.
pub open spec fn views<R>(s: Seq<Version<R>>) -> Seq<VersionView> {
    s.map_values(|v: Version<R>| v@)
}

/// The ordinal of each unit of a sequence.
pub open spec fn ordinals<R>(s: Seq<Version<R>>) -> Seq<int> {
    s.map_values(|v: Version<R>| v@.ordinal)
}

/// Whether `s` is exactly the run `1, 2, .., s.len()`.
pub open spec fn contiguous(s: Seq<int>) -> bool {
    forall|i: int| 0 <= i < s.len() ==> s[i] == i + 1
}

/// The first index at or after `i` at which `s` departs from the run
/// `1, 2, .., s.len()`; `s.len()` when it never does.
pub open spec fn first_gap_from(s: Seq<int>, i: int) -> int
    decreases s.len() - i,
{
    if i < 0 || i >= s.len() {
        i
    } else if s[i] != i + 1 {
        i
    } else {
        first_gap_from(s, i + 1)
    }
}

/// A discovery result with the unit list as a sequence, the shape the
/// providers' contracts speak of.
pub open spec fn discovered<R>(r: Result<Vec<Version<R>>, Error>) -> Result<
    Seq<Version<R>>,
    Error,
> {
    match r {
        Ok(v) => Ok(v@),
        Err(e) => Err(e),
    }
}

/// A source of migration units. What a provider yields is not ordered or
/// validated; [`arrange`] does both.
pub trait Provider<R> {
    /// Which results this provider's discovery can produce. Each
    /// implementation declares its own predicate, and `versions` promises
    /// that its result satisfies it; a provider that cannot fail declares
    /// a predicate no error satisfies. The default admits every outcome,
    /// the right reading for a provider over a filesystem.
    open spec fn versions_post(&self, r: Result<Seq<Version<R>>, Error>) -> bool {
        true
    }

    /// The complete set of available units, or a discovery error.
    fn versions(&self) -> (r: Result<Vec<Version<R>>, Error>)
        ensures
            self.versions_post(discovered(r)),
    ;
}

/// A provider over a fixed, pre-built unit list, handed back as given,
/// without re-validating contiguity.
pub struct ConstantProvider<R> {
    versions: Vec<Version<R>>,
}

impl<R> ConstantProvider<R> {
    /// The units this provider will yield.
    pub closed spec fn spec_versions(&self) -> Seq<Version<R>> {
        self.versions@
    }

    /// Wraps a fixed unit list.
    pub fn new(versions: Vec<Version<R>>) -> (r: ConstantProvider<R>)
        ensures
            r.spec_versions() == versions@,
    {
        ConstantProvider { versions }
    }
}

impl<R: Clone> Provider<R> for ConstantProvider<R> {
    /// A constant provider never fails: discovery always succeeds and
    /// hands out its stored units, in order, ordinals and labels as
    /// given. (The content sources are clones, so only the units' views
    /// are pinned.)
    open spec fn versions_post(&self, r: Result<Seq<Version<R>>, Error>) -> bool {
        r matches Ok(out) && out.len() == self.spec_versions().len() && (forall|j: int|
            0 <= j < out.len() ==> (#[trigger] out[j])@ == self.spec_versions()[j]@)
    }

    fn versions(&self) -> (r: Result<Vec<Version<R>>, Error>)
        ensures
            r matches Ok(out) && out@.len() == self.spec_versions().len() && (forall|j: int|
                0 <= j < out@.len() ==> (#[trigger] out@[j])@ == self.spec_versions()[j]@),
    {
        let n = self.versions.len();
        let mut out: Vec<Version<R>> = Vec::new();
        let mut i: usize = 0;
        while i < n
            invariant
                n == self.versions@.len(),
                i <= n,
                out@.len() == i,
                forall|j: int| 0 <= j < i ==> (#[trigger] out@[j])@ == self.versions@[j]@,
            decreases n - i,
        {
            out.push(self.versions[i].clone());
            i += 1;
        }
        Ok(out)
    }
}

proof fn lemma_first_gap_at(s: Seq<int>, j: int, i: int)
    requires
        0 <= j <= i < s.len(),
        forall|t: int| j <= t < i ==> s[t] == t + 1,
        s[i] != i + 1,
    ensures
        first_gap_from(s, j) == i,
    decreases i - j,
{
    if j < i {
        lemma_first_gap_at(s, j + 1, i);
    }
}

/// Sorts `units` ascending by ordinal and verifies strict contiguity:
/// the i-th unit of the result (1-indexed) carries ordinal exactly i.
/// On the first mismatch the whole discovery fails with
/// `SequenceError(expected, found)` and no units are handed out.
pub fn arrange<R>(units: Vec<Version<R>>) -> (r: Result<Vec<Version<R>>, Error>)
    ensures
        r is Ok <==> contiguous(ordinals(units@).sort()),
        r matches Ok(out) ==> (out@.len() == units@.len() && views(out@).to_multiset() == views(
            units@,
        ).to_multiset() && forall|i: int|
            0 <= i < out@.len() ==> (#[trigger] out@[i])@.ordinal == i + 1),
        r matches Err(e) ==> (e matches Error::SequenceError(x, y) && x as int == first_gap_from(
            ordinals(units@).sort(),
            0,
        ) + 1 && y as int == ordinals(units@).sort()[first_gap_from(ordinals(units@).sort(), 0)]),
{
    broadcast use vstd::seq_lib::group_to_multiset_ensures;
    broadcast use vstd::multiset::group_multiset_axioms;

    let ghost units0 = units@;
    let ghost le = |x: int, y: int| x <= y;
    let mut units = units;
    let mut out: Vec<Version<R>> = Vec::new();
    while units.len() > 0
        invariant
            views(out@).to_multiset().add(views(units@).to_multiset()) == views(
                units0,
            ).to_multiset(),
            ordinals(out@).to_multiset().add(ordinals(units@).to_multiset()) == ordinals(
                units0,
            ).to_multiset(),
            le == (|x: int, y: int| x <= y),
            sorted_by(ordinals(out@), le),
            forall|p: int, q: int|
                0 <= p < out@.len() && 0 <= q < units@.len() ==> ordinals(out@)[p] <= ordinals(
                    units@,
                )[q],
        decreases units.len(),
    {
        let mut m: usize = 0;
        let mut j: usize = 1;
        while j < units.len()
            invariant
                units@.len() > 0,
                m < units@.len(),
                1 <= j <= units@.len(),
                forall|t: int| 0 <= t < j ==> ordinals(units@)[m as int] <= ordinals(units@)[t],
            decreases units@.len() - j,
        {
            proof {
                assert(ordinals(units@)[j as int] == units@[j as int]@.ordinal);
                assert(ordinals(units@)[m as int] == units@[m as int]@.ordinal);
            }
            if units[j].version() < units[m].version() {
                m = j;
            }
            j += 1;
        }
        let ghost us = units@;
        let u = units.remove(m);
        let ghost uv = u@;
        let ghost old_out = out@;
        out.push(u);
        proof {
            broadcast use vstd::seq_lib::group_to_multiset_ensures;
            broadcast use vstd::multiset::group_multiset_axioms;

            assert(uv == views(us)[m as int]);
            assert(uv.ordinal == ordinals(us)[m as int]);
            assert(views(units@) =~= views(us).remove(m as int));
            assert(ordinals(units@) =~= ordinals(us).remove(m as int));
            assert(views(out@) =~= views(old_out).push(uv));
            assert(ordinals(out@) =~= ordinals(old_out).push(uv.ordinal));
            vstd::seq_lib::to_multiset_remove::<VersionView>(views(us), m as int);
            vstd::seq_lib::to_multiset_remove::<int>(ordinals(us), m as int);
            assert(views(us).remove(m as int).to_multiset() =~= views(us).to_multiset().remove(
                views(us)[m as int],
            ));
            assert(ordinals(us).remove(m as int).to_multiset() =~= ordinals(
                us,
            ).to_multiset().remove(ordinals(us)[m as int]));
            assert(views(us).contains(uv));
            assert(views(us).to_multiset().count(uv) > 0);
            assert(ordinals(us).contains(uv.ordinal));
            assert(ordinals(us).to_multiset().count(uv.ordinal) > 0);
            assert(views(out@).to_multiset().add(views(units@).to_multiset()) =~= views(
                units0,
            ).to_multiset());
            assert(ordinals(out@).to_multiset().add(ordinals(units@).to_multiset()) =~= ordinals(
                units0,
            ).to_multiset());
            // The pushed unit carries the minimal remaining ordinal, so the
            // output stays sorted and stays below everything left.
            assert forall|p: int, q: int|
                0 <= p < out@.len() && 0 <= q < units@.len() implies ordinals(out@)[p] <= ordinals(
                units@,
            )[q] by {
                assert(ordinals(units@)[q] == ordinals(us).remove(m as int)[q]);
                if q < m {
                    assert(ordinals(us).remove(m as int)[q] == ordinals(us)[q]);
                } else {
                    assert(ordinals(us).remove(m as int)[q] == ordinals(us)[q + 1]);
                }
                if p < old_out.len() {
                } else {
                    assert(ordinals(out@)[p] == uv.ordinal);
                }
            }
            assert(sorted_by(ordinals(out@), le)) by {
                assert forall|p: int, q: int| 0 <= p < q < ordinals(out@).len() implies le(
                    ordinals(out@)[p],
                    ordinals(out@)[q],
                ) by {
                    if q < old_out.len() {
                        assert(le(ordinals(old_out)[p], ordinals(old_out)[q]));
                    } else {
                        assert(ordinals(out@)[q] == uv.ordinal);
                        assert(ordinals(old_out)[p] <= ordinals(us)[m as int]);
                    }
                }
            }
        }
    }
    proof {
        assert(views(units@) =~= Seq::<VersionView>::empty());
        assert(ordinals(units@) =~= Seq::<int>::empty());
        assert(Seq::<VersionView>::empty().to_multiset() =~= Multiset::<VersionView>::empty());
        assert(Seq::<int>::empty().to_multiset() =~= Multiset::<int>::empty());
        assert(views(out@).to_multiset() =~= views(units0).to_multiset());
        assert(ordinals(out@).to_multiset() =~= ordinals(units0).to_multiset());
        ordinals(units0).lemma_sort_ensures();
        assert(total_ordering(le));
        lemma_sorted_unique(ordinals(out@), ordinals(units0).sort(), le);
        assert(ordinals(out@) == ordinals(units0).sort());
        assert(out@.len() == units0.len()) by {
            assert(views(out@).to_multiset().len() == views(out@).len());
            assert(views(units0).to_multiset().len() == views(units0).len());
        }
    }
    let ghost sorted = ordinals(units0).sort();
    let n = out.len();
    let mut i: usize = 0;
    while i < n && out[i].version() == i + 1
        invariant
            n == out@.len(),
            i <= n,
            sorted == ordinals(out@),
            forall|t: int| 0 <= t < i ==> ordinals(out@)[t] == t + 1,
        decreases n - i,
    {
        proof {
            assert(ordinals(out@)[i as int] == out@[i as int]@.ordinal);
        }
        i += 1;
    }
    proof {
        assert(forall|t: int| 0 <= t < i ==> sorted[t] == t + 1);
    }
    if i < n {
        let v = out[i].version();
        proof {
            assert(ordinals(out@)[i as int] == out@[i as int]@.ordinal);
            assert(sorted[i as int] != i + 1);
            lemma_first_gap_at(sorted, 0, i as int);
            assert(!contiguous(sorted));
        }
        return Err(Error::SequenceError(i + 1, v));
    }
    proof {
        assert(contiguous(sorted));
        assert forall|t: int| 0 <= t < out@.len() implies (#[trigger] out@[t])@.ordinal == t
            + 1 by {
            assert(ordinals(out@)[t] == out@[t]@.ordinal);
        }
    }
    Ok(out)
}

} // verus!
