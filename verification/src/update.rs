//! The versioned migration engine: discovery of ordered migration units,
//! the sequencing invariant, and the upgrade orchestration.
//!
//! The [`Upgrader`] pulls the complete unit list from a
//! [`provider::Provider`] once, at construction. `upgrade(target)` reads
//! the current version from the [`Driver`], walks the discovered units in
//! order, and applies every unit whose ordinal lies in
//! `(current, target]`; the first failure halts the walk and is returned
//! as is. Units already applied stay applied: each one was committed in
//! its own transaction by the driver.

use vstd::prelude::*;

pub mod driver;
pub mod error;
pub mod io;
pub mod provider;
pub mod version;

use crate::update::error::Error;
use crate::update::provider::{discovered, ordinals, views, Provider};
use crate::update::version::{Version, VersionView};

verus! {

/// The ordinals lying in `(curr, target]`, in the order they occur in
/// `ords`: the delta an upgrade must apply.
pub open spec fn delta_ordinals(ords: Seq<int>, curr: int, target: int) -> Seq<int> {
    ords.filter(|o: int| curr < o <= target)
}

/// The views of the units whose ordinal lies in `(curr, target]`, in
/// the order they occur: the delta an upgrade must apply.
pub open spec fn delta_views(vs: Seq<VersionView>, curr: int, target: int) -> Seq<VersionView> {
    vs.filter(|v: VersionView| curr < v.ordinal <= target)
}

/// The greatest ordinal of `ords`, or 0 when there is none.
pub open spec fn max_ordinal(ords: Seq<int>) -> int
    decreases ords.len(),
{
    if ords.len() == 0 {
        0
    } else if ords.last() > max_ordinal(ords.drop_last()) {
        ords.last()
    } else {
        max_ordinal(ords.drop_last())
    }
}

/// A target at or below the current version leaves nothing to apply: the
/// delta is empty, whatever was discovered.
pub proof fn lemma_no_pending_at_or_below_current(ords: Seq<int>, curr: int, target: int)
    requires
        target <= curr,
    ensures
        delta_ordinals(ords, curr, target).len() == 0,
{
    let pred = |o: int| curr < o <= target;
    assert(ords.all(|o: int| !pred(o)));
    ords.lemma_all_neg_filter_empty(pred);
}

/// The engine never re-applies a committed ordinal: everything in the
/// delta lies strictly above the current version, and never beyond the
/// target.
pub proof fn lemma_pending_exceeds_current(ords: Seq<int>, curr: int, target: int)
    ensures
        forall|i: int|
            0 <= i < delta_ordinals(ords, curr, target).len() ==> curr < #[trigger] delta_ordinals(
                ords,
                curr,
                target,
            )[i] <= target,
{
    let pred = |o: int| curr < o <= target;
    assert forall|i: int| 0 <= i < delta_ordinals(ords, curr, target).len() implies curr
        < #[trigger] delta_ordinals(ords, curr, target)[i] <= target by {
        ords.lemma_filter_pred(pred, i);
    }
}

/// A backend capability: report the currently applied version, and apply
/// one unit transactionally, recording its ordinal in the same
/// transaction as the unit's own effects.
///
/// Each implementation declares, as a predicate per method, which
/// results its calls can produce; the methods promise no more than
/// that. A driver whose outcome depends on the outside world declares a
/// predicate that admits every outcome it can see.
pub trait Driver<R> {
    /// Which results `version` can produce. The default admits every
    /// outcome, the right reading for a driver over a database.
    open spec fn version_post(&self, r: Result<usize, Error>) -> bool {
        true
    }

    /// Which results applying a unit with view `v` can produce. The
    /// default admits every outcome.
    open spec fn apply_post(&self, v: VersionView, r: Result<(), Error>) -> bool {
        true
    }

    /// The greatest recorded ordinal, or 0 when none is recorded yet.
    fn version(&self) -> (r: Result<usize, Error>)
        ensures
            self.version_post(r),
    ;

    /// Applies one unit and records its ordinal, atomically: on an error
    /// the whole transaction has been rolled back and nothing of the unit
    /// is observable.
    fn apply(&self, version: Version<R>) -> (r: Result<(), Error>)
        ensures
            self.apply_post(version@, r),
    ;
}

/// Every unit of `dv` was applied and succeeded, by `d`'s own account.
pub open spec fn all_applies_ok<R, D: Driver<R>>(d: &D, dv: Seq<VersionView>) -> bool {
    forall|j: int| 0 <= j < dv.len() ==> d.apply_post(#[trigger] dv[j], Ok(()))
}

/// `d` cannot fail on any unit of `dv`: no error outcome is admitted by
/// its own predicate.
pub open spec fn no_apply_failure<R, D: Driver<R>>(d: &D, dv: Seq<VersionView>) -> bool {
    forall|j: int, e: Error| 0 <= j < dv.len() ==> !(#[trigger] d.apply_post(dv[j], Err(e)))
}

/// The walk over `dv` halted with `e`: some unit's apply produced `e`,
/// and every unit before it succeeded. Units after the failing one were
/// never attempted.
pub open spec fn apply_halted<R, D: Driver<R>>(d: &D, dv: Seq<VersionView>, e: Error) -> bool {
    exists|j: int|
        0 <= j < dv.len() && d.apply_post(#[trigger] dv[j], Err(e)) && (forall|t: int|
            0 <= t < j ==> d.apply_post(#[trigger] dv[t], Ok(())))
}

/// The orchestrator: a driver plus the full unit list, pulled eagerly
/// from a provider at construction.
pub struct Upgrader<R, D: Driver<R>> {
    driver: D,
    versions: Vec<Version<R>>,
}

impl<R: Clone, D: Driver<R>> Upgrader<R, D> {
    /// The driver this upgrader drives.
    pub closed spec fn spec_driver(&self) -> &D {
        &self.driver
    }

    /// The discovered units.
    pub closed spec fn spec_versions(&self) -> Seq<Version<R>> {
        self.versions@
    }

    /// The discovered ordinals, in discovery order.
    pub open spec fn spec_ordinals(&self) -> Seq<int> {
        ordinals(self.spec_versions())
    }

    /// The discovered units' views, in discovery order.
    pub open spec fn spec_views(&self) -> Seq<VersionView> {
        views(self.spec_versions())
    }

    /// An upgrader over `driver` and an already-discovered unit list.
    pub fn from_parts(driver: D, versions: Vec<Version<R>>) -> (r: Self)
        ensures
            r.spec_driver() == driver,
            r.spec_versions() == versions@,
    {
        Upgrader { driver, versions }
    }

    /// Builds an upgrader over `driver`, pulling the complete unit list
    /// from `provider` once: on success the upgrader holds exactly what
    /// discovery handed out, and construction fails exactly when
    /// discovery does, with the provider's error.
    pub fn new<P: Provider<R>>(driver: D, provider: P) -> (r: Result<Self, Error>)
        ensures
            r matches Ok(u) ==> (u.spec_driver() == driver && exists|out: Seq<Version<R>>|
                #[trigger] provider.versions_post(Ok(out)) && u.spec_versions() == out),
            r matches Err(e) ==> provider.versions_post(Err(e)),
    {
        let versions = match provider.versions() {
            Ok(v) => v,
            Err(e) => return Err(e),
        };
        Ok(Self::from_parts(driver, versions))
    }

    /// The currently applied version, as the driver reports it.
    pub fn current_version(&self) -> (r: Result<usize, Error>)
        ensures
            self.spec_driver().version_post(r),
    {
        self.driver.version()
    }

    /// The greatest discovered ordinal, or 0 when nothing was discovered.
    pub fn latest_version(&self) -> (r: Result<usize, Error>)
        ensures
            r matches Ok(m) && m as int == max_ordinal(self.spec_ordinals()),
    {
        let n = self.versions.len();
        let mut mx: usize = 0;
        let mut i: usize = 0;
        while i < n
            invariant
                n == self.versions@.len(),
                i <= n,
                mx as int == max_ordinal(self.spec_ordinals().subrange(0, i as int)),
            decreases n - i,
        {
            let v = self.versions[i].version();
            proof {
                let pre = self.spec_ordinals().subrange(0, i as int);
                let ext = self.spec_ordinals().subrange(0, i + 1);
                assert(ext.drop_last() =~= pre);
                assert(ext.last() == self.spec_ordinals()[i as int]);
                assert(self.spec_ordinals()[i as int] == self.spec_versions()[i as int]@.ordinal);
            }
            if v > mx {
                mx = v;
            }
            i += 1;
        }
        proof {
            assert(self.spec_ordinals().subrange(0, n as int) =~= self.spec_ordinals());
        }
        Ok(mx)
    }

    /// Applies, in discovery order, every unit with ordinal in
    /// `(curr, target]`, and returns the ordinals applied. The first
    /// failing apply halts the walk: its error is returned as is, the
    /// earlier units stay applied, and no later unit is attempted. A
    /// driver that cannot fail on the pending units makes success
    /// certain.
    pub fn upgrade_from(&self, curr: usize, target: usize) -> (r: Result<Vec<usize>, Error>)
        ensures
            r matches Ok(applied) ==> (applied@.map_values(|o: usize| o as int) == delta_ordinals(
                self.spec_ordinals(),
                curr as int,
                target as int,
            ) && all_applies_ok(
                self.spec_driver(),
                delta_views(self.spec_views(), curr as int, target as int),
            )),
            r matches Err(e) ==> apply_halted(
                self.spec_driver(),
                delta_views(self.spec_views(), curr as int, target as int),
                e,
            ),
            no_apply_failure(
                self.spec_driver(),
                delta_views(self.spec_views(), curr as int, target as int),
            ) ==> r is Ok,
            delta_ordinals(self.spec_ordinals(), curr as int, target as int).len() == 0 ==> r
                is Ok,
            target <= curr ==> r is Ok,
    {
        proof {
            if target <= curr {
                lemma_no_pending_at_or_below_current(
                    self.spec_ordinals(),
                    curr as int,
                    target as int,
                );
            }
        }
        let ghost pred = |o: int| curr < o <= target;
        let ghost vpred = |v: VersionView| curr < v.ordinal <= target;
        let n = self.versions.len();
        let mut applied: Vec<usize> = Vec::new();
        let mut i: usize = 0;
        while i < n
            invariant
                n == self.versions@.len(),
                i <= n,
                pred == (|o: int| (curr as int) < o <= (target as int)),
                vpred == (|v: VersionView| (curr as int) < v.ordinal <= (target as int)),
                applied@.map_values(|o: usize| o as int) == self.spec_ordinals().subrange(
                    0,
                    i as int,
                ).filter(pred),
                forall|t: int|
                    0 <= t < self.spec_views().subrange(0, i as int).filter(vpred).len()
                        ==> self.spec_driver().apply_post(
                        #[trigger] self.spec_views().subrange(0, i as int).filter(vpred)[t],
                        Ok(()),
                    ),
            decreases n - i,
        {
            let candidate = self.versions[i].version();
            proof {
                reveal(Seq::filter);
                let pre = self.spec_ordinals().subrange(0, i as int);
                let ext = self.spec_ordinals().subrange(0, i + 1);
                assert(ext.drop_last() =~= pre);
                assert(self.spec_ordinals()[i as int] == self.spec_versions()[i as int]@.ordinal);
                assert(ext.last() == candidate as int);
                let vpre = self.spec_views().subrange(0, i as int);
                let vext = self.spec_views().subrange(0, i + 1);
                assert(vext.drop_last() =~= vpre);
                assert(self.spec_views()[i as int] == self.spec_versions()[i as int]@);
                assert(vext.last() == self.spec_versions()[i as int]@);
            }
            if candidate > curr && candidate <= target {
                let unit = self.versions[i].clone();
                match self.driver.apply(unit) {
                    Ok(u) => {
                        proof {
                            assert(u == ());
                        }
                    },
                    Err(e) => {
                        proof {
                            reveal(Seq::filter);
                            self.spec_ordinals().lemma_filter_contains(pred, i as int);
                            let d = delta_ordinals(
                                self.spec_ordinals(),
                                curr as int,
                                target as int,
                            );
                            assert(d.contains(self.spec_ordinals()[i as int]));
                            assert(d.len() > 0);

                            let vpre = self.spec_views().subrange(0, i as int);
                            let vext = self.spec_views().subrange(0, i + 1);
                            let rest = self.spec_views().subrange(i + 1, n as int);
                            let vi = self.spec_versions()[i as int]@;
                            assert(self.spec_views() =~= vext + rest);
                            Seq::filter_distributes_over_add(vext, rest, vpred);
                            let dv = delta_views(
                                self.spec_views(),
                                curr as int,
                                target as int,
                            );
                            assert(vext.filter(vpred) =~= vpre.filter(vpred).push(vi));
                            assert(dv =~= vpre.filter(vpred).push(vi) + rest.filter(vpred));
                            let j = vpre.filter(vpred).len() as int;
                            assert(dv[j] == vi);
                            assert(forall|t: int|
                                0 <= t < j ==> dv[t] == vpre.filter(vpred)[t]);
                            assert(self.spec_driver().apply_post(dv[j], Err(e)));
                            assert(apply_halted(self.spec_driver(), dv, e));
                        }
                        return Err(e);
                    },
                }
                applied.push(candidate);
                proof {
                    reveal(Seq::filter);
                    assert(applied@.map_values(|o: usize| o as int) =~= self.spec_ordinals()
                        .subrange(0, i + 1).filter(pred));
                    let vpre = self.spec_views().subrange(0, i as int);
                    let vext = self.spec_views().subrange(0, i + 1);
                    let vi = self.spec_versions()[i as int]@;
                    assert(vext.filter(vpred) =~= vpre.filter(vpred).push(vi));
                    assert(self.spec_driver().apply_post(vi, Ok(())));
                }
            } else {
                proof {
                    reveal(Seq::filter);
                    assert(applied@.map_values(|o: usize| o as int) =~= self.spec_ordinals()
                        .subrange(0, i + 1).filter(pred));
                    let vpre = self.spec_views().subrange(0, i as int);
                    let vext = self.spec_views().subrange(0, i + 1);
                    assert(vext.filter(vpred) =~= vpre.filter(vpred));
                }
            }
            i += 1;
        }
        proof {
            assert(self.spec_ordinals().subrange(0, n as int) =~= self.spec_ordinals());
            assert(self.spec_views().subrange(0, n as int) =~= self.spec_views());
        }
        Ok(applied)
    }

    /// Reads the current version from the driver, then applies every
    /// pending unit up to `target`, in order. On success the returned
    /// list holds exactly the ordinals in `(current, target]`, in
    /// ascending discovery order; a target at or below the current
    /// version is a no-op success. On failure the error is the driver's,
    /// from the version query or from the first failing unit.
    pub fn upgrade(&self, target: usize) -> (r: Result<Vec<usize>, Error>)
        ensures
            r matches Ok(applied) ==> exists|curr: usize|
                #[trigger] self.spec_driver().version_post(Ok(curr)) && applied@.map_values(
                    |o: usize| o as int,
                ) == delta_ordinals(self.spec_ordinals(), curr as int, target as int)
                    && all_applies_ok(
                    self.spec_driver(),
                    delta_views(self.spec_views(), curr as int, target as int),
                ),
            r matches Err(e) ==> (self.spec_driver().version_post(Err(e)) || exists|curr: usize|
                #[trigger] self.spec_driver().version_post(Ok(curr)) && apply_halted(
                    self.spec_driver(),
                    delta_views(self.spec_views(), curr as int, target as int),
                    e,
                )),
    {
        let curr = match self.current_version() {
            Ok(c) => c,
            Err(e) => return Err(e),
        };
        self.upgrade_from(curr, target)
    }

    /// `upgrade` to the greatest discovered ordinal.
    pub fn upgrade_latest(&self) -> (r: Result<Vec<usize>, Error>)
        ensures
            r matches Ok(applied) ==> exists|curr: usize|
                #[trigger] self.spec_driver().version_post(Ok(curr)) && applied@.map_values(
                    |o: usize| o as int,
                ) == delta_ordinals(
                    self.spec_ordinals(),
                    curr as int,
                    max_ordinal(self.spec_ordinals()),
                ) && all_applies_ok(
                    self.spec_driver(),
                    delta_views(self.spec_views(), curr as int, max_ordinal(self.spec_ordinals())),
                ),
            r matches Err(e) ==> (self.spec_driver().version_post(Err(e)) || exists|curr: usize|
                #[trigger] self.spec_driver().version_post(Ok(curr)) && apply_halted(
                    self.spec_driver(),
                    delta_views(self.spec_views(), curr as int, max_ordinal(self.spec_ordinals())),
                    e,
                )),
    {
        let target = match self.latest_version() {
            Ok(t) => t,
            Err(e) => return Err(e),
        };
        self.upgrade(target)
    }
}

} // verus!
