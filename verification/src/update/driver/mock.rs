//! A mock backend driver: a fixed starting version and a configurable
//! always-succeed or always-fail behaviour, for exercising the upgrade
//! orchestration without a database.

use vstd::prelude::*;
use crate::update::error::Error;
use crate::update::version::{Version, VersionView};

verus! {

/// A driver that reports a fixed version and, when built with an error
/// message, fails every apply with that message.
pub struct Driver {
    version: usize,
    error: Option<String>,
}

impl Driver {
    /// The fixed version this driver reports.
    pub closed spec fn spec_version(&self) -> int {
        self.version as int
    }

    /// The configured failure message, if any.
    pub closed spec fn spec_error(&self) -> Option<Seq<char>> {
        match self.error {
            Some(m) => Some(m@),
            None => None,
        }
    }

    /// A driver reporting `version`; with `error` set, every apply fails
    /// with that message.
    pub fn new(version: usize, error: Option<&str>) -> (r: Driver)
        ensures
            r.spec_version() == version as int,
            error matches Some(m) ==> (r.spec_error() matches Some(t) && t == m@),
            error is None ==> r.spec_error() is None,
    {
        let error = match error {
            Some(e) => Some(e.to_owned()),
            None => None,
        };
        Driver { version, error }
    }
}

impl<R> crate::update::Driver<R> for Driver {
    /// The mock always answers with its fixed starting version.
    open spec fn version_post(&self, r: Result<usize, Error>) -> bool {
        r matches Ok(v) && v as int == self.spec_version()
    }

    /// With no error configured every apply succeeds; with one, every
    /// apply fails with that message, tagged with the unit's ordinal and
    /// label.
    open spec fn apply_post(&self, v: VersionView, r: Result<(), Error>) -> bool {
        match self.spec_error() {
            None => r is Ok,
            Some(m) => r matches Err(e) && e matches Error::UpgradeError(o, l, c) && o as int
                == v.ordinal && l@ == v.label && c@ == m,
        }
    }

    fn version(&self) -> Result<usize, Error> {
        Ok(self.version)
    }

    fn apply(&self, version: Version<R>) -> Result<(), Error> {
        match &self.error {
            Some(msg) => Err(
                Error::UpgradeError(version.version(), version.description(), msg.clone()),
            ),
            None => Ok(()),
        }
    }
}

} // verus!
