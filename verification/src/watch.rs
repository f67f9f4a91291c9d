//! Hot-reload bookkeeping: decide, from the policy version read on each
//! tick, whether the ruleset must be recompiled and republished. The
//! periodic timer, the file reads and the watch channel live at the
//! service edge; the version comparison is here.

use vstd::prelude::*;
use crate::loader::PolicyLoader;
use crate::text;

verus! {

use vstd::string::StringExecFns;

/// Watch for policy changes and decide when to republish.
#[derive(Debug)]
pub struct PolicyWatcher {
    loader: PolicyLoader,
    check_interval_secs: u64,
    last_version: Option<String>,
}

impl PolicyWatcher {
    /// The last version that was published, if any.
    pub closed spec fn spec_last_version(self) -> Option<Seq<char>> {
        match self.last_version {
            Some(ref v) => Some(v@),
            None => None,
        }
    }

    /// The configured check interval, in seconds.
    pub closed spec fn spec_check_interval_secs(self) -> u64 {
        self.check_interval_secs
    }

    /// The loader the watcher reloads from.
    pub closed spec fn spec_loader(self) -> PolicyLoader {
        self.loader
    }

    /// Create a new policy watcher that has published nothing yet.
    pub fn new(loader: PolicyLoader, check_interval_secs: u64) -> (r: PolicyWatcher)
        ensures
            r.spec_loader() == loader,
            r.spec_check_interval_secs() == check_interval_secs,
            r.spec_last_version() is None,
    {
        PolicyWatcher { loader, check_interval_secs, last_version: None }
    }

    /// The loader in use.
    pub fn loader(&self) -> (r: &PolicyLoader)
        ensures
            r == &self.spec_loader(),
    {
        &self.loader
    }

    /// The configured check interval, in seconds.
    pub fn check_interval_secs(&self) -> (r: u64)
        ensures
            r == self.spec_check_interval_secs(),
    {
        self.check_interval_secs
    }

    /// Observe the version the policy file currently declares. Returns
    /// true — and latches the version — exactly when it differs from the
    /// last published one; the caller then recompiles and publishes. An
    /// unchanged version is skipped.
    pub fn observe_version(&mut self, version: &str) -> (changed: bool)
        ensures
            changed == (old(self).spec_last_version() != Some(version@)),
            changed ==> final(self).spec_last_version() == Some(version@),
            !changed ==> final(self).spec_last_version() == old(self).spec_last_version(),
            final(self).spec_loader() == old(self).spec_loader(),
            final(self).spec_check_interval_secs() == old(self).spec_check_interval_secs(),
    {
        let same: bool = match &self.last_version {
            Some(v) => text::str_eq(v.as_str(), version),
            None => false,
        };
        if same {
            false
        } else {
            self.last_version = Some(String::from_str(version));
            true
        }
    }
}

} // verus!
