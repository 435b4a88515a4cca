//! The live site model: the concurrency-safe holder of the current snapshot.
//!
//! A long-lived process keeps exactly one current `Site`. Readers take a
//! cheap reference-counted handle to the immutable snapshot; the rebuild path
//! replaces the whole snapshot in one assignment, so a reader that began
//! before a replace keeps its old snapshot to completion and a reader that
//! begins after sees only the new one. A failed rebuild leaves the model
//! untouched. The watcher subscription itself and the lock around this model
//! live with the caller of the library, co-located so that neither outlives
//! the other.

use std::sync::Arc;

use vstd::prelude::*;

use crate::site::{BuildError, Site};

verus! {

/// Relies on `Arc::clone` from std: hands out another handle to the same
/// immutable value.
#[verifier::external_body]
fn share_site(site: &Arc<Site>) -> (r: Arc<Site>)
    ensures
        r == *site,
{
    Arc::clone(site)
}

/// The kind of a filesystem change notification, as the watcher reports it.
#[derive(Debug, Clone, Copy, PartialEq, Eq, Structural)]
pub enum WatchEventKind {
    /// A pure access notification: nothing changed.
    Access,
    Create,
    Modify,
    Remove,
    /// A notification the watcher could not classify.
    Other,
}

/// Whether a notification kind triggers a rebuild. Access notifications carry
/// no content change and are discarded; every other kind rebuilds.
pub fn event_triggers_rebuild(kind: &WatchEventKind) -> (b: bool)
    ensures
        b == !(kind is Access),
{
    match kind {
        WatchEventKind::Access => false,
        _ => true,
    }
}

/// Site that updates itself when changes to its source directory are
/// detected: the holder of the current snapshot.
pub struct UpdatingSite {
    /// The current snapshot.
    pub site: Arc<Site>,
}

impl UpdatingSite {
    /// Wraps the first successfully built site. There is no prior good
    /// snapshot to fall back on, so the caller treats a failure of that first
    /// build as fatal rather than constructing a model.
    pub fn new(site: Site) -> (r: UpdatingSite)
        ensures
            r.site == site,
    {
        UpdatingSite { site: Arc::new(site) }
    }

    /// Hands out the current snapshot. The handle is cheap, shares the
    /// immutable snapshot, and stays valid across later replaces.
    pub fn read(&self) -> (r: Arc<Site>)
        ensures
            r == self.site,
    {
        share_site(&self.site)
    }

    /// Replaces the current snapshot wholesale: one indivisible assignment of
    /// a fully built site, never a partial update.
    pub fn replace(&mut self, new_site: Site)
        ensures
            final(self).site == new_site,
    {
        self.site = Arc::new(new_site);
    }

    /// Feeds one rebuild result into the model: a successful rebuild replaces
    /// the snapshot, a failed one leaves the last-known-good snapshot exactly
    /// as it was. Returns whether the snapshot was replaced.
    pub fn apply_build_result(&mut self, result: Result<Site, BuildError>) -> (replaced: bool)
        ensures
            replaced == result is Ok,
            (result matches Ok(s) ==> final(self).site == s),
            (result is Err ==> final(self).site == old(self).site),
    {
        match result {
            Ok(site) => {
                self.replace(site);
                true
            },
            Err(_) => false,
        }
    }
}

} // verus!
