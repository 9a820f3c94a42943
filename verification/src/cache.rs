//! A process-wide cached snapshot of every user directory.
//!
//! Resolving costs a `user-dirs.dirs` read on Linux and one shell call per
//! directory on Windows. Where those paths are consulted repeatedly this pays
//! for the lookup once. The snapshot is taken once and reused until
//! [`reload`] discards it; the free lookups never read it, so staleness is
//! something asked for at the call site.
use std::sync::Arc;
use vstd::prelude::*;
use crate::{resolve_all_spec, Environment, UserDirs};

verus! {

/// The state of the snapshot. `None` means "not yet resolved";
/// `Some(None)` means "resolved, and there are no directories", which must
/// not trigger a new resolution on every call.
pub struct Cache {
    slot: Option<Option<Arc<UserDirs>>>,
}

/// The directories an optional shared snapshot holds.
pub open spec fn shared_view(r: Option<Arc<UserDirs>>) -> Option<Seq<Option<Seq<u8>>>> {
    match r {
        Some(d) => Some(d@),
        None => None,
    }
}

impl Cache {
    /// What the cache holds: `None` before anything was resolved, else the
    /// outcome of the resolution it remembers.
    pub closed spec fn snapshot(&self) -> Option<Option<Seq<Option<Seq<u8>>>>> {
        match self.slot {
            None => None,
            Some(r) => Some(shared_view(r)),
        }
    }

    /// An empty cache: nothing resolved yet.
    pub fn new() -> (r: Cache)
        ensures
            r.snapshot() is None,
    {
        Cache { slot: None }
    }
}

/// `Arc::clone`: another handle to the same allocation, so the same value.
#[verifier::external_body]
fn share(a: &Arc<UserDirs>) -> (r: Arc<UserDirs>)
    ensures
        r == *a,
{
    Arc::clone(a)
}

/// The cached snapshot, resolving it on first use.
///
/// Where a snapshot is held, it is handed back (the same allocation) and the
/// cache is left as it was. Otherwise `environment` is consulted once, its
/// directories are resolved as `UserDirs::new` resolves them, and the
/// outcome, `None` included, is remembered.
pub fn user_dirs<F: FnOnce() -> Environment>(cache: &mut Cache, environment: F) -> (r: Option<
    Arc<UserDirs>,
>)
    requires
        old(cache).snapshot() is None ==> environment.requires(()),
    ensures
        match old(cache).snapshot() {
            Some(s) => shared_view(r) == s && final(cache).snapshot() == Some(s),
            None => (exists|e: Environment|
                #[trigger] environment.ensures((), e) && resolve_all_spec(e) == shared_view(r))
                && final(cache).snapshot() == Some(shared_view(r)),
        },
{
    match &cache.slot {
        Some(Some(a)) => {
            return Some(share(a));
        },
        Some(None) => {
            return None;
        },
        None => {},
    }
    let env = environment();
    let resolved = match UserDirs::new(&env) {
        Some(d) => Some(Arc::new(d)),
        None => None,
    };
    let kept = match &resolved {
        Some(a) => Some(share(a)),
        None => None,
    };
    cache.slot = Some(kept);
    assert(environment.ensures((), env));
    resolved
}

/// Discard the snapshot so the next [`user_dirs`] call resolves again.
/// Callers already holding a snapshot keep it.
pub fn reload(cache: &mut Cache)
    ensures
        final(cache).snapshot() is None,
{
    cache.slot = None;
}

} // verus!
