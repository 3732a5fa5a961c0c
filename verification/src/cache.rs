use vstd::prelude::*;

use std::sync::Arc;

use crate::assoc::AssocVec;
use crate::coord::Vec2i;
use crate::sync::arc_clone;

verus! {

/// What a cache lookup found: a finished result, or the shared in-flight
/// computation that every caller of the same key waits on.
pub enum FutureCacheResult<F, R> {
    Hit(Arc<R>),
    Waiting(Arc<F>),
}

/// Maps a key to either a finished result or one shared in-flight
/// computation handle. Registration is a single check-and-insert, so for a
/// fixed key at most one computation is ever started, and every caller that
/// looks the key up while it is outstanding is handed the same shared handle.
pub struct FutureTaskCache<F, R> {
    futures: AssocVec<Vec2i, Arc<F>>,
    results: AssocVec<Vec2i, Arc<R>>,
}

/// The effect `insert_future` promises: the handle is registered exactly
/// when the key had no entry at all, and nothing else moves.
pub open spec fn registers<F, R>(
    pre: FutureTaskCache<F, R>,
    post: FutureTaskCache<F, R>,
    key: Vec2i,
    future: Arc<F>,
    registered: bool,
) -> bool {
    &&& registered == (!pre.futures_map().dom().contains(key)
        && !pre.results_map().dom().contains(key))
    &&& registered ==> post.futures_map() == pre.futures_map().insert(key, future)
    &&& !registered ==> post.futures_map() == pre.futures_map()
    &&& post.results_map() == pre.results_map()
}

impl<F, R> FutureTaskCache<F, R> {
    pub closed spec fn futures_map(&self) -> Map<Vec2i, Arc<F>> {
        self.futures@
    }

    pub closed spec fn results_map(&self) -> Map<Vec2i, Arc<R>> {
        self.results@
    }

    pub closed spec fn wf(&self) -> bool {
        self.futures.wf() && self.results.wf()
    }

    pub fn new() -> (r: Self)
        ensures
            r.wf(),
            r.futures_map() == Map::<Vec2i, Arc<F>>::empty(),
            r.results_map() == Map::<Vec2i, Arc<R>>::empty(),
    {
        FutureTaskCache { futures: AssocVec::new(), results: AssocVec::new() }
    }

    /// A well-formed cache holds finitely many keys in each store.
    pub proof fn lemma_dom_finite(&self)
        requires
            self.wf(),
        ensures
            self.futures_map().dom().finite(),
            self.results_map().dom().finite(),
    {
        self.futures.lemma_len();
        self.results.lemma_len();
    }

    /// Returns the finished result if one is stored, else the registered
    /// in-flight handle, else nothing. A finished result supersedes the
    /// handle. Polling the handle is the caller's business; a completion it
    /// observes is stored with `insert_result`.
    pub fn get(&self, key: &Vec2i) -> (r: Option<FutureCacheResult<F, R>>)
        requires
            self.wf(),
        ensures
            match r {
                Some(FutureCacheResult::Hit(v)) => self.results_map().dom().contains(*key) && v
                    == self.results_map()[*key],
                Some(FutureCacheResult::Waiting(f)) => !self.results_map().dom().contains(*key)
                    && self.futures_map().dom().contains(*key) && f == self.futures_map()[*key],
                None => !self.results_map().dom().contains(*key)
                    && !self.futures_map().dom().contains(*key),
            },
    {
        if let Some(result) = self.results.get(key) {
            Some(FutureCacheResult::Hit(arc_clone(result)))
        } else if let Some(future) = self.futures.get(key) {
            Some(FutureCacheResult::Waiting(arc_clone(future)))
        } else {
            None
        }
    }

    /// Registers an in-flight computation, but only when the key has neither
    /// a result nor a handle yet: the first caller to observe "no entry"
    /// wins, and a key's computation is never started twice.
    pub fn insert_future(&mut self, key: Vec2i, future: Arc<F>) -> (registered: bool)
        requires
            old(self).wf(),
        ensures
            final(self).wf(),
            registers(*old(self), *final(self), key, future, registered),
    {
        if self.results.contains(&key) || self.futures.contains(&key) {
            false
        } else {
            self.futures.insert(key, future);
            true
        }
    }

    /// Stores a finished value and retires the in-flight entry it supersedes.
    pub fn insert_result(&mut self, key: Vec2i, result: Arc<R>)
        requires
            old(self).wf(),
        ensures
            final(self).wf(),
            final(self).results_map() == old(self).results_map().insert(key, result),
            final(self).futures_map() == old(self).futures_map().remove(key),
    {
        self.results.insert(key, result);
        self.futures.remove(&key);
    }

    pub fn remove_future(&mut self, key: &Vec2i)
        requires
            old(self).wf(),
        ensures
            final(self).wf(),
            final(self).futures_map() == old(self).futures_map().remove(*key),
            final(self).results_map() == old(self).results_map(),
    {
        self.futures.remove(key);
    }

    pub fn remove_result(&mut self, key: &Vec2i)
        requires
            old(self).wf(),
        ensures
            final(self).wf(),
            final(self).results_map() == old(self).results_map().remove(*key),
            final(self).futures_map() == old(self).futures_map(),
    {
        self.results.remove(key);
    }

    /// The keys whose computations are still in flight, for the driver's
    /// once-per-tick maintenance poll.
    pub fn future_keys(&self) -> (r: Vec<Vec2i>)
        requires
            self.wf(),
        ensures
            forall|i: int|
                0 <= i < r@.len() ==> self.futures_map().dom().contains(#[trigger] r@[i]),
            forall|k: Vec2i| self.futures_map().dom().contains(k) ==> r@.contains(k),
    {
        self.futures.keys()
    }
}

impl<F, R> Default for FutureTaskCache<F, R> {
    fn default() -> (r: Self)
        ensures
            r.wf(),
            r.futures_map() == Map::<Vec2i, Arc<F>>::empty(),
            r.results_map() == Map::<Vec2i, Arc<R>>::empty(),
    {
        FutureTaskCache::new()
    }
}

/// Dedup invariant: however many callers race to register a computation for
/// one key, only the first registration takes effect; the second and every
/// later one finds the key occupied and changes nothing, so exactly one
/// computation is spawned for the key.
pub proof fn lemma_single_spawn<F, R>(
    c0: FutureTaskCache<F, R>,
    c1: FutureTaskCache<F, R>,
    c2: FutureTaskCache<F, R>,
    key: Vec2i,
    h1: Arc<F>,
    h2: Arc<F>,
    r1: bool,
    r2: bool,
)
    requires
        registers(c0, c1, key, h1, r1),
        registers(c1, c2, key, h2, r2),
    ensures
        r1 ==> !r2,
        r1 ==> c2.futures_map() == c1.futures_map() && c1.futures_map()[key] == h1,
{
}

/// Every caller that finds the key in flight observes the one registered
/// handle, and every caller that finds it finished observes the one stored
/// result: what two lookups hand out is the same shared computation or value.
pub proof fn lemma_waiters_agree<F, R>(
    c: FutureTaskCache<F, R>,
    key: Vec2i,
    f1: Arc<F>,
    f2: Arc<F>,
)
    requires
        c.futures_map().dom().contains(key),
        f1 == c.futures_map()[key],
        f2 == c.futures_map()[key],
    ensures
        f1 == f2,
{
}

} // verus!
