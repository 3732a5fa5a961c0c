use vstd::prelude::*;

use std::sync::Arc;

use crate::cache::{FutureCacheResult, FutureTaskCache};
use crate::coord::Vec2i;
use crate::storage::chunk::{delinearize2, CHUNK_SIZE, PADDED_CHUNK_AREA, PADDED_CHUNK_SIZE};
use crate::storage::heightmap::Heightmap;

verus! {

/// The world position every cell of the padded footprint at `origin` samples
/// terrain height at: the origin scaled by the chunk edge, plus the local
/// offset. Widened so any chunk coordinate has a position.
pub fn sample_positions(origin: Vec2i) -> (r: Vec<(i64, i64)>)
    ensures
        r@.len() == PADDED_CHUNK_AREA,
        forall|k: int|
            0 <= k < r@.len() ==> {
                &&& (#[trigger] r@[k]).0 == origin.x * (CHUNK_SIZE as int) + k % (
                PADDED_CHUNK_SIZE as int)
                &&& r@[k].1 == origin.y * (CHUNK_SIZE as int) + k / (PADDED_CHUNK_SIZE as int)
            },
{
    let mut r: Vec<(i64, i64)> = Vec::new();
    let mut k: usize = 0;
    while k < (PADDED_CHUNK_AREA as usize)
        invariant
            0 <= k <= PADDED_CHUNK_AREA,
            r@.len() == k,
            forall|j: int|
                0 <= j < k ==> {
                    &&& (#[trigger] r@[j]).0 == origin.x * (CHUNK_SIZE as int) + j % (
                    PADDED_CHUNK_SIZE as int)
                    &&& r@[j].1 == origin.y * (CHUNK_SIZE as int) + j / (PADDED_CHUNK_SIZE as int)
                },
        decreases PADDED_CHUNK_AREA - k,
    {
        let offset = delinearize2(k);
        let x = origin.x as i64 * (CHUNK_SIZE as i64) + offset.x as i64;
        let y = origin.y as i64 * (CHUNK_SIZE as i64) + offset.y as i64;
        r.push((x, y));
        k = k + 1;
    }
    r
}

/// One lookup step of the deduplicating pipeline: the heightmap if it is
/// finished, the shared computation if one is in flight, or the duty to
/// spawn one.
pub enum GenerateHeightmapResult<F> {
    CacheHit(Arc<Heightmap>),
    Loading(Arc<F>),
    NeedsSpawn,
}

/// Decides what a request for the heightmap at `position` should do. The
/// caller spawns a computation only on `NeedsSpawn`, registering its handle
/// with `FutureTaskCache::insert_future`; everyone else shares what is
/// already there.
pub fn generate_heightmap<F>(cache: &FutureTaskCache<F, Heightmap>, position: Vec2i) -> (r:
    GenerateHeightmapResult<F>)
    requires
        cache.wf(),
    ensures
        match r {
            GenerateHeightmapResult::CacheHit(h) => cache.results_map().dom().contains(position)
                && h == cache.results_map()[position],
            GenerateHeightmapResult::Loading(f) => !cache.results_map().dom().contains(position)
                && cache.futures_map().dom().contains(position) && f == cache.futures_map()[
                position],
            GenerateHeightmapResult::NeedsSpawn => !cache.results_map().dom().contains(position)
                && !cache.futures_map().dom().contains(position),
        },
{
    match cache.get(&position) {
        Some(FutureCacheResult::Hit(h)) => GenerateHeightmapResult::CacheHit(h),
        Some(FutureCacheResult::Waiting(f)) => GenerateHeightmapResult::Loading(f),
        None => GenerateHeightmapResult::NeedsSpawn,
    }
}

/// Some entry among the first `n` completions carries the key `k`.
pub open spec fn key_in(all: Seq<(Vec2i, Heightmap)>, n: int, k: Vec2i) -> bool {
    exists|j: int| 0 <= j < n && (#[trigger] all[j]).0 == k
}

/// The cache `b` holds exactly what `a` held at the key `k`, in both the
/// finished and the in-flight store.
pub open spec fn untouched_key<F>(
    a: &FutureTaskCache<F, Heightmap>,
    b: &FutureTaskCache<F, Heightmap>,
    k: Vec2i,
) -> bool {
    &&& b.results_map().dom().contains(k) == a.results_map().dom().contains(k)
    &&& (a.results_map().dom().contains(k) ==> b.results_map()[k] == a.results_map()[k])
    &&& b.futures_map().dom().contains(k) == a.futures_map().dom().contains(k)
    &&& (a.futures_map().dom().contains(k) ==> b.futures_map()[k] == a.futures_map()[k])
}

/// Files completions the maintenance poll observed: each one's value is
/// stored as finished and its in-flight entry is retired, atomically per
/// key; keys the poll did not complete keep their entries untouched.
pub fn process_cache<F>(cache: &mut FutureTaskCache<F, Heightmap>, completed: Vec<(Vec2i, Heightmap)>)
    requires
        old(cache).wf(),
        forall|i: int, j: int|
            0 <= i < j < completed@.len() ==> (#[trigger] completed@[i]).0 != (
            #[trigger] completed@[j]).0,
    ensures
        final(cache).wf(),
        forall|i: int|
            0 <= i < completed@.len() ==> {
                &&& final(cache).results_map().dom().contains((#[trigger] completed@[i]).0)
                &&& final(cache).results_map()[completed@[i].0] == completed@[i].1
                &&& !final(cache).futures_map().dom().contains(completed@[i].0)
            },
        forall|k: Vec2i|
            !key_in(completed@, completed@.len() as int, k) ==> #[trigger] untouched_key(
                old(cache),
                final(cache),
                k,
            ),
{
    let mut remaining = completed;
    let ghost all = remaining@;
    proof {
        vstd::std_specs::vec::axiom_spec_len(&remaining);
    }
    let mut i: usize = 0;
    while remaining.len() > 0
        invariant
            cache.wf(),
            0 <= i,
            i + remaining@.len() == all.len(),
            all.len() <= usize::MAX,
            remaining@ == all.subrange(i as int, all.len() as int),
            forall|a: int, b: int|
                0 <= a < b < all.len() ==> (#[trigger] all[a]).0 != (#[trigger] all[b]).0,
            forall|j: int|
                0 <= j < i ==> {
                    &&& cache.results_map().dom().contains((#[trigger] all[j]).0)
                    &&& cache.results_map()[all[j].0] == all[j].1
                    &&& !cache.futures_map().dom().contains(all[j].0)
                },
            forall|k: Vec2i|
                !key_in(all, i as int, k) ==> #[trigger] untouched_key(old(cache), cache, k),
        decreases remaining@.len(),
    {
        assert(remaining@[0] == all[i as int]);
        let ghost pre = *cache;
        let (position, heightmap) = remaining.remove(0);
        cache.insert_result(position, Arc::new(heightmap));
        proof {
            assert(remaining@ =~= all.subrange(i + 1, all.len() as int));
            assert forall|k: Vec2i| !key_in(all, i + 1, k) implies #[trigger] untouched_key(
                old(cache),
                cache,
                k,
            ) by {
                if all[i as int].0 == k {
                    assert(key_in(all, i + 1, k));
                }
                assert(!key_in(all, i as int, k)) by {
                    if key_in(all, i as int, k) {
                        let j = choose|j: int| 0 <= j < i && (#[trigger] all[j]).0 == k;
                        assert(key_in(all, i + 1, k));
                    }
                }
                assert(untouched_key(old(cache), &pre, k));
                assert(k != all[i as int].0);
            }
        }
        i = i + 1;
    }
}

} // verus!
