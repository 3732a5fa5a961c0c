use std::sync::Arc;

use voxels::cache::{FutureCacheResult, FutureTaskCache};
use voxels::coord::Vec2i;
use voxels::generation::heightmap::{generate_heightmap, process_cache, GenerateHeightmapResult};
use voxels::storage::heightmap::Heightmap;

fn key(x: i32, y: i32) -> Vec2i {
    Vec2i::new(x, y)
}

#[test]
fn empty_cache_misses() {
    let cache: FutureTaskCache<u32, Heightmap> = FutureTaskCache::new();
    assert!(cache.get(&key(0, 0)).is_none());
}

#[test]
fn only_the_first_registration_wins() {
    let mut cache: FutureTaskCache<u32, Heightmap> = FutureTaskCache::new();
    assert!(cache.insert_future(key(1, 2), Arc::new(7)));
    assert!(!cache.insert_future(key(1, 2), Arc::new(8)));
    assert!(!cache.insert_future(key(1, 2), Arc::new(9)));
    match cache.get(&key(1, 2)) {
        Some(FutureCacheResult::Waiting(handle)) => assert_eq!(*handle, 7),
        _ => panic!("expected the one registered handle"),
    }
}

#[test]
fn waiters_observe_the_same_handle() {
    let mut cache: FutureTaskCache<u32, Heightmap> = FutureTaskCache::new();
    cache.insert_future(key(4, 4), Arc::new(42));
    let first = match cache.get(&key(4, 4)) {
        Some(FutureCacheResult::Waiting(h)) => h,
        _ => panic!("expected a handle"),
    };
    let second = match cache.get(&key(4, 4)) {
        Some(FutureCacheResult::Waiting(h)) => h,
        _ => panic!("expected a handle"),
    };
    assert_eq!(*first, *second);
}

#[test]
fn a_result_supersedes_the_handle() {
    let mut cache: FutureTaskCache<u32, Heightmap> = FutureTaskCache::new();
    cache.insert_future(key(0, 3), Arc::new(5));
    let mut samples = vec![0i32; 4356];
    samples[0] = 17;
    cache.insert_result(key(0, 3), Arc::new(Heightmap::from_samples(samples)));
    match cache.get(&key(0, 3)) {
        Some(FutureCacheResult::Hit(h)) => {
            assert_eq!(h.get(voxels::coord::Vec2u::new(0, 0)), 17);
        },
        _ => panic!("expected the finished result"),
    }
    assert!(cache.future_keys().is_empty());
    assert!(!cache.insert_future(key(0, 3), Arc::new(6)));
}

#[test]
fn removal_reopens_a_key() {
    let mut cache: FutureTaskCache<u32, Heightmap> = FutureTaskCache::new();
    cache.insert_future(key(2, 2), Arc::new(1));
    cache.remove_future(&key(2, 2));
    assert!(cache.get(&key(2, 2)).is_none());
    assert!(cache.insert_future(key(2, 2), Arc::new(2)));
    cache.insert_result(key(2, 2), Arc::new(Heightmap::new()));
    cache.remove_result(&key(2, 2));
    assert!(cache.get(&key(2, 2)).is_none());
}

#[test]
fn request_decides_hit_loading_or_spawn() {
    let mut cache: FutureTaskCache<u32, Heightmap> = FutureTaskCache::new();
    let origin = key(5, -3);
    assert!(matches!(
        generate_heightmap(&cache, origin),
        GenerateHeightmapResult::NeedsSpawn
    ));
    cache.insert_future(origin, Arc::new(11));
    assert!(matches!(
        generate_heightmap(&cache, origin),
        GenerateHeightmapResult::Loading(_)
    ));
    cache.insert_result(origin, Arc::new(Heightmap::new()));
    assert!(matches!(
        generate_heightmap(&cache, origin),
        GenerateHeightmapResult::CacheHit(_)
    ));
}

#[test]
fn maintenance_files_completions() {
    let mut cache: FutureTaskCache<u32, Heightmap> = FutureTaskCache::new();
    cache.insert_future(key(1, 0), Arc::new(1));
    cache.insert_future(key(2, 0), Arc::new(2));
    let mut samples = vec![0i32; 4356];
    samples[10] = 3;
    let finished = vec![(key(1, 0), Heightmap::from_samples(samples))];
    process_cache(&mut cache, finished);
    match cache.get(&key(1, 0)) {
        Some(FutureCacheResult::Hit(h)) => {
            assert_eq!(h.get(voxels::coord::Vec2u::new(10, 0)), 3);
        },
        _ => panic!("completed key should be finished"),
    }
    match cache.get(&key(2, 0)) {
        Some(FutureCacheResult::Waiting(h)) => assert_eq!(*h, 2),
        _ => panic!("untouched key should still be in flight"),
    }
}
