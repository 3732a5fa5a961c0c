use voxels::coord::Vec3i;
use voxels::generation::chunk::ChunkGenerationQueue;
use voxels::queue::Queue;
use voxels::world::chunk::LoadChunkQueue;

fn v3(x: i32, y: i32, z: i32) -> Vec3i {
    Vec3i::new(x, y, z)
}

fn dist2(a: Vec3i, b: Vec3i) -> i64 {
    let dx = (a.x - b.x) as i64;
    let dy = (a.y - b.y) as i64;
    let dz = (a.z - b.z) as i64;
    dx * dx + dy * dy + dz * dz
}

#[test]
fn pops_nearest_first() {
    let center = v3(0, 0, 0);
    let mut queue: ChunkGenerationQueue = ChunkGenerationQueue::new(center);
    queue.push(v3(5, 0, 0));
    queue.push(v3(1, 0, 0));
    queue.push(v3(3, 3, 3));
    queue.push(v3(0, 0, 2));
    queue.push(v3(-1, 0, 0));
    assert_eq!(queue.len(), 5);

    let mut last = -1i64;
    while let Some(p) = queue.pop() {
        let d = dist2(p, center);
        assert!(d >= last, "pop order regressed: {} after {}", d, last);
        last = d;
    }
    assert!(queue.is_empty());
}

#[test]
fn pop_breaks_ties_deterministically() {
    let center = v3(0, 0, 0);
    let mut a: ChunkGenerationQueue = ChunkGenerationQueue::new(center);
    a.push(v3(1, 0, 0));
    a.push(v3(0, 1, 0));
    a.push(v3(0, 0, 1));
    let mut b: ChunkGenerationQueue = ChunkGenerationQueue::new(center);
    b.push(v3(0, 0, 1));
    b.push(v3(1, 0, 0));
    b.push(v3(0, 1, 0));
    for _ in 0..3 {
        assert_eq!(a.pop(), b.pop());
    }
}

#[test]
fn push_is_idempotent() {
    let mut queue: ChunkGenerationQueue = ChunkGenerationQueue::new(v3(0, 0, 0));
    queue.push(v3(4, 4, 4));
    queue.push(v3(4, 4, 4));
    queue.push(v3(4, 4, 4));
    assert_eq!(queue.len(), 1);
    assert_eq!(queue.pop(), Some(v3(4, 4, 4)));
    assert_eq!(queue.pop(), None);
}

#[test]
fn remove_takes_a_member_out() {
    let mut queue: ChunkGenerationQueue = ChunkGenerationQueue::new(v3(0, 0, 0));
    queue.push(v3(1, 0, 0));
    queue.push(v3(2, 0, 0));
    queue.remove(&v3(1, 0, 0));
    assert_eq!(queue.len(), 1);
    assert_eq!(queue.pop(), Some(v3(2, 0, 0)));
    queue.remove(&v3(9, 9, 9));
    assert!(queue.is_empty());
}

#[test]
fn recenter_keeps_membership_and_reorders() {
    let mut queue: ChunkGenerationQueue = ChunkGenerationQueue::new(v3(0, 0, 0));
    let mut members = vec![v3(10, 0, 0), v3(1, 0, 0), v3(6, 0, 0), v3(-3, 0, 0)];
    for &p in &members {
        queue.push(p);
    }
    queue.update_center(v3(10, 0, 0));
    assert_eq!(queue.len(), 4);
    assert_eq!(queue.pop(), Some(v3(10, 0, 0)));
    let mut rest = Vec::new();
    while let Some(p) = queue.pop() {
        rest.push(p);
    }
    rest.push(v3(10, 0, 0));
    members.sort_by_key(|p| (p.x, p.y, p.z));
    rest.sort_by_key(|p| (p.x, p.y, p.z));
    assert_eq!(members, rest);
}

#[test]
fn unordered_queue_is_a_dedup_stack() {
    let mut queue: LoadChunkQueue = LoadChunkQueue::new();
    queue.push(v3(1, 1, 1));
    queue.push(v3(2, 2, 2));
    queue.push(v3(1, 1, 1));
    assert_eq!(queue.len(), 2);
    assert_eq!(queue.pop(), Some(v3(2, 2, 2)));
    assert_eq!(queue.pop(), Some(v3(1, 1, 1)));
    assert_eq!(queue.pop(), None);
}

#[test]
fn unordered_queue_drains_in_insertion_order() {
    let mut queue: LoadChunkQueue = LoadChunkQueue::new();
    queue.push(v3(1, 0, 0));
    queue.push(v3(2, 0, 0));
    queue.push(v3(3, 0, 0));
    queue.remove(&v3(2, 0, 0));
    let drained = queue.drain();
    assert_eq!(drained, vec![v3(1, 0, 0), v3(3, 0, 0)]);
    assert!(queue.is_empty());
}
