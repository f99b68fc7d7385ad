use std::cell::RefCell;
use voxel_server::chunks::{Chunk, Chunks};
use voxel_server::coords::{Coords2, WorldMetrics};
use voxel_server::models::ChunkProtocol;

const METRICS: WorldMetrics = WorldMetrics { chunk_size: 16, dimension: 1, max_height: 256 };

fn voxels_for(x: i32, z: i32) -> Vec<u32> {
    vec![x as u32, z as u32, 7]
}

fn store() -> Chunks {
    Chunks::new(METRICS).unwrap()
}

#[test]
fn protocol_without_voxels_never_holds_them() {
    let chunk = Chunk { coords: Coords2(3, -4), voxels: vec![1, 2, 3] };
    assert_eq!(chunk.get_protocol(false), ChunkProtocol { x: 3, z: -4, voxels: None });
    let empty = Chunk { coords: Coords2(0, 0), voxels: Vec::new() };
    assert_eq!(empty.get_protocol(false), ChunkProtocol { x: 0, z: 0, voxels: None });
}

#[test]
fn protocol_with_voxels_always_holds_them() {
    let chunk = Chunk { coords: Coords2(3, -4), voxels: vec![1, 2, 3] };
    assert_eq!(chunk.get_protocol(true), ChunkProtocol { x: 3, z: -4, voxels: Some(vec![1, 2, 3]) });
    let empty = Chunk { coords: Coords2(0, 0), voxels: Vec::new() };
    assert_eq!(empty.get_protocol(true), ChunkProtocol { x: 0, z: 0, voxels: Some(Vec::new()) });
}

#[test]
fn store_needs_usable_metrics() {
    assert!(Chunks::new(METRICS).is_some());
    assert!(Chunks::new(WorldMetrics { chunk_size: 0, dimension: 1, max_height: 1 }).is_none());
    assert!(Chunks::new(WorldMetrics { chunk_size: 1, dimension: 0, max_height: 1 }).is_none());
    assert_eq!(store().metrics(), METRICS);
}

#[test]
fn new_store_holds_no_chunk() {
    let chunks = store();
    assert_eq!(chunks.len(), 0);
    assert!(chunks.get(&Coords2(0, 0)).is_none());
}

#[test]
fn generate_fills_the_square_around_the_center() {
    let mut chunks = store();
    chunks.generate(Coords2(10, -10), 2, &voxels_for);
    assert_eq!(chunks.len(), 25);
    for x in 8..=12 {
        for z in -12..=-8 {
            let chunk = chunks.get(&Coords2(x, z)).unwrap();
            assert_eq!(chunk.coords, Coords2(x, z));
            assert_eq!(chunk.voxels, voxels_for(x, z));
        }
    }
    for outside in [Coords2(7, -10), Coords2(13, -10), Coords2(10, -13), Coords2(10, -7), Coords2(0, 0)] {
        assert!(chunks.get(&outside).is_none());
    }
}

#[test]
fn generate_with_radius_zero_makes_one_chunk() {
    let mut chunks = store();
    chunks.generate(Coords2(5, 6), 0, &voxels_for);
    assert_eq!(chunks.len(), 1);
    assert_eq!(chunks.get(&Coords2(5, 6)).unwrap().voxels, voxels_for(5, 6));
}

#[test]
fn generate_with_negative_radius_makes_nothing() {
    let mut chunks = store();
    chunks.generate(Coords2(5, 6), -1, &voxels_for);
    chunks.generate(Coords2(5, 6), i16::MIN, &voxels_for);
    assert_eq!(chunks.len(), 0);
}

#[test]
fn generate_keeps_the_chunks_that_exist() {
    let mut chunks = store();
    chunks.generate(Coords2(0, 0), 1, &|_: i32, _: i32| vec![1]);
    chunks.generate(Coords2(1, 0), 1, &|_: i32, _: i32| vec![2]);
    assert_eq!(chunks.len(), 12);
    for x in -1..=1 {
        for z in -1..=1 {
            assert_eq!(chunks.get(&Coords2(x, z)).unwrap().voxels, vec![1]);
        }
    }
    for z in -1..=1 {
        assert_eq!(chunks.get(&Coords2(2, z)).unwrap().voxels, vec![2]);
    }
}

#[test]
fn generate_asks_the_generator_once_for_each_new_chunk() {
    let mut chunks = store();
    let asked = RefCell::new(Vec::new());
    let generator = |x: i32, z: i32| {
        asked.borrow_mut().push((x, z));
        Vec::new()
    };
    chunks.generate(Coords2(0, 0), 1, &generator);
    assert_eq!(asked.borrow().len(), 9);
    chunks.generate(Coords2(0, 0), 1, &generator);
    assert_eq!(asked.borrow().len(), 9);
    chunks.generate(Coords2(0, 1), 1, &generator);
    assert_eq!(asked.borrow().len(), 12);
    let mut sorted = asked.borrow().clone();
    sorted.sort();
    sorted.dedup();
    assert_eq!(sorted.len(), 12);
}

#[test]
fn generate_stops_at_the_edge_of_the_coordinates() {
    let mut chunks = store();
    chunks.generate(Coords2(i32::MAX, i32::MIN), 1, &voxels_for);
    assert_eq!(chunks.len(), 4);
    assert!(chunks.get(&Coords2(i32::MAX, i32::MIN)).is_some());
    assert!(chunks.get(&Coords2(i32::MAX - 1, i32::MIN)).is_some());
    assert!(chunks.get(&Coords2(i32::MAX, i32::MIN + 1)).is_some());
    assert!(chunks.get(&Coords2(i32::MAX - 1, i32::MIN + 1)).is_some());
}
