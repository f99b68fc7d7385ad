use voxel_server::coords::Coords3;
use voxel_server::spatial::{measure, Entry, EntityKind, Neighbor, QueryMode, SpatialIndex};

fn sample() -> SpatialIndex {
    let mut index = SpatialIndex::new();
    index.insert(1, EntityKind::Entity, Coords3(5, 0, 0));
    index.insert(2, EntityKind::Player, Coords3(2, 0, 0));
    index.insert(3, EntityKind::Entity, Coords3(1, 0, 0));
    index.insert(4, EntityKind::Player, Coords3(0, 9, 0));
    index.insert(5, EntityKind::Entity, Coords3(0, 0, -3));
    index
}

fn ids(found: &[Neighbor]) -> Vec<u32> {
    found.iter().map(|neighbor| neighbor.entity).collect()
}

#[test]
fn measure_is_the_squared_distance() {
    assert_eq!(measure(&Coords3(0, 0, 0), &Coords3(0, 0, 0)), 0);
    assert_eq!(measure(&Coords3(0, 0, 0), &Coords3(3, 4, 0)), 25);
    assert_eq!(measure(&Coords3(1, 2, 3), &Coords3(-1, -2, -3)), 4 + 16 + 36);
    assert_eq!(measure(&Coords3(3, 4, 12), &Coords3(0, 0, 0)), 169);
}

#[test]
fn measure_does_not_overflow_at_the_limits() {
    let low = Coords3(i32::MIN, i32::MIN, i32::MIN);
    let high = Coords3(i32::MAX, i32::MAX, i32::MAX);
    let axis: u128 = 4294967295u128 * 4294967295u128;
    assert_eq!(measure(&low, &high), 3 * axis);
    assert_eq!(measure(&high, &low), 3 * axis);
}

#[test]
fn query_ranks_all_bodies_by_distance() {
    let found = sample().query(&Coords3(0, 0, 0), 5, QueryMode::All, None);
    assert_eq!(ids(&found), vec![3, 2, 5, 1, 4]);
    let distances: Vec<u128> = found.iter().map(|neighbor| neighbor.distance).collect();
    assert_eq!(distances, vec![1, 4, 9, 25, 81]);
    assert_eq!(found[0].position, Coords3(1, 0, 0));
    assert_eq!(found[4].position, Coords3(0, 9, 0));
}

#[test]
fn query_hands_out_the_nearest_k() {
    let index = sample();
    assert_eq!(ids(&index.query(&Coords3(0, 0, 0), 1, QueryMode::All, None)), vec![3]);
    assert_eq!(ids(&index.query(&Coords3(0, 0, 0), 2, QueryMode::All, None)), vec![3, 2]);
    assert_eq!(ids(&index.query(&Coords3(0, 0, 0), 3, QueryMode::All, None)), vec![3, 2, 5]);
}

#[test]
fn query_for_no_body_finds_none() {
    assert_eq!(sample().query(&Coords3(0, 0, 0), 0, QueryMode::All, None).len(), 0);
}

#[test]
fn query_filters_by_mode() {
    let index = sample();
    assert_eq!(ids(&index.query(&Coords3(0, 0, 0), 5, QueryMode::Entity, None)), vec![3, 5, 1]);
    assert_eq!(ids(&index.query(&Coords3(0, 0, 0), 5, QueryMode::Player, None)), vec![2, 4]);
}

#[test]
fn query_signals_too_few_bodies_by_a_short_result() {
    let index = sample();
    assert_eq!(index.query(&Coords3(0, 0, 0), 3, QueryMode::Player, None).len(), 2);
    assert_eq!(index.query(&Coords3(0, 0, 0), 9, QueryMode::All, None).len(), 5);
    assert_eq!(SpatialIndex::new().query(&Coords3(0, 0, 0), 1, QueryMode::All, None).len(), 0);
}

#[test]
fn query_leaves_out_the_excluded_body() {
    let index = sample();
    assert_eq!(ids(&index.query(&Coords3(1, 0, 0), 2, QueryMode::All, Some(3))), vec![2, 5]);
    assert_eq!(ids(&index.query(&Coords3(1, 0, 0), 2, QueryMode::All, None)), vec![3, 2]);
    assert_eq!(ids(&index.query(&Coords3(0, 0, 0), 5, QueryMode::Player, Some(2))), vec![4]);
    assert_eq!(ids(&index.query(&Coords3(0, 0, 0), 5, QueryMode::Player, Some(1))), vec![2, 4]);
}

#[test]
fn query_keeps_insertion_order_among_equal_distances() {
    let mut index = SpatialIndex::new();
    index.insert(10, EntityKind::Entity, Coords3(0, 0, 2));
    index.insert(11, EntityKind::Entity, Coords3(2, 0, 0));
    index.insert(12, EntityKind::Entity, Coords3(1, 0, 0));
    index.insert(13, EntityKind::Entity, Coords3(0, -2, 0));
    let found = index.query(&Coords3(0, 0, 0), 4, QueryMode::All, None);
    assert_eq!(ids(&found), vec![12, 10, 11, 13]);
    let nearest = index.query(&Coords3(0, 0, 0), 2, QueryMode::All, None);
    assert_eq!(ids(&nearest), vec![12, 10]);
}

#[test]
fn query_with_smaller_k_is_a_prefix_of_query_with_larger_k() {
    let index = sample();
    let all = index.query(&Coords3(2, 1, -1), 5, QueryMode::All, None);
    for k in 0..=5 {
        let found = index.query(&Coords3(2, 1, -1), k, QueryMode::All, None);
        assert_eq!(found, all[..k].to_vec());
    }
}

#[test]
fn considers_follows_mode_and_exclusion() {
    let player = Entry { entity: 7, kind: EntityKind::Player, position: Coords3(0, 0, 0) };
    let entity = Entry { entity: 8, kind: EntityKind::Entity, position: Coords3(0, 0, 0) };
    assert!(SpatialIndex::considers(&player, QueryMode::All, None));
    assert!(SpatialIndex::considers(&player, QueryMode::Player, None));
    assert!(!SpatialIndex::considers(&player, QueryMode::Entity, None));
    assert!(SpatialIndex::considers(&entity, QueryMode::Entity, Some(7)));
    assert!(!SpatialIndex::considers(&entity, QueryMode::Entity, Some(8)));
    assert!(!SpatialIndex::considers(&entity, QueryMode::Player, None));
}

#[test]
fn clear_forgets_every_body() {
    let mut index = sample();
    assert_eq!(index.len(), 5);
    index.clear();
    assert_eq!(index.len(), 0);
    assert_eq!(index.query(&Coords3(0, 0, 0), 3, QueryMode::All, None).len(), 0);
    index.insert(9, EntityKind::Player, Coords3(1, 1, 1));
    assert_eq!(ids(&index.query(&Coords3(0, 0, 0), 3, QueryMode::All, None)), vec![9]);
}
