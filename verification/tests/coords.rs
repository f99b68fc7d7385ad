use voxel_server::coords::{
    floor_div, map_voxel_to_chunk, map_world_to_voxel, Coords2, Coords3, WorldMetrics,
};

#[test]
fn floor_div_rounds_down_for_positive_values() {
    assert_eq!(floor_div(0, 16), 0);
    assert_eq!(floor_div(15, 16), 0);
    assert_eq!(floor_div(16, 16), 1);
    assert_eq!(floor_div(20, 16), 1);
    assert_eq!(floor_div(31, 16), 1);
    assert_eq!(floor_div(32, 16), 2);
}

#[test]
fn floor_div_rounds_down_for_negative_values() {
    assert_eq!(floor_div(-1, 16), -1);
    assert_eq!(floor_div(-16, 16), -1);
    assert_eq!(floor_div(-17, 16), -2);
    assert_eq!(floor_div(-32, 16), -2);
    assert_eq!(floor_div(-33, 16), -3);
}

#[test]
fn floor_div_at_the_limits() {
    assert_eq!(floor_div(i32::MAX, 1), i32::MAX);
    assert_eq!(floor_div(i32::MIN, 1), i32::MIN);
    assert_eq!(floor_div(i32::MIN, 2), -1073741824);
    assert_eq!(floor_div(i32::MAX, u32::MAX), 0);
    assert_eq!(floor_div(i32::MIN, u32::MAX), -1);
    assert_eq!(floor_div(-1, u32::MAX), -1);
}

#[test]
fn world_position_maps_to_voxel_by_dimension() {
    assert_eq!(map_world_to_voxel(&Coords3(0, 0, 0), 1), Coords3(0, 0, 0));
    assert_eq!(map_world_to_voxel(&Coords3(20, 7, -3), 1), Coords3(20, 7, -3));
    assert_eq!(map_world_to_voxel(&Coords3(20, 7, -3), 4), Coords3(5, 1, -1));
    assert_eq!(map_world_to_voxel(&Coords3(-1, -4, -5), 4), Coords3(-1, -1, -2));
}

#[test]
fn voxel_maps_to_chunk_and_drops_height() {
    assert_eq!(map_voxel_to_chunk(&Coords3(0, 0, 0), 16), Coords2(0, 0));
    assert_eq!(map_voxel_to_chunk(&Coords3(20, 0, 0), 16), Coords2(1, 0));
    assert_eq!(map_voxel_to_chunk(&Coords3(15, 200, 16), 16), Coords2(0, 1));
    assert_eq!(map_voxel_to_chunk(&Coords3(-1, 99, -16), 16), Coords2(-1, -1));
    assert_eq!(map_voxel_to_chunk(&Coords3(-17, -5, 47), 16), Coords2(-2, 2));
}

#[test]
fn two_stage_mapping_from_world_to_chunk() {
    let voxel = map_world_to_voxel(&Coords3(130, 9, -70), 2);
    assert_eq!(voxel, Coords3(65, 4, -35));
    assert_eq!(map_voxel_to_chunk(&voxel, 16), Coords2(4, -3));
}

#[test]
fn metrics_with_a_zero_divisor_are_not_valid() {
    assert!(WorldMetrics { chunk_size: 16, dimension: 1, max_height: 256 }.is_valid());
    assert!(!WorldMetrics { chunk_size: 0, dimension: 1, max_height: 256 }.is_valid());
    assert!(!WorldMetrics { chunk_size: 16, dimension: 0, max_height: 256 }.is_valid());
    assert!(WorldMetrics { chunk_size: 1, dimension: 1, max_height: 0 }.is_valid());
}
