use std::cell::Cell;
use voxel_server::coords::Coords3;
use voxel_server::observe::{LookAt, LookTarget, ObserveSystem, Observer, ViewRadius};
use voxel_server::spatial::{EntityKind, QueryMode, SpatialIndex};

fn observer(entity: u32, head: Coords3, radius: u16, look_at: LookTarget) -> Observer {
    Observer { entity, head, radius: ViewRadius(radius), look_at: LookAt(look_at) }
}

/// A line of sight along the x axis is blocked by a solid voxel at `wall`
/// that lies strictly between the two points.
fn wall_at(wall: i32) -> impl Fn(Coords3, Coords3) -> bool {
    move |from: Coords3, to: Coords3| {
        let (low, high) = if from.0 < to.0 { (from.0, to.0) } else { (to.0, from.0) };
        low < wall && wall < high
    }
}

fn never(_: Coords3, _: Coords3) -> bool {
    false
}

fn always(_: Coords3, _: Coords3) -> bool {
    true
}

#[test]
fn alone_in_the_world_there_is_no_target() {
    let mut index = SpatialIndex::new();
    index.insert(1, EntityKind::Entity, Coords3(0, 0, 0));
    for look_at in [LookTarget::All(None), LookTarget::Entity(None), LookTarget::Player(None)] {
        let me = observer(1, Coords3(0, 0, 0), 10, look_at);
        assert_eq!(ObserveSystem::resolve(&index, 16, &me, &never), None);
    }
}

#[test]
fn empty_index_gives_no_target() {
    let index = SpatialIndex::new();
    let me = observer(1, Coords3(0, 0, 0), 10, LookTarget::All(None));
    assert_eq!(ObserveSystem::resolve(&index, 16, &me, &never), None);
}

#[test]
fn one_body_in_plain_sight_is_the_target() {
    let mut index = SpatialIndex::new();
    index.insert(1, EntityKind::Entity, Coords3(0, 0, 0));
    index.insert(2, EntityKind::Player, Coords3(7, 0, 0));
    let me = observer(1, Coords3(0, 0, 0), 1, LookTarget::Player(None));
    assert_eq!(ObserveSystem::resolve(&index, 16, &me, &never), Some(Coords3(7, 0, 0)));
}

#[test]
fn a_body_of_the_wrong_kind_is_no_target() {
    let mut index = SpatialIndex::new();
    index.insert(1, EntityKind::Entity, Coords3(0, 0, 0));
    index.insert(2, EntityKind::Player, Coords3(7, 0, 0));
    let me = observer(1, Coords3(0, 0, 0), 1, LookTarget::Entity(None));
    assert_eq!(ObserveSystem::resolve(&index, 16, &me, &never), None);
}

#[test]
fn reach_is_radius_times_dimension() {
    let mut index = SpatialIndex::new();
    index.insert(2, EntityKind::Player, Coords3(32, 0, 0));
    let near = observer(1, Coords3(0, 0, 0), 2, LookTarget::All(None));
    assert_eq!(ObserveSystem::resolve(&index, 16, &near, &never), Some(Coords3(32, 0, 0)));
    let short = observer(1, Coords3(-1, 0, 0), 2, LookTarget::All(None));
    assert_eq!(ObserveSystem::resolve(&index, 16, &short, &never), None);
    let blind = observer(1, Coords3(32, 0, 1), 0, LookTarget::All(None));
    assert_eq!(ObserveSystem::resolve(&index, 16, &blind, &never), None);
}

#[test]
fn reach_is_measured_in_space_not_per_axis() {
    let mut index = SpatialIndex::new();
    index.insert(2, EntityKind::Player, Coords3(3, 4, 0));
    let exact = observer(1, Coords3(0, 0, 0), 5, LookTarget::All(None));
    assert_eq!(ObserveSystem::resolve(&index, 1, &exact, &never), Some(Coords3(3, 4, 0)));
    let short = observer(1, Coords3(0, 0, 0), 4, LookTarget::All(None));
    assert_eq!(ObserveSystem::resolve(&index, 1, &short, &never), None);
}

#[test]
fn wall_between_two_bodies_and_no_third_gives_no_target() {
    let mut index = SpatialIndex::new();
    index.insert(1, EntityKind::Entity, Coords3(0, 0, 0));
    index.insert(2, EntityKind::Entity, Coords3(10, 0, 0));
    let wall = wall_at(5);
    let left = observer(1, Coords3(0, 0, 0), 4, LookTarget::Entity(None));
    let right = observer(2, Coords3(10, 0, 0), 4, LookTarget::Entity(None));
    assert_eq!(ObserveSystem::resolve(&index, 16, &left, &wall), None);
    assert_eq!(ObserveSystem::resolve(&index, 16, &right, &wall), None);
}

#[test]
fn wall_before_the_nearest_makes_the_third_the_target() {
    let mut index = SpatialIndex::new();
    index.insert(1, EntityKind::Entity, Coords3(0, 0, 0));
    index.insert(2, EntityKind::Entity, Coords3(10, 0, 0));
    index.insert(3, EntityKind::Entity, Coords3(-20, 0, 0));
    let wall = wall_at(5);
    let me = observer(1, Coords3(0, 0, 0), 4, LookTarget::Entity(None));
    assert_eq!(ObserveSystem::resolve(&index, 16, &me, &wall), Some(Coords3(-20, 0, 0)));
}

#[test]
fn a_third_body_out_of_reach_is_no_target() {
    let mut index = SpatialIndex::new();
    index.insert(1, EntityKind::Entity, Coords3(0, 0, 0));
    index.insert(2, EntityKind::Entity, Coords3(10, 0, 0));
    index.insert(3, EntityKind::Entity, Coords3(-65, 0, 0));
    let wall = wall_at(5);
    let me = observer(1, Coords3(0, 0, 0), 4, LookTarget::Entity(None));
    assert_eq!(ObserveSystem::resolve(&index, 16, &me, &wall), None);
}

#[test]
fn several_blocked_bodies_are_passed_over_in_turn() {
    let mut index = SpatialIndex::new();
    index.insert(2, EntityKind::Player, Coords3(10, 0, 0));
    index.insert(3, EntityKind::Player, Coords3(11, 0, 0));
    index.insert(4, EntityKind::Player, Coords3(12, 0, 0));
    index.insert(5, EntityKind::Player, Coords3(-30, 0, 0));
    index.insert(6, EntityKind::Player, Coords3(-31, 0, 0));
    let wall = wall_at(5);
    let me = observer(1, Coords3(0, 0, 0), 100, LookTarget::Player(None));
    assert_eq!(ObserveSystem::resolve(&index, 1, &me, &wall), Some(Coords3(-30, 0, 0)));
    assert_eq!(ObserveSystem::resolve(&index, 1, &me, &always), None);
}

#[test]
fn a_body_at_the_own_position_is_taken_without_a_test() {
    let mut index = SpatialIndex::new();
    index.insert(1, EntityKind::Entity, Coords3(4, 4, 4));
    index.insert(2, EntityKind::Entity, Coords3(4, 4, 4));
    let asked = Cell::new(0u32);
    let counting = |_: Coords3, _: Coords3| {
        asked.set(asked.get() + 1);
        true
    };
    let me = observer(1, Coords3(4, 4, 4), 0, LookTarget::Entity(None));
    assert_eq!(ObserveSystem::resolve(&index, 16, &me, &counting), Some(Coords3(4, 4, 4)));
    assert_eq!(asked.get(), 0);
}

#[test]
fn the_test_is_asked_nearest_first_and_no_more_than_needed() {
    let mut index = SpatialIndex::new();
    index.insert(2, EntityKind::Entity, Coords3(30, 0, 0));
    index.insert(3, EntityKind::Entity, Coords3(10, 0, 0));
    index.insert(4, EntityKind::Entity, Coords3(20, 0, 0));
    index.insert(5, EntityKind::Entity, Coords3(40, 0, 0));
    let asked = std::cell::RefCell::new(Vec::new());
    let blocked = |from: Coords3, to: Coords3| {
        assert_eq!(from, Coords3(0, 0, 0));
        asked.borrow_mut().push(to.0);
        to.0 < 30
    };
    let me = observer(1, Coords3(0, 0, 0), 100, LookTarget::All(None));
    assert_eq!(ObserveSystem::resolve(&index, 1, &me, &blocked), Some(Coords3(30, 0, 0)));
    assert_eq!(*asked.borrow(), vec![10, 20, 30]);
}

#[test]
fn the_test_is_not_asked_about_bodies_out_of_reach() {
    let mut index = SpatialIndex::new();
    index.insert(2, EntityKind::Entity, Coords3(50, 0, 0));
    let asked = Cell::new(0u32);
    let counting = |_: Coords3, _: Coords3| {
        asked.set(asked.get() + 1);
        false
    };
    let me = observer(1, Coords3(0, 0, 0), 3, LookTarget::All(None));
    assert_eq!(ObserveSystem::resolve(&index, 16, &me, &counting), None);
    assert_eq!(asked.get(), 0);
}

#[test]
fn look_target_insert_keeps_the_kind() {
    let spot = Some(Coords3(1, 2, 3));
    assert_eq!(LookTarget::insert(&LookTarget::All(None), spot), LookTarget::All(spot));
    assert_eq!(LookTarget::insert(&LookTarget::Entity(spot), None), LookTarget::Entity(None));
    assert_eq!(LookTarget::insert(&LookTarget::Player(None), spot), LookTarget::Player(spot));
}

#[test]
fn look_target_mode_and_position() {
    let spot = Some(Coords3(1, 2, 3));
    assert_eq!(LookTarget::All(spot).mode(), QueryMode::All);
    assert_eq!(LookTarget::Entity(spot).mode(), QueryMode::Entity);
    assert_eq!(LookTarget::Player(None).mode(), QueryMode::Player);
    assert_eq!(LookTarget::Entity(spot).position(), spot);
    assert_eq!(LookTarget::Player(None).position(), None);
}

#[test]
fn run_resolves_every_observer_and_changes_nothing_else() {
    let mut index = SpatialIndex::new();
    index.insert(1, EntityKind::Entity, Coords3(0, 0, 0));
    index.insert(2, EntityKind::Player, Coords3(10, 0, 0));
    index.insert(3, EntityKind::Entity, Coords3(-20, 0, 0));
    let stale = Some(Coords3(99, 99, 99));
    let mut observers = vec![
        observer(1, Coords3(0, 0, 0), 4, LookTarget::All(stale)),
        observer(2, Coords3(10, 0, 0), 4, LookTarget::Entity(None)),
        observer(3, Coords3(-20, 0, 0), 1, LookTarget::Player(stale)),
        observer(3, Coords3(-20, 0, 0), 2, LookTarget::Entity(stale)),
    ];
    let wall = wall_at(5);
    let mut system = ObserveSystem;
    system.run(&index, 16, &mut observers, &wall);
    assert_eq!(
        observers,
        vec![
            observer(1, Coords3(0, 0, 0), 4, LookTarget::All(Some(Coords3(-20, 0, 0)))),
            observer(2, Coords3(10, 0, 0), 4, LookTarget::Entity(None)),
            observer(3, Coords3(-20, 0, 0), 1, LookTarget::Player(None)),
            observer(3, Coords3(-20, 0, 0), 2, LookTarget::Entity(Some(Coords3(0, 0, 0)))),
        ]
    );
}

#[test]
fn run_on_no_observers_does_nothing() {
    let index = SpatialIndex::new();
    let mut observers: Vec<Observer> = Vec::new();
    let mut system = ObserveSystem;
    system.run(&index, 16, &mut observers, &never);
    assert!(observers.is_empty());
}
