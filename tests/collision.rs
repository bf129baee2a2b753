use dino_game::collision::{BoundType, BoxCollider, Collider};
use dino_game::ecs::ECS;
use dino_game::movable::Movable;
use dino_game::vec2::Vec2;

#[test]
fn bound_test() {
    let box_col = BoxCollider::new(Vec2::new(10, 10)).with_offset(Vec2::new(-5, 0));
    let col = Collider::new_single(box_col);
    assert_eq!(col.get_bound_offset(BoundType::Left), Vec2::new(-15, 0));
}

#[test]
fn bound_test_2() {
    let box_col_1 = BoxCollider::new(Vec2::new(5, 5));
    let box_col_2 = BoxCollider::new(Vec2::new(10, 10));
    let col = Collider::new_double(box_col_1, box_col_2);
    assert_eq!(col.get_bound_offset(BoundType::Right), Vec2::new(10, 0));
}

#[test]
fn regular_overlap() {
    let col1 = BoxCollider::new(Vec2::new(5, 5));
    let col2 = BoxCollider::new(Vec2::new(5, 5));
    assert_eq!(BoxCollider::check_collision(col1, col2, Vec2::new(0, 0), Vec2::new(9, 9)), true);
}

#[test]
fn no_overlap() {
    let col1 = BoxCollider::new(Vec2::new(5, 5));
    let col2 = BoxCollider::new(Vec2::new(5, 5));
    assert_eq!(BoxCollider::check_collision(col1, col2, Vec2::new(0, 0), Vec2::new(9, 11)), false);
}

#[test]
fn one_box_inside() {
    let col1 = BoxCollider::new(Vec2::new(5, 5));
    let col2 = BoxCollider::new(Vec2::new(15, 15));
    assert_eq!(BoxCollider::check_collision(col1, col2, Vec2::new(0, 0), Vec2::new(0, 0)), true);
}

#[test]
fn box_collision_check_1() {
    let col1 = Collider::new_single(BoxCollider::new(Vec2::new(5, 5)));
    let col2 = Collider::new_single(BoxCollider::new(Vec2::new(5, 5)));
    assert_eq!(Collider::colliders_collide(&col1, &col2, Vec2::new(0, 0), Vec2::new(9, 9)), true);
}

#[test]
fn box_collision_check_2() {
    let col1 = Collider::new_single(BoxCollider::new(Vec2::new(5, 5)));
    let col2 = Collider::new_single(BoxCollider::new(Vec2::new(5, 5)));
    assert_eq!(Collider::colliders_collide(&col1, &col2, Vec2::new(0, 0), Vec2::new(11, 9)), false);
}

#[test]
fn overlap_uses_offsets() {
    let col1 = BoxCollider::new(Vec2::new(5, 5)).with_offset(Vec2::new(20, 0));
    let col2 = BoxCollider::new(Vec2::new(5, 5));
    assert!(BoxCollider::check_collision(col1, col2, Vec2::new(0, 0), Vec2::new(29, 0)));
    assert!(!BoxCollider::check_collision(col1, col2, Vec2::new(0, 0), Vec2::new(0, 0)));
}

#[test]
fn edges_touching_count_as_overlap() {
    let col = BoxCollider::new(Vec2::new(5, 5));
    assert!(BoxCollider::check_collision(col, col, Vec2::new(0, 0), Vec2::new(10, 10)));
    assert!(!BoxCollider::check_collision(col, col, Vec2::new(0, 0), Vec2::new(10, 11)));
}

#[test]
fn contains_point_inclusive() {
    let col = BoxCollider::new(Vec2::new(5, 3));
    assert!(col.contains_point(Vec2::new(10, 10), Vec2::new(15, 13)));
    assert!(!col.contains_point(Vec2::new(10, 10), Vec2::new(16, 13)));
    assert!(!col.contains_point(Vec2::new(10, 10), Vec2::new(15, 6)));
}

#[test]
fn composite_bounds_pick_extremes() {
    let body = BoxCollider::new(Vec2::new(14, 25)).with_offset(Vec2::new(-6, -18));
    let head = BoxCollider::new(Vec2::new(22, 17)).with_offset(Vec2::new(18, 32));
    let col = Collider::new_double(body, head);
    assert_eq!(col.get_bound_offset(BoundType::Left), Vec2::new(-20, -18));
    assert_eq!(col.get_bound_offset(BoundType::Right), Vec2::new(40, 32));
    assert_eq!(col.get_bound_offset(BoundType::Up), Vec2::new(18, 49));
    assert_eq!(col.get_bound_offset(BoundType::Down), Vec2::new(-6, -43));
}

#[test]
fn composite_bounds_tie_keeps_first() {
    let a = BoxCollider::new(Vec2::new(5, 5)).with_offset(Vec2::new(0, 3));
    let b = BoxCollider::new(Vec2::new(5, 5)).with_offset(Vec2::new(0, -3));
    let col = Collider::new_double(a, b);
    assert_eq!(col.get_bound_offset(BoundType::Left), Vec2::new(-5, 3));
}

#[test]
fn empty_collider_bound_is_zero() {
    let col = Collider::new([None, None]);
    assert_eq!(col.get_bound_offset(BoundType::Up), Vec2::new(0, 0));
}

#[test]
fn bound_type_helpers() {
    assert!(BoundType::Left.horizontal());
    assert!(BoundType::Up.vertical());
    assert_eq!(BoundType::Up.opposite(), BoundType::Down);
    assert_eq!(BoundType::Right.opposite(), BoundType::Left);
}

#[test]
fn get_bound_adds_position() {
    let b = BoxCollider::new(Vec2::new(4, 6)).with_offset(Vec2::new(1, 1));
    assert_eq!(b.get_bound(Vec2::new(100, 200), BoundType::Down), Vec2::new(101, 195));
}

#[test]
fn entity_collision_is_symmetric() {
    let mut ecs = ECS::new();
    let a = ecs.new_entity();
    let b = ecs.new_entity();
    let c = ecs.new_entity();
    let shape = Collider::new_single(BoxCollider::new(Vec2::new(5, 5)));
    ecs.add_component(a, shape);
    ecs.add_component(b, shape);
    ecs.add_component(c, shape);
    ecs.add_component(a, Movable::new(Vec2::new(0, 0), Vec2::new(0, 0), Vec2::new(0, 0)));
    ecs.add_component(b, Movable::new(Vec2::new(9, 9), Vec2::new(0, 0), Vec2::new(0, 0)));
    ecs.add_component(c, Movable::new(Vec2::new(11, 9), Vec2::new(0, 0), Vec2::new(0, 0)));
    assert!(Collider::check_entity_collision(&ecs, a, b));
    assert!(Collider::check_entity_collision(&ecs, b, a));
    assert!(!Collider::check_entity_collision(&ecs, a, c));
    assert!(!Collider::check_entity_collision(&ecs, c, a));
}

#[test]
fn entity_without_position_never_collides() {
    let mut ecs = ECS::new();
    let a = ecs.new_entity();
    let b = ecs.new_entity();
    let shape = Collider::new_single(BoxCollider::new(Vec2::new(5, 5)));
    ecs.add_component(a, shape);
    ecs.add_component(b, shape);
    ecs.add_component(a, Movable::new(Vec2::new(0, 0), Vec2::new(0, 0), Vec2::new(0, 0)));
    assert!(!Collider::check_entity_collision(&ecs, a, b));
    assert!(!Collider::check_entity_collision(&ecs, b, a));
}

#[test]
fn single_box_entity_collision() {
    let mut ecs = ECS::new();
    let a = ecs.new_entity();
    let b = ecs.new_entity();
    ecs.add_component(a, BoxCollider::new(Vec2::new(5, 5)));
    ecs.add_component(b, BoxCollider::new(Vec2::new(5, 5)));
    ecs.add_component(a, Movable::new(Vec2::new(0, 0), Vec2::new(0, 0), Vec2::new(0, 0)));
    ecs.add_component(b, Movable::new(Vec2::new(9, 9), Vec2::new(0, 0), Vec2::new(0, 0)));
    assert!(BoxCollider::check_entity_collision(&ecs, a, b));
    assert!(BoxCollider::check_entity_collision(&ecs, b, a));
}
