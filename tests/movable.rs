use dino_game::collision::{BoxCollider, Collider};
use dino_game::ecs::ECS;
use dino_game::movable::{EndlessScroll, Movable};
use dino_game::types_and_constants::{GROUND_Y_COORD, SCREEN_HALF_WIDTH};
use dino_game::vec2::Vec2;

#[test]
fn jump_refused_in_the_air() {
    let mut m = Movable::new(Vec2::new(0, 0), Vec2::new(3, -7), Vec2::new(0, -10));
    assert!(!m.jump(500));
    assert_eq!(m.velocity, Vec2::new(3, -7));
    assert!(!m.on_ground);
}

#[test]
fn jump_from_the_ground() {
    let mut m = Movable::new(Vec2::new(0, 0), Vec2::new(3, 0), Vec2::new(0, -10));
    m.on_ground = true;
    assert!(m.jump(500));
    assert_eq!(m.velocity, Vec2::new(3, 500));
    assert!(!m.on_ground);
    assert!(!m.jump(500));
}

#[test]
fn integration_step_exact() {
    let mut ecs = ECS::new();
    let e = ecs.new_entity();
    ecs.add_component(e, Movable::new(Vec2::new(10, 1000), Vec2::new(2, -10), Vec2::new(0, -2)));
    Movable::update_pos(&mut ecs, e, 3);
    let m = ecs.get_component::<Movable>(e).unwrap();
    assert_eq!(m.velocity, Vec2::new(2, -16));
    assert_eq!(m.pos, Vec2::new(16, 952));
}

#[test]
fn update_without_movable_does_nothing() {
    let mut ecs = ECS::new();
    let e = ecs.new_entity();
    Movable::update_pos(&mut ecs, e, 16);
    assert_eq!(ecs.get_component::<Movable>(e), None);
}

#[test]
fn ground_clamp_converges() {
    let mut ecs = ECS::new();
    let e = ecs.new_entity();
    let mut m = Movable::new(Vec2::new(0, GROUND_Y_COORD + 1_000_000), Vec2::new(0, -100), Vec2::new(0, -3_800));
    m.ground_check_on();
    ecs.add_component(e, m);
    let body = BoxCollider::new(Vec2::new(14_000, 25_000)).with_offset(Vec2::new(-6_000, -18_000));
    ecs.add_component(e, Collider::new_single(body));
    let rest = GROUND_Y_COORD + 43_000;
    let mut landed_at = None;
    for step in 0..200 {
        Movable::update_pos(&mut ecs, e, 16);
        let m = ecs.get_component::<Movable>(e).unwrap();
        if m.on_ground && landed_at.is_none() {
            landed_at = Some(step);
        }
        if landed_at.is_some() {
            assert_eq!(m.pos.y, rest);
            assert_eq!(m.velocity.y, 0);
            assert!(m.on_ground);
        }
    }
    assert!(landed_at.is_some());
}

#[test]
fn no_ground_check_falls_through() {
    let mut ecs = ECS::new();
    let e = ecs.new_entity();
    ecs.add_component(e, Movable::new(Vec2::new(0, GROUND_Y_COORD), Vec2::new(0, -100), Vec2::new(0, 0)));
    ecs.add_component(e, Collider::new_single(BoxCollider::new(Vec2::new(5, 5))));
    Movable::update_pos(&mut ecs, e, 10);
    let m = ecs.get_component::<Movable>(e).unwrap();
    assert_eq!(m.pos.y, GROUND_Y_COORD - 1_000);
    assert!(!m.on_ground);
}

#[test]
fn endless_scroll_wraps_once_off_screen() {
    let mut ecs = ECS::new();
    let e = ecs.new_entity();
    let width = 2_400_000_000;
    ecs.add_component(e, EndlessScroll::new(width));
    ecs.add_component(e, Movable::new(Vec2::new(-SCREEN_HALF_WIDTH - width / 2, 7), Vec2::new(-1, 0), Vec2::new(0, 0)));
    EndlessScroll::update(&mut ecs, e);
    assert_eq!(ecs.get_component::<Movable>(e).unwrap().pos.x, -SCREEN_HALF_WIDTH - width / 2);
    ecs.set_component(e, Movable::new(Vec2::new(-SCREEN_HALF_WIDTH - width / 2 - 1, 7), Vec2::new(-1, 0), Vec2::new(0, 0)));
    EndlessScroll::update(&mut ecs, e);
    let m = ecs.get_component::<Movable>(e).unwrap();
    assert_eq!(m.pos.x, -SCREEN_HALF_WIDTH - width / 2 - 1 + width + 2 * SCREEN_HALF_WIDTH);
    assert_eq!(m.pos.y, 7);
}

#[test]
fn coordinates_saturate() {
    let mut ecs = ECS::new();
    let e = ecs.new_entity();
    ecs.add_component(e, Movable::new(Vec2::new(i64::MAX - 5, 0), Vec2::new(10, 0), Vec2::new(0, 0)));
    Movable::update_pos(&mut ecs, e, 1);
    assert_eq!(ecs.get_component::<Movable>(e).unwrap().pos.x, i64::MAX);
}
