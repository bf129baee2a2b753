use dino_game::collision::{BoundType, BoxCollider, Collider};
use dino_game::ecs::ECS;
use dino_game::movable::Movable;
use dino_game::obstacles::{ObstacleManager, ObstaclePool};
use dino_game::types_and_constants::{
    CACTUS_MIN_DELAY, MAX_SCROLL_SPEED, PTERO_SPEED, RNG_DEFAULT_SEED, SCREEN_HALF_WIDTH, SPAWN_JITTER,
    START_SCROLL_SPEED,
};
use dino_game::vec2::Vec2;
use oorandom::Rand32;

fn cactus_collider() -> Collider {
    Collider::new_double(
        BoxCollider::new(Vec2::new(20_000_000, 30_000_000)).with_offset(Vec2::new(0, -5_000_000)),
        BoxCollider::new(Vec2::new(12_000_000, 40_000_000)),
    )
}

/// A store with `n` obstacles waiting off screen and one background tile.
fn world(n: usize) -> (ECS, ObstacleManager, Vec<usize>, usize) {
    let mut ecs = ECS::new();
    let ground = ecs.new_entity();
    ecs.add_component(ground, Movable::new(Vec2::new(0, -500_000_000), Vec2::new(-START_SCROLL_SPEED, 0), Vec2::new(0, 0)));
    let mut mgr = ObstacleManager::with_capacity(n, CACTUS_MIN_DELAY, vec![ground]);
    let mut ids = Vec::new();
    for i in 0..n {
        let id = ecs.new_entity();
        ecs.add_component(id, Movable::new(Vec2::new(2_000_000_000, -450_000_000), Vec2::new(-START_SCROLL_SPEED, 0), Vec2::new(0, 0)));
        ecs.add_component(id, cactus_collider());
        if i + 1 == n {
            mgr.add_ptero(id);
        } else {
            mgr.add_cactus(id);
        }
        ids.push(id);
    }
    (ecs, mgr, ids, ground)
}

fn active_count(mgr: &ObstacleManager) -> usize {
    (0..mgr.ids().len()).filter(|i| mgr.is_active(*i)).count()
}

#[test]
fn scroll_speed_ramps_up_to_the_maximum() {
    let (mut ecs, mut mgr, _, _) = world(0);
    let mut rng = Rand32::new(RNG_DEFAULT_SEED);
    assert_eq!(mgr.get_speed(), START_SCROLL_SPEED);
    let mut last = mgr.get_speed();
    let mut time = 0u64;
    let mut reached = false;
    for _ in 0..20_000 {
        time += 16;
        mgr.update(&mut ecs, &mut rng, time, 16);
        let s = mgr.get_speed();
        assert!(s <= MAX_SCROLL_SPEED);
        if last < MAX_SCROLL_SPEED {
            assert!(s > last);
        } else {
            assert_eq!(s, MAX_SCROLL_SPEED);
            reached = true;
        }
        last = s;
    }
    assert!(reached);
}

#[test]
fn scroll_speed_step_exact() {
    let (mut ecs, mut mgr, _, _) = world(0);
    let mut rng = Rand32::new(RNG_DEFAULT_SEED);
    mgr.update(&mut ecs, &mut rng, 0, 1000);
    assert_eq!(mgr.get_speed(), START_SCROLL_SPEED + 5_500);
    mgr.update(&mut ecs, &mut rng, 1, 1);
    assert_eq!(mgr.get_speed(), START_SCROLL_SPEED + 5_505);
}

#[test]
fn first_update_spawns_one_obstacle_at_the_right_edge() {
    let (mut ecs, mut mgr, ids, ground) = world(4);
    let mut rng = Rand32::new(RNG_DEFAULT_SEED);
    mgr.update(&mut ecs, &mut rng, 0, 16);
    assert_eq!(active_count(&mgr), 1);
    let slot = (0..ids.len()).find(|i| mgr.is_active(*i)).unwrap();
    let id = ids[slot];
    let left = cactus_collider().get_bound_offset(BoundType::Left).x;
    let m = ecs.get_component::<Movable>(id).unwrap();
    assert_eq!(m.pos.x, SCREEN_HALF_WIDTH - left);
    let bias = if slot + 1 == ids.len() { PTERO_SPEED } else { 0 };
    assert_eq!(m.velocity.x, -(START_SCROLL_SPEED + bias));
    assert_eq!(ecs.get_component::<Movable>(ground).unwrap().velocity.x, -START_SCROLL_SPEED);
    let next = mgr.get_next_spawn_time();
    assert!(next >= CACTUS_MIN_DELAY && next < CACTUS_MIN_DELAY + SPAWN_JITTER as u64);
}

#[test]
fn no_spawn_before_due_time() {
    let (mut ecs, mut mgr, _, _) = world(4);
    let mut rng = Rand32::new(RNG_DEFAULT_SEED);
    mgr.update(&mut ecs, &mut rng, 0, 16);
    let next = mgr.get_next_spawn_time();
    mgr.update(&mut ecs, &mut rng, next - 1, 16);
    assert_eq!(active_count(&mgr), 1);
    mgr.update(&mut ecs, &mut rng, next, 16);
    assert_eq!(active_count(&mgr), 2);
}

#[test]
fn active_slots_never_exceed_pool_size() {
    let (mut ecs, mut mgr, _, _) = world(3);
    let mut rng = Rand32::new(RNG_DEFAULT_SEED);
    let mut time = 0u64;
    for _ in 0..50 {
        mgr.update(&mut ecs, &mut rng, time, 16);
        assert!(active_count(&mgr) <= 3);
        time += 3_000;
    }
}

#[test]
fn obstacle_leaves_pool_once_off_screen() {
    let (mut ecs, mut mgr, ids, _) = world(1);
    let mut rng = Rand32::new(RNG_DEFAULT_SEED);
    mgr.update(&mut ecs, &mut rng, 0, 16);
    assert!(mgr.is_active(0));
    let far_left = Movable::new(Vec2::new(-SCREEN_HALF_WIDTH - 30_000_000, 0), Vec2::new(0, 0), Vec2::new(0, 0));
    ecs.set_component(ids[0], far_left);
    mgr.update(&mut ecs, &mut rng, 1, 16);
    assert!(!mgr.is_active(0));
    assert_eq!(ecs.get_component::<Movable>(ids[0]).unwrap(), far_left);
}

#[test]
fn restart_resets_speed_and_slots() {
    let (mut ecs, mut mgr, _, _) = world(4);
    let mut rng = Rand32::new(RNG_DEFAULT_SEED);
    let mut time = 0u64;
    for _ in 0..10 {
        mgr.update(&mut ecs, &mut rng, time, 500);
        time += 2_500;
    }
    assert!(mgr.get_speed() > START_SCROLL_SPEED);
    assert!(active_count(&mgr) > 0);
    mgr.restart();
    assert_eq!(mgr.get_speed(), START_SCROLL_SPEED);
    assert_eq!(active_count(&mgr), 0);
    assert_eq!(mgr.get_next_spawn_time(), 0);
}

#[test]
fn collision_only_with_active_obstacles() {
    let (mut ecs, mut mgr, ids, _) = world(2);
    let player = ecs.new_entity();
    ecs.add_component(player, Movable::new(Vec2::new(0, 0), Vec2::new(0, 0), Vec2::new(0, 0)));
    ecs.add_component(player, Collider::new_single(BoxCollider::new(Vec2::new(10, 10))));
    for id in &ids {
        ecs.set_component(*id, Movable::new(Vec2::new(0, 0), Vec2::new(0, 0), Vec2::new(0, 0)));
    }
    assert!(!mgr.check_collision(&ecs, player));
    let mut rng = Rand32::new(RNG_DEFAULT_SEED);
    mgr.update(&mut ecs, &mut rng, 0, 0);
    assert!(!mgr.check_collision(&ecs, player));
    for id in &ids {
        ecs.set_component(*id, Movable::new(Vec2::new(0, 0), Vec2::new(0, 0), Vec2::new(0, 0)));
    }
    assert!(mgr.check_collision(&ecs, player));
}

#[test]
fn nearest_obstacle_is_the_leftmost_active_one() {
    let (mut ecs, mut mgr, ids, _) = world(3);
    assert_eq!(mgr.get_obstacle(&ecs), None);
    let mut rng = Rand32::new(RNG_DEFAULT_SEED);
    let mut time = 0u64;
    while active_count(&mgr) < 3 {
        mgr.update(&mut ecs, &mut rng, time, 0);
        time += 3_000;
    }
    ecs.set_component(ids[0], Movable::new(Vec2::new(500, 1), Vec2::new(0, 0), Vec2::new(0, 0)));
    ecs.set_component(ids[1], Movable::new(Vec2::new(-200, 2), Vec2::new(0, 0), Vec2::new(0, 0)));
    ecs.set_component(ids[2], Movable::new(Vec2::new(-200, 3), Vec2::new(0, 0), Vec2::new(0, 0)));
    assert_eq!(mgr.get_obstacle(&ecs), Some(Vec2::new(-200, 2)));
}

#[test]
fn pool_probes_forward_and_wraps() {
    let mut pool = ObstaclePool::with_capacity(3);
    pool.add_cactus(10);
    pool.add_cactus(11);
    pool.add_ptero(12);
    assert_eq!(pool.activate_from(1), Some(11));
    assert_eq!(pool.activate_from(1), Some(12));
    assert_eq!(pool.activate_from(1), Some(10));
    assert_eq!(pool.activate_from(1), None);
    pool.deactivate(12);
    assert_eq!(pool.activate_from(0), Some(12));
    pool.deactivate_all();
    assert_eq!(pool.activate_from(2), Some(12));
}

#[test]
fn spawn_with_given_draws() {
    let (mut ecs, mut mgr, ids, _) = world(3);
    mgr.spawn_due(&mut ecs, 4, 250, 100);
    assert!(mgr.is_active(1));
    assert!(!mgr.is_active(0));
    assert_eq!(mgr.get_next_spawn_time(), 100 + CACTUS_MIN_DELAY + 250);
    assert_eq!(mgr.id(1), ids[1]);
    mgr.spawn_due(&mut ecs, 4, 0, 200);
    assert_eq!(active_count(&mgr), 1);
}
