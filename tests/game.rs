use dino_game::dino::DinoState;
use dino_game::game::{AssetSizes, Game, ImageSize, TickOutcome, POINT_SOUND_STEP};
use dino_game::movable::Movable;
use dino_game::types_and_constants::{GROUND_Y_COORD, RNG_DEFAULT_SEED, SCREEN, START_SCROLL_SPEED, UNITS_PER_PIXEL};
use oorandom::Rand32;

fn size(width: u32, height: u32) -> ImageSize {
    ImageSize { width, height }
}

fn sizes() -> AssetSizes {
    AssetSizes {
        ptero: size(92, 80),
        cacti: vec![size(34, 70), size(68, 70), size(102, 70), size(50, 100), size(100, 100), size(150, 100)],
        ground: size(2400, 24),
        cloud: size(92, 27),
        perceptron: size(200, 200),
        restart_button: size(72, 64),
    }
}

#[test]
fn new_game_sets_up_the_world() {
    let game = Game::new(&sizes(), 42);
    assert_eq!(game.ecs.entities_count(), 12);
    assert_eq!(game.obstacle_manager.ids().len(), 7);
    assert_eq!(game.obstacle_manager.get_speed(), START_SCROLL_SPEED);
    assert_eq!(game.score.high, 42);
    assert_eq!(game.score.cur, 0);
    assert!(!game.restart_button.active);
    assert_eq!(game.ecs.get_component::<DinoState>(game.ent.dino), Some(DinoState::Run));
    assert!(game.obstacle_manager.is_ready(&game.ecs));
}

#[test]
fn tick_grows_score_and_spawns() {
    let mut game = Game::new(&sizes(), 0);
    let mut rng = Rand32::new(RNG_DEFAULT_SEED);
    let out = game.tick(&mut rng, 0, 16);
    assert_eq!(out, TickOutcome::Running { jumped: false, point_sound: false });
    assert_eq!(game.score.cur, 160);
    let active = (0..7).filter(|i| game.obstacle_manager.is_active(*i)).count();
    assert_eq!(active, 1);
    assert!(game.obstacle_signal().is_some());
}

#[test]
fn player_lands_and_jumps() {
    let mut game = Game::new(&sizes(), 0);
    let mut rng = Rand32::new(RNG_DEFAULT_SEED);
    let mut time = 0u64;
    for _ in 0..10 {
        game.tick(&mut rng, time, 16);
        time += 16;
    }
    let m = game.ecs.get_component::<Movable>(game.ent.dino).unwrap();
    assert!(m.on_ground);
    game.input.jump_start();
    let out = game.tick(&mut rng, time, 16);
    assert!(matches!(out, TickOutcome::Running { jumped: true, .. }));
    assert_eq!(game.ecs.get_component::<DinoState>(game.ent.dino), Some(DinoState::Jump));
}

#[test]
fn pause_freezes_the_world() {
    let mut game = Game::new(&sizes(), 0);
    let mut rng = Rand32::new(RNG_DEFAULT_SEED);
    game.input.toggle_pause();
    assert_eq!(game.tick(&mut rng, 0, 16), TickOutcome::Idle);
    assert_eq!(game.score.cur, 0);
}

#[test]
fn lose_then_restart() {
    let mut game = Game::new(&sizes(), 3);
    let mut rng = Rand32::new(RNG_DEFAULT_SEED);
    let mut time = 0u64;
    for _ in 0..600 {
        game.tick(&mut rng, time, 16);
        time += 16;
    }
    assert!(game.score.cur > 4_000);
    let best = game.lose(time);
    assert_eq!(best, Some((game.score.cur / 1000) as u32));
    assert!(!game.input.game_active());
    assert_eq!(game.ecs.get_component::<DinoState>(game.ent.dino), Some(DinoState::Dead));
    assert_eq!(game.tick(&mut rng, time + 100, 16), TickOutcome::RestartRefused);
    game.input.set_restart();
    assert_eq!(game.tick(&mut rng, time + 400, 16), TickOutcome::Restarted);
    assert_eq!(game.score.cur, 0);
    assert_eq!(game.score.next_sound, POINT_SOUND_STEP);
    assert_eq!(game.obstacle_manager.get_speed(), START_SCROLL_SPEED);
    assert_eq!(game.obstacle_manager.get_next_spawn_time(), 0);
    assert!((0..7).all(|i| !game.obstacle_manager.is_active(i)));
    assert!(game.input.game_active());
    for id in game.obstacle_manager.ids() {
        assert_eq!(game.ecs.get_component::<Movable>(id).unwrap().pos.x, SCREEN.0 + 50 * UNITS_PER_PIXEL);
    }
    let dino = game.ecs.get_component::<Movable>(game.ent.dino).unwrap();
    assert_eq!(dino.pos.y, GROUND_Y_COORD + 43 * UNITS_PER_PIXEL);
    assert_eq!(game.ecs.get_component::<DinoState>(game.ent.dino), Some(DinoState::Run));
}

#[test]
fn point_sound_every_hundred_points() {
    let mut game = Game::new(&sizes(), 0);
    let mut rng = Rand32::new(RNG_DEFAULT_SEED);
    game.score.cur = POINT_SOUND_STEP - 100;
    let out = game.tick(&mut rng, 0, 16);
    assert_eq!(out, TickOutcome::Running { jumped: false, point_sound: true });
    assert_eq!(game.score.next_sound, 2 * POINT_SOUND_STEP);
}
