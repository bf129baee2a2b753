use dino_game::assets::AssetTag;
use dino_game::collision::{BoxCollider, Collider};
use dino_game::dino::{DinoController, DinoState};
use dino_game::ecs::ECS;
use dino_game::input::{player_handle_input, InputState};
use dino_game::movable::Movable;
use dino_game::ptero::Ptero;
use dino_game::sprite::Sprite;
use dino_game::types_and_constants::{GROUND_Y_COORD, JUMP_VELOCITY, RNG_DEFAULT_SEED, SCREEN_HALF_WIDTH, UNITS_PER_PIXEL};
use dino_game::ui::UIButton;
use dino_game::vec2::Vec2;
use oorandom::Rand32;

#[test]
fn input_state_flow() {
    let mut input = InputState::new();
    assert!(input.game_active());
    assert!(!input.jump());
    input.toggle_pause();
    assert!(input.pause());
    input.jump_start();
    assert!(!input.jump());
    input.toggle_pause();
    input.jump_start();
    assert!(input.jump());
    input.jump_end();
    assert!(!input.jump());
    input.game_over();
    input.toggle_pause();
    assert!(!input.pause());
    assert!(!input.restart());
    input.set_restart();
    assert!(input.restart());
}

fn dino_world(on_ground: bool) -> (ECS, usize) {
    let mut ecs = ECS::new();
    let dino = ecs.new_entity();
    let mut m = Movable::new(Vec2::new(0, 0), Vec2::new(0, 0), Vec2::new(0, -3_800));
    m.on_ground = on_ground;
    ecs.add_component(dino, m);
    ecs.add_component(dino, DinoController::new(dino, AssetTag::JumpSound));
    (ecs, dino)
}

#[test]
fn jump_request_during_run() {
    let (mut ecs, dino) = dino_world(true);
    let mut input = InputState::new();
    input.jump_start();
    assert!(player_handle_input(&mut ecs, dino, &mut input));
    assert!(!input.jump());
    let m = ecs.get_component::<Movable>(dino).unwrap();
    assert_eq!(m.velocity.y, JUMP_VELOCITY);
    assert!(!m.on_ground);
}

#[test]
fn jump_request_in_the_air_is_consumed() {
    let (mut ecs, dino) = dino_world(false);
    let mut input = InputState::new();
    input.jump_start();
    assert!(!player_handle_input(&mut ecs, dino, &mut input));
    assert!(!input.jump());
    assert_eq!(ecs.get_component::<Movable>(dino).unwrap().velocity.y, 0);
}

#[test]
fn jump_request_after_run_asks_restart() {
    let (mut ecs, dino) = dino_world(true);
    let mut input = InputState::new();
    input.jump_start();
    input.game_over();
    assert!(!player_handle_input(&mut ecs, dino, &mut input));
    assert!(input.restart());
    assert!(input.jump());
}

#[test]
fn controller_sets_state_from_ground_contact() {
    let (mut ecs, dino) = dino_world(true);
    ecs.add_component(dino, DinoState::Dead);
    DinoController::update(&mut ecs, dino);
    assert_eq!(ecs.get_component::<DinoState>(dino), Some(DinoState::Run));
    let c = ecs.get_component::<DinoController>(dino).unwrap();
    assert!(c.jump(&mut ecs));
    DinoController::update(&mut ecs, dino);
    assert_eq!(ecs.get_component::<DinoState>(dino), Some(DinoState::Jump));
}

#[test]
fn ptero_gets_new_height_once_off_screen() {
    let mut ecs = ECS::new();
    let p = ecs.new_entity();
    ecs.add_component(p, Collider::new_single(BoxCollider::new(Vec2::new(10, 10))));
    ecs.add_component(p, Movable::new(Vec2::new(-SCREEN_HALF_WIDTH - 100, 5), Vec2::new(0, 0), Vec2::new(0, 0)));
    ecs.add_component(p, Ptero::new());
    Ptero::update_with(&mut ecs, p, 7);
    let m = ecs.get_component::<Movable>(p).unwrap();
    assert_eq!(m.pos.y, GROUND_Y_COORD + 40 * UNITS_PER_PIXEL + 35 * UNITS_PER_PIXEL);
    assert_eq!(ecs.get_component::<Ptero>(p), Some(Ptero { needs_update: false }));
    Ptero::update_with(&mut ecs, p, 2);
    assert_eq!(ecs.get_component::<Movable>(p).unwrap().pos.y, m.pos.y);
    ecs.set_component(p, Movable::new(Vec2::new(0, 5), Vec2::new(0, 0), Vec2::new(0, 0)));
    let mut rng = Rand32::new(RNG_DEFAULT_SEED);
    Ptero::update(&mut ecs, &mut rng, p);
    assert_eq!(ecs.get_component::<Ptero>(p), Some(Ptero { needs_update: true }));
}

#[test]
fn sprite_and_button() {
    let mut s = Sprite::new(AssetTag::Cloud);
    assert_eq!(s.offset, Vec2::new(500, 500));
    s.set_tag(AssetTag::Ground1);
    s.set_offset(Vec2::new(0, 0));
    assert_eq!(s, Sprite { asset_tag: AssetTag::Ground1, offset: Vec2::new(0, 0) });
    let mut b = UIButton::new(AssetTag::RestartButton, 72, 64, Vec2::new(0, 0));
    assert!(b.active);
    assert!(b.col.contains_point(b.pos, Vec2::new(36, -32)));
    assert!(!b.col.contains_point(b.pos, Vec2::new(37, 0)));
    b.deactivate();
    assert!(!b.active);
    b.activate();
    assert!(b.active);
}
