use dino_game::animation::{AnimStateMachine, Animation};
use dino_game::assets::AssetTag;
use dino_game::dino::DinoState;
use dino_game::ecs::ECS;

#[test]
fn frames_advance_on_schedule() {
    let mut a = Animation::new(AssetTag::DinoAnimRun, 8);
    assert_eq!(a.current_frame(), 0);
    a.update_frame(0);
    assert_eq!(a.current_frame(), 1);
    assert_eq!(a.next_frame_time(), 125);
    a.update_frame(100);
    assert_eq!(a.current_frame(), 1);
    a.update_frame(125);
    assert_eq!(a.current_frame(), 0);
    assert_eq!(a.next_frame_time(), 250);
    assert_eq!(a.current_image(), AssetTag::DinoRunL);
}

#[test]
fn stall_snaps_forward_one_frame() {
    let mut a = Animation::new(AssetTag::PteroAnim, 4);
    a.update_frame(0);
    a.update_frame(10_000);
    assert_eq!(a.current_frame(), 0);
    assert_eq!(a.next_frame_time(), 10_250);
}

#[test]
fn machine_swaps_once_per_state_change() {
    let mut ecs = ECS::new();
    let dino = ecs.new_entity();
    ecs.add_component(dino, DinoState::Run);
    ecs.add_component(dino, Animation::new(AssetTag::DinoAnimRun, 8));
    let mut machine = AnimStateMachine::new(AssetTag::DinoStateMachine, DinoState::Run);
    assert_eq!(machine.current_anim_tag(), AssetTag::DinoAnimRun);

    machine.update_state(&mut ecs, dino);
    assert_eq!(machine.current_state(), DinoState::Run);
    assert_eq!(ecs.get_component::<Animation>(dino).unwrap().current_frame(), 0);

    ecs.set_component(dino, DinoState::Jump);
    machine.update_state(&mut ecs, dino);
    assert_eq!(machine.current_state(), DinoState::Jump);
    assert_eq!(machine.current_anim_tag(), AssetTag::DinoAnimJump);
    assert_eq!(machine.current_anim(), Animation::new(AssetTag::DinoAnimJump, 1));
    assert_eq!(ecs.get_component::<Animation>(dino), Some(Animation::new(AssetTag::DinoAnimJump, 1)));

    let mut anim = ecs.get_component::<Animation>(dino).unwrap();
    anim.update_frame(0);
    ecs.set_component(dino, anim);
    let before = machine;
    for _ in 0..5 {
        machine.update_state(&mut ecs, dino);
    }
    assert_eq!(machine, before);
    assert_eq!(ecs.get_component::<Animation>(dino), Some(anim));
}

#[test]
fn machine_is_inert_without_state_component() {
    let mut ecs = ECS::new();
    let e = ecs.new_entity();
    let mut machine = AnimStateMachine::new(AssetTag::DinoStateMachine, DinoState::Dead);
    let before = machine;
    machine.update_state(&mut ecs, e);
    assert_eq!(machine, before);
    assert_eq!(ecs.get_component::<Animation>(e), None);
}

#[test]
fn stored_machine_update() {
    let mut ecs = ECS::new();
    let dino = ecs.new_entity();
    ecs.add_component(dino, DinoState::Dead);
    ecs.add_component(dino, Animation::new(AssetTag::DinoAnimRun, 8));
    ecs.add_component(dino, AnimStateMachine::new(AssetTag::DinoStateMachine, DinoState::Run));
    AnimStateMachine::<DinoState>::update(&mut ecs, dino);
    let m = ecs.get_component::<AnimStateMachine<DinoState>>(dino).unwrap();
    assert_eq!(m.current_state(), DinoState::Dead);
    assert_eq!(ecs.get_component::<Animation>(dino).unwrap().asset_tag(), AssetTag::DinoAnimDead);
}

#[test]
fn stored_animation_update() {
    let mut ecs = ECS::new();
    let e = ecs.new_entity();
    ecs.add_component(e, Animation::new(AssetTag::PteroAnim, 4));
    Animation::update(&mut ecs, e, 0);
    assert_eq!(ecs.get_component::<Animation>(e).unwrap().current_frame(), 1);
}

#[test]
fn asset_tables() {
    assert_eq!(AssetTag::DinoAnimRun.get_anim_length(), Some(2));
    assert_eq!(AssetTag::DinoAnimJump.get_anim_fps(), Some(1));
    assert_eq!(AssetTag::PteroAnim.get_anim_fps(), Some(4));
    assert_eq!(AssetTag::Cloud.get_anim_length(), None);
    assert_eq!(AssetTag::PteroAnim.get_anim_frame(1), Some(AssetTag::Ptero2));
    assert_eq!(AssetTag::PteroAnim.get_anim_frame(2), None);
    assert_eq!(
        AssetTag::cactus_tags(),
        vec![
            AssetTag::CactusSmall1,
            AssetTag::CactusSmall2,
            AssetTag::CactusSmall3,
            AssetTag::CactusBig1,
            AssetTag::CactusBig2,
            AssetTag::CactusBig3,
        ]
    );
}
