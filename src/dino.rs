use vstd::prelude::*;
use crate::animation::AnimState;
use crate::assets::AssetTag;
use crate::ecs::{lemma_keeps_refl, lemma_set_movable_keeps, lemma_set_state_keeps, ECS};
use crate::movable::Movable;
use crate::types_and_constants::JUMP_VELOCITY;
use crate::vec2::Vec2;

verus! {

/// What the player character is doing, as the animation state machine sees it.
#[derive(Clone, Copy, Debug, PartialEq, Eq, Structural)]
pub enum DinoState {
    Run,
    Jump,
    Dead,
}

/// Player control: which entity it moves and which sound a jump plays.
#[derive(Clone, Copy, Debug, PartialEq, Eq, Structural)]
pub struct DinoController {
    pub entity_id: usize,
    pub jump_sound_tag: AssetTag,
}

impl DinoController {
    pub fn new(entity_id: usize, jump_sound_tag: AssetTag) -> (r: DinoController)
        ensures
            r.entity_id == entity_id,
            r.jump_sound_tag == jump_sound_tag,
    {
        DinoController { entity_id, jump_sound_tag }
    }
}

impl AnimState for DinoState {
    open spec fn machine_anim(machine: AssetTag, state: Self) -> Option<AssetTag> {
        match machine {
            AssetTag::DinoStateMachine => Some(
                match state {
                    DinoState::Run => AssetTag::DinoAnimRun,
                    DinoState::Jump => AssetTag::DinoAnimJump,
                    DinoState::Dead => AssetTag::DinoAnimDead,
                },
            ),
            _ => None,
        }
    }

    open spec fn drives(machine: AssetTag) -> bool {
        machine == AssetTag::DinoStateMachine
    }

    proof fn lemma_drives(machine: AssetTag, state: Self) {
    }

    fn get_state_machine_anim(machine: AssetTag, state: Self) -> (r: Option<AssetTag>) {
        match machine {
            AssetTag::DinoStateMachine => Some(
                match state {
                    DinoState::Run => AssetTag::DinoAnimRun,
                    DinoState::Jump => AssetTag::DinoAnimJump,
                    DinoState::Dead => AssetTag::DinoAnimDead,
                },
            ),
            _ => None,
        }
    }

    fn same_state(&self, other: &Self) -> (r: bool) {
        *self == *other
    }

    fn machine_drives(machine: AssetTag) -> (r: bool) {
        machine == AssetTag::DinoStateMachine
    }
}

impl DinoController {
    /// Makes the controlled entity jump if it stands on the ground; returns
    /// whether it jumped (then a jump sound is due).
    pub fn jump(&self, ecs: &mut ECS) -> (r: bool)
        requires
            old(ecs).wf(),
            self.entity_id < old(ecs).count(),
            old(ecs).component::<Movable>(self.entity_id as int) is Some,
        ensures
            final(ecs).wf(),
            final(ecs).keeps_components(*old(ecs)),
            ({
                let m = old(ecs).component::<Movable>(self.entity_id as int).unwrap();
                &&& r == m.on_ground
                &&& !r ==> *final(ecs) == *old(ecs)
                &&& r ==> final(ecs).component_set(
                    *old(ecs),
                    self.entity_id as int,
                    Movable { velocity: Vec2 { x: m.velocity.x, y: JUMP_VELOCITY }, on_ground: false, ..m },
                )
            }),
    {
        let mut mov = ecs.get_component::<Movable>(self.entity_id).unwrap();
        let jump_success = mov.jump(JUMP_VELOCITY);
        if jump_success {
            ecs.set_component(self.entity_id, mov);
            proof {
                lemma_set_movable_keeps(*old(ecs), *ecs, self.entity_id as int, mov);
            }
        } else {
            proof {
                lemma_keeps_refl(*ecs);
            }
        }
        jump_success
    }

    /// Sets the entity's `DinoState` from its `Movable`: running on the ground, jumping otherwise.
    pub fn update(ecs: &mut ECS, entity_id: usize)
        requires
            old(ecs).wf(),
            entity_id < old(ecs).count(),
            old(ecs).component::<Movable>(entity_id as int) is Some,
        ensures
            final(ecs).wf(),
            final(ecs).keeps_components(*old(ecs)),
            final(ecs).component_set(
                *old(ecs),
                entity_id as int,
                if old(ecs).component::<Movable>(entity_id as int).unwrap().on_ground {
                    DinoState::Run
                } else {
                    DinoState::Jump
                },
            ),
    {
        let mov: Movable = ecs.get_component(entity_id).unwrap();
        let state = if mov.on_ground {
            DinoState::Run
        } else {
            DinoState::Jump
        };
        ecs.set_component::<DinoState>(entity_id, state);
        proof {
            lemma_set_state_keeps(*old(ecs), *ecs, entity_id as int, state);
        }
    }
}

} // verus!
