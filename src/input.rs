use vstd::prelude::*;
use crate::dino::DinoController;
use crate::ecs::{lemma_keeps_refl, ECS};
use crate::movable::Movable;

verus! {

/// The player's requests as the game loop reads them: jump (edge-triggered),
/// pause, whether a run is going on, and whether a restart is wanted.
#[derive(Debug, Default)]
pub struct InputState {
    jump: bool,
    pause: bool,
    game_active: bool,
    restart: bool,
}

impl InputState {
    pub closed spec fn jumping(self) -> bool {
        self.jump
    }

    pub closed spec fn paused(self) -> bool {
        self.pause
    }

    pub closed spec fn active(self) -> bool {
        self.game_active
    }

    pub closed spec fn restarting(self) -> bool {
        self.restart
    }

    pub fn new() -> (r: InputState)
        ensures
            !r.jumping(),
            !r.paused(),
            r.active(),
            !r.restarting(),
    {
        InputState { jump: false, pause: false, game_active: true, restart: false }
    }

    /// A jump request; ignored while paused.
    pub fn jump_start(&mut self)
        ensures
            final(self).jumping() == (old(self).jumping() || !old(self).paused()),
            final(self).paused() == old(self).paused(),
            final(self).active() == old(self).active(),
            final(self).restarting() == old(self).restarting(),
    {
        if self.pause {
            return;
        }
        self.jump = true;
    }

    pub fn jump_end(&mut self)
        ensures
            !final(self).jumping(),
            final(self).paused() == old(self).paused(),
            final(self).active() == old(self).active(),
            final(self).restarting() == old(self).restarting(),
    {
        self.jump = false;
    }

    pub fn jump(&self) -> (r: bool)
        ensures
            r == self.jumping(),
    {
        self.jump
    }

    /// Pauses or resumes; ignored once the run is over.
    pub fn toggle_pause(&mut self)
        ensures
            final(self).paused() == if old(self).active() {
                !old(self).paused()
            } else {
                old(self).paused()
            },
            final(self).jumping() == old(self).jumping(),
            final(self).active() == old(self).active(),
            final(self).restarting() == old(self).restarting(),
    {
        if !self.game_active {
            return;
        }
        self.pause = !self.pause;
    }

    pub fn pause(&self) -> (r: bool)
        ensures
            r == self.paused(),
    {
        self.pause
    }

    pub fn game_over(&mut self)
        ensures
            !final(self).active(),
            final(self).jumping() == old(self).jumping(),
            final(self).paused() == old(self).paused(),
            final(self).restarting() == old(self).restarting(),
    {
        self.game_active = false;
    }

    pub fn game_active(&self) -> (r: bool)
        ensures
            r == self.active(),
    {
        self.game_active
    }

    pub fn restart(&self) -> (r: bool)
        ensures
            r == self.restarting(),
    {
        self.restart
    }

    pub fn set_restart(&mut self)
        ensures
            final(self).restarting(),
            final(self).jumping() == old(self).jumping(),
            final(self).paused() == old(self).paused(),
            final(self).active() == old(self).active(),
    {
        self.restart = true;
    }
}

/// Applies a pending jump request: during a run the player's controller
/// jumps (returns whether it did) and the request is consumed; after the run
/// a jump request asks for a restart.
pub fn player_handle_input(ecs: &mut ECS, entity_id: usize, input: &mut InputState) -> (r: bool)
    requires
        old(ecs).wf(),
        entity_id < old(ecs).count(),
        old(ecs).component::<DinoController>(entity_id as int) is Some,
        old(ecs).component::<DinoController>(entity_id as int).unwrap().entity_id < old(ecs).count(),
        old(ecs).component::<Movable>(
            old(ecs).component::<DinoController>(entity_id as int).unwrap().entity_id as int,
        ) is Some,
    ensures
        final(ecs).wf(),
        final(ecs).keeps_components(*old(ecs)),
        ({
            let dc = old(ecs).component::<DinoController>(entity_id as int).unwrap();
            let m = old(ecs).component::<Movable>(dc.entity_id as int).unwrap();
            if old(input).active() && old(input).jumping() {
                &&& r == m.on_ground
                &&& !final(input).jumping()
                &&& final(input).paused() == old(input).paused()
                &&& final(input).active()
                &&& final(input).restarting() == old(input).restarting()
                &&& !r ==> *final(ecs) == *old(ecs)
                &&& r ==> final(ecs).component_set(
                    *old(ecs),
                    dc.entity_id as int,
                    Movable {
                        velocity: crate::vec2::Vec2 { x: m.velocity.x, y: crate::types_and_constants::JUMP_VELOCITY },
                        on_ground: false,
                        ..m
                    },
                )
            } else {
                &&& !r
                &&& *final(ecs) == *old(ecs)
                &&& final(input).jumping() == old(input).jumping()
                &&& final(input).paused() == old(input).paused()
                &&& final(input).active() == old(input).active()
                &&& final(input).restarting() == (old(input).restarting() || (!old(input).active()
                    && old(input).jumping()))
            }
        }),
{
    proof {
        lemma_keeps_refl(*ecs);
    }
    if input.game_active() {
        if input.jump() {
            let jumped = ecs.get_component::<DinoController>(entity_id).unwrap().jump(ecs);
            input.jump_end();
            return jumped;
        }
    } else {
        if input.jump() {
            input.set_restart();
        }
    }
    false
}

} // verus!
