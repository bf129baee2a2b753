use vstd::prelude::*;
use crate::assets::AssetTag;
use crate::dino::DinoState;
use crate::ecs::{lemma_keeps_refl, lemma_keeps_trans, lemma_set_animation_keeps, lemma_set_machine_keeps, lemma_set_other, moves_none, Component, ECS};
use crate::collision::Collider;
use crate::movable::Movable;
use crate::types_and_constants::TIME_LIMIT;

verus! {

/// Frame timing of one animation. Frames advance by the clock, not by
/// accumulated deltas: after a stall the next call moves one frame and
/// schedules the following advance from the current time.
#[derive(Clone, Copy, Debug, PartialEq, Eq, Structural)]
pub struct Animation {
    asset_tag: AssetTag,
    fps: u8,
    len: usize,
    current_frame: usize,
    frame_time: u64,
    next_frame_upd: u64,
}

impl Animation {
    #[verifier::type_invariant]
    spec fn inv(self) -> bool {
        &&& self.asset_tag.is_anim()
        &&& self.len == self.asset_tag.anim_frames_of().unwrap().len()
        &&& self.current_frame < self.len
        &&& self.fps > 0
        &&& self.frame_time as int == 1000int / (self.fps as int)
    }

    pub closed spec fn tag(self) -> AssetTag {
        self.asset_tag
    }

    pub closed spec fn fps(self) -> u8 {
        self.fps
    }

    pub closed spec fn frame(self) -> nat {
        self.current_frame as nat
    }

    /// Number of frames.
    pub closed spec fn length(self) -> nat {
        self.len as nat
    }

    /// Milliseconds that one frame is shown.
    pub closed spec fn frame_time(self) -> nat {
        self.frame_time as nat
    }

    /// Time (in milliseconds) from which the next call advances the frame.
    pub closed spec fn next_update(self) -> nat {
        self.next_frame_upd as nat
    }

    /// A fresh animation at its first frame, due to advance at once.
    pub fn new(asset_tag: AssetTag, fps: u8) -> (r: Animation)
        requires
            asset_tag.is_anim(),
            fps > 0,
        ensures
            r.tag() == asset_tag,
            r.fps() == fps,
            r.length() == asset_tag.anim_frames_of().unwrap().len(),
            r.frame() == 0,
            r.frame_time() == 1000int / (fps as int),
            r.next_update() == 0,
    {
        let len = asset_tag.get_anim_length().unwrap();
        Animation {
            asset_tag,
            fps,
            len,
            current_frame: 0,
            frame_time: 1000 / (fps as u64),
            next_frame_upd: 0,
        }
    }

    /// The image tag of the frame shown now.
    pub fn current_image(&self) -> (r: AssetTag)
        ensures
            r == self.tag().anim_frames_of().unwrap()[self.frame() as int],
    {
        proof {
            use_type_invariant(self);
        }
        self.asset_tag.get_anim_frame(self.current_frame).unwrap()
    }

    /// Moves to the next frame (wrapping) if `time` has reached the scheduled advance.
    pub fn update_frame(&mut self, time: u64)
        requires
            time < TIME_LIMIT,
        ensures
            time < old(self).next_update() ==> *final(self) == *old(self),
            time >= old(self).next_update() ==> {
                &&& final(self).frame() as int == (old(self).frame() + 1) as int % (old(self).length() as int)
                &&& final(self).next_update() == time + old(self).frame_time()
                &&& final(self).tag() == old(self).tag()
                &&& final(self).fps() == old(self).fps()
                &&& final(self).length() == old(self).length()
                &&& final(self).frame_time() == old(self).frame_time()
            },
            final(self).length() == old(self).length(),
            frame_updated(*final(self), *old(self), time as int),
            old(self).frame_time() == 1000int / (old(self).fps() as int),
            old(self).fps() > 0,
            old(self).length() == old(self).tag().anim_frames_of().unwrap().len(),
            old(self).frame() < old(self).length(),
            final(self).frame() < final(self).length(),
    {
        proof {
            use_type_invariant(&*self);
        }
        if time < self.next_frame_upd {
            return;
        }
        self.current_frame = (self.current_frame + 1) % self.len;
        self.next_frame_upd = time + self.frame_time;
    }
}

/// `a1` is `a0` after `update_frame(time)`.
pub open spec fn frame_updated(a1: Animation, a0: Animation, time: int) -> bool {
    if time < a0.next_update() {
        a1 == a0
    } else {
        &&& a1.frame() as int == (a0.frame() + 1) as int % (a0.length() as int)
        &&& a1.next_update() == time + a0.frame_time()
        &&& a1.tag() == a0.tag()
        &&& a1.fps() == a0.fps()
        &&& a1.length() == a0.length()
        &&& a1.frame_time() == a0.frame_time()
    }
}

/// A discrete state that drives an animation state machine: each machine tag
/// maps every state to the animation shown in it.
pub trait AnimState: Component {
    /// The animation shown in `state` under the machine `machine`.
    spec fn machine_anim(machine: AssetTag, state: Self) -> Option<AssetTag>;

    /// `machine` maps every state of this type to an animation.
    spec fn drives(machine: AssetTag) -> bool;

    proof fn lemma_drives(machine: AssetTag, state: Self)
        requires
            Self::drives(machine),
        ensures
            Self::machine_anim(machine, state) is Some,
            Self::machine_anim(machine, state).unwrap().is_anim(),
    ;

    fn get_state_machine_anim(machine: AssetTag, state: Self) -> (r: Option<AssetTag>)
        ensures
            r == Self::machine_anim(machine, state),
    ;

    fn same_state(&self, other: &Self) -> (r: bool)
        ensures
            r == (*self == *other),
    ;

    fn machine_drives(machine: AssetTag) -> (r: bool)
        ensures
            r == Self::drives(machine),
    ;
}

/// Swaps the animation of an entity when its discrete state changes.
#[derive(Clone, Copy, Debug, PartialEq)]
pub struct AnimStateMachine<State: AnimState> {
    asset_tag: AssetTag,
    current_state: State,
    current_anim_tag: AssetTag,
    current_anim: Animation,
}

/// The animation that a machine starts when it enters a state.
pub open spec fn fresh_anim(anim: Animation, tag: AssetTag) -> bool {
    &&& anim.tag() == tag
    &&& anim.frame() == 0
    &&& anim.next_update() == 0
    &&& Some(anim.fps()) == tag.anim_fps_of()
    &&& anim.length() == tag.anim_frames_of().unwrap().len()
    &&& anim.frame_time() == 1000int / (anim.fps() as int)
}

impl<State: AnimState> AnimStateMachine<State> {
    /// The machine maps every state to an animation, and shows the one of its current state.
    pub closed spec fn wf(self) -> bool {
        &&& State::drives(self.asset_tag)
        &&& State::machine_anim(self.asset_tag, self.current_state) == Some(self.current_anim_tag)
        &&& self.current_anim.tag() == self.current_anim_tag
    }

    pub closed spec fn machine(self) -> AssetTag {
        self.asset_tag
    }

    pub closed spec fn state(self) -> State {
        self.current_state
    }

    pub closed spec fn anim_tag(self) -> AssetTag {
        self.current_anim_tag
    }

    pub closed spec fn anim(self) -> Animation {
        self.current_anim
    }

    pub fn new(asset_tag: AssetTag, start_state: State) -> (r: AnimStateMachine<State>)
        requires
            State::drives(asset_tag),
        ensures
            r.wf(),
            r.machine() == asset_tag,
            r.state() == start_state,
            Some(r.anim_tag()) == State::machine_anim(asset_tag, start_state),
            fresh_anim(r.anim(), r.anim_tag()),
    {
        proof {
            State::lemma_drives(asset_tag, start_state);
        }
        let current_anim_tag = State::get_state_machine_anim(asset_tag, start_state).unwrap();
        let fps = current_anim_tag.get_anim_fps().unwrap();
        AnimStateMachine {
            asset_tag,
            current_state: start_state,
            current_anim_tag,
            current_anim: Animation::new(current_anim_tag, fps),
        }
    }
}

impl Animation {
    /// Advances the entity's `Animation` component at `time`.
    pub fn update(ecs: &mut ECS, entity_id: usize, time: u64)
        requires
            old(ecs).wf(),
            entity_id < old(ecs).count(),
            old(ecs).component::<Animation>(entity_id as int) is Some,
            time < TIME_LIMIT,
        ensures
            final(ecs).wf(),
            final(ecs).count() == old(ecs).count(),
            final(ecs).keeps_components(*old(ecs)),
            moves_none(*final(ecs), *old(ecs)),
            exists|a: Animation|
                frame_updated(a, old(ecs).component::<Animation>(entity_id as int).unwrap(), time as int)
                    && #[trigger] final(ecs).component_set(*old(ecs), entity_id as int, a),
    {
        let mut anim = ecs.get_component::<Animation>(entity_id).unwrap();
        anim.update_frame(time);
        ecs.set_component(entity_id, anim);
        assert(ecs.component_set(*old(ecs), entity_id as int, anim));
        proof {
            lemma_set_animation_keeps(*old(ecs), *ecs, entity_id as int, anim);
            assert forall|e: int| #[trigger] ecs.component::<Collider>(e) == old(ecs).component::<Collider>(e) by {
                lemma_set_other::<Animation, Collider>(*old(ecs), *ecs, entity_id as int, anim, e);
            }
            assert forall|e: int| #[trigger] ecs.component::<Movable>(e) == old(ecs).component::<Movable>(e) by {
                lemma_set_other::<Animation, Movable>(*old(ecs), *ecs, entity_id as int, anim, e);
            }
        }
    }
}

/// `(m1, e1)` is `(m0, e0)` after one state-machine tick for entity `id`:
/// nothing changes unless the entity's state component differs from the
/// machine's state, in which case the machine takes the new state and a
/// fresh animation for it, which also becomes the entity's `Animation`.
pub open spec fn state_updated<State: AnimState>(
    m1: AnimStateMachine<State>,
    e1: ECS,
    m0: AnimStateMachine<State>,
    e0: ECS,
    id: int,
) -> bool {
    match e0.component::<State>(id) {
        Some(s) => if s == m0.state() {
            m1 == m0 && e1 == e0
        } else {
            &&& m1.wf()
            &&& m1.machine() == m0.machine()
            &&& m1.state() == s
            &&& Some(m1.anim_tag()) == State::machine_anim(m0.machine(), s)
            &&& fresh_anim(m1.anim(), m1.anim_tag())
            &&& e1.component_set(e0, id, m1.anim())
        },
        None => m1 == m0 && e1 == e0,
    }
}

impl<State: AnimState> AnimStateMachine<State> {
    /// One tick: reads the entity's state component and swaps the animation
    /// when that state differs from the last one seen.
    pub fn update_state(&mut self, ecs: &mut ECS, entity_id: usize)
        requires
            old(self).wf(),
            old(ecs).wf(),
            entity_id < old(ecs).count(),
        ensures
            final(self).wf(),
            final(ecs).wf(),
            state_updated(*final(self), *final(ecs), *old(self), *old(ecs), entity_id as int),
    {
        let new_state = ecs.get_component::<State>(entity_id);
        if new_state.is_none() {
            return;
        }
        let new_state = new_state.unwrap();
        if self.current_state.same_state(&new_state) {
            return;
        }
        proof {
            State::lemma_drives(self.asset_tag, new_state);
        }
        self.current_state = new_state;
        let anim_tag = State::get_state_machine_anim(self.asset_tag, new_state).unwrap();
        let anim_fps = anim_tag.get_anim_fps().unwrap();
        let anim = Animation::new(anim_tag, anim_fps);
        self.current_anim_tag = anim_tag;
        self.current_anim = anim;
        ecs.set_component::<Animation>(entity_id, anim);
    }
}

/// An animation state machine swaps its animation exactly once per change of
/// state: driven from state A to a different state B it takes B and a fresh
/// animation for B, and a further tick while the state is still B changes
/// nothing.
pub proof fn lemma_swap_once<State: AnimState>(
    m0: AnimStateMachine<State>,
    e0: ECS,
    m1: AnimStateMachine<State>,
    e1: ECS,
    m2: AnimStateMachine<State>,
    e2: ECS,
    id: int,
    b: State,
)
    requires
        State::kind() != <Animation as Component>::kind(),
        m0.wf(),
        e0.wf(),
        0 <= id < e0.count(),
        e0.component::<State>(id) == Some(b),
        b != m0.state(),
        state_updated(m1, e1, m0, e0, id),
        state_updated(m2, e2, m1, e1, id),
    ensures
        m1.state() == b,
        Some(m1.anim_tag()) == State::machine_anim(m0.machine(), b),
        fresh_anim(m1.anim(), m1.anim_tag()),
        m2 == m1,
        e2 == e1,
{
    lemma_set_other::<Animation, State>(e0, e1, id, m1.anim(), id);
}

impl AnimStateMachine<DinoState> {
    /// Ticks the entity's stored state machine and stores it back.
    pub fn update(ecs: &mut ECS, entity_id: usize)
        requires
            old(ecs).wf(),
            entity_id < old(ecs).count(),
            old(ecs).component::<AnimStateMachine<DinoState>>(entity_id as int) is Some,
            old(ecs).component::<AnimStateMachine<DinoState>>(entity_id as int).unwrap().wf(),
        ensures
            final(ecs).wf(),
            final(ecs).count() == old(ecs).count(),
            final(ecs).keeps_components(*old(ecs)),
            moves_none(*final(ecs), *old(ecs)),
            exists|m1: AnimStateMachine<DinoState>, e1: ECS|
                #[trigger] state_updated(
                    m1,
                    e1,
                    old(ecs).component::<AnimStateMachine<DinoState>>(entity_id as int).unwrap(),
                    *old(ecs),
                    entity_id as int,
                ) && final(ecs).component_set(e1, entity_id as int, m1),
    {
        let mut anim = ecs.get_component::<AnimStateMachine<DinoState>>(entity_id).unwrap();
        anim.update_state(ecs, entity_id);
        let ghost e1 = *ecs;
        proof {
            if e1 == *old(ecs) {
                lemma_keeps_refl(e1);
            } else {
                lemma_set_animation_keeps(*old(ecs), e1, entity_id as int, anim.anim());
            }
        }
        ecs.set_component(entity_id, anim);
        proof {
            lemma_set_machine_keeps(e1, *ecs, entity_id as int, anim);
            lemma_keeps_trans(*old(ecs), e1, *ecs);
            assert forall|e: int| #[trigger] ecs.component::<Collider>(e) == old(ecs).component::<Collider>(e) by {
                if e1 != *old(ecs) {
                    lemma_set_other::<Animation, Collider>(*old(ecs), e1, entity_id as int, anim.anim(), e);
                }
                lemma_set_other::<AnimStateMachine<DinoState>, Collider>(e1, *ecs, entity_id as int, anim, e);
            }
            assert forall|e: int| #[trigger] ecs.component::<Movable>(e) == old(ecs).component::<Movable>(e) by {
                if e1 != *old(ecs) {
                    lemma_set_other::<Animation, Movable>(*old(ecs), e1, entity_id as int, anim.anim(), e);
                }
                lemma_set_other::<AnimStateMachine<DinoState>, Movable>(e1, *ecs, entity_id as int, anim, e);
            }
        }
        assert(state_updated(
            anim,
            e1,
            old(ecs).component::<AnimStateMachine<DinoState>>(entity_id as int).unwrap(),
            *old(ecs),
            entity_id as int,
        ));
    }
}

impl Animation {
    pub fn current_frame(&self) -> (r: usize)
        ensures
            r == self.frame(),
    {
        self.current_frame
    }

    pub fn next_frame_time(&self) -> (r: u64)
        ensures
            r == self.next_update(),
    {
        self.next_frame_upd
    }

    pub fn asset_tag(&self) -> (r: AssetTag)
        ensures
            r == self.tag(),
    {
        self.asset_tag
    }
}

impl<State: AnimState> AnimStateMachine<State> {
    pub fn current_state(&self) -> (r: State)
        ensures
            r == self.state(),
    {
        self.current_state
    }

    pub fn current_anim_tag(&self) -> (r: AssetTag)
        ensures
            r == self.anim_tag(),
    {
        self.current_anim_tag
    }

    pub fn current_anim(&self) -> (r: Animation)
        ensures
            r == self.anim(),
    {
        self.current_anim
    }
}

impl<State: AnimState> AnimStateMachine<State> {
    pub fn is_wf(&self) -> (r: bool)
        ensures
            r == self.wf(),
    {
        if !State::machine_drives(self.asset_tag) {
            return false;
        }
        match State::get_state_machine_anim(self.asset_tag, self.current_state) {
            Some(tag) => tag == self.current_anim_tag && self.current_anim.asset_tag() == self.current_anim_tag,
            None => false,
        }
    }
}

} // verus!
