use vstd::prelude::*;
use crate::collision::{BoundType, Collider};
use crate::ecs::{lemma_keeps_refl, lemma_keeps_trans, lemma_set_movable_keeps, lemma_set_other, lemma_set_ptero_keeps, lemma_set_same, moves_only, ECS};
use crate::movable::Movable;
use crate::types_and_constants::{GROUND_Y_COORD, SCREEN_HALF_WIDTH, UNITS_PER_PIXEL};
use crate::vec2::{add_sat, Vec2};
use oorandom::Rand32;

verus! {

/// Marks the flying obstacle; `needs_update` is set while it is on screen and
/// cleared once a new flight height has been drawn for its next pass.
#[derive(Clone, Copy, Debug, PartialEq, Eq, Structural)]
pub struct Ptero {
    pub needs_update: bool,
}

impl Ptero {
    pub fn new() -> (r: Ptero)
        ensures
            r.needs_update,
    {
        Ptero { needs_update: true }
    }
}

/// The flight height picked by a random `draw`: one of three levels above the ground.
pub open spec fn flight_height(draw: int) -> int {
    GROUND_Y_COORD + (draw % 3) * 40 * UNITS_PER_PIXEL + 35 * UNITS_PER_PIXEL
}

/// `e1` is `e0` after the flying obstacle's tick with random `draw`: while any
/// part of it is on screen it is marked for an update; once it has left, it
/// gets a new height for its next pass, once.
pub open spec fn ptero_updated(e1: ECS, e0: ECS, id: int, draw: int) -> bool {
    let c = e0.component::<Collider>(id).unwrap();
    let m = e0.component::<Movable>(id).unwrap();
    let p = e0.component::<Ptero>(id).unwrap();
    if add_sat(m.pos, c.bound_offset_of(BoundType::Right)).x > -SCREEN_HALF_WIDTH {
        if !p.needs_update {
            e1.component_set(e0, id, Ptero { needs_update: true })
        } else {
            e1 == e0
        }
    } else if !p.needs_update {
        e1 == e0
    } else {
        exists|mid: ECS|
            #[trigger] mid.component_set(e0, id, Ptero { needs_update: false }) && e1.component_set(
                mid,
                id,
                Movable { pos: Vec2 { x: m.pos.x, y: flight_height(draw) as i64 }, ..m },
            )
    }
}

impl Ptero {
    /// The tick given the random `draw` that picks the next flight height.
    pub fn update_with(ecs: &mut ECS, entity_id: usize, draw: u32)
        requires
            old(ecs).wf(),
            entity_id < old(ecs).count(),
            old(ecs).component::<Collider>(entity_id as int) is Some,
            old(ecs).component::<Movable>(entity_id as int) is Some,
            old(ecs).component::<Ptero>(entity_id as int) is Some,
        ensures
            final(ecs).wf(),
            final(ecs).count() == old(ecs).count(),
            final(ecs).keeps_components(*old(ecs)),
            moves_only(*final(ecs), *old(ecs), entity_id as int),
            ptero_updated(*final(ecs), *old(ecs), entity_id as int, draw as int),
    {
        let rightmost_x = ecs.get_component::<Collider>(entity_id).unwrap().get_bound(
            ecs,
            entity_id,
            BoundType::Right,
        ).x;
        let mut ptero = ecs.get_component::<Ptero>(entity_id).unwrap();
        if rightmost_x > -SCREEN_HALF_WIDTH {
            if !ptero.needs_update {
                ptero.needs_update = true;
                ecs.set_component(entity_id, ptero);
                proof {
                    lemma_set_ptero_keeps(*old(ecs), *ecs, entity_id as int, ptero);
                    assert forall|e: int| #[trigger] ecs.component::<Collider>(e) == old(ecs).component::<Collider>(e) by {
                        lemma_set_other::<Ptero, Collider>(*old(ecs), *ecs, entity_id as int, ptero, e);
                    }
                    assert forall|e: int| #[trigger] ecs.component::<Movable>(e) == old(ecs).component::<Movable>(e) by {
                        lemma_set_other::<Ptero, Movable>(*old(ecs), *ecs, entity_id as int, ptero, e);
                    }
                }
            } else {
                proof {
                    lemma_keeps_refl(*ecs);
                }
            }
            return;
        }
        if !ptero.needs_update {
            proof {
                lemma_keeps_refl(*ecs);
            }
            return;
        }
        let mut mov = ecs.get_component::<Movable>(entity_id).unwrap();
        mov.pos.y = GROUND_Y_COORD + ((draw % 3) as i64) * 40 * UNITS_PER_PIXEL + 35 * UNITS_PER_PIXEL;
        ptero.needs_update = false;
        ecs.set_component(entity_id, ptero);
        let ghost mid = *ecs;
        ecs.set_component(entity_id, mov);
        assert(mid.component_set(*old(ecs), entity_id as int, Ptero { needs_update: false }));
        proof {
            lemma_set_ptero_keeps(*old(ecs), mid, entity_id as int, ptero);
            lemma_set_movable_keeps(mid, *ecs, entity_id as int, mov);
            lemma_keeps_trans(*old(ecs), mid, *ecs);
            assert forall|e: int| #[trigger] ecs.component::<Collider>(e) == old(ecs).component::<Collider>(e) by {
                lemma_set_other::<Ptero, Collider>(*old(ecs), mid, entity_id as int, ptero, e);
                lemma_set_other::<Movable, Collider>(mid, *ecs, entity_id as int, mov, e);
            }
            assert forall|e: int| e != entity_id ==> #[trigger] ecs.component::<Movable>(e) == old(ecs).component::<Movable>(e) by {
                lemma_set_other::<Ptero, Movable>(*old(ecs), mid, entity_id as int, ptero, e);
                lemma_set_same::<Movable>(mid, *ecs, entity_id as int, mov, e);
            }
        }
    }

    /// The tick with a fresh random draw from `rng`.
    pub fn update(ecs: &mut ECS, rng: &mut Rand32, entity_id: usize)
        requires
            old(ecs).wf(),
            entity_id < old(ecs).count(),
            old(ecs).component::<Collider>(entity_id as int) is Some,
            old(ecs).component::<Movable>(entity_id as int) is Some,
            old(ecs).component::<Ptero>(entity_id as int) is Some,
        ensures
            final(ecs).wf(),
            final(ecs).count() == old(ecs).count(),
            final(ecs).keeps_components(*old(ecs)),
            moves_only(*final(ecs), *old(ecs), entity_id as int),
            exists|draw: int| 0 <= draw <= u32::MAX && #[trigger] ptero_updated(*final(ecs), *old(ecs), entity_id as int, draw),
    {
        let draw = rng.rand_u32();
        Ptero::update_with(ecs, entity_id, draw);
        assert(ptero_updated(*ecs, *old(ecs), entity_id as int, draw as int));
    }
}

} // verus!
