use vstd::prelude::*;
use crate::collision::{BoundType, Collider};
use crate::ecs::{lemma_keeps_refl, lemma_set_movable_keeps, lemma_set_other, lemma_set_same, moves_only, ECS};
use crate::types_and_constants::{EXTENT_LIMIT, GROUND_Y_COORD, SCREEN_HALF_WIDTH};
use crate::vec2::{mul_add_saturating, saturate, saturate_i128, Vec2};

verus! {

/// Position, velocity and gravity of an entity that moves.
#[derive(Clone, Copy, Debug, PartialEq, Eq, Structural)]
pub struct Movable {
    pub pos: Vec2,
    pub velocity: Vec2,
    pub gravity: Vec2,
    pub on_ground: bool,
    pub ground_check: bool,
}

impl Movable {
    pub fn new(pos: Vec2, velocity: Vec2, gravity: Vec2) -> (r: Movable)
        ensures
            r.pos == pos,
            r.velocity == velocity,
            r.gravity == gravity,
            !r.on_ground,
            !r.ground_check,
    {
        Movable { pos, velocity, gravity, on_ground: false, ground_check: false }
    }

    pub fn ground_check_on(&mut self)
        ensures
            final(self).ground_check,
            final(self).pos == old(self).pos,
            final(self).velocity == old(self).velocity,
            final(self).gravity == old(self).gravity,
            final(self).on_ground == old(self).on_ground,
    {
        self.ground_check = true;
    }

    /// Starts a jump with vertical velocity `vel`; refused (returns false, nothing
    /// changes) unless the entity stands on the ground.
    pub fn jump(&mut self, vel: i64) -> (r: bool)
        ensures
            r == old(self).on_ground,
            !r ==> *final(self) == *old(self),
            r ==> *final(self) == (Movable {
                velocity: Vec2 { x: old(self).velocity.x, y: vel },
                on_ground: false,
                ..*old(self)
            }),
    {
        if !self.on_ground {
            return false;
        }
        self.velocity.y = vel;
        self.on_ground = false;
        true
    }
}

/// Wraps a background tile forward once it has left the screen on the left.
#[derive(Clone, Copy, Debug, PartialEq, Eq, Structural)]
pub struct EndlessScroll {
    width: i64,
}

impl EndlessScroll {
    #[verifier::type_invariant]
    spec fn inv(self) -> bool {
        0 <= self.width <= EXTENT_LIMIT
    }

    pub closed spec fn tile_width(self) -> int {
        self.width as int
    }

    pub fn new(width: i64) -> (r: EndlessScroll)
        requires
            0 <= width <= EXTENT_LIMIT,
        ensures
            r.tile_width() == width,
    {
        EndlessScroll { width }
    }
}

/// One integration step of `dt` milliseconds: velocity gains gravity, then
/// position gains velocity (each coordinate clamped to the range of `i64`).
pub open spec fn integrated(m: Movable, dt: int) -> Movable {
    let vx = saturate(m.velocity.x + m.gravity.x * dt);
    let vy = saturate(m.velocity.y + m.gravity.y * dt);
    let px = saturate(m.pos.x + vx * dt);
    let py = saturate(m.pos.y + vy * dt);
    Movable { pos: Vec2 { x: px as i64, y: py as i64 }, velocity: Vec2 { x: vx as i64, y: vy as i64 }, ..m }
}

/// Lowest point offset of a collider: the offset of its bottom edge.
pub open spec fn lowest_offset(c: Collider) -> int {
    c.bound_offset_of(BoundType::Down).y as int
}

/// If the lowest point of `c` is below the ground line, the entity is put to
/// rest on the ground: lowest point on the line, no vertical velocity.
pub open spec fn ground_clamped(c: Collider, m: Movable) -> Movable {
    let low = lowest_offset(c);
    if m.pos.y + low < GROUND_Y_COORD {
        Movable {
            pos: Vec2 { x: m.pos.x, y: saturate(GROUND_Y_COORD - low) as i64 },
            velocity: Vec2 { x: m.velocity.x, y: 0 },
            on_ground: true,
            ..m
        }
    } else {
        m
    }
}

/// The whole step: integration, then the ground check when the entity asks for
/// it and has a collider.
pub open spec fn stepped(m: Movable, col: Option<Collider>, dt: int) -> Movable {
    let n = integrated(m, dt);
    if m.ground_check && col is Some {
        ground_clamped(col.unwrap(), n)
    } else {
        n
    }
}

impl Movable {
    /// Advances the entity's `Movable` by `dt` milliseconds; an entity without one is left alone.
    pub fn update_pos(ecs: &mut ECS, entity_id: usize, dt: u32)
        requires
            old(ecs).wf(),
            entity_id < old(ecs).count(),
        ensures
            final(ecs).wf(),
            final(ecs).keeps_components(*old(ecs)),
            moves_only(*final(ecs), *old(ecs), entity_id as int),
            old(ecs).component::<Movable>(entity_id as int) is None ==> *final(ecs) == *old(ecs),
            old(ecs).component::<Movable>(entity_id as int) is Some ==> final(ecs).component_set(
                *old(ecs),
                entity_id as int,
                stepped(
                    old(ecs).component::<Movable>(entity_id as int).unwrap(),
                    old(ecs).component::<Collider>(entity_id as int),
                    dt as int,
                ),
            ),
    {
        let new_mov = ecs.get_component::<Movable>(entity_id);
        if new_mov.is_none() {
            proof {
                lemma_keeps_refl(*ecs);
            }
            return;
        }
        let mut new_mov = new_mov.unwrap();
        let check = new_mov.ground_check;
        new_mov.velocity.x = mul_add_saturating(new_mov.velocity.x, new_mov.gravity.x, dt);
        new_mov.velocity.y = mul_add_saturating(new_mov.velocity.y, new_mov.gravity.y, dt);
        new_mov.pos.x = mul_add_saturating(new_mov.pos.x, new_mov.velocity.x, dt);
        new_mov.pos.y = mul_add_saturating(new_mov.pos.y, new_mov.velocity.y, dt);
        if check {
            new_mov = Movable::check_ground_collision(ecs, entity_id, new_mov);
        }
        ecs.set_component::<Movable>(entity_id, new_mov);
        proof {
            lemma_set_movable_keeps(*old(ecs), *ecs, entity_id as int, new_mov);
            assert forall|e: int| #[trigger] ecs.component::<Collider>(e) == old(ecs).component::<Collider>(e) by {
                lemma_set_other::<Movable, Collider>(*old(ecs), *ecs, entity_id as int, new_mov, e);
            }
            assert forall|e: int| e != entity_id ==> #[trigger] ecs.component::<Movable>(e) == old(ecs).component::<Movable>(e) by {
                lemma_set_same::<Movable>(*old(ecs), *ecs, entity_id as int, new_mov, e);
            }
        }
    }

    fn check_ground_collision(ecs: &ECS, entity_id: usize, mov: Movable) -> (r: Movable)
        requires
            ecs.wf(),
            entity_id < ecs.count(),
        ensures
            ecs.component::<Collider>(entity_id as int) is None ==> r == mov,
            ecs.component::<Collider>(entity_id as int) is Some ==> r == ground_clamped(
                ecs.component::<Collider>(entity_id as int).unwrap(),
                mov,
            ),
    {
        let col = ecs.get_component::<Collider>(entity_id);
        if col.is_none() {
            return mov;
        }
        let col = col.unwrap();
        let mut mov = mov;
        let lowest_point_offs = col.get_bound_offset(BoundType::Down).y;
        if (mov.pos.y as i128) + (lowest_point_offs as i128) < GROUND_Y_COORD as i128 {
            mov.pos.y = saturate_i128(GROUND_Y_COORD as i128 - lowest_point_offs as i128);
            mov.velocity.y = 0;
            mov.on_ground = true;
        }
        mov
    }
}

impl EndlessScroll {
    /// Where a tile of this width at `pos_x` is moved: forward by its width
    /// plus the screen width once it has scrolled past the left edge.
    pub open spec fn wrapped_x(self, pos_x: int) -> int {
        if pos_x + self.tile_width() / 2 < -SCREEN_HALF_WIDTH {
            pos_x + self.tile_width() + 2 * SCREEN_HALF_WIDTH
        } else {
            pos_x
        }
    }

    /// Wraps the entity forward when it has left the screen.
    pub fn update(ecs: &mut ECS, entity_id: usize)
        requires
            old(ecs).wf(),
            entity_id < old(ecs).count(),
            old(ecs).component::<Movable>(entity_id as int) is Some,
            old(ecs).component::<EndlessScroll>(entity_id as int) is Some,
        ensures
            final(ecs).wf(),
            final(ecs).keeps_components(*old(ecs)),
            moves_only(*final(ecs), *old(ecs), entity_id as int),
            ({
                let m = old(ecs).component::<Movable>(entity_id as int).unwrap();
                let s = old(ecs).component::<EndlessScroll>(entity_id as int).unwrap();
                if s.wrapped_x(m.pos.x as int) == m.pos.x {
                    *final(ecs) == *old(ecs)
                } else {
                    final(ecs).component_set(
                        *old(ecs),
                        entity_id as int,
                        Movable { pos: Vec2 { x: s.wrapped_x(m.pos.x as int) as i64, y: m.pos.y }, ..m },
                    )
                }
            }),
    {
        let mut mov = ecs.get_component::<Movable>(entity_id).unwrap();
        let scroll = ecs.get_component::<EndlessScroll>(entity_id).unwrap();
        proof {
            use_type_invariant(&scroll);
        }
        if (mov.pos.x as i128) + ((scroll.width / 2) as i128) < -(SCREEN_HALF_WIDTH as i128) {
            mov.pos.x = mov.pos.x + scroll.width + 2 * SCREEN_HALF_WIDTH;
            ecs.set_component(entity_id, mov);
            proof {
                lemma_set_movable_keeps(*old(ecs), *ecs, entity_id as int, mov);
                assert forall|e: int| #[trigger] ecs.component::<Collider>(e) == old(ecs).component::<Collider>(e) by {
                    lemma_set_other::<Movable, Collider>(*old(ecs), *ecs, entity_id as int, mov, e);
                }
                assert forall|e: int| e != entity_id ==> #[trigger] ecs.component::<Movable>(e) == old(ecs).component::<Movable>(e) by {
                    lemma_set_same::<Movable>(*old(ecs), *ecs, entity_id as int, mov, e);
                }
            }
        } else {
            proof {
                lemma_keeps_refl(*ecs);
            }
        }
    }
}

/// At rest on the ground: lowest point of `c` on the ground line, no vertical velocity.
pub open spec fn landed(m: Movable, c: Collider) -> bool {
    &&& m.on_ground
    &&& m.pos.y == GROUND_Y_COORD - lowest_offset(c)
    &&& m.velocity.y == 0
}

/// The entity after `n` steps of `dt` milliseconds with collider `c`.
pub open spec fn fall(m: Movable, c: Collider, dt: int, n: nat) -> Movable
    decreases n,
{
    if n == 0 {
        m
    } else {
        fall(stepped(m, Some(c), dt), c, dt, (n - 1) as nat)
    }
}

/// A landed entity under gravity that does not pull upward stays landed.
pub proof fn lemma_stays_landed(m: Movable, c: Collider, dt: int)
    requires
        landed(m, c),
        m.ground_check,
        m.gravity.y <= 0,
        0 <= dt <= u32::MAX,
        -EXTENT_LIMIT <= lowest_offset(c) <= EXTENT_LIMIT,
    ensures
        landed(stepped(m, Some(c), dt), c),
        stepped(m, Some(c), dt).ground_check,
        stepped(m, Some(c), dt).gravity == m.gravity,
{
    let g = m.gravity.y as int;
    assert(g * dt <= 0) by (nonlinear_arith)
        requires
            g <= 0,
            dt >= 0,
    ;
    assert(g * dt >= -0x8000_0000_0000_0000 * 0x1_0000_0000) by (nonlinear_arith)
        requires
            g >= -0x8000_0000_0000_0000,
            0 <= dt <= u32::MAX,
    ;
    let n = integrated(m, dt);
    let vy = n.velocity.y as int;
    assert(vy <= 0);
    assert(vy * dt <= 0) by (nonlinear_arith)
        requires
            vy <= 0,
            dt >= 0,
    ;
    if vy * dt < 0 {
        assert(n.pos.y < m.pos.y);
    } else {
        if dt > 0 {
            assert(vy == 0) by (nonlinear_arith)
                requires
                    vy * dt == 0,
                    dt > 0,
            ;
        }
        assert(n.pos.y == m.pos.y);
    }
}

/// A landed entity stays landed for any number of further steps.
pub proof fn lemma_landed_forever(m: Movable, c: Collider, dt: int, k: nat)
    requires
        landed(m, c),
        m.ground_check,
        m.gravity.y <= 0,
        0 <= dt <= u32::MAX,
        -EXTENT_LIMIT <= lowest_offset(c) <= EXTENT_LIMIT,
    ensures
        landed(fall(m, c, dt, k), c),
    decreases k,
{
    if k > 0 {
        lemma_stays_landed(m, c, dt);
        lemma_landed_forever(stepped(m, Some(c), dt), c, dt, (k - 1) as nat);
    }
}

/// Ground clamp: an entity with ground check enabled that is moving down
/// under gravity that does not pull upward comes to rest after finitely many
/// steps, with its lowest point exactly on the ground line, `on_ground` set
/// and no vertical velocity, and stays so at every later step. The returned
/// count is such a number of steps.
pub proof fn lemma_ground_clamp_converges(m: Movable, c: Collider, dt: int) -> (n: nat)
    requires
        m.ground_check,
        m.gravity.y <= 0,
        m.velocity.y < 0,
        1 <= dt <= u32::MAX,
        -EXTENT_LIMIT <= lowest_offset(c) <= EXTENT_LIMIT,
    ensures
        forall|k: nat| k >= n ==> landed(#[trigger] fall(m, c, dt, k), c),
    decreases m.pos.y - i64::MIN,
{
    let g = m.gravity.y as int;
    assert(g * dt <= 0) by (nonlinear_arith)
        requires
            g <= 0,
            dt >= 0,
    ;
    let i = integrated(m, dt);
    let vy = i.velocity.y as int;
    assert(vy < 0);
    assert(vy * dt <= -1) by (nonlinear_arith)
        requires
            vy <= -1,
            dt >= 1,
    ;
    assert(vy * dt >= -0x8000_0000_0000_0000 * 0x1_0000_0000) by (nonlinear_arith)
        requires
            vy >= -0x8000_0000_0000_0000,
            1 <= dt <= u32::MAX,
    ;
    let m1 = stepped(m, Some(c), dt);
    if i.pos.y + lowest_offset(c) < GROUND_Y_COORD {
        assert(landed(m1, c));
        assert forall|k: nat| k >= 1 implies landed(#[trigger] fall(m, c, dt, k), c) by {
            lemma_landed_forever(m1, c, dt, (k - 1) as nat);
        }
        1
    } else {
        assert(m1 == i);
        assert(m1.pos.y < m.pos.y);
        let n1 = lemma_ground_clamp_converges(m1, c, dt);
        assert forall|k: nat| k >= n1 + 1 implies landed(#[trigger] fall(m, c, dt, k), c) by {
            assert(fall(m, c, dt, k) == fall(m1, c, dt, (k - 1) as nat));
        }
        n1 + 1
    }
}

/// Ground clamp, also for an entity that starts moving up: under gravity that
/// pulls down it comes to rest on the ground after finitely many steps and
/// stays there; the returned count is such a number of steps.
pub proof fn lemma_ground_clamp_converges_from_any(m: Movable, c: Collider, dt: int) -> (n: nat)
    requires
        m.ground_check,
        m.gravity.y <= 0,
        m.gravity.y < 0 || m.velocity.y < 0,
        1 <= dt <= u32::MAX,
        -EXTENT_LIMIT <= lowest_offset(c) <= EXTENT_LIMIT,
    ensures
        forall|k: nat| k >= n ==> landed(#[trigger] fall(m, c, dt, k), c),
    decreases m.velocity.y - i64::MIN,
{
    if m.velocity.y < 0 {
        lemma_ground_clamp_converges(m, c, dt)
    } else {
        let g = m.gravity.y as int;
        assert(g * dt <= -1) by (nonlinear_arith)
            requires
                g <= -1,
                dt >= 1,
        ;
        assert(g * dt >= -0x8000_0000_0000_0000 * 0x1_0000_0000) by (nonlinear_arith)
            requires
                g >= -0x8000_0000_0000_0000,
                1 <= dt <= u32::MAX,
        ;
        let i = integrated(m, dt);
        let vy = i.velocity.y as int;
        assert(vy < m.velocity.y);
        assert(vy * dt >= -0x8000_0000_0000_0000 * 0x1_0000_0000 && vy * dt <= 0x8000_0000_0000_0000 * 0x1_0000_0000) by (nonlinear_arith)
            requires
                -0x8000_0000_0000_0000 <= vy < 0x8000_0000_0000_0000,
                1 <= dt <= u32::MAX,
        ;
        let m1 = stepped(m, Some(c), dt);
        if i.pos.y + lowest_offset(c) < GROUND_Y_COORD {
            assert(landed(m1, c));
            assert forall|k: nat| k >= 1 implies landed(#[trigger] fall(m, c, dt, k), c) by {
                lemma_landed_forever(m1, c, dt, (k - 1) as nat);
            }
            1
        } else {
            assert(m1 == i);
            let n1 = lemma_ground_clamp_converges_from_any(m1, c, dt);
            assert forall|k: nat| k >= n1 + 1 implies landed(#[trigger] fall(m, c, dt, k), c) by {
                assert(fall(m, c, dt, k) == fall(m1, c, dt, (k - 1) as nat));
            }
            n1 + 1
        }
    }
}

} // verus!
