use vstd::prelude::*;
use crate::collision::{entities_collide, BoundType, Collider};
use crate::ecs::{lemma_keeps_refl, lemma_keeps_trans, lemma_set_other, lemma_set_same, Component, ECS, NUM_COMPONENT_KINDS};
use crate::movable::{stepped, Movable};
use crate::types_and_constants::{
    MAX_SCROLL_SPEED, PTERO_SPEED, SCREEN_HALF_WIDTH, SCROLL_ACCEL, SPAWN_JITTER, START_SCROLL_SPEED,
    TIME_LIMIT,
};
use crate::vec2::{add_sat, saturate, saturate_i128, Vec2};
use oorandom::Rand32;

verus! {

/// One pool slot: the obstacle entity, whether it is on its way across the
/// screen, and how much faster than the scroll speed it moves.
#[derive(Clone, Copy, Debug, PartialEq, Eq, Structural)]
pub struct ObstacleEntry {
    pub id: usize,
    pub active: bool,
    pub additional_speed: i64,
}

impl ObstacleEntry {
    pub fn new(id: usize) -> (r: ObstacleEntry)
        ensures
            r == (ObstacleEntry { id, active: false, additional_speed: 0 }),
    {
        ObstacleEntry { id, active: false, additional_speed: 0 }
    }

    pub fn set_additional_speed(&mut self, new_speed: i64)
        ensures
            *final(self) == (ObstacleEntry { additional_speed: new_speed, ..*old(self) }),
    {
        self.additional_speed = new_speed;
    }
}

/// Number of active slots.
pub open spec fn active_count(s: Seq<ObstacleEntry>) -> nat
    decreases s.len(),
{
    if s.len() == 0 {
        0
    } else {
        active_count(s.drop_last()) + if s.last().active {
            1nat
        } else {
            0nat
        }
    }
}

/// The slot index found by probing forward (wrapping) from `start + i`: the
/// first inactive slot, or `None` if every probed slot is active.
pub open spec fn probe(s: Seq<ObstacleEntry>, start: int, i: int) -> Option<int>
    decreases s.len() - i,
{
    if i >= s.len() || i < 0 {
        None
    } else if !s[(start + i) % (s.len() as int)].active {
        Some((start + i) % (s.len() as int))
    } else {
        probe(s, start, i + 1)
    }
}

/// `s` with slot `k` switched on.
pub open spec fn activated(s: Seq<ObstacleEntry>, k: int) -> Seq<ObstacleEntry> {
    s.update(k, ObstacleEntry { active: true, ..s[k] })
}

/// The entity ids of the slots are pairwise distinct.
pub open spec fn distinct_ids(s: Seq<ObstacleEntry>) -> bool {
    forall|i: int, j: int| 0 <= i < j < s.len() ==> #[trigger] s[i].id != #[trigger] s[j].id
}

pub proof fn lemma_active_count_bounded(s: Seq<ObstacleEntry>)
    ensures
        active_count(s) <= s.len(),
    decreases s.len(),
{
    if s.len() > 0 {
        lemma_active_count_bounded(s.drop_last());
    }
}

pub proof fn lemma_active_count_update(s: Seq<ObstacleEntry>, k: int, e: ObstacleEntry)
    requires
        0 <= k < s.len(),
    ensures
        active_count(s.update(k, e)) + (if s[k].active { 1int } else { 0int }) == active_count(s) + (
        if e.active {
            1int
        } else {
            0int
        }),
    decreases s.len(),
{
    if k < s.len() - 1 {
        assert(s.update(k, e).drop_last() =~= s.drop_last().update(k, e));
        lemma_active_count_update(s.drop_last(), k, e);
    } else {
        assert(s.update(k, e).drop_last() =~= s.drop_last());
    }
}

pub proof fn lemma_probe_finds_inactive(s: Seq<ObstacleEntry>, start: int, i: int)
    requires
        0 <= start,
        0 <= i,
    ensures
        probe(s, start, i) is Some ==> {
            let k = probe(s, start, i).unwrap();
            0 <= k < s.len() && !s[k].active
        },
    decreases s.len() - i,
{
    if i < s.len() && s[(start + i) % (s.len() as int)].active {
        lemma_probe_finds_inactive(s, start, i + 1);
    }
}

/// The pool of obstacle slots. Its length is fixed once the game is set up;
/// spawning and despawning only switch `active`.
pub struct ObstaclePool {
    obstacles: Vec<ObstacleEntry>,
}

impl View for ObstaclePool {
    type V = Seq<ObstacleEntry>;

    closed spec fn view(&self) -> Seq<ObstacleEntry> {
        self.obstacles@
    }
}

/// Pool invariant: at any time the number of active slots is at most the
/// number of slots, and an activation switches on a slot that was inactive
/// (so no slot is activated twice without a deactivation in between).
pub proof fn lemma_pool_invariant(before: Seq<ObstacleEntry>, start: int)
    requires
        0 <= start,
    ensures
        active_count(before) <= before.len(),
        probe(before, start, 0) is Some ==> {
            let k = probe(before, start, 0).unwrap();
            &&& !before[k].active
            &&& activated(before, k)[k].active
            &&& active_count(activated(before, k)) == active_count(before) + 1
            &&& active_count(activated(before, k)) <= before.len()
        },
{
    lemma_active_count_bounded(before);
    lemma_probe_finds_inactive(before, start, 0);
    if probe(before, start, 0) is Some {
        let k = probe(before, start, 0).unwrap();
        lemma_active_count_update(before, k, ObstacleEntry { active: true, ..before[k] });
        lemma_active_count_bounded(activated(before, k));
    }
}

impl ObstaclePool {
    pub fn new() -> (r: ObstaclePool)
        ensures
            r@ == Seq::<ObstacleEntry>::empty(),
    {
        ObstaclePool { obstacles: Vec::new() }
    }

    pub fn with_capacity(capacity: usize) -> (r: ObstaclePool)
        ensures
            r@ == Seq::<ObstacleEntry>::empty(),
    {
        ObstaclePool { obstacles: Vec::with_capacity(capacity) }
    }

    pub fn add_cactus(&mut self, id: usize)
        ensures
            final(self)@ == old(self)@.push(ObstacleEntry { id, active: false, additional_speed: 0 }),
    {
        self.obstacles.push(ObstacleEntry::new(id));
    }

    pub fn add_ptero(&mut self, id: usize)
        ensures
            final(self)@ == old(self)@.push(
                ObstacleEntry { id, active: false, additional_speed: PTERO_SPEED },
            ),
    {
        let mut entry = ObstacleEntry::new(id);
        entry.set_additional_speed(PTERO_SPEED);
        self.obstacles.push(entry);
    }

    /// Switches on the first inactive slot probing forward (wrapping) from
    /// `start`, and returns its entity; `None`, with nothing changed, if every
    /// slot is active.
    pub fn activate_from(&mut self, start: usize) -> (r: Option<usize>)
        ensures
            probe(old(self)@, start as int, 0) is None ==> r is None && final(self)@ == old(self)@,
            probe(old(self)@, start as int, 0) is Some ==> {
                let k = probe(old(self)@, start as int, 0).unwrap();
                &&& r == Some(old(self)@[k].id)
                &&& final(self)@ == activated(old(self)@, k)
            },
    {
        let len = self.obstacles.len();
        let mut i: usize = 0;
        while i < len
            invariant
                len == self.obstacles@.len(),
                self.obstacles@ == old(self)@,
                i <= len,
                probe(old(self)@, start as int, 0) == probe(old(self)@, start as int, i as int),
            decreases len - i,
        {
            let s0 = start % len;
            let ind = if s0 >= len - i {
                s0 - (len - i)
            } else {
                s0 + i
            };
            assert(ind as int == (start as int + i as int) % (len as int)) by {
                vstd::arithmetic::div_mod::lemma_add_mod_noop(start as int, i as int, len as int);
                vstd::arithmetic::div_mod::lemma_small_mod(i as nat, len as nat);
                if s0 >= len - i {
                    vstd::arithmetic::div_mod::lemma_mod_sub_multiples_vanish(s0 as int + i as int, len as int);
                    vstd::arithmetic::div_mod::lemma_small_mod((s0 as int + i as int - len as int) as nat, len as nat);
                } else {
                    vstd::arithmetic::div_mod::lemma_small_mod((s0 + i) as nat, len as nat);
                }
            }
            if !self.obstacles[ind].active {
                self.obstacles[ind].active = true;
                assert(self.obstacles@ =~= activated(old(self)@, ind as int));
                return Some(self.obstacles[ind].id);
            }
            i = i + 1;
        }
        None
    }

    /// Switches off every slot of entity `id`.
    pub fn deactivate(&mut self, id: usize)
        ensures
            final(self)@.len() == old(self)@.len(),
            forall|i: int|
                0 <= i < old(self)@.len() ==> #[trigger] final(self)@[i] == if old(self)@[i].id == id {
                    ObstacleEntry { active: false, ..old(self)@[i] }
                } else {
                    old(self)@[i]
                },
    {
        let mut i: usize = 0;
        while i < self.obstacles.len()
            invariant
                i <= self.obstacles@.len(),
                self.obstacles@.len() == old(self)@.len(),
                forall|j: int|
                    0 <= j < i ==> #[trigger] self.obstacles@[j] == if old(self)@[j].id == id {
                        ObstacleEntry { active: false, ..old(self)@[j] }
                    } else {
                        old(self)@[j]
                    },
                forall|j: int| i <= j < self.obstacles@.len() ==> #[trigger] self.obstacles@[j] == old(self)@[j],
            decreases self.obstacles@.len() - i,
        {
            if self.obstacles[i].id == id {
                self.obstacles[i].active = false;
            }
            i = i + 1;
        }
    }

    pub fn deactivate_all(&mut self)
        ensures
            final(self)@.len() == old(self)@.len(),
            forall|i: int|
                0 <= i < old(self)@.len() ==> #[trigger] final(self)@[i] == (ObstacleEntry {
                    active: false,
                    ..old(self)@[i]
                }),
    {
        let mut i: usize = 0;
        while i < self.obstacles.len()
            invariant
                i <= self.obstacles@.len(),
                self.obstacles@.len() == old(self)@.len(),
                forall|j: int|
                    0 <= j < i ==> #[trigger] self.obstacles@[j] == (ObstacleEntry {
                        active: false,
                        ..old(self)@[j]
                    }),
                forall|j: int| i <= j < self.obstacles@.len() ==> #[trigger] self.obstacles@[j] == old(self)@[j],
            decreases self.obstacles@.len() - i,
        {
            self.obstacles[i].active = false;
            i = i + 1;
        }
    }
}

/// The scroll speed after `dt` more milliseconds: it grows linearly and stops at the maximum.
pub open spec fn ramped_speed(speed: int, dt: int) -> int {
    if speed + dt * SCROLL_ACCEL / 1000 > MAX_SCROLL_SPEED {
        MAX_SCROLL_SPEED as int
    } else {
        speed + dt * SCROLL_ACCEL / 1000
    }
}

/// The scroll speed never exceeds its maximum, and every tick of positive
/// length raises it while it is below the maximum.
pub proof fn lemma_speed_ramp(speed: int, dt: int)
    requires
        START_SCROLL_SPEED <= speed <= MAX_SCROLL_SPEED,
        dt >= 1,
    ensures
        START_SCROLL_SPEED <= ramped_speed(speed, dt) <= MAX_SCROLL_SPEED,
        speed < MAX_SCROLL_SPEED ==> ramped_speed(speed, dt) > speed,
        speed == MAX_SCROLL_SPEED ==> ramped_speed(speed, dt) == MAX_SCROLL_SPEED,
{
    assert(dt * SCROLL_ACCEL >= SCROLL_ACCEL) by (nonlinear_arith)
        requires
            dt >= 1,
    ;
}


/// The collider of entity `id` has scrolled fully past the left screen edge.
pub open spec fn offscreen(ecs: ECS, id: int) -> bool {
    add_sat(
        ecs.component::<Movable>(id).unwrap().pos,
        ecs.component::<Collider>(id).unwrap().bound_offset_of(BoundType::Right),
    ).x < -SCREEN_HALF_WIDTH
}

/// A slot after one tick: an active slot whose obstacle has left the screen is switched off.
pub open spec fn advanced_entry(s: ObstacleEntry, ecs: ECS) -> ObstacleEntry {
    if s.active && offscreen(ecs, s.id as int) {
        ObstacleEntry { active: false, ..s }
    } else {
        s
    }
}

/// Slot `j` is active and its obstacle still on screen, so it moves this tick.
pub open spec fn keeps_moving(slots: Seq<ObstacleEntry>, ecs: ECS, j: int) -> bool {
    slots[j].active && !offscreen(ecs, slots[j].id as int)
}

/// Entity `e` is the obstacle of a moving slot among the first `n`.
pub open spec fn moved_by(slots: Seq<ObstacleEntry>, ecs: ECS, e: int, n: int) -> bool {
    exists|j: int| 0 <= j < n && slots[j].id == e && #[trigger] keeps_moving(slots, ecs, j)
}

/// The `Movable` of entity `e` once the first `n` slots have been advanced by `dt`.
pub open spec fn advanced_movable(slots: Seq<ObstacleEntry>, ecs: ECS, e: int, n: int, dt: int) -> Option<
    Movable,
> {
    if moved_by(slots, ecs, e, n) {
        Some(stepped(ecs.component::<Movable>(e).unwrap(), ecs.component::<Collider>(e), dt))
    } else {
        ecs.component::<Movable>(e)
    }
}

/// `e1` differs from `e0` at most in `Movable` components.
pub open spec fn only_movables_changed(e1: ECS, e0: ECS) -> bool {
    &&& e1.wf()
    &&& e1.count() == e0.count()
    &&& forall|k: int|
        0 <= k < NUM_COMPONENT_KINDS && k != <Movable as Component>::kind() ==> #[trigger] e1.table(k)
            == e0.table(k)
    &&& (e1.table(<Movable as Component>::kind()) is Some <==> e0.table(<Movable as Component>::kind()) is Some)
}

proof fn lemma_moved_by_step(slots: Seq<ObstacleEntry>, ecs: ECS, e: int, i: int)
    requires
        0 <= i,
    ensures
        moved_by(slots, ecs, e, i + 1) == (moved_by(slots, ecs, e, i) || (slots[i].id == e
            && keeps_moving(slots, ecs, i))),
{
    if moved_by(slots, ecs, e, i + 1) {
        let j = choose|j: int| 0 <= j < i + 1 && slots[j].id == e && #[trigger] keeps_moving(slots, ecs, j);
        if j < i {
            assert(moved_by(slots, ecs, e, i));
        }
    }
    if slots[i].id == e && keeps_moving(slots, ecs, i) {
        assert(moved_by(slots, ecs, e, i + 1));
    }
    if moved_by(slots, ecs, e, i) {
        let j = choose|j: int| 0 <= j < i && slots[j].id == e && #[trigger] keeps_moving(slots, ecs, j);
        assert(moved_by(slots, ecs, e, i + 1));
    }
}


/// The horizontal velocity that a speed update gives entity `e` at scroll
/// speed `v`: obstacles move at `v` plus their bias, background entities at
/// `v`, others keep theirs.
pub open spec fn speed_target(slots: Seq<ObstacleEntry>, movables: Seq<usize>, e: int, v: int) -> Option<int> {
    if exists|i: int| 0 <= i < slots.len() && #[trigger] slots[i].id == e {
        let i = choose|i: int| 0 <= i < slots.len() && #[trigger] slots[i].id == e;
        Some(-(v + slots[i].additional_speed))
    } else if exists|a: int| 0 <= a < movables.len() && #[trigger] movables[a] == e {
        Some(-v)
    } else {
        None
    }
}

/// `m` with its horizontal velocity replaced by `t`, if given.
pub open spec fn retargeted(m: Movable, t: Option<int>) -> Movable {
    match t {
        Some(v) => Movable { velocity: Vec2 { x: v as i64, y: m.velocity.y }, ..m },
        None => m,
    }
}

/// The slot that a spawn with random `draw` switches on: the first inactive
/// one probing from `draw` modulo the pool size.
pub open spec fn spawn_slot(slots: Seq<ObstacleEntry>, draw: int) -> Option<int> {
    if slots.len() == 0 {
        None
    } else {
        probe(slots, draw % (slots.len() as int), 0)
    }
}

/// Where a spawned obstacle is placed: its left edge flush with the right screen edge.
pub open spec fn spawn_x(c: Collider) -> int {
    saturate(SCREEN_HALF_WIDTH - c.bound_offset_of(BoundType::Left).x)
}

/// The `Movable` of entity `e` after a spawn into slot `k` of `m`; `slots`
/// are the slots after the activation.
pub open spec fn spawned_movable(
    m: ObstacleManager,
    ecs: ECS,
    k: Option<int>,
    slots: Seq<ObstacleEntry>,
    e: int,
) -> Option<Movable> {
    match ecs.component::<Movable>(e) {
        Some(mv) => {
            let placed = if k is Some && m.slots()[k.unwrap()].id == e {
                Movable {
                    pos: Vec2 { x: spawn_x(ecs.component::<Collider>(e).unwrap()) as i64, y: mv.pos.y },
                    ..mv
                }
            } else {
                mv
            };
            Some(retargeted(placed, speed_target(slots, m.movables(), e, m.speed())))
        },
        None => None,
    }
}

/// `(m1, e1)` is `(m0, e0)` after a spawn check at `time` with random `draw` and `jitter`.
pub open spec fn spawned(
    m1: ObstacleManager,
    e1: ECS,
    m0: ObstacleManager,
    e0: ECS,
    draw: int,
    jitter: int,
    time: int,
) -> bool {
    if time < m0.next_spawn() {
        m1 == m0 && e1 == e0
    } else {
        let k = spawn_slot(m0.slots(), draw);
        &&& m1.slots() == match k {
            Some(k) => activated(m0.slots(), k),
            None => m0.slots(),
        }
        &&& m1.next_spawn() == time + m0.delay() + jitter
        &&& m1.delay() == m0.delay()
        &&& m1.movables() == m0.movables()
        &&& m1.speed() == m0.speed()
        &&& only_movables_changed(e1, e0)
        &&& forall|e: int| 0 <= e < e0.count() ==> #[trigger] e1.component::<Movable>(e) == spawned_movable(m0, e0, k, m1.slots(), e)
    }
}

/// Slot `i` is active, its obstacle is at `pos`, and no active slot is further
/// left (none before `i` as far left).
pub open spec fn nearest_slot(m: ObstacleManager, ecs: ECS, i: int, pos: Vec2) -> bool {
    &&& 0 <= i < m.slots().len()
    &&& m.slots()[i].active
    &&& ecs.component::<Movable>(m.slots()[i].id as int) == Some(
        Movable { pos, ..ecs.component::<Movable>(m.slots()[i].id as int).unwrap() },
    )
    &&& forall|j: int|
        0 <= j < m.slots().len() && (#[trigger] m.slots()[j]).active ==> {
            let xj = ecs.component::<Movable>(m.slots()[j].id as int).unwrap().pos.x;
            &&& pos.x <= xj
            &&& j < i ==> pos.x < xj
        }
}

/// `(mf, ef)` is `(m0, e0)` after one `update` at `time` of length `dt`:
/// active slots advanced, a spawn check with some random draw and jitter,
/// then the speed ramp.
pub open spec fn updated(mf: ObstacleManager, ef: ECS, m0: ObstacleManager, e0: ECS, time: int, dt: int) -> bool {
            exists|m1: ObstacleManager, e1: ECS, m2: ObstacleManager, draw: int, jitter: int|
                {
                    &&& m1.same_settings(m0)
                    &&& m1.slots().len() == m0.slots().len()
                    &&& (forall|i: int|
                        0 <= i < m0.slots().len() ==> #[trigger] m1.slots()[i] == advanced_entry(
                            m0.slots()[i],
                            e0,
                        ))
                    &&& only_movables_changed(e1, e0)
                    &&& (forall|e: int|
                        0 <= e < e0.count() ==> #[trigger] e1.component::<Movable>(e)
                            == advanced_movable(
                            m0.slots(),
                            e0,
                            e,
                            m0.slots().len() as int,
                            dt,
                        ))
                    &&& 0 <= draw <= u32::MAX
                    &&& 0 <= jitter < SPAWN_JITTER
                    &&& #[trigger] spawned(m2, ef, m1, e1, draw, jitter, time)
                    &&& mf.slots() == m2.slots()
                    &&& mf.delay() == m2.delay()
                    &&& mf.next_spawn() == m2.next_spawn()
                    &&& mf.movables() == m2.movables()
                    &&& mf.speed() == ramped_speed(m2.speed(), dt)
                }
}

/// Entity `e` is neither an obstacle of `m` nor one of its background entities.
pub open spec fn unmanaged(m: ObstacleManager, e: int) -> bool {
    &&& forall|i: int| 0 <= i < m.slots().len() ==> #[trigger] m.slots()[i].id != e
    &&& forall|a: int| 0 <= a < m.movables().len() ==> #[trigger] m.movables()[a] != e
}

/// A store that differs only in `Movable` values, none of them removed, keeps every component.
pub proof fn lemma_only_movables_keeps(e0: ECS, e1: ECS)
    requires
        e0.wf(),
        only_movables_changed(e1, e0),
        forall|e: int|
            0 <= e < e0.count() && e0.component::<Movable>(e) is Some ==> (#[trigger] e1.component::<Movable>(e)) is Some,
    ensures
        e1.keeps_components(e0),
{
    assert(e1.table(1) == e0.table(1));
    assert(e1.table(2) == e0.table(2));
    assert(e1.table(3) == e0.table(3));
    assert(e1.table(4) == e0.table(4));
    assert(e1.table(5) == e0.table(5));
    assert(e1.table(6) == e0.table(6));
    assert(e1.table(7) == e0.table(7));
    assert(e1.table(8) == e0.table(8));
    assert(e1.table(9) == e0.table(9));
}

/// Spawns obstacles from the pool, moves the active ones, and ramps up the scroll speed.
pub struct ObstacleManager {
    pool: ObstaclePool,
    delay: u64,
    next_spawn_time: u64,
    movable_ids: Vec<usize>,
    scroll_speed: i64,
}

impl ObstacleManager {
    pub closed spec fn slots(self) -> Seq<ObstacleEntry> {
        self.pool@
    }

    /// Base delay between spawns, in milliseconds.
    pub closed spec fn delay(self) -> nat {
        self.delay as nat
    }

    /// Time from which the next spawn is due.
    pub closed spec fn next_spawn(self) -> nat {
        self.next_spawn_time as nat
    }

    /// Background entities that scroll at the base speed.
    pub closed spec fn movables(self) -> Seq<usize> {
        self.movable_ids@
    }

    pub closed spec fn speed(self) -> int {
        self.scroll_speed as int
    }

    pub open spec fn wf(self) -> bool {
        &&& self.delay() < TIME_LIMIT
        &&& START_SCROLL_SPEED <= self.speed() <= MAX_SCROLL_SPEED
        &&& distinct_ids(self.slots())
        &&& forall|i: int|
            0 <= i < self.slots().len() ==> 0 <= #[trigger] self.slots()[i].additional_speed
                <= PTERO_SPEED
    }

    /// Every entity that the manager moves exists in `ecs` with the components it reads.
    pub open spec fn ready(self, ecs: ECS) -> bool {
        &&& ecs.wf()
        &&& forall|i: int|
            0 <= i < self.slots().len() ==> {
                let id = #[trigger] self.slots()[i].id;
                &&& id < ecs.count()
                &&& ecs.component::<Movable>(id as int) is Some
                &&& ecs.component::<Collider>(id as int) is Some
            }
        &&& forall|i: int|
            0 <= i < self.movables().len() ==> {
                let id = #[trigger] self.movables()[i];
                &&& id < ecs.count()
                &&& ecs.component::<Movable>(id as int) is Some
            }
    }

    /// Every slot's entity exists in `ecs`.
    pub open spec fn ids_exist(self, ecs: ECS) -> bool {
        forall|i: int| 0 <= i < self.slots().len() ==> #[trigger] self.slots()[i].id < ecs.count()
    }

    /// Everything but the slots is as in `other`.
    pub open spec fn same_settings(self, other: ObstacleManager) -> bool {
        &&& self.delay() == other.delay()
        &&& self.next_spawn() == other.next_spawn()
        &&& self.movables() == other.movables()
        &&& self.speed() == other.speed()
    }

    pub fn new(delay: u64, movable_ids: Vec<usize>) -> (r: ObstacleManager)
        requires
            delay < TIME_LIMIT,
        ensures
            r.wf(),
            r.slots() == Seq::<ObstacleEntry>::empty(),
            r.delay() == delay,
            r.next_spawn() == 0,
            r.movables() == movable_ids@,
            r.speed() == START_SCROLL_SPEED,
    {
        ObstacleManager {
            pool: ObstaclePool::new(),
            delay,
            next_spawn_time: 0,
            movable_ids,
            scroll_speed: START_SCROLL_SPEED,
        }
    }

    pub fn with_capacity(capacity: usize, delay: u64, movable_ids: Vec<usize>) -> (r: ObstacleManager)
        requires
            delay < TIME_LIMIT,
        ensures
            r.wf(),
            r.slots() == Seq::<ObstacleEntry>::empty(),
            r.delay() == delay,
            r.next_spawn() == 0,
            r.movables() == movable_ids@,
            r.speed() == START_SCROLL_SPEED,
    {
        ObstacleManager {
            pool: ObstaclePool::with_capacity(capacity),
            delay,
            next_spawn_time: 0,
            movable_ids,
            scroll_speed: START_SCROLL_SPEED,
        }
    }

    /// Whether `id` already has a slot.
    pub fn has_slot(&self, id: usize) -> (r: bool)
        ensures
            r == exists|i: int| 0 <= i < self.slots().len() && #[trigger] self.slots()[i].id == id,
    {
        let mut i: usize = 0;
        while i < self.pool.obstacles.len()
            invariant
                i <= self.pool.obstacles@.len(),
                forall|j: int| 0 <= j < i ==> #[trigger] self.slots()[j].id != id,
            decreases self.pool.obstacles@.len() - i,
        {
            if self.pool.obstacles[i].id == id {
                assert(self.slots()[i as int].id == id);
                return true;
            }
            i = i + 1;
        }
        false
    }

    /// Gives a ground obstacle entity a slot.
    pub fn add_cactus(&mut self, id: usize)
        requires
            old(self).wf(),
            forall|i: int| 0 <= i < old(self).slots().len() ==> #[trigger] old(self).slots()[i].id != id,
        ensures
            final(self).wf(),
            final(self).slots() == old(self).slots().push(
                ObstacleEntry { id, active: false, additional_speed: 0 },
            ),
            final(self).same_settings(*old(self)),
    {
        self.pool.add_cactus(id);
    }

    /// Gives a flying obstacle entity a slot; it moves faster than the scroll speed.
    pub fn add_ptero(&mut self, id: usize)
        requires
            old(self).wf(),
            forall|i: int| 0 <= i < old(self).slots().len() ==> #[trigger] old(self).slots()[i].id != id,
        ensures
            final(self).wf(),
            final(self).slots() == old(self).slots().push(
                ObstacleEntry { id, active: false, additional_speed: PTERO_SPEED },
            ),
            final(self).same_settings(*old(self)),
    {
        self.pool.add_ptero(id);
    }

    pub fn deactivate_all(&mut self)
        requires
            old(self).wf(),
        ensures
            final(self).wf(),
            final(self).slots().len() == old(self).slots().len(),
            forall|i: int|
                0 <= i < old(self).slots().len() ==> #[trigger] final(self).slots()[i] == (
                ObstacleEntry { active: false, ..old(self).slots()[i] }),
            final(self).same_settings(*old(self)),
    {
        self.pool.deactivate_all();
        assert forall|i: int, j: int| 0 <= i < j < self.slots().len() implies #[trigger] self.slots()[i].id != #[trigger] self.slots()[j].id by {
            assert(old(self).slots()[i].id != old(self).slots()[j].id);
        }
    }

    /// Back to the start of a run: every slot inactive, scroll speed at its
    /// start value, next spawn due at once.
    pub fn restart(&mut self)
        requires
            old(self).wf(),
        ensures
            final(self).wf(),
            final(self).slots().len() == old(self).slots().len(),
            forall|i: int|
                0 <= i < old(self).slots().len() ==> #[trigger] final(self).slots()[i] == (
                ObstacleEntry { active: false, ..old(self).slots()[i] }),
            forall|i: int| 0 <= i < final(self).slots().len() ==> !(#[trigger] final(self).slots()[i]).active,
            final(self).speed() == START_SCROLL_SPEED,
            final(self).next_spawn() == 0,
            final(self).delay() == old(self).delay(),
            final(self).movables() == old(self).movables(),
    {
        self.deactivate_all();
        self.scroll_speed = START_SCROLL_SPEED;
        self.next_spawn_time = 0;
    }

    fn update_scroll_speed(&mut self, dt: u32)
        requires
            old(self).wf(),
        ensures
            final(self).wf(),
            final(self).speed() == ramped_speed(old(self).speed(), dt as int),
            final(self).slots() == old(self).slots(),
            final(self).delay() == old(self).delay(),
            final(self).next_spawn() == old(self).next_spawn(),
            final(self).movables() == old(self).movables(),
    {
        let grown = (dt as i64) * SCROLL_ACCEL / 1000;
        if self.scroll_speed + grown > MAX_SCROLL_SPEED {
            self.scroll_speed = MAX_SCROLL_SPEED;
        } else {
            self.scroll_speed = self.scroll_speed + grown;
        }
    }

    pub fn get_speed(&self) -> (r: i64)
        ensures
            r == self.speed(),
    {
        self.scroll_speed
    }

    pub fn ids(&self) -> (r: Vec<usize>)
        ensures
            r@.len() == self.slots().len(),
            forall|i: int| 0 <= i < r@.len() ==> #[trigger] r@[i] == self.slots()[i].id,
    {
        let mut res: Vec<usize> = Vec::with_capacity(self.pool.obstacles.len());
        let mut i: usize = 0;
        while i < self.pool.obstacles.len()
            invariant
                i <= self.pool.obstacles@.len(),
                res@.len() == i,
                forall|j: int| 0 <= j < i ==> #[trigger] res@[j] == self.slots()[j].id,
            decreases self.pool.obstacles@.len() - i,
        {
            res.push(self.pool.obstacles[i].id);
            i = i + 1;
        }
        res
    }

    pub fn id(&self, ind: usize) -> (r: usize)
        requires
            ind < self.slots().len(),
        ensures
            r == self.slots()[ind as int].id,
    {
        self.pool.obstacles[ind].id
    }

    /// Whether entity `entity_id` collides with the obstacle of some active slot.
    pub fn check_collision(&self, ecs: &ECS, entity_id: usize) -> (r: bool)
        requires
            ecs.wf(),
            self.ids_exist(*ecs),
            entity_id < ecs.count(),
        ensures
            r == exists|i: int|
                0 <= i < self.slots().len() && self.slots()[i].active && #[trigger] entities_collide(
                    *ecs,
                    entity_id as int,
                    self.slots()[i].id as int,
                ),
    {
        let mut i: usize = 0;
        while i < self.pool.obstacles.len()
            invariant
                ecs.wf(),
                self.ids_exist(*ecs),
                entity_id < ecs.count(),
                i <= self.pool.obstacles@.len(),
                forall|j: int|
                    0 <= j < i && self.slots()[j].active ==> !#[trigger] entities_collide(
                        *ecs,
                        entity_id as int,
                        self.slots()[j].id as int,
                    ),
            decreases self.pool.obstacles@.len() - i,
        {
            let entry = self.pool.obstacles[i];
            assert(entry.id < ecs.count()) by {
                assert(self.slots()[i as int].id == entry.id);
            }
            if entry.active {
                if Collider::check_entity_collision(ecs, entity_id, entry.id) {
                    return true;
                }
            }
            i = i + 1;
        }
        false
    }
}

impl ObstacleManager {
    /// One tick for the active slots: a slot whose obstacle has scrolled off
    /// the left edge is switched off, every other active obstacle is moved.
    pub fn advance(&mut self, ecs: &mut ECS, dt: u32)
        requires
            old(self).wf(),
            old(self).ready(*old(ecs)),
        ensures
            final(self).wf(),
            final(self).same_settings(*old(self)),
            final(self).slots().len() == old(self).slots().len(),
            forall|i: int|
                0 <= i < old(self).slots().len() ==> #[trigger] final(self).slots()[i]
                    == advanced_entry(old(self).slots()[i], *old(ecs)),
            only_movables_changed(*final(ecs), *old(ecs)),
            forall|e: int|
                0 <= e < old(ecs).count() ==> #[trigger] final(ecs).component::<Movable>(e)
                    == advanced_movable(
                    old(self).slots(),
                    *old(ecs),
                    e,
                    old(self).slots().len() as int,
                    dt as int,
                ),
            final(self).ready(*final(ecs)),
            final(ecs).keeps_components(*old(ecs)),
            forall|e: int|
                0 <= e < old(ecs).count() && unmanaged(*old(self), e) ==> #[trigger] final(ecs).component::<Movable>(e)
                    == old(ecs).component::<Movable>(e),
    {
        let ghost slots0 = old(self).slots();
        let ghost ecs0 = *old(ecs);
        let len = self.pool.obstacles.len();
        let mut i: usize = 0;
        while i < len
            invariant
                old(self).wf(),
                old(self).ready(ecs0),
                slots0 == old(self).slots(),
                ecs0 == *old(ecs),
                len == slots0.len(),
                i <= len,
                self.slots().len() == len,
                self.same_settings(*old(self)),
                self.delay < TIME_LIMIT,
                START_SCROLL_SPEED <= self.scroll_speed <= MAX_SCROLL_SPEED,
                forall|j: int| 0 <= j < i ==> #[trigger] self.slots()[j] == advanced_entry(slots0[j], ecs0),
                forall|j: int| i <= j < len ==> #[trigger] self.slots()[j] == slots0[j],
                only_movables_changed(*ecs, ecs0),
                forall|e: int|
                    0 <= e < ecs0.count() ==> #[trigger] ecs.component::<Movable>(e) == advanced_movable(
                        slots0,
                        ecs0,
                        e,
                        i as int,
                        dt as int,
                    ),
            decreases len - i,
        {
            let entry = self.pool.obstacles[i];
            assert(entry == slots0[i as int]);
            let ghost id_i = entry.id as int;
            proof {
                assert(0 <= id_i < ecs0.count());
                assert(ecs0.component::<Movable>(id_i) is Some);
                assert(ecs0.component::<Collider>(id_i) is Some);
                assert(!moved_by(slots0, ecs0, id_i, i as int)) by {
                    if moved_by(slots0, ecs0, id_i, i as int) {
                        let j = choose|j: int| 0 <= j < i && slots0[j].id == id_i && #[trigger] keeps_moving(slots0, ecs0, j);
                        assert(slots0[j].id != slots0[i as int].id);
                    }
                }
                assert(ecs.component::<Movable>(id_i) == ecs0.component::<Movable>(id_i));
                assert(ecs.table(<Collider as Component>::kind()) == ecs0.table(<Collider as Component>::kind()));
                assert(ecs.component::<Collider>(id_i) == ecs0.component::<Collider>(id_i));
                assert forall|e: int| 0 <= e < ecs0.count() implies moved_by(slots0, ecs0, e, i as int + 1) == (moved_by(slots0, ecs0, e, i as int) || (slots0[i as int].id == e && keeps_moving(slots0, ecs0, i as int))) by {
                    lemma_moved_by_step(slots0, ecs0, e, i as int);
                }
            }
            if entry.active {
                let id = entry.id;
                let col = ecs.get_component::<Collider>(id).unwrap();
                let right_bound = col.get_bound(ecs, id, BoundType::Right).x;
                if right_bound < -SCREEN_HALF_WIDTH {
                    let ghost before = self.slots();
                    self.pool.deactivate(id);
                    proof {
                        assert forall|j: int| 0 <= j < len && j != i implies #[trigger] self.slots()[j] == before[j] by {
                            assert(slots0[j].id != slots0[i as int].id);
                            if j < i {
                                assert(before[j] == advanced_entry(slots0[j], ecs0));
                            }
                        }
                    }
                } else {
                    let ghost prev = *ecs;
                    Movable::update_pos(ecs, id, dt);
                    proof {
                        assert forall|e: int| 0 <= e < ecs0.count() implies #[trigger] ecs.component::<Movable>(e) == advanced_movable(slots0, ecs0, e, i as int + 1, dt as int) by {
                            lemma_set_same::<Movable>(prev, *ecs, id as int, stepped(prev.component::<Movable>(id as int).unwrap(), prev.component::<Collider>(id as int), dt as int), e);
                        }
                        assert forall|k: int| 0 <= k < NUM_COMPONENT_KINDS && k != <Movable as Component>::kind() implies #[trigger] ecs.table(k) == ecs0.table(k) by {
                            assert(prev.table(k) == ecs0.table(k));
                        }
                    }
                }
            }
            i = i + 1;
        }
        proof {
            assert forall|a: int, b: int| 0 <= a < b < self.slots().len() implies #[trigger] self.slots()[a].id != #[trigger] self.slots()[b].id by {
                assert(slots0[a].id != slots0[b].id);
            }
            assert forall|a: int| 0 <= a < self.slots().len() implies 0 <= #[trigger] self.slots()[a].additional_speed <= PTERO_SPEED by {
                assert(slots0[a].additional_speed == self.slots()[a].additional_speed);
            }
            assert forall|a: int| 0 <= a < self.slots().len() implies {
                let id = #[trigger] self.slots()[a].id;
                &&& id < ecs.count()
                &&& ecs.component::<Movable>(id as int) is Some
                &&& ecs.component::<Collider>(id as int) is Some
            } by {
                let id = slots0[a].id as int;
                assert(ecs0.component::<Movable>(id) is Some);
                assert(ecs.table(<Collider as Component>::kind()) == ecs0.table(<Collider as Component>::kind()));
            }
            assert forall|a: int| 0 <= a < self.movables().len() implies {
                let id = #[trigger] self.movables()[a];
                &&& id < ecs.count()
                &&& ecs.component::<Movable>(id as int) is Some
            } by {
                let id = old(self).movables()[a] as int;
                assert(ecs0.component::<Movable>(id) is Some);
            }
            assert forall|e: int| 0 <= e < ecs0.count() && unmanaged(*old(self), e) implies #[trigger] ecs.component::<Movable>(e) == ecs0.component::<Movable>(e) by {
                if moved_by(slots0, ecs0, e, len as int) {
                    let j = choose|j: int| 0 <= j < len && slots0[j].id == e && #[trigger] keeps_moving(slots0, ecs0, j);
                    assert(old(self).slots()[j].id != e);
                }
            }
            lemma_only_movables_keeps(ecs0, *ecs);
        }
    }
}

impl ObstacleManager {
    /// Sets the horizontal velocity of every background entity to `-new_vel`
    /// and of every obstacle to `-(new_vel + its bias)`.
    fn update_movables_speed(&self, ecs: &mut ECS, new_vel: i64)
        requires
            self.wf(),
            self.ready(*old(ecs)),
            START_SCROLL_SPEED <= new_vel <= MAX_SCROLL_SPEED,
        ensures
            only_movables_changed(*final(ecs), *old(ecs)),
            self.ready(*final(ecs)),
            forall|e: int|
                0 <= e < old(ecs).count() ==> #[trigger] final(ecs).component::<Movable>(e) == match old(
                    ecs,
                ).component::<Movable>(e) {
                    Some(mv) => Some(retargeted(mv, speed_target(self.slots(), self.movables(), e, new_vel as int))),
                    None => None,
                },
    {
        let ghost ecs0 = *old(ecs);
        let mut a: usize = 0;
        while a < self.movable_ids.len()
            invariant
                self.wf(),
                self.ready(ecs0),
                START_SCROLL_SPEED <= new_vel <= MAX_SCROLL_SPEED,
                a <= self.movables().len(),
                only_movables_changed(*ecs, ecs0),
                forall|e: int|
                    0 <= e < ecs0.count() ==> #[trigger] ecs.component::<Movable>(e) == match ecs0.component::<
                        Movable,
                    >(e) {
                        Some(mv) => if exists|b: int| 0 <= b < a && #[trigger] self.movables()[b] == e {
                            Some(retargeted(mv, Some(-new_vel)))
                        } else {
                            Some(mv)
                        },
                        None => None,
                    },
            decreases self.movables().len() - a,
        {
            let id = self.movable_ids[a];
            assert(self.movables()[a as int] == id);
            proof {
                assert(ecs0.component::<Movable>(id as int) is Some);
            }
            let mut mov = ecs.get_component::<Movable>(id).unwrap();
            mov.velocity.x = -new_vel;
            let ghost prev = *ecs;
            ecs.set_component(id, mov);
            proof {
                assert forall|e: int| 0 <= e < ecs0.count() implies #[trigger] ecs.component::<Movable>(e) == match ecs0.component::<Movable>(e) {
                    Some(mv) => if exists|b: int| 0 <= b < a + 1 && #[trigger] self.movables()[b] == e {
                        Some(retargeted(mv, Some(-new_vel)))
                    } else {
                        Some(mv)
                    },
                    None => None,
                } by {
                    lemma_set_same::<Movable>(prev, *ecs, id as int, mov, e);
                    if exists|b: int| 0 <= b < a + 1 && #[trigger] self.movables()[b] == e {
                        let b = choose|b: int| 0 <= b < a + 1 && #[trigger] self.movables()[b] == e;
                        if b < a {
                            assert(exists|b: int| 0 <= b < a && #[trigger] self.movables()[b] == e);
                        }
                    }
                    if exists|b: int| 0 <= b < a && #[trigger] self.movables()[b] == e {
                        let b = choose|b: int| 0 <= b < a && #[trigger] self.movables()[b] == e;
                        assert(0 <= b < a + 1 && self.movables()[b] == e);
                    }
                    if e == id {
                        assert(self.movables()[a as int] == e);
                    }
                }
                assert forall|k: int| 0 <= k < NUM_COMPONENT_KINDS && k != <Movable as Component>::kind() implies #[trigger] ecs.table(k) == ecs0.table(k) by {
                    assert(prev.table(k) == ecs0.table(k));
                }
            }
            a = a + 1;
        }
        let ghost ecs1 = *ecs;
        let mut i: usize = 0;
        while i < self.pool.obstacles.len()
            invariant
                self.wf(),
                self.ready(ecs0),
                START_SCROLL_SPEED <= new_vel <= MAX_SCROLL_SPEED,
                a == self.movables().len(),
                i <= self.slots().len(),
                only_movables_changed(*ecs, ecs0),
                only_movables_changed(ecs1, ecs0),
                forall|e: int|
                    0 <= e < ecs0.count() ==> #[trigger] ecs1.component::<Movable>(e) == match ecs0.component::<
                        Movable,
                    >(e) {
                        Some(mv) => if exists|b: int| 0 <= b < a && #[trigger] self.movables()[b] == e {
                            Some(retargeted(mv, Some(-new_vel)))
                        } else {
                            Some(mv)
                        },
                        None => None,
                    },
                forall|e: int|
                    0 <= e < ecs0.count() ==> #[trigger] ecs.component::<Movable>(e) == if exists|j: int|
                        0 <= j < i && #[trigger] self.slots()[j].id == e {
                        let j = choose|j: int| 0 <= j < i && #[trigger] self.slots()[j].id == e;
                        Some(retargeted(ecs1.component::<Movable>(e).unwrap(), Some(-(new_vel + self.slots()[j].additional_speed))))
                    } else {
                        ecs1.component::<Movable>(e)
                    },
            decreases self.slots().len() - i,
        {
            let entry = self.pool.obstacles[i];
            assert(self.slots()[i as int] == entry);
            assert(0 <= self.slots()[i as int].additional_speed <= PTERO_SPEED);
            let id = entry.id;
            proof {
                assert(ecs0.component::<Movable>(id as int) is Some);
                assert(ecs1.component::<Movable>(id as int) is Some);
                assert(!exists|j: int| 0 <= j < i && #[trigger] self.slots()[j].id == id) by {
                    if exists|j: int| 0 <= j < i && #[trigger] self.slots()[j].id == id {
                        let j = choose|j: int| 0 <= j < i && #[trigger] self.slots()[j].id == id;
                        assert(self.slots()[j].id != self.slots()[i as int].id);
                    }
                }
            }
            let mut mov = ecs.get_component::<Movable>(id).unwrap();
            mov.velocity.x = -(new_vel + entry.additional_speed);
            let ghost prev = *ecs;
            ecs.set_component(id, mov);
            proof {
                assert forall|e: int| 0 <= e < ecs0.count() implies #[trigger] ecs.component::<Movable>(e) == if exists|j: int| 0 <= j < i + 1 && #[trigger] self.slots()[j].id == e {
                    let j = choose|j: int| 0 <= j < i + 1 && #[trigger] self.slots()[j].id == e;
                    Some(retargeted(ecs1.component::<Movable>(e).unwrap(), Some(-(new_vel + self.slots()[j].additional_speed))))
                } else {
                    ecs1.component::<Movable>(e)
                } by {
                    lemma_set_same::<Movable>(prev, *ecs, id as int, mov, e);
                    if e == id {
                        assert(self.slots()[i as int].id == e);
                        let j = choose|j: int| 0 <= j < i + 1 && #[trigger] self.slots()[j].id == e;
                        if j != i {
                            assert(self.slots()[j].id != self.slots()[i as int].id);
                        }
                    } else {
                        if exists|j: int| 0 <= j < i + 1 && #[trigger] self.slots()[j].id == e {
                            let j = choose|j: int| 0 <= j < i + 1 && #[trigger] self.slots()[j].id == e;
                            assert(j != i);
                            assert(exists|j: int| 0 <= j < i && #[trigger] self.slots()[j].id == e);
                            let j2 = choose|j: int| 0 <= j < i && #[trigger] self.slots()[j].id == e;
                            if j2 != j {
                                if j2 < j {
                                    assert(self.slots()[j2].id != self.slots()[j].id);
                                } else {
                                    assert(self.slots()[j].id != self.slots()[j2].id);
                                }
                            }
                        }
                        if exists|j: int| 0 <= j < i && #[trigger] self.slots()[j].id == e {
                            let j = choose|j: int| 0 <= j < i && #[trigger] self.slots()[j].id == e;
                            assert(0 <= j < i + 1 && self.slots()[j].id == e);
                        }
                    }
                }
                assert forall|k: int| 0 <= k < NUM_COMPONENT_KINDS && k != <Movable as Component>::kind() implies #[trigger] ecs.table(k) == ecs0.table(k) by {
                    assert(prev.table(k) == ecs0.table(k));
                }
            }
            i = i + 1;
        }
        proof {
            assert forall|e: int| 0 <= e < old(ecs).count() implies #[trigger] ecs.component::<Movable>(e) == match ecs0.component::<Movable>(e) {
                Some(mv) => Some(retargeted(mv, speed_target(self.slots(), self.movables(), e, new_vel as int))),
                None => None,
            } by {
                if exists|j: int| 0 <= j < self.slots().len() && #[trigger] self.slots()[j].id == e {
                    let j = choose|j: int| 0 <= j < self.slots().len() && #[trigger] self.slots()[j].id == e;
                    assert(ecs0.component::<Movable>(e) is Some);
                }
            }
            assert forall|a: int| 0 <= a < self.slots().len() implies {
                let id = #[trigger] self.slots()[a].id;
                &&& id < ecs.count()
                &&& ecs.component::<Movable>(id as int) is Some
                &&& ecs.component::<Collider>(id as int) is Some
            } by {
                let id = self.slots()[a].id as int;
                assert(ecs0.component::<Movable>(id) is Some);
                assert(ecs.table(<Collider as Component>::kind()) == ecs0.table(<Collider as Component>::kind()));
            }
            assert forall|a: int| 0 <= a < self.movables().len() implies {
                let id = #[trigger] self.movables()[a];
                &&& id < ecs.count()
                &&& ecs.component::<Movable>(id as int) is Some
            } by {
                let id = self.movables()[a] as int;
                assert(ecs0.component::<Movable>(id) is Some);
            }
        }
    }
}

/// The manager `m2` reads the same entities as `m`, so it is ready for every
/// store in which `m` was ready and that still has those components.
pub proof fn lemma_ready_kept(m: ObstacleManager, m2: ObstacleManager, e0: ECS, e1: ECS)
    requires
        m.ready(e0),
        only_movables_changed(e1, e0),
        m2.slots().len() == m.slots().len(),
        forall|i: int| 0 <= i < m.slots().len() ==> #[trigger] m2.slots()[i].id == m.slots()[i].id,
        m2.movables() == m.movables(),
        forall|e: int| 0 <= e < e0.count() && e0.component::<Movable>(e) is Some ==> (#[trigger] e1.component::<Movable>(e)) is Some,
    ensures
        m2.ready(e1),
{
    assert forall|a: int| 0 <= a < m2.slots().len() implies {
        let id = #[trigger] m2.slots()[a].id;
        &&& id < e1.count()
        &&& e1.component::<Movable>(id as int) is Some
        &&& e1.component::<Collider>(id as int) is Some
    } by {
        let id = m.slots()[a].id as int;
        assert(e0.component::<Movable>(id) is Some);
        assert(e1.table(<Collider as Component>::kind()) == e0.table(<Collider as Component>::kind()));
    }
    assert forall|a: int| 0 <= a < m2.movables().len() implies {
        let id = #[trigger] m2.movables()[a];
        &&& id < e1.count()
        &&& e1.component::<Movable>(id as int) is Some
    } by {
        let id = m.movables()[a] as int;
        assert(e0.component::<Movable>(id) is Some);
    }
}

impl ObstacleManager {
    /// The spawn check at `time`, given the random values it uses: `draw`
    /// picks where probing for a free slot starts and `jitter` is added to the
    /// base delay. When a spawn is due, the first free slot from `draw` is
    /// switched on and its obstacle placed just beyond the right screen edge,
    /// every scrolling entity takes the current scroll speed, and the next
    /// spawn is scheduled.
    pub fn spawn_due(&mut self, ecs: &mut ECS, draw: u32, jitter: u32, time: u64)
        requires
            old(self).wf(),
            old(self).ready(*old(ecs)),
            time < TIME_LIMIT,
            jitter < SPAWN_JITTER,
        ensures
            final(self).wf(),
            final(self).ready(*final(ecs)),
            spawned(*final(self), *final(ecs), *old(self), *old(ecs), draw as int, jitter as int, time as int),
    {
        if time < self.next_spawn_time {
            return;
        }
        let ghost m0 = *self;
        let ghost ecs0 = *ecs;
        let len = self.pool.obstacles.len();
        let next = if len == 0 {
            None
        } else {
            self.pool.activate_from((draw as usize) % len)
        };
        let ghost k = spawn_slot(m0.slots(), draw as int);
        proof {
            if len > 0 {
                lemma_probe_finds_inactive(m0.slots(), (draw as int) % (len as int), 0);
            }
            assert(self.slots() == match k {
                Some(k) => activated(m0.slots(), k),
                None => m0.slots(),
            });
            assert forall|i: int| 0 <= i < m0.slots().len() implies #[trigger] self.slots()[i].id == m0.slots()[i].id
                && self.slots()[i].additional_speed == m0.slots()[i].additional_speed by {}
            assert forall|a: int, b: int| 0 <= a < b < self.slots().len() implies #[trigger] self.slots()[a].id != #[trigger] self.slots()[b].id by {
                assert(m0.slots()[a].id != m0.slots()[b].id);
            }
            assert forall|a: int| 0 <= a < self.slots().len() implies 0 <= #[trigger] self.slots()[a].additional_speed <= PTERO_SPEED by {
                assert(m0.slots()[a].additional_speed == self.slots()[a].additional_speed);
            }
        }
        if let Some(id) = next {
            proof {
                assert(m0.slots()[k.unwrap()].id == id);
                assert(ecs0.component::<Movable>(id as int) is Some);
                assert(ecs0.component::<Collider>(id as int) is Some);
            }
            let mut mov = ecs.get_component::<Movable>(id).unwrap();
            let left = ecs.get_component::<Collider>(id).unwrap().get_bound_offset(BoundType::Left).x;
            mov.pos.x = saturate_i128(SCREEN_HALF_WIDTH as i128 - left as i128);
            let ghost prev = *ecs;
            ecs.set_component(id, mov);
            proof {
                assert forall|e: int| 0 <= e < ecs0.count() implies #[trigger] ecs.component::<Movable>(e) == match ecs0.component::<Movable>(e) {
                    Some(mv) => Some(if k is Some && m0.slots()[k.unwrap()].id == e {
                        Movable { pos: Vec2 { x: spawn_x(ecs0.component::<Collider>(e).unwrap()) as i64, y: mv.pos.y }, ..mv }
                    } else {
                        mv
                    }),
                    None => None,
                } by {
                    lemma_set_same::<Movable>(prev, *ecs, id as int, mov, e);
                }
                assert forall|kk: int| 0 <= kk < NUM_COMPONENT_KINDS && kk != <Movable as Component>::kind() implies #[trigger] ecs.table(kk) == ecs0.table(kk) by {
                    lemma_set_other::<Movable, Collider>(prev, *ecs, id as int, mov, 0);
                }
            }
        }
        let ghost ecs1 = *ecs;
        proof {
            lemma_ready_kept(m0, *self, ecs0, ecs1);
        }
        self.update_movables_speed(ecs, self.scroll_speed);
        self.next_spawn_time = time + self.delay + jitter as u64;
        proof {
            lemma_ready_kept(m0, *self, ecs0, *ecs);
        }
    }

    /// The spawn check with fresh random values from `rng`: some `draw` and
    /// some `jitter` below the jitter bound were used.
    pub fn check_for_next_obstacle(&mut self, ecs: &mut ECS, rng: &mut Rand32, time: u64)
        requires
            old(self).wf(),
            old(self).ready(*old(ecs)),
            time < TIME_LIMIT,
        ensures
            final(self).wf(),
            final(self).ready(*final(ecs)),
            final(ecs).count() == old(ecs).count(),
            exists|draw: int, jitter: int|
                0 <= draw <= u32::MAX && 0 <= jitter < SPAWN_JITTER && #[trigger] spawned(
                    *final(self),
                    *final(ecs),
                    *old(self),
                    *old(ecs),
                    draw,
                    jitter,
                    time as int,
                ),
    {
        if time < self.next_spawn_time {
            assert(spawned(*self, *ecs, *old(self), *old(ecs), 0, 0, time as int));
            return;
        }
        let draw = rng.rand_u32();
        let jitter = rng.rand_range(0..SPAWN_JITTER);
        self.spawn_due(ecs, draw, jitter, time);
        assert(spawned(*self, *ecs, *old(self), *old(ecs), draw as int, jitter as int, time as int));
    }

    /// One game tick at `time`, `dt` milliseconds after the last: active
    /// obstacles advance (or leave the pool once off screen), a spawn happens
    /// if one is due, and the scroll speed ramps up.
    pub fn update(&mut self, ecs: &mut ECS, rng: &mut Rand32, time: u64, dt: u32)
        requires
            old(self).wf(),
            old(self).ready(*old(ecs)),
            time < TIME_LIMIT,
        ensures
            final(self).wf(),
            final(self).ready(*final(ecs)),
            final(ecs).count() == old(ecs).count(),
            final(self).speed() == ramped_speed(old(self).speed(), dt as int),
            final(self).delay() == old(self).delay(),
            final(self).movables() == old(self).movables(),
            final(self).slots().len() == old(self).slots().len(),
            updated(*final(self), *final(ecs), *old(self), *old(ecs), time as int, dt as int),
            final(ecs).keeps_components(*old(ecs)),
            only_movables_changed(*final(ecs), *old(ecs)),
            forall|i: int| 0 <= i < old(self).slots().len() ==> #[trigger] final(self).slots()[i].id == old(self).slots()[i].id,
            forall|e: int|
                0 <= e < old(ecs).count() && unmanaged(*old(self), e) ==> #[trigger] final(ecs).component::<Movable>(e)
                    == old(ecs).component::<Movable>(e),
    {
        self.advance(ecs, dt);
        let ghost m1 = *self;
        let ghost e1 = *ecs;
        self.check_for_next_obstacle(ecs, rng, time);
        let ghost m2 = *self;
        self.update_scroll_speed(dt);
        proof {
            let (draw, jitter) = choose|draw: int, jitter: int|
                0 <= draw <= u32::MAX && 0 <= jitter < SPAWN_JITTER && #[trigger] spawned(m2, *ecs, m1, e1, draw, jitter, time as int);
            assert(spawned(m2, *ecs, m1, e1, draw, jitter, time as int));
            assert(m2.speed() == old(self).speed());
            if spawn_slot(m1.slots(), draw) is Some && time >= m1.next_spawn() {
                lemma_probe_finds_inactive(m1.slots(), draw % (m1.slots().len() as int), 0);
            }
            assert(m2.slots().len() == old(self).slots().len());
            assert forall|i: int| 0 <= i < old(self).slots().len() implies #[trigger] m2.slots()[i].id == old(self).slots()[i].id by {
                assert(m1.slots()[i] == advanced_entry(old(self).slots()[i], *old(ecs)));
            }
            if time < m1.next_spawn() {
                lemma_keeps_refl(e1);
            } else {
                lemma_only_movables_keeps(e1, *ecs);
                let k = spawn_slot(m1.slots(), draw);
                assert forall|e: int| 0 <= e < old(ecs).count() && unmanaged(*old(self), e) implies #[trigger] ecs.component::<Movable>(e) == old(ecs).component::<Movable>(e) by {
                    assert(spawned_movable(m1, e1, k, m2.slots(), e) == ecs.component::<Movable>(e));
                    if k is Some {
                        assert(m2.slots()[k.unwrap()].id == m1.slots()[k.unwrap()].id);
                        assert(old(self).slots()[k.unwrap()].id != e);
                    }
                    assert(!exists|i: int| 0 <= i < m2.slots().len() && #[trigger] m2.slots()[i].id == e) by {
                        if exists|i: int| 0 <= i < m2.slots().len() && #[trigger] m2.slots()[i].id == e {
                            let i = choose|i: int| 0 <= i < m2.slots().len() && #[trigger] m2.slots()[i].id == e;
                            assert(old(self).slots()[i].id != e);
                        }
                    }
                    assert(!exists|a: int| 0 <= a < m1.movables().len() && #[trigger] m1.movables()[a] == e) by {
                        if exists|a: int| 0 <= a < m1.movables().len() && #[trigger] m1.movables()[a] == e {
                            let a = choose|a: int| 0 <= a < m1.movables().len() && #[trigger] m1.movables()[a] == e;
                            assert(old(self).movables()[a] != e);
                        }
                    }
                }
            }
            lemma_keeps_trans(*old(ecs), e1, *ecs);
            assert(updated(*self, *ecs, *old(self), *old(ecs), time as int, dt as int));
        }
    }
}

impl ObstacleManager {
    /// The position of the nearest upcoming obstacle: among the active slots,
    /// the one with the smallest x (the earliest slot on ties); `None` when no
    /// slot is active.
    pub fn get_obstacle(&self, ecs: &ECS) -> (r: Option<Vec2>)
        requires
            self.ready(*ecs),
        ensures
            r is None <==> forall|j: int| 0 <= j < self.slots().len() ==> !(#[trigger] self.slots()[j]).active,
            r is Some ==> exists|i: int| #[trigger] nearest_slot(*self, *ecs, i, r.unwrap()),
    {
        let mut best: Option<Vec2> = None;
        let ghost mut best_i: int = 0;
        let mut i: usize = 0;
        while i < self.pool.obstacles.len()
            invariant
                self.ready(*ecs),
                i <= self.slots().len(),
                best is None <==> forall|j: int| 0 <= j < i ==> !(#[trigger] self.slots()[j]).active,
                best is Some ==> {
                    &&& 0 <= best_i < i
                    &&& self.slots()[best_i].active
                    &&& best == Some(ecs.component::<Movable>(self.slots()[best_i].id as int).unwrap().pos)
                    &&& forall|j: int|
                        0 <= j < i && (#[trigger] self.slots()[j]).active ==> {
                            let xj = ecs.component::<Movable>(self.slots()[j].id as int).unwrap().pos.x;
                            &&& best.unwrap().x <= xj
                            &&& j < best_i ==> best.unwrap().x < xj
                        }
                },
            decreases self.slots().len() - i,
        {
            let entry = self.pool.obstacles[i];
            assert(self.slots()[i as int] == entry);
            if entry.active {
                let pos = Collider::get_pos(ecs, entry.id);
                let closer = match best {
                    None => true,
                    Some(b) => pos.x < b.x,
                };
                if closer {
                    best = Some(pos);
                    proof {
                        best_i = i as int;
                    }
                }
            }
            i = i + 1;
        }
        proof {
            if best is Some {
                assert(nearest_slot(*self, *ecs, best_i, best.unwrap()));
            }
        }
        best
    }
}

impl ObstacleManager {
    pub fn is_active(&self, ind: usize) -> (r: bool)
        requires
            ind < self.slots().len(),
        ensures
            r == self.slots()[ind as int].active,
    {
        self.pool.obstacles[ind].active
    }

    pub fn get_next_spawn_time(&self) -> (r: u64)
        ensures
            r == self.next_spawn(),
    {
        self.next_spawn_time
    }
}

impl ObstacleManager {
    /// Whether every entity that the manager moves exists in `ecs` with the components it reads.
    pub fn is_ready(&self, ecs: &ECS) -> (r: bool)
        requires
            ecs.wf(),
        ensures
            r == self.ready(*ecs),
    {
        let mut i: usize = 0;
        while i < self.pool.obstacles.len()
            invariant
                ecs.wf(),
                i <= self.slots().len(),
                forall|j: int|
                    0 <= j < i ==> {
                        let id = #[trigger] self.slots()[j].id;
                        &&& id < ecs.count()
                        &&& ecs.component::<Movable>(id as int) is Some
                        &&& ecs.component::<Collider>(id as int) is Some
                    },
            decreases self.slots().len() - i,
        {
            let id = self.pool.obstacles[i].id;
            assert(self.slots()[i as int].id == id);
            if id >= ecs.entities_count() || ecs.get_component::<Movable>(id).is_none()
                || ecs.get_component::<Collider>(id).is_none() {
                return false;
            }
            i = i + 1;
        }
        let mut a: usize = 0;
        while a < self.movable_ids.len()
            invariant
                ecs.wf(),
                a <= self.movables().len(),
                forall|j: int|
                    0 <= j < self.slots().len() ==> {
                        let id = #[trigger] self.slots()[j].id;
                        &&& id < ecs.count()
                        &&& ecs.component::<Movable>(id as int) is Some
                        &&& ecs.component::<Collider>(id as int) is Some
                    },
                forall|j: int|
                    0 <= j < a ==> {
                        let id = #[trigger] self.movables()[j];
                        &&& id < ecs.count()
                        &&& ecs.component::<Movable>(id as int) is Some
                    },
            decreases self.movables().len() - a,
        {
            let id = self.movable_ids[a];
            assert(self.movables()[a as int] == id);
            if id >= ecs.entities_count() || ecs.get_component::<Movable>(id).is_none() {
                return false;
            }
            a = a + 1;
        }
        true
    }
}

/// One `update` switches on at most one slot that was off, so no slot is
/// activated twice without a deactivation in between, and the number of
/// slots never changes.
pub proof fn lemma_update_activates_at_most_one(
    mf: ObstacleManager,
    ef: ECS,
    m0: ObstacleManager,
    e0: ECS,
    time: int,
    dt: int,
)
    requires
        updated(mf, ef, m0, e0, time, dt),
    ensures
        mf.slots().len() == m0.slots().len(),
        active_count(mf.slots()) <= mf.slots().len(),
        forall|i: int, j: int|
            0 <= i < j < m0.slots().len() && !m0.slots()[i].active && !m0.slots()[j].active ==> !(
            #[trigger] mf.slots()[i].active && #[trigger] mf.slots()[j].active),
{
    let (m1, e1, m2, draw, jitter) = choose|m1: ObstacleManager, e1: ECS, m2: ObstacleManager, draw: int, jitter: int|
        {
            &&& m1.same_settings(m0)
            &&& m1.slots().len() == m0.slots().len()
            &&& (forall|i: int|
                0 <= i < m0.slots().len() ==> #[trigger] m1.slots()[i] == advanced_entry(m0.slots()[i], e0))
            &&& only_movables_changed(e1, e0)
            &&& (forall|e: int|
                0 <= e < e0.count() ==> #[trigger] e1.component::<Movable>(e) == advanced_movable(
                    m0.slots(),
                    e0,
                    e,
                    m0.slots().len() as int,
                    dt,
                ))
            &&& 0 <= draw <= u32::MAX
            &&& 0 <= jitter < SPAWN_JITTER
            &&& #[trigger] spawned(m2, ef, m1, e1, draw, jitter, time)
            &&& mf.slots() == m2.slots()
            &&& mf.delay() == m2.delay()
            &&& mf.next_spawn() == m2.next_spawn()
            &&& mf.movables() == m2.movables()
            &&& mf.speed() == ramped_speed(m2.speed(), dt)
        };
    lemma_active_count_bounded(mf.slots());
    if time >= m1.next_spawn() && spawn_slot(m1.slots(), draw) is Some {
        lemma_probe_finds_inactive(m1.slots(), draw % (m1.slots().len() as int), 0);
    }
    assert forall|i: int, j: int|
        0 <= i < j < m0.slots().len() && !m0.slots()[i].active && !m0.slots()[j].active implies !(
        #[trigger] mf.slots()[i].active && #[trigger] mf.slots()[j].active) by {
        assert(m1.slots()[i] == advanced_entry(m0.slots()[i], e0));
        assert(m1.slots()[j] == advanced_entry(m0.slots()[j], e0));
    }
}

} // verus!
