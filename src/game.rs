use vstd::prelude::*;
use crate::animation::{AnimStateMachine, Animation};
use crate::assets::AssetTag;
use crate::collision::{BoxCollider, Collider};
use crate::dino::{DinoController, DinoState};
use crate::ecs::{
    lemma_add_animation_keeps, lemma_add_collider_keeps, lemma_add_controller_keeps,
    lemma_add_machine_keeps, lemma_add_movable_keeps, lemma_add_other, lemma_add_ptero_keeps,
    lemma_add_scroll_keeps, lemma_add_sprite_keeps, lemma_add_state_keeps, lemma_keeps_refl,
    lemma_keeps_trans, lemma_set_machine_keeps, lemma_set_movable_keeps, lemma_set_other,
    lemma_set_same, lemma_set_state_keeps, moves_none, moves_only, Component, ECS,
    NUM_COMPONENT_KINDS,
};
use crate::input::{player_handle_input, InputState};
use crate::movable::{stepped, EndlessScroll, Movable};
use crate::obstacles::{ObstacleEntry, lemma_ready_kept, nearest_slot, only_movables_changed, ramped_speed, unmanaged, updated, ObstacleManager};
use crate::ptero::Ptero;
use crate::sprite::Sprite;
use crate::types_and_constants::{
    CACTUS_MIN_DELAY, DINO_GRAVITY, GROUND_Y_COORD, JUMP_VELOCITY, SCREEN, START_SCROLL_SPEED,
    TIME_LIMIT, UNITS_PER_PIXEL,
};
use crate::ui::UIButton;
use crate::vec2::Vec2;
use oorandom::Rand32;

verus! {

/// Score points are counted in thousandths.
pub const SCORE_UNIT: u64 = 1_000;

/// A point sound plays every this many points.
pub const POINT_SOUND_STEP: u64 = 100_000;

/// Time after a loss (milliseconds) during which a restart request is refused.
pub const RESTART_GRACE: u64 = 300;

/// Pixel size of an image.
#[derive(Clone, Copy, Debug, PartialEq, Eq, Structural)]
pub struct ImageSize {
    pub width: u32,
    pub height: u32,
}

/// The image sizes that entity setup reads; `cacti` follows `AssetTag::cactus_tags`.
pub struct AssetSizes {
    pub ptero: ImageSize,
    pub cacti: Vec<ImageSize>,
    pub ground: ImageSize,
    pub cloud: ImageSize,
    pub perceptron: ImageSize,
    pub restart_button: ImageSize,
}

/// The entities that the game addresses by name.
#[derive(Clone, Copy, Debug, PartialEq, Eq, Structural)]
pub struct EntityIds {
    pub dino: usize,
    pub ground1: usize,
    pub ground2: usize,
    pub cloud: usize,
    pub ptero: usize,
    pub perceptron: usize,
}

/// Current score (thousandths of a point), best score (points), and the
/// score at which the next point sound is due.
#[derive(Clone, Copy, Debug, PartialEq, Eq, Structural)]
pub struct Score {
    pub cur: u64,
    pub high: u32,
    pub next_sound: u64,
}

/// What a tick did.
#[derive(Clone, Copy, Debug, PartialEq, Eq, Structural)]
pub enum TickOutcome {
    /// A restart was requested and performed.
    Restarted,
    /// A restart was requested too soon after the loss; the run stays over.
    RestartRefused,
    /// Paused, or the run is over: nothing moved.
    Idle,
    /// The world advanced; `jumped` says the player jumped this tick and
    /// `point_sound` that the score crossed a sound threshold.
    Running { jumped: bool, point_sound: bool },
}

/// The score after `dt` more milliseconds: it grows by ten points a second
/// plus one three-hundredth of itself, clamped to the range of `u64`.
pub open spec fn grown_score(cur: int, dt: int) -> int {
    let g = cur + dt * (3_000_000 + cur) / 300_000;
    if g > u64::MAX {
        u64::MAX as int
    } else {
        g
    }
}

/// The whole game state that the frame loop drives.
pub struct Game {
    pub ecs: ECS,
    pub ent: EntityIds,
    pub obstacle_manager: ObstacleManager,
    pub input: InputState,
    pub restart_button: UIButton,
    pub score: Score,
    pub lose_time: u64,
}

/// The named entities are pairwise distinct.
pub open spec fn distinct_entities(ent: EntityIds) -> bool {
    &&& ent.dino != ent.ground1 && ent.dino != ent.ground2 && ent.dino != ent.cloud && ent.dino != ent.ptero
    &&& ent.ground1 != ent.ground2 && ent.ground1 != ent.cloud && ent.ground1 != ent.ptero
    &&& ent.ground2 != ent.cloud && ent.ground2 != ent.ptero
    &&& ent.cloud != ent.ptero
}

/// A scrolling background tile: position, image and wrap-around.
pub open spec fn background_ready(ecs: ECS, id: usize) -> bool {
    &&& ecs.component::<Movable>(id as int) is Some
    &&& ecs.component::<Sprite>(id as int) is Some
    &&& ecs.component::<EndlessScroll>(id as int) is Some
}

/// Every named entity and every pool obstacle has the components the game reads.
pub open spec fn world_ready(ecs: ECS, ent: EntityIds, mgr: ObstacleManager) -> bool {
    let d = ent.dino as int;
    let p = ent.ptero as int;
    &&& mgr.ready(ecs)
    &&& ecs.component::<Movable>(d) is Some
    &&& ecs.component::<Collider>(d) is Some
    &&& ecs.component::<Animation>(d) is Some
    &&& ecs.component::<DinoState>(d) is Some
    &&& ecs.component::<DinoController>(d) == Some(
        DinoController { entity_id: ent.dino, jump_sound_tag: AssetTag::JumpSound },
    )
    &&& ecs.component::<AnimStateMachine<DinoState>>(d) is Some
    &&& ecs.component::<AnimStateMachine<DinoState>>(d).unwrap().wf()
    &&& background_ready(ecs, ent.ground1)
    &&& background_ready(ecs, ent.ground2)
    &&& background_ready(ecs, ent.cloud)
    &&& ecs.component::<Movable>(p) is Some
    &&& ecs.component::<Collider>(p) is Some
    &&& ecs.component::<Animation>(p) is Some
    &&& ecs.component::<Ptero>(p) is Some
}

/// The readiness of the world survives any change that keeps every component.
pub proof fn lemma_world_kept(e0: ECS, e1: ECS, ent: EntityIds, mgr: ObstacleManager)
    requires
        world_ready(e0, ent, mgr),
        e1.keeps_components(e0),
        ent.dino < e0.count() && ent.ground1 < e0.count() && ent.ground2 < e0.count(),
        ent.cloud < e0.count() && ent.ptero < e0.count(),
    ensures
        world_ready(e1, ent, mgr),
{
    assert forall|a: int| 0 <= a < mgr.slots().len() implies {
        let id = #[trigger] mgr.slots()[a].id;
        &&& id < e1.count()
        &&& e1.component::<Movable>(id as int) is Some
        &&& e1.component::<Collider>(id as int) is Some
    } by {
        let id = mgr.slots()[a].id as int;
        assert(e0.component::<Movable>(id) is Some);
        assert(e0.component::<Collider>(id) is Some);
    }
    assert forall|a: int| 0 <= a < mgr.movables().len() implies {
        let id = #[trigger] mgr.movables()[a];
        &&& id < e1.count()
        &&& e1.component::<Movable>(id as int) is Some
    } by {
        let id = mgr.movables()[a] as int;
        assert(e0.component::<Movable>(id) is Some);
    }
}

/// The player's `Movable` after the input of a tick: a pending jump request
/// during a run makes it jump if it stands on the ground.
pub open spec fn after_input(m: Movable, input: InputState) -> Movable {
    if input.active() && input.jumping() && m.on_ground {
        Movable { velocity: Vec2 { x: m.velocity.x, y: JUMP_VELOCITY }, on_ground: false, ..m }
    } else {
        m
    }
}

/// A tick of `old` asks for a restart: one was pending, or a jump request came after the run.
pub open spec fn wants_restart(input: InputState) -> bool {
    input.restarting() || (!input.active() && input.jumping())
}

/// Where the player starts a run.
pub open spec fn dino_start() -> Movable {
    Movable {
        pos: Vec2 { x: (-400 * UNITS_PER_PIXEL) as i64, y: (GROUND_Y_COORD + 43 * UNITS_PER_PIXEL) as i64 },
        velocity: Vec2 { x: 0, y: 0 },
        gravity: Vec2 { x: 0, y: DINO_GRAVITY },
        on_ground: false,
        ground_check: true,
    }
}

/// Where obstacles wait off screen.
pub open spec fn parked_x() -> int {
    SCREEN.0 + 50 * UNITS_PER_PIXEL
}

impl Game {
    pub open spec fn wf(self) -> bool {
        &&& self.ecs.wf()
        &&& self.obstacle_manager.wf()
        &&& self.ent.dino < self.ecs.count()
        &&& self.ent.ground1 < self.ecs.count()
        &&& self.ent.ground2 < self.ecs.count()
        &&& self.ent.cloud < self.ecs.count()
        &&& self.ent.ptero < self.ecs.count()
        &&& self.ent.perceptron < self.ecs.count()
        &&& self.lose_time < TIME_LIMIT
        &&& distinct_entities(self.ent)
        &&& unmanaged(self.obstacle_manager, self.ent.dino as int)
        &&& world_ready(self.ecs, self.ent, self.obstacle_manager)
    }

    /// A fresh run: the pool holds one slot per cactus image and one for the
    /// flying obstacle, and every entity has its components.
    pub fn new(sizes: &AssetSizes, high_score: u32) -> (r: Game)
        requires
            sizes.cacti@.len() == 6,
        ensures
            r.wf(),
            r.obstacle_manager.ready(r.ecs),
            r.score == (Score { cur: 0, high: high_score, next_sound: POINT_SOUND_STEP }),
            r.obstacle_manager.slots().len() == 7,
            forall|i: int| 0 <= i < 7 ==> !(#[trigger] r.obstacle_manager.slots()[i]).active,
            r.obstacle_manager.speed() == START_SCROLL_SPEED,
            r.obstacle_manager.next_spawn() == 0,
            r.ecs.count() == 12,
            r.ecs.component::<Movable>(r.ent.dino as int) == Some(dino_start()),
            r.ecs.component::<DinoState>(r.ent.dino as int) == Some(DinoState::Run),
            forall|i: int|
                0 <= i < 6 ==> {
                    let id = #[trigger] r.obstacle_manager.slots()[i].id as int;
                    &&& r.ecs.component::<Movable>(id) is Some
                    &&& r.ecs.component::<Collider>(id) is Some
                    &&& r.ecs.component::<Sprite>(id) is Some
                },
            r.input.active(),
            !r.input.jumping(),
            !r.input.paused(),
            !r.input.restarting(),
            !r.restart_button.active,
    {
        let u = UNITS_PER_PIXEL;
        let mut ecs = ECS::new();
        let ground1 = ecs.new_entity();
        let ground2 = ecs.new_entity();
        let cloud = ecs.new_entity();
        let mov_vec = vec![ground1, ground2];
        let mut obstacle_manager = ObstacleManager::with_capacity(7, CACTUS_MIN_DELAY, mov_vec);
        let mut i: usize = 0;
        while i < 6
            invariant
                i <= 6,
                ecs.wf(),
                ecs.count() == 3 + i,
                ground1 == 0 && ground2 == 1 && cloud == 2,
                forall|k: int| 0 <= k < NUM_COMPONENT_KINDS ==> #[trigger] ecs.table(k) is None,
                obstacle_manager.wf(),
                obstacle_manager.slots().len() == i,
                obstacle_manager.speed() == START_SCROLL_SPEED,
                obstacle_manager.next_spawn() == 0,
                obstacle_manager.movables() == seq![0usize, 1usize],
                forall|j: int| 0 <= j < i ==> (#[trigger] obstacle_manager.slots()[j]).id == 3 + j,
                forall|j: int| 0 <= j < i ==> !(#[trigger] obstacle_manager.slots()[j]).active,
            decreases 6 - i,
        {
            let cactus = ecs.new_entity();
            obstacle_manager.add_cactus(cactus);
            i = i + 1;
        }
        let ptero = ecs.new_entity();
        obstacle_manager.add_ptero(ptero);
        let dino = ecs.new_entity();
        let perceptron = ecs.new_entity();
        let mut restart_button = UIButton::new(
            AssetTag::RestartButton,
            sizes.restart_button.width as i64 * u,
            sizes.restart_button.height as i64 * u,
            Vec2::new(0, 0),
        );
        restart_button.deactivate();
        let mut game = Game {
            ecs,
            ent: EntityIds { dino, ground1, ground2, cloud, ptero, perceptron },
            obstacle_manager,
            input: InputState::new(),
            restart_button,
            score: Score { cur: 0, high: high_score, next_sound: POINT_SOUND_STEP },
            lose_time: 0,
        };
        assert(game.obstacle_manager.movables() =~= seq![0usize, 1usize]);
        game.start(sizes);
        game
    }

    /// Gives every entity its components.
    fn start(&mut self, sizes: &AssetSizes)
        requires
            old(self).ecs.wf(),
            old(self).ecs.count() == 12,
            forall|k: int| 0 <= k < NUM_COMPONENT_KINDS ==> #[trigger] old(self).ecs.table(k) is None,
            old(self).ent == (EntityIds { ground1: 0, ground2: 1, cloud: 2, ptero: 9, dino: 10, perceptron: 11 }),
            old(self).obstacle_manager.wf(),
            old(self).obstacle_manager.slots().len() == 7,
            forall|j: int| 0 <= j < 7 ==> (#[trigger] old(self).obstacle_manager.slots()[j]).id == 3 + j,
            old(self).obstacle_manager.movables() == seq![0usize, 1usize],
            old(self).lose_time < TIME_LIMIT,
            sizes.cacti@.len() == 6,
        ensures
            final(self).wf(),
            final(self).ecs.count() == old(self).ecs.count(),
            final(self).ent == old(self).ent,
            final(self).obstacle_manager == old(self).obstacle_manager,
            final(self).score == old(self).score,
            final(self).input == old(self).input,
            final(self).restart_button == old(self).restart_button,
            final(self).lose_time == old(self).lose_time,
            final(self).ecs.component::<Movable>(10) == Some(dino_start()),
            final(self).ecs.component::<DinoState>(10) == Some(DinoState::Run),
            forall|i: int|
                0 <= i < 6 ==> {
                    &&& (#[trigger] final(self).ecs.component::<Movable>(3 + i)) is Some
                    &&& final(self).ecs.component::<Collider>(3 + i) is Some
                    &&& final(self).ecs.component::<Sprite>(3 + i) is Some
                },
    {
        let u = UNITS_PER_PIXEL;
        // the player's controller, first while the store is still empty
        put_controller(&mut self.ecs, 10, DinoController::new(10, AssetTag::JumpSound));
        let ghost e1 = self.ecs;
        setup_ptero(&mut self.ecs, sizes.ptero.width as i64 * u);
        let ghost e2 = self.ecs;
        setup_cacti(&mut self.ecs, sizes);
        let ghost e3 = self.ecs;
        setup_backgrounds(&mut self.ecs, sizes);
        let ghost e4 = self.ecs;
        setup_dino(&mut self.ecs);
        proof {
            lemma_keeps_trans(e1, e2, e3);
            lemma_keeps_trans(e1, e3, e4);
            lemma_keeps_trans(e1, e4, self.ecs);
            lemma_keeps_trans(e2, e3, e4);
            lemma_keeps_trans(e2, e4, self.ecs);
            lemma_keeps_trans(e3, e4, self.ecs);
            assert(self.obstacle_manager.movables()[0] == 0usize);
            assert(self.obstacle_manager.movables()[1] == 1usize);
            assert forall|a: int| 0 <= a < 6 implies {
                &&& (#[trigger] self.ecs.component::<Movable>(3 + a)) is Some
                &&& self.ecs.component::<Collider>(3 + a) is Some
                &&& self.ecs.component::<Sprite>(3 + a) is Some
            } by {
                assert(e3.component::<Movable>(3 + a) is Some);
                assert(e3.component::<Collider>(3 + a) is Some);
                assert(e3.component::<Sprite>(3 + a) is Some);
            }
            assert forall|a: int| 0 <= a < self.obstacle_manager.slots().len() implies {
                let id = #[trigger] self.obstacle_manager.slots()[a].id;
                &&& id < self.ecs.count()
                &&& self.ecs.component::<Movable>(id as int) is Some
                &&& self.ecs.component::<Collider>(id as int) is Some
            } by {
                if a < 6 {
                    assert(self.ecs.component::<Movable>(3 + a) is Some);
                } else {
                    assert(e2.component::<Movable>(9) is Some);
                    assert(e2.component::<Collider>(9) is Some);
                }
            }
            assert(e2.component::<Animation>(9) is Some);
            assert(e2.component::<Ptero>(9) is Some);
            assert(e1.component::<DinoController>(10) is Some);
            assert(background_ready(e4, 0) && background_ready(e4, 1) && background_ready(e4, 2));
            assert(e4.component::<Movable>(0) is Some && e4.component::<Sprite>(0) is Some && e4.component::<EndlessScroll>(0) is Some);
            assert(e4.component::<Movable>(1) is Some && e4.component::<Sprite>(1) is Some && e4.component::<EndlessScroll>(1) is Some);
            assert(e4.component::<Movable>(2) is Some && e4.component::<Sprite>(2) is Some && e4.component::<EndlessScroll>(2) is Some);
        }
    }
}

/// The flying obstacle, entity 9.
fn setup_ptero(ecs: &mut ECS, ptero_wid: i64)
    requires
        old(ecs).wf(),
        old(ecs).count() == 12,
        0 <= ptero_wid <= 0x1_0000_0000 * UNITS_PER_PIXEL,
    ensures
        final(ecs).keeps_components(*old(ecs)),
        final(ecs).component::<Movable>(9) is Some,
        final(ecs).component::<Collider>(9) is Some,
        final(ecs).component::<Animation>(9) is Some,
        final(ecs).component::<Ptero>(9) is Some,
{
    let u = UNITS_PER_PIXEL;
    let ghost e0 = *ecs;
    put_movable(
        ecs,
        9,
        Movable::new(Vec2::new(SCREEN.0 + 50 * u, GROUND_Y_COORD + 40 * u), Vec2::new(-30_000, 0), Vec2::new(0, 0)),
    );
    let ghost e1 = *ecs;
    put_collider(
        ecs,
        9,
        Collider::new_single(
            BoxCollider::new(Vec2::new(ptero_wid / 2 - 8 * u, 20 * u)).with_offset(Vec2::new(8 * u, 4 * u)),
        ),
    );
    let ghost e2 = *ecs;
    put_animation(ecs, 9, Animation::new(AssetTag::PteroAnim, 4));
    let ghost e3 = *ecs;
    put_scroll(ecs, 9, EndlessScroll::new(ptero_wid));
    let ghost e4 = *ecs;
    put_ptero(ecs, 9, Ptero::new());
    proof {
        lemma_keeps_trans(e0, e1, e2);
        lemma_keeps_trans(e0, e2, e3);
        lemma_keeps_trans(e0, e3, e4);
        lemma_keeps_trans(e0, e4, *ecs);
        lemma_keeps_trans(e1, e2, e3);
        lemma_keeps_trans(e1, e3, e4);
        lemma_keeps_trans(e1, e4, *ecs);
        lemma_keeps_trans(e2, e3, e4);
        lemma_keeps_trans(e2, e4, *ecs);
        lemma_keeps_trans(e3, e4, *ecs);
    }
}

/// One ground obstacle of an image of the given size.
fn setup_cactus(ecs: &mut ECS, cactus: usize, img: ImageSize, tag: AssetTag)
    requires
        old(ecs).wf(),
        cactus < old(ecs).count(),
    ensures
        final(ecs).keeps_components(*old(ecs)),
        final(ecs).component::<Movable>(cactus as int) is Some,
        final(ecs).component::<Collider>(cactus as int) is Some,
        final(ecs).component::<Sprite>(cactus as int) is Some,
{
    let u = UNITS_PER_PIXEL;
    let w = img.width as i64 * u;
    let h = img.height as i64 * u;
    let low = BoxCollider::new(Vec2::new(w / 2, (h / 2) * 7 / 10)).with_offset(Vec2::new(0, -((h / 2) * 3 / 20)));
    let pad = 18 * h / 100;
    let high = BoxCollider::new(Vec2::new(w / 2 - pad, h / 2 - 2 * u));
    let offset_y = if img.height == 100 {
        if img.width > 100 {
            -2 * u
        } else {
            -4 * u
        }
    } else {
        0
    };
    let ghost e0 = *ecs;
    put_movable(
        ecs,
        cactus,
        Movable::new(
            Vec2::new(SCREEN.0 + 50 * u, GROUND_Y_COORD + h / 2 + offset_y),
            Vec2::new(-START_SCROLL_SPEED, 0),
            Vec2::new(0, 0),
        ),
    );
    let ghost e1 = *ecs;
    put_collider(ecs, cactus, Collider::new_double(low, high));
    let ghost e2 = *ecs;
    put_sprite(ecs, cactus, Sprite::new(tag));
    proof {
        lemma_keeps_trans(e0, e1, e2);
        lemma_keeps_trans(e0, e2, *ecs);
        lemma_keeps_trans(e1, e2, *ecs);
    }
}

/// The ground obstacles, entities 3 to 8, one per cactus image.
fn setup_cacti(ecs: &mut ECS, sizes: &AssetSizes)
    requires
        old(ecs).wf(),
        old(ecs).count() == 12,
        sizes.cacti@.len() == 6,
    ensures
        final(ecs).keeps_components(*old(ecs)),
        forall|j: int|
            0 <= j < 6 ==> {
                &&& (#[trigger] final(ecs).component::<Movable>(3 + j)) is Some
                &&& final(ecs).component::<Collider>(3 + j) is Some
                &&& final(ecs).component::<Sprite>(3 + j) is Some
            },
{
    let tags = AssetTag::cactus_tags();
    let ghost e0 = *ecs;
    proof {
        lemma_keeps_refl(e0);
    }
    let mut i: usize = 0;
    while i < 6
        invariant
            i <= 6,
            tags@.len() == 6,
            sizes.cacti@.len() == 6,
            ecs.wf(),
            ecs.count() == 12,
            ecs.keeps_components(e0),
            forall|j: int|
                0 <= j < i ==> {
                    &&& (#[trigger] ecs.component::<Movable>(3 + j)) is Some
                    &&& ecs.component::<Collider>(3 + j) is Some
                    &&& ecs.component::<Sprite>(3 + j) is Some
                },
        decreases 6 - i,
    {
        let ghost before = *ecs;
        setup_cactus(ecs, 3 + i, sizes.cacti[i], tags[i]);
        proof {
            lemma_keeps_trans(e0, before, *ecs);
            assert forall|j: int| 0 <= j < i + 1 implies {
                &&& (#[trigger] ecs.component::<Movable>(3 + j)) is Some
                &&& ecs.component::<Collider>(3 + j) is Some
                &&& ecs.component::<Sprite>(3 + j) is Some
            } by {
                if j < i {
                    assert(before.component::<Movable>(3 + j) is Some);
                    assert(before.component::<Collider>(3 + j) is Some);
                    assert(before.component::<Sprite>(3 + j) is Some);
                }
            }
        }
        i = i + 1;
    }
}

/// One scrolling background tile.
fn setup_tile(ecs: &mut ECS, id: usize, m: Movable, tag: AssetTag, width: i64)
    requires
        old(ecs).wf(),
        id < old(ecs).count(),
        0 <= width <= 0x1_0000_0000 * UNITS_PER_PIXEL,
    ensures
        final(ecs).keeps_components(*old(ecs)),
        background_ready(*final(ecs), id),
{
    let ghost e0 = *ecs;
    put_movable(ecs, id, m);
    let ghost e1 = *ecs;
    put_sprite(ecs, id, Sprite::new(tag));
    let ghost e2 = *ecs;
    put_scroll(ecs, id, EndlessScroll::new(width));
    proof {
        lemma_keeps_trans(e0, e1, e2);
        lemma_keeps_trans(e0, e2, *ecs);
        lemma_keeps_trans(e1, e2, *ecs);
    }
}

/// The ground tiles (entities 0 and 1), the cloud (2) and the perceptron picture (11).
fn setup_backgrounds(ecs: &mut ECS, sizes: &AssetSizes)
    requires
        old(ecs).wf(),
        old(ecs).count() == 12,
    ensures
        final(ecs).keeps_components(*old(ecs)),
        background_ready(*final(ecs), 0),
        background_ready(*final(ecs), 1),
        background_ready(*final(ecs), 2),
{
    let u = UNITS_PER_PIXEL;
    let w = sizes.ground.width as i64 * u;
    let ghost e0 = *ecs;
    let mut ground_mov = Movable::new(Vec2::new(0, -500 * u), Vec2::new(-START_SCROLL_SPEED, 0), Vec2::new(0, 0));
    setup_tile(ecs, 0, ground_mov, AssetTag::Ground1, w);
    let ghost e1 = *ecs;
    ground_mov.pos.x = ground_mov.pos.x + w;
    setup_tile(ecs, 1, ground_mov, AssetTag::Ground2, w);
    let ghost e2 = *ecs;
    let cloud_mov = Movable::new(Vec2::new(0, -200 * u), Vec2::new(-START_SCROLL_SPEED / 2, 0), Vec2::new(0, 0));
    setup_tile(ecs, 2, cloud_mov, AssetTag::Cloud, sizes.cloud.width as i64 * u);
    let ghost e3 = *ecs;
    let picture = Movable::new(Vec2::new(0, 100 * u), Vec2::new(0, 0), Vec2::new(0, 0));
    setup_tile(ecs, 11, picture, AssetTag::Perceptron, sizes.perceptron.width as i64 * u);
    proof {
        lemma_keeps_trans(e0, e1, e2);
        lemma_keeps_trans(e0, e2, e3);
        lemma_keeps_trans(e0, e3, *ecs);
        lemma_keeps_trans(e1, e2, e3);
        lemma_keeps_trans(e1, e3, *ecs);
        lemma_keeps_trans(e2, e3, *ecs);
        assert(e1.component::<Movable>(0) is Some && e1.component::<Sprite>(0) is Some && e1.component::<EndlessScroll>(0) is Some);
        assert(e2.component::<Movable>(1) is Some && e2.component::<Sprite>(1) is Some && e2.component::<EndlessScroll>(1) is Some);
        assert(e3.component::<Movable>(2) is Some && e3.component::<Sprite>(2) is Some && e3.component::<EndlessScroll>(2) is Some);
    }
}

/// The player, entity 10, whose controller is already in place.
fn setup_dino(ecs: &mut ECS)
    requires
        old(ecs).wf(),
        old(ecs).count() == 12,
    ensures
        final(ecs).keeps_components(*old(ecs)),
        final(ecs).component::<Movable>(10) == Some(dino_start()),
        final(ecs).component::<DinoState>(10) == Some(DinoState::Run),
        final(ecs).component::<Collider>(10) is Some,
        final(ecs).component::<Animation>(10) is Some,
        final(ecs).component::<AnimStateMachine<DinoState>>(10) is Some,
        final(ecs).component::<AnimStateMachine<DinoState>>(10).unwrap().wf(),
{
    let u = UNITS_PER_PIXEL;
    let mut dino_movable = Movable::new(
        Vec2::new(-400 * u, GROUND_Y_COORD + 43 * u),
        Vec2::new(0, 0),
        Vec2::new(0, DINO_GRAVITY),
    );
    dino_movable.ground_check_on();
    let body = BoxCollider::new(Vec2::new(14 * u, 25 * u)).with_offset(Vec2::new(-6 * u, -18 * u));
    let head = BoxCollider::new(Vec2::new(22 * u, 17 * u)).with_offset(Vec2::new(18 * u, 32 * u));
    let ghost e0 = *ecs;
    put_movable(ecs, 10, dino_movable);
    let ghost e1 = *ecs;
    put_collider(ecs, 10, Collider::new_double(body, head));
    let ghost e2 = *ecs;
    put_animation(ecs, 10, Animation::new(AssetTag::DinoAnimRun, 8));
    let ghost e3 = *ecs;
    put_state(ecs, 10, DinoState::Run);
    let ghost e4 = *ecs;
    put_machine(ecs, 10, AnimStateMachine::new(AssetTag::DinoStateMachine, DinoState::Run));
    proof {
        lemma_keeps_trans(e0, e1, e2);
        lemma_keeps_trans(e0, e2, e3);
        lemma_keeps_trans(e0, e3, e4);
        lemma_keeps_trans(e0, e4, *ecs);
        lemma_keeps_trans(e2, e3, e4);
        lemma_keeps_trans(e2, e4, *ecs);
        lemma_keeps_trans(e3, e4, *ecs);
        assert(dino_movable == dino_start());
    }
}

fn put_movable(ecs: &mut ECS, id: usize, v: Movable)
    requires
        old(ecs).wf(),
        id < old(ecs).count(),
    ensures
        final(ecs).keeps_components(*old(ecs)),
        final(ecs).component::<Movable>(id as int) == Some(v),
        forall|e: int| #[trigger] final(ecs).component::<DinoState>(e) == old(ecs).component::<DinoState>(e),
{
    let ghost e0 = *ecs;
    ecs.add_component(id, v);
    proof {
        lemma_add_movable_keeps(e0, *ecs, id as int, v);
        assert forall|e: int| #[trigger] ecs.component::<DinoState>(e) == e0.component::<DinoState>(e) by {
            lemma_add_other::<Movable, DinoState>(e0, *ecs, id as int, v, e);
        }
    }
}

fn put_collider(ecs: &mut ECS, id: usize, v: Collider)
    requires
        old(ecs).wf(),
        id < old(ecs).count(),
    ensures
        final(ecs).keeps_components(*old(ecs)),
        final(ecs).component::<Collider>(id as int) == Some(v),
        forall|e: int| #[trigger] final(ecs).component::<Movable>(e) == old(ecs).component::<Movable>(e),
        forall|e: int| #[trigger] final(ecs).component::<DinoState>(e) == old(ecs).component::<DinoState>(e),
{
    let ghost e0 = *ecs;
    ecs.add_component(id, v);
    proof {
        lemma_add_collider_keeps(e0, *ecs, id as int, v);
        assert forall|e: int| #[trigger] ecs.component::<Movable>(e) == e0.component::<Movable>(e) by {
            lemma_add_other::<Collider, Movable>(e0, *ecs, id as int, v, e);
        }
        assert forall|e: int| #[trigger] ecs.component::<DinoState>(e) == e0.component::<DinoState>(e) by {
            lemma_add_other::<Collider, DinoState>(e0, *ecs, id as int, v, e);
        }
    }
}

fn put_animation(ecs: &mut ECS, id: usize, v: Animation)
    requires
        old(ecs).wf(),
        id < old(ecs).count(),
    ensures
        final(ecs).keeps_components(*old(ecs)),
        final(ecs).component::<Animation>(id as int) == Some(v),
        forall|e: int| #[trigger] final(ecs).component::<Movable>(e) == old(ecs).component::<Movable>(e),
        forall|e: int| #[trigger] final(ecs).component::<DinoState>(e) == old(ecs).component::<DinoState>(e),
{
    let ghost e0 = *ecs;
    ecs.add_component(id, v);
    proof {
        lemma_add_animation_keeps(e0, *ecs, id as int, v);
        assert forall|e: int| #[trigger] ecs.component::<Movable>(e) == e0.component::<Movable>(e) by {
            lemma_add_other::<Animation, Movable>(e0, *ecs, id as int, v, e);
        }
        assert forall|e: int| #[trigger] ecs.component::<DinoState>(e) == e0.component::<DinoState>(e) by {
            lemma_add_other::<Animation, DinoState>(e0, *ecs, id as int, v, e);
        }
    }
}

fn put_state(ecs: &mut ECS, id: usize, v: DinoState)
    requires
        old(ecs).wf(),
        id < old(ecs).count(),
    ensures
        final(ecs).keeps_components(*old(ecs)),
        final(ecs).component::<DinoState>(id as int) == Some(v),
        forall|e: int| #[trigger] final(ecs).component::<Movable>(e) == old(ecs).component::<Movable>(e),
{
    let ghost e0 = *ecs;
    ecs.add_component(id, v);
    proof {
        lemma_add_state_keeps(e0, *ecs, id as int, v);
        assert forall|e: int| #[trigger] ecs.component::<Movable>(e) == e0.component::<Movable>(e) by {
            lemma_add_other::<DinoState, Movable>(e0, *ecs, id as int, v, e);
        }
    }
}

fn put_machine(ecs: &mut ECS, id: usize, v: AnimStateMachine<DinoState>)
    requires
        old(ecs).wf(),
        id < old(ecs).count(),
        v.wf(),
    ensures
        final(ecs).keeps_components(*old(ecs)),
        final(ecs).component::<AnimStateMachine<DinoState>>(id as int) == Some(v),
        forall|e: int| #[trigger] final(ecs).component::<Movable>(e) == old(ecs).component::<Movable>(e),
        forall|e: int| #[trigger] final(ecs).component::<DinoState>(e) == old(ecs).component::<DinoState>(e),
{
    let ghost e0 = *ecs;
    ecs.add_component(id, v);
    proof {
        lemma_add_machine_keeps(e0, *ecs, id as int, v);
        assert forall|e: int| #[trigger] ecs.component::<Movable>(e) == e0.component::<Movable>(e) by {
            lemma_add_other::<AnimStateMachine<DinoState>, Movable>(e0, *ecs, id as int, v, e);
        }
        assert forall|e: int| #[trigger] ecs.component::<DinoState>(e) == e0.component::<DinoState>(e) by {
            lemma_add_other::<AnimStateMachine<DinoState>, DinoState>(e0, *ecs, id as int, v, e);
        }
    }
}

fn put_controller(ecs: &mut ECS, id: usize, v: DinoController)
    requires
        old(ecs).wf(),
        id < old(ecs).count(),
        old(ecs).component::<DinoController>(id as int) is None,
    ensures
        final(ecs).keeps_components(*old(ecs)),
        final(ecs).component::<DinoController>(id as int) == Some(v),
        forall|e: int| #[trigger] final(ecs).component::<DinoState>(e) == old(ecs).component::<DinoState>(e),
{
    let ghost e0 = *ecs;
    ecs.add_component(id, v);
    proof {
        lemma_add_controller_keeps(e0, *ecs, id as int, v);
        assert forall|e: int| #[trigger] ecs.component::<DinoState>(e) == e0.component::<DinoState>(e) by {
            lemma_add_other::<DinoController, DinoState>(e0, *ecs, id as int, v, e);
        }
    }
}

fn put_sprite(ecs: &mut ECS, id: usize, v: Sprite)
    requires
        old(ecs).wf(),
        id < old(ecs).count(),
    ensures
        final(ecs).keeps_components(*old(ecs)),
        final(ecs).component::<Sprite>(id as int) == Some(v),
        forall|e: int| #[trigger] final(ecs).component::<DinoState>(e) == old(ecs).component::<DinoState>(e),
{
    let ghost e0 = *ecs;
    ecs.add_component(id, v);
    proof {
        lemma_add_sprite_keeps(e0, *ecs, id as int, v);
        assert forall|e: int| #[trigger] ecs.component::<DinoState>(e) == e0.component::<DinoState>(e) by {
            lemma_add_other::<Sprite, DinoState>(e0, *ecs, id as int, v, e);
        }
    }
}

fn put_scroll(ecs: &mut ECS, id: usize, v: EndlessScroll)
    requires
        old(ecs).wf(),
        id < old(ecs).count(),
    ensures
        final(ecs).keeps_components(*old(ecs)),
        final(ecs).component::<EndlessScroll>(id as int) == Some(v),
        forall|e: int| #[trigger] final(ecs).component::<DinoState>(e) == old(ecs).component::<DinoState>(e),
{
    let ghost e0 = *ecs;
    ecs.add_component(id, v);
    proof {
        lemma_add_scroll_keeps(e0, *ecs, id as int, v);
        assert forall|e: int| #[trigger] ecs.component::<DinoState>(e) == e0.component::<DinoState>(e) by {
            lemma_add_other::<EndlessScroll, DinoState>(e0, *ecs, id as int, v, e);
        }
    }
}

fn put_ptero(ecs: &mut ECS, id: usize, v: Ptero)
    requires
        old(ecs).wf(),
        id < old(ecs).count(),
    ensures
        final(ecs).keeps_components(*old(ecs)),
        final(ecs).component::<Ptero>(id as int) == Some(v),
        forall|e: int| #[trigger] final(ecs).component::<DinoState>(e) == old(ecs).component::<DinoState>(e),
{
    let ghost e0 = *ecs;
    ecs.add_component(id, v);
    proof {
        lemma_add_ptero_keeps(e0, *ecs, id as int, v);
        assert forall|e: int| #[trigger] ecs.component::<DinoState>(e) == e0.component::<DinoState>(e) by {
            lemma_add_other::<Ptero, DinoState>(e0, *ecs, id as int, v, e);
        }
    }
}


/// Obstacle `m` put back off screen.
pub open spec fn parked(m: Movable) -> Movable {
    Movable { pos: Vec2 { x: parked_x() as i64, y: m.pos.y }, ..m }
}

/// The player put back on its start height.
pub open spec fn reset_dino(m: Movable) -> Movable {
    Movable { pos: Vec2 { x: m.pos.x, y: (GROUND_Y_COORD + 43 * UNITS_PER_PIXEL) as i64 }, ..m }
}

impl Game {
    /// Starts a new run unless the loss was less than the grace time ago (then
    /// the run stays over). A new run has no score, the player back on its
    /// start height and running, every obstacle back off screen and its slot
    /// inactive, the scroll speed at its start value and the spawn timer at zero.
    pub fn restart(&mut self, time: u64) -> (r: bool)
        requires
            old(self).wf(),
        ensures
            final(self).wf(),
            r == (time >= old(self).lose_time + RESTART_GRACE),
            !r ==> {
                &&& !final(self).input.active()
                &&& !final(self).input.jumping()
                &&& !final(self).input.paused()
                &&& !final(self).input.restarting()
                &&& final(self).score == old(self).score
                &&& final(self).obstacle_manager == old(self).obstacle_manager
                &&& final(self).ecs == old(self).ecs
            },
            r ==> {
                let d = old(self).ent.dino as int;
                let slots = old(self).obstacle_manager.slots();
                &&& final(self).input.active()
                &&& !final(self).input.jumping()
                &&& !final(self).input.paused()
                &&& !final(self).input.restarting()
                &&& final(self).score == (Score { cur: 0, next_sound: POINT_SOUND_STEP, ..old(self).score })
                &&& final(self).obstacle_manager.speed() == START_SCROLL_SPEED
                &&& final(self).obstacle_manager.next_spawn() == 0
                &&& final(self).obstacle_manager.slots().len() == slots.len()
                &&& forall|i: int|
                    0 <= i < slots.len() ==> #[trigger] final(self).obstacle_manager.slots()[i] == (
                    ObstacleEntry { active: false, ..slots[i] })
                &&& !final(self).restart_button.active
                &&& final(self).ecs.component::<Movable>(d) == Some(
                    reset_dino(old(self).ecs.component::<Movable>(d).unwrap()),
                )
                &&& final(self).ecs.component::<DinoState>(d) == Some(DinoState::Run)
                &&& forall|i: int|
                    0 <= i < slots.len() ==> #[trigger] final(self).ecs.component::<Movable>(slots[i].id as int)
                        == Some(parked(old(self).ecs.component::<Movable>(slots[i].id as int).unwrap()))
            },
            final(self).ent == old(self).ent,
            final(self).lose_time == old(self).lose_time,
    {
        let u = UNITS_PER_PIXEL;
        self.input = InputState::new();
        if time < self.lose_time + RESTART_GRACE {
            self.input.game_over();
            return false;
        }
        self.score.cur = 0;
        self.score.next_sound = POINT_SOUND_STEP;
        let dino = self.ent.dino;
        let ghost e0 = self.ecs;
        let ghost slots = self.obstacle_manager.slots();
        let mut dino_movable = self.ecs.get_component::<Movable>(dino).unwrap();
        dino_movable.pos.y = GROUND_Y_COORD + 43 * u;
        self.ecs.set_component(dino, dino_movable);
        let ghost e1 = self.ecs;
        self.ecs.set_component(dino, DinoState::Run);
        proof {
            lemma_set_movable_keeps(e0, e1, dino as int, dino_movable);
            lemma_set_state_keeps(e1, self.ecs, dino as int, DinoState::Run);
            lemma_keeps_trans(e0, e1, self.ecs);
            lemma_set_same::<DinoState>(e1, self.ecs, dino as int, DinoState::Run, dino as int);
            assert forall|e: int| #[trigger] self.ecs.component::<Movable>(e) == if e == dino as int {
                Some(dino_movable)
            } else {
                e0.component::<Movable>(e)
            } by {
                lemma_set_same::<Movable>(e0, e1, dino as int, dino_movable, e);
                lemma_set_other::<DinoState, Movable>(e1, self.ecs, dino as int, DinoState::Run, e);
            }
            assert(dino_movable == reset_dino(e0.component::<Movable>(dino as int).unwrap()));
        }
        let ids = self.obstacle_manager.ids();
        let mut i: usize = 0;
        while i < ids.len()
            invariant
                i <= ids@.len(),
                u == UNITS_PER_PIXEL,
                ids@.len() == slots.len(),
                forall|j: int| 0 <= j < ids@.len() ==> #[trigger] ids@[j] == slots[j].id,
                slots == old(self).obstacle_manager.slots(),
                e0 == old(self).ecs,
                dino == old(self).ent.dino,
                old(self).wf(),
                self.ecs.wf(),
                self.ecs.keeps_components(e0),
                self.ent == old(self).ent,
                self.obstacle_manager == old(self).obstacle_manager,
                self.lose_time == old(self).lose_time,
                self.input.active(),
                !self.input.jumping(),
                !self.input.paused(),
                !self.input.restarting(),
                self.score == (Score { cur: 0, next_sound: POINT_SOUND_STEP, ..old(self).score }),
                self.restart_button == old(self).restart_button,
                self.ecs.component::<Movable>(dino as int) == Some(reset_dino(e0.component::<Movable>(dino as int).unwrap())),
                self.ecs.component::<DinoState>(dino as int) == Some(DinoState::Run),
                forall|j: int|
                    0 <= j < i ==> #[trigger] self.ecs.component::<Movable>(slots[j].id as int) == Some(
                        parked(e0.component::<Movable>(slots[j].id as int).unwrap()),
                    ),
                forall|j: int|
                    i <= j < slots.len() ==> #[trigger] self.ecs.component::<Movable>(slots[j].id as int)
                        == e0.component::<Movable>(slots[j].id as int),
            decreases ids@.len() - i,
        {
            let id = ids[i];
            let ghost before = self.ecs;
            proof {
                assert(slots[i as int].id == id);
                assert(e0.component::<Movable>(id as int) is Some);
                assert(self.ecs.component::<Movable>(id as int) == e0.component::<Movable>(id as int));
            }
            let mut mov = self.ecs.get_component::<Movable>(id).unwrap();
            mov.pos.x = SCREEN.0 + 50 * u;
            self.ecs.set_component(id, mov);
            proof {
                lemma_set_movable_keeps(before, self.ecs, id as int, mov);
                lemma_keeps_trans(e0, before, self.ecs);
                lemma_set_other::<Movable, DinoState>(before, self.ecs, id as int, mov, dino as int);
                assert(old(self).obstacle_manager.slots()[i as int].id != old(self).ent.dino as int);
                assert forall|e: int| e != id as int implies #[trigger] self.ecs.component::<Movable>(e) == before.component::<Movable>(e) by {
                    lemma_set_same::<Movable>(before, self.ecs, id as int, mov, e);
                }
                lemma_set_same::<Movable>(before, self.ecs, id as int, mov, id as int);
                assert forall|j: int| 0 <= j < slots.len() && j != i implies slots[j].id != id by {
                    if j < i {
                        assert(slots[j].id != slots[i as int].id);
                    } else {
                        assert(slots[i as int].id != slots[j].id);
                    }
                }
            }
            i = i + 1;
        }
        let ghost m0 = self.obstacle_manager;
        self.obstacle_manager.restart();
        self.restart_button.deactivate();
        proof {
            lemma_world_kept(e0, self.ecs, self.ent, m0);
            lemma_ready_kept(m0, self.obstacle_manager, self.ecs, self.ecs);
        }
        true
    }

    /// Whether the player touches an active obstacle.
    pub fn check_collision(&self) -> (r: bool)
        requires
            self.wf(),
        ensures
            r == exists|i: int|
                0 <= i < self.obstacle_manager.slots().len() && self.obstacle_manager.slots()[i].active
                    && #[trigger] crate::collision::entities_collide(
                    self.ecs,
                    self.ent.dino as int,
                    self.obstacle_manager.slots()[i].id as int,
                ),
    {
        self.obstacle_manager.check_collision(&self.ecs, self.ent.dino)
    }

    /// The player's position and the position of the nearest upcoming obstacle,
    /// from which the learning agents compute their signals; `None` while no
    /// obstacle is active.
    pub fn obstacle_signal(&self) -> (r: Option<(Vec2, Vec2)>)
        requires
            self.wf(),
        ensures
            r is Some <==> exists|j: int|
                0 <= j < self.obstacle_manager.slots().len() && (#[trigger] self.obstacle_manager.slots()[j]).active,
            r is Some ==> {
                &&& r.unwrap().0 == self.ecs.component::<Movable>(self.ent.dino as int).unwrap().pos
                &&& exists|i: int| #[trigger] nearest_slot(self.obstacle_manager, self.ecs, i, r.unwrap().1)
            },
    {
        let dino = self.ecs.get_component::<Movable>(self.ent.dino).unwrap().pos;
        match self.obstacle_manager.get_obstacle(&self.ecs) {
            Some(p) => {
                proof {
                    let i = choose|i: int| #[trigger] nearest_slot(self.obstacle_manager, self.ecs, i, p);
                    assert(nearest_slot(self.obstacle_manager, self.ecs, i, p));
                    assert(self.obstacle_manager.slots()[i].active);
                    let r = Some((dino, p));
                    assert(r.unwrap().1 == p);
                    assert(nearest_slot(self.obstacle_manager, self.ecs, i, r.unwrap().1));
                }
                Some((dino, p))
            },
            None => None,
        }
    }

    /// The run is lost at `time`: the player shows as dead, the run is over
    /// and a restart is requested, and the best score is raised if beaten
    /// (the new best is returned, to be stored).
    pub fn lose(&mut self, time: u64) -> (r: Option<u32>)
        requires
            old(self).wf(),
            time < TIME_LIMIT,
        ensures
            final(self).wf(),
            final(self).lose_time == time,
            !final(self).input.active(),
            final(self).input.restarting(),
            ({
                let pts = (old(self).score.cur as int) / (SCORE_UNIT as int);
                let pts32 = if pts > u32::MAX { u32::MAX as int } else { pts };
                &&& (pts32 > old(self).score.high) == (r is Some)
                &&& r is Some ==> r.unwrap() == pts32 && final(self).score.high == pts32
                &&& r is None ==> final(self).score.high == old(self).score.high
            }),
            final(self).score.cur == old(self).score.cur,
            final(self).ent == old(self).ent,
            final(self).obstacle_manager == old(self).obstacle_manager,
    {
        let dino = self.ent.dino;
        let ghost e0 = self.ecs;
        self.ecs.set_component::<DinoState>(dino, DinoState::Dead);
        proof {
            lemma_set_state_keeps(e0, self.ecs, dino as int, DinoState::Dead);
            lemma_world_kept(e0, self.ecs, self.ent, self.obstacle_manager);
        }
        let ghost e1 = self.ecs;
        AnimStateMachine::<DinoState>::update(&mut self.ecs, dino);
        proof {
            lemma_world_kept(e1, self.ecs, self.ent, self.obstacle_manager);
        }
        let ghost e2 = self.ecs;
        Animation::update(&mut self.ecs, dino, time);
        proof {
            lemma_world_kept(e2, self.ecs, self.ent, self.obstacle_manager);
        }
        let pts = self.score.cur / SCORE_UNIT;
        let pts32: u32 = if pts > u32::MAX as u64 {
            u32::MAX
        } else {
            pts as u32
        };
        let r = if self.score.high < pts32 {
            self.score.high = pts32;
            Some(pts32)
        } else {
            None
        };
        self.input.game_over();
        self.input.set_restart();
        self.lose_time = time;
        r
    }

    /// One fixed step of the frame loop at `time`, `dt` milliseconds after the
    /// previous one. Input comes first: a pending restart request ends the
    /// step; while paused or after the run nothing moves. During a run the
    /// score grows, the obstacles advance, spawn and speed up, and the player
    /// and the background tiles take one integration step.
    pub fn tick(&mut self, rng: &mut Rand32, time: u64, dt: u32) -> (r: TickOutcome)
        requires
            old(self).wf(),
            time < TIME_LIMIT,
        ensures
            final(self).wf(),
            final(self).ent == old(self).ent,
            wants_restart(old(self).input) ==> (r is Restarted || r is RestartRefused),
            (r is Restarted) == (wants_restart(old(self).input) && time >= old(self).lose_time + RESTART_GRACE),
            !wants_restart(old(self).input) && (old(self).input.paused() || !old(self).input.active()) ==> r is Idle,
            !wants_restart(old(self).input) && !old(self).input.paused() && old(self).input.active() ==> r is Running,
            r is Idle ==> final(self).score == old(self).score && final(self).obstacle_manager
                == old(self).obstacle_manager,
            r is Restarted ==> {
                &&& final(self).score.cur == 0
                &&& final(self).obstacle_manager.speed() == START_SCROLL_SPEED
                &&& forall|i: int|
                    0 <= i < final(self).obstacle_manager.slots().len()
                        ==> !(#[trigger] final(self).obstacle_manager.slots()[i]).active
            },
            r matches TickOutcome::Running { jumped, point_sound } ==> {
                let g = grown_score(old(self).score.cur as int, dt as int);
                let d = old(self).ent.dino as int;
                let m0 = old(self).ecs.component::<Movable>(d).unwrap();
                &&& final(self).score.cur == g
                &&& point_sound == (g >= old(self).score.next_sound)
                &&& point_sound ==> final(self).score.next_sound == if old(self).score.next_sound
                    + POINT_SOUND_STEP > u64::MAX {
                    u64::MAX as int
                } else {
                    old(self).score.next_sound + POINT_SOUND_STEP
                }
                &&& !point_sound ==> final(self).score.next_sound == old(self).score.next_sound
                &&& final(self).score.high == old(self).score.high
                &&& jumped == (old(self).input.jumping() && m0.on_ground)
                &&& exists|ea: ECS, eb: ECS|
                    #[trigger] updated(final(self).obstacle_manager, eb, old(self).obstacle_manager, ea, time as int, dt as int)
                &&& final(self).obstacle_manager.speed() == ramped_speed(old(self).obstacle_manager.speed(), dt as int)
                &&& final(self).ecs.component::<Movable>(d) == Some(
                    stepped(after_input(m0, old(self).input), old(self).ecs.component::<Collider>(d), dt as int),
                )
                &&& exists|m: Movable|
                    #[trigger] final(self).ecs.component::<Movable>(old(self).ent.ground1 as int) == Some(
                        stepped(m, final(self).ecs.component::<Collider>(old(self).ent.ground1 as int), dt as int),
                    )
                &&& exists|m: Movable|
                    #[trigger] final(self).ecs.component::<Movable>(old(self).ent.ground2 as int) == Some(
                        stepped(m, final(self).ecs.component::<Collider>(old(self).ent.ground2 as int), dt as int),
                    )
                &&& exists|m: Movable|
                    #[trigger] final(self).ecs.component::<Movable>(old(self).ent.cloud as int) == Some(
                        stepped(m, final(self).ecs.component::<Collider>(old(self).ent.cloud as int), dt as int),
                    )
            },
    {
        let dino = self.ent.dino;
        let ghost e0 = self.ecs;
        let ghost m0 = e0.component::<Movable>(dino as int).unwrap();
        let jumped = player_handle_input(&mut self.ecs, dino, &mut self.input);
        let ghost ea = self.ecs;
        proof {
            lemma_world_kept(e0, ea, self.ent, self.obstacle_manager);
            if ea != e0 {
                let v = after_input(m0, old(self).input);
                lemma_set_same::<Movable>(e0, ea, dino as int, v, dino as int);
                lemma_set_other::<Movable, Collider>(e0, ea, dino as int, v, dino as int);
            }
            assert(ea.component::<Movable>(dino as int) == Some(after_input(m0, old(self).input)));
            assert(ea.component::<Collider>(dino as int) == e0.component::<Collider>(dino as int));
        }
        if self.input.restart() {
            if self.restart(time) {
                return TickOutcome::Restarted;
            }
            return TickOutcome::RestartRefused;
        }
        if self.input.pause() || !self.input.game_active() {
            return TickOutcome::Idle;
        }
        // score
        let cur = self.score.cur as u128;
        proof {
            assert((dt as int) * (3_000_000 + cur as int) <= 0x1_0000_0000 * 0x1_0000_0000_0100_0000) by (nonlinear_arith)
                requires
                    0 <= dt < 0x1_0000_0000,
                    0 <= cur < 0x1_0000_0000_0000_0000,
            ;
        }
        let g = cur + (dt as u128) * (3_000_000 + cur) / 300_000;
        self.score.cur = if g > u64::MAX as u128 {
            u64::MAX
        } else {
            g as u64
        };
        let point_sound = self.score.cur >= self.score.next_sound;
        if point_sound {
            self.score.next_sound = if self.score.next_sound > u64::MAX - POINT_SOUND_STEP {
                u64::MAX
            } else {
                self.score.next_sound + POINT_SOUND_STEP
            };
        }
        // obstacles
        let ghost mgr0 = self.obstacle_manager;
        self.obstacle_manager.update(&mut self.ecs, rng, time, dt);
        let ghost eb = self.ecs;
        proof {
            lemma_world_kept(ea, eb, self.ent, mgr0);
            lemma_ready_kept(mgr0, self.obstacle_manager, eb, eb);
            assert(eb.table(1) == ea.table(1));
            assert(eb.component::<Collider>(dino as int) == ea.component::<Collider>(dino as int));
            assert(updated(self.obstacle_manager, eb, mgr0, ea, time as int, dt as int));
        }
        // every entity's components
        DinoController::update(&mut self.ecs, dino);
        proof {
            lemma_world_kept(eb, self.ecs, self.ent, self.obstacle_manager);
            let st = if eb.component::<Movable>(dino as int).unwrap().on_ground { DinoState::Run } else { DinoState::Jump };
            lemma_set_other::<DinoState, Movable>(eb, self.ecs, dino as int, st, dino as int);
            lemma_set_other::<DinoState, Collider>(eb, self.ecs, dino as int, st, dino as int);
        }
        self.scroll(self.ent.ground1);
        self.scroll(self.ent.ground2);
        self.scroll(self.ent.cloud);
        let ghost ec = self.ecs;
        self.step(dino, dt);
        proof {
            assert(self.ecs.component::<Movable>(dino as int) == Some(
                stepped(after_input(m0, old(self).input), old(self).ecs.component::<Collider>(dino as int), dt as int),
            ));
        }
        self.step(self.ent.ground1, dt);
        self.step(self.ent.ground2, dt);
        self.step(self.ent.cloud, dt);
        let ptero = self.ent.ptero;
        let ghost ed = self.ecs;
        Ptero::update(&mut self.ecs, rng, ptero);
        proof {
            lemma_world_kept(ed, self.ecs, self.ent, self.obstacle_manager);
        }
        let ghost ee = self.ecs;
        AnimStateMachine::<DinoState>::update(&mut self.ecs, dino);
        proof {
            lemma_world_kept(ee, self.ecs, self.ent, self.obstacle_manager);
        }
        self.animate(dino, time);
        self.animate(ptero, time);
        TickOutcome::Running { jumped, point_sound }
    }

    /// Wraps a background tile.
    fn scroll(&mut self, id: usize)
        requires
            old(self).wf(),
            id == old(self).ent.ground1 || id == old(self).ent.ground2 || id == old(self).ent.cloud,
        ensures
            final(self).wf(),
            moves_only(final(self).ecs, old(self).ecs, id as int),
            final(self).ent == old(self).ent,
            final(self).score == old(self).score,
            final(self).obstacle_manager == old(self).obstacle_manager,
            final(self).input == old(self).input,
            final(self).lose_time == old(self).lose_time,
    {
        let ghost e0 = self.ecs;
        EndlessScroll::update(&mut self.ecs, id);
        proof {
            lemma_world_kept(e0, self.ecs, self.ent, self.obstacle_manager);
        }
    }

    /// One integration step of an entity.
    fn step(&mut self, id: usize, dt: u32)
        requires
            old(self).wf(),
            id < old(self).ecs.count(),
            old(self).ecs.component::<Movable>(id as int) is Some,
        ensures
            final(self).wf(),
            moves_only(final(self).ecs, old(self).ecs, id as int),
            final(self).ecs.component::<Movable>(id as int) == Some(
                stepped(
                    old(self).ecs.component::<Movable>(id as int).unwrap(),
                    old(self).ecs.component::<Collider>(id as int),
                    dt as int,
                ),
            ),
            final(self).ent == old(self).ent,
            final(self).score == old(self).score,
            final(self).obstacle_manager == old(self).obstacle_manager,
            final(self).input == old(self).input,
            final(self).lose_time == old(self).lose_time,
    {
        let ghost e0 = self.ecs;
        Movable::update_pos(&mut self.ecs, id, dt);
        proof {
            lemma_world_kept(e0, self.ecs, self.ent, self.obstacle_manager);
            let v = stepped(e0.component::<Movable>(id as int).unwrap(), e0.component::<Collider>(id as int), dt as int);
            lemma_set_same::<Movable>(e0, self.ecs, id as int, v, id as int);
        }
    }

    /// Advances an entity's animation.
    fn animate(&mut self, id: usize, time: u64)
        requires
            old(self).wf(),
            id == old(self).ent.dino || id == old(self).ent.ptero,
            time < TIME_LIMIT,
        ensures
            final(self).wf(),
            moves_none(final(self).ecs, old(self).ecs),
            final(self).ent == old(self).ent,
            final(self).score == old(self).score,
            final(self).obstacle_manager == old(self).obstacle_manager,
            final(self).input == old(self).input,
            final(self).lose_time == old(self).lose_time,
    {
        let ghost e0 = self.ecs;
        Animation::update(&mut self.ecs, id, time);
        proof {
            lemma_world_kept(e0, self.ecs, self.ent, self.obstacle_manager);
        }
    }
}

} // verus!
