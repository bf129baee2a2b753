use vstd::prelude::*;
use crate::types_and_constants::{EXTENT_LIMIT, NUM_OF_COLLIDERS};
use crate::ecs::ECS;
use crate::movable::Movable;
use crate::vec2::{add_sat, add_saturating, Vec2};

verus! {

/// One edge of an axis-aligned box.
#[derive(Clone, Copy, Debug, PartialEq, Eq, Structural)]
pub enum BoundType {
    Left,
    Right,
    Up,
    Down,
}

impl BoundType {
    pub open spec fn is_horizontal(self) -> bool {
        self is Left || self is Right
    }

    /// Left and down edges are the extremes toward smaller coordinates.
    pub open spec fn seeks_min(self) -> bool {
        self is Left || self is Down
    }

    pub open spec fn opposite_of(self) -> BoundType {
        match self {
            BoundType::Up => BoundType::Down,
            BoundType::Down => BoundType::Up,
            BoundType::Left => BoundType::Right,
            BoundType::Right => BoundType::Left,
        }
    }

    pub fn horizontal(&self) -> (r: bool)
        ensures
            r == self.is_horizontal(),
    {
        match self {
            BoundType::Left | BoundType::Right => true,
            _ => false,
        }
    }

    pub fn vertical(&self) -> (r: bool)
        ensures
            r == !self.is_horizontal(),
    {
        !self.horizontal()
    }

    pub fn opposite(&self) -> (r: BoundType)
        ensures
            r == self.opposite_of(),
    {
        match self {
            BoundType::Up => BoundType::Down,
            BoundType::Down => BoundType::Up,
            BoundType::Left => BoundType::Right,
            BoundType::Right => BoundType::Left,
        }
    }
}

/// An axis-aligned box given by its half extents, placed at an offset from
/// the position of the entity that owns it.
#[derive(Clone, Copy, Debug, PartialEq, Eq, Structural)]
pub struct BoxCollider {
    half_size: Vec2,
    offset: Vec2,
}

/// Corner `k` (of four) of the box with center `(cx, cy)` and half extents `h`.
pub open spec fn corner(cx: int, cy: int, h: Vec2, k: int) -> (int, int) {
    if k == 0 {
        (cx - h.x, cy - h.y)
    } else if k == 1 {
        (cx - h.x, cy + h.y)
    } else if k == 2 {
        (cx + h.x, cy - h.y)
    } else {
        (cx + h.x, cy + h.y)
    }
}

/// Some corner of box `a` centered at `(ax, ay)` lies in box `b` centered at `(bx, by)`.
pub open spec fn corners_inside(
    a: BoxCollider,
    ax: int,
    ay: int,
    b: BoxCollider,
    bx: int,
    by: int,
) -> bool {
    exists|k: int|
        0 <= k < 4 && #[trigger] b.contains_at(
            bx,
            by,
            corner(ax, ay, a.half(), k).0,
            corner(ax, ay, a.half(), k).1,
        )
}

/// Two boxes, owned by entities at `pos1` and `pos2`, overlap: a corner of
/// either one lies inside the other.
pub open spec fn boxes_overlap(c1: BoxCollider, c2: BoxCollider, pos1: Vec2, pos2: Vec2) -> bool {
    let x1 = pos1.x + c1.offs().x;
    let y1 = pos1.y + c1.offs().y;
    let x2 = pos2.x + c2.offs().x;
    let y2 = pos2.y + c2.offs().y;
    corners_inside(c1, x1, y1, c2, x2, y2) || corners_inside(c2, x2, y2, c1, x1, y1)
}

/// Bound on the wide intermediate coordinates of the overlap test.
pub open spec fn wide(v: int) -> bool {
    -0x1_0000_0000_0000_0000_0000 <= v <= 0x1_0000_0000_0000_0000_0000
}

impl BoxCollider {
    #[verifier::type_invariant]
    spec fn inv(self) -> bool {
        self.half_size.within(EXTENT_LIMIT as int) && self.offset.within(EXTENT_LIMIT as int)
    }

    pub closed spec fn half(self) -> Vec2 {
        self.half_size
    }

    pub closed spec fn offs(self) -> Vec2 {
        self.offset
    }

    /// The point `(px, py)` lies in this box when its center is `(cx, cy)` (edges included).
    pub open spec fn contains_at(self, cx: int, cy: int, px: int, py: int) -> bool {
        cx - self.half().x <= px <= cx + self.half().x && cy - self.half().y <= py <= cy
            + self.half().y
    }

    /// Offset from the owner's position to the middle of the given edge.
    pub open spec fn bound_offset_of(self, bound: BoundType) -> Vec2 {
        let o = self.offs();
        let h = self.half();
        match bound {
            BoundType::Up => Vec2 { x: o.x, y: (o.y + h.y) as i64 },
            BoundType::Down => Vec2 { x: o.x, y: (o.y - h.y) as i64 },
            BoundType::Left => Vec2 { x: (o.x - h.x) as i64, y: o.y },
            BoundType::Right => Vec2 { x: (o.x + h.x) as i64, y: o.y },
        }
    }

    pub fn new(half_size: Vec2) -> (r: BoxCollider)
        requires
            half_size.within(EXTENT_LIMIT as int),
        ensures
            r.half() == half_size,
            r.offs() == (Vec2 { x: 0, y: 0 }),
    {
        BoxCollider { half_size, offset: Vec2::new(0, 0) }
    }

    pub fn with_offset(&self, offset: Vec2) -> (r: BoxCollider)
        requires
            offset.within(EXTENT_LIMIT as int),
        ensures
            r.half() == self.half(),
            r.offs() == offset,
    {
        proof {
            use_type_invariant(self);
        }
        BoxCollider { half_size: self.half_size, offset }
    }

    /// Whether `point` lies in this box centered at `pos` (the offset is not applied).
    pub fn contains_point(&self, pos: Vec2, point: Vec2) -> (r: bool)
        ensures
            r == self.contains_at(pos.x as int, pos.y as int, point.x as int, point.y as int),
    {
        self.contains_wide(pos.x as i128, pos.y as i128, point.x as i128, point.y as i128)
    }

    fn contains_wide(&self, cx: i128, cy: i128, px: i128, py: i128) -> (r: bool)
        requires
            wide(cx as int),
            wide(cy as int),
            wide(px as int),
            wide(py as int),
        ensures
            r == self.contains_at(cx as int, cy as int, px as int, py as int),
    {
        proof {
            use_type_invariant(self);
        }
        let hx = self.half_size.x as i128;
        let hy = self.half_size.y as i128;
        px >= cx - hx && px <= cx + hx && py >= cy - hy && py <= cy + hy
    }

    fn get_corners(&self, cx: i128, cy: i128) -> (r: [(i128, i128); 4])
        requires
            -0x1_0000_0000_0000_0000 <= cx <= 0x1_0000_0000_0000_0000,
            -0x1_0000_0000_0000_0000 <= cy <= 0x1_0000_0000_0000_0000,
        ensures
            forall|k: int|
                0 <= k < 4 ==> (#[trigger] r@[k]).0 == corner(cx as int, cy as int, self.half(), k).0
                    && r@[k].1 == corner(cx as int, cy as int, self.half(), k).1,
            forall|k: int| 0 <= k < 4 ==> wide((#[trigger] r@[k]).0 as int) && wide(r@[k].1 as int),
    {
        proof {
            use_type_invariant(self);
        }
        let hx = self.half_size.x as i128;
        let hy = self.half_size.y as i128;
        [(cx - hx, cy - hy), (cx - hx, cy + hy), (cx + hx, cy - hy), (cx + hx, cy + hy)]
    }

    /// Whether some corner of `a` (centered at `(ax, ay)`) lies in `b` (centered at `(bx, by)`).
    fn any_corner_inside(a: &BoxCollider, ax: i128, ay: i128, b: &BoxCollider, bx: i128, by: i128) -> (r:
        bool)
        requires
            -0x1_0000_0000_0000_0000 <= ax <= 0x1_0000_0000_0000_0000,
            -0x1_0000_0000_0000_0000 <= ay <= 0x1_0000_0000_0000_0000,
            wide(bx as int),
            wide(by as int),
        ensures
            r == corners_inside(*a, ax as int, ay as int, *b, bx as int, by as int),
    {
        let corners = a.get_corners(ax, ay);
        let mut k: usize = 0;
        while k < 4
            invariant
                0 <= k <= 4,
                wide(bx as int),
                wide(by as int),
                forall|j: int|
                    0 <= j < 4 ==> (#[trigger] corners@[j]).0 == corner(
                        ax as int,
                        ay as int,
                        a.half(),
                        j,
                    ).0 && corners@[j].1 == corner(ax as int, ay as int, a.half(), j).1,
                forall|j: int|
                    0 <= j < 4 ==> wide((#[trigger] corners@[j]).0 as int) && wide(
                        corners@[j].1 as int,
                    ),
                forall|j: int|
                    0 <= j < k ==> !#[trigger] b.contains_at(
                        bx as int,
                        by as int,
                        corner(ax as int, ay as int, a.half(), j).0,
                        corner(ax as int, ay as int, a.half(), j).1,
                    ),
            decreases 4 - k,
        {
            let (px, py) = corners[k];
            if b.contains_wide(bx, by, px, py) {
                assert(b.contains_at(
                    bx as int,
                    by as int,
                    corner(ax as int, ay as int, a.half(), k as int).0,
                    corner(ax as int, ay as int, a.half(), k as int).1,
                ));
                return true;
            }
            k = k + 1;
        }
        false
    }

    /// Whether two boxes, owned by entities at `pos1` and `pos2`, overlap.
    pub fn check_collision(col1: BoxCollider, col2: BoxCollider, pos1: Vec2, pos2: Vec2) -> (r:
        bool)
        ensures
            r == boxes_overlap(col1, col2, pos1, pos2),
    {
        proof {
            use_type_invariant(&col1);
            use_type_invariant(&col2);
        }
        let x1 = pos1.x as i128 + col1.offset.x as i128;
        let y1 = pos1.y as i128 + col1.offset.y as i128;
        let x2 = pos2.x as i128 + col2.offset.x as i128;
        let y2 = pos2.y as i128 + col2.offset.y as i128;
        if BoxCollider::any_corner_inside(&col1, x1, y1, &col2, x2, y2) {
            return true;
        }
        BoxCollider::any_corner_inside(&col2, x2, y2, &col1, x1, y1)
    }

    pub fn get_bound_offset(&self, bound: BoundType) -> (r: Vec2)
        ensures
            r == self.bound_offset_of(bound),
            r.within(2 * EXTENT_LIMIT),
    {
        proof {
            use_type_invariant(self);
        }
        match bound {
            BoundType::Up => Vec2 { x: self.offset.x, y: self.offset.y + self.half_size.y },
            BoundType::Down => Vec2 { x: self.offset.x, y: self.offset.y - self.half_size.y },
            BoundType::Left => Vec2 { x: self.offset.x - self.half_size.x, y: self.offset.y },
            BoundType::Right => Vec2 { x: self.offset.x + self.half_size.x, y: self.offset.y },
        }
    }
}

/// `a` lies strictly further than `b` in the direction of `bound`.
pub open spec fn more_extreme(bound: BoundType, a: Vec2, b: Vec2) -> bool {
    if bound.is_horizontal() {
        if bound.seeks_min() {
            a.x < b.x
        } else {
            a.x > b.x
        }
    } else {
        if bound.seeks_min() {
            a.y < b.y
        } else {
            a.y > b.y
        }
    }
}

/// The most extreme edge offset among the present boxes, the earliest one on ties.
pub open spec fn extreme_bound(boxes: Seq<Option<BoxCollider>>, bound: BoundType) -> Option<Vec2>
    decreases boxes.len(),
{
    if boxes.len() == 0 {
        None
    } else {
        let prev = extreme_bound(boxes.drop_last(), bound);
        match boxes.last() {
            None => prev,
            Some(b) => {
                let o = b.bound_offset_of(bound);
                match prev {
                    None => Some(o),
                    Some(p) => if more_extreme(bound, o, p) {
                        Some(o)
                    } else {
                        Some(p)
                    },
                }
            },
        }
    }
}

/// A composite hitbox: a fixed number of optional boxes.
#[derive(Clone, Copy, Debug, PartialEq)]
pub struct Collider {
    col: [Option<BoxCollider>; NUM_OF_COLLIDERS],
}

/// Some present box of `c1` overlaps some present box of `c2`.
pub open spec fn colliders_overlap(c1: Collider, c2: Collider, pos1: Vec2, pos2: Vec2) -> bool {
    exists|i: int, j: int|
        0 <= i < NUM_OF_COLLIDERS && 0 <= j < NUM_OF_COLLIDERS && c1.boxes()[i] is Some
            && c2.boxes()[j] is Some && #[trigger] boxes_overlap(
            c1.boxes()[i].unwrap(),
            c2.boxes()[j].unwrap(),
            pos1,
            pos2,
        )
}

impl Collider {
    pub closed spec fn boxes(self) -> Seq<Option<BoxCollider>> {
        self.col@
    }

    /// The edge offset of the whole composite: the extreme one among its boxes, or zero if it has none.
    pub open spec fn bound_offset_of(self, bound: BoundType) -> Vec2 {
        match extreme_bound(self.boxes(), bound) {
            Some(v) => v,
            None => Vec2 { x: 0, y: 0 },
        }
    }

    pub fn new(col: [Option<BoxCollider>; NUM_OF_COLLIDERS]) -> (r: Collider)
        ensures
            r.boxes() == col@,
    {
        Collider { col }
    }

    pub fn new_single(col1: BoxCollider) -> (r: Collider)
        ensures
            r.boxes() == seq![Some(col1), None::<BoxCollider>],
    {
        let col = [Some(col1), None];
        assert(col@ =~= seq![Some(col1), None::<BoxCollider>]);
        Collider { col }
    }

    pub fn new_double(col1: BoxCollider, col2: BoxCollider) -> (r: Collider)
        ensures
            r.boxes() == seq![Some(col1), Some(col2)],
    {
        let col = [Some(col1), Some(col2)];
        assert(col@ =~= seq![Some(col1), Some(col2)]);
        Collider { col }
    }

    pub fn get_bound_offset(&self, bound_type: BoundType) -> (r: Vec2)
        ensures
            r == self.bound_offset_of(bound_type),
    {
        let mut ans = Vec2::new(0, 0);
        let mut ans_set = false;
        let mut i: usize = 0;
        while i < NUM_OF_COLLIDERS
            invariant
                0 <= i <= NUM_OF_COLLIDERS,
                self.col@.len() == NUM_OF_COLLIDERS,
                ans_set == extreme_bound(self.col@.take(i as int), bound_type) is Some,
                ans_set ==> ans == extreme_bound(self.col@.take(i as int), bound_type).unwrap(),
                !ans_set ==> ans == (Vec2 { x: 0, y: 0 }),
            decreases NUM_OF_COLLIDERS - i,
        {
            assert(self.col@.take(i as int + 1).drop_last() =~= self.col@.take(i as int));
            assert(self.col@.take(i as int + 1).last() == self.col@[i as int]);
            let entry = self.col[i];
            if let Some(b) = entry {
                let bound = b.get_bound_offset(bound_type);
                if !ans_set {
                    ans = bound;
                    ans_set = true;
                } else {
                    let better = if bound_type.horizontal() {
                        if bound_type == BoundType::Left || bound_type == BoundType::Down {
                            bound.x < ans.x
                        } else {
                            bound.x > ans.x
                        }
                    } else {
                        if bound_type == BoundType::Left || bound_type == BoundType::Down {
                            bound.y < ans.y
                        } else {
                            bound.y > ans.y
                        }
                    };
                    if better {
                        ans = bound;
                    }
                }
            }
            i = i + 1;
        }
        assert(self.col@.take(NUM_OF_COLLIDERS as int) =~= self.col@);
        ans
    }
}

/// Entities `e1` and `e2` both have a collider and a position, and their colliders overlap.
pub open spec fn entities_collide(ecs: ECS, e1: int, e2: int) -> bool {
    match (
        ecs.component::<Collider>(e1),
        ecs.component::<Collider>(e2),
        ecs.component::<Movable>(e1),
        ecs.component::<Movable>(e2),
    ) {
        (Some(c1), Some(c2), Some(m1), Some(m2)) => colliders_overlap(c1, c2, m1.pos, m2.pos),
        _ => false,
    }
}

/// Entities `e1` and `e2` both have a single box and a position, and the boxes overlap.
pub open spec fn entity_boxes_collide(ecs: ECS, e1: int, e2: int) -> bool {
    match (
        ecs.component::<BoxCollider>(e1),
        ecs.component::<BoxCollider>(e2),
        ecs.component::<Movable>(e1),
        ecs.component::<Movable>(e2),
    ) {
        (Some(c1), Some(c2), Some(m1), Some(m2)) => boxes_overlap(c1, c2, m1.pos, m2.pos),
        _ => false,
    }
}

/// Box overlap does not depend on the order of the two boxes.
pub proof fn lemma_boxes_overlap_symmetric(c1: BoxCollider, c2: BoxCollider, pos1: Vec2, pos2: Vec2)
    ensures
        boxes_overlap(c1, c2, pos1, pos2) == boxes_overlap(c2, c1, pos2, pos1),
{
}

/// Whether two entities collide does not depend on which one is asked about first.
pub proof fn lemma_collision_symmetric(ecs: ECS, a: int, b: int)
    ensures
        entities_collide(ecs, a, b) == entities_collide(ecs, b, a),
        entity_boxes_collide(ecs, a, b) == entity_boxes_collide(ecs, b, a),
{
    match (
        ecs.component::<Collider>(a),
        ecs.component::<Collider>(b),
        ecs.component::<Movable>(a),
        ecs.component::<Movable>(b),
    ) {
        (Some(c1), Some(c2), Some(m1), Some(m2)) => {
            if colliders_overlap(c1, c2, m1.pos, m2.pos) {
                let (i, j) = choose|i: int, j: int|
                    0 <= i < NUM_OF_COLLIDERS && 0 <= j < NUM_OF_COLLIDERS && c1.boxes()[i] is Some
                        && c2.boxes()[j] is Some && #[trigger] boxes_overlap(
                        c1.boxes()[i].unwrap(),
                        c2.boxes()[j].unwrap(),
                        m1.pos,
                        m2.pos,
                    );
                lemma_boxes_overlap_symmetric(c1.boxes()[i].unwrap(), c2.boxes()[j].unwrap(), m1.pos, m2.pos);
                assert(boxes_overlap(c2.boxes()[j].unwrap(), c1.boxes()[i].unwrap(), m2.pos, m1.pos));
            }
            if colliders_overlap(c2, c1, m2.pos, m1.pos) {
                let (i, j) = choose|i: int, j: int|
                    0 <= i < NUM_OF_COLLIDERS && 0 <= j < NUM_OF_COLLIDERS && c2.boxes()[i] is Some
                        && c1.boxes()[j] is Some && #[trigger] boxes_overlap(
                        c2.boxes()[i].unwrap(),
                        c1.boxes()[j].unwrap(),
                        m2.pos,
                        m1.pos,
                    );
                lemma_boxes_overlap_symmetric(c2.boxes()[i].unwrap(), c1.boxes()[j].unwrap(), m2.pos, m1.pos);
                assert(boxes_overlap(c1.boxes()[j].unwrap(), c2.boxes()[i].unwrap(), m1.pos, m2.pos));
            }
        },
        _ => {},
    }
}

impl BoxCollider {
    /// World position of the middle of an edge of this box, for an owner at `pos`.
    pub fn get_bound(&self, pos: Vec2, bound: BoundType) -> (r: Vec2)
        ensures
            r == add_sat(pos, self.bound_offset_of(bound)),
    {
        add_saturating(pos, self.get_bound_offset(bound))
    }

    /// Whether the single boxes of two entities overlap; false when either lacks a box or a position.
    pub fn check_entity_collision(ecs: &ECS, entity1: usize, entity2: usize) -> (r: bool)
        requires
            ecs.wf(),
            entity1 < ecs.count(),
            entity2 < ecs.count(),
        ensures
            r == entity_boxes_collide(*ecs, entity1 as int, entity2 as int),
    {
        let col1 = ecs.get_component::<BoxCollider>(entity1);
        let col2 = ecs.get_component::<BoxCollider>(entity2);
        let mov1 = ecs.get_component::<Movable>(entity1);
        let mov2 = ecs.get_component::<Movable>(entity2);
        match (col1, col2, mov1, mov2) {
            (Some(c1), Some(c2), Some(m1), Some(m2)) => BoxCollider::check_collision(c1, c2, m1.pos, m2.pos),
            _ => false,
        }
    }
}

impl Collider {
    /// The position of an entity that has a `Movable`.
    pub fn get_pos(ecs: &ECS, entity_id: usize) -> (r: Vec2)
        requires
            ecs.wf(),
            entity_id < ecs.count(),
            ecs.component::<Movable>(entity_id as int) is Some,
        ensures
            r == ecs.component::<Movable>(entity_id as int).unwrap().pos,
    {
        ecs.get_component::<Movable>(entity_id).unwrap().pos
    }

    /// World position of an edge of this collider, for the entity that owns it.
    pub fn get_bound(&self, ecs: &ECS, entity_id: usize, bound_type: BoundType) -> (r: Vec2)
        requires
            ecs.wf(),
            entity_id < ecs.count(),
            ecs.component::<Movable>(entity_id as int) is Some,
        ensures
            r == add_sat(ecs.component::<Movable>(entity_id as int).unwrap().pos, self.bound_offset_of(bound_type)),
    {
        let pos = Collider::get_pos(ecs, entity_id);
        add_saturating(pos, self.get_bound_offset(bound_type))
    }

    /// Whether some box of one entity overlaps some box of the other; false
    /// when either lacks a collider or a position.
    pub fn check_entity_collision(ecs: &ECS, entity1: usize, entity2: usize) -> (r: bool)
        requires
            ecs.wf(),
            entity1 < ecs.count(),
            entity2 < ecs.count(),
        ensures
            r == entities_collide(*ecs, entity1 as int, entity2 as int),
    {
        let col1 = ecs.get_component::<Collider>(entity1);
        let col2 = ecs.get_component::<Collider>(entity2);
        let mov1 = ecs.get_component::<Movable>(entity1);
        let mov2 = ecs.get_component::<Movable>(entity2);
        match (col1, col2, mov1, mov2) {
            (Some(c1), Some(c2), Some(m1), Some(m2)) => Collider::colliders_collide(&c1, &c2, m1.pos, m2.pos),
            _ => false,
        }
    }

    /// Whether some present box of `c1` overlaps some present box of `c2`.
    pub fn colliders_collide(c1: &Collider, c2: &Collider, pos1: Vec2, pos2: Vec2) -> (r: bool)
        ensures
            r == colliders_overlap(*c1, *c2, pos1, pos2),
    {
        let mut i: usize = 0;
        while i < NUM_OF_COLLIDERS
            invariant
                i <= NUM_OF_COLLIDERS,
                c1.col@.len() == NUM_OF_COLLIDERS,
                c2.col@.len() == NUM_OF_COLLIDERS,
                forall|a: int, b: int|
                    0 <= a < i && 0 <= b < NUM_OF_COLLIDERS && c1.boxes()[a] is Some && c2.boxes()[b] is Some
                        ==> !#[trigger] boxes_overlap(c1.boxes()[a].unwrap(), c2.boxes()[b].unwrap(), pos1, pos2),
            decreases NUM_OF_COLLIDERS - i,
        {
            if let Some(b1) = c1.col[i] {
                let mut j: usize = 0;
                while j < NUM_OF_COLLIDERS
                    invariant
                        i < NUM_OF_COLLIDERS,
                        j <= NUM_OF_COLLIDERS,
                        c1.col@.len() == NUM_OF_COLLIDERS,
                        c2.col@.len() == NUM_OF_COLLIDERS,
                        c1.boxes()[i as int] == Some(b1),
                        forall|a: int, b: int|
                            0 <= a < i && 0 <= b < NUM_OF_COLLIDERS && c1.boxes()[a] is Some && c2.boxes()[b] is Some
                                ==> !#[trigger] boxes_overlap(c1.boxes()[a].unwrap(), c2.boxes()[b].unwrap(), pos1, pos2),
                        forall|b: int|
                            0 <= b < j && c2.boxes()[b] is Some
                                ==> !#[trigger] boxes_overlap(b1, c2.boxes()[b].unwrap(), pos1, pos2),
                    decreases NUM_OF_COLLIDERS - j,
                {
                    if let Some(b2) = c2.col[j] {
                        if BoxCollider::check_collision(b1, b2, pos1, pos2) {
                            assert(boxes_overlap(c1.boxes()[i as int].unwrap(), c2.boxes()[j as int].unwrap(), pos1, pos2));
                            return true;
                        }
                    }
                    j = j + 1;
                }
            }
            i = i + 1;
        }
        false
    }
}

} // verus!
