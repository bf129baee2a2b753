use vstd::prelude::*;
use crate::animation::{AnimStateMachine, Animation};
use crate::collision::{BoxCollider, Collider};
use crate::dino::{DinoController, DinoState};
use crate::movable::{EndlessScroll, Movable};
use crate::ptero::Ptero;
use crate::sprite::Sprite;

verus! {

/// Number of component types that the store knows.
pub const NUM_COMPONENT_KINDS: usize = 10;

/// A component of any kind, as one slot of a table holds it.
#[derive(Clone, Copy)]
pub enum ComponentValue {
    Movable(Movable),
    Collider(Collider),
    BoxCollider(BoxCollider),
    Animation(Animation),
    DinoStateMachine(AnimStateMachine<DinoState>),
    DinoState(DinoState),
    DinoController(DinoController),
    Sprite(Sprite),
    EndlessScroll(EndlessScroll),
    Ptero(Ptero),
}

/// A type that the store keeps in a table of its own: `kind` is the table's
/// index, and `wrap` / `unwrap_value` move a value in and out of a slot.
pub trait Component: Sized + Copy {
    spec fn kind() -> int;

    spec fn wrap(self) -> ComponentValue;

    spec fn unwrap_value(v: ComponentValue) -> Option<Self>;

    proof fn lemma_kind()
        ensures
            0 <= Self::kind() < NUM_COMPONENT_KINDS,
    ;

    proof fn lemma_round_trip(c: Self)
        ensures
            Self::unwrap_value(c.wrap()) == Some(c),
    ;

    fn kind_index() -> (r: usize)
        ensures
            r == Self::kind(),
    ;

    fn into_value(self) -> (r: ComponentValue)
        ensures
            r == self.wrap(),
    ;

    fn from_value(v: ComponentValue) -> (r: Option<Self>)
        ensures
            r == Self::unwrap_value(v),
    ;
}

impl Component for Movable {
    open spec fn kind() -> int {
        0
    }

    open spec fn wrap(self) -> ComponentValue {
        ComponentValue::Movable(self)
    }

    open spec fn unwrap_value(v: ComponentValue) -> Option<Self> {
        match v {
            ComponentValue::Movable(c) => Some(c),
            _ => None,
        }
    }

    proof fn lemma_kind() {
    }

    proof fn lemma_round_trip(c: Self) {
    }

    fn kind_index() -> (r: usize) {
        0
    }

    fn into_value(self) -> (r: ComponentValue) {
        ComponentValue::Movable(self)
    }

    fn from_value(v: ComponentValue) -> (r: Option<Self>) {
        match v {
            ComponentValue::Movable(c) => Some(c),
            _ => None,
        }
    }
}

impl Component for Collider {
    open spec fn kind() -> int {
        1
    }

    open spec fn wrap(self) -> ComponentValue {
        ComponentValue::Collider(self)
    }

    open spec fn unwrap_value(v: ComponentValue) -> Option<Self> {
        match v {
            ComponentValue::Collider(c) => Some(c),
            _ => None,
        }
    }

    proof fn lemma_kind() {
    }

    proof fn lemma_round_trip(c: Self) {
    }

    fn kind_index() -> (r: usize) {
        1
    }

    fn into_value(self) -> (r: ComponentValue) {
        ComponentValue::Collider(self)
    }

    fn from_value(v: ComponentValue) -> (r: Option<Self>) {
        match v {
            ComponentValue::Collider(c) => Some(c),
            _ => None,
        }
    }
}

impl Component for BoxCollider {
    open spec fn kind() -> int {
        2
    }

    open spec fn wrap(self) -> ComponentValue {
        ComponentValue::BoxCollider(self)
    }

    open spec fn unwrap_value(v: ComponentValue) -> Option<Self> {
        match v {
            ComponentValue::BoxCollider(c) => Some(c),
            _ => None,
        }
    }

    proof fn lemma_kind() {
    }

    proof fn lemma_round_trip(c: Self) {
    }

    fn kind_index() -> (r: usize) {
        2
    }

    fn into_value(self) -> (r: ComponentValue) {
        ComponentValue::BoxCollider(self)
    }

    fn from_value(v: ComponentValue) -> (r: Option<Self>) {
        match v {
            ComponentValue::BoxCollider(c) => Some(c),
            _ => None,
        }
    }
}

impl Component for Animation {
    open spec fn kind() -> int {
        3
    }

    open spec fn wrap(self) -> ComponentValue {
        ComponentValue::Animation(self)
    }

    open spec fn unwrap_value(v: ComponentValue) -> Option<Self> {
        match v {
            ComponentValue::Animation(c) => Some(c),
            _ => None,
        }
    }

    proof fn lemma_kind() {
    }

    proof fn lemma_round_trip(c: Self) {
    }

    fn kind_index() -> (r: usize) {
        3
    }

    fn into_value(self) -> (r: ComponentValue) {
        ComponentValue::Animation(self)
    }

    fn from_value(v: ComponentValue) -> (r: Option<Self>) {
        match v {
            ComponentValue::Animation(c) => Some(c),
            _ => None,
        }
    }
}

impl Component for AnimStateMachine<DinoState> {
    open spec fn kind() -> int {
        4
    }

    open spec fn wrap(self) -> ComponentValue {
        ComponentValue::DinoStateMachine(self)
    }

    open spec fn unwrap_value(v: ComponentValue) -> Option<Self> {
        match v {
            ComponentValue::DinoStateMachine(c) => Some(c),
            _ => None,
        }
    }

    proof fn lemma_kind() {
    }

    proof fn lemma_round_trip(c: Self) {
    }

    fn kind_index() -> (r: usize) {
        4
    }

    fn into_value(self) -> (r: ComponentValue) {
        ComponentValue::DinoStateMachine(self)
    }

    fn from_value(v: ComponentValue) -> (r: Option<Self>) {
        match v {
            ComponentValue::DinoStateMachine(c) => Some(c),
            _ => None,
        }
    }
}

impl Component for DinoState {
    open spec fn kind() -> int {
        5
    }

    open spec fn wrap(self) -> ComponentValue {
        ComponentValue::DinoState(self)
    }

    open spec fn unwrap_value(v: ComponentValue) -> Option<Self> {
        match v {
            ComponentValue::DinoState(c) => Some(c),
            _ => None,
        }
    }

    proof fn lemma_kind() {
    }

    proof fn lemma_round_trip(c: Self) {
    }

    fn kind_index() -> (r: usize) {
        5
    }

    fn into_value(self) -> (r: ComponentValue) {
        ComponentValue::DinoState(self)
    }

    fn from_value(v: ComponentValue) -> (r: Option<Self>) {
        match v {
            ComponentValue::DinoState(c) => Some(c),
            _ => None,
        }
    }
}

impl Component for DinoController {
    open spec fn kind() -> int {
        6
    }

    open spec fn wrap(self) -> ComponentValue {
        ComponentValue::DinoController(self)
    }

    open spec fn unwrap_value(v: ComponentValue) -> Option<Self> {
        match v {
            ComponentValue::DinoController(c) => Some(c),
            _ => None,
        }
    }

    proof fn lemma_kind() {
    }

    proof fn lemma_round_trip(c: Self) {
    }

    fn kind_index() -> (r: usize) {
        6
    }

    fn into_value(self) -> (r: ComponentValue) {
        ComponentValue::DinoController(self)
    }

    fn from_value(v: ComponentValue) -> (r: Option<Self>) {
        match v {
            ComponentValue::DinoController(c) => Some(c),
            _ => None,
        }
    }
}

impl Component for Sprite {
    open spec fn kind() -> int {
        7
    }

    open spec fn wrap(self) -> ComponentValue {
        ComponentValue::Sprite(self)
    }

    open spec fn unwrap_value(v: ComponentValue) -> Option<Self> {
        match v {
            ComponentValue::Sprite(c) => Some(c),
            _ => None,
        }
    }

    proof fn lemma_kind() {
    }

    proof fn lemma_round_trip(c: Self) {
    }

    fn kind_index() -> (r: usize) {
        7
    }

    fn into_value(self) -> (r: ComponentValue) {
        ComponentValue::Sprite(self)
    }

    fn from_value(v: ComponentValue) -> (r: Option<Self>) {
        match v {
            ComponentValue::Sprite(c) => Some(c),
            _ => None,
        }
    }
}

impl Component for EndlessScroll {
    open spec fn kind() -> int {
        8
    }

    open spec fn wrap(self) -> ComponentValue {
        ComponentValue::EndlessScroll(self)
    }

    open spec fn unwrap_value(v: ComponentValue) -> Option<Self> {
        match v {
            ComponentValue::EndlessScroll(c) => Some(c),
            _ => None,
        }
    }

    proof fn lemma_kind() {
    }

    proof fn lemma_round_trip(c: Self) {
    }

    fn kind_index() -> (r: usize) {
        8
    }

    fn into_value(self) -> (r: ComponentValue) {
        ComponentValue::EndlessScroll(self)
    }

    fn from_value(v: ComponentValue) -> (r: Option<Self>) {
        match v {
            ComponentValue::EndlessScroll(c) => Some(c),
            _ => None,
        }
    }
}

impl Component for Ptero {
    open spec fn kind() -> int {
        9
    }

    open spec fn wrap(self) -> ComponentValue {
        ComponentValue::Ptero(self)
    }

    open spec fn unwrap_value(v: ComponentValue) -> Option<Self> {
        match v {
            ComponentValue::Ptero(c) => Some(c),
            _ => None,
        }
    }

    proof fn lemma_kind() {
    }

    proof fn lemma_round_trip(c: Self) {
    }

    fn kind_index() -> (r: usize) {
        9
    }

    fn into_value(self) -> (r: ComponentValue) {
        ComponentValue::Ptero(self)
    }

    fn from_value(v: ComponentValue) -> (r: Option<Self>) {
        match v {
            ComponentValue::Ptero(c) => Some(c),
            _ => None,
        }
    }
}

/// One table per component kind, each either not yet created or holding one
/// optional slot per entity.
pub type Table = Seq<Option<ComponentValue>>;

/// A table after a new entity: one more absent slot.
pub open spec fn pushed(t: Option<Table>) -> Option<Table> {
    match t {
        Some(s) => Some(s.push(None)),
        None => None,
    }
}

/// The table after an upsert at `id`; a missing table is first created with
/// `count` absent slots.
pub open spec fn upserted(t: Option<Table>, count: nat, id: int, v: ComponentValue) -> Table {
    match t {
        Some(s) => s,
        None => Seq::new(count, |_i: int| None),
    }.update(id, Some(v))
}

/// The table after a write at `id`; a missing table stays missing.
pub open spec fn overwritten(t: Option<Table>, id: int, v: ComponentValue) -> Option<Table> {
    match t {
        Some(s) => Some(s.update(id, Some(v))),
        None => None,
    }
}

/// The entity-component store. Entities are indices, handed out in order and
/// never removed.
pub struct ECS {
    entities_count: usize,
    component_vecs: Vec<Option<Vec<Option<ComponentValue>>>>,
}

impl ECS {
    /// Every kind has a slot, and every created table has one slot per entity.
    pub closed spec fn wf(self) -> bool {
        &&& self.component_vecs@.len() == NUM_COMPONENT_KINDS
        &&& forall|k: int|
            0 <= k < NUM_COMPONENT_KINDS && (#[trigger] self.component_vecs@[k]) is Some
                ==> self.component_vecs@[k].unwrap()@.len() == self.entities_count
    }

    /// Number of entities created so far.
    pub closed spec fn count(self) -> nat {
        self.entities_count as nat
    }

    /// The table of kind `k`, if it has been created.
    pub closed spec fn table(self, k: int) -> Option<Table> {
        match self.component_vecs@[k] {
            Some(t) => Some(t@),
            None => None,
        }
    }

    /// The component of type `T` of entity `id`, if it has one.
    pub open spec fn component<T: Component>(self, id: int) -> Option<T> {
        match self.table(T::kind()) {
            Some(t) => if 0 <= id < t.len() {
                match t[id] {
                    Some(v) => T::unwrap_value(v),
                    None => None,
                }
            } else {
                None
            },
            None => None,
        }
    }

    /// `self` is `prev` after `new_entity` handed out `id`.
    pub open spec fn entity_added(self, prev: ECS, id: int) -> bool {
        &&& id == prev.count()
        &&& self.count() == prev.count() + 1
        &&& forall|k: int| 0 <= k < NUM_COMPONENT_KINDS ==> #[trigger] self.table(k) == pushed(prev.table(k))
    }

    /// `self` is `prev` after `add_component(id, c)`.
    pub open spec fn component_added<T: Component>(self, prev: ECS, id: int, c: T) -> bool {
        &&& self.count() == prev.count()
        &&& forall|k: int| 0 <= k < NUM_COMPONENT_KINDS && k != T::kind() ==> #[trigger] self.table(k) == prev.table(k)
        &&& self.table(T::kind()) == Some(upserted(prev.table(T::kind()), prev.count(), id, c.wrap()))
    }

    /// `self` is `prev` after `set_component(id, c)`.
    pub open spec fn component_set<T: Component>(self, prev: ECS, id: int, c: T) -> bool {
        &&& self.count() == prev.count()
        &&& forall|k: int| 0 <= k < NUM_COMPONENT_KINDS && k != T::kind() ==> #[trigger] self.table(k) == prev.table(k)
        &&& self.table(T::kind()) == overwritten(prev.table(T::kind()), id, c.wrap())
    }

    pub proof fn lemma_table_len(self, k: int)
        requires
            self.wf(),
            0 <= k < NUM_COMPONENT_KINDS,
            self.table(k) is Some,
        ensures
            self.table(k).unwrap().len() == self.count(),
    {
        assert(self.component_vecs@[k] is Some);
    }

    pub fn new() -> (r: ECS)
        ensures
            r.wf(),
            r.count() == 0,
            forall|k: int| 0 <= k < NUM_COMPONENT_KINDS ==> #[trigger] r.table(k) is None,
    {
        let mut component_vecs: Vec<Option<Vec<Option<ComponentValue>>>> = Vec::new();
        let mut k: usize = 0;
        while k < NUM_COMPONENT_KINDS
            invariant
                k <= NUM_COMPONENT_KINDS,
                component_vecs@.len() == k,
                forall|j: int| 0 <= j < k ==> #[trigger] component_vecs@[j] is None,
            decreases NUM_COMPONENT_KINDS - k,
        {
            component_vecs.push(None);
            k = k + 1;
        }
        ECS { entities_count: 0, component_vecs }
    }

    pub fn entities_count(&self) -> (r: usize)
        ensures
            r == self.count(),
    {
        self.entities_count
    }

    /// Hands out the next entity id and gives every existing table an absent slot for it.
    pub fn new_entity(&mut self) -> (r: usize)
        requires
            old(self).wf(),
            old(self).count() < usize::MAX,
        ensures
            final(self).wf(),
            final(self).entity_added(*old(self), r as int),
    {
        let entity_id = self.entities_count;
        self.entities_count = self.entities_count + 1;
        let mut k: usize = 0;
        while k < NUM_COMPONENT_KINDS
            invariant
                k <= NUM_COMPONENT_KINDS,
                old(self).wf(),
                self.entities_count == entity_id + 1,
                entity_id == old(self).entities_count,
                self.component_vecs@.len() == NUM_COMPONENT_KINDS,
                forall|j: int| 0 <= j < k ==> #[trigger] self.table(j) == pushed(old(self).table(j)),
                forall|j: int| k <= j < NUM_COMPONENT_KINDS ==> #[trigger] self.table(j) == old(self).table(j),
            decreases NUM_COMPONENT_KINDS - k,
        {
            assert(self.table(k as int) == old(self).table(k as int));
            let ghost prev = *self;
            let slot = self.component_vecs[k].take();
            match slot {
                Some(mut t) => {
                    t.push(None);
                    self.component_vecs[k] = Some(t);
                },
                None => {},
            }
            assert forall|j: int| 0 <= j < NUM_COMPONENT_KINDS && j != k implies #[trigger] self.table(j) == prev.table(j) by {}
            assert(self.table(k as int) == pushed(old(self).table(k as int)));
            k = k + 1;
        }
        assert forall|j: int| 0 <= j < NUM_COMPONENT_KINDS && (#[trigger] self.component_vecs@[j]) is Some implies self.component_vecs@[j].unwrap()@.len() == self.entities_count by {
            assert(self.table(j) == pushed(old(self).table(j)));
            assert(old(self).component_vecs@[j] is Some);
        }
        entity_id
    }

    /// Upserts the component of type `T` of `entity`, creating the table of `T`
    /// (absent for every entity) the first time.
    pub fn add_component<T: Component>(&mut self, entity: usize, component: T)
        requires
            old(self).wf(),
            entity < old(self).count(),
        ensures
            final(self).wf(),
            final(self).component_added(*old(self), entity as int, component),
    {
        proof {
            T::lemma_kind();
        }
        let k = T::kind_index();
        let v = component.into_value();
        let ghost prev = *self;
        assert(prev.component_vecs@[k as int] is Some ==> prev.component_vecs@[k as int].unwrap()@.len() == prev.entities_count);
        let slot = self.component_vecs[k].take();
        match slot {
            Some(mut t) => {
                t[entity] = Some(v);
                self.component_vecs[k] = Some(t);
            },
            None => {
                let mut t: Vec<Option<ComponentValue>> = Vec::with_capacity(self.entities_count);
                let mut i: usize = 0;
                while i < self.entities_count
                    invariant
                        i <= self.entities_count,
                        t@ == Seq::new(i as nat, |_j: int| None::<ComponentValue>),
                    decreases self.entities_count - i,
                {
                    t.push(None);
                    i = i + 1;
                    assert(t@ =~= Seq::new(i as nat, |_j: int| None::<ComponentValue>));
                }
                t[entity] = Some(v);
                self.component_vecs[k] = Some(t);
            },
        }
        assert forall|j: int| 0 <= j < NUM_COMPONENT_KINDS && j != k implies #[trigger] self.table(j) == prev.table(j) by {}
        assert(self.table(k as int) == Some(upserted(prev.table(k as int), prev.count(), entity as int, v)));
        assert forall|j: int| 0 <= j < NUM_COMPONENT_KINDS && (#[trigger] self.component_vecs@[j]) is Some implies self.component_vecs@[j].unwrap()@.len() == self.entities_count by {
            if j != k {
                assert(self.table(j) == prev.table(j));
                assert(prev.component_vecs@[j] is Some);
            }
        }
    }

    /// A copy of the component of type `T` of `entity_id`, if it has one.
    pub fn get_component<T: Component>(&self, entity_id: usize) -> (r: Option<T>)
        requires
            self.wf(),
            entity_id < self.count(),
        ensures
            r == self.component::<T>(entity_id as int),
    {
        proof {
            T::lemma_kind();
        }
        let k = T::kind_index();
        match &self.component_vecs[k] {
            Some(t) => match t[entity_id] {
                Some(v) => T::from_value(v),
                None => None,
            },
            None => None,
        }
    }

    /// Overwrites the component of type `T` of `entity_id`; does nothing while
    /// no entity has a component of that type.
    pub fn set_component<T: Component>(&mut self, entity_id: usize, new_component: T)
        requires
            old(self).wf(),
            entity_id < old(self).count(),
        ensures
            final(self).wf(),
            final(self).component_set(*old(self), entity_id as int, new_component),
    {
        proof {
            T::lemma_kind();
        }
        let k = T::kind_index();
        let v = new_component.into_value();
        let ghost prev = *self;
        assert(prev.component_vecs@[k as int] is Some ==> prev.component_vecs@[k as int].unwrap()@.len() == prev.entities_count);
        let slot = self.component_vecs[k].take();
        match slot {
            Some(mut t) => {
                t[entity_id] = Some(v);
                self.component_vecs[k] = Some(t);
            },
            None => {},
        }
        assert forall|j: int| 0 <= j < NUM_COMPONENT_KINDS && j != k implies #[trigger] self.table(j) == prev.table(j) by {}
        assert(self.table(k as int) == overwritten(prev.table(k as int), entity_id as int, v));
        assert forall|j: int| 0 <= j < NUM_COMPONENT_KINDS && (#[trigger] self.component_vecs@[j]) is Some implies self.component_vecs@[j].unwrap()@.len() == self.entities_count by {
            if j != k {
                assert(self.table(j) == prev.table(j));
                assert(prev.component_vecs@[j] is Some);
            }
        }
    }

    /// A copy of the whole column of type `T`, one slot per entity; `None`
    /// while no entity has a component of that type.
    pub fn borrow_component_vec<T: Component>(&self) -> (r: Option<Vec<Option<T>>>)
        requires
            self.wf(),
        ensures
            r is Some <==> self.table(T::kind()) is Some,
            r is Some ==> r.unwrap()@.len() == self.count(),
            r is Some ==> forall|i: int|
                0 <= i < self.count() ==> #[trigger] r.unwrap()@[i] == self.component::<T>(i),
    {
        proof {
            T::lemma_kind();
        }
        let k = T::kind_index();
        match &self.component_vecs[k] {
            Some(t) => {
                assert(self.component_vecs@[k as int] is Some);
                let mut out: Vec<Option<T>> = Vec::with_capacity(t.len());
                let mut i: usize = 0;
                while i < t.len()
                    invariant
                        i <= t@.len(),
                        t@.len() == self.entities_count,
                        self.table(k as int) == Some(t@),
                        k == T::kind(),
                        out@.len() == i,
                        forall|j: int| 0 <= j < i ==> #[trigger] out@[j] == self.component::<T>(j),
                    decreases t@.len() - i,
                {
                    let item = match t[i] {
                        Some(v) => T::from_value(v),
                        None => None,
                    };
                    out.push(item);
                    i = i + 1;
                }
                Some(out)
            },
            None => None,
        }
    }
}

/// Between `prev` and `self`, only entity `id`'s `Movable` may differ, and no `Collider` does.
pub open spec fn moves_only(e1: ECS, e0: ECS, id: int) -> bool {
    &&& forall|e: int| e != id ==> #[trigger] e1.component::<Movable>(e) == e0.component::<Movable>(e)
    &&& forall|e: int| #[trigger] e1.component::<Collider>(e) == e0.component::<Collider>(e)
}

/// Between `prev` and `self`, no `Movable` and no `Collider` differs.
pub open spec fn moves_none(e1: ECS, e0: ECS) -> bool {
    &&& forall|e: int| #[trigger] e1.component::<Movable>(e) == e0.component::<Movable>(e)
    &&& forall|e: int| #[trigger] e1.component::<Collider>(e) == e0.component::<Collider>(e)
}

/// An entity just handed out by `new_entity` has no component of any type.
pub proof fn lemma_fresh_entity_has_no_component<T: Component>(before: ECS, after: ECS, id: int)
    requires
        before.wf(),
        after.entity_added(before, id),
    ensures
        after.component::<T>(id) is None,
{
    T::lemma_kind();
    let k = T::kind();
    assert(after.table(k) == pushed(before.table(k)));
    if before.table(k) is Some {
        before.lemma_table_len(k);
    }
}

/// After `add_component(id, v)` and then `set_component(id, v2)`,
/// `get_component(id)` returns `v2`.
pub proof fn lemma_set_after_add_is_visible<T: Component>(
    e0: ECS,
    e1: ECS,
    e2: ECS,
    id: int,
    v: T,
    v2: T,
)
    requires
        e0.wf(),
        0 <= id < e0.count(),
        e1.component_added(e0, id, v),
        e2.component_set(e1, id, v2),
    ensures
        e2.component::<T>(id) == Some(v2),
{
    T::lemma_kind();
    T::lemma_round_trip(v2);
    let k = T::kind();
    if e0.table(k) is Some {
        e0.lemma_table_len(k);
    }
}

/// What `set_component(id, v)` does to the components of type `T` itself.
pub proof fn lemma_set_same<T: Component>(e0: ECS, e1: ECS, id: int, v: T, e: int)
    requires
        e0.wf(),
        0 <= id < e0.count(),
        e1.component_set(e0, id, v),
    ensures
        e0.table(T::kind()) is Some ==> e1.component::<T>(e) == if e == id {
            Some(v)
        } else {
            e0.component::<T>(e)
        },
        e0.table(T::kind()) is None ==> e1.component::<T>(e) == e0.component::<T>(e),
        e1.table(T::kind()) is Some <==> e0.table(T::kind()) is Some,
{
    T::lemma_kind();
    T::lemma_round_trip(v);
    if e0.table(T::kind()) is Some {
        e0.lemma_table_len(T::kind());
    }
}

/// `set_component` of one type leaves the components of another type alone.
pub proof fn lemma_set_other<T: Component, U: Component>(e0: ECS, e1: ECS, id: int, v: T, e: int)
    requires
        e1.component_set(e0, id, v),
        U::kind() != T::kind(),
    ensures
        e1.component::<U>(e) == e0.component::<U>(e),
        e1.table(U::kind()) == e0.table(U::kind()),
{
    U::lemma_kind();
}

impl ECS {
    /// `self` holds every component that `prev` held (values may have
    /// changed), the controllers unchanged and every well-formed state
    /// machine still well-formed.
    pub open spec fn keeps_components(self, prev: ECS) -> bool {
        &&& self.wf()
        &&& self.count() == prev.count()
        &&& forall|e: int| 0 <= e < prev.count() && (#[trigger] prev.component::<Movable>(e)) is Some ==> self.component::<Movable>(e) is Some
        &&& forall|e: int| 0 <= e < prev.count() && (#[trigger] prev.component::<Collider>(e)) is Some ==> self.component::<Collider>(e) is Some
        &&& forall|e: int| 0 <= e < prev.count() && (#[trigger] prev.component::<Animation>(e)) is Some ==> self.component::<Animation>(e) is Some
        &&& forall|e: int| 0 <= e < prev.count() && (#[trigger] prev.component::<DinoState>(e)) is Some ==> self.component::<DinoState>(e) is Some
        &&& forall|e: int| 0 <= e < prev.count() && (#[trigger] prev.component::<EndlessScroll>(e)) is Some ==> self.component::<EndlessScroll>(e) is Some
        &&& forall|e: int| 0 <= e < prev.count() && (#[trigger] prev.component::<Ptero>(e)) is Some ==> self.component::<Ptero>(e) is Some
        &&& forall|e: int| 0 <= e < prev.count() && (#[trigger] prev.component::<Sprite>(e)) is Some ==> self.component::<Sprite>(e) is Some
        &&& forall|e: int|
            0 <= e < prev.count() && (#[trigger] prev.component::<DinoController>(e)) is Some
                ==> self.component::<DinoController>(e) == prev.component::<DinoController>(e)
        &&& forall|e: int|
            0 <= e < prev.count() && (#[trigger] prev.component::<AnimStateMachine<DinoState>>(e)) is Some
                && prev.component::<AnimStateMachine<DinoState>>(e).unwrap().wf() ==> self.component::<AnimStateMachine<DinoState>>(e) is Some
                && self.component::<AnimStateMachine<DinoState>>(e).unwrap().wf()
    }
}

pub proof fn lemma_keeps_trans(e0: ECS, e1: ECS, e2: ECS)
    requires
        e1.keeps_components(e0),
        e2.keeps_components(e1),
    ensures
        e2.keeps_components(e0),
{
}

pub proof fn lemma_keeps_refl(e0: ECS)
    requires
        e0.wf(),
    ensures
        e0.keeps_components(e0),
{
}

/// Writing a `Movable` keeps every component.
pub proof fn lemma_set_movable_keeps(e0: ECS, e1: ECS, id: int, v: Movable)
    requires
        e0.wf(),
        0 <= id < e0.count(),
        e1.wf(),
        e1.component_set(e0, id, v),
    ensures
        e1.keeps_components(e0),
{
    assert forall|e: int| 0 <= e < e0.count() implies {
        &&& (e0.component::<Movable>(e) is Some ==> e1.component::<Movable>(e) is Some)
        &&& (e0.component::<Collider>(e) is Some ==> e1.component::<Collider>(e) is Some)
        &&& (e0.component::<Animation>(e) is Some ==> e1.component::<Animation>(e) is Some)
        &&& (e0.component::<DinoState>(e) is Some ==> e1.component::<DinoState>(e) is Some)
        &&& (e0.component::<EndlessScroll>(e) is Some ==> e1.component::<EndlessScroll>(e) is Some)
        &&& (e0.component::<Ptero>(e) is Some ==> e1.component::<Ptero>(e) is Some)
        &&& (e0.component::<Sprite>(e) is Some ==> e1.component::<Sprite>(e) is Some)
        &&& (e0.component::<AnimStateMachine<DinoState>>(e) is Some && e0.component::<AnimStateMachine<DinoState>>(e).unwrap().wf() ==> e1.component::<AnimStateMachine<DinoState>>(e) is Some && e1.component::<AnimStateMachine<DinoState>>(e).unwrap().wf())
        &&& (e0.component::<DinoController>(e) is Some ==> e1.component::<DinoController>(e) == e0.component::<DinoController>(e))
    } by {
        lemma_set_same::<Movable>(e0, e1, id, v, e);
        lemma_set_other::<Movable, Collider>(e0, e1, id, v, e);
        lemma_set_other::<Movable, Animation>(e0, e1, id, v, e);
        lemma_set_other::<Movable, DinoState>(e0, e1, id, v, e);
        lemma_set_other::<Movable, EndlessScroll>(e0, e1, id, v, e);
        lemma_set_other::<Movable, Ptero>(e0, e1, id, v, e);
        lemma_set_other::<Movable, Sprite>(e0, e1, id, v, e);
        lemma_set_other::<Movable, DinoController>(e0, e1, id, v, e);
        lemma_set_other::<Movable, AnimStateMachine<DinoState>>(e0, e1, id, v, e);
    }
}

/// Writing a `DinoState` keeps every component.
pub proof fn lemma_set_state_keeps(e0: ECS, e1: ECS, id: int, v: DinoState)
    requires
        e0.wf(),
        0 <= id < e0.count(),
        e1.wf(),
        e1.component_set(e0, id, v),
    ensures
        e1.keeps_components(e0),
{
    assert forall|e: int| 0 <= e < e0.count() implies {
        &&& (e0.component::<Movable>(e) is Some ==> e1.component::<Movable>(e) is Some)
        &&& (e0.component::<Collider>(e) is Some ==> e1.component::<Collider>(e) is Some)
        &&& (e0.component::<Animation>(e) is Some ==> e1.component::<Animation>(e) is Some)
        &&& (e0.component::<DinoState>(e) is Some ==> e1.component::<DinoState>(e) is Some)
        &&& (e0.component::<EndlessScroll>(e) is Some ==> e1.component::<EndlessScroll>(e) is Some)
        &&& (e0.component::<Ptero>(e) is Some ==> e1.component::<Ptero>(e) is Some)
        &&& (e0.component::<Sprite>(e) is Some ==> e1.component::<Sprite>(e) is Some)
        &&& (e0.component::<AnimStateMachine<DinoState>>(e) is Some && e0.component::<AnimStateMachine<DinoState>>(e).unwrap().wf() ==> e1.component::<AnimStateMachine<DinoState>>(e) is Some && e1.component::<AnimStateMachine<DinoState>>(e).unwrap().wf())
        &&& (e0.component::<DinoController>(e) is Some ==> e1.component::<DinoController>(e) == e0.component::<DinoController>(e))
    } by {
        lemma_set_same::<DinoState>(e0, e1, id, v, e);
        lemma_set_other::<DinoState, Movable>(e0, e1, id, v, e);
        lemma_set_other::<DinoState, Collider>(e0, e1, id, v, e);
        lemma_set_other::<DinoState, Animation>(e0, e1, id, v, e);
        lemma_set_other::<DinoState, EndlessScroll>(e0, e1, id, v, e);
        lemma_set_other::<DinoState, Ptero>(e0, e1, id, v, e);
        lemma_set_other::<DinoState, Sprite>(e0, e1, id, v, e);
        lemma_set_other::<DinoState, DinoController>(e0, e1, id, v, e);
        lemma_set_other::<DinoState, AnimStateMachine<DinoState>>(e0, e1, id, v, e);
    }
}

/// Writing a `Animation` keeps every component.
pub proof fn lemma_set_animation_keeps(e0: ECS, e1: ECS, id: int, v: Animation)
    requires
        e0.wf(),
        0 <= id < e0.count(),
        e1.wf(),
        e1.component_set(e0, id, v),
    ensures
        e1.keeps_components(e0),
{
    assert forall|e: int| 0 <= e < e0.count() implies {
        &&& (e0.component::<Movable>(e) is Some ==> e1.component::<Movable>(e) is Some)
        &&& (e0.component::<Collider>(e) is Some ==> e1.component::<Collider>(e) is Some)
        &&& (e0.component::<Animation>(e) is Some ==> e1.component::<Animation>(e) is Some)
        &&& (e0.component::<DinoState>(e) is Some ==> e1.component::<DinoState>(e) is Some)
        &&& (e0.component::<EndlessScroll>(e) is Some ==> e1.component::<EndlessScroll>(e) is Some)
        &&& (e0.component::<Ptero>(e) is Some ==> e1.component::<Ptero>(e) is Some)
        &&& (e0.component::<Sprite>(e) is Some ==> e1.component::<Sprite>(e) is Some)
        &&& (e0.component::<AnimStateMachine<DinoState>>(e) is Some && e0.component::<AnimStateMachine<DinoState>>(e).unwrap().wf() ==> e1.component::<AnimStateMachine<DinoState>>(e) is Some && e1.component::<AnimStateMachine<DinoState>>(e).unwrap().wf())
        &&& (e0.component::<DinoController>(e) is Some ==> e1.component::<DinoController>(e) == e0.component::<DinoController>(e))
    } by {
        lemma_set_same::<Animation>(e0, e1, id, v, e);
        lemma_set_other::<Animation, Movable>(e0, e1, id, v, e);
        lemma_set_other::<Animation, Collider>(e0, e1, id, v, e);
        lemma_set_other::<Animation, DinoState>(e0, e1, id, v, e);
        lemma_set_other::<Animation, EndlessScroll>(e0, e1, id, v, e);
        lemma_set_other::<Animation, Ptero>(e0, e1, id, v, e);
        lemma_set_other::<Animation, Sprite>(e0, e1, id, v, e);
        lemma_set_other::<Animation, DinoController>(e0, e1, id, v, e);
        lemma_set_other::<Animation, AnimStateMachine<DinoState>>(e0, e1, id, v, e);
    }
}

/// Writing a `Ptero` keeps every component.
pub proof fn lemma_set_ptero_keeps(e0: ECS, e1: ECS, id: int, v: Ptero)
    requires
        e0.wf(),
        0 <= id < e0.count(),
        e1.wf(),
        e1.component_set(e0, id, v),
    ensures
        e1.keeps_components(e0),
{
    assert forall|e: int| 0 <= e < e0.count() implies {
        &&& (e0.component::<Movable>(e) is Some ==> e1.component::<Movable>(e) is Some)
        &&& (e0.component::<Collider>(e) is Some ==> e1.component::<Collider>(e) is Some)
        &&& (e0.component::<Animation>(e) is Some ==> e1.component::<Animation>(e) is Some)
        &&& (e0.component::<DinoState>(e) is Some ==> e1.component::<DinoState>(e) is Some)
        &&& (e0.component::<EndlessScroll>(e) is Some ==> e1.component::<EndlessScroll>(e) is Some)
        &&& (e0.component::<Ptero>(e) is Some ==> e1.component::<Ptero>(e) is Some)
        &&& (e0.component::<Sprite>(e) is Some ==> e1.component::<Sprite>(e) is Some)
        &&& (e0.component::<AnimStateMachine<DinoState>>(e) is Some && e0.component::<AnimStateMachine<DinoState>>(e).unwrap().wf() ==> e1.component::<AnimStateMachine<DinoState>>(e) is Some && e1.component::<AnimStateMachine<DinoState>>(e).unwrap().wf())
        &&& (e0.component::<DinoController>(e) is Some ==> e1.component::<DinoController>(e) == e0.component::<DinoController>(e))
    } by {
        lemma_set_same::<Ptero>(e0, e1, id, v, e);
        lemma_set_other::<Ptero, Movable>(e0, e1, id, v, e);
        lemma_set_other::<Ptero, Collider>(e0, e1, id, v, e);
        lemma_set_other::<Ptero, Animation>(e0, e1, id, v, e);
        lemma_set_other::<Ptero, DinoState>(e0, e1, id, v, e);
        lemma_set_other::<Ptero, EndlessScroll>(e0, e1, id, v, e);
        lemma_set_other::<Ptero, Sprite>(e0, e1, id, v, e);
        lemma_set_other::<Ptero, DinoController>(e0, e1, id, v, e);
        lemma_set_other::<Ptero, AnimStateMachine<DinoState>>(e0, e1, id, v, e);
    }
}

/// Writing a `AnimStateMachine<DinoState>` keeps every component.
pub proof fn lemma_set_machine_keeps(e0: ECS, e1: ECS, id: int, v: AnimStateMachine<DinoState>)
    requires
        e0.wf(),
        0 <= id < e0.count(),
        e1.wf(),
        e1.component_set(e0, id, v),
        v.wf(),
    ensures
        e1.keeps_components(e0),
{
    assert forall|e: int| 0 <= e < e0.count() implies {
        &&& (e0.component::<Movable>(e) is Some ==> e1.component::<Movable>(e) is Some)
        &&& (e0.component::<Collider>(e) is Some ==> e1.component::<Collider>(e) is Some)
        &&& (e0.component::<Animation>(e) is Some ==> e1.component::<Animation>(e) is Some)
        &&& (e0.component::<DinoState>(e) is Some ==> e1.component::<DinoState>(e) is Some)
        &&& (e0.component::<EndlessScroll>(e) is Some ==> e1.component::<EndlessScroll>(e) is Some)
        &&& (e0.component::<Ptero>(e) is Some ==> e1.component::<Ptero>(e) is Some)
        &&& (e0.component::<Sprite>(e) is Some ==> e1.component::<Sprite>(e) is Some)
        &&& (e0.component::<AnimStateMachine<DinoState>>(e) is Some && e0.component::<AnimStateMachine<DinoState>>(e).unwrap().wf() ==> e1.component::<AnimStateMachine<DinoState>>(e) is Some && e1.component::<AnimStateMachine<DinoState>>(e).unwrap().wf())
        &&& (e0.component::<DinoController>(e) is Some ==> e1.component::<DinoController>(e) == e0.component::<DinoController>(e))
    } by {
        lemma_set_same::<AnimStateMachine<DinoState>>(e0, e1, id, v, e);
        lemma_set_other::<AnimStateMachine<DinoState>, Movable>(e0, e1, id, v, e);
        lemma_set_other::<AnimStateMachine<DinoState>, Collider>(e0, e1, id, v, e);
        lemma_set_other::<AnimStateMachine<DinoState>, Animation>(e0, e1, id, v, e);
        lemma_set_other::<AnimStateMachine<DinoState>, DinoState>(e0, e1, id, v, e);
        lemma_set_other::<AnimStateMachine<DinoState>, EndlessScroll>(e0, e1, id, v, e);
        lemma_set_other::<AnimStateMachine<DinoState>, Ptero>(e0, e1, id, v, e);
        lemma_set_other::<AnimStateMachine<DinoState>, Sprite>(e0, e1, id, v, e);
        lemma_set_other::<AnimStateMachine<DinoState>, DinoController>(e0, e1, id, v, e);
    }
}

/// What `add_component(id, v)` does to the components of type `T` itself.
pub proof fn lemma_add_same<T: Component>(e0: ECS, e1: ECS, id: int, v: T, e: int)
    requires
        e0.wf(),
        0 <= id < e0.count(),
        e1.component_added(e0, id, v),
    ensures
        0 <= e < e0.count() ==> e1.component::<T>(e) == if e == id {
            Some(v)
        } else {
            e0.component::<T>(e)
        },
{
    T::lemma_kind();
    T::lemma_round_trip(v);
    if e0.table(T::kind()) is Some {
        e0.lemma_table_len(T::kind());
    }
}

/// `add_component` of one type leaves the components of another type alone.
pub proof fn lemma_add_other<T: Component, U: Component>(e0: ECS, e1: ECS, id: int, v: T, e: int)
    requires
        e1.component_added(e0, id, v),
        U::kind() != T::kind(),
    ensures
        e1.component::<U>(e) == e0.component::<U>(e),
{
    U::lemma_kind();
}

/// Adding a `Movable` to an entity keeps every component.
pub proof fn lemma_add_movable_keeps(e0: ECS, e1: ECS, id: int, v: Movable)
    requires
        e0.wf(),
        0 <= id < e0.count(),
        e1.wf(),
        e1.component_added(e0, id, v),
    ensures
        e1.keeps_components(e0),
        e1.component::<Movable>(id) == Some(v),
{
    assert forall|e: int| 0 <= e < e0.count() implies {
        &&& (e0.component::<Movable>(e) is Some ==> e1.component::<Movable>(e) is Some)
        &&& (e0.component::<Collider>(e) is Some ==> e1.component::<Collider>(e) is Some)
        &&& (e0.component::<Animation>(e) is Some ==> e1.component::<Animation>(e) is Some)
        &&& (e0.component::<DinoState>(e) is Some ==> e1.component::<DinoState>(e) is Some)
        &&& (e0.component::<EndlessScroll>(e) is Some ==> e1.component::<EndlessScroll>(e) is Some)
        &&& (e0.component::<Ptero>(e) is Some ==> e1.component::<Ptero>(e) is Some)
        &&& (e0.component::<Sprite>(e) is Some ==> e1.component::<Sprite>(e) is Some)
        &&& (e0.component::<AnimStateMachine<DinoState>>(e) is Some && e0.component::<AnimStateMachine<DinoState>>(e).unwrap().wf() ==> e1.component::<AnimStateMachine<DinoState>>(e) is Some && e1.component::<AnimStateMachine<DinoState>>(e).unwrap().wf())
        &&& (e0.component::<DinoController>(e) is Some ==> e1.component::<DinoController>(e) == e0.component::<DinoController>(e))
    } by {
        lemma_add_same::<Movable>(e0, e1, id, v, e);
        lemma_add_other::<Movable, Collider>(e0, e1, id, v, e);
        lemma_add_other::<Movable, Animation>(e0, e1, id, v, e);
        lemma_add_other::<Movable, DinoState>(e0, e1, id, v, e);
        lemma_add_other::<Movable, EndlessScroll>(e0, e1, id, v, e);
        lemma_add_other::<Movable, Ptero>(e0, e1, id, v, e);
        lemma_add_other::<Movable, Sprite>(e0, e1, id, v, e);
        lemma_add_other::<Movable, DinoController>(e0, e1, id, v, e);
        lemma_add_other::<Movable, AnimStateMachine<DinoState>>(e0, e1, id, v, e);
    }
    lemma_add_same::<Movable>(e0, e1, id, v, id);
}

/// Adding a `Collider` to an entity keeps every component.
pub proof fn lemma_add_collider_keeps(e0: ECS, e1: ECS, id: int, v: Collider)
    requires
        e0.wf(),
        0 <= id < e0.count(),
        e1.wf(),
        e1.component_added(e0, id, v),
    ensures
        e1.keeps_components(e0),
        e1.component::<Collider>(id) == Some(v),
{
    assert forall|e: int| 0 <= e < e0.count() implies {
        &&& (e0.component::<Movable>(e) is Some ==> e1.component::<Movable>(e) is Some)
        &&& (e0.component::<Collider>(e) is Some ==> e1.component::<Collider>(e) is Some)
        &&& (e0.component::<Animation>(e) is Some ==> e1.component::<Animation>(e) is Some)
        &&& (e0.component::<DinoState>(e) is Some ==> e1.component::<DinoState>(e) is Some)
        &&& (e0.component::<EndlessScroll>(e) is Some ==> e1.component::<EndlessScroll>(e) is Some)
        &&& (e0.component::<Ptero>(e) is Some ==> e1.component::<Ptero>(e) is Some)
        &&& (e0.component::<Sprite>(e) is Some ==> e1.component::<Sprite>(e) is Some)
        &&& (e0.component::<AnimStateMachine<DinoState>>(e) is Some && e0.component::<AnimStateMachine<DinoState>>(e).unwrap().wf() ==> e1.component::<AnimStateMachine<DinoState>>(e) is Some && e1.component::<AnimStateMachine<DinoState>>(e).unwrap().wf())
        &&& (e0.component::<DinoController>(e) is Some ==> e1.component::<DinoController>(e) == e0.component::<DinoController>(e))
    } by {
        lemma_add_same::<Collider>(e0, e1, id, v, e);
        lemma_add_other::<Collider, Movable>(e0, e1, id, v, e);
        lemma_add_other::<Collider, Animation>(e0, e1, id, v, e);
        lemma_add_other::<Collider, DinoState>(e0, e1, id, v, e);
        lemma_add_other::<Collider, EndlessScroll>(e0, e1, id, v, e);
        lemma_add_other::<Collider, Ptero>(e0, e1, id, v, e);
        lemma_add_other::<Collider, Sprite>(e0, e1, id, v, e);
        lemma_add_other::<Collider, DinoController>(e0, e1, id, v, e);
        lemma_add_other::<Collider, AnimStateMachine<DinoState>>(e0, e1, id, v, e);
    }
    lemma_add_same::<Collider>(e0, e1, id, v, id);
}

/// Adding a `Animation` to an entity keeps every component.
pub proof fn lemma_add_animation_keeps(e0: ECS, e1: ECS, id: int, v: Animation)
    requires
        e0.wf(),
        0 <= id < e0.count(),
        e1.wf(),
        e1.component_added(e0, id, v),
    ensures
        e1.keeps_components(e0),
        e1.component::<Animation>(id) == Some(v),
{
    assert forall|e: int| 0 <= e < e0.count() implies {
        &&& (e0.component::<Movable>(e) is Some ==> e1.component::<Movable>(e) is Some)
        &&& (e0.component::<Collider>(e) is Some ==> e1.component::<Collider>(e) is Some)
        &&& (e0.component::<Animation>(e) is Some ==> e1.component::<Animation>(e) is Some)
        &&& (e0.component::<DinoState>(e) is Some ==> e1.component::<DinoState>(e) is Some)
        &&& (e0.component::<EndlessScroll>(e) is Some ==> e1.component::<EndlessScroll>(e) is Some)
        &&& (e0.component::<Ptero>(e) is Some ==> e1.component::<Ptero>(e) is Some)
        &&& (e0.component::<Sprite>(e) is Some ==> e1.component::<Sprite>(e) is Some)
        &&& (e0.component::<AnimStateMachine<DinoState>>(e) is Some && e0.component::<AnimStateMachine<DinoState>>(e).unwrap().wf() ==> e1.component::<AnimStateMachine<DinoState>>(e) is Some && e1.component::<AnimStateMachine<DinoState>>(e).unwrap().wf())
        &&& (e0.component::<DinoController>(e) is Some ==> e1.component::<DinoController>(e) == e0.component::<DinoController>(e))
    } by {
        lemma_add_same::<Animation>(e0, e1, id, v, e);
        lemma_add_other::<Animation, Movable>(e0, e1, id, v, e);
        lemma_add_other::<Animation, Collider>(e0, e1, id, v, e);
        lemma_add_other::<Animation, DinoState>(e0, e1, id, v, e);
        lemma_add_other::<Animation, EndlessScroll>(e0, e1, id, v, e);
        lemma_add_other::<Animation, Ptero>(e0, e1, id, v, e);
        lemma_add_other::<Animation, Sprite>(e0, e1, id, v, e);
        lemma_add_other::<Animation, DinoController>(e0, e1, id, v, e);
        lemma_add_other::<Animation, AnimStateMachine<DinoState>>(e0, e1, id, v, e);
    }
    lemma_add_same::<Animation>(e0, e1, id, v, id);
}

/// Adding a `DinoState` to an entity keeps every component.
pub proof fn lemma_add_state_keeps(e0: ECS, e1: ECS, id: int, v: DinoState)
    requires
        e0.wf(),
        0 <= id < e0.count(),
        e1.wf(),
        e1.component_added(e0, id, v),
    ensures
        e1.keeps_components(e0),
        e1.component::<DinoState>(id) == Some(v),
{
    assert forall|e: int| 0 <= e < e0.count() implies {
        &&& (e0.component::<Movable>(e) is Some ==> e1.component::<Movable>(e) is Some)
        &&& (e0.component::<Collider>(e) is Some ==> e1.component::<Collider>(e) is Some)
        &&& (e0.component::<Animation>(e) is Some ==> e1.component::<Animation>(e) is Some)
        &&& (e0.component::<DinoState>(e) is Some ==> e1.component::<DinoState>(e) is Some)
        &&& (e0.component::<EndlessScroll>(e) is Some ==> e1.component::<EndlessScroll>(e) is Some)
        &&& (e0.component::<Ptero>(e) is Some ==> e1.component::<Ptero>(e) is Some)
        &&& (e0.component::<Sprite>(e) is Some ==> e1.component::<Sprite>(e) is Some)
        &&& (e0.component::<AnimStateMachine<DinoState>>(e) is Some && e0.component::<AnimStateMachine<DinoState>>(e).unwrap().wf() ==> e1.component::<AnimStateMachine<DinoState>>(e) is Some && e1.component::<AnimStateMachine<DinoState>>(e).unwrap().wf())
        &&& (e0.component::<DinoController>(e) is Some ==> e1.component::<DinoController>(e) == e0.component::<DinoController>(e))
    } by {
        lemma_add_same::<DinoState>(e0, e1, id, v, e);
        lemma_add_other::<DinoState, Movable>(e0, e1, id, v, e);
        lemma_add_other::<DinoState, Collider>(e0, e1, id, v, e);
        lemma_add_other::<DinoState, Animation>(e0, e1, id, v, e);
        lemma_add_other::<DinoState, EndlessScroll>(e0, e1, id, v, e);
        lemma_add_other::<DinoState, Ptero>(e0, e1, id, v, e);
        lemma_add_other::<DinoState, Sprite>(e0, e1, id, v, e);
        lemma_add_other::<DinoState, DinoController>(e0, e1, id, v, e);
        lemma_add_other::<DinoState, AnimStateMachine<DinoState>>(e0, e1, id, v, e);
    }
    lemma_add_same::<DinoState>(e0, e1, id, v, id);
}

/// Adding a `EndlessScroll` to an entity keeps every component.
pub proof fn lemma_add_scroll_keeps(e0: ECS, e1: ECS, id: int, v: EndlessScroll)
    requires
        e0.wf(),
        0 <= id < e0.count(),
        e1.wf(),
        e1.component_added(e0, id, v),
    ensures
        e1.keeps_components(e0),
        e1.component::<EndlessScroll>(id) == Some(v),
{
    assert forall|e: int| 0 <= e < e0.count() implies {
        &&& (e0.component::<Movable>(e) is Some ==> e1.component::<Movable>(e) is Some)
        &&& (e0.component::<Collider>(e) is Some ==> e1.component::<Collider>(e) is Some)
        &&& (e0.component::<Animation>(e) is Some ==> e1.component::<Animation>(e) is Some)
        &&& (e0.component::<DinoState>(e) is Some ==> e1.component::<DinoState>(e) is Some)
        &&& (e0.component::<EndlessScroll>(e) is Some ==> e1.component::<EndlessScroll>(e) is Some)
        &&& (e0.component::<Ptero>(e) is Some ==> e1.component::<Ptero>(e) is Some)
        &&& (e0.component::<Sprite>(e) is Some ==> e1.component::<Sprite>(e) is Some)
        &&& (e0.component::<AnimStateMachine<DinoState>>(e) is Some && e0.component::<AnimStateMachine<DinoState>>(e).unwrap().wf() ==> e1.component::<AnimStateMachine<DinoState>>(e) is Some && e1.component::<AnimStateMachine<DinoState>>(e).unwrap().wf())
        &&& (e0.component::<DinoController>(e) is Some ==> e1.component::<DinoController>(e) == e0.component::<DinoController>(e))
    } by {
        lemma_add_same::<EndlessScroll>(e0, e1, id, v, e);
        lemma_add_other::<EndlessScroll, Movable>(e0, e1, id, v, e);
        lemma_add_other::<EndlessScroll, Collider>(e0, e1, id, v, e);
        lemma_add_other::<EndlessScroll, Animation>(e0, e1, id, v, e);
        lemma_add_other::<EndlessScroll, DinoState>(e0, e1, id, v, e);
        lemma_add_other::<EndlessScroll, Ptero>(e0, e1, id, v, e);
        lemma_add_other::<EndlessScroll, Sprite>(e0, e1, id, v, e);
        lemma_add_other::<EndlessScroll, DinoController>(e0, e1, id, v, e);
        lemma_add_other::<EndlessScroll, AnimStateMachine<DinoState>>(e0, e1, id, v, e);
    }
    lemma_add_same::<EndlessScroll>(e0, e1, id, v, id);
}

/// Adding a `Ptero` to an entity keeps every component.
pub proof fn lemma_add_ptero_keeps(e0: ECS, e1: ECS, id: int, v: Ptero)
    requires
        e0.wf(),
        0 <= id < e0.count(),
        e1.wf(),
        e1.component_added(e0, id, v),
    ensures
        e1.keeps_components(e0),
        e1.component::<Ptero>(id) == Some(v),
{
    assert forall|e: int| 0 <= e < e0.count() implies {
        &&& (e0.component::<Movable>(e) is Some ==> e1.component::<Movable>(e) is Some)
        &&& (e0.component::<Collider>(e) is Some ==> e1.component::<Collider>(e) is Some)
        &&& (e0.component::<Animation>(e) is Some ==> e1.component::<Animation>(e) is Some)
        &&& (e0.component::<DinoState>(e) is Some ==> e1.component::<DinoState>(e) is Some)
        &&& (e0.component::<EndlessScroll>(e) is Some ==> e1.component::<EndlessScroll>(e) is Some)
        &&& (e0.component::<Ptero>(e) is Some ==> e1.component::<Ptero>(e) is Some)
        &&& (e0.component::<Sprite>(e) is Some ==> e1.component::<Sprite>(e) is Some)
        &&& (e0.component::<AnimStateMachine<DinoState>>(e) is Some && e0.component::<AnimStateMachine<DinoState>>(e).unwrap().wf() ==> e1.component::<AnimStateMachine<DinoState>>(e) is Some && e1.component::<AnimStateMachine<DinoState>>(e).unwrap().wf())
        &&& (e0.component::<DinoController>(e) is Some ==> e1.component::<DinoController>(e) == e0.component::<DinoController>(e))
    } by {
        lemma_add_same::<Ptero>(e0, e1, id, v, e);
        lemma_add_other::<Ptero, Movable>(e0, e1, id, v, e);
        lemma_add_other::<Ptero, Collider>(e0, e1, id, v, e);
        lemma_add_other::<Ptero, Animation>(e0, e1, id, v, e);
        lemma_add_other::<Ptero, DinoState>(e0, e1, id, v, e);
        lemma_add_other::<Ptero, EndlessScroll>(e0, e1, id, v, e);
        lemma_add_other::<Ptero, Sprite>(e0, e1, id, v, e);
        lemma_add_other::<Ptero, DinoController>(e0, e1, id, v, e);
        lemma_add_other::<Ptero, AnimStateMachine<DinoState>>(e0, e1, id, v, e);
    }
    lemma_add_same::<Ptero>(e0, e1, id, v, id);
}

/// Adding a `Sprite` to an entity keeps every component.
pub proof fn lemma_add_sprite_keeps(e0: ECS, e1: ECS, id: int, v: Sprite)
    requires
        e0.wf(),
        0 <= id < e0.count(),
        e1.wf(),
        e1.component_added(e0, id, v),
    ensures
        e1.keeps_components(e0),
        e1.component::<Sprite>(id) == Some(v),
{
    assert forall|e: int| 0 <= e < e0.count() implies {
        &&& (e0.component::<Movable>(e) is Some ==> e1.component::<Movable>(e) is Some)
        &&& (e0.component::<Collider>(e) is Some ==> e1.component::<Collider>(e) is Some)
        &&& (e0.component::<Animation>(e) is Some ==> e1.component::<Animation>(e) is Some)
        &&& (e0.component::<DinoState>(e) is Some ==> e1.component::<DinoState>(e) is Some)
        &&& (e0.component::<EndlessScroll>(e) is Some ==> e1.component::<EndlessScroll>(e) is Some)
        &&& (e0.component::<Ptero>(e) is Some ==> e1.component::<Ptero>(e) is Some)
        &&& (e0.component::<Sprite>(e) is Some ==> e1.component::<Sprite>(e) is Some)
        &&& (e0.component::<AnimStateMachine<DinoState>>(e) is Some && e0.component::<AnimStateMachine<DinoState>>(e).unwrap().wf() ==> e1.component::<AnimStateMachine<DinoState>>(e) is Some && e1.component::<AnimStateMachine<DinoState>>(e).unwrap().wf())
        &&& (e0.component::<DinoController>(e) is Some ==> e1.component::<DinoController>(e) == e0.component::<DinoController>(e))
    } by {
        lemma_add_same::<Sprite>(e0, e1, id, v, e);
        lemma_add_other::<Sprite, Movable>(e0, e1, id, v, e);
        lemma_add_other::<Sprite, Collider>(e0, e1, id, v, e);
        lemma_add_other::<Sprite, Animation>(e0, e1, id, v, e);
        lemma_add_other::<Sprite, DinoState>(e0, e1, id, v, e);
        lemma_add_other::<Sprite, EndlessScroll>(e0, e1, id, v, e);
        lemma_add_other::<Sprite, Ptero>(e0, e1, id, v, e);
        lemma_add_other::<Sprite, DinoController>(e0, e1, id, v, e);
        lemma_add_other::<Sprite, AnimStateMachine<DinoState>>(e0, e1, id, v, e);
    }
    lemma_add_same::<Sprite>(e0, e1, id, v, id);
}

/// Adding a `DinoController` to an entity keeps every component.
pub proof fn lemma_add_controller_keeps(e0: ECS, e1: ECS, id: int, v: DinoController)
    requires
        e0.wf(),
        0 <= id < e0.count(),
        e1.wf(),
        e1.component_added(e0, id, v),
        e0.component::<DinoController>(id) is None,
    ensures
        e1.keeps_components(e0),
        e1.component::<DinoController>(id) == Some(v),
{
    assert forall|e: int| 0 <= e < e0.count() implies {
        &&& (e0.component::<Movable>(e) is Some ==> e1.component::<Movable>(e) is Some)
        &&& (e0.component::<Collider>(e) is Some ==> e1.component::<Collider>(e) is Some)
        &&& (e0.component::<Animation>(e) is Some ==> e1.component::<Animation>(e) is Some)
        &&& (e0.component::<DinoState>(e) is Some ==> e1.component::<DinoState>(e) is Some)
        &&& (e0.component::<EndlessScroll>(e) is Some ==> e1.component::<EndlessScroll>(e) is Some)
        &&& (e0.component::<Ptero>(e) is Some ==> e1.component::<Ptero>(e) is Some)
        &&& (e0.component::<Sprite>(e) is Some ==> e1.component::<Sprite>(e) is Some)
        &&& (e0.component::<AnimStateMachine<DinoState>>(e) is Some && e0.component::<AnimStateMachine<DinoState>>(e).unwrap().wf() ==> e1.component::<AnimStateMachine<DinoState>>(e) is Some && e1.component::<AnimStateMachine<DinoState>>(e).unwrap().wf())
        &&& (e0.component::<DinoController>(e) is Some ==> e1.component::<DinoController>(e) == e0.component::<DinoController>(e))
    } by {
        lemma_add_same::<DinoController>(e0, e1, id, v, e);
        lemma_add_other::<DinoController, Movable>(e0, e1, id, v, e);
        lemma_add_other::<DinoController, Collider>(e0, e1, id, v, e);
        lemma_add_other::<DinoController, Animation>(e0, e1, id, v, e);
        lemma_add_other::<DinoController, DinoState>(e0, e1, id, v, e);
        lemma_add_other::<DinoController, EndlessScroll>(e0, e1, id, v, e);
        lemma_add_other::<DinoController, Ptero>(e0, e1, id, v, e);
        lemma_add_other::<DinoController, Sprite>(e0, e1, id, v, e);
        lemma_add_other::<DinoController, AnimStateMachine<DinoState>>(e0, e1, id, v, e);
    }
    lemma_add_same::<DinoController>(e0, e1, id, v, id);
}

/// Adding a `AnimStateMachine<DinoState>` to an entity keeps every component.
pub proof fn lemma_add_machine_keeps(e0: ECS, e1: ECS, id: int, v: AnimStateMachine<DinoState>)
    requires
        e0.wf(),
        0 <= id < e0.count(),
        e1.wf(),
        e1.component_added(e0, id, v),
        v.wf(),
    ensures
        e1.keeps_components(e0),
        e1.component::<AnimStateMachine<DinoState>>(id) == Some(v),
{
    assert forall|e: int| 0 <= e < e0.count() implies {
        &&& (e0.component::<Movable>(e) is Some ==> e1.component::<Movable>(e) is Some)
        &&& (e0.component::<Collider>(e) is Some ==> e1.component::<Collider>(e) is Some)
        &&& (e0.component::<Animation>(e) is Some ==> e1.component::<Animation>(e) is Some)
        &&& (e0.component::<DinoState>(e) is Some ==> e1.component::<DinoState>(e) is Some)
        &&& (e0.component::<EndlessScroll>(e) is Some ==> e1.component::<EndlessScroll>(e) is Some)
        &&& (e0.component::<Ptero>(e) is Some ==> e1.component::<Ptero>(e) is Some)
        &&& (e0.component::<Sprite>(e) is Some ==> e1.component::<Sprite>(e) is Some)
        &&& (e0.component::<AnimStateMachine<DinoState>>(e) is Some && e0.component::<AnimStateMachine<DinoState>>(e).unwrap().wf() ==> e1.component::<AnimStateMachine<DinoState>>(e) is Some && e1.component::<AnimStateMachine<DinoState>>(e).unwrap().wf())
        &&& (e0.component::<DinoController>(e) is Some ==> e1.component::<DinoController>(e) == e0.component::<DinoController>(e))
    } by {
        lemma_add_same::<AnimStateMachine<DinoState>>(e0, e1, id, v, e);
        lemma_add_other::<AnimStateMachine<DinoState>, Movable>(e0, e1, id, v, e);
        lemma_add_other::<AnimStateMachine<DinoState>, Collider>(e0, e1, id, v, e);
        lemma_add_other::<AnimStateMachine<DinoState>, Animation>(e0, e1, id, v, e);
        lemma_add_other::<AnimStateMachine<DinoState>, DinoState>(e0, e1, id, v, e);
        lemma_add_other::<AnimStateMachine<DinoState>, EndlessScroll>(e0, e1, id, v, e);
        lemma_add_other::<AnimStateMachine<DinoState>, Ptero>(e0, e1, id, v, e);
        lemma_add_other::<AnimStateMachine<DinoState>, Sprite>(e0, e1, id, v, e);
        lemma_add_other::<AnimStateMachine<DinoState>, DinoController>(e0, e1, id, v, e);
    }
    lemma_add_same::<AnimStateMachine<DinoState>>(e0, e1, id, v, id);
}

} // verus!
