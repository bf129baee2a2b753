use dino_game::dino::DinoState;
use dino_game::ecs::ECS;
use dino_game::movable::Movable;
use dino_game::ptero::Ptero;
use dino_game::vec2::Vec2;

fn still(x: i64, y: i64) -> Movable {
    Movable::new(Vec2::new(x, y), Vec2::new(0, 0), Vec2::new(0, 0))
}

#[test]
fn fresh_entity_has_no_component() {
    let mut ecs = ECS::new();
    let a = ecs.new_entity();
    ecs.add_component(a, still(1, 2));
    let b = ecs.new_entity();
    assert_eq!(b, 1);
    assert_eq!(ecs.entities_count(), 2);
    assert_eq!(ecs.get_component::<Movable>(b), None);
    assert_eq!(ecs.get_component::<DinoState>(b), None);
    assert_eq!(ecs.get_component::<Movable>(a), Some(still(1, 2)));
}

#[test]
fn set_after_add_is_visible() {
    let mut ecs = ECS::new();
    let a = ecs.new_entity();
    ecs.add_component(a, still(1, 2));
    ecs.set_component(a, still(3, 4));
    assert_eq!(ecs.get_component::<Movable>(a), Some(still(3, 4)));
}

#[test]
fn add_is_an_upsert() {
    let mut ecs = ECS::new();
    let a = ecs.new_entity();
    ecs.add_component(a, DinoState::Run);
    ecs.add_component(a, DinoState::Dead);
    assert_eq!(ecs.get_component::<DinoState>(a), Some(DinoState::Dead));
}

#[test]
fn set_without_table_does_nothing() {
    let mut ecs = ECS::new();
    let a = ecs.new_entity();
    ecs.set_component(a, Ptero::new());
    assert_eq!(ecs.get_component::<Ptero>(a), None);
    assert!(ecs.borrow_component_vec::<Ptero>().is_none());
}

#[test]
fn set_on_entity_without_that_component_adds_it_once_table_exists() {
    let mut ecs = ECS::new();
    let a = ecs.new_entity();
    let b = ecs.new_entity();
    ecs.add_component(a, DinoState::Run);
    ecs.set_component(b, DinoState::Jump);
    assert_eq!(ecs.get_component::<DinoState>(b), Some(DinoState::Jump));
    assert_eq!(ecs.get_component::<DinoState>(a), Some(DinoState::Run));
}

#[test]
fn tables_are_separate_per_type() {
    let mut ecs = ECS::new();
    let a = ecs.new_entity();
    ecs.add_component(a, DinoState::Run);
    ecs.add_component(a, still(5, 5));
    ecs.set_component(a, DinoState::Dead);
    assert_eq!(ecs.get_component::<Movable>(a), Some(still(5, 5)));
    assert_eq!(ecs.get_component::<DinoState>(a), Some(DinoState::Dead));
}

#[test]
fn column_copy_has_one_slot_per_entity() {
    let mut ecs = ECS::new();
    let a = ecs.new_entity();
    let _b = ecs.new_entity();
    let c = ecs.new_entity();
    ecs.add_component(a, still(1, 1));
    ecs.add_component(c, still(3, 3));
    let col = ecs.borrow_component_vec::<Movable>().unwrap();
    assert_eq!(col, vec![Some(still(1, 1)), None, Some(still(3, 3))]);
    let d = ecs.new_entity();
    assert_eq!(ecs.borrow_component_vec::<Movable>().unwrap().len(), 4);
    assert_eq!(ecs.get_component::<Movable>(d), None);
}
