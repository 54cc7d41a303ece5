use game_engine::engine::game_engine::{TickSchedule, MAX_UPDATES_PER_FRAME};
use game_engine::engine::entity::entity::{Entity, EntityBuilder};
use game_engine::engine::entity::entity_component_storage::EntityComponentStorage;
use game_engine::engine::entity_component_storage as single;
use game_engine::engine::event::key_event::{Key, KeyEvent};
use game_engine::engine::event::mouse_input_event::{MouseButton, MouseInputEvent};
use game_engine::engine::event::ElementState;

fn sample_storage() -> EntityComponentStorage<u32, char> {
    let mut ecs = EntityComponentStorage::new();
    ecs.add(EntityBuilder::new().rigid_body(10).render_body('a').build());
    ecs.add(EntityBuilder::new().render_body('b').build());
    ecs.add(EntityBuilder::new().rigid_body(30).build());
    ecs.add(Entity::new());
    ecs
}

#[test]
fn builder_sets_the_components_given() {
    let e: Entity<u32, char> = EntityBuilder::new().rigid_body(1).build();
    assert_eq!(e.rigid_body, Some(1));
    assert_eq!(e.render_body, None);
    let e: Entity<u32, char> = EntityBuilder::new().render_body('x').rigid_body(2).build();
    assert_eq!(e.rigid_body, Some(2));
    assert_eq!(e.render_body, Some('x'));
    let e: Entity<u32, char> = Entity::new();
    assert_eq!(e.rigid_body, None);
    assert_eq!(e.render_body, None);
}

#[test]
fn add_keeps_component_lists_aligned() {
    let ecs = sample_storage();
    assert_eq!(ecs.rigid_bodies, vec![Some(10), None, Some(30), None]);
    assert_eq!(ecs.render_bodies, vec![Some('a'), Some('b'), None, None]);
}

#[test]
fn component_iters_skip_missing_components() {
    let ecs = sample_storage();
    let rigid: Vec<u32> = ecs.rigid_body_iter().into_iter().copied().collect();
    assert_eq!(rigid, vec![10, 30]);
    let render: Vec<char> = ecs.render_body_iter().into_iter().copied().collect();
    assert_eq!(render, vec!['a', 'b']);
    let empty: EntityComponentStorage<u32, char> = EntityComponentStorage::new();
    assert!(empty.rigid_body_iter().is_empty());
    assert!(empty.render_body_iter().is_empty());
}

#[test]
fn entities_iter_pairs_components_by_entity() {
    let ecs = sample_storage();
    let handles = ecs.entities_iter();
    assert_eq!(handles.len(), 4);
    assert_eq!(handles[0].rigid_body, Some(&10));
    assert_eq!(handles[0].render_body, Some(&'a'));
    assert_eq!(handles[1].rigid_body, None);
    assert_eq!(handles[1].render_body, Some(&'b'));
    assert_eq!(handles[2].rigid_body, Some(&30));
    assert_eq!(handles[2].render_body, None);
    assert_eq!(handles[3].rigid_body, None);
    assert_eq!(handles[3].render_body, None);
}

#[test]
fn component_mut_changes_one_slot_in_place() {
    let mut ecs = sample_storage();
    if let Some(x) = ecs.rigid_body_mut(2) {
        *x += 5;
    }
    assert!(ecs.rigid_body_mut(1).is_none());
    if let Some(c) = ecs.render_body_mut(1) {
        *c = 'z';
    }
    assert!(ecs.render_body_mut(3).is_none());
    assert_eq!(ecs.rigid_bodies, vec![Some(10), None, Some(35), None]);
    assert_eq!(ecs.render_bodies, vec![Some('a'), Some('z'), None, None]);
}

#[test]
fn single_component_storage() {
    let mut ecs: single::EntityComponentStorage<i64> = single::EntityComponentStorage::new();
    ecs.add(single::Entity { rigid_body: None });
    ecs.add(single::Entity { rigid_body: Some(-4) });
    let rigid: Vec<i64> = ecs.rigid_body_iter().into_iter().copied().collect();
    assert_eq!(rigid, vec![-4]);
    assert!(ecs.rigid_body_mut(0).is_none());
    if let Some(x) = ecs.rigid_body_mut(1) {
        *x = 8;
    }
    assert_eq!(ecs.rigid_bodies, vec![None, Some(8)]);
}

#[test]
fn events_compare_by_their_fields() {
    let press = KeyEvent { key: Key::W, state: ElementState::Pressed, repeat: false };
    assert_eq!(press, KeyEvent { key: Key::W, state: ElementState::Pressed, repeat: false });
    assert_ne!(press, KeyEvent { key: Key::W, state: ElementState::Released, repeat: false });
    assert_ne!(press, KeyEvent { key: Key::Unkown, state: ElementState::Pressed, repeat: false });
    let click = MouseInputEvent { state: ElementState::Pressed, button: MouseButton::Left };
    assert_eq!(click, MouseInputEvent { state: ElementState::Pressed, button: MouseButton::Left });
    assert_ne!(click, MouseInputEvent { state: ElementState::Pressed, button: MouseButton::Right });
}

#[test]
fn tick_schedule_runs_due_updates_up_to_the_frame_limit() {
    let mut s = TickSchedule::new(60, 5);
    assert_eq!(s.tick_delta, 16_000_000);
    assert_eq!(s.next_tick, 16_000_005);
    assert!(!s.step(16_000_005, 0));
    assert_eq!(s, TickSchedule { next_tick: 16_000_005, tick_delta: 16_000_000 });
    let mut updates = 0;
    while s.step(1_000_000_000, updates) {
        updates += 1;
    }
    assert_eq!(updates, MAX_UPDATES_PER_FRAME);
    assert_eq!(s.next_tick, 16_000_005 + 5 * 16_000_000);
    assert_eq!(TickSchedule::new(1, 0).tick_delta, 1_000_000_000);
    assert_eq!(TickSchedule::new(3000, 0).tick_delta, 0);
}
