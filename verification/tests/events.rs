use imara::events::{dedup_events_by_id, Event, EventManager, EventType, SystemType};
use imara::world::EntityID;

fn ids_of(events: &Vec<Event>) -> Vec<u64> {
    let mut out = Vec::new();
    for e in events.iter() {
        out.push(e.id);
    }
    out
}

#[test]
fn fresh_event_has_no_pending_systems() {
    let e = Event::new(7, EventType::EntityCreated(3 as EntityID));
    assert_eq!(e.id, 7);
    assert!(e.get_pending_system().is_empty());
    assert!(!e.is_pending_for(SystemType::RenderSystem));
}

#[test]
fn register_pending_system_is_idempotent() {
    let mut e = Event::new(1, EventType::EntityRemoved(0));
    e.register_pending_system(SystemType::RenderSystem);
    e.register_pending_system(SystemType::RenderSystem);
    assert_eq!(e.get_pending_system().len(), 1);
    e.register_pending_system(SystemType::PhysicsSystem);
    assert_eq!(e.get_pending_system().len(), 2);
    assert!(e.is_pending_for(SystemType::RenderSystem));
    assert!(e.is_pending_for(SystemType::PhysicsSystem));
}

#[test]
fn remove_pending_system_drops_only_that_tag() {
    let mut e = Event::new(2, EventType::EntityCreated(1));
    e.register_pending_system(SystemType::RenderSystem);
    e.register_pending_system(SystemType::PhysicsSystem);
    e.remove_pending_system(SystemType::RenderSystem);
    assert!(!e.is_pending_for(SystemType::RenderSystem));
    assert!(e.is_pending_for(SystemType::PhysicsSystem));
    e.remove_pending_system(SystemType::RenderSystem);
    assert_eq!(e.get_pending_system().len(), 1);
}

#[test]
fn add_event_is_delivered_in_the_same_cycle() {
    let mut em = EventManager::new();
    let ev = em.create_event(EventType::EntityCreated(0));
    let id = ev.id;
    em.add_event(ev);
    let delivered = em.get_engine_events();
    assert_eq!(ids_of(&delivered), vec![id]);
}

#[test]
fn add_engine_event_is_invisible_until_next_cycle() {
    let mut em = EventManager::new();
    let ev = em.create_event(EventType::EntityCreated(5));
    let id = ev.id;
    em.add_engine_event(ev);
    assert!(em.get_engine_events().is_empty());
    em.clear();
    assert_eq!(ids_of(&em.get_engine_events()), vec![id]);
    em.clear();
    assert!(em.get_engine_events().is_empty());
}

#[test]
fn pending_event_redelivered_until_both_systems_resolve() {
    let mut em = EventManager::new();
    let ev = em.create_event(EventType::EntityCreated(0));
    let id = ev.id;
    em.add_event(ev);
    let cycle1 = em.get_engine_events();
    assert_eq!(cycle1.len(), 1);
    em.add_pending(cycle1[0].duplicate(), SystemType::RenderSystem);
    em.add_pending(cycle1[0].duplicate(), SystemType::PhysicsSystem);
    // deferring does not re-deliver within the deferring cycle
    assert_eq!(em.get_engine_events().len(), 1);
    assert!(!em.is_pending(id));
    em.clear();
    // redelivered every cycle while either system is blocked
    assert!(em.is_pending(id));
    assert_eq!(ids_of(&em.get_engine_events()), vec![id]);
    em.clear();
    assert_eq!(ids_of(&em.get_engine_events()), vec![id]);
    em.remove_pending(id, SystemType::RenderSystem);
    assert!(em.is_pending(id));
    assert_eq!(ids_of(&em.get_engine_events()), vec![id]);
    em.remove_pending(id, SystemType::PhysicsSystem);
    assert!(!em.is_pending(id));
    assert!(em.get_engine_events().is_empty());
    em.clear();
    assert!(em.get_engine_events().is_empty());
}

#[test]
fn pending_event_tags_visible_to_consumers() {
    let mut em = EventManager::new();
    let ev = em.create_event(EventType::EntityRemoved(4));
    let id = ev.id;
    em.add_event(ev);
    let cycle1 = em.get_engine_events();
    em.add_pending(cycle1[0].duplicate(), SystemType::RenderSystem);
    em.clear();
    let cycle2 = em.get_engine_events();
    assert_eq!(cycle2.len(), 1);
    assert_eq!(cycle2[0].id, id);
    assert!(cycle2[0].is_pending_for(SystemType::RenderSystem));
    assert!(!cycle2[0].is_pending_for(SystemType::PhysicsSystem));
}

#[test]
fn event_ids_are_monotonic_and_unique() {
    let mut em = EventManager::new();
    let a = em.create_event(EventType::EntityCreated(0));
    let b = em.create_event(EventType::EntityCreated(0));
    let c = em.create_event(EventType::EntityRemoved(0));
    assert_eq!(a.id, 0);
    assert_eq!(b.id, 1);
    assert_eq!(c.id, 2);
}

#[test]
fn dedup_keeps_one_event_per_id() {
    let mut events = Vec::new();
    events.push(Event::new(0, EventType::EntityCreated(0)));
    events.push(Event::new(1, EventType::EntityCreated(1)));
    events.push(Event::new(0, EventType::EntityCreated(0)));
    events.push(Event::new(2, EventType::EntityCreated(2)));
    events.push(Event::new(1, EventType::EntityCreated(1)));
    let unique = dedup_events_by_id(&events);
    assert_eq!(ids_of(&unique), vec![0, 1, 2]);
}

#[test]
fn duplicate_copies_everything_observable() {
    let mut e = Event::new(9, EventType::EntityRemoved(2));
    e.register_pending_system(SystemType::PhysicsSystem);
    let d = e.duplicate();
    assert_eq!(d.id, 9);
    assert!(matches!(d.event_type, EventType::EntityRemoved(2)));
    assert!(d.is_pending_for(SystemType::PhysicsSystem));
    assert!(!d.is_pending_for(SystemType::RenderSystem));
}
