use p1::error::{DataError, InternalDataError, P1Error, SystemError, UtilityContainerError};
use p1::event::{EventListener, SimpleListener, Update};
use p1::p1::P1;
use p1::query::QueryData;
use p1::tick::Tick;

const POSITION: u64 = 10;
const VELOCITY: u64 = 11;
const HEALTH: u64 = 12;

#[derive(Debug, Clone, Copy, PartialEq, Eq)]
enum TestComponent {
    Position(i32, i32),
    Velocity(i32, i32),
    Health(u32),
}

fn engine() -> P1<TestComponent> {
    P1::new().unwrap()
}

#[test]
fn entity_creation() {
    let mut engine = engine();
    let entity_a = engine.create_entity();
    let entity_b = engine.create_entity();
    let entity_c = engine.create_entity();
    assert_eq!(entity_a, 0);
    assert_eq!(entity_b, 1);
    assert_eq!(entity_c, 2);
}

#[test]
fn assigning_components() {
    let mut engine = engine();
    let entity = engine.create_entity();
    engine
        .add_component(entity, POSITION, TestComponent::Position(1, 2))
        .unwrap();
    engine
        .add_component(entity, VELOCITY, TestComponent::Velocity(3, 4))
        .unwrap();
    engine
        .add_component(entity, HEALTH, TestComponent::Health(5))
        .unwrap();
    assert!(engine.has_component(entity, POSITION).unwrap());
    assert!(engine.has_component(entity, VELOCITY).unwrap());
    assert!(engine.has_component(entity, HEALTH).unwrap());
}

#[test]
#[should_panic(
    expected = "Cannot attach component to entity because a component of that type is already attached."
)]
fn assigning_preexisting_component() {
    let mut engine = engine();
    let entity = engine.create_entity();
    engine
        .add_component(entity, POSITION, TestComponent::Position(0, 0))
        .unwrap();
    if let Err(e) = engine.add_component(entity, POSITION, TestComponent::Position(1, 1)) {
        panic!("{}", e.message());
    }
}

#[test]
#[should_panic(expected = "No entities with the provided id was found.")]
fn non_existant_entity() {
    let mut engine = engine();
    // No entities were created, any id is invalid
    if let Err(e) = engine.add_component(0, POSITION, TestComponent::Position(0, 0)) {
        panic!("{}", e.message());
    }
}

#[test]
#[should_panic(expected = "Not all query items in system were unique.")]
fn query_deadlock() {
    let mut engine = engine();
    let query = vec![QueryData::Read(POSITION), QueryData::Read(POSITION)];
    if let Err(e) = engine.register_system(query, Update::token()) {
        panic!("{}", e.message());
    }
}

#[test]
fn query_deadlock_spawns_no_system() {
    let mut engine = engine();
    let query = vec![QueryData::Read(POSITION), QueryData::Write(POSITION)];
    assert_eq!(
        engine.register_system(query, Update::token()),
        Err(SystemError::QueryDeadlock)
    );
    assert_eq!(engine.system_count(), 0);
}

#[test]
fn component_round_trip() {
    let mut engine = engine();
    let entity = engine.create_entity();
    engine
        .add_component(entity, HEALTH, TestComponent::Health(42))
        .unwrap();
    let sys = engine
        .register_system(vec![QueryData::Read(HEALTH)], Update::token())
        .unwrap();
    let entities = engine.system_entities(sys);
    assert_eq!(entities, vec![entity]);
    let bundle = engine.system_fetch(sys, entity).unwrap();
    assert_eq!(bundle, vec![TestComponent::Health(42)]);
}

#[test]
fn write_access_stores_back() {
    let mut engine = engine();
    let entity = engine.create_entity();
    engine
        .add_component(entity, HEALTH, TestComponent::Health(10))
        .unwrap();
    engine
        .add_component(entity, POSITION, TestComponent::Position(1, 1))
        .unwrap();
    let sys = engine
        .register_system(
            vec![QueryData::Write(HEALTH), QueryData::Read(POSITION)],
            Update::token(),
        )
        .unwrap();
    let mut bundle = engine.system_fetch(sys, entity).unwrap();
    assert_eq!(
        bundle,
        vec![TestComponent::Health(10), TestComponent::Position(1, 1)]
    );
    bundle[0] = TestComponent::Health(9);
    engine.system_write_back(sys, entity, &bundle).unwrap();
    let again = engine.system_fetch(sys, entity).unwrap();
    assert_eq!(again[0], TestComponent::Health(9));
    // the read access stored nothing
    assert_eq!(again[1], TestComponent::Position(1, 1));
}

#[test]
fn archetype_identity_is_order_independent() {
    let mut engine = engine();
    let a = engine.create_entity();
    let b = engine.create_entity();
    engine
        .add_component(a, POSITION, TestComponent::Position(0, 0))
        .unwrap();
    engine
        .add_component(a, VELOCITY, TestComponent::Velocity(0, 0))
        .unwrap();
    engine
        .add_component(b, POSITION, TestComponent::Position(5, 5))
        .unwrap();
    let sys_ab = engine
        .register_system(
            vec![QueryData::Read(POSITION), QueryData::Read(VELOCITY)],
            Update::token(),
        )
        .unwrap();
    let sys_ba = engine
        .register_system(
            vec![QueryData::Read(VELOCITY), QueryData::Read(POSITION)],
            Update::token(),
        )
        .unwrap();
    // both orders resolve to the same cached entity list: only `a` has both
    assert_eq!(engine.system_entities(sys_ab), vec![a]);
    assert_eq!(engine.system_entities(sys_ba), vec![a]);
}

#[test]
fn archetypes_are_static_snapshots() {
    let mut engine = engine();
    let a = engine.create_entity();
    engine
        .add_component(a, POSITION, TestComponent::Position(0, 0))
        .unwrap();
    let sys = engine
        .register_system(vec![QueryData::Read(POSITION)], Update::token())
        .unwrap();
    // an entity created and filled after registration is not retroactively
    // added to the cached archetype
    let b = engine.create_entity();
    engine
        .add_component(b, POSITION, TestComponent::Position(1, 1))
        .unwrap();
    assert_eq!(engine.system_entities(sys), vec![a]);
}

#[test]
fn update_event_fires_every_cycle() {
    let mut engine = engine();
    let sys = engine
        .register_system(Vec::new(), Update::token())
        .unwrap();
    // with a zero interval the built-in update event fires as soon as the
    // clock is past the system's tick, so wait a few milliseconds first
    let start = Tick::new();
    while Tick::new().delta(&start) < 5 {}
    assert!(engine.system_check(sys, Tick::new()).unwrap());
}

#[test]
fn manual_event_fires_exactly_once_per_signal() {
    let mut engine = engine();
    const CUSTOM: u64 = 77;
    engine
        .register_listener(
            CUSTOM,
            EventListener::Simple(SimpleListener::new(Tick::from_ms(0))),
        )
        .unwrap();
    let sys = engine.register_system(Vec::new(), CUSTOM).unwrap();
    let now = Tick::new();
    // never fires until signalled
    assert!(!engine.system_check(sys, now).unwrap());
    assert!(!engine.system_check(sys, now).unwrap());
    // one signal later than the system's tick: exactly one fire
    let later = now.advanced_by(10);
    engine.emit(CUSTOM, later).unwrap();
    assert!(engine.system_check(sys, Tick::new()).unwrap());
    engine.system_touch(sys, later);
    assert!(!engine.system_check(sys, Tick::new()).unwrap());
}

#[test]
fn unregistered_event_is_reported() {
    let mut engine = engine();
    const UNKNOWN: u64 = 99;
    let sys = engine.register_system(Vec::new(), UNKNOWN).unwrap();
    assert!(engine.system_check(sys, Tick::new()).is_err());
    assert!(engine.emit(UNKNOWN, Tick::new()).is_err());
}

#[test]
fn duplicate_listener_registration_is_rejected() {
    let mut engine = engine();
    let result = engine.register_listener(
        Update::token(),
        EventListener::Simple(SimpleListener::new(Tick::from_ms(0))),
    );
    assert!(result.is_err());
}

#[test]
fn shutdown_clears_the_liveness_flag() {
    let mut engine = engine();
    assert!(engine.is_alive());
    engine.signal_shutdown();
    assert!(!engine.is_alive());
}

#[test]
fn error_messages_match_their_variants() {
    assert_eq!(
        DataError::EntityNotFound.message(),
        "No entities with the provided id was found."
    );
    assert_eq!(
        DataError::Internal(InternalDataError::MismatchedComponentType).message(),
        "A component was pushed to an incompatible container."
    );
    assert_eq!(
        P1Error::System(SystemError::QueryDeadlock).message(),
        "Not all query items in system were unique."
    );
    assert_eq!(
        DataError::from(UtilityContainerError::EntryOccupied),
        DataError::ComponentExistsForEntity
    );
    assert_eq!(
        DataError::from(UtilityContainerError::MismatchedTypeId(1, 2)),
        DataError::Internal(InternalDataError::MismatchedComponentType)
    );
}
