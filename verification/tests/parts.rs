use p1::anchor::AnchorPosition;
use p1::archetype::{Archetype, ArchetypeManager};
use p1::component::ComponentManager;
use p1::error::{DataError, InternalDataError, UtilityContainerError};
use p1::event::{EventListener, IntervalListener, SimpleListener, Resume, Update};
use p1::query::{component_ids, fetch, tokens_have_duplicate, write_back, Query, QueryData};
use p1::shader::ShaderKind;
use p1::tick::Tick;
use p1::utility::{ErasedMapContainer, SyncBox};

#[test]
fn sync_boxes_recover_only_their_own_type() {
    let mut sb = SyncBox::new(4u64, 10i64);
    assert_eq!(sb.cast_ref(4), Some(&10));
    assert_eq!(sb.cast_ref(5), None);
    if let Some(v) = sb.cast_mut(4) {
        *v = 11;
    }
    assert_eq!(sb.cast_ref(4), Some(&11));
    assert!(sb.cast_mut(5).is_none());
}

#[test]
fn erased_containers_defend_their_type() {
    let mut row: ErasedMapContainer<i64> = ErasedMapContainer::new(4);
    assert!(row.is(4));
    assert!(!row.is(5));
    assert_eq!(row.insert(4, 0, 100), Ok(()));
    assert_eq!(
        row.insert(5, 1, 200),
        Err(UtilityContainerError::MismatchedTypeId(4, 5))
    );
    assert_eq!(row.insert(4, 0, 300), Err(UtilityContainerError::EntryOccupied));
    assert_eq!(row.get(4, 0), Some(&100));
    assert_eq!(row.get(4, 1), None);
    assert_eq!(row.get(5, 0), None);
    if let Some(v) = row.get_mut(4, 0) {
        *v = 150;
    }
    assert_eq!(row.get(4, 0), Some(&150));
}

#[test]
fn erased_containers_can_be_walked_by_index() {
    let mut row: ErasedMapContainer<i64> = ErasedMapContainer::new(4);
    row.insert(4, 7, 70).unwrap();
    row.insert(4, 8, 80).unwrap();
    assert_eq!(row.len(), 2);
    assert_eq!(row.entry_at(0), (7, &70));
    assert_eq!(row.entry_at(1), (8, &80));
}

#[test]
fn component_store_rows_are_idempotent() {
    let mut store: ComponentManager<i64> = ComponentManager::new();
    store.create_container(4);
    store.create_container(4);
    assert_eq!(store.insert(4, 0, 100), Ok(()));
    assert_eq!(store.insert(4, 0, 200), Err(DataError::ComponentExistsForEntity));
    assert_eq!(
        store.insert(5, 0, 100),
        Err(DataError::Internal(InternalDataError::ContainerNotFound))
    );
    assert_eq!(store.get(4, 0), Some(&100));
    assert_eq!(store.set(4, 0, 101), Ok(()));
    assert_eq!(store.get(4, 0), Some(&101));
    assert_eq!(
        store.set(4, 9, 1),
        Err(DataError::Internal(InternalDataError::ComponentMissingForEntity))
    );
}

#[test]
fn queries_fetch_in_declaration_order() {
    let mut store: ComponentManager<i64> = ComponentManager::new();
    store.create_container(1);
    store.create_container(2);
    store.insert(1, 0, 10).unwrap();
    store.insert(2, 0, 20).unwrap();
    let q = vec![QueryData::Read(2), QueryData::Write(1)];
    assert_eq!(component_ids(&q), vec![2, 1]);
    assert!(!tokens_have_duplicate(&component_ids(&q)));
    assert!(tokens_have_duplicate(&vec![1, 2, 1]));
    let bundle = fetch(&store, &q, 0).unwrap();
    assert_eq!(bundle, vec![20, 10]);
    // write back: only the write access stores
    write_back(&mut store, &q, 0, &vec![99, 77]).unwrap();
    assert_eq!(store.get(2, 0), Some(&20));
    assert_eq!(store.get(1, 0), Some(&77));
    // fetching a missing row is an internal error
    let missing = fetch(&store, &vec![QueryData::Read(9)], 0);
    assert_eq!(
        missing,
        Err(DataError::Internal(InternalDataError::ContainerNotFound))
    );
}

#[test]
fn query_bundles_are_indexable() {
    let mut q: Query<i64> = Query::new(vec![vec![1, 2], vec![3]]);
    assert_eq!(q.len(), 2);
    assert_eq!(q.get(0), &vec![1, 2]);
    let first = q.get_mut(0);
    first[0] = 9;
    assert_eq!(q.get(0), &vec![9, 2]);
    assert_eq!(q.into_inner(), vec![vec![9, 2], vec![3]]);
}

#[test]
fn canonical_identity_sorts_tokens() {
    let id_a = Archetype::id_from_c_ids(&vec![30, 10, 20]);
    let id_b = Archetype::id_from_c_ids(&vec![20, 30, 10]);
    assert_eq!(id_a, vec![10, 20, 30]);
    assert_eq!(id_a, id_b);
    let id_c = Archetype::id_from_c_ids(&vec![10, 20]);
    assert_ne!(id_a, id_c);
}

#[test]
fn archetype_cache_upserts_by_identity() {
    let mut cache = ArchetypeManager::new();
    cache.insert(vec![2, 1], vec![0, 1]);
    let key = Archetype::id_from_c_ids(&vec![1, 2]);
    let hit = cache.get(&key).unwrap();
    assert_eq!(hit.entities(), &vec![0, 1]);
    // the last registration of the same type-set wins
    cache.insert(vec![1, 2], vec![5]);
    assert_eq!(cache.get(&key).unwrap().entities(), &vec![5]);
    assert!(cache.get(&vec![7]).is_none());
    let mut archetype = Archetype::new(vec![1], vec![3]);
    archetype.entities_mut().push(4);
    assert_eq!(archetype.entities(), &vec![3, 4]);
}

#[test]
fn ticks_compare_and_advance() {
    let a = Tick::from_ms(1000);
    let b = a.advanced_by(250);
    assert_eq!(b.ms, 1250);
    assert!(b.is_after(&a));
    assert!(!a.is_after(&b));
    assert_eq!(a.delta(&b), 250);
    assert_eq!(b.delta(&a), 250);
    assert_eq!(b.rewound_by(250), a);
    let mut c = a;
    c.touch_to(b);
    assert_eq!(c, b);
    let now = Tick::new();
    let mut later = now;
    later.touch();
    assert!(!now.is_after(&later));
}

#[test]
fn interval_listener_with_zero_interval_fires_each_cycle() {
    let mut l = IntervalListener::new(0, Tick::from_ms(100));
    let sys = Tick::from_ms(100);
    // the clock has moved past the system's tick: it fires
    assert!(l.check(&sys, Tick::from_ms(101)));
    // and again next cycle, after the system caught up
    let sys = Tick::from_ms(101);
    assert!(l.check(&sys, Tick::from_ms(102)));
}

#[test]
fn interval_listener_waits_out_its_period() {
    let mut l = IntervalListener::new(50, Tick::from_ms(100));
    let sys = Tick::from_ms(100);
    assert!(!l.check(&sys, Tick::from_ms(120)));
    assert!(l.check(&sys, Tick::from_ms(150)));
    assert_eq!(l.last, Tick::from_ms(150));
}

#[test]
fn manual_listener_fires_once_per_signal() {
    let mut l = SimpleListener::new(Tick::from_ms(100));
    let sys = Tick::from_ms(100);
    assert!(!l.check(&sys));
    l.emit(Tick::from_ms(120));
    assert!(l.check(&sys));
    // once the system has observed the signal, nothing fires until the next
    let sys = Tick::from_ms(120);
    assert!(!l.check(&sys));
    let mut wrapped = EventListener::Simple(SimpleListener::new(Tick::from_ms(0)));
    assert!(!wrapped.check(&Tick::from_ms(5), Tick::from_ms(9)));
    wrapped.emit(Tick::from_ms(9));
    assert!(wrapped.check(&Tick::from_ms(5), Tick::from_ms(9)));
}

#[test]
fn builtin_event_tokens_are_distinct() {
    assert_ne!(Resume::token(), Update::token());
}

#[test]
fn shader_kinds_round_trip_through_their_codes() {
    let kinds = [
        ShaderKind::Vertex,
        ShaderKind::Fragment,
        ShaderKind::Compute,
        ShaderKind::Geometry,
    ];
    for kind in kinds {
        assert_eq!(ShaderKind::try_from_code(kind.code()), Ok(kind));
    }
    assert_eq!(ShaderKind::Vertex.code(), 35633);
    assert_eq!(ShaderKind::try_from_code(1), Err(()));
}

#[test]
fn anchors_scale_by_halves() {
    assert_eq!(AnchorPosition::TopLeft.position(800, 600), (0, 0));
    assert_eq!(AnchorPosition::Center.position(800, 600), (400, 300));
    assert_eq!(AnchorPosition::BottomRight.position(800, 600), (800, 600));
    assert_eq!(AnchorPosition::Right.position(801, 601), (801, 300));
    assert_eq!(AnchorPosition::Top.halves(), (1, 0));
}
