use vstd::prelude::*;

use crate::archetype::{canon_of, lemma_canon_of_collision_free, Archetype, ArchetypeManager};
use crate::component::ComponentManager;
use crate::entity::{matching, satisfies, EntityManager};
use crate::error::{DataError, EventError, SystemError};
use crate::event::{EventListener, EventManager, IntervalListener, UPDATE_EVENT_TOKEN};
use crate::query::{
    component_ids, component_ids_spec, fetch, fetch_spec, has_duplicate, lemma_fetch_total,
    lemma_write_back_ok_present, lemma_write_back_total, lemma_written_tokens,
    tokens_have_duplicate, write_back, write_back_spec, written_tokens, QueryData,
};
use crate::tick::Tick;

verus! {

/// One registered system: its query, the canonical identity of the type-set
/// the query touches, the token of its triggering event, and its private tick.
/// The callback and the thread that runs it live with the host.
pub struct SystemRecord {
    pub query: Vec<QueryData>,
    pub canon: Vec<u64>,
    pub event: u64,
    pub tick: Tick,
}

/// The engine: entity directory, component store, archetype cache, event
/// listener registry, the registered systems, and the shared liveness flag that
/// coordinates shutdown. `V` is the host's closed union of component types;
/// each concrete component type is named by a `u64` token.
pub struct P1<V> {
    entity_manager: EntityManager,
    archetype_manager: ArchetypeManager,
    component_manager: ComponentManager<V>,
    event_manager: EventManager,
    systems: Vec<SystemRecord>,
    alive: bool,
}

impl<V> P1<V> {
    /// How many entities have been issued.
    pub open spec fn entity_count(self) -> nat {
        self.directory().len()
    }

    /// The record per entity: the tokens of its attached component types.
    pub closed spec fn directory(self) -> Seq<Seq<u64>> {
        self.entity_manager.directory()
    }

    /// Whether entity `e` was issued and has a component of type `t`.
    pub open spec fn has_component_spec(self, e: u32, t: u64) -> bool {
        e < self.entity_count() && self.directory()[e as int].contains(t)
    }

    /// The component store.
    pub closed spec fn store(self) -> ComponentManager<V> {
        self.component_manager
    }

    /// The stored component of type `t` attached to entity `e`, if any.
    pub open spec fn component_value(self, t: u64, e: u32) -> Option<V> {
        if self.store().has_row(t) && self.store().row_contents(t).contains_key(e) {
            Some(self.store().row_contents(t)[e])
        } else {
            None
        }
    }

    /// The archetype cache, keyed by canonical type-set identity.
    pub closed spec fn cache(self) -> Map<Seq<u64>, Archetype> {
        self.archetype_manager.cache()
    }

    /// The event listener registry, keyed by event token.
    pub closed spec fn registry(self) -> Map<u64, EventListener> {
        self.event_manager.registry()
    }

    /// The registered systems, in registration order.
    pub closed spec fn systems_spec(self) -> Seq<SystemRecord> {
        self.systems@
    }

    /// Whether the engine is running; cleared once, at shutdown.
    pub closed spec fn alive_spec(self) -> bool {
        self.alive
    }

    /// The engine's invariant: the parts are well formed; the store and the
    /// directory agree exactly on which entity owns which component type;
    /// every cached archetype is keyed by the canonical identity of its own
    /// type-set and lists only entities that cover it; and every registered
    /// system's canonical identity is cached and matches its query, which
    /// names no component type twice.
    pub closed spec fn wf(self) -> bool {
        &&& self.entity_manager.wf()
        &&& self.component_manager.wf()
        &&& self.archetype_manager.wf()
        &&& self.event_manager.wf()
        &&& forall|t: u64, e: u32|
            self.component_manager.has_row(t) && (#[trigger] self.component_manager.row_contents(
                t,
            ).contains_key(e)) ==> self.entity_manager.has(e, t)
        &&& forall|e: u32, t: u64|
            #[trigger] self.entity_manager.has(e, t) ==> self.component_manager.has_row(t)
                && self.component_manager.row_contents(t).contains_key(e)
        &&& forall|k: Seq<u64>|
            #[trigger] self.archetype_manager.cache().contains_key(k) ==> canon_of(
                self.archetype_manager.cache()[k].c_ids@,
            ) == k
        &&& forall|k: Seq<u64>, x: int, j: int|
            #![trigger self.archetype_manager.cache()[k].entities@[x], self.archetype_manager.cache()[k].c_ids@[j]]
            self.archetype_manager.cache().contains_key(k) && 0 <= x
                < self.archetype_manager.cache()[k].entities@.len() && 0 <= j
                < self.archetype_manager.cache()[k].c_ids@.len() ==> self.entity_manager.has(
                self.archetype_manager.cache()[k].entities@[x],
                self.archetype_manager.cache()[k].c_ids@[j],
            )
        &&& forall|i: int|
            0 <= i < self.systems@.len() ==> {
                let s = #[trigger] self.systems@[i];
                s.canon@ == canon_of(component_ids_spec(s.query@)) && self.archetype_manager.cache(
                ).contains_key(s.canon@) && !has_duplicate(component_ids_spec(s.query@))
            }
    }

    /// A fresh engine: no entities, no components, no cached archetypes, no
    /// systems, alive, and the built-in update event registered with a zero
    /// interval so that it fires every cycle. Registration on a fresh
    /// registry cannot collide, so this always succeeds.
    pub fn new() -> (r: Result<P1<V>, EventError>)
        ensures
            r matches Ok(p) && p.wf() && p.entity_count() == 0 && p.systems_spec().len() == 0
                && p.alive_spec() && (forall|t: u64, e: u32| p.component_value(t, e) is None) && p.cache()
                =~= Map::<Seq<u64>, Archetype>::empty() && p.registry().dom() =~= Set::<
                u64,
            >::empty().insert(UPDATE_EVENT_TOKEN) && (p.registry()[UPDATE_EVENT_TOKEN] matches EventListener::Interval(
                l,
            ) && l.interval == 0),
    {
        let mut event_manager = EventManager::new();
        let reg = event_manager.register_listener(
            UPDATE_EVENT_TOKEN,
            EventListener::Interval(IntervalListener::new(0, Tick::new())),
        );
        match reg {
            Ok(()) => {},
            Err(_) => {
                proof {
                    assert(false);
                }
            },
        }
        Ok(
            P1 {
                entity_manager: EntityManager::new(),
                archetype_manager: ArchetypeManager::new(),
                component_manager: ComponentManager::new(),
                event_manager,
                systems: Vec::new(),
                alive: true,
            },
        )
    }

    /// How many entities have been issued; also the next identifier. The
    /// count is bounded by the identifier type, so a caller tests it before
    /// creating another entity.
    pub fn entities_issued(&self) -> (r: u32)
        requires
            self.wf(),
        ensures
            r == self.entity_count(),
    {
        self.entity_manager.entities_issued()
    }

    /// Issue the next entity identifier: starting at 0, increasing by
    /// exactly one per creation, never reused. Nothing else changes.
    pub fn create_entity(&mut self) -> (r: u32)
        requires
            old(self).wf(),
            old(self).entity_count() < u32::MAX,
        ensures
            final(self).wf(),
            r == old(self).entity_count(),
            final(self).entity_count() == old(self).entity_count() + 1,
            final(self).directory() =~= old(self).directory().push(Seq::empty()),
            final(self).store() == old(self).store(),
            final(self).cache() == old(self).cache(),
            final(self).registry() == old(self).registry(),
            final(self).systems_spec() == old(self).systems_spec(),
            final(self).alive_spec() == old(self).alive_spec(),
    {
        let id = self.entity_manager.create_entity();
        proof {
            assert forall|t: u64, e: u32|
                self.component_manager.has_row(t) && (
            #[trigger] self.component_manager.row_contents(t).contains_key(e)) implies self
                .entity_manager.has(e, t) by {
                assert(old(self).entity_manager.has(e, t));
                assert(self.entity_manager.directory()[e as int] == old(self).entity_manager.directory()[e as int]);
            }
            assert forall|e: u32, t: u64| #[trigger] self.entity_manager.has(e, t) implies self
                .component_manager.has_row(t) && self.component_manager.row_contents(
                t,
            ).contains_key(e) by {
                if e < old(self).entity_manager.entity_count() {
                    assert(self.entity_manager.directory()[e as int] == old(
                        self,
                    ).entity_manager.directory()[e as int]);
                    assert(old(self).entity_manager.has(e, t));
                } else {
                    assert(self.entity_manager.directory()[e as int] =~= Seq::<u64>::empty());
                    assert(false);
                }
            }
            assert forall|e: u32, t: u64| old(self).entity_manager.has(e, t) implies
                #[trigger] self.entity_manager.has(e, t) by {
                assert(self.entity_manager.directory()[e as int] == old(
                    self,
                ).entity_manager.directory()[e as int]);
            }
        }
        id
    }

    /// Whether `entity` has a component of type `token`; fails with an
    /// entity-not-found error exactly when the identifier was never issued.
    pub fn has_component(&self, entity: u32, token: u64) -> (r: Result<bool, DataError>)
        requires
            self.wf(),
        ensures
            entity >= self.entity_count() ==> r == Err::<bool, DataError>(
                DataError::EntityNotFound,
            ),
            entity < self.entity_count() ==> r == Ok::<bool, DataError>(
                self.has_component_spec(entity, token),
            ),
    {
        self.entity_manager.has_component(entity, token)
    }

    /// Attach `component`, of the type named by `token`, to `entity`.
    /// Fails with an entity-not-found error exactly when the identifier was
    /// never issued, and with a component-exists error exactly when the
    /// entity already has a component of that type; on success the directory
    /// and the store record the one new component and nothing else changes.
    pub fn add_component(&mut self, entity: u32, token: u64, component: V) -> (r: Result<
        (),
        DataError,
    >)
        requires
            old(self).wf(),
        ensures
            final(self).wf(),
            final(self).entity_count() == old(self).entity_count(),
            final(self).cache() == old(self).cache(),
            final(self).registry() == old(self).registry(),
            final(self).systems_spec() == old(self).systems_spec(),
            final(self).alive_spec() == old(self).alive_spec(),
            entity >= old(self).entity_count() ==> r == Err::<(), DataError>(
                DataError::EntityNotFound,
            ) && *final(self) == *old(self),
            entity < old(self).entity_count() && old(self).has_component_spec(entity, token) ==> r
                == Err::<(), DataError>(DataError::ComponentExistsForEntity)
                    && *final(self) == *old(self),
            entity < old(self).entity_count() && !old(self).has_component_spec(entity, token) ==> r
                == Ok::<(), DataError>(()) && final(self).has_component_spec(entity, token)
                    && final(self).directory() =~= old(self).directory().update(
                entity as int,
                old(self).directory()[entity as int].push(token),
            ) && final(self).component_value(token, entity) == Some(component) && (forall|
                t: u64,
                e: u32,
            |
                !(t == token && e == entity) ==> final(self).component_value(t, e) == old(self).component_value(t, e)),
    {
        let had = match self.entity_manager.has_component(entity, token) {
            Ok(b) => b,
            Err(e) => {
                return Err(e);
            },
        };
        if had {
            return Err(DataError::ComponentExistsForEntity);
        }
        match self.entity_manager.add_component(entity, token) {
            Ok(()) => {},
            Err(e) => {
                proof {
                    assert(false);
                }
                return Err(e);
            },
        }
        self.component_manager.create_container(token);
        let res = self.component_manager.insert(token, entity, component);
        match res {
            Ok(()) => {
                proof {
                    let olddir = old(self).entity_manager.directory();
                    let newdir = self.entity_manager.directory();
                    assert(newdir[entity as int] == olddir[entity as int].push(token));
                    assert(newdir[entity as int][olddir[entity as int].len() as int] == token);
                    assert(newdir[entity as int].contains(token));
                    assert forall|e: u32, t: u64| old(self).entity_manager.has(e, t) implies
                        #[trigger] self.entity_manager.has(e, t) by {
                        if e == entity {
                            let oldrow = olddir[entity as int];
                            let idx = choose|idx: int|
                                0 <= idx < oldrow.len() && oldrow[idx] == t;
                            assert(newdir[entity as int][idx] == t);
                        } else {
                            assert(newdir[e as int] == olddir[e as int]);
                        }
                    }
                    assert forall|e: u32, t: u64| #[trigger] self.entity_manager.has(e, t) implies
                        self.component_manager.has_row(t) && self.component_manager.row_contents(
                        t,
                    ).contains_key(e) by {
                        if e == entity && t == token {
                        } else {
                            if e == entity {
                                let newrow = newdir[entity as int];
                                let idx = choose|idx: int|
                                    0 <= idx < newrow.len() && newrow[idx] == t;
                                if idx < olddir[entity as int].len() {
                                    assert(olddir[entity as int][idx] == t);
                                } else {
                                    assert(newrow[idx] == token);
                                }
                                assert(old(self).entity_manager.has(e, t));
                            } else {
                                assert(newdir[e as int] == olddir[e as int]);
                                assert(old(self).entity_manager.has(e, t));
                            }
                            assert(old(self).component_manager.has_row(t));
                            assert(old(self).component_manager.row_contents(t).contains_key(e));
                        }
                    }
                    assert forall|t: u64, e: u32|
                        self.component_manager.has_row(t) && (
                    #[trigger] self.component_manager.row_contents(t).contains_key(e)) implies self
                        .entity_manager.has(e, t) by {
                        if t == token {
                            if e != entity {
                                if old(self).component_manager.has_row(token) {
                                    assert(old(self).component_manager.row_contents(
                                        token,
                                    ).contains_key(e));
                                    assert(old(self).entity_manager.has(e, t));
                                    let k = choose|k: int|
                                        0 <= k < olddir[e as int].len() && olddir[e as int][k] == t;
                                    if e == entity {
                                    } else {
                                        assert(newdir[e as int] == olddir[e as int]);
                                    }
                                    assert(newdir[e as int].contains(t));
                                }
                            }
                        } else {
                            assert(old(self).component_manager.has_row(t));
                            assert(old(self).component_manager.row_contents(t).contains_key(e));
                            assert(old(self).entity_manager.has(e, t));
                            let k = choose|k: int|
                                0 <= k < olddir[e as int].len() && olddir[e as int][k] == t;
                            if e == entity {
                                assert(newdir[e as int][k] == olddir[e as int][k]);
                            } else {
                                assert(newdir[e as int] == olddir[e as int]);
                            }
                            assert(newdir[e as int].contains(t));
                        }
                    }
                }
                Ok(())
            },
            Err(e) => {
                proof {
                    assert(false);
                }
                Err(e)
            },
        }
    }

    /// Register a system: validate its query, compute and cache its
    /// archetype, and record it for the host's execution loop. The query may
    /// not name the same component type twice; a query that does is rejected
    /// and nothing is recorded, so no execution loop is ever started for it.
    /// The archetype is computed once, here: entities created later are not
    /// added to it.
    pub fn register_system(&mut self, query: Vec<QueryData>, event: u64) -> (r: Result<
        usize,
        SystemError,
    >)
        requires
            old(self).wf(),
        ensures
            final(self).wf(),
            final(self).directory() == old(self).directory(),
            final(self).store() == old(self).store(),
            final(self).registry() == old(self).registry(),
            final(self).alive_spec() == old(self).alive_spec(),
            has_duplicate(component_ids_spec(query@)) ==> r == Err::<usize, SystemError>(
                SystemError::QueryDeadlock,
            ) && *final(self) == *old(self),
            !has_duplicate(component_ids_spec(query@)) ==> {
                let ids = component_ids_spec(query@);
                let canon = canon_of(ids);
                &&& r == Ok::<usize, SystemError>(old(self).systems_spec().len() as usize)
                &&& final(self).systems_spec().len() == old(self).systems_spec().len() + 1
                &&& final(self).systems_spec().last().query@ == query@
                &&& final(self).systems_spec().last().canon@ == canon
                &&& final(self).systems_spec().last().event == event
                &&& (forall|i: int|
                    0 <= i < old(self).systems_spec().len() ==> final(self).systems_spec()[i]
                        == old(self).systems_spec()[i])
                &&& final(self).cache().contains_key(canon)
                &&& final(self).cache()[canon].c_ids@ == ids
                &&& final(self).cache()[canon].entities@ == matching(old(self).directory(), ids)
                &&& (forall|k: Seq<u64>|
                    k != canon ==> final(self).cache().contains_key(k) == old(self).cache().contains_key(k))
                &&& (forall|k: Seq<u64>|
                    k != canon && old(self).cache().contains_key(k) ==> final(self).cache()[k]
                        == old(self).cache()[k])
            },
    {
        let ids = component_ids(&query);
        if tokens_have_duplicate(&ids) {
            return Err(SystemError::QueryDeadlock);
        }
        let canon = Archetype::id_from_c_ids(&ids);
        let entities = self.entity_manager.get_archetype(&ids);
        let ghost ids_view = ids@;
        let ghost ents_view = entities@;
        let ghost canon_view = canon_of(ids_view);
        let ghost dir = self.entity_manager.directory();
        let id = self.systems.len();
        self.archetype_manager.insert(ids, entities);
        self.systems.push(SystemRecord { query, canon, event, tick: Tick::new() });
        proof {
            let n = old(self).systems@.len() as int;
            assert(self.systems@ == old(self).systems@.push(self.systems@[n]));
            assert forall|i: int| 0 <= i < self.systems@.len() implies {
                let s = #[trigger] self.systems@[i];
                s.canon@ == canon_of(component_ids_spec(s.query@))
                    && self.archetype_manager.cache().contains_key(s.canon@) && !has_duplicate(
                    component_ids_spec(s.query@),
                )
            } by {
                if i < n {
                    assert(self.systems@[i] == old(self).systems@[i]);
                    assert(old(self).archetype_manager.cache().contains_key(
                        old(self).systems@[i].canon@,
                    ));
                }
            }
            let newcache = self.archetype_manager.cache();
            let oldcache = old(self).archetype_manager.cache();
            self.entity_manager.lemma_count_bound();
            crate::entity::lemma_matching_members(dir, ids_view, dir.len() as int);
            assert forall|k: Seq<u64>| #[trigger] newcache.contains_key(k) implies canon_of(
                newcache[k].c_ids@,
            ) == k by {
                if k == canon_view {
                    assert(newcache[k].c_ids@ == ids_view);
                } else {
                    assert(oldcache.contains_key(k));
                    assert(newcache[k] == oldcache[k]);
                }
            }
            assert forall|k: Seq<u64>, x: int, j: int|
                #![trigger newcache[k].entities@[x], newcache[k].c_ids@[j]]
                newcache.contains_key(k) && 0 <= x < newcache[k].entities@.len() && 0 <= j
                    < newcache[k].c_ids@.len() implies self.entity_manager.has(
                newcache[k].entities@[x],
                newcache[k].c_ids@[j],
            ) by {
                if k == canon_view {
                    assert(newcache[k].entities@ == matching(dir, ids_view));
                    assert(newcache[k].c_ids@ == ids_view);
                    let e = matching(dir, ids_view)[x];
                    assert(e < dir.len() && satisfies(dir[e as int], ids_view));
                    assert(dir[e as int].contains(ids_view[j]));
                } else {
                    assert(oldcache.contains_key(k));
                    assert(newcache[k] == oldcache[k]);
                    assert(old(self).entity_manager.has(
                        oldcache[k].entities@[x],
                        oldcache[k].c_ids@[j],
                    ));
                }
            }
        }
        Ok(id)
    }

    /// How many systems are registered.
    pub fn system_count(&self) -> (r: usize)
        ensures
            r == self.systems_spec().len(),
    {
        self.systems.len()
    }

    /// Whether the engine is running. Execution loops poll this at the top
    /// of every cycle and exit once it is false.
    pub fn is_alive(&self) -> (r: bool)
        ensures
            r == self.alive_spec(),
    {
        self.alive
    }

    /// Signal shutdown: every execution loop observes the cleared flag at
    /// the top of its next cycle and exits. Nothing else changes.
    pub fn signal_shutdown(&mut self)
        requires
            old(self).wf(),
        ensures
            final(self).wf(),
            !final(self).alive_spec(),
            final(self).directory() == old(self).directory(),
            final(self).store() == old(self).store(),
            final(self).cache() == old(self).cache(),
            final(self).registry() == old(self).registry(),
            final(self).systems_spec() == old(self).systems_spec(),
    {
        self.alive = false;
    }

    /// Ask system `sys`'s listener whether this cycle should execute, at the
    /// moment `now`: exactly the listener's own check against the system's
    /// private tick. Fails when the system's event type was never
    /// registered; that is a configuration error, fatal to the system's
    /// loop.
    pub fn system_check(&mut self, sys: usize, now: Tick) -> (r: Result<bool, EventError>)
        requires
            old(self).wf(),
            sys < old(self).systems_spec().len(),
        ensures
            final(self).wf(),
            final(self).directory() == old(self).directory(),
            final(self).store() == old(self).store(),
            final(self).cache() == old(self).cache(),
            final(self).systems_spec() == old(self).systems_spec(),
            final(self).alive_spec() == old(self).alive_spec(),
            ({
                let ev = old(self).systems_spec()[sys as int].event;
                let tick = old(self).systems_spec()[sys as int].tick;
                &&& !old(self).registry().contains_key(ev) ==> r == Err::<bool, EventError>(
                    EventError::EventNotFound(ev),
                ) && final(self).registry() == old(self).registry()
                &&& old(self).registry().contains_key(ev) ==> r == Ok::<bool, EventError>(
                    old(self).registry()[ev].check_spec(tick, now),
                ) && final(self).registry() =~= old(self).registry().insert(
                    ev,
                    old(self).registry()[ev].after_check(now),
                )
            }),
    {
        let ev = self.systems[sys].event;
        let tick = self.systems[sys].tick;
        self.event_manager.check(ev, &tick, now)
    }

    /// The entity list of system `sys`'s cached archetype. The engine's
    /// invariant keeps every registered system's identity cached, so the
    /// lookup cannot fail.
    pub fn system_entities(&self, sys: usize) -> (r: Vec<u32>)
        requires
            self.wf(),
            sys < self.systems_spec().len(),
        ensures
            r@ == self.cache()[self.systems_spec()[sys as int].canon@].entities@,
    {
        let found = self.archetype_manager.get(&self.systems[sys].canon);
        match found {
            Some(a) => {
                let src = a.entities();
                let mut out: Vec<u32> = Vec::new();
                let mut i: usize = 0;
                while i < src.len()
                    invariant
                        i <= src@.len(),
                        out@ == src@.subrange(0, i as int),
                    decreases src@.len() - i,
                {
                    out.push(src[i]);
                    proof {
                        assert(out@ =~= src@.subrange(0, i as int + 1));
                    }
                    i = i + 1;
                }
                proof {
                    assert(src@.subrange(0, src@.len() as int) =~= src@);
                }
                out
            },
            None => {
                proof {
                    assert(false);
                }
                Vec::new()
            },
        }
    }

    /// Fetch the bundle system `sys`'s query asks for, for one entity of its
    /// archetype: one component value per declared access, in order.
    pub fn system_fetch(&self, sys: usize, entity: u32) -> (r: Result<Vec<V>, DataError>) where
        V: Copy,
        requires
            self.wf(),
            sys < self.systems_spec().len(),
        ensures
            match fetch_spec(self.store(), self.systems_spec()[sys as int].query@, entity) {
                Ok(vals) => r matches Ok(out) && out@ == vals,
                Err(e) => r matches Err(e2) && e2 == e,
            },
    {
        fetch(&self.component_manager, &self.systems[sys].query, entity)
    }

    /// Store a bundle back for one entity after the callback ran: each write
    /// access of system `sys`'s query overwrites the stored component of its
    /// type with the bundle value at its position; read accesses store
    /// nothing. Validation runs first, so on failure nothing was written.
    pub fn system_write_back(&mut self, sys: usize, entity: u32, values: &Vec<V>) -> (r: Result<
        (),
        DataError,
    >) where V: Copy
        requires
            old(self).wf(),
            sys < old(self).systems_spec().len(),
            values@.len() == old(self).systems_spec()[sys as int].query@.len(),
        ensures
            final(self).wf(),
            final(self).directory() == old(self).directory(),
            final(self).cache() == old(self).cache(),
            final(self).registry() == old(self).registry(),
            final(self).systems_spec() == old(self).systems_spec(),
            final(self).alive_spec() == old(self).alive_spec(),
            ({
                let q = old(self).systems_spec()[sys as int].query@;
                match write_back_spec(old(self).store(), q, entity) {
                    Err(e) => r == Err::<(), DataError>(e) && (forall|t: u64, x: u32|
                        final(self).component_value(t, x) == old(self).component_value(t, x)),
                    Ok(()) => r == Ok::<(), DataError>(()) && (forall|j: int|
                        0 <= j < q.len() && (#[trigger] q[j]).is_write_spec() ==> final(self).component_value(q[j].token_spec(), entity) == Some(values@[j])) && (
                    forall|t: u64, x: u32|
                        (!written_tokens(q, q.len() as int).contains(t) || x != entity) ==> final(self).component_value(t, x) == old(self).component_value(t, x)),
                }
            }),
    {
        let ghost q = self.systems@[sys as int].query@;
        let ghost m0 = self.component_manager;
        let res = write_back(
            &mut self.component_manager,
            &self.systems[sys].query,
            entity,
            values,
        );
        proof {
            if write_back_spec(m0, q, entity) is Ok {
                assert forall|j: int|
                    0 <= j < q.len() && (#[trigger] q[j]).is_write_spec() implies m0.has_row(
                    q[j].token_spec(),
                ) && m0.row_contents(q[j].token_spec()).contains_key(entity) by {
                    lemma_write_back_ok_present(m0, q, entity, j);
                }
            }
            assert forall|t: u64, e: u32|
                self.component_manager.has_row(t) && (
            #[trigger] self.component_manager.row_contents(t).contains_key(e)) implies self
                .entity_manager.has(e, t) by {
                if write_back_spec(m0, q, entity) is Ok {
                    lemma_written_tokens(q, q.len() as int, t);
                    if written_tokens(q, q.len() as int).contains(t) {
                        let j = choose|j: int|
                            0 <= j < q.len() && (#[trigger] q[j]).is_write_spec()
                                && q[j].token_spec() == t;
                        assert(self.component_manager.row_contents(t) =~= m0.row_contents(
                            t,
                        ).insert(entity, values@[j]));
                        assert(m0.row_contents(t).contains_key(entity));
                        assert(m0.row_contents(t).contains_key(e));
                    } else {
                        assert(self.component_manager.row_contents(t) == m0.row_contents(t));
                    }
                } else {
                    assert(self.component_manager.row_contents(t) == m0.row_contents(t));
                }
            }
            assert forall|e: u32, t: u64| #[trigger] self.entity_manager.has(e, t) implies self
                .component_manager.has_row(t) && self.component_manager.row_contents(
                t,
            ).contains_key(e) by {
                assert(m0.has_row(t) && m0.row_contents(t).contains_key(e));
                if write_back_spec(m0, q, entity) is Ok {
                    lemma_written_tokens(q, q.len() as int, t);
                    if written_tokens(q, q.len() as int).contains(t) {
                        let j = choose|j: int|
                            0 <= j < q.len() && (#[trigger] q[j]).is_write_spec()
                                && q[j].token_spec() == t;
                        assert(self.component_manager.row_contents(t) =~= m0.row_contents(
                            t,
                        ).insert(entity, values@[j]));
                    } else {
                        assert(self.component_manager.row_contents(t) == m0.row_contents(t));
                    }
                } else {
                    assert(self.component_manager.row_contents(t) == m0.row_contents(t));
                }
            }
            if write_back_spec(m0, q, entity) is Ok {
                assert forall|j: int|
                    0 <= j < q.len() && (#[trigger] q[j]).is_write_spec() implies self
                    .component_value(q[j].token_spec(), entity) == Some(values@[j]) by {
                    let t = q[j].token_spec();
                    assert(self.component_manager.row_contents(t) =~= m0.row_contents(t).insert(
                        entity,
                        values@[j],
                    ));
                    assert(self.component_manager.has_row(t));
                }
                assert forall|t: u64, x: u32|
                    (!written_tokens(q, q.len() as int).contains(t) || x != entity) implies self
                    .component_value(t, x) == old(self).component_value(t, x) by {
                    lemma_written_tokens(q, q.len() as int, t);
                    if written_tokens(q, q.len() as int).contains(t) {
                        let j = choose|j: int|
                            0 <= j < q.len() && (#[trigger] q[j]).is_write_spec()
                                && q[j].token_spec() == t;
                        assert(self.component_manager.row_contents(t) =~= m0.row_contents(
                            t,
                        ).insert(entity, values@[j]));
                    } else {
                        if m0.has_row(t) {
                            assert(self.component_manager.row_contents(t) == m0.row_contents(t));
                        }
                    }
                }
            } else {
                assert forall|t: u64, x: u32|
                    self.component_value(t, x) == old(self).component_value(t, x) by {
                    if m0.has_row(t) {
                        assert(self.component_manager.row_contents(t) == m0.row_contents(t));
                    }
                }
            }
        }
        res
    }

    /// Advance system `sys`'s private tick to the moment `now`, done after a
    /// cycle executed. Within one system's loop ticks strictly increase as
    /// long as the clock does.
    pub fn system_touch(&mut self, sys: usize, now: Tick)
        requires
            old(self).wf(),
            sys < old(self).systems_spec().len(),
        ensures
            final(self).wf(),
            final(self).directory() == old(self).directory(),
            final(self).store() == old(self).store(),
            final(self).cache() == old(self).cache(),
            final(self).registry() == old(self).registry(),
            final(self).alive_spec() == old(self).alive_spec(),
            final(self).systems_spec() =~= old(self).systems_spec().update(
                sys as int,
                (SystemRecord {
                    query: old(self).systems_spec()[sys as int].query,
                    canon: old(self).systems_spec()[sys as int].canon,
                    event: old(self).systems_spec()[sys as int].event,
                    tick: now,
                }),
            ),
    {
        let s = &mut self.systems[sys];
        s.tick.touch_to(now);
        proof {
            assert forall|i: int| 0 <= i < self.systems@.len() implies {
                let s2 = #[trigger] self.systems@[i];
                s2.canon@ == canon_of(component_ids_spec(s2.query@))
                    && self.archetype_manager.cache().contains_key(s2.canon@) && !has_duplicate(
                    component_ids_spec(s2.query@),
                )
            } by {
                if i != sys {
                    assert(self.systems@[i] == old(self).systems@[i]);
                } else {
                    assert(self.systems@[i].query == old(self).systems@[i].query);
                    assert(self.systems@[i].canon == old(self).systems@[i].canon);
                }
            }
        }
    }

    /// The payload for an event carrying elapsed time: the distance in
    /// milliseconds between system `sys`'s private tick and the moment `now`.
    pub fn system_event_delta(&self, sys: usize, now: Tick) -> (r: u64)
        requires
            sys < self.systems_spec().len(),
        ensures
            r == ({
                let t = self.systems_spec()[sys as int].tick;
                if t.ms >= now.ms {
                    t.ms - now.ms
                } else {
                    now.ms - t.ms
                }
            }),
    {
        self.systems[sys].tick.delta(&now)
    }

    /// Register a listener for a host-defined event data type; each type may be
    /// registered exactly once.
    pub fn register_listener(&mut self, event: u64, listener: EventListener) -> (r: Result<
        (),
        EventError,
    >)
        requires
            old(self).wf(),
        ensures
            final(self).wf(),
            final(self).directory() == old(self).directory(),
            final(self).store() == old(self).store(),
            final(self).cache() == old(self).cache(),
            final(self).systems_spec() == old(self).systems_spec(),
            final(self).alive_spec() == old(self).alive_spec(),
            old(self).registry().contains_key(event) ==> r == Err::<(), EventError>(
                EventError::EventAlreadyRegistered(event),
            ) && final(self).registry() == old(self).registry(),
            !old(self).registry().contains_key(event) ==> r == Ok::<(), EventError>(())
                && final(self).registry() =~= old(self).registry().insert(event, listener),
    {
        self.event_manager.register_listener(event, listener)
    }

    /// Signal a manually listenerd event at the moment `now`. Fails when the
    /// event type was never registered.
    pub fn emit(&mut self, event: u64, now: Tick) -> (r: Result<(), EventError>)
        requires
            old(self).wf(),
        ensures
            final(self).wf(),
            final(self).directory() == old(self).directory(),
            final(self).store() == old(self).store(),
            final(self).cache() == old(self).cache(),
            final(self).systems_spec() == old(self).systems_spec(),
            final(self).alive_spec() == old(self).alive_spec(),
            !old(self).registry().contains_key(event) ==> r == Err::<(), EventError>(
                EventError::EventNotFound(event),
            ) && final(self).registry() == old(self).registry(),
            old(self).registry().contains_key(event) ==> r == Ok::<(), EventError>(())
                && final(self).registry() =~= old(self).registry().insert(
                event,
                old(self).registry()[event].after_emit(now),
            ),
    {
        self.event_manager.emit(event, now)
    }
}

/// Inside a running engine the internal storage errors never surface: for
/// any entity of a registered system's cached archetype, fetching the
/// system's query succeeds, because the engine's invariant keeps a stored
/// component of every queried type for every member of the archetype.
pub proof fn lemma_system_fetch_total<V>(engine: P1<V>, sys: int, entity: u32)
    requires
        engine.wf(),
        0 <= sys < engine.systems_spec().len(),
        engine.cache()[engine.systems_spec()[sys].canon@].entities@.contains(entity),
    ensures
        fetch_spec(engine.store(), engine.systems_spec()[sys].query@, entity) is Ok,
{
    broadcast use vstd::seq_lib::group_to_multiset_ensures;

    let s = engine.systems_spec()[sys];
    let key = s.canon@;
    let q = s.query@;
    let ids = component_ids_spec(q);
    let entry = engine.cache()[key];
    assert(engine.cache().contains_key(key));
    assert(canon_of(entry.c_ids@) == key);
    assert(key == canon_of(ids));
    lemma_canon_of_collision_free(entry.c_ids@, ids);
    let x = choose|x: int|
        0 <= x < entry.entities@.len() && entry.entities@[x] == entity;
    assert forall|j: int|
        0 <= j < q.len() implies engine.store().has_row((#[trigger] q[j]).token_spec())
        && engine.store().row_contents(q[j].token_spec()).contains_key(entity) by {
        let t = q[j].token_spec();
        assert(ids[j] == t);
        assert(ids.contains(t));
        assert(entry.c_ids@.to_multiset().count(t) > 0);
        assert(entry.c_ids@.contains(t));
        let jj = choose|jj: int| 0 <= jj < entry.c_ids@.len() && entry.c_ids@[jj] == t;
        assert(engine.archetype_manager.cache()[key].entities@[x] == entity);
        assert(engine.archetype_manager.cache()[key].c_ids@[jj] == t);
        assert(engine.entity_manager.has(entity, t));
    }
    lemma_fetch_total(engine.store(), q, entity);
}

/// Inside a running engine, storing a bundle back for an entity of a
/// registered system's cached archetype never fails either: every written
/// component type already holds a cell for that entity.
pub proof fn lemma_system_write_back_total<V>(engine: P1<V>, sys: int, entity: u32)
    requires
        engine.wf(),
        0 <= sys < engine.systems_spec().len(),
        engine.cache()[engine.systems_spec()[sys].canon@].entities@.contains(entity),
    ensures
        write_back_spec(engine.store(), engine.systems_spec()[sys].query@, entity) is Ok,
{
    broadcast use vstd::seq_lib::group_to_multiset_ensures;

    let s = engine.systems_spec()[sys];
    let key = s.canon@;
    let q = s.query@;
    let ids = component_ids_spec(q);
    let entry = engine.cache()[key];
    assert(engine.cache().contains_key(key));
    assert(canon_of(entry.c_ids@) == key);
    assert(key == canon_of(ids));
    lemma_canon_of_collision_free(entry.c_ids@, ids);
    let x = choose|x: int|
        0 <= x < entry.entities@.len() && entry.entities@[x] == entity;
    assert forall|j: int|
        0 <= j < q.len() && (#[trigger] q[j]).is_write_spec() implies engine.store().has_row(
        q[j].token_spec(),
    ) && engine.store().row_contents(q[j].token_spec()).contains_key(entity) by {
        let t = q[j].token_spec();
        assert(ids[j] == t);
        assert(ids.contains(t));
        assert(entry.c_ids@.to_multiset().count(t) > 0);
        assert(entry.c_ids@.contains(t));
        let jj = choose|jj: int| 0 <= jj < entry.c_ids@.len() && entry.c_ids@[jj] == t;
        assert(engine.archetype_manager.cache()[key].entities@[x] == entity);
        assert(engine.archetype_manager.cache()[key].c_ids@[jj] == t);
        assert(engine.entity_manager.has(entity, t));
    }
    lemma_write_back_total(engine.store(), q, entity);
}

/// After a component of a new type is attached, the directory reports it:
/// an attach recorded by `add_component` is immediately observable through
/// `has_component`.
pub proof fn lemma_add_then_has_component<V>(pre: P1<V>, post: P1<V>, entity: u32, token: u64)
    requires
        entity < pre.entity_count(),
        post.entity_count() == pre.entity_count(),
        post.directory() == pre.directory().update(
            entity as int,
            pre.directory()[entity as int].push(token),
        ),
    ensures
        post.has_component_spec(entity, token),
{
    let row = post.directory()[entity as int];
    assert(row[pre.directory()[entity as int].len() as int] == token);
    assert(row.contains(token));
}

/// A component value once attached is returned unchanged by a read-only
/// fetch of its type for the same entity.
pub proof fn lemma_component_round_trip<V>(engine: P1<V>, entity: u32, token: u64, component: V)
    requires
        engine.component_value(token, entity) == Some(component),
    ensures
        fetch_spec(engine.store(), seq![QueryData::Read(token)], entity) == Ok::<Seq<V>, DataError>(
            seq![component],
        ),
{
    let q = seq![QueryData::Read(token)];
    assert(q[0].token_spec() == token);
    assert(q.skip(1) =~= Seq::<QueryData>::empty());
    assert(fetch_spec(engine.store(), q.skip(1), entity) == Ok::<Seq<V>, DataError>(Seq::empty()));
    assert(seq![component] + Seq::<V>::empty() =~= seq![component]);
}

} // verus!
