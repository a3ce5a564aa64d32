use vstd::prelude::*;

use crate::error::EventError;
use crate::tick::Tick;

verus! {

/// Reserved event token for the engine's resume event.
pub const RESUME_EVENT_TOKEN: u64 = 0;

/// Reserved event token for the engine's built-in update event, registered
/// automatically at startup with a zero interval.
pub const UPDATE_EVENT_TOKEN: u64 = 1;

/// The engine's resume event data type.
pub struct Resume;

impl Resume {
    /// The token that names this event data type.
    pub fn token() -> (t: u64)
        ensures
            t == RESUME_EVENT_TOKEN,
    {
        RESUME_EVENT_TOKEN
    }
}

/// The engine's built-in per-cycle update event data type.
pub struct Update;

impl Update {
    /// The token that names this event data type.
    pub fn token() -> (t: u64)
        ensures
            t == UPDATE_EVENT_TOKEN,
    {
        UPDATE_EVENT_TOKEN
    }
}

/// A manually signalled listener: it reports firing exactly when it was
/// signalled after the asking system's own tick.
#[derive(Clone, Copy, Debug, PartialEq, Eq, Structural)]
pub struct SimpleListener {
    pub last: Tick,
}

impl SimpleListener {
    /// A manual listener whose last signal is the present moment.
    pub fn new(now: Tick) -> (r: Self)
        ensures
            r.last == now,
    {
        SimpleListener { last: now }
    }

    /// Whether the listener was signalled strictly after `other`.
    pub fn check(&self, other: &Tick) -> (r: bool)
        ensures
            r == (self.last.ms > other.ms),
    {
        self.last.is_after(other)
    }

    /// Signal the listener at the moment `now`.
    pub fn emit(&mut self, now: Tick)
        ensures
            final(self).last == now,
    {
        self.last.touch_to(now);
    }
}

/// An interval listener: once its configured period has elapsed since the last
/// fire it advances itself, and it reports firing to a system whose tick is
/// strictly older than the last fire.
#[derive(Clone, Copy, Debug, PartialEq, Eq, Structural)]
pub struct IntervalListener {
    pub last: Tick,
    pub interval: u32,
}

impl IntervalListener {
    /// Whether the configured period has elapsed at the moment `now`.
    pub open spec fn elapsed(self, now: Tick) -> bool {
        self.last.ms + self.interval <= now.ms
    }

    /// The listener's state after asking it at the moment `now`.
    pub open spec fn after_update(self, now: Tick) -> IntervalListener {
        if self.elapsed(now) {
            IntervalListener { last: now, interval: self.interval }
        } else {
            self
        }
    }

    /// An interval listener with the given period whose last fire is the present
    /// moment.
    pub fn new(interval: u32, now: Tick) -> (r: Self)
        ensures
            r.last == now,
            r.interval == interval,
    {
        IntervalListener { last: now, interval }
    }

    /// Advance the listener's own tick when the period has elapsed at `now`.
    fn update(&mut self, now: Tick)
        ensures
            *final(self) == old(self).after_update(now),
    {
        let elapsed = if (self.interval as u64) > now.ms {
            false
        } else {
            self.last.ms <= now.ms - self.interval as u64
        };
        if elapsed {
            self.last.touch_to(now);
        }
    }

    /// Auto-advance if the period has elapsed at `now`, then report whether
    /// the last fire is strictly after `other`.
    pub fn check(&mut self, other: &Tick, now: Tick) -> (r: bool)
        ensures
            *final(self) == old(self).after_update(now),
            r == (old(self).after_update(now).last.ms > other.ms),
    {
        self.update(now);
        self.last.is_after(other)
    }

    /// Signal the listener at the moment `now`, regardless of the period.
    pub fn emit(&mut self, now: Tick)
        ensures
            final(self).last == now,
            final(self).interval == old(self).interval,
    {
        self.last.touch_to(now);
    }
}

/// A listener deciding, each cycle, whether a system fires: manual or
/// interval-based.
#[derive(Clone, Copy, Debug, PartialEq, Eq, Structural)]
pub enum EventListener {
    Simple(SimpleListener),
    Interval(IntervalListener),
}

impl EventListener {
    /// The listener's state after a check at the moment `now`: interval listeners
    /// may auto-advance, manual listeners never move on their own.
    pub open spec fn after_check(self, now: Tick) -> EventListener {
        match self {
            EventListener::Simple(l) => EventListener::Simple(l),
            EventListener::Interval(l) => EventListener::Interval(l.after_update(now)),
        }
    }

    /// What a check at the moment `now` reports to a system whose own tick
    /// is `other`: whether the listener last fired strictly after `other`.
    pub open spec fn check_spec(self, other: Tick, now: Tick) -> bool {
        match self.after_check(now) {
            EventListener::Simple(l) => l.last.ms > other.ms,
            EventListener::Interval(l) => l.last.ms > other.ms,
        }
    }

    /// The listener's state after an explicit signal at the moment `now`.
    pub open spec fn after_emit(self, now: Tick) -> EventListener {
        match self {
            EventListener::Simple(l) => EventListener::Simple(SimpleListener { last: now }),
            EventListener::Interval(l) => EventListener::Interval(
                IntervalListener { last: now, interval: l.interval },
            ),
        }
    }

    /// Ask the listener whether a system with tick `other` should fire at `now`.
    pub fn check(&mut self, other: &Tick, now: Tick) -> (r: bool)
        ensures
            *final(self) == old(self).after_check(now),
            r == old(self).check_spec(*other, now),
    {
        match self {
            EventListener::Simple(l) => l.check(other),
            EventListener::Interval(l) => l.check(other, now),
        }
    }

    /// Signal the listener explicitly at the moment `now`.
    pub fn emit(&mut self, now: Tick)
        ensures
            *final(self) == old(self).after_emit(now),
    {
        match self {
            EventListener::Simple(l) => l.emit(now),
            EventListener::Interval(l) => l.emit(now),
        }
    }
}

/// An interval listener with interval 0 fires on every scheduling cycle: as long
/// as the clock has not gone backwards and the cycle's moment lies after the
/// system's own tick, a check reports firing.
pub proof fn lemma_zero_interval_fires_every_cycle(l: IntervalListener, sys: Tick, now: Tick)
    requires
        l.interval == 0,
        l.last.ms <= now.ms,
        now.ms > sys.ms,
    ensures
        EventListener::Interval(l).check_spec(sys, now),
{
}

/// A manual listener never fires until explicitly signalled: while its last
/// signal is not after the system's own tick, a check reports nothing, at
/// any moment and however often it is asked.
pub proof fn lemma_manual_listener_waits_for_signal(l: SimpleListener, sys: Tick, now: Tick)
    requires
        l.last.ms <= sys.ms,
    ensures
        !EventListener::Simple(l).check_spec(sys, now),
{
}

/// A manual listener fires exactly once per signal: after a signal later than
/// the system's tick, a check reports firing; once the system has advanced
/// its tick to the fired cycle (at or past the signal), every further check
/// reports nothing until the next signal.
pub proof fn lemma_manual_listener_fires_once_per_signal(
    l: SimpleListener,
    sys: Tick,
    emit_at: Tick,
    advanced: Tick,
    now1: Tick,
    now2: Tick,
)
    requires
        emit_at.ms > sys.ms,
        advanced.ms >= emit_at.ms,
    ensures
        EventListener::Simple(l).after_emit(emit_at).check_spec(sys, now1),
        !EventListener::Simple(l).after_emit(emit_at).after_check(now1).check_spec(advanced, now2),
{
}

/// An event handed to a system callback, carrying the payload derived from
/// the tick delta (for the built-in update event, the elapsed time in
/// milliseconds).
pub struct Event<T> {
    data: T,
}

impl<T> Event<T> {
    /// The payload.
    pub closed spec fn data_spec(self) -> T {
        self.data
    }

    /// Wrap an event payload.
    pub fn new(data: T) -> (r: Self)
        ensures
            r.data_spec() == data,
    {
        Event { data }
    }

    /// The payload.
    pub fn get_data(&self) -> (r: T)
        where T: Copy
        ensures
            r == self.data_spec(),
    {
        self.data
    }
}

/// First-match lookup of a listener by event token.
pub open spec fn listener_lookup(s: Seq<(u64, EventListener)>, key: u64) -> Option<EventListener>
    decreases s.len(),
{
    if s.len() == 0 {
        None
    } else if s[0].0 == key {
        Some(s[0].1)
    } else {
        listener_lookup(s.skip(1), key)
    }
}

/// Skipping over a prefix that does not hold `key` leaves the lookup result
/// unchanged.
proof fn lemma_listener_lookup_skip(s: Seq<(u64, EventListener)>, key: u64, i: int)
    requires
        0 <= i <= s.len(),
        forall|j: int| 0 <= j < i ==> (#[trigger] s[j]).0 != key,
    ensures
        listener_lookup(s, key) == listener_lookup(s.skip(i), key),
    decreases i,
{
    if i > 0 {
        assert(s[0].0 != key);
        assert(s.skip(1).skip(i - 1) =~= s.skip(i));
        assert forall|j: int| 0 <= j < i - 1 implies (#[trigger] s.skip(1)[j]).0 != key by {
            assert(s.skip(1)[j] == s[j + 1]);
        }
        lemma_listener_lookup_skip(s.skip(1), key, i - 1);
    } else {
        assert(s.skip(0) =~= s);
    }
}

/// Appending an entry changes the lookup only for its own token, and only
/// when that token was absent.
proof fn lemma_listener_lookup_push(s: Seq<(u64, EventListener)>, p: (u64, EventListener), key: u64)
    ensures
        listener_lookup(s.push(p), key) == if listener_lookup(s, key) is Some {
            listener_lookup(s, key)
        } else if key == p.0 {
            Some(p.1)
        } else {
            None::<EventListener>
        },
    decreases s.len(),
{
    if s.len() == 0 {
        assert(s.push(p)[0] == p);
        assert(s.push(p).skip(1) =~= Seq::<(u64, EventListener)>::empty());
        assert(listener_lookup(Seq::<(u64, EventListener)>::empty(), key) is None);
    } else {
        assert(s.push(p)[0] == s[0]);
        if s[0].0 != key {
            assert(s.push(p).skip(1) =~= s.skip(1).push(p));
            lemma_listener_lookup_push(s.skip(1), p, key);
        }
    }
}

/// Replacing the first entry that holds a token rewrites the lookup for
/// that token alone.
proof fn lemma_listener_lookup_update(
    s: Seq<(u64, EventListener)>,
    i: int,
    p: (u64, EventListener),
    key: u64,
)
    requires
        0 <= i < s.len(),
        s[i].0 == p.0,
        forall|j: int| 0 <= j < i ==> (#[trigger] s[j]).0 != p.0,
    ensures
        listener_lookup(s.update(i, p), key) == if key == p.0 {
            Some(p.1)
        } else {
            listener_lookup(s, key)
        },
    decreases i,
{
    if i == 0 {
        assert(s.update(0, p)[0] == p);
        if key != p.0 {
            assert(s.update(0, p).skip(1) =~= s.skip(1));
        }
    } else {
        assert(s.update(i, p)[0] == s[0]);
        assert(s.update(i, p).skip(1) =~= s.skip(1).update(i - 1, p));
        assert(s.skip(1)[i - 1] == s[i]);
        assert forall|j: int| 0 <= j < i - 1 implies (#[trigger] s.skip(1)[j]).0 != p.0 by {
            assert(s.skip(1)[j] == s[j + 1]);
        }
        lemma_listener_lookup_update(s.skip(1), i - 1, p, key);
    }
}

/// The listener registry: one listener per registered event data type, keyed by
/// the type's token. Its model is the map from token to listener state.
pub struct EventManager {
    listeners: Vec<(u64, EventListener)>,
}

impl EventManager {
    /// The registered listeners, keyed by event token.
    pub closed spec fn registry(self) -> Map<u64, EventListener> {
        Map::new(
            |k: u64| listener_lookup(self.listeners@, k) is Some,
            |k: u64| listener_lookup(self.listeners@, k)->0,
        )
    }

    /// No event token is registered twice.
    pub closed spec fn wf(self) -> bool {
        forall|i: int, j: int|
            0 <= i < j < self.listeners@.len() ==> (#[trigger] self.listeners@[i]).0 != (
            #[trigger] self.listeners@[j]).0
    }

    /// An empty registry.
    pub fn new() -> (r: Self)
        ensures
            r.wf(),
            r.registry() =~= Map::<u64, EventListener>::empty(),
    {
        EventManager { listeners: Vec::new() }
    }

    /// The index of the entry for `key`, if any.
    fn find_index(&self, key: u64) -> (r: Option<usize>)
        ensures
            match r {
                Some(i) => i < self.listeners@.len() && self.listeners@[i as int].0 == key && (
                forall|j: int| 0 <= j < i ==> (#[trigger] self.listeners@[j]).0 != key),
                None => forall|j: int|
                    0 <= j < self.listeners@.len() ==> (#[trigger] self.listeners@[j]).0 != key,
            },
    {
        let mut i: usize = 0;
        while i < self.listeners.len()
            invariant
                i <= self.listeners@.len(),
                forall|j: int| 0 <= j < i ==> (#[trigger] self.listeners@[j]).0 != key,
            decreases self.listeners@.len() - i,
        {
            if self.listeners[i].0 == key {
                return Some(i);
            }
            i = i + 1;
        }
        None
    }

    /// Register a listener for the event data type named by `event`. Each
    /// type may be registered exactly once.
    pub fn register_listener(&mut self, event: u64, listener: EventListener) -> (r: Result<
        (),
        EventError,
    >)
        requires
            old(self).wf(),
        ensures
            final(self).wf(),
            old(self).registry().contains_key(event) ==> r == Err::<(), EventError>(
                EventError::EventAlreadyRegistered(event),
            ) && *final(self) == *old(self),
            !old(self).registry().contains_key(event) ==> r == Ok::<(), EventError>(())
                && final(self).registry() =~= old(self).registry().insert(event, listener),
    {
        let found = self.find_index(event);
        match found {
            Some(i) => {
                proof {
                    lemma_listener_lookup_skip(self.listeners@, event, i as int);
                    assert(self.listeners@.skip(i as int)[0] == self.listeners@[i as int]);
                }
                Err(EventError::EventAlreadyRegistered(event))
            },
            None => {
                let ghost oldlist = self.listeners@;
                proof {
                    lemma_listener_lookup_skip(oldlist, event, oldlist.len() as int);
                    assert(oldlist.skip(oldlist.len() as int) =~= Seq::<
                        (u64, EventListener),
                    >::empty());
                }
                self.listeners.push((event, listener));
                proof {
                    let p = (event, listener);
                    assert(self.listeners@ == oldlist.push(p));
                    assert forall|k: u64|
                        #[trigger] listener_lookup(self.listeners@, k) == if k == event {
                            Some(listener)
                        } else {
                            listener_lookup(oldlist, k)
                        } by {
                        lemma_listener_lookup_push(oldlist, p, k);
                    }
                }
                Ok(())
            },
        }
    }

    /// Ask the listener for `event` whether a system with tick `tick` should
    /// fire at the moment `now`; an interval listener may advance itself. Fails
    /// when no listener for `event` was registered.
    pub fn check(&mut self, event: u64, tick: &Tick, now: Tick) -> (r: Result<bool, EventError>)
        requires
            old(self).wf(),
        ensures
            final(self).wf(),
            !old(self).registry().contains_key(event) ==> r == Err::<bool, EventError>(
                EventError::EventNotFound(event),
            ) && *final(self) == *old(self),
            old(self).registry().contains_key(event) ==> r == Ok::<bool, EventError>(
                old(self).registry()[event].check_spec(*tick, now),
            ) && final(self).registry() =~= old(self).registry().insert(
                event,
                old(self).registry()[event].after_check(now),
            ),
    {
        let found = self.find_index(event);
        match found {
            Some(i) => {
                let ghost oldlist = self.listeners@;
                proof {
                    lemma_listener_lookup_skip(oldlist, event, i as int);
                    assert(oldlist.skip(i as int)[0] == oldlist[i as int]);
                }
                let pair = &mut self.listeners[i];
                let fired = pair.1.check(tick, now);
                proof {
                    let p = self.listeners@[i as int];
                    assert(self.listeners@ == oldlist.update(i as int, p));
                    assert(p.0 == event);
                    assert forall|k: u64|
                        #[trigger] listener_lookup(self.listeners@, k) == if k == event {
                            Some(p.1)
                        } else {
                            listener_lookup(oldlist, k)
                        } by {
                        lemma_listener_lookup_update(oldlist, i as int, p, k);
                    }
                    assert forall|a: int, b: int|
                        0 <= a < b < self.listeners@.len() implies (
                    #[trigger] self.listeners@[a]).0 != (#[trigger] self.listeners@[b]).0 by {
                        if a != i {
                            assert(self.listeners@[a] == oldlist[a]);
                        }
                        if b != i {
                            assert(self.listeners@[b] == oldlist[b]);
                        }
                    }
                }
                Ok(fired)
            },
            None => {
                proof {
                    lemma_listener_lookup_skip(self.listeners@, event, self.listeners@.len() as int);
                    assert(self.listeners@.skip(self.listeners@.len() as int) =~= Seq::<
                        (u64, EventListener),
                    >::empty());
                }
                Err(EventError::EventNotFound(event))
            },
        }
    }

    /// Signal the listener for `event` explicitly at the moment `now`. Fails
    /// when no listener for `event` was registered.
    pub fn emit(&mut self, event: u64, now: Tick) -> (r: Result<(), EventError>)
        requires
            old(self).wf(),
        ensures
            final(self).wf(),
            !old(self).registry().contains_key(event) ==> r == Err::<(), EventError>(
                EventError::EventNotFound(event),
            ) && *final(self) == *old(self),
            old(self).registry().contains_key(event) ==> r == Ok::<(), EventError>(())
                && final(self).registry() =~= old(self).registry().insert(
                event,
                old(self).registry()[event].after_emit(now),
            ),
    {
        let found = self.find_index(event);
        match found {
            Some(i) => {
                let ghost oldlist = self.listeners@;
                proof {
                    lemma_listener_lookup_skip(oldlist, event, i as int);
                    assert(oldlist.skip(i as int)[0] == oldlist[i as int]);
                }
                let pair = &mut self.listeners[i];
                pair.1.emit(now);
                proof {
                    let p = self.listeners@[i as int];
                    assert(self.listeners@ == oldlist.update(i as int, p));
                    assert(p.0 == event);
                    assert forall|k: u64|
                        #[trigger] listener_lookup(self.listeners@, k) == if k == event {
                            Some(p.1)
                        } else {
                            listener_lookup(oldlist, k)
                        } by {
                        lemma_listener_lookup_update(oldlist, i as int, p, k);
                    }
                    assert forall|a: int, b: int|
                        0 <= a < b < self.listeners@.len() implies (
                    #[trigger] self.listeners@[a]).0 != (#[trigger] self.listeners@[b]).0 by {
                        if a != i {
                            assert(self.listeners@[a] == oldlist[a]);
                        }
                        if b != i {
                            assert(self.listeners@[b] == oldlist[b]);
                        }
                    }
                }
                Ok(())
            },
            None => {
                proof {
                    lemma_listener_lookup_skip(self.listeners@, event, self.listeners@.len() as int);
                    assert(self.listeners@.skip(self.listeners@.len() as int) =~= Seq::<
                        (u64, EventListener),
                    >::empty());
                }
                Err(EventError::EventNotFound(event))
            },
        }
    }
}

} // verus!
