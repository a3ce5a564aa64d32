use vstd::prelude::*;

use vstd::relations::{sorted_by, total_ordering};
use vstd::seq_lib::{lemma_multiset_commutative, lemma_sorted_unique};

verus! {

broadcast use vstd::seq_lib::group_to_multiset_ensures, vstd::multiset::group_multiset_axioms;

/// The order in which component-type tokens are canonicalized.
pub open spec fn token_le() -> spec_fn(u64, u64) -> bool {
    |a: u64, b: u64| a <= b
}

/// The token order is total, so sorting by it is deterministic.
pub proof fn lemma_token_le_total_ordering()
    ensures
        total_ordering(token_le()),
{
    assert forall|x: u64| #[trigger] token_le()(x, x) by {}
    assert forall|x: u64, y: u64| #[trigger] token_le()(x, y) && token_le()(y, x) implies x == y by {}
    assert forall|x: u64, y: u64, z: u64|
        #[trigger] token_le()(x, y) && #[trigger] token_le()(y, z) implies token_le()(x, z) by {}
    assert forall|x: u64, y: u64| #[trigger] token_le()(x, y) || #[trigger] token_le()(y, x) by {}
}

/// The canonical identity of a set of component-type tokens: the tokens in
/// ascending order. Two enumerations of the same set always canonicalize to
/// the same identity, and two different multisets of tokens never do.
pub open spec fn canon_of(s: Seq<u64>) -> Seq<u64> {
    s.sort_by(token_le())
}

/// The canonical identity is order-independent: any two enumerations with
/// the same tokens share one identity.
pub proof fn lemma_canon_of_order_independent(a: Seq<u64>, b: Seq<u64>)
    requires
        a.to_multiset() == b.to_multiset(),
    ensures
        canon_of(a) == canon_of(b),
{
    lemma_token_le_total_ordering();
    a.lemma_sort_by_ensures(token_le());
    b.lemma_sort_by_ensures(token_le());
    lemma_sorted_unique(canon_of(a), canon_of(b), token_le());
}

/// The canonical identity is collision-free: identities agree only when the
/// underlying tokens do.
pub proof fn lemma_canon_of_collision_free(a: Seq<u64>, b: Seq<u64>)
    requires
        canon_of(a) == canon_of(b),
    ensures
        a.to_multiset() == b.to_multiset(),
{
    lemma_token_le_total_ordering();
    a.lemma_sort_by_ensures(token_le());
    b.lemma_sort_by_ensures(token_le());
}

/// One cached archetype: the component-type tokens a query asked for, and
/// the entities whose component sets covered them when the archetype was
/// computed.
pub struct Archetype {
    pub c_ids: Vec<u64>,
    pub entities: Vec<u32>,
}

impl Archetype {
    pub fn new(c_ids: Vec<u64>, entities: Vec<u32>) -> (r: Self)
        ensures
            r.c_ids == c_ids,
            r.entities == entities,
    {
        Archetype { c_ids, entities }
    }

    /// The entities recorded for this archetype.
    pub fn entities(&self) -> (r: &Vec<u32>)
        ensures
            r == &self.entities,
    {
        &self.entities
    }

    /// Exclusive access to the recorded entities.
    pub fn entities_mut(&mut self) -> (r: &mut Vec<u32>)
        ensures
            *r == old(self).entities,
            final(self).entities == *final(r),
            final(self).c_ids == old(self).c_ids,
    {
        &mut self.entities
    }

    /// The canonical identity of a list of component-type tokens: the tokens
    /// sorted ascending. A sorted sequence is injective up to reordering, so
    /// two different type-sets cannot collide.
    pub fn id_from_c_ids(c_ids: &Vec<u64>) -> (r: Vec<u64>)
        ensures
            r@ == canon_of(c_ids@),
            sorted_by(r@, token_le()),
            r@.to_multiset() == c_ids@.to_multiset(),
    {
        let mut result: Vec<u64> = Vec::new();
        let mut i: usize = 0;
        while i < c_ids.len()
            invariant
                i <= c_ids@.len(),
                sorted_by(result@, token_le()),
                result@.to_multiset() == c_ids@.subrange(0, i as int).to_multiset(),
            decreases c_ids@.len() - i,
        {
            let x = c_ids[i];
            let mut pos: usize = 0;
            while pos < result.len() && result[pos] <= x
                invariant
                    pos <= result@.len(),
                    forall|k: int| 0 <= k < pos ==> result@[k] <= x,
                decreases result@.len() - pos,
            {
                pos = pos + 1;
            }
            let ghost oldres = result@;
            result.insert(pos, x);
            proof {
                let pre = oldres.subrange(0, pos as int);
                let post = oldres.subrange(pos as int, oldres.len() as int);
                assert(result@ == pre.push(x) + post);
                assert forall|a: int, b: int|
                    0 <= a < b < result@.len() implies #[trigger] token_le()(
                    result@[a],
                    result@[b],
                ) by {
                    let n = pos as int;
                    if b < n {
                        assert(result@[a] == oldres[a]);
                        assert(result@[b] == oldres[b]);
                        assert(token_le()(oldres[a], oldres[b]));
                    } else if b == n {
                        assert(result@[a] == oldres[a]);
                        assert(result@[b] == x);
                        assert(oldres[a] <= x);
                    } else {
                        assert(result@[b] == oldres[b - 1]);
                        if a < n {
                            assert(result@[a] == oldres[a]);
                            assert(token_le()(oldres[a], oldres[b - 1]));
                        } else if a == n {
                            assert(result@[a] == x);
                            assert(oldres[n] > x);
                            if b - 1 > n {
                                assert(token_le()(oldres[n], oldres[b - 1]));
                            }
                        } else {
                            assert(result@[a] == oldres[a - 1]);
                            assert(token_le()(oldres[a - 1], oldres[b - 1]));
                        }
                    }
                }
                lemma_multiset_commutative(pre.push(x), post);
                assert(oldres =~= pre + post);
                lemma_multiset_commutative(pre, post);
                assert(result@.to_multiset() =~= oldres.to_multiset().insert(x));
                assert(c_ids@.subrange(0, i as int + 1) =~= c_ids@.subrange(0, i as int).push(x));
            }
            i = i + 1;
        }
        proof {
            assert(c_ids@.subrange(0, c_ids@.len() as int) =~= c_ids@);
            lemma_token_le_total_ordering();
            c_ids@.lemma_sort_by_ensures(token_le());
            lemma_sorted_unique(result@, canon_of(c_ids@), token_le());
        }
        result
    }
}

/// First-match lookup of a cached archetype by canonical identity.
pub open spec fn cache_lookup(s: Seq<(Vec<u64>, Archetype)>, key: Seq<u64>) -> Option<Archetype>
    decreases s.len(),
{
    if s.len() == 0 {
        None
    } else if s[0].0@ == key {
        Some(s[0].1)
    } else {
        cache_lookup(s.skip(1), key)
    }
}

/// Skipping over a prefix whose identities differ from `key` leaves the
/// lookup result unchanged.
proof fn lemma_cache_lookup_skip(s: Seq<(Vec<u64>, Archetype)>, key: Seq<u64>, i: int)
    requires
        0 <= i <= s.len(),
        forall|j: int| 0 <= j < i ==> (#[trigger] s[j]).0@ != key,
    ensures
        cache_lookup(s, key) == cache_lookup(s.skip(i), key),
    decreases i,
{
    if i > 0 {
        assert(s[0].0@ != key);
        assert(s.skip(1).skip(i - 1) =~= s.skip(i));
        assert forall|j: int| 0 <= j < i - 1 implies (#[trigger] s.skip(1)[j]).0@ != key by {
            assert(s.skip(1)[j] == s[j + 1]);
        }
        lemma_cache_lookup_skip(s.skip(1), key, i - 1);
    } else {
        assert(s.skip(0) =~= s);
    }
}

/// Appending an entry changes the lookup only for its own identity, and
/// only when that identity was absent.
proof fn lemma_cache_lookup_push(s: Seq<(Vec<u64>, Archetype)>, p: (Vec<u64>, Archetype), key: Seq<u64>)
    ensures
        cache_lookup(s.push(p), key) == if cache_lookup(s, key) is Some {
            cache_lookup(s, key)
        } else if key == p.0@ {
            Some(p.1)
        } else {
            None::<Archetype>
        },
    decreases s.len(),
{
    if s.len() == 0 {
        assert(s.push(p)[0] == p);
        assert(s.push(p).skip(1) =~= Seq::<(Vec<u64>, Archetype)>::empty());
        assert(cache_lookup(Seq::<(Vec<u64>, Archetype)>::empty(), key) is None);
    } else {
        assert(s.push(p)[0] == s[0]);
        if s[0].0@ != key {
            assert(s.push(p).skip(1) =~= s.skip(1).push(p));
            lemma_cache_lookup_push(s.skip(1), p, key);
        }
    }
}

/// Replacing the first entry that carries an identity rewrites the lookup
/// for that identity alone.
proof fn lemma_cache_lookup_update(
    s: Seq<(Vec<u64>, Archetype)>,
    i: int,
    p: (Vec<u64>, Archetype),
    key: Seq<u64>,
)
    requires
        0 <= i < s.len(),
        s[i].0@ == p.0@,
        forall|j: int| 0 <= j < i ==> (#[trigger] s[j]).0@ != p.0@,
    ensures
        cache_lookup(s.update(i, p), key) == if key == p.0@ {
            Some(p.1)
        } else {
            cache_lookup(s, key)
        },
    decreases i,
{
    if i == 0 {
        assert(s.update(0, p)[0] == p);
        if key != p.0@ {
            assert(s.update(0, p).skip(1) =~= s.skip(1));
        }
    } else {
        assert(s.update(i, p)[0] == s[0]);
        assert(s.update(i, p).skip(1) =~= s.skip(1).update(i - 1, p));
        assert(s.skip(1)[i - 1] == s[i]);
        assert forall|j: int| 0 <= j < i - 1 implies (#[trigger] s.skip(1)[j]).0@ != p.0@ by {
            assert(s.skip(1)[j] == s[j + 1]);
        }
        lemma_cache_lookup_update(s.skip(1), i - 1, p, key);
    }
}

/// The archetype cache: memoizes, per canonical type-set identity, the
/// entity list computed for that type-set. Its model is the map from
/// canonical identity to cached archetype.
pub struct ArchetypeManager {
    cached: Vec<(Vec<u64>, Archetype)>,
}

/// Whether two token vectors hold the same tokens in the same order.
fn tokens_eq(a: &Vec<u64>, b: &Vec<u64>) -> (r: bool)
    ensures
        r == (a@ =~= b@),
{
    if a.len() != b.len() {
        return false;
    }
    let mut i: usize = 0;
    while i < a.len()
        invariant
            a@.len() == b@.len(),
            i <= a@.len(),
            forall|j: int| 0 <= j < i ==> a@[j] == b@[j],
        decreases a@.len() - i,
    {
        if a[i] != b[i] {
            return false;
        }
        i = i + 1;
    }
    true
}

impl ArchetypeManager {
    /// The cached entries, keyed by canonical identity.
    pub closed spec fn cache(self) -> Map<Seq<u64>, Archetype> {
        Map::new(
            |k: Seq<u64>| cache_lookup(self.cached@, k) is Some,
            |k: Seq<u64>| cache_lookup(self.cached@, k)->0,
        )
    }

    /// No identity is cached twice.
    pub closed spec fn wf(self) -> bool {
        forall|i: int, j: int|
            0 <= i < j < self.cached@.len() ==> (#[trigger] self.cached@[i]).0@ != (
            #[trigger] self.cached@[j]).0@
    }

    /// An empty cache.
    pub fn new() -> (r: Self)
        ensures
            r.wf(),
            r.cache() =~= Map::<Seq<u64>, Archetype>::empty(),
    {
        ArchetypeManager { cached: Vec::new() }
    }

    /// The index of the entry for `key`, if one is cached.
    fn find_index(&self, key: &Vec<u64>) -> (r: Option<usize>)
        ensures
            match r {
                Some(i) => i < self.cached@.len() && self.cached@[i as int].0@ == key@ && (forall|
                    j: int,
                | 0 <= j < i ==> (#[trigger] self.cached@[j]).0@ != key@),
                None => forall|j: int|
                    0 <= j < self.cached@.len() ==> (#[trigger] self.cached@[j]).0@ != key@,
            },
    {
        let mut i: usize = 0;
        while i < self.cached.len()
            invariant
                i <= self.cached@.len(),
                forall|j: int| 0 <= j < i ==> (#[trigger] self.cached@[j]).0@ != key@,
            decreases self.cached@.len() - i,
        {
            if tokens_eq(&self.cached[i].0, key) {
                return Some(i);
            }
            i = i + 1;
        }
        None
    }

    /// The cached archetype for a canonical identity, if any. Read every
    /// scheduling cycle by every system.
    pub fn get(&self, key: &Vec<u64>) -> (r: Option<&Archetype>)
        ensures
            match r {
                Some(a) => self.cache().contains_key(key@) && *a == self.cache()[key@],
                None => !self.cache().contains_key(key@),
            },
    {
        let found = self.find_index(key);
        match found {
            Some(i) => {
                proof {
                    lemma_cache_lookup_skip(self.cached@, key@, i as int);
                    assert(self.cached@.skip(i as int)[0] == self.cached@[i as int]);
                }
                Some(&self.cached[i].1)
            },
            None => {
                proof {
                    lemma_cache_lookup_skip(self.cached@, key@, self.cached@.len() as int);
                    assert(self.cached@.skip(self.cached@.len() as int) =~= Seq::<
                        (Vec<u64>, Archetype),
                    >::empty());
                }
                None
            },
        }
    }

    /// Cache the entity list computed for the type-set `c_ids`, keyed by its
    /// canonical identity. An idempotent upsert: registering the same
    /// type-set again replaces the cached list, so the last registration
    /// wins.
    pub fn insert(&mut self, c_ids: Vec<u64>, entities: Vec<u32>)
        requires
            old(self).wf(),
        ensures
            final(self).wf(),
            final(self).cache() =~= old(self).cache().insert(
                canon_of(c_ids@),
                Archetype { c_ids, entities },
            ),
    {
        let key = Archetype::id_from_c_ids(&c_ids);
        let ghost keyview = key@;
        let ghost oldcached = self.cached@;
        let entry = (key, Archetype::new(c_ids, entities));
        let found = self.find_index(&entry.0);
        match found {
            Some(i) => {
                proof {
                    lemma_cache_lookup_skip(oldcached, keyview, i as int);
                    assert(oldcached.skip(i as int)[0] == oldcached[i as int]);
                }
                let slot = &mut self.cached[i];
                *slot = entry;
                proof {
                    let p = self.cached@[i as int];
                    assert(self.cached@ == oldcached.update(i as int, p));
                    assert forall|k: Seq<u64>|
                        #[trigger] cache_lookup(self.cached@, k) == if k == keyview {
                            Some(p.1)
                        } else {
                            cache_lookup(oldcached, k)
                        } by {
                        lemma_cache_lookup_update(oldcached, i as int, p, k);
                    }
                    assert forall|a: int, b: int|
                        0 <= a < b < self.cached@.len() implies (
                    #[trigger] self.cached@[a]).0@ != (#[trigger] self.cached@[b]).0@ by {
                        if a != i && b != i {
                            assert(self.cached@[a] == oldcached[a]);
                            assert(self.cached@[b] == oldcached[b]);
                        } else if a == i {
                            assert(self.cached@[b] == oldcached[b]);
                        } else {
                            assert(self.cached@[a] == oldcached[a]);
                        }
                    }
                }
            },
            None => {
                proof {
                    lemma_cache_lookup_skip(oldcached, keyview, oldcached.len() as int);
                    assert(oldcached.skip(oldcached.len() as int) =~= Seq::<
                        (Vec<u64>, Archetype),
                    >::empty());
                }
                self.cached.push(entry);
                proof {
                    let p = self.cached@[oldcached.len() as int];
                    assert(self.cached@ == oldcached.push(p));
                    assert forall|k: Seq<u64>|
                        #[trigger] cache_lookup(self.cached@, k) == if k == keyview {
                            Some(p.1)
                        } else {
                            cache_lookup(oldcached, k)
                        } by {
                        lemma_cache_lookup_push(oldcached, p, k);
                    }
                    assert forall|a: int, b: int|
                        0 <= a < b < self.cached@.len() implies (
                    #[trigger] self.cached@[a]).0@ != (#[trigger] self.cached@[b]).0@ by {
                        if b < oldcached.len() {
                            assert(self.cached@[a] == oldcached[a]);
                            assert(self.cached@[b] == oldcached[b]);
                        } else {
                            assert(self.cached@[a] == oldcached[a]);
                        }
                    }
                }
            },
        }
    }
}

} // verus!
