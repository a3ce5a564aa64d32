use vstd::prelude::*;

use crate::error::UtilityContainerError;

verus! {

/// A value tagged with the type token of the concrete component type it was
/// erased from. Recovering the value checks the token, so no cast is ever
/// trusted: a lookup under the wrong token yields `None`, exactly like a
/// failed downcast.
pub struct SyncBox<V> {
    pub token: u64,
    pub value: V,
}

impl<V> SyncBox<V> {
    /// Erase `data`, remembering `token` as its concrete type.
    pub fn new(token: u64, data: V) -> (r: Self)
        ensures
            r.token == token,
            r.value == data,
    {
        SyncBox { token, value: data }
    }

    /// Recover a shared borrow, provided the caller names the right type.
    pub fn cast_ref(&self, token: u64) -> (r: Option<&V>)
        ensures
            token == self.token ==> r == Some(&self.value),
            token != self.token ==> r is None,
    {
        if token == self.token {
            Some(&self.value)
        } else {
            None
        }
    }

    /// Recover an exclusive borrow, provided the caller names the right type.
    pub fn cast_mut(&mut self, token: u64) -> (r: Option<&mut V>)
        ensures
            final(self).token == old(self).token,
            token == old(self).token ==> (match r {
                Some(p) => *p == old(self).value && final(self).value == *final(p),
                None => false,
            }),
            token != old(self).token ==> (match r {
                Some(_) => false,
                None => final(self).value == old(self).value,
            }),
    {
        if token == self.token {
            Some(&mut self.value)
        } else {
            None
        }
    }
}

/// First-match lookup over an association list of erased cells.
pub open spec fn row_lookup<V>(s: Seq<(u32, SyncBox<V>)>, key: u32) -> Option<V>
    decreases s.len(),
{
    if s.len() == 0 {
        None
    } else if s[0].0 == key {
        Some(s[0].1.value)
    } else {
        row_lookup(s.skip(1), key)
    }
}

/// Skipping over a prefix that does not hold `key` leaves the lookup result
/// unchanged.
proof fn lemma_row_lookup_skip<V>(s: Seq<(u32, SyncBox<V>)>, key: u32, i: int)
    requires
        0 <= i <= s.len(),
        forall|j: int| 0 <= j < i ==> (#[trigger] s[j]).0 != key,
    ensures
        row_lookup(s, key) == row_lookup(s.skip(i), key),
    decreases i,
{
    if i > 0 {
        assert(s[0].0 != key);
        assert(s.skip(1).skip(i - 1) =~= s.skip(i));
        assert forall|j: int| 0 <= j < i - 1 implies (#[trigger] s.skip(1)[j]).0 != key by {
            assert(s.skip(1)[j] == s[j + 1]);
        }
        lemma_row_lookup_skip(s.skip(1), key, i - 1);
    } else {
        assert(s.skip(0) =~= s);
    }
}

/// Appending a cell changes the lookup only for its own key, and only when
/// that key was absent.
proof fn lemma_row_lookup_push<V>(s: Seq<(u32, SyncBox<V>)>, p: (u32, SyncBox<V>), key: u32)
    ensures
        row_lookup(s.push(p), key) == if row_lookup(s, key) is Some {
            row_lookup(s, key)
        } else if key == p.0 {
            Some(p.1.value)
        } else {
            None::<V>
        },
    decreases s.len(),
{
    if s.len() == 0 {
        assert(s.push(p)[0] == p);
        assert(s.push(p).skip(1) =~= Seq::<(u32, SyncBox<V>)>::empty());
        assert(row_lookup(Seq::<(u32, SyncBox<V>)>::empty(), key) is None);
    } else {
        assert(s.push(p)[0] == s[0]);
        if s[0].0 != key {
            assert(s.push(p).skip(1) =~= s.skip(1).push(p));
            lemma_row_lookup_push(s.skip(1), p, key);
        }
    }
}

/// Replacing the first cell that holds a key rewrites the lookup for that
/// key alone.
proof fn lemma_row_lookup_update<V>(
    s: Seq<(u32, SyncBox<V>)>,
    i: int,
    p: (u32, SyncBox<V>),
    key: u32,
)
    requires
        0 <= i < s.len(),
        s[i].0 == p.0,
        forall|j: int| 0 <= j < i ==> (#[trigger] s[j]).0 != p.0,
    ensures
        row_lookup(s.update(i, p), key) == if key == p.0 {
            Some(p.1.value)
        } else {
            row_lookup(s, key)
        },
    decreases i,
{
    if i == 0 {
        assert(s.update(0, p)[0] == p);
        if key != p.0 {
            assert(s.update(0, p).skip(1) =~= s.skip(1));
        }
    } else {
        assert(s.update(i, p)[0] == s[0]);
        assert(s.update(i, p).skip(1) =~= s.skip(1).update(i - 1, p));
        assert(s.skip(1)[i - 1] == s[i]);
        assert forall|j: int| 0 <= j < i - 1 implies (#[trigger] s.skip(1)[j]).0 != p.0 by {
            assert(s.skip(1)[j] == s[j + 1]);
        }
        lemma_row_lookup_update(s.skip(1), i - 1, p, key);
    }
}


/// A found key stands in some cell.
proof fn lemma_row_lookup_index<V>(s: Seq<(u32, SyncBox<V>)>, key: u32)
    requires
        row_lookup(s, key) is Some,
    ensures
        exists|i: int| 0 <= i < s.len() && (#[trigger] s[i]).0 == key,
    decreases s.len(),
{
    if s[0].0 == key {
        assert(0 <= 0 < s.len() && s[0].0 == key);
    } else {
        lemma_row_lookup_index(s.skip(1), key);
        let i = choose|i: int| 0 <= i < s.skip(1).len() && (#[trigger] s.skip(1)[i]).0 == key;
        assert(s[i + 1].0 == key);
    }
}

/// One type-erased storage row: a mapping from entity key to an erased cell,
/// where every cell holds the row's declared component type. The model of a
/// row is the map from keys to stored values.
pub struct ErasedMapContainer<V> {
    token: u64,
    cells: Vec<(u32, SyncBox<V>)>,
}

impl<V> ErasedMapContainer<V> {
    /// The component type this row was declared for.
    pub closed spec fn type_token(self) -> u64 {
        self.token
    }

    /// The stored key-to-value mapping.
    pub closed spec fn contents(self) -> Map<u32, V> {
        Map::new(
            |k: u32| row_lookup(self.cells@, k) is Some,
            |k: u32| row_lookup(self.cells@, k)->0,
        )
    }

    /// Every cell carries the row's token, and no key owns two cells.
    pub closed spec fn wf(self) -> bool {
        &&& forall|i: int|
            0 <= i < self.cells@.len() ==> (#[trigger] self.cells@[i]).1.token == self.token
        &&& forall|i: int, j: int|
            0 <= i < j < self.cells@.len() ==> self.cells@[i].0 != self.cells@[j].0
    }


    /// The stored cells in insertion order: each key with its value.
    pub closed spec fn entries(self) -> Seq<(u32, V)> {
        self.cells@.map_values(|c: (u32, SyncBox<V>)| (c.0, c.1.value))
    }

    /// How many keys own a cell.
    pub fn len(&self) -> (r: usize)
        ensures
            r == self.entries().len(),
    {
        self.cells.len()
    }

    /// The key and a borrow of the value of the `i`-th cell, in insertion
    /// order: the row's iteration surface.
    pub fn entry_at(&self, i: usize) -> (r: (u32, &V))
        requires
            i < self.entries().len(),
        ensures
            r.0 == self.entries()[i as int].0,
            *r.1 == self.entries()[i as int].1,
    {
        let pair = &self.cells[i];
        (pair.0, &pair.1.value)
    }

    /// Iterating the cells visits exactly the row's contents: every slot's
    /// key maps to the slot's value, and every stored key stands in some
    /// slot.
    pub proof fn lemma_entries_agree(self)
        requires
            self.wf(),
        ensures
            forall|i: int|
                0 <= i < self.entries().len() ==> self.contents().contains_key(
                    (#[trigger] self.entries()[i]).0,
                ) && self.contents()[self.entries()[i].0] == self.entries()[i].1,
            forall|k: u32|
                #[trigger] self.contents().contains_key(k) ==> exists|i: int|
                    0 <= i < self.entries().len() && (#[trigger] self.entries()[i]).0 == k,
    {
        assert forall|i: int|
            0 <= i < self.entries().len() implies self.contents().contains_key(
            (#[trigger] self.entries()[i]).0,
        ) && self.contents()[self.entries()[i].0] == self.entries()[i].1 by {
            let k = self.cells@[i].0;
            assert forall|j: int| 0 <= j < i implies (#[trigger] self.cells@[j]).0 != k by {}
            lemma_row_lookup_skip(self.cells@, k, i);
            assert(self.cells@.skip(i)[0] == self.cells@[i]);
        }
        assert forall|k: u32| #[trigger] self.contents().contains_key(k) implies exists|i: int|
            0 <= i < self.entries().len() && (#[trigger] self.entries()[i]).0 == k by {
            lemma_row_lookup_index(self.cells@, k);
            let i = choose|i: int| 0 <= i < self.cells@.len() && (#[trigger] self.cells@[i]).0 == k;
            assert(self.entries()[i].0 == k);
        }
    }

    /// An empty row declared for the component type named by `token`.
    pub fn new(token: u64) -> (r: Self)
        ensures
            r.wf(),
            r.type_token() == token,
            r.contents() =~= Map::<u32, V>::empty(),
    {
        ErasedMapContainer { token, cells: Vec::new() }
    }

    /// Whether this row was declared for the component type named by `token`.
    pub fn is(&self, token: u64) -> (r: bool)
        ensures
            r == (token == self.type_token()),
    {
        self.token == token
    }

    /// The index of the cell owned by `key`, if any.
    fn find_index(&self, key: u32) -> (r: Option<usize>)
        ensures
            match r {
                Some(i) => i < self.cells@.len() && self.cells@[i as int].0 == key && (forall|
                    j: int,
                | 0 <= j < i ==> (#[trigger] self.cells@[j]).0 != key),
                None => forall|j: int|
                    0 <= j < self.cells@.len() ==> (#[trigger] self.cells@[j]).0 != key,
            },
    {
        let mut i: usize = 0;
        while i < self.cells.len()
            invariant
                i <= self.cells@.len(),
                forall|j: int| 0 <= j < i ==> (#[trigger] self.cells@[j]).0 != key,
            decreases self.cells@.len() - i,
        {
            if self.cells[i].0 == key {
                return Some(i);
            }
            i = i + 1;
        }
        None
    }

    /// Attach `data`, claimed to be of the type named by `token`, to `key`.
    /// The row defends its typing discipline: a wrong token is rejected, as
    /// is a key that already owns a cell.
    pub fn insert(&mut self, token: u64, key: u32, data: V) -> (r: Result<
        (),
        UtilityContainerError,
    >)
        requires
            old(self).wf(),
        ensures
            final(self).wf(),
            final(self).type_token() == old(self).type_token(),
            token != old(self).type_token() ==> r == Err::<(), UtilityContainerError>(
                UtilityContainerError::MismatchedTypeId(old(self).type_token(), token),
            ) && final(self).contents() == old(self).contents(),
            token == old(self).type_token() && old(self).contents().contains_key(key)
                ==> r == Err::<(), UtilityContainerError>(UtilityContainerError::EntryOccupied)
                    && final(self).contents() == old(self).contents(),
            token == old(self).type_token() && !old(self).contents().contains_key(key)
                ==> r == Ok::<(), UtilityContainerError>(())
                    && final(self).contents() =~= old(self).contents().insert(key, data),
    {
        if token != self.token {
            return Err(UtilityContainerError::MismatchedTypeId(self.token, token));
        }
        let found = self.find_index(key);
        match found {
            Some(i) => {
                proof {
                    lemma_row_lookup_skip(self.cells@, key, i as int);
                    assert(self.cells@.skip(i as int)[0] == self.cells@[i as int]);
                }
                Err(UtilityContainerError::EntryOccupied)
            },
            None => {
                let ghost oldcells = self.cells@;
                proof {
                    lemma_row_lookup_skip(oldcells, key, oldcells.len() as int);
                    assert(oldcells.skip(oldcells.len() as int) =~= Seq::<
                        (u32, SyncBox<V>),
                    >::empty());
                }
                self.cells.push((key, SyncBox::new(token, data)));
                proof {
                    let p = (key, SyncBox { token, value: data });
                    assert(self.cells@ == oldcells.push(p));
                    assert forall|k: u32|
                        #[trigger] row_lookup(self.cells@, k) == if k == key {
                            Some(data)
                        } else {
                            row_lookup(oldcells, k)
                        } by {
                        lemma_row_lookup_push(oldcells, p, k);
                    }
                    assert(self.contents() =~= old(self).contents().insert(key, data));
                }
                Ok(())
            },
        }
    }

    /// A shared borrow of the value `key` owns, if the caller names the
    /// right type and the key holds a cell.
    pub fn get(&self, token: u64, key: u32) -> (r: Option<&V>)
        requires
            self.wf(),
        ensures
            match r {
                Some(v) => token == self.type_token() && self.contents().contains_key(key) && *v
                    == self.contents()[key],
                None => token != self.type_token() || !self.contents().contains_key(key),
            },
    {
        if token != self.token {
            return None;
        }
        let found = self.find_index(key);
        match found {
            Some(i) => {
                proof {
                    lemma_row_lookup_skip(self.cells@, key, i as int);
                    assert(self.cells@.skip(i as int)[0] == self.cells@[i as int]);
                }
                self.cells[i].1.cast_ref(token)
            },
            None => {
                proof {
                    lemma_row_lookup_skip(self.cells@, key, self.cells@.len() as int);
                    assert(self.cells@.skip(self.cells@.len() as int) =~= Seq::<
                        (u32, SyncBox<V>),
                    >::empty());
                }
                None
            },
        }
    }

    /// An exclusive borrow of the value `key` owns, if the caller names the
    /// right type and the key holds a cell. Writing through the borrow
    /// updates the row's contents at `key` and nothing else.
    pub fn get_mut(&mut self, token: u64, key: u32) -> (r: Option<&mut V>)
        requires
            old(self).wf(),
        ensures
            final(self).wf(),
            final(self).type_token() == old(self).type_token(),
            match r {
                Some(p) => token == old(self).type_token()
                    && old(self).contents().contains_key(key)
                    && *p == old(self).contents()[key]
                    && final(self).contents() =~= old(self).contents().insert(key, *final(p)),
                None => (token != old(self).type_token() || !old(self).contents().contains_key(key))
                    && final(self).contents() == old(self).contents(),
            },
    {
        if token != self.token {
            return None;
        }
        let found = self.find_index(key);
        match found {
            Some(i) => {
                let ghost oldcells = self.cells@;
                proof {
                    lemma_row_lookup_skip(oldcells, key, i as int);
                    assert(oldcells.skip(i as int)[0] == oldcells[i as int]);
                    assert forall|p: (u32, SyncBox<V>), k: u32| p.0 == key implies #[trigger]
                    row_lookup(oldcells.update(i as int, p), k) == if k == key {
                        Some(p.1.value)
                    } else {
                        row_lookup(oldcells, k)
                    } by {
                        lemma_row_lookup_update(oldcells, i as int, p, k);
                    }
                }
                let pair = &mut self.cells[i];
                let inner = &mut pair.1;
                Some(&mut inner.value)
            },
            None => {
                proof {
                    lemma_row_lookup_skip(self.cells@, key, self.cells@.len() as int);
                    assert(self.cells@.skip(self.cells@.len() as int) =~= Seq::<
                        (u32, SyncBox<V>),
                    >::empty());
                }
                None
            },
        }
    }
}

} // verus!
