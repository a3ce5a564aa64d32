use vstd::prelude::*;

use crate::error::{DataError, InternalDataError};
use crate::utility::ErasedMapContainer;

verus! {

/// Whether some row in `s` is declared for the component type `token`.
pub open spec fn has_row_in<V>(s: Seq<ErasedMapContainer<V>>, token: u64) -> bool {
    exists|i: int| 0 <= i < s.len() && (#[trigger] s[i]).type_token() == token
}

/// The index of the row declared for `token`; meaningful only when
/// `has_row_in` holds and row tokens are unique.
pub open spec fn row_index_of<V>(s: Seq<ErasedMapContainer<V>>, token: u64) -> int {
    choose|i: int| 0 <= i < s.len() && (#[trigger] s[i]).type_token() == token
}

/// With unique row tokens, the row index for a token is the one index that
/// carries it.
proof fn lemma_row_index<V>(s: Seq<ErasedMapContainer<V>>, token: u64, i: int)
    requires
        0 <= i < s.len(),
        s[i].type_token() == token,
        forall|a: int, b: int|
            0 <= a < b < s.len() ==> (#[trigger] s[a]).type_token() != (
            #[trigger] s[b]).type_token(),
    ensures
        has_row_in(s, token),
        row_index_of(s, token) == i,
{
    assert(has_row_in(s, token));
    let j = row_index_of(s, token);
    if i < j {
        assert(s[i].type_token() != s[j].type_token());
    } else if j < i {
        assert(s[j].type_token() != s[i].type_token());
    }
}

/// The component store: one type-erased row per component type, each row
/// keyed by the type's token. Its model is, per token, the map from entity
/// to stored value.
pub struct ComponentManager<V> {
    rows: Vec<ErasedMapContainer<V>>,
}

impl<V> ComponentManager<V> {
    /// Rows are well formed and no two rows claim the same component type.
    pub closed spec fn wf(self) -> bool {
        &&& forall|i: int| 0 <= i < self.rows@.len() ==> (#[trigger] self.rows@[i]).wf()
        &&& forall|a: int, b: int|
            0 <= a < b < self.rows@.len() ==> (#[trigger] self.rows@[a]).type_token() != (
            #[trigger] self.rows@[b]).type_token()
    }

    /// Whether a row for the component type `token` exists.
    pub closed spec fn has_row(self, token: u64) -> bool {
        has_row_in(self.rows@, token)
    }

    /// The entity-to-value mapping of the row for `token`; meaningful only
    /// when that row exists.
    pub closed spec fn row_contents(self, token: u64) -> Map<u32, V> {
        self.rows@[row_index_of(self.rows@, token)].contents()
    }

    /// An empty store with no rows at all.
    pub fn new() -> (r: Self)
        ensures
            r.wf(),
            forall|t: u64| !r.has_row(t),
    {
        ComponentManager { rows: Vec::new() }
    }

    /// The index of the row for `token`, if one exists.
    fn find_row(&self, token: u64) -> (r: Option<usize>)
        requires
            self.wf(),
        ensures
            match r {
                Some(i) => i < self.rows@.len() && self.rows@[i as int].type_token() == token
                    && self.has_row(token) && row_index_of(self.rows@, token) == i,
                None => !self.has_row(token),
            },
    {
        let mut i: usize = 0;
        while i < self.rows.len()
            invariant
                self.wf(),
                i <= self.rows@.len(),
                forall|j: int| 0 <= j < i ==> (#[trigger] self.rows@[j]).type_token() != token,
            decreases self.rows@.len() - i,
        {
            if self.rows[i].is(token) {
                proof {
                    lemma_row_index(self.rows@, token, i as int);
                }
                return Some(i);
            }
            i = i + 1;
        }
        None
    }

    /// Make sure a row declared for `token` exists: an existing row is kept
    /// as it is, otherwise an empty row is added. Idempotent; no error case.
    pub fn create_container(&mut self, token: u64)
        requires
            old(self).wf(),
        ensures
            final(self).wf(),
            final(self).has_row(token),
            old(self).has_row(token) ==> *final(self) == *old(self),
            !old(self).has_row(token) ==> final(self).row_contents(token) =~= Map::<u32, V>::empty(),
            forall|t: u64| t != token ==> final(self).has_row(t) == old(self).has_row(t),
            forall|t: u64|
                t != token && old(self).has_row(t) ==> final(self).row_contents(t) == old(
                    self,
                ).row_contents(t),
    {
        let found = self.find_row(token);
        match found {
            Some(_) => {},
            None => {
                let ghost oldrows = self.rows@;
                self.rows.push(ErasedMapContainer::new(token));
                proof {
                    let n = oldrows.len() as int;
                    assert(self.rows@[n].type_token() == token);
                    assert forall|a: int, b: int|
                        0 <= a < b < self.rows@.len() implies (
                    #[trigger] self.rows@[a]).type_token() != (
                    #[trigger] self.rows@[b]).type_token() by {
                        if b < n {
                            assert(self.rows@[a] == oldrows[a]);
                            assert(self.rows@[b] == oldrows[b]);
                        } else {
                            assert(self.rows@[a] == oldrows[a]);
                        }
                    }
                    lemma_row_index(self.rows@, token, n);
                    assert forall|t: u64|
                        t != token implies has_row_in(self.rows@, t) == has_row_in(oldrows, t) by {
                        if has_row_in(self.rows@, t) {
                            let i = choose|i: int|
                                0 <= i < self.rows@.len() && (#[trigger] self.rows@[i]).type_token()
                                    == t;
                            assert(i < n && oldrows[i].type_token() == t);
                        }
                        if has_row_in(oldrows, t) {
                            let i = choose|i: int|
                                0 <= i < oldrows.len() && (#[trigger] oldrows[i]).type_token() == t;
                            assert(self.rows@[i].type_token() == t);
                        }
                    }
                    assert forall|t: u64|
                        t != token && has_row_in(oldrows, t) implies self.rows@[row_index_of(
                        self.rows@,
                        t,
                    )].contents() == oldrows[row_index_of(oldrows, t)].contents() by {
                        let i = choose|i: int|
                            0 <= i < oldrows.len() && (#[trigger] oldrows[i]).type_token() == t;
                        lemma_row_index(oldrows, t, i);
                        lemma_row_index(self.rows@, t, i);
                        assert(self.rows@[i] == oldrows[i]);
                    }
                }
            },
        }
    }

    /// A shared borrow of the row for `token`, if one exists.
    pub fn get_container(&self, token: u64) -> (r: Option<&ErasedMapContainer<V>>)
        requires
            self.wf(),
        ensures
            match r {
                Some(c) => self.has_row(token) && c.wf() && c.type_token() == token && c.contents()
                    == self.row_contents(token),
                None => !self.has_row(token),
            },
    {
        let found = self.find_row(token);
        match found {
            Some(i) => Some(&self.rows[i]),
            None => None,
        }
    }

    /// Attach `value`, of the component type `token`, to `entity`. Fails if
    /// no row for `token` exists, if the entity already owns a cell in it,
    /// or if the row turns out to be declared for another type.
    pub fn insert(&mut self, token: u64, entity: u32, value: V) -> (r: Result<(), DataError>)
        requires
            old(self).wf(),
        ensures
            final(self).wf(),
            forall|t: u64| final(self).has_row(t) == old(self).has_row(t),
            !old(self).has_row(token) ==> r == Err::<(), DataError>(
                DataError::Internal(InternalDataError::ContainerNotFound),
            ) && *final(self) == *old(self),
            old(self).has_row(token) && old(self).row_contents(token).contains_key(entity) ==> r
                == Err::<(), DataError>(DataError::ComponentExistsForEntity) && forall|t: u64|
                old(self).has_row(t) ==> final(self).row_contents(t) == old(self).row_contents(t),
            old(self).has_row(token) && !old(self).row_contents(token).contains_key(entity) ==> r
                == Ok::<(), DataError>(()) && final(self).row_contents(token) =~= old(
                self,
            ).row_contents(token).insert(entity, value) && (forall|t: u64|
                t != token && old(self).has_row(t) ==> final(self).row_contents(t) == old(
                    self,
                ).row_contents(t)),
    {
        let found = self.find_row(token);
        match found {
            Some(i) => {
                let ghost oldrows = self.rows@;
                let row = &mut self.rows[i];
                let res = row.insert(token, entity, value);
                proof {
                    assert(self.rows@ == oldrows.update(i as int, self.rows@[i as int]));
                    assert forall|a: int|
                        0 <= a < self.rows@.len() implies (#[trigger] self.rows@[a]).type_token()
                        == oldrows[a].type_token() && self.rows@[a].wf() by {
                        if a != i {
                            assert(self.rows@[a] == oldrows[a]);
                        }
                    }
                    lemma_row_index(self.rows@, token, i as int);
                    assert forall|t: u64| has_row_in(self.rows@, t) == has_row_in(oldrows, t) by {
                        if has_row_in(self.rows@, t) {
                            let k = choose|k: int|
                                0 <= k < self.rows@.len() && (#[trigger] self.rows@[k]).type_token()
                                    == t;
                            assert(oldrows[k].type_token() == t);
                        }
                        if has_row_in(oldrows, t) {
                            let k = choose|k: int|
                                0 <= k < oldrows.len() && (#[trigger] oldrows[k]).type_token() == t;
                            assert(self.rows@[k].type_token() == t);
                        }
                    }
                    assert forall|t: u64| t != token && has_row_in(oldrows, t) implies self.rows@[
                        row_index_of(self.rows@, t)
                    ].contents() == oldrows[row_index_of(oldrows, t)].contents() by {
                        let k = choose|k: int|
                            0 <= k < oldrows.len() && (#[trigger] oldrows[k]).type_token() == t;
                        lemma_row_index(oldrows, t, k);
                        lemma_row_index(self.rows@, t, k);
                        assert(self.rows@[k] == oldrows[k]);
                    }
                    lemma_row_index(oldrows, token, i as int);
                }
                match res {
                    Ok(()) => Ok(()),
                    Err(e) => Err(DataError::from(e)),
                }
            },
            None => Err(DataError::Internal(InternalDataError::ContainerNotFound)),
        }
    }

    /// A shared borrow of the component of type `token` that `entity` owns,
    /// if the row and the cell both exist.
    pub fn get(&self, token: u64, entity: u32) -> (r: Option<&V>)
        requires
            self.wf(),
        ensures
            match r {
                Some(v) => self.has_row(token) && self.row_contents(token).contains_key(entity)
                    && *v == self.row_contents(token)[entity],
                None => !self.has_row(token) || !self.row_contents(token).contains_key(entity),
            },
    {
        let found = self.find_row(token);
        match found {
            Some(i) => self.rows[i].get(token, entity),
            None => None,
        }
    }

    /// Overwrite the component of type `token` that `entity` owns. Fails if
    /// no row for `token` exists or the entity owns no cell in it; on
    /// success that one cell is updated and nothing else in the store.
    pub fn set(&mut self, token: u64, entity: u32, value: V) -> (r: Result<(), DataError>)
        requires
            old(self).wf(),
        ensures
            final(self).wf(),
            forall|t: u64| final(self).has_row(t) == old(self).has_row(t),
            !old(self).has_row(token) ==> r == Err::<(), DataError>(
                DataError::Internal(InternalDataError::ContainerNotFound),
            ) && *final(self) == *old(self),
            old(self).has_row(token) && !old(self).row_contents(token).contains_key(entity) ==> r
                == Err::<(), DataError>(
                DataError::Internal(InternalDataError::ComponentMissingForEntity),
            ) && (forall|t: u64|
                old(self).has_row(t) ==> final(self).row_contents(t) == old(self).row_contents(t)),
            old(self).has_row(token) && old(self).row_contents(token).contains_key(entity) ==> r
                == Ok::<(), DataError>(()) && final(self).row_contents(token) =~= old(
                self,
            ).row_contents(token).insert(entity, value) && (forall|t: u64|
                t != token && old(self).has_row(t) ==> final(self).row_contents(t) == old(
                    self,
                ).row_contents(t)),
    {
        let found = self.find_row(token);
        match found {
            Some(i) => {
                let ghost oldrows = self.rows@;
                let row = &mut self.rows[i];
                let slot = row.get_mut(token, entity);
                let res: Result<(), DataError> = match slot {
                    Some(p) => {
                        *p = value;
                        Ok(())
                    },
                    None => Err(
                        DataError::Internal(InternalDataError::ComponentMissingForEntity),
                    ),
                };
                proof {
                    assert(self.rows@ == oldrows.update(i as int, self.rows@[i as int]));
                    assert forall|a: int|
                        0 <= a < self.rows@.len() implies (#[trigger] self.rows@[a]).type_token()
                        == oldrows[a].type_token() && self.rows@[a].wf() by {
                        if a != i {
                            assert(self.rows@[a] == oldrows[a]);
                        }
                    }
                    lemma_row_index(self.rows@, token, i as int);
                    lemma_row_index(oldrows, token, i as int);
                    assert forall|t: u64| has_row_in(self.rows@, t) == has_row_in(oldrows, t) by {
                        if has_row_in(self.rows@, t) {
                            let k = choose|k: int|
                                0 <= k < self.rows@.len() && (#[trigger] self.rows@[k]).type_token()
                                    == t;
                            assert(oldrows[k].type_token() == t);
                        }
                        if has_row_in(oldrows, t) {
                            let k = choose|k: int|
                                0 <= k < oldrows.len() && (#[trigger] oldrows[k]).type_token() == t;
                            assert(self.rows@[k].type_token() == t);
                        }
                    }
                    assert forall|t: u64| t != token && has_row_in(oldrows, t) implies self.rows@[
                        row_index_of(self.rows@, t)
                    ].contents() == oldrows[row_index_of(oldrows, t)].contents() by {
                        let k = choose|k: int|
                            0 <= k < oldrows.len() && (#[trigger] oldrows[k]).type_token() == t;
                        lemma_row_index(oldrows, t, k);
                        lemma_row_index(self.rows@, t, k);
                        assert(self.rows@[k] == oldrows[k]);
                    }
                }
                res
            },
            None => Err(DataError::Internal(InternalDataError::ContainerNotFound)),
        }
    }
}

} // verus!
