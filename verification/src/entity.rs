use vstd::prelude::*;

use crate::error::DataError;

verus! {

/// Whether a component-token list covers every token that a query asks for.
pub open spec fn satisfies(tokens: Seq<u64>, c_ids: Seq<u64>) -> bool {
    forall|k: int| 0 <= k < c_ids.len() ==> tokens.contains(#[trigger] c_ids[k])
}

/// The entities among `0 .. n` whose attached component types cover
/// `c_ids`, in ascending order of identifier.
pub open spec fn matching_upto(dir: Seq<Seq<u64>>, c_ids: Seq<u64>, n: int) -> Seq<u32>
    decreases n,
{
    if n <= 0 {
        Seq::empty()
    } else {
        let pre = matching_upto(dir, c_ids, n - 1);
        if satisfies(dir[n - 1], c_ids) {
            pre.push((n - 1) as u32)
        } else {
            pre
        }
    }
}

/// The entities of the whole directory whose attached component types cover
/// `c_ids`.
pub open spec fn matching(dir: Seq<Seq<u64>>, c_ids: Seq<u64>) -> Seq<u32> {
    matching_upto(dir, c_ids, dir.len() as int)
}


/// Every entity in a matching scan was issued before the scan's bound and
/// covers the queried tokens.
pub proof fn lemma_matching_members(dir: Seq<Seq<u64>>, c_ids: Seq<u64>, n: int)
    requires
        0 <= n <= dir.len(),
        n <= u32::MAX,
    ensures
        forall|x: int|
            0 <= x < matching_upto(dir, c_ids, n).len() ==> (#[trigger] matching_upto(
                dir,
                c_ids,
                n,
            )[x]) < n && satisfies(dir[matching_upto(dir, c_ids, n)[x] as int], c_ids),
    decreases n,
{
    if n > 0 {
        lemma_matching_members(dir, c_ids, n - 1);
        let pre = matching_upto(dir, c_ids, n - 1);
        let ms = matching_upto(dir, c_ids, n);
        assert forall|x: int|
            0 <= x < ms.len() implies (#[trigger] ms[x]) < n && satisfies(
            dir[ms[x] as int],
            c_ids,
        ) by {
            if satisfies(dir[n - 1], c_ids) {
                if x < pre.len() {
                    assert(ms[x] == pre[x]);
                } else {
                    assert(ms[x] == (n - 1) as u32);
                }
            } else {
                assert(ms[x] == pre[x]);
            }
        }
    }
}

/// The entity directory: issues entity identifiers and records, per entity,
/// which component types are attached. Identifiers are dense, so the record
/// for entity `e` is the list at index `e`; values live elsewhere, in the
/// component store.
pub struct EntityManager {
    entities: Vec<Vec<u64>>,
    next_entity_id: u32,
}

impl EntityManager {
    /// The next identifier is exactly the number of entities issued so far,
    /// and no entity lists a component type twice.
    pub closed spec fn wf(self) -> bool {
        &&& self.next_entity_id == self.entities@.len()
        &&& forall|e: int, i: int, j: int|
            0 <= e < self.entities@.len() && 0 <= i < j < self.entities@[e]@.len() ==> (
            #[trigger] self.entities@[e]@[i]) != (#[trigger] self.entities@[e]@[j])
    }

    /// How many entities have been issued.
    pub open spec fn entity_count(self) -> nat {
        self.directory().len()
    }

    /// The record per entity: the tokens of its attached component types.
    pub closed spec fn directory(self) -> Seq<Seq<u64>> {
        self.entities@.map_values(|v: Vec<u64>| v@)
    }

    /// Whether entity `e` was issued and has a component of type `t`.
    pub open spec fn has(self, e: u32, t: u64) -> bool {
        e < self.entity_count() && self.directory()[e as int].contains(t)
    }

    /// Identifiers are of the directory's index type, so the count never
    /// exceeds it.
    pub proof fn lemma_count_bound(&self)
        requires
            self.wf(),
        ensures
            self.entity_count() <= u32::MAX,
    {
    }

    /// A directory with no entities; the first identifier issued will be 0.
    pub fn new() -> (r: Self)
        ensures
            r.wf(),
            r.entity_count() == 0,
    {
        EntityManager { entities: Vec::new(), next_entity_id: 0 }
    }

    /// How many entities have been issued; also the next identifier.
    pub fn entities_issued(&self) -> (r: u32)
        requires
            self.wf(),
        ensures
            r == self.entity_count(),
    {
        self.next_entity_id
    }

    /// Issue the next entity identifier: identifiers start at 0 and increase
    /// by exactly one per creation, with no reuse. The new entity has no
    /// components.
    pub fn create_entity(&mut self) -> (r: u32)
        requires
            old(self).wf(),
            old(self).entity_count() < u32::MAX,
        ensures
            final(self).wf(),
            r == old(self).entity_count(),
            final(self).entity_count() == old(self).entity_count() + 1,
            final(self).directory() =~= old(self).directory().push(Seq::empty()),
    {
        let id = self.next_entity_id;
        self.next_entity_id = self.next_entity_id + 1;
        self.entities.push(Vec::new());
        id
    }

    /// Whether `tokens` holds `token`.
    fn contains_token(tokens: &Vec<u64>, token: u64) -> (r: bool)
        ensures
            r == tokens@.contains(token),
    {
        let mut i: usize = 0;
        while i < tokens.len()
            invariant
                i <= tokens@.len(),
                forall|j: int| 0 <= j < i ==> tokens@[j] != token,
            decreases tokens@.len() - i,
        {
            if tokens[i] == token {
                return true;
            }
            i = i + 1;
        }
        false
    }

    /// Whether entity `entity` has a component of type `token`; fails when
    /// the identifier was never issued.
    pub fn has_component(&self, entity: u32, token: u64) -> (r: Result<bool, DataError>)
        requires
            self.wf(),
        ensures
            entity >= self.entity_count() ==> r == Err::<bool, DataError>(
                DataError::EntityNotFound,
            ),
            entity < self.entity_count() ==> r == Ok::<bool, DataError>(
                self.has(entity, token),
            ),
    {
        if (entity as usize) >= self.entities.len() {
            return Err(DataError::EntityNotFound);
        }
        Ok(Self::contains_token(&self.entities[entity as usize], token))
    }

    /// Record that `entity` now has a component of type `token`; fails when
    /// the identifier was never issued or the type is already recorded.
    pub fn add_component(&mut self, entity: u32, token: u64) -> (r: Result<(), DataError>)
        requires
            old(self).wf(),
        ensures
            final(self).wf(),
            final(self).entity_count() == old(self).entity_count(),
            entity >= old(self).entity_count() ==> r == Err::<(), DataError>(
                DataError::EntityNotFound,
            ) && *final(self) == *old(self),
            entity < old(self).entity_count() && old(self).has(entity, token) ==> r == Err::<
                (),
                DataError,
            >(DataError::ComponentExistsForEntity) && *final(self) == *old(self),
            entity < old(self).entity_count() && !old(self).has(entity, token) ==> r == Ok::<
                (),
                DataError,
            >(()) && final(self).directory() =~= old(self).directory().update(
                entity as int,
                old(self).directory()[entity as int].push(token),
            ),
    {
        if (entity as usize) >= self.entities.len() {
            return Err(DataError::EntityNotFound);
        }
        if Self::contains_token(&self.entities[entity as usize], token) {
            return Err(DataError::ComponentExistsForEntity);
        }
        let ghost olddir = self.entities@;
        let row = &mut self.entities[entity as usize];
        row.push(token);
        proof {
            assert(self.entities@ == olddir.update(
                entity as int,
                self.entities@[entity as int],
            ));
            assert forall|e: int|
                0 <= e < self.entities@.len() && e != entity implies #[trigger] self.entities@[e]
                == olddir[e] by {}
            assert(self.directory() =~= old(self).directory().update(
                entity as int,
                old(self).directory()[entity as int].push(token),
            ));
        }
        Ok(())
    }

    /// The entities whose attached component types cover `c_ids`, scanned
    /// over the whole directory in ascending identifier order. Computed once
    /// per distinct type-set at system registration; entities created later
    /// are not observed.
    pub fn get_archetype(&self, c_ids: &Vec<u64>) -> (r: Vec<u32>)
        requires
            self.wf(),
        ensures
            r@ == matching(self.directory(), c_ids@),
    {
        let mut result: Vec<u32> = Vec::new();
        let mut e: usize = 0;
        while e < self.entities.len()
            invariant
                self.wf(),
                e <= self.entities@.len(),
                result@ == matching_upto(self.directory(), c_ids@, e as int),
            decreases self.entities@.len() - e,
        {
            if Self::covers(&self.entities[e], c_ids) {
                result.push(e as u32);
            }
            e = e + 1;
        }
        result
    }

    /// Whether `tokens` covers every token in `c_ids`.
    fn covers(tokens: &Vec<u64>, c_ids: &Vec<u64>) -> (r: bool)
        ensures
            r == satisfies(tokens@, c_ids@),
    {
        let mut k: usize = 0;
        while k < c_ids.len()
            invariant
                k <= c_ids@.len(),
                forall|j: int| 0 <= j < k ==> tokens@.contains(#[trigger] c_ids@[j]),
            decreases c_ids@.len() - k,
        {
            if !Self::contains_token(tokens, c_ids[k]) {
                return false;
            }
            k = k + 1;
        }
        true
    }
}

} // verus!
