use vstd::prelude::*;

use crate::component::ComponentManager;
use crate::error::{DataError, InternalDataError};

verus! {

/// One atomic access declaration of a query: a read or a write of one
/// component type, named by its token. A whole query specification is a list
/// of these, mirroring the tuple shape a system declares.
#[derive(Clone, Copy, Debug, PartialEq, Eq, Structural)]
pub enum QueryData {
    Read(u64),
    Write(u64),
}

impl QueryData {
    /// The component type this access touches.
    pub open spec fn token_spec(self) -> u64 {
        match self {
            QueryData::Read(t) => t,
            QueryData::Write(t) => t,
        }
    }

    /// Whether this access may mutate the component.
    pub open spec fn is_write_spec(self) -> bool {
        match self {
            QueryData::Read(_) => false,
            QueryData::Write(_) => true,
        }
    }

    /// The component type this access touches.
    pub fn token(&self) -> (r: u64)
        ensures
            r == self.token_spec(),
    {
        match self {
            QueryData::Read(t) => *t,
            QueryData::Write(t) => *t,
        }
    }

    /// Whether this access may mutate the component.
    pub fn is_write(&self) -> (r: bool)
        ensures
            r == self.is_write_spec(),
    {
        match self {
            QueryData::Read(_) => false,
            QueryData::Write(_) => true,
        }
    }
}

/// The component types a query touches, in declaration order.
pub open spec fn component_ids_spec(q: Seq<QueryData>) -> Seq<u64> {
    q.map_values(|a: QueryData| a.token_spec())
}

/// The component types a query touches, in declaration order; used to build
/// the archetype identity.
pub fn component_ids(q: &Vec<QueryData>) -> (r: Vec<u64>)
    ensures
        r@ == component_ids_spec(q@),
{
    let mut r: Vec<u64> = Vec::new();
    let mut i: usize = 0;
    while i < q.len()
        invariant
            i <= q@.len(),
            r@ == component_ids_spec(q@.subrange(0, i as int)),
        decreases q@.len() - i,
    {
        r.push(q[i].token());
        proof {
            assert(q@.subrange(0, i as int + 1) =~= q@.subrange(0, i as int).push(q@[i as int]));
            assert(r@ =~= component_ids_spec(q@.subrange(0, i as int + 1)));
        }
        i = i + 1;
    }
    proof {
        assert(q@.subrange(0, q@.len() as int) =~= q@);
    }
    r
}

/// Whether a token list names the same token twice.
pub open spec fn has_duplicate(s: Seq<u64>) -> bool {
    exists|i: int, j: int| 0 <= i < j < s.len() && s[i] == s[j]
}

/// Whether a token list names the same token twice. A query that does would
/// ask for two borrows of one component under one lock, so registration
/// rejects it.
pub fn tokens_have_duplicate(s: &Vec<u64>) -> (r: bool)
    ensures
        r == has_duplicate(s@),
{
    let mut i: usize = 0;
    while i < s.len()
        invariant
            i <= s@.len(),
            forall|a: int, b: int|
                0 <= a < i && a < b < s@.len() ==> (#[trigger] s@[a]) != (#[trigger] s@[b]),
        decreases s@.len() - i,
    {
        let mut j: usize = i + 1;
        while j < s.len()
            invariant
                i < j,
                j <= s@.len(),
                i < s@.len(),
                forall|b: int| i < b < j ==> s@[i as int] != (#[trigger] s@[b]),
            decreases s@.len() - j,
        {
            if s[i] == s[j] {
                return true;
            }
            j = j + 1;
        }
        i = i + 1;
    }
    false
}

/// What fetching a query for one entity yields: for each access in order,
/// the stored component of that type, or the first failure. A missing row
/// or a missing cell is an internal inconsistency (the cached archetype
/// promised the entity), surfaced as an internal error rather than a crash.
pub open spec fn fetch_spec<V>(m: ComponentManager<V>, q: Seq<QueryData>, entity: u32) -> Result<
    Seq<V>,
    DataError,
>
    decreases q.len(),
{
    if q.len() == 0 {
        Ok(Seq::empty())
    } else {
        let t = q[0].token_spec();
        if !m.has_row(t) {
            Err(DataError::Internal(InternalDataError::ContainerNotFound))
        } else if !m.row_contents(t).contains_key(entity) {
            Err(DataError::Internal(InternalDataError::ComponentMissingForEntity))
        } else {
            match fetch_spec(m, q.skip(1), entity) {
                Ok(rest) => Ok(seq![m.row_contents(t)[entity]] + rest),
                Err(e) => Err(e),
            }
        }
    }
}

/// When the store holds a component of every queried type for an entity, a
/// fetch cannot fail: it yields exactly one value per access, each the
/// stored component of that access's type.
pub proof fn lemma_fetch_total<V>(m: ComponentManager<V>, q: Seq<QueryData>, entity: u32)
    requires
        forall|j: int|
            0 <= j < q.len() ==> m.has_row((#[trigger] q[j]).token_spec()) && m.row_contents(
                q[j].token_spec(),
            ).contains_key(entity),
    ensures
        fetch_spec(m, q, entity) matches Ok(vals) && vals.len() == q.len() && (forall|j: int|
            0 <= j < q.len() ==> vals[j] == m.row_contents((#[trigger] q[j]).token_spec())[entity]),
    decreases q.len(),
{
    if q.len() > 0 {
        assert forall|j: int|
            0 <= j < q.skip(1).len() implies m.has_row((#[trigger] q.skip(1)[j]).token_spec())
            && m.row_contents(q.skip(1)[j].token_spec()).contains_key(entity) by {
            assert(q.skip(1)[j] == q[j + 1]);
        }
        lemma_fetch_total(m, q.skip(1), entity);
        let rest = fetch_spec(m, q.skip(1), entity)->Ok_0;
        let vals = seq![m.row_contents(q[0].token_spec())[entity]] + rest;
        assert forall|j: int|
            0 <= j < q.len() implies vals[j] == m.row_contents(
            (#[trigger] q[j]).token_spec(),
        )[entity] by {
            if j > 0 {
                assert(q.skip(1)[j - 1] == q[j]);
                assert(vals[j] == rest[j - 1]);
            }
        }
    }
}

/// Fetch the bundle a query asks for, for one entity: one component value
/// per access, in declaration order.
pub fn fetch<V: Copy>(m: &ComponentManager<V>, q: &Vec<QueryData>, entity: u32) -> (r: Result<
    Vec<V>,
    DataError,
>)
    requires
        m.wf(),
    ensures
        match fetch_spec(*m, q@, entity) {
            Ok(vals) => r matches Ok(out) && out@ == vals,
            Err(e) => r matches Err(e2) && e2 == e,
        },
{
    let mut out: Vec<V> = Vec::new();
    let mut i: usize = 0;
    proof {
        assert(q@.skip(0) =~= q@);
        if fetch_spec(*m, q@, entity) is Ok {
            assert(Seq::<V>::empty() + fetch_spec(*m, q@, entity)->Ok_0 =~= fetch_spec(
                *m,
                q@,
                entity,
            )->Ok_0);
        }
    }
    while i < q.len()
        invariant
            m.wf(),
            i <= q@.len(),
            fetch_spec(*m, q@, entity) == match fetch_spec(*m, q@.skip(i as int), entity) {
                Ok(rest) => Ok::<Seq<V>, DataError>(out@ + rest),
                Err(e) => Err::<Seq<V>, DataError>(e),
            },
        decreases q@.len() - i,
    {
        let t = q[i].token();
        proof {
            assert(q@.skip(i as int)[0] == q@[i as int]);
            assert(q@.skip(i as int).skip(1) =~= q@.skip(i as int + 1));
        }
        let ghost oldout = out@;
        match m.get(t, entity) {
            Some(v) => {
                out.push(*v);
            },
            None => {
                if !matches!(m.get_container(t), Some(_)) {
                    proof {
                        assert(fetch_spec(*m, q@.skip(i as int), entity) == Err::<Seq<V>, DataError>(
                            DataError::Internal(InternalDataError::ContainerNotFound),
                        ));
                    }
                    return Err(DataError::Internal(InternalDataError::ContainerNotFound));
                }
                proof {
                    assert(fetch_spec(*m, q@.skip(i as int), entity) == Err::<Seq<V>, DataError>(
                        DataError::Internal(InternalDataError::ComponentMissingForEntity),
                    ));
                }
                return Err(DataError::Internal(InternalDataError::ComponentMissingForEntity));
            },
        }
        proof {
            let s_i = q@.skip(i as int);
            let s_i1 = q@.skip(i as int + 1);
            let t_spec = q@[i as int].token_spec();
            let val = m.row_contents(t_spec)[entity];
            assert(m.has_row(t_spec));
            assert(m.row_contents(t_spec).contains_key(entity));
            let r1 = fetch_spec(*m, s_i1, entity);
            assert(fetch_spec(*m, s_i, entity) == match r1 {
                Ok(rest) => Ok::<Seq<V>, DataError>(seq![val] + rest),
                Err(e) => Err::<Seq<V>, DataError>(e),
            });
            assert(out@ == oldout.push(val));
            match r1 {
                Ok(rest) => {
                    assert(oldout + (seq![val] + rest) =~= out@ + rest);
                },
                Err(_) => {},
            }
        }
        i = i + 1;
    }
    proof {
        assert(q@.skip(q@.len() as int) =~= Seq::<QueryData>::empty());
        assert(out@ + Seq::<V>::empty() =~= out@);
    }
    Ok(out)
}

/// What writing a bundle back for one entity yields: for each write access
/// in order, the first failure if its row or cell is missing, else success.
/// Read accesses store nothing.
pub open spec fn write_back_spec<V>(
    m: ComponentManager<V>,
    q: Seq<QueryData>,
    entity: u32,
) -> Result<(), DataError>
    decreases q.len(),
{
    if q.len() == 0 {
        Ok(())
    } else {
        let t = q[0].token_spec();
        if !q[0].is_write_spec() {
            write_back_spec(m, q.skip(1), entity)
        } else if !m.has_row(t) {
            Err(DataError::Internal(InternalDataError::ContainerNotFound))
        } else if !m.row_contents(t).contains_key(entity) {
            Err(DataError::Internal(InternalDataError::ComponentMissingForEntity))
        } else {
            write_back_spec(m, q.skip(1), entity)
        }
    }
}

/// The component types that the first `n` accesses of a query write.
pub open spec fn written_tokens(q: Seq<QueryData>, n: int) -> Set<u64>
    decreases n,
{
    if n <= 0 {
        Set::empty()
    } else {
        let pre = written_tokens(q, n - 1);
        if q[n - 1].is_write_spec() {
            pre.insert(q[n - 1].token_spec())
        } else {
            pre
        }
    }
}

/// A token is among the first `n` written tokens exactly when some write
/// access among the first `n` names it.
pub proof fn lemma_written_tokens(q: Seq<QueryData>, n: int, t: u64)
    requires
        0 <= n <= q.len(),
    ensures
        written_tokens(q, n).contains(t) <==> exists|j: int|
            0 <= j < n && (#[trigger] q[j]).is_write_spec() && q[j].token_spec() == t,
    decreases n,
{
    if n > 0 {
        lemma_written_tokens(q, n - 1, t);
        if written_tokens(q, n).contains(t) {
            if q[n - 1].is_write_spec() && q[n - 1].token_spec() == t {
                assert(0 <= n - 1 < n && q[n - 1].is_write_spec() && q[n - 1].token_spec() == t);
            }
        }
    }
}

/// When writing back succeeds, every write access had found its row and its
/// cell beforehand.
pub proof fn lemma_write_back_ok_present<V>(
    m: ComponentManager<V>,
    q: Seq<QueryData>,
    entity: u32,
    j: int,
)
    requires
        write_back_spec(m, q, entity) is Ok,
        0 <= j < q.len(),
        q[j].is_write_spec(),
    ensures
        m.has_row(q[j].token_spec()),
        m.row_contents(q[j].token_spec()).contains_key(entity),
    decreases j,
{
    if j == 0 {
    } else {
        assert(q.skip(1)[j - 1] == q[j]);
        lemma_write_back_ok_present(m, q.skip(1), entity, j - 1);
    }
}

/// When the store holds a component of every written type for an entity,
/// writing a bundle back cannot fail.
pub proof fn lemma_write_back_total<V>(m: ComponentManager<V>, q: Seq<QueryData>, entity: u32)
    requires
        forall|j: int|
            0 <= j < q.len() && (#[trigger] q[j]).is_write_spec() ==> m.has_row(q[j].token_spec())
                && m.row_contents(q[j].token_spec()).contains_key(entity),
    ensures
        write_back_spec(m, q, entity) is Ok,
    decreases q.len(),
{
    if q.len() > 0 {
        assert forall|j: int|
            0 <= j < q.skip(1).len() && (#[trigger] q.skip(1)[j]).is_write_spec() implies m.has_row(
            q.skip(1)[j].token_spec(),
        ) && m.row_contents(q.skip(1)[j].token_spec()).contains_key(entity) by {
            assert(q.skip(1)[j] == q[j + 1]);
        }
        lemma_write_back_total(m, q.skip(1), entity);
    }
}

/// Store a fetched-and-updated bundle back for one entity: each write access
/// overwrites the stored component of its type with the bundle value at its
/// position; read accesses store nothing. Validation runs first, so on
/// failure nothing has been written.
pub fn write_back<V: Copy>(
    m: &mut ComponentManager<V>,
    q: &Vec<QueryData>,
    entity: u32,
    values: &Vec<V>,
) -> (r: Result<(), DataError>)
    requires
        old(m).wf(),
        !has_duplicate(component_ids_spec(q@)),
        values@.len() == q@.len(),
    ensures
        final(m).wf(),
        forall|t: u64| final(m).has_row(t) == old(m).has_row(t),
        match write_back_spec(*old(m), q@, entity) {
            Err(e) => r == Err::<(), DataError>(e) && (forall|t: u64|
                old(m).has_row(t) ==> final(m).row_contents(t) == old(m).row_contents(t)),
            Ok(()) => r == Ok::<(), DataError>(()) && (forall|j: int|
                0 <= j < q@.len() && (#[trigger] q@[j]).is_write_spec() ==> final(m).row_contents(
                    q@[j].token_spec(),
                ) =~= old(m).row_contents(q@[j].token_spec()).insert(entity, values@[j])) && (
            forall|t: u64|
                !written_tokens(q@, q@.len() as int).contains(t) && old(m).has_row(t)
                    ==> final(m).row_contents(t) == old(m).row_contents(t)),
        },
{
    let mut i: usize = 0;
    proof {
        assert(q@.skip(0) =~= q@);
    }
    while i < q.len()
        invariant
            m.wf(),
            i <= q@.len(),
            *m == *old(m),
            write_back_spec(*m, q@, entity) == write_back_spec(*m, q@.skip(i as int), entity),
            forall|j: int|
                0 <= j < i && (#[trigger] q@[j]).is_write_spec() ==> m.has_row(q@[j].token_spec())
                    && m.row_contents(q@[j].token_spec()).contains_key(entity),
        decreases q@.len() - i,
    {
        proof {
            assert(q@.skip(i as int)[0] == q@[i as int]);
            assert(q@.skip(i as int).skip(1) =~= q@.skip(i as int + 1));
        }
        let a = &q[i];
        if a.is_write() {
            let t = a.token();
            match m.get(t, entity) {
                Some(_) => {},
                None => {
                    if !matches!(m.get_container(t), Some(_)) {
                        return Err(DataError::Internal(InternalDataError::ContainerNotFound));
                    }
                    return Err(
                        DataError::Internal(InternalDataError::ComponentMissingForEntity),
                    );
                },
            }
        }
        i = i + 1;
    }
    proof {
        assert(q@.skip(q@.len() as int) =~= Seq::<QueryData>::empty());
    }
    let ghost m0 = *m;
    let mut k: usize = 0;
    while k < q.len()
        invariant
            m.wf(),
            k <= q@.len(),
            values@.len() == q@.len(),
            m0 == *old(m),
            m0.wf(),
            !has_duplicate(component_ids_spec(q@)),
            forall|j: int|
                0 <= j < q@.len() && (#[trigger] q@[j]).is_write_spec() ==> m0.has_row(
                    q@[j].token_spec(),
                ) && m0.row_contents(q@[j].token_spec()).contains_key(entity),
            forall|t: u64| m.has_row(t) == m0.has_row(t),
            forall|j: int|
                0 <= j < k && (#[trigger] q@[j]).is_write_spec() ==> m.row_contents(
                    q@[j].token_spec(),
                ) =~= m0.row_contents(q@[j].token_spec()).insert(entity, values@[j]),
            forall|t: u64|
                !written_tokens(q@, k as int).contains(t) && m0.has_row(t) ==> m.row_contents(t)
                    == m0.row_contents(t),
        decreases q@.len() - k,
    {
        let a = &q[k];
        proof {
            lemma_written_tokens(q@, k as int, q@[k as int].token_spec());
        }
        if a.is_write() {
            let t = a.token();
            proof {
                assert forall|j: int|
                    0 <= j < k implies !((#[trigger] q@[j]).is_write_spec() && q@[j].token_spec()
                    == q@[k as int].token_spec()) by {
                    if q@[j].is_write_spec() && q@[j].token_spec() == q@[k as int].token_spec() {
                        assert(component_ids_spec(q@)[j] == q@[j].token_spec());
                        assert(component_ids_spec(q@)[k as int] == q@[k as int].token_spec());
                        assert(has_duplicate(component_ids_spec(q@)));
                    }
                }
                assert(!written_tokens(q@, k as int).contains(q@[k as int].token_spec()));
                assert(m.row_contents(q@[k as int].token_spec()) == m0.row_contents(
                    q@[k as int].token_spec(),
                ));
            }
            let res = m.set(t, entity, values[k]);
            match res {
                Ok(()) => {},
                Err(_) => {
                    proof {
                        assert(false);
                    }
                },
            }
            proof {
                assert forall|j: int|
                    0 <= j < k + 1 && (#[trigger] q@[j]).is_write_spec() implies m.row_contents(
                    q@[j].token_spec(),
                ) =~= m0.row_contents(q@[j].token_spec()).insert(entity, values@[j]) by {
                    if j < k {
                        assert(q@[j].token_spec() != q@[k as int].token_spec()) by {
                            assert(component_ids_spec(q@)[j] == q@[j].token_spec());
                            assert(component_ids_spec(q@)[k as int] == q@[k as int].token_spec());
                        }
                    }
                }
                assert forall|t: u64|
                    !written_tokens(q@, k as int + 1).contains(t) && m0.has_row(t) implies m
                    .row_contents(t) == m0.row_contents(t) by {
                    assert(written_tokens(q@, k as int + 1).contains(q@[k as int].token_spec()));
                }
            }
        }
        k = k + 1;
    }
    proof {
        let full = write_back_spec(m0, q@, entity);
        if full is Err {
            assert(false);
        }
    }
    Ok(())
}

/// The per-entity bundles a system iterates over in one cycle: one list of
/// component values per matching entity, in the archetype's entity order.
pub struct Query<V> {
    bundles: Vec<Vec<V>>,
}

impl<V> Query<V> {
    /// The bundles as mathematical sequences.
    pub closed spec fn rows(self) -> Seq<Seq<V>> {
        self.bundles@.map_values(|b: Vec<V>| b@)
    }

    /// Wrap the fetched bundles for iteration by a system callback.
    pub fn new(data: Vec<Vec<V>>) -> (r: Self)
        ensures
            r.rows() == data@.map_values(|b: Vec<V>| b@),
    {
        Query { bundles: data }
    }

    /// How many entities this query matched.
    pub fn len(&self) -> (r: usize)
        ensures
            r == self.rows().len(),
    {
        self.bundles.len()
    }

    /// The bundle for the `i`-th matching entity.
    pub fn get(&self, i: usize) -> (r: &Vec<V>)
        requires
            i < self.rows().len(),
        ensures
            r@ == self.rows()[i as int],
    {
        &self.bundles[i]
    }

    /// Exclusive access to the bundle for the `i`-th matching entity, so a
    /// callback with write access can mutate it in place.
    pub fn get_mut(&mut self, i: usize) -> (r: &mut Vec<V>)
        requires
            i < old(self).rows().len(),
        ensures
            (*r)@ == old(self).rows()[i as int],
            final(self).rows() =~= old(self).rows().update(i as int, (*final(r))@),
    {
        &mut self.bundles[i]
    }

    /// Hand the bundles back, so writes can be stored.
    pub fn into_inner(self) -> (r: Vec<Vec<V>>)
        ensures
            r@.map_values(|b: Vec<V>| b@) == self.rows(),
    {
        self.bundles
    }
}

} // verus!
