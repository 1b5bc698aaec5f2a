//! Guarded access to the attribute reference table, with its cache.
//!
//! Attribute definitions are reference data: shared by every store, read
//! on most catalog operations, and edited only under an `All` grant. No
//! ownership chain applies, so the evaluator is consulted at resource
//! level, without an entity. Reads by id are memoized; an edit invalidates
//! the edited id's cached entry as part of the same operation, and the
//! well-formedness predicate states the resulting coherence: every cached
//! row is exactly what a fresh lookup would find.

use vstd::prelude::*;

use crate::acl::{check, spec_allows, Acl};
use crate::authorization::{Action, Denied, Resource};
use crate::catalog::Catalog;
use crate::products::RepoError;

verus! {

/// How an attribute's values are typed.
#[derive(Clone, Copy, Debug, PartialEq, Eq, Structural)]
pub enum AttributeType {
    Str,
    Float,
}

/// One attribute definition row.
#[derive(Clone, Debug, PartialEq, Eq)]
pub struct AttributeRecord {
    pub id: i32,
    pub name: String,
    pub value_type: AttributeType,
}

/// Payload for creating an attribute definition.
#[derive(Clone, Debug)]
pub struct NewAttribute {
    pub name: String,
    pub value_type: AttributeType,
}

/// Payload for renaming an attribute definition.
#[derive(Clone, Debug)]
pub struct UpdateAttribute {
    pub name: Option<String>,
}

/// The attribute definition rows, with a cache of resolved lookups.
#[derive(Debug)]
pub struct AttributeTable {
    pub rows: Vec<AttributeRecord>,
    pub cache: Vec<AttributeRecord>,
    pub next_id: i32,
}

/// An attribute row as the contracts see it.
pub open spec fn attr_view(a: AttributeRecord) -> (i32, Seq<char>, AttributeType) {
    (a.id, a.name@, a.value_type)
}

/// First row with the given name, if any.
pub open spec fn spec_find_attr_by_name(rows: Seq<AttributeRecord>, name: Seq<char>) -> Option<
    (i32, Seq<char>, AttributeType),
>
    decreases rows.len(),
{
    if rows.len() == 0 {
        None
    } else if rows[0].name@ == name {
        Some(attr_view(rows[0]))
    } else {
        spec_find_attr_by_name(rows.drop_first(), name)
    }
}

/// First row with the given id, if any.
pub open spec fn spec_find_attr(rows: Seq<AttributeRecord>, id: i32) -> Option<
    (i32, Seq<char>, AttributeType),
>
    decreases rows.len(),
{
    if rows.len() == 0 {
        None
    } else if rows[0].id == id {
        Some(attr_view(rows[0]))
    } else {
        spec_find_attr(rows.drop_first(), id)
    }
}

/// A successful lookup returns a row bearing the searched id.
proof fn lemma_find_attr_id(rows: Seq<AttributeRecord>, id: i32)
    ensures
        spec_find_attr(rows, id) matches Some(v) ==> v.0 == id,
    decreases rows.len(),
{
    if rows.len() > 0 && rows[0].id != id {
        lemma_find_attr_id(rows.drop_first(), id);
    }
}

/// A lookup that already succeeds is unchanged by a row appended at the
/// end.
proof fn lemma_find_attr_push(rows: Seq<AttributeRecord>, row: AttributeRecord, id: i32)
    requires
        spec_find_attr(rows, id) is Some,
    ensures
        spec_find_attr(rows.push(row), id) == spec_find_attr(rows, id),
    decreases rows.len(),
{
    assert(rows.len() > 0);
    assert(rows.push(row)[0] == rows[0]);
    if rows[0].id != id {
        assert(rows.push(row).drop_first() =~= rows.drop_first().push(row));
        lemma_find_attr_push(rows.drop_first(), row, id);
    }
}

/// Replacing one row with another of the same id leaves every other id's
/// lookup unchanged.
proof fn lemma_find_attr_update_other(
    rows: Seq<AttributeRecord>,
    k: int,
    row: AttributeRecord,
    id: i32,
)
    requires
        0 <= k < rows.len(),
        row.id == rows[k].id,
        id != rows[k].id,
    ensures
        spec_find_attr(rows.update(k, row), id) == spec_find_attr(rows, id),
    decreases rows.len(),
{
    let updated = rows.update(k, row);
    if k == 0 {
        assert(updated[0] == row);
        assert(updated.drop_first() =~= rows.drop_first());
    } else {
        assert(updated[0] == rows[0]);
        if rows[0].id != id {
            assert(updated.drop_first() =~= rows.drop_first().update(k - 1, row));
            lemma_find_attr_update_other(rows.drop_first(), k - 1, row, id);
        }
    }
}

/// Copies one row; the copy is equal to the row.
fn clone_attribute(a: &AttributeRecord) -> (out: AttributeRecord)
    ensures
        out == *a,
{
    AttributeRecord { id: a.id, name: a.name.clone(), value_type: a.value_type }
}

impl AttributeTable {
    /// Every cached row is exactly what a fresh lookup by its id finds.
    pub open spec fn wf(self) -> bool {
        forall|k: int|
            0 <= k < self.cache@.len() ==> spec_find_attr(
                self.rows@,
                (#[trigger] self.cache@[k]).id,
            ) == Some(attr_view(self.cache@[k]))
    }

    /// An empty table.
    pub fn new() -> (table: AttributeTable)
        ensures
            table.wf(),
            table.rows@.len() == 0,
            table.cache@.len() == 0,
            table.next_id == 1,
    {
        AttributeTable { rows: Vec::new(), cache: Vec::new(), next_id: 1 }
    }

    /// Single-row lookup by id, unguarded and uncached; callers consult
    /// the evaluator.
    pub fn find_by_id(&self, id: i32) -> (found: Option<AttributeRecord>)
        ensures
            match found {
                Some(a) => spec_find_attr(self.rows@, id) == Some(attr_view(a)),
                None => spec_find_attr(self.rows@, id) is None,
            },
    {
        let n = self.rows.len();
        proof {
            assert(self.rows@.skip(0) =~= self.rows@);
        }
        let mut i: usize = 0;
        while i < n
            invariant
                i <= n,
                n == self.rows.len(),
                spec_find_attr(self.rows@, id) == spec_find_attr(self.rows@.skip(i as int), id),
            decreases n - i,
        {
            proof {
                assert(self.rows@.skip(i as int).drop_first() =~= self.rows@.skip(i as int + 1));
                assert(self.rows@.skip(i as int)[0] == self.rows@[i as int]);
            }
            if self.rows[i].id == id {
                proof {
                    assert(spec_find_attr(self.rows@.skip(i as int), id) == Some(
                        attr_view(self.rows@[i as int]),
                    ));
                }
                return Some(clone_attribute(&self.rows[i]));
            }
            i = i + 1;
        }
        proof {
            assert(self.rows@.skip(n as int) =~= Seq::<AttributeRecord>::empty());
        }
        None
    }

    /// Drops every cached entry for `attribute_id`, keeping the others.
    fn invalidate(&mut self, attribute_id: i32)
        ensures
            final(self).rows@ == old(self).rows@,
            final(self).next_id == old(self).next_id,
            forall|k: int|
                0 <= k < final(self).cache@.len() ==> (#[trigger] final(self).cache@[k]).id
                    != attribute_id && old(self).cache@.contains(final(self).cache@[k]),
    {
        let n = self.cache.len();
        let mut kept: Vec<AttributeRecord> = Vec::new();
        let mut k: usize = 0;
        while k < n
            invariant
                k <= n,
                n == self.cache.len(),
                *self == *old(self),
                forall|m: int|
                    0 <= m < kept@.len() ==> (#[trigger] kept@[m]).id != attribute_id && old(
                        self,
                    ).cache@.contains(kept@[m]),
            decreases n - k,
        {
            if self.cache[k].id != attribute_id {
                let entry = clone_attribute(&self.cache[k]);
                kept.push(entry);
                proof {
                    assert(old(self).cache@[k as int] == kept@[kept@.len() - 1]);
                }
            }
            k = k + 1;
        }
        self.cache = kept;
    }
}

/// Finds an attribute definition by name, then asks the evaluator for
/// `Read` on the found row. An absent name is `NotFound`; a refused read
/// is `Denied`.
pub fn find_attribute(
    table: &AttributeTable,
    acl: &Acl,
    catalog: &Catalog,
    name: &String,
) -> (result: Result<AttributeRecord, RepoError>)
    ensures
        match spec_find_attr_by_name(table.rows@, name@) {
            Some(found) => {
                if spec_allows(*acl, *catalog, Resource::Attributes, Action::Read, None) {
                    result matches Ok(a) && attr_view(a) == found
                } else {
                    result == Err::<AttributeRecord, RepoError>(
                        RepoError::Denied(
                            Denied { resource: Resource::Attributes, action: Action::Read },
                        ),
                    )
                }
            },
            None => result == Err::<AttributeRecord, RepoError>(RepoError::NotFound),
        },
{
    let n = table.rows.len();
    proof {
        assert(table.rows@.skip(0) =~= table.rows@);
    }
    let mut i: usize = 0;
    while i < n
        invariant
            i <= n,
            n == table.rows.len(),
            spec_find_attr_by_name(table.rows@, name@) == spec_find_attr_by_name(
                table.rows@.skip(i as int),
                name@,
            ),
        decreases n - i,
    {
        proof {
            assert(table.rows@.skip(i as int).drop_first() =~= table.rows@.skip(i as int + 1));
            assert(table.rows@.skip(i as int)[0] == table.rows@[i as int]);
        }
        if table.rows[i].name == *name {
            proof {
                assert(spec_find_attr_by_name(table.rows@.skip(i as int), name@) == Some(
                    attr_view(table.rows@[i as int]),
                ));
            }
            match check(acl, catalog, Resource::Attributes, Action::Read, None) {
                Ok(()) => {
                    return Ok(clone_attribute(&table.rows[i]));
                },
                Err(denied) => {
                    return Err(RepoError::Denied(denied));
                },
            }
        }
        i = i + 1;
    }
    proof {
        assert(table.rows@.skip(n as int) =~= Seq::<AttributeRecord>::empty());
    }
    Err(RepoError::NotFound)
}

/// Reads an attribute definition by id, serving it from the cache when
/// present and caching it otherwise, then asks the evaluator for `Read`.
/// An absent id is `NotFound`; a refused read is `Denied`. The rows are
/// never touched.
pub fn get_attribute(
    table: &mut AttributeTable,
    acl: &Acl,
    catalog: &Catalog,
    attribute_id: i32,
) -> (result: Result<AttributeRecord, RepoError>)
    requires
        old(table).wf(),
    ensures
        final(table).wf(),
        final(table).rows@ == old(table).rows@,
        final(table).next_id == old(table).next_id,
        match spec_find_attr(old(table).rows@, attribute_id) {
            Some(found) => {
                if spec_allows(*acl, *catalog, Resource::Attributes, Action::Read, None) {
                    result matches Ok(a) && attr_view(a) == found
                } else {
                    result == Err::<AttributeRecord, RepoError>(
                        RepoError::Denied(
                            Denied { resource: Resource::Attributes, action: Action::Read },
                        ),
                    )
                }
            },
            None => result == Err::<AttributeRecord, RepoError>(RepoError::NotFound),
        },
{
    let n = table.cache.len();
    let mut k: usize = 0;
    while k < n
        invariant
            k <= n,
            n == table.cache.len(),
            *table == *old(table),
            old(table).wf(),
        decreases n - k,
    {
        if table.cache[k].id == attribute_id {
            match check(acl, catalog, Resource::Attributes, Action::Read, None) {
                Ok(()) => {
                    return Ok(clone_attribute(&table.cache[k]));
                },
                Err(denied) => {
                    return Err(RepoError::Denied(denied));
                },
            }
        }
        k = k + 1;
    }
    match table.find_by_id(attribute_id) {
        Some(found) => match check(acl, catalog, Resource::Attributes, Action::Read, None) {
            Ok(()) => {
                let entry = clone_attribute(&found);
                table.cache.push(entry);
                proof {
                    assert forall|m: int| 0 <= m < table.cache@.len() implies spec_find_attr(
                        table.rows@,
                        (#[trigger] table.cache@[m]).id,
                    ) == Some(attr_view(table.cache@[m])) by {
                        if m < table.cache@.len() - 1 {
                            assert(table.cache@[m] == old(table).cache@[m]);
                        } else {
                            lemma_find_attr_id(table.rows@, attribute_id);
                            assert(table.cache@[m] == found);
                            assert(found.id == attribute_id);
                        }
                    }
                }
                Ok(found)
            },
            Err(denied) => Err(RepoError::Denied(denied)),
        },
        None => Err(RepoError::NotFound),
    }
}

/// Creates an attribute definition, asking the evaluator for `Create`
/// before touching the table; a refused call changes nothing. The cache
/// needs no invalidation: no cached id is affected by a fresh row.
pub fn create_attribute(
    table: &mut AttributeTable,
    acl: &Acl,
    catalog: &Catalog,
    payload: NewAttribute,
) -> (result: Result<AttributeRecord, Denied>)
    requires
        old(table).wf(),
        old(table).next_id < i32::MAX,
    ensures
        final(table).wf(),
        final(table).cache@ == old(table).cache@,
        if spec_allows(*acl, *catalog, Resource::Attributes, Action::Create, None) {
            &&& result matches Ok(a) && attr_view(a) == (
                old(table).next_id,
                payload.name@,
                payload.value_type,
            )
            &&& result matches Ok(a) && final(table).rows@ == old(table).rows@.push(a)
            &&& final(table).next_id == old(table).next_id + 1
        } else {
            &&& result == Err::<AttributeRecord, Denied>(
                Denied { resource: Resource::Attributes, action: Action::Create },
            )
            &&& final(table).rows@ == old(table).rows@
            &&& final(table).next_id == old(table).next_id
        },
{
    match check(acl, catalog, Resource::Attributes, Action::Create, None) {
        Ok(()) => {
            let row = AttributeRecord {
                id: table.next_id,
                name: payload.name,
                value_type: payload.value_type,
            };
            let result = clone_attribute(&row);
            table.next_id = table.next_id + 1;
            table.rows.push(row);
            proof {
                assert forall|m: int| 0 <= m < table.cache@.len() implies spec_find_attr(
                    table.rows@,
                    (#[trigger] table.cache@[m]).id,
                ) == Some(attr_view(table.cache@[m])) by {
                    assert(table.cache@[m] == old(table).cache@[m]);
                    assert(spec_find_attr(old(table).rows@, table.cache@[m].id) == Some(
                        attr_view(table.cache@[m]),
                    ));
                    assert(table.rows@ == old(table).rows@.push(table.rows@.last()));
                    lemma_find_attr_push(
                        old(table).rows@,
                        table.rows@.last(),
                        table.cache@[m].id,
                    );
                }
            }
            Ok(result)
        },
        Err(denied) => Err(denied),
    }
}

/// Renames an attribute definition: looks the row up, asks the evaluator
/// for `Update`, and only then applies the payload, keeping the fields the
/// payload leaves out and invalidating the id's cached entry in the same
/// operation. A missing row is `NotFound`; a refused call changes nothing.
pub fn update_attribute(
    table: &mut AttributeTable,
    acl: &Acl,
    catalog: &Catalog,
    attribute_id: i32,
    payload: UpdateAttribute,
) -> (result: Result<AttributeRecord, RepoError>)
    requires
        old(table).wf(),
    ensures
        final(table).wf(),
        final(table).next_id == old(table).next_id,
        spec_find_attr(old(table).rows@, attribute_id) is None ==> result == Err::<
            AttributeRecord,
            RepoError,
        >(RepoError::NotFound) && final(table).rows@ == old(table).rows@,
        spec_find_attr(old(table).rows@, attribute_id) matches Some(found) ==> {
            if spec_allows(*acl, *catalog, Resource::Attributes, Action::Update, None) {
                &&& result matches Ok(a) && attr_view(a) == (
                    attribute_id,
                    match payload.name {
                        Some(new_name) => new_name@,
                        None => found.1,
                    },
                    found.2,
                )
                &&& result matches Ok(a) && exists|k: int|
                    0 <= k < old(table).rows@.len() && attr_view(old(table).rows@[k]) == found
                        && old(table).rows@[k].id == attribute_id && final(table).rows@ == old(
                        table,
                    ).rows@.update(k, a)
            } else {
                result == Err::<AttributeRecord, RepoError>(
                    RepoError::Denied(
                        Denied { resource: Resource::Attributes, action: Action::Update },
                    ),
                ) && final(table).rows@ == old(table).rows@
            }
        },
{
    let n = table.rows.len();
    proof {
        assert(table.rows@.skip(0) =~= table.rows@);
    }
    let mut i: usize = 0;
    while i < n
        invariant
            i <= n,
            n == table.rows.len(),
            *table == *old(table),
            old(table).wf(),
            spec_find_attr(table.rows@, attribute_id) == spec_find_attr(
                table.rows@.skip(i as int),
                attribute_id,
            ),
        decreases n - i,
    {
        proof {
            assert(table.rows@.skip(i as int).drop_first() =~= table.rows@.skip(i as int + 1));
            assert(table.rows@.skip(i as int)[0] == table.rows@[i as int]);
        }
        if table.rows[i].id == attribute_id {
            proof {
                assert(spec_find_attr(table.rows@.skip(i as int), attribute_id) == Some(
                    attr_view(table.rows@[i as int]),
                ));
            }
            match check(acl, catalog, Resource::Attributes, Action::Update, None) {
                Ok(()) => {
                    let new_name = match payload.name {
                        Some(name) => name,
                        None => table.rows[i].name.clone(),
                    };
                    let row = AttributeRecord {
                        id: table.rows[i].id,
                        name: new_name,
                        value_type: table.rows[i].value_type,
                    };
                    let result = clone_attribute(&row);
                    table.rows[i] = row;
                    let ghost mid = *table;
                    table.invalidate(attribute_id);
                    proof {
                        assert forall|m: int| 0 <= m < table.cache@.len() implies spec_find_attr(
                            table.rows@,
                            (#[trigger] table.cache@[m]).id,
                        ) == Some(attr_view(table.cache@[m])) by {
                            let entry = table.cache@[m];
                            let j = choose|j: int|
                                0 <= j < mid.cache@.len() && mid.cache@[j] == entry;
                            assert(mid.cache@[j] == old(table).cache@[j]);
                            lemma_find_attr_update_other(
                                old(table).rows@,
                                i as int,
                                mid.rows@[i as int],
                                entry.id,
                            );
                        }
                    }
                    return Ok(result);
                },
                Err(denied) => {
                    return Err(RepoError::Denied(denied));
                },
            }
        }
        i = i + 1;
    }
    proof {
        assert(table.rows@.skip(n as int) =~= Seq::<AttributeRecord>::empty());
    }
    Err(RepoError::NotFound)
}

} // verus!
