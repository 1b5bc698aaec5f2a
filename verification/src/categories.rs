//! Category rows, category-attribute links, and their guarded operations.
//!
//! A category names the attributes its products may carry through link
//! rows `(category, attribute)`. Categories are reference data, so the
//! evaluator is consulted at resource level: editing demands the
//! corresponding grant on `Categories`, and reading the attributes of
//! a category demands read access to both the links and the attribute
//! definitions they point at.
//!
//! The category rows themselves are read on nearly every request, so the
//! whole set is cached; any edit clears the cache in the same operation,
//! and the store's well-formedness predicate states the coherence: a
//! present cache equals the rows.

use vstd::prelude::*;

use crate::acl::{check, spec_allows, Acl};
use crate::attributes::{attr_view, spec_find_attr, AttributeRecord, AttributeTable, AttributeType};
use crate::authorization::{Action, Denied, Resource};
use crate::catalog::Catalog;
use crate::products::RepoError;

verus! {

/// One category row, as the tree endpoints read it: its place among the
/// categories and its display name.
#[derive(Clone, Debug, PartialEq, Eq)]
pub struct CategoryRecord {
    pub id: i32,
    pub parent_id: Option<i32>,
    pub level: i32,
    pub name: String,
}

/// Payload for creating a category.
#[derive(Clone, Debug)]
pub struct NewCategory {
    pub name: String,
    pub parent_id: Option<i32>,
    pub level: i32,
}

/// Payload for updating a category; fields left out stay as they are.
#[derive(Clone, Debug)]
pub struct UpdateCategory {
    pub name: Option<String>,
    pub parent_id: Option<i32>,
    pub level: Option<i32>,
}

/// The category rows with a cache of the whole set.
#[derive(Debug)]
pub struct CategoryStore {
    pub rows: Vec<CategoryRecord>,
    pub cache: Option<Vec<CategoryRecord>>,
    pub next_id: i32,
}

/// First category row with the given id, if any.
pub open spec fn spec_find_category(rows: Seq<CategoryRecord>, id: i32) -> Option<CategoryRecord>
    decreases rows.len(),
{
    if rows.len() == 0 {
        None
    } else if rows[0].id == id {
        Some(rows[0])
    } else {
        spec_find_category(rows.drop_first(), id)
    }
}

/// The payload applied to a row.
pub open spec fn spec_apply_category_update(
    row: CategoryRecord,
    payload: UpdateCategory,
) -> CategoryRecord {
    CategoryRecord {
        id: row.id,
        parent_id: match payload.parent_id {
            Some(parent_id) => Some(parent_id),
            None => row.parent_id,
        },
        level: match payload.level {
            Some(level) => level,
            None => row.level,
        },
        name: match payload.name {
            Some(name) => name,
            None => row.name,
        },
    }
}

/// Copies one category row; the copy is equal to the row.
fn clone_category(row: &CategoryRecord) -> (out: CategoryRecord)
    ensures
        out == *row,
{
    CategoryRecord {
        id: row.id,
        parent_id: row.parent_id,
        level: row.level,
        name: row.name.clone(),
    }
}

/// Copies a list of category rows; the copy equals the list.
fn clone_categories(rows: &Vec<CategoryRecord>) -> (out: Vec<CategoryRecord>)
    ensures
        out@ == rows@,
{
    let mut out: Vec<CategoryRecord> = Vec::new();
    let n = rows.len();
    let mut i: usize = 0;
    while i < n
        invariant
            i <= n,
            n == rows.len(),
            out@ == rows@.take(i as int),
        decreases n - i,
    {
        let entry = clone_category(&rows[i]);
        out.push(entry);
        proof {
            assert(rows@.take(i as int + 1) =~= rows@.take(i as int).push(rows@[i as int]));
        }
        i = i + 1;
    }
    proof {
        assert(rows@.take(n as int) =~= rows@);
    }
    out
}

impl CategoryStore {
    /// A present cache holds exactly the rows.
    pub open spec fn wf(self) -> bool {
        self.cache matches Some(cached) ==> cached@ == self.rows@
    }

    /// An empty store.
    pub fn new() -> (store: CategoryStore)
        ensures
            store.wf(),
            store.rows@.len() == 0,
            store.cache is None,
            store.next_id == 1,
    {
        CategoryStore { rows: Vec::new(), cache: None, next_id: 1 }
    }

    /// Returns every category row, serving the set from the cache when
    /// present and filling the cache otherwise. The rows are never
    /// touched, and the result always equals them.
    pub fn get_all(&mut self) -> (tree: Vec<CategoryRecord>)
        requires
            old(self).wf(),
        ensures
            final(self).wf(),
            final(self).rows@ == old(self).rows@,
            final(self).next_id == old(self).next_id,
            tree@ == old(self).rows@,
            final(self).cache is Some,
    {
        let refreshed = match &self.cache {
            Some(cached) => clone_categories(cached),
            None => clone_categories(&self.rows),
        };
        let tree = clone_categories(&refreshed);
        self.cache = Some(refreshed);
        tree
    }

    /// Creates a category, asking the evaluator for `Create` before
    /// touching anything; success clears the cache in the same operation,
    /// a refused call changes nothing.
    pub fn create(&mut self, acl: &Acl, catalog: &Catalog, payload: NewCategory) -> (result: Result<
        CategoryRecord,
        Denied,
    >)
        requires
            old(self).wf(),
            old(self).next_id < i32::MAX,
        ensures
            final(self).wf(),
            if spec_allows(*acl, *catalog, Resource::Categories, Action::Create, None) {
                &&& result matches Ok(row) && row == (CategoryRecord {
                    id: old(self).next_id,
                    parent_id: payload.parent_id,
                    level: payload.level,
                    name: payload.name,
                })
                &&& result matches Ok(row) && final(self).rows@ == old(self).rows@.push(row)
                &&& final(self).next_id == old(self).next_id + 1
                &&& final(self).cache is None
            } else {
                &&& result == Err::<CategoryRecord, Denied>(
                    Denied { resource: Resource::Categories, action: Action::Create },
                )
                &&& final(self).rows@ == old(self).rows@
                &&& final(self).next_id == old(self).next_id
                &&& final(self).cache == old(self).cache
            },
    {
        match check(acl, catalog, Resource::Categories, Action::Create, None) {
            Ok(()) => {
                let row = CategoryRecord {
                    id: self.next_id,
                    parent_id: payload.parent_id,
                    level: payload.level,
                    name: payload.name,
                };
                let result = clone_category(&row);
                self.next_id = self.next_id + 1;
                self.rows.push(row);
                self.cache = None;
                Ok(result)
            },
            Err(denied) => Err(denied),
        }
    }

    /// Updates a category: looks the row up, asks the evaluator for
    /// `Update`, and only then applies the payload, keeping the fields the
    /// payload leaves out and clearing the cache in the same operation. A
    /// missing row is `NotFound`; a refused call changes nothing.
    pub fn update(
        &mut self,
        acl: &Acl,
        catalog: &Catalog,
        category_id: i32,
        payload: UpdateCategory,
    ) -> (result: Result<CategoryRecord, RepoError>)
        requires
            old(self).wf(),
        ensures
            final(self).wf(),
            final(self).next_id == old(self).next_id,
            spec_find_category(old(self).rows@, category_id) is None ==> result == Err::<
                CategoryRecord,
                RepoError,
            >(RepoError::NotFound) && final(self).rows@ == old(self).rows@ && final(self).cache
                == old(self).cache,
            spec_find_category(old(self).rows@, category_id) matches Some(found) ==> {
                if spec_allows(*acl, *catalog, Resource::Categories, Action::Update, None) {
                    &&& result matches Ok(row) && row == spec_apply_category_update(found, payload)
                    &&& result matches Ok(row) && exists|k: int|
                        0 <= k < old(self).rows@.len() && old(self).rows@[k] == found && final(self).rows@ == old(self).rows@.update(k, row)
                    &&& final(self).cache is None
                } else {
                    result == Err::<CategoryRecord, RepoError>(
                        RepoError::Denied(
                            Denied { resource: Resource::Categories, action: Action::Update },
                        ),
                    ) && final(self).rows@ == old(self).rows@ && final(self).cache == old(self).cache
                }
            },
    {
        let n = self.rows.len();
        proof {
            assert(self.rows@.skip(0) =~= self.rows@);
        }
        let mut i: usize = 0;
        while i < n
            invariant
                i <= n,
                n == self.rows.len(),
                *self == *old(self),
                old(self).wf(),
                spec_find_category(self.rows@, category_id) == spec_find_category(
                    self.rows@.skip(i as int),
                    category_id,
                ),
            decreases n - i,
        {
            proof {
                assert(self.rows@.skip(i as int).drop_first() =~= self.rows@.skip(i as int + 1));
                assert(self.rows@.skip(i as int)[0] == self.rows@[i as int]);
            }
            if self.rows[i].id == category_id {
                proof {
                    assert(spec_find_category(self.rows@.skip(i as int), category_id) == Some(
                        self.rows@[i as int],
                    ));
                }
                match check(acl, catalog, Resource::Categories, Action::Update, None) {
                    Ok(()) => {
                        let row = CategoryRecord {
                            id: self.rows[i].id,
                            parent_id: match payload.parent_id {
                                Some(parent_id) => Some(parent_id),
                                None => self.rows[i].parent_id,
                            },
                            level: match payload.level {
                                Some(level) => level,
                                None => self.rows[i].level,
                            },
                            name: match payload.name {
                                Some(name) => name,
                                None => self.rows[i].name.clone(),
                            },
                        };
                        let result = clone_category(&row);
                        self.rows[i] = row;
                        self.cache = None;
                        return Ok(result);
                    },
                    Err(denied) => {
                        return Err(RepoError::Denied(denied));
                    },
                }
            }
            i = i + 1;
        }
        proof {
            assert(self.rows@.skip(n as int) =~= Seq::<CategoryRecord>::empty());
        }
        Err(RepoError::NotFound)
    }
}

/// One category-attribute link row.
#[derive(Clone, Copy, Debug, PartialEq, Eq, Structural)]
pub struct CatAttr {
    pub id: i32,
    pub cat_id: i32,
    pub attr_id: i32,
}

/// Payload for linking an attribute to a category.
#[derive(Clone, Copy, Debug, PartialEq, Eq, Structural)]
pub struct NewCatAttr {
    pub cat_id: i32,
    pub attr_id: i32,
}

/// Payload for unlinking an attribute from a category.
#[derive(Clone, Copy, Debug, PartialEq, Eq, Structural)]
pub struct OldCatAttr {
    pub cat_id: i32,
    pub attr_id: i32,
}

/// The link rows.
#[derive(Debug)]
pub struct CategoryAttrsTable {
    pub rows: Vec<CatAttr>,
    pub next_id: i32,
}

/// The attribute ids linked to a category, in row order.
pub open spec fn spec_links(rows: Seq<CatAttr>, cat_id: i32) -> Seq<i32>
    decreases rows.len(),
{
    if rows.len() == 0 {
        Seq::empty()
    } else {
        let rest = spec_links(rows.drop_last(), cat_id);
        if rows.last().cat_id == cat_id {
            rest.push(rows.last().attr_id)
        } else {
            rest
        }
    }
}

/// The link rows left after unlinking `(cat_id, attr_id)`.
pub open spec fn spec_remove_link(rows: Seq<CatAttr>, cat_id: i32, attr_id: i32) -> Seq<CatAttr>
    decreases rows.len(),
{
    if rows.len() == 0 {
        Seq::empty()
    } else {
        let rest = spec_remove_link(rows.drop_last(), cat_id, attr_id);
        if rows.last().cat_id == cat_id && rows.last().attr_id == attr_id {
            rest
        } else {
            rest.push(rows.last())
        }
    }
}

/// The attribute rows behind a list of links: one per link, each found in
/// the definition table, or nothing if any link points at a missing row.
pub open spec fn spec_attrs_for(links: Seq<i32>, attrs: Seq<AttributeRecord>) -> Option<
    Seq<(i32, Seq<char>, AttributeType)>,
>
    decreases links.len(),
{
    if links.len() == 0 {
        Some(Seq::empty())
    } else {
        match spec_attrs_for(links.drop_last(), attrs) {
            Some(rest) => match spec_find_attr(attrs, links.last()) {
                Some(found) => Some(rest.push(found)),
                None => None,
            },
            None => None,
        }
    }
}

/// A failed lookup anywhere in a link prefix fails the whole list.
proof fn lemma_attrs_for_none_prefix(links: Seq<i32>, attrs: Seq<AttributeRecord>, i: int)
    requires
        0 <= i <= links.len(),
        spec_attrs_for(links.take(i), attrs) is None,
    ensures
        spec_attrs_for(links, attrs) is None,
    decreases links.len() - i,
{
    if i < links.len() {
        assert(links.take(i + 1).drop_last() =~= links.take(i));
        lemma_attrs_for_none_prefix(links, attrs, i + 1);
    } else {
        assert(links.take(i) =~= links);
    }
}

impl CategoryAttrsTable {
    /// An empty table.
    pub fn new() -> (table: CategoryAttrsTable)
        ensures
            table.rows@.len() == 0,
            table.next_id == 1,
    {
        CategoryAttrsTable { rows: Vec::new(), next_id: 1 }
    }
}

/// Links an attribute to a category, asking the evaluator for `Create` on
/// `Categories` first; a refused call changes nothing.
pub fn add_attribute_to_category(
    table: &mut CategoryAttrsTable,
    acl: &Acl,
    catalog: &Catalog,
    payload: NewCatAttr,
) -> (result: Result<(), Denied>)
    requires
        old(table).next_id < i32::MAX,
    ensures
        if spec_allows(*acl, *catalog, Resource::Categories, Action::Create, None) {
            &&& result is Ok
            &&& final(table).rows@ == old(table).rows@.push(
                CatAttr {
                    id: old(table).next_id,
                    cat_id: payload.cat_id,
                    attr_id: payload.attr_id,
                },
            )
            &&& final(table).next_id == old(table).next_id + 1
        } else {
            &&& result == Err::<(), Denied>(
                Denied { resource: Resource::Categories, action: Action::Create },
            )
            &&& final(table).rows@ == old(table).rows@
            &&& final(table).next_id == old(table).next_id
        },
{
    match check(acl, catalog, Resource::Categories, Action::Create, None) {
        Ok(()) => {
            let row = CatAttr {
                id: table.next_id,
                cat_id: payload.cat_id,
                attr_id: payload.attr_id,
            };
            table.next_id = table.next_id + 1;
            table.rows.push(row);
            Ok(())
        },
        Err(denied) => Err(denied),
    }
}

/// Unlinks an attribute from a category, removing every matching link
/// row, after asking the evaluator for `Delete` on `Categories`; a refused
/// call changes nothing. Unlinking an absent pair removes nothing and
/// still succeeds.
pub fn delete_attribute_from_category(
    table: &mut CategoryAttrsTable,
    acl: &Acl,
    catalog: &Catalog,
    payload: OldCatAttr,
) -> (result: Result<(), Denied>)
    ensures
        final(table).next_id == old(table).next_id,
        if spec_allows(*acl, *catalog, Resource::Categories, Action::Delete, None) {
            result is Ok && final(table).rows@ == spec_remove_link(
                old(table).rows@,
                payload.cat_id,
                payload.attr_id,
            )
        } else {
            result == Err::<(), Denied>(
                Denied { resource: Resource::Categories, action: Action::Delete },
            ) && final(table).rows@ == old(table).rows@
        },
{
    match check(acl, catalog, Resource::Categories, Action::Delete, None) {
        Ok(()) => {
            let n = table.rows.len();
            let mut kept: Vec<CatAttr> = Vec::new();
            let mut i: usize = 0;
            while i < n
                invariant
                    i <= n,
                    n == table.rows.len(),
                    *table == *old(table),
                    kept@ == spec_remove_link(
                        table.rows@.take(i as int),
                        payload.cat_id,
                        payload.attr_id,
                    ),
                decreases n - i,
            {
                proof {
                    assert(table.rows@.take(i as int + 1).drop_last() =~= table.rows@.take(
                        i as int,
                    ));
                    assert(table.rows@.take(i as int + 1).last() == table.rows@[i as int]);
                }
                let row = table.rows[i];
                if !(row.cat_id == payload.cat_id && row.attr_id == payload.attr_id) {
                    kept.push(row);
                }
                i = i + 1;
            }
            proof {
                assert(table.rows@.take(n as int) =~= table.rows@);
            }
            table.rows = kept;
            Ok(())
        },
        Err(denied) => Err(denied),
    }
}

/// The attributes linked to a category: reads the links, then each linked
/// definition. Either read may be refused by the evaluator; a link
/// pointing at a missing definition fails the whole call as `NotFound`.
pub fn find_all_attributes(
    table: &CategoryAttrsTable,
    attrs: &AttributeTable,
    acl: &Acl,
    catalog: &Catalog,
    cat_id: i32,
) -> (result: Result<Vec<AttributeRecord>, RepoError>)
    ensures
        !spec_allows(*acl, *catalog, Resource::Categories, Action::Read, None) ==> result == Err::<
            Vec<AttributeRecord>,
            RepoError,
        >(RepoError::Denied(Denied { resource: Resource::Categories, action: Action::Read })),
        spec_allows(*acl, *catalog, Resource::Categories, Action::Read, None) && !spec_allows(
            *acl,
            *catalog,
            Resource::Attributes,
            Action::Read,
            None,
        ) ==> result == Err::<Vec<AttributeRecord>, RepoError>(
            RepoError::Denied(Denied { resource: Resource::Attributes, action: Action::Read }),
        ),
        spec_allows(*acl, *catalog, Resource::Categories, Action::Read, None) && spec_allows(
            *acl,
            *catalog,
            Resource::Attributes,
            Action::Read,
            None,
        ) ==> match spec_attrs_for(spec_links(table.rows@, cat_id), attrs.rows@) {
            Some(found) => result matches Ok(out) && out@.len() == found.len() && (forall|k: int|
                0 <= k < found.len() ==> attr_view(#[trigger] out@[k]) == found[k]),
            None => result == Err::<Vec<AttributeRecord>, RepoError>(RepoError::NotFound),
        },
{
    if let Err(denied) = check(acl, catalog, Resource::Categories, Action::Read, None) {
        return Err(RepoError::Denied(denied));
    }
    if let Err(denied) = check(acl, catalog, Resource::Attributes, Action::Read, None) {
        return Err(RepoError::Denied(denied));
    }
    let mut links: Vec<i32> = Vec::new();
    let n = table.rows.len();
    let mut i: usize = 0;
    while i < n
        invariant
            i <= n,
            n == table.rows.len(),
            links@ == spec_links(table.rows@.take(i as int), cat_id),
        decreases n - i,
    {
        proof {
            assert(table.rows@.take(i as int + 1).drop_last() =~= table.rows@.take(i as int));
            assert(table.rows@.take(i as int + 1).last() == table.rows@[i as int]);
        }
        if table.rows[i].cat_id == cat_id {
            links.push(table.rows[i].attr_id);
        }
        i = i + 1;
    }
    proof {
        assert(table.rows@.take(n as int) =~= table.rows@);
    }
    let mut out: Vec<AttributeRecord> = Vec::new();
    let total = links.len();
    let mut k: usize = 0;
    while k < total
        invariant
            k <= total,
            total == links.len(),
            spec_allows(*acl, *catalog, Resource::Categories, Action::Read, None),
            spec_allows(*acl, *catalog, Resource::Attributes, Action::Read, None),
            links@ == spec_links(table.rows@, cat_id),
            spec_attrs_for(links@.take(k as int), attrs.rows@) matches Some(part)
                && out@.len() == part.len() && (forall|m: int|
                0 <= m < part.len() ==> attr_view(#[trigger] out@[m]) == part[m]),
        decreases total - k,
    {
        proof {
            assert(links@.take(k as int + 1).drop_last() =~= links@.take(k as int));
            assert(links@.take(k as int + 1).last() == links@[k as int]);
        }
        match attrs.find_by_id(links[k]) {
            Some(found) => {
                out.push(found);
            },
            None => {
                proof {
                    lemma_attrs_for_none_prefix(links@, attrs.rows@, k as int + 1);
                }
                return Err(RepoError::NotFound);
            },
        }
        k = k + 1;
    }
    proof {
        assert(links@.take(total as int) =~= links@);
    }
    Ok(out)
}

} // verus!
