//! Repository-style guarded access to product rows.
//!
//! Every accessor consults the evaluator around the row it touches. Reads
//! follow the no-leak rule: a row that exists but fails its read check is
//! reported as not found, exactly as an absent row would be. Mutations
//! check first and leave the catalog untouched when denied; a missing row
//! is `NotFound`, which callers surface identically to an invisible one,
//! and so is a row that is no longer active, since mutations only touch
//! active rows.
//!
//! The listing functions state their order: variants of a base product
//! come newest first (id descending), a page of the product list comes id
//! ascending. Both rest on the catalog holding the rows in primary-key
//! order, as the database hands them out.

use vstd::prelude::*;

use crate::acl::{check, spec_allows, Acl};
use crate::authorization::{Action, Denied, Resource};
use crate::catalog::{
    spec_find_base_product, spec_find_product, spec_products_ordered, BaseProductRecord, Catalog,
    Entity, ProductRecord,
};

verus! {

/// Failure of a repository operation: the row is absent (or invisible), or
/// the evaluator refused the operation.
#[derive(Clone, Copy, Debug, PartialEq, Eq, Structural)]
pub enum RepoError {
    NotFound,
    Denied(Denied),
}

/// Whether the evaluator lets the caller read this product row.
pub open spec fn spec_product_readable(acl: Acl, catalog: Catalog, product: ProductRecord) -> bool {
    spec_allows(acl, catalog, Resource::Products, Action::Read, Some(Entity::Product(product)))
}

/// What a guarded read returns: the row, only if it exists, is active, and
/// passes its read check; `None` otherwise, leaking nothing.
pub open spec fn spec_get_product(acl: Acl, catalog: Catalog, product_id: i32) -> Option<
    ProductRecord,
> {
    match spec_find_product(catalog.products@, product_id) {
        Some(product) => {
            if product.is_active && spec_product_readable(acl, catalog, product) {
                Some(product)
            } else {
                None
            }
        },
        None => None,
    }
}

/// Finds an active product by id, consulting the evaluator on the found
/// row. A row failing its check is treated as not found.
pub fn get_product(catalog: &Catalog, acl: &Acl, product_id: i32) -> (found: Option<ProductRecord>)
    ensures
        found == spec_get_product(*acl, *catalog, product_id),
{
    match catalog.find_product(product_id) {
        Some(product) => {
            if !product.is_active {
                return None;
            }
            let entity = Entity::Product(product);
            match check(acl, catalog, Resource::Products, Action::Read, Some(&entity)) {
                Ok(()) => Some(product),
                Err(_) => None,
            }
        },
        None => None,
    }
}

/// Whether a row belongs under the base product and may be listed: active,
/// matching, and readable by the caller.
pub open spec fn spec_listed_under_base(
    acl: Acl,
    catalog: Catalog,
    row: ProductRecord,
    base_id: i32,
) -> bool {
    row.base_product_id == base_id && row.is_active && spec_product_readable(acl, catalog, row)
}

/// The listable rows under a base product, in reverse row order: with the
/// catalog in primary-key order this is id descending, newest first. Rows
/// failing their read check are silently dropped.
pub open spec fn spec_visible_with_base_desc(
    rows: Seq<ProductRecord>,
    acl: Acl,
    catalog: Catalog,
    base_id: i32,
) -> Seq<ProductRecord>
    decreases rows.len(),
{
    if rows.len() == 0 {
        Seq::empty()
    } else {
        let rest = spec_visible_with_base_desc(rows.drop_last(), acl, catalog, base_id);
        if spec_listed_under_base(acl, catalog, rows.last(), base_id) {
            seq![rows.last()] + rest
        } else {
            rest
        }
    }
}

/// Ids strictly descending.
pub open spec fn spec_sorted_by_id_desc(s: Seq<ProductRecord>) -> bool {
    forall|i: int, j: int| 0 <= i < j < s.len() ==> s[i].id > s[j].id
}

/// Ids strictly ascending.
pub open spec fn spec_sorted_by_id_asc(s: Seq<ProductRecord>) -> bool {
    forall|i: int, j: int| 0 <= i < j < s.len() ==> s[i].id < s[j].id
}

/// Over a catalog in primary-key order, the listable rows of a base
/// product come out with ids strictly descending, each drawn from the
/// rows and no later than the last row.
proof fn lemma_visible_with_base_desc_sorted(
    rows: Seq<ProductRecord>,
    acl: Acl,
    catalog: Catalog,
    base_id: i32,
)
    requires
        spec_products_ordered(rows),
    ensures
        spec_sorted_by_id_desc(spec_visible_with_base_desc(rows, acl, catalog, base_id)),
        rows.len() > 0 ==> forall|k: int|
            0 <= k < spec_visible_with_base_desc(rows, acl, catalog, base_id).len()
                ==> (#[trigger] spec_visible_with_base_desc(rows, acl, catalog, base_id)[k]).id
                <= rows.last().id,
    decreases rows.len(),
{
    if rows.len() > 0 {
        let rest_rows = rows.drop_last();
        assert(spec_products_ordered(rest_rows)) by {
            assert(forall|i: int, j: int|
                0 <= i < j < rest_rows.len() ==> rest_rows[i] == rows[i] && rest_rows[j]
                    == rows[j]);
        }
        lemma_visible_with_base_desc_sorted(rest_rows, acl, catalog, base_id);
        let rest = spec_visible_with_base_desc(rest_rows, acl, catalog, base_id);
        let whole = spec_visible_with_base_desc(rows, acl, catalog, base_id);
        if rest_rows.len() > 0 {
            assert(rest_rows.last() == rows[rows.len() - 2]);
            assert(rest_rows.last().id < rows.last().id);
        }
        if spec_listed_under_base(acl, catalog, rows.last(), base_id) {
            assert(whole == seq![rows.last()] + rest);
            assert(whole[0] == rows.last());
            assert(forall|k: int| 0 <= k < rest.len() ==> whole[k + 1] == rest[k]);
        } else {
            assert(whole == rest);
        }
    }
}

/// Lists the listable variants of one base product, newest first: exactly
/// the active matching rows the caller may read, with ids descending.
pub fn find_with_base_id(catalog: &Catalog, acl: &Acl, base_id: i32) -> (found: Vec<ProductRecord>)
    requires
        spec_products_ordered(catalog.products@),
    ensures
        found@ == spec_visible_with_base_desc(catalog.products@, *acl, *catalog, base_id),
        spec_sorted_by_id_desc(found@),
{
    let mut found: Vec<ProductRecord> = Vec::new();
    let n = catalog.products.len();
    proof {
        assert(catalog.products@.take(n as int) =~= catalog.products@);
        assert(found@ + spec_visible_with_base_desc(
            catalog.products@.take(n as int),
            *acl,
            *catalog,
            base_id,
        ) =~= spec_visible_with_base_desc(catalog.products@, *acl, *catalog, base_id));
    }
    let mut i: usize = n;
    while i > 0
        invariant
            i <= n,
            n == catalog.products.len(),
            spec_visible_with_base_desc(catalog.products@, *acl, *catalog, base_id) == found@
                + spec_visible_with_base_desc(
                catalog.products@.take(i as int),
                *acl,
                *catalog,
                base_id,
            ),
        decreases i,
    {
        i = i - 1;
        proof {
            assert(catalog.products@.take(i as int + 1).drop_last() =~= catalog.products@.take(
                i as int,
            ));
            assert(catalog.products@.take(i as int + 1).last() == catalog.products@[i as int]);
        }
        let row = catalog.products[i];
        if row.base_product_id == base_id && row.is_active {
            let entity = Entity::Product(row);
            match check(acl, catalog, Resource::Products, Action::Read, Some(&entity)) {
                Ok(()) => {
                    found.push(row);
                    proof {
                        assert(found@ + spec_visible_with_base_desc(
                            catalog.products@.take(i as int),
                            *acl,
                            *catalog,
                            base_id,
                        ) =~= found@.drop_last() + (seq![row] + spec_visible_with_base_desc(
                            catalog.products@.take(i as int),
                            *acl,
                            *catalog,
                            base_id,
                        )));
                    }
                },
                Err(_) => {},
            }
        }
    }
    proof {
        assert(catalog.products@.take(0) =~= Seq::<ProductRecord>::empty());
        assert(found@ + Seq::<ProductRecord>::empty() =~= found@);
        lemma_visible_with_base_desc_sorted(catalog.products@, *acl, *catalog, base_id);
    }
    found
}

/// Whether a row qualifies for a page of the product list: active, id at
/// or past the page start, and readable by the caller.
pub open spec fn spec_listed_from(acl: Acl, catalog: Catalog, row: ProductRecord, from: i32) -> bool {
    row.is_active && row.id >= from && spec_product_readable(acl, catalog, row)
}

/// All rows qualifying for the page, in row order: with the catalog in
/// primary-key order this is id ascending.
pub open spec fn spec_list_all(
    rows: Seq<ProductRecord>,
    acl: Acl,
    catalog: Catalog,
    from: i32,
) -> Seq<ProductRecord>
    decreases rows.len(),
{
    if rows.len() == 0 {
        Seq::empty()
    } else {
        let rest = spec_list_all(rows.drop_last(), acl, catalog, from);
        if spec_listed_from(acl, catalog, rows.last(), from) {
            rest.push(rows.last())
        } else {
            rest
        }
    }
}

/// A sequence cut off after `count` elements.
pub open spec fn spec_take_at_most(s: Seq<ProductRecord>, count: int) -> Seq<ProductRecord> {
    if count <= s.len() {
        s.take(count)
    } else {
        s
    }
}

/// Over a catalog in primary-key order, the page rows come out with ids
/// strictly ascending, each drawn from the rows.
proof fn lemma_list_all_sorted(rows: Seq<ProductRecord>, acl: Acl, catalog: Catalog, from: i32)
    requires
        spec_products_ordered(rows),
    ensures
        spec_sorted_by_id_asc(spec_list_all(rows, acl, catalog, from)),
        rows.len() > 0 ==> forall|k: int|
            0 <= k < spec_list_all(rows, acl, catalog, from).len()
                ==> (#[trigger] spec_list_all(rows, acl, catalog, from)[k]).id <= rows.last().id,
    decreases rows.len(),
{
    if rows.len() > 0 {
        let rest_rows = rows.drop_last();
        assert(spec_products_ordered(rest_rows)) by {
            assert(forall|i: int, j: int|
                0 <= i < j < rest_rows.len() ==> rest_rows[i] == rows[i] && rest_rows[j]
                    == rows[j]);
        }
        lemma_list_all_sorted(rest_rows, acl, catalog, from);
        let rest = spec_list_all(rest_rows, acl, catalog, from);
        let whole = spec_list_all(rows, acl, catalog, from);
        if rest_rows.len() > 0 {
            assert(rest_rows.last() == rows[rows.len() - 2]);
            assert(rest_rows.last().id < rows.last().id);
        }
        if spec_listed_from(acl, catalog, rows.last(), from) {
            assert(whole == rest.push(rows.last()));
            assert(forall|k: int| 0 <= k < rest.len() ==> whole[k] == rest[k]);
            assert(whole[whole.len() - 1] == rows.last());
        } else {
            assert(whole == rest);
        }
    }
}

/// Returns one page of the product list: the readable active rows with
/// `id >= from`, id ascending, cut off after `count` rows. Unreadable rows
/// are silently skipped, never reported.
pub fn list_products(catalog: &Catalog, acl: &Acl, from: i32, count: usize) -> (found: Vec<
    ProductRecord,
>)
    requires
        spec_products_ordered(catalog.products@),
    ensures
        found@ == spec_take_at_most(
            spec_list_all(catalog.products@, *acl, *catalog, from),
            count as int,
        ),
        spec_sorted_by_id_asc(found@),
{
    let mut found: Vec<ProductRecord> = Vec::new();
    let n = catalog.products.len();
    proof {
        assert(catalog.products@.take(0) =~= Seq::<ProductRecord>::empty());
    }
    let mut i: usize = 0;
    while i < n
        invariant
            i <= n,
            n == catalog.products.len(),
            found@ == spec_take_at_most(
                spec_list_all(catalog.products@.take(i as int), *acl, *catalog, from),
                count as int,
            ),
            found@.len() <= count,
        decreases n - i,
    {
        proof {
            assert(catalog.products@.take(i as int + 1).drop_last() =~= catalog.products@.take(
                i as int,
            ));
            assert(catalog.products@.take(i as int + 1).last() == catalog.products@[i as int]);
        }
        let ghost part = spec_list_all(catalog.products@.take(i as int), *acl, *catalog, from);
        let row = catalog.products[i];
        if row.is_active && row.id >= from {
            let entity = Entity::Product(row);
            match check(acl, catalog, Resource::Products, Action::Read, Some(&entity)) {
                Ok(()) => {
                    if found.len() < count {
                        proof {
                            assert(found@ == part);
                        }
                        found.push(row);
                        proof {
                            assert(part.push(row).len() <= count);
                            assert(spec_take_at_most(part.push(row), count as int) == part.push(
                                row,
                            ));
                        }
                    } else {
                        proof {
                            assert(count <= part.len());
                            assert(part.push(row).take(count as int) =~= part.take(count as int));
                        }
                    }
                },
                Err(_) => {},
            }
        }
        i = i + 1;
    }
    proof {
        assert(catalog.products@.take(n as int) =~= catalog.products@);
        lemma_list_all_sorted(catalog.products@, *acl, *catalog, from);
        let all = spec_list_all(catalog.products@, *acl, *catalog, from);
        assert(forall|a: int, b: int|
            0 <= a < b < found@.len() ==> found@[a] == all[a] && found@[b] == all[b]);
    }
    found
}

/// Whether the evaluator lets the caller read this base-product row.
pub open spec fn spec_base_product_readable(
    acl: Acl,
    catalog: Catalog,
    base: BaseProductRecord,
) -> bool {
    spec_allows(acl, catalog, Resource::BaseProducts, Action::Read, Some(Entity::BaseProduct(base)))
}

/// The store a product belongs to, walking product to base product,
/// subject to both rows' read checks; any missing or invisible hop yields
/// `None`.
pub fn get_product_store_id(catalog: &Catalog, acl: &Acl, product_id: i32) -> (store_id: Option<
    i32,
>)
    ensures
        store_id == match spec_get_product(*acl, *catalog, product_id) {
            Some(product) => match spec_find_base_product(
                catalog.base_products@,
                product.base_product_id,
            ) {
                Some(base) => {
                    if spec_base_product_readable(*acl, *catalog, base) {
                        Some(base.store_id)
                    } else {
                        None
                    }
                },
                None => None,
            },
            None => None,
        },
{
    match get_product(catalog, acl, product_id) {
        Some(product) => match catalog.find_base_product(product.base_product_id) {
            Some(base) => {
                let entity = Entity::BaseProduct(base);
                match check(acl, catalog, Resource::BaseProducts, Action::Read, Some(&entity)) {
                    Ok(()) => Some(base.store_id),
                    Err(_) => None,
                }
            },
            None => None,
        },
        None => None,
    }
}

/// Deactivates a product: looks the row up, asks the evaluator for
/// `Delete` on it, and only then clears its active flag. A denied call, or
/// a missing row, changes nothing; so does a row that is already inactive,
/// which reports `NotFound`, since only active rows can be deactivated.
pub fn deactivate_product(catalog: &mut Catalog, acl: &Acl, product_id: i32) -> (result: Result<
    ProductRecord,
    RepoError,
>)
    ensures
        final(catalog).stores@ == old(catalog).stores@,
        final(catalog).base_products@ == old(catalog).base_products@,
        spec_find_product(old(catalog).products@, product_id) is None ==> result == Err::<
            ProductRecord,
            RepoError,
        >(RepoError::NotFound) && final(catalog).products@ == old(catalog).products@,
        spec_find_product(old(catalog).products@, product_id) matches Some(product) ==> {
            if spec_allows(
                *acl,
                *old(catalog),
                Resource::Products,
                Action::Delete,
                Some(Entity::Product(product)),
            ) {
                if product.is_active {
                    &&& result matches Ok(row) && row == (ProductRecord {
                        is_active: false,
                        ..product
                    })
                    &&& exists|k: int|
                        0 <= k < old(catalog).products@.len() && old(catalog).products@[k]
                            == product && final(catalog).products@ == old(catalog).products@.update(k, (ProductRecord { is_active: false, ..product }))
                } else {
                    result == Err::<ProductRecord, RepoError>(RepoError::NotFound) && final(catalog).products@ == old(catalog).products@
                }
            } else {
                result == Err::<ProductRecord, RepoError>(
                    RepoError::Denied(
                        Denied { resource: Resource::Products, action: Action::Delete },
                    ),
                ) && final(catalog).products@ == old(catalog).products@
            }
        },
{
    let n = catalog.products.len();
    proof {
        assert(catalog.products@.skip(0) =~= catalog.products@);
    }
    let mut i: usize = 0;
    while i < n
        invariant
            i <= n,
            n == catalog.products.len(),
            *catalog == *old(catalog),
            spec_find_product(catalog.products@, product_id) == spec_find_product(
                catalog.products@.skip(i as int),
                product_id,
            ),
        decreases n - i,
    {
        proof {
            assert(catalog.products@.skip(i as int).drop_first() =~= catalog.products@.skip(
                i as int + 1,
            ));
            assert(catalog.products@.skip(i as int)[0] == catalog.products@[i as int]);
        }
        if catalog.products[i].id == product_id {
            let product = catalog.products[i];
            proof {
                assert(spec_find_product(catalog.products@.skip(i as int), product_id) == Some(
                    catalog.products@[i as int],
                ));
            }
            let entity = Entity::Product(product);
            match check(acl, catalog, Resource::Products, Action::Delete, Some(&entity)) {
                Ok(()) => {
                    if !product.is_active {
                        return Err(RepoError::NotFound);
                    }
                    let row = ProductRecord { is_active: false, ..product };
                    catalog.products[i] = row;
                    return Ok(row);
                },
                Err(denied) => {
                    return Err(RepoError::Denied(denied));
                },
            }
        }
        i = i + 1;
    }
    proof {
        assert(catalog.products@.skip(n as int) =~= Seq::<ProductRecord>::empty());
    }
    Err(RepoError::NotFound)
}

/// Payload for updating a product row; fields left out stay as they are.
#[derive(Clone, Copy, Debug, PartialEq, Eq, Structural)]
pub struct UpdateProduct {
    pub currency: Option<i32>,
}

/// The payload applied to a row.
pub open spec fn spec_apply_update(product: ProductRecord, payload: UpdateProduct) -> ProductRecord {
    ProductRecord {
        currency: match payload.currency {
            Some(currency) => currency,
            None => product.currency,
        },
        ..product
    }
}

/// Updates a product: looks the row up, asks the evaluator for `Update`
/// on it, and only then writes exactly the fields the payload carries. A
/// denied call, or a missing row, changes nothing; so does a row that is
/// no longer active, which reports `NotFound`.
pub fn update_product(
    catalog: &mut Catalog,
    acl: &Acl,
    product_id: i32,
    payload: UpdateProduct,
) -> (result: Result<ProductRecord, RepoError>)
    ensures
        final(catalog).stores@ == old(catalog).stores@,
        final(catalog).base_products@ == old(catalog).base_products@,
        spec_find_product(old(catalog).products@, product_id) is None ==> result == Err::<
            ProductRecord,
            RepoError,
        >(RepoError::NotFound) && final(catalog).products@ == old(catalog).products@,
        spec_find_product(old(catalog).products@, product_id) matches Some(product) ==> {
            if spec_allows(
                *acl,
                *old(catalog),
                Resource::Products,
                Action::Update,
                Some(Entity::Product(product)),
            ) {
                if product.is_active {
                    &&& result matches Ok(row) && row == spec_apply_update(product, payload)
                    &&& exists|k: int|
                        0 <= k < old(catalog).products@.len() && old(catalog).products@[k]
                            == product && final(catalog).products@ == old(catalog).products@.update(k, spec_apply_update(product, payload))
                } else {
                    result == Err::<ProductRecord, RepoError>(RepoError::NotFound) && final(catalog).products@ == old(catalog).products@
                }
            } else {
                result == Err::<ProductRecord, RepoError>(
                    RepoError::Denied(
                        Denied { resource: Resource::Products, action: Action::Update },
                    ),
                ) && final(catalog).products@ == old(catalog).products@
            }
        },
{
    let n = catalog.products.len();
    proof {
        assert(catalog.products@.skip(0) =~= catalog.products@);
    }
    let mut i: usize = 0;
    while i < n
        invariant
            i <= n,
            n == catalog.products.len(),
            *catalog == *old(catalog),
            spec_find_product(catalog.products@, product_id) == spec_find_product(
                catalog.products@.skip(i as int),
                product_id,
            ),
        decreases n - i,
    {
        proof {
            assert(catalog.products@.skip(i as int).drop_first() =~= catalog.products@.skip(
                i as int + 1,
            ));
            assert(catalog.products@.skip(i as int)[0] == catalog.products@[i as int]);
        }
        if catalog.products[i].id == product_id {
            let product = catalog.products[i];
            proof {
                assert(spec_find_product(catalog.products@.skip(i as int), product_id) == Some(
                    catalog.products@[i as int],
                ));
            }
            let entity = Entity::Product(product);
            match check(acl, catalog, Resource::Products, Action::Update, Some(&entity)) {
                Ok(()) => {
                    if !product.is_active {
                        return Err(RepoError::NotFound);
                    }
                    let row = ProductRecord {
                        currency: match payload.currency {
                            Some(currency) => currency,
                            None => product.currency,
                        },
                        ..product
                    };
                    catalog.products[i] = row;
                    return Ok(row);
                },
                Err(denied) => {
                    return Err(RepoError::Denied(denied));
                },
            }
        }
        i = i + 1;
    }
    proof {
        assert(catalog.products@.skip(n as int) =~= Seq::<ProductRecord>::empty());
    }
    Err(RepoError::NotFound)
}

/// Whether a currency change touches this row: an active variant of the
/// base product.
pub open spec fn spec_affected(row: ProductRecord, base_id: i32) -> bool {
    row.is_active && row.base_product_id == base_id
}

/// The row after the currency change: touched rows get the new currency,
/// the rest stay as they are.
pub open spec fn spec_with_currency(row: ProductRecord, base_id: i32, currency: i32) -> ProductRecord {
    if spec_affected(row, base_id) {
        ProductRecord { currency, ..row }
    } else {
        row
    }
}

/// How many rows the change touches.
pub open spec fn spec_affected_count(rows: Seq<ProductRecord>, base_id: i32) -> int
    decreases rows.len(),
{
    if rows.len() == 0 {
        0
    } else {
        spec_affected_count(rows.drop_last(), base_id) + if spec_affected(rows.last(), base_id) {
            1int
        } else {
            0int
        }
    }
}

/// Sets the currency on every active variant of a base product and
/// returns how many rows were touched. Every touched row must first pass
/// its `(Products, Read)` check; if any fails, nothing changes and the
/// call is denied.
pub fn update_currency(
    catalog: &mut Catalog,
    acl: &Acl,
    currency: i32,
    base_product_id: i32,
) -> (result: Result<usize, Denied>)
    ensures
        final(catalog).stores@ == old(catalog).stores@,
        final(catalog).base_products@ == old(catalog).base_products@,
        if forall|k: int|
            0 <= k < old(catalog).products@.len() && spec_affected(
                #[trigger] old(catalog).products@[k],
                base_product_id,
            ) ==> spec_product_readable(*acl, *old(catalog), old(catalog).products@[k]) {
            &&& result matches Ok(touched) && touched == spec_affected_count(
                old(catalog).products@,
                base_product_id,
            )
            &&& final(catalog).products@ == old(catalog).products@.map_values(
                |row: ProductRecord| spec_with_currency(row, base_product_id, currency),
            )
        } else {
            result == Err::<usize, Denied>(
                Denied { resource: Resource::Products, action: Action::Read },
            ) && final(catalog).products@ == old(catalog).products@
        },
{
    let n = catalog.products.len();
    proof {
        assert(catalog.products@.take(0) =~= Seq::<ProductRecord>::empty());
    }
    let mut touched: usize = 0;
    let mut i: usize = 0;
    while i < n
        invariant
            i <= n,
            n == catalog.products.len(),
            *catalog == *old(catalog),
            touched == spec_affected_count(catalog.products@.take(i as int), base_product_id),
            touched <= i,
            forall|k: int|
                0 <= k < i && spec_affected(#[trigger] catalog.products@[k], base_product_id)
                    ==> spec_product_readable(*acl, *catalog, catalog.products@[k]),
        decreases n - i,
    {
        proof {
            assert(catalog.products@.take(i as int + 1).drop_last() =~= catalog.products@.take(
                i as int,
            ));
            assert(catalog.products@.take(i as int + 1).last() == catalog.products@[i as int]);
        }
        let row = catalog.products[i];
        if row.is_active && row.base_product_id == base_product_id {
            let entity = Entity::Product(row);
            match check(acl, catalog, Resource::Products, Action::Read, Some(&entity)) {
                Ok(()) => {
                    touched = touched + 1;
                },
                Err(_) => {
                    return Err(Denied { resource: Resource::Products, action: Action::Read });
                },
            }
        }
        i = i + 1;
    }
    proof {
        assert(catalog.products@.take(n as int) =~= catalog.products@);
    }
    let mut j: usize = 0;
    while j < n
        invariant
            j <= n,
            n == catalog.products@.len(),
            catalog.stores@ == old(catalog).stores@,
            catalog.base_products@ == old(catalog).base_products@,
            forall|k: int|
                0 <= k < j ==> #[trigger] catalog.products@[k] == spec_with_currency(
                    old(catalog).products@[k],
                    base_product_id,
                    currency,
                ),
            forall|k: int| j <= k < n ==> #[trigger] catalog.products@[k] == old(catalog).products@[k],
        decreases n - j,
    {
        let row = catalog.products[j];
        if row.is_active && row.base_product_id == base_product_id {
            catalog.products[j] = ProductRecord { currency, ..row };
        }
        j = j + 1;
    }
    proof {
        assert(catalog.products@ =~= old(catalog).products@.map_values(
            |row: ProductRecord| spec_with_currency(row, base_product_id, currency),
        ));
    }
    Ok(touched)
}

} // verus!
