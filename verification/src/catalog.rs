//! Entity records and ownership-chain resolution.
//!
//! Each record carries only what authorization reads: the row id and the
//! foreign key of the next hop. The chain is fixed per entity kind:
//! a product attribute points at a product, a product at a base product,
//! a base product at a store, and a store names its owning user directly.
//! Resolution either reaches the owning user or fails at a missing row;
//! a failed resolution is never treated as ownership.

use vstd::prelude::*;

verus! {

/// A store row; the terminal hop of every ownership chain.
#[derive(Clone, Copy, Debug, PartialEq, Eq, Structural)]
pub struct StoreRecord {
    pub id: i32,
    pub user_id: i32,
}

/// A base-product row, owned through its store.
#[derive(Clone, Copy, Debug, PartialEq, Eq, Structural)]
pub struct BaseProductRecord {
    pub id: i32,
    pub store_id: i32,
}

/// A product variant row, owned through its base product. The currency is
/// carried as its numeric code.
#[derive(Clone, Copy, Debug, PartialEq, Eq, Structural)]
pub struct ProductRecord {
    pub id: i32,
    pub base_product_id: i32,
    pub is_active: bool,
    pub currency: i32,
}

/// A product-attribute-value row, owned through its product.
#[derive(Clone, Copy, Debug, PartialEq, Eq, Structural)]
pub struct ProdAttrRecord {
    pub id: i32,
    pub prod_id: i32,
    pub attr_id: i32,
}

/// The rows the ownership chains run through, as fetched for a request.
#[derive(Debug)]
pub struct Catalog {
    pub stores: Vec<StoreRecord>,
    pub base_products: Vec<BaseProductRecord>,
    pub products: Vec<ProductRecord>,
}

/// First store row with the given id, if any.
pub open spec fn spec_find_store(rows: Seq<StoreRecord>, id: i32) -> Option<StoreRecord>
    decreases rows.len(),
{
    if rows.len() == 0 {
        None
    } else if rows[0].id == id {
        Some(rows[0])
    } else {
        spec_find_store(rows.drop_first(), id)
    }
}

/// First base-product row with the given id, if any.
pub open spec fn spec_find_base_product(rows: Seq<BaseProductRecord>, id: i32) -> Option<
    BaseProductRecord,
>
    decreases rows.len(),
{
    if rows.len() == 0 {
        None
    } else if rows[0].id == id {
        Some(rows[0])
    } else {
        spec_find_base_product(rows.drop_first(), id)
    }
}

/// First product row with the given id, if any.
pub open spec fn spec_find_product(rows: Seq<ProductRecord>, id: i32) -> Option<ProductRecord>
    decreases rows.len(),
{
    if rows.len() == 0 {
        None
    } else if rows[0].id == id {
        Some(rows[0])
    } else {
        spec_find_product(rows.drop_first(), id)
    }
}

/// The product rows as the database hands them: in primary-key order,
/// ascending and therefore unique. Listing functions rely on this order to
/// state how their results are sorted.
pub open spec fn spec_products_ordered(rows: Seq<ProductRecord>) -> bool {
    forall|i: int, j: int| 0 <= i < j < rows.len() ==> rows[i].id < rows[j].id
}

/// A concrete entity instance handed to an `Owned`-scoped check: either the
/// row itself or, for a payload about to create one, the pre-image holding
/// the same foreign key.
#[derive(Clone, Copy, Debug, PartialEq, Eq, Structural)]
pub enum Entity {
    Store(StoreRecord),
    BaseProduct(BaseProductRecord),
    Product(ProductRecord),
    ProdAttr(ProdAttrRecord),
    UserRoleRow { user_id: i32 },
}

/// The user owning the store with the given id, if that store row exists.
pub open spec fn spec_store_owner(catalog: Catalog, store_id: i32) -> Option<i32> {
    match spec_find_store(catalog.stores@, store_id) {
        Some(store) => Some(store.user_id),
        None => None,
    }
}

/// The owning user of an entity, resolved through its ownership chain over
/// the given catalog, or `None` when a hop is missing.
pub open spec fn spec_owner_of(catalog: Catalog, entity: Entity) -> Option<i32> {
    match entity {
        Entity::Store(store) => Some(store.user_id),
        Entity::BaseProduct(base) => spec_store_owner(catalog, base.store_id),
        Entity::Product(product) => match spec_find_base_product(
            catalog.base_products@,
            product.base_product_id,
        ) {
            Some(base) => spec_store_owner(catalog, base.store_id),
            None => None,
        },
        Entity::ProdAttr(attr) => match spec_find_product(catalog.products@, attr.prod_id) {
            Some(product) => match spec_find_base_product(
                catalog.base_products@,
                product.base_product_id,
            ) {
                Some(base) => spec_store_owner(catalog, base.store_id),
                None => None,
            },
            None => None,
        },
        Entity::UserRoleRow { user_id } => Some(user_id),
    }
}

impl Catalog {
    /// An empty catalog, resolving no chain.
    pub fn new() -> (catalog: Catalog)
        ensures
            catalog.stores@.len() == 0,
            catalog.base_products@.len() == 0,
            catalog.products@.len() == 0,
    {
        Catalog { stores: Vec::new(), base_products: Vec::new(), products: Vec::new() }
    }

    /// Single-row lookup of a store by id.
    pub fn find_store(&self, id: i32) -> (found: Option<StoreRecord>)
        ensures
            found == spec_find_store(self.stores@, id),
    {
        let n = self.stores.len();
        proof {
            assert(self.stores@.skip(0) =~= self.stores@);
        }
        let mut i: usize = 0;
        while i < n
            invariant
                i <= n,
                n == self.stores.len(),
                spec_find_store(self.stores@, id) == spec_find_store(self.stores@.skip(i as int), id),
            decreases n - i,
        {
            proof {
                assert(self.stores@.skip(i as int).drop_first() =~= self.stores@.skip(i as int + 1));
                assert(self.stores@.skip(i as int)[0] == self.stores@[i as int]);
            }
            if self.stores[i].id == id {
                proof {
                    assert(spec_find_store(self.stores@.skip(i as int), id) == Some(self.stores@[i as int]));
                }
                return Some(self.stores[i]);
            }
            i = i + 1;
        }
        proof {
            assert(self.stores@.skip(n as int) =~= Seq::<StoreRecord>::empty());
        }
        None
    }

    /// Single-row lookup of a base product by id.
    pub fn find_base_product(&self, id: i32) -> (found: Option<BaseProductRecord>)
        ensures
            found == spec_find_base_product(self.base_products@, id),
    {
        let n = self.base_products.len();
        proof {
            assert(self.base_products@.skip(0) =~= self.base_products@);
        }
        let mut i: usize = 0;
        while i < n
            invariant
                i <= n,
                n == self.base_products.len(),
                spec_find_base_product(self.base_products@, id) == spec_find_base_product(
                    self.base_products@.skip(i as int),
                    id,
                ),
            decreases n - i,
        {
            proof {
                assert(self.base_products@.skip(i as int).drop_first() =~= self.base_products@.skip(i as int + 1));
                assert(self.base_products@.skip(i as int)[0] == self.base_products@[i as int]);
            }
            if self.base_products[i].id == id {
                proof {
                    assert(spec_find_base_product(self.base_products@.skip(i as int), id) == Some(self.base_products@[i as int]));
                }
                return Some(self.base_products[i]);
            }
            i = i + 1;
        }
        proof {
            assert(self.base_products@.skip(n as int) =~= Seq::<BaseProductRecord>::empty());
        }
        None
    }

    /// Single-row lookup of a product by id.
    pub fn find_product(&self, id: i32) -> (found: Option<ProductRecord>)
        ensures
            found == spec_find_product(self.products@, id),
    {
        let n = self.products.len();
        proof {
            assert(self.products@.skip(0) =~= self.products@);
        }
        let mut i: usize = 0;
        while i < n
            invariant
                i <= n,
                n == self.products.len(),
                spec_find_product(self.products@, id) == spec_find_product(self.products@.skip(i as int), id),
            decreases n - i,
        {
            proof {
                assert(self.products@.skip(i as int).drop_first() =~= self.products@.skip(i as int + 1));
                assert(self.products@.skip(i as int)[0] == self.products@[i as int]);
            }
            if self.products[i].id == id {
                proof {
                    assert(spec_find_product(self.products@.skip(i as int), id) == Some(self.products@[i as int]));
                }
                return Some(self.products[i]);
            }
            i = i + 1;
        }
        proof {
            assert(self.products@.skip(n as int) =~= Seq::<ProductRecord>::empty());
        }
        None
    }

    /// Walks the entity's ownership chain to the owning user. Every hop must
    /// succeed; a missing row aborts the resolution with `None`.
    pub fn resolve_owner(&self, entity: &Entity) -> (owner: Option<i32>)
        ensures
            owner == spec_owner_of(*self, *entity),
    {
        match entity {
            Entity::Store(store) => Some(store.user_id),
            Entity::BaseProduct(base) => match self.find_store(base.store_id) {
                Some(store) => Some(store.user_id),
                None => None,
            },
            Entity::Product(product) => match self.find_base_product(product.base_product_id) {
                Some(base) => match self.find_store(base.store_id) {
                    Some(store) => Some(store.user_id),
                    None => None,
                },
                None => None,
            },
            Entity::ProdAttr(attr) => match self.find_product(attr.prod_id) {
                Some(product) => match self.find_base_product(product.base_product_id) {
                    Some(base) => match self.find_store(base.store_id) {
                        Some(store) => Some(store.user_id),
                        None => None,
                    },
                    None => None,
                },
                None => None,
            },
            Entity::UserRoleRow { user_id } => Some(*user_id),
        }
    }
}

} // verus!
