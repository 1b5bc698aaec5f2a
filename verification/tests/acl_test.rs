use stores::acl::{acl_for_user, check, Acl};
use stores::authorization::{effective_scope, permission, Action, Resource, Role, Scope};
use stores::catalog::{BaseProductRecord, Catalog, Entity, ProdAttrRecord, ProductRecord, StoreRecord};

fn all_resources() -> Vec<Resource> {
    vec![
        Resource::Attributes,
        Resource::BaseProducts,
        Resource::Categories,
        Resource::ModeratorProductComments,
        Resource::ProductAttrs,
        Resource::Products,
        Resource::Stores,
        Resource::UserRoles,
    ]
}

fn all_actions() -> Vec<Action> {
    vec![Action::Create, Action::Read, Action::Update, Action::Delete]
}

fn owned_catalog(owner: i32) -> Catalog {
    let mut catalog = Catalog::new();
    catalog.stores.push(StoreRecord { id: 10, user_id: owner });
    catalog.base_products.push(BaseProductRecord { id: 20, store_id: 10 });
    catalog.products.push(ProductRecord { id: 30, base_product_id: 20, is_active: true, currency: 978 });
    catalog
}

#[test]
fn decision_is_deterministic_and_single_scoped() {
    // One decision per triple, stable across calls, drawn from the table.
    for role in [Role::Superuser, Role::Moderator, Role::User] {
        for resource in all_resources() {
            for action in all_actions() {
                let first = permission(role, resource, action);
                let second = permission(role, resource, action);
                assert_eq!(first, second);
                let scope = effective_scope(&vec![role], resource, action);
                assert_eq!(scope, first);
            }
        }
    }
    assert_eq!(permission(Role::Superuser, Resource::Categories, Action::Delete), Some(Scope::All));
    assert_eq!(permission(Role::User, Resource::Products, Action::Delete), Some(Scope::Owned));
    assert_eq!(permission(Role::User, Resource::Categories, Action::Create), None);
    assert_eq!(
        permission(Role::Moderator, Resource::ModeratorProductComments, Action::Create),
        Some(Scope::All)
    );
}

#[test]
fn all_grant_not_shadowed_by_owned() {
    // Moderator grants All for (Products, Read); User only Owned. The actor
    // reads a product of a different owner, in either role order.
    let catalog = owned_catalog(999);
    let product = catalog.products[0];
    let entity = Entity::Product(product);
    for roles in [vec![Role::Moderator, Role::User], vec![Role::User, Role::Moderator]] {
        let acl = Acl::Application { user_id: 7, roles };
        let decision = check(&acl, &catalog, Resource::Products, Action::Read, Some(&entity));
        assert!(decision.is_ok());
    }
}

#[test]
fn owned_delete_decided_by_ownership_chain() {
    let product = ProductRecord { id: 30, base_product_id: 20, is_active: true, currency: 978 };
    let entity = Entity::Product(product);

    // The store belongs to someone else: denied.
    let foreign = owned_catalog(999);
    let acl = Acl::Application { user_id: 7, roles: vec![Role::User] };
    let denied = check(&acl, &foreign, Resource::Products, Action::Delete, Some(&entity));
    let err = denied.unwrap_err();
    assert_eq!(err.resource, Resource::Products);
    assert_eq!(err.action, Action::Delete);

    // The store belongs to the actor: allowed.
    let own = owned_catalog(7);
    let acl = Acl::Application { user_id: 7, roles: vec![Role::User] };
    let allowed = check(&acl, &own, Resource::Products, Action::Delete, Some(&entity));
    assert!(allowed.is_ok());
}

#[test]
fn broken_ownership_chain_denies() {
    let acl = Acl::Application { user_id: 7, roles: vec![Role::User] };
    let product = ProductRecord { id: 30, base_product_id: 20, is_active: true, currency: 978 };
    let entity = Entity::Product(product);

    // The referenced base-product row is missing.
    let mut catalog = Catalog::new();
    catalog.stores.push(StoreRecord { id: 10, user_id: 7 });
    assert!(check(&acl, &catalog, Resource::Products, Action::Delete, Some(&entity)).is_err());
    assert_eq!(catalog.resolve_owner(&entity), None);

    // The base product is there but its store row is missing.
    catalog.base_products.push(BaseProductRecord { id: 20, store_id: 10 });
    catalog.stores.clear();
    assert!(check(&acl, &catalog, Resource::Products, Action::Delete, Some(&entity)).is_err());
    assert_eq!(catalog.resolve_owner(&entity), None);

    // An Owned grant without any entity to check is denied too.
    assert!(check(&acl, &catalog, Resource::Products, Action::Delete, None).is_err());
}

#[test]
fn prod_attr_chain_walks_three_hops() {
    let catalog = owned_catalog(7);
    let attr = ProdAttrRecord { id: 40, prod_id: 30, attr_id: 1 };
    assert_eq!(catalog.resolve_owner(&Entity::ProdAttr(attr)), Some(7));
    let acl = Acl::Application { user_id: 7, roles: vec![Role::User] };
    let entity = Entity::ProdAttr(attr);
    assert!(check(&acl, &catalog, Resource::ProductAttrs, Action::Update, Some(&entity)).is_ok());
    let other = Acl::Application { user_id: 8, roles: vec![Role::User] };
    assert!(check(&other, &catalog, Resource::ProductAttrs, Action::Update, Some(&entity)).is_err());
}

#[test]
fn anonymous_denied_everything() {
    let catalog = owned_catalog(7);
    let unauthorized = acl_for_user(None, Vec::new());
    let empty_roles = Acl::Application { user_id: 7, roles: Vec::new() };
    let entity = Entity::Product(catalog.products[0]);
    for resource in all_resources() {
        for action in all_actions() {
            assert!(check(&unauthorized, &catalog, resource, action, None).is_err());
            assert!(check(&unauthorized, &catalog, resource, action, Some(&entity)).is_err());
            assert!(check(&empty_roles, &catalog, resource, action, None).is_err());
            assert!(check(&empty_roles, &catalog, resource, action, Some(&entity)).is_err());
        }
    }
}

#[test]
fn system_evaluator_allows_everything() {
    let catalog = Catalog::new();
    for resource in all_resources() {
        for action in all_actions() {
            assert!(check(&Acl::System, &catalog, resource, action, None).is_ok());
        }
    }
}

#[test]
fn user_reads_own_roles_only() {
    let catalog = Catalog::new();
    let acl = Acl::Application { user_id: 7, roles: vec![Role::User] };
    let own = Entity::UserRoleRow { user_id: 7 };
    let foreign = Entity::UserRoleRow { user_id: 8 };
    assert!(check(&acl, &catalog, Resource::UserRoles, Action::Read, Some(&own)).is_ok());
    assert!(check(&acl, &catalog, Resource::UserRoles, Action::Read, Some(&foreign)).is_err());
    assert!(check(&acl, &catalog, Resource::UserRoles, Action::Create, Some(&own)).is_err());
}
