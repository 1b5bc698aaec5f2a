use stores::acl::{check, Acl};
use stores::authorization::{Action, Resource, Role};
use stores::catalog::Catalog;
use stores::user_roles::{acl_for_request, NewUserRole, OldUserRole, RoleStore};

fn all_resources() -> Vec<Resource> {
    vec![
        Resource::Attributes,
        Resource::BaseProducts,
        Resource::Categories,
        Resource::ModeratorProductComments,
        Resource::ProductAttrs,
        Resource::Products,
        Resource::Stores,
        Resource::UserRoles,
    ]
}

fn all_actions() -> Vec<Action> {
    vec![Action::Create, Action::Read, Action::Update, Action::Delete]
}

#[test]
fn grant_and_list_roles() {
    let mut store = RoleStore::new();
    assert_eq!(store.list_for_user(7), Vec::<Role>::new());
    let created = store.create(NewUserRole { user_id: 7, role: Role::User });
    assert_eq!(created.user_id, 7);
    assert_eq!(created.role, Role::User);
    store.create(NewUserRole { user_id: 7, role: Role::Moderator });
    store.create(NewUserRole { user_id: 8, role: Role::User });
    assert_eq!(store.list_for_user(7), vec![Role::User, Role::Moderator]);
    assert_eq!(store.list_for_user(8), vec![Role::User]);
}

#[test]
fn cache_serves_and_is_invalidated() {
    let mut store = RoleStore::new();
    store.create(NewUserRole { user_id: 7, role: Role::User });
    // First fetch fills the cache; the second is served from it.
    assert_eq!(store.list_for_user(7), vec![Role::User]);
    assert_eq!(store.list_for_user(7), vec![Role::User]);
    // A grant invalidates the entry: a later fetch sees the new role.
    store.create(NewUserRole { user_id: 7, role: Role::Moderator });
    assert_eq!(store.list_for_user(7), vec![Role::User, Role::Moderator]);
    // A revocation invalidates it too.
    store.delete(OldUserRole { user_id: 7, role: Role::User });
    assert_eq!(store.list_for_user(7), vec![Role::Moderator]);
    // Another user's cached entry survives and stays correct.
    store.create(NewUserRole { user_id: 8, role: Role::User });
    assert_eq!(store.list_for_user(8), vec![Role::User]);
    store.delete(OldUserRole { user_id: 7, role: Role::Moderator });
    assert_eq!(store.list_for_user(8), vec![Role::User]);
}

#[test]
fn revoked_sole_role_loses_access() {
    // U's only role is Moderator, granting (ModeratorProductComments, Create) -> All.
    let catalog = Catalog::new();
    let mut store = RoleStore::new();
    store.create(NewUserRole { user_id: 7, role: Role::Moderator });

    let acl = acl_for_request(&mut store, Some(7));
    assert!(check(&acl, &catalog, Resource::ModeratorProductComments, Action::Create, None).is_ok());

    // Revoke, then evaluate with a freshly fetched role set.
    store.delete(OldUserRole { user_id: 7, role: Role::Moderator });
    let acl = acl_for_request(&mut store, Some(7));
    assert!(
        check(&acl, &catalog, Resource::ModeratorProductComments, Action::Create, None).is_err()
    );
}

#[test]
fn grant_revoke_round_trip_restores_decisions() {
    let catalog = Catalog::new();
    let mut store = RoleStore::new();
    store.create(NewUserRole { user_id: 7, role: Role::User });

    // Record the decision set before the grant.
    let acl = acl_for_request(&mut store, Some(7));
    let mut before = Vec::new();
    for resource in all_resources() {
        for action in all_actions() {
            before.push(check(&acl, &catalog, resource, action, None).is_ok());
        }
    }

    // Grant a role the user does not hold, then revoke it immediately.
    store.create(NewUserRole { user_id: 7, role: Role::Moderator });
    store.delete(OldUserRole { user_id: 7, role: Role::Moderator });

    assert_eq!(store.list_for_user(7), vec![Role::User]);
    let acl = acl_for_request(&mut store, Some(7));
    let mut after = Vec::new();
    for resource in all_resources() {
        for action in all_actions() {
            after.push(check(&acl, &catalog, resource, action, None).is_ok());
        }
    }
    assert_eq!(before, after);
}

#[test]
fn delete_removes_every_matching_row() {
    let mut store = RoleStore::new();
    store.create(NewUserRole { user_id: 7, role: Role::User });
    store.create(NewUserRole { user_id: 7, role: Role::User });
    store.create(NewUserRole { user_id: 7, role: Role::Moderator });
    store.delete(OldUserRole { user_id: 7, role: Role::User });
    assert_eq!(store.list_for_user(7), vec![Role::Moderator]);
}

#[test]
fn anonymous_request_gets_unauthorized_evaluator() {
    let mut store = RoleStore::new();
    store.create(NewUserRole { user_id: 7, role: Role::Superuser });
    let acl = acl_for_request(&mut store, None);
    let catalog = Catalog::new();
    assert!(check(&acl, &catalog, Resource::Products, Action::Read, None).is_err());
    assert!(matches!(acl, Acl::Unauthorized));
}
