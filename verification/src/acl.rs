//! The access-control evaluators and the `check` decision function.
//!
//! Three evaluators exist. `System` allows everything and serves only
//! internal bootstrap work, such as resolving a user's own roles before a
//! normal evaluator can be built. `Unauthorized` serves callers with no
//! known user and denies everything, since no rule in the static table is
//! public. `Application` carries the caller's user id and resolved role set
//! and decides by the most permissive granted scope: an `All` grant allows
//! outright; an `Owned` grant allows only when the entity's ownership chain
//! resolves to the caller. Denial is the ordinary outcome for everything
//! else, including a chain that fails to resolve.

use vstd::prelude::*;

use crate::authorization::{
    effective_scope, grants_all, grants_owned, Action, Denied, Resource, Role, Scope,
};
use crate::catalog::{spec_owner_of, Catalog, Entity};

verus! {

/// An access-control evaluator, fixed for the duration of one request.
#[derive(Clone, Debug)]
pub enum Acl {
    /// Internal evaluator that allows every operation.
    System,
    /// Evaluator for anonymous callers; allows nothing.
    Unauthorized,
    /// Evaluator for an authenticated caller with resolved roles.
    Application { user_id: i32, roles: Vec<Role> },
}

/// The entity argument as the specification sees it.
pub open spec fn entity_view(entity: Option<&Entity>) -> Option<Entity> {
    match entity {
        Some(e) => Some(*e),
        None => None,
    }
}

/// Whether `user_id` stands inside `scope` for the given entity: `All`
/// covers everything, `Owned` only an entity whose chain resolves to the
/// user. Without an entity to resolve, an `Owned` scope covers nothing.
pub open spec fn spec_in_scope(
    catalog: Catalog,
    user_id: i32,
    scope: Scope,
    entity: Option<Entity>,
) -> bool {
    match scope {
        Scope::All => true,
        Scope::Owned => match entity {
            Some(e) => spec_owner_of(catalog, e) == Some(user_id),
            None => false,
        },
    }
}

/// Tests whether the entity falls under the scope for this user,
/// resolving the ownership chain when the scope demands it.
pub fn is_in_scope(
    catalog: &Catalog,
    user_id: i32,
    scope: Scope,
    entity: Option<&Entity>,
) -> (inside: bool)
    ensures
        inside == spec_in_scope(*catalog, user_id, scope, entity_view(entity)),
{
    match scope {
        Scope::All => true,
        Scope::Owned => match entity {
            Some(e) => match catalog.resolve_owner(e) {
                Some(owner) => owner == user_id,
                None => false,
            },
            None => false,
        },
    }
}

/// Whether the evaluator allows `(resource, action)`, optionally against a
/// concrete entity, given the ownership data in `catalog`.
pub open spec fn spec_allows(
    acl: Acl,
    catalog: Catalog,
    resource: Resource,
    action: Action,
    entity: Option<Entity>,
) -> bool {
    match acl {
        Acl::System => true,
        Acl::Unauthorized => false,
        Acl::Application { user_id, roles } => grants_all(roles@, resource, action) || (
        grants_owned(roles@, resource, action) && match entity {
            Some(e) => spec_owner_of(catalog, e) == Some(user_id),
            None => false,
        }),
    }
}

/// Decides one operation. Returns `Ok(())` exactly when the evaluator
/// allows it; every other case, including an ownership chain that does not
/// resolve, is an ordinary `Denied` carrying the request context.
pub fn check(
    acl: &Acl,
    catalog: &Catalog,
    resource: Resource,
    action: Action,
    entity: Option<&Entity>,
) -> (decision: Result<(), Denied>)
    ensures
        decision is Ok <==> spec_allows(*acl, *catalog, resource, action, entity_view(entity)),
        decision matches Err(denied) ==> denied.resource == resource && denied.action == action,
{
    let denied = Denied { resource, action };
    match acl {
        Acl::System => Ok(()),
        Acl::Unauthorized => Err(denied),
        Acl::Application { user_id, roles } => match effective_scope(roles, resource, action) {
            Some(scope) => {
                if is_in_scope(catalog, *user_id, scope, entity) {
                    Ok(())
                } else {
                    Err(denied)
                }
            },
            None => Err(denied),
        },
    }
}

/// Builds the evaluator for a request: `Unauthorized` when no user is
/// known, otherwise `Application` with the roles resolved for that user.
pub fn acl_for_user(user_id: Option<i32>, roles: Vec<Role>) -> (acl: Acl)
    ensures
        user_id is None ==> acl is Unauthorized,
        user_id matches Some(uid) ==> acl matches Acl::Application {
            user_id: auid,
            roles: aroles,
        } && auid == uid && aroles@ == roles@,
{
    match user_id {
        Some(uid) => Acl::Application { user_id: uid, roles },
        None => Acl::Unauthorized,
    }
}

/// An `All` grant held through any role allows the operation against any
/// entity, owned or not, whatever other roles the actor holds and whatever
/// the ownership data says.
pub proof fn lemma_all_grant_allows(
    acl: Acl,
    catalog: Catalog,
    resource: Resource,
    action: Action,
    entity: Option<Entity>,
)
    requires
        acl matches Acl::Application { roles, .. } && grants_all(roles@, resource, action),
    ensures
        spec_allows(acl, catalog, resource, action, entity),
{
}

/// Under a purely `Owned` grant, the decision is exactly the ownership
/// test: allowed when the chain resolves to the caller, denied when it
/// resolves to someone else or does not resolve at all.
pub proof fn lemma_owned_grant_decides_by_ownership(
    acl: Acl,
    catalog: Catalog,
    resource: Resource,
    action: Action,
    entity: Entity,
)
    requires
        acl matches Acl::Application { roles, .. } && !grants_all(roles@, resource, action)
            && grants_owned(roles@, resource, action),
    ensures
        spec_allows(acl, catalog, resource, action, Some(entity)) <==> spec_owner_of(
            catalog,
            entity,
        ) == Some(acl->user_id),
{
}

/// A broken ownership chain never allows: if no role grants `All` and the
/// entity's owner cannot be resolved, the operation is denied.
pub proof fn lemma_broken_chain_denies(
    acl: Acl,
    catalog: Catalog,
    resource: Resource,
    action: Action,
    entity: Entity,
)
    requires
        acl matches Acl::Application { roles, .. } && !grants_all(roles@, resource, action),
        spec_owner_of(catalog, entity) is None,
    ensures
        !spec_allows(acl, catalog, resource, action, Some(entity)),
{
}

/// Anonymous actors are denied everything: the unauthorized evaluator, and
/// equally an application evaluator over an empty role set, allows no
/// `(resource, action)` pair, with or without an entity.
pub proof fn lemma_anonymous_denied(
    acl: Acl,
    catalog: Catalog,
    resource: Resource,
    action: Action,
    entity: Option<Entity>,
)
    requires
        acl is Unauthorized || (acl matches Acl::Application { roles, .. } && roles@.len() == 0),
    ensures
        !spec_allows(acl, catalog, resource, action, entity),
{
}

} // verus!
