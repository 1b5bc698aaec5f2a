//! Roles, resources, actions, scopes, and the static permission table.
//!
//! A permission is a triple `(Role, Resource, Action) -> Scope`, fixed at
//! compile time. For an actor holding several roles, the effective scope for
//! an action on a resource is the most permissive scope granted by any held
//! role: `All` beats `Owned` beats nothing.

use vstd::prelude::*;

verus! {

/// A label assigned to a user. A user may hold any number of roles.
#[derive(Clone, Copy, Debug, PartialEq, Eq, Structural)]
pub enum Role {
    /// Unrestricted platform operator.
    Superuser,
    /// Moderates catalog content and moderation comment threads.
    Moderator,
    /// Ordinary user; may own stores and everything under them.
    User,
}

/// The categories of entity subject to authorization.
#[derive(Clone, Copy, Debug, PartialEq, Eq, Structural)]
pub enum Resource {
    Attributes,
    BaseProducts,
    Categories,
    ModeratorProductComments,
    ProductAttrs,
    Products,
    Stores,
    UserRoles,
}

/// An operation on a resource.
#[derive(Clone, Copy, Debug, PartialEq, Eq, Structural)]
pub enum Action {
    Create,
    Read,
    Update,
    Delete,
}

/// Qualifier attached to a permission grant: `All` is unconditional, while
/// `Owned` holds only for entities transitively owned by the acting user.
#[derive(Clone, Copy, Debug, PartialEq, Eq, Structural)]
pub enum Scope {
    All,
    Owned,
}

/// Refusal of a requested operation. Carries the request context for
/// logging; it never reveals which rule or ownership hop failed.
#[derive(Clone, Copy, Debug, PartialEq, Eq, Structural)]
pub struct Denied {
    pub resource: Resource,
    pub action: Action,
}

/// The static permission table. A combination absent from the table is
/// implicitly denied, so the table is total over `Option<Scope>`.
pub open spec fn spec_permission(role: Role, resource: Resource, action: Action) -> Option<Scope> {
    match role {
        Role::Superuser => Some(Scope::All),
        Role::Moderator => match resource {
            Resource::ModeratorProductComments => Some(Scope::All),
            Resource::Products | Resource::BaseProducts | Resource::Stores => {
                if action == Action::Read {
                    Some(Scope::All)
                } else {
                    None
                }
            },
            _ => None,
        },
        Role::User => match resource {
            Resource::Products
            | Resource::BaseProducts
            | Resource::ProductAttrs
            | Resource::Stores => Some(Scope::Owned),
            Resource::UserRoles => {
                if action == Action::Read {
                    Some(Scope::Owned)
                } else {
                    None
                }
            },
            _ => None,
        },
    }
}

/// Looks up the scope the static table grants to one role.
pub fn permission(role: Role, resource: Resource, action: Action) -> (scope: Option<Scope>)
    ensures
        scope == spec_permission(role, resource, action),
{
    match role {
        Role::Superuser => Some(Scope::All),
        Role::Moderator => match resource {
            Resource::ModeratorProductComments => Some(Scope::All),
            Resource::Products | Resource::BaseProducts | Resource::Stores => {
                if action == Action::Read {
                    Some(Scope::All)
                } else {
                    None
                }
            },
            _ => None,
        },
        Role::User => match resource {
            Resource::Products
            | Resource::BaseProducts
            | Resource::ProductAttrs
            | Resource::Stores => Some(Scope::Owned),
            Resource::UserRoles => {
                if action == Action::Read {
                    Some(Scope::Owned)
                } else {
                    None
                }
            },
            _ => None,
        },
    }
}

/// Some held role grants `Scope::All` for the combination.
pub open spec fn grants_all(roles: Seq<Role>, resource: Resource, action: Action) -> bool {
    exists|i: int|
        0 <= i < roles.len() && #[trigger] spec_permission(roles[i], resource, action)
            == Some(Scope::All)
}

/// Some held role grants `Scope::Owned` for the combination.
pub open spec fn grants_owned(roles: Seq<Role>, resource: Resource, action: Action) -> bool {
    exists|i: int|
        0 <= i < roles.len() && #[trigger] spec_permission(roles[i], resource, action)
            == Some(Scope::Owned)
}

/// The most permissive scope granted by any of the held roles:
/// `All` if any role grants it, else `Owned` if any role grants it,
/// else nothing (deny).
pub open spec fn spec_effective_scope(roles: Seq<Role>, resource: Resource, action: Action) -> Option<
    Scope,
> {
    if grants_all(roles, resource, action) {
        Some(Scope::All)
    } else if grants_owned(roles, resource, action) {
        Some(Scope::Owned)
    } else {
        None
    }
}

proof fn lemma_grants_step(roles: Seq<Role>, i: int, resource: Resource, action: Action)
    requires
        0 <= i < roles.len(),
    ensures
        grants_all(roles.take(i + 1), resource, action) <==> (grants_all(
            roles.take(i),
            resource,
            action,
        ) || spec_permission(roles[i], resource, action) == Some(Scope::All)),
        grants_owned(roles.take(i + 1), resource, action) <==> (grants_owned(
            roles.take(i),
            resource,
            action,
        ) || spec_permission(roles[i], resource, action) == Some(Scope::Owned)),
{
    let s0 = roles.take(i);
    let s1 = roles.take(i + 1);
    assert(forall|j: int| 0 <= j < i + 1 ==> s1[j] == roles[j]);
    assert(forall|j: int| 0 <= j < i ==> s0[j] == roles[j]);
    if grants_all(s1, resource, action) {
        let j = choose|j: int|
            0 <= j < s1.len() && #[trigger] spec_permission(s1[j], resource, action) == Some(
                Scope::All,
            );
        if j < i {
            assert(spec_permission(s0[j], resource, action) == Some(Scope::All));
        } else {
            assert(s1[j] == roles[i]);
        }
    }
    if grants_all(s0, resource, action) {
        let j = choose|j: int|
            0 <= j < s0.len() && #[trigger] spec_permission(s0[j], resource, action) == Some(
                Scope::All,
            );
        assert(spec_permission(s1[j], resource, action) == Some(Scope::All));
    }
    if spec_permission(roles[i], resource, action) == Some(Scope::All) {
        assert(spec_permission(s1[i], resource, action) == Some(Scope::All));
    }
    if grants_owned(s1, resource, action) {
        let j = choose|j: int|
            0 <= j < s1.len() && #[trigger] spec_permission(s1[j], resource, action) == Some(
                Scope::Owned,
            );
        if j < i {
            assert(spec_permission(s0[j], resource, action) == Some(Scope::Owned));
        } else {
            assert(s1[j] == roles[i]);
        }
    }
    if grants_owned(s0, resource, action) {
        let j = choose|j: int|
            0 <= j < s0.len() && #[trigger] spec_permission(s0[j], resource, action) == Some(
                Scope::Owned,
            );
        assert(spec_permission(s1[j], resource, action) == Some(Scope::Owned));
    }
    if spec_permission(roles[i], resource, action) == Some(Scope::Owned) {
        assert(spec_permission(s1[i], resource, action) == Some(Scope::Owned));
    }
}

/// Computes the effective scope of a role set for `(resource, action)`:
/// the most permissive scope any held role grants, or `None` when no held
/// role grants anything (including the empty, anonymous role set).
pub fn effective_scope(roles: &Vec<Role>, resource: Resource, action: Action) -> (scope: Option<
    Scope,
>)
    ensures
        scope == spec_effective_scope(roles@, resource, action),
{
    let mut any_all = false;
    let mut any_owned = false;
    let n = roles.len();
    let mut i: usize = 0;
    while i < n
        invariant
            i <= n,
            n == roles.len(),
            any_all == grants_all(roles@.take(i as int), resource, action),
            any_owned == grants_owned(roles@.take(i as int), resource, action),
        decreases n - i,
    {
        proof {
            lemma_grants_step(roles@, i as int, resource, action);
        }
        match permission(roles[i], resource, action) {
            Some(Scope::All) => {
                any_all = true;
            },
            Some(Scope::Owned) => {
                any_owned = true;
            },
            None => {},
        }
        i = i + 1;
    }
    proof {
        assert(roles@.take(n as int) =~= roles@);
    }
    if any_all {
        Some(Scope::All)
    } else if any_owned {
        Some(Scope::Owned)
    } else {
        None
    }
}

/// The decision on a role set is drawn from the static table alone and is
/// exactly one of three outcomes: `All` exactly when some held role grants
/// `All`; `Owned` exactly when none grants `All` but some grants `Owned`;
/// nothing (deny) exactly when no held role grants any scope.
pub proof fn lemma_decision_trichotomy(roles: Seq<Role>, resource: Resource, action: Action)
    ensures
        spec_effective_scope(roles, resource, action) == Some(Scope::All) <==> grants_all(
            roles,
            resource,
            action,
        ),
        spec_effective_scope(roles, resource, action) == Some(Scope::Owned) <==> (!grants_all(
            roles,
            resource,
            action,
        ) && grants_owned(roles, resource, action)),
        spec_effective_scope(roles, resource, action) is None <==> (!grants_all(
            roles,
            resource,
            action,
        ) && !grants_owned(roles, resource, action)),
{
}

/// A role granting `Scope::All` is never shadowed by other held roles:
/// whatever else the actor holds, the effective scope is `All`.
pub proof fn lemma_all_grant_wins(roles: Seq<Role>, i: int, resource: Resource, action: Action)
    requires
        0 <= i < roles.len(),
        spec_permission(roles[i], resource, action) == Some(Scope::All),
    ensures
        spec_effective_scope(roles, resource, action) == Some(Scope::All),
{
}

/// An anonymous actor holds no roles, and an empty role set grants no
/// scope for any resource and action.
pub proof fn lemma_empty_roles_grant_nothing(resource: Resource, action: Action)
    ensures
        spec_effective_scope(Seq::<Role>::empty(), resource, action) is None,
{
}

} // verus!
