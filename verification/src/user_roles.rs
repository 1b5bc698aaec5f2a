//! The role store: `(user -> roles)` assignments with a memoizing cache.
//!
//! Role lookups run on every authorized operation, so resolved role sets
//! are cached per user. The cache must never serve stale data after a
//! grant or a revocation, so both mutations invalidate the affected user's
//! entries as part of the same operation; the well-formedness predicate
//! states the resulting coherence: every cached set equals the set computed
//! from the assignment rows.

use vstd::prelude::*;

use crate::acl::{spec_allows, Acl};
use crate::authorization::{
    grants_all, grants_owned, spec_effective_scope, spec_permission, Action, Resource, Role, Scope,
};
use crate::catalog::{Catalog, Entity};

verus! {

/// One role assignment row.
#[derive(Clone, Copy, Debug, PartialEq, Eq, Structural)]
pub struct UserRole {
    pub id: i32,
    pub user_id: i32,
    pub role: Role,
}

/// Payload for granting a role to a user.
#[derive(Clone, Copy, Debug, PartialEq, Eq, Structural)]
pub struct NewUserRole {
    pub user_id: i32,
    pub role: Role,
}

/// Payload for revoking a role from a user.
#[derive(Clone, Copy, Debug, PartialEq, Eq, Structural)]
pub struct OldUserRole {
    pub user_id: i32,
    pub role: Role,
}

/// A memoized role set for one user.
#[derive(Debug)]
pub struct CachedRoles {
    pub user_id: i32,
    pub roles: Vec<Role>,
}

/// The roles the assignment rows give to a user, in row order.
pub open spec fn roles_of(rows: Seq<UserRole>, user_id: i32) -> Seq<Role>
    decreases rows.len(),
{
    if rows.len() == 0 {
        Seq::empty()
    } else {
        let rest = roles_of(rows.drop_last(), user_id);
        if rows.last().user_id == user_id {
            rest.push(rows.last().role)
        } else {
            rest
        }
    }
}

/// The assignment rows left after revoking `role` from `user_id`.
pub open spec fn remove_role(rows: Seq<UserRole>, user_id: i32, role: Role) -> Seq<UserRole>
    decreases rows.len(),
{
    if rows.len() == 0 {
        Seq::empty()
    } else {
        let rest = remove_role(rows.drop_last(), user_id, role);
        if rows.last().user_id == user_id && rows.last().role == role {
            rest
        } else {
            rest.push(rows.last())
        }
    }
}

/// Whether some assignment row gives `role` to `user_id`.
pub open spec fn holds_role(rows: Seq<UserRole>, user_id: i32, role: Role) -> bool {
    exists|i: int|
        0 <= i < rows.len() && (#[trigger] rows[i]).user_id == user_id && rows[i].role == role
}

/// Appending a row extends exactly the role set of the row's user and
/// leaves every other user's set unchanged.
pub proof fn lemma_roles_of_push(rows: Seq<UserRole>, row: UserRole, user_id: i32)
    ensures
        roles_of(rows.push(row), user_id) == if row.user_id == user_id {
            roles_of(rows, user_id).push(row.role)
        } else {
            roles_of(rows, user_id)
        },
{
    assert(rows.push(row).drop_last() =~= rows);
}

/// Revoking a role from one user leaves every other user's role set
/// unchanged.
pub proof fn lemma_remove_role_other_user(rows: Seq<UserRole>, user_id: i32, role: Role, other: i32)
    requires
        other != user_id,
    ensures
        roles_of(remove_role(rows, user_id, role), other) == roles_of(rows, other),
    decreases rows.len(),
{
    if rows.len() > 0 {
        let rest = rows.drop_last();
        lemma_remove_role_other_user(rest, user_id, role, other);
        if !(rows.last().user_id == user_id && rows.last().role == role) {
            lemma_roles_of_push(remove_role(rest, user_id, role), rows.last(), other);
        }
    }
}

/// Every role in a user's role set is backed by an assignment row for that
/// user bearing that role.
proof fn lemma_roles_of_backed(rows: Seq<UserRole>, user_id: i32)
    ensures
        forall|k: int|
            0 <= k < roles_of(rows, user_id).len() ==> holds_role(
                rows,
                user_id,
                #[trigger] roles_of(rows, user_id)[k],
            ),
    decreases rows.len(),
{
    if rows.len() > 0 {
        let rest = rows.drop_last();
        lemma_roles_of_backed(rest, user_id);
        let rs = roles_of(rows, user_id);
        assert forall|k: int| 0 <= k < rs.len() implies holds_role(rows, user_id, rs[k]) by {
            if rows.last().user_id == user_id && k == rs.len() - 1 {
                assert(rows[rows.len() - 1].user_id == user_id && rows[rows.len() - 1].role
                    == rs[k]);
            } else {
                assert(rs[k] == roles_of(rest, user_id)[k]);
                let i = choose|i: int|
                    0 <= i < rest.len() && (#[trigger] rest[i]).user_id == user_id && rest[i].role
                        == rs[k];
                assert(rows[i].user_id == user_id && rows[i].role == rs[k]);
            }
        }
    }
}

/// Every row surviving a revocation was already present, and none of them
/// carries the revoked `(user, role)` pair.
proof fn lemma_remove_role_rows(rows: Seq<UserRole>, user_id: i32, role: Role)
    ensures
        forall|i: int|
            0 <= i < remove_role(rows, user_id, role).len() ==> rows.contains(
                #[trigger] remove_role(rows, user_id, role)[i],
            ) && !(remove_role(rows, user_id, role)[i].user_id == user_id && remove_role(
                rows,
                user_id,
                role,
            )[i].role == role),
    decreases rows.len(),
{
    if rows.len() > 0 {
        let rest = rows.drop_last();
        lemma_remove_role_rows(rest, user_id, role);
        let removed = remove_role(rows, user_id, role);
        let removed_rest = remove_role(rest, user_id, role);
        assert forall|i: int| 0 <= i < removed.len() implies rows.contains(removed[i]) && !(
        removed[i].user_id == user_id && removed[i].role == role) by {
            if i < removed_rest.len() {
                assert(removed[i] == removed_rest[i]);
                let j = choose|j: int| 0 <= j < rest.len() && rest[j] == removed_rest[i];
                assert(rows[j] == removed_rest[i]);
            } else {
                assert(removed[i] == rows.last());
                assert(rows[rows.len() - 1] == rows.last());
            }
        }
    }
}

/// Revoking a role a user does not hold changes nothing.
proof fn lemma_remove_role_absent(rows: Seq<UserRole>, user_id: i32, role: Role)
    requires
        !holds_role(rows, user_id, role),
    ensures
        remove_role(rows, user_id, role) == rows,
    decreases rows.len(),
{
    if rows.len() == 0 {
        assert(remove_role(rows, user_id, role) =~= rows);
    } else {
        let rest = rows.drop_last();
        assert(!holds_role(rest, user_id, role)) by {
            if holds_role(rest, user_id, role) {
                let i = choose|i: int|
                    0 <= i < rest.len() && (#[trigger] rest[i]).user_id == user_id && rest[i].role
                        == role;
                assert(rows[i].user_id == user_id && rows[i].role == role);
            }
        }
        lemma_remove_role_absent(rest, user_id, role);
        assert(!(rows.last().user_id == user_id && rows.last().role == role)) by {
            if rows.last().user_id == user_id && rows.last().role == role {
                assert(rows[rows.len() - 1].user_id == user_id && rows[rows.len() - 1].role
                    == role);
            }
        }
        assert(rest.push(rows.last()) =~= rows);
    }
}

/// After a role is revoked, any access granted solely through it is lost:
/// if none of the user's other assignment rows grants any scope for
/// `(resource, action)`, the role set fetched after the revocation grants
/// no scope for it either.
pub proof fn lemma_revoked_sole_grant_denies(
    rows: Seq<UserRole>,
    user_id: i32,
    role: Role,
    resource: Resource,
    action: Action,
)
    requires
        forall|i: int|
            0 <= i < rows.len() && (#[trigger] rows[i]).user_id == user_id && rows[i].role != role
                ==> spec_permission(rows[i].role, resource, action) is None,
    ensures
        spec_effective_scope(
            roles_of(remove_role(rows, user_id, role), user_id),
            resource,
            action,
        ) is None,
{
    let after = remove_role(rows, user_id, role);
    let rs = roles_of(after, user_id);
    lemma_roles_of_backed(after, user_id);
    lemma_remove_role_rows(rows, user_id, role);
    assert forall|k: int| 0 <= k < rs.len() implies #[trigger] spec_permission(
        rs[k],
        resource,
        action,
    ) is None by {
        let i = choose|i: int|
            0 <= i < after.len() && (#[trigger] after[i]).user_id == user_id && after[i].role
                == rs[k];
        let j = choose|j: int| 0 <= j < rows.len() && rows[j] == after[i];
        assert(rows[j].user_id == user_id && rows[j].role == rs[k] && rows[j].role != role);
    }
    if grants_all(rs, resource, action) {
        let k = choose|k: int|
            0 <= k < rs.len() && #[trigger] spec_permission(rs[k], resource, action) == Some(
                Scope::All,
            );
        assert(spec_permission(rs[k], resource, action) is None);
    }
    if grants_owned(rs, resource, action) {
        let k = choose|k: int|
            0 <= k < rs.len() && #[trigger] spec_permission(rs[k], resource, action) == Some(
                Scope::Owned,
            );
        assert(spec_permission(rs[k], resource, action) is None);
    }
}

/// The request-level reading of the revocation law: an evaluator built for
/// the user from a role set freshly fetched after the revocation denies
/// every request whose access was granted solely by the revoked role.
pub proof fn lemma_revocation_denies_request(
    acl: Acl,
    catalog: Catalog,
    rows: Seq<UserRole>,
    user_id: i32,
    role: Role,
    resource: Resource,
    action: Action,
    entity: Option<Entity>,
)
    requires
        acl matches Acl::Application { user_id: acl_user, roles: acl_roles } && acl_user == user_id
            && acl_roles@ == roles_of(remove_role(rows, user_id, role), user_id),
        forall|i: int|
            0 <= i < rows.len() && (#[trigger] rows[i]).user_id == user_id && rows[i].role != role
                ==> spec_permission(rows[i].role, resource, action) is None,
    ensures
        !spec_allows(acl, catalog, resource, action, entity),
{
    lemma_revoked_sole_grant_denies(rows, user_id, role, resource, action);
}

/// Granting a role a user does not yet hold and then revoking it restores
/// the assignment rows exactly, and with them the evaluator's decision for
/// every user, resource, and action.
pub proof fn lemma_grant_revoke_round_trip(rows: Seq<UserRole>, row: UserRole)
    requires
        !holds_role(rows, row.user_id, row.role),
    ensures
        remove_role(rows.push(row), row.user_id, row.role) == rows,
        forall|u: i32, resource: Resource, action: Action|
            #![auto]
            spec_effective_scope(
                roles_of(remove_role(rows.push(row), row.user_id, row.role), u),
                resource,
                action,
            ) == spec_effective_scope(roles_of(rows, u), resource, action),
{
    assert(rows.push(row).drop_last() =~= rows);
    assert(rows.push(row).last() == row);
    lemma_remove_role_absent(rows, row.user_id, row.role);
}

/// Builds the evaluator for one request: anonymous callers get the
/// unauthorized evaluator; for a known user the roles are freshly resolved
/// through the store (served from its coherent cache when possible) and
/// wrapped in an application evaluator.
pub fn acl_for_request(store: &mut RoleStore, user_id: Option<i32>) -> (acl: Acl)
    requires
        old(store).wf(),
    ensures
        final(store).wf(),
        final(store).rows@ == old(store).rows@,
        final(store).next_id == old(store).next_id,
        user_id is None ==> acl is Unauthorized,
        user_id matches Some(uid) ==> acl matches Acl::Application { user_id: acl_user, roles }
            && acl_user == uid && roles@ == roles_of(old(store).rows@, uid),
{
    match user_id {
        Some(uid) => {
            let roles = store.list_for_user(uid);
            Acl::Application { user_id: uid, roles }
        },
        None => Acl::Unauthorized,
    }
}

/// Persistent `(user -> roles)` assignments with a per-user cache of
/// resolved role sets.
#[derive(Debug)]
pub struct RoleStore {
    pub rows: Vec<UserRole>,
    pub cache: Vec<CachedRoles>,
    pub next_id: i32,
}

/// Copies a role set; roles are plain values.
fn copy_roles(roles: &Vec<Role>) -> (out: Vec<Role>)
    ensures
        out@ == roles@,
{
    let mut out: Vec<Role> = Vec::new();
    let n = roles.len();
    let mut i: usize = 0;
    while i < n
        invariant
            i <= n,
            n == roles.len(),
            out@ == roles@.take(i as int),
        decreases n - i,
    {
        out.push(roles[i]);
        proof {
            assert(roles@.take(i as int + 1) =~= roles@.take(i as int).push(roles@[i as int]));
        }
        i = i + 1;
    }
    proof {
        assert(roles@.take(n as int) =~= roles@);
    }
    out
}

impl RoleStore {
    /// Every cached role set equals the set computed from the rows.
    pub open spec fn wf(self) -> bool {
        forall|k: int|
            0 <= k < self.cache@.len() ==> (#[trigger] self.cache@[k]).roles@ == roles_of(
                self.rows@,
                self.cache@[k].user_id,
            )
    }

    /// An empty store.
    pub fn new() -> (store: RoleStore)
        ensures
            store.wf(),
            store.rows@.len() == 0,
            store.cache@.len() == 0,
            store.next_id == 1,
    {
        RoleStore { rows: Vec::new(), cache: Vec::new(), next_id: 1 }
    }

    /// Drops every cached entry for `user_id`, keeping the others.
    fn invalidate(&mut self, user_id: i32)
        ensures
            final(self).rows@ == old(self).rows@,
            final(self).next_id == old(self).next_id,
            forall|k: int|
                0 <= k < final(self).cache@.len() ==> (#[trigger] final(self).cache@[k]).user_id
                    != user_id && exists|j: int|
                    0 <= j < old(self).cache@.len()
                        && old(self).cache@[j].user_id == final(self).cache@[k].user_id
                        && old(self).cache@[j].roles@ == final(self).cache@[k].roles@,
    {
        let n = self.cache.len();
        let mut kept: Vec<CachedRoles> = Vec::new();
        let mut k: usize = 0;
        while k < n
            invariant
                k <= n,
                n == self.cache.len(),
                self.cache@ == old(self).cache@,
                self.rows@ == old(self).rows@,
                self.next_id == old(self).next_id,
                forall|m: int|
                    0 <= m < kept@.len() ==> (#[trigger] kept@[m]).user_id != user_id && exists|
                        j: int,
                    |
                        0 <= j < old(self).cache@.len() && old(self).cache@[j].user_id
                            == kept@[m].user_id && old(self).cache@[j].roles@ == kept@[m].roles@,
            decreases n - k,
        {
            if self.cache[k].user_id != user_id {
                let entry = CachedRoles {
                    user_id: self.cache[k].user_id,
                    roles: copy_roles(&self.cache[k].roles),
                };
                kept.push(entry);
                proof {
                    let m = kept@.len() - 1;
                    assert(old(self).cache@[k as int].user_id == kept@[m].user_id && old(
                        self,
                    ).cache@[k as int].roles@ == kept@[m].roles@);
                }
            }
            k = k + 1;
        }
        self.cache = kept;
    }

    /// Returns the user's role set, serving it from the cache when present
    /// and caching it otherwise. The assignments are left untouched, and
    /// the result always equals the set computed from them.
    pub fn list_for_user(&mut self, user_id: i32) -> (roles: Vec<Role>)
        requires
            old(self).wf(),
        ensures
            final(self).wf(),
            final(self).rows@ == old(self).rows@,
            final(self).next_id == old(self).next_id,
            roles@ == roles_of(old(self).rows@, user_id),
    {
        let n = self.cache.len();
        let mut k: usize = 0;
        while k < n
            invariant
                k <= n,
                n == self.cache.len(),
                *self == *old(self),
                old(self).wf(),
            decreases n - k,
        {
            if self.cache[k].user_id == user_id {
                return copy_roles(&self.cache[k].roles);
            }
            k = k + 1;
        }
        let rows_len = self.rows.len();
        let mut roles: Vec<Role> = Vec::new();
        let mut i: usize = 0;
        while i < rows_len
            invariant
                i <= rows_len,
                rows_len == self.rows.len(),
                *self == *old(self),
                old(self).wf(),
                roles@ == roles_of(self.rows@.take(i as int), user_id),
            decreases rows_len - i,
        {
            proof {
                assert(self.rows@.take(i as int + 1).drop_last() =~= self.rows@.take(i as int));
                assert(self.rows@.take(i as int + 1).last() == self.rows@[i as int]);
            }
            if self.rows[i].user_id == user_id {
                roles.push(self.rows[i].role);
            }
            i = i + 1;
        }
        proof {
            assert(self.rows@.take(rows_len as int) =~= self.rows@);
        }
        let entry = CachedRoles { user_id, roles: copy_roles(&roles) };
        self.cache.push(entry);
        proof {
            assert forall|m: int| 0 <= m < self.cache@.len() implies (#[trigger] self.cache@[m]).roles@
                == roles_of(self.rows@, self.cache@[m].user_id) by {
                if m < self.cache@.len() - 1 {
                    assert(self.cache@[m] == old(self).cache@[m]);
                }
            }
        }
        roles
    }

    /// Grants a role: appends an assignment row and invalidates the user's
    /// cached role set in the same operation.
    pub fn create(&mut self, payload: NewUserRole) -> (created: UserRole)
        requires
            old(self).wf(),
            old(self).next_id < i32::MAX,
        ensures
            final(self).wf(),
            created == (UserRole {
                id: old(self).next_id,
                user_id: payload.user_id,
                role: payload.role,
            }),
            final(self).rows@ == old(self).rows@.push(created),
            final(self).next_id == old(self).next_id + 1,
    {
        let row = UserRole { id: self.next_id, user_id: payload.user_id, role: payload.role };
        self.next_id = self.next_id + 1;
        self.rows.push(row);
        let ghost mid = *self;
        self.invalidate(payload.user_id);
        proof {
            assert forall|k: int| 0 <= k < self.cache@.len() implies (#[trigger] self.cache@[k]).roles@
                == roles_of(self.rows@, self.cache@[k].user_id) by {
                let j = choose|j: int|
                    0 <= j < mid.cache@.len() && mid.cache@[j].user_id == self.cache@[k].user_id
                        && mid.cache@[j].roles@ == self.cache@[k].roles@;
                assert(mid.cache@[j] == old(self).cache@[j]);
                lemma_roles_of_push(old(self).rows@, row, self.cache@[k].user_id);
            }
        }
        row
    }

    /// Revokes a role: deletes every matching assignment row and
    /// invalidates the user's cached role set in the same operation.
    pub fn delete(&mut self, payload: OldUserRole)
        requires
            old(self).wf(),
        ensures
            final(self).wf(),
            final(self).rows@ == remove_role(old(self).rows@, payload.user_id, payload.role),
            final(self).next_id == old(self).next_id,
    {
        let n = self.rows.len();
        let mut kept: Vec<UserRole> = Vec::new();
        let mut i: usize = 0;
        while i < n
            invariant
                i <= n,
                n == self.rows.len(),
                *self == *old(self),
                kept@ == remove_role(self.rows@.take(i as int), payload.user_id, payload.role),
            decreases n - i,
        {
            proof {
                assert(self.rows@.take(i as int + 1).drop_last() =~= self.rows@.take(i as int));
                assert(self.rows@.take(i as int + 1).last() == self.rows@[i as int]);
            }
            let row = self.rows[i];
            if !(row.user_id == payload.user_id && row.role == payload.role) {
                kept.push(row);
            }
            i = i + 1;
        }
        proof {
            assert(self.rows@.take(n as int) =~= self.rows@);
        }
        self.rows = kept;
        let ghost mid = *self;
        self.invalidate(payload.user_id);
        proof {
            assert forall|k: int| 0 <= k < self.cache@.len() implies (#[trigger] self.cache@[k]).roles@
                == roles_of(self.rows@, self.cache@[k].user_id) by {
                let j = choose|j: int|
                    0 <= j < mid.cache@.len() && mid.cache@[j].user_id == self.cache@[k].user_id
                        && mid.cache@[j].roles@ == self.cache@[k].roles@;
                assert(mid.cache@[j] == old(self).cache@[j]);
                lemma_remove_role_other_user(
                    old(self).rows@,
                    payload.user_id,
                    payload.role,
                    self.cache@[k].user_id,
                );
            }
        }
    }
}

} // verus!
