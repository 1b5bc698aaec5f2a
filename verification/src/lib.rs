//! Access control for a store-catalog service.
//!
//! Entities (stores, base products, product variants, product attributes)
//! form ownership chains that end at the user who owns the store. Every
//! operation is authorized by an evaluator that combines a static permission
//! table (role, resource, action -> scope) with ownership-chain resolution:
//! a role may grant an action on `All` instances of a resource, or only on
//! `Owned` ones, in which case the chain is walked to the owning user and
//! compared against the caller.
//!
//! The crate reads bottom-up:
//! - [`authorization`]: roles, resources, actions, scopes, and the static
//!   permission table with its most-permissive-scope rule;
//! - [`catalog`]: the entity rows and ownership-chain resolution over them;
//! - [`acl`]: the three evaluators and the `check` decision function;
//! - [`user_roles`]: the role store feeding the evaluator, with its
//!   invalidating per-user cache;
//! - [`products`]: repository-style guarded access to product rows;
//! - [`attributes`]: guarded access to the attribute reference table, with
//!   its invalidating lookup cache;
//! - [`categories`]: category rows with their whole-set cache, and the
//!   category-attribute links;
//! - [`product_attrs`]: the duplicate-variant check over attribute values;
//! - [`search`]: plain search-request payloads.

pub mod acl;
pub mod attributes;
pub mod authorization;
pub mod catalog;
pub mod categories;
pub mod product_attrs;
pub mod products;
pub mod search;
pub mod user_roles;
