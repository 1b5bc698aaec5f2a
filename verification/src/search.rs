//! Plain search-request payloads.
//!
//! These carry a query from the caller to the search backend untouched;
//! the backend itself is an external collaborator. They are kept here so
//! callers and the surrounding application share one shape for them.

use vstd::prelude::*;

verus! {

/// Sort orders a product search may request.
#[derive(Clone, Copy, Debug, PartialEq, Eq, Structural)]
pub enum ProductsSorting {
    Views,
    PriceAsc,
    PriceDesc,
    Discount,
}

/// Optional narrowing of a store search.
#[derive(Clone, Debug)]
pub struct StoresSearchOptions {
    pub category_id: Option<i32>,
    pub country: Option<String>,
}

/// A store search: a name query with optional narrowing.
#[derive(Clone, Debug)]
pub struct SearchStore {
    pub name: String,
    pub options: Option<StoresSearchOptions>,
}

} // verus!
