//! Product attribute values and the duplicate-variant check.
//!
//! A base product owns several variants, each described by attribute
//! values. A new or updated variant must not repeat an existing variant's
//! complete attribute valuation. The check compares the requested values
//! against every existing variant's valuation, where a variant's value for
//! an attribute is its latest stored row for it, falling back to the empty
//! default for attributes merely available on the base product.

use vstd::prelude::*;

verus! {

/// A requested attribute value for a variant.
#[derive(Clone, Debug)]
pub struct AttrValue {
    pub attr_id: i32,
    pub value: String,
}

/// A stored attribute value row of an existing variant.
#[derive(Clone, Debug)]
pub struct ProdAttrValue {
    pub prod_id: i32,
    pub attr_id: i32,
    pub value: String,
}

/// The duplicate-variant refusal.
#[derive(Clone, Copy, Debug, PartialEq, Eq, Structural)]
pub struct DuplicateVariant {}

/// The value a variant carries for an attribute: the latest stored row for
/// `(prod_id, attr_id)` wins; an attribute without a row but available on
/// the base product defaults to the empty value; anything else is absent.
pub open spec fn spec_attr_value(
    base: Seq<ProdAttrValue>,
    available: Seq<i32>,
    prod_id: i32,
    attr_id: i32,
) -> Option<Seq<char>>
    decreases base.len(),
{
    if base.len() > 0 {
        if base.last().prod_id == prod_id && base.last().attr_id == attr_id {
            Some(base.last().value@)
        } else {
            spec_attr_value(base.drop_last(), available, prod_id, attr_id)
        }
    } else if available.contains(attr_id) {
        Some(Seq::empty())
    } else {
        None
    }
}

/// Whether any stored row belongs to the variant.
pub open spec fn spec_has_prod(base: Seq<ProdAttrValue>, prod_id: i32) -> bool {
    exists|i: int| 0 <= i < base.len() && (#[trigger] base[i]).prod_id == prod_id
}

/// Whether the variant's valuation matches every requested value.
pub open spec fn spec_matches_all(
    base: Seq<ProdAttrValue>,
    available: Seq<i32>,
    attributes: Seq<AttrValue>,
    prod_id: i32,
) -> bool {
    forall|k: int|
        0 <= k < attributes.len() ==> spec_attr_value(
            base,
            available,
            prod_id,
            (#[trigger] attributes[k]).attr_id,
        ) == Some(attributes[k].value@)
}

/// Whether some existing variant already carries exactly the requested
/// values.
pub open spec fn spec_duplicate_exists(
    base: Seq<ProdAttrValue>,
    available: Seq<i32>,
    attributes: Seq<AttrValue>,
) -> bool {
    exists|p: i32|
        #[trigger] spec_has_prod(base, p) && spec_matches_all(base, available, attributes, p)
}

/// The variant's value for one attribute, scanning latest row first.
fn attr_value_for(
    base: &Vec<ProdAttrValue>,
    available: &Vec<i32>,
    prod_id: i32,
    attr_id: i32,
) -> (value: Option<String>)
    ensures
        match value {
            Some(v) => spec_attr_value(base@, available@, prod_id, attr_id) == Some(v@),
            None => spec_attr_value(base@, available@, prod_id, attr_id) is None,
        },
{
    let mut i = base.len();
    proof {
        assert(base@.take(i as int) =~= base@);
    }
    while i > 0
        invariant
            i <= base.len(),
            spec_attr_value(base@, available@, prod_id, attr_id) == spec_attr_value(
                base@.take(i as int),
                available@,
                prod_id,
                attr_id,
            ),
        decreases i,
    {
        i = i - 1;
        proof {
            assert(base@.take(i as int + 1).drop_last() =~= base@.take(i as int));
            assert(base@.take(i as int + 1).last() == base@[i as int]);
        }
        if base[i].prod_id == prod_id && base[i].attr_id == attr_id {
            return Some(base[i].value.clone());
        }
    }
    proof {
        assert(base@.take(0) =~= Seq::<ProdAttrValue>::empty());
    }
    let n = available.len();
    let mut k: usize = 0;
    while k < n
        invariant
            k <= n,
            n == available.len(),
            forall|j: int| 0 <= j < k ==> available@[j] != attr_id,
            spec_attr_value(base@, available@, prod_id, attr_id) == (if available@.contains(
                attr_id,
            ) {
                Some(Seq::<char>::empty())
            } else {
                None::<Seq<char>>
            }),
        decreases n - k,
    {
        if available[k] == attr_id {
            proof {
                assert(available@.contains(attr_id));
            }
            return Some(String::new());
        }
        k = k + 1;
    }
    proof {
        assert(!available@.contains(attr_id)) by {
            if available@.contains(attr_id) {
                let j = choose|j: int| 0 <= j < available@.len() && available@[j] == attr_id;
                assert(available@[j] != attr_id);
            }
        }
    }
    None
}

/// Whether one existing variant matches every requested value.
fn matches_all(
    base: &Vec<ProdAttrValue>,
    available: &Vec<i32>,
    attributes: &Vec<AttrValue>,
    prod_id: i32,
) -> (matches: bool)
    ensures
        matches == spec_matches_all(base@, available@, attributes@, prod_id),
{
    let n = attributes.len();
    let mut k: usize = 0;
    while k < n
        invariant
            k <= n,
            n == attributes.len(),
            forall|j: int|
                0 <= j < k ==> spec_attr_value(
                    base@,
                    available@,
                    prod_id,
                    (#[trigger] attributes@[j]).attr_id,
                ) == Some(attributes@[j].value@),
        decreases n - k,
    {
        let requested = &attributes[k];
        match attr_value_for(base, available, prod_id, requested.attr_id) {
            Some(stored) => {
                if !(stored == requested.value) {
                    return false;
                }
            },
            None => {
                return false;
            },
        }
        k = k + 1;
    }
    true
}

/// Refuses a requested valuation that would repeat an existing variant of
/// the base product: returns the refusal exactly when some existing
/// variant already carries every requested value.
pub fn check_attributes_values_exist(
    base_attrs: &Vec<ProdAttrValue>,
    attributes: &Vec<AttrValue>,
    available_attributes: &Vec<i32>,
) -> (result: Result<(), DuplicateVariant>)
    ensures
        result is Err <==> spec_duplicate_exists(base_attrs@, available_attributes@, attributes@),
{
    let n = base_attrs.len();
    let mut i: usize = 0;
    while i < n
        invariant
            i <= n,
            n == base_attrs.len(),
            forall|p: i32|
                #[trigger] spec_has_prod(base_attrs@.take(i as int), p) ==> !spec_matches_all(
                    base_attrs@,
                    available_attributes@,
                    attributes@,
                    p,
                ),
        decreases n - i,
    {
        let prod_id = base_attrs[i].prod_id;
        let mut seen_before = false;
        let mut j: usize = 0;
        while j < i
            invariant
                j <= i,
                i < n,
                n == base_attrs.len(),
                prod_id == base_attrs@[i as int].prod_id,
                seen_before == spec_has_prod(base_attrs@.take(j as int), prod_id),
            decreases i - j,
        {
            proof {
                assert(forall|m: int|
                    0 <= m < j + 1 ==> base_attrs@.take(j as int + 1)[m] == base_attrs@[m]);
                assert(forall|m: int|
                    0 <= m < j ==> base_attrs@.take(j as int)[m] == base_attrs@[m]);
                if spec_has_prod(base_attrs@.take(j as int), prod_id) {
                    let w = choose|w: int|
                        0 <= w < j && (#[trigger] base_attrs@.take(j as int)[w]).prod_id == prod_id;
                    assert((base_attrs@.take(j as int + 1)[w]).prod_id == prod_id);
                }
            }
            if base_attrs[j].prod_id == prod_id {
                seen_before = true;
                proof {
                    assert((base_attrs@.take(j as int + 1)[j as int]).prod_id == prod_id);
                }
            }
            j = j + 1;
        }
        if !seen_before {
            if matches_all(base_attrs, available_attributes, attributes, prod_id) {
                proof {
                    assert((base_attrs@[i as int]).prod_id == prod_id);
                    assert(spec_has_prod(base_attrs@, prod_id));
                }
                return Err(DuplicateVariant {});
            }
        }
        proof {
            assert forall|p: i32| #[trigger]
                spec_has_prod(base_attrs@.take(i as int + 1), p) implies !spec_matches_all(
                base_attrs@,
                available_attributes@,
                attributes@,
                p,
            ) by {
                let w = choose|w: int|
                    0 <= w < i + 1 && (#[trigger] base_attrs@.take(i as int + 1)[w]).prod_id == p;
                assert(base_attrs@.take(i as int + 1)[w] == base_attrs@[w]);
                if w < i {
                    assert((base_attrs@.take(i as int)[w]).prod_id == p);
                    assert(spec_has_prod(base_attrs@.take(i as int), p));
                } else {
                    assert(p == prod_id);
                    if seen_before {
                        let v = choose|v: int|
                            0 <= v < i && (#[trigger] base_attrs@.take(i as int)[v]).prod_id
                                == prod_id;
                        assert(spec_has_prod(base_attrs@.take(i as int), p));
                    }
                }
            }
        }
        i = i + 1;
    }
    proof {
        assert(base_attrs@.take(n as int) =~= base_attrs@);
        if spec_duplicate_exists(base_attrs@, available_attributes@, attributes@) {
            let p = choose|p: i32|
                #[trigger] spec_has_prod(base_attrs@, p) && spec_matches_all(
                    base_attrs@,
                    available_attributes@,
                    attributes@,
                    p,
                );
            assert(spec_has_prod(base_attrs@.take(n as int), p));
        }
    }
    Ok(())
}

} // verus!
