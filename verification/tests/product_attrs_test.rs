use stores::product_attrs::{check_attributes_values_exist, AttrValue, ProdAttrValue};

fn row(prod_id: i32, attr_id: i32, value: &str) -> ProdAttrValue {
    ProdAttrValue { prod_id, attr_id, value: value.to_string() }
}

fn req(attr_id: i32, value: &str) -> AttrValue {
    AttrValue { attr_id, value: value.to_string() }
}

#[test]
fn duplicate_valuation_refused() {
    let base = vec![row(30, 1, "red"), row(30, 2, "XL"), row(31, 1, "blue"), row(31, 2, "XL")];
    let available = vec![1, 2];
    // Exactly variant 30's valuation.
    let wanted = vec![req(1, "red"), req(2, "XL")];
    assert!(check_attributes_values_exist(&base, &wanted, &available).is_err());
    // Exactly variant 31's valuation.
    let wanted = vec![req(1, "blue"), req(2, "XL")];
    assert!(check_attributes_values_exist(&base, &wanted, &available).is_err());
}

#[test]
fn fresh_valuation_accepted() {
    let base = vec![row(30, 1, "red"), row(30, 2, "XL"), row(31, 1, "blue"), row(31, 2, "XL")];
    let available = vec![1, 2];
    let wanted = vec![req(1, "red"), req(2, "M")];
    assert!(check_attributes_values_exist(&base, &wanted, &available).is_ok());
    // No existing variants at all.
    assert!(check_attributes_values_exist(&Vec::new(), &wanted, &available).is_ok());
}

#[test]
fn latest_stored_value_wins() {
    // Variant 30's value for attribute 1 was updated from red to green.
    let base = vec![row(30, 1, "red"), row(30, 1, "green")];
    let available = vec![1];
    assert!(check_attributes_values_exist(&base, &vec![req(1, "green")], &available).is_err());
    assert!(check_attributes_values_exist(&base, &vec![req(1, "red")], &available).is_ok());
}

#[test]
fn available_attribute_defaults_to_empty() {
    // Variant 30 has no row for attribute 2, which is available on the
    // base product, so its value for it is the empty default.
    let base = vec![row(30, 1, "red")];
    let available = vec![1, 2];
    assert!(check_attributes_values_exist(&base, &vec![req(1, "red"), req(2, "")], &available)
        .is_err());
    // An attribute that is not available either does not match anything.
    assert!(check_attributes_values_exist(&base, &vec![req(1, "red"), req(3, "")], &available)
        .is_ok());
}
