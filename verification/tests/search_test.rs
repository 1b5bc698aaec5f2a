use stores::search::{ProductsSorting, SearchStore, StoresSearchOptions};

#[test]
fn search_payloads_carry_their_fields() {
    let options = StoresSearchOptions { category_id: Some(3), country: Some("de".to_string()) };
    let search = SearchStore { name: "store".to_string(), options: Some(options) };
    assert_eq!(search.name, "store");
    let options = search.options.unwrap();
    assert_eq!(options.category_id, Some(3));
    assert_eq!(options.country.as_deref(), Some("de"));
    let sorting = ProductsSorting::PriceDesc;
    assert!(matches!(sorting, ProductsSorting::PriceDesc));
}
