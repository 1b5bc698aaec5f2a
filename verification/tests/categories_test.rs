use stores::acl::Acl;
use stores::attributes::{create_attribute, AttributeTable, AttributeType, NewAttribute};
use stores::authorization::{Action, Denied, Resource, Role};
use stores::catalog::Catalog;
use stores::categories::{
    add_attribute_to_category, delete_attribute_from_category, find_all_attributes,
    CategoryAttrsTable, CategoryStore, NewCatAttr, NewCategory, OldCatAttr, UpdateCategory,
};
use stores::products::RepoError;

fn superuser() -> Acl {
    Acl::Application { user_id: 1, roles: vec![Role::Superuser] }
}

fn plain_user() -> Acl {
    Acl::Application { user_id: 7, roles: vec![Role::User] }
}

fn seeded_attributes() -> AttributeTable {
    let catalog = Catalog::new();
    let mut attrs = AttributeTable::new();
    for (name, value_type) in
        [("color", AttributeType::Str), ("size", AttributeType::Float)]
    {
        let payload = NewAttribute { name: name.to_string(), value_type };
        create_attribute(&mut attrs, &superuser(), &catalog, payload).unwrap();
    }
    attrs
}

#[test]
fn category_links_resolve_to_attributes() {
    let catalog = Catalog::new();
    let attrs = seeded_attributes();
    let mut links = CategoryAttrsTable::new();
    add_attribute_to_category(&mut links, &superuser(), &catalog, NewCatAttr {
        cat_id: 5,
        attr_id: 1,
    })
    .unwrap();
    add_attribute_to_category(&mut links, &superuser(), &catalog, NewCatAttr {
        cat_id: 5,
        attr_id: 2,
    })
    .unwrap();
    add_attribute_to_category(&mut links, &superuser(), &catalog, NewCatAttr {
        cat_id: 6,
        attr_id: 2,
    })
    .unwrap();

    let found = find_all_attributes(&links, &attrs, &superuser(), &catalog, 5).unwrap();
    let names: Vec<&str> = found.iter().map(|a| a.name.as_str()).collect();
    assert_eq!(names, vec!["color", "size"]);
    let found = find_all_attributes(&links, &attrs, &superuser(), &catalog, 6).unwrap();
    assert_eq!(found.len(), 1);
    assert_eq!(found[0].value_type, AttributeType::Float);
    // A category with no links has no attributes.
    assert_eq!(find_all_attributes(&links, &attrs, &superuser(), &catalog, 9).unwrap(), vec![]);
}

#[test]
fn category_link_mutations_require_grants() {
    let catalog = Catalog::new();
    let mut links = CategoryAttrsTable::new();
    let denied = add_attribute_to_category(&mut links, &plain_user(), &catalog, NewCatAttr {
        cat_id: 5,
        attr_id: 1,
    });
    assert_eq!(denied, Err(Denied { resource: Resource::Categories, action: Action::Create }));
    assert!(links.rows.is_empty());

    add_attribute_to_category(&mut links, &superuser(), &catalog, NewCatAttr {
        cat_id: 5,
        attr_id: 1,
    })
    .unwrap();
    let denied = delete_attribute_from_category(&mut links, &plain_user(), &catalog, OldCatAttr {
        cat_id: 5,
        attr_id: 1,
    });
    assert_eq!(denied, Err(Denied { resource: Resource::Categories, action: Action::Delete }));
    assert_eq!(links.rows.len(), 1);

    delete_attribute_from_category(&mut links, &superuser(), &catalog, OldCatAttr {
        cat_id: 5,
        attr_id: 1,
    })
    .unwrap();
    assert!(links.rows.is_empty());
    // Unlinking an absent pair still succeeds and removes nothing.
    delete_attribute_from_category(&mut links, &superuser(), &catalog, OldCatAttr {
        cat_id: 5,
        attr_id: 1,
    })
    .unwrap();
}

#[test]
fn dangling_link_is_not_found() {
    let catalog = Catalog::new();
    let attrs = seeded_attributes();
    let mut links = CategoryAttrsTable::new();
    add_attribute_to_category(&mut links, &superuser(), &catalog, NewCatAttr {
        cat_id: 5,
        attr_id: 99,
    })
    .unwrap();
    let result = find_all_attributes(&links, &attrs, &superuser(), &catalog, 5);
    assert_eq!(result, Err(RepoError::NotFound));
    // Without a read grant the links are refused, not reported missing.
    let result = find_all_attributes(&links, &attrs, &plain_user(), &catalog, 5);
    assert_eq!(
        result,
        Err(RepoError::Denied(Denied { resource: Resource::Categories, action: Action::Read }))
    );
}

#[test]
fn category_store_serves_and_refills_cache() {
    let catalog = Catalog::new();
    let mut store = CategoryStore::new();
    let created = store
        .create(&superuser(), &catalog, NewCategory {
            name: "apparel".to_string(),
            parent_id: None,
            level: 0,
        })
        .unwrap();
    assert_eq!(created.id, 1);
    store
        .create(&superuser(), &catalog, NewCategory {
            name: "shoes".to_string(),
            parent_id: Some(1),
            level: 1,
        })
        .unwrap();
    // An edit leaves the cache empty; the first read fills it, the second
    // is served from it, both returning exactly the rows.
    assert!(store.cache.is_none());
    let tree = store.get_all();
    assert_eq!(tree.len(), 2);
    assert_eq!(tree[1].name, "shoes");
    assert_eq!(tree[1].parent_id, Some(1));
    assert!(store.cache.is_some());
    assert_eq!(store.get_all(), tree);
}

#[test]
fn category_update_clears_cache_and_keeps_fields() {
    let catalog = Catalog::new();
    let mut store = CategoryStore::new();
    store
        .create(&superuser(), &catalog, NewCategory {
            name: "apparel".to_string(),
            parent_id: None,
            level: 0,
        })
        .unwrap();
    store.get_all();
    assert!(store.cache.is_some());

    // A refused edit changes nothing, the cache included.
    let denied = store.update(&plain_user(), &catalog, 1, UpdateCategory {
        name: Some("noise".to_string()),
        parent_id: None,
        level: None,
    });
    assert_eq!(
        denied,
        Err(RepoError::Denied(Denied { resource: Resource::Categories, action: Action::Update }))
    );
    assert!(store.cache.is_some());
    assert_eq!(store.rows[0].name, "apparel");

    // A rename keeps the omitted fields and clears the cache in the same
    // operation, so the next read sees the new name.
    let renamed = store
        .update(&superuser(), &catalog, 1, UpdateCategory {
            name: Some("clothing".to_string()),
            parent_id: None,
            level: None,
        })
        .unwrap();
    assert_eq!(renamed.name, "clothing");
    assert_eq!(renamed.level, 0);
    assert!(store.cache.is_none());
    assert_eq!(store.get_all()[0].name, "clothing");

    // A missing id is not found.
    let missing = store.update(&superuser(), &catalog, 9, UpdateCategory {
        name: None,
        parent_id: None,
        level: None,
    });
    assert_eq!(missing, Err(RepoError::NotFound));
}
