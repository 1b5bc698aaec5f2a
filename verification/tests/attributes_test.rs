use stores::acl::Acl;
use stores::attributes::{
    create_attribute, find_attribute, get_attribute, update_attribute, AttributeTable,
    AttributeType, NewAttribute, UpdateAttribute,
};
use stores::authorization::{Action, Denied, Resource, Role};
use stores::catalog::Catalog;
use stores::products::RepoError;

fn superuser() -> Acl {
    Acl::Application { user_id: 1, roles: vec![Role::Superuser] }
}

fn plain_user() -> Acl {
    Acl::Application { user_id: 7, roles: vec![Role::User] }
}

#[test]
fn attribute_create_requires_all_grant() {
    let catalog = Catalog::new();
    let mut table = AttributeTable::new();
    let payload = NewAttribute { name: "color".to_string(), value_type: AttributeType::Str };

    let denied = create_attribute(&mut table, &plain_user(), &catalog, payload.clone());
    assert_eq!(denied, Err(Denied { resource: Resource::Attributes, action: Action::Create }));
    assert!(table.rows.is_empty());

    let created = create_attribute(&mut table, &superuser(), &catalog, payload).unwrap();
    assert_eq!(created.id, 1);
    assert_eq!(created.name, "color");
    assert_eq!(created.value_type, AttributeType::Str);
    assert_eq!(table.rows.len(), 1);
}

#[test]
fn attribute_find_by_name() {
    let catalog = Catalog::new();
    let mut table = AttributeTable::new();
    let payload = NewAttribute { name: "size".to_string(), value_type: AttributeType::Float };
    create_attribute(&mut table, &superuser(), &catalog, payload).unwrap();

    let found = find_attribute(&table, &superuser(), &catalog, &"size".to_string()).unwrap();
    assert_eq!(found.id, 1);
    assert_eq!(found.value_type, AttributeType::Float);

    // An absent name is not found; an existing one without a Read grant is
    // refused, not hidden: attribute definitions are reference data.
    let missing = find_attribute(&table, &superuser(), &catalog, &"color".to_string());
    assert_eq!(missing, Err(RepoError::NotFound));
    let refused = find_attribute(&table, &plain_user(), &catalog, &"size".to_string());
    assert_eq!(
        refused,
        Err(RepoError::Denied(Denied { resource: Resource::Attributes, action: Action::Read }))
    );
}

#[test]
fn attribute_update_keeps_omitted_fields() {
    let catalog = Catalog::new();
    let mut table = AttributeTable::new();
    let payload = NewAttribute { name: "size".to_string(), value_type: AttributeType::Float };
    create_attribute(&mut table, &superuser(), &catalog, payload).unwrap();

    // An empty payload leaves the row as it was.
    let kept =
        update_attribute(&mut table, &superuser(), &catalog, 1, UpdateAttribute { name: None })
            .unwrap();
    assert_eq!(kept.name, "size");
    assert_eq!(kept.value_type, AttributeType::Float);

    // A rename keeps the value type.
    let renamed = update_attribute(
        &mut table,
        &superuser(),
        &catalog,
        1,
        UpdateAttribute { name: Some("waist".to_string()) },
    )
    .unwrap();
    assert_eq!(renamed.name, "waist");
    assert_eq!(renamed.value_type, AttributeType::Float);
    assert_eq!(table.rows[0].name, "waist");

    // A missing id is not found; a refused update changes nothing.
    let missing =
        update_attribute(&mut table, &superuser(), &catalog, 9, UpdateAttribute { name: None });
    assert_eq!(missing, Err(RepoError::NotFound));
    let refused = update_attribute(
        &mut table,
        &plain_user(),
        &catalog,
        1,
        UpdateAttribute { name: Some("hip".to_string()) },
    );
    assert_eq!(
        refused,
        Err(RepoError::Denied(Denied { resource: Resource::Attributes, action: Action::Update }))
    );
    assert_eq!(table.rows[0].name, "waist");
}

#[test]
fn attribute_reads_by_id_are_cached_and_invalidated() {
    let catalog = Catalog::new();
    let mut table = AttributeTable::new();
    let payload = NewAttribute { name: "color".to_string(), value_type: AttributeType::Str };
    create_attribute(&mut table, &superuser(), &catalog, payload).unwrap();

    // The first read fills the cache; the second is served from it.
    assert!(table.cache.is_empty());
    let first = get_attribute(&mut table, &superuser(), &catalog, 1).unwrap();
    assert_eq!(first.name, "color");
    assert_eq!(table.cache.len(), 1);
    assert_eq!(get_attribute(&mut table, &superuser(), &catalog, 1).unwrap(), first);

    // A rename drops the cached entry in the same operation, so a later
    // read sees the new name, not the stale one.
    update_attribute(&mut table, &superuser(), &catalog, 1, UpdateAttribute {
        name: Some("shade".to_string()),
    })
    .unwrap();
    assert!(table.cache.is_empty());
    assert_eq!(get_attribute(&mut table, &superuser(), &catalog, 1).unwrap().name, "shade");

    // A missing id is not found; a read without the grant is refused.
    assert_eq!(get_attribute(&mut table, &superuser(), &catalog, 9), Err(RepoError::NotFound));
    assert_eq!(
        get_attribute(&mut table, &plain_user(), &catalog, 1),
        Err(RepoError::Denied(Denied { resource: Resource::Attributes, action: Action::Read }))
    );
}
