use container_rack_web::catalog::{
    container_label, container_options, first_container_key, load_view_catalog, select_container,
    ContainerDefinition, ContainerLink,
};
use container_rack_web::decimal::Decimal;

fn entry(key: &str, vendor: &str, model: &str) -> ContainerDefinition {
    ContainerDefinition {
        key: key.to_string(),
        vendor: vendor.to_string(),
        model: model.to_string(),
        description: String::new(),
        links: vec![ContainerLink { title: "page".to_string(), url: "https://example.org/".to_string() }],
    }
}

#[test]
fn label_is_vendor_colon_model() {
    assert_eq!(container_label(&entry("acme-x1", "Acme", "X1")), "Acme: X1");
    assert_eq!(container_label(&entry("k", "", "")), ": ");
}

#[test]
fn options_follow_the_catalog_in_order() {
    let catalog = vec![entry("acme-x1", "Acme", "X1"), entry("acme-x2", "Acme", "X2")];
    assert_eq!(
        container_options(&catalog),
        vec![
            ("acme-x1".to_string(), "Acme: X1".to_string()),
            ("acme-x2".to_string(), "Acme: X2".to_string()),
        ]
    );
    assert_eq!(container_options(&Vec::new()), Vec::new());
}

#[test]
fn first_key_is_that_of_the_first_entry() {
    let catalog = vec![entry("acme-x1", "Acme", "X1"), entry("acme-x2", "Acme", "X2")];
    assert_eq!(first_container_key(&catalog), Some("acme-x1".to_string()));
    assert_eq!(first_container_key(&Vec::new()), None);
}

#[test]
fn selection_finds_the_first_entry_with_the_key() {
    let catalog = vec![
        entry("acme-x1", "Acme", "X1"),
        entry("acme-x2", "Acme", "X2"),
        entry("acme-x2", "Acme", "X2 again"),
    ];
    assert_eq!(select_container(&catalog, &Some("acme-x1".to_string())), Some(0));
    assert_eq!(select_container(&catalog, &Some("acme-x2".to_string())), Some(1));
}

#[test]
fn selection_falls_back_to_the_first_entry() {
    let catalog = vec![entry("acme-x1", "Acme", "X1"), entry("acme-x2", "Acme", "X2")];
    assert_eq!(select_container(&catalog, &None), Some(0));
    assert_eq!(select_container(&catalog, &Some("unknown".to_string())), Some(0));
    assert_eq!(select_container(&Vec::new(), &None), None);
    assert_eq!(select_container(&Vec::new(), &Some("acme-x1".to_string())), None);
}

#[test]
fn loaded_catalog_offers_its_entries_and_seeds_the_first_key() {
    let loaded = load_view_catalog();
    assert!(!loaded.entries.is_empty());
    assert_eq!(loaded.options, container_options(&loaded.entries));
    assert_eq!(loaded.seeds.seed_rows, 8);
    assert_eq!(loaded.seeds.seed_columns, 2);
    assert_eq!(loaded.seeds.seed_material_thickness, Decimal::from_integer(4));
    assert_eq!(loaded.seeds.seed_container_key, first_container_key(&loaded.entries));
    assert_eq!(loaded.seeds.seed_container_key, Some(loaded.entries[0].key.clone()));
}

#[test]
fn loaded_catalog_holds_the_containers_of_the_rack_generator() {
    let loaded = load_view_catalog();
    let first = &loaded.entries[0];
    assert_eq!(first.key, "smartstore-classic_1");
    assert_eq!(first.vendor, "SmartStore");
    assert_eq!(first.model, "Classic 1");
    assert_eq!(loaded.options[0], ("smartstore-classic_1".to_string(), "SmartStore: Classic 1".to_string()));
    assert_eq!(first.links.len(), 3);
    assert_eq!(first.links[0].title, "SmartStore Classic 1");
    assert!(first.links[0].url.starts_with("https://www.orthexgroup.com/"));
    assert_eq!(select_container(&loaded.entries, &loaded.seeds.seed_container_key), Some(0));
}
