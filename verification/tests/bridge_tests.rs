use container_rack_web::bridge::{publish_location, read_initial};
use container_rack_web::config::{OrganizerConfig, SeedDefaults};
use container_rack_web::decimal::Decimal;
use container_rack_web::store::{render_gate, ConfigurationStore};
use leptos_router::ParamsMap;

fn query(pairs: &[(&str, &str)]) -> ParamsMap {
    let mut map = ParamsMap::new();
    for (name, value) in pairs {
        map.insert(name.to_string(), value.to_string());
    }
    map
}

fn config(rows: isize, columns: isize, material: Decimal, key: Option<&str>) -> OrganizerConfig {
    OrganizerConfig {
        rows,
        columns,
        material_thickness: material,
        container_key: key.map(|k| k.to_string()),
    }
}

#[test]
fn standard_seeds_are_eight_rows_two_columns_four_millimetres() {
    let seeds = SeedDefaults::standard(None);
    assert_eq!(seeds.seed_rows, 8);
    assert_eq!(seeds.seed_columns, 2);
    assert_eq!(seeds.seed_material_thickness, Decimal::from_integer(4));
    assert_eq!(seeds.seed_material_thickness.to_text(), "4");
    assert_eq!(seeds.seed_container_key, None);
    let keyed = SeedDefaults::standard(Some("acme-x1".to_string()));
    assert_eq!(keyed.seed_container_key, Some("acme-x1".to_string()));
    assert_eq!(keyed.seed_rows, 8);
}

#[test]
fn absent_parameters_seed_the_defaults_without_rendering() {
    let seeds = SeedDefaults::standard(None);
    let (initial, explicit) = read_initial(&query(&[]), &seeds);
    assert_eq!(initial, config(8, 2, Decimal::from_integer(4), None));
    assert!(!explicit);
    let store = ConfigurationStore::initialize(initial, explicit, |_| {
        panic!("nothing is rendered without explicit parameters")
    });
    assert!(!store.export_shown());
    assert!(!render_gate(store.output()));
    assert_eq!(store.output().markup, "");
    assert_eq!(store.output().suggested_filename, "");
}

#[test]
fn explicit_rows_and_columns_seed_the_config_and_render_at_once() {
    let seeds = SeedDefaults::standard(None);
    let (initial, explicit) = read_initial(&query(&[("rows", "5"), ("columns", "3")]), &seeds);
    assert_eq!(initial, config(5, 3, Decimal::from_integer(4), None));
    assert!(explicit);
    let store = ConfigurationStore::initialize(initial.clone(), explicit, |request| {
        assert_eq!(request.rows, 5);
        assert_eq!(request.columns, 3);
        assert_eq!(request.material_thickness, Decimal::from_integer(4));
        "<svg/>".to_string()
    });
    assert_eq!(store.config(), &initial);
    assert_eq!(store.output().markup, "<svg/>");
    assert_eq!(store.output().suggested_filename, "box_organizer_5x3_4mm.svg");
    assert!(store.export_shown());
}

#[test]
fn each_recognized_parameter_alone_counts_as_explicit() {
    let seeds = SeedDefaults::standard(None);
    assert!(read_initial(&query(&[("rows", "1")]), &seeds).1);
    assert!(read_initial(&query(&[("columns", "1")]), &seeds).1);
    assert!(read_initial(&query(&[("material", "1")]), &seeds).1);
    assert!(read_initial(&query(&[("rows", "")]), &seeds).1);
    assert!(read_initial(&query(&[("material", "thick")]), &seeds).1);
}

#[test]
fn unrecognized_parameters_are_ignored() {
    let seeds = SeedDefaults::standard(None);
    let (initial, explicit) = read_initial(&query(&[("depth", "9"), ("Rows", "3")]), &seeds);
    assert_eq!(initial, config(8, 2, Decimal::from_integer(4), None));
    assert!(!explicit);
}

#[test]
fn malformed_parameters_fall_back_to_their_own_seed() {
    let seeds = SeedDefaults::standard(None);
    let (initial, explicit) = read_initial(
        &query(&[("rows", "abc"), ("columns", "3x"), ("material", "2,5")]),
        &seeds,
    );
    assert_eq!(initial, config(8, 2, Decimal::from_integer(4), None));
    assert!(explicit);
}

#[test]
fn zero_and_negative_numbers_are_decoded_like_any_other_number() {
    let seeds = SeedDefaults::standard(None);
    let (initial, _) = read_initial(
        &query(&[("rows", "0"), ("columns", "-3"), ("material", "-1.5")]),
        &seeds,
    );
    assert_eq!(initial, config(0, -3, Decimal::from_parts(true, 15, 1), None));
    let (initial, explicit) = read_initial(&query(&[("rows", "-3")]), &seeds);
    assert_eq!(initial, config(-3, 2, Decimal::from_integer(4), None));
    assert!(explicit);
}

#[test]
fn material_parameter_may_carry_an_exponent() {
    let seeds = SeedDefaults::standard(None);
    let (initial, _) = read_initial(&query(&[("material", "1e1")]), &seeds);
    assert_eq!(initial, config(8, 2, Decimal::from_integer(10), None));
}

#[test]
fn publish_writes_negative_numbers_with_their_sign() {
    let published = config(-3, -12, Decimal::from_parts(true, 25, 1), None);
    assert_eq!(publish_location(&published, "/"), "/?rows=-3&columns=-12&material=-2.5");
}

#[test]
fn material_parameter_is_decoded_as_a_decimal() {
    let seeds = SeedDefaults::standard(None);
    let (initial, explicit) = read_initial(&query(&[("material", "2.5")]), &seeds);
    assert_eq!(initial, config(8, 2, Decimal::from_parts(false, 25, 1), None));
    assert!(explicit);
}

#[test]
fn container_parameter_is_read_where_the_view_has_a_catalog() {
    let seeds = SeedDefaults::standard(Some("first".to_string()));
    let (seeded, explicit) = read_initial(&query(&[]), &seeds);
    assert_eq!(seeded.container_key, Some("first".to_string()));
    assert!(!explicit);
    let (chosen, explicit) = read_initial(&query(&[("container", "acme-x1")]), &seeds);
    assert_eq!(chosen, config(8, 2, Decimal::from_integer(4), Some("acme-x1")));
    assert!(explicit);
}

#[test]
fn container_parameter_is_not_recognized_without_a_catalog() {
    let seeds = SeedDefaults::standard(None);
    let (initial, explicit) = read_initial(&query(&[("container", "acme-x1")]), &seeds);
    assert_eq!(initial.container_key, None);
    assert!(!explicit);
}

#[test]
fn seeds_are_an_input_of_the_bridge() {
    let seeds = SeedDefaults {
        seed_rows: 3,
        seed_columns: 4,
        seed_material_thickness: Decimal::from_parts(false, 65, 1),
        seed_container_key: None,
    };
    let (initial, _) = read_initial(&query(&[("columns", "x")]), &seeds);
    assert_eq!(initial, config(3, 4, Decimal::from_parts(false, 65, 1), None));
}

#[test]
fn publish_appends_the_parameters_to_the_path() {
    let published = config(5, 3, Decimal::from_parts(false, 25, 1), Some("acme-x1"));
    assert_eq!(
        publish_location(&published, "/"),
        "/?rows=5&columns=3&material=2.5&container=acme-x1"
    );
}

#[test]
fn publish_leaves_the_container_out_where_there_is_none() {
    let published = config(8, 2, Decimal::from_integer(4), None);
    assert_eq!(publish_location(&published, "/rack"), "/rack?rows=8&columns=2&material=4");
    assert_eq!(publish_location(&published, ""), "?rows=8&columns=2&material=4");
}

#[test]
fn publish_writes_the_container_key_as_it_is() {
    let published = config(1, 1, Decimal::from_integer(0), Some("a b&c=d"));
    assert_eq!(
        publish_location(&published, "/"),
        "/?rows=1&columns=1&material=0&container=a b&c=d"
    );
}
