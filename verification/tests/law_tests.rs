use container_rack_web::bridge::{publish_location, read_initial};
use container_rack_web::config::{OrganizerConfig, SeedDefaults};
use container_rack_web::decimal::Decimal;
use container_rack_web::store::suggested_filename;
use leptos_router::ParamsMap;

fn samples() -> Vec<OrganizerConfig> {
    let mut all = Vec::new();
    for rows in [0isize, 1, 5, 8, 10, 11, 100, -1, -10, -11, isize::MAX, isize::MIN] {
        for columns in [0isize, 1, 2, 3, 11, -1, -11] {
            for material in [
                Decimal::from_integer(0),
                Decimal::from_integer(4),
                Decimal::from_integer(40),
                Decimal::from_parts(false, 25, 1),
                Decimal::from_parts(true, 25, 1),
                Decimal::from_parts(false, 5, 3),
                Decimal::from_parts(false, 1, 1),
                Decimal::from_parts(false, 11, 1),
            ] {
                all.push(OrganizerConfig {
                    rows,
                    columns,
                    material_thickness: material,
                    container_key: Some("acme-x1".to_string()),
                });
            }
        }
    }
    all
}

fn parameters_of(location: &str) -> ParamsMap {
    let query = location.split_once('?').expect("a published location has a query").1;
    let mut map = ParamsMap::new();
    for pair in query.split('&') {
        let (name, value) = pair.split_once('=').expect("a parameter has a value");
        map.insert(name.to_string(), value.to_string());
    }
    map
}

#[test]
fn different_parameters_get_different_file_names() {
    let all = samples();
    for a in &all {
        for b in &all {
            let same_name = suggested_filename(a) == suggested_filename(b);
            let same_parameters = a.rows == b.rows
                && a.columns == b.columns
                && a.material_thickness == b.material_thickness;
            assert_eq!(same_name, same_parameters);
        }
    }
}

#[test]
fn file_name_holds_the_text_of_each_parameter() {
    for config in samples() {
        let name = suggested_filename(&config);
        let expected = format!(
            "box_organizer_{}x{}_{}mm.svg",
            config.rows,
            config.columns,
            config.material_thickness.to_text()
        );
        assert_eq!(name, expected);
    }
}

#[test]
fn published_parameters_read_back_as_the_configuration() {
    let seeds = SeedDefaults::standard(Some("first".to_string()));
    for config in samples() {
        let location = publish_location(&config, "/rack");
        let (initial, explicit) = read_initial(&parameters_of(&location), &seeds);
        assert_eq!(initial, config);
        assert!(explicit);
    }
}

#[test]
fn published_parameters_read_back_without_a_catalog() {
    let seeds = SeedDefaults::standard(None);
    let config = OrganizerConfig {
        rows: 5,
        columns: 3,
        material_thickness: Decimal::from_parts(false, 25, 1),
        container_key: None,
    };
    let location = publish_location(&config, "/");
    assert_eq!(location, "/?rows=5&columns=3&material=2.5");
    let (initial, explicit) = read_initial(&parameters_of(&location), &seeds);
    assert_eq!(initial, config);
    assert!(explicit);
}
