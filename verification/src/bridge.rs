//! The bridge between a configuration and the shareable location of the
//! view: the initial configuration is read from the query parameters of the
//! location, and a committed configuration is written back as a new location.

use vstd::prelude::*;
use leptos_router::ParamsMap;
use crate::codec::{
    decode_decimal, decode_integer, decoded_decimal, decoded_integer, format_integer,
    integer_text, lemma_integer_text_round_trip,
};
use crate::config::{holdable, ConfigView, OrganizerConfig, SeedDefaults};
use crate::decimal::{decimal_value_text, lemma_decimal_text_round_trip};

verus! {

/// The router's map of query parameters.
#[verifier::external_type_specification]
#[verifier::external_body]
pub struct ExParamsMap(leptos_router::ParamsMap);

/// The entries of a parameter map: each name that occurs in it, with the
/// value stored under that name.
pub uninterp spec fn params_entries(params: ParamsMap) -> Map<Seq<char>, Seq<char>>;

/// `ParamsMap::get` looks the name up: it returns the value stored under the
/// name, and `None` where the map holds no such name.
pub assume_specification<'a>[ ParamsMap::get ](params: &'a ParamsMap, key: &str) -> (value: Option<
    &'a String,
>)
    ensures
        value is Some <==> params_entries(*params).contains_key(key@),
        value matches Some(v) ==> v@ == params_entries(*params)[key@],
;

/// The value stored under `name`, if any.
pub open spec fn entry(entries: Map<Seq<char>, Seq<char>>, name: Seq<char>) -> Option<Seq<char>> {
    if entries.contains_key(name) {
        Some(entries[name])
    } else {
        None
    }
}

/// The container key of the initial configuration. A view without a catalog
/// has none; otherwise it is the `container` parameter, or the seed where the
/// parameter is absent.
pub open spec fn initial_container_key(
    entries: Map<Seq<char>, Seq<char>>,
    seed: Option<Seq<char>>,
) -> Option<Seq<char>> {
    match seed {
        Some(key) => match entry(entries, "container"@) {
            Some(given) => Some(given),
            None => Some(key),
        },
        None => None,
    }
}

/// The configuration that the query parameters and the seeds determine: each
/// recognized parameter is decoded against its seed.
pub open spec fn initial_config(entries: Map<Seq<char>, Seq<char>>, seeds: ConfigView) -> ConfigView {
    ConfigView {
        rows: decoded_integer(entry(entries, "rows"@), seeds.rows),
        columns: decoded_integer(entry(entries, "columns"@), seeds.columns),
        material_thickness: decoded_decimal(
            entry(entries, "material"@),
            seeds.material_thickness,
        ),
        container_key: initial_container_key(entries, seeds.container_key),
    }
}

/// At least one recognized parameter is present. `container` is recognized
/// only where the view has a catalog.
pub open spec fn has_explicit_parameters(
    entries: Map<Seq<char>, Seq<char>>,
    seeds: ConfigView,
) -> bool {
    ||| entries.contains_key("rows"@)
    ||| entries.contains_key("columns"@)
    ||| entries.contains_key("material"@)
    ||| seeds.container_key is Some && entries.contains_key("container"@)
}

/// The string slice inside an optional string reference.
fn optional_str<'a>(value: Option<&'a String>) -> (text: Option<&'a str>)
    ensures
        text is Some <==> value is Some,
        text matches Some(t) ==> t@ == value->0@,
{
    match value {
        Some(s) => Some(s.as_str()),
        None => None,
    }
}

/// Reads the initial configuration from the query parameters. The flag says
/// whether any recognized parameter was present, in which case the view
/// renders at once.
pub fn read_initial(params: &ParamsMap, seeds: &SeedDefaults) -> (initial: (OrganizerConfig, bool))
    ensures
        initial.0@ == initial_config(params_entries(*params), seeds@),
        initial.1 == has_explicit_parameters(params_entries(*params), seeds@),
{
    let rows_text = params.get("rows");
    let columns_text = params.get("columns");
    let material_text = params.get("material");
    let container_text = params.get("container");
    let rows = decode_integer(optional_str(rows_text), seeds.seed_rows);
    let columns = decode_integer(optional_str(columns_text), seeds.seed_columns);
    let material_thickness = decode_decimal(
        optional_str(material_text),
        seeds.seed_material_thickness,
    );
    let container_key = match &seeds.seed_container_key {
        Some(seed) => match container_text {
            Some(given) => Some(given.clone()),
            None => Some(seed.clone()),
        },
        None => None,
    };
    let container_given = seeds.seed_container_key.is_some() && container_text.is_some();
    let explicit = rows_text.is_some() || columns_text.is_some() || material_text.is_some()
        || container_given;
    (OrganizerConfig { rows, columns, material_thickness, container_key }, explicit)
}

/// One parameter as a location carries it: `name=value`.
pub open spec fn parameter_text(name: Seq<char>, value: Seq<char>) -> Seq<char> {
    name + "="@ + value
}

/// The text after `?` in a published location: the parameters `rows`,
/// `columns`, `material` and, where the configuration names a container,
/// `container`, joined by `&`. The container key is written as it is.
pub open spec fn query_text(config: ConfigView) -> Seq<char> {
    parameter_text("rows"@, integer_text(config.rows)) + "&"@ + parameter_text(
        "columns"@,
        integer_text(config.columns),
    ) + "&"@ + parameter_text("material"@, decimal_value_text(config.material_thickness))
        + match config.container_key {
        Some(key) => "&"@ + parameter_text("container"@, key),
        None => Seq::<char>::empty(),
    }
}

/// The location that reflects `config`: the path, `?`, and the parameters.
pub open spec fn location_text(path: Seq<char>, config: ConfigView) -> Seq<char> {
    path + "?"@ + query_text(config)
}

/// The parameters that `query_text` writes, by name.
pub open spec fn published_entries(config: ConfigView) -> Map<Seq<char>, Seq<char>> {
    let always = Map::<Seq<char>, Seq<char>>::empty().insert(
        "rows"@,
        integer_text(config.rows),
    ).insert("columns"@, integer_text(config.columns)).insert(
        "material"@,
        decimal_value_text(config.material_thickness),
    );
    match config.container_key {
        Some(key) => always.insert("container"@, key),
        None => always,
    }
}

/// Appends `name=value` to `out`.
fn push_parameter(out: &mut String, name: &str, value: &str)
    ensures
        final(out)@ == old(out)@ + parameter_text(name@, value@),
{
    out.append(name);
    out.append("=");
    out.append(value);
}

/// The location to replace the current one with, so that it reflects
/// `config`. Navigating to it is left to the caller.
pub fn publish_location(config: &OrganizerConfig, current_path: &str) -> (location: String)
    ensures
        location@ == location_text(current_path@, config@),
{
    let mut location = String::from_str(current_path);
    location.append("?");
    push_parameter(&mut location, "rows", format_integer(config.rows).as_str());
    location.append("&");
    push_parameter(&mut location, "columns", format_integer(config.columns).as_str());
    location.append("&");
    push_parameter(&mut location, "material", config.material_thickness.to_text().as_str());
    match &config.container_key {
        Some(key) => {
            location.append("&");
            push_parameter(&mut location, "container", key.as_str());
        },
        None => {},
    }
    proof {
        let tail = match config@.container_key {
            Some(key) => "&"@ + parameter_text("container"@, key),
            None => Seq::<char>::empty(),
        };
        assert(location@ =~= current_path@ + "?"@ + (parameter_text(
            "rows"@,
            integer_text(config@.rows),
        ) + "&"@ + parameter_text("columns"@, integer_text(config@.columns)) + "&"@
            + parameter_text("material"@, decimal_value_text(config@.material_thickness)) + tail));
    }
    location
}

/// Publishing loses nothing: a view that reads the parameters which were
/// written for a configuration starts with that configuration, whatever its
/// seeds are, and renders at once.
pub proof fn lemma_published_parameters_read_back(config: ConfigView, seeds: ConfigView)
    requires
        holdable(config),
        config.container_key is Some <==> seeds.container_key is Some,
    ensures
        initial_config(published_entries(config), seeds) == config,
        has_explicit_parameters(published_entries(config), seeds),
{
    reveal_strlit("rows");
    reveal_strlit("columns");
    reveal_strlit("material");
    reveal_strlit("container");
    lemma_integer_text_round_trip(config.rows);
    lemma_integer_text_round_trip(config.columns);
    lemma_decimal_text_round_trip(config.material_thickness);
    let entries = published_entries(config);
    assert("rows"@.len() == 4 && "columns"@.len() == 7 && "material"@.len() == 8 && "container"@.len()
        == 9);
    assert("rows"@ != "columns"@ && "rows"@ != "material"@ && "rows"@ != "container"@);
    assert("columns"@ != "material"@ && "columns"@ != "container"@);
    assert("material"@ != "container"@);
    assert(entry(entries, "rows"@) == Some(integer_text(config.rows)));
    assert(entry(entries, "columns"@) == Some(integer_text(config.columns)));
    assert(entry(entries, "material"@) == Some(decimal_value_text(config.material_thickness)));
}

} // verus!
