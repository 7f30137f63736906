//! The catalog of containers that a rack can be made for, as the view reads
//! it: a key and a label for each entry, and the entry that a key selects.

use vstd::prelude::*;
use crate::codec::optional_text;
use crate::config::{standard_seeds, SeedDefaults};

verus! {

/// A link to a page about a container.
#[derive(Debug, PartialEq, Eq)]
pub struct ContainerLink {
    pub title: String,
    pub url: String,
}

/// One entry of the catalog.
#[derive(Debug, PartialEq, Eq)]
pub struct ContainerDefinition {
    /// The identifier of the entry.
    pub key: String,
    pub vendor: String,
    pub model: String,
    pub description: String,
    pub links: Vec<ContainerLink>,
}

/// `container_rack_lib::supported_containers` lists the containers that the
/// rack generator knows, each with the key that `Container::key` gives it.
/// The list is written out in the generator and holds at least one
/// container; nothing else is claimed of it.
#[verifier::external_body]
fn load_catalog() -> (catalog: Vec<ContainerDefinition>)
    ensures
        catalog.len() > 0,
{
    container_rack_lib::supported_containers().into_iter().map(
        |c| ContainerDefinition {
            key: c.key(),
            vendor: c.vendor,
            model: c.model,
            description: c.description,
            links: c.links.into_iter().map(
                |l| ContainerLink { title: l.title, url: l.url.to_string() },
            ).collect(),
        },
    ).collect()
}

/// The label of an entry: `{vendor}: {model}`.
pub open spec fn label_text(vendor: Seq<char>, model: Seq<char>) -> Seq<char> {
    vendor + ": "@ + model
}

/// The keys of a catalog, in order.
pub open spec fn catalog_keys(catalog: Seq<ContainerDefinition>) -> Seq<Seq<char>> {
    Seq::new(catalog.len(), |i: int| catalog[i].key@)
}

/// The key of the first entry, if there is one.
pub open spec fn first_key(keys: Seq<Seq<char>>) -> Option<Seq<char>> {
    if keys.len() > 0 {
        Some(keys[0])
    } else {
        None
    }
}

/// The label shown for `definition`.
pub fn container_label(definition: &ContainerDefinition) -> (label: String)
    ensures
        label@ == label_text(definition.vendor@, definition.model@),
{
    let mut label = definition.vendor.clone();
    label.append(": ");
    label.append(definition.model.as_str());
    label
}

/// `options` holds, for each entry of `catalog` and in the same order, the
/// key of the entry and its label.
pub open spec fn options_of(
    options: Seq<(String, String)>,
    catalog: Seq<ContainerDefinition>,
) -> bool {
    &&& options.len() == catalog.len()
    &&& forall|i: int|
        0 <= i < catalog.len() ==> (#[trigger] options[i]).0@ == catalog[i].key@ && options[i].1@
            == label_text(catalog[i].vendor@, catalog[i].model@)
}

/// The choices that the view offers: for each entry, in order, its key and
/// its label.
pub fn container_options(catalog: &Vec<ContainerDefinition>) -> (options: Vec<(String, String)>)
    ensures
        options_of(options@, catalog@),
{
    let mut options: Vec<(String, String)> = Vec::new();
    let mut i: usize = 0;
    while i < catalog.len()
        invariant
            i <= catalog.len(),
            options_of(options@, catalog@.take(i as int)),
        decreases catalog.len() - i,
    {
        let definition = &catalog[i];
        options.push((definition.key.clone(), container_label(definition)));
        i += 1;
    }
    proof {
        assert(catalog@.take(catalog.len() as int) =~= catalog@);
    }
    options
}

/// The key of the first entry of the catalog: the container that a
/// configuration names where nothing else was chosen.
pub fn first_container_key(catalog: &Vec<ContainerDefinition>) -> (key: Option<String>)
    ensures
        optional_text(key) == first_key(catalog_keys(catalog@)),
{
    if catalog.len() > 0 {
        Some(catalog[0].key.clone())
    } else {
        None
    }
}

/// `index` is the entry that `selected` picks among `keys`: the first entry
/// with that key, or the first entry of all where no key is selected or no
/// entry has it.
pub open spec fn selects(keys: Seq<Seq<char>>, selected: Option<Seq<char>>, index: int) -> bool {
    &&& 0 <= index < keys.len()
    &&& match selected {
        Some(key) => if keys.contains(key) {
            keys[index] == key && forall|j: int| 0 <= j < index ==> keys[j] != key
        } else {
            index == 0
        },
        None => index == 0,
    }
}

/// The entry of the catalog to render with. No entry is selected only where
/// the catalog is empty; a key that no entry has is not an error.
pub fn select_container(catalog: &Vec<ContainerDefinition>, selected: &Option<String>) -> (index:
    Option<usize>)
    ensures
        index is None <==> catalog.len() == 0,
        index matches Some(i) ==> selects(catalog_keys(catalog@), optional_text(*selected), i as int),
{
    if catalog.len() == 0 {
        return None;
    }
    let ghost keys = catalog_keys(catalog@);
    match selected {
        Some(key) => {
            let mut i: usize = 0;
            while i < catalog.len()
                invariant
                    i <= catalog.len(),
                    keys == catalog_keys(catalog@),
                    optional_text(*selected) == Some(key@),
                    forall|j: int| 0 <= j < i ==> keys[j] != key@,
                decreases catalog.len() - i,
            {
                if catalog[i].key == *key {
                    assert(keys[i as int] == key@);
                    assert(keys.contains(key@));
                    return Some(i);
                }
                i += 1;
            }
            Some(0)
        },
        None => Some(0),
    }
}

/// What a view needs of the catalog when it is set up: the entries, the
/// choices to offer, and the seed defaults with the first entry's key.
pub struct ViewCatalog {
    pub entries: Vec<ContainerDefinition>,
    pub options: Vec<(String, String)>,
    pub seeds: SeedDefaults,
}

/// Loads the catalog of the rack generator, once, for a view. The catalog
/// is not empty. Whatever it holds, the choices are those of its entries and
/// the seeds are the standard ones with the key of its first entry.
pub fn load_view_catalog() -> (loaded: ViewCatalog)
    ensures
        loaded.entries.len() > 0,
        options_of(loaded.options@, loaded.entries@),
        loaded.seeds@ == standard_seeds(first_key(catalog_keys(loaded.entries@))),
        loaded.seeds@.container_key is Some,
{
    let entries = load_catalog();
    let options = container_options(&entries);
    let seeds = SeedDefaults::standard(first_container_key(&entries));
    ViewCatalog { entries, options, seeds }
}

} // verus!
