//! The configuration of an organizer and the seed defaults it starts from.

use vstd::prelude::*;
use crate::codec::optional_text;
use crate::decimal::{canonical, representable, Decimal, DecimalValue};

verus! {

/// The mathematical content of a configuration.
pub struct ConfigView {
    pub rows: int,
    pub columns: int,
    pub material_thickness: DecimalValue,
    pub container_key: Option<Seq<char>>,
}

/// What every configuration held in memory satisfies: the counts fit in a
/// machine word and the thickness is a decimal in shortest form that fits.
pub open spec fn holdable(config: ConfigView) -> bool {
    &&& isize::MIN <= config.rows <= isize::MAX
    &&& isize::MIN <= config.columns <= isize::MAX
    &&& canonical(config.material_thickness)
    &&& representable(config.material_thickness)
}

/// A complete set of organizer parameters. Every field always holds a value;
/// no range is enforced on any of them.
#[derive(Debug, PartialEq, Eq)]
pub struct OrganizerConfig {
    /// Rows of the grid.
    pub rows: isize,
    /// Columns of the grid.
    pub columns: isize,
    /// Thickness of the sheet material, in millimetres.
    pub material_thickness: Decimal,
    /// The selected container, where the view offers a choice of containers.
    pub container_key: Option<String>,
}

impl View for OrganizerConfig {
    type V = ConfigView;

    open spec fn view(&self) -> ConfigView {
        ConfigView {
            rows: self.rows as int,
            columns: self.columns as int,
            material_thickness: self.material_thickness@,
            container_key: optional_text(self.container_key),
        }
    }
}

/// A copy of an optional string.
pub fn copy_optional_text(text: &Option<String>) -> (copy: Option<String>)
    ensures
        copy == *text,
{
    match text {
        Some(s) => Some(s.clone()),
        None => None,
    }
}

impl Clone for OrganizerConfig {
    fn clone(&self) -> (copy: Self)
        ensures
            copy == *self,
    {
        OrganizerConfig {
            rows: self.rows,
            columns: self.columns,
            material_thickness: self.material_thickness,
            container_key: copy_optional_text(&self.container_key),
        }
    }
}

/// The values a configuration takes where nothing else is known. They are an
/// input of the engine, not constants scattered through it.
#[derive(Debug, PartialEq, Eq)]
pub struct SeedDefaults {
    pub seed_rows: isize,
    pub seed_columns: isize,
    pub seed_material_thickness: Decimal,
    /// The key of the first catalog entry; `None` where the view has no
    /// catalog of containers.
    pub seed_container_key: Option<String>,
}

impl View for SeedDefaults {
    type V = ConfigView;

    open spec fn view(&self) -> ConfigView {
        ConfigView {
            rows: self.seed_rows as int,
            columns: self.seed_columns as int,
            material_thickness: self.seed_material_thickness@,
            container_key: optional_text(self.seed_container_key),
        }
    }
}

/// The standard seed values: eight rows, two columns, four millimetres.
pub open spec fn standard_seeds(container_key: Option<Seq<char>>) -> ConfigView {
    ConfigView {
        rows: 8,
        columns: 2,
        material_thickness: DecimalValue { negative: false, mantissa: 4, scale: 0 },
        container_key,
    }
}

impl SeedDefaults {
    /// The standard seed values with the given container key.
    pub fn standard(seed_container_key: Option<String>) -> (seeds: SeedDefaults)
        ensures
            seeds@ == standard_seeds(optional_text(seed_container_key)),
    {
        SeedDefaults {
            seed_rows: 8,
            seed_columns: 2,
            seed_material_thickness: Decimal::from_integer(4),
            seed_container_key,
        }
    }
}

} // verus!
