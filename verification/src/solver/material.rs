//! Material property definitions as read from the deck.
use vstd::prelude::*;

verus! {

/// A temperature dependent table of a scalar: `(temperature, value)` rows as
/// given in the deck, in the order given.
#[derive(Debug)]
pub struct TemperatureDependentLUT {
    pub data: Vec<(String, String)>,
}

/// The rows of a table as plain values.
pub open spec fn row_views(v: Seq<(String, String)>) -> Seq<(Seq<char>, Seq<char>)> {
    v.map_values(|r: (String, String)| (r.0@, r.1@))
}

impl TemperatureDependentLUT {
    pub open spec fn rows(&self) -> Seq<(Seq<char>, Seq<char>)> {
        row_views(self.data@)
    }

    /// A table with the given rows.
    pub fn new(data: Vec<(String, String)>) -> (res: Self)
        ensures
            res.rows() == row_views(data@),
    {
        TemperatureDependentLUT { data }
    }
}

/// The rows of an optional table.
pub open spec fn lut_rows(l: Option<TemperatureDependentLUT>) -> Option<Seq<(Seq<char>, Seq<char>)>> {
    match l {
        Some(t) => Some(t.rows()),
        None => None,
    }
}

/// A material: name, property tables, reference temperature of thermal
/// expansion, number of solution-dependent state variables.
#[derive(Debug)]
pub struct BaseMaterial {
    pub name: String,
    pub density: Option<TemperatureDependentLUT>,
    pub youngs_modulus: Option<TemperatureDependentLUT>,
    pub poisson_ratio: Option<TemperatureDependentLUT>,
    pub thermal_expansion: Option<TemperatureDependentLUT>,
    pub reference_temperature: String,
    pub num_depvars: usize,
}

/// A material as plain values.
pub struct MaterialModel {
    pub name: Seq<char>,
    pub density: Option<Seq<(Seq<char>, Seq<char>)>>,
    pub youngs_modulus: Option<Seq<(Seq<char>, Seq<char>)>>,
    pub poisson_ratio: Option<Seq<(Seq<char>, Seq<char>)>>,
    pub thermal_expansion: Option<Seq<(Seq<char>, Seq<char>)>>,
    pub reference_temperature: Seq<char>,
    pub num_depvars: usize,
}

impl View for BaseMaterial {
    type V = MaterialModel;

    open spec fn view(&self) -> MaterialModel {
        MaterialModel {
            name: self.name@,
            density: lut_rows(self.density),
            youngs_modulus: lut_rows(self.youngs_modulus),
            poisson_ratio: lut_rows(self.poisson_ratio),
            thermal_expansion: lut_rows(self.thermal_expansion),
            reference_temperature: self.reference_temperature@,
            num_depvars: self.num_depvars,
        }
    }
}

/// The views of a vector of materials.
pub open spec fn material_views(v: Seq<BaseMaterial>) -> Seq<MaterialModel> {
    v.map_values(|m: BaseMaterial| m@)
}

impl BaseMaterial {
    /// Returns the unique name of the material.
    pub fn name(&self) -> (res: &str)
        ensures
            res@ == self.name@,
    {
        self.name.as_str()
    }

    /// Returns the number of solution-dependent state variables (SDVs).
    pub fn num_state_variables(&self) -> (res: usize)
        ensures
            res == self.num_depvars,
    {
        self.num_depvars
    }
}

} // verus!
