//! Prototypes as the dump writes them, before they become database entries.

use vstd::prelude::*;

verus! {

/// Why a dump could not be read into a database.
#[derive(Debug)]
pub enum DumpError {
    /// A resource's type is neither `item` nor `fluid`.
    UnknownResourceType(String),
    /// An energy amount could not be read.
    InvalidEnergy(String),
    /// A prototype does not have the shape its kind requires.
    MalformedPrototype { kind: String, name: String, reason: String },
}

/// One layer of a layered icon.
#[derive(Debug)]
pub struct RawIconLayer {
    pub icon: String,
    pub icon_size: Option<u32>,
}

/// The icon fields that a prototype may have: a single icon, or layers.
#[derive(Debug)]
pub struct RawIconFields {
    pub icon: Option<String>,
    pub icon_size: Option<u32>,
    pub icons: Option<Vec<RawIconLayer>>,
}

/// A recipe prototype.
#[derive(Debug)]
pub struct RawRecipe<N> {
    pub category: String,
    pub energy_required: N,
    pub ingredients: Vec<RawIngredient<N>>,
    pub results: Vec<RawProduct<N>>,
    pub allow_productivity: bool,
}

/// The crafting category of a recipe that names none.
pub fn default_category() -> (s: String)
    ensures
        s@ == "crafting"@,
{
    "crafting".to_owned()
}

/// An ingredient of a recipe prototype.
#[derive(Debug)]
pub struct RawIngredient<N> {
    pub ty: String,
    pub name: String,
    pub amount: N,
}

/// The type of a resource that names none.
pub fn default_resource_type() -> (s: String)
    ensures
        s@ == "item"@,
{
    "item".to_owned()
}

/// A product of a recipe or a resource prototype.
#[derive(Debug)]
pub struct RawProduct<N> {
    pub ty: String,
    pub name: String,
    pub amount: Option<N>,
    pub amount_min: Option<N>,
    pub amount_max: Option<N>,
    pub probability: N,
}

/// An item prototype.
#[derive(Debug)]
pub struct RawItem {
    pub stack_size: u32,
    pub icon: RawIconFields,
}

/// The stack size of an item that names none.
pub fn default_stack_size() -> (n: u32)
    ensures
        n == 1,
{
    1
}

/// A fluid prototype.
#[derive(Debug)]
pub struct RawFluid<N> {
    pub default_temperature: N,
    pub icon: RawIconFields,
}

/// A crafting machine prototype.
#[derive(Debug)]
pub struct RawMachine<N> {
    pub crafting_categories: Vec<String>,
    pub crafting_speed: N,
    pub energy_usage: String,
    pub module_slots: Option<u32>,
    pub module_specification: Option<RawModuleSpec>,
    pub icon: RawIconFields,
}

/// The module specification of a machine prototype.
#[derive(Debug)]
pub struct RawModuleSpec {
    pub module_slots: u32,
}

/// A mining drill prototype.
#[derive(Debug)]
pub struct RawMiningDrill<N> {
    pub resource_categories: Vec<String>,
    pub mining_speed: N,
    pub energy_usage: String,
    pub module_slots: Option<u32>,
    pub module_specification: Option<RawModuleSpec>,
    pub icon: RawIconFields,
}

/// A resource prototype: something in the ground that can be mined.
#[derive(Debug)]
pub struct RawResource<N> {
    pub category: String,
    pub minable: Option<RawMinable<N>>,
}

/// The resource category of a resource that names none.
pub fn default_resource_category() -> (s: String)
    ensures
        s@ == "basic-solid"@,
{
    "basic-solid".to_owned()
}

/// What mining a resource takes and yields.
#[derive(Debug)]
pub struct RawMinable<N> {
    pub mining_time: N,
    pub result: Option<String>,
    pub count: Option<u32>,
    pub results: Vec<RawProduct<N>>,
    pub required_fluid: Option<String>,
    pub fluid_amount: N,
}

/// A dump, kind by kind: each kind of prototype lists its prototypes by
/// name, each read or with the reason why it could not be. The item kinds
/// and the crafting machine kinds are listed in the order of
/// `item_prototypes` and `machine_prototypes`, a kind that the dump lacks
/// being `None`.
#[derive(Debug)]
pub struct RawDump<N> {
    pub items: Vec<Option<Vec<(String, Result<RawItem, String>)>>>,
    pub fluids: Option<Vec<(String, Result<RawFluid<N>, String>)>>,
    pub machines: Vec<Option<Vec<(String, Result<RawMachine<N>, String>)>>>,
    pub mining_drills: Option<Vec<(String, Result<RawMiningDrill<N>, String>)>>,
    pub recipes: Option<Vec<(String, Result<RawRecipe<N>, String>)>>,
    pub resources: Option<Vec<(String, Result<RawResource<N>, String>)>>,
}

} // verus!
