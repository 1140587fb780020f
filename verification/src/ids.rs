//! Names of items, fluids, recipes, machines and crafting categories.
//!
//! Each name is a string; two names are equal exactly when their
//! characters are equal.

use vstd::prelude::*;

use crate::key::KeyEq;

verus! {

/// The name of an item.
#[derive(Debug)]
pub struct ItemId(String);

impl View for ItemId {
    type V = Seq<char>;

    closed spec fn view(&self) -> Seq<char> {
        self.0@
    }
}

impl ItemId {
    /// The item with the given name.
    pub fn new(name: &str) -> (id: Self)
        ensures
            id@ == name@,
    {
        ItemId(name.to_owned())
    }

    /// The item with a name known at compile time.
    pub fn from_static(name: &'static str) -> (id: Self)
        ensures
            id@ == name@,
    {
        ItemId(name.to_owned())
    }

    /// The name as a string slice.
    pub fn as_str(&self) -> (s: &str)
        ensures
            s@ == self@,
    {
        self.0.as_str()
    }
}

impl Clone for ItemId {
    fn clone(&self) -> (id: Self)
        ensures
            id@ == self@,
    {
        ItemId(self.0.clone())
    }
}

impl PartialEq for ItemId {
    fn eq(&self, other: &Self) -> (r: bool) {
        self.0 == other.0
    }
}

impl vstd::std_specs::cmp::PartialEqSpecImpl for ItemId {
    open spec fn obeys_eq_spec() -> bool {
        true
    }

    open spec fn eq_spec(&self, other: &ItemId) -> bool {
        self@ == other@
    }
}

impl Eq for ItemId {
}

impl KeyEq for ItemId {
    fn key_eq(&self, other: &Self) -> (r: bool) {
        self.0 == other.0
    }
}

impl From<String> for ItemId {
    fn from(name: String) -> (id: Self) {
        ItemId(name)
    }
}

impl vstd::std_specs::convert::FromSpecImpl<String> for ItemId {
    open spec fn obeys_from_spec() -> bool {
        true
    }

    closed spec fn from_spec(name: String) -> ItemId {
        ItemId(name)
    }
}

/// The item id made from a name has that name.
pub proof fn law_item_id_from_name(name: String)
    ensures
        <ItemId as vstd::std_specs::convert::FromSpec<String>>::from_spec(name)@ == name@,
{
}

/// The name of a fluid.
#[derive(Debug)]
pub struct FluidId(String);

impl View for FluidId {
    type V = Seq<char>;

    closed spec fn view(&self) -> Seq<char> {
        self.0@
    }
}

impl FluidId {
    /// The fluid with the given name.
    pub fn new(name: &str) -> (id: Self)
        ensures
            id@ == name@,
    {
        FluidId(name.to_owned())
    }

    /// The fluid with a name known at compile time.
    pub fn from_static(name: &'static str) -> (id: Self)
        ensures
            id@ == name@,
    {
        FluidId(name.to_owned())
    }

    /// The name as a string slice.
    pub fn as_str(&self) -> (s: &str)
        ensures
            s@ == self@,
    {
        self.0.as_str()
    }
}

impl Clone for FluidId {
    fn clone(&self) -> (id: Self)
        ensures
            id@ == self@,
    {
        FluidId(self.0.clone())
    }
}

impl PartialEq for FluidId {
    fn eq(&self, other: &Self) -> (r: bool) {
        self.0 == other.0
    }
}

impl vstd::std_specs::cmp::PartialEqSpecImpl for FluidId {
    open spec fn obeys_eq_spec() -> bool {
        true
    }

    open spec fn eq_spec(&self, other: &FluidId) -> bool {
        self@ == other@
    }
}

impl Eq for FluidId {
}

impl KeyEq for FluidId {
    fn key_eq(&self, other: &Self) -> (r: bool) {
        self.0 == other.0
    }
}

impl From<String> for FluidId {
    fn from(name: String) -> (id: Self) {
        FluidId(name)
    }
}

impl vstd::std_specs::convert::FromSpecImpl<String> for FluidId {
    open spec fn obeys_from_spec() -> bool {
        true
    }

    closed spec fn from_spec(name: String) -> FluidId {
        FluidId(name)
    }
}

/// The fluid id made from a name has that name.
pub proof fn law_fluid_id_from_name(name: String)
    ensures
        <FluidId as vstd::std_specs::convert::FromSpec<String>>::from_spec(name)@ == name@,
{
}

/// The name of a recipe.
#[derive(Debug)]
pub struct RecipeId(String);

impl View for RecipeId {
    type V = Seq<char>;

    closed spec fn view(&self) -> Seq<char> {
        self.0@
    }
}

impl RecipeId {
    /// The recipe with the given name.
    pub fn new(name: &str) -> (id: Self)
        ensures
            id@ == name@,
    {
        RecipeId(name.to_owned())
    }

    /// The recipe with a name known at compile time.
    pub fn from_static(name: &'static str) -> (id: Self)
        ensures
            id@ == name@,
    {
        RecipeId(name.to_owned())
    }

    /// The name as a string slice.
    pub fn as_str(&self) -> (s: &str)
        ensures
            s@ == self@,
    {
        self.0.as_str()
    }
}

impl Clone for RecipeId {
    fn clone(&self) -> (id: Self)
        ensures
            id@ == self@,
    {
        RecipeId(self.0.clone())
    }
}

impl PartialEq for RecipeId {
    fn eq(&self, other: &Self) -> (r: bool) {
        self.0 == other.0
    }
}

impl vstd::std_specs::cmp::PartialEqSpecImpl for RecipeId {
    open spec fn obeys_eq_spec() -> bool {
        true
    }

    open spec fn eq_spec(&self, other: &RecipeId) -> bool {
        self@ == other@
    }
}

impl Eq for RecipeId {
}

impl KeyEq for RecipeId {
    fn key_eq(&self, other: &Self) -> (r: bool) {
        self.0 == other.0
    }
}

impl From<String> for RecipeId {
    fn from(name: String) -> (id: Self) {
        RecipeId(name)
    }
}

impl vstd::std_specs::convert::FromSpecImpl<String> for RecipeId {
    open spec fn obeys_from_spec() -> bool {
        true
    }

    closed spec fn from_spec(name: String) -> RecipeId {
        RecipeId(name)
    }
}

/// The recipe id made from a name has that name.
pub proof fn law_recipe_id_from_name(name: String)
    ensures
        <RecipeId as vstd::std_specs::convert::FromSpec<String>>::from_spec(name)@ == name@,
{
}

/// The name of a machine.
#[derive(Debug)]
pub struct MachineId(String);

impl View for MachineId {
    type V = Seq<char>;

    closed spec fn view(&self) -> Seq<char> {
        self.0@
    }
}

impl MachineId {
    /// The machine with the given name.
    pub fn new(name: &str) -> (id: Self)
        ensures
            id@ == name@,
    {
        MachineId(name.to_owned())
    }

    /// The machine with a name known at compile time.
    pub fn from_static(name: &'static str) -> (id: Self)
        ensures
            id@ == name@,
    {
        MachineId(name.to_owned())
    }

    /// The name as a string slice.
    pub fn as_str(&self) -> (s: &str)
        ensures
            s@ == self@,
    {
        self.0.as_str()
    }
}

impl Clone for MachineId {
    fn clone(&self) -> (id: Self)
        ensures
            id@ == self@,
    {
        MachineId(self.0.clone())
    }
}

impl PartialEq for MachineId {
    fn eq(&self, other: &Self) -> (r: bool) {
        self.0 == other.0
    }
}

impl vstd::std_specs::cmp::PartialEqSpecImpl for MachineId {
    open spec fn obeys_eq_spec() -> bool {
        true
    }

    open spec fn eq_spec(&self, other: &MachineId) -> bool {
        self@ == other@
    }
}

impl Eq for MachineId {
}

impl KeyEq for MachineId {
    fn key_eq(&self, other: &Self) -> (r: bool) {
        self.0 == other.0
    }
}

impl From<String> for MachineId {
    fn from(name: String) -> (id: Self) {
        MachineId(name)
    }
}

impl vstd::std_specs::convert::FromSpecImpl<String> for MachineId {
    open spec fn obeys_from_spec() -> bool {
        true
    }

    closed spec fn from_spec(name: String) -> MachineId {
        MachineId(name)
    }
}

/// The machine id made from a name has that name.
pub proof fn law_machine_id_from_name(name: String)
    ensures
        <MachineId as vstd::std_specs::convert::FromSpec<String>>::from_spec(name)@ == name@,
{
}

/// The name of a crafting category.
#[derive(Debug)]
pub struct CraftingCategory(String);

impl View for CraftingCategory {
    type V = Seq<char>;

    closed spec fn view(&self) -> Seq<char> {
        self.0@
    }
}

impl CraftingCategory {
    /// The crafting category with the given name.
    pub fn new(name: &str) -> (id: Self)
        ensures
            id@ == name@,
    {
        CraftingCategory(name.to_owned())
    }

    /// The crafting category with a name known at compile time.
    pub fn from_static(name: &'static str) -> (id: Self)
        ensures
            id@ == name@,
    {
        CraftingCategory(name.to_owned())
    }

    /// The name as a string slice.
    pub fn as_str(&self) -> (s: &str)
        ensures
            s@ == self@,
    {
        self.0.as_str()
    }
}

impl Clone for CraftingCategory {
    fn clone(&self) -> (id: Self)
        ensures
            id@ == self@,
    {
        CraftingCategory(self.0.clone())
    }
}

impl PartialEq for CraftingCategory {
    fn eq(&self, other: &Self) -> (r: bool) {
        self.0 == other.0
    }
}

impl vstd::std_specs::cmp::PartialEqSpecImpl for CraftingCategory {
    open spec fn obeys_eq_spec() -> bool {
        true
    }

    open spec fn eq_spec(&self, other: &CraftingCategory) -> bool {
        self@ == other@
    }
}

impl Eq for CraftingCategory {
}

impl KeyEq for CraftingCategory {
    fn key_eq(&self, other: &Self) -> (r: bool) {
        self.0 == other.0
    }
}

impl From<String> for CraftingCategory {
    fn from(name: String) -> (id: Self) {
        CraftingCategory(name)
    }
}

impl vstd::std_specs::convert::FromSpecImpl<String> for CraftingCategory {
    open spec fn obeys_from_spec() -> bool {
        true
    }

    closed spec fn from_spec(name: String) -> CraftingCategory {
        CraftingCategory(name)
    }
}

/// The category made from a name has that name.
pub proof fn law_category_from_name(name: String)
    ensures
        <CraftingCategory as vstd::std_specs::convert::FromSpec<String>>::from_spec(name)@ == name@,
{
}

} // verus!
