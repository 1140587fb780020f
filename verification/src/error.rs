//! The ways in which planning can fail.

use vstd::prelude::*;

use crate::ids::{CraftingCategory, MachineId, RecipeId};
use crate::resource::ResourceId;

verus! {

/// Why no plan could be made.
#[derive(Debug)]
pub enum Error {
    /// No recipe produces the resource, and it was not marked raw.
    NoRecipe(ResourceId),
    /// Several recipes produce the resource and none was chosen for it.
    AmbiguousRecipe { resource: ResourceId, candidates: Vec<RecipeId> },
    /// The recipe chosen for the resource does not produce it.
    RecipeDoesNotProduce(RecipeId, ResourceId),
    /// The recipe is not in the database.
    UnknownRecipe(RecipeId),
    /// The machine is not in the database.
    UnknownMachine(MachineId),
    /// No machine of the database supports the crafting category.
    NoMachineForCategory(CraftingCategory),
    /// The machine does not support the category that the recipe needs.
    MachineCategoryMismatch { machine: MachineId, recipe: RecipeId, category: CraftingCategory },
    /// The recipe yields nothing of the resource.
    NoYield(RecipeId, ResourceId),
    /// The recipe needs, through its ingredients, its own product.
    Cycle(RecipeId),
}

} // verus!
