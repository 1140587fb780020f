//! Planning factory production lines from the game's recipes and machines.
//!
//! A [`Database`] of items, fluids, recipes and machines is read from the
//! game's prototype dump ([`dump`]). [`plan`] turns the rates wanted of some
//! resources into a [`ProductionLine`]: nodes of machines running recipes,
//! and the flows of resources between them, from raw inputs to outputs. A
//! line can be drawn as a Graphviz digraph ([`export`]).
//!
//! Amounts are of any type that implements [`Quantity`].

pub mod assoc;
pub mod config;
pub mod database;
pub mod dump;
pub mod error;
pub mod export;
pub mod icons;
pub mod ids;
pub mod key;
pub mod line;
pub mod machine;
pub mod plan;
pub mod quantity;
pub mod recipe;
pub mod resource;
pub mod text;

pub use assoc::AssocMap;
pub use config::{PlanConfig, PlanRequest};
pub use database::Database;
pub use error::Error;
pub use icons::{FactorioInstall, IconResolver};
pub use ids::{CraftingCategory, FluidId, ItemId, MachineId, RecipeId};
pub use line::{EdgeEndpoint, NodeId, ProductionEdge, ProductionLine, ProductionNode};
pub use machine::{Machine, MachineKind};
pub use plan::plan;
pub use quantity::Quantity;
pub use recipe::{Ingredient, Product, ProductAmount, Recipe};
pub use resource::{Fluid, IconRef, Item, ResourceId};
