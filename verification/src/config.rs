//! What a plan is asked for, and the choices that steer it.

use vstd::prelude::*;

use crate::assoc::{has_key, updated, value_of, AssocMap};
use crate::ids::{CraftingCategory, MachineId, RecipeId};
use crate::quantity::Quantity;
use crate::resource::ResourceId;

verus! {

/// Choices that override the planner's defaults: the recipe to use for a
/// resource, the machine to use for a crafting category, and the resources
/// to take as raw inputs rather than produce.
#[derive(Debug)]
pub struct PlanConfig {
    pub recipe_for: AssocMap<ResourceId, RecipeId>,
    pub machine_for_category: AssocMap<CraftingCategory, MachineId>,
    pub raw: AssocMap<ResourceId, ()>,
}

impl PlanConfig {
    /// Well-formedness: each table has unique keys.
    pub open spec fn wf(&self) -> bool {
        &&& self.recipe_for.wf()
        &&& self.machine_for_category.wf()
        &&& self.raw.wf()
    }

    /// The configuration that overrides nothing.
    pub fn new() -> (c: Self)
        ensures
            c.wf(),
            c.recipe_for@.len() == 0,
            c.machine_for_category@.len() == 0,
            c.raw@.len() == 0,
    {
        PlanConfig { recipe_for: AssocMap::new(), machine_for_category: AssocMap::new(), raw: AssocMap::new() }
    }

    /// The configuration that also produces `resource` with `recipe`.
    pub fn with_recipe(self, resource: ResourceId, recipe: RecipeId) -> (c: Self)
        requires
            self.wf(),
        ensures
            c.wf(),
            updated(self.recipe_for@, c.recipe_for@, resource@, recipe),
            c.machine_for_category@ == self.machine_for_category@,
            c.raw@ == self.raw@,
    {
        let mut c = self;
        c.recipe_for.insert(resource, recipe);
        c
    }

    /// The configuration that also runs recipes of `category` on `machine`.
    pub fn with_machine(self, category: CraftingCategory, machine: MachineId) -> (c: Self)
        requires
            self.wf(),
        ensures
            c.wf(),
            updated(self.machine_for_category@, c.machine_for_category@, category@, machine),
            c.recipe_for@ == self.recipe_for@,
            c.raw@ == self.raw@,
    {
        let mut c = self;
        c.machine_for_category.insert(category, machine);
        c
    }

    /// The configuration that also takes `resource` as a raw input.
    pub fn with_raw(self, resource: ResourceId) -> (c: Self)
        requires
            self.wf(),
        ensures
            c.wf(),
            has_key(c.raw@, resource@),
            forall|k: (bool, Seq<char>)| k != resource@ ==> has_key(c.raw@, k) == has_key(self.raw@, k),
            c.recipe_for@ == self.recipe_for@,
            c.machine_for_category@ == self.machine_for_category@,
    {
        let mut c = self;
        c.raw.insert(resource, ());
        c
    }
}

/// A request for a plan: the rate wanted of each target, and the
/// configuration to plan with.
#[derive(Debug)]
pub struct PlanRequest<N> {
    pub targets: AssocMap<ResourceId, N>,
    pub config: PlanConfig,
}

impl<N: Quantity> PlanRequest<N> {
    /// Well-formedness: the tables have unique keys.
    pub open spec fn wf(&self) -> bool {
        &&& self.targets.wf()
        &&& self.config.wf()
    }

    /// The request for nothing, with the default configuration.
    pub fn new() -> (r: Self)
        ensures
            r.wf(),
            r.targets@.len() == 0,
            r.config.recipe_for@.len() == 0,
            r.config.machine_for_category@.len() == 0,
            r.config.raw@.len() == 0,
    {
        PlanRequest { targets: AssocMap::new(), config: PlanConfig::new() }
    }

    /// The request that also wants `rate` of `resource`, added to what it
    /// already wants of it (starting from zero).
    pub fn want(self, resource: ResourceId, rate: N) -> (r: Self)
        requires
            self.wf(),
        ensures
            r.wf(),
            has_key(r.targets@, resource@),
            value_of(r.targets@, resource@) == (if has_key(self.targets@, resource@) {
                value_of(self.targets@, resource@)
            } else {
                N::spec_zero()
            }).spec_plus(rate),
            forall|k: (bool, Seq<char>)| k != resource@ ==> has_key(r.targets@, k) == has_key(self.targets@, k),
            forall|k: (bool, Seq<char>)|
                k != resource@ && has_key(self.targets@, k) ==> value_of(r.targets@, k) == value_of(self.targets@, k),
            r.config == self.config,
    {
        let mut r = self;
        let current = match r.targets.get(&resource) {
            Some(v) => *v,
            None => N::zero(),
        };
        let total = current.plus(rate);
        r.targets.insert(resource, total);
        r
    }

    /// The request with `config` in place of its configuration.
    pub fn with_config(self, config: PlanConfig) -> (r: Self)
        ensures
            r.targets@ == self.targets@,
            r.config == config,
    {
        let mut r = self;
        r.config = config;
        r
    }
}

} // verus!
