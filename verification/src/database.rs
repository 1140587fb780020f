//! The database of items, fluids, recipes and machines.

use vstd::prelude::*;

use crate::assoc::{has_key, keys_where, lemma_keys_where_step, updated, value_of, AssocMap};
use crate::ids::{CraftingCategory, FluidId, ItemId, MachineId, RecipeId};
use crate::key::KeyEq;
use crate::machine::{has_category, Machine};
use crate::quantity::Quantity;
use crate::recipe::{makes_resource, produces_name, Recipe};
use crate::resource::{Fluid, Item, ResourceId};
use crate::text::{decimal, decimal_string};

verus! {

/// Every entry is stored under the id of its recipe.
pub open spec fn recipes_keyed<N>(s: Seq<(RecipeId, Recipe<N>)>) -> bool {
    forall|i: int| 0 <= i < s.len() ==> #[trigger] s[i].0@ == s[i].1.id@
}

/// Every entry is stored under the id of its machine.
pub open spec fn machines_keyed<N>(s: Seq<(MachineId, Machine<N>)>) -> bool {
    forall|i: int| 0 <= i < s.len() ==> #[trigger] s[i].0@ == s[i].1.id@
}

/// Every entry is stored under the id of its item.
pub open spec fn items_keyed(s: Seq<(ItemId, Item)>) -> bool {
    forall|i: int| 0 <= i < s.len() ==> #[trigger] s[i].0@ == s[i].1.id@
}

/// Every entry is stored under the id of its fluid.
pub open spec fn fluids_keyed<N>(s: Seq<(FluidId, Fluid<N>)>) -> bool {
    forall|i: int| 0 <= i < s.len() ==> #[trigger] s[i].0@ == s[i].1.id@
}

/// The recipes that produce something named `name`.
pub open spec fn producing<N>(name: Seq<char>) -> spec_fn(Recipe<N>) -> bool {
    |r: Recipe<N>| produces_name(r.products@, name)
}

/// The recipes that produce the resource `k` itself.
pub open spec fn producing_resource<N>(k: (bool, Seq<char>)) -> spec_fn(Recipe<N>) -> bool {
    |r: Recipe<N>| makes_resource(r.products@, k)
}

/// The recipes of the crafting category `category`.
pub open spec fn in_category<N>(category: Seq<char>) -> spec_fn(Recipe<N>) -> bool {
    |r: Recipe<N>| r.category@ == category
}

/// The machines that support the crafting category `category`.
pub open spec fn supporting<N>(category: Seq<char>) -> spec_fn(Machine<N>) -> bool {
    |m: Machine<N>| has_category(m.crafting_categories@, category)
}

/// Everything the game defines that planning needs, each kind keyed by id.
#[derive(Debug)]
pub struct Database<N> {
    pub items: AssocMap<ItemId, Item>,
    pub fluids: AssocMap<FluidId, Fluid<N>>,
    pub recipes: AssocMap<RecipeId, Recipe<N>>,
    pub machines: AssocMap<MachineId, Machine<N>>,
}

impl<N: Quantity> Database<N> {
    /// Each table has unique keys.
    pub open spec fn tables_wf(&self) -> bool {
        &&& self.items.wf()
        &&& self.fluids.wf()
        &&& self.recipes.wf()
        &&& self.machines.wf()
    }

    /// Well-formedness: each table has unique keys, and each entry is stored
    /// under its own id.
    pub open spec fn wf(&self) -> bool {
        &&& self.tables_wf()
        &&& items_keyed(self.items@)
        &&& fluids_keyed(self.fluids@)
        &&& recipes_keyed(self.recipes@)
        &&& machines_keyed(self.machines@)
    }

    /// Some recipe has the id `id`.
    pub open spec fn has_recipe(&self, id: Seq<char>) -> bool {
        has_key(self.recipes@, id)
    }

    /// The recipe with the id `id`.
    pub open spec fn recipe_at(&self, id: Seq<char>) -> Recipe<N> {
        value_of(self.recipes@, id)
    }

    /// Some machine has the id `id`.
    pub open spec fn has_machine(&self, id: Seq<char>) -> bool {
        has_key(self.machines@, id)
    }

    /// The machine with the id `id`.
    pub open spec fn machine_at(&self, id: Seq<char>) -> Machine<N> {
        value_of(self.machines@, id)
    }

    /// The empty database.
    pub fn new() -> (db: Self)
        ensures
            db.wf(),
            db.items@.len() == 0,
            db.fluids@.len() == 0,
            db.recipes@.len() == 0,
            db.machines@.len() == 0,
    {
        Database {
            items: AssocMap::new(),
            fluids: AssocMap::new(),
            recipes: AssocMap::new(),
            machines: AssocMap::new(),
        }
    }

    /// The database as text: how many items, fluids, recipes and machines
    /// it has.
    pub fn describe(&self) -> (s: String)
        ensures
            s@ == "Database { items: "@ + decimal(self.items@.len()) + ", fluids: "@ + decimal(self.fluids@.len())
                + ", recipes: "@ + decimal(self.recipes@.len()) + ", machines: "@ + decimal(self.machines@.len())
                + " }"@,
    {
        let mut s = "Database { items: ".to_owned();
        let t = decimal_string(self.items.len());
        s.append(t.as_str());
        s.append(", fluids: ");
        let t = decimal_string(self.fluids.len());
        s.append(t.as_str());
        s.append(", recipes: ");
        let t = decimal_string(self.recipes.len());
        s.append(t.as_str());
        s.append(", machines: ");
        let t = decimal_string(self.machines.len());
        s.append(t.as_str());
        s.append(" }");
        s
    }

    /// The recipe with the id `id`, if there is one.
    pub fn recipe(&self, id: &RecipeId) -> (r: Option<&Recipe<N>>)
        requires
            self.tables_wf(),
        ensures
            match r {
                Some(rec) => self.has_recipe(id@) && *rec == self.recipe_at(id@),
                None => !self.has_recipe(id@),
            },
    {
        self.recipes.get(id)
    }

    /// The machine with the id `id`, if there is one.
    pub fn machine(&self, id: &MachineId) -> (r: Option<&Machine<N>>)
        requires
            self.tables_wf(),
        ensures
            match r {
                Some(m) => self.has_machine(id@) && *m == self.machine_at(id@),
                None => !self.has_machine(id@),
            },
    {
        self.machines.get(id)
    }

    /// The item with the id `id`, if there is one.
    pub fn item(&self, id: &ItemId) -> (r: Option<&Item>)
        requires
            self.tables_wf(),
        ensures
            match r {
                Some(it) => has_key(self.items@, id@) && *it == value_of(self.items@, id@),
                None => !has_key(self.items@, id@),
            },
    {
        self.items.get(id)
    }

    /// The fluid with the id `id`, if there is one.
    pub fn fluid(&self, id: &FluidId) -> (r: Option<&Fluid<N>>)
        requires
            self.tables_wf(),
        ensures
            match r {
                Some(f) => has_key(self.fluids@, id@) && *f == value_of(self.fluids@, id@),
                None => !has_key(self.fluids@, id@),
            },
    {
        self.fluids.get(id)
    }

    /// Adds `recipe` under its id, replacing a recipe with the same id.
    pub fn insert_recipe(&mut self, recipe: Recipe<N>)
        requires
            old(self).wf(),
        ensures
            final(self).wf(),
            updated(old(self).recipes@, final(self).recipes@, recipe.id@, recipe),
            final(self).items@ == old(self).items@,
            final(self).fluids@ == old(self).fluids@,
            final(self).machines@ == old(self).machines@,
    {
        let key = recipe.id.clone();
        self.recipes.insert(key, recipe);
    }

    /// Adds `machine` under its id, replacing a machine with the same id.
    pub fn insert_machine(&mut self, machine: Machine<N>)
        requires
            old(self).wf(),
        ensures
            final(self).wf(),
            updated(old(self).machines@, final(self).machines@, machine.id@, machine),
            final(self).items@ == old(self).items@,
            final(self).fluids@ == old(self).fluids@,
            final(self).recipes@ == old(self).recipes@,
    {
        let key = machine.id.clone();
        self.machines.insert(key, machine);
    }

    /// Adds `item` under its id, replacing an item with the same id.
    pub fn insert_item(&mut self, item: Item)
        requires
            old(self).wf(),
        ensures
            final(self).wf(),
            updated(old(self).items@, final(self).items@, item.id@, item),
            final(self).fluids@ == old(self).fluids@,
            final(self).recipes@ == old(self).recipes@,
            final(self).machines@ == old(self).machines@,
    {
        let key = item.id.clone();
        self.items.insert(key, item);
    }

    /// Adds `fluid` under its id, replacing a fluid with the same id.
    pub fn insert_fluid(&mut self, fluid: Fluid<N>)
        requires
            old(self).wf(),
        ensures
            final(self).wf(),
            updated(old(self).fluids@, final(self).fluids@, fluid.id@, fluid),
            final(self).items@ == old(self).items@,
            final(self).recipes@ == old(self).recipes@,
            final(self).machines@ == old(self).machines@,
    {
        let key = fluid.id.clone();
        self.fluids.insert(key, fluid);
    }

    /// The ids of the recipes with a product named `resource_name`, in the
    /// order in which the recipes were added.
    pub fn recipes_producing(&self, resource_name: &str) -> (ids: Vec<RecipeId>)
        ensures
            ids@.map_values(|id: RecipeId| id@) == keys_where(self.recipes@, producing::<N>(resource_name@)),
    {
        let entries = self.recipes.entries();
        let n = entries.len();
        let mut ids: Vec<RecipeId> = Vec::new();
        let mut i: usize = 0;
        while i < n
            invariant
                n == entries@.len(),
                entries@ == self.recipes@,
                i <= n,
                ids@.map_values(|id: RecipeId| id@) == keys_where(entries@.take(i as int), producing::<N>(resource_name@)),
            decreases n - i,
        {
            proof {
                lemma_keys_where_step(entries@, producing::<N>(resource_name@), i as int);
            }
            if entries[i].1.produces(resource_name) {
                ids.push(entries[i].0.clone());
            }
            i = i + 1;
        }
        proof {
            assert(entries@.take(n as int) =~= entries@);
        }
        ids
    }

    /// The ids of the recipes with `resource` itself (of the same kind and
    /// name) among their products, in the order in which the recipes were
    /// added.
    pub fn recipes_producing_resource(&self, resource: &ResourceId) -> (ids: Vec<RecipeId>)
        ensures
            ids@.map_values(|id: RecipeId| id@) == keys_where(self.recipes@, producing_resource::<N>(resource@)),
    {
        let entries = self.recipes.entries();
        let n = entries.len();
        let mut ids: Vec<RecipeId> = Vec::new();
        let mut i: usize = 0;
        while i < n
            invariant
                n == entries@.len(),
                entries@ == self.recipes@,
                i <= n,
                ids@.map_values(|id: RecipeId| id@) == keys_where(entries@.take(i as int), producing_resource::<N>(resource@)),
            decreases n - i,
        {
            proof {
                lemma_keys_where_step(entries@, producing_resource::<N>(resource@), i as int);
            }
            if entries[i].1.produces_resource(resource) {
                ids.push(entries[i].0.clone());
            }
            i = i + 1;
        }
        proof {
            assert(entries@.take(n as int) =~= entries@);
        }
        ids
    }

    /// The ids of the recipes of `category`, in the order in which the
    /// recipes were added.
    pub fn recipes_in_category(&self, category: &CraftingCategory) -> (ids: Vec<RecipeId>)
        ensures
            ids@.map_values(|id: RecipeId| id@) == keys_where(self.recipes@, in_category::<N>(category@)),
    {
        let entries = self.recipes.entries();
        let n = entries.len();
        let mut ids: Vec<RecipeId> = Vec::new();
        let mut i: usize = 0;
        while i < n
            invariant
                n == entries@.len(),
                entries@ == self.recipes@,
                i <= n,
                ids@.map_values(|id: RecipeId| id@) == keys_where(entries@.take(i as int), in_category::<N>(category@)),
            decreases n - i,
        {
            proof {
                lemma_keys_where_step(entries@, in_category::<N>(category@), i as int);
            }
            if entries[i].1.category.key_eq(category) {
                ids.push(entries[i].0.clone());
            }
            i = i + 1;
        }
        proof {
            assert(entries@.take(n as int) =~= entries@);
        }
        ids
    }

    /// The ids of the machines that support `category`, in the order in
    /// which the machines were added.
    pub fn machines_for_category(&self, category: &CraftingCategory) -> (ids: Vec<MachineId>)
        ensures
            ids@.map_values(|id: MachineId| id@) == keys_where(self.machines@, supporting::<N>(category@)),
    {
        let entries = self.machines.entries();
        let n = entries.len();
        let mut ids: Vec<MachineId> = Vec::new();
        let mut i: usize = 0;
        while i < n
            invariant
                n == entries@.len(),
                entries@ == self.machines@,
                i <= n,
                ids@.map_values(|id: MachineId| id@) == keys_where(entries@.take(i as int), supporting::<N>(category@)),
            decreases n - i,
        {
            proof {
                lemma_keys_where_step(entries@, supporting::<N>(category@), i as int);
            }
            if entries[i].1.supports(category) {
                ids.push(entries[i].0.clone());
            }
            i = i + 1;
        }
        proof {
            assert(entries@.take(n as int) =~= entries@);
        }
        ids
    }

    /// The ids of the machines that support the category of `recipe`.
    pub fn machines_for_recipe(&self, recipe: &Recipe<N>) -> (ids: Vec<MachineId>)
        ensures
            ids@.map_values(|id: MachineId| id@) == keys_where(self.machines@, supporting::<N>(recipe.category@)),
    {
        self.machines_for_category(&recipe.category)
    }
}

} // verus!
