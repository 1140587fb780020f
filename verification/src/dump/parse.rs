//! Turning the prototypes of a dump into the entries of a database.
//!
//! A dump groups its prototypes by kind. Items come in several kinds
//! (`item`, `tool`, `module`, ...) and machines in three (assembling
//! machines, furnaces, rocket silos); fluids, mining drills, recipes and
//! resources have one kind each. Each resource that can be mined becomes a
//! recipe of its own, run by the mining drills of its category.

use vstd::prelude::*;

use crate::assoc::{has_key, updated, value_of};
use crate::database::Database;
use crate::dump::energy::{energy_readable, energy_sound, energy_value, parse_energy};
use crate::dump::raw::{
    DumpError, RawDump, RawFluid, RawIconFields, RawIngredient, RawItem, RawMachine, RawMinable, RawMiningDrill, RawProduct,
    RawRecipe, RawResource,
};
use crate::ids::{CraftingCategory, FluidId, ItemId, MachineId, RecipeId};
use crate::machine::{Machine, MachineKind};
use crate::quantity::Quantity;
use crate::recipe::{Ingredient, Product, ProductAmount, Recipe};
use crate::resource::{Fluid, IconRef, Item, ResourceId, DEFAULT_ICON_SIZE};
use crate::text::str_eq;

verus! {

/// The view of a resource: whether it is a fluid, and its name.
pub type ResourceKey = (bool, Seq<char>);

/// The resource that a type and a name give: an item for `item`, a fluid
/// for `fluid`, and none for any other type.
pub open spec fn resource_spec(ty: Seq<char>, name: Seq<char>) -> Option<ResourceKey> {
    if ty == "item"@ {
        Some((false, name))
    } else if ty == "fluid"@ {
        Some((true, name))
    } else {
        None
    }
}

/// The resource of type `ty` named `name`.
pub fn resource_id(ty: &str, name: &str) -> (r: Result<ResourceId, DumpError>)
    ensures
        match r {
            Ok(id) => resource_spec(ty@, name@) == Some(id@),
            Err(e) => resource_spec(ty@, name@) is None && (e matches DumpError::UnknownResourceType(t) && t@ == ty@),
        },
{
    proof {
        reveal_strlit("item");
        reveal_strlit("fluid");
    }
    if str_eq(ty, "item") {
        Ok(ResourceId::item(name))
    } else if str_eq(ty, "fluid") {
        Ok(ResourceId::fluid(name))
    } else {
        Err(DumpError::UnknownResourceType(ty.to_owned()))
    }
}

/// The icon, as a path and a size, that icon fields give: the single icon
/// if there is one, else the first layer; the size is the icon's own, then
/// the prototype's, then the default.
pub open spec fn icon_spec(raw: RawIconFields) -> Option<(Seq<char>, u32)> {
    match raw.icon {
        Some(path) => Some(
            (
                path@,
                match raw.icon_size {
                    Some(n) => n,
                    None => DEFAULT_ICON_SIZE,
                },
            ),
        ),
        None => match raw.icons {
            Some(layers) => if layers@.len() > 0 {
                Some(
                    (
                        layers@[0].icon@,
                        match layers@[0].icon_size {
                            Some(n) => n,
                            None => match raw.icon_size {
                                Some(n) => n,
                                None => DEFAULT_ICON_SIZE,
                            },
                        },
                    ),
                )
            } else {
                None
            },
            None => None,
        },
    }
}

/// An icon as a path and a size.
pub open spec fn icon_view(icon: Option<IconRef>) -> Option<(Seq<char>, u32)> {
    match icon {
        Some(i) => Some((i.path@, i.size)),
        None => None,
    }
}

/// The icon that the icon fields of a prototype give.
pub fn extract_icon(raw: &RawIconFields) -> (r: Option<IconRef>)
    ensures
        icon_view(r) == icon_spec(*raw),
{
    if let Some(path) = &raw.icon {
        let size = match raw.icon_size {
            Some(n) => n,
            None => DEFAULT_ICON_SIZE,
        };
        return Some(IconRef::new(path.as_str(), size));
    }
    let layers = match &raw.icons {
        Some(l) => l,
        None => {
            return None;
        },
    };
    if layers.len() == 0 {
        return None;
    }
    let first = &layers[0];
    let size = match first.icon_size {
        Some(n) => n,
        None => match raw.icon_size {
            Some(n) => n,
            None => DEFAULT_ICON_SIZE,
        },
    };
    Some(IconRef::new(first.icon.as_str(), size))
}

/// The names of the kinds of prototype that are items.
pub open spec fn item_prototype_names() -> Seq<Seq<char>> {
    seq![
        "item"@,
        "tool"@,
        "module"@,
        "capsule"@,
        "gun"@,
        "ammo"@,
        "armor"@,
        "repair-tool"@,
        "item-with-entity-data"@,
        "rail-planner"@,
        "blueprint"@,
        "blueprint-book"@,
        "deconstruction-item"@,
        "upgrade-item"@,
        "copy-paste-tool"@,
        "selection-tool"@,
        "item-with-tags"@,
        "item-with-label"@,
        "spidertron-remote"@,
        "mining-tool"@,
    ]
}

/// The names of the kinds of prototype that are items, in the order in
/// which they are read.
pub fn item_prototypes() -> (v: Vec<&'static str>)
    ensures
        v@.map_values(|s: &'static str| s@) == item_prototype_names(),
{
    let v = vec![
        "item",
        "tool",
        "module",
        "capsule",
        "gun",
        "ammo",
        "armor",
        "repair-tool",
        "item-with-entity-data",
        "rail-planner",
        "blueprint",
        "blueprint-book",
        "deconstruction-item",
        "upgrade-item",
        "copy-paste-tool",
        "selection-tool",
        "item-with-tags",
        "item-with-label",
        "spidertron-remote",
        "mining-tool",
    ];
    proof {
        assert(v@.map_values(|s: &'static str| s@) =~= item_prototype_names());
    }
    v
}

/// The kinds of prototype that are crafting machines, with the kind of
/// machine each gives.
pub open spec fn machine_prototype_list() -> Seq<(Seq<char>, MachineKind)> {
    seq![
        ("assembling-machine"@, MachineKind::AssemblingMachine),
        ("furnace"@, MachineKind::Furnace),
        ("rocket-silo"@, MachineKind::RocketSilo),
    ]
}

/// The kinds of prototype that are crafting machines, with the kind of
/// machine each gives, in the order in which they are read.
pub fn machine_prototypes() -> (v: Vec<(&'static str, MachineKind)>)
    ensures
        v@.map_values(|e: (&'static str, MachineKind)| (e.0@, e.1)) == machine_prototype_list(),
{
    let v = vec![
        ("assembling-machine", MachineKind::AssemblingMachine),
        ("furnace", MachineKind::Furnace),
        ("rocket-silo", MachineKind::RocketSilo),
    ];
    proof {
        assert(v@.map_values(|e: (&'static str, MachineKind)| (e.0@, e.1)) =~= machine_prototype_list());
    }
    v
}

/// The names of a list of crafting categories.
pub open spec fn category_names(v: Seq<CraftingCategory>) -> Seq<Seq<char>> {
    v.map_values(|c: CraftingCategory| c@)
}

/// The characters of a list of strings.
pub open spec fn string_views(v: Seq<String>) -> Seq<Seq<char>> {
    v.map_values(|s: String| s@)
}

/// The crafting categories with the given names.
fn categories_from(names: &Vec<String>) -> (v: Vec<CraftingCategory>)
    ensures
        category_names(v@) == string_views(names@),
{
    let mut v: Vec<CraftingCategory> = Vec::new();
    let n = names.len();
    let mut i: usize = 0;
    while i < n
        invariant
            n == names@.len(),
            i <= n,
            v@.len() == i,
            category_names(v@) == string_views(names@).take(i as int),
        decreases n - i,
    {
        let ghost before = v@;
        let c = CraftingCategory::new(names[i].as_str());
        v.push(c);
        proof {
            assert forall|k: int| 0 <= k < i + 1 implies #[trigger] category_names(v@)[k] == string_views(names@)[k] by {
                if k < i {
                    assert(v@[k] == before[k]);
                    assert(category_names(before)[k] == string_views(names@).take(i as int)[k]);
                }
            }
            assert(category_names(v@) =~= string_views(names@).take(i + 1));
        }
        i = i + 1;
    }
    proof {
        assert(string_views(names@).take(n as int) =~= string_views(names@));
    }
    v
}

/// The module slots of a machine: its own count, else the count of its
/// module specification, else none.
pub open spec fn module_slots_spec(slots: Option<u32>, spec: Option<crate::dump::raw::RawModuleSpec>) -> u32 {
    match slots {
        Some(n) => n,
        None => match spec {
            Some(m) => m.module_slots,
            None => 0,
        },
    }
}

/// `m` is the machine named `name`, of kind `kind`, that the machine
/// prototype `raw` describes, its energy usage the value of the prototype's.
pub open spec fn machine_from<N: Quantity>(m: Machine<N>, name: Seq<char>, kind: MachineKind, raw: RawMachine<N>) -> bool {
    &&& m.id@ == name
    &&& energy_value::<N>(raw.energy_usage@, m.energy_usage_watts)
    &&& m.kind == kind
    &&& category_names(m.crafting_categories@) == string_views(raw.crafting_categories@)
    &&& m.crafting_speed == raw.crafting_speed
    &&& m.module_slots == module_slots_spec(raw.module_slots, raw.module_specification)
    &&& icon_view(m.icon) == icon_spec(raw.icon)
}

/// `m` is the mining drill named `name` that the prototype `raw` describes:
/// its resource categories are its crafting categories, its mining speed
/// its crafting speed, and its energy usage the value of the prototype's.
pub open spec fn drill_from<N: Quantity>(m: Machine<N>, name: Seq<char>, raw: RawMiningDrill<N>) -> bool {
    &&& m.id@ == name
    &&& energy_value::<N>(raw.energy_usage@, m.energy_usage_watts)
    &&& m.kind == MachineKind::MiningDrill
    &&& category_names(m.crafting_categories@) == string_views(raw.resource_categories@)
    &&& m.crafting_speed == raw.mining_speed
    &&& m.module_slots == module_slots_spec(raw.module_slots, raw.module_specification)
    &&& icon_view(m.icon) == icon_spec(raw.icon)
}

/// A machine from a crafting machine prototype.
pub fn build_machine<N: Quantity>(name: &str, kind: MachineKind, raw: &RawMachine<N>) -> (r: Result<
    Machine<N>,
    DumpError,
>)
    ensures
        r matches Ok(m) ==> machine_from(m, name@, kind, *raw),
        r matches Err(e) ==> (e matches DumpError::InvalidEnergy(s) && s@ == raw.energy_usage@),
        r is Ok ==> energy_readable(raw.energy_usage@),
        energy_sound::<N>(raw.energy_usage@) ==> r is Ok,
{
    let module_slots = match raw.module_slots {
        Some(n) => n,
        None => match &raw.module_specification {
            Some(spec) => spec.module_slots,
            None => 0,
        },
    };
    let energy_usage_watts = parse_energy::<N>(raw.energy_usage.as_str())?;
    let icon = extract_icon(&raw.icon);
    let crafting_categories = categories_from(&raw.crafting_categories);
    Ok(
        Machine {
            id: MachineId::new(name),
            kind,
            crafting_categories,
            crafting_speed: raw.crafting_speed,
            module_slots,
            energy_usage_watts,
            icon,
        },
    )
}

/// A mining drill, as a machine whose categories are the resource
/// categories it mines.
pub fn build_mining_drill<N: Quantity>(name: &str, raw: &RawMiningDrill<N>) -> (r: Result<Machine<N>, DumpError>)
    ensures
        r matches Ok(m) ==> drill_from(m, name@, *raw),
        r matches Err(e) ==> (e matches DumpError::InvalidEnergy(s) && s@ == raw.energy_usage@),
        r is Ok ==> energy_readable(raw.energy_usage@),
        energy_sound::<N>(raw.energy_usage@) ==> r is Ok,
{
    let module_slots = match raw.module_slots {
        Some(n) => n,
        None => match &raw.module_specification {
            Some(spec) => spec.module_slots,
            None => 0,
        },
    };
    let energy_usage_watts = parse_energy::<N>(raw.energy_usage.as_str())?;
    let icon = extract_icon(&raw.icon);
    let crafting_categories = categories_from(&raw.resource_categories);
    Ok(
        Machine {
            id: MachineId::new(name),
            kind: MachineKind::MiningDrill,
            crafting_categories,
            crafting_speed: raw.mining_speed,
            module_slots,
            energy_usage_watts,
            icon,
        },
    )
}

/// `i` is the ingredient that `raw` describes.
pub open spec fn ingredient_from<N>(i: Ingredient<N>, raw: RawIngredient<N>) -> bool {
    &&& resource_spec(raw.ty@, raw.name@) == Some(i.resource@)
    &&& i.amount == raw.amount
}

/// `a` is the amount that `raw` describes: its fixed amount, else its
/// range, else a fixed amount of one.
pub open spec fn amount_from<N: Quantity>(a: ProductAmount<N>, raw: RawProduct<N>) -> bool {
    match raw.amount {
        Some(n) => a == ProductAmount::Fixed(n),
        None => match (raw.amount_min, raw.amount_max) {
            (Some(min), Some(max)) => a == ProductAmount::Range { min, max },
            _ => a == ProductAmount::Fixed(N::spec_one()),
        },
    }
}

/// `p` is the product that `raw` describes.
pub open spec fn product_from<N: Quantity>(p: Product<N>, raw: RawProduct<N>) -> bool {
    &&& resource_spec(raw.ty@, raw.name@) == Some(p.resource@)
    &&& amount_from(p.amount, raw)
    &&& p.probability == raw.probability
}

/// The ingredient that `raw` describes.
pub fn build_ingredient<N: Quantity>(raw: &RawIngredient<N>) -> (r: Result<Ingredient<N>, DumpError>)
    ensures
        match r {
            Ok(i) => ingredient_from(i, *raw),
            Err(e) => resource_spec(raw.ty@, raw.name@) is None && (e matches DumpError::UnknownResourceType(t) && t@
                == raw.ty@),
        },
{
    let resource = resource_id(raw.ty.as_str(), raw.name.as_str())?;
    Ok(Ingredient { resource, amount: raw.amount })
}

/// The product that `raw` describes.
pub fn build_product<N: Quantity>(raw: &RawProduct<N>) -> (r: Result<Product<N>, DumpError>)
    ensures
        match r {
            Ok(p) => product_from(p, *raw),
            Err(e) => resource_spec(raw.ty@, raw.name@) is None && (e matches DumpError::UnknownResourceType(t) && t@
                == raw.ty@),
        },
{
    let amount = match (raw.amount, raw.amount_min, raw.amount_max) {
        (Some(n), _, _) => ProductAmount::Fixed(n),
        (None, Some(min), Some(max)) => ProductAmount::Range { min, max },
        _ => ProductAmount::Fixed(N::one()),
    };
    let resource = resource_id(raw.ty.as_str(), raw.name.as_str())?;
    Ok(Product { resource, amount, probability: raw.probability })
}

/// The type of every ingredient names a resource.
pub open spec fn ingredient_types_known<N>(raws: Seq<RawIngredient<N>>) -> bool {
    forall|i: int| 0 <= i < raws.len() ==> (#[trigger] resource_spec(raws[i].ty@, raws[i].name@)) is Some
}

/// The type of every product names a resource.
pub open spec fn product_types_known<N>(raws: Seq<RawProduct<N>>) -> bool {
    forall|i: int| 0 <= i < raws.len() ==> (#[trigger] resource_spec(raws[i].ty@, raws[i].name@)) is Some
}

/// `t` is the type of the first ingredient of `raws` whose type names no
/// resource.
pub open spec fn first_unknown_ingredient<N>(raws: Seq<RawIngredient<N>>, t: Seq<char>) -> bool {
    exists|i: int|
        0 <= i < raws.len() && (forall|j: int| 0 <= j < i ==> (#[trigger] resource_spec(raws[j].ty@, raws[j].name@)) is Some)
            && resource_spec(raws[i].ty@, raws[i].name@) is None && t == (#[trigger] raws[i]).ty@
}

/// `t` is the type of the first product of `raws` whose type names no
/// resource.
pub open spec fn first_unknown_product<N>(raws: Seq<RawProduct<N>>, t: Seq<char>) -> bool {
    exists|i: int|
        0 <= i < raws.len() && (forall|j: int| 0 <= j < i ==> (#[trigger] resource_spec(raws[j].ty@, raws[j].name@)) is Some)
            && resource_spec(raws[i].ty@, raws[i].name@) is None && t == (#[trigger] raws[i]).ty@
}

/// The ingredients that `raws` describe, in order; the first unknown
/// resource type fails them all.
fn build_ingredients<N: Quantity>(raws: &Vec<RawIngredient<N>>) -> (r: Result<Vec<Ingredient<N>>, DumpError>)
    ensures
        r is Ok <==> ingredient_types_known(raws@),
        r matches Ok(v) ==> v@.len() == raws@.len() && forall|i: int|
            0 <= i < v@.len() ==> ingredient_from(#[trigger] v@[i], raws@[i]),
        r matches Err(e) ==> e matches DumpError::UnknownResourceType(t) && first_unknown_ingredient(raws@, t@),
{
    let mut v: Vec<Ingredient<N>> = Vec::new();
    let n = raws.len();
    let mut i: usize = 0;
    while i < n
        invariant
            n == raws@.len(),
            i <= n,
            v@.len() == i,
            forall|j: int| 0 <= j < i ==> ingredient_from(#[trigger] v@[j], raws@[j]),
            forall|j: int| 0 <= j < i ==> (#[trigger] resource_spec(raws@[j].ty@, raws@[j].name@)) is Some,
        decreases n - i,
    {
        let ingredient = match build_ingredient(&raws[i]) {
            Ok(ing) => ing,
            Err(e) => {
                proof {
                    assert(resource_spec(raws@[i as int].ty@, raws@[i as int].name@) is None);
                }
                return Err(e);
            },
        };
        v.push(ingredient);
        i = i + 1;
    }
    Ok(v)
}

/// The products that `raws` describe, in order; the first unknown resource
/// type fails them all.
fn build_products<N: Quantity>(raws: &Vec<RawProduct<N>>) -> (r: Result<Vec<Product<N>>, DumpError>)
    ensures
        r is Ok <==> product_types_known(raws@),
        r matches Ok(v) ==> v@.len() == raws@.len() && forall|i: int|
            0 <= i < v@.len() ==> product_from(#[trigger] v@[i], raws@[i]),
        r matches Err(e) ==> e matches DumpError::UnknownResourceType(t) && first_unknown_product(raws@, t@),
{
    let mut v: Vec<Product<N>> = Vec::new();
    let n = raws.len();
    let mut i: usize = 0;
    while i < n
        invariant
            n == raws@.len(),
            i <= n,
            v@.len() == i,
            forall|j: int| 0 <= j < i ==> product_from(#[trigger] v@[j], raws@[j]),
            forall|j: int| 0 <= j < i ==> (#[trigger] resource_spec(raws@[j].ty@, raws@[j].name@)) is Some,
        decreases n - i,
    {
        let product = match build_product(&raws[i]) {
            Ok(p) => p,
            Err(e) => {
                proof {
                    assert(resource_spec(raws@[i as int].ty@, raws@[i as int].name@) is None);
                }
                return Err(e);
            },
        };
        v.push(product);
        i = i + 1;
    }
    Ok(v)
}

/// `r` is the recipe named `name` that the recipe prototype `raw`
/// describes.
pub open spec fn recipe_from<N: Quantity>(r: Recipe<N>, name: Seq<char>, raw: RawRecipe<N>) -> bool {
    &&& r.id@ == name
    &&& r.category@ == raw.category@
    &&& r.ingredients@.len() == raw.ingredients@.len()
    &&& forall|i: int| 0 <= i < r.ingredients@.len() ==> ingredient_from(#[trigger] r.ingredients@[i], raw.ingredients@[i])
    &&& r.products@.len() == raw.results@.len()
    &&& forall|i: int| 0 <= i < r.products@.len() ==> product_from(#[trigger] r.products@[i], raw.results@[i])
    &&& r.crafting_time == raw.energy_required
    &&& r.allow_productivity == raw.allow_productivity
}

/// `t` is the first type of the recipe prototype that names no resource:
/// that of its ingredients, or, where all of those are known, that of its
/// results.
pub open spec fn recipe_unknown_type<N>(raw: RawRecipe<N>, t: Seq<char>) -> bool {
    if ingredient_types_known(raw.ingredients@) {
        first_unknown_product(raw.results@, t)
    } else {
        first_unknown_ingredient(raw.ingredients@, t)
    }
}

/// The recipe named `name` that the recipe prototype `raw` describes.
/// Fails when an ingredient or a product has an unknown resource type.
pub fn build_recipe<N: Quantity>(name: &str, raw: &RawRecipe<N>) -> (r: Result<Recipe<N>, DumpError>)
    ensures
        r is Ok <==> ingredient_types_known(raw.ingredients@) && product_types_known(raw.results@),
        r matches Ok(rec) ==> recipe_from(rec, name@, *raw),
        r matches Err(e) ==> e matches DumpError::UnknownResourceType(t) && recipe_unknown_type(*raw, t@),
{
    let ingredients = match build_ingredients(&raw.ingredients) {
        Ok(v) => v,
        Err(e) => {
            return Err(e);
        },
    };
    let products = match build_products(&raw.results) {
        Ok(v) => v,
        Err(e) => {
            return Err(e);
        },
    };
    Ok(
        Recipe {
            id: RecipeId::new(name),
            category: CraftingCategory::new(raw.category.as_str()),
            ingredients,
            products,
            crafting_time: raw.energy_required,
            allow_productivity: raw.allow_productivity,
        },
    )
}

/// What mining consumes: the required fluid, if any, at a tenth of its
/// amount per run.
pub fn mining_ingredients<N: Quantity>(required_fluid: &Option<String>, fluid_amount: N) -> (v: Vec<Ingredient<N>>)
    ensures
        match required_fluid {
            Some(f) => v@.len() == 1 && v@[0].resource@ == (true, f@) && v@[0].amount == fluid_amount.spec_over(
                N::spec_from_u64(10),
            ),
            None => v@.len() == 0,
        },
{
    match required_fluid {
        Some(fluid) => {
            let ingredient = Ingredient {
                resource: ResourceId::fluid(fluid.as_str()),
                amount: fluid_amount.over(N::from_u64(10)),
            };
            vec![ingredient]
        },
        None => Vec::new(),
    }
}

/// The legacy count of a mining result, or one where there is none.
pub open spec fn legacy_count_or_one(count: Option<u32>) -> u32 {
    match count {
        Some(c) => c,
        None => 1,
    }
}

/// What mining yields: the listed results if there are any, and otherwise
/// one product, the item named by the legacy result (or else by the
/// resource itself), `legacy_count` of it per run (or else one), always.
pub fn mining_products<N: Quantity>(
    resource_name: &str,
    legacy_result: &Option<String>,
    legacy_count: Option<u32>,
    results: &Vec<RawProduct<N>>,
) -> (r: Result<Vec<Product<N>>, DumpError>)
    ensures
        results@.len() > 0 ==> {
            &&& r is Ok <==> product_types_known(results@)
            &&& r matches Ok(v) ==> v@.len() == results@.len() && forall|i: int|
                0 <= i < v@.len() ==> product_from(#[trigger] v@[i], results@[i])
            &&& r matches Err(e) ==> e matches DumpError::UnknownResourceType(t) && first_unknown_product(results@, t@)
        },
        results@.len() == 0 ==> (r matches Ok(v) && v@.len() == 1 && v@[0].resource@ == (
            false,
            match legacy_result {
                Some(n) => n@,
                None => resource_name@,
            },
        ) && v@[0].amount == ProductAmount::Fixed(N::spec_from_u64(legacy_count_or_one(legacy_count) as u64))
            && v@[0].probability == N::spec_one()),
{
    if results.len() > 0 {
        return build_products(results);
    }
    let count: u32 = match legacy_count {
        Some(c) => c,
        None => 1,
    };
    let product = match legacy_result {
        Some(item_name) => Product {
            resource: ResourceId::item(item_name.as_str()),
            amount: ProductAmount::Fixed(N::from_u64(count as u64)),
            probability: N::one(),
        },
        None => Product {
            resource: ResourceId::item(resource_name),
            amount: ProductAmount::Fixed(N::from_u64(count as u64)),
            probability: N::one(),
        },
    };
    Ok(vec![product])
}

/// The recipe of mining the resource `name` of the category `category`:
/// it takes the mining time, may consume a fluid, yields the mined
/// products, and allows productivity.
pub fn build_mining_recipe<N: Quantity>(name: &str, category: &String, minable: &RawMinable<N>) -> (r: Result<
    Recipe<N>,
    DumpError,
>)
    ensures
        minable.results@.len() > 0 ==> (r is Ok <==> product_types_known(minable.results@)),
        minable.results@.len() == 0 ==> r is Ok,
        r matches Err(e) ==> e matches DumpError::UnknownResourceType(t) && first_unknown_product(minable.results@, t@),
        r matches Ok(rec) ==> {
            &&& rec.id@ == name@
            &&& rec.category@ == category@
            &&& rec.crafting_time == minable.mining_time
            &&& rec.allow_productivity
            &&& match minable.required_fluid {
                Some(f) => rec.ingredients@.len() == 1 && rec.ingredients@[0].resource@ == (true, f@)
                    && rec.ingredients@[0].amount == minable.fluid_amount.spec_over(N::spec_from_u64(10)),
                None => rec.ingredients@.len() == 0,
            }
            &&& minable.results@.len() > 0 ==> rec.products@.len() == minable.results@.len() && forall|i: int|
                0 <= i < rec.products@.len() ==> product_from(#[trigger] rec.products@[i], minable.results@[i])
            &&& minable.results@.len() == 0 ==> rec.products@.len() == 1 && rec.products@[0].resource@ == (
                false,
                match minable.result {
                    Some(n) => n@,
                    None => name@,
                },
            ) && rec.products@[0].amount == ProductAmount::Fixed(
                N::spec_from_u64(legacy_count_or_one(minable.count) as u64),
            ) && rec.products@[0].probability == N::spec_one()
        },
{
    let ingredients = mining_ingredients(&minable.required_fluid, minable.fluid_amount);
    let products = match mining_products(name, &minable.result, minable.count, &minable.results) {
        Ok(v) => v,
        Err(e) => {
            return Err(e);
        },
    };
    Ok(
        Recipe {
            id: RecipeId::new(name),
            category: CraftingCategory::new(category.as_str()),
            ingredients,
            products,
            crafting_time: minable.mining_time,
            allow_productivity: true,
        },
    )
}

/// Every entry of `entries` was read, and its prototype meets `ok`.
pub open spec fn all_read<T>(entries: Seq<(String, Result<T, String>)>, ok: spec_fn(T) -> bool) -> bool {
    forall|j: int| 0 <= j < entries.len() ==> (#[trigger] entries[j].1 matches Ok(raw) && ok(raw))
}

/// One more entry read, meeting `ok`.
proof fn lemma_all_read_step<T>(entries: Seq<(String, Result<T, String>)>, ok: spec_fn(T) -> bool, j: int)
    requires
        0 <= j < entries.len(),
        all_read(entries.take(j), ok),
        entries[j].1 matches Ok(raw) && ok(raw),
    ensures
        all_read(entries.take(j + 1), ok),
{
    assert forall|i: int| 0 <= i < j + 1 implies (#[trigger] entries.take(j + 1)[i].1 matches Ok(raw) && ok(raw)) by {
        if i < j {
            assert(entries.take(j + 1)[i] == entries.take(j)[i]);
        }
    }
}

/// An entry that holds no prototype meeting `ok` keeps the entries from
/// being all read.
proof fn lemma_not_all_read<T>(entries: Seq<(String, Result<T, String>)>, ok: spec_fn(T) -> bool, j: int)
    requires
        0 <= j < entries.len(),
        !(entries[j].1 matches Ok(raw) && ok(raw)),
    ensures
        !all_read(entries, ok),
{
}

/// A section that is there and was not read entirely keeps the sections
/// from being read.
proof fn lemma_not_sections_read<T>(
    sections: Seq<Option<Vec<(String, Result<T, String>)>>>,
    count: int,
    ok: spec_fn(T) -> bool,
    s: int,
)
    requires
        0 <= s < count,
        s < sections.len(),
        sections[s] matches Some(es) && !all_read(es@, ok),
    ensures
        !sections_read(sections, count, ok),
{
}

/// Of the first `count` sections, every one that is there was read
/// entirely, each prototype meeting `ok`.
pub open spec fn sections_read<T>(
    sections: Seq<Option<Vec<(String, Result<T, String>)>>>,
    count: int,
    ok: spec_fn(T) -> bool,
) -> bool {
    forall|s: int| 0 <= s < count && s < sections.len() ==> (#[trigger] sections[s] matches Some(es) ==> all_read(es@, ok))
}

/// A machine prototype whose energy usage can be read.
pub open spec fn machine_energy_ok<N>() -> spec_fn(RawMachine<N>) -> bool {
    |raw: RawMachine<N>| energy_readable(raw.energy_usage@)
}

/// A mining drill prototype whose energy usage can be read.
pub open spec fn drill_energy_ok<N>() -> spec_fn(RawMiningDrill<N>) -> bool {
    |raw: RawMiningDrill<N>| energy_readable(raw.energy_usage@)
}

/// A machine prototype whose energy usage can be read and whose number
/// parses.
pub open spec fn machine_energy_sound<N: Quantity>() -> spec_fn(RawMachine<N>) -> bool {
    |raw: RawMachine<N>| energy_sound::<N>(raw.energy_usage@)
}

/// A mining drill prototype whose energy usage can be read and whose number
/// parses.
pub open spec fn drill_energy_sound<N: Quantity>() -> spec_fn(RawMiningDrill<N>) -> bool {
    |raw: RawMiningDrill<N>| energy_sound::<N>(raw.energy_usage@)
}

/// A recipe prototype whose ingredients and results all have a known
/// resource type.
pub open spec fn recipe_types_ok<N>() -> spec_fn(RawRecipe<N>) -> bool {
    |raw: RawRecipe<N>|
        (forall|i: int|
            0 <= i < raw.ingredients@.len() ==> resource_spec(
                (#[trigger] raw.ingredients@[i]).ty@,
                raw.ingredients@[i].name@,
            ) is Some) && (forall|i: int|
            0 <= i < raw.results@.len() ==> resource_spec((#[trigger] raw.results@[i]).ty@, raw.results@[i].name@) is Some)
}

/// A resource prototype whose mining results all have a known resource
/// type.
pub open spec fn resource_types_ok<N>() -> spec_fn(RawResource<N>) -> bool {
    |raw: RawResource<N>|
        raw.minable matches Some(m) ==> forall|i: int|
            0 <= i < m.results@.len() ==> resource_spec((#[trigger] m.results@[i]).ty@, m.results@[i].name@) is Some
}

/// Every prototype of the dump could be read: each entry holds a
/// prototype, each machine's energy usage has a number and a known unit,
/// and each resource that a recipe or a resource names has a known type.
pub open spec fn dump_readable<N>(dump: RawDump<N>) -> bool {
    &&& sections_read(dump.items@, 20, every::<RawItem>())
    &&& (dump.fluids matches Some(es) ==> all_read(es@, every::<RawFluid<N>>()))
    &&& sections_read(dump.machines@, 3, machine_energy_ok::<N>())
    &&& (dump.mining_drills matches Some(es) ==> all_read(es@, drill_energy_ok::<N>()))
    &&& (dump.recipes matches Some(es) ==> all_read(es@, recipe_types_ok::<N>()))
    &&& (dump.resources matches Some(es) ==> all_read(es@, resource_types_ok::<N>()))
}

/// Every prototype of the dump can be read and built: each entry holds a
/// prototype, each machine's energy usage has a number that parses and a
/// known unit, and each resource that a recipe or a resource names has a
/// known type.
pub open spec fn dump_sound<N: Quantity>(dump: RawDump<N>) -> bool {
    &&& sections_read(dump.items@, 20, every::<RawItem>())
    &&& (dump.fluids matches Some(es) ==> all_read(es@, every::<RawFluid<N>>()))
    &&& sections_read(dump.machines@, 3, machine_energy_sound::<N>())
    &&& (dump.mining_drills matches Some(es) ==> all_read(es@, drill_energy_sound::<N>()))
    &&& (dump.recipes matches Some(es) ==> all_read(es@, recipe_types_ok::<N>()))
    &&& (dump.resources matches Some(es) ==> all_read(es@, resource_types_ok::<N>()))
}

/// `e` says that a recipe prototype among `entries` names a resource of an
/// unknown type, the first such type of that prototype.
pub open spec fn unknown_type_in_recipes<N>(entries: Seq<(String, Result<RawRecipe<N>, String>)>, e: DumpError) -> bool {
    e matches DumpError::UnknownResourceType(t) && exists|j: int|
        0 <= j < entries.len() && (#[trigger] entries[j].1 matches Ok(raw) && recipe_unknown_type(raw, t@))
}

/// `e` says that a minable resource prototype among `entries` lists a
/// mining result of an unknown type, the first such type of that prototype.
pub open spec fn unknown_type_in_resources<N>(entries: Seq<(String, Result<RawResource<N>, String>)>, e: DumpError) -> bool {
    e matches DumpError::UnknownResourceType(t) && exists|j: int|
        0 <= j < entries.len() && (#[trigger] entries[j].1 matches Ok(raw) && (raw.minable matches Some(m)
            && first_unknown_product(m.results@, t@)))
}

/// Some entry of `entries` is named `k` and holds a prototype that `keep`
/// accepts.
pub open spec fn kept_named<T>(entries: Seq<(String, Result<T, String>)>, keep: spec_fn(T) -> bool, k: Seq<char>) -> bool {
    exists|j: int| 0 <= j < entries.len() && #[trigger] entries[j].0@ == k && (entries[j].1 matches Ok(raw) && keep(raw))
}

/// No entry of `entries` after the `j`-th is named `k` and holds a
/// prototype that `keep` accepts.
pub open spec fn none_kept_after<T>(
    entries: Seq<(String, Result<T, String>)>,
    keep: spec_fn(T) -> bool,
    k: Seq<char>,
    j: int,
) -> bool {
    forall|i: int| j < i < entries.len() && #[trigger] entries[i].0@ == k ==> !(entries[i].1 matches Ok(raw) && keep(raw))
}

/// The table `new` is the table `old` with the prototypes of `entries` that
/// `keep` accepts added: it has a key exactly when `old` has it or such an
/// entry names it, the value of a key that an entry names is built (by
/// `built`) from the last such entry of that name, and other values are
/// unchanged.
pub open spec fn section_added<K: View<V = Seq<char>>, V, T>(
    old: Seq<(K, V)>,
    new: Seq<(K, V)>,
    entries: Seq<(String, Result<T, String>)>,
    keep: spec_fn(T) -> bool,
    built: spec_fn(V, Seq<char>, T) -> bool,
) -> bool {
    &&& forall|k: Seq<char>| #[trigger] has_key(new, k) <==> has_key(old, k) || kept_named(entries, keep, k)
    &&& forall|k: Seq<char>|
        #[trigger] kept_named(entries, keep, k) ==> exists|j: int|
            0 <= j < entries.len() && #[trigger] entries[j].0@ == k && (entries[j].1 matches Ok(raw) && keep(raw) && built(
                value_of(new, k),
                k,
                raw,
            )) && none_kept_after(entries, keep, k, j)
    &&& forall|k: Seq<char>|
        has_key(old, k) && !kept_named(entries, keep, k) ==> #[trigger] value_of(new, k) == value_of(old, k)
}

/// Adding nothing leaves a table as it is.
proof fn lemma_section_empty<K: View<V = Seq<char>>, V, T>(
    old: Seq<(K, V)>,
    entries: Seq<(String, Result<T, String>)>,
    keep: spec_fn(T) -> bool,
    built: spec_fn(V, Seq<char>, T) -> bool,
)
    ensures
        section_added(old, old, entries.take(0), keep, built),
{
    assert forall|k: Seq<char>| !kept_named(entries.take(0), keep, k) by {
    }
}

/// One more entry: skipped, or stored under its name with a value built
/// from it.
proof fn lemma_section_step<K: View<V = Seq<char>>, V, T>(
    old: Seq<(K, V)>,
    mid: Seq<(K, V)>,
    new: Seq<(K, V)>,
    entries: Seq<(String, Result<T, String>)>,
    keep: spec_fn(T) -> bool,
    built: spec_fn(V, Seq<char>, T) -> bool,
    j: int,
)
    requires
        0 <= j < entries.len(),
        section_added(old, mid, entries.take(j), keep, built),
        match entries[j].1 {
            Ok(raw) => if keep(raw) {
                &&& updated(mid, new, entries[j].0@, value_of(new, entries[j].0@))
                &&& built(value_of(new, entries[j].0@), entries[j].0@, raw)
            } else {
                new == mid
            },
            Err(_) => new == mid,
        },
    ensures
        section_added(old, new, entries.take(j + 1), keep, built),
{
    let pre = entries.take(j);
    let post = entries.take(j + 1);
    let name = entries[j].0@;
    let kept = entries[j].1 matches Ok(raw) && keep(raw);
    assert forall|k: Seq<char>| kept_named(post, keep, k) <==> kept_named(pre, keep, k) || (kept && k == name) by {
        if kept_named(post, keep, k) {
            let i = choose|i: int| 0 <= i < post.len() && #[trigger] post[i].0@ == k && (post[i].1 matches Ok(raw) && keep(raw));
            if i < j {
                assert(pre[i] == post[i]);
            }
        }
        if kept_named(pre, keep, k) {
            let i = choose|i: int| 0 <= i < pre.len() && #[trigger] pre[i].0@ == k && (pre[i].1 matches Ok(raw) && keep(raw));
            assert(post[i] == pre[i]);
        }
        if kept && k == name {
            assert(post[j].0@ == k);
        }
    }
    assert forall|k: Seq<char>| #[trigger] has_key(new, k) <==> has_key(old, k) || kept_named(post, keep, k) by {
        if kept && k != name {
            assert(has_key(new, k) == has_key(mid, k));
        }
    }
    assert forall|k: Seq<char>|
        #[trigger] kept_named(post, keep, k) implies exists|i: int|
            0 <= i < post.len() && #[trigger] post[i].0@ == k && (post[i].1 matches Ok(raw) && keep(raw) && built(
                value_of(new, k),
                k,
                raw,
            )) && none_kept_after(post, keep, k, i) by {
        if kept && k == name {
            assert(post[j] == entries[j]);
            assert(post[j].0@ == k);
            assert(none_kept_after(post, keep, k, j));
        } else {
            assert(kept_named(pre, keep, k));
            let i = choose|i: int|
                0 <= i < pre.len() && #[trigger] pre[i].0@ == k && (pre[i].1 matches Ok(raw) && keep(raw) && built(
                    value_of(mid, k),
                    k,
                    raw,
                )) && none_kept_after(pre, keep, k, i);
            assert(post[i] == pre[i]);
            if kept {
                assert(has_key(mid, k));
                assert(value_of(new, k) == value_of(mid, k));
            }
            assert(post[i].0@ == k);
            assert forall|i2: int| i < i2 < post.len() && #[trigger] post[i2].0@ == k implies !(post[i2].1 matches Ok(
                raw,
            ) && keep(raw)) by {
                if i2 < j {
                    assert(post[i2] == pre[i2]);
                } else {
                    assert(post[i2] == entries[j]);
                }
            }
        }
    }
    assert forall|k: Seq<char>| has_key(old, k) && !kept_named(post, keep, k) implies #[trigger] value_of(new, k) == value_of(
        old,
        k,
    ) by {
        assert(!kept_named(pre, keep, k));
        if kept {
            assert(k != name);
            assert(has_key(mid, k));
        }
    }
}

/// Some entry of `entries` is named `name` and could not be read, for
/// `reason`.
pub open spec fn unreadable<T>(entries: Seq<(String, Result<T, String>)>, name: Seq<char>, reason: Seq<char>) -> bool {
    exists|j: int|
        0 <= j < entries.len() && #[trigger] entries[j].0@ == name && (entries[j].1 matches Err(r) && r@ == reason)
}

/// `e` says that a prototype of kind `kind` among `entries` could not be
/// read.
pub open spec fn malformed_in<T>(entries: Seq<(String, Result<T, String>)>, kind: Seq<char>, e: DumpError) -> bool {
    e matches DumpError::MalformedPrototype { kind: k, name, reason } && k@ == kind && unreadable(entries, name@, reason@)
}

/// The prototype of an entry, or the error that says it could not be read.
fn decode<'a, T>(kind: &str, entry: &'a (String, Result<T, String>)) -> (r: Result<&'a T, DumpError>)
    ensures
        match r {
            Ok(raw) => entry.1 == Ok::<T, String>(*raw),
            Err(e) => entry.1 is Err && (e matches DumpError::MalformedPrototype { kind: k, name, reason } && k@ == kind@
                && name@ == entry.0@ && (entry.1 matches Err(rs) && rs@ == reason@)),
        },
{
    match &entry.1 {
        Ok(raw) => Ok(raw),
        Err(reason) => Err(
            DumpError::MalformedPrototype { kind: kind.to_owned(), name: entry.0.clone(), reason: reason.clone() },
        ),
    }
}

/// `v` is the item named `name` that the item prototype `raw` describes.
pub open spec fn item_from(v: Item, name: Seq<char>, raw: RawItem) -> bool {
    &&& v.id@ == name
    &&& v.stack_size == raw.stack_size
    &&& icon_view(v.icon) == icon_spec(raw.icon)
}

/// Items built from their prototypes.
pub open spec fn item_builder() -> spec_fn(Item, Seq<char>, RawItem) -> bool {
    |v: Item, k: Seq<char>, raw: RawItem| item_from(v, k, raw)
}

/// Every prototype.
pub open spec fn every<T>() -> spec_fn(T) -> bool {
    |raw: T| true
}

/// Adds the items of one kind of prototype.
fn extract_item_section<N: Quantity>(
    db: &mut Database<N>,
    kind: &str,
    entries: &Vec<(String, Result<RawItem, String>)>,
) -> (r: Result<(), DumpError>)
    requires
        old(db).wf(),
    ensures
        final(db).wf(),
        final(db).fluids@ == old(db).fluids@,
        final(db).recipes@ == old(db).recipes@,
        final(db).machines@ == old(db).machines@,
        r is Ok ==> section_added(old(db).items@, final(db).items@, entries@, every::<RawItem>(), item_builder()),
        r is Ok ==> all_read(entries@, every::<RawItem>()),
        all_read(entries@, every::<RawItem>()) ==> r is Ok,
        r matches Err(e) ==> malformed_in(entries@, kind@, e),
{
    let ghost built = item_builder();
    let ghost start = db.items@;
    proof {
        lemma_section_empty(start, entries@, every::<RawItem>(), built);
    }
    let n = entries.len();
    let mut j: usize = 0;
    while j < n
        invariant
            n == entries@.len(),
            j <= n,
            db.wf(),
            db.fluids@ == old(db).fluids@,
            db.recipes@ == old(db).recipes@,
            db.machines@ == old(db).machines@,
            start == old(db).items@,
            built == item_builder(),
            section_added(start, db.items@, entries@.take(j as int), every::<RawItem>(), built),
            all_read(entries@.take(j as int), every::<RawItem>()),
        decreases n - j,
    {
        let ghost mid = db.items@;
        let raw = match decode(kind, &entries[j]) {
            Ok(raw) => raw,
            Err(e) => {
                proof {
                    lemma_not_all_read(entries@, every::<RawItem>(), j as int);
                }
                return Err(e);
            },
        };
        let item = Item { id: ItemId::new(entries[j].0.as_str()), stack_size: raw.stack_size, icon: extract_icon(&raw.icon) };
        let ghost made = item;
        db.insert_item(item);
        proof {
            assert(value_of(db.items@, entries@[j as int].0@) == made);
            assert(built(made, entries@[j as int].0@, *raw));
            lemma_section_step(start, mid, db.items@, entries@, every::<RawItem>(), built, j as int);
        }
        proof {
            lemma_all_read_step(entries@, every::<RawItem>(), j as int);
        }
        j = j + 1;
    }
    proof {
        assert(entries@.take(n as int) =~= entries@);
    }
    Ok(())
}

/// `v` is the fluid named `name` that the fluid prototype `raw` describes.
pub open spec fn fluid_from<N>(v: Fluid<N>, name: Seq<char>, raw: RawFluid<N>) -> bool {
    &&& v.id@ == name
    &&& v.default_temperature == raw.default_temperature
    &&& icon_view(v.icon) == icon_spec(raw.icon)
}

/// Fluids built from their prototypes.
pub open spec fn fluid_builder<N>() -> spec_fn(Fluid<N>, Seq<char>, RawFluid<N>) -> bool {
    |v: Fluid<N>, k: Seq<char>, raw: RawFluid<N>| fluid_from(v, k, raw)
}

/// Machines of kind `kind` built from their prototypes.
pub open spec fn machine_builder<N: Quantity>(kind: MachineKind) -> spec_fn(Machine<N>, Seq<char>, RawMachine<N>) -> bool {
    |v: Machine<N>, k: Seq<char>, raw: RawMachine<N>| machine_from(v, k, kind, raw)
}

/// Mining drills built from their prototypes.
pub open spec fn drill_builder<N: Quantity>() -> spec_fn(Machine<N>, Seq<char>, RawMiningDrill<N>) -> bool {
    |v: Machine<N>, k: Seq<char>, raw: RawMiningDrill<N>| drill_from(v, k, raw)
}

/// Recipes built from their prototypes.
pub open spec fn recipe_builder<N: Quantity>() -> spec_fn(Recipe<N>, Seq<char>, RawRecipe<N>) -> bool {
    |v: Recipe<N>, k: Seq<char>, raw: RawRecipe<N>| recipe_from(v, k, raw)
}

/// `rec` is the mining recipe of the resource `name` that the resource
/// prototype `raw` describes.
pub open spec fn mining_recipe_from<N: Quantity>(rec: Recipe<N>, name: Seq<char>, raw: RawResource<N>) -> bool {
    match raw.minable {
        Some(minable) => {
            &&& rec.id@ == name
            &&& rec.category@ == raw.category@
            &&& rec.crafting_time == minable.mining_time
            &&& rec.allow_productivity
            &&& match minable.required_fluid {
                Some(f) => rec.ingredients@.len() == 1 && rec.ingredients@[0].resource@ == (true, f@)
                    && rec.ingredients@[0].amount == minable.fluid_amount.spec_over(N::spec_from_u64(10)),
                None => rec.ingredients@.len() == 0,
            }
            &&& minable.results@.len() > 0 ==> rec.products@.len() == minable.results@.len() && forall|i: int|
                0 <= i < rec.products@.len() ==> product_from(#[trigger] rec.products@[i], minable.results@[i])
            &&& minable.results@.len() == 0 ==> rec.products@.len() == 1 && rec.products@[0].resource@ == (
                false,
                match minable.result {
                    Some(n) => n@,
                    None => name,
                },
            ) && rec.products@[0].amount == ProductAmount::Fixed(
                N::spec_from_u64(legacy_count_or_one(minable.count) as u64),
            ) && rec.products@[0].probability == N::spec_one()
        },
        None => false,
    }
}

/// Mining recipes built from resource prototypes.
pub open spec fn mining_builder<N: Quantity>() -> spec_fn(Recipe<N>, Seq<char>, RawResource<N>) -> bool {
    |v: Recipe<N>, k: Seq<char>, raw: RawResource<N>| mining_recipe_from(v, k, raw)
}

/// The resources that can be mined.
pub open spec fn minable<N>() -> spec_fn(RawResource<N>) -> bool {
    |raw: RawResource<N>| raw.minable is Some
}

/// `e` says that the energy usage of a prototype among `entries` could not
/// be read: it names that usage, which does not parse.
pub open spec fn bad_energy_in<N: Quantity>(entries: Seq<(String, Result<RawMachine<N>, String>)>, e: DumpError) -> bool {
    e matches DumpError::InvalidEnergy(s) && exists|j: int|
        0 <= j < entries.len() && (#[trigger] entries[j].1 matches Ok(raw) && raw.energy_usage@ == s@
            && !energy_sound::<N>(raw.energy_usage@))
}

/// Adds the fluids of the dump.
fn extract_fluids<N: Quantity>(
    db: &mut Database<N>,
    entries: &Vec<(String, Result<RawFluid<N>, String>)>,
) -> (r: Result<(), DumpError>)
    requires
        old(db).wf(),
    ensures
        final(db).wf(),
        final(db).items@ == old(db).items@,
        final(db).recipes@ == old(db).recipes@,
        final(db).machines@ == old(db).machines@,
        r is Ok ==> section_added(old(db).fluids@, final(db).fluids@, entries@, every::<RawFluid<N>>(), fluid_builder::<N>()),
        r is Ok ==> all_read(entries@, every::<RawFluid<N>>()),
        all_read(entries@, every::<RawFluid<N>>()) ==> r is Ok,
        r matches Err(e) ==> malformed_in(entries@, "fluid"@, e),
{
    proof {
        reveal_strlit("fluid");
    }
    let ghost built = fluid_builder::<N>();
    let ghost start = db.fluids@;
    proof {
        lemma_section_empty(start, entries@, every::<RawFluid<N>>(), built);
    }
    let n = entries.len();
    let mut j: usize = 0;
    while j < n
        invariant
            n == entries@.len(),
            j <= n,
            db.wf(),
            db.items@ == old(db).items@,
            db.recipes@ == old(db).recipes@,
            db.machines@ == old(db).machines@,
            start == old(db).fluids@,
            built == fluid_builder::<N>(),
            section_added(start, db.fluids@, entries@.take(j as int), every::<RawFluid<N>>(), built),
            all_read(entries@.take(j as int), every::<RawFluid<N>>()),
        decreases n - j,
    {
        let ghost mid = db.fluids@;
        let raw = match decode("fluid", &entries[j]) {
            Ok(raw) => raw,
            Err(e) => {
                proof {
                    lemma_not_all_read(entries@, every::<RawFluid<N>>(), j as int);
                }
                return Err(e);
            },
        };
        let fluid = Fluid {
            id: FluidId::new(entries[j].0.as_str()),
            default_temperature: raw.default_temperature,
            icon: extract_icon(&raw.icon),
        };
        let ghost made = fluid;
        db.insert_fluid(fluid);
        proof {
            assert(value_of(db.fluids@, entries@[j as int].0@) == made);
            assert(built(made, entries@[j as int].0@, *raw));
            lemma_section_step(start, mid, db.fluids@, entries@, every::<RawFluid<N>>(), built, j as int);
        }
        proof {
            lemma_all_read_step(entries@, every::<RawFluid<N>>(), j as int);
        }
        j = j + 1;
    }
    proof {
        assert(entries@.take(n as int) =~= entries@);
    }
    Ok(())
}

/// Adds the machines of one kind of prototype, as machines of kind `kind`.
fn extract_machine_section<N: Quantity>(
    db: &mut Database<N>,
    prototype: &str,
    kind: MachineKind,
    entries: &Vec<(String, Result<RawMachine<N>, String>)>,
) -> (r: Result<(), DumpError>)
    requires
        old(db).wf(),
    ensures
        final(db).wf(),
        final(db).items@ == old(db).items@,
        final(db).fluids@ == old(db).fluids@,
        final(db).recipes@ == old(db).recipes@,
        r is Ok ==> section_added(old(db).machines@, final(db).machines@, entries@, every::<RawMachine<N>>(), machine_builder::<N>(kind)),
        r is Ok ==> all_read(entries@, machine_energy_ok::<N>()),
        all_read(entries@, machine_energy_sound::<N>()) ==> r is Ok,
        r matches Err(e) ==> malformed_in(entries@, prototype@, e) || bad_energy_in(entries@, e),
{
    let ghost built = machine_builder::<N>(kind);
    let ghost start = db.machines@;
    proof {
        lemma_section_empty(start, entries@, every::<RawMachine<N>>(), built);
    }
    let n = entries.len();
    let mut j: usize = 0;
    while j < n
        invariant
            n == entries@.len(),
            j <= n,
            db.wf(),
            db.items@ == old(db).items@,
            db.fluids@ == old(db).fluids@,
            db.recipes@ == old(db).recipes@,
            start == old(db).machines@,
            built == machine_builder::<N>(kind),
            section_added(start, db.machines@, entries@.take(j as int), every::<RawMachine<N>>(), built),
            all_read(entries@.take(j as int), machine_energy_ok::<N>()),
        decreases n - j,
    {
        let ghost mid = db.machines@;
        let raw = match decode(prototype, &entries[j]) {
            Ok(raw) => raw,
            Err(e) => {
                proof {
                    lemma_not_all_read(entries@, machine_energy_sound::<N>(), j as int);
                }
                return Err(e);
            },
        };
        let machine = match build_machine(entries[j].0.as_str(), kind, raw) {
            Ok(m) => m,
            Err(e) => {
                proof {
                    assert(entries@[j as int].1 matches Ok(r) && r.energy_usage@ == raw.energy_usage@);
                    lemma_not_all_read(entries@, machine_energy_sound::<N>(), j as int);
                }
                return Err(e);
            },
        };
        let ghost made = machine;
        db.insert_machine(machine);
        proof {
            assert(value_of(db.machines@, entries@[j as int].0@) == made);
            assert(built(made, entries@[j as int].0@, *raw));
            lemma_section_step(start, mid, db.machines@, entries@, every::<RawMachine<N>>(), built, j as int);
        }
        proof {
            lemma_all_read_step(entries@, machine_energy_ok::<N>(), j as int);
        }
        j = j + 1;
    }
    proof {
        assert(entries@.take(n as int) =~= entries@);
    }
    Ok(())
}

/// `e` says that the energy usage of a mining drill among `entries` could
/// not be read.
pub open spec fn bad_drill_energy_in<N: Quantity>(entries: Seq<(String, Result<RawMiningDrill<N>, String>)>, e: DumpError) -> bool {
    e matches DumpError::InvalidEnergy(s) && exists|j: int|
        0 <= j < entries.len() && (#[trigger] entries[j].1 matches Ok(raw) && raw.energy_usage@ == s@
            && !energy_sound::<N>(raw.energy_usage@))
}

/// Adds the mining drills of the dump.
fn extract_mining_drills<N: Quantity>(
    db: &mut Database<N>,
    entries: &Vec<(String, Result<RawMiningDrill<N>, String>)>,
) -> (r: Result<(), DumpError>)
    requires
        old(db).wf(),
    ensures
        final(db).wf(),
        final(db).items@ == old(db).items@,
        final(db).fluids@ == old(db).fluids@,
        final(db).recipes@ == old(db).recipes@,
        r is Ok ==> section_added(old(db).machines@, final(db).machines@, entries@, every::<RawMiningDrill<N>>(), drill_builder::<N>()),
        r is Ok ==> all_read(entries@, drill_energy_ok::<N>()),
        all_read(entries@, drill_energy_sound::<N>()) ==> r is Ok,
        r matches Err(e) ==> malformed_in(entries@, "mining-drill"@, e) || bad_drill_energy_in(entries@, e),
{
    proof {
        reveal_strlit("mining-drill");
    }
    let ghost built = drill_builder::<N>();
    let ghost start = db.machines@;
    proof {
        lemma_section_empty(start, entries@, every::<RawMiningDrill<N>>(), built);
    }
    let n = entries.len();
    let mut j: usize = 0;
    while j < n
        invariant
            n == entries@.len(),
            j <= n,
            db.wf(),
            db.items@ == old(db).items@,
            db.fluids@ == old(db).fluids@,
            db.recipes@ == old(db).recipes@,
            start == old(db).machines@,
            built == drill_builder::<N>(),
            section_added(start, db.machines@, entries@.take(j as int), every::<RawMiningDrill<N>>(), built),
            all_read(entries@.take(j as int), drill_energy_ok::<N>()),
        decreases n - j,
    {
        let ghost mid = db.machines@;
        let raw = match decode("mining-drill", &entries[j]) {
            Ok(raw) => raw,
            Err(e) => {
                proof {
                    lemma_not_all_read(entries@, drill_energy_sound::<N>(), j as int);
                }
                return Err(e);
            },
        };
        let drill = match build_mining_drill(entries[j].0.as_str(), raw) {
            Ok(m) => m,
            Err(e) => {
                proof {
                    assert(entries@[j as int].1 matches Ok(r) && r.energy_usage@ == raw.energy_usage@);
                    lemma_not_all_read(entries@, drill_energy_sound::<N>(), j as int);
                }
                return Err(e);
            },
        };
        let ghost made = drill;
        db.insert_machine(drill);
        proof {
            assert(value_of(db.machines@, entries@[j as int].0@) == made);
            assert(built(made, entries@[j as int].0@, *raw));
            lemma_section_step(start, mid, db.machines@, entries@, every::<RawMiningDrill<N>>(), built, j as int);
        }
        proof {
            lemma_all_read_step(entries@, drill_energy_ok::<N>(), j as int);
        }
        j = j + 1;
    }
    proof {
        assert(entries@.take(n as int) =~= entries@);
    }
    Ok(())
}

/// Adds the crafting recipes of the dump.
fn extract_recipes<N: Quantity>(
    db: &mut Database<N>,
    entries: &Vec<(String, Result<RawRecipe<N>, String>)>,
) -> (r: Result<(), DumpError>)
    requires
        old(db).wf(),
    ensures
        final(db).wf(),
        final(db).items@ == old(db).items@,
        final(db).fluids@ == old(db).fluids@,
        final(db).machines@ == old(db).machines@,
        r is Ok ==> section_added(old(db).recipes@, final(db).recipes@, entries@, every::<RawRecipe<N>>(), recipe_builder::<N>()),
        r is Ok ==> all_read(entries@, recipe_types_ok::<N>()),
        all_read(entries@, recipe_types_ok::<N>()) ==> r is Ok,
        r matches Err(e) ==> malformed_in(entries@, "recipe"@, e) || unknown_type_in_recipes(entries@, e),
{
    proof {
        reveal_strlit("recipe");
    }
    let ghost built = recipe_builder::<N>();
    let ghost start = db.recipes@;
    proof {
        lemma_section_empty(start, entries@, every::<RawRecipe<N>>(), built);
    }
    let n = entries.len();
    let mut j: usize = 0;
    while j < n
        invariant
            n == entries@.len(),
            j <= n,
            db.wf(),
            db.items@ == old(db).items@,
            db.fluids@ == old(db).fluids@,
            db.machines@ == old(db).machines@,
            start == old(db).recipes@,
            built == recipe_builder::<N>(),
            section_added(start, db.recipes@, entries@.take(j as int), every::<RawRecipe<N>>(), built),
            all_read(entries@.take(j as int), recipe_types_ok::<N>()),
        decreases n - j,
    {
        let ghost mid = db.recipes@;
        let raw = match decode("recipe", &entries[j]) {
            Ok(raw) => raw,
            Err(e) => {
                proof {
                    lemma_not_all_read(entries@, recipe_types_ok::<N>(), j as int);
                }
                return Err(e);
            },
        };
        let recipe = match build_recipe(entries[j].0.as_str(), raw) {
            Ok(rec) => rec,
            Err(e) => {
                proof {
                    assert(entries@[j as int].1 == Ok::<RawRecipe<N>, String>(*raw));
                    if recipe_types_ok::<N>()(*raw) {
                        assert(ingredient_types_known(raw.ingredients@));
                        assert(product_types_known(raw.results@));
                    }
                    lemma_not_all_read(entries@, recipe_types_ok::<N>(), j as int);
                }
                return Err(e);
            },
        };
        let ghost made = recipe;
        db.insert_recipe(recipe);
        proof {
            assert(value_of(db.recipes@, entries@[j as int].0@) == made);
            assert(built(made, entries@[j as int].0@, *raw));
            lemma_section_step(start, mid, db.recipes@, entries@, every::<RawRecipe<N>>(), built, j as int);
        }
        proof {
            lemma_all_read_step(entries@, recipe_types_ok::<N>(), j as int);
        }
        j = j + 1;
    }
    proof {
        assert(entries@.take(n as int) =~= entries@);
    }
    Ok(())
}

/// Adds a mining recipe for each resource of the dump that can be mined;
/// the others are skipped.
fn extract_resources<N: Quantity>(
    db: &mut Database<N>,
    entries: &Vec<(String, Result<RawResource<N>, String>)>,
) -> (r: Result<(), DumpError>)
    requires
        old(db).wf(),
    ensures
        final(db).wf(),
        final(db).items@ == old(db).items@,
        final(db).fluids@ == old(db).fluids@,
        final(db).machines@ == old(db).machines@,
        r is Ok ==> section_added(old(db).recipes@, final(db).recipes@, entries@, minable::<N>(), mining_builder::<N>()),
        r is Ok ==> all_read(entries@, resource_types_ok::<N>()),
        all_read(entries@, resource_types_ok::<N>()) ==> r is Ok,
        r matches Err(e) ==> malformed_in(entries@, "resource"@, e) || unknown_type_in_resources(entries@, e),
{
    proof {
        reveal_strlit("resource");
    }
    let ghost built = mining_builder::<N>();
    let ghost start = db.recipes@;
    proof {
        lemma_section_empty(start, entries@, minable::<N>(), built);
    }
    let n = entries.len();
    let mut j: usize = 0;
    while j < n
        invariant
            n == entries@.len(),
            j <= n,
            db.wf(),
            db.items@ == old(db).items@,
            db.fluids@ == old(db).fluids@,
            db.machines@ == old(db).machines@,
            start == old(db).recipes@,
            built == mining_builder::<N>(),
            section_added(start, db.recipes@, entries@.take(j as int), minable::<N>(), built),
            all_read(entries@.take(j as int), resource_types_ok::<N>()),
        decreases n - j,
    {
        let ghost mid = db.recipes@;
        let raw = match decode("resource", &entries[j]) {
            Ok(raw) => raw,
            Err(e) => {
                proof {
                    lemma_not_all_read(entries@, resource_types_ok::<N>(), j as int);
                }
                return Err(e);
            },
        };
        match &raw.minable {
            None => {
                proof {
                    lemma_section_step(start, mid, db.recipes@, entries@, minable::<N>(), built, j as int);
                }
            },
            Some(m) => {
                let recipe = match build_mining_recipe(entries[j].0.as_str(), &raw.category, m) {
                    Ok(rec) => rec,
                    Err(e) => {
                        proof {
                            assert(entries@[j as int].1 == Ok::<RawResource<N>, String>(*raw));
                            if resource_types_ok::<N>()(*raw) {
                                assert(product_types_known(m.results@));
                            }
                            lemma_not_all_read(entries@, resource_types_ok::<N>(), j as int);
                        }
                        return Err(e);
                    },
                };
                let ghost made = recipe;
                db.insert_recipe(recipe);
                proof {
                    assert(value_of(db.recipes@, entries@[j as int].0@) == made);
                    assert(built(made, entries@[j as int].0@, *raw));
                    lemma_section_step(start, mid, db.recipes@, entries@, minable::<N>(), built, j as int);
                }
            },
        }
        proof {
            lemma_all_read_step(entries@, resource_types_ok::<N>(), j as int);
        }
        j = j + 1;
    }
    proof {
        assert(entries@.take(n as int) =~= entries@);
    }
    Ok(())
}

/// Some present section among the first `count` of `sections` has a kept
/// entry named `k`.
pub open spec fn named_in_sections<T>(
    sections: Seq<Option<Vec<(String, Result<T, String>)>>>,
    count: int,
    keep: spec_fn(T) -> bool,
    k: Seq<char>,
) -> bool {
    exists|s: int|
        0 <= s < count && s < sections.len() && (#[trigger] sections[s] matches Some(es) && kept_named(es@, keep, k))
}

/// The entry `j` of the section `s`.
pub open spec fn section_entry<T>(sections: Seq<Option<Vec<(String, Result<T, String>)>>>, s: int, j: int) -> (
    String,
    Result<T, String>,
) {
    sections[s]->0@[j]
}

/// The table `new` is the table `old` with the kept prototypes of the
/// first `count` sections added, section after section, the prototypes of
/// section `s` built by `built(s)`.
pub open spec fn sections_added<K: View<V = Seq<char>>, V, T>(
    old: Seq<(K, V)>,
    new: Seq<(K, V)>,
    sections: Seq<Option<Vec<(String, Result<T, String>)>>>,
    count: int,
    keep: spec_fn(T) -> bool,
    built: spec_fn(int) -> spec_fn(V, Seq<char>, T) -> bool,
) -> bool {
    &&& forall|k: Seq<char>| #[trigger] has_key(new, k) <==> has_key(old, k) || named_in_sections(sections, count, keep, k)
    &&& forall|k: Seq<char>|
        #[trigger] named_in_sections(sections, count, keep, k) ==> exists|s: int, j: int|
            0 <= s < count && s < sections.len() && sections[s] is Some && 0 <= j < sections[s]->0@.len() && (
            #[trigger] section_entry(sections, s, j)).0@ == k && (section_entry(sections, s, j).1 matches Ok(raw) && keep(
                raw,
            ) && built(s)(value_of(new, k), k, raw))
    &&& forall|k: Seq<char>|
        has_key(old, k) && !named_in_sections(sections, count, keep, k) ==> #[trigger] value_of(new, k) == value_of(
            old,
            k,
        )
}

/// The prototypes of an optional section, added.
pub open spec fn opt_section_added<K: View<V = Seq<char>>, V, T>(
    old: Seq<(K, V)>,
    new: Seq<(K, V)>,
    entries: Option<Vec<(String, Result<T, String>)>>,
    keep: spec_fn(T) -> bool,
    built: spec_fn(V, Seq<char>, T) -> bool,
) -> bool {
    match entries {
        Some(es) => section_added(old, new, es@, keep, built),
        None => new == old,
    }
}

/// No section adds nothing.
proof fn lemma_sections_empty<K: View<V = Seq<char>>, V, T>(
    old: Seq<(K, V)>,
    sections: Seq<Option<Vec<(String, Result<T, String>)>>>,
    keep: spec_fn(T) -> bool,
    built: spec_fn(int) -> spec_fn(V, Seq<char>, T) -> bool,
)
    ensures
        sections_added(old, old, sections, 0, keep, built),
{
}

/// One more section: skipped when absent, added otherwise.
proof fn lemma_sections_step<K: View<V = Seq<char>>, V, T>(
    old: Seq<(K, V)>,
    mid: Seq<(K, V)>,
    new: Seq<(K, V)>,
    sections: Seq<Option<Vec<(String, Result<T, String>)>>>,
    s: int,
    keep: spec_fn(T) -> bool,
    built: spec_fn(int) -> spec_fn(V, Seq<char>, T) -> bool,
)
    requires
        0 <= s,
        sections_added(old, mid, sections, s, keep, built),
        s < sections.len() && sections[s] is Some ==> section_added(mid, new, sections[s]->0@, keep, built(s)),
        !(s < sections.len() && sections[s] is Some) ==> new == mid,
    ensures
        sections_added(old, new, sections, s + 1, keep, built),
{
    let present = s < sections.len() && sections[s] is Some;
    assert forall|k: Seq<char>|
        named_in_sections(sections, s + 1, keep, k) <==> named_in_sections(sections, s, keep, k) || (present
            && kept_named(sections[s]->0@, keep, k)) by {
        if named_in_sections(sections, s + 1, keep, k) {
            let t = choose|t: int|
                0 <= t < s + 1 && t < sections.len() && (#[trigger] sections[t] matches Some(es) && kept_named(es@, keep, k));
            if t < s {
                assert(named_in_sections(sections, s, keep, k));
            }
        }
        if present && kept_named(sections[s]->0@, keep, k) {
            assert(sections[s] matches Some(es) && kept_named(es@, keep, k));
        }
    }
    assert forall|k: Seq<char>| #[trigger] has_key(new, k) <==> has_key(old, k) || named_in_sections(sections, s + 1, keep, k) by {
    }
    assert forall|k: Seq<char>|
        #[trigger] named_in_sections(sections, s + 1, keep, k) implies exists|t: int, j: int|
            0 <= t < s + 1 && t < sections.len() && sections[t] is Some && 0 <= j < sections[t]->0@.len() && (
            #[trigger] section_entry(sections, t, j)).0@ == k && (section_entry(sections, t, j).1 matches Ok(raw) && keep(
                raw,
            ) && built(t)(value_of(new, k), k, raw)) by {
        if present && kept_named(sections[s]->0@, keep, k) {
            let es = sections[s]->0@;
            let j = choose|j: int|
                0 <= j < es.len() && #[trigger] es[j].0@ == k && (es[j].1 matches Ok(raw) && keep(raw) && built(s)(
                    value_of(new, k),
                    k,
                    raw,
                ));
            assert(section_entry(sections, s, j) == es[j]);
        } else {
            let (t, j) = choose|t: int, j: int|
                0 <= t < s && t < sections.len() && sections[t] is Some && 0 <= j < sections[t]->0@.len() && (
                #[trigger] section_entry(sections, t, j)).0@ == k && (section_entry(sections, t, j).1 matches Ok(raw)
                    && keep(raw) && built(t)(value_of(mid, k), k, raw));
            assert(has_key(mid, k));
            if present {
                assert(value_of(new, k) == value_of(mid, k));
            }
            assert(section_entry(sections, t, j).0@ == k);
        }
    }
    assert forall|k: Seq<char>|
        has_key(old, k) && !named_in_sections(sections, s + 1, keep, k) implies #[trigger] value_of(new, k) == value_of(
        old,
        k,
    ) by {
        assert(!named_in_sections(sections, s, keep, k));
        assert(has_key(mid, k));
        if present {
            assert(!kept_named(sections[s]->0@, keep, k));
        }
    }
}

/// Every section's items are built alike.
pub open spec fn item_builders() -> spec_fn(int) -> spec_fn(Item, Seq<char>, RawItem) -> bool {
    |s: int| item_builder()
}

/// The machines of each section are of that section's kind.
pub open spec fn machine_builders<N: Quantity>() -> spec_fn(int) -> spec_fn(Machine<N>, Seq<char>, RawMachine<N>) -> bool {
    |s: int| machine_builder::<N>(machine_prototype_list()[s].1)
}

/// Adds the items of every kind of item prototype, kind after kind.
fn extract_items<N: Quantity>(db: &mut Database<N>, dump: &RawDump<N>) -> (r: Result<(), DumpError>)
    requires
        old(db).wf(),
    ensures
        final(db).wf(),
        final(db).fluids@ == old(db).fluids@,
        final(db).recipes@ == old(db).recipes@,
        final(db).machines@ == old(db).machines@,
        r is Ok ==> sections_added(old(db).items@, final(db).items@, dump.items@, 20, every::<RawItem>(), item_builders()),
        r is Ok ==> sections_read(dump.items@, 20, every::<RawItem>()),
        sections_read(dump.items@, 20, every::<RawItem>()) ==> r is Ok,
        r matches Err(e) ==> exists|s: int|
            0 <= s < 20 && s < dump.items@.len() && (#[trigger] dump.items@[s] matches Some(es) && malformed_in(
                es@,
                item_prototype_names()[s],
                e,
            )),
{
    let prototypes = item_prototypes();
    let ghost start = db.items@;
    proof {
        lemma_sections_empty(start, dump.items@, every::<RawItem>(), item_builders());
        assert(prototypes@.map_values(|s: &'static str| s@).len() == prototypes@.len());
    }
    let n = prototypes.len();
    let mut i: usize = 0;
    while i < n
        invariant
            n == prototypes@.len(),
            n == 20,
            prototypes@.map_values(|s: &'static str| s@) == item_prototype_names(),
            i <= n,
            db.wf(),
            db.fluids@ == old(db).fluids@,
            db.recipes@ == old(db).recipes@,
            db.machines@ == old(db).machines@,
            start == old(db).items@,
            sections_added(start, db.items@, dump.items@, i as int, every::<RawItem>(), item_builders()),
            sections_read(dump.items@, i as int, every::<RawItem>()),
        decreases n - i,
    {
        let ghost mid = db.items@;
        if i < dump.items.len() {
            if let Some(entries) = &dump.items[i] {
                proof {
                    assert(prototypes@[i as int]@ == item_prototype_names()[i as int]);
                }
                match extract_item_section(db, prototypes[i], entries) {
                    Ok(()) => {},
                    Err(e) => {
                        proof {
                            assert(dump.items@[i as int] matches Some(es) && malformed_in(
                                es@,
                                item_prototype_names()[i as int],
                                e,
                            ));
                            lemma_not_sections_read(dump.items@, 20, every::<RawItem>(), i as int);
                        }
                        return Err(e);
                    },
                }
            }
        }
        proof {
            lemma_sections_step(start, mid, db.items@, dump.items@, i as int, every::<RawItem>(), item_builders());
        }
        proof {
            assert forall|s: int| 0 <= s < i + 1 && s < dump.items@.len() implies (#[trigger] dump.items@[s] matches Some(
                es,
            ) ==> all_read(es@, every::<RawItem>())) by {
                if s < i {
                    assert(sections_read(dump.items@, i as int, every::<RawItem>()));
                }
            }
        }
        i = i + 1;
    }
    Ok(())
}

/// Adds the machines of every kind of crafting machine prototype, kind
/// after kind.
fn extract_machines<N: Quantity>(db: &mut Database<N>, dump: &RawDump<N>) -> (r: Result<(), DumpError>)
    requires
        old(db).wf(),
    ensures
        final(db).wf(),
        final(db).items@ == old(db).items@,
        final(db).fluids@ == old(db).fluids@,
        final(db).recipes@ == old(db).recipes@,
        r is Ok ==> sections_added(
            old(db).machines@,
            final(db).machines@,
            dump.machines@,
            3,
            every::<RawMachine<N>>(),
            machine_builders::<N>(),
        ),
        r is Ok ==> sections_read(dump.machines@, 3, machine_energy_ok::<N>()),
        sections_read(dump.machines@, 3, machine_energy_sound::<N>()) ==> r is Ok,
        r matches Err(e) ==> exists|s: int|
            0 <= s < 3 && s < dump.machines@.len() && (#[trigger] dump.machines@[s] matches Some(es) && (malformed_in(
                es@,
                machine_prototype_list()[s].0,
                e,
            ) || bad_energy_in(es@, e))),
{
    let prototypes = machine_prototypes();
    let ghost start = db.machines@;
    proof {
        lemma_sections_empty(start, dump.machines@, every::<RawMachine<N>>(), machine_builders::<N>());
        assert(prototypes@.map_values(|e: (&'static str, MachineKind)| (e.0@, e.1)).len() == prototypes@.len());
    }
    let n = prototypes.len();
    let mut i: usize = 0;
    while i < n
        invariant
            n == prototypes@.len(),
            n == 3,
            prototypes@.map_values(|e: (&'static str, MachineKind)| (e.0@, e.1)) == machine_prototype_list(),
            i <= n,
            db.wf(),
            db.items@ == old(db).items@,
            db.fluids@ == old(db).fluids@,
            db.recipes@ == old(db).recipes@,
            start == old(db).machines@,
            sections_added(start, db.machines@, dump.machines@, i as int, every::<RawMachine<N>>(), machine_builders::<N>()),
            sections_read(dump.machines@, i as int, machine_energy_ok::<N>()),
        decreases n - i,
    {
        let ghost mid = db.machines@;
        if i < dump.machines.len() {
            if let Some(entries) = &dump.machines[i] {
                let (prototype, kind) = prototypes[i];
                proof {
                    assert(prototype@ == machine_prototype_list()[i as int].0);
                    assert(kind == machine_prototype_list()[i as int].1);
                }
                match extract_machine_section(db, prototype, kind, entries) {
                    Ok(()) => {},
                    Err(e) => {
                        proof {
                            assert(dump.machines@[i as int] matches Some(es) && (malformed_in(
                                es@,
                                machine_prototype_list()[i as int].0,
                                e,
                            ) || bad_energy_in(es@, e)));
                            lemma_not_sections_read(dump.machines@, 3, machine_energy_sound::<N>(), i as int);
                        }
                        return Err(e);
                    },
                }
            }
        }
        proof {
            lemma_sections_step(start, mid, db.machines@, dump.machines@, i as int, every::<RawMachine<N>>(), machine_builders::<N>());
        }
        proof {
            assert forall|s: int| 0 <= s < i + 1 && s < dump.machines@.len() implies (#[trigger] dump.machines@[s] matches Some(
                es,
            ) ==> all_read(es@, machine_energy_ok::<N>())) by {
                if s < i {
                    assert(sections_read(dump.machines@, i as int, machine_energy_ok::<N>()));
                }
            }
        }
        i = i + 1;
    }
    Ok(())
}

/// What an error of reading `dump` says: some prototype could not be read,
/// has an energy usage that cannot be read, or names a resource of an
/// unknown type.
pub open spec fn dump_error_ok<N: Quantity>(dump: RawDump<N>, e: DumpError) -> bool {
    ||| exists|s: int|
        0 <= s < 20 && s < dump.items@.len() && (#[trigger] dump.items@[s] matches Some(es) && malformed_in(
            es@,
            item_prototype_names()[s],
            e,
        ))
    ||| (dump.fluids matches Some(es) && malformed_in(es@, "fluid"@, e))
    ||| exists|s: int|
        0 <= s < 3 && s < dump.machines@.len() && (#[trigger] dump.machines@[s] matches Some(es) && (malformed_in(
            es@,
            machine_prototype_list()[s].0,
            e,
        ) || bad_energy_in(es@, e)))
    ||| (dump.mining_drills matches Some(es) && (malformed_in(es@, "mining-drill"@, e) || bad_drill_energy_in(es@, e)))
    ||| (dump.recipes matches Some(es) && (malformed_in(es@, "recipe"@, e) || unknown_type_in_recipes(es@, e)))
    ||| (dump.resources matches Some(es) && (malformed_in(es@, "resource"@, e) || unknown_type_in_resources(es@, e)))
}

/// The database that a dump describes: its items, fluids, crafting machines,
/// mining drills, crafting recipes, and the mining recipes of its minable
/// resources, read in this order; a later entry replaces an earlier one of
/// the same name. It is built only when every prototype of the dump can be
/// read, and otherwise the error names one that cannot.
pub fn build<N: Quantity>(dump: &RawDump<N>) -> (r: Result<Database<N>, DumpError>)
    ensures
        match r {
            Ok(db) => {
                &&& db.wf()
                &&& dump_readable(*dump)
                &&& sections_added(
                    Seq::<(ItemId, Item)>::empty(),
                    db.items@,
                    dump.items@,
                    20,
                    every::<RawItem>(),
                    item_builders(),
                )
                &&& opt_section_added(
                    Seq::<(FluidId, Fluid<N>)>::empty(),
                    db.fluids@,
                    dump.fluids,
                    every::<RawFluid<N>>(),
                    fluid_builder::<N>(),
                )
                &&& exists|m: Seq<(MachineId, Machine<N>)>|
                    sections_added(
                        Seq::<(MachineId, Machine<N>)>::empty(),
                        m,
                        dump.machines@,
                        3,
                        every::<RawMachine<N>>(),
                        machine_builders::<N>(),
                    ) && #[trigger] opt_section_added(
                        m,
                        db.machines@,
                        dump.mining_drills,
                        every::<RawMiningDrill<N>>(),
                        drill_builder::<N>(),
                    )
                &&& exists|m: Seq<(RecipeId, Recipe<N>)>|
                    opt_section_added(
                        Seq::<(RecipeId, Recipe<N>)>::empty(),
                        m,
                        dump.recipes,
                        every::<RawRecipe<N>>(),
                        recipe_builder::<N>(),
                    ) && #[trigger] opt_section_added(m, db.recipes@, dump.resources, minable::<N>(), mining_builder::<N>())
            },
            Err(e) => dump_error_ok(*dump, e),
        },
        dump_sound(*dump) ==> r is Ok,
{
    let mut db: Database<N> = Database::new();
    proof {
        assert(db.items@ =~= Seq::<(ItemId, Item)>::empty());
        assert(db.fluids@ =~= Seq::<(FluidId, Fluid<N>)>::empty());
        assert(db.machines@ =~= Seq::<(MachineId, Machine<N>)>::empty());
        assert(db.recipes@ =~= Seq::<(RecipeId, Recipe<N>)>::empty());
    }
    if let Err(e) = extract_items(&mut db, dump) {
        return Err(e);
    }
    if let Some(entries) = &dump.fluids {
        if let Err(e) = extract_fluids(&mut db, entries) {
            return Err(e);
        }
    }
    if let Err(e) = extract_machines(&mut db, dump) {
        return Err(e);
    }
    let ghost machines_mid = db.machines@;
    if let Some(entries) = &dump.mining_drills {
        if let Err(e) = extract_mining_drills(&mut db, entries) {
            return Err(e);
        }
    }
    if let Some(entries) = &dump.recipes {
        if let Err(e) = extract_recipes(&mut db, entries) {
            return Err(e);
        }
    }
    let ghost recipes_mid = db.recipes@;
    if let Some(entries) = &dump.resources {
        if let Err(e) = extract_resources(&mut db, entries) {
            return Err(e);
        }
    }
    proof {
        assert(sections_added(
            Seq::<(MachineId, Machine<N>)>::empty(),
            machines_mid,
            dump.machines@,
            3,
            every::<RawMachine<N>>(),
            machine_builders::<N>(),
        ) && opt_section_added(machines_mid, db.machines@, dump.mining_drills, every::<RawMiningDrill<N>>(), drill_builder::<N>()));
        assert(opt_section_added(
            Seq::<(RecipeId, Recipe<N>)>::empty(),
            recipes_mid,
            dump.recipes,
            every::<RawRecipe<N>>(),
            recipe_builder::<N>(),
        ) && opt_section_added(recipes_mid, db.recipes@, dump.resources, minable::<N>(), mining_builder::<N>()));
    }
    Ok(db)
}

} // verus!
