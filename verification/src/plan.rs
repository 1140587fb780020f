//! Planning: from the rates wanted of some resources to a production line.
//!
//! Demand for a resource is met, in this order, from the surplus that
//! earlier recipe runs left over, from the outside when the resource is raw
//! (configured so, or produced by no recipe), and otherwise by running the
//! one recipe that produces it, whose ingredients are then demanded in turn.

use vstd::prelude::*;

use crate::assoc::{
    has_key, key_index, key_views, keys_where, lemma_has_key_views, lemma_key_index, lemma_keys_subset_len,
    lemma_keys_where_member, lemma_keys_where_step, lemma_stored_key_views, stored, updated, value_of, AssocMap,
};
use crate::config::{PlanConfig, PlanRequest};
use crate::database::{producing, supporting, Database};
use crate::error::Error;
use crate::ids::{CraftingCategory, MachineId, RecipeId};
use crate::key::KeyEq;
use crate::line::{endpoint_below, EdgeEndpoint, NodeId, ProductionEdge, ProductionLine, ProductionNode};
use crate::machine::has_category;
use crate::quantity::Quantity;
use crate::machine::crafts_spec;
use crate::recipe::{named, product_yield, produces_name, takes_resource, yield_sum, Product, Recipe};
use crate::resource::ResourceId;

verus! {

/// The view of a resource: whether it is a fluid, and its name.
pub type ResourceKey = (bool, Seq<char>);

/// A flow is identified by where it comes from, where it goes, and what it
/// carries.
#[derive(Debug)]
pub struct FlowKey {
    pub from: EdgeEndpoint,
    pub to: EdgeEndpoint,
    pub resource: ResourceId,
}

impl View for FlowKey {
    type V = (EdgeEndpoint, EdgeEndpoint, ResourceKey);

    open spec fn view(&self) -> (EdgeEndpoint, EdgeEndpoint, ResourceKey) {
        (self.from, self.to, self.resource@)
    }
}

impl KeyEq for FlowKey {
    fn key_eq(&self, other: &Self) -> (r: bool) {
        self.from == other.from && self.to == other.to && self.resource.key_eq(&other.resource)
    }
}

/// No machine of the database after `machine`, in the order of the
/// database, that supports `category` is as fast as `machine`: the speed
/// of `machine` is greater than the speed of each of them.
pub open spec fn none_as_fast_after<N: Quantity>(db: &Database<N>, category: Seq<char>, machine: Seq<char>) -> bool {
    forall|j: int|
        key_index(db.machines@, machine) < j < db.machines@.len() && has_category(
            (#[trigger] db.machines@[j]).1.crafting_categories@,
            category,
        ) ==> db.machine_at(machine).crafting_speed.spec_greater_than(db.machines@[j].1.crafting_speed)
}

/// The machine at position `i` of the database supports `category`.
pub open spec fn supports_at<N: Quantity>(db: &Database<N>, category: Seq<char>, i: int) -> bool {
    0 <= i < db.machines@.len() && has_category(db.machines@[i].1.crafting_categories@, category)
}

/// The speed of the machine at position `i` of the database.
pub open spec fn speed_at<N: Quantity>(db: &Database<N>, i: int) -> N {
    db.machines@[i].1.crafting_speed
}

/// The speeds of the machines that support `category` compare as numbers
/// do: `spec_greater_than` is asymmetric on them, and where neither of two
/// speeds is greater than the next, the first is not greater than the last.
/// (Floating-point speeds do, unless one is not a number.)
pub open spec fn speeds_ordered<N: Quantity>(db: &Database<N>, category: Seq<char>) -> bool {
    &&& forall|i: int, j: int|
        #![trigger speed_at(db, i), speed_at(db, j)]
        supports_at(db, category, i) && supports_at(db, category, j) && speed_at(db, i).spec_greater_than(speed_at(db, j))
            ==> !speed_at(db, j).spec_greater_than(speed_at(db, i))
    &&& forall|i: int, j: int, l: int|
        #![trigger speed_at(db, i), speed_at(db, j), speed_at(db, l)]
        supports_at(db, category, i) && supports_at(db, category, j) && supports_at(db, category, l) && !speed_at(
            db,
            i,
        ).spec_greater_than(speed_at(db, j)) && !speed_at(db, j).spec_greater_than(speed_at(db, l)) ==> !speed_at(
            db,
            i,
        ).spec_greater_than(speed_at(db, l))
}

/// No machine of the database that supports `category` is faster than
/// `machine`.
pub open spec fn none_faster<N: Quantity>(db: &Database<N>, category: Seq<char>, machine: Seq<char>) -> bool {
    forall|j: int|
        supports_at(db, category, j) ==> !(#[trigger] speed_at(db, j)).spec_greater_than(db.machine_at(machine).crafting_speed)
}

/// The machine chosen for `category` is a machine of the database that
/// supports the category: the configured one, or else, where none is
/// configured, one that no later machine supporting the category is as fast
/// as, and, where the speeds compare as numbers do, one that no machine
/// supporting the category is faster than.
pub open spec fn machine_choice_ok<N: Quantity>(
    db: &Database<N>,
    config: &PlanConfig,
    category: Seq<char>,
    machine: Seq<char>,
) -> bool {
    &&& db.has_machine(machine)
    &&& has_category(db.machine_at(machine).crafting_categories@, category)
    &&& if has_key(config.machine_for_category@, category) {
        machine == value_of(config.machine_for_category@, category)@
    } else {
        &&& none_as_fast_after(db, category, machine)
        &&& speeds_ordered(db, category) ==> none_faster(db, category, machine)
    }
}

/// The machines that `node` needs: its runs per second over the runs per
/// second of one of its machines at its recipe, or zero where one machine
/// completes no runs.
pub open spec fn machines_for<N: Quantity>(db: &Database<N>, node: ProductionNode<N>) -> N {
    let per_machine = crafts_spec(db.machine_at(node.machine@).crafting_speed, db.recipe_at(node.recipe@).crafting_time);
    if per_machine.spec_greater_than(N::spec_zero()) {
        node.runs_per_second.spec_over(per_machine)
    } else {
        N::spec_zero()
    }
}

/// The node's count of machines is the one `machines_for` gives, or the
/// node has not run yet and both its runs and its machines are zero.
pub open spec fn machines_counted<N: Quantity>(db: &Database<N>, node: ProductionNode<N>) -> bool {
    ||| node.machines_needed == machines_for(db, node)
    ||| node.runs_per_second == N::spec_zero() && node.machines_needed == N::spec_zero()
}

/// The resource of the product at position `j` of `products` is the
/// resource of no other product there.
pub open spec fn listed_once<N>(products: Seq<Product<N>>, j: int) -> bool {
    forall|i: int| 0 <= i < products.len() && i != j ==> (#[trigger] products[i]).resource@ != products[j].resource@
}

/// Banking `runs` runs of the products `products`, but `primary`, turned
/// the surplus `old` into `new`: each product listed once, other than
/// `primary`, whose average yield times the runs is positive, has that
/// amount added to what the surplus held of it (or to zero), the others of
/// them are left as they were, and so is every resource that no product
/// but `primary` is.
pub open spec fn coproducts_banked<N: Quantity>(
    old: Seq<(ResourceId, N)>,
    new: Seq<(ResourceId, N)>,
    products: Seq<Product<N>>,
    primary: ResourceKey,
    runs: N,
) -> bool {
    &&& forall|j: int|
        0 <= j < products.len() && (#[trigger] products[j]).resource@ != primary && listed_once(products, j) ==> {
            let k = products[j].resource@;
            let produced = product_yield(products[j]).spec_times(runs);
            if produced.spec_greater_than(N::spec_zero()) {
                has_key(new, k) && value_of(new, k) == amount_or_zero(old, k).spec_plus(produced)
            } else {
                has_key(new, k) == has_key(old, k) && amount_or_zero(new, k) == amount_or_zero(old, k)
            }
        }
    &&& forall|k: ResourceKey|
        (forall|j: int| 0 <= j < products.len() ==> (#[trigger] products[j]).resource@ != k || products[j].resource@
            == primary) ==> #[trigger] has_key(new, k) == has_key(old, k) && amount_or_zero(new, k) == amount_or_zero(old, k)
}

/// No recipe of the database produces anything of the name of another
/// recipe's first product.
pub open spec fn first_products_unshared<N: Quantity>(db: &Database<N>) -> bool {
    forall|r: Seq<char>, s: Seq<char>|
        #[trigger] db.has_recipe(r) && #[trigger] db.has_recipe(s) && r != s && db.recipe_at(r).products@.len() > 0
            ==> !produces_name(db.recipe_at(s).products@, db.recipe_at(r).products@[0].resource@.1)
}

/// No two nodes of `nodes` run the same recipe.
pub open spec fn recipes_distinct<N>(nodes: Seq<ProductionNode<N>>) -> bool {
    forall|i: int, j: int|
        0 <= i < nodes.len() && 0 <= j < nodes.len() && i != j ==> (#[trigger] nodes[i]).recipe@ != (#[trigger] nodes[j]).recipe@
}

/// The amount stored under `k`, or zero where there is none.
pub open spec fn amount_or_zero<K: View, N: Quantity>(s: Seq<(K, N)>, k: K::V) -> N {
    if has_key(s, k) {
        value_of(s, k)
    } else {
        N::spec_zero()
    }
}

/// Every amount of `old` is kept in `new`, but perhaps the one under `k`.
pub open spec fn amounts_kept_but<K: View, N>(old: Seq<(K, N)>, new: Seq<(K, N)>, k: K::V) -> bool {
    forall|j: K::V| j != k && #[trigger] has_key(old, j) ==> has_key(new, j) && value_of(new, j) == value_of(old, j)
}

/// The resource is raw: configured so, or produced by no recipe of the
/// database.
pub open spec fn raw_resource<N: Quantity>(db: &Database<N>, config: &PlanConfig, resource: ResourceKey) -> bool {
    has_key(config.raw@, resource) || keys_where(db.recipes@, producing::<N>(resource.1)).len() == 0
}

/// The recipe `recipe` is the one chosen to make `resource`: the resource
/// is not raw, the recipe is the one configured for it or else the only
/// recipe of the database that produces it, and it does produce it.
pub open spec fn recipe_chosen<N: Quantity>(
    db: &Database<N>,
    config: &PlanConfig,
    resource: ResourceKey,
    recipe: Seq<char>,
) -> bool {
    &&& !raw_resource(db, config, resource)
    &&& if has_key(config.recipe_for@, resource) {
        value_of(config.recipe_for@, resource)@ == recipe
    } else {
        keys_where(db.recipes@, producing::<N>(resource.1)) == seq![recipe]
    }
    &&& db.has_recipe(recipe)
    &&& produces_name(db.recipe_at(recipe).products@, resource.1)
}

/// The recipe `b` is the one chosen to make some ingredient of the recipe
/// `a`.
pub open spec fn feeds<N: Quantity>(db: &Database<N>, config: &PlanConfig, a: Seq<char>, b: Seq<char>) -> bool {
    exists|k: ResourceKey| takes_resource(db.recipe_at(a).ingredients@, k) && #[trigger] recipe_chosen(db, config, k, b)
}

/// The recipe at position `t + 1` of `chain` feeds the one at `t`.
pub open spec fn chain_link<N: Quantity>(db: &Database<N>, config: &PlanConfig, chain: Seq<Seq<char>>, t: int) -> bool {
    feeds(db, config, chain[t], chain[t + 1])
}

/// Each recipe of `chain` is the one chosen to make an ingredient of the
/// recipe before it.
pub open spec fn recipe_chain<N: Quantity>(db: &Database<N>, config: &PlanConfig, chain: Seq<Seq<char>>) -> bool {
    forall|t: int| 0 <= t < chain.len() - 1 ==> #[trigger] chain_link(db, config, chain, t)
}

/// The recipe `rid` needs, through a chain of chosen recipes, an
/// ingredient that it makes itself.
pub open spec fn needs_itself<N: Quantity>(db: &Database<N>, config: &PlanConfig, rid: Seq<char>) -> bool {
    exists|chain: Seq<Seq<char>>|
        chain.len() >= 2 && chain[0] == rid && chain.last() == rid && #[trigger] recipe_chain(db, config, chain)
}

/// Some recipe chosen for `a` takes `b` as an ingredient.
pub open spec fn feeds_resource<N: Quantity>(db: &Database<N>, config: &PlanConfig, a: ResourceKey, b: ResourceKey) -> bool {
    exists|rid: Seq<char>| #[trigger] recipe_chosen(db, config, a, rid) && takes_resource(db.recipe_at(rid).ingredients@, b)
}

/// `path` starts at one of `roots`, and each recipe chosen for a resource
/// of it takes the next as an ingredient.
pub open spec fn reach_path<N: Quantity>(
    db: &Database<N>,
    config: &PlanConfig,
    roots: Seq<ResourceKey>,
    path: Seq<ResourceKey>,
) -> bool {
    &&& path.len() > 0
    &&& roots.contains(path[0])
    &&& forall|t: int| 0 <= t < path.len() - 1 ==> #[trigger] feeds_resource(db, config, path[t], path[t + 1])
}

/// Planning for `roots` reaches `k`: a path of chosen recipes' ingredients
/// leads to it from one of them.
pub open spec fn reached<N: Quantity>(db: &Database<N>, config: &PlanConfig, roots: Seq<ResourceKey>, k: ResourceKey) -> bool {
    exists|path: Seq<ResourceKey>| #[trigger] reach_path(db, config, roots, path) && path.last() == k
}

/// The resources that `request` wants.
pub open spec fn target_keys<N: Quantity>(request: &PlanRequest<N>) -> Seq<ResourceKey> {
    request.targets@.map_values(|t: (ResourceId, N)| t.0@)
}

/// Each error names a resource that planning for `roots` reaches, or a
/// recipe, a category or a machine that is chosen for such a resource.
pub open spec fn error_reached<N: Quantity>(db: &Database<N>, config: &PlanConfig, roots: Seq<ResourceKey>, e: Error) -> bool {
    match e {
        Error::AmbiguousRecipe { resource, .. } => reached(db, config, roots, resource@),
        Error::RecipeDoesNotProduce(_, res) => reached(db, config, roots, res@),
        Error::UnknownRecipe(rid) => exists|res: ResourceKey|
            #[trigger] reached(db, config, roots, res) && !raw_resource(db, config, res) && has_key(config.recipe_for@, res)
                && value_of(config.recipe_for@, res)@ == rid@,
        Error::NoMachineForCategory(c) => exists|res: ResourceKey, rid: Seq<char>|
            #[trigger] reached(db, config, roots, res) && #[trigger] recipe_chosen(db, config, res, rid)
                && db.recipe_at(rid).category@ == c@,
        Error::UnknownMachine(m) => exists|res: ResourceKey, rid: Seq<char>|
            #[trigger] reached(db, config, roots, res) && #[trigger] recipe_chosen(db, config, res, rid) && has_key(
                config.machine_for_category@,
                db.recipe_at(rid).category@,
            ) && value_of(config.machine_for_category@, db.recipe_at(rid).category@)@ == m@,
        Error::MachineCategoryMismatch { recipe, .. } => exists|res: ResourceKey|
            #[trigger] reached(db, config, roots, res) && recipe_chosen(db, config, res, recipe@),
        Error::NoYield(_, res) => reached(db, config, roots, res@),
        Error::Cycle(rid) => exists|res: ResourceKey|
            #[trigger] reached(db, config, roots, res) && recipe_chosen(db, config, res, rid@),
        _ => false,
    }
}

/// Recipes of `category` can run: on the configured machine, which is in
/// the database and supports it, or else on some machine of the database
/// that supports it.
pub open spec fn machine_available<N: Quantity>(db: &Database<N>, config: &PlanConfig, category: Seq<char>) -> bool {
    if has_key(config.machine_for_category@, category) {
        let m = value_of(config.machine_for_category@, category)@;
        db.has_machine(m) && has_category(db.machine_at(m).crafting_categories@, category)
    } else {
        keys_where(db.machines@, supporting::<N>(category)).len() > 0
    }
}

/// Every resource that planning for `roots` reaches and that is not raw has
/// a chosen recipe that some machine can run, that yields more than zero of
/// it, and that does not need itself.
pub open spec fn plannable<N: Quantity>(db: &Database<N>, config: &PlanConfig, roots: Seq<ResourceKey>) -> bool {
    forall|k: ResourceKey|
        #[trigger] reached(db, config, roots, k) && !raw_resource(db, config, k) ==> exists|rid: Seq<char>|
            #[trigger] recipe_chosen(db, config, k, rid) && machine_available(db, config, db.recipe_at(rid).category@)
                && !yield_sum(db.recipe_at(rid).products@, named::<N>(k.1)).spec_at_most(N::spec_zero()) && !needs_itself(
                db,
                config,
                rid,
            )
}

/// At most one recipe is chosen for a resource.
pub proof fn law_one_recipe_chosen<N: Quantity>(
    db: &Database<N>,
    config: &PlanConfig,
    k: ResourceKey,
    a: Seq<char>,
    b: Seq<char>,
)
    requires
        recipe_chosen(db, config, k, a),
        recipe_chosen(db, config, k, b),
    ensures
        a == b,
{
    if !has_key(config.recipe_for@, k) {
        assert(seq![a][0] == a);
        assert(seq![b][0] == b);
    }
}

/// Where everything that planning for `roots` reaches can be planned, no
/// error is both explained by `error_ok` and names what planning reaches.
pub proof fn law_plannable_has_no_error<N: Quantity>(
    db: &Database<N>,
    config: &PlanConfig,
    roots: Seq<ResourceKey>,
    e: Error,
)
    requires
        plannable(db, config, roots),
    ensures
        !(error_ok(db, config, e) && error_reached(db, config, roots, e)),
{
    if error_ok(db, config, e) && error_reached(db, config, roots, e) {
        match e {
            Error::AmbiguousRecipe { resource, candidates } => {
                let k = resource@;
                assert(reached(db, config, roots, k));
                let rid = choose|rid: Seq<char>|
                    #[trigger] recipe_chosen(db, config, k, rid) && machine_available(db, config, db.recipe_at(rid).category@)
                        && !yield_sum(db.recipe_at(rid).products@, named::<N>(k.1)).spec_at_most(N::spec_zero())
                        && !needs_itself(db, config, rid);
                assert(keys_where(db.recipes@, producing::<N>(k.1)) == seq![rid]);
            },
            Error::RecipeDoesNotProduce(rid, res) => {
                assert(reached(db, config, roots, res@));
            },
            Error::UnknownRecipe(rid) => {
                let res = choose|res: ResourceKey|
                    #[trigger] reached(db, config, roots, res) && !raw_resource(db, config, res) && has_key(config.recipe_for@, res)
                        && value_of(config.recipe_for@, res)@ == rid@;
                assert(reached(db, config, roots, res));
            },
            Error::NoMachineForCategory(c) => {
                let (res, rid) = choose|res: ResourceKey, rid: Seq<char>|
                    #[trigger] reached(db, config, roots, res) && #[trigger] recipe_chosen(db, config, res, rid)
                        && db.recipe_at(rid).category@ == c@;
                let r2 = choose|r2: Seq<char>|
                    #[trigger] recipe_chosen(db, config, res, r2) && machine_available(db, config, db.recipe_at(r2).category@)
                        && !yield_sum(db.recipe_at(r2).products@, named::<N>(res.1)).spec_at_most(N::spec_zero())
                        && !needs_itself(db, config, r2);
                law_one_recipe_chosen(db, config, res, rid, r2);
            },
            Error::UnknownMachine(m) => {
                let (res, rid) = choose|res: ResourceKey, rid: Seq<char>|
                    #[trigger] reached(db, config, roots, res) && #[trigger] recipe_chosen(db, config, res, rid) && has_key(
                        config.machine_for_category@,
                        db.recipe_at(rid).category@,
                    ) && value_of(config.machine_for_category@, db.recipe_at(rid).category@)@ == m@;
                let r2 = choose|r2: Seq<char>|
                    #[trigger] recipe_chosen(db, config, res, r2) && machine_available(db, config, db.recipe_at(r2).category@)
                        && !yield_sum(db.recipe_at(r2).products@, named::<N>(res.1)).spec_at_most(N::spec_zero())
                        && !needs_itself(db, config, r2);
                law_one_recipe_chosen(db, config, res, rid, r2);
            },
            Error::MachineCategoryMismatch { machine, recipe, category } => {
                let res = choose|res: ResourceKey| #[trigger] reached(db, config, roots, res) && recipe_chosen(db, config, res, recipe@);
                let r2 = choose|r2: Seq<char>|
                    #[trigger] recipe_chosen(db, config, res, r2) && machine_available(db, config, db.recipe_at(r2).category@)
                        && !yield_sum(db.recipe_at(r2).products@, named::<N>(res.1)).spec_at_most(N::spec_zero())
                        && !needs_itself(db, config, r2);
                law_one_recipe_chosen(db, config, res, recipe@, r2);
            },
            Error::NoYield(rid, res) => {
                assert(reached(db, config, roots, res@));
                let r2 = choose|r2: Seq<char>|
                    #[trigger] recipe_chosen(db, config, res@, r2) && machine_available(db, config, db.recipe_at(r2).category@)
                        && !yield_sum(db.recipe_at(r2).products@, named::<N>(res@.1)).spec_at_most(N::spec_zero())
                        && !needs_itself(db, config, r2);
                law_one_recipe_chosen(db, config, res@, rid@, r2);
            },
            Error::Cycle(rid) => {
                let res = choose|res: ResourceKey| #[trigger] reached(db, config, roots, res) && recipe_chosen(db, config, res, rid@);
                let r2 = choose|r2: Seq<char>|
                    #[trigger] recipe_chosen(db, config, res, r2) && machine_available(db, config, db.recipe_at(r2).category@)
                        && !yield_sum(db.recipe_at(r2).products@, named::<N>(res.1)).spec_at_most(N::spec_zero())
                        && !needs_itself(db, config, r2);
                law_one_recipe_chosen(db, config, res, rid@, r2);
            },
            _ => {},
        }
    }
}

/// `e` is an error of the machine for the recipe `rid` of `category`.
pub open spec fn machine_error_of(e: Error, config: &PlanConfig, rid: Seq<char>, category: Seq<char>) -> bool {
    match e {
        Error::NoMachineForCategory(c) => c@ == category,
        Error::UnknownMachine(m) => has_key(config.machine_for_category@, category) && value_of(
            config.machine_for_category@,
            category,
        )@ == m@,
        Error::MachineCategoryMismatch { recipe, category: c, .. } => recipe@ == rid && c@ == category,
        _ => false,
    }
}

/// What each error that planning returns says of the database and the
/// configuration.
pub open spec fn error_ok<N: Quantity>(db: &Database<N>, config: &PlanConfig, e: Error) -> bool {
    match e {
        Error::AmbiguousRecipe { resource, candidates } => {
            &&& !has_key(config.raw@, resource@)
            &&& !has_key(config.recipe_for@, resource@)
            &&& candidates@.map_values(|id: RecipeId| id@) == keys_where(db.recipes@, producing::<N>(resource@.1))
            &&& candidates@.len() >= 2
        },
        Error::RecipeDoesNotProduce(rid, res) => {
            &&& !raw_resource(db, config, res@)
            &&& has_key(config.recipe_for@, res@)
            &&& value_of(config.recipe_for@, res@)@ == rid@
            &&& db.has_recipe(rid@)
            &&& !produces_name(db.recipe_at(rid@).products@, res@.1)
        },
        Error::UnknownRecipe(rid) => {
            &&& !db.has_recipe(rid@)
            &&& exists|res: ResourceKey|
                #[trigger] has_key(config.recipe_for@, res) && value_of(config.recipe_for@, res)@ == rid@
                    && !raw_resource(db, config, res)
        },
        Error::NoMachineForCategory(c) => {
            &&& exists|res: ResourceKey, rid: Seq<char>|
                #[trigger] recipe_chosen(db, config, res, rid) && db.recipe_at(rid).category@ == c@
            &&& !has_key(config.machine_for_category@, c@)
            &&& keys_where(db.machines@, supporting::<N>(c@)).len() == 0
        },
        Error::UnknownMachine(m) => {
            exists|res: ResourceKey, rid: Seq<char>|
                #[trigger] recipe_chosen(db, config, res, rid) && has_key(
                    config.machine_for_category@,
                    db.recipe_at(rid).category@,
                ) && value_of(config.machine_for_category@, db.recipe_at(rid).category@)@ == m@ && !db.has_machine(m@)
        },
        Error::MachineCategoryMismatch { machine, recipe, category } => {
            &&& exists|res: ResourceKey| #[trigger] recipe_chosen(db, config, res, recipe@)
            &&& db.recipe_at(recipe@).category@ == category@
            &&& has_key(config.machine_for_category@, category@)
            &&& value_of(config.machine_for_category@, category@)@ == machine@
            &&& db.has_machine(machine@)
            &&& !has_category(db.machine_at(machine@).crafting_categories@, category@)
        },
        Error::NoYield(rid, res) => {
            &&& recipe_chosen(db, config, res@, rid@)
            &&& yield_sum(db.recipe_at(rid@).products@, named::<N>(res@.1)).spec_at_most(N::spec_zero())
        },
        Error::Cycle(rid) => needs_itself(db, config, rid@),
        _ => false,
    }
}

/// A flow of `k` may leave `e`: it is the outside, or a node whose recipe
/// produces something of the name of `k`.
pub open spec fn endpoint_makes<N: Quantity>(
    db: &Database<N>,
    nodes: Seq<ProductionNode<N>>,
    e: EdgeEndpoint,
    k: ResourceKey,
) -> bool {
    match e {
        EdgeEndpoint::External => true,
        EdgeEndpoint::Node(id) => produces_name(db.recipe_at(nodes[id@ as int].recipe@).products@, k.1),
    }
}

/// A flow of `k` may enter `e`: it is the outside, or a node whose recipe
/// has `k` among its ingredients.
pub open spec fn endpoint_takes<N: Quantity>(
    db: &Database<N>,
    nodes: Seq<ProductionNode<N>>,
    e: EdgeEndpoint,
    k: ResourceKey,
) -> bool {
    match e {
        EdgeEndpoint::External => true,
        EdgeEndpoint::Node(id) => takes_resource(db.recipe_at(nodes[id@ as int].recipe@).ingredients@, k),
    }
}

/// The nodes of `a` are still in `b`, at the same places, with the same ids
/// and recipes.
pub open spec fn nodes_kept<N>(a: Seq<ProductionNode<N>>, b: Seq<ProductionNode<N>>) -> bool {
    &&& a.len() <= b.len()
    &&& forall|i: int| 0 <= i < a.len() ==> (#[trigger] b[i]).recipe@ == a[i].recipe@ && b[i].id == a[i].id
}

/// The endpoint is the outside, or a node of `nodes` whose recipe is on the
/// path `visiting`.
pub open spec fn into_path<N>(e: EdgeEndpoint, nodes: Seq<ProductionNode<N>>, visiting: Seq<(RecipeId, ())>) -> bool {
    match e {
        EdgeEndpoint::External => true,
        EdgeEndpoint::Node(x) => x@ < nodes.len() && has_key(visiting, nodes[x@ as int].recipe@),
    }
}

/// Every node of `a` whose recipe is on the path `visiting` is unchanged in
/// `b`.
pub open spec fn path_nodes_kept<N>(a: Seq<ProductionNode<N>>, b: Seq<ProductionNode<N>>, visiting: Seq<(RecipeId, ())>) -> bool {
    forall|i: int| 0 <= i < a.len() && has_key(visiting, (#[trigger] a[i]).recipe@) ==> b[i] == a[i]
}

/// The endpoint is the node at position `i`.
pub open spec fn leaves_node(e: EdgeEndpoint, i: int) -> bool {
    e matches EdgeEndpoint::Node(x) && x@ == i
}

/// Some edge of `edges` leaves the node at position `i`.
pub open spec fn has_exit<N>(edges: Seq<ProductionEdge<N>>, i: int) -> bool {
    exists|j: int| 0 <= j < edges.len() && leaves_node((#[trigger] edges[j]).from, i)
}

/// No two edges of `edges` join the same endpoints with the same resource.
pub open spec fn edges_distinct<N>(edges: Seq<ProductionEdge<N>>) -> bool {
    forall|i: int, j: int|
        0 <= i < edges.len() && 0 <= j < edges.len() && i != j ==> ((#[trigger] edges[i]).from, edges[i].to, edges[i].resource@)
            != ((#[trigger] edges[j]).from, edges[j].to, edges[j].resource@)
}

/// What a plan made from `db` and `config` is: a well-formed line whose
/// edges are merged per endpoints and resource, whose outputs come in the
/// order of their first edges to the outside, each the sum of the rates of
/// its edges to the outside, whose raw inputs are raw
/// resources, whose every edge carries a product of the node it leaves and
/// an ingredient of the node it enters, whose every node has an edge that
/// leaves it, and whose every node runs the
/// recipe chosen for some resource on a machine of the database, the one
/// configured for the recipe's category or else one that supports it.
pub open spec fn plan_ok<N: Quantity>(line: &ProductionLine<N>, db: &Database<N>, config: &PlanConfig) -> bool {
    &&& line.wf()
    &&& edges_distinct(line.edges@)
    &&& key_views(line.outputs@) == external_resources(line.edges@)
    &&& forall|k: ResourceKey| #[trigger] has_key(line.outputs@, k) ==> value_of(line.outputs@, k) == external_total(line.edges@, k)
    &&& forall|k: ResourceKey| #[trigger] has_key(line.raw_inputs@, k) ==> raw_resource(db, config, k)
    &&& forall|i: int|
        0 <= i < line.edges@.len() ==> endpoint_makes(db, line.nodes@, (#[trigger] line.edges@[i]).from, line.edges@[i].resource@)
            && endpoint_takes(db, line.nodes@, line.edges@[i].to, line.edges@[i].resource@)
    &&& forall|i: int| 0 <= i < line.nodes@.len() ==> #[trigger] has_exit(line.edges@, i)
    &&& forall|i: int|
        0 <= i < line.nodes@.len() ==> {
            let node = #[trigger] line.nodes@[i];
            &&& db.has_recipe(node.recipe@)
            &&& db.has_machine(node.machine@)
            &&& machine_choice_ok(db, config, db.recipe_at(node.recipe@).category@, node.machine@)
            &&& exists|r: ResourceKey| #[trigger] recipe_chosen(db, config, r, node.recipe@)
            &&& machines_counted(db, node)
        }
}

/// An amount taken from the outside: the consumer, the resource, and the
/// amount.
pub type Taking<N> = (EdgeEndpoint, ResourceKey, N);

/// The sum, in order from the first, of the amounts of `log` whose consumer
/// and resource `keep` accepts, starting from zero.
pub open spec fn log_sum<N: Quantity>(log: Seq<Taking<N>>, keep: spec_fn(EdgeEndpoint, ResourceKey) -> bool) -> N
    decreases log.len(),
{
    if log.len() == 0 {
        N::spec_zero()
    } else {
        let rest = log_sum(log.drop_last(), keep);
        if keep(log.last().0, log.last().1) {
            rest.spec_plus(log.last().2)
        } else {
            rest
        }
    }
}

/// The takings of the resource `k`.
pub open spec fn of_resource(k: ResourceKey) -> spec_fn(EdgeEndpoint, ResourceKey) -> bool {
    |c: EdgeEndpoint, r: ResourceKey| r == k
}

/// The takings of the resource `k` by `consumer`.
pub open spec fn of_flow(consumer: EdgeEndpoint, k: ResourceKey) -> spec_fn(EdgeEndpoint, ResourceKey) -> bool {
    |c: EdgeEndpoint, r: ResourceKey| c == consumer && r == k
}

/// Taking one more amount adds it to the sums that select it.
proof fn lemma_log_sum_push<N: Quantity>(log: Seq<Taking<N>>, e: Taking<N>, keep: spec_fn(EdgeEndpoint, ResourceKey) -> bool)
    ensures
        log_sum(log.push(e), keep) == if keep(e.0, e.1) {
            log_sum(log, keep).spec_plus(e.2)
        } else {
            log_sum(log, keep)
        },
{
    assert(log.push(e).drop_last() =~= log);
}

/// A sum that selects no taking is zero.
proof fn lemma_log_sum_none<N: Quantity>(log: Seq<Taking<N>>, keep: spec_fn(EdgeEndpoint, ResourceKey) -> bool)
    requires
        forall|i: int| 0 <= i < log.len() ==> !keep((#[trigger] log[i]).0, log[i].1),
    ensures
        log_sum(log, keep) == N::spec_zero(),
    decreases log.len(),
{
    if log.len() > 0 {
        let d = log.drop_last();
        assert forall|i: int| 0 <= i < d.len() implies !keep((#[trigger] d[i]).0, d[i].1) by {
            assert(d[i] == log[i]);
        }
        lemma_log_sum_none(d, keep);
        assert(!keep(log[log.len() - 1].0, log[log.len() - 1].1));
    }
}

/// The raw inputs and the edges from the outside are sums of the same
/// takings: each raw input sums the takings of its resource, and each edge
/// from the outside sums the takings of its resource by the node it enters,
/// each in the order they were taken.
pub open spec fn raw_inputs_from_takings<N: Quantity>(line: &ProductionLine<N>, log: Seq<Taking<N>>) -> bool {
    &&& forall|k: ResourceKey|
        #[trigger] has_key(line.raw_inputs@, k) ==> value_of(line.raw_inputs@, k) == log_sum(log, of_resource(k))
    &&& forall|e: int|
        0 <= e < line.edges@.len() && (#[trigger] line.edges@[e]).from == EdgeEndpoint::External ==> line.edges@[e].rate
            == log_sum(log, of_flow(line.edges@[e].to, line.edges@[e].resource@))
}

/// The working state of a plan under construction.
struct Planner<'a, N> {
    db: &'a Database<N>,
    config: &'a PlanConfig,
    nodes: Vec<ProductionNode<N>>,
    flows: AssocMap<FlowKey, N>,
    producer_for: AssocMap<ResourceId, NodeId>,
    surplus: AssocMap<ResourceId, N>,
    raw_inputs: AssocMap<ResourceId, N>,
    visiting: AssocMap<RecipeId, ()>,
    raw_log: Ghost<Seq<(EdgeEndpoint, ResourceKey, N)>>,
}

impl<'a, N: Quantity> Planner<'a, N> {
    /// Every product of the recipe `rid` has a producing node.
    spec fn products_registered(&self, rid: Seq<char>) -> bool {
        forall|j: int|
            0 <= j < self.db.recipe_at(rid).products@.len() ==> has_key(
                self.producer_for@,
                (#[trigger] self.db.recipe_at(rid).products@[j]).resource@,
            )
    }

    /// The node is a valid node of the plan.
    spec fn node_ok(&self, i: int) -> bool {
        let node = self.nodes@[i];
        &&& node.id@ == i
        &&& self.db.has_recipe(node.recipe@)
        &&& self.db.has_machine(node.machine@)
        &&& self.products_registered(node.recipe@)
        &&& machine_choice_ok(self.db, self.config, self.db.recipe_at(node.recipe@).category@, node.machine@)
        &&& exists|r: ResourceKey| #[trigger] recipe_chosen(self.db, self.config, r, node.recipe@)
        &&& machines_counted(self.db, node)
    }

    /// No two nodes run the same recipe, and the node of each recipe is the
    /// one registered as the producer of the recipe's first product.
    spec fn node_registry(&self) -> bool {
        &&& recipes_distinct(self.nodes@)
        &&& forall|i: int|
            0 <= i < self.nodes@.len() ==> {
                let first = self.db.recipe_at((#[trigger] self.nodes@[i]).recipe@).products@[0].resource@;
                &&& self.db.recipe_at(self.nodes@[i].recipe@).products@.len() > 0
                &&& has_key(self.producer_for@, first)
                &&& value_of(self.producer_for@, first)@ == i
            }
    }

    /// The invariant of the planner's state, but for the laws of its raw
    /// inputs and of its flows.
    spec fn inv_core(&self) -> bool {
        &&& self.db.wf()
        &&& self.config.wf()
        &&& self.flows.wf()
        &&& self.producer_for.wf()
        &&& self.surplus.wf()
        &&& self.raw_inputs.wf()
        &&& self.visiting.wf()
        &&& forall|i: int| 0 <= i < self.nodes@.len() ==> #[trigger] self.node_ok(i)
        &&& forall|k: ResourceKey|
            #[trigger] has_key(self.producer_for@, k) ==> value_of(self.producer_for@, k)@ < self.nodes@.len()
        &&& forall|k: ResourceKey| #[trigger] has_key(self.surplus@, k) ==> has_key(self.producer_for@, k)
        &&& forall|f: (EdgeEndpoint, EdgeEndpoint, ResourceKey)|
            #[trigger] has_key(self.flows@, f) ==> endpoint_below(f.0, self.nodes@.len()) && endpoint_below(
                f.1,
                self.nodes@.len(),
            )
        &&& forall|k: Seq<char>| #[trigger] has_key(self.visiting@, k) ==> self.db.has_recipe(k)
        &&& recipe_chain(self.db, self.config, key_views(self.visiting@))
        &&& forall|k: ResourceKey| #[trigger] has_key(self.raw_inputs@, k) ==> raw_resource(self.db, self.config, k)
        &&& first_products_unshared(self.db) ==> self.node_registry()
    }

    /// A resource is a raw input exactly when some flow brings it in from
    /// the outside.
    spec fn raw_law(&self) -> bool {
        &&& forall|k: ResourceKey|
            #[trigger] has_key(self.raw_inputs@, k) <==> exists|to: EdgeEndpoint|
                #[trigger] has_key(self.flows@, (EdgeEndpoint::External, to, k))
        &&& self.raw_ledger()
    }

    /// The raw inputs and the flows from the outside are the sums of the
    /// takings logged, and every taking is of a raw input and of a flow.
    spec fn raw_ledger(&self) -> bool {
        let log = self.raw_log@;
        &&& forall|k: ResourceKey|
            #[trigger] has_key(self.raw_inputs@, k) ==> value_of(self.raw_inputs@, k) == log_sum(log, of_resource(k))
        &&& forall|c: EdgeEndpoint, k: ResourceKey|
            #[trigger] has_key(self.flows@, (EdgeEndpoint::External, c, k)) ==> value_of(
                self.flows@,
                (EdgeEndpoint::External, c, k),
            ) == log_sum(log, of_flow(c, k))
        &&& forall|i: int|
            0 <= i < log.len() ==> has_key(self.raw_inputs@, (#[trigger] log[i]).1) && has_key(
                self.flows@,
                (EdgeEndpoint::External, log[i].0, log[i].1),
            )
    }

    /// The flow `f` leaves an endpoint that makes its resource and enters
    /// one that takes it.
    spec fn flow_ok(&self, f: (EdgeEndpoint, EdgeEndpoint, ResourceKey)) -> bool {
        endpoint_makes(self.db, self.nodes@, f.0, f.2) && endpoint_takes(self.db, self.nodes@, f.1, f.2)
    }

    /// Every flow is between endpoints that make and take its resource, and
    /// the producer of each resource makes it.
    spec fn flow_law(&self) -> bool {
        &&& forall|f: (EdgeEndpoint, EdgeEndpoint, ResourceKey)| #[trigger] has_key(self.flows@, f) ==> self.flow_ok(f)
        &&& forall|k: ResourceKey|
            #[trigger] has_key(self.producer_for@, k) ==> endpoint_makes(
                self.db,
                self.nodes@,
                EdgeEndpoint::Node(value_of(self.producer_for@, k)),
                k,
            )
    }

    /// The invariant of the planner's state.
    spec fn inv(&self) -> bool {
        &&& self.inv_core()
        &&& self.raw_law()
        &&& self.flow_law()
    }

    /// The raw inputs law carries over to a state with the same raw inputs
    /// and flows.
    proof fn lemma_raw_law_frame(a: &Self, b: &Self)
        requires
            a.raw_law(),
            b.raw_inputs@ == a.raw_inputs@,
            b.flows@ == a.flows@,
            b.raw_log == a.raw_log,
        ensures
            b.raw_law(),
    {
        assert forall|k: ResourceKey|
            #[trigger] has_key(b.raw_inputs@, k) <==> exists|to: EdgeEndpoint|
                #[trigger] has_key(b.flows@, (EdgeEndpoint::External, to, k)) by {
            if has_key(b.raw_inputs@, k) {
                let to = choose|to: EdgeEndpoint| #[trigger] has_key(a.flows@, (EdgeEndpoint::External, to, k));
                assert(has_key(b.flows@, (EdgeEndpoint::External, to, k)));
            }
        }
    }

    /// Adding a flow that does not come from the outside keeps the raw inputs
    /// law.
    proof fn lemma_raw_law_inner_flow(a: &Self, b: &Self, f: (EdgeEndpoint, EdgeEndpoint, ResourceKey))
        requires
            a.raw_law(),
            b.raw_inputs@ == a.raw_inputs@,
            f.0 != EdgeEndpoint::External,
            forall|g: (EdgeEndpoint, EdgeEndpoint, ResourceKey)| g != f ==> has_key(b.flows@, g) == has_key(a.flows@, g),
            amounts_kept_but(a.flows@, b.flows@, f),
            b.raw_log == a.raw_log,
        ensures
            b.raw_law(),
    {
        assert forall|c: EdgeEndpoint, k: ResourceKey| #[trigger] has_key(b.flows@, (EdgeEndpoint::External, c, k)) implies value_of(
            b.flows@,
            (EdgeEndpoint::External, c, k),
        ) == log_sum(b.raw_log@, of_flow(c, k)) by {
            assert(has_key(a.flows@, (EdgeEndpoint::External, c, k)));
        }
        assert forall|i: int| 0 <= i < b.raw_log@.len() implies has_key(b.raw_inputs@, (#[trigger] b.raw_log@[i]).1) && has_key(
            b.flows@,
            (EdgeEndpoint::External, b.raw_log@[i].0, b.raw_log@[i].1),
        ) by {
            assert(has_key(a.flows@, (EdgeEndpoint::External, a.raw_log@[i].0, a.raw_log@[i].1)));
        }
        assert forall|k: ResourceKey|
            #[trigger] has_key(b.raw_inputs@, k) <==> exists|to: EdgeEndpoint|
                #[trigger] has_key(b.flows@, (EdgeEndpoint::External, to, k)) by {
            if has_key(b.raw_inputs@, k) {
                let to = choose|to: EdgeEndpoint| #[trigger] has_key(a.flows@, (EdgeEndpoint::External, to, k));
                assert(has_key(b.flows@, (EdgeEndpoint::External, to, k)));
            }
            if exists|to: EdgeEndpoint| #[trigger] has_key(b.flows@, (EdgeEndpoint::External, to, k)) {
                let to = choose|to: EdgeEndpoint| #[trigger] has_key(b.flows@, (EdgeEndpoint::External, to, k));
                assert(has_key(a.flows@, (EdgeEndpoint::External, to, k)));
            }
        }
    }

    /// The recipes on the current path are recipes of the database, so
    /// there are no more of them than there are recipes.
    proof fn lemma_depth_left_nonneg(&self)
        requires
            self.inv(),
        ensures
            self.depth_left() >= 0,
    {
        lemma_keys_subset_len(self.visiting@, self.db.recipes@);
    }

    /// Every node stays valid in a state with the same database,
    /// configuration and nodes (up to their numbers), and more producers.
    proof fn lemma_nodes_frame(a: &Self, b: &Self)
        requires
            forall|i: int| 0 <= i < a.nodes@.len() ==> #[trigger] a.node_ok(i),
            b.db == a.db,
            b.config == a.config,
            b.nodes@.len() == a.nodes@.len(),
            forall|i: int|
                0 <= i < b.nodes@.len() ==> (#[trigger] b.nodes@[i]).id == a.nodes@[i].id && b.nodes@[i].recipe@
                    == a.nodes@[i].recipe@ && b.nodes@[i].machine@ == a.nodes@[i].machine@ && (b.nodes@[i] == a.nodes@[i]
                    || machines_counted(b.db, b.nodes@[i])),
            forall|k: ResourceKey| #[trigger] has_key(a.producer_for@, k) ==> has_key(b.producer_for@, k),
        ensures
            forall|i: int| 0 <= i < b.nodes@.len() ==> #[trigger] b.node_ok(i),
    {
        assert forall|i: int| 0 <= i < b.nodes@.len() implies #[trigger] b.node_ok(i) by {
            assert(a.node_ok(i));
            assert(b.nodes@[i].recipe@ == a.nodes@[i].recipe@);
            let rid = b.nodes@[i].recipe@;
            assert forall|j: int|
                0 <= j < b.db.recipe_at(rid).products@.len() implies has_key(
                    b.producer_for@,
                    (#[trigger] b.db.recipe_at(rid).products@[j]).resource@,
                ) by {
                assert(has_key(a.producer_for@, a.db.recipe_at(rid).products@[j].resource@));
            }
        }
    }

    /// A demand by `consumer` comes from the recipe last on the current path,
    /// if there is one.
    spec fn consumer_on_path(&self, consumer: EdgeEndpoint) -> bool {
        &&& self.visiting@.len() > 0 ==> (consumer matches EdgeEndpoint::Node(c) && c@ < self.nodes@.len()
            && self.nodes@[c@ as int].recipe@ == self.visiting@.last().0@)
        &&& self.visiting@.len() == 0 ==> consumer == EdgeEndpoint::External
    }

    /// Every flow into the outside, or into a node whose recipe is on the
    /// path, but for flows into `consumer`, is in `b` as it is in `a`.
    spec fn flows_framed(a: &Self, b: &Self, consumer: Option<EdgeEndpoint>) -> bool {
        forall|f: (EdgeEndpoint, EdgeEndpoint, ResourceKey)|
            Some(f.1) != consumer && into_path(f.1, a.nodes@, a.visiting@) ==> (#[trigger] has_key(b.flows@, f) == has_key(
                a.flows@,
                f,
            )) && (has_key(a.flows@, f) ==> value_of(b.flows@, f) == value_of(a.flows@, f))
    }

    /// Where the recipe of the node `id` takes no ingredients and the node
    /// is new since `before`: the surplus is that of `before` with the
    /// coproducts of the runs added for `rate` of `k` banked, the only flow
    /// added is the one from the node to `consumer`, and the node is the
    /// producer of every product of its recipe.
    spec fn fresh_run(&self, before: &Self, id: NodeId, consumer: EdgeEndpoint, k: ResourceKey, rate: N) -> bool {
        let i = id@ as int;
        let recipe = self.db.recipe_at(self.nodes@[i].recipe@);
        let added = rate.spec_over(yield_sum(recipe.products@, named::<N>(k.1)));
        recipe.ingredients@.len() == 0 && i >= before.nodes@.len() ==> {
            &&& coproducts_banked(before.surplus@, self.surplus@, recipe.products@, k, added)
            &&& forall|f: (EdgeEndpoint, EdgeEndpoint, ResourceKey)|
                f != (EdgeEndpoint::Node(id), consumer, k) ==> #[trigger] has_key(self.flows@, f) == has_key(before.flows@, f)
            &&& forall|j: int|
                0 <= j < recipe.products@.len() ==> value_of(self.producer_for@, (#[trigger] recipe.products@[j]).resource@)
                    == id
        }
    }

    /// The flow of `k` from the node `id` to `consumer` carries what it
    /// carried in `before` (or nothing) plus `rate`.
    spec fn delivered(&self, before: &Self, id: NodeId, consumer: EdgeEndpoint, k: ResourceKey, rate: N) -> bool {
        &&& has_key(self.flows@, (EdgeEndpoint::Node(id), consumer, k))
        &&& value_of(self.flows@, (EdgeEndpoint::Node(id), consumer, k)) == amount_or_zero(
            before.flows@,
            (EdgeEndpoint::Node(id), consumer, k),
        ).spec_plus(rate)
    }

    /// Some flow leaves the node at position `i`.
    spec fn node_served(&self, i: int) -> bool {
        exists|f: (EdgeEndpoint, EdgeEndpoint, ResourceKey)| #[trigger] has_key(self.flows@, f) && leaves_node(f.0, i)
    }

    /// Some flow of `k` leaves the node at position `i` for `consumer`.
    spec fn supplies(&self, i: int, consumer: EdgeEndpoint, k: ResourceKey) -> bool {
        exists|f: (EdgeEndpoint, EdgeEndpoint, ResourceKey)|
            #[trigger] has_key(self.flows@, f) && leaves_node(f.0, i) && f.1 == consumer && f.2 == k
    }

    /// Every flow of `a` is a flow of `b`.
    spec fn flows_grew(a: &Self, b: &Self) -> bool {
        forall|f: (EdgeEndpoint, EdgeEndpoint, ResourceKey)| #[trigger] has_key(a.flows@, f) ==> has_key(b.flows@, f)
    }

    /// A demand of `rate` of `k` by `consumer` is met: the rate is
    /// negligible, or a flow brings `k` to `consumer`, or the surplus left a
    /// gap that `surplus_gap` describes.
    spec fn demand_met(&self, k: ResourceKey, rate: N, consumer: EdgeEndpoint) -> bool {
        ||| rate.spec_at_most(epsilon::<N>())
        ||| exists|from: EdgeEndpoint| #[trigger] has_key(self.flows@, (from, consumer, k))
        ||| surplus_gap(rate)
    }

    /// The node `id` runs the recipe chosen for `k`, and had `rate` over the recipe's yield of `k` added to its runs
    /// per second since the state `before` (where it may not have existed
    /// yet, with no runs); each ingredient of its recipe was demanded for it
    /// at its amount times those added runs.
    spec fn runs_added(&self, before: &Self, id: NodeId, k: ResourceKey, rate: N) -> bool {
        let i = id@ as int;
        let recipe = self.db.recipe_at(self.nodes@[i].recipe@);
        let added = rate.spec_over(yield_sum(recipe.products@, named::<N>(k.1)));
        let base = if i < before.nodes@.len() {
            before.nodes@[i].runs_per_second
        } else {
            N::spec_zero()
        };
        &&& 0 <= i < self.nodes@.len()
        &&& recipe_chosen(self.db, self.config, k, self.nodes@[i].recipe@)
        &&& self.nodes@[i].runs_per_second == base.spec_plus(added)
        &&& forall|j: int|
            0 <= j < recipe.ingredients@.len() ==> self.demand_met(
                (#[trigger] recipe.ingredients@[j]).resource@,
                recipe.ingredients@[j].amount.spec_times(added),
                EdgeEndpoint::Node(id),
            )
    }

    /// The resource `k` is not raw, has no recipe configured for it, and
    /// two or more recipes produce something of its name.
    spec fn ambiguous(&self, k: ResourceKey) -> bool {
        ambiguous_resource(self.db, self.config, k)
    }

    /// The flow by which the surplus of `k` leaves: from the node that
    /// produces `k` to the outside.
    spec fn flush_flow(&self, k: ResourceKey) -> (EdgeEndpoint, EdgeEndpoint, ResourceKey) {
        (EdgeEndpoint::Node(value_of(self.producer_for@, k)), EdgeEndpoint::External, k)
    }

    /// The surplus of `k` is more than negligible, so it is sent out.
    spec fn flushes(&self, k: ResourceKey) -> bool {
        has_key(self.surplus@, k) && value_of(self.surplus@, k).spec_greater_than(epsilon::<N>())
    }

    /// `f` is the flow by which some surplus is sent out.
    spec fn flushed(&self, f: (EdgeEndpoint, EdgeEndpoint, ResourceKey)) -> bool {
        self.flushes(f.2) && f == self.flush_flow(f.2)
    }

    /// A met demand stays met when flows are added.
    proof fn lemma_demand_met_grows(a: &Self, b: &Self, k: ResourceKey, rate: N, consumer: EdgeEndpoint)
        requires
            a.demand_met(k, rate, consumer),
            Self::flows_grew(a, b),
        ensures
            b.demand_met(k, rate, consumer),
    {
        if exists|from: EdgeEndpoint| #[trigger] has_key(a.flows@, (from, consumer, k)) {
            let from = choose|from: EdgeEndpoint| #[trigger] has_key(a.flows@, (from, consumer, k));
            assert(has_key(b.flows@, (from, consumer, k)));
        }
    }

    /// Some flow leaves every node.
    spec fn served(&self) -> bool {
        forall|i: int| 0 <= i < self.nodes@.len() ==> #[trigger] self.node_served(i)
    }

    /// Every node stays served in a state with the same nodes and more
    /// flows.
    proof fn lemma_served_frame(a: &Self, b: &Self)
        requires
            a.served(),
            b.nodes@.len() == a.nodes@.len(),
            nodes_kept(a.nodes@, b.nodes@),
            forall|f: (EdgeEndpoint, EdgeEndpoint, ResourceKey)| #[trigger] has_key(a.flows@, f) ==> has_key(b.flows@, f),
        ensures
            b.served(),
    {
        assert forall|i: int| 0 <= i < b.nodes@.len() implies #[trigger] b.node_served(i) by {
            assert(a.node_served(i));
            let f = choose|f: (EdgeEndpoint, EdgeEndpoint, ResourceKey)| #[trigger] has_key(a.flows@, f) && leaves_node(f.0, i);
            assert(has_key(b.flows@, f));
        }
    }

    /// How far the search for ingredients may still go down: the recipes
    /// that are not on the current path.
    spec fn depth_left(&self) -> int {
        self.db.recipes@.len() - self.visiting@.len()
    }

    fn new(db: &'a Database<N>, config: &'a PlanConfig) -> (p: Self)
        requires
            db.wf(),
            config.wf(),
        ensures
            p.inv(),
            p.db == db,
            p.config == config,
            p.nodes@.len() == 0,
            p.visiting@.len() == 0,
            p.surplus@.len() == 0,
            p.flows@.len() == 0,
            p.raw_inputs@.len() == 0,
            p.served(),
    {
        Planner {
            db,
            config,
            nodes: Vec::new(),
            flows: AssocMap::new(),
            producer_for: AssocMap::new(),
            surplus: AssocMap::new(),
            raw_inputs: AssocMap::new(),
            visiting: AssocMap::new(),
            raw_log: Ghost(Seq::empty()),
        }
    }
}

impl<'a, N: Quantity> Planner<'a, N> {
    /// Adds `rate` to the flow of `resource` from `from` to `to`.
    fn add_flow(&mut self, from: EdgeEndpoint, to: EdgeEndpoint, resource: &ResourceId, rate: N)
        requires
            old(self).inv_core(),
            old(self).flow_law(),
            old(self).flow_ok((from, to, resource@)),
            endpoint_below(from, old(self).nodes@.len()),
            endpoint_below(to, old(self).nodes@.len()),
        ensures
            final(self).inv_core(),
            final(self).flow_law(),
            has_key(final(self).flows@, (from, to, resource@)),
            forall|f: (EdgeEndpoint, EdgeEndpoint, ResourceKey)|
                f != (from, to, resource@) ==> has_key(final(self).flows@, f) == has_key(old(self).flows@, f),
            value_of(final(self).flows@, (from, to, resource@)) == amount_or_zero(old(self).flows@, (from, to, resource@)).spec_plus(
                rate,
            ),
            amounts_kept_but(old(self).flows@, final(self).flows@, (from, to, resource@)),
            final(self).raw_log == old(self).raw_log,
            final(self).db == old(self).db,
            final(self).config == old(self).config,
            final(self).nodes@ == old(self).nodes@,
            final(self).producer_for@ == old(self).producer_for@,
            final(self).surplus@ == old(self).surplus@,
            final(self).raw_inputs@ == old(self).raw_inputs@,
            final(self).visiting@ == old(self).visiting@,
    {
        let key = FlowKey { from, to, resource: resource.clone() };
        let current = match self.flows.get(&key) {
            Some(v) => *v,
            None => N::zero(),
        };
        let total = current.plus(rate);
        let ghost old_self = *self;
        self.flows.insert(key, total);
        proof {
            assert forall|i: int| 0 <= i < self.nodes@.len() implies #[trigger] self.node_ok(i) by {
                assert(old_self.node_ok(i));
            }
            assert forall|f: (EdgeEndpoint, EdgeEndpoint, ResourceKey)| #[trigger] has_key(self.flows@, f) implies endpoint_below(
                f.0,
                self.nodes@.len(),
            ) && endpoint_below(f.1, self.nodes@.len()) by {
                if f != (from, to, resource@) {
                    assert(has_key(old_self.flows@, f));
                }
            }
            assert forall|f: (EdgeEndpoint, EdgeEndpoint, ResourceKey)| #[trigger] has_key(self.flows@, f) implies self.flow_ok(
                f,
            ) by {
                if f != (from, to, resource@) {
                    assert(has_key(old_self.flows@, f));
                    assert(old_self.flow_ok(f));
                }
            }
        }
    }

    /// Takes `rate` of `resource` from the outside for `consumer`.
    fn record_raw(&mut self, resource: &ResourceId, rate: N, consumer: EdgeEndpoint)
        requires
            old(self).inv(),
            raw_resource(old(self).db, old(self).config, resource@),
            endpoint_below(consumer, old(self).nodes@.len()),
            endpoint_takes(old(self).db, old(self).nodes@, consumer, resource@),
        ensures
            final(self).inv(),
            has_key(final(self).raw_inputs@, resource@),
            has_key(final(self).flows@, (EdgeEndpoint::External, consumer, resource@)),
            forall|f: (EdgeEndpoint, EdgeEndpoint, ResourceKey)|
                #[trigger] has_key(old(self).flows@, f) ==> has_key(final(self).flows@, f),
            final(self).db == old(self).db,
            final(self).config == old(self).config,
            final(self).nodes@ == old(self).nodes@,
            final(self).visiting@ == old(self).visiting@,
            final(self).surplus@ == old(self).surplus@,
            forall|k: ResourceKey| #[trigger] has_key(old(self).raw_inputs@, k) ==> has_key(final(self).raw_inputs@, k),
            value_of(final(self).raw_inputs@, resource@) == amount_or_zero(old(self).raw_inputs@, resource@).spec_plus(rate),
            amounts_kept_but(old(self).raw_inputs@, final(self).raw_inputs@, resource@),
            forall|k: ResourceKey|
                k != resource@ ==> #[trigger] has_key(final(self).raw_inputs@, k) == has_key(old(self).raw_inputs@, k),
            value_of(final(self).flows@, (EdgeEndpoint::External, consumer, resource@)) == amount_or_zero(
                old(self).flows@,
                (EdgeEndpoint::External, consumer, resource@),
            ).spec_plus(rate),
            amounts_kept_but(old(self).flows@, final(self).flows@, (EdgeEndpoint::External, consumer, resource@)),
            forall|f: (EdgeEndpoint, EdgeEndpoint, ResourceKey)|
                f != (EdgeEndpoint::External, consumer, resource@) ==> has_key(final(self).flows@, f) == has_key(
                    old(self).flows@,
                    f,
                ),
    {
        let current = match self.raw_inputs.get(resource) {
            Some(v) => *v,
            None => N::zero(),
        };
        let total = current.plus(rate);
        let ghost old_self = *self;
        self.raw_inputs.insert(resource.clone(), total);
        proof {
            assert forall|i: int| 0 <= i < self.nodes@.len() implies #[trigger] self.node_ok(i) by {
                assert(old_self.node_ok(i));
            }
        }
        self.add_flow(EdgeEndpoint::External, consumer, resource, rate);
        let ghost mid = *self;
        let ghost taking: Taking<N> = (consumer, resource@, rate);
        self.raw_log = Ghost(self.raw_log@.push(taking));
        proof {
            let log0 = old(self).raw_log@;
            let log1 = self.raw_log@;
            assert forall|i: int| 0 <= i < self.nodes@.len() implies #[trigger] self.node_ok(i) by {
                assert(mid.node_ok(i));
            }
            assert forall|k: ResourceKey| #[trigger] has_key(self.raw_inputs@, k) implies value_of(self.raw_inputs@, k)
                == log_sum(log1, of_resource(k)) by {
                lemma_log_sum_push(log0, taking, of_resource(k));
                if k == resource@ {
                    if !has_key(old(self).raw_inputs@, k) {
                        assert forall|i: int| 0 <= i < log0.len() implies !of_resource(k)((#[trigger] log0[i]).0, log0[i].1) by {
                            assert(has_key(old(self).raw_inputs@, log0[i].1));
                        }
                        lemma_log_sum_none(log0, of_resource(k));
                    }
                } else {
                    assert(has_key(old(self).raw_inputs@, k));
                }
            }
            assert forall|c: EdgeEndpoint, k: ResourceKey| #[trigger] has_key(self.flows@, (EdgeEndpoint::External, c, k)) implies value_of(
                self.flows@,
                (EdgeEndpoint::External, c, k),
            ) == log_sum(log1, of_flow(c, k)) by {
                lemma_log_sum_push(log0, taking, of_flow(c, k));
                if (EdgeEndpoint::External, c, k) == (EdgeEndpoint::External, consumer, resource@) {
                    if !has_key(old(self).flows@, (EdgeEndpoint::External, c, k)) {
                        assert forall|i: int| 0 <= i < log0.len() implies !of_flow(c, k)((#[trigger] log0[i]).0, log0[i].1) by {
                            assert(has_key(old(self).flows@, (EdgeEndpoint::External, log0[i].0, log0[i].1)));
                        }
                        lemma_log_sum_none(log0, of_flow(c, k));
                    }
                } else {
                    assert(has_key(old(self).flows@, (EdgeEndpoint::External, c, k)));
                }
            }
            assert forall|i: int| 0 <= i < log1.len() implies has_key(self.raw_inputs@, (#[trigger] log1[i]).1) && has_key(
                self.flows@,
                (EdgeEndpoint::External, log1[i].0, log1[i].1),
            ) by {
                if i < log0.len() {
                    assert(log1[i] == log0[i]);
                    assert(has_key(old(self).flows@, (EdgeEndpoint::External, log0[i].0, log0[i].1)));
                    assert(has_key(old(self).raw_inputs@, log0[i].1));
                }
            }
            assert forall|k: ResourceKey|
                #[trigger] has_key(self.raw_inputs@, k) <==> exists|to: EdgeEndpoint|
                    #[trigger] has_key(self.flows@, (EdgeEndpoint::External, to, k)) by {
                if k != resource@ {
                    if has_key(self.raw_inputs@, k) {
                        let to = choose|to: EdgeEndpoint| #[trigger] has_key(old(self).flows@, (EdgeEndpoint::External, to, k));
                        assert(has_key(self.flows@, (EdgeEndpoint::External, to, k)));
                    }
                    if exists|to: EdgeEndpoint| #[trigger] has_key(self.flows@, (EdgeEndpoint::External, to, k)) {
                        let to = choose|to: EdgeEndpoint| #[trigger] has_key(self.flows@, (EdgeEndpoint::External, to, k));
                        assert(has_key(old(self).flows@, (EdgeEndpoint::External, to, k)));
                    }
                } else {
                    assert(has_key(self.flows@, (EdgeEndpoint::External, consumer, k)));
                }
            }
        }
    }
}

impl<'a, N: Quantity> Planner<'a, N> {
    /// Whether `resource` is taken from the outside: it is configured raw,
    /// or no recipe produces anything of its name.
    fn is_raw(&self, resource: &ResourceId) -> (b: bool)
        requires
            self.inv(),
        ensures
            b == (has_key(self.config.raw@, resource@) || keys_where(
                self.db.recipes@,
                producing::<N>(resource@.1),
            ).len() == 0),
    {
        if self.config.raw.contains_key(resource) {
            return true;
        }
        let producers = self.db.recipes_producing(resource.name());
        producers.len() == 0
    }

    /// The recipe to produce `resource` with: the configured one, or else the
    /// only recipe that produces something of its name.
    fn pick_recipe(&self, resource: &ResourceId) -> (r: Result<RecipeId, Error>)
        requires
            self.inv(),
        ensures
            match r {
                Ok(id) => if has_key(self.config.recipe_for@, resource@) {
                    id@ == value_of(self.config.recipe_for@, resource@)@
                } else {
                    keys_where(self.db.recipes@, producing::<N>(resource@.1)) == seq![id@]
                },
                Err(Error::NoRecipe(res)) => {
                    &&& !has_key(self.config.recipe_for@, resource@)
                    &&& keys_where(self.db.recipes@, producing::<N>(resource@.1)).len() == 0
                    &&& res@ == resource@
                },
                Err(Error::AmbiguousRecipe { resource: res, candidates }) => {
                    &&& !has_key(self.config.recipe_for@, resource@)
                    &&& keys_where(self.db.recipes@, producing::<N>(resource@.1)).len() >= 2
                    &&& candidates@.map_values(|id: RecipeId| id@) == keys_where(
                        self.db.recipes@,
                        producing::<N>(resource@.1),
                    )
                    &&& res@ == resource@
                },
                Err(_) => false,
            },
    {
        if let Some(id) = self.config.recipe_for.get(resource) {
            return Ok(id.clone());
        }
        let mut candidates = self.db.recipes_producing(resource.name());
        let ghost all = candidates@.map_values(|id: RecipeId| id@);
        if candidates.len() == 0 {
            Err(Error::NoRecipe(resource.clone()))
        } else if candidates.len() == 1 {
            let id = candidates.pop().unwrap();
            proof {
                assert(all =~= seq![id@]);
            }
            Ok(id)
        } else {
            Err(Error::AmbiguousRecipe { resource: resource.clone(), candidates })
        }
    }

    /// The machine to run the recipe `recipe`, of `category`, on: the
    /// configured one, which must be a machine of the database that supports
    /// the category, or else, of the machines that support the category, one
    /// whose crafting speed no later one reaches (the last of the fastest).
    fn pick_machine(&self, category: &CraftingCategory, recipe: &RecipeId) -> (r: Result<MachineId, Error>)
        requires
            self.inv(),
        ensures
            match r {
                Ok(id) => machine_choice_ok(self.db, self.config, category@, id@),
                Err(Error::UnknownMachine(m)) => {
                    &&& has_key(self.config.machine_for_category@, category@)
                    &&& value_of(self.config.machine_for_category@, category@)@ == m@
                    &&& !self.db.has_machine(m@)
                },
                Err(Error::MachineCategoryMismatch { machine, recipe: rid, category: c }) => {
                    &&& has_key(self.config.machine_for_category@, category@)
                    &&& value_of(self.config.machine_for_category@, category@)@ == machine@
                    &&& self.db.has_machine(machine@)
                    &&& !has_category(self.db.machine_at(machine@).crafting_categories@, category@)
                    &&& rid@ == recipe@
                    &&& c@ == category@
                },
                Err(Error::NoMachineForCategory(c)) => {
                    &&& !has_key(self.config.machine_for_category@, category@)
                    &&& keys_where(self.db.machines@, supporting::<N>(category@)).len() == 0
                    &&& c@ == category@
                },
                Err(_) => false,
            },
    {
        if let Some(id) = self.config.machine_for_category.get(category) {
            return match self.db.machine(id) {
                None => Err(Error::UnknownMachine(id.clone())),
                Some(m) => {
                    if m.supports(category) {
                        Ok(id.clone())
                    } else {
                        Err(Error::MachineCategoryMismatch {
                            machine: id.clone(),
                            recipe: recipe.clone(),
                            category: category.clone(),
                        })
                    }
                },
            };
        }
        let entries = self.db.machines.entries();
        let n = entries.len();
        let mut best: Option<usize> = None;
        let mut i: usize = 0;
        while i < n
            invariant
                n == entries@.len(),
                entries@ == self.db.machines@,
                i <= n,
                match best {
                    Some(b) => {
                        &&& b < i
                        &&& has_category(entries@[b as int].1.crafting_categories@, category@)
                        &&& forall|j: int|
                            b < j < i && has_category((#[trigger] entries@[j]).1.crafting_categories@, category@)
                                ==> entries@[b as int].1.crafting_speed.spec_greater_than(entries@[j].1.crafting_speed)
                    },
                    None => keys_where(entries@.take(i as int), supporting::<N>(category@)).len() == 0,
                },
                best is None ==> forall|j: int| 0 <= j < i ==> !supports_at(self.db, category@, j),
                speeds_ordered(self.db, category@) ==> (best matches Some(b) ==> forall|j: int|
                    0 <= j < i && supports_at(self.db, category@, j) ==> !(#[trigger] speed_at(self.db, j)).spec_greater_than(
                        speed_at(self.db, b as int),
                    )),
            decreases n - i,
        {
            proof {
                lemma_keys_where_step(entries@, supporting::<N>(category@), i as int);
            }
            let ghost old_best = best;
            if entries[i].1.supports(category) {
                best = match best {
                    None => Some(i),
                    Some(b) => {
                        if entries[b].1.crafting_speed.greater_than(entries[i].1.crafting_speed) {
                            Some(b)
                        } else {
                            Some(i)
                        }
                    },
                };
                proof {
                    let db = self.db;
                    let c = category@;
                    if speeds_ordered(db, c) {
                        let nb = best.unwrap() as int;
                        assert(speed_at(db, i as int) == entries@[i as int].1.crafting_speed);
                        assert forall|j: int|
                            0 <= j < i + 1 && supports_at(db, c, j) implies !(#[trigger] speed_at(db, j)).spec_greater_than(
                            speed_at(db, nb),
                        ) by {
                            let si = speed_at(db, i as int);
                            if j == i as int {
                                if si.spec_greater_than(si) {
                                    assert(!si.spec_greater_than(si));
                                }
                            } else {
                                match old_best {
                                    None => {
                                        assert(!supports_at(db, c, j));
                                    },
                                    Some(b) => {
                                        let sb = speed_at(db, b as int);
                                        let sj = speed_at(db, j);
                                        assert(!sj.spec_greater_than(sb));
                                        if nb == b as int {
                                            assert(sb.spec_greater_than(si));
                                        } else {
                                            assert(!sb.spec_greater_than(si));
                                            assert(!sj.spec_greater_than(si));
                                        }
                                    },
                                }
                            }
                        }
                    }
                }
            }
            i = i + 1;
        }
        proof {
            assert(entries@.take(n as int) =~= entries@);
        }
        match best {
            Some(b) => {
                proof {
                    lemma_key_index(entries@, b as int);
                    assert(speed_at(self.db, b as int) == self.db.machine_at(entries@[b as int].0@).crafting_speed);
                }
                Ok(entries[b].0.clone())
            },
            None => Err(Error::NoMachineForCategory(category.clone())),
        }
    }
}

impl<'a, N: Quantity> Planner<'a, N> {
    /// The node that runs `recipe`: the node that produces its first product
    /// if that node runs this recipe, and otherwise a new node on the machine
    /// picked for the recipe's category.
    fn ensure_node(&mut self, recipe: &Recipe<N>) -> (r: Result<NodeId, Error>)
        requires
            old(self).inv(),
            old(self).db.has_recipe(recipe.id@),
            *recipe == old(self).db.recipe_at(recipe.id@),
            recipe.products@.len() > 0,
            exists|r: ResourceKey| #[trigger] recipe_chosen(old(self).db, old(self).config, r, recipe.id@),
        ensures
            final(self).inv(),
            final(self).db == old(self).db,
            final(self).config == old(self).config,
            nodes_kept(old(self).nodes@, final(self).nodes@),
            final(self).nodes@.len() <= old(self).nodes@.len() + 1,
            forall|i: int| 0 <= i < old(self).nodes@.len() ==> #[trigger] final(self).nodes@[i] == old(self).nodes@[i],
            r matches Ok(id) ==> (final(self).nodes@.len() > old(self).nodes@.len() ==> id@ == old(self).nodes@.len()),
            r matches Ok(id) ==> (id@ >= old(self).nodes@.len() ==> final(self).nodes@[id@ as int].runs_per_second
                == N::spec_zero()),
            r matches Ok(id) ==> (id@ >= old(self).nodes@.len() ==> forall|j: int|
                0 <= j < recipe.products@.len() ==> value_of(final(self).producer_for@, (#[trigger] recipe.products@[j]).resource@)
                    == id),
            final(self).flows@ == old(self).flows@,
            final(self).raw_inputs@ == old(self).raw_inputs@,
            final(self).surplus@ == old(self).surplus@,
            final(self).visiting@ == old(self).visiting@,
            match r {
                Ok(id) => {
                    &&& id@ < final(self).nodes@.len()
                    &&& final(self).nodes@[id@ as int].recipe@ == recipe.id@
                    &&& forall|j: int|
                        0 <= j < recipe.products@.len() ==> has_key(
                            final(self).producer_for@,
                            (#[trigger] recipe.products@[j]).resource@,
                        )
                },
                Err(e) => error_ok(final(self).db, final(self).config, e) && machine_error_of(
                    e,
                    final(self).config,
                    recipe.id@,
                    recipe.category@,
                ),
            },
    {
        if let Some(found) = self.producer_for.get(&recipe.products[0].resource) {
            let id = *found;
            if self.nodes[id.index()].recipe.key_eq(&recipe.id) {
                proof {
                    assert(self.node_ok(id@ as int));
                    assert forall|j: int|
                        0 <= j < recipe.products@.len() implies has_key(
                            self.producer_for@,
                            (#[trigger] recipe.products@[j]).resource@,
                        ) by {
                        assert(self.db.recipe_at(recipe.id@).products@[j] == recipe.products@[j]);
                    }
                }
                return Ok(id);
            }
        }
        let machine = match self.pick_machine(&recipe.category, &recipe.id) {
            Ok(m) => m,
            Err(e) => {
                return Err(e);
            },
        };
        let ghost old_self = *self;
        proof {
            if first_products_unshared(self.db) {
                assert forall|i: int| 0 <= i < self.nodes@.len() implies (#[trigger] self.nodes@[i]).recipe@ != recipe.id@ by {
                    if self.nodes@[i].recipe@ == recipe.id@ {
                        assert(self.db.recipe_at(self.nodes@[i].recipe@).products@[0].resource@ == recipe.products@[0].resource@);
                        assert(has_key(self.producer_for@, recipe.products@[0].resource@));
                    }
                }
            }
        }
        let id = NodeId::new(self.nodes.len());
        let node = ProductionNode {
            id,
            recipe: recipe.id.clone(),
            machine,
            runs_per_second: N::zero(),
            machines_needed: N::zero(),
        };
        self.nodes.push(node);
        let n = recipe.products.len();
        let mut j: usize = 0;
        while j < n
            invariant
                n == recipe.products@.len(),
                j <= n,
                self.db == old_self.db,
                self.config == old_self.config,
                self.nodes@ == old_self.nodes@.push(node),
                self.raw_log == old_self.raw_log,
                id@ == old_self.nodes@.len(),
                self.flows@ == old_self.flows@,
                self.surplus@ == old_self.surplus@,
                self.raw_inputs@ == old_self.raw_inputs@,
                self.visiting@ == old_self.visiting@,
                self.producer_for.wf(),
                forall|k: ResourceKey| has_key(old_self.producer_for@, k) ==> #[trigger] has_key(self.producer_for@, k),
                forall|k: ResourceKey|
                    #[trigger] has_key(self.producer_for@, k) ==> value_of(self.producer_for@, k)@ < self.nodes@.len(),
                forall|i: int|
                    0 <= i < j ==> has_key(self.producer_for@, (#[trigger] recipe.products@[i]).resource@),
                forall|i: int|
                    0 <= i < j ==> value_of(self.producer_for@, (#[trigger] recipe.products@[i]).resource@) == id,
                forall|k: ResourceKey|
                    #[trigger] has_key(self.producer_for@, k) ==> (has_key(old_self.producer_for@, k) && value_of(
                        self.producer_for@,
                        k,
                    ) == value_of(old_self.producer_for@, k)) || (value_of(self.producer_for@, k) == id
                        && produces_name(recipe.products@, k.1)),
            decreases n - j,
        {
            let ghost before = self.producer_for@;
            self.producer_for.insert(recipe.products[j].resource.clone(), id);
            proof {
                assert forall|k: ResourceKey| #[trigger] has_key(self.producer_for@, k) implies (has_key(
                    old_self.producer_for@,
                    k,
                ) && value_of(self.producer_for@, k) == value_of(old_self.producer_for@, k)) || (value_of(
                    self.producer_for@,
                    k,
                ) == id && produces_name(recipe.products@, k.1)) by {
                    if k != recipe.products@[j as int].resource@ {
                        assert(has_key(before, k));
                    } else {
                        assert(recipe.products@[j as int].resource@.1 == k.1);
                    }
                }
                assert forall|k: ResourceKey|
                    #[trigger] has_key(self.producer_for@, k) implies value_of(self.producer_for@, k)@ < self.nodes@.len() by {
                    if k != recipe.products@[j as int].resource@ {
                        assert(has_key(before, k));
                        assert(value_of(self.producer_for@, k) == value_of(before, k));
                    } else {
                        assert(value_of(self.producer_for@, k) == id);
                    }
                }
                assert forall|i: int| 0 <= i < j + 1 implies has_key(self.producer_for@, (#[trigger] recipe.products@[i]).resource@) by {
                    if recipe.products@[i].resource@ != recipe.products@[j as int].resource@ {
                        assert(has_key(before, recipe.products@[i].resource@));
                    }
                }
            }
            j = j + 1;
        }
        proof {
            assert forall|i: int| 0 <= i < self.nodes@.len() implies #[trigger] self.node_ok(i) by {
                if i < old_self.nodes@.len() {
                    assert(old_self.node_ok(i));
                    let rid = self.nodes@[i].recipe@;
                    assert forall|jj: int|
                        0 <= jj < self.db.recipe_at(rid).products@.len() implies has_key(
                            self.producer_for@,
                            (#[trigger] self.db.recipe_at(rid).products@[jj]).resource@,
                        ) by {
                        assert(has_key(old_self.producer_for@, self.db.recipe_at(rid).products@[jj].resource@));
                    }
                } else {
                    assert forall|jj: int|
                        0 <= jj < self.db.recipe_at(recipe.id@).products@.len() implies has_key(
                            self.producer_for@,
                            (#[trigger] self.db.recipe_at(recipe.id@).products@[jj]).resource@,
                        ) by {
                        assert(recipe.products@[jj] == self.db.recipe_at(recipe.id@).products@[jj]);
                    }
                }
            }
            assert forall|k: ResourceKey| #[trigger] has_key(self.surplus@, k) implies has_key(self.producer_for@, k) by {
                assert(has_key(old_self.producer_for@, k));
            }
            assert forall|f: (EdgeEndpoint, EdgeEndpoint, ResourceKey)| #[trigger] has_key(self.flows@, f) implies self.flow_ok(
                f,
            ) by {
                assert(old_self.flow_ok(f));
                assert(endpoint_below(f.0, old_self.nodes@.len()) && endpoint_below(f.1, old_self.nodes@.len()));
                if let EdgeEndpoint::Node(x) = f.0 {
                    assert(self.nodes@[x@ as int] == old_self.nodes@[x@ as int]);
                }
                if let EdgeEndpoint::Node(x) = f.1 {
                    assert(self.nodes@[x@ as int] == old_self.nodes@[x@ as int]);
                }
            }
            assert forall|k: ResourceKey| #[trigger] has_key(self.producer_for@, k) implies endpoint_makes(
                self.db,
                self.nodes@,
                EdgeEndpoint::Node(value_of(self.producer_for@, k)),
                k,
            ) by {
                let x = value_of(self.producer_for@, k);
                if has_key(old_self.producer_for@, k) && x == value_of(old_self.producer_for@, k) {
                    assert(endpoint_makes(old_self.db, old_self.nodes@, EdgeEndpoint::Node(x), k));
                    assert(self.nodes@[x@ as int] == old_self.nodes@[x@ as int]);
                } else {
                    assert(self.nodes@[x@ as int] == node);
                    assert(self.db.recipe_at(recipe.id@) == *recipe);
                }
            }
            assert(nodes_kept(old_self.nodes@, self.nodes@));
            if first_products_unshared(self.db) {
                let r = recipe.id@;
                assert forall|i: int, j: int|
                    0 <= i < self.nodes@.len() && 0 <= j < self.nodes@.len() && i != j implies (#[trigger] self.nodes@[i]).recipe@
                    != (#[trigger] self.nodes@[j]).recipe@ by {
                    if i < old_self.nodes@.len() && j < old_self.nodes@.len() {
                        assert(old_self.nodes@[i] == self.nodes@[i] && old_self.nodes@[j] == self.nodes@[j]);
                    } else if i < old_self.nodes@.len() {
                        assert(old_self.nodes@[i].recipe@ != r);
                    } else {
                        assert(old_self.nodes@[j].recipe@ != r);
                    }
                }
                assert forall|i: int| 0 <= i < self.nodes@.len() implies {
                    let first = self.db.recipe_at((#[trigger] self.nodes@[i]).recipe@).products@[0].resource@;
                    &&& self.db.recipe_at(self.nodes@[i].recipe@).products@.len() > 0
                    &&& has_key(self.producer_for@, first)
                    &&& value_of(self.producer_for@, first)@ == i
                } by {
                    if i < old_self.nodes@.len() {
                        let s2 = old_self.nodes@[i].recipe@;
                        let first = self.db.recipe_at(s2).products@[0].resource@;
                        assert(old_self.node_ok(i));
                        assert(has_key(old_self.producer_for@, first));
                        assert(has_key(self.producer_for@, first));
                        if !(value_of(self.producer_for@, first) == value_of(old_self.producer_for@, first)) {
                            assert(produces_name(recipe.products@, first.1));
                            assert(s2 != r);
                            assert(self.db.has_recipe(s2) && self.db.has_recipe(r));
                        }
                    } else {
                        let first = recipe.products@[0].resource@;
                        assert(self.db.recipe_at(r) == *recipe);
                        assert(has_key(self.producer_for@, first));
                        if has_key(old_self.producer_for@, first) && value_of(self.producer_for@, first) == value_of(
                            old_self.producer_for@,
                            first,
                        ) {
                            let x = value_of(old_self.producer_for@, first);
                            assert(endpoint_makes(old_self.db, old_self.nodes@, EdgeEndpoint::Node(x), first));
                            assert(old_self.node_ok(x@ as int));
                            let s2 = old_self.nodes@[x@ as int].recipe@;
                            assert(s2 != r);
                            assert(self.db.has_recipe(s2) && self.db.has_recipe(r));
                            assert(produces_name(self.db.recipe_at(s2).products@, first.1));
                        } else {
                            assert(produces_name(recipe.products@, first.1));
                        }
                    }
                }
            }
        }
        Ok(id)
    }

    /// Adds `runs` runs per second to the node `node_id`, and recomputes how
    /// many machines it needs: its runs per second over the runs per second
    /// of one machine, or zero when one machine completes no runs.
    fn add_runs(&mut self, node_id: NodeId, recipe: &Recipe<N>, runs: N)
        requires
            old(self).inv(),
            node_id@ < old(self).nodes@.len(),
            *recipe == old(self).db.recipe_at(old(self).nodes@[node_id@ as int].recipe@),
        ensures
            final(self).inv(),
            final(self).db == old(self).db,
            final(self).config == old(self).config,
            final(self).nodes@.len() == old(self).nodes@.len(),
            final(self).flows@ == old(self).flows@,
            final(self).producer_for@ == old(self).producer_for@,
            final(self).raw_inputs@ == old(self).raw_inputs@,
            final(self).surplus@ == old(self).surplus@,
            final(self).visiting@ == old(self).visiting@,
            forall|i: int|
                0 <= i < final(self).nodes@.len() ==> (#[trigger] final(self).nodes@[i]).recipe@ == old(
                    self,
                ).nodes@[i].recipe@,
            nodes_kept(old(self).nodes@, final(self).nodes@),
            forall|i: int| 0 <= i < old(self).nodes@.len() && i != node_id@ ==> #[trigger] final(self).nodes@[i] == old(
                self,
            ).nodes@[i],
            final(self).nodes@[node_id@ as int].runs_per_second == old(self).nodes@[node_id@ as int].runs_per_second.spec_plus(
                runs,
            ),
    {
        let ghost old_self = *self;
        let i = node_id.index();
        let db = self.db;
        proof {
            assert(self.node_ok(i as int));
        }
        let machine = db.machine(&self.nodes[i].machine).unwrap();
        let total = self.nodes[i].runs_per_second.plus(runs);
        let per_machine = machine.crafts_per_second(recipe.crafting_time);
        let needed = if per_machine.greater_than(N::zero()) {
            total.over(per_machine)
        } else {
            N::zero()
        };
        let node = ProductionNode {
            id: self.nodes[i].id,
            recipe: self.nodes[i].recipe.clone(),
            machine: self.nodes[i].machine.clone(),
            runs_per_second: total,
            machines_needed: needed,
        };
        self.nodes.set(i, node);
        proof {
            Self::lemma_nodes_frame(&old_self, self);
            Self::lemma_raw_law_frame(&old_self, self);
        }
    }

    /// Banks the products of `new_runs` runs of `recipe`, other than
    /// `primary`, as surplus: each adds its expected amount times the runs,
    /// when that is positive.
    fn bank_coproducts(&mut self, recipe: &Recipe<N>, primary: &ResourceId, new_runs: N)
        requires
            old(self).inv(),
            forall|j: int|
                0 <= j < recipe.products@.len() ==> has_key(
                    old(self).producer_for@,
                    (#[trigger] recipe.products@[j]).resource@,
                ),
        ensures
            final(self).inv(),
            final(self).db == old(self).db,
            final(self).config == old(self).config,
            final(self).nodes@ == old(self).nodes@,
            final(self).flows@ == old(self).flows@,
            final(self).producer_for@ == old(self).producer_for@,
            final(self).raw_inputs@ == old(self).raw_inputs@,
            final(self).visiting@ == old(self).visiting@,
            coproducts_banked(old(self).surplus@, final(self).surplus@, recipe.products@, primary@, new_runs),
    {
        let n = recipe.products.len();
        let mut j: usize = 0;
        while j < n
            invariant
                n == recipe.products@.len(),
                j <= n,
                self.inv(),
                self.db == old(self).db,
                self.config == old(self).config,
                self.nodes@ == old(self).nodes@,
                self.flows@ == old(self).flows@,
                self.producer_for@ == old(self).producer_for@,
                self.raw_inputs@ == old(self).raw_inputs@,
                self.visiting@ == old(self).visiting@,
                forall|jj: int|
                    0 <= jj < recipe.products@.len() ==> has_key(
                        self.producer_for@,
                        (#[trigger] recipe.products@[jj]).resource@,
                    ),
                forall|jj: int|
                    0 <= jj < j && (#[trigger] recipe.products@[jj]).resource@ != primary@ && listed_once(
                        recipe.products@,
                        jj,
                    ) ==> {
                        let k = recipe.products@[jj].resource@;
                        let produced = product_yield(recipe.products@[jj]).spec_times(new_runs);
                        if produced.spec_greater_than(N::spec_zero()) {
                            has_key(self.surplus@, k) && value_of(self.surplus@, k) == amount_or_zero(
                                old(self).surplus@,
                                k,
                            ).spec_plus(produced)
                        } else {
                            has_key(self.surplus@, k) == has_key(old(self).surplus@, k) && amount_or_zero(self.surplus@, k)
                                == amount_or_zero(old(self).surplus@, k)
                        }
                    },
                forall|k: ResourceKey|
                    (forall|jj: int| 0 <= jj < j ==> (#[trigger] recipe.products@[jj]).resource@ != k || recipe.products@[jj].resource@
                        == primary@) ==> #[trigger] has_key(self.surplus@, k) == has_key(old(self).surplus@, k) && amount_or_zero(
                        self.surplus@,
                        k,
                    ) == amount_or_zero(old(self).surplus@, k),
            decreases n - j,
        {
            let product = &recipe.products[j];
            let ghost before = self.surplus@;
            let ghost rj = recipe.products@[j as int].resource@;
            if !product.resource.key_eq(primary) {
                let produced = product.expected_amount().times(new_runs);
                if produced.greater_than(N::zero()) {
                    let current = match self.surplus.get(&product.resource) {
                        Some(v) => *v,
                        None => N::zero(),
                    };
                    let total = current.plus(produced);
                    let ghost old_self = *self;
                    self.surplus.insert(product.resource.clone(), total);
                    proof {
                        assert(has_key(self.producer_for@, recipe.products@[j as int].resource@));
                        assert forall|k: ResourceKey| #[trigger] has_key(self.surplus@, k) implies has_key(
                            self.producer_for@,
                            k,
                        ) by {
                            if k != product.resource@ {
                                assert(has_key(old_self.surplus@, k));
                            }
                        }
                        Self::lemma_nodes_frame(&old_self, self);
                        Self::lemma_raw_law_frame(&old_self, self);
                    }
                }
            }
            proof {
                let pr = product_yield(recipe.products@[j as int]).spec_times(new_runs);
                let changed = rj != primary@ && pr.spec_greater_than(N::spec_zero());
                assert(changed ==> (has_key(self.surplus@, rj) && value_of(self.surplus@, rj) == amount_or_zero(before, rj).spec_plus(pr)
                    && amounts_kept_but(before, self.surplus@, rj) && forall|k: ResourceKey| k != rj ==> has_key(self.surplus@, k) == has_key(before, k)));
                assert(!changed ==> self.surplus@ == before);
                assert forall|jj: int|
                    0 <= jj < j + 1 && (#[trigger] recipe.products@[jj]).resource@ != primary@ && listed_once(recipe.products@, jj) implies {
                        let k = recipe.products@[jj].resource@;
                        let produced = product_yield(recipe.products@[jj]).spec_times(new_runs);
                        if produced.spec_greater_than(N::spec_zero()) {
                            has_key(self.surplus@, k) && value_of(self.surplus@, k) == amount_or_zero(old(self).surplus@, k).spec_plus(produced)
                        } else {
                            has_key(self.surplus@, k) == has_key(old(self).surplus@, k) && amount_or_zero(self.surplus@, k)
                                == amount_or_zero(old(self).surplus@, k)
                        }
                    } by {
                    let k = recipe.products@[jj].resource@;
                    if jj < j {
                        assert(recipe.products@[j as int].resource@ != k);
                    } else {
                        assert forall|i: int| 0 <= i < j implies (#[trigger] recipe.products@[i]).resource@ != k
                            || recipe.products@[i].resource@ == primary@ by {
                            assert(i != jj);
                        }
                        assert(has_key(before, k) == has_key(old(self).surplus@, k));
                        assert(amount_or_zero(before, k) == amount_or_zero(old(self).surplus@, k));
                    }
                }
                assert forall|k: ResourceKey|
                    (forall|jj: int| 0 <= jj < j + 1 ==> (#[trigger] recipe.products@[jj]).resource@ != k || recipe.products@[jj].resource@
                        == primary@) implies #[trigger] has_key(self.surplus@, k) == has_key(old(self).surplus@, k) && amount_or_zero(
                    self.surplus@,
                    k,
                ) == amount_or_zero(old(self).surplus@, k) by {
                    assert forall|jj: int| 0 <= jj < j implies (#[trigger] recipe.products@[jj]).resource@ != k
                        || recipe.products@[jj].resource@ == primary@ by {
                        assert(0 <= jj < j + 1);
                    }
                    assert(recipe.products@[j as int].resource@ != k || recipe.products@[j as int].resource@ == primary@);
                }
            }
            j = j + 1;
        }
    }

    /// Takes what the surplus holds of `resource`, up to `rate`. Gives the
    /// amount taken (none when nothing of it was ever banked) and the rate
    /// that is left to meet.
    fn draw_from_surplus(&mut self, resource: &ResourceId, rate: N) -> (r: (Option<N>, N))
        requires
            old(self).inv(),
        ensures
            final(self).inv(),
            final(self).db == old(self).db,
            final(self).config == old(self).config,
            final(self).nodes@ == old(self).nodes@,
            final(self).flows@ == old(self).flows@,
            final(self).producer_for@ == old(self).producer_for@,
            final(self).raw_inputs@ == old(self).raw_inputs@,
            final(self).visiting@ == old(self).visiting@,
            r.0 is Some <==> has_key(old(self).surplus@, resource@),
            r.0 is None ==> r.1 == rate,
            r.0 is None ==> final(self).surplus@ == old(self).surplus@,
            r.0 matches Some(taken) ==> exists|a: N| taken == a.spec_lesser(rate) && r.1 == rate.spec_minus(taken),
            r.0 matches Some(taken) ==> taken == value_of(old(self).surplus@, resource@).spec_lesser(rate),
            r.0 matches Some(taken) ==> (taken.spec_greater_than(N::spec_zero()) ==> {
                &&& has_key(final(self).surplus@, resource@)
                &&& value_of(final(self).surplus@, resource@) == value_of(old(self).surplus@, resource@).spec_minus(taken)
                &&& amounts_kept_but(old(self).surplus@, final(self).surplus@, resource@)
                &&& forall|k: ResourceKey| #[trigger] has_key(final(self).surplus@, k) == has_key(old(self).surplus@, k)
            }),
            r.0 matches Some(taken) ==> (!taken.spec_greater_than(N::spec_zero()) ==> final(self).surplus@ == old(
                self,
            ).surplus@),
    {
        let available = match self.surplus.get(resource) {
            Some(v) => *v,
            None => {
                return (None, rate);
            },
        };
        let from_surplus = available.lesser(rate);
        if from_surplus.greater_than(N::zero()) {
            let ghost old_self = *self;
            self.surplus.insert(resource.clone(), available.minus(from_surplus));
            proof {
                assert forall|k: ResourceKey| #[trigger] has_key(self.surplus@, k) implies has_key(
                    self.producer_for@,
                    k,
                ) by {
                    assert(has_key(old_self.surplus@, k));
                }
                assert forall|k: int| 0 <= k < self.nodes@.len() implies #[trigger] self.node_ok(k) by {
                    assert(old_self.node_ok(k));
                }
                Self::lemma_raw_law_frame(&old_self, self);
            }
        }
        (Some(from_surplus), rate.minus(from_surplus))
    }
}

/// The resources that `edges` take to the outside, each once, in the
/// order of the first edge that takes each.
pub open spec fn external_resources<N>(edges: Seq<ProductionEdge<N>>) -> Seq<ResourceKey>
    decreases edges.len(),
{
    if edges.len() == 0 {
        Seq::empty()
    } else {
        let rest = external_resources(edges.drop_last());
        let e = edges.last();
        if e.to == EdgeEndpoint::External && !rest.contains(e.resource@) {
            rest.push(e.resource@)
        } else {
            rest
        }
    }
}

/// The sum, in order from the first, of the rates of the edges of `edges`
/// that take `k` to the outside, starting from zero.
pub open spec fn external_total<N: Quantity>(edges: Seq<ProductionEdge<N>>, k: ResourceKey) -> N
    decreases edges.len(),
{
    if edges.len() == 0 {
        N::spec_zero()
    } else {
        let rest = external_total(edges.drop_last(), k);
        let e = edges.last();
        if e.to == EdgeEndpoint::External && e.resource@ == k {
            rest.spec_plus(e.rate)
        } else {
            rest
        }
    }
}

/// The outputs of a line with `edges`: for each resource that some edge
/// takes to the outside, the sum of the rates of those edges, in the order
/// of their first edges.
pub fn compute_outputs<N: Quantity>(edges: &Vec<ProductionEdge<N>>) -> (out: AssocMap<ResourceId, N>)
    ensures
        out.wf(),
        key_views(out@) == external_resources(edges@),
        forall|k: ResourceKey|
            has_key(out@, k) <==> exists|i: int|
                0 <= i < edges@.len() && (#[trigger] edges@[i]).to == EdgeEndpoint::External && edges@[i].resource@ == k,
        forall|k: ResourceKey| #[trigger] has_key(out@, k) ==> value_of(out@, k) == external_total(edges@, k),
{
    let mut out: AssocMap<ResourceId, N> = AssocMap::new();
    let n = edges.len();
    let mut i: usize = 0;
    while i < n
        invariant
            n == edges@.len(),
            i <= n,
            out.wf(),
            key_views(out@) == external_resources(edges@.take(i as int)),
            forall|k: ResourceKey|
                has_key(out@, k) <==> exists|j: int|
                    0 <= j < i && (#[trigger] edges@[j]).to == EdgeEndpoint::External && edges@[j].resource@ == k,
            forall|k: ResourceKey|
                #[trigger] has_key(out@, k) ==> value_of(out@, k) == external_total(edges@.take(i as int), k),
            forall|k: ResourceKey|
                !#[trigger] has_key(out@, k) ==> external_total(edges@.take(i as int), k) == N::spec_zero(),
        decreases n - i,
    {
        let edge = &edges[i];
        let ghost before = out@;
        proof {
            assert(edges@.take(i + 1).drop_last() =~= edges@.take(i as int));
            lemma_has_key_views(before, edge.resource@);
        }
        if edge.to == EdgeEndpoint::External {
            let current = match out.get(&edge.resource) {
                Some(v) => *v,
                None => N::zero(),
            };
            let total = current.plus(edge.rate);
            proof {
                lemma_stored_key_views(before, edge.resource, total);
            }
            out.insert(edge.resource.clone(), total);
        }
        proof {
            let t1 = edges@.take(i + 1);
            assert(t1.drop_last() =~= edges@.take(i as int));
            assert(t1.last() == edges@[i as int]);
            assert forall|k: ResourceKey| #[trigger] has_key(out@, k) implies value_of(out@, k) == external_total(t1, k) by {
                if !(edges@[i as int].to == EdgeEndpoint::External && edges@[i as int].resource@ == k) {
                    assert(has_key(before, k));
                }
            }
            assert forall|k: ResourceKey| !#[trigger] has_key(out@, k) implies external_total(t1, k) == N::spec_zero() by {
                if !(edges@[i as int].to == EdgeEndpoint::External && edges@[i as int].resource@ == k) {
                    assert(!has_key(before, k));
                }
            }
            assert forall|k: ResourceKey|
                has_key(out@, k) <==> exists|j: int|
                    0 <= j < i + 1 && (#[trigger] edges@[j]).to == EdgeEndpoint::External && edges@[j].resource@ == k by {
                if has_key(out@, k) && !(edges@[i as int].to == EdgeEndpoint::External && edges@[i as int].resource@ == k) {
                    assert(has_key(before, k));
                    let j = choose|j: int|
                        0 <= j < i && (#[trigger] edges@[j]).to == EdgeEndpoint::External && edges@[j].resource@ == k;
                    assert(0 <= j < i + 1);
                }
                if exists|j: int|
                    0 <= j < i + 1 && (#[trigger] edges@[j]).to == EdgeEndpoint::External && edges@[j].resource@ == k {
                    let j = choose|j: int|
                        0 <= j < i + 1 && (#[trigger] edges@[j]).to == EdgeEndpoint::External && edges@[j].resource@ == k;
                    if j < i {
                        assert(has_key(before, k));
                    }
                }
            }
        }
        i = i + 1;
    }
    proof {
        assert(edges@.take(n as int) =~= edges@);
    }
    out
}

/// One over a billion.
pub open spec fn epsilon<N: Quantity>() -> N {
    N::spec_one().spec_over(N::spec_from_u64(1_000_000_000))
}

/// The surplus met a demand of `rate` from some banked amount `a` in a way
/// that left a negligible rate to meet, though the smaller of `a` and `rate`
/// is not positive. (The arithmetic of numbers rules this out where `rate`
/// is above the negligible rate.)
pub open spec fn surplus_gap<N: Quantity>(rate: N) -> bool {
    exists|a: N|
        !(#[trigger] a.spec_lesser(rate)).spec_greater_than(N::spec_zero()) && rate.spec_minus(
            a.spec_lesser(rate),
        ).spec_at_most(epsilon::<N>())
}

/// A target of `rate` per second of `k` is delivered by the line: the
/// rate is negligible, or an edge takes `k` to the outside, or the surplus
/// left a gap that `surplus_gap` describes.
pub open spec fn target_delivered<N: Quantity>(line: &ProductionLine<N>, k: ResourceKey, rate: N) -> bool {
    ||| rate.spec_at_most(epsilon::<N>())
    ||| has_key(line.outputs@, k)
    ||| surplus_gap(rate)
}

/// What remains of a demand of `rate` of `k` once the surplus has given
/// its share: the rate less the smaller of what the surplus holds of `k`
/// and the rate, or the whole rate where the surplus holds none of `k`.
pub open spec fn left_after_surplus<N: Quantity>(surplus: Seq<(ResourceId, N)>, k: ResourceKey, rate: N) -> N {
    if has_key(surplus, k) {
        rate.spec_minus(value_of(surplus, k).spec_lesser(rate))
    } else {
        rate
    }
}

/// Demand below this rate is taken as met.
fn surplus_epsilon<N: Quantity>() -> (r: N)
    ensures
        r == epsilon::<N>(),
{
    N::one().over(N::from_u64(1_000_000_000))
}

impl<'a, N: Quantity> Planner<'a, N> {
    /// Meets a demand of `rate` of `resource` by `consumer`: from the surplus
    /// first, then from the outside if the resource is raw, and otherwise
    /// from the recipe that produces it.
    fn demand(
        &mut self,
        resource: ResourceId,
        rate: N,
        consumer: EdgeEndpoint,
        Ghost(roots): Ghost<Seq<ResourceKey>>,
    ) -> (r: Result<(), Error>)
        requires
            old(self).inv(),
            reached(old(self).db, old(self).config, roots, resource@),
            endpoint_below(consumer, old(self).nodes@.len()),
            endpoint_takes(old(self).db, old(self).nodes@, consumer, resource@),
            old(self).consumer_on_path(consumer),
            old(self).served(),
        ensures
            final(self).inv(),
            final(self).db == old(self).db,
            final(self).config == old(self).config,
            nodes_kept(old(self).nodes@, final(self).nodes@),
            r is Ok ==> final(self).visiting@ == old(self).visiting@,
            r is Ok ==> final(self).served(),
            r is Ok ==> final(self).demand_met(resource@, rate, consumer),
            Self::flows_grew(old(self), final(self)),
            Self::flows_framed(old(self), final(self), Some(consumer)),
            path_nodes_kept(old(self).nodes@, final(self).nodes@, old(self).visiting@),
            r is Ok && !raw_resource(old(self).db, old(self).config, resource@) && !rate.spec_at_most(epsilon::<N>())
                && !left_after_surplus(old(self).surplus@, resource@, rate).spec_at_most(epsilon::<N>()) ==> exists|id: NodeId|
                #[trigger] final(self).runs_added(old(self), id, resource@, left_after_surplus(old(self).surplus@, resource@, rate)),
            raw_resource(old(self).db, old(self).config, resource@) && old(self).surplus@.len() == 0 ==> {
                &&& r is Ok
                &&& final(self).nodes@ == old(self).nodes@
                &&& final(self).surplus@.len() == 0
                &&& rate.spec_at_most(epsilon::<N>()) || has_key(final(self).raw_inputs@, resource@)
                &&& forall|k: ResourceKey| #[trigger] has_key(old(self).raw_inputs@, k) ==> has_key(final(self).raw_inputs@, k)
                &&& !rate.spec_at_most(epsilon::<N>()) ==> value_of(final(self).raw_inputs@, resource@) == amount_or_zero(
                    old(self).raw_inputs@,
                    resource@,
                ).spec_plus(rate)
                &&& amounts_kept_but(old(self).raw_inputs@, final(self).raw_inputs@, resource@)
                &&& forall|k: ResourceKey|
                    k != resource@ ==> #[trigger] has_key(final(self).raw_inputs@, k) == has_key(old(self).raw_inputs@, k)
            },
            old(self).surplus@.len() == 0 && !rate.spec_at_most(epsilon::<N>()) && Self::ambiguous(old(self), resource@)
                ==> (r matches Err(Error::AmbiguousRecipe { resource: res, .. }) && res@ == resource@),
            old(self).surplus@.len() == 0 && !rate.spec_at_most(epsilon::<N>()) && !raw_resource(
                old(self).db,
                old(self).config,
                resource@,
            ) && r is Ok ==> exists|id: NodeId|
                #[trigger] final(self).runs_added(old(self), id, resource@, rate) && final(self).delivered(
                    old(self),
                    id,
                    consumer,
                    resource@,
                    rate,
                ) && final(self).fresh_run(old(self), id, consumer, resource@, rate),
            r matches Err(e) ==> error_ok(final(self).db, final(self).config, e) && error_reached(
                final(self).db,
                final(self).config,
                roots,
                e,
            ),
        decreases old(self).depth_left(), 2int,
    {
        proof {
            self.lemma_depth_left_nonneg();
        }
        if rate.at_most(surplus_epsilon()) {
            return Ok(());
        }
        let ghost start = *self;
        let (drawn, remaining) = self.draw_from_surplus(&resource, rate);
        proof {
            Self::lemma_served_frame(&start, self);
        }
        let ghost mut supplied = false;
        if let Some(from_surplus) = drawn {
            if from_surplus.greater_than(N::zero()) {
                let producer = *self.producer_for.get(&resource).unwrap();
                let ghost before = *self;
                self.add_flow(EdgeEndpoint::Node(producer), consumer, &resource, from_surplus);
                proof {
                    Self::lemma_raw_law_inner_flow(&before, self, (EdgeEndpoint::Node(producer), consumer, resource@));
                    Self::lemma_served_frame(&before, self);
                    supplied = true;
                }
            }
        }
        proof {
            assert(supplied ==> self.demand_met(resource@, rate, consumer));
        }
        if remaining.at_most(surplus_epsilon()) {
            proof {
                if !supplied {
                    if let Some(taken) = drawn {
                        let a = choose|a: N| taken == a.spec_lesser(rate) && remaining == rate.spec_minus(taken);
                        assert(!a.spec_lesser(rate).spec_greater_than(N::spec_zero()));
                        assert(surplus_gap(rate));
                    }
                }
            }
            return Ok(());
        }
        if self.is_raw(&resource) {
            let ghost before = *self;
            self.record_raw(&resource, remaining, consumer);
            proof {
                Self::lemma_served_frame(&before, self);
                assert(has_key(self.flows@, (EdgeEndpoint::External, consumer, resource@)));
            }
            return Ok(());
        }
        let ghost before = *self;
        let r = self.demand_from_recipe(resource, remaining, consumer, Ghost(roots));
        proof {
            if r is Ok {
                let i = choose|i: int|
                    0 <= i < self.nodes@.len() && recipe_chosen(self.db, self.config, resource@, self.nodes@[i].recipe@)
                        && #[trigger] self.supplies(i, consumer, resource@);
                let f = choose|f: (EdgeEndpoint, EdgeEndpoint, ResourceKey)|
                    #[trigger] has_key(self.flows@, f) && leaves_node(f.0, i) && f.1 == consumer && f.2 == resource@;
                assert(has_key(self.flows@, (f.0, consumer, resource@)));
                assert(remaining == left_after_surplus(start.surplus@, resource@, rate));
                let id0 = choose|id: NodeId|
                    #[trigger] self.runs_added(&before, id, resource@, remaining) && self.delivered(
                        &before,
                        id,
                        consumer,
                        resource@,
                        remaining,
                    );
                assert(before.nodes@ == start.nodes@);
                assert(self.runs_added(&start, id0, resource@, remaining));
                if start.surplus@.len() == 0 {
                    assert(drawn is None);
                    assert(remaining == rate);
                    let id = choose|id: NodeId|
                        #[trigger] self.runs_added(&before, id, resource@, rate) && self.delivered(
                            &before,
                            id,
                            consumer,
                            resource@,
                            rate,
                        ) && self.fresh_run(&before, id, consumer, resource@, rate);
                    assert(before.nodes@ == start.nodes@);
                    assert(before.flows@ == start.flows@);
                    assert(before.surplus@ == start.surplus@);
                    assert(self.runs_added(&start, id, resource@, rate));
                    assert(self.delivered(&start, id, consumer, resource@, rate));
                    assert(self.fresh_run(&start, id, consumer, resource@, rate));
                }
            }
        }
        r
    }

    /// Meets a demand of `rate` of `resource` by `consumer` by running the
    /// recipe picked for it, and demands the recipe's ingredients in turn.
    fn demand_from_recipe(
        &mut self,
        resource: ResourceId,
        rate: N,
        consumer: EdgeEndpoint,
        Ghost(roots): Ghost<Seq<ResourceKey>>,
    ) -> (r: Result<(), Error>)
        requires
            old(self).inv(),
            reached(old(self).db, old(self).config, roots, resource@),
            !raw_resource(old(self).db, old(self).config, resource@),
            endpoint_below(consumer, old(self).nodes@.len()),
            endpoint_takes(old(self).db, old(self).nodes@, consumer, resource@),
            old(self).consumer_on_path(consumer),
            old(self).served(),
        ensures
            final(self).inv(),
            final(self).db == old(self).db,
            final(self).config == old(self).config,
            nodes_kept(old(self).nodes@, final(self).nodes@),
            r is Ok ==> final(self).visiting@ == old(self).visiting@,
            r is Ok ==> final(self).served(),
            Self::flows_grew(old(self), final(self)),
            r is Ok ==> exists|i: int|
                0 <= i < final(self).nodes@.len() && recipe_chosen(
                    final(self).db,
                    final(self).config,
                    resource@,
                    final(self).nodes@[i].recipe@,
                ) && #[trigger] final(self).supplies(i, consumer, resource@),
            r is Ok ==> exists|id: NodeId|
                #[trigger] final(self).runs_added(old(self), id, resource@, rate) && final(self).delivered(
                    old(self),
                    id,
                    consumer,
                    resource@,
                    rate,
                ) && final(self).fresh_run(old(self), id, consumer, resource@, rate),
            Self::flows_framed(old(self), final(self), Some(consumer)),
            plannable(old(self).db, old(self).config, roots) ==> r is Ok,
            !Self::ambiguous(old(self), resource@) ==> recipe_checks(
                old(self).db,
                old(self).config,
                old(self).visiting@,
                resource@,
                r,
            ),
            Self::ambiguous(old(self), resource@) ==> (r matches Err(Error::AmbiguousRecipe { resource: res, .. })
                && res@ == resource@),
            path_nodes_kept(old(self).nodes@, final(self).nodes@, old(self).visiting@),
            r matches Err(e) ==> error_ok(final(self).db, final(self).config, e) && error_reached(
                final(self).db,
                final(self).config,
                roots,
                e,
            ),
        decreases old(self).depth_left(), 1int,
    {
        proof {
            self.lemma_depth_left_nonneg();
            if plannable(self.db, self.config, roots) {
                assert forall|e: Error| !(#[trigger] error_ok(self.db, self.config, e) && error_reached(self.db, self.config, roots, e)) by {
                    law_plannable_has_no_error(self.db, self.config, roots, e);
                }
            }
        }
        let recipe_id = match self.pick_recipe(&resource) {
            Ok(id) => id,
            Err(e) => {
                return Err(e);
            },
        };
        let db = self.db;
        let recipe = match db.recipe(&recipe_id) {
            Some(found) => found,
            None => {
                proof {
                    if !has_key(self.config.recipe_for@, resource@) {
                        assert(keys_where(db.recipes@, producing::<N>(resource@.1))[0] == recipe_id@);
                        lemma_keys_where_member(db.recipes@, producing::<N>(resource@.1), recipe_id@);
                    } else {
                        assert(has_key(self.config.recipe_for@, resource@) && value_of(self.config.recipe_for@, resource@)@
                            == recipe_id@);
                    }
                }
                return Err(Error::UnknownRecipe(recipe_id));
            },
        };
        proof {
            lemma_key_index(db.recipes@, key_index(db.recipes@, recipe_id@));
            assert(recipe.id@ == recipe_id@);
        }
        if !recipe.produces(resource.name()) {
            proof {
                if !has_key(self.config.recipe_for@, resource@) {
                    assert(keys_where(db.recipes@, producing::<N>(resource@.1))[0] == recipe_id@);
                    lemma_keys_where_member(db.recipes@, producing::<N>(resource@.1), recipe_id@);
                }
            }
            return Err(Error::RecipeDoesNotProduce(recipe_id, resource));
        }
        proof {
            assert(recipe_chosen(self.db, self.config, resource@, recipe.id@));
            if self.visiting@.len() > 0 {
                let last = self.visiting@.last().0@;
                assert(feeds(self.db, self.config, last, recipe_id@));
            }
        }
        if self.visiting.contains_key(&recipe_id) {
            proof {
                let vs = key_views(self.visiting@);
                let j = key_index(self.visiting@, recipe_id@);
                let chain = vs.subrange(j, vs.len() as int).push(recipe_id@);
                assert(vs[j] == recipe_id@);
                assert forall|t: int| 0 <= t < chain.len() - 1 implies #[trigger] chain_link(self.db, self.config, chain, t) by {
                    if t < vs.len() - j - 1 {
                        assert(chain_link(self.db, self.config, vs, j + t));
                        assert(chain[t] == vs[j + t] && chain[t + 1] == vs[j + t + 1]);
                    } else {
                        assert(chain[t] == vs.last() && chain[t + 1] == recipe_id@);
                        assert(vs.last() == self.visiting@.last().0@);
                    }
                }
                assert(recipe_chain(self.db, self.config, chain));
                let e = Error::Cycle(recipe_id);
                assert(error_ok(self.db, self.config, e));
            }
            return Err(Error::Cycle(recipe_id));
        }
        let ghost before_node = *self;
        let node_id = match self.ensure_node(recipe) {
            Ok(id) => id,
            Err(e) => {
                proof {
                    assert(recipe_chosen(self.db, self.config, resource@, recipe.id@));
                    assert(self.db.recipe_at(recipe.id@).category@ == recipe.category@);
                }
                return Err(e);
            },
        };
        let yield_per_run = recipe.expected_yield(resource.name());
        if yield_per_run.at_most(N::zero()) {
            proof {
                let e = Error::NoYield(recipe_id, resource);
                assert(error_ok(self.db, self.config, e));
            }
            return Err(Error::NoYield(recipe_id, resource));
        }
        let new_runs = rate.over(yield_per_run);
        let ghost after_node = *self;
        self.add_runs(node_id, recipe, new_runs);
        let ghost before_bank = *self;
        self.bank_coproducts(recipe, &resource, new_runs);
        let ghost before = *self;
        self.add_flow(EdgeEndpoint::Node(node_id), consumer, &resource, rate);
        proof {
            Self::lemma_raw_law_inner_flow(&before, self, (EdgeEndpoint::Node(node_id), consumer, resource@));
            assert forall|i: int| 0 <= i < self.nodes@.len() implies #[trigger] self.node_served(i) by {
                assert(self.node_ok(i));
                if i < before_node.nodes@.len() {
                    assert(before_node.node_served(i));
                    let f = choose|f: (EdgeEndpoint, EdgeEndpoint, ResourceKey)|
                        #[trigger] has_key(before_node.flows@, f) && leaves_node(f.0, i);
                    assert(has_key(self.flows@, f));
                } else {
                    assert(node_id@ == i);
                    assert(has_key(self.flows@, (EdgeEndpoint::Node(node_id), consumer, resource@)));
                    assert(leaves_node(EdgeEndpoint::Node(node_id), i));
                }
            }
            assert(leaves_node(EdgeEndpoint::Node(node_id), node_id@ as int));
            assert(self.supplies(node_id@ as int, consumer, resource@));
        }
        let ghost mid = *self;
        let r = self.recurse_ingredients(recipe, new_runs, node_id, Ghost(roots));
        proof {
            let i = node_id@ as int;
            assert(self.nodes@[i] == mid.nodes@[i]);
            assert(*recipe == self.db.recipe_at(self.nodes@[i].recipe@));
            assert(yield_per_run == yield_sum(recipe.products@, named::<N>(resource@.1)));
            if r is Ok {
                assert(self.runs_added(old(self), node_id, resource@, rate));
                if recipe.ingredients@.len() == 0 && i >= old(self).nodes@.len() {
                    assert(before_bank.surplus@ == old(self).surplus@);
                    assert(self.surplus@ == before.surplus@);
                    assert forall|j: int|
                        0 <= j < recipe.products@.len() implies value_of(self.producer_for@, (#[trigger] recipe.products@[j]).resource@)
                        == node_id by {
                        assert(self.producer_for@ == after_node.producer_for@);
                    }
                    assert forall|f: (EdgeEndpoint, EdgeEndpoint, ResourceKey)|
                        f != (EdgeEndpoint::Node(node_id), consumer, resource@) implies #[trigger] has_key(self.flows@, f)
                        == has_key(old(self).flows@, f) by {
                        assert(before.flows@ == old(self).flows@);
                    }
                }
                assert(self.fresh_run(old(self), node_id, consumer, resource@, rate));
            }
            assert forall|j: int|
                0 <= j < old(self).nodes@.len() && has_key(old(self).visiting@, (#[trigger] old(self).nodes@[j]).recipe@) implies self.nodes@[j]
                == old(self).nodes@[j] by {
                assert(mid.nodes@[j] == old(self).nodes@[j]);
            }
            let f = choose|f: (EdgeEndpoint, EdgeEndpoint, ResourceKey)|
                #[trigger] has_key(mid.flows@, f) && leaves_node(f.0, i) && f.1 == consumer && f.2 == resource@;
            assert(has_key(self.flows@, f));
            assert(self.supplies(i, consumer, resource@));
            assert(self.nodes@[i].recipe@ == recipe_id@);
        }
        r
    }

    /// Demands, for `new_runs` runs per second of `recipe` at the node
    /// `node_id`, each ingredient at its amount times the runs, with the
    /// recipe on the current path meanwhile.
    fn recurse_ingredients(
        &mut self,
        recipe: &Recipe<N>,
        new_runs: N,
        node_id: NodeId,
        Ghost(roots): Ghost<Seq<ResourceKey>>,
    ) -> (r: Result<(), Error>)
        requires
            old(self).inv(),
            exists|k: ResourceKey| #[trigger] reached(old(self).db, old(self).config, roots, k) && recipe_chosen(
                old(self).db,
                old(self).config,
                k,
                recipe.id@,
            ),
            node_id@ < old(self).nodes@.len(),
            old(self).db.has_recipe(recipe.id@),
            *recipe == old(self).db.recipe_at(recipe.id@),
            old(self).nodes@[node_id@ as int].recipe@ == recipe.id@,
            !has_key(old(self).visiting@, recipe.id@),
            old(self).visiting@.len() > 0 ==> feeds(old(self).db, old(self).config, old(self).visiting@.last().0@, recipe.id@),
            old(self).served(),
        ensures
            final(self).inv(),
            final(self).db == old(self).db,
            final(self).config == old(self).config,
            nodes_kept(old(self).nodes@, final(self).nodes@),
            r is Ok ==> final(self).visiting@ == old(self).visiting@,
            r is Ok ==> final(self).served(),
            Self::flows_grew(old(self), final(self)),
            path_nodes_kept(old(self).nodes@, final(self).nodes@, old(self).visiting@),
            Self::flows_framed(old(self), final(self), None),
            final(self).nodes@[node_id@ as int] == old(self).nodes@[node_id@ as int],
            recipe.ingredients@.len() == 0 ==> r is Ok && final(self).surplus@ == old(self).surplus@ && final(self).flows@
                == old(self).flows@ && final(self).producer_for@ == old(self).producer_for@,
            r is Ok ==> forall|j: int|
                0 <= j < recipe.ingredients@.len() ==> final(self).demand_met(
                    (#[trigger] recipe.ingredients@[j]).resource@,
                    recipe.ingredients@[j].amount.spec_times(new_runs),
                    EdgeEndpoint::Node(node_id),
                ),
            r matches Err(e) ==> error_ok(final(self).db, final(self).config, e) && error_reached(
                final(self).db,
                final(self).config,
                roots,
                e,
            ),
        decreases old(self).depth_left(), 0int,
    {
        let ghost start = *self;
        let ghost v0 = self.visiting@;
        self.visiting.insert(recipe.id.clone(), ());
        let ghost v1 = self.visiting@;
        proof {
            assert(v1 == v0.push(v1.last()));
            assert forall|k: Seq<char>| #[trigger] has_key(self.visiting@, k) implies self.db.has_recipe(k) by {
                if k != recipe.id@ {
                    assert(has_key(v0, k));
                }
            }
            let ks0 = key_views(v0);
            let ks1 = key_views(v1);
            assert(ks1 =~= ks0.push(recipe.id@));
            assert forall|t: int| 0 <= t < ks1.len() - 1 implies #[trigger] chain_link(self.db, self.config, ks1, t) by {
                if t < ks0.len() - 1 {
                    assert(chain_link(start.db, start.config, ks0, t));
                } else {
                    assert(ks1[t] == v0.last().0@);
                }
            }
            Self::lemma_nodes_frame(&start, self);
            Self::lemma_raw_law_frame(&start, self);
            Self::lemma_served_frame(&start, self);
            self.lemma_depth_left_nonneg();
        }
        let n = recipe.ingredients.len();
        let mut j: usize = 0;
        while j < n
            invariant
                n == recipe.ingredients@.len(),
                j <= n,
                self.inv(),
                self.served(),
                Self::flows_grew(&start, self),
                self.db == start.db,
                self.config == start.config,
                nodes_kept(start.nodes@, self.nodes@),
                node_id@ < start.nodes@.len(),
                start.nodes@[node_id@ as int].recipe@ == recipe.id@,
                *recipe == start.db.recipe_at(recipe.id@),
                self.visiting@ == v1,
                v1 == v0.push(v1.last()),
                v1.last().0@ == recipe.id@,
                self.depth_left() == start.depth_left() - 1,
                start.db == old(self).db,
                start.config == old(self).config,
                start.nodes@ == old(self).nodes@,
                start.flows@ == old(self).flows@,
                start.visiting@ == old(self).visiting@,
                start.depth_left() == old(self).depth_left(),
                start.nodes@ == old(self).nodes@,
                v0 == old(self).visiting@,
                path_nodes_kept(start.nodes@, self.nodes@, v0),
                Self::flows_framed(&start, self, None),
                n == 0 ==> self.surplus@ == start.surplus@ && self.flows@ == start.flows@ && self.producer_for@
                    == start.producer_for@,
                exists|k: ResourceKey| #[trigger] reached(start.db, start.config, roots, k) && recipe_chosen(
                    start.db,
                    start.config,
                    k,
                    recipe.id@,
                ),
                self.nodes@[node_id@ as int] == start.nodes@[node_id@ as int],
                forall|jj: int|
                    0 <= jj < j ==> self.demand_met(
                        (#[trigger] recipe.ingredients@[jj]).resource@,
                        recipe.ingredients@[jj].amount.spec_times(new_runs),
                        EdgeEndpoint::Node(node_id),
                    ),
            decreases n - j,
        {
            proof {
                self.lemma_depth_left_nonneg();
            }
            let ingredient = &recipe.ingredients[j];
            let rate = ingredient.amount.times(new_runs);
            proof {
                assert(self.nodes@[node_id@ as int].recipe@ == recipe.id@);
                assert(recipe.ingredients@[j as int].resource@ == ingredient.resource@);
                assert(self.visiting@.last().0@ == recipe.id@);
            }
            let ghost before = *self;
            proof {
                let k = choose|k: ResourceKey| #[trigger] reached(start.db, start.config, roots, k) && recipe_chosen(
                    start.db,
                    start.config,
                    k,
                    recipe.id@,
                );
                let path = choose|path: Seq<ResourceKey>| #[trigger] reach_path(start.db, start.config, roots, path) && path.last() == k;
                let ing = recipe.ingredients@[j as int].resource@;
                let p2 = path.push(ing);
                assert(start.db.recipe_at(recipe.id@).ingredients@[j as int].resource@ == ing);
                assert(takes_resource(start.db.recipe_at(recipe.id@).ingredients@, ing));
                assert(recipe_chosen(start.db, start.config, k, recipe.id@));
                assert(feeds_resource(start.db, start.config, k, ing));
                assert forall|t: int| 0 <= t < p2.len() - 1 implies #[trigger] feeds_resource(start.db, start.config, p2[t], p2[t + 1]) by {
                    if t < path.len() - 1 {
                        assert(p2[t] == path[t] && p2[t + 1] == path[t + 1]);
                    }
                }
                assert(reach_path(start.db, start.config, roots, p2));
            }
            let step = self.demand(ingredient.resource.clone(), rate, EdgeEndpoint::Node(node_id), Ghost(roots));
            proof {
                assert(v1[v1.len() - 1].0@ == recipe.id@);
                assert(has_key(v1, recipe.id@));
                assert(self.nodes@[node_id@ as int] == before.nodes@[node_id@ as int]);
                assert forall|f: (EdgeEndpoint, EdgeEndpoint, ResourceKey)|
                    Some(f.1) != None::<EdgeEndpoint> && into_path(f.1, start.nodes@, start.visiting@) implies (#[trigger] has_key(
                    self.flows@,
                    f,
                ) == has_key(start.flows@, f)) && (has_key(start.flows@, f) ==> value_of(self.flows@, f) == value_of(
                    start.flows@,
                    f,
                )) by {
                    if let EdgeEndpoint::Node(x) = f.1 {
                        let w = choose|w: int| 0 <= w < v0.len() && #[trigger] v0[w].0@ == start.nodes@[x@ as int].recipe@;
                        assert(v1[w] == v0[w]);
                        assert(before.nodes@[x@ as int].recipe@ == start.nodes@[x@ as int].recipe@);
                        assert(has_key(v1, before.nodes@[x@ as int].recipe@));
                        assert(f.1 != EdgeEndpoint::Node(node_id));
                    }
                    assert(Some(f.1) != Some(EdgeEndpoint::Node(node_id)));
                    assert(into_path(f.1, before.nodes@, before.visiting@));
                }
                assert forall|i: int|
                    0 <= i < start.nodes@.len() && has_key(v0, (#[trigger] start.nodes@[i]).recipe@) implies self.nodes@[i]
                    == start.nodes@[i] by {
                    let w = choose|w: int| 0 <= w < v0.len() && #[trigger] v0[w].0@ == start.nodes@[i].recipe@;
                    assert(v1[w] == v0[w]);
                    assert(has_key(v1, before.nodes@[i].recipe@));
                }
                if step is Ok {
                    assert forall|jj: int|
                        0 <= jj < j + 1 implies self.demand_met(
                            (#[trigger] recipe.ingredients@[jj]).resource@,
                            recipe.ingredients@[jj].amount.spec_times(new_runs),
                            EdgeEndpoint::Node(node_id),
                        ) by {
                        if jj < j {
                            Self::lemma_demand_met_grows(
                                &before,
                                self,
                                recipe.ingredients@[jj].resource@,
                                recipe.ingredients@[jj].amount.spec_times(new_runs),
                                EdgeEndpoint::Node(node_id),
                            );
                        }
                    }
                }
                assert forall|f: (EdgeEndpoint, EdgeEndpoint, ResourceKey)| #[trigger] has_key(start.flows@, f) implies has_key(
                    self.flows@,
                    f,
                ) by {
                    assert(has_key(before.flows@, f));
                }
            }
            if let Err(e) = step {
                return Err(e);
            }
            j = j + 1;
        }
        let ghost before = *self;
        self.visiting.remove(&recipe.id);
        proof {
            lemma_key_index(v1, v0.len() as int);
            assert(self.visiting@ =~= v0);
            Self::lemma_nodes_frame(&before, self);
            Self::lemma_raw_law_frame(&before, self);
            Self::lemma_served_frame(&before, self);
        }
        Ok(())
    }
}

impl<'a, N: Quantity> Planner<'a, N> {
    /// Sends what is left in the surplus, where more than a negligible rate
    /// is left, from the node that produces it to the outside.
    fn flush_surplus_to_external(&mut self)
        requires
            old(self).inv(),
            old(self).served(),
        ensures
            final(self).inv(),
            final(self).served(),
            final(self).db == old(self).db,
            final(self).config == old(self).config,
            final(self).nodes@ == old(self).nodes@,
            final(self).raw_inputs@ == old(self).raw_inputs@,
            final(self).surplus@.len() == 0,
            Self::flows_grew(old(self), final(self)),
            forall|k: ResourceKey|
                #[trigger] old(self).flushes(k) ==> has_key(final(self).flows@, old(self).flush_flow(k)) && value_of(
                    final(self).flows@,
                    old(self).flush_flow(k),
                ) == amount_or_zero(old(self).flows@, old(self).flush_flow(k)).spec_plus(value_of(old(self).surplus@, k)),
            forall|f: (EdgeEndpoint, EdgeEndpoint, ResourceKey)|
                !old(self).flushed(f) ==> (#[trigger] has_key(final(self).flows@, f) == has_key(old(self).flows@, f)) && (
                has_key(old(self).flows@, f) ==> value_of(final(self).flows@, f) == value_of(old(self).flows@, f)),
    {
        let ghost start = *self;
        let drained = self.surplus.take();
        proof {
            Self::lemma_nodes_frame(&start, self);
            Self::lemma_raw_law_frame(&start, self);
            Self::lemma_served_frame(&start, self);
            assert forall|j: int| 0 <= j < drained@.len() implies has_key(self.producer_for@, (#[trigger] drained@[j]).0@) by {
                lemma_key_index(drained@, j);
                assert(has_key(start.surplus@, drained@[j].0@));
            }
        }
        let eps = surplus_epsilon();
        let n = drained.len();
        let mut i: usize = 0;
        while i < n
            invariant
                n == drained@.len(),
                i <= n,
                self.inv(),
                self.served(),
                self.db == start.db,
                self.config == start.config,
                self.nodes@ == start.nodes@,
                self.surplus@.len() == 0,
                self.raw_inputs@ == start.raw_inputs@,
                Self::flows_grew(old(self), self),
                forall|j: int| 0 <= j < drained@.len() ==> has_key(self.producer_for@, (#[trigger] drained@[j]).0@),
                drained@ == start.surplus@,
                start.surplus.wf(),
                self.producer_for@ == start.producer_for@,
                start == *old(self),
                eps == epsilon::<N>(),
                forall|j: int|
                    0 <= j < i && start.flushes((#[trigger] drained@[j]).0@) ==> has_key(
                        self.flows@,
                        start.flush_flow(drained@[j].0@),
                    ) && value_of(self.flows@, start.flush_flow(drained@[j].0@)) == amount_or_zero(
                        start.flows@,
                        start.flush_flow(drained@[j].0@),
                    ).spec_plus(drained@[j].1),
                forall|f: (EdgeEndpoint, EdgeEndpoint, ResourceKey)|
                    (forall|j: int| 0 <= j < i && start.flushes((#[trigger] drained@[j]).0@) ==> f != start.flush_flow(drained@[j].0@))
                        ==> (#[trigger] has_key(self.flows@, f) == has_key(start.flows@, f)) && (has_key(start.flows@, f)
                        ==> value_of(self.flows@, f) == value_of(start.flows@, f)),
            decreases n - i,
        {
            let entry = &drained[i];
            proof {
                lemma_key_index(drained@, i as int);
            }
            let ghost mid = *self;
            if entry.1.greater_than(eps) {
                proof {
                    assert(has_key(self.producer_for@, drained@[i as int].0@));
                }
                let producer = *self.producer_for.get(&entry.0).unwrap();
                let ghost before = *self;
                self.add_flow(EdgeEndpoint::Node(producer), EdgeEndpoint::External, &entry.0, entry.1);
                proof {
                    Self::lemma_raw_law_inner_flow(
                        &before,
                        self,
                        (EdgeEndpoint::Node(producer), EdgeEndpoint::External, entry.0@),
                    );
                    Self::lemma_served_frame(&before, self);
                    let fi = start.flush_flow(drained@[i as int].0@);
                    assert(fi == (EdgeEndpoint::Node(producer), EdgeEndpoint::External, entry.0@));
                    assert forall|j: int|
                        0 <= j < i && start.flushes((#[trigger] drained@[j]).0@) implies start.flush_flow(drained@[j].0@)
                        != fi by {
                        assert(drained@[j].0@ != drained@[i as int].0@);
                    }
                    assert(has_key(mid.flows@, fi) == has_key(start.flows@, fi));
                }
            }
            proof {
                assert forall|j: int|
                    0 <= j < i + 1 && start.flushes((#[trigger] drained@[j]).0@) implies has_key(
                    self.flows@,
                    start.flush_flow(drained@[j].0@),
                ) && value_of(self.flows@, start.flush_flow(drained@[j].0@)) == amount_or_zero(
                    start.flows@,
                    start.flush_flow(drained@[j].0@),
                ).spec_plus(drained@[j].1) by {
                    lemma_key_index(drained@, j);
                    if j < i {
                        assert(drained@[j].0@ != drained@[i as int].0@);
                        assert(has_key(mid.flows@, start.flush_flow(drained@[j].0@)));
                    }
                }
                assert forall|f: (EdgeEndpoint, EdgeEndpoint, ResourceKey)|
                    (forall|j: int| 0 <= j < i + 1 && start.flushes((#[trigger] drained@[j]).0@) ==> f != start.flush_flow(drained@[j].0@))
                    implies (#[trigger] has_key(self.flows@, f) == has_key(start.flows@, f)) && (has_key(start.flows@, f)
                    ==> value_of(self.flows@, f) == value_of(start.flows@, f)) by {
                    assert forall|j: int| 0 <= j < i && start.flushes((#[trigger] drained@[j]).0@) implies f != start.flush_flow(
                        drained@[j].0@,
                    ) by {
                        assert(0 <= j < i + 1);
                    }
                    if start.flushes(drained@[i as int].0@) {
                        assert(f != start.flush_flow(drained@[i as int].0@));
                    }
                }
            }
            i = i + 1;
        }
        proof {
            assert forall|k: ResourceKey| #[trigger] start.flushes(k) implies has_key(self.flows@, start.flush_flow(k))
                && value_of(self.flows@, start.flush_flow(k)) == amount_or_zero(start.flows@, start.flush_flow(k)).spec_plus(
                value_of(start.surplus@, k),
            ) by {
                let j = key_index(drained@, k);
                lemma_key_index(drained@, j);
                assert(drained@[j].0@ == k);
            }
            assert forall|f: (EdgeEndpoint, EdgeEndpoint, ResourceKey)| !start.flushed(f) implies (#[trigger] has_key(
                self.flows@,
                f,
            ) == has_key(start.flows@, f)) && (has_key(start.flows@, f) ==> value_of(self.flows@, f) == value_of(
                start.flows@,
                f,
            )) by {
                assert forall|j: int| 0 <= j < n && start.flushes((#[trigger] drained@[j]).0@) implies f != start.flush_flow(
                    drained@[j].0@,
                ) by {
                    lemma_key_index(drained@, j);
                }
            }
        }
    }

    /// Demands `rate` per second of `resource` for the outside.
    fn add_target(&mut self, resource: ResourceId, rate: N, Ghost(roots): Ghost<Seq<ResourceKey>>) -> (r: Result<(), Error>)
        requires
            old(self).inv(),
            roots.contains(resource@),
            old(self).visiting@.len() == 0,
            old(self).served(),
        ensures
            final(self).inv(),
            final(self).db == old(self).db,
            final(self).config == old(self).config,
            r is Ok ==> final(self).visiting@ == old(self).visiting@,
            r is Ok ==> final(self).served(),
            r is Ok ==> final(self).demand_met(resource@, rate, EdgeEndpoint::External),
            nodes_kept(old(self).nodes@, final(self).nodes@),
            Self::flows_grew(old(self), final(self)),
            raw_resource(old(self).db, old(self).config, resource@) && old(self).surplus@.len() == 0 ==> {
                &&& r is Ok
                &&& final(self).nodes@ == old(self).nodes@
                &&& final(self).surplus@.len() == 0
                &&& rate.spec_at_most(epsilon::<N>()) || has_key(final(self).raw_inputs@, resource@)
                &&& forall|k: ResourceKey| #[trigger] has_key(old(self).raw_inputs@, k) ==> has_key(final(self).raw_inputs@, k)
                &&& !rate.spec_at_most(epsilon::<N>()) ==> value_of(final(self).raw_inputs@, resource@) == amount_or_zero(
                    old(self).raw_inputs@,
                    resource@,
                ).spec_plus(rate)
                &&& amounts_kept_but(old(self).raw_inputs@, final(self).raw_inputs@, resource@)
                &&& forall|k: ResourceKey|
                    k != resource@ ==> #[trigger] has_key(final(self).raw_inputs@, k) == has_key(old(self).raw_inputs@, k)
            },
            old(self).surplus@.len() == 0 && !rate.spec_at_most(epsilon::<N>()) && Self::ambiguous(old(self), resource@)
                ==> (r matches Err(Error::AmbiguousRecipe { resource: res, .. }) && res@ == resource@),
            r is Ok && !raw_resource(old(self).db, old(self).config, resource@) && !rate.spec_at_most(epsilon::<N>())
                && !left_after_surplus(old(self).surplus@, resource@, rate).spec_at_most(epsilon::<N>()) ==> exists|id: NodeId|
                #[trigger] final(self).runs_added(old(self), id, resource@, left_after_surplus(old(self).surplus@, resource@, rate)),
            old(self).surplus@.len() == 0 && !rate.spec_at_most(epsilon::<N>()) && !raw_resource(
                old(self).db,
                old(self).config,
                resource@,
            ) && r is Ok ==> exists|id: NodeId|
                #[trigger] final(self).runs_added(old(self), id, resource@, rate) && final(self).delivered(
                    old(self),
                    id,
                    EdgeEndpoint::External,
                    resource@,
                    rate,
                ) && final(self).fresh_run(old(self), id, EdgeEndpoint::External, resource@, rate),
            r matches Err(e) ==> error_ok(final(self).db, final(self).config, e) && error_reached(
                final(self).db,
                final(self).config,
                roots,
                e,
            ),
    {
        proof {
            let path = seq![resource@];
            assert(reach_path(self.db, self.config, roots, path));
        }
        self.demand(resource, rate, EdgeEndpoint::External, Ghost(roots))
    }

    /// The production line planned so far, with the surplus sent out.
    fn finish(self) -> (line: ProductionLine<N>)
        requires
            self.inv(),
            self.served(),
        ensures
            plan_ok(&line, self.db, self.config),
            line.nodes@ == self.nodes@,
            line.raw_inputs@ == self.raw_inputs@,
            forall|f: (EdgeEndpoint, EdgeEndpoint, ResourceKey)|
                #[trigger] has_key(self.flows@, f) ==> exists|j: int|
                    0 <= j < line.edges@.len() && (#[trigger] line.edges@[j]).from == f.0 && line.edges@[j].to == f.1
                        && line.edges@[j].resource@ == f.2,
            forall|f: (EdgeEndpoint, EdgeEndpoint, ResourceKey)|
                #[trigger] has_key(self.flows@, f) && f.1 == EdgeEndpoint::External ==> has_key(line.outputs@, f.2),
            forall|f: (EdgeEndpoint, EdgeEndpoint, ResourceKey)|
                #[trigger] has_key(self.flows@, f) && !self.flushed(f) ==> exists|j: int|
                    0 <= j < line.edges@.len() && (#[trigger] line.edges@[j]).from == f.0 && line.edges@[j].to == f.1
                        && line.edges@[j].resource@ == f.2 && line.edges@[j].rate == value_of(self.flows@, f),
            forall|k: ResourceKey|
                #[trigger] self.flushes(k) ==> has_key(line.outputs@, k) && exists|j: int|
                    0 <= j < line.edges@.len() && (#[trigger] line.edges@[j]).from == self.flush_flow(k).0
                        && line.edges@[j].to == EdgeEndpoint::External && line.edges@[j].resource@ == k
                        && line.edges@[j].rate == amount_or_zero(self.flows@, self.flush_flow(k)).spec_plus(
                        value_of(self.surplus@, k),
                    ),
            forall|j: int|
                0 <= j < line.edges@.len() ==> has_key(
                    self.flows@,
                    ((#[trigger] line.edges@[j]).from, line.edges@[j].to, line.edges@[j].resource@),
                ) || self.flushed((line.edges@[j].from, line.edges@[j].to, line.edges@[j].resource@)),
            raw_inputs_from_takings(&line, self.raw_log@),
    {
        let ghost start = self;
        let mut planner = self;
        planner.flush_surplus_to_external();
        let entries = planner.flows.entries();
        let n = entries.len();
        let mut edges: Vec<ProductionEdge<N>> = Vec::new();
        let mut i: usize = 0;
        while i < n
            invariant
                n == entries@.len(),
                i <= n,
                edges@.len() == i,
                forall|j: int|
                    0 <= j < i ==> (#[trigger] edges@[j]).from == entries@[j].0.from && edges@[j].to
                        == entries@[j].0.to && edges@[j].resource@ == entries@[j].0.resource@ && edges@[j].rate
                        == entries@[j].1,
            decreases n - i,
        {
            let entry = &entries[i];
            edges.push(
                ProductionEdge { from: entry.0.from, to: entry.0.to, resource: entry.0.resource.clone(), rate: entry.1 },
            );
            i = i + 1;
        }
        let outputs = compute_outputs(&edges);
        let ghost p = planner;
        proof {
            let f = p.flows@;
            assert forall|j: int|
                0 <= j < edges@.len() implies endpoint_below((#[trigger] edges@[j]).from, p.nodes@.len()) && endpoint_below(
                edges@[j].to,
                p.nodes@.len(),
            ) by {
                lemma_key_index(f, j);
            }
            assert forall|k: ResourceKey|
                has_key(p.raw_inputs@, k) <==> exists|i: int|
                    0 <= i < edges@.len() && (#[trigger] edges@[i]).from == EdgeEndpoint::External && edges@[i].resource@ == k by {
                if has_key(p.raw_inputs@, k) {
                    let to = choose|to: EdgeEndpoint| #[trigger] has_key(p.flows@, (EdgeEndpoint::External, to, k));
                    let i = key_index(f, (EdgeEndpoint::External, to, k));
                    assert(edges@[i].from == EdgeEndpoint::External && edges@[i].resource@ == k);
                }
                if exists|i: int|
                    0 <= i < edges@.len() && (#[trigger] edges@[i]).from == EdgeEndpoint::External && edges@[i].resource@ == k {
                    let i = choose|i: int|
                        0 <= i < edges@.len() && (#[trigger] edges@[i]).from == EdgeEndpoint::External && edges@[i].resource@ == k;
                    lemma_key_index(f, i);
                    assert(has_key(p.flows@, (EdgeEndpoint::External, f[i].0.to, k)));
                }
            }
            assert forall|i: int, j: int|
                0 <= i < edges@.len() && 0 <= j < edges@.len() && i != j implies ((#[trigger] edges@[i]).from, edges@[i].to, edges@[i].resource@)
                != ((#[trigger] edges@[j]).from, edges@[j].to, edges@[j].resource@) by {
                assert(f[i].0@ != f[j].0@);
            }
            assert forall|i: int| 0 <= i < p.nodes@.len() implies {
                let node = #[trigger] p.nodes@[i];
                &&& p.db.has_recipe(node.recipe@)
                &&& p.db.has_machine(node.machine@)
                &&& machine_choice_ok(p.db, p.config, p.db.recipe_at(node.recipe@).category@, node.machine@)
                &&& exists|r: ResourceKey| #[trigger] recipe_chosen(p.db, p.config, r, node.recipe@)
                &&& machines_counted(p.db, node)
            } by {
                assert(p.node_ok(i));
            }
            assert forall|i: int| 0 <= i < p.nodes@.len() implies (#[trigger] p.nodes@[i]).id@ == i by {
                assert(p.node_ok(i));
            }
            assert forall|i: int| 0 <= i < p.nodes@.len() implies #[trigger] has_exit(edges@, i) by {
                assert(p.node_served(i));
                let fk = choose|fk: (EdgeEndpoint, EdgeEndpoint, ResourceKey)| #[trigger] has_key(p.flows@, fk) && leaves_node(fk.0, i);
                let j = key_index(f, fk);
                assert(edges@[j].from == f[j].0.from);
                assert(leaves_node(edges@[j].from, i));
            }
            assert forall|i: int| 0 <= i < edges@.len() implies endpoint_makes(
                p.db,
                p.nodes@,
                (#[trigger] edges@[i]).from,
                edges@[i].resource@,
            ) && endpoint_takes(p.db, p.nodes@, edges@[i].to, edges@[i].resource@) by {
                lemma_key_index(f, i);
                assert(has_key(p.flows@, f[i].0@));
                assert(p.flow_ok(f[i].0@));
            }
            assert forall|fk: (EdgeEndpoint, EdgeEndpoint, ResourceKey)| #[trigger] has_key(start.flows@, fk) implies exists|j: int|
                0 <= j < edges@.len() && (#[trigger] edges@[j]).from == fk.0 && edges@[j].to == fk.1 && edges@[j].resource@ == fk.2 by {
                assert(has_key(p.flows@, fk));
                let j = key_index(f, fk);
                assert(f[j].0@ == fk);
                assert(edges@[j].from == fk.0 && edges@[j].to == fk.1 && edges@[j].resource@ == fk.2);
            }
            assert forall|fk: (EdgeEndpoint, EdgeEndpoint, ResourceKey)|
                #[trigger] has_key(start.flows@, fk) && !start.flushed(fk) implies exists|j: int|
                0 <= j < edges@.len() && (#[trigger] edges@[j]).from == fk.0 && edges@[j].to == fk.1 && edges@[j].resource@
                    == fk.2 && edges@[j].rate == value_of(start.flows@, fk) by {
                assert(has_key(p.flows@, fk));
                assert(value_of(p.flows@, fk) == value_of(start.flows@, fk));
                let j = key_index(f, fk);
                lemma_key_index(f, j);
                assert(f[j].0@ == fk);
                assert(edges@[j].rate == f[j].1);
            }
            assert forall|k: ResourceKey| #[trigger] start.flushes(k) implies has_key(outputs@, k) && exists|j: int|
                0 <= j < edges@.len() && (#[trigger] edges@[j]).from == start.flush_flow(k).0 && edges@[j].to
                    == EdgeEndpoint::External && edges@[j].resource@ == k && edges@[j].rate == amount_or_zero(
                    start.flows@,
                    start.flush_flow(k),
                ).spec_plus(value_of(start.surplus@, k)) by {
                let fk = start.flush_flow(k);
                assert(has_key(p.flows@, fk));
                let j = key_index(f, fk);
                lemma_key_index(f, j);
                assert(f[j].0@ == fk);
                assert(edges@[j].to == EdgeEndpoint::External && edges@[j].resource@ == k);
            }
            assert forall|j: int| 0 <= j < edges@.len() implies has_key(
                start.flows@,
                ((#[trigger] edges@[j]).from, edges@[j].to, edges@[j].resource@),
            ) || start.flushed((edges@[j].from, edges@[j].to, edges@[j].resource@)) by {
                lemma_key_index(f, j);
                let fk = (edges@[j].from, edges@[j].to, edges@[j].resource@);
                assert(f[j].0@ == fk);
                assert(has_key(p.flows@, fk));
            }
            assert forall|e: int| 0 <= e < edges@.len() && (#[trigger] edges@[e]).from == EdgeEndpoint::External implies edges@[e].rate
                == log_sum(start.raw_log@, of_flow(edges@[e].to, edges@[e].resource@)) by {
                lemma_key_index(f, e);
                let fk = (edges@[e].from, edges@[e].to, edges@[e].resource@);
                assert(f[e].0@ == fk);
                assert(has_key(p.flows@, fk));
                assert(!start.flushed(fk));
                assert(has_key(start.flows@, fk));
                assert(value_of(p.flows@, fk) == f[e].1);
                assert(has_key(start.flows@, (EdgeEndpoint::External, fk.1, fk.2)));
            }
            assert forall|fk: (EdgeEndpoint, EdgeEndpoint, ResourceKey)|
                #[trigger] has_key(start.flows@, fk) && fk.1 == EdgeEndpoint::External implies has_key(outputs@, fk.2) by {
                assert(has_key(p.flows@, fk));
                let j = key_index(f, fk);
                assert(f[j].0@ == fk);
                assert(edges@[j].to == EdgeEndpoint::External && edges@[j].resource@ == fk.2);
            }
        }
        ProductionLine { nodes: planner.nodes, edges, raw_inputs: planner.raw_inputs, outputs }
    }
}

/// The resource `k` is not raw, has no recipe configured for it, and two
/// or more recipes of the database produce something of its name.
pub open spec fn ambiguous_resource<N: Quantity>(db: &Database<N>, config: &PlanConfig, k: ResourceKey) -> bool {
    &&& !raw_resource(db, config, k)
    &&& !has_key(config.recipe_for@, k)
    &&& keys_where(db.recipes@, producing::<N>(k.1)).len() >= 2
}

/// The first target of the request is wanted at more than the negligible
/// rate, and no recipe can be picked for it: it is ambiguous.
pub open spec fn first_target_ambiguous<N: Quantity>(db: &Database<N>, request: &PlanRequest<N>) -> bool {
    &&& request.targets@.len() > 0
    &&& !request.targets@[0].1.spec_at_most(epsilon::<N>())
    &&& ambiguous_resource(db, &request.config, request.targets@[0].0@)
}

/// The edge at position `e` takes `k` from the node at position `i` to the
/// outside at `rate` (added to none), or at that plus a surplus of `k`
/// above the negligible rate that was left over and sent out the same way.
pub open spec fn output_edge_ok<N: Quantity>(line: &ProductionLine<N>, i: int, k: ResourceKey, rate: N, e: int) -> bool {
    &&& 0 <= e < line.edges@.len()
    &&& line.edges@[e].from == EdgeEndpoint::Node(line.nodes@[i].id)
    &&& line.edges@[e].to == EdgeEndpoint::External
    &&& line.edges@[e].resource@ == k
    &&& {
        ||| line.edges@[e].rate == N::spec_zero().spec_plus(rate)
        ||| exists|a: N|
            a.spec_greater_than(epsilon::<N>()) && line.edges@[e].rate == #[trigger] N::spec_zero().spec_plus(rate).spec_plus(a)
    }
}

/// Each product of `products` listed once there, other than `k`, whose
/// average yield times `runs` is positive and, added to none, above the
/// negligible rate, leaves the node at position `i` for the outside at that
/// amount (added to none, as it is banked and then sent out).
pub open spec fn coproducts_sent_out<N: Quantity>(
    line: &ProductionLine<N>,
    i: int,
    products: Seq<Product<N>>,
    k: ResourceKey,
    runs: N,
) -> bool {
    forall|j: int|
        0 <= j < products.len() && (#[trigger] products[j]).resource@ != k && listed_once(products, j) && product_yield(
            products[j],
        ).spec_times(runs).spec_greater_than(N::spec_zero()) && N::spec_zero().spec_plus(
            product_yield(products[j]).spec_times(runs),
        ).spec_greater_than(epsilon::<N>()) ==> exists|e: int|
            0 <= e < line.edges@.len() && (#[trigger] line.edges@[e]).from == EdgeEndpoint::Node(line.nodes@[i].id)
                && line.edges@[e].to == EdgeEndpoint::External && line.edges@[e].resource@ == products[j].resource@
                && line.edges@[e].rate == N::spec_zero().spec_plus(
                N::spec_zero().spec_plus(product_yield(products[j]).spec_times(runs)),
            )
}

/// The line runs the recipe chosen for `k` on a node whose runs per second
/// are `rate` over the recipe's yield of `k` (added to none), an edge takes
/// `k` from that node to the outside as `output_edge_ok` says, and each
/// ingredient of that recipe is brought to the node by an edge, or is
/// wanted at its amount times those runs at no more than the negligible
/// rate, or the surplus left a gap that `surplus_gap` describes.
pub open spec fn runs_for_target<N: Quantity>(
    line: &ProductionLine<N>,
    db: &Database<N>,
    config: &PlanConfig,
    k: ResourceKey,
    rate: N,
) -> bool {
    exists|i: int|
        0 <= i < line.nodes@.len() && recipe_chosen(db, config, k, (#[trigger] line.nodes@[i]).recipe@) && {
            let recipe = db.recipe_at(line.nodes@[i].recipe@);
            let runs = rate.spec_over(yield_sum(recipe.products@, named::<N>(k.1)));
            &&& line.nodes@[i].runs_per_second == N::spec_zero().spec_plus(runs)
            &&& exists|e: int| #[trigger] output_edge_ok(line, i, k, rate, e)
            &&& recipe.ingredients@.len() == 0 ==> coproducts_sent_out(line, i, recipe.products@, k, runs)
            &&& forall|j: int|
                0 <= j < recipe.ingredients@.len() ==> {
                    let want = (#[trigger] recipe.ingredients@[j]).amount.spec_times(runs);
                    ||| want.spec_at_most(epsilon::<N>())
                    ||| surplus_gap(want)
                    ||| exists|e: int|
                        0 <= e < line.edges@.len() && (#[trigger] line.edges@[e]).to == EdgeEndpoint::Node(
                            line.nodes@[i].id,
                        ) && line.edges@[e].resource@ == recipe.ingredients@[j].resource@
                }
        }
}

/// The runs per second that `rate` of `k` adds to the recipe `rid`: the
/// rate over the recipe's average yield of `k`.
pub open spec fn runs_for<N: Quantity>(db: &Database<N>, rid: Seq<char>, k: ResourceKey, rate: N) -> N {
    rate.spec_over(yield_sum(db.recipe_at(rid).products@, named::<N>(k.1)))
}

/// What remains of a second target of `r2` of `k2` once the surplus that
/// the runs for a first target of `r1` of `k1` left of `k2` has given its
/// share: the rate less the smaller of that surplus and the rate, where the
/// runs left a positive amount of `k2`, and the whole rate otherwise.
pub open spec fn second_left<N: Quantity>(
    db: &Database<N>,
    rid: Seq<char>,
    k1: ResourceKey,
    r1: N,
    k2: ResourceKey,
    r2: N,
) -> N {
    let products = db.recipe_at(rid).products@;
    let j = choose|j: int| 0 <= j < products.len() && products[j].resource@ == k2;
    let produced = product_yield(products[j]).spec_times(runs_for(db, rid, k1, r1));
    if produced.spec_greater_than(N::spec_zero()) {
        r2.spec_minus(N::spec_zero().spec_plus(produced).spec_lesser(r2))
    } else {
        r2
    }
}

/// The request wants two different resources, neither raw nor at a
/// negligible rate, both made by one recipe that takes no ingredients and
/// lists the second once among its products; no recipe produces another's
/// first product; and the second is not met by the surplus alone.
pub open spec fn two_targets_one_recipe<N: Quantity>(db: &Database<N>, request: &PlanRequest<N>) -> bool {
    let t = request.targets@;
    let config = &request.config;
    &&& t.len() == 2
    &&& t[0].0@ != t[1].0@
    &&& first_products_unshared(db)
    &&& !t[0].1.spec_at_most(epsilon::<N>()) && !t[1].1.spec_at_most(epsilon::<N>())
    &&& !raw_resource(db, config, t[0].0@) && !raw_resource(db, config, t[1].0@)
    &&& recipe_chosen(db, config, t[0].0@, chosen_id(db, config, t[0].0@))
    &&& recipe_chosen(db, config, t[1].0@, chosen_id(db, config, t[0].0@))
    &&& db.recipe_at(chosen_id(db, config, t[0].0@)).ingredients@.len() == 0
    &&& exists|j: int|
        0 <= j < db.recipe_at(chosen_id(db, config, t[0].0@)).products@.len() && (#[trigger] db.recipe_at(
            chosen_id(db, config, t[0].0@),
        ).products@[j]).resource@ == t[1].0@ && listed_once(db.recipe_at(chosen_id(db, config, t[0].0@)).products@, j)
    &&& !second_left(db, chosen_id(db, config, t[0].0@), t[0].0@, t[0].1, t[1].0@, t[1].1).spec_at_most(epsilon::<N>())
}

/// The one node of the recipe serving both targets of `request` runs the
/// runs for the first target, then the runs for what remains of the second
/// once the surplus that the first left has given its share.
pub open spec fn two_targets_runs<N: Quantity>(line: &ProductionLine<N>, db: &Database<N>, request: &PlanRequest<N>) -> bool {
    let t = request.targets@;
    let rid = chosen_id(db, &request.config, t[0].0@);
    exists|i: int|
        0 <= i < line.nodes@.len() && (#[trigger] line.nodes@[i]).recipe@ == rid && line.nodes@[i].runs_per_second
            == N::spec_zero().spec_plus(runs_for(db, rid, t[0].0@, t[0].1)).spec_plus(
            runs_for(db, rid, t[1].0@, second_left(db, rid, t[0].0@, t[0].1, t[1].0@, t[1].1)),
        )
}

/// The recipe chosen for `k` is the one `chosen_id` names.
pub proof fn law_chosen_id<N: Quantity>(db: &Database<N>, config: &PlanConfig, k: ResourceKey, rid: Seq<char>)
    requires
        recipe_chosen(db, config, k, rid),
    ensures
        chosen_id(db, config, k) == rid,
{
    if !has_key(config.recipe_for@, k) {
        assert(seq![rid][0] == rid);
    }
}

/// The recipe picked for `k`: the configured one, or else the first recipe
/// of the database that produces something of its name.
pub open spec fn chosen_id<N: Quantity>(db: &Database<N>, config: &PlanConfig, k: ResourceKey) -> Seq<char> {
    if has_key(config.recipe_for@, k) {
        value_of(config.recipe_for@, k)@
    } else {
        keys_where(db.recipes@, producing::<N>(k.1))[0]
    }
}

/// The outcome `r` of meeting a demand for `k`, where `k` is not ambiguous,
/// follows the checks on the recipe picked for it, in order: a recipe not
/// in the database gives `UnknownRecipe`, then one that does not produce
/// `k` gives `RecipeDoesNotProduce`, then one already on the path `visiting`
/// gives `Cycle`.
pub open spec fn recipe_checks<N: Quantity>(
    db: &Database<N>,
    config: &PlanConfig,
    visiting: Seq<(RecipeId, ())>,
    k: ResourceKey,
    r: Result<(), Error>,
) -> bool {
    let rid = chosen_id(db, config, k);
    &&& !db.has_recipe(rid) ==> (r matches Err(Error::UnknownRecipe(x)) && x@ == rid)
    &&& db.has_recipe(rid) && !produces_name(db.recipe_at(rid).products@, k.1) ==> (r matches Err(
        Error::RecipeDoesNotProduce(x, res),
    ) && x@ == rid && res@ == k)
    &&& db.has_recipe(rid) && produces_name(db.recipe_at(rid).products@, k.1) && has_key(visiting, rid) ==> (r matches Err(
        Error::Cycle(x),
    ) && x@ == rid)
}

/// Every target of the request is a raw resource.
pub open spec fn targets_raw<N: Quantity>(db: &Database<N>, request: &PlanRequest<N>) -> bool {
    forall|t: int| 0 <= t < request.targets@.len() ==> raw_resource(db, &request.config, (#[trigger] request.targets@[t]).0@)
}

/// Plans a production line for the rates (per second) that `request` wants
/// of its targets, taken in the order of the request.
/// The line is one that `plan_ok` describes, and it takes every target to
/// the outside as `target_delivered` says; an error is one that `error_ok`
/// explains and names what planning reaches (`error_reached`), and where
/// everything reached can be planned (`plannable`) there is no error.
/// Where every target is raw, planning succeeds with no node, and every
/// target above the negligible rate is a raw input at its rate; where the
/// first target is ambiguous, planning fails with `AmbiguousRecipe` for it;
/// and where a single target is wanted above the negligible rate and is not
/// raw, the line runs its chosen recipe at that rate over the recipe's
/// yield of it and sends the target out at that rate, and each coproduct of
/// a recipe without ingredients out at its yield times those runs, as
/// `runs_for_target` says. Where no recipe produces another's first product,
/// no two nodes run the same recipe; and where two targets are made by one
/// recipe without ingredients, its one node runs the runs for the first plus
/// the runs for what remains of the second once the first's surplus has
/// given its share (`two_targets_runs`).
pub fn plan<N: Quantity>(db: &Database<N>, request: &PlanRequest<N>) -> (r: Result<ProductionLine<N>, Error>)
    requires
        db.wf(),
        request.wf(),
    ensures
        match r {
            Ok(line) => {
                &&& plan_ok(&line, db, &request.config)
                &&& exists|log: Seq<Taking<N>>| #[trigger] raw_inputs_from_takings(&line, log)
                &&& first_products_unshared(db) ==> recipes_distinct(line.nodes@)
                &&& two_targets_one_recipe(db, request) ==> two_targets_runs(&line, db, request)
                &&& forall|t: int|
                    0 <= t < request.targets@.len() ==> target_delivered(
                        &line,
                        (#[trigger] request.targets@[t]).0@,
                        request.targets@[t].1,
                    )
            },
            Err(e) => error_ok(db, &request.config, e) && error_reached(db, &request.config, target_keys(request), e),
        },
        plannable(db, &request.config, target_keys(request)) ==> r is Ok,
        first_target_ambiguous(db, request) ==> (r matches Err(Error::AmbiguousRecipe { resource, .. }) && resource@
            == request.targets@[0].0@),
        r matches Ok(line) ==> (request.targets@.len() == 1 && !request.targets@[0].1.spec_at_most(epsilon::<N>())
            && !raw_resource(db, &request.config, request.targets@[0].0@) ==> runs_for_target(
            &line,
            db,
            &request.config,
            request.targets@[0].0@,
            request.targets@[0].1,
        )),
        targets_raw(db, request) ==> (r matches Ok(line) && line.nodes@.len() == 0 && forall|t: int|
            0 <= t < request.targets@.len() ==> (#[trigger] request.targets@[t]).1.spec_at_most(epsilon::<N>()) || (
            has_key(line.raw_inputs@, request.targets@[t].0@) && value_of(line.raw_inputs@, request.targets@[t].0@)
                == N::spec_zero().spec_plus(request.targets@[t].1))),
{
    let mut planner = Planner::new(db, &request.config);
    let ghost first = planner;
    let ghost roots = target_keys(request);
    let ghost mut after_first = planner;
    let targets = request.targets.entries();
    let n = targets.len();
    let mut i: usize = 0;
    while i < n
        invariant
            n == targets@.len(),
            i <= n,
            planner.inv(),
            planner.db == db,
            planner.config == &request.config,
            planner.visiting@.len() == 0,
            planner.served(),
            targets@ == request.targets@,
            forall|t: int|
                0 <= t < i ==> planner.demand_met((#[trigger] targets@[t]).0@, targets@[t].1, EdgeEndpoint::External),
            first.nodes@.len() == 0,
            roots == target_keys(request),
            first_target_ambiguous(db, request) ==> i == 0,
            i == 0 ==> planner.surplus@.len() == 0 && planner.nodes@.len() == 0 && planner.flows@.len() == 0,
            n == 1 && i == 1 && !targets@[0].1.spec_at_most(epsilon::<N>()) && !raw_resource(
                db,
                &request.config,
                targets@[0].0@,
            ) ==> exists|id: NodeId|
                #[trigger] planner.runs_added(&first, id, targets@[0].0@, targets@[0].1) && planner.delivered(
                    &first,
                    id,
                    EdgeEndpoint::External,
                    targets@[0].0@,
                    targets@[0].1,
                ) && planner.fresh_run(&first, id, EdgeEndpoint::External, targets@[0].0@, targets@[0].1),
            first.surplus@.len() == 0,
            first.flows@.len() == 0,
            i >= 1 ==> (!targets@[0].1.spec_at_most(epsilon::<N>()) && !raw_resource(db, &request.config, targets@[0].0@)
                ==> exists|id: NodeId|
                #[trigger] after_first.runs_added(&first, id, targets@[0].0@, targets@[0].1) && after_first.fresh_run(
                    &first,
                    id,
                    EdgeEndpoint::External,
                    targets@[0].0@,
                    targets@[0].1,
                )),
            i == 1 ==> planner == after_first,
            i >= 1 ==> nodes_kept(after_first.nodes@, planner.nodes@),
            i >= 1 ==> after_first.db == db && after_first.config == &request.config,
            n == 2 && i == 2 && !raw_resource(db, &request.config, targets@[1].0@) && !targets@[1].1.spec_at_most(
                epsilon::<N>(),
            ) && !left_after_surplus(after_first.surplus@, targets@[1].0@, targets@[1].1).spec_at_most(epsilon::<N>())
                ==> exists|id: NodeId|
                #[trigger] planner.runs_added(
                    &after_first,
                    id,
                    targets@[1].0@,
                    left_after_surplus(after_first.surplus@, targets@[1].0@, targets@[1].1),
                ),
            targets_raw(db, request) ==> planner.nodes@.len() == 0 && planner.surplus@.len() == 0 && (forall|t: int|
                0 <= t < i ==> (#[trigger] targets@[t]).1.spec_at_most(epsilon::<N>()) || (has_key(
                    planner.raw_inputs@,
                    targets@[t].0@,
                ) && value_of(planner.raw_inputs@, targets@[t].0@) == N::spec_zero().spec_plus(targets@[t].1))) && (forall|
                k: ResourceKey,
            | #[trigger] has_key(planner.raw_inputs@, k) ==> exists|t: int| 0 <= t < i && (#[trigger] targets@[t]).0@ == k),
            first.raw_inputs@.len() == 0,
            request.targets.wf(),
        decreases n - i,
    {
        let ghost before = planner;
        proof {
            assert(roots.len() == targets@.len());
            assert(roots[i as int] == targets@[i as int].0@);
        }
        let step = planner.add_target(targets[i].0.clone(), targets[i].1, Ghost(roots));
        match step {
            Ok(()) => {},
            Err(e) => {
                proof {
                    if plannable(db, &request.config, roots) {
                        law_plannable_has_no_error(db, &request.config, roots, e);
                    }
                }
                return Err(e);
            },
        }
        proof {
            if i == 0 && !targets@[0].1.spec_at_most(epsilon::<N>()) && !raw_resource(
                db,
                &request.config,
                targets@[0].0@,
            ) {
                let id = choose|id: NodeId|
                    #[trigger] planner.runs_added(&before, id, targets@[0].0@, targets@[0].1) && planner.delivered(
                        &before,
                        id,
                        EdgeEndpoint::External,
                        targets@[0].0@,
                        targets@[0].1,
                    ) && planner.fresh_run(&before, id, EdgeEndpoint::External, targets@[0].0@, targets@[0].1);
                assert(before.surplus@ =~= first.surplus@);
                assert(before.flows@ =~= first.flows@);
                assert(planner.fresh_run(&first, id, EdgeEndpoint::External, targets@[0].0@, targets@[0].1));
                assert(before.nodes@.len() == 0 && first.nodes@.len() == 0);
                assert(planner.runs_added(&first, id, targets@[0].0@, targets@[0].1));
                let fk = (EdgeEndpoint::Node(id), EdgeEndpoint::External, targets@[0].0@);
                assert(!has_key(before.flows@, fk) && !has_key(first.flows@, fk));
                assert(planner.delivered(&first, id, EdgeEndpoint::External, targets@[0].0@, targets@[0].1));
            }
            if i == 1 {
                assert(before == after_first);
            }
            if targets_raw(db, request) {
                let ki = targets@[i as int].0@;
                assert(raw_resource(db, &request.config, ki));
                assert(!has_key(before.raw_inputs@, ki)) by {
                    if has_key(before.raw_inputs@, ki) {
                        let t = choose|t: int| 0 <= t < i && (#[trigger] targets@[t]).0@ == ki;
                        assert(targets@[t].0@ != targets@[i as int].0@);
                    }
                }
                assert forall|t: int| 0 <= t < i + 1 implies (#[trigger] targets@[t]).1.spec_at_most(epsilon::<N>()) || (
                has_key(planner.raw_inputs@, targets@[t].0@) && value_of(planner.raw_inputs@, targets@[t].0@)
                    == N::spec_zero().spec_plus(targets@[t].1)) by {
                    if t < i && !targets@[t].1.spec_at_most(epsilon::<N>()) {
                        assert(has_key(before.raw_inputs@, targets@[t].0@));
                        assert(targets@[t].0@ != ki);
                    }
                }
                assert forall|k: ResourceKey| #[trigger] has_key(planner.raw_inputs@, k) implies exists|t: int|
                    0 <= t < i + 1 && (#[trigger] targets@[t]).0@ == k by {
                    if k != ki {
                        assert(has_key(before.raw_inputs@, k));
                        let t = choose|t: int| 0 <= t < i && (#[trigger] targets@[t]).0@ == k;
                        assert(0 <= t < i + 1);
                    } else {
                        assert(targets@[i as int].0@ == k);
                    }
                }
            }
            assert forall|t: int| 0 <= t < i + 1 implies planner.demand_met(
                (#[trigger] targets@[t]).0@,
                targets@[t].1,
                EdgeEndpoint::External,
            ) by {
                if t < i {
                    Planner::lemma_demand_met_grows(&before, &planner, targets@[t].0@, targets@[t].1, EdgeEndpoint::External);
                }
            }
        }
        proof {
            if i == 0 {
                after_first = planner;
            }
        }
        i = i + 1;
    }
    let ghost last = planner;
    let line = planner.finish();
    proof {
        if two_targets_one_recipe(db, request) {
            let config = &request.config;
            let k0 = targets@[0].0@;
            let r0 = targets@[0].1;
            let k1 = targets@[1].0@;
            let r1 = targets@[1].1;
            let rid = chosen_id(db, config, k0);
            let products = db.recipe_at(rid).products@;
            let id1 = choose|id: NodeId|
                #[trigger] after_first.runs_added(&first, id, k0, r0) && after_first.fresh_run(&first, id, EdgeEndpoint::External, k0, r0);
            let i1 = id1@ as int;
            law_chosen_id(db, config, k0, after_first.nodes@[i1].recipe@);
            assert(after_first.nodes@[i1].recipe@ == rid);
            let runs1 = runs_for(db, rid, k0, r0);
            assert(after_first.nodes@[i1].runs_per_second == N::spec_zero().spec_plus(runs1));
            assert(coproducts_banked(first.surplus@, after_first.surplus@, products, k0, runs1));
            let j2 = choose|j: int| 0 <= j < products.len() && (#[trigger] products[j]).resource@ == k1 && listed_once(products, j);
            let jc = choose|j: int| 0 <= j < products.len() && products[j].resource@ == k1;
            if jc != j2 {
                assert(products[jc].resource@ != products[j2].resource@);
            }
            assert(jc == j2);
            let produced = product_yield(products[j2]).spec_times(runs1);
            assert(!has_key(first.surplus@, k1));
            assert(left_after_surplus(after_first.surplus@, k1, r1) == second_left(db, rid, k0, r0, k1, r1));
            let left = second_left(db, rid, k0, r0, k1, r1);
            let id2 = choose|id: NodeId| #[trigger] last.runs_added(&after_first, id, k1, left);
            let i2 = id2@ as int;
            law_one_recipe_chosen(db, config, k1, last.nodes@[i2].recipe@, rid);
            assert(last.nodes@[i1].recipe@ == rid);
            assert(recipes_distinct(last.nodes@));
            assert(i2 == i1);
            assert(line.nodes@[i1].runs_per_second == N::spec_zero().spec_plus(runs1).spec_plus(runs_for(db, rid, k1, left)));
            assert(two_targets_runs(&line, db, request));
        }
        if n == 1 && !targets@[0].1.spec_at_most(epsilon::<N>()) && !raw_resource(db, &request.config, targets@[0].0@) {
            let k = targets@[0].0@;
            let rate = targets@[0].1;
            let id = choose|id: NodeId|
                #[trigger] last.runs_added(&first, id, k, rate) && last.delivered(&first, id, EdgeEndpoint::External, k, rate)
                    && last.fresh_run(&first, id, EdgeEndpoint::External, k, rate);
            let i = id@ as int;
            assert(last.node_ok(i));
            crate::line::law_node_id_by_index(line.nodes@[i].id, id);
            let fk = (EdgeEndpoint::Node(id), EdgeEndpoint::External, k);
            assert(!has_key(first.flows@, fk));
            assert(has_key(last.flows@, fk));
            assert(value_of(last.flows@, fk) == N::spec_zero().spec_plus(rate));
            if last.flushed(fk) {
                assert(last.flushes(k));
                let e = choose|e: int|
                    0 <= e < line.edges@.len() && (#[trigger] line.edges@[e]).from == last.flush_flow(k).0
                        && line.edges@[e].to == EdgeEndpoint::External && line.edges@[e].resource@ == k
                        && line.edges@[e].rate == amount_or_zero(last.flows@, last.flush_flow(k)).spec_plus(
                        value_of(last.surplus@, k),
                    );
                assert(line.edges@[e].rate == N::spec_zero().spec_plus(rate).spec_plus(value_of(last.surplus@, k)));
                assert(output_edge_ok(&line, i, k, rate, e));
            } else {
                let e = choose|e: int|
                    0 <= e < line.edges@.len() && (#[trigger] line.edges@[e]).from == fk.0 && line.edges@[e].to == fk.1
                        && line.edges@[e].resource@ == fk.2 && line.edges@[e].rate == value_of(last.flows@, fk);
                assert(output_edge_ok(&line, i, k, rate, e));
            }
            let recipe = db.recipe_at(line.nodes@[i].recipe@);
            let runs = rate.spec_over(yield_sum(recipe.products@, named::<N>(k.1)));
            assert forall|j: int| 0 <= j < recipe.ingredients@.len() implies {
                let want = (#[trigger] recipe.ingredients@[j]).amount.spec_times(runs);
                ||| want.spec_at_most(epsilon::<N>())
                ||| surplus_gap(want)
                ||| exists|e: int|
                    0 <= e < line.edges@.len() && (#[trigger] line.edges@[e]).to == EdgeEndpoint::Node(line.nodes@[i].id)
                        && line.edges@[e].resource@ == recipe.ingredients@[j].resource@
            } by {
                let want = recipe.ingredients@[j].amount.spec_times(runs);
                let ing = recipe.ingredients@[j].resource@;
                assert(last.demand_met(ing, want, EdgeEndpoint::Node(id)));
                if exists|from: EdgeEndpoint| #[trigger] has_key(last.flows@, (from, EdgeEndpoint::Node(id), ing)) {
                    let from = choose|from: EdgeEndpoint| #[trigger] has_key(last.flows@, (from, EdgeEndpoint::Node(id), ing));
                    assert(has_key(last.flows@, (from, EdgeEndpoint::Node(id), ing)));
                }
            }
            assert(recipe_chosen(db, &request.config, k, line.nodes@[i].recipe@));
            if recipe.ingredients@.len() == 0 {
                assert(last.fresh_run(&first, id, EdgeEndpoint::External, k, rate));
                let ps = recipe.products@;
                assert forall|j: int|
                    0 <= j < ps.len() && (#[trigger] ps[j]).resource@ != k && listed_once(ps, j) && product_yield(
                        ps[j],
                    ).spec_times(runs).spec_greater_than(N::spec_zero()) && N::spec_zero().spec_plus(
                        product_yield(ps[j]).spec_times(runs),
                    ).spec_greater_than(epsilon::<N>()) implies exists|e: int|
                    0 <= e < line.edges@.len() && (#[trigger] line.edges@[e]).from == EdgeEndpoint::Node(line.nodes@[i].id)
                        && line.edges@[e].to == EdgeEndpoint::External && line.edges@[e].resource@ == ps[j].resource@
                        && line.edges@[e].rate == N::spec_zero().spec_plus(
                        N::spec_zero().spec_plus(product_yield(ps[j]).spec_times(runs)),
                    ) by {
                    let p = ps[j].resource@;
                    let produced = product_yield(ps[j]).spec_times(runs);
                    assert(!has_key(first.surplus@, p));
                    assert(has_key(last.surplus@, p) && value_of(last.surplus@, p) == N::spec_zero().spec_plus(produced));
                    assert(last.flushes(p));
                    assert(value_of(last.producer_for@, p) == id);
                    let ff = last.flush_flow(p);
                    assert(ff == (EdgeEndpoint::Node(id), EdgeEndpoint::External, p));
                    assert(ff != (EdgeEndpoint::Node(id), EdgeEndpoint::External, k));
                    assert(has_key(last.flows@, ff) == has_key(first.flows@, ff));
                    assert(!has_key(last.flows@, ff));
                    let e = choose|e: int|
                        0 <= e < line.edges@.len() && (#[trigger] line.edges@[e]).from == last.flush_flow(p).0
                            && line.edges@[e].to == EdgeEndpoint::External && line.edges@[e].resource@ == p
                            && line.edges@[e].rate == amount_or_zero(last.flows@, last.flush_flow(p)).spec_plus(
                            value_of(last.surplus@, p),
                        );
                    assert(line.edges@[e].from == EdgeEndpoint::Node(line.nodes@[i].id));
                }
                assert(coproducts_sent_out(&line, i, recipe.products@, k, runs));
            }
            assert(runs_for_target(&line, db, &request.config, k, rate));
        }
        assert forall|t: int| 0 <= t < request.targets@.len() implies target_delivered(
            &line,
            (#[trigger] request.targets@[t]).0@,
            request.targets@[t].1,
        ) by {
            let k = targets@[t].0@;
            assert(last.demand_met(k, targets@[t].1, EdgeEndpoint::External));
            if exists|from: EdgeEndpoint| #[trigger] has_key(last.flows@, (from, EdgeEndpoint::External, k)) {
                let from = choose|from: EdgeEndpoint| #[trigger] has_key(last.flows@, (from, EdgeEndpoint::External, k));
                assert(has_key(last.flows@, (from, EdgeEndpoint::External, k)));
            }
        }
    }
    Ok(line)
}

} // verus!
