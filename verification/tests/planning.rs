use planner::dump::parse::build;
use planner::dump::raw::{
    RawDump, RawFluid, RawIconFields, RawIngredient, RawItem, RawMachine, RawMinable, RawMiningDrill, RawProduct,
    RawRecipe, RawResource,
};
use planner::{
    CraftingCategory, Database, EdgeEndpoint, Error, MachineId, PlanConfig, PlanRequest, Quantity, RecipeId,
    ResourceId,
};
use planner::plan;

#[derive(Debug, Clone, Copy, PartialEq, PartialOrd)]
struct Num(f64);

impl Quantity for Num {
    fn spec_zero() -> Self {
        Num(0.0)
    }
    fn spec_one() -> Self {
        Num(1.0)
    }
    fn spec_from_u64(n: u64) -> Self {
        Num(n as f64)
    }
    fn spec_plus(self, other: Self) -> Self {
        Num(self.0 + other.0)
    }
    fn spec_minus(self, other: Self) -> Self {
        Num(self.0 - other.0)
    }
    fn spec_times(self, other: Self) -> Self {
        Num(self.0 * other.0)
    }
    fn spec_over(self, other: Self) -> Self {
        Num(self.0 / other.0)
    }
    fn spec_lesser(self, other: Self) -> Self {
        Num(self.0.min(other.0))
    }
    fn spec_less_than(self, other: Self) -> bool {
        self.0 < other.0
    }
    fn spec_at_most(self, other: Self) -> bool {
        self.0 <= other.0
    }
    fn spec_greater_than(self, other: Self) -> bool {
        self.0 > other.0
    }
    fn spec_equals(self, other: Self) -> bool {
        self.0 == other.0
    }
    fn spec_parse(text: &str) -> Option<Self> {
        text.parse::<f64>().ok().map(Num)
    }
    fn zero() -> Self {
        Self::spec_zero()
    }
    fn one() -> Self {
        Self::spec_one()
    }
    fn from_u64(n: u64) -> Self {
        Self::spec_from_u64(n)
    }
    fn plus(self, other: Self) -> Self {
        self.spec_plus(other)
    }
    fn minus(self, other: Self) -> Self {
        self.spec_minus(other)
    }
    fn times(self, other: Self) -> Self {
        self.spec_times(other)
    }
    fn over(self, other: Self) -> Self {
        self.spec_over(other)
    }
    fn lesser(self, other: Self) -> Self {
        self.spec_lesser(other)
    }
    fn less_than(self, other: Self) -> bool {
        self.spec_less_than(other)
    }
    fn at_most(self, other: Self) -> bool {
        self.spec_at_most(other)
    }
    fn greater_than(self, other: Self) -> bool {
        self.spec_greater_than(other)
    }
    fn equals(self, other: Self) -> bool {
        self.spec_equals(other)
    }
    fn parse(text: &str) -> Option<Self> {
        Self::spec_parse(text)
    }
    fn spec_format_fixed(self, places: usize) -> String {
        format!("{:.*}", places, self.0)
    }
    fn format_fixed(self, places: usize) -> String {
        self.spec_format_fixed(places)
    }
    fn spec_format(self) -> String {
        format!("{}", self.0)
    }
    fn format(self) -> String {
        self.spec_format()
    }
}

fn item(name: &str) -> ResourceId {
    ResourceId::item(name)
}

fn fluid(name: &str) -> ResourceId {
    ResourceId::fluid(name)
}

fn per_second(r: f64) -> Num {
    Num(r)
}

fn no_icon() -> RawIconFields {
    RawIconFields { icon: None, icon_size: None, icons: None }
}

fn raw_item(stack_size: u32) -> RawItem {
    RawItem { stack_size, icon: no_icon() }
}

fn raw_fluid(temperature: f64) -> RawFluid<Num> {
    RawFluid { default_temperature: Num(temperature), icon: no_icon() }
}

fn raw_machine(categories: &[&str], speed: f64, energy: &str, slots: Option<u32>) -> RawMachine<Num> {
    RawMachine {
        crafting_categories: categories.iter().map(|c| c.to_string()).collect(),
        crafting_speed: Num(speed),
        energy_usage: energy.to_string(),
        module_slots: slots,
        module_specification: None,
        icon: no_icon(),
    }
}

fn raw_drill(categories: &[&str], speed: f64, energy: &str, slots: Option<u32>) -> RawMiningDrill<Num> {
    RawMiningDrill {
        resource_categories: categories.iter().map(|c| c.to_string()).collect(),
        mining_speed: Num(speed),
        energy_usage: energy.to_string(),
        module_slots: slots,
        module_specification: None,
        icon: no_icon(),
    }
}

fn ingredient(ty: &str, name: &str, amount: f64) -> RawIngredient<Num> {
    RawIngredient { ty: ty.to_string(), name: name.to_string(), amount: Num(amount) }
}

fn product(ty: &str, name: &str, amount: f64) -> RawProduct<Num> {
    RawProduct {
        ty: ty.to_string(),
        name: name.to_string(),
        amount: Some(Num(amount)),
        amount_min: None,
        amount_max: None,
        probability: Num(1.0),
    }
}

fn raw_recipe(
    category: &str,
    energy: f64,
    ingredients: Vec<RawIngredient<Num>>,
    results: Vec<RawProduct<Num>>,
) -> RawRecipe<Num> {
    RawRecipe {
        category: category.to_string(),
        energy_required: Num(energy),
        ingredients,
        results,
        allow_productivity: false,
    }
}

fn simple_resource(category: &str, mining_time: f64, result: &str) -> RawResource<Num> {
    RawResource {
        category: category.to_string(),
        minable: Some(RawMinable {
            mining_time: Num(mining_time),
            result: Some(result.to_string()),
            count: None,
            results: Vec::new(),
            required_fluid: None,
            fluid_amount: Num(0.0),
        }),
    }
}

fn entries<T>(list: Vec<(&str, T)>) -> Vec<(String, Result<T, String>)> {
    list.into_iter().map(|(n, v)| (n.to_string(), Ok(v))).collect()
}

fn empty_dump() -> RawDump<Num> {
    RawDump {
        items: (0..20).map(|_| None).collect(),
        fluids: None,
        machines: vec![None, None, None],
        mining_drills: None,
        recipes: None,
        resources: None,
    }
}

fn vanilla_like() -> Database<Num> {
    let mut dump = empty_dump();
    dump.items[0] = Some(entries(vec![
        ("iron-ore", raw_item(50)),
        ("iron-plate", raw_item(100)),
        ("copper-ore", raw_item(50)),
        ("copper-plate", raw_item(100)),
        ("copper-cable", raw_item(200)),
        ("electronic-circuit", raw_item(200)),
    ]));
    dump.fluids = Some(Vec::new());
    dump.machines[0] = Some(entries(vec![
        ("assembling-machine-1", raw_machine(&["crafting"], 0.5, "75kW", Some(0))),
        ("assembling-machine-2", raw_machine(&["crafting"], 0.75, "150kW", Some(2))),
    ]));
    dump.machines[1] = Some(entries(vec![
        ("stone-furnace", raw_machine(&["smelting"], 1.0, "90kW", None)),
        ("steel-furnace", raw_machine(&["smelting"], 2.0, "90kW", None)),
    ]));
    dump.mining_drills = Some(entries(vec![(
        "electric-mining-drill",
        raw_drill(&["basic-solid"], 0.5, "90kW", Some(3)),
    )]));
    dump.recipes = Some(entries(vec![
        (
            "iron-plate",
            raw_recipe("smelting", 3.2, vec![ingredient("item", "iron-ore", 1.0)], vec![product(
                "item",
                "iron-plate",
                1.0,
            )]),
        ),
        (
            "copper-plate",
            raw_recipe("smelting", 3.2, vec![ingredient("item", "copper-ore", 1.0)], vec![product(
                "item",
                "copper-plate",
                1.0,
            )]),
        ),
        (
            "copper-cable",
            raw_recipe("crafting", 0.5, vec![ingredient("item", "copper-plate", 1.0)], vec![product(
                "item",
                "copper-cable",
                2.0,
            )]),
        ),
        (
            "electronic-circuit",
            raw_recipe(
                "crafting",
                0.5,
                vec![ingredient("item", "iron-plate", 1.0), ingredient("item", "copper-cable", 3.0)],
                vec![product("item", "electronic-circuit", 1.0)],
            ),
        ),
    ]));
    dump.resources = Some(entries(vec![
        ("iron-ore", simple_resource("basic-solid", 1.0, "iron-ore")),
        ("copper-ore", simple_resource("basic-solid", 1.0, "copper-ore")),
    ]));
    build(&dump).unwrap()
}

fn asm_only(recipes: Vec<(&str, RawRecipe<Num>)>, item_names: &[&str]) -> Database<Num> {
    let mut dump = empty_dump();
    dump.items[0] = Some(entries(item_names.iter().map(|n| (*n, raw_item(1))).collect()));
    dump.machines[0] = Some(entries(vec![("asm", raw_machine(&["crafting"], 1.0, "1kW", None))]));
    dump.recipes = Some(entries(recipes));
    build(&dump).unwrap()
}

fn ambiguous_db() -> Database<Num> {
    asm_only(
        vec![
            ("x-a", raw_recipe("crafting", 1.0, vec![], vec![product("item", "x", 1.0)])),
            ("x-b", raw_recipe("crafting", 1.0, vec![], vec![product("item", "x", 1.0)])),
        ],
        &["x"],
    )
}

fn coproduct_db() -> Database<Num> {
    asm_only(
        vec![("ab", raw_recipe("crafting", 1.0, vec![], vec![product("item", "a", 1.0), product("item", "b", 2.0)]))],
        &["a", "b"],
    )
}

fn rate_of(map: &planner::AssocMap<ResourceId, Num>, resource: &ResourceId) -> f64 {
    map.get(resource).unwrap().0
}

#[test]
fn plans_smelting_recurses_to_mining() {
    let db = vanilla_like();
    let request = PlanRequest::new().want(item("iron-plate"), per_second(1.0));
    let line = plan(&db, &request).unwrap();

    let recipes: Vec<&str> = line.nodes.iter().map(|n| n.recipe.as_str()).collect();
    assert!(recipes.contains(&"iron-plate"));
    assert!(recipes.contains(&"iron-ore"));

    assert!(line.raw_inputs.len() == 0);

    let out = rate_of(&line.outputs, &item("iron-plate"));
    assert!((out - 1.0).abs() < 1e-9);
}

#[test]
fn defaults_to_fastest_machine_per_category() {
    let db = vanilla_like();
    let request = PlanRequest::new().want(item("iron-plate"), per_second(1.0));
    let line = plan(&db, &request).unwrap();

    let smelting_node = line.nodes.iter().find(|n| n.recipe.as_str() == "iron-plate").unwrap();
    assert_eq!(smelting_node.machine.as_str(), "steel-furnace");
}

#[test]
fn raw_override_short_circuits_recursion() {
    let db = vanilla_like();
    let config = PlanConfig::new().with_raw(item("iron-plate"));
    let request = PlanRequest::new().want(item("iron-plate"), per_second(1.0)).with_config(config);
    let line = plan(&db, &request).unwrap();

    assert!(line.nodes.is_empty());
    let raw = rate_of(&line.raw_inputs, &item("iron-plate"));
    assert!((raw - 1.0).abs() < 1e-9);
}

#[test]
fn machine_override_is_respected() {
    let db = vanilla_like();
    let config = PlanConfig::new().with_machine(CraftingCategory::new("smelting"), MachineId::new("stone-furnace"));
    let request = PlanRequest::new().want(item("iron-plate"), per_second(1.0)).with_config(config);
    let line = plan(&db, &request).unwrap();

    let smelting = line.nodes.iter().find(|n| n.recipe.as_str() == "iron-plate").unwrap();
    assert_eq!(smelting.machine.as_str(), "stone-furnace");
    assert!((smelting.runs_per_second.0 - 1.0 / 1.0).abs() < 1e-9);
    let cps = 1.0 / 3.2;
    let expected_machines = smelting.runs_per_second.0 / cps;
    assert!((smelting.machines_needed.0 - expected_machines).abs() < 1e-6);
}

#[test]
fn ambiguous_recipe_errors_without_override() {
    let db = ambiguous_db();
    let request = PlanRequest::new().want(item("x"), per_second(1.0));
    let err = plan(&db, &request).unwrap_err();
    assert!(matches!(err, Error::AmbiguousRecipe { .. }));
}

#[test]
fn ambiguity_resolved_via_override() {
    let db = ambiguous_db();
    let config = PlanConfig::new().with_recipe(item("x"), RecipeId::new("x-b"));
    let request = PlanRequest::new().want(item("x"), per_second(1.0)).with_config(config);
    let line = plan(&db, &request).unwrap();
    assert_eq!(line.nodes.len(), 1);
    assert_eq!(line.nodes[0].recipe.as_str(), "x-b");
}

#[test]
fn coproducts_become_surplus_outputs() {
    let db = coproduct_db();
    let request = PlanRequest::new().want(item("a"), per_second(1.0));
    let line = plan(&db, &request).unwrap();

    let out_a = rate_of(&line.outputs, &item("a"));
    let out_b = rate_of(&line.outputs, &item("b"));
    assert!((out_a - 1.0).abs() < 1e-9);
    assert!((out_b - 2.0).abs() < 1e-9);
}

#[test]
fn surplus_satisfies_later_demand_without_extra_runs() {
    let db = coproduct_db();
    let request = PlanRequest::new().want(item("a"), per_second(1.0)).want(item("b"), per_second(1.0));
    let line = plan(&db, &request).unwrap();

    assert_eq!(line.nodes.len(), 1);
    let node = &line.nodes[0];
    assert!((node.runs_per_second.0 - 1.0).abs() < 1e-9);

    let out_a = rate_of(&line.outputs, &item("a"));
    let out_b = rate_of(&line.outputs, &item("b"));
    assert!((out_a - 1.0).abs() < 1e-9);
    assert!((out_b - 2.0).abs() < 1e-9);
}

#[test]
fn mining_recursion_emits_raw_for_fluids_with_no_recipe() {
    let mut dump = empty_dump();
    dump.items[0] = Some(entries(vec![("uranium-ore", raw_item(50))]));
    dump.fluids = Some(entries(vec![("sulfuric-acid", raw_fluid(25.0))]));
    dump.mining_drills = Some(entries(vec![("drill", raw_drill(&["basic-solid"], 0.5, "90kW", None))]));
    dump.resources = Some(entries(vec![(
        "uranium-ore",
        RawResource {
            category: "basic-solid".to_string(),
            minable: Some(RawMinable {
                mining_time: Num(2.0),
                result: None,
                count: None,
                results: vec![product("item", "uranium-ore", 1.0)],
                required_fluid: Some("sulfuric-acid".to_string()),
                fluid_amount: Num(10.0),
            }),
        },
    )]));
    let db = build(&dump).unwrap();
    let request = PlanRequest::new().want(item("uranium-ore"), per_second(1.0));
    let line = plan(&db, &request).unwrap();

    assert_eq!(line.nodes.len(), 1);
    let acid_rate = rate_of(&line.raw_inputs, &fluid("sulfuric-acid"));
    assert!((acid_rate - 1.0).abs() < 1e-9);

    let edges_from_external: Vec<_> =
        line.edges.iter().filter(|e| matches!(e.from, EdgeEndpoint::External)).collect();
    assert_eq!(edges_from_external.len(), 1);
    assert!(edges_from_external[0].resource.is_fluid());
}

#[test]
fn target_with_no_recipe_becomes_raw_input() {
    let mut dump = empty_dump();
    dump.items[0] = Some(entries(vec![("x", raw_item(1))]));
    let db = build(&dump).unwrap();
    let request = PlanRequest::new().want(item("x"), per_second(1.0));
    let line = plan(&db, &request).unwrap();
    assert!(line.nodes.is_empty());
    let raw = rate_of(&line.raw_inputs, &item("x"));
    assert!((raw - 1.0).abs() < 1e-9);
}

#[test]
fn configured_machine_missing_from_database_is_reported() {
    let db = vanilla_like();
    let config = PlanConfig::new().with_machine(CraftingCategory::new("smelting"), MachineId::new("no-such-furnace"));
    let request = PlanRequest::new().want(item("iron-plate"), per_second(1.0)).with_config(config);
    let err = plan(&db, &request).unwrap_err();
    match err {
        Error::UnknownMachine(m) => assert_eq!(m.as_str(), "no-such-furnace"),
        other => panic!("unexpected error: {:?}", other),
    }
}

#[test]
fn configured_machine_without_the_category_is_reported() {
    let db = vanilla_like();
    let config = PlanConfig::new().with_machine(CraftingCategory::new("smelting"), MachineId::new("electric-mining-drill"));
    let request = PlanRequest::new().want(item("iron-plate"), per_second(1.0)).with_config(config);
    let err = plan(&db, &request).unwrap_err();
    match err {
        Error::MachineCategoryMismatch { machine, recipe, category } => {
            assert_eq!(machine.as_str(), "electric-mining-drill");
            assert_eq!(recipe.as_str(), "iron-plate");
            assert_eq!(category.as_str(), "smelting");
        }
        other => panic!("unexpected error: {:?}", other),
    }
}

#[test]
fn configured_machine_for_an_unused_category_is_ignored() {
    let db = vanilla_like();
    let config = PlanConfig::new().with_machine(CraftingCategory::new("chemistry"), MachineId::new("no-such-plant"));
    let request = PlanRequest::new().want(item("iron-plate"), per_second(1.0)).with_config(config);
    assert!(plan(&db, &request).is_ok());
}
