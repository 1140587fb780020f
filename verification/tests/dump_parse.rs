use planner::dump::energy::parse_energy;
use planner::dump::parse::build;
use planner::dump::raw::{
    DumpError,
    RawDump, RawFluid, RawIconFields, RawIngredient, RawItem, RawMachine, RawMinable, RawMiningDrill, RawProduct,
    RawRecipe, RawResource,
};
use planner::{CraftingCategory, Database, Machine, MachineId, MachineKind, Quantity, RecipeId};

#[derive(Debug, Clone, Copy, PartialEq, PartialOrd)]
struct Num(f64);

impl Quantity for Num {
    fn spec_zero() -> Self {
        Num(0.0)
    }
    fn spec_one() -> Self {
        Num(1.0)
    }
    fn spec_from_u64(n: u64) -> Self {
        Num(n as f64)
    }
    fn spec_plus(self, other: Self) -> Self {
        Num(self.0 + other.0)
    }
    fn spec_minus(self, other: Self) -> Self {
        Num(self.0 - other.0)
    }
    fn spec_times(self, other: Self) -> Self {
        Num(self.0 * other.0)
    }
    fn spec_over(self, other: Self) -> Self {
        Num(self.0 / other.0)
    }
    fn spec_lesser(self, other: Self) -> Self {
        Num(self.0.min(other.0))
    }
    fn spec_less_than(self, other: Self) -> bool {
        self.0 < other.0
    }
    fn spec_at_most(self, other: Self) -> bool {
        self.0 <= other.0
    }
    fn spec_greater_than(self, other: Self) -> bool {
        self.0 > other.0
    }
    fn spec_equals(self, other: Self) -> bool {
        self.0 == other.0
    }
    fn spec_parse(text: &str) -> Option<Self> {
        text.parse::<f64>().ok().map(Num)
    }
    fn zero() -> Self {
        Self::spec_zero()
    }
    fn one() -> Self {
        Self::spec_one()
    }
    fn from_u64(n: u64) -> Self {
        Self::spec_from_u64(n)
    }
    fn plus(self, other: Self) -> Self {
        self.spec_plus(other)
    }
    fn minus(self, other: Self) -> Self {
        self.spec_minus(other)
    }
    fn times(self, other: Self) -> Self {
        self.spec_times(other)
    }
    fn over(self, other: Self) -> Self {
        self.spec_over(other)
    }
    fn lesser(self, other: Self) -> Self {
        self.spec_lesser(other)
    }
    fn less_than(self, other: Self) -> bool {
        self.spec_less_than(other)
    }
    fn at_most(self, other: Self) -> bool {
        self.spec_at_most(other)
    }
    fn greater_than(self, other: Self) -> bool {
        self.spec_greater_than(other)
    }
    fn equals(self, other: Self) -> bool {
        self.spec_equals(other)
    }
    fn parse(text: &str) -> Option<Self> {
        Self::spec_parse(text)
    }
    fn spec_format_fixed(self, places: usize) -> String {
        format!("{:.*}", places, self.0)
    }
    fn format_fixed(self, places: usize) -> String {
        self.spec_format_fixed(places)
    }
    fn spec_format(self) -> String {
        format!("{}", self.0)
    }
    fn format(self) -> String {
        self.spec_format()
    }
}

fn no_icon() -> RawIconFields {
    RawIconFields { icon: None, icon_size: None, icons: None }
}

fn raw_item(stack_size: u32) -> RawItem {
    RawItem { stack_size, icon: no_icon() }
}

fn raw_fluid(temperature: f64) -> RawFluid<Num> {
    RawFluid { default_temperature: Num(temperature), icon: no_icon() }
}

fn raw_machine(categories: &[&str], speed: f64, energy: &str, slots: Option<u32>) -> RawMachine<Num> {
    RawMachine {
        crafting_categories: categories.iter().map(|c| c.to_string()).collect(),
        crafting_speed: Num(speed),
        energy_usage: energy.to_string(),
        module_slots: slots,
        module_specification: None,
        icon: no_icon(),
    }
}

fn raw_drill(categories: &[&str], speed: f64, energy: &str, slots: Option<u32>) -> RawMiningDrill<Num> {
    RawMiningDrill {
        resource_categories: categories.iter().map(|c| c.to_string()).collect(),
        mining_speed: Num(speed),
        energy_usage: energy.to_string(),
        module_slots: slots,
        module_specification: None,
        icon: no_icon(),
    }
}

fn ingredient(ty: &str, name: &str, amount: f64) -> RawIngredient<Num> {
    RawIngredient { ty: ty.to_string(), name: name.to_string(), amount: Num(amount) }
}

fn product(ty: &str, name: &str, amount: f64) -> RawProduct<Num> {
    RawProduct {
        ty: ty.to_string(),
        name: name.to_string(),
        amount: Some(Num(amount)),
        amount_min: None,
        amount_max: None,
        probability: Num(1.0),
    }
}

fn raw_recipe(
    category: &str,
    energy: f64,
    ingredients: Vec<RawIngredient<Num>>,
    results: Vec<RawProduct<Num>>,
) -> RawRecipe<Num> {
    RawRecipe {
        category: category.to_string(),
        energy_required: Num(energy),
        ingredients,
        results,
        allow_productivity: false,
    }
}

fn simple_resource(category: &str, mining_time: f64, result: &str) -> RawResource<Num> {
    RawResource {
        category: category.to_string(),
        minable: Some(RawMinable {
            mining_time: Num(mining_time),
            result: Some(result.to_string()),
            count: None,
            results: Vec::new(),
            required_fluid: None,
            fluid_amount: Num(0.0),
        }),
    }
}

fn entries<T>(list: Vec<(&str, T)>) -> Vec<(String, Result<T, String>)> {
    list.into_iter().map(|(n, v)| (n.to_string(), Ok(v))).collect()
}

fn empty_dump() -> RawDump<Num> {
    RawDump {
        items: (0..20).map(|_| None).collect(),
        fluids: None,
        machines: vec![None, None, None],
        mining_drills: None,
        recipes: None,
        resources: None,
    }
}


fn sample() -> Database<Num> {
    let mut dump = empty_dump();
    dump.items[0] = Some(entries(vec![("iron-ore", raw_item(50)), ("iron-plate", raw_item(100))]));
    dump.fluids = Some(entries(vec![("water", raw_fluid(15.0))]));
    dump.machines[0] =
        Some(entries(vec![("assembling-machine-1", raw_machine(&["crafting"], 0.5, "75kW", Some(0)))]));
    dump.machines[1] = Some(entries(vec![("stone-furnace", raw_machine(&["smelting"], 1.0, "90kW", None))]));
    dump.recipes = Some(entries(vec![(
        "iron-plate",
        raw_recipe("smelting", 3.2, vec![ingredient("item", "iron-ore", 1.0)], vec![product(
            "item",
            "iron-plate",
            1.0,
        )]),
    )]));
    build(&dump).unwrap()
}

fn mining_sample() -> Database<Num> {
    let mut dump = empty_dump();
    dump.items[0] = Some(entries(vec![("iron-ore", raw_item(50)), ("uranium-ore", raw_item(50))]));
    dump.fluids = Some(entries(vec![("sulfuric-acid", raw_fluid(25.0)), ("crude-oil", raw_fluid(25.0))]));
    dump.mining_drills = Some(entries(vec![
        ("electric-mining-drill", raw_drill(&["basic-solid"], 0.5, "90kW", Some(3))),
        ("pumpjack", raw_drill(&["basic-fluid"], 1.0, "90kW", Some(2))),
    ]));
    dump.resources = Some(entries(vec![
        ("iron-ore", simple_resource("basic-solid", 1.0, "iron-ore")),
        (
            "uranium-ore",
            RawResource {
                category: "basic-solid".to_string(),
                minable: Some(RawMinable {
                    mining_time: Num(2.0),
                    result: None,
                    count: None,
                    results: vec![product("item", "uranium-ore", 1.0)],
                    required_fluid: Some("sulfuric-acid".to_string()),
                    fluid_amount: Num(10.0),
                }),
            },
        ),
        (
            "crude-oil",
            RawResource {
                category: "basic-fluid".to_string(),
                minable: Some(RawMinable {
                    mining_time: Num(1.0),
                    result: None,
                    count: None,
                    results: vec![RawProduct {
                        ty: "fluid".to_string(),
                        name: "crude-oil".to_string(),
                        amount: None,
                        amount_min: Some(Num(10.0)),
                        amount_max: Some(Num(10.0)),
                        probability: Num(1.0),
                    }],
                    required_fluid: None,
                    fluid_amount: Num(0.0),
                }),
            },
        ),
    ]));
    build(&dump).unwrap()
}

fn machine_names(ids: Vec<MachineId>) -> Vec<String> {
    ids.iter().map(|m| m.as_str().to_owned()).collect()
}

#[test]
fn loads_sample_dump() {
    let db = sample();
    assert_eq!(db.items.len(), 2);
    assert_eq!(db.fluids.len(), 1);
    assert_eq!(db.machines.len(), 2);
    assert_eq!(db.recipes.len(), 1);

    let recipe = db.recipe(&RecipeId::new("iron-plate")).unwrap();
    assert_eq!(recipe.category.as_str(), "smelting");
    assert_eq!(recipe.crafting_time, Num(3.2));
    assert_eq!(recipe.ingredients.len(), 1);
    assert_eq!(recipe.products.len(), 1);

    let furnace = db.machine(&MachineId::new("stone-furnace")).unwrap();
    assert_eq!(furnace.crafting_speed, Num(1.0));
    assert_eq!(furnace.energy_usage_watts, Num(90_000.0));

    let smelters = machine_names(db.machines_for_recipe(recipe));
    assert_eq!(smelters, vec!["stone-furnace"]);
}

#[test]
fn loads_mining_drills_and_resources() {
    let db = mining_sample();

    let drill = db.machine(&MachineId::new("electric-mining-drill")).unwrap();
    assert_eq!(drill.kind, MachineKind::MiningDrill);
    assert_eq!(drill.crafting_speed, Num(0.5));
    assert!(drill.supports(&CraftingCategory::new("basic-solid")));

    let iron = db.recipe(&RecipeId::new("iron-ore")).unwrap();
    assert!(iron.ingredients.is_empty());
    assert_eq!(iron.expected_yield("iron-ore"), Num(1.0));
    assert_eq!(iron.crafting_time, Num(1.0));

    let drills = machine_names(db.machines_for_recipe(iron));
    assert_eq!(drills, vec!["electric-mining-drill"]);
}

#[test]
fn mining_with_required_fluid_divides_amount_by_ten() {
    let db = mining_sample();
    let uranium = db.recipe(&RecipeId::new("uranium-ore")).unwrap();
    assert_eq!(uranium.ingredients.len(), 1);
    let acid = &uranium.ingredients[0];
    assert!(acid.resource.is_fluid());
    assert_eq!(acid.resource.name(), "sulfuric-acid");
    assert!((acid.amount.0 - 1.0).abs() < 1e-9);
}

#[test]
fn pumpjack_extracts_fluid() {
    let db = mining_sample();
    let oil = db.recipe(&RecipeId::new("crude-oil")).unwrap();
    assert_eq!(oil.products.len(), 1);
    assert!(oil.products[0].resource.is_fluid());
    assert_eq!(oil.expected_yield("crude-oil"), Num(10.0));

    let drills = machine_names(db.machines_for_recipe(oil));
    assert_eq!(drills, vec!["pumpjack"]);
}

#[test]
fn product_amount_range_expected() {
    let mut dump = empty_dump();
    let mut rare = product("item", "uranium-235", 1.0);
    rare.probability = Num(0.007);
    let mut common = product("item", "uranium-238", 1.0);
    common.probability = Num(0.993);
    dump.recipes = Some(entries(vec![(
        "uranium-ore-processing",
        raw_recipe("centrifuging", 12.0, vec![ingredient("item", "uranium-ore", 10.0)], vec![rare, common]),
    )]));
    let db = build(&dump).unwrap();
    let r = db.recipe(&RecipeId::new("uranium-ore-processing")).unwrap();
    let yield_235 = r.expected_yield("uranium-235");
    assert!((yield_235.0 - 0.007).abs() < 1e-9);
}

#[test]
fn parses_known_units() {
    assert_eq!(parse_energy::<Num>("75kW").unwrap(), Num(75_000.0));
    assert_eq!(parse_energy::<Num>(" 1.5 MW ").unwrap(), Num(1_500_000.0));
    assert_eq!(parse_energy::<Num>("100W").unwrap(), Num(100.0));
    assert_eq!(parse_energy::<Num>("2GJ").unwrap(), Num(2e9));
}

#[test]
fn rejects_unknown() {
    assert!(parse_energy::<Num>("12xW").is_err());
    assert!(parse_energy::<Num>("kW").is_err());
    assert!(parse_energy::<Num>("12").is_err());
}

fn drill() -> Machine<Num> {
    Machine {
        id: MachineId::new("drill"),
        kind: MachineKind::AssemblingMachine,
        crafting_categories: vec![CraftingCategory::new("crafting")],
        crafting_speed: Num(2.0),
        module_slots: 0,
        energy_usage_watts: Num(0.0),
        icon: None,
    }
}

#[test]
fn crafts_per_second_returns_zero_for_negative_time() {
    assert_eq!(drill().crafts_per_second(Num(-1.0)), Num(0.0));
}

#[test]
fn crafts_per_second_returns_zero_for_zero_time() {
    assert_eq!(drill().crafts_per_second(Num(0.0)), Num(0.0));
}

#[test]
fn crafts_per_second_divides_speed_by_time() {
    assert_eq!(drill().crafts_per_second(Num(4.0)), Num(0.5));
}

#[test]
fn unknown_ingredient_type_is_reported_before_unknown_result_type() {
    let mut dump = empty_dump();
    dump.recipes = Some(entries(vec![(
        "odd",
        raw_recipe(
            "crafting",
            1.0,
            vec![ingredient("item", "a", 1.0), ingredient("gas", "b", 1.0)],
            vec![product("energy", "c", 1.0)],
        ),
    )]));
    match build(&dump) {
        Err(DumpError::UnknownResourceType(t)) => assert_eq!(t, "gas"),
        other => panic!("unexpected result: {:?}", other.map(|_| ())),
    }
}

#[test]
fn unknown_result_type_is_reported_when_ingredients_are_known() {
    let mut dump = empty_dump();
    dump.recipes = Some(entries(vec![(
        "odd",
        raw_recipe("crafting", 1.0, vec![ingredient("item", "a", 1.0)], vec![product("energy", "c", 1.0)]),
    )]));
    match build(&dump) {
        Err(DumpError::UnknownResourceType(t)) => assert_eq!(t, "energy"),
        other => panic!("unexpected result: {:?}", other.map(|_| ())),
    }
}

#[test]
fn machine_energy_that_does_not_parse_is_reported() {
    let mut dump = empty_dump();
    dump.machines[0] = Some(entries(vec![("asm", raw_machine(&["crafting"], 1.0, "1.2.3kW", None))]));
    match build(&dump) {
        Err(DumpError::InvalidEnergy(s)) => assert_eq!(s, "1.2.3kW"),
        other => panic!("unexpected result: {:?}", other.map(|_| ())),
    }
}

#[test]
fn machine_energy_is_number_times_unit() {
    let mut dump = empty_dump();
    dump.machines[0] = Some(entries(vec![("asm", raw_machine(&["crafting"], 1.0, "2.5 MW", None))]));
    let db = build(&dump).unwrap();
    let m = db.machine(&MachineId::new("asm")).unwrap();
    assert_eq!(m.energy_usage_watts, Num(2_500_000.0));
}

#[test]
fn legacy_mining_result_uses_its_count() {
    let mut dump = empty_dump();
    let mut stone = simple_resource("basic-solid", 1.0, "stone");
    if let Some(m) = stone.minable.as_mut() {
        m.count = Some(3);
    }
    dump.resources = Some(entries(vec![("rock", stone)]));
    let db = build(&dump).unwrap();
    let r = db.recipe(&RecipeId::new("rock")).unwrap();
    assert_eq!(r.products.len(), 1);
    assert_eq!(r.products[0].resource.name(), "stone");
    assert_eq!(r.expected_yield("stone"), Num(3.0));
    assert_eq!(r.products[0].probability, Num(1.0));
}
