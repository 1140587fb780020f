use planner::assoc::AssocMap;
use planner::dump::energy::{multiplier, parse_energy};
use planner::dump::parse::{build, resource_id};
use planner::dump::raw::{
    DumpError, RawDump, RawFluid, RawIconFields, RawIconLayer, RawIngredient, RawItem, RawMachine, RawMinable,
    RawMiningDrill, RawProduct, RawRecipe, RawResource,
};
use planner::export::{cell, edge_label, image_cell, lookup_resource_icon, node_dot_id, sink_dot_id, source_dot_id, write_dot};
use planner::icons::{path_join, split_prefix};
use planner::machine::{format_watts, join_categories};
use planner::text::{decimal_string, escape_html, join_display, str_eq, trim, trim_start};
use planner::{
    CraftingCategory, Database, EdgeEndpoint, Error, FactorioInstall, IconRef, Ingredient, Machine, MachineId,
    MachineKind, NodeId, PlanConfig, PlanRequest, Product, ProductAmount, ProductionEdge, ProductionLine,
    ProductionNode, Quantity, Recipe, RecipeId, ResourceId,
};
use planner::plan;

#[derive(Debug, Clone, Copy, PartialEq, PartialOrd)]
struct Num(f64);

impl Quantity for Num {
    fn spec_zero() -> Self {
        Num(0.0)
    }
    fn spec_one() -> Self {
        Num(1.0)
    }
    fn spec_from_u64(n: u64) -> Self {
        Num(n as f64)
    }
    fn spec_plus(self, other: Self) -> Self {
        Num(self.0 + other.0)
    }
    fn spec_minus(self, other: Self) -> Self {
        Num(self.0 - other.0)
    }
    fn spec_times(self, other: Self) -> Self {
        Num(self.0 * other.0)
    }
    fn spec_over(self, other: Self) -> Self {
        Num(self.0 / other.0)
    }
    fn spec_lesser(self, other: Self) -> Self {
        Num(self.0.min(other.0))
    }
    fn spec_less_than(self, other: Self) -> bool {
        self.0 < other.0
    }
    fn spec_at_most(self, other: Self) -> bool {
        self.0 <= other.0
    }
    fn spec_greater_than(self, other: Self) -> bool {
        self.0 > other.0
    }
    fn spec_equals(self, other: Self) -> bool {
        self.0 == other.0
    }
    fn spec_parse(text: &str) -> Option<Self> {
        text.parse::<f64>().ok().map(Num)
    }
    fn zero() -> Self {
        Self::spec_zero()
    }
    fn one() -> Self {
        Self::spec_one()
    }
    fn from_u64(n: u64) -> Self {
        Self::spec_from_u64(n)
    }
    fn plus(self, other: Self) -> Self {
        self.spec_plus(other)
    }
    fn minus(self, other: Self) -> Self {
        self.spec_minus(other)
    }
    fn times(self, other: Self) -> Self {
        self.spec_times(other)
    }
    fn over(self, other: Self) -> Self {
        self.spec_over(other)
    }
    fn lesser(self, other: Self) -> Self {
        self.spec_lesser(other)
    }
    fn less_than(self, other: Self) -> bool {
        self.spec_less_than(other)
    }
    fn at_most(self, other: Self) -> bool {
        self.spec_at_most(other)
    }
    fn greater_than(self, other: Self) -> bool {
        self.spec_greater_than(other)
    }
    fn equals(self, other: Self) -> bool {
        self.spec_equals(other)
    }
    fn parse(text: &str) -> Option<Self> {
        Self::spec_parse(text)
    }
    fn spec_format_fixed(self, places: usize) -> String {
        format!("{:.*}", places, self.0)
    }
    fn format_fixed(self, places: usize) -> String {
        self.spec_format_fixed(places)
    }
    fn spec_format(self) -> String {
        format!("{}", self.0)
    }
    fn format(self) -> String {
        self.spec_format()
    }
}

fn item(name: &str) -> ResourceId {
    ResourceId::item(name)
}

fn fluid(name: &str) -> ResourceId {
    ResourceId::fluid(name)
}

fn per_second(r: f64) -> Num {
    Num(r)
}

fn no_icon() -> RawIconFields {
    RawIconFields { icon: None, icon_size: None, icons: None }
}

fn raw_item(stack_size: u32) -> RawItem {
    RawItem { stack_size, icon: no_icon() }
}

fn raw_fluid(temperature: f64) -> RawFluid<Num> {
    RawFluid { default_temperature: Num(temperature), icon: no_icon() }
}

fn raw_machine(categories: &[&str], speed: f64, energy: &str, slots: Option<u32>) -> RawMachine<Num> {
    RawMachine {
        crafting_categories: categories.iter().map(|c| c.to_string()).collect(),
        crafting_speed: Num(speed),
        energy_usage: energy.to_string(),
        module_slots: slots,
        module_specification: None,
        icon: no_icon(),
    }
}

fn raw_drill(categories: &[&str], speed: f64, energy: &str, slots: Option<u32>) -> RawMiningDrill<Num> {
    RawMiningDrill {
        resource_categories: categories.iter().map(|c| c.to_string()).collect(),
        mining_speed: Num(speed),
        energy_usage: energy.to_string(),
        module_slots: slots,
        module_specification: None,
        icon: no_icon(),
    }
}

fn ingredient(ty: &str, name: &str, amount: f64) -> RawIngredient<Num> {
    RawIngredient { ty: ty.to_string(), name: name.to_string(), amount: Num(amount) }
}

fn product(ty: &str, name: &str, amount: f64) -> RawProduct<Num> {
    RawProduct {
        ty: ty.to_string(),
        name: name.to_string(),
        amount: Some(Num(amount)),
        amount_min: None,
        amount_max: None,
        probability: Num(1.0),
    }
}

fn raw_recipe(
    category: &str,
    energy: f64,
    ingredients: Vec<RawIngredient<Num>>,
    results: Vec<RawProduct<Num>>,
) -> RawRecipe<Num> {
    RawRecipe {
        category: category.to_string(),
        energy_required: Num(energy),
        ingredients,
        results,
        allow_productivity: false,
    }
}

fn simple_resource(category: &str, mining_time: f64, result: &str) -> RawResource<Num> {
    RawResource {
        category: category.to_string(),
        minable: Some(RawMinable {
            mining_time: Num(mining_time),
            result: Some(result.to_string()),
            count: None,
            results: Vec::new(),
            required_fluid: None,
            fluid_amount: Num(0.0),
        }),
    }
}

fn entries<T>(list: Vec<(&str, T)>) -> Vec<(String, Result<T, String>)> {
    list.into_iter().map(|(n, v)| (n.to_string(), Ok(v))).collect()
}

fn empty_dump() -> RawDump<Num> {
    RawDump {
        items: (0..20).map(|_| None).collect(),
        fluids: None,
        machines: vec![None, None, None],
        mining_drills: None,
        recipes: None,
        resources: None,
    }
}


fn with_icon(path: &str) -> RawIconFields {
    RawIconFields { icon: Some(path.to_string()), icon_size: Some(32), icons: None }
}

fn asm_db(recipes: Vec<(&str, RawRecipe<Num>)>) -> Database<Num> {
    let mut dump = empty_dump();
    dump.machines[0] = Some(entries(vec![("asm", raw_machine(&["crafting"], 1.0, "1kW", None))]));
    dump.recipes = Some(entries(recipes));
    build(&dump).unwrap()
}

// ---- association lists ----

#[test]
fn map_lookup_after_store_finds_the_value() {
    let mut m: AssocMap<ResourceId, Num> = AssocMap::new();
    m.insert(item("a"), Num(1.0));
    m.insert(fluid("a"), Num(2.0));
    assert_eq!(m.len(), 2);
    assert_eq!(m.get(&item("a")), Some(&Num(1.0)));
    assert_eq!(m.get(&fluid("a")), Some(&Num(2.0)));
    m.insert(item("a"), Num(3.0));
    assert_eq!(m.len(), 2);
    assert_eq!(m.get(&item("a")), Some(&Num(3.0)));
    assert_eq!(m.get(&fluid("a")), Some(&Num(2.0)));
    assert_eq!(m.find(&fluid("a")), Some(1));
    assert!(m.get(&item("b")).is_none());
}

#[test]
fn map_remove_forgets_only_that_key() {
    let mut m: AssocMap<ResourceId, Num> = AssocMap::new();
    m.insert(item("a"), Num(1.0));
    m.insert(item("b"), Num(2.0));
    m.insert(item("c"), Num(3.0));
    m.remove(&item("b"));
    assert_eq!(m.len(), 2);
    assert!(!m.contains_key(&item("b")));
    assert_eq!(m.get(&item("a")), Some(&Num(1.0)));
    assert_eq!(m.get(&item("c")), Some(&Num(3.0)));
    let keys: Vec<&str> = m.entries().iter().map(|(k, _)| k.name()).collect();
    assert_eq!(keys, vec!["a", "c"]);
    m.remove(&item("zzz"));
    assert_eq!(m.len(), 2);
    let taken = m.take();
    assert_eq!(taken.len(), 2);
    assert_eq!(m.len(), 0);
}

#[test]
fn request_want_accumulates_rates() {
    let request = PlanRequest::new().want(item("a"), Num(1.0)).want(item("b"), Num(4.0)).want(item("a"), Num(2.5));
    assert_eq!(request.targets.len(), 2);
    assert_eq!(request.targets.get(&item("a")), Some(&Num(3.5)));
    assert_eq!(request.targets.get(&item("b")), Some(&Num(4.0)));
}

#[test]
fn config_builders_record_choices() {
    let config = PlanConfig::new()
        .with_recipe(item("x"), RecipeId::new("x-b"))
        .with_machine(CraftingCategory::new("smelting"), MachineId::new("stone-furnace"))
        .with_raw(fluid("water"))
        .with_raw(fluid("water"));
    assert_eq!(config.recipe_for.get(&item("x")).unwrap().as_str(), "x-b");
    assert_eq!(config.machine_for_category.get(&CraftingCategory::new("smelting")).unwrap().as_str(), "stone-furnace");
    assert_eq!(config.raw.len(), 1);
}

// ---- text ----

#[test]
fn text_helpers_give_exact_results() {
    assert!(str_eq("abc", "abc"));
    assert!(!str_eq("abc", "abd"));
    assert_eq!(trim("  1.5 MW \t"), "1.5 MW");
    assert_eq!(trim_start("  x  "), "x  ");
    assert_eq!(trim("\u{3000}é x\u{a0}\u{2029}"), "é x");
    assert_eq!(trim(" \t "), "");
    assert!(!str_eq("ab", "abc"));
    assert!(str_eq("", ""));
    assert_eq!(decimal_string(0), "0");
    assert_eq!(decimal_string(1234), "1234");
    assert_eq!(join_display(&vec!["a".to_string(), "b".to_string(), "c".to_string()], " + "), "a + b + c");
    assert_eq!(join_display(&Vec::new(), ", "), "");
    assert_eq!(escape_html("<a href=\"x\">&</a>"), "&lt;a href=&quot;x&quot;&gt;&amp;&lt;/a&gt;");
}

// ---- energy ----

#[test]
fn energy_units_multiply_by_powers_of_a_thousand() {
    assert_eq!(multiplier::<Num>("W"), Some(Num(1.0)));
    assert_eq!(multiplier::<Num>("kJ"), Some(Num(1e3)));
    assert_eq!(multiplier::<Num>("MW"), Some(Num(1e6)));
    assert_eq!(multiplier::<Num>("TJ"), Some(Num(1e12)));
    assert_eq!(multiplier::<Num>("xW"), None);
    assert_eq!(parse_energy::<Num>("3TW").unwrap(), Num(3e12));
    match parse_energy::<Num>("abc") {
        Err(DumpError::InvalidEnergy(s)) => assert_eq!(s, "abc"),
        other => panic!("unexpected {other:?}"),
    }
}

// ---- icons ----

#[test]
fn path_join_inserts_one_separator() {
    assert_eq!(path_join("/opt", "data"), "/opt/data");
    assert_eq!(path_join("/opt/", "data"), "/opt/data");
    assert_eq!(path_join("", "data"), "data");
    assert_eq!(path_join("/opt", "/abs"), "/abs");
}

#[test]
fn split_prefix_keeps_a_path_without_slash() {
    assert_eq!(split_prefix("__core__icon.png"), Some(("core", "icon.png")));
    assert_eq!(split_prefix("____/x"), Some(("", "x")));
    let install = FactorioInstall::new("/games/factorio");
    assert_eq!(install.root(), "/games/factorio");
    assert!(planner::IconResolver::resolve(&install, &IconRef::new("plain.png", 32)).is_none());
    let inside = planner::IconResolver::resolve(&install, &IconRef::new("__mod-x__/a/b.png", 32)).unwrap();
    assert_eq!(inside, "/games/factorio/mods/mod-x/a/b.png");
    assert!(inside.starts_with(install.root()));
    // an absolute path after the prefix replaces the directory
    let outside = planner::IconResolver::resolve(&install, &IconRef::new("__base__//etc/x.png", 32)).unwrap();
    assert_eq!(outside, "/etc/x.png");
}

// ---- resources and ids ----

#[test]
fn resource_ids_tell_items_from_fluids() {
    let i = item("iron-plate");
    let f = fluid("water");
    assert!(i.is_item() && !i.is_fluid());
    assert!(f.is_fluid() && !f.is_item());
    assert_eq!(i.name(), "iron-plate");
    assert_eq!(f.name(), "water");
    assert!(i != item("iron-ore"));
    assert!(item("water") != f);
    assert!(i == item("iron-plate"));
    assert_eq!(RecipeId::from_static("r").as_str(), "r");
    assert_eq!(MachineId::from(String::from("m")).as_str(), "m");
    assert_eq!(RecipeId::from(String::from("r2")).as_str(), "r2");
    assert_eq!(CraftingCategory::from(String::from("smelting")).as_str(), "smelting");
    assert!(NodeId::new(3) == NodeId::new(3));
    assert!(NodeId::new(3) != NodeId::new(4));
}

#[test]
fn resource_id_reads_the_type() {
    assert!(resource_id("item", "a").unwrap().is_item());
    assert!(resource_id("fluid", "b").unwrap().is_fluid());
    match resource_id("gas", "c") {
        Err(DumpError::UnknownResourceType(t)) => assert_eq!(t, "gas"),
        other => panic!("unexpected {other:?}"),
    }
}

// ---- texts of values ----

#[test]
fn values_describe_themselves() {
    assert_eq!(IconRef::new("__base__/x.png", 64).describe(), "__base__/x.png (64px)");
    assert_eq!(NodeId::new(7).describe(), "#7");
    assert_eq!(EdgeEndpoint::External.describe(), "external");
    assert_eq!(EdgeEndpoint::Node(NodeId::new(2)).describe(), "#2");
    let edge = ProductionEdge { from: EdgeEndpoint::External, to: EdgeEndpoint::Node(NodeId::new(0)), resource: item("ore"), rate: Num(1.5) };
    assert_eq!(edge.describe(), "external --[1.500/s ore]--> #0");
    let node = ProductionNode {
        id: NodeId::new(1),
        recipe: RecipeId::new("plate"),
        machine: MachineId::new("furnace"),
        runs_per_second: Num(0.5),
        machines_needed: Num(1.6),
    };
    assert_eq!(node.describe(), "#1 1.60 × furnace (recipe plate, 0.500 runs/s)");
    assert_eq!(Ingredient::new(item("ore"), Num(2.0)).describe(), "2 × ore");
    assert_eq!(ProductAmount::Range { min: Num(1.0), max: Num(3.0) }.describe(), "1–3");
    assert_eq!(Product::new(item("u235"), ProductAmount::Fixed(Num(1.0)), Num(0.5)).describe(), "1 × u235 (p=0.5)");
    assert_eq!(Product::new(item("u238"), ProductAmount::Fixed(Num(1.0)), Num(1.0)).describe(), "1 × u238");
    let recipe = Recipe {
        id: RecipeId::new("plate"),
        category: CraftingCategory::new("smelting"),
        ingredients: vec![Ingredient::new(item("ore"), Num(1.0))],
        products: vec![Product::new(item("plate"), ProductAmount::Fixed(Num(1.0)), Num(1.0))],
        crafting_time: Num(3.2),
        allow_productivity: false,
    };
    assert_eq!(recipe.describe(), "plate: 1 × ore → 1 × plate (3.2s, smelting)");
    let mining = Recipe {
        id: RecipeId::new("ore"),
        category: CraftingCategory::new("basic-solid"),
        ingredients: Vec::new(),
        products: vec![Product::new(item("ore"), ProductAmount::Fixed(Num(1.0)), Num(1.0))],
        crafting_time: Num(1.0),
        allow_productivity: false,
    };
    assert_eq!(mining.describe(), "ore → 1 × ore (1s, basic-solid)");
    let machine = Machine {
        id: MachineId::new("asm"),
        kind: MachineKind::AssemblingMachine,
        crafting_categories: vec![CraftingCategory::new("crafting"), CraftingCategory::new("advanced")],
        crafting_speed: Num(0.75),
        module_slots: 2,
        energy_usage_watts: Num(150_000.0),
        icon: None,
    };
    assert_eq!(machine.describe(), "(assembling-machine) speed=0.75 slots=2 energy=150.00 kW categories=[crafting, advanced]");
    assert_eq!(MachineKind::MiningDrill.name(), "mining-drill");
    let water = planner::Fluid { id: planner::FluidId::new("water"), default_temperature: Num(15.0), icon: None };
    assert_eq!(water.describe(), "[15°C]");
}

#[test]
fn watts_pick_the_largest_unit_reached() {
    assert_eq!(format_watts(Num(2.5e9)), "2.50 GW");
    assert_eq!(format_watts(Num(-3e6)), "-3.00 MW");
    assert_eq!(format_watts(Num(1000.0)), "1.00 kW");
    assert_eq!(format_watts(Num(999.0)), "999 W");
    assert_eq!(join_categories(&vec![CraftingCategory::new("a")]), "a");
}

// ---- database ----

#[test]
fn database_queries_list_matches_in_order() {
    let db = asm_db(vec![
        ("a1", raw_recipe("crafting", 1.0, vec![], vec![product("item", "a", 1.0)])),
        ("b1", raw_recipe("smelting", 1.0, vec![], vec![product("item", "b", 1.0)])),
        ("a2", raw_recipe("smelting", 1.0, vec![ingredient("item", "b", 1.0)], vec![product("fluid", "a", 1.0)])),
    ]);
    let names = |ids: Vec<RecipeId>| ids.iter().map(|r| r.as_str().to_owned()).collect::<Vec<_>>();
    assert_eq!(names(db.recipes_producing("a")), vec!["a1", "a2"]);
    assert_eq!(names(db.recipes_in_category(&CraftingCategory::new("smelting"))), vec!["b1", "a2"]);
    let machines = db.machines_for_category(&CraftingCategory::new("crafting"));
    assert_eq!(machines.len(), 1);
    assert!(db.machines_for_category(&CraftingCategory::new("smelting")).is_empty());
    let a2 = db.recipe(&RecipeId::new("a2")).unwrap();
    assert!(a2.produces("a") && a2.consumes("b") && !a2.consumes("a"));
    assert!(a2.produces_resource(&fluid("a")) && !a2.produces_resource(&item("a")));
    assert!(a2.consumes_resource(&item("b")) && !a2.consumes_resource(&fluid("b")));
    assert_eq!(a2.expected_yield_of(&fluid("a")), Num(1.0));
    assert_eq!(a2.expected_yield_of(&item("a")), Num(0.0));
    assert_eq!(names(db.recipes_producing_resource(&item("a"))), vec!["a1"]);
    assert_eq!(names(db.recipes_producing_resource(&fluid("a"))), vec!["a2"]);
    assert_eq!(db.describe(), "Database { items: 0, fluids: 0, recipes: 3, machines: 1 }");
}

// ---- reading dumps ----

#[test]
fn later_prototype_of_the_same_name_replaces_the_earlier() {
    let mut dump = empty_dump();
    dump.items[0] = Some(entries(vec![("x", raw_item(10))]));
    dump.items[2] = Some(entries(vec![("x", raw_item(20))]));
    let db = build(&dump).unwrap();
    assert_eq!(db.items.len(), 1);
    assert_eq!(db.item(&planner::ItemId::new("x")).unwrap().stack_size, 20);
}

#[test]
fn malformed_prototype_is_reported_with_its_kind_and_name() {
    let mut dump = empty_dump();
    dump.recipes = Some(vec![("bad".to_string(), Err("missing field `results`".to_string()))]);
    match build(&dump) {
        Err(DumpError::MalformedPrototype { kind, name, reason }) => {
            assert_eq!(kind, "recipe");
            assert_eq!(name, "bad");
            assert_eq!(reason, "missing field `results`");
        },
        other => panic!("unexpected {other:?}"),
    }
}

#[test]
fn invalid_machine_energy_is_reported() {
    let mut dump = empty_dump();
    dump.machines[1] = Some(entries(vec![("f", raw_machine(&["smelting"], 1.0, "12xW", None))]));
    match build(&dump) {
        Err(DumpError::InvalidEnergy(s)) => assert_eq!(s, "12xW"),
        other => panic!("unexpected {other:?}"),
    }
}

#[test]
fn unknown_ingredient_type_is_reported() {
    let mut dump = empty_dump();
    dump.recipes = Some(entries(vec![("r", raw_recipe("crafting", 1.0, vec![ingredient("gas", "g", 1.0)], vec![]))]));
    assert!(matches!(build(&dump), Err(DumpError::UnknownResourceType(_))));
}

#[test]
fn icons_come_from_the_icon_or_the_first_layer() {
    let mut dump = empty_dump();
    let layered = RawIconFields {
        icon: None,
        icon_size: Some(16),
        icons: Some(vec![
            RawIconLayer { icon: "__base__/layer1.png".to_string(), icon_size: None },
            RawIconLayer { icon: "__base__/layer2.png".to_string(), icon_size: Some(8) },
        ]),
    };
    dump.items[0] = Some(entries(vec![
        ("plain", RawItem { stack_size: 1, icon: with_icon("__base__/plain.png") }),
        ("layered", RawItem { stack_size: 1, icon: layered }),
        ("none", RawItem { stack_size: 1, icon: no_icon() }),
    ]));
    let db = build(&dump).unwrap();
    let plain = db.item(&planner::ItemId::new("plain")).unwrap().icon.as_ref().unwrap();
    assert_eq!((plain.path.as_str(), plain.size), ("__base__/plain.png", 32));
    let layered = db.item(&planner::ItemId::new("layered")).unwrap().icon.as_ref().unwrap();
    assert_eq!(layered.path, "__base__/layer1.png");
    assert!(db.item(&planner::ItemId::new("none")).unwrap().icon.is_none());
}

// ---- planning: errors ----

#[test]
fn chosen_recipe_that_does_not_produce_is_refused() {
    let db = asm_db(vec![
        ("y", raw_recipe("crafting", 1.0, vec![], vec![product("item", "y", 1.0)])),
        ("x", raw_recipe("crafting", 1.0, vec![], vec![product("item", "x", 1.0)])),
    ]);
    let config = PlanConfig::new().with_recipe(item("x"), RecipeId::new("y"));
    let request = PlanRequest::new().want(item("x"), Num(1.0)).with_config(config);
    match plan(&db, &request) {
        Err(Error::RecipeDoesNotProduce(r, res)) => {
            assert_eq!(r.as_str(), "y");
            assert_eq!(res.name(), "x");
        },
        other => panic!("unexpected {other:?}"),
    }
}

#[test]
fn chosen_recipe_missing_from_database_is_refused() {
    let db = asm_db(vec![("x", raw_recipe("crafting", 1.0, vec![], vec![product("item", "x", 1.0)]))]);
    let config = PlanConfig::new().with_recipe(item("x"), RecipeId::new("nope"));
    let request = PlanRequest::new().want(item("x"), Num(1.0)).with_config(config);
    assert!(matches!(plan(&db, &request), Err(Error::UnknownRecipe(r)) if r.as_str() == "nope"));
}

#[test]
fn category_without_machine_is_refused() {
    let db = asm_db(vec![("x", raw_recipe("chemistry", 1.0, vec![], vec![product("item", "x", 1.0)]))]);
    let request = PlanRequest::new().want(item("x"), Num(1.0));
    assert!(matches!(plan(&db, &request), Err(Error::NoMachineForCategory(c)) if c.as_str() == "chemistry"));
}

#[test]
fn recipe_yielding_nothing_is_refused() {
    let db = asm_db(vec![("x", raw_recipe("crafting", 1.0, vec![], vec![product("item", "x", 0.0)]))]);
    let request = PlanRequest::new().want(item("x"), Num(1.0));
    assert!(matches!(plan(&db, &request), Err(Error::NoYield(r, res)) if r.as_str() == "x" && res.name() == "x"));
}

#[test]
fn recipe_needing_its_own_product_is_a_cycle() {
    let db = asm_db(vec![
        ("a", raw_recipe("crafting", 1.0, vec![ingredient("item", "b", 1.0)], vec![product("item", "a", 1.0)])),
        ("b", raw_recipe("crafting", 1.0, vec![ingredient("item", "a", 1.0)], vec![product("item", "b", 1.0)])),
    ]);
    let request = PlanRequest::new().want(item("a"), Num(1.0));
    assert!(matches!(plan(&db, &request), Err(Error::Cycle(_))));
}

// ---- planning: the shape of a line ----

#[test]
fn planned_line_is_well_formed() {
    let db = asm_db(vec![
        ("gear", raw_recipe("crafting", 0.5, vec![ingredient("item", "plate", 2.0)], vec![product("item", "gear", 1.0)])),
        ("belt", raw_recipe(
            "crafting",
            0.5,
            vec![ingredient("item", "gear", 1.0), ingredient("item", "plate", 1.0)],
            vec![product("item", "belt", 2.0)],
        )),
    ]);
    let request = PlanRequest::new().want(item("belt"), Num(2.0));
    let line = plan(&db, &request).unwrap();
    assert_eq!(line.nodes.len(), 2);
    for (i, node) in line.nodes.iter().enumerate() {
        assert_eq!(node.id.index(), i);
        assert_eq!(line.node(NodeId::new(i)).recipe.as_str(), node.recipe.as_str());
        assert_eq!(node.machine.as_str(), "asm");
    }
    // plate is raw: one raw input, fed by edges from outside into both nodes
    assert_eq!(line.raw_inputs.len(), 1);
    assert!((line.raw_inputs.get(&item("plate")).unwrap().0 - 3.0).abs() < 1e-9);
    let from_outside = line.edges.iter().filter(|e| e.from == EdgeEndpoint::External).count();
    assert_eq!(from_outside, 2);
    let belt = NodeId::new(0);
    assert_eq!(line.incoming(belt).len(), 2);
    assert_eq!(line.outgoing(belt).len(), 1);
    assert_eq!(line.outgoing(belt)[0].to, EdgeEndpoint::External);
    assert!((line.outputs.get(&item("belt")).unwrap().0 - 2.0).abs() < 1e-9);
    assert_eq!(line.describe(), "ProductionLine { nodes: 2, edges: 4, raw_inputs: 1, outputs: 1 }");
    // every edge carries a product of the node it leaves and an ingredient
    // of the node it enters
    for edge in &line.edges {
        if let EdgeEndpoint::Node(id) = edge.from {
            let recipe = db.recipe(&line.node(id).recipe).unwrap();
            assert!(recipe.produces(edge.resource.name()));
        }
        if let EdgeEndpoint::Node(id) = edge.to {
            let recipe = db.recipe(&line.node(id).recipe).unwrap();
            assert!(recipe.consumes(edge.resource.name()));
        }
    }
    // every node delivers something
    for node in &line.nodes {
        assert!(!line.outgoing(node.id).is_empty());
    }
    // every edge joins distinct endpoints and resources
    for (i, a) in line.edges.iter().enumerate() {
        for b in line.edges.iter().skip(i + 1) {
            assert!(!(a.from == b.from && a.to == b.to && a.resource == b.resource));
        }
    }
}

#[test]
fn outputs_come_in_the_order_of_their_first_edges() {
    let db = asm_db(vec![(
        "ab",
        raw_recipe("crafting", 1.0, vec![], vec![product("item", "b", 2.0), product("item", "a", 1.0)]),
    )]);
    let line = plan(&db, &PlanRequest::new().want(item("a"), Num(1.0))).unwrap();
    let names: Vec<&str> = line.outputs.entries().iter().map(|(k, _)| k.name()).collect();
    assert_eq!(names, vec!["a", "b"]);
    assert_eq!(line.raw_inputs.len(), 0);
}

#[test]
fn faster_machine_wins_and_later_one_wins_ties() {
    let mut dump = empty_dump();
    dump.machines[0] = Some(entries(vec![
        ("slow", raw_machine(&["crafting"], 0.5, "1kW", None)),
        ("fast-a", raw_machine(&["crafting"], 1.0, "1kW", None)),
        ("fast-b", raw_machine(&["crafting"], 1.0, "1kW", None)),
    ]));
    dump.recipes = Some(entries(vec![("x", raw_recipe("crafting", 1.0, vec![], vec![product("item", "x", 1.0)]))]));
    let db = build(&dump).unwrap();
    let line = plan(&db, &PlanRequest::new().want(item("x"), Num(1.0))).unwrap();
    assert_eq!(line.nodes[0].machine.as_str(), "fast-b");
}

// ---- export ----

#[test]
fn digraph_ids_and_cells() {
    assert_eq!(node_dot_id(NodeId::new(12)), "n12");
    assert_eq!(source_dot_id(&item("iron-ore")), "\"src:iron-ore\"");
    assert_eq!(sink_dot_id(&fluid("water")), "\"sink:water\"");
    assert_eq!(cell("x"), "<TR><TD>x</TD></TR>");
    assert_eq!(
        image_cell("/i/a&b.png"),
        "<TR><TD FIXEDSIZE=\"TRUE\" WIDTH=\"48\" HEIGHT=\"48\"><IMG SRC=\"/i/a&amp;b.png\" SCALE=\"TRUE\"/></TD></TR>"
    );
}

#[test]
fn edge_label_marks_resources_with_icons() {
    let mut dump = empty_dump();
    dump.items[0] = Some(entries(vec![("ore", RawItem { stack_size: 1, icon: with_icon("__base__/ore.png") })]));
    let db = build(&dump).unwrap();
    let with = ProductionEdge { from: EdgeEndpoint::External, to: EdgeEndpoint::External, resource: item("ore"), rate: Num(1.0) };
    let without = ProductionEdge { from: EdgeEndpoint::External, to: EdgeEndpoint::External, resource: item("a<b"), rate: Num(2.0) };
    assert_eq!(edge_label(&with, &db), "• ore<BR/>1.000/s");
    assert_eq!(lookup_resource_icon(&item("ore"), &db).unwrap().path, "__base__/ore.png");
    assert!(lookup_resource_icon(&fluid("ore"), &db).is_none());
    assert_eq!(edge_label(&without, &db), "a&lt;b<BR/>2.000/s");
}

#[test]
fn empty_line_is_an_empty_digraph() {
    let db: Database<Num> = Database::new();
    let line: ProductionLine<Num> =
        ProductionLine { nodes: Vec::new(), edges: Vec::new(), raw_inputs: AssocMap::new(), outputs: AssocMap::new() };
    let text = write_dot::<Num, FactorioInstall>(&line, &db, None);
    assert_eq!(
        text,
        "digraph ProductionLine {\n    rankdir=LR;\n    node [shape=plaintext];\n    edge [fontsize=10];\n\n\n}\n"
    );
}
