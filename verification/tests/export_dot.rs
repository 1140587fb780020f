use planner::dump::parse::build;
use planner::dump::raw::{
    RawDump, RawFluid, RawIconFields, RawIngredient, RawItem, RawMachine, RawMinable, RawMiningDrill, RawProduct,
    RawRecipe, RawResource,
};
use planner::export::write_dot;
use planner::{
    AssocMap, Database, FactorioInstall, IconRef, IconResolver, Item, ItemId, PlanConfig, PlanRequest,
    ProductionLine, Quantity, ResourceId,
};
use planner::plan;

#[derive(Debug, Clone, Copy, PartialEq, PartialOrd)]
struct Num(f64);

impl Quantity for Num {
    fn spec_zero() -> Self {
        Num(0.0)
    }
    fn spec_one() -> Self {
        Num(1.0)
    }
    fn spec_from_u64(n: u64) -> Self {
        Num(n as f64)
    }
    fn spec_plus(self, other: Self) -> Self {
        Num(self.0 + other.0)
    }
    fn spec_minus(self, other: Self) -> Self {
        Num(self.0 - other.0)
    }
    fn spec_times(self, other: Self) -> Self {
        Num(self.0 * other.0)
    }
    fn spec_over(self, other: Self) -> Self {
        Num(self.0 / other.0)
    }
    fn spec_lesser(self, other: Self) -> Self {
        Num(self.0.min(other.0))
    }
    fn spec_less_than(self, other: Self) -> bool {
        self.0 < other.0
    }
    fn spec_at_most(self, other: Self) -> bool {
        self.0 <= other.0
    }
    fn spec_greater_than(self, other: Self) -> bool {
        self.0 > other.0
    }
    fn spec_equals(self, other: Self) -> bool {
        self.0 == other.0
    }
    fn spec_parse(text: &str) -> Option<Self> {
        text.parse::<f64>().ok().map(Num)
    }
    fn zero() -> Self {
        Self::spec_zero()
    }
    fn one() -> Self {
        Self::spec_one()
    }
    fn from_u64(n: u64) -> Self {
        Self::spec_from_u64(n)
    }
    fn plus(self, other: Self) -> Self {
        self.spec_plus(other)
    }
    fn minus(self, other: Self) -> Self {
        self.spec_minus(other)
    }
    fn times(self, other: Self) -> Self {
        self.spec_times(other)
    }
    fn over(self, other: Self) -> Self {
        self.spec_over(other)
    }
    fn lesser(self, other: Self) -> Self {
        self.spec_lesser(other)
    }
    fn less_than(self, other: Self) -> bool {
        self.spec_less_than(other)
    }
    fn at_most(self, other: Self) -> bool {
        self.spec_at_most(other)
    }
    fn greater_than(self, other: Self) -> bool {
        self.spec_greater_than(other)
    }
    fn equals(self, other: Self) -> bool {
        self.spec_equals(other)
    }
    fn parse(text: &str) -> Option<Self> {
        Self::spec_parse(text)
    }
    fn spec_format_fixed(self, places: usize) -> String {
        format!("{:.*}", places, self.0)
    }
    fn format_fixed(self, places: usize) -> String {
        self.spec_format_fixed(places)
    }
    fn spec_format(self) -> String {
        format!("{}", self.0)
    }
    fn format(self) -> String {
        self.spec_format()
    }
}

fn item(name: &str) -> ResourceId {
    ResourceId::item(name)
}

fn per_second(r: f64) -> Num {
    Num(r)
}

fn no_icon() -> RawIconFields {
    RawIconFields { icon: None, icon_size: None, icons: None }
}

fn raw_item(stack_size: u32) -> RawItem {
    RawItem { stack_size, icon: no_icon() }
}

fn raw_fluid(temperature: f64) -> RawFluid<Num> {
    RawFluid { default_temperature: Num(temperature), icon: no_icon() }
}

fn raw_machine(categories: &[&str], speed: f64, energy: &str, slots: Option<u32>) -> RawMachine<Num> {
    RawMachine {
        crafting_categories: categories.iter().map(|c| c.to_string()).collect(),
        crafting_speed: Num(speed),
        energy_usage: energy.to_string(),
        module_slots: slots,
        module_specification: None,
        icon: no_icon(),
    }
}

fn raw_drill(categories: &[&str], speed: f64, energy: &str, slots: Option<u32>) -> RawMiningDrill<Num> {
    RawMiningDrill {
        resource_categories: categories.iter().map(|c| c.to_string()).collect(),
        mining_speed: Num(speed),
        energy_usage: energy.to_string(),
        module_slots: slots,
        module_specification: None,
        icon: no_icon(),
    }
}

fn ingredient(ty: &str, name: &str, amount: f64) -> RawIngredient<Num> {
    RawIngredient { ty: ty.to_string(), name: name.to_string(), amount: Num(amount) }
}

fn product(ty: &str, name: &str, amount: f64) -> RawProduct<Num> {
    RawProduct {
        ty: ty.to_string(),
        name: name.to_string(),
        amount: Some(Num(amount)),
        amount_min: None,
        amount_max: None,
        probability: Num(1.0),
    }
}

fn raw_recipe(
    category: &str,
    energy: f64,
    ingredients: Vec<RawIngredient<Num>>,
    results: Vec<RawProduct<Num>>,
) -> RawRecipe<Num> {
    RawRecipe {
        category: category.to_string(),
        energy_required: Num(energy),
        ingredients,
        results,
        allow_productivity: false,
    }
}

fn simple_resource(category: &str, mining_time: f64, result: &str) -> RawResource<Num> {
    RawResource {
        category: category.to_string(),
        minable: Some(RawMinable {
            mining_time: Num(mining_time),
            result: Some(result.to_string()),
            count: None,
            results: Vec::new(),
            required_fluid: None,
            fluid_amount: Num(0.0),
        }),
    }
}

fn entries<T>(list: Vec<(&str, T)>) -> Vec<(String, Result<T, String>)> {
    list.into_iter().map(|(n, v)| (n.to_string(), Ok(v))).collect()
}

fn empty_dump() -> RawDump<Num> {
    RawDump {
        items: (0..20).map(|_| None).collect(),
        fluids: None,
        machines: vec![None, None, None],
        mining_drills: None,
        recipes: None,
        resources: None,
    }
}


fn with_icon(path: &str) -> RawIconFields {
    RawIconFields { icon: Some(path.to_string()), icon_size: Some(64), icons: None }
}

fn load_db() -> Database<Num> {
    let mut dump = empty_dump();
    dump.items[0] = Some(entries(vec![
        ("iron-ore", RawItem { stack_size: 50, icon: with_icon("__base__/icons/iron-ore.png") }),
        ("iron-plate", RawItem { stack_size: 100, icon: with_icon("__base__/icons/iron-plate.png") }),
    ]));
    dump.fluids = Some(Vec::new());
    let mut furnace = raw_machine(&["smelting"], 1.0, "90kW", None);
    furnace.icon = with_icon("__base__/icons/stone-furnace.png");
    dump.machines[1] = Some(entries(vec![("stone-furnace", furnace)]));
    dump.mining_drills =
        Some(entries(vec![("electric-mining-drill", raw_drill(&["basic-solid"], 0.5, "90kW", None))]));
    dump.recipes = Some(entries(vec![(
        "iron-plate",
        raw_recipe("smelting", 3.2, vec![ingredient("item", "iron-ore", 1.0)], vec![product(
            "item",
            "iron-plate",
            1.0,
        )]),
    )]));
    dump.resources = Some(entries(vec![("iron-ore", simple_resource("basic-solid", 1.0, "iron-ore"))]));
    build(&dump).unwrap()
}

fn build_line(db: &Database<Num>) -> ProductionLine<Num> {
    let request = PlanRequest::new().want(item("iron-plate"), per_second(1.0));
    plan(db, &request).unwrap()
}

fn dot_without_icons(line: &ProductionLine<Num>, db: &Database<Num>) -> String {
    write_dot::<Num, FactorioInstall>(line, db, None)
}

#[test]
fn writes_digraph_header_and_closer() {
    let db = load_db();
    let line = build_line(&db);
    let text = dot_without_icons(&line, &db);
    assert!(text.starts_with("digraph ProductionLine {"));
    assert!(text.trim_end().ends_with('}'));
}

#[test]
fn includes_machine_node_per_production_node() {
    let db = load_db();
    let line = build_line(&db);
    let text = dot_without_icons(&line, &db);
    for node in &line.nodes {
        let id = format!("n{}", node.id.index());
        assert!(text.contains(&format!("    {id} [label=<")), "missing node {id} in output:\n{text}",);
    }
}

#[test]
fn includes_source_and_sink_nodes() {
    let db = load_db();
    let line = build_line(&db);
    let text = dot_without_icons(&line, &db);
    for (resource, _) in line.raw_inputs.entries() {
        assert!(text.contains(&format!("\"src:{}\"", resource.name())));
    }
    for (resource, _) in line.outputs.entries() {
        assert!(text.contains(&format!("\"sink:{}\"", resource.name())));
    }
}

#[test]
fn includes_edge_per_production_edge() {
    let db = load_db();
    let line = build_line(&db);
    let text = dot_without_icons(&line, &db);
    assert_eq!(text.matches(" -> ").count(), line.edges.len());
    for edge in &line.edges {
        assert!(text.contains(edge.resource.name()));
    }
}

#[test]
fn omits_img_tags_when_no_resolver() {
    let db = load_db();
    let line = build_line(&db);
    let text = dot_without_icons(&line, &db);
    assert!(!text.contains("<IMG"), "unexpected IMG tag without resolver:\n{text}");
}

struct FixedResolver;

impl IconResolver for FixedResolver {
    fn resolve(&self, icon: &IconRef) -> Option<String> {
        let rest = icon.path.trim_start_matches("__base__/").trim_start_matches('/');
        Some(format!("/icons/{rest}"))
    }
}

#[test]
fn emits_img_tags_when_resolver_provided() {
    let db = load_db();
    let config = PlanConfig::new().with_raw(item("iron-ore"));
    let request = PlanRequest::new().want(item("iron-plate"), per_second(1.0)).with_config(config);
    let line = plan(&db, &request).unwrap();
    let text = write_dot(&line, &db, Some(&FixedResolver));
    assert!(text.contains("<IMG"), "expected IMG tag with resolver:\n{text}");
    assert!(text.contains("/icons/icons/stone-furnace.png"));
    assert!(text.contains("/icons/icons/iron-ore.png"));
    assert!(text.contains("/icons/icons/iron-plate.png"));
}

#[test]
fn html_escapes_special_characters_in_resource_names() {
    let mut db: Database<Num> = Database::new();
    db.insert_item(Item { id: ItemId::new("weird&name"), stack_size: 1, icon: None });
    let mut line: ProductionLine<Num> =
        ProductionLine { nodes: Vec::new(), edges: Vec::new(), raw_inputs: AssocMap::new(), outputs: AssocMap::new() };
    line.outputs.insert(item("weird&name"), per_second(1.0));
    let text = dot_without_icons(&line, &db);
    assert!(text.contains("weird&amp;name"));
}
