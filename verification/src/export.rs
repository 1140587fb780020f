//! Drawing a production line as a Graphviz `dot` digraph.
//!
//! Machines are drawn as tables with an optional icon, the machine count,
//! the recipe and its runs per second; raw inputs and outputs as dashed and
//! bold tables; flows as edges labelled with the resource and its rate.

use vstd::prelude::*;

use crate::assoc::{has_key, value_of};
use crate::database::Database;
use crate::icons::IconResolver;
use crate::ids::MachineId;
use crate::line::{EdgeEndpoint, NodeId, ProductionEdge, ProductionLine, ProductionNode};
use crate::quantity::Quantity;
use crate::resource::{IconRef, ResourceId};
use crate::text::{decimal, decimal_string, escape_html, escaped, joined, trim_front, trim_start};

verus! {

/// The id of the node at position `idx` in the digraph.
pub open spec fn node_dot_id_spec(idx: nat) -> Seq<char> {
    "n"@ + decimal(idx)
}

/// The id of the node in the digraph.
pub fn node_dot_id(id: NodeId) -> (s: String)
    ensures
        s@ == node_dot_id_spec(id@ as nat),
{
    let mut s = "n".to_owned();
    let digits = decimal_string(id.index());
    s.append(digits.as_str());
    s
}

/// The id in the digraph of the source of the raw input `name`.
pub open spec fn source_dot_id_spec(name: Seq<char>) -> Seq<char> {
    "\"src:"@ + name + "\""@
}

/// The id in the digraph of the source of the raw input `resource`.
pub fn source_dot_id(resource: &ResourceId) -> (s: String)
    ensures
        s@ == source_dot_id_spec(resource@.1),
{
    let mut s = "\"src:".to_owned();
    s.append(resource.name());
    s.append("\"");
    s
}

/// The id in the digraph of the sink of the output `name`.
pub open spec fn sink_dot_id_spec(name: Seq<char>) -> Seq<char> {
    "\"sink:"@ + name + "\""@
}

/// The id in the digraph of the sink of the output `resource`.
pub fn sink_dot_id(resource: &ResourceId) -> (s: String)
    ensures
        s@ == sink_dot_id_spec(resource@.1),
{
    let mut s = "\"sink:".to_owned();
    s.append(resource.name());
    s.append("\"");
    s
}

/// A table row of one cell.
pub open spec fn cell_spec(content: Seq<char>) -> Seq<char> {
    "<TR><TD>"@ + content + "</TD></TR>"@
}

/// A table row of one cell holding `content`.
pub fn cell(content: &str) -> (s: String)
    ensures
        s@ == cell_spec(content@),
{
    let mut s = "<TR><TD>".to_owned();
    s.append(content);
    s.append("</TD></TR>");
    s
}

/// The start of a label table.
pub open spec fn table_open() -> Seq<char> {
    "<TABLE BORDER=\"0\" CELLBORDER=\"1\" CELLSPACING=\"0\" CELLPADDING=\"4\">"@
}

/// A label table with the given rows.
pub open spec fn table_spec(rows: Seq<Seq<char>>) -> Seq<char> {
    table_open() + joined(rows, Seq::empty()) + "</TABLE>"@
}

/// A label table with the given rows.
pub fn table(rows: &Vec<String>) -> (s: String)
    ensures
        s@ == table_spec(rows@.map_values(|r: String| r@)),
{
    let ghost views = rows@.map_values(|r: String| r@);
    let mut s = "<TABLE BORDER=\"0\" CELLBORDER=\"1\" CELLSPACING=\"0\" CELLPADDING=\"4\">".to_owned();
    let n = rows.len();
    let mut i: usize = 0;
    while i < n
        invariant
            n == rows@.len(),
            i <= n,
            views == rows@.map_values(|r: String| r@),
            s@ == table_open() + joined(views.take(i as int), Seq::empty()),
        decreases n - i,
    {
        proof {
            assert(views.take(i + 1).drop_last() =~= views.take(i as int));
            if i == 0 {
                assert(views.take(1) =~= seq![views[0]]);
            }
        }
        s.append(rows[i].as_str());
        proof {
            if i == 0 {
                assert(joined(views.take(1), Seq::empty()) == views[0]);
            }
            assert(s@ =~= table_open() + joined(views.take(i + 1), Seq::empty()));
        }
        i = i + 1;
    }
    s.append("</TABLE>");
    proof {
        assert(views.take(n as int) =~= views);
    }
    s
}

/// The row that shows an icon whose file is at `path` (escaped).
pub open spec fn img_cell_spec(escaped_path: Seq<char>) -> Seq<char> {
    "<TR><TD FIXEDSIZE=\"TRUE\" WIDTH=\"48\" HEIGHT=\"48\"><IMG SRC=\""@ + escaped_path + "\" SCALE=\"TRUE\"/></TD></TR>"@
}

/// `part` is the icon row of a label for `icon`: empty without an icon or
/// without a resolver, and otherwise, for what the resolver gave for the
/// icon, the image of that file, or empty when it gave none.
pub open spec fn icon_cell_ok<R: IconResolver>(part: Seq<char>, icon: Option<IconRef>, resolver: Option<&R>) -> bool {
    match (icon, resolver) {
        (Some(i), Some(res)) => exists|p: Option<String>|
            #[trigger] call_ensures(R::resolve, (res, &i), p) && part == match p {
                Some(path) => img_cell_spec(escaped(path@)),
                None => Seq::<char>::empty(),
            },
        _ => part == Seq::<char>::empty(),
    }
}

/// The icon of the machine `id`, if the database has the machine and it
/// has an icon.
pub open spec fn machine_icon<N: Quantity>(db: &Database<N>, id: Seq<char>) -> Option<IconRef> {
    if db.has_machine(id) {
        db.machine_at(id).icon
    } else {
        None
    }
}

/// The icon of the item or fluid, if the database has it and it has an
/// icon.
pub open spec fn resource_icon<N: Quantity>(db: &Database<N>, resource: (bool, Seq<char>)) -> Option<IconRef> {
    if resource.0 {
        if has_key(db.fluids@, resource.1) {
            value_of(db.fluids@, resource.1).icon
        } else {
            None
        }
    } else {
        if has_key(db.items@, resource.1) {
            value_of(db.items@, resource.1).icon
        } else {
            None
        }
    }
}

/// The icon row of a label: the image of the icon's file, when there is an
/// icon and a resolver that finds its file.
pub fn icon_cell<R: IconResolver>(icon: Option<&IconRef>, resolver: Option<&R>) -> (s: String)
    ensures
        icon_cell_ok(
            s@,
            match icon {
                Some(i) => Some(*i),
                None => None,
            },
            resolver,
        ),
{
    let icon = match icon {
        Some(i) => i,
        None => {
            return String::new();
        },
    };
    let resolver = match resolver {
        Some(r) => r,
        None => {
            return String::new();
        },
    };
    let path = match resolver.resolve(icon) {
        Some(p) => p,
        None => {
            return String::new();
        },
    };
    image_cell(path.as_str())
}

/// The row that shows the icon whose file is at `path`.
pub fn image_cell(path: &str) -> (s: String)
    ensures
        s@ == img_cell_spec(escaped(path@)),
{
    let mut s = "<TR><TD FIXEDSIZE=\"TRUE\" WIDTH=\"48\" HEIGHT=\"48\"><IMG SRC=\"".to_owned();
    let escaped_path = escape_html(path);
    s.append(escaped_path.as_str());
    s.append("\" SCALE=\"TRUE\"/></TD></TR>");
    proof {
        assert(s@ =~= img_cell_spec(escaped(path@)));
    }
    s
}

/// The machine `id` is in the database and has an icon.
pub open spec fn machine_has_icon<N: Quantity>(db: &Database<N>, id: Seq<char>) -> bool {
    db.has_machine(id) && db.machine_at(id).icon is Some
}

/// The icon of the machine `id`, if the database has the machine and it has
/// an icon.
pub fn lookup_machine_icon<'a, N: Quantity>(id: &MachineId, db: &'a Database<N>) -> (r: Option<&'a IconRef>)
    requires
        db.tables_wf(),
    ensures
        r is Some == machine_has_icon(db, id@),
        r matches Some(i) ==> db.machine_at(id@).icon == Some(*i),
{
    match db.machine(id) {
        Some(m) => match &m.icon {
            Some(i) => Some(i),
            None => None,
        },
        None => None,
    }
}

/// The resource is in the database (as an item or as a fluid) and has an
/// icon.
pub open spec fn resource_has_icon<N: Quantity>(db: &Database<N>, resource: (bool, Seq<char>)) -> bool {
    if resource.0 {
        has_key(db.fluids@, resource.1) && value_of(db.fluids@, resource.1).icon is Some
    } else {
        has_key(db.items@, resource.1) && value_of(db.items@, resource.1).icon is Some
    }
}

/// The icon of the item or fluid, if the database has it and it has an icon.
pub fn lookup_resource_icon<'a, N: Quantity>(resource: &ResourceId, db: &'a Database<N>) -> (r: Option<&'a IconRef>)
    requires
        db.tables_wf(),
    ensures
        r is Some == resource_has_icon(db, resource@),
        r matches Some(i) ==> (if resource@.0 {
            value_of(db.fluids@, resource@.1).icon == Some(*i)
        } else {
            value_of(db.items@, resource@.1).icon == Some(*i)
        }),
{
    match resource {
        ResourceId::Item(id) => match db.item(id) {
            Some(item) => match &item.icon {
                Some(i) => Some(i),
                None => None,
            },
            None => None,
        },
        ResourceId::Fluid(id) => match db.fluid(id) {
            Some(fluid) => match &fluid.icon {
                Some(i) => Some(i),
                None => None,
            },
            None => None,
        },
    }
}

/// `s` is the label of the node `node`: its icon row, the number of
/// machines (with two decimals) and the machine, the recipe, and the runs
/// per second (with three decimals).
pub open spec fn machine_label_ok<N: Quantity, R: IconResolver>(
    s: Seq<char>,
    node: ProductionNode<N>,
    db: &Database<N>,
    resolver: Option<&R>,
) -> bool {
    exists|icon_part: Seq<char>|
        icon_cell_ok(icon_part, machine_icon(db, node.machine@), resolver) && s == #[trigger] machine_table(
            icon_part,
            node.machines_needed.spec_format_fixed(2)@,
            node.runs_per_second.spec_format_fixed(3)@,
            node.machine@,
            node.recipe@,
        )
}

/// The table of a machine node, given its icon row and the texts of its
/// numbers.
pub open spec fn machine_table(
    icon_part: Seq<char>,
    count: Seq<char>,
    runs: Seq<char>,
    machine: Seq<char>,
    recipe: Seq<char>,
) -> Seq<char> {
    table_spec(
        seq![
            icon_part,
            cell_spec(count + " ×"@ + " "@ + escaped(machine)),
            cell_spec(escaped(recipe)),
            cell_spec(runs + " runs/s"@),
        ],
    )
}

/// The label of a machine node.
pub fn machine_label<N: Quantity, R: IconResolver>(
    node: &ProductionNode<N>,
    db: &Database<N>,
    resolver: Option<&R>,
) -> (s: String)
    requires
        db.tables_wf(),
    ensures
        machine_label_ok(s@, *node, db, resolver),
{
    let icon = lookup_machine_icon(&node.machine, db);
    let icon_part = icon_cell(icon, resolver);
    let count = node.machines_needed.format_fixed(2);
    let machine_name = escape_html(node.machine.as_str());
    let recipe_name = escape_html(node.recipe.as_str());
    let runs = node.runs_per_second.format_fixed(3);
    let mut first = count.clone();
    first.append(" ×");
    first.append(" ");
    first.append(machine_name.as_str());
    let mut runs_text = runs.clone();
    runs_text.append(" runs/s");
    let rows = vec![icon_part, cell(first.as_str()), cell(recipe_name.as_str()), cell(runs_text.as_str())];
    let s = table(&rows);
    proof {
        let views = rows@.map_values(|r: String| r@);
        assert(views =~= seq![
            rows@[0]@,
            cell_spec(count@ + " ×"@ + " "@ + escaped(node.machine@)),
            cell_spec(escaped(node.recipe@)),
            cell_spec(runs@ + " runs/s"@),
        ]);
        assert(icon_cell_ok(rows@[0]@, machine_icon(db, node.machine@), resolver));
        assert(s@ == machine_table(rows@[0]@, count@, runs@, node.machine@, node.recipe@));
    }
    s
}

/// `s` is the label of the raw input or output `resource`, tagged `tag`:
/// its icon row, the tag and the name, and the rate per second (with three
/// decimals).
pub open spec fn resource_label_ok<N: Quantity, R: IconResolver>(
    s: Seq<char>,
    resource: (bool, Seq<char>),
    rate: N,
    tag: Seq<char>,
    db: &Database<N>,
    resolver: Option<&R>,
) -> bool {
    exists|icon_part: Seq<char>|
        icon_cell_ok(icon_part, resource_icon(db, resource), resolver) && s == #[trigger] resource_table(
            icon_part,
            rate.spec_format_fixed(3)@,
            tag,
            resource.1,
        )
}

/// The table of a raw input or an output, given its icon row and the text
/// of its rate.
pub open spec fn resource_table(icon_part: Seq<char>, rate: Seq<char>, tag: Seq<char>, name: Seq<char>) -> Seq<char> {
    table_spec(seq![icon_part, cell_spec("["@ + tag + "] "@ + escaped(name)), cell_spec(escaped(rate + "/s"@))])
}

/// The text of a rate: its amount per second with three decimals, then
/// `/s`.
pub fn rate_text<N: Quantity>(rate: N) -> (s: String)
    ensures
        s@ == rate.spec_format_fixed(3)@ + "/s"@,
{
    let mut s = rate.format_fixed(3);
    let ghost digits = s@;
    s.append("/s");
    proof {
        assert(s@ =~= digits + "/s"@);
    }
    s
}

/// The label of a raw input or an output.
pub fn resource_label<N: Quantity, R: IconResolver>(
    resource: &ResourceId,
    rate: N,
    db: &Database<N>,
    resolver: Option<&R>,
    tag: &str,
) -> (s: String)
    requires
        db.tables_wf(),
    ensures
        resource_label_ok(s@, resource@, rate, tag@, db, resolver),
{
    let icon = lookup_resource_icon(resource, db);
    let icon_part = icon_cell(icon, resolver);
    let name = escape_html(resource.name());
    let rate_str = rate_text(rate);
    let rate_escaped = escape_html(rate_str.as_str());
    let mut first = "[".to_owned();
    first.append(tag);
    first.append("] ");
    first.append(name.as_str());
    let rows = vec![icon_part, cell(first.as_str()), cell(rate_escaped.as_str())];
    let s = table(&rows);
    proof {
        let digits = rate.spec_format_fixed(3)@;
        let views = rows@.map_values(|r: String| r@);
        assert(views =~= seq![
            rows@[0]@,
            cell_spec("["@ + tag@ + "] "@ + escaped(resource@.1)),
            cell_spec(escaped(digits + "/s"@)),
        ]);
        assert(icon_cell_ok(rows@[0]@, resource_icon(db, resource@), resolver));
        assert(s@ == resource_table(rows@[0]@, digits, tag@, resource@.1));
    }
    s
}

/// The label of the source of a raw input.
pub fn source_label<N: Quantity, R: IconResolver>(
    resource: &ResourceId,
    rate: N,
    db: &Database<N>,
    resolver: Option<&R>,
) -> (s: String)
    requires
        db.tables_wf(),
    ensures
        resource_label_ok(s@, resource@, rate, "raw"@, db, resolver),
{
    resource_label(resource, rate, db, resolver, "raw")
}

/// The label of the sink of an output.
pub fn sink_label<N: Quantity, R: IconResolver>(
    resource: &ResourceId,
    rate: N,
    db: &Database<N>,
    resolver: Option<&R>,
) -> (s: String)
    requires
        db.tables_wf(),
    ensures
        resource_label_ok(s@, resource@, rate, "out"@, db, resolver),
{
    resource_label(resource, rate, db, resolver, "out")
}

/// `s` is the label of an edge: a bullet when the resource has an icon,
/// the name, a line break and the rate, without leading white space.
pub open spec fn edge_label_ok<N: Quantity>(s: Seq<char>, edge: ProductionEdge<N>, db: &Database<N>) -> bool {
    s == edge_text(resource_has_icon(db, edge.resource@), edge.resource@.1, edge.rate.spec_format_fixed(3)@)
}

/// The label of an edge, given whether its resource has an icon, the
/// resource's name and the text of the rate.
pub open spec fn edge_text(has_icon: bool, name: Seq<char>, rate: Seq<char>) -> Seq<char> {
    trim_front(
        (if has_icon {
            "•"@
        } else {
            Seq::<char>::empty()
        }) + " "@ + escaped(name) + "<BR/>"@ + escaped(rate + "/s"@),
    )
}

/// The label of an edge.
pub fn edge_label<N: Quantity>(edge: &ProductionEdge<N>, db: &Database<N>) -> (s: String)
    requires
        db.tables_wf(),
    ensures
        edge_label_ok(s@, *edge, db),
{
    let resource = escape_html(edge.resource.name());
    let rate_str = rate_text(edge.rate);
    let rate = escape_html(rate_str.as_str());
    let icon = lookup_resource_icon(&edge.resource, db);
    let mut text = String::new();
    if icon.is_some() {
        text.append("•");
    }
    text.append(" ");
    text.append(resource.as_str());
    text.append("<BR/>");
    text.append(rate.as_str());
    let trimmed = trim_start(text.as_str());
    let s = trimmed.to_owned();
    proof {
        let digits = choose|digits: Seq<char>| rate_str@ == digits + "/s"@;
        let marker = if resource_has_icon(db, edge.resource@) {
            "•"@
        } else {
            Seq::<char>::empty()
        };
        assert(text@ =~= marker + " "@ + escaped(edge.resource@.1) + "<BR/>"@ + escaped(digits + "/s"@));
        assert(s@ == edge_text(resource_has_icon(db, edge.resource@), edge.resource@.1, digits));
    }
    s
}

/// The digraph id of an edge's source: the source of its resource when it
/// comes from outside, and otherwise its node.
pub open spec fn endpoint_from_spec<N>(edge: ProductionEdge<N>) -> Seq<char> {
    match edge.from {
        EdgeEndpoint::External => source_dot_id_spec(edge.resource@.1),
        EdgeEndpoint::Node(id) => node_dot_id_spec(id@ as nat),
    }
}

/// The digraph id of an edge's target: the sink of its resource when it
/// goes outside, and otherwise its node.
pub open spec fn endpoint_to_spec<N>(edge: ProductionEdge<N>) -> Seq<char> {
    match edge.to {
        EdgeEndpoint::External => sink_dot_id_spec(edge.resource@.1),
        EdgeEndpoint::Node(id) => node_dot_id_spec(id@ as nat),
    }
}

/// The digraph id of an edge's source.
pub fn endpoint_from<N>(edge: &ProductionEdge<N>) -> (s: String)
    ensures
        s@ == endpoint_from_spec(*edge),
{
    match edge.from {
        EdgeEndpoint::External => source_dot_id(&edge.resource),
        EdgeEndpoint::Node(id) => node_dot_id(id),
    }
}

/// The digraph id of an edge's target.
pub fn endpoint_to<N>(edge: &ProductionEdge<N>) -> (s: String)
    ensures
        s@ == endpoint_to_spec(*edge),
{
    match edge.to {
        EdgeEndpoint::External => sink_dot_id(&edge.resource),
        EdgeEndpoint::Node(id) => node_dot_id(id),
    }
}

/// The lines of `items`, each written by `line` with its label.
pub open spec fn lines<T>(items: Seq<T>, labels: Seq<Seq<char>>, line: spec_fn(T, Seq<char>) -> Seq<char>) -> Seq<char>
    decreases items.len(),
{
    if items.len() == 0 {
        Seq::empty()
    } else {
        lines(items.drop_last(), labels.drop_last(), line) + line(items.last(), labels.last())
    }
}

/// One more item: its line follows the lines of the items before it.
proof fn lemma_lines_step<T>(
    items: Seq<T>,
    labels: Seq<Seq<char>>,
    label: Seq<char>,
    line: spec_fn(T, Seq<char>) -> Seq<char>,
    i: int,
)
    requires
        0 <= i < items.len(),
        labels.len() == i,
    ensures
        lines(items.take(i + 1), labels.push(label), line) == lines(items.take(i), labels, line) + line(items[i], label),
{
    assert(items.take(i + 1).drop_last() =~= items.take(i));
    assert(labels.push(label).drop_last() =~= labels);
}

/// The line that declares a machine node.
pub open spec fn node_line<N>() -> spec_fn(ProductionNode<N>, Seq<char>) -> Seq<char> {
    |n: ProductionNode<N>, label: Seq<char>| "    "@ + node_dot_id_spec(n.id@ as nat) + " [label=<"@ + label + ">];\n"@
}

/// The line that declares the source of a raw input.
pub open spec fn source_line<N>() -> spec_fn((ResourceId, N), Seq<char>) -> Seq<char> {
    |e: (ResourceId, N), label: Seq<char>|
        "    "@ + source_dot_id_spec(e.0@.1) + " [label=<"@ + label + ">, style=dashed];\n"@
}

/// The line that declares the sink of an output.
pub open spec fn sink_line<N>() -> spec_fn((ResourceId, N), Seq<char>) -> Seq<char> {
    |e: (ResourceId, N), label: Seq<char>| "    "@ + sink_dot_id_spec(e.0@.1) + " [label=<"@ + label + ">, style=bold];\n"@
}

/// The line of an edge.
pub open spec fn edge_line<N>() -> spec_fn(ProductionEdge<N>, Seq<char>) -> Seq<char> {
    |e: ProductionEdge<N>, label: Seq<char>|
        "    "@ + endpoint_from_spec(e) + " -> "@ + endpoint_to_spec(e) + " [label=<"@ + label + ">];\n"@
}

/// The lines that declare the machine nodes, one per node in order.
pub fn write_machine_nodes<N: Quantity, R: IconResolver>(
    line: &ProductionLine<N>,
    db: &Database<N>,
    resolver: Option<&R>,
) -> (s: String)
    requires
        db.tables_wf(),
    ensures
        exists|labels: Seq<Seq<char>>|
            labels.len() == line.nodes@.len() && (forall|i: int|
                0 <= i < labels.len() ==> machine_label_ok(#[trigger] labels[i], line.nodes@[i], db, resolver))
                && s@ == #[trigger] lines(line.nodes@, labels, node_line::<N>()),
{
    let mut s = String::new();
    let ghost mut labels: Seq<Seq<char>> = Seq::empty();
    let n = line.nodes.len();
    let mut i: usize = 0;
    while i < n
        invariant
            n == line.nodes@.len(),
            i <= n,
            db.tables_wf(),
            labels.len() == i,
            forall|j: int| 0 <= j < i ==> machine_label_ok(#[trigger] labels[j], line.nodes@[j], db, resolver),
            s@ == lines(line.nodes@.take(i as int), labels, node_line::<N>()),
        decreases n - i,
    {
        let node = &line.nodes[i];
        let label = machine_label(node, db, resolver);
        let id = node_dot_id(node.id);
        s.append("    ");
        s.append(id.as_str());
        s.append(" [label=<");
        s.append(label.as_str());
        s.append(">];\n");
        proof {
            lemma_lines_step(line.nodes@, labels, label@, node_line::<N>(), i as int);
            labels = labels.push(label@);
        }
        i = i + 1;
    }
    proof {
        assert(line.nodes@.take(n as int) =~= line.nodes@);
    }
    s
}

/// The lines that declare the sources of the raw inputs, one per raw input
/// in order.
pub fn write_source_nodes<N: Quantity, R: IconResolver>(
    line: &ProductionLine<N>,
    db: &Database<N>,
    resolver: Option<&R>,
) -> (s: String)
    requires
        db.tables_wf(),
    ensures
        exists|labels: Seq<Seq<char>>|
            labels.len() == line.raw_inputs@.len() && (forall|i: int|
                0 <= i < labels.len() ==> resource_label_ok(
                    #[trigger] labels[i],
                    line.raw_inputs@[i].0@,
                    line.raw_inputs@[i].1,
                    "raw"@,
                    db,
                    resolver,
                )) && s@ == #[trigger] lines(line.raw_inputs@, labels, source_line::<N>()),
{
    let entries = line.raw_inputs.entries();
    let mut s = String::new();
    let ghost mut labels: Seq<Seq<char>> = Seq::empty();
    let n = entries.len();
    let mut i: usize = 0;
    while i < n
        invariant
            n == entries@.len(),
            entries@ == line.raw_inputs@,
            i <= n,
            db.tables_wf(),
            labels.len() == i,
            forall|j: int|
                0 <= j < i ==> resource_label_ok(
                    #[trigger] labels[j],
                    entries@[j].0@,
                    entries@[j].1,
                    "raw"@,
                    db,
                    resolver,
                ),
            s@ == lines(entries@.take(i as int), labels, source_line::<N>()),
        decreases n - i,
    {
        let entry = &entries[i];
        let label = source_label(&entry.0, entry.1, db, resolver);
        let id = source_dot_id(&entry.0);
        s.append("    ");
        s.append(id.as_str());
        s.append(" [label=<");
        s.append(label.as_str());
        s.append(">, style=dashed];\n");
        proof {
            lemma_lines_step(entries@, labels, label@, source_line::<N>(), i as int);
            labels = labels.push(label@);
        }
        i = i + 1;
    }
    proof {
        assert(entries@.take(n as int) =~= entries@);
    }
    s
}

/// The lines that declare the sinks of the outputs, one per output in
/// order.
pub fn write_sink_nodes<N: Quantity, R: IconResolver>(
    line: &ProductionLine<N>,
    db: &Database<N>,
    resolver: Option<&R>,
) -> (s: String)
    requires
        db.tables_wf(),
    ensures
        exists|labels: Seq<Seq<char>>|
            labels.len() == line.outputs@.len() && (forall|i: int|
                0 <= i < labels.len() ==> resource_label_ok(
                    #[trigger] labels[i],
                    line.outputs@[i].0@,
                    line.outputs@[i].1,
                    "out"@,
                    db,
                    resolver,
                )) && s@ == #[trigger] lines(line.outputs@, labels, sink_line::<N>()),
{
    let entries = line.outputs.entries();
    let mut s = String::new();
    let ghost mut labels: Seq<Seq<char>> = Seq::empty();
    let n = entries.len();
    let mut i: usize = 0;
    while i < n
        invariant
            n == entries@.len(),
            entries@ == line.outputs@,
            i <= n,
            db.tables_wf(),
            labels.len() == i,
            forall|j: int|
                0 <= j < i ==> resource_label_ok(
                    #[trigger] labels[j],
                    entries@[j].0@,
                    entries@[j].1,
                    "out"@,
                    db,
                    resolver,
                ),
            s@ == lines(entries@.take(i as int), labels, sink_line::<N>()),
        decreases n - i,
    {
        let entry = &entries[i];
        let label = sink_label(&entry.0, entry.1, db, resolver);
        let id = sink_dot_id(&entry.0);
        s.append("    ");
        s.append(id.as_str());
        s.append(" [label=<");
        s.append(label.as_str());
        s.append(">, style=bold];\n");
        proof {
            lemma_lines_step(entries@, labels, label@, sink_line::<N>(), i as int);
            labels = labels.push(label@);
        }
        i = i + 1;
    }
    proof {
        assert(entries@.take(n as int) =~= entries@);
    }
    s
}

/// The lines of the edges, one per edge in order.
pub fn write_edges<N: Quantity>(line: &ProductionLine<N>, db: &Database<N>) -> (s: String)
    requires
        db.tables_wf(),
    ensures
        exists|labels: Seq<Seq<char>>|
            labels.len() == line.edges@.len() && (forall|i: int|
                0 <= i < labels.len() ==> edge_label_ok(#[trigger] labels[i], line.edges@[i], db)) && s@
                == #[trigger] lines(line.edges@, labels, edge_line::<N>()),
{
    let mut s = String::new();
    let ghost mut labels: Seq<Seq<char>> = Seq::empty();
    let n = line.edges.len();
    let mut i: usize = 0;
    while i < n
        invariant
            n == line.edges@.len(),
            i <= n,
            db.tables_wf(),
            labels.len() == i,
            forall|j: int| 0 <= j < i ==> edge_label_ok(#[trigger] labels[j], line.edges@[j], db),
            s@ == lines(line.edges@.take(i as int), labels, edge_line::<N>()),
        decreases n - i,
    {
        let edge = &line.edges[i];
        let from = endpoint_from(edge);
        let to = endpoint_to(edge);
        let label = edge_label(edge, db);
        s.append("    ");
        s.append(from.as_str());
        s.append(" -> ");
        s.append(to.as_str());
        s.append(" [label=<");
        s.append(label.as_str());
        s.append(">];\n");
        proof {
            lemma_lines_step(line.edges@, labels, label@, edge_line::<N>(), i as int);
            labels = labels.push(label@);
        }
        i = i + 1;
    }
    proof {
        assert(line.edges@.take(n as int) =~= line.edges@);
    }
    s
}

/// The opening lines of the digraph.
pub open spec fn dot_header() -> Seq<char> {
    "digraph ProductionLine {\n"@ + "    rankdir=LR;\n"@ + "    node [shape=plaintext];\n"@ + "    edge [fontsize=10];\n"@
        + "\n"@
}

/// The digraph of `line`: its opening lines, the machine nodes, the sources
/// of the raw inputs, the sinks of the outputs, an empty line, the edges,
/// and the closing brace; icons are drawn when a resolver is given.
pub fn write_dot<N: Quantity, R: IconResolver>(
    line: &ProductionLine<N>,
    db: &Database<N>,
    resolver: Option<&R>,
) -> (s: String)
    requires
        db.tables_wf(),
    ensures
        exists|machines: Seq<char>, sources: Seq<char>, sinks: Seq<char>, edges: Seq<char>|
            {
                &&& exists|labels: Seq<Seq<char>>|
                    labels.len() == line.nodes@.len() && (forall|i: int|
                        0 <= i < labels.len() ==> machine_label_ok(#[trigger] labels[i], line.nodes@[i], db, resolver))
                        && machines == #[trigger] lines(line.nodes@, labels, node_line::<N>())
                &&& exists|labels: Seq<Seq<char>>|
                    labels.len() == line.raw_inputs@.len() && (forall|i: int|
                        0 <= i < labels.len() ==> resource_label_ok(
                            #[trigger] labels[i],
                            line.raw_inputs@[i].0@,
                            line.raw_inputs@[i].1,
                            "raw"@,
                            db,
                            resolver,
                        )) && sources == #[trigger] lines(line.raw_inputs@, labels, source_line::<N>())
                &&& exists|labels: Seq<Seq<char>>|
                    labels.len() == line.outputs@.len() && (forall|i: int|
                        0 <= i < labels.len() ==> resource_label_ok(
                            #[trigger] labels[i],
                            line.outputs@[i].0@,
                            line.outputs@[i].1,
                            "out"@,
                            db,
                            resolver,
                        )) && sinks == #[trigger] lines(line.outputs@, labels, sink_line::<N>())
                &&& exists|labels: Seq<Seq<char>>|
                    labels.len() == line.edges@.len() && (forall|i: int|
                        0 <= i < labels.len() ==> edge_label_ok(#[trigger] labels[i], line.edges@[i], db)) && edges
                        == #[trigger] lines(line.edges@, labels, edge_line::<N>())
                &&& s@ == #[trigger] dot_document(machines, sources, sinks, edges)
            },
{
    let mut s = "digraph ProductionLine {\n".to_owned();
    s.append("    rankdir=LR;\n");
    s.append("    node [shape=plaintext];\n");
    s.append("    edge [fontsize=10];\n");
    s.append("\n");
    let machines = write_machine_nodes(line, db, resolver);
    let sources = write_source_nodes(line, db, resolver);
    let sinks = write_sink_nodes(line, db, resolver);
    let edges = write_edges(line, db);
    s.append(machines.as_str());
    s.append(sources.as_str());
    s.append(sinks.as_str());
    s.append("\n");
    s.append(edges.as_str());
    s.append("}\n");
    proof {
        assert(s@ =~= dot_document(machines@, sources@, sinks@, edges@));
    }
    s
}

/// The whole digraph, from the texts of its parts.
pub open spec fn dot_document(machines: Seq<char>, sources: Seq<char>, sinks: Seq<char>, edges: Seq<char>) -> Seq<char> {
    dot_header() + machines + sources + sinks + "\n"@ + edges + "}\n"@
}

} // verus!
