//! Production lines: machines, and the flows of resources between them.

use vstd::prelude::*;

use crate::assoc::{has_key, AssocMap};
use crate::ids::{MachineId, RecipeId};
use crate::quantity::Quantity;
use crate::resource::ResourceId;
use crate::text::{decimal, decimal_string};

verus! {

/// The position of a node in its production line.
#[derive(Debug, Clone, Copy, PartialEq, Eq, Structural)]
pub struct NodeId(usize);

impl View for NodeId {
    type V = usize;

    closed spec fn view(&self) -> usize {
        self.0
    }
}

/// Two node ids with the same position are the same id.
pub proof fn law_node_id_by_index(a: NodeId, b: NodeId)
    requires
        a@ == b@,
    ensures
        a == b,
{
}

impl NodeId {
    /// The id of the node at position `idx`.
    pub fn new(idx: usize) -> (id: Self)
        ensures
            id@ == idx,
    {
        NodeId(idx)
    }

    /// The position of the node.
    pub fn index(self) -> (idx: usize)
        ensures
            idx == self@,
    {
        self.0
    }

    /// The node id as text: `#` and the position.
    pub fn describe(self) -> (s: String)
        ensures
            s@ == node_text(self@ as nat),
    {
        let mut s = "#".to_owned();
        let digits = decimal_string(self.0);
        s.append(digits.as_str());
        s
    }
}

/// The text of the node at position `idx`.
pub open spec fn node_text(idx: nat) -> Seq<char> {
    "#"@ + decimal(idx)
}

/// One end of an edge: a node, or the world outside the line (raw inputs
/// come from it, outputs go to it).
#[derive(Debug, Clone, Copy, PartialEq, Eq, Structural)]
pub enum EdgeEndpoint {
    External,
    Node(NodeId),
}

/// The text of an endpoint: `external`, or the text of the node.
pub open spec fn endpoint_text(e: EdgeEndpoint) -> Seq<char> {
    match e {
        EdgeEndpoint::External => "external"@,
        EdgeEndpoint::Node(id) => node_text(id@ as nat),
    }
}

impl EdgeEndpoint {
    /// The endpoint as text: `external`, or the node's text.
    pub fn describe(self) -> (s: String)
        ensures
            s@ == endpoint_text(self),
    {
        match self {
            EdgeEndpoint::External => "external".to_owned(),
            EdgeEndpoint::Node(id) => id.describe(),
        }
    }
}

/// `e` is the outside world or a node among the first `n`.
pub open spec fn endpoint_below(e: EdgeEndpoint, n: nat) -> bool {
    match e {
        EdgeEndpoint::External => true,
        EdgeEndpoint::Node(id) => id@ < n,
    }
}

/// A group of identical machines running one recipe.
#[derive(Debug)]
pub struct ProductionNode<N> {
    pub id: NodeId,
    pub recipe: RecipeId,
    pub machine: MachineId,
    pub runs_per_second: N,
    pub machines_needed: N,
}

/// The text of a node, given the texts of its numbers.
pub open spec fn node_description(
    idx: nat,
    machines: Seq<char>,
    machine: Seq<char>,
    recipe: Seq<char>,
    runs: Seq<char>,
) -> Seq<char> {
    node_text(idx) + " "@ + machines + " × "@ + machine + " (recipe "@ + recipe + ", "@ + runs + " runs/s)"@
}

impl<N: Quantity> ProductionNode<N> {
    /// The node as text: its id, the number of machines (with two
    /// decimals) and the machine, the recipe, and the runs per second (with
    /// three decimals).
    pub fn describe(&self) -> (s: String)
        ensures
            s@ == node_description(
                self.id@ as nat,
                self.machines_needed.spec_format_fixed(2)@,
                self.machine@,
                self.recipe@,
                self.runs_per_second.spec_format_fixed(3)@,
            ),
    {
        let mut s = self.id.describe();
        s.append(" ");
        let machines = self.machines_needed.format_fixed(2);
        s.append(machines.as_str());
        s.append(" × ");
        s.append(self.machine.as_str());
        s.append(" (recipe ");
        s.append(self.recipe.as_str());
        s.append(", ");
        let runs = self.runs_per_second.format_fixed(3);
        s.append(runs.as_str());
        s.append(" runs/s)");
        proof {
            assert(s@ =~= node_description(self.id@ as nat, machines@, self.machine@, self.recipe@, runs@));
        }
        s
    }
}

/// A flow of one resource from one endpoint to another.
#[derive(Debug)]
pub struct ProductionEdge<N> {
    pub from: EdgeEndpoint,
    pub to: EdgeEndpoint,
    pub resource: ResourceId,
    pub rate: N,
}

/// The text of an edge, given the text of its rate.
pub open spec fn edge_description(from: EdgeEndpoint, to: EdgeEndpoint, rate: Seq<char>, name: Seq<char>) -> Seq<char> {
    endpoint_text(from) + " --["@ + rate + "/s "@ + name + "]--> "@ + endpoint_text(to)
}

impl<N: Quantity> ProductionEdge<N> {
    /// The edge as text: where it comes from, its rate per second (with
    /// three decimals) and resource in brackets, and where it goes.
    pub fn describe(&self) -> (s: String)
        ensures
            s@ == edge_description(self.from, self.to, self.rate.spec_format_fixed(3)@, self.resource@.1),
    {
        let mut s = self.from.describe();
        s.append(" --[");
        let rate = self.rate.format_fixed(3);
        s.append(rate.as_str());
        s.append("/s ");
        s.append(self.resource.name());
        s.append("]--> ");
        let to = self.to.describe();
        s.append(to.as_str());
        proof {
            assert(s@ =~= edge_description(self.from, self.to, rate@, self.resource@.1));
        }
        s
    }
}

/// The edges of `edges` that enter the node `id`, in order.
pub open spec fn edges_into<N>(edges: Seq<ProductionEdge<N>>, id: NodeId) -> Seq<ProductionEdge<N>>
    decreases edges.len(),
{
    if edges.len() == 0 {
        Seq::empty()
    } else {
        let rest = edges_into(edges.drop_last(), id);
        if edges.last().to == EdgeEndpoint::Node(id) {
            rest.push(edges.last())
        } else {
            rest
        }
    }
}

/// The edges of `edges` that leave the node `id`, in order.
pub open spec fn edges_out_of<N>(edges: Seq<ProductionEdge<N>>, id: NodeId) -> Seq<ProductionEdge<N>>
    decreases edges.len(),
{
    if edges.len() == 0 {
        Seq::empty()
    } else {
        let rest = edges_out_of(edges.drop_last(), id);
        if edges.last().from == EdgeEndpoint::Node(id) {
            rest.push(edges.last())
        } else {
            rest
        }
    }
}

/// A planned production line: its nodes, the flows between them, the raw
/// inputs it draws and the outputs it delivers.
#[derive(Debug)]
pub struct ProductionLine<N> {
    pub nodes: Vec<ProductionNode<N>>,
    pub edges: Vec<ProductionEdge<N>>,
    pub raw_inputs: AssocMap<ResourceId, N>,
    pub outputs: AssocMap<ResourceId, N>,
}

impl<N> ProductionLine<N> {
    /// Well-formedness: each node sits at the position its id names, every
    /// edge joins existing nodes or the outside, the raw inputs are exactly
    /// the resources that enter from outside, and the outputs exactly those
    /// that leave to the outside.
    pub open spec fn wf(&self) -> bool {
        &&& forall|i: int| 0 <= i < self.nodes@.len() ==> (#[trigger] self.nodes@[i]).id@ == i
        &&& forall|i: int|
            0 <= i < self.edges@.len() ==> endpoint_below((#[trigger] self.edges@[i]).from, self.nodes@.len())
                && endpoint_below(self.edges@[i].to, self.nodes@.len())
        &&& self.raw_inputs.wf()
        &&& self.outputs.wf()
        &&& forall|k: (bool, Seq<char>)|
            has_key(self.raw_inputs@, k) <==> exists|i: int|
                0 <= i < self.edges@.len() && (#[trigger] self.edges@[i]).from == EdgeEndpoint::External
                    && self.edges@[i].resource@ == k
        &&& forall|k: (bool, Seq<char>)|
            has_key(self.outputs@, k) <==> exists|i: int|
                0 <= i < self.edges@.len() && (#[trigger] self.edges@[i]).to == EdgeEndpoint::External
                    && self.edges@[i].resource@ == k
    }

    /// The line as text: how many nodes, edges, raw inputs and outputs it
    /// has.
    pub fn describe(&self) -> (s: String)
        ensures
            s@ == "ProductionLine { nodes: "@ + decimal(self.nodes@.len()) + ", edges: "@ + decimal(self.edges@.len())
                + ", raw_inputs: "@ + decimal(self.raw_inputs@.len()) + ", outputs: "@ + decimal(
                self.outputs@.len(),
            ) + " }"@,
    {
        let mut s = "ProductionLine { nodes: ".to_owned();
        let t = decimal_string(self.nodes.len());
        s.append(t.as_str());
        s.append(", edges: ");
        let t = decimal_string(self.edges.len());
        s.append(t.as_str());
        s.append(", raw_inputs: ");
        let t = decimal_string(self.raw_inputs.len());
        s.append(t.as_str());
        s.append(", outputs: ");
        let t = decimal_string(self.outputs.len());
        s.append(t.as_str());
        s.append(" }");
        s
    }

    /// The node with the id `id`.
    pub fn node(&self, id: NodeId) -> (n: &ProductionNode<N>)
        requires
            id@ < self.nodes@.len(),
        ensures
            *n == self.nodes@[id@ as int],
    {
        &self.nodes[id.index()]
    }

    /// The edges that enter the node `id`, in order.
    pub fn incoming(&self, id: NodeId) -> (es: Vec<&ProductionEdge<N>>)
        ensures
            es@.map_values(|e: &ProductionEdge<N>| *e) == edges_into(self.edges@, id),
    {
        let n = self.edges.len();
        let mut es: Vec<&ProductionEdge<N>> = Vec::new();
        let mut i: usize = 0;
        while i < n
            invariant
                n == self.edges@.len(),
                i <= n,
                es@.map_values(|e: &ProductionEdge<N>| *e) == edges_into(self.edges@.take(i as int), id),
            decreases n - i,
        {
            proof {
                assert(self.edges@.take(i + 1).drop_last() =~= self.edges@.take(i as int));
            }
            let e = &self.edges[i];
            if e.to == EdgeEndpoint::Node(id) {
                es.push(e);
                proof {
                    assert(es@.map_values(|e: &ProductionEdge<N>| *e) =~= edges_into(self.edges@.take(i as int), id).push(*e));
                }
            }
            i = i + 1;
        }
        proof {
            assert(self.edges@.take(n as int) =~= self.edges@);
        }
        es
    }

    /// The edges that leave the node `id`, in order.
    pub fn outgoing(&self, id: NodeId) -> (es: Vec<&ProductionEdge<N>>)
        ensures
            es@.map_values(|e: &ProductionEdge<N>| *e) == edges_out_of(self.edges@, id),
    {
        let n = self.edges.len();
        let mut es: Vec<&ProductionEdge<N>> = Vec::new();
        let mut i: usize = 0;
        while i < n
            invariant
                n == self.edges@.len(),
                i <= n,
                es@.map_values(|e: &ProductionEdge<N>| *e) == edges_out_of(self.edges@.take(i as int), id),
            decreases n - i,
        {
            proof {
                assert(self.edges@.take(i + 1).drop_last() =~= self.edges@.take(i as int));
            }
            let e = &self.edges[i];
            if e.from == EdgeEndpoint::Node(id) {
                es.push(e);
                proof {
                    assert(es@.map_values(|e: &ProductionEdge<N>| *e) =~= edges_out_of(self.edges@.take(i as int), id).push(*e));
                }
            }
            i = i + 1;
        }
        proof {
            assert(self.edges@.take(n as int) =~= self.edges@);
        }
        es
    }
}

} // verus!
