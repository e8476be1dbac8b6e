use vstd::prelude::*;
use crate::json::JsonValue;

verus! {

/// A workflow: a graph of nodes joined by dependency edges.
pub struct Workflow {
    pub id: String,
    pub name: String,
    pub nodes: Vec<WorkflowNode>,
    pub edges: Vec<Edge>,
}

/// One step of a workflow, run by the executor registered for `node_type`.
pub struct WorkflowNode {
    pub id: String,
    pub node_type: String,
    pub params: JsonValue,
}

/// `to` may only start once `from` has finished.
pub struct Edge {
    pub from: String,
    pub to: String,
}

#[derive(PartialEq, Eq, Structural, Clone, Copy, Debug)]
pub enum RunStatus {
    Queued,
    Running,
    Completed,
    Failed,
    Cancelled,
}

#[derive(PartialEq, Eq, Structural, Clone, Copy, Debug)]
pub enum NodeStatus {
    Pending,
    Running,
    Success,
    Failed,
    Skipped,
}

/// The index of the last node whose id is `id` among the first `m` nodes, or -1.
pub open spec fn last_index_upto(nodes: Seq<WorkflowNode>, id: Seq<char>, m: int) -> int
    decreases m,
{
    if m <= 0 {
        -1
    } else if nodes[m - 1].id@ == id {
        m - 1
    } else {
        last_index_upto(nodes, id, m - 1)
    }
}

/// The node an id names: the last node that carries it, or -1 when none does.
pub open spec fn node_index(nodes: Seq<WorkflowNode>, id: Seq<char>) -> int {
    last_index_upto(nodes, id, nodes.len() as int)
}

/// Node `i` is the one its id names (no later node repeats the id).
pub open spec fn is_canonical(nodes: Seq<WorkflowNode>, i: int) -> bool {
    node_index(nodes, nodes[i].id@) == i
}

pub open spec fn ids_distinct(nodes: Seq<WorkflowNode>) -> bool {
    forall|i: int, j: int|
        0 <= i < nodes.len() && 0 <= j < nodes.len() && i != j ==> nodes[i].id@ != nodes[j].id@
}

pub open spec fn edge_source(wf: Workflow, k: int) -> int {
    node_index(wf.nodes@, wf.edges@[k].from@)
}

pub open spec fn edge_target(wf: Workflow, k: int) -> int {
    node_index(wf.nodes@, wf.edges@[k].to@)
}

/// `rank` numbers the nodes so that every edge goes from a lower to a higher number.
pub open spec fn is_rank(wf: Workflow, rank: Seq<int>) -> bool {
    &&& rank.len() == wf.nodes@.len()
    &&& forall|k: int|
        0 <= k < wf.edges@.len() ==> rank[edge_source(wf, k)] < rank[#[trigger] edge_target(wf, k)]
}

/// The dependency graph has no cycle.
pub open spec fn acyclic(wf: Workflow) -> bool {
    exists|rank: Seq<int>| is_rank(wf, rank)
}

/// `order` lists every node index once, each edge's source before its target.
pub open spec fn is_topo_order(wf: Workflow, order: Seq<usize>) -> bool {
    &&& order.len() == wf.nodes@.len()
    &&& order.no_duplicates()
    &&& forall|a: int| 0 <= a < order.len() ==> #[trigger] order[a] < wf.nodes@.len()
    &&& forall|k: int, a: int, b: int|
        #![trigger edge_target(wf, k), order[a], order[b]]
        0 <= k < wf.edges@.len() && 0 <= a < order.len() && 0 <= b < order.len()
            && order[a] == edge_source(wf, k) && order[b] == edge_target(wf, k) ==> a < b
}

pub proof fn lemma_last_index_bounds(nodes: Seq<WorkflowNode>, id: Seq<char>, m: int)
    requires
        0 <= m <= nodes.len(),
    ensures
        -1 <= last_index_upto(nodes, id, m) < m,
        last_index_upto(nodes, id, m) >= 0 ==> nodes[last_index_upto(nodes, id, m)].id@ == id,
        last_index_upto(nodes, id, m) >= 0 ==> forall|j: int|
            last_index_upto(nodes, id, m) < j < m ==> nodes[j].id@ != id,
        last_index_upto(nodes, id, m) < 0 ==> forall|j: int| 0 <= j < m ==> nodes[j].id@ != id,
    decreases m,
{
    if m > 0 {
        lemma_last_index_bounds(nodes, id, m - 1);
    }
}

/// The index of the node an id names, found by scanning from the end.
pub fn find_node(nodes: &Vec<WorkflowNode>, id: &String) -> (r: Option<usize>)
    ensures
        match r {
            Some(i) => i as int == node_index(nodes@, id@) && i < nodes@.len(),
            None => node_index(nodes@, id@) == -1,
        },
{
    let mut m = nodes.len();
    while m > 0
        invariant
            m <= nodes@.len(),
            node_index(nodes@, id@) == last_index_upto(nodes@, id@, m as int),
        decreases m,
    {
        if nodes[m - 1].id == *id {
            return Some(m - 1);
        }
        m -= 1;
    }
    None
}

} // verus!
