use vstd::prelude::*;
use crate::text::{concat, decimal, decimal_string};
use crate::counting::{lemma_distinct_covers, lemma_distinct_misses, lemma_distinct_within, below, lemma_below};
use crate::workflow::{
    Workflow, WorkflowNode, acyclic, edge_source, edge_target, find_node, ids_distinct, is_canonical,
    is_rank, is_topo_order, lemma_last_index_bounds, node_index,
};

verus! {

/// Why a workflow's nodes cannot be put in dependency order.
pub enum TopoError {
    /// An edge starts at an id that no node carries.
    UnknownSource(String),
    /// An edge ends at an id that no node carries.
    UnknownTarget(String),
    /// Sorting stopped after `sorted` of the `total` nodes: a cycle, or a repeated node id.
    Cycle { sorted: usize, total: usize },
}

/// The first edge, from `k` on, whose endpoints do not both name a node.
pub open spec fn first_bad_edge_from(wf: Workflow, k: int) -> Option<TopoError>
    decreases wf.edges@.len() - k,
{
    if k < 0 || k >= wf.edges@.len() {
        None
    } else if edge_source(wf, k) < 0 {
        Some(TopoError::UnknownSource(wf.edges@[k].from))
    } else if edge_target(wf, k) < 0 {
        Some(TopoError::UnknownTarget(wf.edges@[k].to))
    } else {
        first_bad_edge_from(wf, k + 1)
    }
}

/// Edges among the first `m` that end at `v` and whose source is not yet taken out.
pub open spec fn pending_in(ends: Seq<(usize, usize)>, popped: Seq<bool>, v: int, m: int) -> nat
    decreases m,
{
    if m <= 0 {
        0
    } else {
        pending_in(ends, popped, v, m - 1) + if ends[m - 1].1 as int == v && !popped[ends[m
            - 1].0 as int] {
            1nat
        } else {
            0nat
        }
    }
}

/// Edges among the first `m` that go from `u` to `v`.
pub open spec fn count_edges(ends: Seq<(usize, usize)>, u: int, v: int, m: int) -> nat
    decreases m,
{
    if m <= 0 {
        0
    } else {
        count_edges(ends, u, v, m - 1) + if ends[m - 1].0 as int == u && ends[m - 1].1 as int
            == v {
            1nat
        } else {
            0nat
        }
    }
}

proof fn lemma_pending_bound(ends: Seq<(usize, usize)>, popped: Seq<bool>, v: int, m: int)
    requires
        0 <= m,
    ensures
        pending_in(ends, popped, v, m) <= m,
    decreases m,
{
    if m > 0 {
        lemma_pending_bound(ends, popped, v, m - 1);
    }
}

proof fn lemma_pending_pop(
    ends: Seq<(usize, usize)>,
    popped: Seq<bool>,
    u: int,
    v: int,
    m: int,
)
    requires
        0 <= m <= ends.len(),
        0 <= u < popped.len(),
        !popped[u],
        forall|j: int| 0 <= j < ends.len() ==> (#[trigger] ends[j]).0 < popped.len(),
    ensures
        pending_in(ends, popped.update(u, true), v, m) + count_edges(ends, u, v, m)
            == pending_in(ends, popped, v, m),
    decreases m,
{
    if m > 0 {
        lemma_pending_pop(ends, popped, u, v, m - 1);
        let e = ends[m - 1];
        assert(e.0 < popped.len());
    }
}

proof fn lemma_pending_zero(ends: Seq<(usize, usize)>, popped: Seq<bool>, v: int, m: int)
    requires
        0 <= m <= ends.len(),
        pending_in(ends, popped, v, m) == 0,
    ensures
        forall|j: int| 0 <= j < m && (#[trigger] ends[j]).1 as int == v ==> popped[ends[j].0 as int],
    decreases m,
{
    if m > 0 {
        lemma_pending_zero(ends, popped, v, m - 1);
    }
}

proof fn lemma_pending_witness(ends: Seq<(usize, usize)>, popped: Seq<bool>, v: int, m: int) -> (j: int)
    requires
        0 <= m <= ends.len(),
        pending_in(ends, popped, v, m) > 0,
    ensures
        0 <= j < m,
        ends[j].1 as int == v,
        !popped[ends[j].0 as int],
    decreases m,
{
    if ends[m - 1].1 as int == v && !popped[ends[m - 1].0 as int] {
        m - 1
    } else {
        lemma_pending_witness(ends, popped, v, m - 1)
    }
}

proof fn lemma_count_step(ends: Seq<(usize, usize)>, u: int, v: int, m: int, m2: int)
    requires
        0 <= m <= m2,
    ensures
        count_edges(ends, u, v, m) <= count_edges(ends, u, v, m2),
    decreases m2,
{
    if m2 > m {
        lemma_count_step(ends, u, v, m, m2 - 1);
    }
}

/// An unpopped node of least rank among the first `m`.
proof fn min_rank_unpopped(rank: Seq<int>, popped: Seq<bool>, m: int) -> (v: int)
    requires
        0 < m <= popped.len(),
        m <= rank.len(),
        exists|w: int| 0 <= w < m && !popped[w],
    ensures
        0 <= v < m,
        !popped[v],
        forall|w: int| 0 <= w < m && !popped[w] ==> rank[v] <= rank[w],
    decreases m,
{
    if exists|w: int| 0 <= w < m - 1 && !popped[w] {
        let v0 = min_rank_unpopped(rank, popped, m - 1);
        if !popped[m - 1] && rank[m - 1] < rank[v0] {
            m - 1
        } else {
            v0
        }
    } else {
        m - 1
    }
}

/// When every unpopped node has an edge from an unpopped node, no rank exists.
proof fn lemma_stuck_has_no_rank(wf: Workflow, rank: Seq<int>, ends: Seq<(usize, usize)>, popped: Seq<bool>, v0: int)
    requires
        popped.len() == wf.nodes@.len(),
        ends.len() == wf.edges@.len(),
        forall|k: int| 0 <= k < ends.len() ==> (#[trigger] ends[k]).0 as int == edge_source(wf, k)
            && ends[k].1 as int == edge_target(wf, k),
        forall|k: int| 0 <= k < ends.len() ==> (#[trigger] ends[k]).0 < popped.len(),
        0 <= v0 < popped.len(),
        !popped[v0],
        forall|v: int| 0 <= v < popped.len() && !popped[v] ==> exists|k: int|
            0 <= k < ends.len() && (#[trigger] ends[k]).1 as int == v && !popped[ends[k].0 as int],
    ensures
        !is_rank(wf, rank),
{
    if !is_rank(wf, rank) {
        return;
    }
    let m = popped.len() as int;
    let v = min_rank_unpopped(rank, popped, m);
    assert(0 <= v < popped.len() && !popped[v]);
    let k = choose|k: int| 0 <= k < ends.len() && (#[trigger] ends[k]).1 as int == v && !popped[ends[k].0 as int];
    assert(ends[k].0 as int == edge_source(wf, k));
    assert(rank[edge_source(wf, k)] < rank[edge_target(wf, k)]);
}

proof fn lemma_first_bad_none(wf: Workflow, k: int, j: int)
    requires
        0 <= k <= j < wf.edges@.len(),
        first_bad_edge_from(wf, k) is None,
    ensures
        edge_source(wf, j) >= 0,
        edge_target(wf, j) >= 0,
    decreases j - k,
{
    if k < j {
        lemma_first_bad_none(wf, k + 1, j);
    }
}

proof fn lemma_canonical_distinct(nodes: Seq<WorkflowNode>)
    requires
        forall|i: int| 0 <= i < nodes.len() ==> is_canonical(nodes, i),
    ensures
        ids_distinct(nodes),
{
    assert forall|i: int, j: int|
        0 <= i < nodes.len() && 0 <= j < nodes.len() && i != j implies nodes[i].id@ != nodes[j].id@ by {
        lemma_last_index_bounds(nodes, nodes[i].id@, nodes.len() as int);
        lemma_last_index_bounds(nodes, nodes[j].id@, nodes.len() as int);
        assert(is_canonical(nodes, i));
        assert(is_canonical(nodes, j));
    }
}

proof fn lemma_distinct_canonical(nodes: Seq<WorkflowNode>, i: int)
    requires
        ids_distinct(nodes),
        0 <= i < nodes.len(),
    ensures
        is_canonical(nodes, i),
{
    lemma_last_index_bounds(nodes, nodes[i].id@, nodes.len() as int);
}


impl TopoError {
    /// The error as text.
    pub fn message(&self) -> (r: String)
        ensures
            r@ == match *self {
                TopoError::UnknownSource(id) => "edge references unknown source node: "@ + id@,
                TopoError::UnknownTarget(id) => "edge references unknown target node: "@ + id@,
                TopoError::Cycle { sorted, total } => "Cycle detected in workflow: topological sort returned "@
                    + decimal(sorted as nat) + " nodes but workflow has "@ + decimal(total as nat) + " nodes"@,
            },
    {
        match self {
            TopoError::UnknownSource(id) => concat("edge references unknown source node: ", id.as_str()),
            TopoError::UnknownTarget(id) => concat("edge references unknown target node: ", id.as_str()),
            TopoError::Cycle { sorted, total } => {
                let a = decimal_string(*sorted as u128);
                let b = decimal_string(*total as u128);
                let s1 = concat("Cycle detected in workflow: topological sort returned ", a.as_str());
                let s2 = concat(s1.as_str(), " nodes but workflow has ");
                let s3 = concat(s2.as_str(), b.as_str());
                concat(s3.as_str(), " nodes")
            },
        }
    }
}

/// `q` lists, once each, the nodes that Kahn's algorithm takes out of `wf`: each node of `q`
/// is the one its id names and comes after the source of every edge into it, and every
/// such node that `q` leaves out has an edge into it from a node that `q` leaves out too.
pub open spec fn kahn_closed(wf: Workflow, q: Seq<usize>) -> bool {
    &&& q.no_duplicates()
    &&& forall|a: int| 0 <= a < q.len() ==> #[trigger] q[a] < wf.nodes@.len() && is_canonical(wf.nodes@, q[a] as int)
    &&& forall|k: int, b: int|
        #![trigger edge_target(wf, k), q[b]]
        0 <= k < wf.edges@.len() && 0 <= b < q.len() && edge_target(wf, k) == q[b] as int ==> exists|a: int|
            0 <= a < b && #[trigger] q[a] as int == edge_source(wf, k)
    &&& forall|v: int|
        0 <= v < wf.nodes@.len() && is_canonical(wf.nodes@, v) && !q.contains(v as usize) ==> exists|k: int|
            0 <= k < wf.edges@.len() && #[trigger] edge_target(wf, k) == v && !q.contains(
                edge_source(wf, k) as usize,
            )
}

proof fn lemma_kahn_in_other(wf: Workflow, q1: Seq<usize>, q2: Seq<usize>, b: int)
    requires
        kahn_closed(wf, q1),
        kahn_closed(wf, q2),
        0 <= b < q1.len(),
    ensures
        q2.contains(q1[b]),
    decreases b,
{
    if !q2.contains(q1[b]) {
        let v = q1[b] as int;
        assert(v < wf.nodes@.len() && is_canonical(wf.nodes@, v));
        let k = choose|k: int|
            0 <= k < wf.edges@.len() && #[trigger] edge_target(wf, k) == v && !q2.contains(
                edge_source(wf, k) as usize,
            );
        assert(edge_target(wf, k) == q1[b] as int);
        let a = choose|a: int| 0 <= a < b && #[trigger] q1[a] as int == edge_source(wf, k);
        lemma_kahn_in_other(wf, q1, q2, a);
    }
}

/// Every list of what Kahn's algorithm takes out of a workflow has the same length, so
/// that length is fixed by the workflow alone, whatever order the algorithm runs in.
pub proof fn lemma_kahn_count_unique(wf: Workflow, q1: Seq<usize>, q2: Seq<usize>)
    requires
        kahn_closed(wf, q1),
        kahn_closed(wf, q2),
    ensures
        q1.len() == q2.len(),
{
    assert forall|x: usize| q1.to_set().contains(x) <==> q2.to_set().contains(x) by {
        if q1.contains(x) {
            let b = choose|b: int| 0 <= b < q1.len() && q1[b] == x;
            lemma_kahn_in_other(wf, q1, q2, b);
        }
        if q2.contains(x) {
            let b = choose|b: int| 0 <= b < q2.len() && q2[b] == x;
            lemma_kahn_in_other(wf, q2, q1, b);
        }
    }
    assert(q1.to_set() =~= q2.to_set());
    q1.unique_seq_to_set();
    q2.unique_seq_to_set();
}

/// Some edge ends at node `v`.
pub open spec fn has_in_edge(wf: Workflow, v: int) -> bool {
    exists|k: int| 0 <= k < wf.edges@.len() && #[trigger] edge_target(wf, k) == v
}

/// Node `o[c]` joins Kahn's queue when the node at position `p` of `o` is taken out, through
/// edge `e` from it: every edge into `o[c]` starts at a node before position `p`, or at
/// `o[p]` and no later in the edge list than `e`.
pub open spec fn released_at(wf: Workflow, o: Seq<usize>, c: int, p: int, e: int) -> bool {
    &&& 0 <= p < c < o.len()
    &&& 0 <= e < wf.edges@.len()
    &&& edge_target(wf, e) == o[c] as int
    &&& edge_source(wf, e) == o[p] as int
    &&& forall|k: int|
        0 <= k < wf.edges@.len() && #[trigger] edge_target(wf, k) == o[c] as int ==> exists|a: int|
            0 <= a <= p && #[trigger] o[a] as int == edge_source(wf, k) && (a < p || k <= e)
}

/// `o` is an order in which Kahn's algorithm, with a first-in first-out queue, takes the
/// nodes out: first the nodes that no edge ends at, then every other node in the order it
/// joined the queue, that is, by the position in `o` of the last of its sources, and among
/// the nodes that one source releases, by the place in the edge list of the edge that
/// releases them.
pub open spec fn kahn_order(wf: Workflow, o: Seq<usize>) -> bool {
    &&& forall|c1: int, c2: int|
        #![trigger o[c1], o[c2]]
        0 <= c1 < c2 < o.len() && has_in_edge(wf, o[c1] as int) ==> has_in_edge(wf, o[c2] as int)
    &&& forall|c: int| 0 <= c < o.len() && has_in_edge(wf, #[trigger] o[c] as int) ==> exists|p: int, e: int|
        released_at(wf, o, c, p, e)
    &&& forall|c1: int, c2: int, p1: int, e1: int, p2: int, e2: int|
        #![trigger released_at(wf, o, c1, p1, e1), released_at(wf, o, c2, p2, e2)]
        c1 < c2 && released_at(wf, o, c1, p1, e1) && released_at(wf, o, c2, p2, e2) ==> p1 < p2 || (p1
            == p2 && e1 < e2)
}

proof fn lemma_released_unique(wf: Workflow, o: Seq<usize>, c: int, p1: int, e1: int, p2: int, e2: int)
    requires
        o.no_duplicates(),
        released_at(wf, o, c, p1, e1),
        released_at(wf, o, c, p2, e2),
    ensures
        p1 == p2 && e1 == e2,
{
    assert(edge_target(wf, e2) == o[c] as int);
    let a = choose|a: int| 0 <= a <= p1 && #[trigger] o[a] as int == edge_source(wf, e2) && (a < p1 || e2 <= e1);
    assert(edge_target(wf, e1) == o[c] as int);
    let b = choose|b: int| 0 <= b <= p2 && #[trigger] o[b] as int == edge_source(wf, e1) && (b < p2 || e1 <= e2);
    assert(o[a] == o[p2]);
    assert(o[b] == o[p1]);
}

proof fn lemma_released_push(wf: Workflow, o: Seq<usize>, x: usize, c: int, p: int, e: int)
    requires
        released_at(wf, o, c, p, e),
    ensures
        released_at(wf, o.push(x), c, p, e),
{
    let o2 = o.push(x);
    assert(o2[c] == o[c] && o2[p] == o[p]);
    assert forall|k: int| 0 <= k < wf.edges@.len() && #[trigger] edge_target(wf, k) == o2[c] as int implies exists|a: int|
        0 <= a <= p && #[trigger] o2[a] as int == edge_source(wf, k) && (a < p || k <= e) by {
        let a = choose|a: int| 0 <= a <= p && #[trigger] o[a] as int == edge_source(wf, k) && (a < p || k <= e);
        assert(o2[a] == o[a]);
    }
}

proof fn lemma_count_flat(ends: Seq<(usize, usize)>, u: int, v: int, m: int, m2: int)
    requires
        0 <= m <= m2,
        count_edges(ends, u, v, m) == count_edges(ends, u, v, m2),
    ensures
        forall|k: int| m <= k < m2 ==> !((#[trigger] ends[k]).0 as int == u && ends[k].1 as int == v),
    decreases m2,
{
    if m2 > m {
        lemma_count_step(ends, u, v, m, m2 - 1);
        lemma_count_flat(ends, u, v, m, m2 - 1);
    }
}

/// What `topo_sort` makes of a workflow.
pub enum TopoOutcome {
    /// An order exists.
    Sorted,
    /// An edge names no node; the error says which.
    Refused(TopoError),
    /// Every edge names a node, but the ids repeat or the edges form a cycle.
    Stuck,
}

pub open spec fn topo_sort_outcome(wf: Workflow) -> TopoOutcome {
    if wf.nodes@.len() == 0 || wf.edges@.len() == 0 {
        TopoOutcome::Sorted
    } else if first_bad_edge_from(wf, 0) is Some {
        TopoOutcome::Refused(first_bad_edge_from(wf, 0)->0)
    } else if ids_distinct(wf.nodes@) && acyclic(wf) {
        TopoOutcome::Sorted
    } else {
        TopoOutcome::Stuck
    }
}

/// Orders a workflow's nodes so that every edge runs from an earlier to a later node
/// (Kahn's algorithm), and returns their indices in `wf.nodes`.
///
/// - With no nodes the order is empty; with no edges it is the nodes' own order.
/// - An edge whose endpoint names no node is refused, the first such edge deciding.
/// - Otherwise the order exists exactly when the node ids are distinct and the
///   edges form no cycle; when it does not, `Cycle` says how many nodes Kahn's
///   algorithm took out before it stuck, a number the workflow alone fixes.
/// - The order is Kahn's with a first-in first-out queue: the nodes no edge ends at
///   come first, in their own order; every other node follows as the last of its
///   sources is taken out, ties going by the order of the edges that release them.
#[verifier::spinoff_prover]
#[verifier::rlimit(50)]
pub fn topo_sort(wf: &Workflow) -> (r: Result<Vec<usize>, TopoError>)
    ensures
        wf.nodes@.len() == 0 ==> (r matches Ok(o) && o@.len() == 0),
        wf.nodes@.len() > 0 && wf.edges@.len() == 0 ==> (r matches Ok(o) && o@ =~= Seq::new(
            wf.nodes@.len(),
            |i: int| i as usize,
        )),
        wf.nodes@.len() > 0 && wf.edges@.len() > 0 ==> {
            &&& first_bad_edge_from(*wf, 0) matches Some(e) ==> r == Err::<Vec<usize>, TopoError>(e)
            &&& first_bad_edge_from(*wf, 0) is None ==> (r is Ok <==> ids_distinct(wf.nodes@)
                && acyclic(*wf))
            &&& r matches Ok(o) ==> is_topo_order(*wf, o@) && kahn_order(*wf, o@)
            &&& r matches Ok(o) ==> forall|c1: int, c2: int|
                #![trigger o@[c1], o@[c2]]
                0 <= c1 < c2 < o@.len() && !has_in_edge(*wf, o@[c2] as int) ==> o@[c1] < o@[c2]
            &&& r matches Err(TopoError::Cycle { sorted, total }) ==> total == wf.nodes@.len()
                && sorted < total && exists|q: Seq<usize>| #[trigger] kahn_closed(*wf, q) && q.len() == sorted
            &&& first_bad_edge_from(*wf, 0) is None && r is Err ==> r matches Err(TopoError::Cycle { .. })
        },
{
    let n = wf.nodes.len();
    if n == 0 {
        return Ok(Vec::new());
    }
    if wf.edges.len() == 0 {
        let mut order: Vec<usize> = Vec::new();
        let mut i: usize = 0;
        while i < n
            invariant
                i <= n,
                n == wf.nodes@.len(),
                order@ =~= Seq::new(i as nat, |j: int| j as usize),
            decreases n - i,
        {
            order.push(i);
            i += 1;
        }
        return Ok(order);
    }
    // Resolve every edge to the node indices it joins.

    let ne = wf.edges.len();
    let mut ends: Vec<(usize, usize)> = Vec::new();
    let mut k: usize = 0;
    while k < ne
        invariant
            k <= ne,
            ne == wf.edges@.len(),
            n == wf.nodes@.len(),
            n > 0,
            ne > 0,
            ends@.len() == k,
            first_bad_edge_from(*wf, 0) == first_bad_edge_from(*wf, k as int),
            forall|j: int|
                0 <= j < k ==> (#[trigger] ends@[j]).0 as int == edge_source(*wf, j) && ends@[j].1 as int
                    == edge_target(*wf, j) && ends@[j].0 < n && ends@[j].1 < n,
        decreases ne - k,
    {
        let s = match find_node(&wf.nodes, &wf.edges[k].from) {
            Some(s) => s,
            None => {
                return Err(TopoError::UnknownSource(wf.edges[k].from.clone()));
            },
        };
        let d = match find_node(&wf.nodes, &wf.edges[k].to) {
            Some(d) => d,
            None => {
                return Err(TopoError::UnknownTarget(wf.edges[k].to.clone()));
            },
        };
        ends.push((s, d));
        k += 1;
    }
    assert(first_bad_edge_from(*wf, 0) is None);
    // Which nodes are the ones their ids name.

    let mut canon: Vec<bool> = Vec::new();
    let mut i: usize = 0;
    while i < n
        invariant
            i <= n,
            n == wf.nodes@.len(),
            canon@.len() == i,
            forall|v: int| 0 <= v < i ==> canon@[v] == is_canonical(wf.nodes@, v),
        decreases n - i,
    {
        let c = match find_node(&wf.nodes, &wf.nodes[i].id) {
            Some(j) => j == i,
            None => false,
        };
        canon.push(c);
        i += 1;
    }
    proof {
        assert forall|j: int| 0 <= j < ne implies canon@[(#[trigger] ends@[j]).0 as int] && canon@[ends@[j].1 as int] by {
            let s = ends@[j].0 as int;
            let d = ends@[j].1 as int;
            lemma_last_index_bounds(wf.nodes@, wf.edges@[j].from@, n as int);
            lemma_last_index_bounds(wf.nodes@, wf.edges@[j].to@, n as int);
        }
    }
    // In-degrees.

    let ghost none_popped = Seq::new(n as nat, |v: int| false);
    let mut indeg: Vec<usize> = Vec::new();
    let mut popped: Vec<bool> = Vec::new();
    let mut queued: Vec<bool> = Vec::new();
    let mut pos: Vec<usize> = Vec::new();
    i = 0;
    while i < n
        invariant
            i <= n,
            indeg@.len() == i,
            popped@.len() == i,
            queued@.len() == i,
            pos@.len() == i,
            forall|v: int| 0 <= v < i ==> indeg@[v] == 0 && !popped@[v] && !queued@[v] && pos@[v] == 0,
        decreases n - i,
    {
        indeg.push(0);
        popped.push(false);
        queued.push(false);
        pos.push(0);
        i += 1;
    }
    assert(popped@ =~= none_popped);
    k = 0;
    while k < ne
        invariant
            k <= ne,
            ne == ends@.len(),
            n == indeg@.len(),
            n == popped@.len(),
            popped@ == none_popped,
            forall|v: int| 0 <= v < n ==> !(#[trigger] popped@[v]),
            forall|j: int| 0 <= j < ne ==> (#[trigger] ends@[j]).0 < n && ends@[j].1 < n,
            forall|v: int| 0 <= v < n ==> #[trigger] indeg@[v] == pending_in(ends@, popped@, v, k as int),
        decreases ne - k,
    {
        let d = ends[k].1;
        proof {
            lemma_pending_bound(ends@, popped@, d as int, k as int);
        }
        indeg.set(d, indeg[d] + 1);
        proof {
            assert forall|v: int| 0 <= v < n implies #[trigger] indeg@[v] == pending_in(ends@, popped@, v, k + 1) by {
                assert(ends@[k as int].0 < n);
                assert(!popped@[ends@[k as int].0 as int]);
            }
        }
        k += 1;
    }
    // Seed the queue with the nodes nothing points at.

    let mut queue: Vec<usize> = Vec::new();
    i = 0;
    while i < n
        invariant
            i <= n,
            n == wf.nodes@.len(),
            n == indeg@.len() && n == popped@.len() && n == queued@.len() && n == pos@.len() && n == canon@.len(),
            popped@ == none_popped,
            queue@.len() <= i,
            forall|v: int| 0 <= v < n ==> canon@[v] == is_canonical(wf.nodes@, v),
            forall|v: int| 0 <= v < n ==> #[trigger] indeg@[v] == pending_in(ends@, popped@, v, ne as int),
            forall|v: int| 0 <= v < n ==> (#[trigger] queued@[v] <==> (v < i && canon@[v] && indeg@[v] == 0)),
            forall|v: int| 0 <= v < n && queued@[v] ==> pos@[v] < queue@.len() && queue@[pos@[v] as int] == v,
            forall|a: int| 0 <= a < queue@.len() ==> (#[trigger] queue@[a]) < n && queued@[queue@[a] as int] && pos@[queue@[a] as int] == a,
            forall|a: int| 0 <= a < queue@.len() ==> #[trigger] queue@[a] < i,
            forall|a1: int, a2: int| #![trigger queue@[a1], queue@[a2]] 0 <= a1 < a2 < queue@.len() ==> queue@[a1] < queue@[a2],
        decreases n - i,
    {
        if canon[i] && indeg[i] == 0 {
            pos.set(i, queue.len());
            queue.push(i);
            queued.set(i, true);
        }
        i += 1;
    }
    proof {
        assert forall|j: int|
            0 <= j < ne && queued@[(#[trigger] ends@[j]).1 as int] implies popped@[ends@[j].0 as int]
                && pos@[ends@[j].0 as int] < pos@[ends@[j].1 as int] by {
            let d = ends@[j].1 as int;
            lemma_pending_zero(ends@, popped@, d, ne as int);
        }
        assert forall|a: int| 0 <= a < queue@.len() implies !has_in_edge(*wf, #[trigger] queue@[a] as int) by {
            if has_in_edge(*wf, queue@[a] as int) {
                let kk = choose|kk: int| 0 <= kk < wf.edges@.len() && #[trigger] edge_target(*wf, kk) == queue@[a] as int;
                assert(ends@[kk].1 as int == edge_target(*wf, kk));
                assert(queued@[queue@[a] as int]);
                assert(popped@[ends@[kk].0 as int]);
            }
        }
    }
    let ghost mut keys: Seq<(int, int)> = Seq::new(queue@.len(), |c: int| (0int, 0int));
    // Take nodes out in queue order, releasing what they point at.

    let mut head: usize = 0;
    while head < queue.len()
        invariant
            n == wf.nodes@.len(),
            ne == wf.edges@.len(),
            ne == ends@.len(),
            n == indeg@.len() && n == popped@.len() && n == queued@.len() && n == pos@.len() && n == canon@.len(),
            head <= queue@.len(),
            queue@.len() <= n,
            forall|j: int|
                0 <= j < ne ==> (#[trigger] ends@[j]).0 as int == edge_source(*wf, j) && ends@[j].1 as int
                    == edge_target(*wf, j) && ends@[j].0 < n && ends@[j].1 < n,
            forall|j: int| 0 <= j < ne ==> canon@[(#[trigger] ends@[j]).0 as int] && canon@[ends@[j].1 as int],
            forall|v: int| 0 <= v < n ==> canon@[v] == is_canonical(wf.nodes@, v),
            forall|v: int| 0 <= v < n && queued@[v] ==> pos@[v] < queue@.len() && queue@[pos@[v] as int] == v,
            forall|a: int| 0 <= a < queue@.len() ==> (#[trigger] queue@[a]) < n && queued@[queue@[a] as int] && pos@[queue@[a] as int] == a,
            forall|v: int| 0 <= v < n ==> (#[trigger] popped@[v] <==> (queued@[v] && pos@[v] < head)),
            forall|v: int| 0 <= v < n && !canon@[v] ==> !queued@[v],
            forall|v: int| 0 <= v < n && canon@[v] && !popped@[v] ==> #[trigger] indeg@[v] == pending_in(ends@, popped@, v, ne as int),
            forall|v: int| 0 <= v < n && canon@[v] && !popped@[v] ==> (#[trigger] queued@[v] <==> indeg@[v] == 0),
            forall|j: int|
                0 <= j < ne && queued@[(#[trigger] ends@[j]).1 as int] ==> popped@[ends@[j].0 as int]
                    && pos@[ends@[j].0 as int] < pos@[ends@[j].1 as int],
            keys.len() == queue@.len(),
            forall|a1: int, a2: int|
                #![trigger queue@[a1], queue@[a2]]
                0 <= a1 < a2 < queue@.len() && has_in_edge(*wf, queue@[a1] as int) ==> has_in_edge(*wf, queue@[a2] as int),
            forall|a1: int, a2: int|
                #![trigger queue@[a1], queue@[a2]]
                0 <= a1 < a2 < queue@.len() && !has_in_edge(*wf, queue@[a2] as int) ==> queue@[a1] < queue@[a2],
            forall|c: int|
                0 <= c < queue@.len() && has_in_edge(*wf, #[trigger] queue@[c] as int) ==> released_at(*wf, queue@, c, keys[c].0, keys[c].1)
                    && keys[c].0 < head,
            forall|c1: int, c2: int|
                #![trigger queue@[c1], queue@[c2]]
                0 <= c1 < c2 < queue@.len() && has_in_edge(*wf, queue@[c1] as int) && has_in_edge(*wf, queue@[c2] as int)
                    ==> keys[c1].0 < keys[c2].0 || (keys[c1].0 == keys[c2].0 && keys[c1].1 < keys[c2].1),
        decreases n - head,
    {
        let u = queue[head];
        let ghost old_popped = popped@;
        let ghost old_queue_len = queue@.len();
        proof {
            assert(queued@[u as int] && pos@[u as int] == head);
            assert forall|v: int| 0 <= v < n implies pending_in(ends@, popped@.update(u as int, true), v, ne as int)
                + count_edges(ends@, u as int, v, ne as int) == #[trigger] pending_in(ends@, popped@, v, ne as int) by {
                lemma_pending_pop(ends@, popped@, u as int, v, ne as int);
            }
        }
        popped.set(u, true);
        head += 1;
        let mut j: usize = 0;
        while j < ne
            invariant
                n == wf.nodes@.len(),
                ne == ends@.len(),
                ne == wf.edges@.len(),
                n == indeg@.len() && n == popped@.len() && n == queued@.len() && n == pos@.len() && n == canon@.len(),
                j <= ne,
                u < n,
                head <= queue@.len(),
                queue@.len() <= n,
                head == pos@[u as int] + 1,
                old_queue_len <= queue@.len(),
                old_popped.len() == n,
                popped@ == old_popped.update(u as int, true),
                !old_popped[u as int],
                queued@[u as int],
                forall|jj: int|
                    0 <= jj < ne ==> (#[trigger] ends@[jj]).0 as int == edge_source(*wf, jj) && ends@[jj].1 as int
                        == edge_target(*wf, jj) && ends@[jj].0 < n && ends@[jj].1 < n,
                forall|jj: int| 0 <= jj < ne ==> canon@[(#[trigger] ends@[jj]).0 as int] && canon@[ends@[jj].1 as int],
                forall|v: int| 0 <= v < n ==> canon@[v] == is_canonical(wf.nodes@, v),
                forall|v: int| 0 <= v < n && queued@[v] ==> pos@[v] < queue@.len() && queue@[pos@[v] as int] == v,
                forall|a: int| 0 <= a < queue@.len() ==> (#[trigger] queue@[a]) < n && queued@[queue@[a] as int] && pos@[queue@[a] as int] == a,
                forall|v: int| 0 <= v < n ==> (#[trigger] popped@[v] <==> (queued@[v] && pos@[v] < head)),
                forall|v: int| 0 <= v < n && !canon@[v] ==> !queued@[v],
                forall|v: int| 0 <= v < n ==> pending_in(ends@, popped@, v, ne as int)
                    + count_edges(ends@, u as int, v, ne as int) == #[trigger] pending_in(ends@, old_popped, v, ne as int),
                forall|v: int| 0 <= v < n && canon@[v] && !popped@[v] ==> #[trigger] indeg@[v] + count_edges(ends@, u as int, v, j as int)
                    == pending_in(ends@, old_popped, v, ne as int),
                forall|v: int| 0 <= v < n && canon@[v] && !popped@[v] ==> (#[trigger] queued@[v] <==> indeg@[v] == 0),
                forall|jj: int|
                    0 <= jj < ne && queued@[(#[trigger] ends@[jj]).1 as int] ==> popped@[ends@[jj].0 as int]
                        && pos@[ends@[jj].0 as int] < pos@[ends@[jj].1 as int],
                keys.len() == queue@.len(),
                forall|a1: int, a2: int|
                    #![trigger queue@[a1], queue@[a2]]
                    0 <= a1 < a2 < queue@.len() && has_in_edge(*wf, queue@[a1] as int) ==> has_in_edge(*wf, queue@[a2] as int),
                forall|a1: int, a2: int|
                    #![trigger queue@[a1], queue@[a2]]
                    0 <= a1 < a2 < queue@.len() && !has_in_edge(*wf, queue@[a2] as int) ==> queue@[a1] < queue@[a2],
                forall|c: int|
                    0 <= c < queue@.len() && has_in_edge(*wf, #[trigger] queue@[c] as int) ==> released_at(*wf, queue@, c, keys[c].0, keys[c].1)
                        && (keys[c].0 < head - 1 || (keys[c].0 == head - 1 && keys[c].1 < j)),
                forall|c1: int, c2: int|
                    #![trigger queue@[c1], queue@[c2]]
                    0 <= c1 < c2 < queue@.len() && has_in_edge(*wf, queue@[c1] as int) && has_in_edge(*wf, queue@[c2] as int)
                        ==> keys[c1].0 < keys[c2].0 || (keys[c1].0 == keys[c2].0 && keys[c1].1 < keys[c2].1),
            decreases ne - j,
        {
            if ends[j].0 == u {
                let d = ends[j].1;
                proof {
                    if popped@[d as int] {
                        assert(queued@[d as int] && pos@[d as int] < head);
                        assert(pos@[u as int] < pos@[d as int]);
                    }
                    assert(!popped@[d as int]);
                    lemma_count_step(ends@, u as int, d as int, j as int + 1, ne as int);
                    assert(count_edges(ends@, u as int, d as int, j as int + 1) == count_edges(ends@, u as int, d as int, j as int) + 1);
                    assert(indeg@[d as int] + count_edges(ends@, u as int, d as int, j as int) == pending_in(ends@, old_popped, d as int, ne as int));
                    assert(pending_in(ends@, popped@, d as int, ne as int) + count_edges(ends@, u as int, d as int, ne as int) == pending_in(ends@, old_popped, d as int, ne as int));
                    assert(indeg@[d as int] >= 1);
                    assert(!queued@[d as int]);
                }
                indeg.set(d, indeg[d] - 1);
                if indeg[d] == 0 {
                    proof {
                        assert(pending_in(ends@, popped@, d as int, ne as int) == 0);
                        lemma_pending_zero(ends@, popped@, d as int, ne as int);
                    }
                    let ghost old_q = queue@;
                    let ghost h = head - 1;
                    proof {
                        lemma_count_flat(ends@, u as int, d as int, j as int + 1, ne as int);
                        assert(queue@[h] == u);
                    }
                    pos.set(d, queue.len());
                    queue.push(d);
                    queued.set(d, true);
                    proof {
                        let c = old_q.len() as int;
                        assert(queue@ == old_q.push(d));
                        assert forall|k: int| 0 <= k < wf.edges@.len() && #[trigger] edge_target(*wf, k) == queue@[c] as int implies exists|a: int|
                            0 <= a <= h && #[trigger] queue@[a] as int == edge_source(*wf, k) && (a < h || k <= j) by {
                            assert(ends@[k].1 as int == edge_target(*wf, k));
                            let src = ends@[k].0 as int;
                            assert(popped@[src]);
                            assert(src != d);
                            assert(queued@[src] && pos@[src] < head);
                            assert(queue@[pos@[src] as int] as int == src);
                            if pos@[src] == h {
                                assert(src == u);
                            }
                        }
                        assert(ends@[j as int].1 as int == edge_target(*wf, j as int));
                        assert(released_at(*wf, queue@, c, h as int, j as int));
                        assert forall|cc: int| 0 <= cc < c && has_in_edge(*wf, #[trigger] old_q[cc] as int) implies released_at(*wf, queue@, cc, keys[cc].0, keys[cc].1) by {
                            lemma_released_push(*wf, old_q, d, cc, keys[cc].0, keys[cc].1);
                        }
                        assert(has_in_edge(*wf, d as int)) by {
                            assert(edge_target(*wf, j as int) == d as int);
                        }
                        let old_keys = keys;
                        keys = keys.push((h as int, j as int));
                        assert forall|cc: int| 0 <= cc < queue@.len() && has_in_edge(*wf, #[trigger] queue@[cc] as int) implies released_at(*wf, queue@, cc, keys[cc].0, keys[cc].1)
                            && (keys[cc].0 < head - 1 || (keys[cc].0 == head - 1 && keys[cc].1 < j + 1)) by {
                            if cc < c {
                                assert(queue@[cc] == old_q[cc]);
                                assert(keys[cc] == old_keys[cc]);
                            }
                        }
                        assert forall|c1: int, c2: int|
                            #![trigger queue@[c1], queue@[c2]]
                            0 <= c1 < c2 < queue@.len() && has_in_edge(*wf, queue@[c1] as int) && has_in_edge(*wf, queue@[c2] as int)
                                implies keys[c1].0 < keys[c2].0 || (keys[c1].0 == keys[c2].0 && keys[c1].1 < keys[c2].1) by {
                            assert(queue@[c1] == old_q[c1]);
                            assert(keys[c1] == old_keys[c1]);
                            if c2 < c {
                                assert(queue@[c2] == old_q[c2]);
                                assert(keys[c2] == old_keys[c2]);
                            }
                        }
                        assert forall|a1: int, a2: int|
                            #![trigger queue@[a1], queue@[a2]]
                            0 <= a1 < a2 < queue@.len() && has_in_edge(*wf, queue@[a1] as int) implies has_in_edge(*wf, queue@[a2] as int) by {
                            if a2 < c {
                                assert(queue@[a1] == old_q[a1]);
                                assert(queue@[a2] == old_q[a2]);
                            }
                        }
                        assert forall|a1: int, a2: int|
                            #![trigger queue@[a1], queue@[a2]]
                            0 <= a1 < a2 < queue@.len() && !has_in_edge(*wf, queue@[a2] as int) implies queue@[a1] < queue@[a2] by {
                            assert(a2 < c);
                            assert(queue@[a1] == old_q[a1]);
                            assert(queue@[a2] == old_q[a2]);
                        }
                    }
                    proof {
                        assert(queue@.no_duplicates()) by {
                            assert forall|a: int, b: int| 0 <= a < queue@.len() && 0 <= b < queue@.len() && a != b implies queue@[a] != queue@[b] by {
                                assert(pos@[queue@[a] as int] == a);
                                assert(pos@[queue@[b] as int] == b);
                            }
                        }
                        lemma_below(n);
                        lemma_distinct_within(queue@, below(n));
                    }
                }
            }
            j += 1;
        }
        proof {
            assert forall|v: int| 0 <= v < n && canon@[v] && !popped@[v] implies #[trigger] indeg@[v] == pending_in(ends@, popped@, v, ne as int) by {
                assert(indeg@[v] + count_edges(ends@, u as int, v, ne as int) == pending_in(ends@, old_popped, v, ne as int));
            }
        }
    }
    if queue.len() == n {
        proof {
            lemma_distinct_covers(queue@, n);
            assert forall|v: int| 0 <= v < n implies #[trigger] queued@[v] by {
                assert(queue@.contains(v as usize));
            }
            assert forall|v: int| 0 <= v < n implies is_canonical(wf.nodes@, v) by {
                assert(queued@[v]);
            }
            lemma_canonical_distinct(wf.nodes@);
            let rank = Seq::new(n as nat, |v: int| pos@[v] as int);
            assert forall|kk: int| 0 <= kk < wf.edges@.len() implies rank[edge_source(*wf, kk)] < rank[#[trigger] edge_target(*wf, kk)] by {
                assert(ends@[kk].1 as int == edge_target(*wf, kk));
                assert(queued@[ends@[kk].1 as int]);
            }
            assert(is_rank(*wf, rank));
            assert forall|kk: int, a: int, b: int|
                #![trigger edge_target(*wf, kk), queue@[a], queue@[b]]
                0 <= kk < wf.edges@.len() && 0 <= a < queue@.len() && 0 <= b < queue@.len()
                    && queue@[a] == edge_source(*wf, kk) && queue@[b] == edge_target(*wf, kk) implies a < b by {
                assert(ends@[kk].1 as int == edge_target(*wf, kk));
                assert(queued@[ends@[kk].1 as int]);
            }
            assert(queue@.no_duplicates());
            assert forall|c: int| 0 <= c < queue@.len() && has_in_edge(*wf, #[trigger] queue@[c] as int) implies exists|p: int, e: int|
                released_at(*wf, queue@, c, p, e) by {
                assert(released_at(*wf, queue@, c, keys[c].0, keys[c].1));
            }
            assert forall|c1: int, c2: int, p1: int, e1: int, p2: int, e2: int|
                #![trigger released_at(*wf, queue@, c1, p1, e1), released_at(*wf, queue@, c2, p2, e2)]
                c1 < c2 && released_at(*wf, queue@, c1, p1, e1) && released_at(*wf, queue@, c2, p2, e2) implies p1 < p2 || (p1
                    == p2 && e1 < e2) by {
                assert(edge_target(*wf, e1) == queue@[c1] as int);
                assert(edge_target(*wf, e2) == queue@[c2] as int);
                assert(has_in_edge(*wf, queue@[c1] as int));
                assert(has_in_edge(*wf, queue@[c2] as int));
                lemma_released_unique(*wf, queue@, c1, p1, e1, keys[c1].0, keys[c1].1);
                lemma_released_unique(*wf, queue@, c2, p2, e2, keys[c2].0, keys[c2].1);
            }
            assert(kahn_order(*wf, queue@));
        }
        Ok(queue)
    } else {
        proof {
            if ids_distinct(wf.nodes@) && acyclic(*wf) {
                let rank = choose|rank: Seq<int>| is_rank(*wf, rank);
                let v0 = lemma_distinct_misses(queue@, n);
                assert forall|v: int| 0 <= v < n implies canon@[v] by {
                    lemma_distinct_canonical(wf.nodes@, v);
                }
                assert(!queued@[v0 as int]);
                assert forall|v: int| 0 <= v < popped@.len() && !popped@[v] implies exists|kk: int|
                    0 <= kk < ends@.len() && (#[trigger] ends@[kk]).1 as int == v && !popped@[ends@[kk].0 as int] by {
                    assert(canon@[v]);
                    if queued@[v] {
                        assert(pos@[v] < queue@.len());
                    }
                    assert(indeg@[v] != 0);
                    let kk = lemma_pending_witness(ends@, popped@, v, ne as int);
                }
                lemma_stuck_has_no_rank(*wf, rank, ends@, popped@, v0 as int);
            }
            // The queue is what Kahn's algorithm takes out.
            assert(head == queue@.len());
            assert(queue@.no_duplicates()) by {
                assert forall|a: int, b: int| 0 <= a < queue@.len() && 0 <= b < queue@.len() && a != b implies queue@[a] != queue@[b] by {
                    assert(pos@[queue@[a] as int] == a);
                    assert(pos@[queue@[b] as int] == b);
                }
            }
            assert forall|a: int| 0 <= a < queue@.len() implies #[trigger] queue@[a] < wf.nodes@.len() && is_canonical(wf.nodes@, queue@[a] as int) by {
                assert(queued@[queue@[a] as int]);
                assert(canon@[queue@[a] as int]);
            }
            assert forall|kk: int, b: int|
                #![trigger edge_target(*wf, kk), queue@[b]]
                0 <= kk < wf.edges@.len() && 0 <= b < queue@.len() && edge_target(*wf, kk) == queue@[b] as int implies exists|a: int|
                    0 <= a < b && #[trigger] queue@[a] as int == edge_source(*wf, kk) by {
                assert(ends@[kk].1 as int == edge_target(*wf, kk));
                assert(queued@[queue@[b] as int] && pos@[queue@[b] as int] == b);
                let src = ends@[kk].0 as int;
                assert(popped@[src] && pos@[src] < b);
                assert(queued@[src]);
                assert(queue@[pos@[src] as int] as int == edge_source(*wf, kk));
            }
            assert forall|v: int|
                0 <= v < wf.nodes@.len() && is_canonical(wf.nodes@, v) && !queue@.contains(v as usize) implies exists|kk: int|
                    0 <= kk < wf.edges@.len() && #[trigger] edge_target(*wf, kk) == v && !queue@.contains(
                        edge_source(*wf, kk) as usize,
                    ) by {
                assert(canon@[v]);
                if queued@[v] {
                    assert(queue@[pos@[v] as int] == v as usize);
                }
                assert(!popped@[v]);
                assert(indeg@[v] != 0);
                let kk = lemma_pending_witness(ends@, popped@, v, ne as int);
                let src = ends@[kk].0 as int;
                assert(ends@[kk].1 as int == edge_target(*wf, kk));
                assert(src == edge_source(*wf, kk));
                if queue@.contains(src as usize) {
                    let a = choose|a: int| 0 <= a < queue@.len() && queue@[a] == src as usize;
                    assert(queued@[src] && pos@[src] == a);
                    assert(popped@[src]);
                }
            }
            assert(kahn_closed(*wf, queue@));
        }
        Err(TopoError::Cycle { sorted: queue.len(), total: n })
    }
}


/// `depth` numbers each node by the longest chain of edges that ends at it: a node with
/// no incoming edge is at depth 1, and any other node sits one past its deepest source.
pub open spec fn is_depth(wf: Workflow, depth: Seq<usize>) -> bool {
    &&& depth.len() == wf.nodes@.len()
    &&& forall|k: int|
        0 <= k < wf.edges@.len() ==> 0 <= #[trigger] edge_source(wf, k) && edge_source(wf, k) < depth.len()
    &&& forall|k: int|
        0 <= k < wf.edges@.len() ==> 0 <= #[trigger] edge_target(wf, k) && edge_target(wf, k) < depth.len()
    &&& forall|v: int| 0 <= v < depth.len() ==> #[trigger] depth[v] >= 1
    &&& forall|k: int|
        0 <= k < wf.edges@.len() ==> depth[edge_source(wf, k)] < depth[#[trigger] edge_target(wf, k)]
    &&& forall|v: int|
        0 <= v < depth.len() && #[trigger] depth[v] > 1 ==> exists|k: int|
            0 <= k < wf.edges@.len() && #[trigger] edge_target(wf, k) == v && depth[edge_source(wf, k)] + 1
                == depth[v]
}

proof fn lemma_depth_from_ends(wf: Workflow, ends: Seq<(usize, usize)>, depth: Seq<usize>)
    requires
        depth.len() == wf.nodes@.len(),
        ends.len() == wf.edges@.len(),
        forall|j: int|
            0 <= j < ends.len() ==> (#[trigger] ends[j]).0 as int == edge_source(wf, j) && ends[j].1 as int
                == edge_target(wf, j) && ends[j].0 < depth.len() && ends[j].1 < depth.len(),
        forall|v: int| 0 <= v < depth.len() ==> #[trigger] depth[v] >= 1,
        forall|j: int| 0 <= j < ends.len() ==> depth[(#[trigger] ends[j]).0 as int] < depth[ends[j].1 as int],
        forall|v: int|
            0 <= v < depth.len() && #[trigger] depth[v] > 1 ==> exists|j: int|
                0 <= j < ends.len() && (#[trigger] ends[j]).1 as int == v && depth[ends[j].0 as int] + 1 == depth[v],
    ensures
        is_depth(wf, depth),
{
    assert forall|k: int|
        #![trigger edge_target(wf, k)]
        #![trigger edge_source(wf, k)]
        0 <= k < wf.edges@.len() implies 0 <= edge_source(wf, k) && edge_source(wf, k) < depth.len() && 0
            <= edge_target(wf, k) && edge_target(wf, k) < depth.len() && depth[edge_source(wf, k)] < depth[edge_target(wf, k)] by {
        assert(ends[k].0 as int == edge_source(wf, k));
    }
    assert forall|v: int|
        0 <= v < depth.len() && #[trigger] depth[v] > 1 implies exists|k: int|
            0 <= k < wf.edges@.len() && #[trigger] edge_target(wf, k) == v && depth[edge_source(wf, k)] + 1
                == depth[v] by {
        let j = choose|j: int| 0 <= j < ends.len() && (#[trigger] ends[j]).1 as int == v && depth[ends[j].0 as int] + 1 == depth[v];
        assert(edge_target(wf, j) == v);
    }
}

/// `levels[l]` holds, without repeats, exactly the nodes of depth `l`; level 0 is empty.
pub open spec fn is_levels(depth: Seq<usize>, levels: Seq<Vec<usize>>) -> bool {
    &&& levels.len() >= 1
    &&& forall|v: int| 0 <= v < depth.len() ==> #[trigger] depth[v] < levels.len()
    &&& forall|l: int| 0 <= l < levels.len() ==> (#[trigger] levels[l])@.no_duplicates()
    &&& forall|l: int, i: int|
        #![trigger levels[l]@[i]]
        0 <= l < levels.len() && 0 <= i < levels[l]@.len() ==> levels[l]@[i] < depth.len()
            && depth[levels[l]@[i] as int] == l
    &&& forall|v: int| 0 <= v < depth.len() ==> levels[depth[v] as int]@.contains(v as usize)
}

/// How a workflow runs: nodes grouped in waves, each wave after all earlier ones.
pub struct ExecutionPlan {
    /// The depth of each node, indexed like `Workflow::nodes`.
    pub depth: Vec<usize>,
    /// `levels[l]` lists the nodes of depth `l`.
    pub levels: Vec<Vec<usize>>,
    /// The nodes in the order `topo_sort` gave them.
    pub order: Vec<usize>,
}

/// Each wave lists its nodes in the order that `order` gives them.
pub open spec fn levels_follow(order: Seq<usize>, levels: Seq<Vec<usize>>) -> bool {
    forall|l: int, i: int, j: int, a: int, b: int|
        #![trigger levels[l]@[i], levels[l]@[j], order[a], order[b]]
        0 <= l < levels.len() && 0 <= i < j < levels[l]@.len() && 0 <= a < order.len() && 0 <= b
            < order.len() && levels[l]@[i] == order[a] && levels[l]@[j] == order[b] ==> a < b
}

/// Groups the nodes into waves by depth, each wave in the order that `order` gives.
fn group_waves(order: &Vec<usize>, pos: &Vec<usize>, depth: &Vec<usize>) -> (levels: Vec<Vec<usize>>)
    requires
        order@.len() == depth@.len(),
        pos@.len() == depth@.len(),
        depth@.len() > 0,
        forall|b: int| 0 <= b < depth@.len() ==> #[trigger] order@[b] < depth@.len() && pos@[order@[b] as int] == b,
        forall|v: int| 0 <= v < depth@.len() ==> #[trigger] pos@[v] < depth@.len() && order@[pos@[v] as int] == v,
        forall|v: int| 0 <= v < depth@.len() ==> 1 <= #[trigger] depth@[v] <= depth@.len(),
    ensures
        is_levels(depth@, levels@),
        exists|v: int| 0 <= v < depth@.len() && #[trigger] depth@[v] + 1 == levels@.len(),
        levels_follow(order@, levels@),
{
    let n = depth.len();
    let mut i: usize = 0;
    let mut max_depth: usize = 0;
    while i < n
        invariant
            i <= n,
            depth@.len() == n,
            forall|v: int| 0 <= v < n ==> #[trigger] depth@[v] <= n,
            max_depth <= n,
            forall|v: int| 0 <= v < i ==> #[trigger] depth@[v] <= max_depth,
            max_depth == 0 || exists|v: int| 0 <= v < i && #[trigger] depth@[v] == max_depth,
        decreases n - i,
    {
        if depth[i] > max_depth {
            max_depth = depth[i];
        }
        i += 1;
    }
    assert(max_depth >= 1) by {
        assert(depth@[0] >= 1);
    }
    let mut levels: Vec<Vec<usize>> = Vec::new();
    let mut l: usize = 0;
    loop
        invariant_except_break
            l <= max_depth,
            levels@.len() == l,
        invariant
            max_depth <= n,
            depth@.len() == n,
            forall|v: int| 0 <= v < n ==> #[trigger] depth@[v] <= max_depth,
            exists|v: int| 0 <= v < n && #[trigger] depth@[v] == max_depth,
            order@.len() == n,
            pos@.len() == n,
            forall|b: int| 0 <= b < n ==> #[trigger] order@[b] < n && pos@[order@[b] as int] == b,
            forall|v: int| 0 <= v < n ==> #[trigger] pos@[v] < n && order@[pos@[v] as int] == v,
            levels_follow(order@, levels@),
            l <= levels@.len() <= l + 1,
            forall|ll: int| 0 <= ll < levels@.len() ==> (#[trigger] levels@[ll])@.no_duplicates(),
            forall|ll: int, ii: int|
                #![trigger levels@[ll]@[ii]]
                0 <= ll < levels@.len() && 0 <= ii < levels@[ll]@.len() ==> levels@[ll]@[ii] < n
                    && depth@[levels@[ll]@[ii] as int] == ll,
            forall|v: int| 0 <= v < n && #[trigger] depth@[v] < levels@.len() ==> levels@[depth@[v] as int]@.contains(v as usize),
        ensures
            levels@.len() == max_depth + 1,
        decreases max_depth - l,
    {
        let mut wave: Vec<usize> = Vec::new();
        let mut a: usize = 0;
        while a < n
            invariant
                a <= n,
                depth@.len() == n,
                order@.len() == n,
                pos@.len() == n,
                forall|b: int| 0 <= b < n ==> #[trigger] order@[b] < n && pos@[order@[b] as int] == b,
                forall|ii: int| 0 <= ii < wave@.len() ==> #[trigger] wave@[ii] < n && pos@[wave@[ii] as int] < a
                    && depth@[wave@[ii] as int] == l,
                forall|ii: int, jj: int| 0 <= ii < jj < wave@.len() ==> pos@[wave@[ii] as int] < pos@[wave@[jj] as int],
                forall|b: int| 0 <= b < a && #[trigger] depth@[order@[b] as int] == l ==> wave@.contains(order@[b]),
            decreases n - a,
        {
            let ghost prev_wave = wave@;
            let v = order[a];
            if depth[v] == l {
                wave.push(v);
                proof {
                    assert(wave@[wave@.len() - 1] == v);
                    assert forall|b: int| 0 <= b < a && #[trigger] depth@[order@[b] as int] == l implies wave@.contains(order@[b]) by {
                        assert(prev_wave.contains(order@[b]));
                        let ii = choose|ii: int| 0 <= ii < prev_wave.len() && prev_wave[ii] == order@[b];
                        assert(wave@[ii] == order@[b]);
                    }
                }
            }
            a += 1;
        }
        proof {
            assert(wave@.no_duplicates()) by {
                assert forall|ii: int, jj: int| 0 <= ii < wave@.len() && 0 <= jj < wave@.len() && ii != jj implies wave@[ii] != wave@[jj] by {
                    if ii < jj {
                        assert(pos@[wave@[ii] as int] < pos@[wave@[jj] as int]);
                    } else {
                        assert(pos@[wave@[jj] as int] < pos@[wave@[ii] as int]);
                    }
                }
            }
            assert forall|u: int| 0 <= u < n && #[trigger] depth@[u] == l implies wave@.contains(u as usize) by {
                assert(pos@[u] < n && order@[pos@[u] as int] == u);
                assert(depth@[order@[pos@[u] as int] as int] == l);
            }
        }
        let ghost prev_levels = levels@;
        levels.push(wave);
        proof {
            assert(levels@[l as int] == wave);
            assert forall|ll: int, i: int, j: int, a1: int, b1: int|
                #![trigger levels@[ll]@[i], levels@[ll]@[j], order@[a1], order@[b1]]
                0 <= ll < levels@.len() && 0 <= i < j < levels@[ll]@.len() && 0 <= a1 < order@.len() && 0 <= b1
                    < order@.len() && levels@[ll]@[i] == order@[a1] && levels@[ll]@[j] == order@[b1] implies a1 < b1 by {
                if ll < prev_levels.len() {
                    assert(prev_levels[ll] == levels@[ll]);
                } else {
                    assert(pos@[wave@[i] as int] < pos@[wave@[j] as int]);
                }
            }
        }
        if l == max_depth {
            break;
        }
        l += 1;
    }
    levels
}

/// Groups a workflow's nodes into waves by depth, after ordering them with `topo_sort`;
/// fails exactly when `topo_sort` does, with its error.
///
/// There is one wave per depth from 0 up to the greatest depth (wave 0 stays empty), and
/// each wave lists its nodes in the order that `topo_sort` gave them.
#[verifier::spinoff_prover]
#[verifier::rlimit(50)]
pub fn plan_execution(wf: &Workflow) -> (r: Result<ExecutionPlan, TopoError>)
    ensures
        wf.nodes@.len() == 0 ==> (r matches Ok(p) && p.depth@.len() == 0 && p.levels@.len() == 1
            && p.levels@[0]@.len() == 0),
        wf.nodes@.len() > 0 ==> match topo_sort_outcome(*wf) {
            TopoOutcome::Sorted => r matches Ok(p) && is_depth(*wf, p.depth@) && is_levels(p.depth@, p.levels@)
                && (exists|v: int| 0 <= v < p.depth@.len() && #[trigger] p.depth@[v] + 1 == p.levels@.len())
                && is_topo_order(*wf, p.order@) && kahn_order(*wf, p.order@) && levels_follow(p.order@, p.levels@)
                && (forall|c1: int, c2: int|
                    #![trigger p.order@[c1], p.order@[c2]]
                    0 <= c1 < c2 < p.order@.len() && !has_in_edge(*wf, p.order@[c2] as int) ==> p.order@[c1] < p.order@[c2])
                && (wf.edges@.len() == 0 ==> p.order@ =~= Seq::new(wf.nodes@.len(), |i: int| i as usize)),
            TopoOutcome::Refused(e) => r == Err::<ExecutionPlan, TopoError>(e),
            TopoOutcome::Stuck => r matches Err(TopoError::Cycle { sorted, total }) && total == wf.nodes@.len() && sorted < total
                && exists|q: Seq<usize>| #[trigger] kahn_closed(*wf, q) && q.len() == sorted,
        },
{
    let order = match topo_sort(wf) {
        Ok(o) => o,
        Err(e) => {
            return Err(e);
        },
    };
    let n = wf.nodes.len();
    let ne = wf.edges.len();
    if n == 0 {
        let mut levels: Vec<Vec<usize>> = Vec::new();
        levels.push(Vec::new());
        return Ok(ExecutionPlan { depth: Vec::new(), levels, order });
    }
    proof {
        if ne > 0 {
            assert(first_bad_edge_from(*wf, 0) is None);
        }
    }
    // Resolve the edges again; they all name nodes now.

    let mut ends: Vec<(usize, usize)> = Vec::new();
    let mut k: usize = 0;
    while k < ne
        invariant
            k <= ne,
            ne == wf.edges@.len(),
            n == wf.nodes@.len(),
            ne > 0 ==> n > 0 && first_bad_edge_from(*wf, 0) is None,
            ends@.len() == k,
            forall|j: int|
                0 <= j < k ==> (#[trigger] ends@[j]).0 as int == edge_source(*wf, j) && ends@[j].1 as int
                    == edge_target(*wf, j) && ends@[j].0 < n && ends@[j].1 < n,
        decreases ne - k,
    {
        proof {
            lemma_first_bad_none(*wf, 0, k as int);
        }
        let s = match find_node(&wf.nodes, &wf.edges[k].from) {
            Some(s) => s,
            None => {
                return Err(TopoError::UnknownSource(wf.edges[k].from.clone()));
            },
        };
        let d = match find_node(&wf.nodes, &wf.edges[k].to) {
            Some(d) => d,
            None => {
                return Err(TopoError::UnknownTarget(wf.edges[k].to.clone()));
            },
        };
        ends.push((s, d));
        k += 1;
    }
    // Position of each node in the order.

    let mut pos: Vec<usize> = Vec::new();
    let mut depth: Vec<usize> = Vec::new();
    let mut i: usize = 0;
    while i < n
        invariant
            i <= n,
            pos@.len() == i,
            depth@.len() == i,
            forall|v: int| 0 <= v < i ==> depth@[v] == 0,
        decreases n - i,
    {
        pos.push(0);
        depth.push(0);
        i += 1;
    }
    proof {
        if ne == 0 {
            assert(order@ =~= Seq::new(n as nat, |v: int| v as usize));
            assert forall|a: int, b: int| 0 <= a < order@.len() && 0 <= b < order@.len() && a != b implies order@[a] != order@[b] by {}
        }
        assert(order@.no_duplicates());
        assert(order@.len() == n);
        lemma_distinct_covers(order@, n);
    }
    i = 0;
    while i < n
        invariant
            i <= n,
            n == wf.nodes@.len(),
            order@.len() == n,
            order@.no_duplicates(),
            forall|a: int| 0 <= a < n ==> #[trigger] order@[a] < n,
            pos@.len() == n,
            forall|a: int| 0 <= a < i ==> pos@[order@[a] as int] == a,
        decreases n - i,
    {
        pos.set(order[i], i);
        i += 1;
    }
    proof {
        assert forall|v: int| 0 <= v < n implies #[trigger] pos@[v] < n && order@[pos@[v] as int] == v by {
            assert(order@.contains(v as usize));
            let a = choose|a: int| 0 <= a < order@.len() && order@[a] == v as usize;
            assert(pos@[order@[a] as int] == a);
        }
        assert forall|j: int| 0 <= j < ne implies pos@[(#[trigger] ends@[j]).0 as int] < pos@[ends@[j].1 as int] by {
            let s = ends@[j].0 as int;
            let d = ends@[j].1 as int;
            assert(order@[pos@[s] as int] == s);
            assert(order@[pos@[d] as int] == d);
            assert(edge_target(*wf, j) == d);
        }
    }
    // Depths, in topological order.

    let mut a: usize = 0;
    while a < n
        invariant
            a <= n,
            n == wf.nodes@.len(),
            ne == wf.edges@.len(),
            ne == ends@.len(),
            order@.len() == n,
            pos@.len() == n,
            depth@.len() == n,
            forall|b: int| 0 <= b < n ==> #[trigger] order@[b] < n && pos@[order@[b] as int] == b,
            forall|v: int| 0 <= v < n ==> #[trigger] pos@[v] < n && order@[pos@[v] as int] == v,
            forall|j: int|
                0 <= j < ne ==> (#[trigger] ends@[j]).0 as int == edge_source(*wf, j) && ends@[j].1 as int
                    == edge_target(*wf, j) && ends@[j].0 < n && ends@[j].1 < n
                    && pos@[ends@[j].0 as int] < pos@[ends@[j].1 as int],
            forall|v: int| 0 <= v < n ==> (#[trigger] depth@[v] >= 1 <==> pos@[v] < a),
            forall|v: int| 0 <= v < n && pos@[v] < a ==> #[trigger] depth@[v] <= pos@[v] + 1,
            forall|j: int| 0 <= j < ne && pos@[(#[trigger] ends@[j]).1 as int] < a ==> depth@[ends@[j].0 as int] < depth@[ends@[j].1 as int],
            forall|v: int| 0 <= v < n && #[trigger] depth@[v] > 1 ==> exists|j: int|
                0 <= j < ne && (#[trigger] ends@[j]).1 as int == v && depth@[ends@[j].0 as int] + 1 == depth@[v],
        decreases n - a,
    {
        let v = order[a];
        let mut m: usize = 0;
        let mut j: usize = 0;
        while j < ne
            invariant
                j <= ne,
                ne == ends@.len(),
                n == depth@.len(),
                n == pos@.len(),
                v < n,
                pos@[v as int] == a,
                m <= a,
                forall|jj: int| 0 <= jj < ne ==> (#[trigger] ends@[jj]).0 < n && ends@[jj].1 < n
                    && pos@[ends@[jj].0 as int] < pos@[ends@[jj].1 as int],
                forall|u: int| 0 <= u < n && pos@[u] < a ==> #[trigger] depth@[u] <= pos@[u] + 1,
                forall|jj: int| 0 <= jj < j && (#[trigger] ends@[jj]).1 == v ==> depth@[ends@[jj].0 as int] <= m,
                m > 0 ==> exists|jj: int| 0 <= jj < j && (#[trigger] ends@[jj]).1 == v && depth@[ends@[jj].0 as int] == m,
            decreases ne - j,
        {
            if ends[j].1 == v {
                let du = depth[ends[j].0];
                proof {
                    assert(pos@[ends@[j as int].0 as int] < a);
                }
                if du > m {
                    m = du;
                }
            }
            j += 1;
        }
        let ghost prev = depth@;
        proof {
            assert(prev[v as int] == 0);
        }
        depth.set(v, m + 1);
        proof {
            assert forall|jj: int| 0 <= jj < ne && (#[trigger] ends@[jj]).1 == v implies depth@[ends@[jj].0 as int] < depth@[v as int] by {
                assert(ends@[jj].0 != v);
            }
            assert forall|u: int| 0 <= u < n && #[trigger] depth@[u] > 1 implies exists|jj: int|
                0 <= jj < ne && (#[trigger] ends@[jj]).1 as int == u && depth@[ends@[jj].0 as int] + 1 == depth@[u] by {
                if u == v {
                    let jj = choose|jj: int| 0 <= jj < ne && (#[trigger] ends@[jj]).1 == v && prev[ends@[jj].0 as int] == m;
                    assert(ends@[jj].0 != v);
                } else {
                    assert(prev[u] > 1);
                    let jj = choose|jj: int| 0 <= jj < ne && (#[trigger] ends@[jj]).1 as int == u && prev[ends@[jj].0 as int] + 1 == prev[u];
                    assert(ends@[jj].0 != v);
                }
            }
        }
        a += 1;
    }
    proof {
        assert forall|kk: int| #![trigger edge_target(*wf, kk)] 0 <= kk < wf.edges@.len() implies 0 <= edge_source(*wf, kk) && edge_source(*wf, kk) < depth@.len() && 0 <= edge_target(*wf, kk) && edge_target(*wf, kk) < depth@.len() by {
            assert(ends@[kk].1 as int == edge_target(*wf, kk));
            assert(ends@[kk].0 as int == edge_source(*wf, kk));
        }
        assert forall|kk: int| 0 <= kk < wf.edges@.len() implies depth@[edge_source(*wf, kk)] < depth@[#[trigger] edge_target(*wf, kk)] by {
            assert(ends@[kk].1 as int == edge_target(*wf, kk));
        }
        assert forall|v: int| 0 <= v < depth@.len() && #[trigger] depth@[v] > 1 implies exists|kk: int|
            0 <= kk < wf.edges@.len() && #[trigger] edge_target(*wf, kk) == v && depth@[edge_source(*wf, kk)] + 1 == depth@[v] by {
            let jj = choose|jj: int| 0 <= jj < ne && (#[trigger] ends@[jj]).1 as int == v && depth@[ends@[jj].0 as int] + 1 == depth@[v];
            assert(edge_target(*wf, jj) == v);
        }
    }
    proof {
        assert forall|v: int| 0 <= v < n implies #[trigger] depth@[v] <= n by {
            assert(pos@[v] < n);
        }
    }
    proof {
        assert forall|v: int| 0 <= v < depth@.len() implies #[trigger] depth@[v] >= 1 by {
            assert(pos@[v] < n);
        }
        lemma_depth_from_ends(*wf, ends@, depth@);
    }
    // Waves.

    let levels = group_waves(&order, &pos, &depth);
    proof {
        if ne == 0 {
            assert(order@ =~= Seq::new(n as nat, |v: int| v as usize));
        }
        assert(exists|v: int| 0 <= v < depth@.len() && #[trigger] depth@[v] + 1 == levels@.len());
        assert(ne == 0 ==> order@ =~= Seq::new(wf.nodes@.len(), |i: int| i as usize));
    }
    Ok(ExecutionPlan { depth, levels, order })
}


/// What the caller does next while running a workflow.
pub enum RunStep {
    /// Start every node of this level at once.
    Launch(usize),
    /// Wait for more nodes of the running level to report.
    Wait,
    /// Every node has succeeded.
    Completed,
    /// A node failed: start nothing more.
    Aborted,
}

/// Nodes of `s` that have not succeeded.
pub open spec fn pending_count(s: Seq<usize>, succeeded: Seq<bool>) -> nat
    decreases s.len(),
{
    if s.len() == 0 {
        0
    } else {
        pending_count(s.drop_last(), succeeded) + if succeeded[s.last() as int] {
            0nat
        } else {
            1nat
        }
    }
}

proof fn lemma_pending_count_zero(s: Seq<usize>, succeeded: Seq<bool>)
    requires
        pending_count(s, succeeded) == 0,
    ensures
        forall|i: int| 0 <= i < s.len() ==> succeeded[#[trigger] s[i] as int],
    decreases s.len(),
{
    if s.len() > 0 {
        lemma_pending_count_zero(s.drop_last(), succeeded);
        assert forall|i: int| 0 <= i < s.len() implies succeeded[#[trigger] s[i] as int] by {
            if i < s.len() - 1 {
                assert(s.drop_last()[i] == s[i]);
            }
        }
    }
}

proof fn lemma_pending_count_all(s: Seq<usize>, succeeded: Seq<bool>)
    requires
        forall|i: int| 0 <= i < s.len() ==> succeeded[#[trigger] s[i] as int],
    ensures
        pending_count(s, succeeded) == 0,
    decreases s.len(),
{
    if s.len() > 0 {
        assert forall|i: int| 0 <= i < s.len() - 1 implies succeeded[#[trigger] s.drop_last()[i] as int] by {
            assert(s.drop_last()[i] == s[i]);
        }
        lemma_pending_count_all(s.drop_last(), succeeded);
    }
}

proof fn lemma_pending_count_none(s: Seq<usize>, succeeded: Seq<bool>)
    requires
        forall|i: int| 0 <= i < s.len() ==> !succeeded[#[trigger] s[i] as int],
    ensures
        pending_count(s, succeeded) == s.len(),
    decreases s.len(),
{
    if s.len() > 0 {
        assert forall|i: int| 0 <= i < s.len() - 1 implies !succeeded[#[trigger] s.drop_last()[i] as int] by {
            assert(s.drop_last()[i] == s[i]);
        }
        lemma_pending_count_none(s.drop_last(), succeeded);
    }
}

proof fn lemma_pending_count_mark(s: Seq<usize>, succeeded: Seq<bool>, x: usize)
    requires
        forall|i: int| 0 <= i < s.len() ==> #[trigger] s[i] < succeeded.len(),
        s.no_duplicates(),
        s.contains(x),
        0 <= x < succeeded.len(),
        !succeeded[x as int],
    ensures
        pending_count(s, succeeded.update(x as int, true)) + 1 == pending_count(s, succeeded),
    decreases s.len(),
{
    let t = s.drop_last();
    if s.last() == x {
        assert(!t.contains(x)) by {
            if t.contains(x) {
                let i = choose|i: int| 0 <= i < t.len() && t[i] == x;
                assert(s[i] == s[s.len() - 1]);
            }
        }
        assert forall|i: int| 0 <= i < t.len() implies #[trigger] t[i] < succeeded.len() by {
            assert(t[i] == s[i]);
        }
        lemma_pending_count_same(t, succeeded, x);
    } else {
        assert(t.contains(x)) by {
            let i = choose|i: int| 0 <= i < s.len() && s[i] == x;
            assert(t[i] == x);
        }
        assert(t.no_duplicates()) by {
            assert forall|a: int, b: int| 0 <= a < t.len() && 0 <= b < t.len() && a != b implies t[a] != t[b] by {
                assert(t[a] == s[a] && t[b] == s[b]);
            }
        }
        assert forall|i: int| 0 <= i < t.len() implies #[trigger] t[i] < succeeded.len() by {
            assert(t[i] == s[i]);
        }
        lemma_pending_count_mark(t, succeeded, x);
    }
}

proof fn lemma_pending_count_same(s: Seq<usize>, succeeded: Seq<bool>, x: usize)
    requires
        forall|i: int| 0 <= i < s.len() ==> #[trigger] s[i] < succeeded.len(),
        !s.contains(x),
        0 <= x < succeeded.len(),
    ensures
        pending_count(s, succeeded.update(x as int, true)) == pending_count(s, succeeded),
    decreases s.len(),
{
    if s.len() > 0 {
        let t = s.drop_last();
        assert(!t.contains(x)) by {
            if t.contains(x) {
                let i = choose|i: int| 0 <= i < t.len() && t[i] == x;
                assert(s[i] == x);
            }
        }
        assert(s.last() != x) by {
            if s.last() == x {
                assert(s[s.len() - 1] == x);
            }
        }
        assert(s.last() < succeeded.len()) by {
            assert(s[s.len() - 1] < succeeded.len());
        }
        assert forall|i: int| 0 <= i < t.len() implies #[trigger] t[i] < succeeded.len() by {
            assert(t[i] == s[i]);
        }
        lemma_pending_count_same(t, succeeded, x);
    }
}

proof fn lemma_wave_done(depth: Seq<usize>, levels: Seq<Vec<usize>>, level: int, succeeded: Seq<bool>)
    requires
        is_levels(depth, levels),
        0 <= level < levels.len(),
        depth.len() <= usize::MAX,
        succeeded.len() == depth.len(),
        forall|v: int| 0 <= v < depth.len() && #[trigger] depth[v] < level ==> succeeded[v],
        forall|v: int| 0 <= v < depth.len() && #[trigger] succeeded[v] ==> depth[v] <= level,
        forall|i: int| 0 <= i < levels[level]@.len() ==> succeeded[#[trigger] levels[level]@[i] as int],
    ensures
        forall|v: int| 0 <= v < depth.len() ==> (#[trigger] succeeded[v] <==> depth[v] < level + 1),
{
    assert forall|v: int| 0 <= v < depth.len() implies (#[trigger] succeeded[v] <==> depth[v] < level + 1) by {
        if depth[v] == level {
            assert(levels[depth[v] as int]@.contains(v as usize));
            let i = choose|i: int| 0 <= i < levels[level]@.len() && levels[level]@[i] == v as usize;
            assert(succeeded[levels[level]@[i] as int]);
        }
    }
}

/// The progress of one workflow run: which wave is running and which nodes have succeeded.
pub struct WorkflowRun {
    pub plan: ExecutionPlan,
    /// The wave now running.
    pub level: usize,
    /// Nodes of that wave that have not reported success yet.
    pub outstanding: usize,
    /// Per node: it has reported success.
    pub succeeded: Vec<bool>,
    /// A node has failed.
    pub aborted: bool,
    /// Every node has succeeded.
    pub completed: bool,
}

impl WorkflowRun {
    /// The run follows `plan` for workflow `wf`: every wave before the running one has
    /// wholly succeeded, and no node past it has started.
    pub open spec fn well_formed(&self, wf: Workflow) -> bool {
        let depth = self.plan.depth@;
        let levels = self.plan.levels@;
        &&& is_depth(wf, depth)
        &&& is_levels(depth, levels)
        &&& self.succeeded@.len() == depth.len()
        &&& self.level < levels.len()
        &&& forall|v: int| 0 <= v < depth.len() && #[trigger] depth[v] < self.level ==> self.succeeded@[v]
        &&& forall|v: int| 0 <= v < depth.len() && #[trigger] self.succeeded@[v] ==> depth[v] <= self.level
        &&& !self.completed ==> self.outstanding == pending_count(levels[self.level as int]@, self.succeeded@)
        &&& self.completed ==> forall|v: int| 0 <= v < depth.len() ==> #[trigger] self.succeeded@[v]
    }

    /// Every node of level `l` has all its edge sources succeeded.
    pub open spec fn ready(&self, wf: Workflow, l: int) -> bool {
        forall|i: int, k: int|
            #![trigger self.plan.levels@[l]@[i], edge_target(wf, k)]
            0 <= i < self.plan.levels@[l]@.len() && 0 <= k < wf.edges@.len() && edge_target(wf, k)
                == self.plan.levels@[l]@[i] as int ==> self.succeeded@[edge_source(wf, k)]
    }

    /// Moves to the first non-empty wave at or after `from`, or completes the run.
    fn advance(&mut self, from: usize, Ghost(wf): Ghost<Workflow>) -> (step: RunStep)
        requires
            is_depth(wf, old(self).plan.depth@),
            is_levels(old(self).plan.depth@, old(self).plan.levels@),
            old(self).succeeded@.len() == old(self).plan.depth@.len(),
            !old(self).aborted,
            !old(self).completed,
            from <= old(self).plan.levels@.len(),
            forall|v: int| 0 <= v < old(self).plan.depth@.len() ==> (#[trigger] old(self).succeeded@[v]
                <==> old(self).plan.depth@[v] < from),
        ensures
            final(self).plan == old(self).plan,
            final(self).succeeded == old(self).succeeded,
            !final(self).aborted,
            final(self).well_formed(wf),
            match step {
                RunStep::Launch(l) => l == final(self).level && !final(self).completed && from <= l
                    && final(self).plan.levels@[l as int]@.len() > 0 && final(self).ready(wf, l as int)
                    && forall|ll: int| from <= ll < l ==> (#[trigger] final(self).plan.levels@[ll])@.len() == 0,
                RunStep::Completed => final(self).completed,
                _ => false,
            },
    {
        let ghost depth = self.plan.depth@;
        let ghost levels = self.plan.levels@;
        let mut l = from;
        while l < self.plan.levels.len()
            invariant
                from <= l <= levels.len(),
                self.plan.depth@ == depth,
                self.plan.levels@ == levels,
                self.plan == old(self).plan,
                self.succeeded == old(self).succeeded,
                !self.aborted,
                !self.completed,
                is_levels(depth, levels),
                forall|ll: int| from <= ll < l ==> (#[trigger] levels[ll])@.len() == 0,
            ensures
                l < levels.len() ==> levels[l as int]@.len() > 0,
            decreases levels.len() - l,
        {
            if self.plan.levels[l].len() > 0 {
                break;
            }
            l += 1;
        }
        proof {
            // No node lies strictly between `from` and `l`.
            assert forall|v: int| 0 <= v < depth.len() implies #[trigger] depth[v] < from || depth[v] >= l by {
                if from <= depth[v] < l {
                    assert(levels[depth[v] as int]@.contains(v as usize));
                }
            }
        }
        if l < self.plan.levels.len() {
            self.level = l;
            self.outstanding = self.plan.levels[l].len();
            proof {
                assert forall|v: int| 0 <= v < depth.len() && #[trigger] depth[v] < l implies self.succeeded@[v] by {
                    assert(depth[v] < from);
                }
                assert forall|v: int| 0 <= v < depth.len() && #[trigger] self.succeeded@[v] implies depth[v] <= l by {
                    assert(depth[v] < from);
                }
                assert forall|i: int| 0 <= i < levels[l as int]@.len() implies !self.succeeded@[#[trigger] levels[l as int]@[i] as int] by {
                    assert(depth[levels[l as int]@[i] as int] == l);
                }
                lemma_pending_count_none(levels[l as int]@, self.succeeded@);
                assert(self.outstanding == pending_count(levels[self.level as int]@, self.succeeded@));
                assert(is_depth(wf, self.plan.depth@));
                assert(is_levels(self.plan.depth@, self.plan.levels@));
                assert(self.succeeded@.len() == depth.len());
                assert(self.level < self.plan.levels@.len());
                assert(forall|v: int| 0 <= v < depth.len() && #[trigger] depth[v] < self.level ==> self.succeeded@[v]);
                assert(forall|v: int| 0 <= v < depth.len() && #[trigger] self.succeeded@[v] ==> depth[v] <= self.level);
                assert(self.well_formed(wf));
                assert forall|i: int, k: int|
                    #![trigger levels[l as int]@[i], edge_target(wf, k)]
                    0 <= i < levels[l as int]@.len() && 0 <= k < wf.edges@.len() && edge_target(wf, k)
                        == levels[l as int]@[i] as int implies self.succeeded@[edge_source(wf, k)] by {
                    assert(depth[levels[l as int]@[i] as int] == l);
                    let u = edge_source(wf, k);
                    assert(0 <= u < depth.len());
                    assert(depth[u] < depth[edge_target(wf, k)]);
                    assert(depth[u] < from || depth[u] >= l);
                }
            }
            RunStep::Launch(l)
        } else {
            self.completed = true;
            self.level = self.plan.levels.len() - 1;
            proof {
                assert forall|v: int| 0 <= v < depth.len() implies #[trigger] self.succeeded@[v] by {
                    assert(depth[v] < levels.len());
                }
            }
            RunStep::Completed
        }
    }

    /// Begins a run of `plan`: nothing has run yet.
    pub fn start(plan: ExecutionPlan, wf: &Workflow) -> (res: (WorkflowRun, RunStep))
        requires
            is_depth(*wf, plan.depth@),
            is_levels(plan.depth@, plan.levels@),
        ensures
            res.0.plan == plan,
            res.0.well_formed(*wf),
            !res.0.aborted,
            forall|v: int| 0 <= v < plan.depth@.len() ==> !#[trigger] res.0.succeeded@[v],
            match res.1 {
                RunStep::Launch(l) => l == res.0.level && !res.0.completed && res.0.ready(*wf, l as int)
                    && plan.levels@[l as int]@.len() > 0
                    && forall|ll: int| 0 <= ll < l ==> (#[trigger] plan.levels@[ll])@.len() == 0,
                RunStep::Completed => res.0.completed && plan.depth@.len() == 0,
                _ => false,
            },
    {
        let n = plan.depth.len();
        let mut succeeded: Vec<bool> = Vec::new();
        let mut i: usize = 0;
        while i < n
            invariant
                i <= n,
                succeeded@.len() == i,
                forall|v: int| 0 <= v < i ==> !succeeded@[v],
            decreases n - i,
        {
            succeeded.push(false);
            i += 1;
        }
        let mut run = WorkflowRun { plan, level: 0, outstanding: 0, succeeded, aborted: false, completed: false };
        let step = run.advance(0, Ghost(*wf));
        proof {
            if step is Completed {
                if run.plan.depth@.len() > 0 {
                    assert(run.succeeded@[0]);
                }
            }
        }
        (run, step)
    }

    /// Records that `node`, of the running wave, has finished: fail-fast on failure,
    /// otherwise the next wave starts once the whole running wave has succeeded.
    #[verifier::rlimit(60)]
    #[verifier::spinoff_prover]
    pub fn report(&mut self, node: usize, ok: bool, wf: &Workflow) -> (step: RunStep)
        requires
            old(self).well_formed(*wf),
            !old(self).aborted,
            !old(self).completed,
            old(self).plan.levels@[old(self).level as int]@.contains(node),
            !old(self).succeeded@[node as int],
        ensures
            final(self).plan == old(self).plan,
            final(self).well_formed(*wf),
            !ok ==> step is Aborted && final(self).aborted && final(self).succeeded == old(self).succeeded,
            ok ==> final(self).succeeded@ == old(self).succeeded@.update(node as int, true) && !final(self).aborted,
            match step {
                RunStep::Launch(l) => ok && !final(self).completed && l == final(self).level && l > old(self).level
                    && final(self).ready(*wf, l as int) && final(self).plan.levels@[l as int]@.len() > 0
                    && forall|ll: int| old(self).level < ll < l ==> (#[trigger] final(self).plan.levels@[ll])@.len() == 0,
                RunStep::Wait => ok && !final(self).completed && final(self).level == old(self).level
                    && final(self).outstanding > 0,
                RunStep::Completed => ok && final(self).completed,
                RunStep::Aborted => !ok,
            },
            step is Completed <==> (ok && forall|v: int|
                0 <= v < final(self).succeeded@.len() ==> #[trigger] final(self).succeeded@[v]),
    {
        if !ok {
            self.aborted = true;
            return RunStep::Aborted;
        }
        let n = self.plan.depth.len();
        let ghost depth = self.plan.depth@;
        let ghost levels = self.plan.levels@;
        let ghost lvl = levels[self.level as int]@;
        let ghost prev = self.succeeded@;
        proof {
            let i = choose|i: int| 0 <= i < lvl.len() && lvl[i] == node;
            assert(depth[node as int] == self.level);
            assert forall|i: int| 0 <= i < lvl.len() implies #[trigger] lvl[i] < prev.len() by {
                assert(levels[self.level as int]@[i] < depth.len());
            }
            assert(lvl.no_duplicates());
            lemma_pending_count_mark(lvl, prev, node);
        }
        self.succeeded.set(node, true);
        self.outstanding = self.outstanding - 1;
        if self.outstanding > 0 {
            proof {
                if forall|v: int| 0 <= v < self.succeeded@.len() ==> #[trigger] self.succeeded@[v] {
                    assert forall|i: int| 0 <= i < lvl.len() implies self.succeeded@[#[trigger] lvl[i] as int] by {
                        assert(lvl[i] < prev.len());
                    }
                    lemma_pending_count_all(lvl, self.succeeded@);
                }
            }
            return RunStep::Wait;
        }
        proof {
            assert(self.level < levels.len());
            lemma_pending_count_zero(lvl, self.succeeded@);
            assert(depth.len() == self.succeeded@.len());
            lemma_wave_done(depth, levels, self.level as int, self.succeeded@);
        }
        let nl = self.plan.levels.len();
        assert(self.level < nl);
        let from = self.level + 1;
        self.advance(from, Ghost(*wf))
    }

    /// The nodes of wave `l`.
    pub fn level_nodes(&self, l: usize) -> (r: &Vec<usize>)
        requires
            l < self.plan.levels@.len(),
        ensures
            *r == self.plan.levels@[l as int],
    {
        &self.plan.levels[l]
    }
}

} // verus!
