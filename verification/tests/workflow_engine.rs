use draction::json::JsonValue;
use draction::workflow::{Edge, Workflow, WorkflowNode};
use draction::workflow_engine::{plan_execution, topo_sort, RunStep, WorkflowRun};

fn node(id: &str, kind: &str) -> WorkflowNode {
    WorkflowNode { id: id.into(), node_type: kind.into(), params: JsonValue::Object(vec![]) }
}

fn edge(from: &str, to: &str) -> Edge {
    Edge { from: from.into(), to: to.into() }
}

fn wf(nodes: Vec<WorkflowNode>, edges: Vec<Edge>) -> Workflow {
    Workflow { id: "w".into(), name: "w".into(), nodes, edges }
}

fn ids<'a>(w: &'a Workflow, order: &[usize]) -> Vec<&'a str> {
    order.iter().map(|&i| w.nodes[i].id.as_str()).collect()
}

#[test]
fn topo_sort_returns_empty_for_workflow_with_no_nodes() {
    let w = wf(vec![], vec![]);
    assert!(topo_sort(&w).ok().unwrap().is_empty());
}

#[test]
fn topo_sort_orders_linear_chain_by_edges() {
    let w = wf(vec![node("n2", "k"), node("n1", "k"), node("n3", "k")], vec![edge("n3", "n1"), edge("n1", "n2")]);
    let order = topo_sort(&w).ok().unwrap();
    assert_eq!(ids(&w, &order), vec!["n3", "n1", "n2"]);
}

#[test]
fn topo_sort_returns_single_node_when_no_edges() {
    let w = wf(vec![node("only", "k")], vec![]);
    let order = topo_sort(&w).ok().unwrap();
    assert_eq!(ids(&w, &order), vec!["only"]);
}

#[test]
fn topo_sort_errors_when_edge_points_to_unknown_node() {
    let w = wf(vec![node("n1", "k")], vec![edge("n1", "ghost")]);
    let err = topo_sort(&w).err().unwrap();
    assert!(err.message().contains("ghost"));
    assert_eq!(err.message(), "edge references unknown target node: ghost");
}

#[test]
fn topo_sort_detects_cycle() {
    let w = wf(
        vec![node("a", "k"), node("b", "k"), node("c", "k")],
        vec![edge("a", "b"), edge("b", "c"), edge("c", "a")],
    );
    let err = topo_sort(&w).err().unwrap();
    assert!(err.message().contains("Cycle detected"), "expected cycle error, got: {}", err.message());
    assert_eq!(
        err.message(),
        "Cycle detected in workflow: topological sort returned 0 nodes but workflow has 3 nodes"
    );
}

#[test]
fn topo_sort_handles_diamond() {
    let w = wf(
        vec![node("a", "k"), node("b", "k"), node("c", "k"), node("d", "k")],
        vec![edge("a", "b"), edge("a", "c"), edge("b", "d"), edge("c", "d")],
    );
    let order = topo_sort(&w).ok().unwrap();
    let order = ids(&w, &order);
    assert_eq!(order[0], "a");
    assert_eq!(order[3], "d");
    assert!(order.contains(&"b"));
    assert!(order.contains(&"c"));
}

#[test]
fn topo_sort_unknown_source_named() {
    let w = wf(vec![node("n1", "k")], vec![edge("nowhere", "n1")]);
    assert_eq!(topo_sort(&w).err().unwrap().message(), "edge references unknown source node: nowhere");
}

#[test]
fn run_goes_wave_by_wave_and_completes() {
    let w = wf(vec![node("n1", "first"), node("n2", "second")], vec![edge("n1", "n2")]);
    let plan = plan_execution(&w).ok().unwrap();
    let (mut run, step) = WorkflowRun::start(plan, &w);
    assert!(matches!(step, RunStep::Launch(1)));
    assert_eq!(run.level_nodes(1).clone(), vec![0]);
    let step = run.report(0, true, &w);
    assert!(matches!(step, RunStep::Launch(2)));
    assert_eq!(run.level_nodes(2).clone(), vec![1]);
    let step = run.report(1, true, &w);
    assert!(matches!(step, RunStep::Completed));
    assert!(run.completed);
}

#[test]
fn run_fails_fast_and_skips_remaining_nodes() {
    let w = wf(
        vec![node("a", "ok"), node("b", "boom"), node("c", "after")],
        vec![edge("a", "b"), edge("b", "c")],
    );
    let plan = plan_execution(&w).ok().unwrap();
    let (mut run, step) = WorkflowRun::start(plan, &w);
    assert!(matches!(step, RunStep::Launch(1)));
    assert!(matches!(run.report(0, true, &w), RunStep::Launch(2)));
    assert!(matches!(run.report(1, false, &w), RunStep::Aborted));
    assert!(run.aborted);
    assert!(!run.succeeded[2]);
}

#[test]
fn independent_nodes_share_a_wave() {
    let w = wf(vec![node("n1", "slow_a"), node("n2", "slow_b")], vec![]);
    let plan = plan_execution(&w).ok().unwrap();
    let (mut run, step) = WorkflowRun::start(plan, &w);
    assert!(matches!(step, RunStep::Launch(1)));
    assert!(run.level_nodes(0).is_empty());
    assert_eq!(run.level_nodes(1).len(), 2);
    assert!(matches!(run.report(1, true, &w), RunStep::Wait));
    assert!(matches!(run.report(0, true, &w), RunStep::Completed));
}

#[test]
fn empty_workflow_completes_at_once() {
    let w = wf(vec![], vec![]);
    let plan = plan_execution(&w).ok().unwrap();
    let (run, step) = WorkflowRun::start(plan, &w);
    assert!(matches!(step, RunStep::Completed));
    assert!(run.completed);
}

#[test]
fn cycle_reports_nodes_sorted_before_it() {
    let w = wf(
        vec![node("a", "k"), node("b", "k"), node("c", "k")],
        vec![edge("a", "b"), edge("b", "c"), edge("c", "b")],
    );
    assert_eq!(
        topo_sort(&w).err().unwrap().message(),
        "Cycle detected in workflow: topological sort returned 1 nodes but workflow has 3 nodes"
    );
    assert_eq!(
        plan_execution(&w).err().unwrap().message(),
        "Cycle detected in workflow: topological sort returned 1 nodes but workflow has 3 nodes"
    );
}

#[test]
fn repeated_ids_sort_each_id_once() {
    let w = wf(vec![node("a", "k"), node("a", "k"), node("b", "k")], vec![edge("a", "b")]);
    assert_eq!(
        topo_sort(&w).err().unwrap().message(),
        "Cycle detected in workflow: topological sort returned 2 nodes but workflow has 3 nodes"
    );
}

#[test]
fn plan_has_one_wave_per_depth_in_sorted_order() {
    let w = wf(
        vec![node("d", "k"), node("c", "k"), node("a", "k"), node("b", "k")],
        vec![edge("a", "c"), edge("b", "d")],
    );
    let plan = plan_execution(&w).ok().unwrap();
    assert_eq!(plan.levels.len(), 3);
    assert!(plan.levels[0].is_empty());
    assert_eq!(ids(&w, &plan.order), ids(&w, &topo_sort(&w).ok().unwrap()));
    let pos = |v: usize| plan.order.iter().position(|&x| x == v).unwrap();
    for level in &plan.levels {
        for pair in level.windows(2) {
            assert!(pos(pair[0]) < pos(pair[1]));
        }
    }
    let mut second: Vec<&str> = ids(&w, &plan.levels[2]);
    second.sort();
    assert_eq!(second, vec!["c", "d"]);
}

#[test]
fn run_waits_then_completes_only_after_last_node() {
    let w = wf(
        vec![node("a", "k"), node("b", "k"), node("c", "k")],
        vec![edge("a", "c"), edge("b", "c")],
    );
    let plan = plan_execution(&w).ok().unwrap();
    let (mut run, step) = WorkflowRun::start(plan, &w);
    assert!(matches!(step, RunStep::Launch(1)));
    assert!(matches!(run.report(0, true, &w), RunStep::Wait));
    assert!(!run.completed);
    assert!(matches!(run.report(1, true, &w), RunStep::Launch(2)));
    assert!(matches!(run.report(2, true, &w), RunStep::Completed));
    assert!(run.completed);
    assert!(run.succeeded.iter().all(|&s| s));
}

#[test]
fn topo_sort_takes_nodes_out_first_in_first_out() {
    let w = wf(
        vec![node("c", "k"), node("d", "k"), node("b", "k"), node("a", "k")],
        vec![edge("a", "d"), edge("b", "c"), edge("a", "c")],
    );
    let order = topo_sort(&w).ok().unwrap();
    assert_eq!(ids(&w, &order), vec!["b", "a", "d", "c"]);
}
