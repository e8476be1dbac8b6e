use vstd::prelude::*;
use crate::app_core::RunSummary;

verus! {

/// A stored rule.
pub struct RuleRow {
    pub id: String,
    pub name: String,
    pub enabled: bool,
    pub order_index: i64,
    pub when_json: String,
    pub workflow_id: String,
}

/// A stored workflow.
pub struct WorkflowRow {
    pub id: String,
    pub name: String,
    pub nodes_json: String,
    pub edges_json: String,
}

/// A stored run.
pub struct RunRow {
    pub id: String,
    pub event_id: String,
    pub rule_id: String,
    pub workflow_id: String,
    pub status: String,
    pub started_at: String,
    pub finished_at: Option<String>,
    pub error_json: Option<String>,
    pub artifacts_json: Option<String>,
}

/// A stored ingest event.
pub struct EventRow {
    pub id: String,
    pub time: String,
    pub source_json: String,
    pub files_json: String,
}

pub open spec fn opt_view(o: Option<String>) -> Option<Seq<char>> {
    match o {
        Some(s) => Some(s@),
        None => None,
    }
}

/// The summary of a stored run: the same fields.
pub fn run_summary(row: RunRow) -> (r: RunSummary)
    ensures
        r.id@ == row.id@,
        r.event_id@ == row.event_id@,
        r.rule_id@ == row.rule_id@,
        r.workflow_id@ == row.workflow_id@,
        r.status@ == row.status@,
        r.started_at@ == row.started_at@,
        opt_view(r.finished_at) == opt_view(row.finished_at),
        opt_view(r.error_json) == opt_view(row.error_json),
        opt_view(r.artifacts_json) == opt_view(row.artifacts_json),
{
    RunSummary {
        id: row.id,
        event_id: row.event_id,
        rule_id: row.rule_id,
        workflow_id: row.workflow_id,
        status: row.status,
        started_at: row.started_at,
        finished_at: row.finished_at,
        error_json: row.error_json,
        artifacts_json: row.artifacts_json,
    }
}

/// Where an ingest came from.
pub struct EventSource {
    pub kind: String,
    pub device_name: Option<String>,
}

/// A file of an ingest event.
pub struct IngestFile {
    pub path: String,
    pub name: String,
    pub ext: Option<String>,
    pub size_bytes: u64,
    pub mime: Option<String>,
    pub sha256: Option<String>,
    pub is_folder: bool,
}

/// The port the local API listens on.
pub struct ApiPort(pub u16);

} // verus!
