use vstd::prelude::*;
use crate::clock::{is_date_text, utc_date};
use crate::crud::{find_by_id, find_spec, lemma_find_from};
use crate::json::{lemma_json_seq, json_seq, Json, JsonValue};
use crate::paths::{join, join_spec};
use crate::rule::{Condition, Op, Rule, ThenAction};
use crate::rule_engine::{first_match_from, first_match_index, EvalCtx};
use crate::text::{concat, owned};
use crate::workflow::{Workflow, WorkflowNode};

verus! {

// ---------------------------------------------------------------------------
// Where things are kept
// ---------------------------------------------------------------------------

/// The file that holds the rules, in the base directory.
pub fn rules_path(base: &str) -> (r: String)
    ensures
        r@ == join_spec(base@, "rules.json"@),
{
    join(base, "rules.json")
}

/// The file that holds the workflows, in the base directory.
pub fn workflows_path(base: &str) -> (r: String)
    ensures
        r@ == join_spec(base@, "workflows.json"@),
{
    join(base, "workflows.json")
}

/// The inbox directory of the day `date`: `<base>/Inbox/<date>`.
pub fn inbox_dir_for(base: &str, date: &str) -> (r: String)
    ensures
        r@ == join_spec(join_spec(base@, "Inbox"@), date@),
{
    let inbox = join(base, "Inbox");
    join(inbox.as_str(), date)
}

/// Today's inbox directory (by the UTC date): `<base>/Inbox/YYYY-MM-DD`; `None` only
/// when the clock reads a time that has no date (see `utc_date`).
pub fn inbox_dir(base: &str) -> (r: Option<String>)
    ensures
        r matches Some(d) ==> exists|date: Seq<char>|
            is_date_text(date) && d@ == #[trigger] join_spec(join_spec(base@, "Inbox"@), date),
{
    match utc_date() {
        Some(date) => Some(inbox_dir_for(base, date.as_str())),
        None => None,
    }
}

// ---------------------------------------------------------------------------
// Facts that rules test
// ---------------------------------------------------------------------------

/// The facts of an ingested file: its name, its extension and its size in bytes.
pub fn build_eval_ctx(name: &str, ext: &str, size: u64) -> (r: EvalCtx)
    ensures
        r@ == Map::<Seq<char>, Json>::empty()
            .insert("name"@, Json::Str(name@))
            .insert("ext"@, Json::Str(ext@))
            .insert("size_bytes"@, Json::Int(size as int)),
{
    let mut ctx = EvalCtx::new();
    ctx.insert(owned("name"), JsonValue::Str(owned(name)));
    ctx.insert(owned("ext"), JsonValue::Str(owned(ext)));
    ctx.insert(owned("size_bytes"), JsonValue::Int(size as i128));
    ctx
}

// ---------------------------------------------------------------------------
// The built-in rules and workflows
// ---------------------------------------------------------------------------

/// A JSON array of strings.
pub open spec fn str_array(items: Seq<Seq<char>>) -> Json {
    Json::Array(items.map_values(|s: Seq<char>| Json::Str(s)))
}

fn str_array_value(items: Vec<&str>) -> (r: JsonValue)
    ensures
        r@ == str_array(items@.map_values(|s: &str| s@)),
{
    let mut out: Vec<JsonValue> = Vec::new();
    let mut i: usize = 0;
    while i < items.len()
        invariant
            i <= items@.len(),
            out@.len() == i,
            forall|k: int| 0 <= k < i ==> #[trigger] out@[k]@ == Json::Str(items@[k]@),
        decreases items@.len() - i,
    {
        out.push(JsonValue::Str(owned(items[i])));
        i += 1;
    }
    proof {
        lemma_json_seq(out@);
        let want = items@.map_values(|s: &str| s@).map_values(|s: Seq<char>| Json::Str(s));
        assert forall|k: int| 0 <= k < out@.len() implies #[trigger] json_seq(out@)[k] == want[k] by {
            assert(out@[k]@ == Json::Str(items@[k]@));
        }
        assert(json_seq(out@) =~= want);
    }
    JsonValue::Array(out)
}

/// `r` is the built-in rule that sends files with one of the extensions `exts` to
/// the workflow `target`.
pub open spec fn is_ext_rule(r: Rule, id: Seq<char>, name: Seq<char>, order: int, exts: Seq<Seq<char>>, target: Seq<char>) -> bool {
    &&& r.id@ == id
    &&& r.name@ == name
    &&& r.enabled
    &&& r.order_index == order
    &&& r.action().workflow_id@ == target
    &&& r.when matches Condition::Predicate { field, op, value } && field@ == "ext"@ && op == Op::In
        && value@ == str_array(exts)
}

pub open spec fn image_exts() -> Seq<Seq<char>> {
    seq!["jpg"@, "jpeg"@, "png"@, "gif"@, "webp"@, "svg"@, "bmp"@, "tiff"@, "heic"@]
}

pub open spec fn video_exts() -> Seq<Seq<char>> {
    seq!["mp4"@, "mov"@, "avi"@, "mkv"@, "webm"@, "m4v"@]
}

pub open spec fn document_exts() -> Seq<Seq<char>> {
    seq!["pdf"@, "doc"@, "docx"@, "xls"@, "xlsx"@, "ppt"@, "pptx"@, "txt"@, "md"@, "csv"@]
}

/// The workflows the built-in rules send files to, in rule order.
pub open spec fn default_rule_targets() -> Seq<Seq<char>> {
    seq!["wf_move_to_photos"@, "wf_move_to_videos"@, "wf_move_to_documents"@]
}

/// The destinations of the built-in workflows, in order.
pub open spec fn default_destinations() -> Seq<Seq<char>> {
    seq!["~/Draction/Photos"@, "~/Draction/Videos"@, "~/Draction/Documents"@]
}

fn ext_rule(id: &str, name: &str, order: i64, exts: Vec<&str>, target: &str) -> (r: Rule)
    ensures
        is_ext_rule(r, id@, name@, order as int, exts@.map_values(|s: &str| s@), target@),
{
    Rule {
        id: owned(id),
        name: owned(name),
        enabled: true,
        order_index: order,
        when: Condition::Predicate { field: owned("ext"), op: Op::In, value: str_array_value(exts) },
        then: ThenAction { workflow_id: owned(target) },
    }
}

/// `r` are the rules a new installation starts with.
pub open spec fn are_default_rules(r: Seq<Rule>) -> bool {
    &&& r.len() == 3
    &&& is_ext_rule(r[0], "rule_images_to_photos"@, "Images -> Photos"@, 0, image_exts(), default_rule_targets()[0])
    &&& is_ext_rule(r[1], "rule_videos_to_videos"@, "Videos -> Videos"@, 1, video_exts(), default_rule_targets()[1])
    &&& is_ext_rule(r[2], "rule_docs_to_documents"@, "Documents -> Documents"@, 2, document_exts(), default_rule_targets()[2])
}

/// The rules a new installation starts with: images, videos and documents, each
/// moved to a folder of its own.
pub fn default_rules() -> (r: Vec<Rule>)
    ensures
        are_default_rules(r@),
{
    let images = vec!["jpg", "jpeg", "png", "gif", "webp", "svg", "bmp", "tiff", "heic"];
    let videos = vec!["mp4", "mov", "avi", "mkv", "webm", "m4v"];
    let docs = vec!["pdf", "doc", "docx", "xls", "xlsx", "ppt", "pptx", "txt", "md", "csv"];
    proof {
        assert(images@.map_values(|s: &str| s@) =~= image_exts());
        assert(videos@.map_values(|s: &str| s@) =~= video_exts());
        assert(docs@.map_values(|s: &str| s@) =~= document_exts());
    }
    let mut r = Vec::new();
    r.push(ext_rule("rule_images_to_photos", "Images -> Photos", 0, images, "wf_move_to_photos"));
    r.push(ext_rule("rule_videos_to_videos", "Videos -> Videos", 1, videos, "wf_move_to_videos"));
    r.push(ext_rule("rule_docs_to_documents", "Documents -> Documents", 2, docs, "wf_move_to_documents"));
    r
}

/// `w` is the built-in workflow `id` that moves a file to `dest`: one "move" node
/// "n1" and no edges.
pub open spec fn is_move_workflow(w: Workflow, id: Seq<char>, name: Seq<char>, dest: Seq<char>) -> bool {
    &&& w.id@ == id
    &&& w.name@ == name
    &&& w.nodes@.len() == 1
    &&& w.edges@.len() == 0
    &&& w.nodes@[0].id@ == "n1"@
    &&& w.nodes@[0].node_type@ == "move"@
    &&& w.nodes@[0].params@ == Json::Object(seq![("dest"@, Json::Str(dest))])
}

fn move_workflow(id: &str, name: &str, dest: &str) -> (r: Workflow)
    ensures
        is_move_workflow(r, id@, name@, dest@),
{
    let mut fields: Vec<(String, JsonValue)> = Vec::new();
    fields.push((owned("dest"), JsonValue::Str(owned(dest))));
    let params = JsonValue::Object(fields);
    proof {
        crate::json::lemma_json_fields(fields@);
        assert(crate::json::json_fields(fields@) =~= seq![("dest"@, Json::Str(dest@))]);
    }
    let mut nodes = Vec::new();
    nodes.push(WorkflowNode { id: owned("n1"), node_type: owned("move"), params });
    Workflow { id: owned(id), name: owned(name), nodes, edges: Vec::new() }
}

/// `r` are the workflows a new installation starts with.
pub open spec fn are_default_workflows(r: Seq<Workflow>) -> bool {
    &&& r.len() == 3
    &&& is_move_workflow(r[0], default_rule_targets()[0], "Move to Photos"@, default_destinations()[0])
    &&& is_move_workflow(r[1], default_rule_targets()[1], "Move to Videos"@, default_destinations()[1])
    &&& is_move_workflow(r[2], default_rule_targets()[2], "Move to Documents"@, default_destinations()[2])
}

/// The workflows a new installation starts with, one per built-in rule.
pub fn default_workflows() -> (r: Vec<Workflow>)
    ensures
        are_default_workflows(r@),
{
    let mut r = Vec::new();
    r.push(move_workflow("wf_move_to_photos", "Move to Photos", "~/Draction/Photos"));
    r.push(move_workflow("wf_move_to_videos", "Move to Videos", "~/Draction/Videos"));
    r.push(move_workflow("wf_move_to_documents", "Move to Documents", "~/Draction/Documents"));
    r
}

// ---------------------------------------------------------------------------
// What happens to an ingested file
// ---------------------------------------------------------------------------

/// What ingesting a file leads to, once its facts are known.
pub enum IngestDecision {
    /// No enabled rule matches: the file stays in the inbox.
    NoMatchingRule,
    /// The rule at this position matches, but names no known workflow.
    WorkflowMissing(usize),
    /// The rule at `rule` matches and the workflow at `workflow` runs.
    Run { rule: usize, workflow: usize },
}

/// The first matching rule decides; its workflow is looked up by id.
pub fn decide_ingest(rules: &[Rule], workflows: &[Workflow], ctx: &EvalCtx) -> (r: IngestDecision)
    ensures
        r is NoMatchingRule <==> first_match_from(rules@, ctx@, 0) == -1,
        r is WorkflowMissing ==> r->WorkflowMissing_0 as int == first_match_from(rules@, ctx@, 0)
            && r->WorkflowMissing_0 < rules@.len()
            && find_spec(workflows@, rules@[r->WorkflowMissing_0 as int].action().workflow_id@) == -1,
        r is Run ==> r->rule as int == first_match_from(rules@, ctx@, 0) && r->rule < rules@.len()
            && r->workflow < workflows@.len()
            && r->workflow as int == find_spec(workflows@, rules@[r->rule as int].action().workflow_id@),
{
    let found = first_match_index(rules, ctx);
    match found {
        None => IngestDecision::NoMatchingRule,
        Some(i) => match find_by_id(workflows, rules[i].workflow_id()) {
            Some(w) => IngestDecision::Run { rule: i, workflow: w },
            None => IngestDecision::WorkflowMissing(i),
        },
    }
}

/// What an ingest result says when no rule matched.
pub fn no_rule_message() -> (r: String)
    ensures
        r@ == "No matching rule - kept in Inbox"@,
{
    owned("No matching rule - kept in Inbox")
}

/// What an ingest result says when the matched rule names no known workflow.
pub fn workflow_missing_message(workflow_id: &str) -> (r: String)
    ensures
        r@ == "Workflow not found: "@ + workflow_id@,
{
    concat("Workflow not found: ", workflow_id)
}

/// What an ingest result says when the run completed: `<rule> -> <workflow>`.
pub fn run_summary_message(rule_name: &str, workflow_name: &str) -> (r: String)
    ensures
        r@ == rule_name@ + " -> "@ + workflow_name@,
{
    let a = concat(rule_name, " -> ");
    concat(a.as_str(), workflow_name)
}

/// What an ingest result says when the run failed: `<rule> failed: <error>`.
pub fn run_failed_message(rule_name: &str, error: &str) -> (r: String)
    ensures
        r@ == rule_name@ + " failed: "@ + error@,
{
    let a = concat(rule_name, " failed: ");
    concat(a.as_str(), error)
}

/// The largest file accepted, in bytes, for a limit of `max_mb` megabytes.
pub fn max_file_bytes(max_mb: u64) -> (r: u64)
    requires
        max_mb * 1048576 <= u64::MAX,
    ensures
        r == max_mb * 1048576,
{
    max_mb * 1024 * 1024
}

/// Whether a file of `size` bytes is over the limit of `max_mb` megabytes.
pub fn exceeds_size_limit(size: u64, max_mb: u64) -> (r: bool)
    requires
        max_mb * 1048576 <= u64::MAX,
    ensures
        r == (size > max_mb * 1048576),
{
    size > max_file_bytes(max_mb)
}

/// The error recorded for a failed workflow run.
pub fn workflow_error_payload(message: &str, retryable: bool) -> (r: JsonValue)
    ensures
        r@ == Json::Object(seq![
            ("code"@, Json::Str("WORKFLOW_ERROR"@)),
            ("message"@, Json::Str(message@)),
            ("retryable"@, Json::Bool(retryable)),
        ]),
{
    let mut fields: Vec<(String, JsonValue)> = Vec::new();
    fields.push((owned("code"), JsonValue::Str(owned("WORKFLOW_ERROR"))));
    fields.push((owned("message"), JsonValue::Str(owned(message))));
    fields.push((owned("retryable"), JsonValue::Bool(retryable)));
    proof {
        crate::json::lemma_json_fields(fields@);
        assert(crate::json::json_fields(fields@) =~= seq![
            ("code"@, Json::Str("WORKFLOW_ERROR"@)),
            ("message"@, Json::Str(message@)),
            ("retryable"@, Json::Bool(retryable)),
        ]);
    }
    JsonValue::Object(fields)
}

// ---------------------------------------------------------------------------
// Summaries
// ---------------------------------------------------------------------------

/// What ingesting one file gave.
pub struct IngestResult {
    pub original: String,
    pub inbox_path: String,
    pub size_bytes: u64,
    pub sha256: String,
    pub action: Option<String>,
}

/// A run, as listed.
pub struct RunSummary {
    pub id: String,
    pub event_id: String,
    pub rule_id: String,
    pub workflow_id: String,
    pub status: String,
    pub started_at: String,
    pub finished_at: Option<String>,
    pub error_json: Option<String>,
    pub artifacts_json: Option<String>,
}

/// A rule, as listed.
pub struct RuleSummary {
    pub id: String,
    pub name: String,
    pub enabled: bool,
    pub order_index: i64,
    pub workflow_id: String,
}

/// The summary of a rule.
pub fn rule_summary(rule: &Rule) -> (r: RuleSummary)
    ensures
        r.id@ == rule.id@,
        r.name@ == rule.name@,
        r.enabled == rule.enabled,
        r.order_index == rule.order_index,
        r.workflow_id@ == rule.action().workflow_id@,
{
    RuleSummary {
        id: owned(rule.id.as_str()),
        name: owned(rule.name.as_str()),
        enabled: rule.enabled,
        order_index: rule.order_index,
        workflow_id: owned(rule.workflow_id()),
    }
}

/// The summaries of `rules`, in order.
pub fn rule_summaries(rules: &[Rule]) -> (r: Vec<RuleSummary>)
    ensures
        r@.len() == rules@.len(),
        forall|i: int| 0 <= i < rules@.len() ==> (#[trigger] r@[i]).id@ == rules@[i].id@
            && r@[i].name@ == rules@[i].name@ && r@[i].enabled == rules@[i].enabled
            && r@[i].order_index == rules@[i].order_index && r@[i].workflow_id@ == rules@[i].action().workflow_id@,
{
    let mut out: Vec<RuleSummary> = Vec::new();
    let mut i: usize = 0;
    while i < rules.len()
        invariant
            i <= rules@.len(),
            out@.len() == i,
            forall|k: int| 0 <= k < i ==> (#[trigger] out@[k]).id@ == rules@[k].id@
                && out@[k].name@ == rules@[k].name@ && out@[k].enabled == rules@[k].enabled
                && out@[k].order_index == rules@[k].order_index && out@[k].workflow_id@ == rules@[k].action().workflow_id@,
        decreases rules@.len() - i,
    {
        out.push(rule_summary(&rules[i]));
        i += 1;
    }
    out
}

} // verus!
