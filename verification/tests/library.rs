use draction::clock::{nanos_since_epoch, split_reading, utc_date_at};
use draction::ingest::{check_drop, copies_in_chunks, rule_extension, LARGE_FILE_THRESHOLD};
use draction::app_core::{
    build_eval_ctx, decide_ingest, default_rules, default_workflows, exceeds_size_limit, inbox_dir, inbox_dir_for,
    max_file_bytes, no_rule_message, rule_summaries, run_failed_message, run_summary_message, rules_path,
    workflow_error_payload, workflow_missing_message, workflows_path, IngestDecision,
};
use draction::auth::{bearer_authorized, error_json, generate_token, is_loopback, ws_authorized, IpAddress, WsParams};
use draction::crud::{get_by_id, insert_new, remove_by_id, replace_by_id, toggle_rule_enabled, CrudError};
use draction::desktop::{expand_runtime_path, expand_runtime_path_with, runtime_data_names};
use draction::events_api::{list_limit, undo_step, ListQuery as EventsQuery, UndoStep};
use draction::file_ops::compute_sha256;
use draction::hex::hex_encode;
use draction::ids::{new_event_id, new_rule_id, new_run_id, new_workflow_id};
use draction::ingest::resolve_dest;
use draction::json::{json_clone, json_eq, merge_objects, JsonValue};
use draction::lifecycle::{shutdown_step, ShutdownStep};
use draction::paths::{extension, file_name, file_stem, join, parent, with_extension};
use draction::rule_engine::EvalCtx;
use draction::rows::{run_summary, RunRow};
use draction::runs_api::{check_retryable, page, retry_work_dir, ListQuery as RunsQuery};
use draction::settings::{validate_settings, Settings};
use draction::text::replace_all;
use draction::undo::{UndoEntry, UndoStack};
use draction::watcher_api::{check_watch_paths, StartWatcherRequest};
use draction::workflow_engine::plan_execution;

fn s(v: &str) -> JsonValue {
    JsonValue::Str(v.to_string())
}

fn entry(id: &str, at: i64) -> UndoEntry {
    UndoEntry {
        event_id: id.to_string(),
        src_path: format!("/src/{id}"),
        dst_path: format!("/inbox/{id}"),
        is_copy: true,
        created_at: at,
    }
}

const SEC: i64 = 1_000_000_000;

#[test]
fn undo_within_window_returns_entry_once() {
    let mut st = UndoStack::new();
    st.push(entry("e1", 0));
    let got = st.try_undo_at("e1", 10 * SEC).unwrap();
    assert_eq!(got.event_id, "e1");
    assert!(st.try_undo_at("e1", 10 * SEC).is_none());
    assert!(st.entries().is_empty());
}

#[test]
fn undo_after_window_is_refused_and_keeps_entry() {
    let mut st = UndoStack::new();
    st.push(entry("e1", 0));
    assert!(st.try_undo_at("e1", 11 * SEC).is_none());
    assert_eq!(st.entries().len(), 1);
}

#[test]
fn undo_stack_keeps_five_newest() {
    let mut st = UndoStack::new();
    for i in 0..7 {
        st.push(entry(&format!("e{i}"), 0));
    }
    assert_eq!(st.entries().len(), 5);
    assert_eq!(st.entries()[0].event_id, "e2");
    assert!(st.try_undo_at("e0", 0).is_none());
    assert!(st.try_undo_at("e6", 0).is_some());
}

#[test]
fn invalidated_event_cannot_be_undone() {
    let mut st = UndoStack::new();
    st.push(entry("a", 0));
    st.push(entry("b", 0));
    st.invalidate("a");
    assert!(st.try_undo_at("a", 0).is_none());
    assert_eq!(st.entries().len(), 1);
}

#[test]
fn undo_now_takes_a_fresh_ingest() {
    let now = std::time::SystemTime::now().duration_since(std::time::UNIX_EPOCH).unwrap().as_nanos() as i64;
    let mut st = UndoStack::new();
    st.push(entry("fresh", now));
    st.push(entry("stale", now - 60 * SEC));
    assert!(st.try_undo("stale").is_none());
    assert_eq!(st.try_undo("fresh").unwrap().event_id, "fresh");
    assert_eq!(st.entries().len(), 1);
}

fn rule_named(id: &str) -> draction::rule::Rule {
    draction::rule::Rule {
        id: id.to_string(),
        name: id.to_string(),
        enabled: true,
        order_index: 0,
        when: draction::rule::Condition::Group { mode: draction::rule::GroupMode::All, children: vec![] },
        then: draction::rule::ThenAction { workflow_id: "wf".to_string() },
    }
}

#[test]
fn crud_create_get_update_remove() {
    let mut rules = vec![rule_named("a")];
    assert!(insert_new(&mut rules, rule_named("b")).is_ok());
    assert_eq!(insert_new(&mut rules, rule_named("a")).err(), Some(CrudError::Conflict));
    assert_eq!(rules.len(), 2);
    assert_eq!(get_by_id(&rules, "b").ok().unwrap().id, "b");
    let mut renamed = rule_named("b");
    renamed.name = "B".to_string();
    assert_eq!(replace_by_id(&mut rules, "b", renamed).ok(), Some(1));
    assert_eq!(get_by_id(&rules, "b").ok().unwrap().name, "B");
    assert_eq!(replace_by_id(&mut rules, "zz", rule_named("zz")).err(), Some(CrudError::NotFound));
    assert!(remove_by_id(&mut rules, "a").is_ok());
    assert_eq!(get_by_id(&rules, "a").err(), Some(CrudError::NotFound));
    assert_eq!(remove_by_id(&mut rules, "a").err(), Some(CrudError::NotFound));
}

#[test]
fn toggle_twice_restores_rule() {
    let mut rules = vec![rule_named("a")];
    assert_eq!(toggle_rule_enabled(&mut rules, "a").ok(), Some(0));
    assert!(!rules[0].enabled);
    toggle_rule_enabled(&mut rules, "a").ok().unwrap();
    assert!(rules[0].enabled);
    assert_eq!(toggle_rule_enabled(&mut rules, "x").err(), Some(CrudError::NotFound));
}

#[test]
fn default_settings_are_valid() {
    let d = Settings::default();
    assert!(validate_settings(&d).is_ok());
    assert_eq!(d.theme, "dark");
    assert_eq!(d.max_file_size_mb, 500);
}

#[test]
fn settings_validation_messages() {
    let mut st = Settings::default();
    st.undo_window_seconds = 0;
    assert_eq!(validate_settings(&st).err().unwrap(), "undo_window_seconds must be positive");
    let mut st = Settings::default();
    st.undo_history_depth = 51;
    assert_eq!(validate_settings(&st).err().unwrap(), "undo_history_depth must be between 1 and 50");
    let mut st = Settings::default();
    st.concurrency = 9;
    assert_eq!(validate_settings(&st).err().unwrap(), "concurrency must be between 1 and 8");
    let mut st = Settings::default();
    st.inbox_size_limit_gb = 0;
    assert_eq!(validate_settings(&st).err().unwrap(), "inbox_size_limit_gb must be between 1 and 1024");
    let mut st = Settings::default();
    st.max_file_size_mb = 0;
    assert_eq!(validate_settings(&st).err().unwrap(), "max_file_size_mb must be positive");
    let mut st = Settings::default();
    st.theme = "pink".to_string();
    assert_eq!(validate_settings(&st).err().unwrap(), "theme must be one of: system, light, dark");
    let mut st = Settings::default();
    st.conflict_resolution = "x".to_string();
    assert_eq!(validate_settings(&st).err().unwrap(), "conflict_resolution is invalid");
    let mut st = Settings::default();
    st.match_policy = "x".to_string();
    assert_eq!(validate_settings(&st).err().unwrap(), "match_policy is invalid");
    let mut st = Settings::default();
    st.log_level = "loud".to_string();
    assert_eq!(validate_settings(&st).err().unwrap(), "log_level is invalid");
}

#[test]
fn reset_section_restores_only_that_section() {
    let mut st = Settings::default();
    st.theme = "light".to_string();
    st.concurrency = 4;
    st.draky_size = "large".to_string();
    assert!(st.reset_section("general").is_ok());
    assert_eq!(st.theme, "dark");
    assert_eq!(st.concurrency, 4);
    assert_eq!(st.draky_size, "large");
    assert!(st.reset_section("draky").is_ok());
    assert_eq!(st.draky_size, "medium");
    assert_eq!(st.reset_section("nope").err().unwrap(), "Unknown settings section: nope");
}

#[test]
fn resolve_dest_picks_first_free_name() {
    assert_eq!(resolve_dest("/in", "/x/photo.jpg", &[]), "/in/photo.jpg");
    let existing = vec!["/in/photo.jpg".to_string(), "/in/photo_1.jpg".to_string()];
    assert_eq!(resolve_dest("/in", "/x/photo.jpg", &existing), "/in/photo_2.jpg");
    let existing = vec!["/in/README".to_string()];
    assert_eq!(resolve_dest("/in", "/x/README", &existing), "/in/README_1");
}

#[test]
fn path_parts() {
    assert_eq!(file_name("/a/b/c.txt").unwrap(), "c.txt");
    assert_eq!(file_stem("/a/b/c.tar.gz").unwrap(), "c.tar");
    assert_eq!(extension("/a/b/c.tar.gz").unwrap(), "gz");
    assert!(extension("/a/.bashrc").is_none());
    assert_eq!(parent("/a/b/c.txt").unwrap(), "/a/b");
    assert_eq!(parent("c.txt").unwrap(), "");
    assert!(parent("/").is_none());
    assert_eq!(join("/a", "b"), "/a/b");
    assert_eq!(join("/a", "/b"), "/b");
    assert_eq!(with_extension("/a/b.mov", "mp4"), "/a/b.mp4");
    assert_eq!(with_extension("/a/b", "mp4"), "/a/b.mp4");
    assert_eq!(file_name("foo.txt/.").unwrap(), "foo.txt");
    assert_eq!(file_name("foo.txt/.//").unwrap(), "foo.txt");
    assert!(file_name("foo.txt/..").is_none());
    assert!(file_name("/").is_none());
    assert_eq!(parent("a/./b").unwrap(), "a");
    assert_eq!(with_extension("a/b.mov/.", "mp4"), "a/b.mp4");
    for p in ["a/b.tar.gz", "foo.", ".hidden", "x/y/", "/", "", ".", "..", "a//b", "./a", "/a"] {
        let std_path = std::path::Path::new(p);
        assert_eq!(file_name(p).as_deref(), std_path.file_name().and_then(|n| n.to_str()), "file_name of {p}");
        assert_eq!(file_stem(p).as_deref(), std_path.file_stem().and_then(|n| n.to_str()), "file_stem of {p}");
        assert_eq!(extension(p).as_deref(), std_path.extension().and_then(|n| n.to_str()), "extension of {p}");
        assert_eq!(parent(p).as_deref(), std_path.parent().and_then(|n| n.to_str()), "parent of {p}");
        assert_eq!(with_extension(p, "mp4"), std_path.with_extension("mp4").to_str().unwrap(), "with_extension of {p}");
        assert_eq!(join(p, "c"), std_path.join("c").to_str().unwrap(), "join of {p}");
    }
}

#[test]
fn replace_all_is_left_to_right() {
    assert_eq!(replace_all("{a}{a}x", "{a}", "b"), "bbx");
    assert_eq!(replace_all("aaa", "aa", "b"), "ba");
    assert_eq!(replace_all("none", "{x}", "y"), "none");
}

#[test]
fn replace_all_empty_pattern_goes_between_characters() {
    assert_eq!(replace_all("abc", "", "x"), "xaxbxcx");
    assert_eq!(replace_all("", "", "x"), "x");
    assert_eq!(replace_all("ab", "", ""), "ab");
}

#[test]
fn token_is_64_hex_digits() {
    let t = generate_token().unwrap();
    assert_eq!(t.len(), 64);
    assert!(t.chars().all(|c| c.is_ascii_hexdigit() && !c.is_ascii_uppercase()));
    assert_ne!(t, generate_token().unwrap());
}

#[test]
fn hex_encoding() {
    assert_eq!(hex_encode(&[0x00, 0x0f, 0xa5, 0xff]), "000fa5ff");
    assert_eq!(hex_encode(&[]), "");
}

#[test]
fn sha256_of_known_inputs() {
    assert_eq!(compute_sha256(b""), "e3b0c44298fc1c149afbf4c8996fb92427ae41e4649b934ca495991b7852b855");
    assert_eq!(compute_sha256(b"abc"), "ba7816bf8f01cfea414140de5dae2223b00361a396177a9cb410ff61f20015ad");
}

#[test]
fn ids_have_prefixes() {
    for (id, prefix) in [(new_event_id(), "evt_"), (new_run_id(), "run_"), (new_rule_id(), "rule_"), (new_workflow_id(), "wf_")] {
        let id = id.unwrap();
        assert!(id.starts_with(prefix));
        assert_eq!(id.len(), prefix.len() + 32);
        assert!(id[prefix.len()..].chars().all(|c| c.is_ascii_hexdigit() && !c.is_ascii_uppercase()));
    }
    assert_ne!(new_event_id().unwrap(), new_event_id().unwrap());
}

#[test]
fn ids_carry_uuid_version_and_variant() {
    for _ in 0..64 {
        let id = new_event_id().unwrap();
        let hex = &id["evt_".len()..];
        assert_eq!(&hex[12..13], "4");
        assert!(["8", "9", "a", "b"].contains(&&hex[16..17]));
        let parsed = uuid::Uuid::parse_str(hex).unwrap();
        assert_eq!(parsed.get_version_num(), 4);
    }
}

#[test]
fn bearer_check() {
    assert!(bearer_authorized(true, None, "t"));
    assert!(bearer_authorized(false, Some("Bearer t"), "t"));
    assert!(!bearer_authorized(false, Some("Bearer u"), "t"));
    assert!(!bearer_authorized(false, Some("t"), "t"));
    assert!(!bearer_authorized(false, None, "t"));
}

#[test]
fn ws_token_check() {
    assert!(ws_authorized(&WsParams { token: Some("t".into()) }, "t"));
    assert!(!ws_authorized(&WsParams { token: None }, "t"));
    assert!(ws_authorized(&WsParams { token: None }, ""));
}

#[test]
fn loopback_addresses() {
    assert!(is_loopback(&IpAddress::V4([127, 0, 0, 1])));
    assert!(is_loopback(&IpAddress::V4([127, 9, 9, 9])));
    assert!(!is_loopback(&IpAddress::V4([10, 0, 0, 1])));
    assert!(is_loopback(&IpAddress::V6([0, 0, 0, 0, 0, 0, 0, 1])));
    assert!(!is_loopback(&IpAddress::V6([0, 0, 0, 0, 0, 0, 0, 2])));
}

#[test]
fn error_body_shape() {
    let b = error_json("NOT_FOUND", "Rule not found");
    let expected = JsonValue::Object(vec![(
        "error".to_string(),
        JsonValue::Object(vec![("code".to_string(), s("NOT_FOUND")), ("message".to_string(), s("Rule not found"))]),
    )]);
    assert!(json_eq(&b, &expected));
}

#[test]
fn paths_of_stored_files() {
    assert_eq!(rules_path("/base"), "/base/rules.json");
    assert_eq!(workflows_path("/base/"), "/base/workflows.json");
    assert_eq!(inbox_dir_for("/base", "2024-05-06"), "/base/Inbox/2024-05-06");
    let today = inbox_dir("/base").unwrap();
    assert!(today.starts_with("/base/Inbox/"));
    assert_eq!(today.len(), "/base/Inbox/YYYY-MM-DD".len());
    assert_eq!(today, format!("/base/Inbox/{}", chrono::Utc::now().format("%Y-%m-%d")));
}

#[test]
fn default_rules_route_to_default_workflows() {
    let rules = default_rules();
    let wfs = default_workflows();
    assert_eq!(rules.len(), 3);
    assert_eq!(wfs.len(), 3);
    for (r, w) in rules.iter().zip(wfs.iter()) {
        assert_eq!(r.workflow_id(), w.id);
        assert_eq!(w.nodes[0].node_type, "move");
    }
    let ctx = build_eval_ctx("a.png", "png", 10);
    assert!(matches!(decide_ingest(&rules, &wfs, &ctx), IngestDecision::Run { rule: 0, workflow: 0 }));
    let ctx = build_eval_ctx("a.mkv", "mkv", 10);
    assert!(matches!(decide_ingest(&rules, &wfs, &ctx), IngestDecision::Run { rule: 1, workflow: 1 }));
    let ctx = build_eval_ctx("a.csv", "csv", 10);
    assert!(matches!(decide_ingest(&rules, &wfs, &ctx), IngestDecision::Run { rule: 2, workflow: 2 }));
    let ctx = build_eval_ctx("a.xyz", "xyz", 10);
    assert!(matches!(decide_ingest(&rules, &wfs, &ctx), IngestDecision::NoMatchingRule));
    assert!(matches!(decide_ingest(&rules, &[], &build_eval_ctx("a.png", "png", 1)), IngestDecision::WorkflowMissing(0)));
}

#[test]
fn ingest_messages() {
    assert_eq!(no_rule_message(), "No matching rule - kept in Inbox");
    assert_eq!(workflow_missing_message("wf_x"), "Workflow not found: wf_x");
    assert_eq!(run_summary_message("Images -> Photos", "Move to Photos"), "Images -> Photos -> Move to Photos");
    assert_eq!(run_failed_message("R", "boom"), "R failed: boom");
    assert_eq!(max_file_bytes(500), 524_288_000);
    assert!(exceeds_size_limit(524_288_001, 500));
    assert!(!exceeds_size_limit(524_288_000, 500));
    let p = workflow_error_payload("bad", true);
    let expected = JsonValue::Object(vec![
        ("code".to_string(), s("WORKFLOW_ERROR")),
        ("message".to_string(), s("bad")),
        ("retryable".to_string(), JsonValue::Bool(true)),
    ]);
    assert!(json_eq(&p, &expected));
}

#[test]
fn eval_ctx_facts() {
    let ctx: EvalCtx = build_eval_ctx("a.png", "png", 7);
    assert!(matches!(ctx.get("size_bytes"), Some(JsonValue::Int(7))));
    assert!(ctx.get("mime").is_none());
    let summaries = rule_summaries(&default_rules());
    assert_eq!(summaries[1].id, "rule_videos_to_videos");
    assert_eq!(summaries[1].workflow_id, "wf_move_to_videos");
    assert_eq!(summaries[2].order_index, 2);
}

#[test]
fn json_merge_writes_fields() {
    let cur = JsonValue::Object(vec![("theme".to_string(), s("dark")), ("concurrency".to_string(), JsonValue::Int(1))]);
    let inc = JsonValue::Object(vec![("theme".to_string(), s("light")), ("extra".to_string(), JsonValue::Bool(true))]);
    let merged = merge_objects(json_clone(&cur), &inc);
    let expected = JsonValue::Object(vec![
        ("theme".to_string(), s("light")),
        ("concurrency".to_string(), JsonValue::Int(1)),
        ("extra".to_string(), JsonValue::Bool(true)),
    ]);
    assert!(json_eq(&merged, &expected));
    let unchanged = merge_objects(json_clone(&cur), &JsonValue::Null);
    assert!(json_eq(&unchanged, &cur));
}

#[test]
fn run_listing_and_retry_checks() {
    assert_eq!(page(&RunsQuery { status: None, limit: None, offset: None }), (50, 0));
    assert_eq!(page(&RunsQuery { status: None, limit: Some(5), offset: Some(10) }), (5, 10));
    assert!(check_retryable("failed").is_ok());
    assert_eq!(check_retryable("completed").err().unwrap().status, 400);
    let files = JsonValue::Array(vec![JsonValue::Object(vec![("path".to_string(), s("/inbox/a.png"))])]);
    assert_eq!(retry_work_dir(&files).ok().unwrap(), "/inbox/a.png");
    assert_eq!(retry_work_dir(&JsonValue::Array(vec![])).err().unwrap().status, 500);
    assert_eq!(retry_work_dir(&s("x")).err().unwrap().status, 500);
}

#[test]
fn run_rows_summarised() {
    let row = RunRow {
        id: "run_1".into(),
        event_id: "evt_1".into(),
        rule_id: "rule_1".into(),
        workflow_id: "wf_1".into(),
        status: "failed".into(),
        started_at: "t0".into(),
        finished_at: Some("t1".into()),
        error_json: None,
        artifacts_json: Some("[]".into()),
    };
    let sum = run_summary(row);
    assert_eq!(sum.id, "run_1");
    assert_eq!(sum.finished_at.as_deref(), Some("t1"));
    assert!(sum.error_json.is_none());
}

#[test]
fn event_listing_and_undo_steps() {
    assert_eq!(list_limit(&EventsQuery { limit: None }), 50);
    assert_eq!(list_limit(&EventsQuery { limit: Some(3) }), 3);
    assert!(matches!(undo_step(entry("e", 0)), UndoStep::RemoveCopy { .. }));
    let mut moved = entry("e", 0);
    moved.is_copy = false;
    match undo_step(moved) {
        UndoStep::MoveBack { src_path, dst_path, .. } => {
            assert_eq!(src_path, "/src/e");
            assert_eq!(dst_path, "/inbox/e");
        },
        _ => panic!("a move is undone by moving back"),
    }
}

#[test]
fn watch_paths_must_exist() {
    let req = StartWatcherRequest { paths: vec!["/a".into(), "/b".into()] };
    assert!(check_watch_paths(&req, &[true, true]).is_ok());
    let err = check_watch_paths(&req, &[true, false]).err().unwrap();
    assert_eq!(err.status, 422);
    let expected = error_json("INVALID_PATH", "Path does not exist: /b");
    assert!(json_eq(&err.body, &expected));
}

#[test]
fn shutdown_steps() {
    assert_eq!(shutdown_step(Some(0), 0), ShutdownStep::Idle);
    assert_eq!(shutdown_step(Some(2), 500), ShutdownStep::Wait);
    assert_eq!(shutdown_step(Some(2), 30_000), ShutdownStep::TimedOut);
    assert_eq!(shutdown_step(None, 0), ShutdownStep::QueryFailed);
}

#[test]
fn runtime_paths() {
    assert_eq!(expand_runtime_path_with("~/Draction", "/base", None), "/base");
    assert_eq!(expand_runtime_path_with("~/Draction/Inbox", "/base", None), "/base/Inbox");
    assert_eq!(expand_runtime_path_with("~/Other", "/base", Some("/home/u")), "/home/u/Other");
    assert_eq!(expand_runtime_path("/abs", "/base"), "/abs");
    assert_eq!(runtime_data_names().len(), 8);
}

#[test]
fn plan_levels_of_diamond() {
    let node = |id: &str| draction::workflow::WorkflowNode {
        id: id.into(),
        node_type: "k".into(),
        params: JsonValue::Object(vec![]),
    };
    let edge = |a: &str, b: &str| draction::workflow::Edge { from: a.into(), to: b.into() };
    let wf = draction::workflow::Workflow {
        id: "w".into(),
        name: "w".into(),
        nodes: vec![node("a"), node("b"), node("c"), node("d")],
        edges: vec![edge("a", "b"), edge("a", "c"), edge("b", "d"), edge("c", "d")],
    };
    let plan = plan_execution(&wf).ok().unwrap();
    assert_eq!(plan.depth, vec![1, 2, 2, 3]);
    assert_eq!(plan.levels.len(), 4);
    assert!(plan.levels[0].is_empty());
    assert_eq!(plan.levels[2].len(), 2);
}

#[test]
fn clock_readings_in_nanoseconds() {
    assert_eq!(nanos_since_epoch(false, 1, 5), Some(1_000_000_005));
    assert_eq!(nanos_since_epoch(true, 1, 5), Some(-1_000_000_005));
    assert_eq!(nanos_since_epoch(false, 9_223_372_036, 854_775_807), Some(i64::MAX));
    assert_eq!(nanos_since_epoch(false, 9_223_372_036, 854_775_808), None);
    assert_eq!(nanos_since_epoch(true, 9_223_372_036, 854_775_808), Some(i64::MIN));
    assert!(draction::clock::utc_now_nanos().unwrap() > 1_600_000_000_000_000_000);
}

#[test]
fn clock_readings_split_into_seconds() {
    assert_eq!(split_reading(false, 10, 250), Some((10, 250)));
    assert_eq!(split_reading(true, 10, 0), Some((-10, 0)));
    assert_eq!(split_reading(true, 10, 250), Some((-11, 999_999_750)));
    assert_eq!(split_reading(false, u64::MAX, 0), None);
}

#[test]
fn dates_of_clock_readings() {
    assert_eq!(utc_date_at(false, 0, 0).unwrap(), "1970-01-01");
    assert_eq!(utc_date_at(true, 0, 1).unwrap(), "1969-12-31");
    assert_eq!(utc_date_at(true, 86_400, 0).unwrap(), "1969-12-31");
    assert_eq!(utc_date_at(false, 1_717_200_000, 0).unwrap(), "2024-06-01");
    assert_eq!(utc_date_at(false, 253_402_300_800, 0).unwrap(), "+10000-01-01");
    assert_eq!(utc_date_at(false, 9_000_000_000_000_000, 0), None);
    assert_eq!(draction::clock::utc_date().unwrap(), chrono::Utc::now().format("%Y-%m-%d").to_string());
}

#[test]
fn drop_checks_and_copy_modes() {
    assert_eq!(check_drop(0).err().unwrap(), "No files found in the dropped items");
    assert!(check_drop(2).is_ok());
    assert!(copies_in_chunks(LARGE_FILE_THRESHOLD + 1, true));
    assert!(!copies_in_chunks(LARGE_FILE_THRESHOLD, true));
    assert!(!copies_in_chunks(LARGE_FILE_THRESHOLD + 1, false));
    assert_eq!(rule_extension("/in/Photo.JPG"), "jpg");
    assert_eq!(rule_extension("/in/README"), "");
    assert_eq!(rule_extension("/in/ÉTÉ.PDF"), "pdf");
}
