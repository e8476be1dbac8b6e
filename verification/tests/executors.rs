use draction::executors::{
    default_registry, expand_home, expand_home_with, ffmpeg_args_for_preset, file_output, BuiltinNode, CopyNode,
    MoveNode, RenameNode, TranscodeNode, WebhookNode, copy_transfer, move_transfer, rename_target, transcode_job,
};
use draction::json::JsonValue;
use draction::node_registry::{NamedNode, NodeContext, NodeExecutor, NodeRegistry};
use std::path::PathBuf;

fn ctx(work_dir: &str) -> NodeContext {
    NodeContext { run_id: "r".to_string(), event_id: "e".to_string(), work_dir: work_dir.to_string() }
}

fn obj(fields: &[(&str, &str)]) -> JsonValue {
    JsonValue::Object(fields.iter().map(|(k, v)| (k.to_string(), JsonValue::Str(v.to_string()))).collect())
}

#[test]
fn kind_returns_copy() {
    assert_eq!(CopyNode.kind(), "copy");
}

#[test]
fn kind_returns_move() {
    assert_eq!(MoveNode.kind(), "move");
}

#[test]
fn kind_returns_rename() {
    assert_eq!(RenameNode.kind(), "rename");
}

#[test]
fn kind_returns_transcode() {
    assert_eq!(TranscodeNode.kind(), "transcode");
}

#[test]
fn kind_returns_webhook() {
    assert_eq!(WebhookNode.kind(), "webhook");
}

#[test]
fn h265_1080p_preset_returns_libx265_codec_chain() {
    let args = ffmpeg_args_for_preset("h265_1080p").unwrap();
    assert!(args.contains(&"libx265"), "preset must use libx265 codec");
    assert!(args.contains(&"scale=-2:1080"), "preset must scale to 1080p");
    assert!(args.contains(&"aac"), "preset must transcode audio to aac");
    let crf_idx = args.iter().position(|a| *a == "-crf").expect("missing -crf flag");
    assert!(crf_idx + 1 < args.len(), "-crf must be followed by a value");
}

#[test]
fn unknown_preset_errors_with_preset_name_in_message() {
    let err = ffmpeg_args_for_preset("h264_potato").unwrap_err();
    let msg = err.to_string();
    assert!(msg.contains("unknown preset"));
    assert!(msg.contains("h264_potato"));
}

#[test]
fn ffmpeg_args_are_pairs_of_flag_and_value() {
    let args = ffmpeg_args_for_preset("h265_1080p").unwrap();
    let mut i = 0;
    while i < args.len() {
        if args[i].starts_with('-') {
            assert!(i + 1 < args.len(), "flag {} has no value", args[i]);
            i += 2;
        } else {
            i += 1;
        }
    }
}

#[test]
fn ffmpeg_args_exact_chain() {
    let args = ffmpeg_args_for_preset("h265_1080p").unwrap();
    assert_eq!(
        args,
        vec!["-c:v", "libx265", "-crf", "28", "-preset", "medium", "-vf", "scale=-2:1080", "-c:a", "aac", "-b:a", "128k"]
    );
    assert_eq!(ffmpeg_args_for_preset("").unwrap_err(), "transcode node: unknown preset ''");
}

#[test]
fn expand_home_passes_through_when_not_tilde_prefixed() {
    let p = expand_home("/absolute/path");
    assert_eq!(PathBuf::from(p), PathBuf::from("/absolute/path"));
}

#[test]
fn expand_home_replaces_tilde_with_home_dir() {
    if let Some(home) = dirs::home_dir() {
        let p = expand_home("~/Draction/Photos");
        assert_eq!(PathBuf::from(p), home.join("Draction/Photos"));
    }
}

#[test]
fn expand_home_with_given_home() {
    assert_eq!(expand_home_with("~/a/b", Some("/home/u")), "/home/u/a/b");
    assert_eq!(expand_home_with("~/a/b", Some("/home/u/")), "/home/u/a/b");
    assert_eq!(expand_home_with("~/a/b", None), "~/a/b");
    assert_eq!(expand_home_with("~x/a", Some("/home/u")), "~x/a");
}

#[test]
fn copy_node_missing_dest_param_returns_error() {
    let err = CopyNode.plan(&ctx("/tmp/a.txt"), &JsonValue::Object(vec![]), true).err().unwrap();
    assert!(err.contains("'dest'"));
    assert_eq!(err, "copy node: missing 'dest' param");
}

#[test]
fn copy_node_missing_source_returns_error() {
    let err = CopyNode.plan(&ctx("/tmp/nope.bin"), &obj(&[("dest", "/tmp/out")]), false).err().unwrap();
    assert!(err.contains("source file not found"));
    assert_eq!(err, "source file not found: /tmp/nope.bin");
}

#[test]
fn copy_places_file_under_its_name() {
    let t = copy_transfer(&ctx("/in/note.md"), &obj(&[("dest", "/out/docs")]), None, true).ok().unwrap();
    assert_eq!(t.src, "/in/note.md");
    assert_eq!(t.dest_dir, "/out/docs");
    assert_eq!(t.dest_file, "/out/docs/note.md");
}

#[test]
fn copy_tilde_without_home_is_refused() {
    let err = copy_transfer(&ctx("/in/a"), &obj(&[("dest", "~/x")]), None, true).err().unwrap();
    assert_eq!(err, "cannot resolve home dir");
    let t = copy_transfer(&ctx("/in/a"), &obj(&[("dest", "~/x")]), Some("/h"), true).ok().unwrap();
    assert_eq!(t.dest_file, "/h/x/a");
}

#[test]
fn move_node_missing_dest_param_returns_error() {
    let err = MoveNode.plan(&ctx("/tmp/a.txt"), &JsonValue::Object(vec![]), true).err().unwrap();
    assert!(err.contains("'dest'"));
}

#[test]
fn move_node_missing_source_returns_error() {
    let err = MoveNode.plan(&ctx("/tmp/ghost.txt"), &obj(&[("dest", "/tmp/d")]), false).err().unwrap();
    assert!(err.contains("source file not found"));
}

#[test]
fn move_tilde_without_home_is_taken_literally() {
    let t = move_transfer(&ctx("/in/hello.txt"), &obj(&[("dest", "~/Photos")]), None, true).ok().unwrap();
    assert_eq!(t.dest_file, "~/Photos/hello.txt");
}

#[test]
fn rename_node_missing_source_returns_error() {
    let err = RenameNode.plan(&ctx("/tmp/missing.txt"), &JsonValue::Object(vec![]), false, "2024-01-02").err().unwrap();
    assert!(err.contains("source file not found"));
}

#[test]
fn rename_default_pattern_keeps_name() {
    let p = rename_target(&ctx("/d/doc.txt"), &JsonValue::Object(vec![]), true, "2024-01-02").ok().unwrap();
    assert_eq!(p, "/d/doc.txt");
}

#[test]
fn rename_substitutes_tokens() {
    let params = obj(&[("pattern", "renamed_{name}.{ext}")]);
    assert_eq!(rename_target(&ctx("/d/photo.JPG"), &params, true, "2024-01-02").ok().unwrap(), "/d/renamed_photo.JPG");
    let params = obj(&[("pattern", "{date}_{name}.{ext}")]);
    assert_eq!(rename_target(&ctx("/d/scan.pdf"), &params, true, "2024-01-02").ok().unwrap(), "/d/2024-01-02_scan.pdf");
    assert_eq!(rename_target(&ctx("scan.pdf"), &params, true, "2024-01-02").ok().unwrap(), "2024-01-02_scan.pdf");
}

#[test]
fn rename_plan_uses_todays_date() {
    let params = obj(&[("pattern", "{date}_{name}.{ext}")]);
    let today = chrono::Local::now().format("%Y-%m-%d").to_string();
    let p = RenameNode.plan(&ctx("/d/scan.pdf"), &params, true, &today).ok().unwrap();
    assert_eq!(p, format!("/d/{today}_scan.pdf"));
    assert!(p.starts_with("/d/"));
    assert!(p.ends_with("_scan.pdf"));
    assert_eq!(p.len(), "/d/YYYY-MM-DD_scan.pdf".len());
    let date = &p[3..13];
    assert!(date.chars().enumerate().all(|(i, c)| if i == 4 || i == 7 { c == '-' } else { c.is_ascii_digit() }));
}

#[test]
fn transcode_output_paths() {
    let job = transcode_job(&ctx("/v/clip.mov"), &JsonValue::Object(vec![]), true, true).ok().unwrap();
    assert_eq!(job.output, "/v/clip.mp4");
    assert_eq!(job.args.first().unwrap(), "-i");
    assert_eq!(job.args[1], "/v/clip.mov");
    assert_eq!(job.args[job.args.len() - 2], "-y");
    assert_eq!(job.args.last().unwrap(), "/v/clip.mp4");
    assert_eq!(job.args.len(), 16);
    let job = transcode_job(&ctx("/v/clip.MP4"), &JsonValue::Object(vec![]), true, true).ok().unwrap();
    assert_eq!(job.output, "/v/clip_transcoded.mp4");
}

#[test]
fn transcode_errors_in_order() {
    let bad = obj(&[("preset", "h264_potato")]);
    let e = transcode_job(&ctx("/v/a.mov"), &bad, false, false).err().unwrap();
    assert_eq!(e, "transcode node: ffmpeg is not installed or not in PATH");
    let e = transcode_job(&ctx("/v/a.mov"), &bad, true, false).err().unwrap();
    assert_eq!(e, "source file not found: /v/a.mov");
    let e = transcode_job(&ctx("/v/a.mov"), &bad, true, true).err().unwrap();
    assert_eq!(e, "transcode node: unknown preset 'h264_potato'");
}

#[test]
fn missing_url_param_errors_without_network_call() {
    let err = WebhookNode.request(&ctx("/tmp/x"), &JsonValue::Object(vec![])).err().unwrap();
    assert!(err.contains("'url'"));
}

#[test]
fn webhook_request_body_and_answers() {
    let c = NodeContext { run_id: "run-x".to_string(), event_id: "evt-y".to_string(), work_dir: "/tmp/file.txt".to_string() };
    let req = WebhookNode.request(&c, &obj(&[("url", "http://h/hook")])).ok().unwrap();
    assert_eq!(req.url, "http://h/hook");
    match req.body {
        JsonValue::Object(fields) => {
            assert_eq!(fields.len(), 3);
            assert_eq!(fields[0].0, "run_id");
            assert!(matches!(&fields[0].1, JsonValue::Str(s) if s == "run-x"));
            assert!(matches!(&fields[1].1, JsonValue::Str(s) if s == "evt-y"));
            assert!(matches!(&fields[2].1, JsonValue::Str(s) if s == "/tmp/file.txt"));
        },
        _ => panic!("body must be an object"),
    }
    let out = WebhookNode.finish("http://h/hook", Ok((200, "200 OK".to_string()))).ok().unwrap();
    assert_eq!(out.artifacts[0].kind, "link");
    assert_eq!(out.artifacts[0].url.as_deref(), Some("http://h/hook"));
    let err = WebhookNode.finish("u", Ok((500, "500 Internal Server Error".to_string()))).err().unwrap();
    assert!(err.contains("non-2xx"));
    assert!(err.contains("500"));
    let err = WebhookNode.finish("u", Err("connection refused".to_string())).err().unwrap();
    assert_eq!(err, "webhook POST failed: connection refused");
}

#[test]
fn file_output_is_one_file_artifact() {
    let out = file_output("/a/b".to_string());
    assert_eq!(out.artifacts.len(), 1);
    assert_eq!(out.artifacts[0].kind, "file");
    assert_eq!(out.artifacts[0].path.as_deref(), Some("/a/b"));
    assert!(out.artifacts[0].url.is_none());
}

struct StubNode;

fn stub(kind: &'static str) -> NamedNode<StubNode> {
    NamedNode { kind, executor: StubNode }
}

#[test]
fn register_then_get_returns_the_same_executor_kind() {
    let mut reg = NodeRegistry::new();
    reg.register(stub("stub"));
    let exec = reg.get("stub").expect("registered kind must resolve");
    assert_eq!(exec.kind(), "stub");
}

#[test]
fn get_unknown_kind_returns_descriptive_error() {
    let reg: NodeRegistry<NamedNode<StubNode>> = NodeRegistry::new();
    let err = match reg.get("missing") {
        Ok(_) => panic!("expected unknown-kind error"),
        Err(e) => e,
    };
    assert!(err.to_string().contains("unknown node type"));
    assert!(err.to_string().contains("missing"));
}

#[test]
fn re_registering_same_kind_overwrites_previous() {
    let mut reg = NodeRegistry::new();
    reg.register(stub("dup"));
    reg.register(stub("dup"));
    assert!(reg.get("dup").is_ok());
}

#[test]
fn default_registry_serves_every_builtin_kind() {
    let reg = default_registry();
    for kind in ["move", "copy", "rename", "transcode", "webhook"] {
        let e: &BuiltinNode = reg.get(kind).ok().unwrap();
        assert_eq!(e.kind(), kind);
    }
    assert_eq!(reg.get("teleport").err().unwrap(), "unknown node type: teleport");
}
