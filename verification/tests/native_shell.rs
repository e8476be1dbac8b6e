use draction::native_shell::{ShellAction, ShellMessage, ShellState, Tab};

#[test]
fn window_starts_empty() {
    let s = ShellState::new();
    assert!(!s.ready && !s.busy && !s.drop_hovering);
    assert_eq!(s.status, "");
    assert_eq!(s.active_tab, Tab::Runs);
    assert!(s.boot_error.is_none() && s.runs.is_empty() && s.rules.is_empty() && s.last_ingested.is_empty());
}

#[test]
fn drop_before_start_is_refused() {
    let mut s = ShellState::new();
    assert!(matches!(s.update(ShellMessage::Refresh), ShellAction::Nothing));
    assert!(matches!(s.update(ShellMessage::FileHovered), ShellAction::Nothing));
    assert!(s.drop_hovering);
    assert!(matches!(s.update(ShellMessage::FileDropped("/tmp/a.txt".into())), ShellAction::Nothing));
    assert!(!s.drop_hovering && !s.busy);
    assert_eq!(s.status, "Runtime is not ready yet");
}

#[test]
fn started_window_ingests_drops_and_reloads() {
    let mut s = ShellState::new();
    let a = s.update(ShellMessage::Bootstrapped(Ok((7777, "/home/u/Draction".into()))));
    assert!(matches!(a, ShellAction::LoadRunsAndRules));
    assert!(s.ready);
    assert_eq!(s.status, "Ready - API http://127.0.0.1:7777 - /home/u/Draction");
    s.update(ShellMessage::FileHovered);
    match s.update(ShellMessage::FileDropped("/tmp/a.txt".into())) {
        ShellAction::Ingest(p) => assert_eq!(p, "/tmp/a.txt"),
        _ => panic!("expected an ingest"),
    }
    assert!(s.busy && !s.drop_hovering);
    assert_eq!(s.status, "Processing 1 dropped item(s)...");
    assert!(matches!(s.update(ShellMessage::IngestFinished(Ok(vec![]))), ShellAction::LoadRunsAndRules));
    assert!(!s.busy);
    assert_eq!(s.status, "Processed 0 file(s)");
    assert!(matches!(s.update(ShellMessage::IngestFinished(Err("disk full".into()))), ShellAction::Nothing));
    assert_eq!(s.status, "Ingest failed: disk full");
    assert!(matches!(s.update(ShellMessage::Refresh), ShellAction::LoadRunsAndRules));
}

#[test]
fn failures_show_in_the_status_line() {
    let mut s = ShellState::new();
    s.update(ShellMessage::Bootstrapped(Err("no home".into())));
    assert_eq!(s.boot_error.as_deref(), Some("no home"));
    assert_eq!(s.status, "Boot failed: no home");
    s.update(ShellMessage::RunsLoaded(Err("db".into())));
    assert_eq!(s.status, "Failed to load runs: db");
    s.update(ShellMessage::RulesLoaded(Err("parse".into())));
    assert_eq!(s.status, "Failed to load rules: parse");
    s.update(ShellMessage::TabSelected(Tab::Rules));
    assert_eq!(s.active_tab, Tab::Rules);
    s.update(ShellMessage::OtherWindowEvent);
    assert_eq!(s.active_tab, Tab::Rules);
}
