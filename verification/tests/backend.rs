use dsh_desktop::backend::{
    boot_manifest_ready, config_for_platform, default_config_for_platform, exited_message,
    installing_plugin_message, log_tail, not_ready_message, plugin_command_log,
    plugin_outcome_log, poll_step, ready_candidate, record_plugin_outcome, starter_plugin_done,
    PluginOutcome, PollAction, READY_DEADLINE_MS,
};
use dsh_desktop::config::{DshConfig, LaunchMode};

#[test]
fn platform_defaults() {
    assert_eq!(default_config_for_platform("linux").launch_mode, LaunchMode::Local);
    assert_eq!(default_config_for_platform("ios").launch_mode, LaunchMode::Connect);
    let cfg = config_for_platform(DshConfig::default(), "android");
    assert_eq!(cfg.launch_mode, LaunchMode::Connect);
    assert_eq!(cfg.port, 3080);
}

#[test]
fn candidate_url_while_starting() {
    let cfg = DshConfig::default();
    assert_eq!(ready_candidate(Some("http://x:1".into()), &cfg).as_deref(), Some("http://x:1"));
    assert_eq!(ready_candidate(None, &cfg).as_deref(), Some("http://127.0.0.1:3080/"));
    let zero = DshConfig { port: 0, ..DshConfig::default() };
    assert!(ready_candidate(None, &zero).is_none());
}

#[test]
fn log_tail_keeps_last_twelve_lines() {
    assert_eq!(log_tail(&vec![]), "");
    assert_eq!(log_tail(&vec!["a".into(), "b".into()]), "\na\nb");
    let lines: Vec<String> = (0..15).map(|i| i.to_string()).collect();
    assert_eq!(log_tail(&lines), "\n3\n4\n5\n6\n7\n8\n9\n10\n11\n12\n13\n14");
    assert_eq!(not_ready_message(&vec!["x".into()]), "dsh web did not become ready within 90s.\nx");
    assert_eq!(exited_message("exit status: 1", &vec![]), "dsh web exited (exit status: 1) before it was ready.");
}

#[test]
fn boot_manifest_needs_connection_and_typert() {
    assert!(boot_manifest_ready("<script>window.__DSH_BOOT__={\"connection\":1,\"typert\":2}</script>"));
    assert!(!boot_manifest_ready("<script>window.__DSH_BOOT__={\"connection\":1}</script>"));
    assert!(!boot_manifest_ready("<html></html>"));
}

#[test]
fn starter_plugin_bookkeeping() {
    assert_eq!(installing_plugin_message(0), "Installing plugin 1/4: dsh-web-ui");
    assert_eq!(installing_plugin_message(3), "Installing plugin 4/4: dsh-visualize");
    assert_eq!(
        plugin_command_log("github:a/b"),
        "$ dsh plugin --profile web add github:a/b"
    );
    let mut done: Vec<String> = Vec::new();
    assert!(!starter_plugin_done(&done, "github:a/b"));
    assert!(!record_plugin_outcome(&mut done, "github:a/b", &PluginOutcome::TimedOut));
    assert!(done.is_empty());
    assert!(!record_plugin_outcome(&mut done, "github:a/b", &PluginOutcome::Failed("network timeout".into())));
    assert!(record_plugin_outcome(&mut done, "github:a/b", &PluginOutcome::Failed("Already installed".into())));
    assert!(record_plugin_outcome(&mut done, "github:c/d", &PluginOutcome::Installed));
    assert_eq!(done, vec!["github:a/b".to_string(), "github:c/d".to_string()]);
    assert!(starter_plugin_done(&done, "github:c/d"));
    assert_eq!(
        plugin_outcome_log("ui", &PluginOutcome::Failed("boom".into())).as_deref(),
        Some("plugin ui: boom")
    );
    assert_eq!(plugin_outcome_log("ui", &PluginOutcome::TimedOut).as_deref(), Some("plugin ui: timed out"));
    assert!(plugin_outcome_log("ui", &PluginOutcome::Installed).is_none());
}

const READY_PAGE: &str = "<script>window.__DSH_BOOT__={\"connection\":1,\"typert\":2}</script>";

#[test]
fn poll_step_stops_when_the_process_exits() {
    let lines = vec!["boom".to_string()];
    let step = poll_step(10, Some("exit status: 1".into()), &lines, None, Some(READY_PAGE.into()), false, &DshConfig::default());
    match step {
        PollAction::Exited(message) => {
            assert_eq!(message, "dsh web exited (exit status: 1) before it was ready.\nboom")
        }
        other => panic!("unexpected {other:?}"),
    }
}

#[test]
fn poll_step_accepts_a_ready_boot_graph() {
    let config = DshConfig::default();
    match poll_step(500, None, &vec![], None, Some(READY_PAGE.into()), false, &config) {
        PollAction::Ready(url) => assert_eq!(url, "http://127.0.0.1:3080/"),
        other => panic!("unexpected {other:?}"),
    }
    match poll_step(500, None, &vec![], Some("http://127.0.0.1:4555/".into()), Some(READY_PAGE.into()), true, &config) {
        PollAction::Ready(url) => assert_eq!(url, "http://127.0.0.1:4555/"),
        other => panic!("unexpected {other:?}"),
    }
}

#[test]
fn poll_step_waits_announces_once_and_times_out() {
    let config = DshConfig::default();
    let partial = Some("<script>window.__DSH_BOOT__={\"connection\":1}</script>".to_string());
    assert!(matches!(
        poll_step(200, None, &vec![], None, partial.clone(), false, &config),
        PollAction::Wait { announce_waiting: true }
    ));
    assert!(matches!(
        poll_step(400, None, &vec![], None, partial.clone(), true, &config),
        PollAction::Wait { announce_waiting: false }
    ));
    assert!(matches!(
        poll_step(400, None, &vec![], None, None, false, &config),
        PollAction::Wait { announce_waiting: false }
    ));
    match poll_step(READY_DEADLINE_MS, None, &vec!["a".into()], None, partial, false, &config) {
        PollAction::TimedOut { announce_waiting, message } => {
            assert!(announce_waiting);
            assert_eq!(message, "dsh web did not become ready within 90s.\na");
        }
        other => panic!("unexpected {other:?}"),
    }
    let zero = DshConfig { port: 0, ..DshConfig::default() };
    assert!(matches!(
        poll_step(READY_DEADLINE_MS - 1, None, &vec![], None, Some(READY_PAGE.into()), false, &zero),
        PollAction::Wait { announce_waiting: false }
    ));
    assert_eq!(READY_DEADLINE_MS, 90_000);
}
