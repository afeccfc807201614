//! Agents of `launchd`: what its outputs say, and which agents are left alone.

use asmi::launchd::{
    agent_plist, command_name, describe_unloaded, domain, guard_protected, judge_bootstrap,
    parse_launchctl_list, parse_launchctl_print, parse_print_disabled, target, LaunchdError,
    LaunchdState,
};

const LIST: &str = "PID\tStatus\tLabel\n53232\t0\tcom.asmi.daemon\n611\t0\tcom.apple.Finder\n-\t0\tcom.ma.graph-indexer\n-\t78\tcom.r1o.watchdog\n";

const PRINT: &str = "gui/501/com.asmi.daemon = {\n\tactive count = 1\n\tpath = /Users/ma/Library/LaunchAgents/com.asmi.daemon.plist\n\ttype = LaunchAgent\n\tstate = running\n\n\tprogram = /usr/local/bin/asmi\n\targuments = {\n\t\t/usr/local/bin/asmi\n\t\t--serve\n\t}\n\n\tproperties = keepalive | runatload | inferred program\n}\n";

const PRINT_DISABLED: &str = "gui/501/com.test.fixture1 = {\n\tstate = not running\n\tdisabled on keys = com.test.fixture1\n\tproperties = keepalive | inferred program\n}\n";

#[test]
fn parses_launchctl_list_into_pid_to_label_map() {
    let map = parse_launchctl_list(LIST);
    assert_eq!(
        map.get(&53232).map(|s| s.as_str()),
        Some("com.asmi.daemon"),
        "asmi daemon should map to PID 53232"
    );
    assert!(
        map.values().any(|v| v == "com.apple.Finder"),
        "Finder should appear with a numeric PID"
    );
}

#[test]
fn launchctl_list_skips_dash_pids() {
    let map = parse_launchctl_list(LIST);
    assert!(
        !map.values().any(|v| v == "com.ma.graph-indexer"),
        "rows with `-` PID must be filtered out"
    );
}

#[test]
fn parses_keep_alive_from_properties_line() {
    let info = parse_launchctl_print("com.asmi.daemon", PRINT);
    assert_eq!(info.label, "com.asmi.daemon");
    assert_eq!(info.keep_alive, Some(true), "properties contains `keepalive`");
    assert_eq!(info.run_at_load, Some(true), "properties contains `runatload`");
    assert_eq!(info.state, LaunchdState::Running);
    assert_eq!(info.program.as_deref(), Some("/usr/local/bin/asmi"));
}

#[test]
fn parses_disabled_state_from_disabled_on_keys() {
    let info = parse_launchctl_print("com.test.fixture1", PRINT_DISABLED);
    assert_eq!(info.state, LaunchdState::Disabled);
    assert_eq!(info.keep_alive, Some(true));
}

#[test]
fn parses_print_disabled_output() {
    let sample = r#"	disabled services = {
		"com.apple.SpeechRecognitionCore.speechrecognitiond" => disabled
		"com.microsoft.teams2.agent" => enabled
		"com.test.fixture1" => disabled
	}
"#;
    let map = parse_print_disabled(sample);
    assert_eq!(map.get("com.test.fixture1"), Some(true));
    assert_eq!(map.get("com.microsoft.teams2.agent"), Some(false));
    assert_eq!(map.len(), 3);
}

#[test]
fn guard_protected_rejects_asmi_prefix() {
    assert!(matches!(guard_protected("com.asmi.daemon"), Err(LaunchdError::Protected(_))));
    assert!(matches!(guard_protected("com.asmi.helper"), Err(LaunchdError::Protected(_))));
}

#[test]
fn guard_protected_rejects_r1o_watchdog() {
    assert!(matches!(guard_protected("com.r1o.watchdog"), Err(LaunchdError::Protected(_))));
}

#[test]
fn guard_protected_allows_user_labels() {
    assert!(guard_protected("com.test.fixture1").is_ok());
    assert!(guard_protected("com.example.mlx-server").is_ok());
}

#[test]
fn an_agent_that_is_not_loaded_is_disabled_or_unknown() {
    let out = "disabled services = {\n\t\"com.test.fixture1\" => disabled\n\t\"com.b\" => enabled\n}\n";
    let info = describe_unloaded("com.test.fixture1", out).unwrap();
    assert_eq!(info.state, LaunchdState::Disabled);
    assert!(describe_unloaded("com.other", out).is_none());
}

#[test]
fn errors_have_texts_and_codes() {
    assert_eq!(LaunchdError::Protected("com.asmi.daemon".to_string()).status(), 403);
    assert_eq!(LaunchdError::Timeout.status(), 500);
    let e = LaunchdError::NonZero {
        cmd: "enable".to_string(),
        code: -9,
        stderr: "boom".to_string(),
    };
    assert!(e.to_text().contains("-9"));
    assert!(e.to_text().contains("boom"));
    assert!(LaunchdError::Io("gone".to_string()).to_text().contains("gone"));
}

#[test]
fn an_agent_that_runs_already_is_started() {
    assert!(judge_bootstrap(Ok(())).is_ok());
    assert!(judge_bootstrap(Err(LaunchdError::Timeout)).is_err());
}

#[test]
fn names_of_agents() {
    assert_eq!(domain(501), "gui/501");
    assert_eq!(target(501, "com.x"), "gui/501/com.x");
    assert_eq!(
        agent_plist("/Users/ma", "com.x"),
        "/Users/ma/Library/LaunchAgents/com.x.plist"
    );
    assert_eq!(command_name(&Some("bootout".to_string())), "bootout");
}

#[test]
fn states_have_words() {
    assert_eq!(LaunchdState::Running.word(), "running");
    assert_eq!(LaunchdState::Waiting.word(), "waiting");
    assert_eq!(LaunchdState::Disabled.word(), "disabled");
}
