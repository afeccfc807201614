//! The setup of a node, the start of the daemon and the command line.

use asmi::bridge::{freed_interfaces, new_ips, plan_removal, plan_restore, plan_steps,
    removal_status, restore_refusal, step_done, Removal};
use asmi::cli::{
    check_hosts, choose_hosts, commands, correlate_device, deploy_goes_on, describe_processes,
    device_counts, format_backend, format_row, format_uptime, health_urls, outcome_word,
    plan_deploy, run_on_node, status_line, targets, DaemonAction, RdmaLink, Row, ShownProcess,
};
use asmi::serve::ServeState;
use asmi::setup::{
    address_line, autossh_path, autossh_step, binary_step, bridge_outcome, bridge_step,
    closing_lines, config_step, connection_file, connection_line, connection_plist,
    connection_step, daemon_plist, distribute_step, health_lines, judge_start, key_check_command,
    key_line, key_step, mux_settings, mux_step, needs_key, opening_line, plist_step,
    removal_warning, seeded_line, service_line, start_step, step, sudo_line, sudo_step,
    sudoers_rules, DaemonStart, KeyPush,
};
use asmi::startup::{
    banner_lines, bin_name, choose_name, enrich_processes, followed_nodes, listen_address,
    model_dirs, resolve_name, SeenProcess, ServerModel,
};

fn text(s: &str) -> String {
    s.to_string()
}

fn texts(names: &[&str]) -> Vec<String> {
    names.iter().map(|n| n.to_string()).collect()
}

#[test]
fn steps_are_told_in_columns() {
    assert_eq!(step("ssh", "hello"), "[     ssh] hello");
    assert_eq!(step("longer-than", "x"), "[longer-than] x");
}

#[test]
fn the_bridge_is_destroyed_unless_told_otherwise() {
    let members = texts(&["en1", "en2"]);
    let s = bridge_step(&members, false, false);
    assert_eq!(s.line, "[ bridge0] Destroying Thunderbolt Bridge (freeing en1, en2)");
    assert!(s.act);
    assert!(!bridge_step(&members, false, true).act);
    let skipped = bridge_step(&members, true, false);
    assert_eq!(
        skipped.line,
        "[ bridge0] Thunderbolt Bridge found (members: en1, en2), but --skip-bridge0 set"
    );
    assert!(!skipped.act);
    let none = bridge_step(&vec![], false, false);
    assert_eq!(none.line, "[ bridge0] No Thunderbolt Bridge detected — skipping");
    assert_eq!(removal_warning(false, "Does Not Exist"), None);
    assert_eq!(
        removal_warning(false, " bad \n").as_deref(),
        Some("  ⚠ PlistBuddy warning: bad")
    );
    assert_eq!(removal_warning(true, "bad"), None);
    assert_eq!(service_line("en1"), "  Created service: r1o TB en1");
    assert_eq!(address_line("en1", "169.254.1.1"), "  en1: 169.254.1.1");
    assert_eq!(bridge_outcome(false), "  ✓ bridge0 destroyed");
}

#[test]
fn the_bridge_is_taken_apart_and_put_together() {
    let out = "bridge0: flags=8863\n\tmember: en1 flags=3\n\tmember: en2 flags=3\n";
    let members = match plan_removal(&Some(text(out))) {
        Removal::Free(m) => m,
        _ => vec![],
    };
    assert_eq!(members, texts(&["en1", "en2"]));
    let steps = plan_steps(&members);
    let names: Vec<&str> = steps.iter().map(|s| s.name.as_str()).collect();
    assert_eq!(
        names,
        vec![
            "remove_plist",
            "create_service_en1",
            "create_service_en2",
            "restart_configd",
            "wait_ipv4ll"
        ]
    );
    assert!(!step_done(&steps[0], false));
    assert!(step_done(&steps[3], false));
    assert_eq!(new_ips("\tinet 169.254.3.4 netmask 0xffff0000\n"), texts(&["169.254.3.4"]));
    assert_eq!(removal_status(false), "partial");
    assert!(plan_removal(&None).message().is_some());
    let ifaces = freed_interfaces("Wi-Fi\nr1o TB en1\nr1o TB en2\n");
    assert_eq!(ifaces, members);
    assert!(restore_refusal(true, &ifaces).is_some());
    assert!(restore_refusal(false, &vec![]).is_some());
    assert!(restore_refusal(false, &ifaces).is_none());
    assert!(plan_restore(&ifaces).len() > ifaces.len());
}

#[test]
fn nodes_and_keys() {
    assert_eq!(config_step(true, "/c", false).line, "[  config] NodeMap already exists at /c");
    assert!(config_step(false, "/c", false).act);
    assert_eq!(
        seeded_line(&texts(&["a", "b"])),
        "  Registered 2 nodes: a, b"
    );
    assert_eq!(
        seeded_line(&vec![]),
        "  ⚠ No nodes found — create ~/.r1o/cluster.json first"
    );
    assert!(!key_step(true, false).act);
    assert!(key_step(false, false).act);
    assert!(distribute_step(&vec![], true, false).is_none());
    let d = distribute_step(&texts(&["a", "b"]), true, false).unwrap();
    assert_eq!((d.line.as_str(), d.act), ("[     ssh] Distributing key to 2 nodes", true));
    assert!(!distribute_step(&texts(&["a"]), false, false).unwrap().act);
    assert_eq!(
        key_check_command(" KEY \n"),
        "grep -qF 'KEY' ~/.ssh/authorized_keys 2>/dev/null && echo exists || echo missing"
    );
    assert!(needs_key(&None));
    assert!(needs_key(&Some(text("missing\n"))));
    assert!(!needs_key(&Some(text("exists\n"))));
    assert_eq!(key_line("a", &KeyPush::Installed), "  a — key installed");
    assert_eq!(key_line("a", &KeyPush::Present), "  a — key already present");
    assert_eq!(
        key_line("a", &KeyPush::Failed),
        "  a — ssh-copy-id failed (may need manual setup)"
    );
}

#[test]
fn rules_of_the_user() {
    assert!(!sudo_step(true, "ma", false).act);
    assert_eq!(
        sudo_step(false, "ma", false).line,
        "[    sudo] Installing scoped NOPASSWD rules for ma"
    );
    assert_eq!(
        sudoers_rules("ma"),
        "# r1o/asmi — scoped passwordless sudo for cluster operations\n\
         ma ALL=(ALL) NOPASSWD: /usr/libexec/PlistBuddy\n\
         ma ALL=(ALL) NOPASSWD: /usr/sbin/networksetup\n\
         ma ALL=(ALL) NOPASSWD: /usr/bin/killall configd\n\
         ma ALL=(ALL) NOPASSWD: /usr/sbin/ipconfig\n\
         ma ALL=(ALL) NOPASSWD: /usr/bin/powermetrics\n\
         ma ALL=(ALL) NOPASSWD: /usr/sbin/systemsetup\n"
    );
    assert_eq!(sudo_line("/p", true, true), "  Installed /p (6 scoped rules)");
    assert_eq!(sudo_line("/p", true, false), "  ⚠ Failed to install sudoers file");
    assert_eq!(
        sudo_line("/p", false, true),
        "  ⚠ Sudoers syntax validation failed — skipping"
    );
}

#[test]
fn connections_are_shared_once() {
    assert!(mux_step("Host x\n", false).act);
    let settings = mux_settings("Host x\n");
    assert!(settings.starts_with("Host x\n\n# r1o cluster"));
    assert_eq!(
        settings,
        "Host x\n\n# r1o cluster — persistent SSH multiplexing\nHost *\nControlMaster auto\n\
         ControlPath /tmp/asmi-%r@%h:%p\nControlPersist 10m\nAddKeysToAgent yes\n\
         UseKeychain yes\nIdentityFile ~/.ssh/id_ed25519\nServerAliveInterval 30\n\
         ServerAliveCountMax 3\n"
    );
    assert!(!mux_step(&settings, false).act);
}

#[test]
fn connections_last() {
    assert!(!autossh_step(&vec![], false, false).act);
    assert!(autossh_step(&texts(&["a"]), false, false).act);
    assert!(!autossh_step(&texts(&["a"]), true, false).act);
    assert_eq!(autossh_path(&None), "/opt/homebrew/bin/autossh");
    assert_eq!(autossh_path(&Some(text(" /x \n"))), "/x");
    assert_eq!(connection_file("m3u2"), "com.r1o.autossh.m3u2.plist");
    assert_eq!(connection_step("m3u2", true, false).line, "  [autossh] m3u2 — plist exists");
    assert!(connection_step("m3u2", false, false).act);
    let plist = connection_plist("/x/autossh", "ma", "m3u2");
    assert!(plist.contains("<string>com.r1o.autossh.m3u2</string>"));
    assert!(plist.contains("        <string>ControlPath=/tmp/asmi-ma@m3u2:22</string>\n"));
    assert!(plist.contains("        <string>ma@m3u2</string>\n    </array>"));
    assert!(plist.ends_with("</dict>\n</plist>"));
    assert_eq!(
        connection_line("ma", "m3u2"),
        "  m3u2 — autossh agent started (mux: /tmp/asmi-ma@m3u2:22)"
    );
}

#[test]
fn the_daemon_is_described() {
    let plist = daemon_plist("/Users/ma/.cargo/bin/asmi", 9090, true, "/l.log");
    assert_eq!(
        plist,
        r#"<?xml version="1.0" encoding="UTF-8"?>
<!DOCTYPE plist PUBLIC "-//Apple//DTD PLIST 1.0//EN" "http://www.apple.com/DTDs/PropertyList-1.0.dtd">
<plist version="1.0">
<dict>
    <key>Label</key>
    <string>com.asmi.daemon</string>
    <key>ProgramArguments</key>
    <array>
        <string>/Users/ma/.cargo/bin/asmi</string>
        <string>--serve</string>
        <string>--port</string>
        <string>9090</string>
        <string>--cluster</string>
    </array>
    <key>RunAtLoad</key><true/>
    <key>KeepAlive</key><true/>
    <key>ThrottleInterval</key><integer>5</integer>
    <key>StandardOutPath</key>
    <string>/l.log</string>
    <key>StandardErrorPath</key>
    <string>/l.log</string>
</dict>
</plist>"#
    );
    assert!(!daemon_plist("/x", 9090, false, "/l").contains("--cluster"));
    assert!(!binary_step(true, "/x", false).act);
    assert_eq!(binary_step(false, "/x", false).line, "[  binary] Installing to /x");
    assert_eq!(plist_step("/p", true).line, "[   plist] Writing /p");
    assert!(start_step(false).act);
}

#[test]
fn the_daemon_is_started() {
    assert!(matches!(judge_start(true, "already loaded"), DaemonStart::Started));
    assert!(matches!(judge_start(false, "service already loaded"), DaemonStart::Restart));
    let failed = judge_start(false, " boom\n");
    assert_eq!(failed.line(9090), "  ⚠ launchctl bootstrap failed: boom");
    assert_eq!(DaemonStart::Started.line(9090), "  Daemon started on port 9090");
    assert_eq!(DaemonStart::Restart.line(9090), "  Daemon restarted on port 9090");
    assert_eq!(health_lines(&Some(text(" ok \n")), 9090, "/l"), texts(&["  ✓ ok"]));
    assert_eq!(
        health_lines(&None, 9090, "/l"),
        texts(&[
            "  ⚠ Daemon not responding on port 9090 — check logs:",
            "    tail -20 /l"
        ])
    );
    assert_eq!(opening_line("hub"), "asmi setup — configuring hub for r1o");
    let end = closing_lines(false, 9090, &texts(&["en1"]), false);
    assert_eq!(end[0], "Setup complete. asmi is running on port 9090.");
    assert_eq!(end[1], "  Thunderbolt Bridge removed — RDMA interfaces freed.");
    assert_eq!(end.len(), 8);
    assert_eq!(
        closing_lines(true, 9090, &vec![], false),
        texts(&["Dry run complete. Re-run without --dry-run to apply."])
    );
}

#[test]
fn names_of_nodes() {
    let system = Some(text("Mac\n"));
    assert_eq!(resolve_name(&Some(text("M3U2\n")), &system), "m3u2");
    assert_eq!(resolve_name(&Some(text(" \n")), &system), "Mac");
    assert_eq!(resolve_name(&None, &None), "unknown");
    assert_eq!(choose_name(Some(text("x")), &None), "x");
    assert_eq!(bin_name(&Some(text("/usr/local/bin/asmi-x"))), "asmi-x");
    assert_eq!(bin_name(&None), "asmi");
    assert_eq!(followed_nodes(false, &texts(&["a"]), "b"), None);
    assert_eq!(followed_nodes(true, &vec![], "b"), None);
    assert_eq!(followed_nodes(true, &texts(&["a", "b"]), "b"), Some(texts(&["a"])));
    assert_eq!(model_dirs(vec![], texts(&["/m"])), texts(&["/m"]));
    assert_eq!(model_dirs(texts(&["/x"]), texts(&["/m"])), texts(&["/x"]));
    assert_eq!(listen_address(9090), "0.0.0.0:9090");
}

#[test]
fn processes_get_the_models_of_their_servers() {
    let mut ps = vec![
        SeenProcess { port: Some(1), model: None },
        SeenProcess { port: Some(1), model: Some(text("kept")) },
        SeenProcess { port: Some(2), model: None },
        SeenProcess { port: None, model: None },
    ];
    let servers = vec![
        ServerModel { port: 1, state: ServeState::Ready, model: Some(text("/m/Qwen//")) },
        ServerModel { port: 2, state: ServeState::Error, model: Some(text("/m/x")) },
    ];
    enrich_processes(&mut ps, &servers);
    assert_eq!(ps[0].model.as_deref(), Some("Qwen"));
    assert_eq!(ps[1].model.as_deref(), Some("kept"));
    assert_eq!(ps[2].model, None);
    assert_eq!(ps[3].model, None);
}

#[test]
fn the_daemon_says_where_it_is() {
    let ports = vec![(19080, text("mlx_lm")), (19084, text("mlx_vlm"))];
    let lines = banner_lines("asmi", "hub", 9090, true, &ports);
    assert_eq!(lines[0], "asmi cluster hub: http://hub:9090");
    assert_eq!(lines[23], "  Managed ports: 19080(mlx_lm), 19084(mlx_vlm)");
    assert_eq!(lines.len(), 31);
    let plain = banner_lines("asmi", "hub", 9090, false, &ports);
    assert_eq!(plain[0], "asmi daemon: http://hub:9090");
    assert_eq!(plain.len(), 24);
}

#[test]
fn hosts_that_are_meant() {
    assert_eq!(choose_hosts(texts(&["a"]), texts(&["b"])), texts(&["a"]));
    assert_eq!(choose_hosts(vec![], texts(&["b"])), texts(&["b"]));
    assert!(check_hosts(&texts(&["a"])).is_ok());
    assert_eq!(
        check_hosts(&vec![]),
        Err(text(
            "No hosts specified. Use --hosts or configure nodes in ~/.config/asmi/config.json"
        ))
    );
    let known = texts(&["a", "b"]);
    assert_eq!(targets(&known, &None), known);
    assert_eq!(targets(&known, &Some(text("all"))), known);
    assert_eq!(targets(&known, &Some(text("b"))), texts(&["b"]));
    assert_eq!(targets(&known, &Some(text("c"))), Vec::<String>::new());
}

#[test]
fn a_device_is_noted_once() {
    let mut links = vec![RdmaLink {
        local_interface: text("en4"),
        local_ip: text("169.254.1.1"),
        remote_ip: text("169.254.1.2"),
        remote_hostname: text("m3u2"),
        rdma_device: None,
        port_state: None,
    }];
    assert!(!correlate_device(&mut links, "en5", "rdma_en5", "Active"));
    assert!(correlate_device(&mut links, "en4", "rdma_en4", "Active"));
    assert_eq!(links[0].rdma_device.as_deref(), Some("rdma_en4"));
    assert!(!correlate_device(&mut links, "en4", "rdma_en4", "Active"));
    assert!(correlate_device(&mut links, "en4", "rdma_en4", "Down"));
}

#[test]
fn rows_of_the_table() {
    assert_eq!(format_backend(&Some(text("jaccl"))), "[jaccl]");
    assert_eq!(format_backend(&None), "[local]");
    let ps = vec![
        ShownProcess {
            served: Some(text("org/Qwen")),
            model: Some(text("/m/x")),
            port: Some(19080),
            backend: Some(text("jaccl")),
        },
        ShownProcess { served: None, model: None, port: None, backend: None },
    ];
    assert_eq!(describe_processes(&ps), "Qwen:19080 [jaccl], no model [local]");
    assert_eq!(describe_processes(&vec![]), "--");
    assert_eq!(device_counts(Some((2, 6))), "2/6");
    assert_eq!(device_counts(None), "--");
    let row = Row {
        name: text("hub"),
        speed: None,
        cpu: text("12"),
        gpu: text("3"),
        ram_used: text("40"),
        ram_total: text("512"),
        cache: text("7"),
        watts: text("55.5"),
        devices: text("2/6"),
        processes: text("--"),
    };
    assert_eq!(
        format_row(&row),
        format!(
            "| {:<10} {:<10} {:>4}% {:>4}% {:>4}/{:<4}GB {:<7} {:>5}W  {:<6} {:<17} |",
            "hub", "--", "12", "3", "40", "512", "7G", "55.5", "2/6", "--"
        )
    );
}

#[test]
fn daemons_are_managed() {
    let start = "launchctl bootstrap gui/$(id -u) ~/Library/LaunchAgents/com.asmi.daemon.plist";
    let stop = "launchctl bootout gui/$(id -u) ~/Library/LaunchAgents/com.asmi.daemon.plist";
    assert_eq!(commands(&DaemonAction::Restart), texts(&[stop, start]));
    assert_eq!(commands(&DaemonAction::Start), texts(&[start]));
    assert_eq!(commands(&DaemonAction::Stop), texts(&[stop]));
    assert_eq!(
        commands(&DaemonAction::Logs),
        texts(&["tail -50 ~/Library/Logs/asmi-daemon.log"])
    );
    assert!(commands(&DaemonAction::Status).is_empty());
    assert_eq!(outcome_word(&DaemonAction::Start, false), "already running (or error)");
    assert_eq!(outcome_word(&DaemonAction::Deploy, false), "FAILED");
    assert_eq!(outcome_word(&DaemonAction::Restart, true), "restarted");
    assert_eq!(run_on_node("hub", "hub", "ls", 5), texts(&["sh", "-c", "ls"]));
    assert_eq!(
        run_on_node("m3u2", "hub", "ls", 3),
        texts(&["ssh", "-o", "ConnectTimeout=3", "m3u2", "ls"])
    );
    let deploy = plan_deploy("/b/asmi", "/p.plist", "m3u2");
    assert_eq!(deploy[0][4], "m3u2:~/.cargo/bin/asmi.new");
    assert_eq!(deploy[2][4], "m3u2:~/Library/LaunchAgents/");
    assert!(!deploy_goes_on(false, 1));
    assert!(deploy_goes_on(false, 2));
}

#[test]
fn daemons_are_asked() {
    assert_eq!(
        health_urls("m3u2", 9090),
        texts(&["http://m3u2:9090/health", "http://m3u2.local:9090/health"])
    );
    assert_eq!(format_uptime(3661), "1h01m");
    assert_eq!(format_uptime(59), "0m59s");
    assert_eq!(format_uptime(605), "10m05s");
    assert_eq!(status_line("hub", None), "  hub    \x1b[31m●\x1b[0m offline");
    assert_eq!(
        status_line("hub", Some(61)),
        "  hub    \x1b[32m●\x1b[0m online  (1m01s)"
    );
}
