//! What the daemon decides when it is asked: processes, logs, keys, servers,
//! devices, models and media.

use asmi::admin::{
    check_kill, choose_label, find_log, hermes_overdue, hermes_url, judge_kill, kill_command,
    kill_node, kills_here, line_count, read_configured_label, read_listener, read_process_line,
    resolve_mlx_label, tail, EndSignal, PeerIp,
};
use asmi::adopt::{
    check_load, check_share, count_strays, devices_file, framework_named, framework_to_engine,
    heartbeat_for_load,
    heartbeat_for_share, is_model_server_framework, plan_adoptions, reload_request, ring_file,
    sort_orphans, sort_servers, unknown_port, worker_log, HeartbeatAction, ProcessFramework,
    RunningProcess, ServerPlace,
};
use asmi::ane::AneState;
use asmi::api::{bad_request, internal, not_found};
use asmi::bench::{
    available_bytes, await_cooling, await_processes, build_list_script, fallen_by, indexing_on,
    is_desktop_chassis, keep_apps, kill_procs, memory_pages, on_ac, prep_action,
    processes_removed, quit_script, read_apps, GateReading, PrepAction, WaitStep,
};
use asmi::bonjour::{announced_host, announces_anew, instance_name, txt_records, TxtSnapshot};
use asmi::hardware::{
    build_tb_bus_map, describe_gpu, describe_port, find_driver, gpu_bus, gpu_vendor,
    has_port_zero, read_buses, read_gpus, version_and_device, RuntimeInfo,
};
use asmi::links::{
    alert_body, alert_title, link_event, link_interface, link_key, LinkEvent, SampleBuffer,
};
use asmi::json::parse;
use asmi::media::{
    artifact_name, daemon_candidates, daemon_offers, daemon_port, detail_of, env_base, job_id,
    job_result, job_state, judge_job, local_base, no_target, output_path, part_about, read_answer,
    read_health, resolve_base, safe_name,
    start_hint, unavailable, JobStep, MediaKind, Place, Seek, Target, TargetSearch,
};
use asmi::models::{
    canonical_nodes, collect_serving_map, is_local_node, match_serving, merge_models, model_urls,
    nodes_responded, normalize_model_id, read_listed, summarize_node, total_bytes, FoundServer,
    ManagedServer, ModelFile, NodeModels,
};
use asmi::serve::{ServeBackend, ServeEngine};

fn text(s: &str) -> String {
    s.to_string()
}

fn texts(names: &[&str]) -> Vec<String> {
    names.iter().map(|n| n.to_string()).collect()
}

#[test]
fn peers_that_are_trusted() {
    assert!(PeerIp::V4(127, 0, 0, 1).is_trusted_peer());
    assert!(PeerIp::V4(100, 64, 0, 1).is_trusted_peer());
    assert!(PeerIp::V4(100, 127, 255, 255).is_trusted_peer());
    assert!(!PeerIp::V4(100, 128, 0, 0).is_trusted_peer());
    assert!(!PeerIp::V4(10, 0, 0, 1).is_trusted_peer());
    assert!(PeerIp::V6 { loopback: true }.is_trusted_peer());
    assert!(!PeerIp::V6 { loopback: false }.is_trusted_peer());
    assert!(!PeerIp::V4(100, 64, 0, 1).is_local());
}

#[test]
fn processes_that_are_ended() {
    assert_eq!(check_kill(42, 7, "SIGKILL").unwrap(), EndSignal::Kill);
    assert_eq!(check_kill(42, 7, "term").unwrap(), EndSignal::Term);
    assert_eq!(check_kill(42, 7, "15").unwrap(), EndSignal::Term);
    let e = check_kill(1, 7, "term").unwrap_err();
    assert_eq!((e.status(), e.message().as_str()), (400, "refusing to kill PID 1 (system process)"));
    let e = check_kill(7, 7, "term").unwrap_err();
    assert_eq!(e.message(), "refusing to kill the asmi daemon itself");
    let e = check_kill(42, 7, "HUP").unwrap_err();
    assert_eq!(e.message(), "unsupported signal: hup (use 'term' or 'kill')");
    assert!(judge_kill(0, 7, "term").is_err());
    assert_eq!(kill_node(&None), "local");
    assert!(kills_here("local", "hub"));
    assert!(kills_here("hub", "hub"));
    assert!(!kills_here("m3u2", "hub"));
    assert_eq!(kill_command(EndSignal::Kill, 42), "kill -KILL 42");
    assert_eq!(EndSignal::Term.name(), "TERM");
}

#[test]
fn processes_on_ports() {
    assert_eq!(read_listener(" \n"), None);
    assert_eq!(read_listener("42\n43\n"), Some(42));
    assert_eq!(read_listener("x\n"), Some(0));
    let line = read_process_line(&Some(text("  PID %CPU RSS COMM\n 42 1.5 2048 /usr/bin/my app\n")));
    assert_eq!((line.rss_mb, line.name.as_str()), (2, "/usr/bin/my app"));
    assert_eq!(line.cpu.as_deref(), Some("1.5"));
    let none = read_process_line(&None);
    assert_eq!((none.rss_mb, none.name.as_str()), (0, "unknown"));
}

#[test]
fn logs_that_are_shown() {
    assert_eq!(find_log("vllm", "/Users/ma").unwrap(), "/tmp/r1o-vllm_mlx-server.log");
    assert_eq!(
        find_log("asmi", "/Users/ma").unwrap(),
        "/Users/ma/Library/Logs/asmi-daemon.log"
    );
    let e = find_log("x", "/Users/ma").unwrap_err();
    assert_eq!(
        e.message(),
        "unknown log name: x (known: mlx-server, mlx-vlm, vllm, asmi)"
    );
    assert_eq!(line_count(&None), 50);
    assert_eq!(line_count(&Some(text("7"))), 7);
    assert_eq!(line_count(&Some(text("9999"))), 500);
    assert_eq!(line_count(&Some(text("x"))), 50);
    assert_eq!(tail("a\nb\nc\n", 2), (texts(&["b", "c"]), 3));
}

#[test]
fn labels_of_model_servers() {
    let listed = Some(text("PID\tStatus\tLabel\n-\t0\tcom.r1o.mlx-lm\n"));
    assert_eq!(
        resolve_mlx_label(&Some(text(r#"{"mlx_label":"com.x"}"#)), &listed).as_deref(),
        Some("com.x")
    );
    assert_eq!(resolve_mlx_label(&None, &listed).as_deref(), Some("com.r1o.mlx-lm"));
    assert_eq!(read_configured_label(&Some(text(r#"{"mlx_label":""}"#))), None);
    assert_eq!(choose_label(None, &None), None);
    assert_eq!(hermes_url("/health"), "http://localhost:41104/health");
    assert!(hermes_overdue(15_000).is_none());
    assert_eq!(
        hermes_overdue(15_001).as_deref(),
        Some("hermes-api did not respond on :41104 within 15s after enable")
    );
}

fn process(pid: u32, port: Option<u16>, fw: ProcessFramework) -> RunningProcess {
    RunningProcess {
        pid,
        framework: fw,
        label: text("mlx"),
        port,
        server_models: texts(&["served"]),
        model: Some(text("parsed")),
    }
}

#[test]
fn processes_are_adopted() {
    let procs = vec![
        process(9, None, ProcessFramework::MlxLm),
        process(1, Some(19080), ProcessFramework::MlxLm),
        process(2, Some(4000), ProcessFramework::MlxVlm),
        process(3, Some(19080), ProcessFramework::Other),
        process(4, Some(19080), ProcessFramework::MlxLm),
        process(5, None, ProcessFramework::VllmMlx),
    ];
    let (adopted, orphans) = plan_adoptions(&vec![19080], &procs, &vec![4]);
    assert_eq!(adopted.len(), 2);
    assert_eq!((adopted[0].pid, adopted[0].new_manager), (1, false));
    assert_eq!((adopted[1].pid, adopted[1].new_manager), (2, true));
    assert_eq!(adopted[1].engine, ServeEngine::MlxVlm);
    assert_eq!(adopted[0].model.as_deref(), Some("served"));
    let sorted = sort_orphans(orphans);
    let pids: Vec<u32> = sorted.iter().map(|o| o.pid).collect();
    assert_eq!(pids, vec![5, 9]);
    assert_eq!(count_strays(&procs, &vec![4]), 4);
    assert_eq!(framework_to_engine(ProcessFramework::DFlashProc), ServeEngine::DFlash);
    assert!(is_model_server_framework(ProcessFramework::MlxAudio));
    assert!(!is_model_server_framework(ProcessFramework::Other));
    let places = sort_servers(vec![
        ServerPlace { port: 9, place: 0 },
        ServerPlace { port: 3, place: 1 },
    ]);
    assert_eq!(places[0].place, 1);
}

#[test]
fn requests_to_serve() {
    assert!(check_load(&None).is_ok());
    assert_eq!(
        check_load(&Some(text(""))).unwrap_err().message(),
        "model_path must not be empty (omit field for idle start)"
    );
    assert_eq!(check_share("").unwrap_err().message(), "model_path required");
    assert_eq!(unknown_port(7).message(), "unknown port: 7");
    assert_eq!(heartbeat_for_load(ServeBackend::Jaccl, 1), HeartbeatAction::Start);
    assert_eq!(heartbeat_for_load(ServeBackend::Jaccl, 0), HeartbeatAction::Keep);
    assert_eq!(heartbeat_for_load(ServeBackend::Single, 1), HeartbeatAction::Stop);
    assert_eq!(heartbeat_for_share(ServeBackend::Single, 1), HeartbeatAction::Keep);
    let r = match reload_request(Some(text("/m/x")), ServeBackend::Ring, ServeEngine::MlxLm) {
        Ok(r) => r,
        Err(e) => panic!("{}", e.message()),
    };
    assert_eq!((r.model_path.as_deref(), r.backend.as_str()), (Some("/m/x"), "ring"));
    match reload_request(None, ServeBackend::Ring, ServeEngine::MlxLm) {
        Ok(_) => panic!("a model is needed"),
        Err(e) => assert_eq!((e.status(), e.message().as_str()), (404, "no model loaded")),
    }
    assert_eq!(devices_file(1), "asmi-ibv-1.json");
    assert_eq!(ring_file(1), "asmi-ring-1.json");
    assert_eq!(worker_log(1), "/tmp/r1o-distributed-rank1.log");
}

#[test]
fn errors_have_codes() {
    assert_eq!(bad_request("x").status(), 400);
    assert_eq!(not_found("x").status(), 404);
    assert_eq!((internal("x").status(), internal("x").message().as_str()), (500, "x"));
}

#[test]
fn the_budget_of_compilations_falls() {
    let mut a = AneState::new(true);
    assert_eq!(a.compile_budget_remaining(), 119);
    a.compile_count = 19;
    assert_eq!(a.compile_budget_remaining(), 100);
    a.compile_count = 500;
    assert_eq!(a.compile_budget_remaining(), 0);
    let off = AneState::new(false);
    assert_eq!(
        off.eval_refusal().1,
        "ANE compute not enabled. Start daemon with --experimental-ane"
    );
    assert!(off.probe_refusal().is_some());
}

#[test]
fn fitness_for_a_measurement() {
    assert!(is_desktop_chassis(&Some(text("Mac Studio"))));
    assert!(!is_desktop_chassis(&Some(text("MacBook Pro"))));
    assert!(!is_desktop_chassis(&None));
    assert!(on_ac(&Some(text("AC")), &None));
    assert!(!on_ac(&Some(text("Battery")), &Some(text("Mac Studio"))));
    assert!(on_ac(&None, &Some(text("iMac"))));
    assert_eq!(available_bytes(10, 3), 7);
    assert_eq!(available_bytes(3, 10), 0);
    let mut g = GateReading {
        cpu_throttled: false,
        gpu_throttled: false,
        available_bytes: 20 * 1024 * 1024 * 1024 + 1,
        on_ac: true,
        ghost_procs: 0,
        snapshot_errors: 0,
    };
    assert!(g.ready());
    g.snapshot_errors = 1;
    assert!(!g.ready());
    g.snapshot_errors = 0;
    g.available_bytes = 20 * 1024 * 1024 * 1024;
    assert!(!g.ready());
}

#[test]
fn a_node_is_reset() {
    assert!(matches!(await_processes(0, 0, 30_000), WaitStep::Done));
    assert!(matches!(await_processes(2, 29_999, 30_000), WaitStep::Again));
    match await_processes(2, 30_000, 30_000) {
        WaitStep::GaveUp(m) => {
            assert_eq!(m, "mlx proc reap timeout: 2 still alive after 30 s")
        }
        _ => panic!("it should give up"),
    }
    assert!(matches!(await_cooling(None, 0, 1), WaitStep::Done));
    assert!(matches!(await_cooling(Some((true, false)), 0, 1), WaitStep::Again));
    match await_cooling(Some((true, false)), 1, 1) {
        WaitStep::GaveUp(m) => assert_eq!(m, "thermal recovery timeout (60 s)"),
        _ => panic!("it should give up"),
    }
}

#[test]
fn a_node_is_prepared() {
    assert_eq!(prep_action("on").unwrap(), PrepAction::On);
    assert_eq!(
        prep_action("x").unwrap_err().message(),
        "unknown prep action: x (use 'on', 'off', or 'status')"
    );
    assert_eq!(keep_apps(), texts(&["Finder", "cmux"]));
    assert_eq!(kill_procs().len(), 9);
    assert!(build_list_script(&keep_apps()).contains("set keepList to {\"Finder\", \"cmux\"}"));
    assert_eq!(read_apps("Safari, Mail\n"), texts(&["Safari", "Mail"]));
    assert!(read_apps("\n").is_empty());
    assert_eq!(quit_script("Mail"), "tell application \"Mail\" to quit");
    let pages = memory_pages("Pages free:      12.\nPages inactive:  3.\nPages purgeable: 4.\n");
    assert_eq!(pages.free.as_deref(), Some("12"));
    assert_eq!(pages.purgeable.as_deref(), Some("4"));
    assert_eq!(processes_removed(5, 9), 0);
    assert_eq!(processes_removed(9, 5), 4);
    assert_eq!(fallen_by(5, 9), -4);
    assert!(indexing_on("/:\n\tIndexing enabled. \n"));
}

#[test]
fn the_daemon_is_announced() {
    assert_eq!(instance_name("hub"), "r1o-hub");
    assert_eq!(announced_host("r1o-hub"), "r1o-hub.local.");
    let none = TxtSnapshot { hermes_reachable: false, mlx_reachable: false };
    let both = TxtSnapshot { hermes_reachable: true, mlx_reachable: true };
    let few = txt_records("hub", 9090, "0.9", &none);
    let many = txt_records("hub", 9090, "0.9", &both);
    assert!(many.len() > few.len());
    assert!(many.iter().any(|(k, v)| k == "mlx" && v == "19080"));
    assert!(!few.iter().any(|(k, _)| k == "mlx"));
    assert!(announces_anew(&none, &both));
    assert!(!announces_anew(&both, &both));
}

#[test]
fn links_are_watched() {
    let key = link_key("en4");
    assert_eq!(link_interface(&key), "en4");
    assert!(matches!(link_event(&key, true), LinkEvent::Up { iface } if iface == "en4"));
    assert!(matches!(link_event(&key, false), LinkEvent::Down { .. }));
    assert_eq!(alert_title("en4"), "RDMA link down: en4");
    assert_eq!(
        alert_body("en4"),
        "Thunderbolt interface en4 lost link. Heartbeat probe triggered."
    );
    let mut b = SampleBuffer::new();
    assert_eq!(b.push_line("CPU Power: 1 mW"), None);
    assert_eq!(
        b.push_line("Combined Power: 3 mW").as_deref(),
        Some("CPU Power: 1 mW\nCombined Power: 3 mW\n")
    );
    assert_eq!(b.push_line("next"), None);
}

/// The places that are asked for a server when none of them has one, and what
/// is found when only the one at `yes` has one.
fn searched(search: &TargetSearch, yes: usize) -> (Vec<String>, Option<String>) {
    let mut asked = Vec::new();
    let mut answers = Vec::new();
    loop {
        match search.step(&answers) {
            Seek::Found(t) => return (asked, Some(t.describe())),
            Seek::Nowhere => return (asked, None),
            Seek::Ask(Place::Server { base, patience_ms }) => {
                asked.push(format!("{base} {patience_ms}"))
            }
            Seek::Ask(Place::Daemon(d)) => asked.push(d),
        }
        answers.push(answers.len() == yes);
    }
}

#[test]
fn places_are_searched_in_order() {
    let mut s = TargetSearch {
        env: None,
        port: 19095,
        config: Some(text("http://hub:1/")),
        nodes: texts(&["m3u2"]),
        daemon_port: 9090,
    };
    let all = texts(&[
        "http://127.0.0.1:19095 600",
        "http://hub:1 2000",
        "http://localhost:9090",
        "http://m3u2:9090",
    ]);
    assert_eq!(searched(&s, 9), (all.clone(), None));
    assert_eq!(searched(&s, 0).1.as_deref(), Some("http://127.0.0.1:19095 (direct)"));
    assert_eq!(searched(&s, 1), (all[..2].to_vec(), Some(text("http://hub:1 (direct)"))));
    assert_eq!(searched(&s, 3).1.as_deref(), Some("http://m3u2:9090 (daemon proxy)"));
    s.config = None;
    assert_eq!(searched(&s, 1).1.as_deref(), Some("http://localhost:9090 (daemon proxy)"));
    s.env = Some(text("http://gpu:5/"));
    assert_eq!(searched(&s, 0), (vec![], Some(text("http://gpu:5 (direct)"))));
    s.env = Some(text(""));
    assert_eq!(searched(&s, 9).0.len(), 3);
}

#[test]
fn media_servers_are_found() {
    let health = read_health(r#"{"engine":"mflux","busy":true,"models":["a",1,"b"]}"#).unwrap();
    let detail = detail_of(&health);
    assert!(detail.busy);
    assert_eq!(detail.models, texts(&["a", "b"]));
    assert!(read_health(r#"{"engine":"mlx-video"}"#).is_some());
    assert!(read_health(r#"{"engine":"mlx_lm"}"#).is_none());
    assert!(read_health("{}").is_none());
    assert!(read_health("not json").is_none());
    let bare = detail_of(&parse("{}").unwrap());
    assert!(!bare.busy);
    assert!(bare.models.is_empty());
    let none: Option<String> = None;
    assert!(env_base(&Some(text(""))).is_none());
    let b = resolve_base(&none, 19095, true, &Some(text("http://x"))).unwrap();
    assert_eq!(b.base, local_base(19095));
    assert!(resolve_base(&none, 19095, false, &none).is_none());
    assert!(unavailable(MediaKind::Image).message().contains("image"));
    assert!(start_hint(MediaKind::Video).contains("video_gen"));
    assert_eq!(MediaKind::Image.endpoint_key(), "image_gen");
    assert_eq!(MediaKind::Video.engine(), ServeEngine::VideoGen);
    assert_eq!(daemon_port(&none), 9090);
    assert_eq!(daemon_port(&Some(text("7"))), 7);
    assert!(daemon_candidates(&texts(&["m3u2"]), 9090).len() >= 1);
    assert!(!daemon_offers("not json", MediaKind::Image));
    let status = r#"{"image_gen":{"available":true},"video_gen":{"available":false}}"#;
    assert!(daemon_offers(status, MediaKind::Image));
    assert!(!daemon_offers(status, MediaKind::Video));
    let doc = parse(status).unwrap();
    assert_eq!(part_about(&doc, MediaKind::Video), parse(r#"{"available":false}"#).as_ref());
    assert!(part_about(&parse("{}").unwrap(), MediaKind::Image).is_none());
    assert!(!no_target(MediaKind::Image).is_empty());
    let t = Target::Direct(text("http://x"));
    assert!(t.job_status_url("7").ends_with("/7"));
    assert!(t.generate_url(MediaKind::Image).starts_with("http://x"));
    assert!(t.artifact_url(MediaKind::Image, "a.png").ends_with("a.png"));
}

#[test]
fn media_jobs_are_followed() {
    assert!(!safe_name("../../etc/passwd").contains('/'));
    assert_eq!(
        output_path(&Some(text("out.png")), &None, "png"),
        "out.png"
    );
    assert!(matches!(judge_job("7", "done", &None, 0), JobStep::Done));
    assert!(matches!(judge_job("7", "running", &None, 0), JobStep::Again));
    match judge_job("7", "error", &Some(text("boom")), 0) {
        JobStep::Failed(m) => assert_eq!(m, "job failed: boom"),
        _ => panic!("it failed"),
    }
    assert!(matches!(judge_job("7", "running", &None, 99_999), JobStep::Failed(_)));
    let job = read_answer(r#"{"status":"done","result":{"name":"a.mp4"}}"#).unwrap();
    let (status, error) = job_state(&job);
    assert_eq!((status.as_str(), error), ("done", None));
    assert_eq!(artifact_name(job_result(&job)).as_deref(), Some("a.mp4"));
    assert!(read_answer("not json").is_err());
    let other = parse(r#"{"error":"boom","id":"7"}"#).unwrap();
    assert_eq!(job_state(&other), (text("?"), Some(text("boom"))));
    assert_eq!(job_id(&other).as_deref(), Some("7"));
    assert!(job_id(&job).is_none());
    assert!(artifact_name(job_result(&other)).is_none());
}

#[test]
fn ports_of_the_machine() {
    let out = "Hardware Port: Thunderbolt 1\nDevice: en1\nEthernet Address: x\n\nHardware Port: Thunderbolt Bridge\nDevice: bridge0\n\nHardware Port: Thunderbolt 3\nDevice: en3\n";
    assert!(!has_port_zero(out));
    let map = build_tb_bus_map(out);
    assert_eq!(map.get("0").as_deref(), Some("en1"));
    assert_eq!(map.get("2").as_deref(), Some("en3"));
    assert_eq!(map.len(), 2);
    assert!(has_port_zero("Hardware Port: Thunderbolt 0\nDevice: en9\n"));
}

#[test]
fn buses_of_the_machine() {
    let out = r#"{"SPThunderboltDataType":[{"_name":"thunderboltusb4_bus_3","domain_uuid_key":"D","switch_uid_key":"S",
        "receptacle_1_tag":{"receptacle_id_key":"4","current_speed_key":"Up to 80 Gb/s","receptacle_status_key":"receptacle_connected"},
        "_items":[{"domain_uuid_key":"P","vendor_name_key":"Apple Inc.","device_name_key":"Mac15,14","_name":"m3u2",
        "_items":[{"vendor_name_key":"Other","device_name_key":"hub"}]}]}]}"#;
    let buses = read_buses(out).unwrap();
    assert_eq!(buses.len(), 1);
    let port = describe_port(buses.into_iter().next().unwrap());
    assert_eq!((port.port, port.connected, port.bus_index), (Some(4), true, Some(3)));
    assert_eq!(port.speed.as_deref(), Some("Up to 80 Gb/s"));
    assert_eq!(port.peer_domain_uuid.as_deref(), Some("P"));
    assert_eq!(port.devices.len(), 1);
    assert_eq!(port.devices[0].model_id, "Mac15,14");
    assert!(read_buses("not json").is_none());
}

#[test]
fn drivers_and_graphics() {
    let d = find_driver(&Some(text("--- com.tinygrad.tinygpu.dext (1.0.0/1) [activated enabled]")));
    assert!(d.installed);
    assert_eq!((d.version.as_deref(), d.status.as_str()), (Some("1.0.0"), "activated"));
    assert_eq!(find_driver(&Some(text("none"))).status, "not_found");
    assert_eq!(find_driver(&None).status, "check_failed");
    let out = r#"{"SPDisplaysDataType":[{"sppci_model":"Apple M3 Ultra"},
        {"sppci_model":"RTX 4090","sppci_vendor":"NVIDIA","sppci_vram":"24 GB","sppci_bus":"spdisplays_thunderbolt"}]}"#;
    let gpus: Vec<_> = read_gpus(out).into_iter().filter_map(describe_gpu).collect();
    assert_eq!(gpus.len(), 1);
    assert_eq!((gpus[0].vendor.as_str(), gpus[0].bus.as_str()), ("nvidia", "thunderbolt"));
    assert_eq!(gpus[0].vram.as_deref(), Some("24"));
    assert!(!gpus[0].vram_in_mb);
    assert_eq!(gpu_vendor("ati technologies"), "amd");
    assert_eq!(gpu_bus("PCIe", "pcie"), "pcie");
    assert_eq!(gpu_bus("Odd", "odd"), "Odd");
}

#[test]
fn versions_of_the_runtime() {
    let r = RuntimeInfo::from_outputs(
        &Some(text("3.12.1\n")),
        &Some(text("0.20.0\nDevice(gpu, 0)\n")),
        &None,
        &Some(text("15.1\n")),
    );
    assert_eq!(r.python_version.as_deref(), Some("3.12.1"));
    assert_eq!(r.mlx_version.as_deref(), Some("0.20.0"));
    assert_eq!(r.mlx_device.as_deref(), Some("Device(gpu, 0)"));
    assert_eq!(r.vllm_version, None);
    assert_eq!(version_and_device(&None), (None, None));
}

#[test]
fn frameworks_have_words() {
    assert_eq!(framework_named("mlx_audio"), ProcessFramework::MlxAudio);
    assert_eq!(framework_named("watchdog"), ProcessFramework::Other);
}

#[test]
fn models_that_are_served() {
    assert_eq!(
        normalize_model_id("mlx-community/Qwen3.5-122B-A10B-6bit"),
        texts(&["qwen3.5-122b-a10b-6bit"])
    );
    assert_eq!(
        normalize_model_id("/Users/ma/Models/Qwen3.5-REAP-262B-A17B-4bit-mlx"),
        texts(&["qwen3.5-reap-262b-a17b-4bit-mlx"])
    );
    let managed = vec![ManagedServer {
        port: 19080,
        engine: text("mlxlm"),
        pid: Some(5),
        model: Some(text("/Users/ma/Models/Qwen")),
    }];
    let found = vec![FoundServer {
        pid: 6,
        port: Some(4000),
        framework: text("vllm"),
        server_models: texts(&["org/Llama"]),
        model: Some(text("ignored")),
    }];
    let served = collect_serving_map(&managed, &found);
    let q = match_serving("QWEN", "/x", &None, &served).unwrap();
    assert_eq!((q.port, q.managed), (19080, true));
    let l = match_serving("other", "/m/LLAMA", &Some(text("LLAMA")), &served).unwrap();
    assert_eq!((l.port, l.managed, l.pid), (4000, false, Some(6)));
    assert!(match_serving("ignored", "/x", &None, &served).is_none());
    let whole = match_serving("other", "/users/ma/models/QWEN", &None, &served).unwrap();
    assert_eq!(whole.port, 19080);
    assert_eq!(read_listed(r#"{"data":[{"id":"m"}]}"#), Some(Some(text("m"))));
    assert_eq!(read_listed(r#"{"data":[]}"#), Some(None));
    assert_eq!(read_listed("not json"), None);
}

#[test]
fn models_of_the_cluster() {
    assert_eq!(canonical_nodes(&texts(&["b", "a", "b"])), texts(&["a", "b"]));
    assert!(is_local_node("HUB", "m3u1"));
    assert!(is_local_node("M3U1", "m3u1"));
    assert!(!is_local_node("m3u2", "m3u1"));
    assert_eq!(
        model_urls("m3u2"),
        texts(&["http://m3u2.local:9090/models", "http://m3u2:9090/models"])
    );
    let file = |n: &str, s: u64| ModelFile { name: text(n), size_bytes: s };
    let nodes = vec![
        NodeModels {
            node: text("hub"),
            models: Some(vec![file("Qwen", 3), file("QWEN", 4), file("Llama", 5)]),
        },
        NodeModels { node: text("m3u2"), models: None },
    ];
    let all = merge_models(&nodes);
    let names: Vec<&str> = all.iter().map(|m| m.name.as_str()).collect();
    assert_eq!(names, vec!["Llama", "Qwen"]);
    assert_eq!(total_bytes(&all), Some(8));
    let s = summarize_node(&nodes[0]).unwrap();
    assert_eq!((s.online, s.model_count, s.total_bytes), (true, 2, 8));
    let off = summarize_node(&nodes[1]).unwrap();
    assert_eq!((off.online, off.model_count), (false, 0));
    assert_eq!(nodes_responded(&nodes), 1);
}
