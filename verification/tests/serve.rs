//! Model servers: their arguments, backends, ports, and their life.

use asmi::argv::{
    build_serve_argv, choose_launch, first_existing, launch_candidates, media_candidates,
    media_missing, media_variable, native_candidates, native_missing, native_variable, shader_dirs,
    shader_file, EngineConfig, LaunchEnv, LoadRequest,
};
use asmi::hostfile::{
    build_worker_args, build_worker_vars, device_rows, host_names, hostfile_links, hosts_to_ask,
    join_url, judge_hostfile, judge_joins, object_in, read_document, write_devices, write_ring, parse_hostfile_peers, plan_session, read_object, verified_peers, HostfileRead, PeerHeartbeat,
    HEARTBEAT_MISS_THRESHOLD,
};
use asmi::process::{
    plan_load, planned_backend, read_saved, restore_request, spawn_env, takes_old_state,
    AfterStartup, EndAction, EndRun, ProcessManager, Startup,
    WARMUP_TIMEOUT_BARE_SECS, WARMUP_TIMEOUT_MODEL_SECS, WARMUP_TIMEOUT_SHARE_SECS,
};
use asmi::serve::{
    allowlisted_env, autostart_names, default_hostfile, engine_named, exit_text, judge_health, judge_hosts,
    log_tail, managed_ports, needs_liveness_check, old_state_file, path_join, pid_on_port, port_for_engine, process_name,
    resolve_backend, resolve_backend_validated, resolve_path, share_state_file, shows_port,
    startup_exit_message, state_file, HttpHealth, LogMonitor, PollVerdict, ServeBackend,
    ServeEngine, ServeState,
};

fn text(s: &str) -> String {
    s.to_string()
}

fn texts(all: &[&str]) -> Vec<String> {
    all.iter().map(|s| s.to_string()).collect()
}

fn config(engine: ServeEngine) -> EngineConfig {
    let (binary, args, flag, app): (&str, Vec<&str>, Option<&str>, Option<&str>) = match engine {
        ServeEngine::MlxLm | ServeEngine::MlxLmShare => {
            ("mlx_lm", vec!["server"], Some("--model"), None)
        }
        ServeEngine::MlxVlm => ("mlx_vlm", vec![], None, Some("mlx_vlm.server:app")),
        ServeEngine::VllmMlx => ("vllm_mlx", vec!["serve"], Some("--model"), None),
        ServeEngine::DFlash => ("dflash_mlx", vec!["serve"], Some("--target"), None),
        ServeEngine::Ds4 => ("ds4-server", vec![], Some("-m"), None),
        ServeEngine::ImageGen | ServeEngine::VideoGen => ("", vec![], None, None),
    };
    EngineConfig {
        binary: text(binary),
        binary_args: args.iter().map(|a| text(a)).collect(),
        model_flag: flag.map(text),
        uvicorn_app: app.map(text),
    }
}

fn launch_env() -> LaunchEnv {
    LaunchEnv {
        home: Some(text("/Users/ma")),
        python: text("/opt/python3"),
        media_script: Err(text("no script")),
        native_binary: Ok(text("/opt/ds4/ds4-server")),
        mlx_launch: text("/opt/mlx.launch"),
    }
}

fn plain(engine: ServeEngine) -> LoadRequest {
    LoadRequest::plain(None, text("auto"), engine)
}

fn with_model(engine: ServeEngine) -> LoadRequest {
    LoadRequest::plain(Some(text("/m/model")), text("auto"), engine)
}

/// The arguments, written out flag by flag.
fn expected_argv(
    req: &LoadRequest,
    port: u16,
    engine: ServeEngine,
    backend: ServeBackend,
    cfg: &EngineConfig,
    env: &LaunchEnv,
) -> Result<(String, Vec<String>), String> {
    let model: Option<String> = req.model_path.as_ref().map(|p| {
        if p.starts_with("~/") {
            match &env.home {
                Some(h) => format!("{}/{}", h, &p[2..]),
                None => p.clone(),
            }
        } else {
            p.clone()
        }
    });
    let is_bare = req.model_path.is_none();
    let mut args: Vec<String> = Vec::new();
    let program: String;
    let flag = |args: &mut Vec<String>, name: &str, value: Option<String>| {
        if let Some(v) = value {
            args.push(text(name));
            args.push(v);
        }
    };
    if engine.is_media() {
        let script = env.media_script.clone()?;
        program = env.python.clone();
        args.push(script);
    } else if matches!(engine, ServeEngine::Ds4) {
        program = env.native_binary.clone()?;
        if let (Some(f), Some(m)) = (&cfg.model_flag, &model) {
            args.push(f.clone());
            args.push(m.clone());
        }
        args.extend(["--port", &port.to_string(), "--host", "0.0.0.0", "--metal"].map(text));
        flag(&mut args, "-c", req.ctx_size.map(|n| n.to_string()));
        if req.draft_model.is_some() {
            flag(&mut args, "--mtp", req.draft_model.clone());
            flag(&mut args, "--mtp-draft", req.num_draft_tokens.map(|n| n.to_string()));
        }
    } else if let Some(app) = &cfg.uvicorn_app {
        program = env.python.clone();
        args.extend(
            [
                "-m",
                "uvicorn",
                app,
                "--host",
                "0.0.0.0",
                "--port",
                &port.to_string(),
                "--workers",
                "1",
                "--no-access-log",
            ]
            .map(text),
        );
    } else {
        program = env.python.clone();
        args.push(text("-m"));
        args.push(cfg.binary.clone());
        args.extend(cfg.binary_args.iter().cloned());
        if let (Some(f), Some(m)) = (&cfg.model_flag, &model) {
            args.push(f.clone());
            args.push(m.clone());
        }
        args.extend(["--port", &port.to_string(), "--host", "0.0.0.0"].map(text));
        if matches!(engine, ServeEngine::DFlash) {
            flag(&mut args, "--draft", req.draft_model.clone());
        }
        if matches!(engine, ServeEngine::MlxLm | ServeEngine::MlxLmShare) {
            flag(&mut args, "--draft-model", req.draft_model.clone());
            flag(&mut args, "--num-draft-tokens", req.num_draft_tokens.map(|n| n.to_string()));
            flag(&mut args, "--decode-concurrency", req.decode_concurrency.map(|n| n.to_string()));
            flag(&mut args, "--prompt-concurrency", req.prompt_concurrency.map(|n| n.to_string()));
            flag(&mut args, "--prefill-step-size", req.prefill_step_size.map(|n| n.to_string()));
            flag(&mut args, "--prompt-cache-size", req.prompt_cache_size.map(|n| n.to_string()));
            flag(&mut args, "--prompt-cache-bytes", req.prompt_cache_bytes.map(|n| n.to_string()));
            if req.pipeline {
                args.push(text("--pipeline"));
            }
            if req.use_mtp {
                args.push(text("--mtp"));
            }
            flag(&mut args, "--cache-type-k", req.cache_type.clone());
            flag(&mut args, "--cache-type-v", req.cache_type.clone());
            flag(&mut args, "--max-tokens", req.max_tokens.map(|n| n.to_string()));
        }
    }
    if let Some(extra) = &req.extra_args {
        args.extend(extra.iter().cloned());
    }
    if !is_bare && backend.is_distributed() && cfg.model_flag.is_some() {
        let hf = req.hostfile.clone().unwrap_or_else(|| default_hostfile(&env.home));
        let word = backend.as_str();
        let mut all = vec![
            text("--hostfile"),
            hf,
            text("--backend"),
            text(word),
            text("--env"),
            format!("MLX_DISTRIBUTED_BACKEND={word}"),
            text("--env"),
            text("MLX_METAL_FAST_SYNCH=1"),
        ];
        for (k, v) in allowlisted_env(&req.env) {
            all.push(text("--env"));
            all.push(format!("{k}={v}"));
        }
        all.push(text("--"));
        all.push(program);
        all.extend(args);
        Ok((env.mlx_launch.clone(), all))
    } else {
        Ok((program, args))
    }
}

fn cases() -> Vec<(&'static str, ServeEngine, ServeBackend, LoadRequest)> {
    let mut full = with_model(ServeEngine::MlxLm);
    full.draft_model = Some(text("/m/draft"));
    full.num_draft_tokens = Some(3);
    full.decode_concurrency = Some(1);
    full.prompt_concurrency = Some(4);
    full.prefill_step_size = Some(2048);
    full.prompt_cache_size = Some(8);
    full.prompt_cache_bytes = Some(34_359_738_368);
    full.pipeline = true;
    full.use_mtp = true;
    full.cache_type = Some(text("q8"));
    full.max_tokens = Some(4096);
    let mut extra = with_model(ServeEngine::MlxLm);
    extra.extra_args = Some(vec![text("--temp"), text("0.7")]);
    let mut jaccl = with_model(ServeEngine::MlxLm);
    jaccl.hostfile = Some(text("/hf/hosts.json"));
    let mut dflash = with_model(ServeEngine::DFlash);
    dflash.draft_model = Some(text("/m/draft"));
    let mut ds4_full = with_model(ServeEngine::Ds4);
    ds4_full.ctx_size = Some(262_144);
    ds4_full.draft_model = Some(text("/m/draft"));
    ds4_full.num_draft_tokens = Some(3);
    let mut ds4_extra = with_model(ServeEngine::Ds4);
    ds4_extra.extra_args = Some(vec![text("--foo"), text("bar")]);
    let mut ds4_ndt = with_model(ServeEngine::Ds4);
    ds4_ndt.num_draft_tokens = Some(5);
    let mut ds4_draft = with_model(ServeEngine::Ds4);
    ds4_draft.draft_model = Some(text("/m/draft"));
    let mut lm_ndt = with_model(ServeEngine::MlxLm);
    lm_ndt.num_draft_tokens = Some(5);
    let mut cache_only = with_model(ServeEngine::MlxLm);
    cache_only.cache_type = Some(text("q4"));
    let mut jaccl_extra = with_model(ServeEngine::MlxLm);
    jaccl_extra.hostfile = Some(text("/hf/hosts.json"));
    jaccl_extra.extra_args = Some(vec![text("--temp"), text("0.5")]);
    let mut vlm_jaccl = with_model(ServeEngine::MlxVlm);
    vlm_jaccl.hostfile = Some(text("/hf/hosts.json"));
    vec![
        ("mlx_lm_bare", ServeEngine::MlxLm, ServeBackend::Single, plain(ServeEngine::MlxLm)),
        ("mlx_lm_basic", ServeEngine::MlxLm, ServeBackend::Single, with_model(ServeEngine::MlxLm)),
        ("mlx_lm_full", ServeEngine::MlxLm, ServeBackend::Single, full),
        ("mlx_lm_extra", ServeEngine::MlxLm, ServeBackend::Single, extra),
        ("mlx_lm_jaccl", ServeEngine::MlxLm, ServeBackend::Jaccl, jaccl),
        ("mlx_vlm_model", ServeEngine::MlxVlm, ServeBackend::Single, with_model(ServeEngine::MlxVlm)),
        ("mlx_vlm_bare", ServeEngine::MlxVlm, ServeBackend::Single, plain(ServeEngine::MlxVlm)),
        ("vllm_mlx", ServeEngine::VllmMlx, ServeBackend::Single, with_model(ServeEngine::VllmMlx)),
        (
            "mlx_lm_share",
            ServeEngine::MlxLmShare,
            ServeBackend::Single,
            with_model(ServeEngine::MlxLmShare),
        ),
        ("dflash", ServeEngine::DFlash, ServeBackend::Single, dflash),
        ("ds4_full", ServeEngine::Ds4, ServeBackend::Single, ds4_full),
        ("ds4_extra", ServeEngine::Ds4, ServeBackend::Single, ds4_extra),
        ("image_gen", ServeEngine::ImageGen, ServeBackend::Single, plain(ServeEngine::ImageGen)),
        ("video_gen", ServeEngine::VideoGen, ServeBackend::Single, plain(ServeEngine::VideoGen)),
        ("ds4_ndt_no_draft", ServeEngine::Ds4, ServeBackend::Single, ds4_ndt),
        ("ds4_draft_no_ndt", ServeEngine::Ds4, ServeBackend::Single, ds4_draft),
        ("mlx_lm_ndt_no_draft", ServeEngine::MlxLm, ServeBackend::Single, lm_ndt),
        ("mlx_lm_cache_type_only", ServeEngine::MlxLm, ServeBackend::Single, cache_only),
        ("mlx_lm_jaccl_extra", ServeEngine::MlxLm, ServeBackend::Jaccl, jaccl_extra),
        ("mlx_vlm_jaccl_noswrap", ServeEngine::MlxVlm, ServeBackend::Jaccl, vlm_jaccl),
    ]
}

#[test]
fn production_matches_legacy_oracle() {
    const PORT: u16 = 19080;
    for (label, engine, backend, req) in cases() {
        let cfg = config(engine);
        let env = launch_env();
        let made = format!("{:?}", build_serve_argv(&req, PORT, engine, backend, &cfg, &env));
        let wanted = format!("{:?}", expected_argv(&req, PORT, engine, backend, &cfg, &env));
        assert_eq!(made, wanted, "build_serve_argv parity mismatch for case '{label}'");
    }
}

#[test]
fn mlx_lm_has_model_port_and_appends_extra_args_last() {
    let mut req = LoadRequest::plain(
        Some(text("/Users/ma/Models/Qwen3.6-27B-mlx-4bit")),
        text("auto"),
        ServeEngine::MlxLm,
    );
    req.extra_args = Some(vec![text("--temp"), text("0.7")]);
    let (_program, args) = build_serve_argv(
        &req,
        19080,
        ServeEngine::MlxLm,
        ServeBackend::Single,
        &config(ServeEngine::MlxLm),
        &launch_env(),
    )
    .unwrap();
    assert!(
        args.windows(3).any(|w| w[0] == "-m" && w[1] == "mlx_lm" && w[2] == "server"),
        "expected `-m mlx_lm server`; got {args:?}"
    );
    assert!(
        args.windows(2)
            .any(|w| w[0] == "--model" && w[1] == "/Users/ma/Models/Qwen3.6-27B-mlx-4bit"),
        "expected --model <path>; got {args:?}"
    );
    assert!(
        args.windows(2).any(|w| w[0] == "--port" && w[1] == "19080"),
        "expected --port 19080; got {args:?}"
    );
    assert_eq!(
        &args[args.len() - 2..],
        &["--temp".to_string(), "0.7".to_string()],
        "extra_args must be last; got {args:?}"
    );
}

#[test]
fn bare_request_omits_model_flag() {
    let req = plain(ServeEngine::MlxLm);
    let (_p, args) = build_serve_argv(
        &req,
        19080,
        ServeEngine::MlxLm,
        ServeBackend::Single,
        &config(ServeEngine::MlxLm),
        &launch_env(),
    )
    .unwrap();
    assert!(
        !args.iter().any(|a| a == "--model"),
        "bare start must omit --model; got {args:?}"
    );
}

#[test]
fn test_resolve_backend_all_strings() {
    assert_eq!(resolve_backend("jaccl", true), ServeBackend::Jaccl);
    assert_eq!(resolve_backend("auto", true), ServeBackend::Jaccl);
    assert_eq!(resolve_backend("jaccl-ring", true), ServeBackend::JacclRing);
    assert_eq!(resolve_backend("ring", true), ServeBackend::Ring);
    assert_eq!(resolve_backend("single", true), ServeBackend::Single);
    assert_eq!(resolve_backend("bogus", true), ServeBackend::Single);

    assert_eq!(resolve_backend("jaccl", false), ServeBackend::Single);
    assert_eq!(resolve_backend("jaccl-ring", false), ServeBackend::Single);
    assert_eq!(resolve_backend("ring", false), ServeBackend::Single);
}

#[test]
fn test_backend_serde_roundtrip() {
    for (b, s) in [
        (ServeBackend::Single, "single"),
        (ServeBackend::Jaccl, "jaccl"),
        (ServeBackend::JacclRing, "jaccl-ring"),
        (ServeBackend::Ring, "ring"),
    ] {
        assert_eq!(b.as_str(), s);
        assert_eq!(ServeBackend::from_word(s).unwrap(), b);
    }
    assert!(ServeBackend::from_word("bogus").is_none());
}

#[test]
fn test_allowlisted_env_filters() {
    let env = vec![
        ("MLX_FOO", "1"),
        ("KV_BITS", "3.5"),
        ("HF_HOME", "/Users/ma/.cache/huggingface"),
        ("PATH", "/evil"),
        ("DYLD_INSERT_LIBRARIES", "/evil.dylib"),
        ("PYTHONPATH", "/evil"),
        ("MLX_BAD-KEY", "x"),
        ("MLX_NEWLINE", "a\nb"),
    ]
    .into_iter()
    .map(|(k, v)| (text(k), text(v)))
    .collect::<Vec<(String, String)>>();

    let out = allowlisted_env(&Some(env));
    let keys: Vec<&str> = out.iter().map(|(k, _)| k.as_str()).collect();
    assert_eq!(keys, vec!["HF_HOME", "KV_BITS", "MLX_FOO"]);

    assert!(allowlisted_env(&None).is_empty());
}

#[test]
fn test_parse_hostfile_peers() {
    let content = r#"[
        {"ssh": "ma@m3u2", "rdma": ["169.254.1.1"]},
        {"ssh": "ma@m3u1", "rdma": ["169.254.1.2"]},
        {"ssh": "ma@m3u3", "rdma": ["169.254.1.3"]}
    ]"#;

    let peers = parse_hostfile_peers(content, "m3u2");
    assert_eq!(peers, vec!["m3u1".to_string(), "m3u3".to_string()]);

    let peers = parse_hostfile_peers(content, "m3u1");
    assert_eq!(peers, vec!["m3u2".to_string(), "m3u3".to_string()]);

    let peers = parse_hostfile_peers("", "m3u2");
    assert!(peers.is_empty());
}

#[test]
fn test_warmup_timeout_constants_are_sane() {
    assert!(WARMUP_TIMEOUT_BARE_SECS < WARMUP_TIMEOUT_MODEL_SECS);
    assert!(WARMUP_TIMEOUT_MODEL_SECS >= 300);
    assert!(WARMUP_TIMEOUT_SHARE_SECS >= 300);
}

#[test]
fn test_warmup_timeout_returns_false() {
    assert_eq!(judge_health(false, 1_999, 2_000), PollVerdict::Again);
    assert_eq!(judge_health(false, 2_000, 2_000), PollVerdict::TimedOut);
    assert_eq!(judge_health(true, 0, 2_000), PollVerdict::Ready);
}

#[test]
fn auto_falls_back_to_single_when_hostfile_hosts_dead() {
    let content = r#"{"backend":"jaccl","hosts":[{"ssh":"asmi-test-nonexistent.invalid"}]}"#;
    let hosts = match read_object(content) {
        HostfileRead::Hosts(h, _) => host_names(&h),
        _ => vec![],
    };
    assert_eq!(hosts, vec![text("asmi-test-nonexistent.invalid")]);
    assert!(needs_liveness_check("auto", true));
    let alive = judge_hosts(&hosts, &vec![false]);
    assert_eq!(alive, Err(vec![text("asmi-test-nonexistent.invalid")]));
    assert_eq!(
        resolve_backend_validated("auto", true, alive.is_ok()),
        ServeBackend::Single
    );
}

#[test]
fn explicit_jaccl_is_honored_without_validation() {
    assert!(!needs_liveness_check("jaccl", true));
    assert_eq!(resolve_backend_validated("jaccl", true, false), ServeBackend::Jaccl);
}

#[test]
fn a_hostfile_is_alive_where_all_its_hosts_answer() {
    let file = Ok(text(r#"{"hosts":[{"ssh":"a"},{"ssh":"b"},{}]}"#));
    assert_eq!(hosts_to_ask(&file), Ok(vec![text("a"), text("b"), text("unknown")]));
    assert_eq!(judge_hostfile(&file, &vec![true, true, true]), Ok(()));
    assert_eq!(judge_hostfile(&file, &vec![true, false, true]), Err(vec![text("b")]));
    assert_eq!(judge_hostfile(&file, &vec![true]), Err(vec![text("b"), text("unknown")]));
    for empty in ["{}", r#"{"hosts":[]}"#, "[]"] {
        assert_eq!(
            judge_hostfile(&Ok(text(empty)), &vec![true]),
            Err(vec![text("hostfile has no hosts")])
        );
    }
    assert_eq!(
        judge_hostfile(&Err(text("no such file")), &vec![]),
        Err(vec![text("unreadable hostfile: no such file")])
    );
}

#[test]
fn unparseable_hostfile_falls_back_to_single() {
    assert!(matches!(read_object("not json"), HostfileRead::NotJson));
    let alive = judge_hostfile(&Ok(text("not json")), &vec![]);
    assert!(matches!(&alive, Err(why) if why.len() == 1
        && why[0].starts_with("invalid hostfile json: ")));
    assert_eq!(
        resolve_backend_validated("auto", true, alive.is_ok()),
        ServeBackend::Single
    );
}

#[test]
fn test_peer_heartbeat_detects_dead_peer() {
    let mut hb = PeerHeartbeat::new();
    hb.start(&vec![text("127.0.0.1")]);
    assert!(!hb.observe(&vec![true], 1));
    assert!(hb.active, "heartbeat should be active");
    assert_eq!(hb.peers.len(), 1);
    assert!(hb.peers[0].reachable, "peer should be reachable");
    assert_eq!(hb.peers[0].consecutive_misses, 0);

    assert!(!hb.observe(&vec![false], 2));
    assert!(!hb.observe(&vec![false], 3));
    assert!(hb.observe(&vec![false], 4), "a dead peer ends the session");
    assert!(!hb.peers[0].reachable, "peer should be unreachable");
    assert!(
        hb.peers[0].consecutive_misses >= HEARTBEAT_MISS_THRESHOLD,
        "should have >= {} misses, got {}",
        HEARTBEAT_MISS_THRESHOLD,
        hb.peers[0].consecutive_misses
    );
    assert!(!hb.active, "heartbeat should deactivate after peer death");
}

#[test]
fn test_peer_heartbeat_healthy_peer_stays_reachable() {
    let mut hb = PeerHeartbeat::new();
    hb.start(&vec![text("127.0.0.1")]);
    for now in 0..4 {
        assert!(!hb.observe(&vec![true], now));
    }
    assert!(hb.active);
    assert!(hb.peers[0].reachable);
    assert_eq!(hb.peers[0].consecutive_misses, 0);
    assert!(hb.peers[0].last_seen.is_some());

    hb.stop();
    assert!(!hb.active, "should be inactive after stop");
}

#[test]
fn a_stopped_server_is_not_adopted_at_once() {
    let mut m = ProcessManager::new(19080, ServeEngine::MlxLm);
    m.stop(1_000);
    m.adopt_external(7, Some(text("m")), ServeEngine::MlxLm, 10_999);
    assert_eq!(m.pid, None);
    m.adopt_external(7, Some(text("m")), ServeEngine::MlxLm, 11_000);
    assert_eq!(m.pid, Some(7));
    assert_eq!(m.state, ServeState::Ready);
    let (state, model) = m.model_snapshot();
    assert_eq!((state, model.as_deref()), (ServeState::Ready, Some("m")));
}

#[test]
fn a_port_in_use_is_tried_again() {
    let mut m = ProcessManager::new(19080, ServeEngine::MlxLm);
    let e = m.occupied(19080, None, ServeEngine::MlxLm, 5).unwrap_err();
    assert_eq!(e, "port 19080 already in use by a non-model process");
    m.fail(e);
    assert!(m.awaits_port());
    m.port_freed();
    assert_eq!(m.state, ServeState::Idle);
    assert_eq!(m.error, None);
}

#[test]
fn an_emergency_is_told() {
    let mut m = ProcessManager::new_share();
    m.adopt_child(9, "m", ServeBackend::Jaccl, 3);
    m.emergency_stop();
    assert_eq!(m.state, ServeState::Error);
    assert_eq!(m.error.as_deref(), Some("emergency stop: RDMA peer death detected"));
    assert!(!m.awaits_port());
    assert_eq!(m.effective_port(), 19080);
}

#[test]
fn status_tells_verified_ports_of_running_servers_only() {
    let mut m = ProcessManager::new(19082, ServeEngine::MlxVlm);
    m.load(10);
    let s = m.status(true, 25);
    assert!(!s.port_verified);
    assert_eq!(s.elapsed_ms, 15);
    assert_eq!(s.port, 19082);
    m.adopt_external(5, None, ServeEngine::MlxVlm, 30);
    assert_eq!(m.state, ServeState::Loading);
    m.port_checked(true, 40);
    assert!(m.slot_snapshot(41).port_verified);
    assert!(!m.needs_port_verify_refresh(100, 10));
}

#[test]
fn a_load_is_planned_and_finished() {
    let req = LoadRequest::plain(Some(text("~/Models/x")), text("single"), ServeEngine::MlxLm);
    let home = Some(text("/Users/ma"));
    let plan = match plan_load(&req, true, &home) {
        Ok(p) => p,
        Err(e) => panic!("{e}"),
    };
    assert_eq!(plan.timeout_secs, WARMUP_TIMEOUT_MODEL_SECS);
    assert_eq!(planned_backend(&plan, "single", false, false), ServeBackend::Single);
    let mut m = ProcessManager::new(19080, ServeEngine::MlxLm);
    m.load(1);
    let next = m.finish_load(
        &plan,
        Startup::TimedOut,
        77,
        19080,
        ServeEngine::MlxLm,
        ServeBackend::Single,
    );
    assert_eq!(next, AfterStartup::Kill);
    assert_eq!(m.state, ServeState::Error);
}

#[test]
fn the_environment_of_a_server() {
    let req = plain(ServeEngine::ImageGen);
    let env = spawn_env(&req, ServeEngine::ImageGen, ServeBackend::Single, 19095, &None);
    assert!(env.iter().any(|(_, v)| v == "19095"));
}

#[test]
fn a_saved_server_is_read() {
    let s = read_saved(r#"{"model": "/m/x", "backend": "jaccl"}"#).unwrap();
    assert_eq!((s.model.as_str(), s.backend.as_str()), ("/m/x", "jaccl"));
    let d = read_saved(r#"{"model": "/m/x"}"#).unwrap();
    assert_eq!(d.backend, "auto");
    assert!(read_saved(r#"{"model": ""}"#).is_none());
    assert!(read_saved("not json").is_none());
    assert_eq!(d.engine, None);
    let e = read_saved(r#"{"model": "/m/x", "engine": "MlxVlm"}"#).unwrap();
    assert_eq!(e.engine, Some(ServeEngine::MlxVlm));
    let req = restore_request(e, ServeEngine::MlxLm);
    assert_eq!(req.engine, ServeEngine::MlxVlm);
    assert_eq!(req.model_path.as_deref(), Some("/m/x"));
    assert_eq!(req.backend, "auto");
    assert_eq!(restore_request(d, ServeEngine::DFlash).engine, ServeEngine::DFlash);
    let odd = read_saved(r#"{"model": "/m/x", "engine": "abacus"}"#).unwrap();
    assert_eq!(odd.engine, None);
}

#[test]
fn an_engine_is_saved_by_its_name() {
    for engine in [
        ServeEngine::MlxLm,
        ServeEngine::MlxLmShare,
        ServeEngine::MlxVlm,
        ServeEngine::VllmMlx,
        ServeEngine::DFlash,
        ServeEngine::Ds4,
        ServeEngine::ImageGen,
        ServeEngine::VideoGen,
    ] {
        let state = format!("{{\"model\": \"/m/x\", \"engine\": \"{}\"}}", engine.name());
        assert_eq!(read_saved(&state).unwrap().engine, Some(engine));
    }
}

#[test]
fn the_old_state_is_taken_once() {
    assert!(takes_old_state(19080, true, false));
    assert!(!takes_old_state(19080, true, true));
    assert!(!takes_old_state(19080, false, false));
    assert!(!takes_old_state(19082, true, false));
    assert_eq!(old_state_file(&Some(text("/Users/ma"))), "/Users/ma/.r1o/serve-state.json");
}

fn ending(child: bool, pid: Option<u32>, gone_after: usize) -> Vec<EndAction> {
    let mut run = EndRun::new(child, pid);
    let mut actions = Vec::new();
    let mut looks = 0;
    let mut gone = false;
    loop {
        let action = run.next(gone);
        if action == EndAction::Done {
            return actions;
        }
        if matches!(action, EndAction::AwaitChild(_) | EndAction::Look(_, _)) {
            looks += 1;
            gone = looks > gone_after;
        }
        actions.push(action);
    }
}

#[test]
fn a_process_is_asked_before_it_is_forced() {
    assert_eq!(
        ending(true, Some(7), 9),
        vec![
            EndAction::Ask(7),
            EndAction::AwaitChild(5_000),
            EndAction::ForceChild,
            EndAction::AwaitChild(3_000),
        ]
    );
    assert_eq!(ending(true, Some(7), 0), vec![EndAction::Ask(7), EndAction::AwaitChild(5_000)]);
    assert_eq!(ending(true, None, 0), vec![EndAction::AwaitChild(5_000)]);
    assert!(ending(false, None, 0).is_empty());
    assert_eq!(
        ending(false, Some(7), 1),
        vec![
            EndAction::Ask(7),
            EndAction::Look(7, 100),
            EndAction::Look(7, 100),
            EndAction::Look(7, 0),
        ]
    );
    let stubborn = ending(false, Some(7), 99);
    assert_eq!(stubborn.len(), 53);
    assert_eq!(stubborn[50], EndAction::Look(7, 100));
    assert_eq!(stubborn[51], EndAction::Look(7, 0));
    assert_eq!(stubborn[52], EndAction::Force(7));
}

#[test]
fn programs_have_their_places() {
    let usual = texts(&["/opt/homebrew/bin/mlx.launch", "/usr/local/bin/mlx.launch"]);
    assert_eq!(launch_candidates(&None), usual);
    assert_eq!(launch_candidates(&Some(text(" \n"))), usual);
    assert_eq!(launch_candidates(&Some(text("/x/mlx.launch\n")))[2], "/x/mlx.launch");
    assert_eq!(process_name("/usr/bin/python3\n").as_deref(), Some("/usr/bin/python3"));
    assert_eq!(process_name(" \n"), None);
    assert_eq!(choose_launch(None), "mlx.launch");
    assert_eq!(choose_launch(Some(text("/x"))), "/x");
    assert_eq!(media_variable(ServeEngine::ImageGen), "ASMI_IMAGE_GEN_SCRIPT");
    assert_eq!(media_variable(ServeEngine::VideoGen), "ASMI_VIDEO_GEN_SCRIPT");
}

#[test]
fn devices_are_sent_as_the_hostfile_writes_them() {
    let doc = read_document(r#"{"hosts":[{"ssh":"a","rdma":[null,"rdma_en3"]},{"ssh":"b"}]}"#).unwrap();
    let rows = device_rows(&doc);
    assert_eq!(rows.len(), 2);
    assert_eq!(rows[0].unwrap()[1].as_str(), Some("rdma_en3"));
    assert!(rows[1].is_none());
    assert_eq!(write_devices(&doc), r#"[[null,"rdma_en3"],[]]"#);
    assert_eq!(write_ring(&texts(&["10.0.0.1:32323", "b:32324"])), r#"[["10.0.0.1:32323"],["b:32324"]]"#);
    assert_eq!(write_ring(&vec![]), "[]");
    let (hosts, backend) = object_in(&doc).unwrap();
    assert_eq!(host_names(&hosts), texts(&["a", "b"]));
    assert_eq!(backend, None);
    assert!(read_document("not json").is_err());
    assert!(device_rows(&read_document("[]").unwrap()).is_empty());
    assert!(object_in(&read_document("[]").unwrap()).is_none());
}

#[test]
fn places_of_programs() {
    assert_eq!(native_variable("DS4-SERVER"), "DS4_SERVER_PATH");
    let none: Option<String> = None;
    let home = Some(text("/Users/ma"));
    let places = native_candidates("ds4-server", &Some(text("/x/ds4")), &home, &none);
    assert_eq!(places[0], "/x/ds4");
    let there: Vec<bool> = places.iter().map(|p| p != "/x/ds4").collect();
    assert_ne!(first_existing(&places, &there).as_deref(), Some("/x/ds4"));
    assert!(!media_candidates("gen.py", &none, &home).is_empty());
    assert!(native_missing("ds4-server", ServeEngine::Ds4, "V").contains("ds4-server"));
    assert!(media_missing("gen.py", "V").contains("gen.py"));
    let dirs = shader_dirs(&Some(text("/x")), &home);
    assert_eq!(dirs, vec![text("/x"), text("/Users/ma/opensource/ds4"), text("/Users/ma/.r1o/ds4")]);
    assert!(shader_dirs(&none, &none).is_empty());
    assert_eq!(shader_file("/x"), "/x/metal/flash_attn.metal");
    assert_eq!(shader_file(""), "metal/flash_attn.metal");
}

#[test]
fn words_of_requests() {
    assert_eq!(engine_named("image_gen"), Some(ServeEngine::ImageGen));
    assert_eq!(engine_named("mlx_lm"), Some(ServeEngine::MlxLm));
    assert_eq!(engine_named("MlxVlm"), Some(ServeEngine::MlxVlm));
    assert_eq!(engine_named("other"), None);
    assert_eq!(ServeState::Bare.word(), "bare");
}

#[test]
fn ports_of_engines() {
    assert_eq!(port_for_engine(ServeEngine::MlxLm, &None), 19080);
    assert_eq!(port_for_engine(ServeEngine::MlxLm, &Some(text("4711"))), 4711);
    assert_eq!(port_for_engine(ServeEngine::MlxVlm, &None), 19082);
    assert_eq!(port_for_engine(ServeEngine::Ds4, &Some(text("x"))), 8080);
    let names = autostart_names(&vec![], &None);
    let ports = managed_ports(19080, 19082, 19095, 19096, &names);
    assert_eq!(ports[0], (19080, ServeEngine::MlxLm));
    assert_eq!(ports[1], (19082, ServeEngine::MlxVlm));
}

#[test]
fn paths_and_logs() {
    let home = Some(text("/Users/ma"));
    assert_eq!(path_join("/a", "b"), "/a/b");
    assert_eq!(resolve_path("/a", "/b"), "/b");
    assert!(state_file(&home, 19080).starts_with("/Users/ma/"));
    assert_ne!(state_file(&home, 19080), share_state_file(&home));
    assert_eq!(log_tail("a\nb\nc", 2), "b\nc");
    let lsof = "COMMAND PID USER FD TYPE DEVICE SIZE/OFF NODE NAME\npython 11 ma 3u IPv4 0x1 0t0 TCP 100.64.0.1:19095 (LISTEN)\npython 12 ma 3u IPv4 0x1 0t0 TCP 127.0.0.1:19095 (LISTEN)\n";
    assert_eq!(pid_on_port(lsof), Some(12));
    assert_eq!(pid_on_port(""), None);
    assert!(!shows_port("", 19080));
    assert!(shows_port("python 12 ma TCP *:19080 (LISTEN)", 19080));
    assert!(!shows_port("python 12 ma TCP *:19080 (LISTEN)", 1908));
    assert!(shows_port("TCP *:19080 (LISTEN)\nTCP *:1908", 1908));
    assert_eq!(log_tail("Error: one\nError: two\nthree", 3), "Error: two");
    assert_eq!(log_tail("Error: one\n two", 1), "two");
    assert_ne!(exit_text(Some(1)), exit_text(None));
    assert!(startup_exit_message("server", Some(3), "boom").contains("boom"));
}

#[test]
fn readiness() {
    let h = HttpHealth { port: 19080, endpoints: vec![text("/health")] };
    assert_eq!(h.urls(), vec![text("http://127.0.0.1:19080/health")]);
    let m = LogMonitor::share();
    assert_eq!(m.judge(&None, false, 0, 10), PollVerdict::Again);
    assert_eq!(m.judge(&None, false, 10, 10), PollVerdict::TimedOut);
    let log = Some(m.error_markers[0].clone());
    assert_eq!(m.judge(&log, false, 0, 10), PollVerdict::Failed);
}

#[test]
fn a_session_is_planned() {
    let content = r#"{"backend":"jaccl","hosts":[
        {"ssh":"hub.local","ips":["192.168.10.1"]},
        {"ssh":"m3u2.local","ips":["192.168.10.2"]}]}"#;
    let (hosts, backend) = match read_object(content) {
        HostfileRead::Hosts(h, b) => (h, b),
        _ => panic!("no hosts"),
    };
    let links = verified_peers(&hosts);
    assert_eq!((links[1].hostname.as_str(), links[1].ip.as_str()), ("m3u2", "192.168.10.2"));
    assert_eq!(hostfile_links(content).unwrap().len(), 2);
    assert!(hostfile_links("not json").is_none());
    let session = match plan_session(&hosts, backend, "hub") {
        Ok(s) => s,
        Err(e) => panic!("{e}"),
    };
    assert_eq!(session.world_size, 2);
    assert!(session.coordinator.starts_with("192.168.10.1:"));
    let remotes = session.names.len() - session.first_remote;
    assert!(judge_joins(&session, &vec![true; remotes]).is_ok());
    assert!(judge_joins(&session, &vec![false; remotes]).is_err());
    assert!(join_url("m3u2").contains("m3u2"));
}

#[test]
fn workers_get_their_rank() {
    let args = build_worker_args("/m/x", 19080, "127.0.0.1");
    assert!(args.windows(2).any(|w| w[0] == "--model" && w[1] == "/m/x"));
    let vars = build_worker_vars(1, 2, "jaccl", "10.0.0.1:32323", "/tmp/ibv.json", &None);
    assert!(vars.contains(&(text("MLX_RANK"), text("1"))));
    assert!(vars.contains(&(text("MLX_IBV_DEVICES"), text("/tmp/ibv.json"))));
    let ring = build_worker_vars(0, 2, "ring", "", "", &Some(text("/tmp/ring.json")));
    assert!(ring.contains(&(text("MLX_HOSTFILE"), text("/tmp/ring.json"))));
}
