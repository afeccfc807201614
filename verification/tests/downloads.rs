//! Downloads of models: what may be asked for, what a line of progress tells,
//! and what is told of a job.

use asmi::downloads::{
    cli_args, cli_candidates, choose_cli, current_file, expand_tilde, is_terminal_event,
    judge_download, newest_first, parse_bracketed, parse_size_token, percent_candidates,
    plan_download, read_token, search_path, unknown_job, validate_hf_id, validate_target_dir,
    DownloadJob, DownloadRequest, DownloadStartResponse, EventGate, JobEnd, JobState, ProgressUpdate,
    SizeToken,
};

/// The bytes that a token stands for.
fn bytes(token: &SizeToken) -> u64 {
    let n: f64 = token.number.parse().unwrap();
    (n * token.multiplier as f64) as u64
}

fn size(token: &str) -> Option<u64> {
    parse_size_token(token).as_ref().map(bytes)
}

/// The first number between zero and a hundred.
fn percent(line: &str) -> Option<f64> {
    percent_candidates(line)
        .iter()
        .filter_map(|p| p.parse::<f64>().ok())
        .find(|p| (0.0..=100.0).contains(p))
}

/// What a line of progress tells.
fn update(line: &str) -> ProgressUpdate {
    let amounts = parse_bracketed(line);
    let (current, total, speed) = match &amounts {
        Some(a) => (
            a.current.as_ref().map(bytes),
            a.total.as_ref().map(bytes),
            a.speed.as_ref().map(bytes),
        ),
        None => (None, None, None),
    };
    ProgressUpdate {
        current_file: current_file(line),
        percent: percent(line).map(|p| format!("{}", p)),
        amounts: amounts.is_some(),
        current,
        total,
        speed,
    }
}

fn make_job(state: JobState) -> DownloadJob {
    DownloadJob {
        id: "job-1".to_string(),
        hf_id: "mlx-community/SmolLM2-360M-Instruct".to_string(),
        target_dir: "/Users/ma/Models/mlx-community--SmolLM2-360M-Instruct".to_string(),
        started_at_ms: 0,
        finished_at_ms: None,
        state,
        bytes_downloaded: 0,
        total_bytes: None,
        current_file: None,
        percent: None,
        speed_bytes_per_sec: None,
        local_path: None,
    }
}

#[test]
fn validates_hf_id() {
    assert!(validate_hf_id("Org/Model").is_ok());
    assert!(validate_hf_id("mlx-community/Qwen3-8B-4bit").is_ok());
    assert!(validate_hf_id("a.b/c.d-e_f").is_ok());
    assert!(validate_hf_id("badformat").is_err());
    assert!(validate_hf_id("a/b/c").is_err());
    assert!(validate_hf_id("../foo/bar").is_err());
    assert!(validate_hf_id("foo/bar;rm").is_err());
}

#[test]
fn rejects_unsafe_target_dir() {
    assert!(validate_target_dir("~/Models").is_ok());
    assert!(validate_target_dir("/tmp/models").is_ok());
    assert!(validate_target_dir("../etc").is_err());
    assert!(validate_target_dir("/tmp;rm").is_err());
    assert!(validate_target_dir("/tmp|cat").is_err());
    assert!(validate_target_dir("/tmp`whoami`").is_err());
}

#[test]
fn parses_size_tokens() {
    assert_eq!(size("100"), Some(100));
    assert_eq!(size("1K"), Some(1024));
    assert_eq!(size("1KB"), Some(1024));
    assert_eq!(size("1M"), Some(1024 * 1024));
    assert_eq!(size("1.5G"), Some((1.5 * (1024.0 * 1024.0 * 1024.0)) as u64));
    assert_eq!(size(""), None);
}

#[test]
fn parses_percent_from_tqdm_line() {
    let line = "model.safetensors:  18%|████| 1.23G/6.79G [00:34<02:31, 36.5MB/s]";
    assert_eq!(percent(line), Some(18.0));
}

#[test]
fn parses_bracketed_segment() {
    let line = "model.safetensors: 18%|████| 1.23G/6.79G [00:34<02:31, 36.5MB/s]";
    let a = parse_bracketed(line).expect("should parse");
    assert!(bytes(&a.current.unwrap()) > 1_000_000_000);
    assert!(bytes(&a.total.unwrap()) > 6_000_000_000);
    let s = bytes(&a.speed.expect("speed"));
    assert!(s > 30_000_000 && s < 50_000_000, "speed={s}");
}

#[test]
fn parse_progress_line_updates_job() {
    let mut job = DownloadJob {
        id: "x".to_string(),
        hf_id: "a/b".to_string(),
        target_dir: "/tmp/x".to_string(),
        started_at_ms: 0,
        finished_at_ms: None,
        state: JobState::Running,
        bytes_downloaded: 0,
        total_bytes: None,
        current_file: None,
        percent: None,
        speed_bytes_per_sec: None,
        local_path: None,
    };
    let line = "model-00001.safetensors: 50%|██████| 3.40G/6.79G [00:30<00:30, 100MB/s]";
    let updated = job.apply(update(line));
    assert!(updated);
    assert_eq!(job.percent.as_deref().map(|p| p.parse::<f64>().unwrap()), Some(50.0));
    assert!(job.bytes_downloaded > 3_000_000_000);
    assert!(job.total_bytes.unwrap() > 6_000_000_000);
    assert!(job.speed_bytes_per_sec.unwrap() > 90_000_000);
    assert_eq!(job.current_file.as_deref(), Some("model-00001.safetensors"));
}

#[test]
fn expand_tilde_replaces_home() {
    let home = Some("/Users/ma".to_string());
    let expanded = expand_tilde("~/Models", &home);
    assert!(expanded.starts_with("/Users/ma"));
    assert!(expanded.ends_with("Models"));

    let unchanged = expand_tilde("/tmp/foo", &home);
    assert_eq!(unchanged, "/tmp/foo");
}

#[test]
fn local_path_is_none_while_queued() {
    let job = make_job(JobState::Queued);
    let snap = job.snapshot();
    assert!(snap.local_path.is_none());
    let ev = job.to_event();
    assert!(ev.local_path.is_none());
}

#[test]
fn local_path_is_none_while_running() {
    let job = make_job(JobState::Running);
    let snap = job.snapshot();
    assert!(snap.local_path.is_none());
    let ev = job.to_event();
    assert!(ev.local_path.is_none());
}

#[test]
fn local_path_is_none_while_failed() {
    let job = make_job(JobState::Failed { error: "boom".to_string() });
    let snap = job.snapshot();
    assert!(snap.local_path.is_none());
    let ev = job.to_event();
    assert!(ev.local_path.is_none());
}

#[test]
fn local_path_set_on_completion() {
    let mut job = make_job(JobState::Running);
    job.state = JobState::Completed;
    job.local_path = Some(job.target_dir.clone());

    let snap = job.snapshot();
    assert_eq!(
        snap.local_path.as_deref(),
        Some("/Users/ma/Models/mlx-community--SmolLM2-360M-Instruct"),
    );
    let ev = job.to_event();
    assert_eq!(
        ev.local_path.as_deref(),
        Some("/Users/ma/Models/mlx-community--SmolLM2-360M-Instruct"),
    );
    assert_eq!(ev.state, "Completed");
}

#[test]
fn completion_sets_the_path_and_failure_does_not() {
    let mut job = DownloadJob::queued(
        "j".to_string(),
        "a/b".to_string(),
        "/tmp/x".to_string(),
        5,
    );
    assert_eq!(job.to_event().state, "Queued");
    job.run();
    assert_eq!(job.to_event().state, "Running");
    job.complete(9);
    assert_eq!(job.local_path.as_deref(), Some("/tmp/x"));
    assert_eq!(job.finished_at_ms, Some(9));
    assert!(job.state.is_terminal());
    assert!(is_terminal_event(&job.to_event()));

    let mut ended = make_job(JobState::Running);
    ended.finish(&JobEnd::Exited("exit status: 1".to_string()), 8);
    assert!(matches!(&ended.state, JobState::Failed { error }
        if error == "huggingface-cli exited with status exit status: 1"));
    let mut lost = make_job(JobState::Running);
    lost.finish(&JobEnd::Lost("x".to_string()), 8);
    assert!(matches!(&lost.state, JobState::Failed { error } if error == "wait failed: x"));
    let mut fine = make_job(JobState::Running);
    fine.finish(&JobEnd::Succeeded, 8);
    assert_eq!(fine.percent.as_deref(), Some("100"));

    let mut other = DownloadJob::queued(
        "k".to_string(),
        "a/b".to_string(),
        "/tmp/x".to_string(),
        5,
    );
    other.run();
    other.fail("boom".to_string(), 7);
    assert_eq!(other.local_path, None);
    assert_eq!(other.finished_at_ms, Some(7));
    assert!(matches!(&other.state, JobState::Failed { error } if error == "boom"));
}

#[test]
fn a_line_without_progress_tells_nothing() {
    let mut job = make_job(JobState::Running);
    assert!(!job.apply(update("warming up")));
    assert_eq!(job.bytes_downloaded, 0);
    assert_eq!(job.percent, None);
    assert!(job.apply(update("Downloading 'model.bin'")));
    assert_eq!(job.current_file.as_deref(), Some("model.bin"));
}

#[test]
fn sizes_of_every_unit() {
    assert_eq!(size("2T"), Some(2 * 1024 * 1024 * 1024 * 1024));
    assert_eq!(size("3mb"), Some(3 * 1024 * 1024));
    assert_eq!(size("x"), None);
    assert_eq!(size("K"), None);
}

#[test]
fn downloads_are_planned_or_refused() {
    let home = Some("/Users/ma".to_string());
    let req = DownloadRequest { hf_id: "Org/Model".to_string(), target_dir: None };
    let plan = plan_download(&req, &home).unwrap();
    assert_eq!(plan.hf_id, "Org/Model");
    assert!(plan.target_dir.starts_with("/Users/ma/"));

    let bad = DownloadRequest { hf_id: "nothing".to_string(), target_dir: None };
    assert!(plan_download(&bad, &home).is_err());
    let unsafe_dir = DownloadRequest {
        hf_id: "Org/Model".to_string(),
        target_dir: Some("/tmp;rm".to_string()),
    };
    assert!(plan_download(&unsafe_dir, &home).is_err());

    assert!(judge_download("Org/Model", true, &None, &home).is_ok());
    assert!(judge_download("Org/Model", false, &None, &home).is_err());
}

#[test]
fn answers_and_arguments() {
    let r = DownloadStartResponse::started("j".to_string(), "/tmp/x".to_string());
    assert_eq!((r.job_id.as_str(), r.target_dir.as_str()), ("j", "/tmp/x"));
    assert!(cli_args("/tmp/x", "Org/Model").contains(&"Org/Model".to_string()));
    assert!(!cli_candidates().is_empty());
    assert_eq!(choose_cli(Some("/opt/hf".to_string())), "/opt/hf");
    assert!(search_path("/usr/bin").ends_with("/usr/bin"));
    assert_eq!(read_token(" abc \n").as_deref(), Some("abc"));
    assert_eq!(read_token("  \n"), None);
    assert!(unknown_job("j").contains("j"));
}

#[test]
fn jobs_are_listed_newest_first() {
    let mut a = make_job(JobState::Running);
    a.id = "a".to_string();
    a.started_at_ms = 1;
    let mut b = make_job(JobState::Running);
    b.id = "b".to_string();
    b.started_at_ms = 2;
    let jobs = newest_first(vec![a.snapshot(), b.snapshot()]);
    let ids: Vec<&str> = jobs.iter().map(|j| j.id.as_str()).collect();
    assert_eq!(ids, vec!["b", "a"]);
}

#[test]
fn the_last_event_closes_the_gate() {
    let mut gate = EventGate::new(false);
    assert!(gate.pass(false));
    assert!(gate.pass(true));
    assert!(!gate.pass(false));
    let mut ended = EventGate::new(true);
    assert!(!ended.pass(false));
}
