//! How servers, sessions and downloads go from one state to the next.

use asmi::downloads::DownloadJob;
use asmi::media::{MediaKind, Target};
use asmi::process::{saved_server, since, AfterStartup, ProcessManager, Startup};
use asmi::serve::{ServeBackend, ServeEngine, ServeState};

fn text(s: &str) -> String {
    s.to_string()
}

#[test]
fn a_bare_server_starts_on_its_engine() {
    let mut m = ProcessManager::new(19080, ServeEngine::MlxLm);
    m.fail(text("boom"));
    m.start_bare(ServeEngine::MlxVlm, 50);
    assert_eq!(m.engine, ServeEngine::MlxVlm);
    assert_eq!(m.state, ServeState::Loading);
    assert_eq!(m.error, None);
    assert_eq!(m.load_elapsed(80), 30);
    assert_eq!(m.load_elapsed(20), 0);
    assert_eq!(m.port, Some(19080));
}

#[test]
fn a_share_session_runs_once_it_answers() {
    let mut m = ProcessManager::new_share();
    m.start_share(5);
    assert_eq!(m.state, ServeState::Loading);
    assert!(!m.is_running());
    let next = m.finish_share(Startup::Answered(true), 7, "/m/x", ServeBackend::Jaccl, "");
    assert_eq!(next, AfterStartup::Keep);
    assert!(m.is_running());
    assert_eq!((m.pid, m.model.as_deref()), (Some(7), Some("/m/x")));
    assert_eq!(m.backend, ServeBackend::Jaccl);
    m.process_ended();
    assert_eq!(m.pid, None);
    assert!(!m.has_child);
}

#[test]
fn a_share_session_that_stays_silent_is_ended() {
    let mut m = ProcessManager::new_share();
    m.start_share(5);
    let next = m.finish_share(Startup::TimedOut, 7, "/m/x", ServeBackend::Single, "last line");
    assert_eq!(next, AfterStartup::Kill);
    assert_eq!(
        m.error.as_deref(),
        Some("warmup timeout exceeded (300s) — process killed: last line"),
    );
    let crashed = Startup::Crashed(text("exit code 1"));
    let next = m.finish_share(crashed, 7, "/m/x", ServeBackend::Single, "");
    assert_eq!(next, AfterStartup::Nothing);
    assert_eq!(m.error.as_deref(), Some("exit code 1"));
    assert!(m.suspects_squatter());
}

#[test]
fn a_distributed_session_tells_what_became_of_it() {
    let mut m = ProcessManager::new_share();
    m.start_share(5);
    let next = m.finish_distributed(Startup::TimedOut, 7, "/m/x", "rank 1 is missing");
    assert_eq!(next, AfterStartup::Kill);
    assert_eq!(
        m.error.as_deref(),
        Some("distributed warmup timeout (300s) — rank 1 is missing"),
    );
    m.start_share(6);
    let next = m.finish_distributed(Startup::Answered(false), 8, "/m/x", "");
    assert_eq!(next, AfterStartup::Keep);
    assert_eq!((m.state, m.backend), (ServeState::Ready, ServeBackend::Jaccl));

    let mut far = ProcessManager::new_share();
    far.remote_ready("/m/y");
    assert_eq!((far.state, far.model.as_deref()), (ServeState::Ready, Some("/m/y")));
    assert_eq!(far.pid, None);
}

#[test]
fn a_free_slot_looks_for_a_server() {
    let mut m = ProcessManager::new(19080, ServeEngine::MlxLm);
    assert!(m.seeks_adoption());
    assert!(!m.suspects_squatter());
    m.adopt_external(9, None, ServeEngine::MlxLm, 20_000);
    assert!(!m.seeks_adoption());
    assert!(m.is_running());
    assert!(!ProcessManager::new_share().seeks_adoption());
}

#[test]
fn saved_servers_name_a_model() {
    let s = saved_server(Some(text("/m/x")), None, Some(text("/h")), None).unwrap();
    assert_eq!((s.backend.as_str(), s.hostfile.as_deref()), ("auto", Some("/h")));
    assert!(saved_server(None, Some(text("single")), None, None).is_none());
    assert_eq!((since(9, 4), since(4, 9)), (5, 0));
}

#[test]
fn downloads_are_forgotten_an_hour_after_they_ended() {
    let mut job = DownloadJob::queued(text("j"), text("a/b"), text("/tmp/x"), 5);
    assert!(!job.expired(3_600_000));
    job.run();
    job.complete(9);
    assert!(!job.expired(3_599_999));
    assert!(job.expired(3_600_000));
}

#[test]
fn addresses_of_media_servers() {
    assert_eq!(MediaKind::Image.endpoint_env(), "IMAGE_GEN_ENDPOINT");
    assert_eq!(MediaKind::Video.endpoint_env(), "VIDEO_GEN_ENDPOINT");
    let direct = Target::Direct(text("http://h:1"));
    let daemon = Target::Daemon(text("http://h:2"));
    assert_eq!(direct.jobs_url(), "http://h:1/jobs");
    assert_eq!(daemon.jobs_url(), "http://h:2/media/video/jobs");
    assert_eq!(direct.describe(), "http://h:1 (direct)");
    assert_eq!(daemon.describe(), "http://h:2 (daemon proxy)");
}
