//! The life of a managed model server: what is known of it, and how starting,
//! stopping, adopting and failing change that.

use crate::argv;
use crate::argv::LoadRequest;
use crate::json;
use crate::serve;
use crate::serve::{ServeBackend, ServeEngine, ServeState};
use crate::text;
use vstd::prelude::*;
use vstd::string::*;

verus! {

/// The port of a server that has none of its own.
pub const DEFAULT_SERVE_PORT: u16 = 19080;

/// How long a stopped server is not adopted again, in milliseconds.
pub const STOP_COOLDOWN_MS: u64 = 10_000;

/// How long a server without a model may take to start, in seconds.
pub const WARMUP_TIMEOUT_BARE_SECS: u64 = 60;

/// How long a server may take to load a model, in seconds.
pub const WARMUP_TIMEOUT_MODEL_SECS: u64 = 300;

/// How long a share session may take to start, in seconds.
pub const WARMUP_TIMEOUT_SHARE_SECS: u64 = 300;

/// What is known of a managed server. Moments are milliseconds of one clock.
pub struct ProcessManager {
    pub state: ServeState,
    pub model: Option<String>,
    pub engine: ServeEngine,
    pub backend: ServeBackend,
    /// The port, or none for the share session.
    pub port: Option<u16>,
    /// Whether the process was started here.
    pub has_child: bool,
    pub pid: Option<u32>,
    pub load_started: Option<u64>,
    pub error: Option<String>,
    pub stopped_at: Option<u64>,
    pub port_verified: bool,
    pub port_verified_at: Option<u64>,
}

/// What is known of a managed server, with its texts.
pub struct ProcessView {
    pub state: ServeState,
    pub model: Option<Seq<char>>,
    pub engine: ServeEngine,
    pub backend: ServeBackend,
    pub port: Option<u16>,
    pub has_child: bool,
    pub pid: Option<u32>,
    pub load_started: Option<u64>,
    pub error: Option<Seq<char>>,
    pub stopped_at: Option<u64>,
    pub port_verified: bool,
    pub port_verified_at: Option<u64>,
}

impl DeepView for ProcessManager {
    type V = ProcessView;

    open spec fn deep_view(&self) -> ProcessView {
        ProcessView {
            state: self.state,
            model: self.model.deep_view(),
            engine: self.engine,
            backend: self.backend,
            port: self.port,
            has_child: self.has_child,
            pid: self.pid,
            load_started: self.load_started,
            error: self.error.deep_view(),
            stopped_at: self.stopped_at,
            port_verified: self.port_verified,
            port_verified_at: self.port_verified_at,
        }
    }
}

/// The time from `then` to `now`, or zero where `then` is later.
pub open spec fn elapsed(now: u64, then: u64) -> int {
    if now >= then {
        now - then
    } else {
        0
    }
}

/// The time from `then` to `now`, or zero where `then` is later.
pub fn since(now: u64, then: u64) -> (r: u64)
    ensures
        r == elapsed(now, then),
{
    if now >= then {
        now - then
    } else {
        0
    }
}

/// A server that has not been started.
pub open spec fn fresh(
    port: Option<u16>,
    engine: ServeEngine,
) -> ProcessView {
    ProcessView {
        state: ServeState::Idle,
        model: None,
        engine,
        backend: ServeBackend::Single,
        port,
        has_child: false,
        pid: None,
        load_started: None,
        error: None,
        stopped_at: None,
        port_verified: false,
        port_verified_at: None,
    }
}

/// The server after its process has been ended.
pub open spec fn without_process(p: ProcessView) -> ProcessView {
    ProcessView { has_child: false, pid: None, ..p }
}

/// The server after it was stopped.
pub open spec fn stopped(p: ProcessView, now: u64) -> ProcessView {
    ProcessView {
        state: ServeState::Idle,
        model: None,
        error: None,
        stopped_at: Some(now),
        ..without_process(p)
    }
}

/// The server after an emergency stop.
pub open spec fn emergency_stopped(p: ProcessView) -> ProcessView {
    ProcessView {
        state: ServeState::Error,
        model: None,
        error: Some("emergency stop: RDMA peer death detected"@),
        ..without_process(p)
    }
}

/// The server at the beginning of a load.
pub open spec fn loading(p: ProcessView, now: u64) -> ProcessView {
    ProcessView { state: ServeState::Loading, error: None, load_started: Some(now), ..p }
}

/// The server was stopped less than the cooldown ago.
pub open spec fn cooling(p: ProcessView, now: u64) -> bool {
    p.stopped_at matches Some(t) && elapsed(now, t) < STOP_COOLDOWN_MS
}

/// A process that was not started here may be adopted: none was started
/// here, none is starting, and the server was not stopped just now.
pub open spec fn adoptable(p: ProcessView, now: u64) -> bool {
    !p.has_child && !(p.state is Loading) && !cooling(p, now)
}

/// The server after it adopted a process.
pub open spec fn adopted(
    p: ProcessView,
    pid: u32,
    model: Option<Seq<char>>,
    engine: ServeEngine,
) -> ProcessView {
    ProcessView {
        pid: Some(pid),
        engine,
        model,
        backend: ServeBackend::Single,
        state: if model is Some {
            ServeState::Ready
        } else {
            ServeState::Bare
        },
        stopped_at: None,
        error: None,
        ..p
    }
}

/// The server after a failure.
pub open spec fn failed(p: ProcessView, message: Seq<char>) -> ProcessView {
    ProcessView { state: ServeState::Error, error: Some(message), ..p }
}

/// The server after its process became ready.
pub open spec fn ready(
    p: ProcessView,
    pid: u32,
    engine: ServeEngine,
    backend: ServeBackend,
    model: Option<Seq<char>>,
) -> ProcessView {
    ProcessView {
        pid: Some(pid),
        has_child: true,
        engine,
        backend,
        model,
        state: if model is Some {
            ServeState::Ready
        } else {
            ServeState::Bare
        },
        ..p
    }
}

/// The server failed because its port was taken.
pub open spec fn port_conflict(p: ProcessView) -> bool {
    p.state is Error && (p.error matches Some(e) && text::has(e, "already in use"@))
        && p.port is Some
}

/// What is told of a server.
pub struct ServeStatus {
    pub state: ServeState,
    pub model: Option<String>,
    pub engine: ServeEngine,
    pub backend: ServeBackend,
    pub port: u16,
    pub pid: Option<u32>,
    pub port_verified: bool,
    pub elapsed_ms: u64,
    pub error: Option<String>,
}

/// What is told of a server, with its texts.
pub struct StatusView {
    pub state: ServeState,
    pub model: Option<Seq<char>>,
    pub engine: ServeEngine,
    pub backend: ServeBackend,
    pub port: u16,
    pub pid: Option<u32>,
    pub port_verified: bool,
    pub elapsed_ms: int,
    pub error: Option<Seq<char>>,
}

impl DeepView for ServeStatus {
    type V = StatusView;

    open spec fn deep_view(&self) -> StatusView {
        StatusView {
            state: self.state,
            model: self.model.deep_view(),
            engine: self.engine,
            backend: self.backend,
            port: self.port,
            pid: self.pid,
            port_verified: self.port_verified,
            elapsed_ms: self.elapsed_ms as int,
            error: self.error.deep_view(),
        }
    }
}

/// What is told of a server, given whether its port is verified.
pub open spec fn status_of(p: ProcessView, verified: bool, now: u64) -> StatusView {
    StatusView {
        state: p.state,
        model: p.model,
        engine: p.engine,
        backend: p.backend,
        port: match p.port {
            Some(n) => n,
            None => DEFAULT_SERVE_PORT,
        },
        pid: p.pid,
        port_verified: verified,
        elapsed_ms: match p.load_started {
            Some(t) => elapsed(now, t),
            None => 0,
        },
        error: p.error,
    }
}

/// The server runs.
pub open spec fn running(p: ProcessView) -> bool {
    (p.state is Ready || p.state is Bare) && p.pid is Some
}

impl ProcessManager {
    /// A server that has not been started.
    pub fn new(port: u16, engine: ServeEngine) -> (r: ProcessManager)
        ensures
            r.deep_view() == fresh(Some(port), engine),
    {
        ProcessManager {
            state: ServeState::Idle,
            model: None,
            engine,
            backend: ServeBackend::Single,
            port: Some(port),
            has_child: false,
            pid: None,
            load_started: None,
            error: None,
            stopped_at: None,
            port_verified: false,
            port_verified_at: None,
        }
    }

    /// A share session that has not been started.
    pub fn new_share() -> (r: ProcessManager)
        ensures
            r.deep_view() == fresh(None, ServeEngine::MlxLmShare),
    {
        let mut p: ProcessManager = ProcessManager::new(0, ServeEngine::MlxLmShare);
        p.port = None;
        p
    }

    /// The port of the server.
    pub fn effective_port(&self) -> (r: u16)
        ensures
            r == (match self.port {
                Some(p) => p,
                None => DEFAULT_SERVE_PORT,
            }),
    {
        match self.port {
            Some(p) => p,
            None => DEFAULT_SERVE_PORT,
        }
    }

    /// Takes note that the process has been ended.
    pub fn process_ended(&mut self)
        ensures
            final(self).deep_view() == without_process(old(self).deep_view()),
    {
        self.has_child = false;
        self.pid = None;
    }

    /// Takes note that the server was stopped.
    pub fn stop(&mut self, now: u64)
        ensures
            final(self).deep_view() == stopped(old(self).deep_view(), now),
    {
        self.has_child = false;
        self.pid = None;
        self.state = ServeState::Idle;
        self.model = None;
        self.error = None;
        self.stopped_at = Some(now);
    }

    /// Takes note of an emergency stop.
    pub fn emergency_stop(&mut self)
        ensures
            final(self).deep_view() == emergency_stopped(old(self).deep_view()),
    {
        self.has_child = false;
        self.pid = None;
        self.state = ServeState::Error;
        self.model = None;
        self.error = Some(text::own("emergency stop: RDMA peer death detected"));
    }

    /// Begins to load a model.
    pub fn load(&mut self, now: u64)
        ensures
            final(self).deep_view() == loading(old(self).deep_view(), now),
    {
        self.state = ServeState::Loading;
        self.error = None;
        self.load_started = Some(now);
    }

    /// Begins to start a server without a model.
    pub fn start_bare(&mut self, engine: ServeEngine, now: u64)
        ensures
            final(self).deep_view() == (ProcessView {
                engine,
                ..loading(old(self).deep_view(), now)
            }),
    {
        self.load(now);
        self.engine = engine;
    }

    /// Begins to start a share session, after its process has been ended.
    pub fn start_share(&mut self, now: u64)
        ensures
            final(self).deep_view() == loading(without_process(old(self).deep_view()), now),
    {
        self.process_ended();
        self.load(now);
    }

    /// Takes note of a failure.
    pub fn fail(&mut self, message: String)
        ensures
            final(self).deep_view() == failed(old(self).deep_view(), message@),
    {
        self.state = ServeState::Error;
        self.error = Some(message);
    }

    /// Adopts a process that was not started here, unless one that was is
    /// there, one is starting, or the server was stopped just now.
    pub fn adopt_external(&mut self, pid: u32, model: Option<String>, engine: ServeEngine, now: u64)
        ensures
            final(self).deep_view() == (if adoptable(old(self).deep_view(), now) {
                ProcessView {
                    load_started: Some(now),
                    ..adopted(old(self).deep_view(), pid, model.deep_view(), engine)
                }
            } else {
                old(self).deep_view()
            }),
    {
        if self.has_child || matches!(self.state, ServeState::Loading) {
            return;
        }
        if let Some(t) = self.stopped_at {
            if since(now, t) < STOP_COOLDOWN_MS {
                return;
            }
        }
        self.take_over(pid, model, engine);
        self.load_started = Some(now);
    }

    /// Makes a process that was not started here the one of this server.
    fn take_over(&mut self, pid: u32, model: Option<String>, engine: ServeEngine)
        ensures
            final(self).deep_view() == adopted(
                old(self).deep_view(),
                pid,
                model.deep_view(),
                engine,
            ),
    {
        self.pid = Some(pid);
        self.engine = engine;
        self.backend = ServeBackend::Single;
        self.state = if model.is_some() {
            ServeState::Ready
        } else {
            ServeState::Bare
        };
        self.model = model;
        self.stopped_at = None;
        self.error = None;
    }

    /// Takes in what was found on the port of a server that is to be loaded:
    /// a model server is adopted, and anything else is an error.
    pub fn occupied(
        &mut self,
        port: u16,
        probe: Option<(u32, Option<String>)>,
        engine: ServeEngine,
        now: u64,
    ) -> (r: Result<(), String>)
        ensures
            match probe {
                None => {
                    &&& final(self).deep_view() == old(self).deep_view()
                    &&& r matches Err(e) && e@ == "port "@ + text::dec(port as nat)
                        + " already in use by a non-model process"@
                },
                Some(found) => if old(self).has_child {
                    &&& final(self).deep_view() == old(self).deep_view()
                    &&& r matches Err(e) && e@ == "port "@ + text::dec(port as nat)
                        + " occupied but manager already has a spawned child"@
                } else if cooling(old(self).deep_view(), now) {
                    &&& final(self).deep_view() == old(self).deep_view()
                    &&& r matches Err(e) && e@ == "port "@ + text::dec(port as nat)
                        + " occupied but manager in stop cooldown"@
                } else {
                    &&& r is Ok
                    &&& final(self).deep_view() == adopted(
                        old(self).deep_view(),
                        found.0,
                        found.1.deep_view(),
                        engine,
                    )
                },
            },
    {
        let mut message: String = text::glue("port ", &text::decimal(port as u64));
        match probe {
            None => {
                message.append(" already in use by a non-model process");
                Err(message)
            },
            Some((pid, model)) => {
                if self.has_child {
                    message.append(" occupied but manager already has a spawned child");
                    return Err(message);
                }
                if let Some(t) = self.stopped_at {
                    if since(now, t) < STOP_COOLDOWN_MS {
                        message.append(" occupied but manager in stop cooldown");
                        return Err(message);
                    }
                }
                self.take_over(pid, model, engine);
                Ok(())
            },
        }
    }

    /// Whether the port should be tried again: the server failed because it
    /// was taken.
    pub fn awaits_port(&self) -> (r: bool)
        ensures
            r == port_conflict(self.deep_view()),
    {
        if !matches!(self.state, ServeState::Error) {
            return false;
        }
        let taken: bool = match &self.error {
            Some(e) => text::contains(e, "already in use"),
            None => false,
        };
        taken && self.port.is_some()
    }

    /// Takes note that the port is free: a failed server is idle again.
    pub fn port_freed(&mut self)
        ensures
            final(self).deep_view() == (if old(self).state is Error {
                ProcessView { state: ServeState::Idle, error: None, ..old(self).deep_view() }
            } else {
                old(self).deep_view()
            }),
    {
        if matches!(self.state, ServeState::Error) {
            self.state = ServeState::Idle;
            self.error = None;
        }
    }

    /// Whether the port should be probed for a server to adopt.
    pub fn seeks_adoption(&self) -> (r: bool)
        ensures
            r == (self.pid is None && !self.has_child && self.port is Some),
    {
        self.pid.is_none() && !self.has_child && self.port.is_some()
    }

    /// Whether the server runs, so that its port can be verified.
    pub fn is_running(&self) -> (r: bool)
        ensures
            r == running(self.deep_view()),
    {
        matches!(self.state, ServeState::Ready | ServeState::Bare) && self.pid.is_some()
    }

    /// Whether the port of a running server was verified longer ago than
    /// `max_age_ms`, or never.
    pub fn needs_port_verify_refresh(&self, now: u64, max_age_ms: u64) -> (r: bool)
        ensures
            r == (running(self.deep_view()) && (match self.port_verified_at {
                Some(t) => elapsed(now, t) > max_age_ms,
                None => true,
            })),
    {
        if !self.is_running() {
            return false;
        }
        match self.port_verified_at {
            Some(t) => since(now, t) > max_age_ms,
            None => true,
        }
    }

    /// Takes note of whether the process owns its port.
    pub fn port_checked(&mut self, verified: bool, now: u64)
        ensures
            final(self).deep_view() == (ProcessView {
                port_verified: verified,
                port_verified_at: Some(now),
                ..old(self).deep_view()
            }),
    {
        self.port_verified = verified;
        self.port_verified_at = Some(now);
    }

    /// Whether something else may hold the port: the server has no process
    /// and failed, or should run without a model.
    pub fn suspects_squatter(&self) -> (r: bool)
        ensures
            r == (self.pid is None && (self.state is Error || self.state is Bare)),
    {
        self.pid.is_none() && matches!(self.state, ServeState::Error | ServeState::Bare)
    }

    /// The time since the load began, in milliseconds.
    pub fn load_elapsed(&self, now: u64) -> (r: u64)
        ensures
            r == (match self.load_started {
                Some(t) => elapsed(now, t),
                None => 0,
            }),
    {
        match self.load_started {
            Some(t) => since(now, t),
            None => 0,
        }
    }

    /// The state of the server and its model.
    pub fn model_snapshot(&self) -> (r: (ServeState, Option<String>))
        ensures
            r.0 == self.state,
            r.1.deep_view() == self.model.deep_view(),
    {
        (self.state, text::own_opt(&self.model))
    }

    /// What is told of the server without asking the system.
    pub fn slot_snapshot(&self, now: u64) -> (r: ServeStatus)
        ensures
            r.deep_view() == status_of(self.deep_view(), self.port_verified, now),
    {
        ServeStatus {
            state: self.state,
            model: text::own_opt(&self.model),
            engine: self.engine,
            backend: self.backend,
            port: self.effective_port(),
            pid: self.pid,
            port_verified: self.port_verified,
            elapsed_ms: self.load_elapsed(now),
            error: text::own_opt(&self.error),
        }
    }

    /// What is told of the server, given whether its process was found to own
    /// its port. That is told only of a server that runs.
    pub fn status(&self, owned: bool, now: u64) -> (r: ServeStatus)
        ensures
            r.deep_view() == status_of(
                self.deep_view(),
                running(self.deep_view()) && owned,
                now,
            ),
    {
        let mut s: ServeStatus = self.slot_snapshot(now);
        s.port_verified = self.is_running() && owned;
        s
    }

    /// Takes note of a worker that was started for a distributed session.
    pub fn adopt_child(&mut self, pid: u32, model: &str, backend: ServeBackend, now: u64)
        ensures
            final(self).deep_view() == (ProcessView {
                pid: Some(pid),
                has_child: true,
                model: Some(model@),
                backend,
                state: ServeState::Loading,
                load_started: Some(now),
                ..old(self).deep_view()
            }),
    {
        self.pid = Some(pid);
        self.has_child = true;
        self.model = Some(text::own(model));
        self.backend = backend;
        self.state = ServeState::Loading;
        self.load_started = Some(now);
    }

    /// Takes note that a session runs on other nodes only.
    pub fn remote_ready(&mut self, model: &str)
        ensures
            final(self).deep_view() == (ProcessView {
                model: Some(model@),
                backend: ServeBackend::Jaccl,
                state: ServeState::Ready,
                ..old(self).deep_view()
            }),
    {
        self.model = Some(text::own(model));
        self.backend = ServeBackend::Jaccl;
        self.state = ServeState::Ready;
    }
}

/// Stopping a server ends the adoption of processes for the cooldown, and for
/// no longer.
pub proof fn stop_holds_off_adoption(p: ProcessView, now: u64, later: u64)
    requires
        now <= later,
    ensures
        adoptable(stopped(p, now), later) <==> later - now >= STOP_COOLDOWN_MS,
{
}

/// A server that failed in an emergency is not taken for one whose port was
/// in use, so it does not become idle by itself.
pub proof fn emergency_is_no_port_conflict(p: ProcessView)
    ensures
        !port_conflict(emergency_stopped(p)),
{
    reveal_strlit("emergency stop: RDMA peer death detected");
    reveal_strlit("already in use");
    let e = "emergency stop: RDMA peer death detected"@;
    let q = "already in use"@;
    if text::has(e, q) {
        let i = choose|i: int| text::occurs_at(e, q, i);
        assert(e.subrange(i, i + q.len())[8] == 'i');
        assert(e.subrange(i, i + q.len())[0] == 'a');
        assert(e[i] == 'a');
        assert(e.subrange(i, i + q.len())[1] == 'l');
        assert(e[i + 1] == 'l');
        assert(false);
    }
}

/// Whatever happens to a server, its port stays what it was.
pub proof fn port_never_changes(
    p: ProcessView,
    now: u64,
    pid: u32,
    model: Option<Seq<char>>,
    engine: ServeEngine,
    backend: ServeBackend,
    message: Seq<char>,
)
    ensures
        stopped(p, now).port == p.port,
        emergency_stopped(p).port == p.port,
        loading(p, now).port == p.port,
        adopted(p, pid, model, engine).port == p.port,
        failed(p, message).port == p.port,
        ready(p, pid, engine, backend, model).port == p.port,
{
}

/// A server that runs a process knows which, and one that was stopped knows
/// of none.
pub proof fn only_a_running_server_has_a_process(
    p: ProcessView,
    now: u64,
    pid: u32,
    model: Option<Seq<char>>,
    engine: ServeEngine,
    backend: ServeBackend,
)
    ensures
        stopped(p, now).pid is None && !stopped(p, now).has_child,
        emergency_stopped(p).pid is None && !emergency_stopped(p).has_child,
        running(adopted(p, pid, model, engine)),
        running(ready(p, pid, engine, backend, model)),
{
}

// ---------------------------------------------------------------------------
// Loading a model
// ---------------------------------------------------------------------------

/// What a request comes to before anything is started.
pub struct LoadPlan {
    /// No model is loaded when the server starts.
    pub is_bare: bool,
    /// The server starts without the model, which a first request loads.
    pub lazy_load: bool,
    /// The model, with a leading `~/` expanded.
    pub model_path: Option<String>,
    pub timeout_secs: u64,
}

/// The model that a server is started with: media servers have none.
pub open spec fn planned_model(req: LoadRequest, home: Option<Seq<char>>) -> Option<Seq<char>> {
    if req.engine.media() {
        None
    } else {
        argv::model_of(req, home)
    }
}

/// The options contradict each other: speculative decoding goes with one
/// request at a time.
pub open spec fn options_conflict(req: LoadRequest) -> bool {
    req.draft_model is Some && (req.decode_concurrency matches Some(n) && n > 1)
}

/// What is said of options that contradict each other.
pub open spec fn conflict_text() -> Seq<char> {
    "draft_model (speculative decoding) is incompatible with decode_concurrency > 1 (batching). Set decode_concurrency to 1 or remove draft_model."@
}

/// Plans a load.
pub fn plan_load(req: &LoadRequest, has_model_flag: bool, home: &Option<String>) -> (r: Result<
    LoadPlan,
    String,
>)
    ensures
        r is Err <==> options_conflict(*req),
        r matches Err(e) ==> e@ == conflict_text(),
        r matches Ok(p) ==> {
            &&& p.model_path.deep_view() == planned_model(*req, home.deep_view())
            &&& p.is_bare == (p.model_path is None)
            &&& p.lazy_load == (!has_model_flag && p.model_path is Some)
            &&& p.timeout_secs == (if p.is_bare || p.lazy_load {
                WARMUP_TIMEOUT_BARE_SECS
            } else {
                WARMUP_TIMEOUT_MODEL_SECS
            })
        },
{
    if req.draft_model.is_some() {
        if let Some(n) = req.decode_concurrency {
            if n > 1 {
                return Err(
                    text::own(
                        "draft_model (speculative decoding) is incompatible with decode_concurrency > 1 (batching). Set decode_concurrency to 1 or remove draft_model.",
                    ),
                );
            }
        }
    }
    let model_path: Option<String> = if req.engine.is_media() {
        None
    } else {
        argv::expanded_model(req, home)
    };
    let is_bare: bool = model_path.is_none();
    let lazy_load: bool = !has_model_flag && model_path.is_some();
    let timeout_secs: u64 = if is_bare || lazy_load {
        WARMUP_TIMEOUT_BARE_SECS
    } else {
        WARMUP_TIMEOUT_MODEL_SECS
    };
    Ok(LoadPlan { is_bare, lazy_load, model_path, timeout_secs })
}

/// The backend of a planned load: a server without a model runs on one node.
pub fn planned_backend(
    plan: &LoadPlan,
    backend: &str,
    hostfile_exists: bool,
    hosts_alive: bool,
) -> (r: ServeBackend)
    ensures
        plan.is_bare ==> r == ServeBackend::Single,
        !plan.is_bare ==> r == (if serve::backend_for(backend@, hostfile_exists) is Jaccl
            && backend@ == "auto"@ && !hosts_alive {
            ServeBackend::Single
        } else {
            serve::backend_for(backend@, hostfile_exists)
        }),
{
    if plan.is_bare {
        ServeBackend::Single
    } else {
        serve::resolve_backend_validated(backend, hostfile_exists, hosts_alive)
    }
}

/// The variables with one more.
pub open spec fn with_var(
    vars: Seq<(Seq<char>, Seq<char>)>,
    key: Seq<char>,
    value: Option<Seq<char>>,
) -> Seq<(Seq<char>, Seq<char>)> {
    match value {
        Some(v) => vars.push((key, v)),
        None => vars,
    }
}

/// Adds a variable, if it has a value.
fn add_var(vars: &mut Vec<(String, String)>, key: &str, value: Option<String>)
    ensures
        final(vars).deep_view() == with_var(old(vars).deep_view(), key@, value.deep_view()),
{
    if let Some(v) = value {
        text::push_item(vars, (text::own(key), v));
    }
}

/// The numeral of an optional number.
pub open spec fn dec_opt(n: Option<u64>) -> Option<Seq<char>> {
    match n {
        Some(v) => Some(text::dec(v as nat)),
        None => None,
    }
}

/// The numeral of an optional number.
fn decimal_opt(n: Option<u64>) -> (r: Option<String>)
    ensures
        r.deep_view() == dec_opt(n),
{
    match n {
        Some(v) => Some(text::decimal(v)),
        None => None,
    }
}

/// The text, unless it is empty.
pub open spec fn non_empty(s: Option<Seq<char>>) -> Option<Seq<char>> {
    match s {
        Some(v) => if v.len() > 0 {
            Some(v)
        } else {
            None
        },
        None => None,
    }
}

/// The variables that a server is started with, in the order in which they
/// are set: a later one overrides an earlier one of the same name.
pub open spec fn spawn_vars(
    req: LoadRequest,
    engine: ServeEngine,
    backend: ServeBackend,
    port: u16,
    shader: Option<Seq<char>>,
) -> Seq<(Seq<char>, Seq<char>)> {
    let a = seq![("MLX_METAL_FAST_SYNCH"@, "1"@)];
    let b = with_var(
        a,
        "DS4_METAL_FLASH_ATTN_SOURCE"@,
        if engine is Ds4 {
            shader
        } else {
            None
        },
    );
    let c = with_var(
        b,
        "MLX_DISTRIBUTED_BACKEND"@,
        if backend.distributed() {
            Some(backend.word())
        } else {
            None
        },
    );
    let d = c + serve::env_forwarded(serve::pairs_or_none(req.env.deep_view()));
    let e = if engine is MlxVlm {
        let e1 = with_var(d, "KV_BITS"@, req.kv_bits.deep_view());
        let e2 = with_var(e1, "KV_QUANT_SCHEME"@, non_empty(req.kv_quant_scheme.deep_view()));
        with_var(e2, "MLX_VLM_VISION_CACHE_SIZE"@, dec_opt(req.vision_cache_size))
    } else {
        d
    };
    match engine {
        ServeEngine::ImageGen => e.push(("IMAGE_GEN_PORT"@, text::dec(port as nat))),
        ServeEngine::VideoGen => e.push(("VIDEO_GEN_PORT"@, text::dec(port as nat))),
        _ => e,
    }
}

/// The variables that a server is started with, in the order in which they
/// are set.
pub fn spawn_env(
    req: &LoadRequest,
    engine: ServeEngine,
    backend: ServeBackend,
    port: u16,
    shader: &Option<String>,
) -> (r: Vec<(String, String)>)
    ensures
        r.deep_view() == spawn_vars(*req, engine, backend, port, shader.deep_view()),
{
    let mut vars: Vec<(String, String)> = Vec::new();
    text::push_item(&mut vars, (text::own("MLX_METAL_FAST_SYNCH"), text::own("1")));
    assert(vars.deep_view() =~= seq![("MLX_METAL_FAST_SYNCH"@, "1"@)]);
    if matches!(engine, ServeEngine::Ds4) {
        add_var(&mut vars, "DS4_METAL_FLASH_ATTN_SOURCE", text::own_opt(shader));
    }
    if backend.is_distributed() {
        add_var(&mut vars, "MLX_DISTRIBUTED_BACKEND", Some(text::own(backend.as_str())));
    }
    let forwarded: Vec<(String, String)> = serve::allowlisted_env(&req.env);
    let ghost head = vars.deep_view();
    let ghost more = forwarded.deep_view();
    let mut i: usize = 0;
    assert(head + more.take(0) =~= head);
    while i < forwarded.len()
        invariant
            i <= forwarded@.len(),
            more == forwarded.deep_view(),
            vars.deep_view() == head + more.take(i as int),
        decreases forwarded@.len() - i,
    {
        text::push_item(&mut vars, serve::own_pair(&forwarded[i]));
        i = i + 1;
        assert(vars.deep_view() =~= head + more.take(i as int));
    }
    assert(more.take(i as int) =~= more);
    if matches!(engine, ServeEngine::MlxVlm) {
        add_var(&mut vars, "KV_BITS", text::own_opt(&req.kv_bits));
        let scheme: Option<String> = match &req.kv_quant_scheme {
            Some(s) => if s.as_str().is_empty() {
                None
            } else {
                Some(text::own(s))
            },
            None => None,
        };
        add_var(&mut vars, "KV_QUANT_SCHEME", scheme);
        add_var(&mut vars, "MLX_VLM_VISION_CACHE_SIZE", decimal_opt(req.vision_cache_size));
    }
    match engine {
        ServeEngine::ImageGen => add_var(
            &mut vars,
            "IMAGE_GEN_PORT",
            Some(text::decimal(port as u64)),
        ),
        ServeEngine::VideoGen => add_var(
            &mut vars,
            "VIDEO_GEN_PORT",
            Some(text::decimal(port as u64)),
        ),
        _ => {},
    }
    vars
}

/// What became of a process that was started.
pub enum Startup {
    /// It answered, and it does or does not own its port.
    Answered(bool),
    /// It did not answer in time.
    TimedOut,
    /// It ended.
    Crashed(String),
}

/// What is left to do with a process that was started.
#[derive(Debug, Clone, Copy, PartialEq, Eq, Structural)]
pub enum AfterStartup {
    /// Keep it.
    Keep,
    /// Keep it and send it a first request that loads the model.
    Warm,
    /// End it.
    Kill,
    /// Nothing: it has ended.
    Nothing,
}

/// What is said of a process that did not answer in time.
pub open spec fn timeout_text(secs: u64) -> Seq<char> {
    "warmup timeout exceeded ("@ + text::dec(secs as nat) + "s) — process killed"@
}

impl ProcessManager {
    /// Takes in what became of the process that was started for a load.
    pub fn finish_load(
        &mut self,
        plan: &LoadPlan,
        outcome: Startup,
        pid: u32,
        port: u16,
        engine: ServeEngine,
        backend: ServeBackend,
    ) -> (r: AfterStartup)
        ensures
            match outcome {
                Startup::Answered(true) => {
                    &&& final(self).deep_view() == ready(
                        old(self).deep_view(),
                        pid,
                        engine,
                        backend,
                        if plan.is_bare {
                            None
                        } else {
                            plan.model_path.deep_view()
                        },
                    )
                    &&& r == (if plan.lazy_load {
                        AfterStartup::Warm
                    } else {
                        AfterStartup::Keep
                    })
                },
                Startup::Answered(false) => {
                    &&& final(self).deep_view() == failed(
                        old(self).deep_view(),
                        "server started but bound to wrong port (not "@ + text::dec(port as nat)
                            + ")"@,
                    )
                    &&& r == AfterStartup::Kill
                },
                Startup::TimedOut => {
                    &&& final(self).deep_view() == failed(
                        old(self).deep_view(),
                        timeout_text(plan.timeout_secs),
                    )
                    &&& r == AfterStartup::Kill
                },
                Startup::Crashed(message) => {
                    &&& final(self).deep_view() == failed(old(self).deep_view(), message@)
                    &&& r == AfterStartup::Nothing
                },
            },
    {
        match outcome {
            Startup::Answered(owns) => {
                if owns {
                    self.pid = Some(pid);
                    self.has_child = true;
                    self.engine = engine;
                    self.backend = backend;
                    let model: Option<String> = if plan.is_bare {
                        None
                    } else {
                        text::own_opt(&plan.model_path)
                    };
                    self.state = if model.is_some() {
                        ServeState::Ready
                    } else {
                        ServeState::Bare
                    };
                    self.model = model;
                    if plan.lazy_load {
                        AfterStartup::Warm
                    } else {
                        AfterStartup::Keep
                    }
                } else {
                    let mut s: String = text::glue(
                        "server started but bound to wrong port (not ",
                        &text::decimal(port as u64),
                    );
                    s.append(")");
                    self.fail(s);
                    AfterStartup::Kill
                }
            },
            Startup::TimedOut => {
                let mut s: String = text::glue(
                    "warmup timeout exceeded (",
                    &text::decimal(plan.timeout_secs),
                );
                s.append("s) — process killed");
                self.fail(s);
                AfterStartup::Kill
            },
            Startup::Crashed(message) => {
                self.fail(message);
                AfterStartup::Nothing
            },
        }
    }

    /// Takes in what became of the process that was started for a share
    /// session. `detail` is what its log says.
    pub fn finish_share(
        &mut self,
        outcome: Startup,
        pid: u32,
        model: &str,
        backend: ServeBackend,
        detail: &str,
    ) -> (r: AfterStartup)
        ensures
            match outcome {
                Startup::Answered(_) => {
                    &&& final(self).deep_view() == ready(
                        old(self).deep_view(),
                        pid,
                        old(self).engine,
                        backend,
                        Some(model@),
                    )
                    &&& r == AfterStartup::Keep
                },
                Startup::TimedOut => {
                    &&& final(self).deep_view() == failed(
                        old(self).deep_view(),
                        timeout_text(WARMUP_TIMEOUT_SHARE_SECS) + ": "@ + detail@,
                    )
                    &&& r == AfterStartup::Kill
                },
                Startup::Crashed(message) => {
                    &&& final(self).deep_view() == failed(old(self).deep_view(), message@)
                    &&& r == AfterStartup::Nothing
                },
            },
    {
        match outcome {
            Startup::Answered(_) => {
                self.pid = Some(pid);
                self.has_child = true;
                self.model = Some(text::own(model));
                self.backend = backend;
                self.state = ServeState::Ready;
                AfterStartup::Keep
            },
            Startup::TimedOut => {
                let mut s: String = text::glue(
                    "warmup timeout exceeded (",
                    &text::decimal(WARMUP_TIMEOUT_SHARE_SECS),
                );
                s.append("s) — process killed");
                s.append(": ");
                s.append(detail);
                self.fail(s);
                AfterStartup::Kill
            },
            Startup::Crashed(message) => {
                self.fail(message);
                AfterStartup::Nothing
            },
        }
    }

    /// Takes in what became of the local process of a distributed session.
    pub fn finish_distributed(
        &mut self,
        outcome: Startup,
        pid: u32,
        model: &str,
        detail: &str,
    ) -> (r: AfterStartup)
        ensures
            match outcome {
                Startup::Answered(_) => {
                    &&& final(self).deep_view() == ready(
                        old(self).deep_view(),
                        pid,
                        old(self).engine,
                        ServeBackend::Jaccl,
                        Some(model@),
                    )
                    &&& r == AfterStartup::Keep
                },
                Startup::TimedOut => {
                    &&& final(self).deep_view() == failed(
                        old(self).deep_view(),
                        "distributed warmup timeout ("@ + text::dec(
                            WARMUP_TIMEOUT_SHARE_SECS as nat,
                        ) + "s) — "@ + detail@,
                    )
                    &&& r == AfterStartup::Kill
                },
                Startup::Crashed(message) => {
                    &&& final(self).deep_view() == failed(old(self).deep_view(), message@)
                    &&& r == AfterStartup::Nothing
                },
            },
    {
        match outcome {
            Startup::TimedOut => {
                let mut s: String = text::glue(
                    "distributed warmup timeout (",
                    &text::decimal(WARMUP_TIMEOUT_SHARE_SECS),
                );
                s.append("s) — ");
                s.append(detail);
                self.fail(s);
                AfterStartup::Kill
            },
            other => self.finish_share(other, pid, model, ServeBackend::Jaccl, detail),
        }
    }
}

// ---------------------------------------------------------------------------
// Restoring a server
// ---------------------------------------------------------------------------

/// What was saved of a server.
pub struct SavedServer {
    pub model: String,
    pub backend: String,
    pub hostfile: Option<String>,
    pub engine: Option<ServeEngine>,
}

/// What was saved of a server, with its texts.
pub struct SavedView {
    pub model: Seq<char>,
    pub backend: Seq<char>,
    pub hostfile: Option<Seq<char>>,
    pub engine: Option<ServeEngine>,
}

impl DeepView for SavedServer {
    type V = SavedView;

    open spec fn deep_view(&self) -> SavedView {
        SavedView {
            model: self.model@,
            backend: self.backend@,
            hostfile: self.hostfile.deep_view(),
            engine: self.engine,
        }
    }
}

/// The engine that a saved word stands for.
pub open spec fn saved_engine(word: Option<Seq<char>>) -> Option<ServeEngine> {
    match word {
        Some(w) => serve::engine_for_word(w),
        None => None,
    }
}

/// The server that the parts of a saved state describe: none without a model.
/// The backend is `auto` where none was saved.
pub open spec fn saved_parts(
    model: Option<Seq<char>>,
    backend: Option<Seq<char>>,
    hostfile: Option<Seq<char>>,
    engine: Option<Seq<char>>,
) -> Option<SavedView> {
    match model {
        Some(m) => if m.len() == 0 {
            None
        } else {
            Some(
                SavedView {
                    model: m,
                    backend: match backend {
                        Some(b) => b,
                        None => "auto"@,
                    },
                    hostfile,
                    engine: saved_engine(engine),
                },
            )
        },
        None => None,
    }
}

/// What a saved state says, read as JSON: nothing where it holds no model.
pub open spec fn saved_in(content: Seq<char>) -> Option<SavedView> {
    match json::json_of(content) {
        None => None,
        Some(v) => saved_parts(
            json::text_at(v, "model"@),
            json::text_at(v, "backend"@),
            json::text_at(v, "hostfile"@),
            json::text_at(v, "engine"@),
        ),
    }
}

/// The server that the parts of a saved state describe.
pub fn saved_server(
    model: Option<String>,
    backend: Option<String>,
    hostfile: Option<String>,
    engine: Option<String>,
) -> (r: Option<SavedServer>)
    ensures
        r.deep_view() == saved_parts(
            model.deep_view(),
            backend.deep_view(),
            hostfile.deep_view(),
            engine.deep_view(),
        ),
{
    match model {
        None => None,
        Some(m) => if m.as_str().is_empty() {
            None
        } else {
            let b: String = match backend {
                Some(b) => b,
                None => text::own("auto"),
            };
            let named: Option<ServeEngine> = match &engine {
                Some(word) => serve::engine_named(word),
                None => None,
            };
            Some(SavedServer { model: m, backend: b, hostfile, engine: named })
        },
    }
}

/// What a saved state says.
pub fn read_saved(content: &str) -> (r: Option<SavedServer>)
    ensures
        r.deep_view() == saved_in(content@),
{
    match json::parse(content) {
        None => None,
        Some(v) => saved_server(
            json::member_text(&v, "model"),
            json::member_text(&v, "backend"),
            json::member_text(&v, "hostfile"),
            json::member_text(&v, "engine"),
        ),
    }
}

/// The request that brings back a saved server: its model with its backend
/// and its engine, or the engine of the port where none was saved.
pub fn restore_request(saved: SavedServer, default_engine: ServeEngine) -> (r: LoadRequest)
    ensures
        r.model_path == Some(saved.model),
        r.backend == saved.backend,
        r.engine == (match saved.engine {
            Some(e) => e,
            None => default_engine,
        }),
        r.hostfile is None,
        r.is_plain(),
{
    let engine: ServeEngine = match saved.engine {
        Some(e) => e,
        None => default_engine,
    };
    LoadRequest::plain(Some(saved.model), saved.backend, engine)
}

/// Whether the state of the only server that there once was is to become the
/// state of the server on a port: on its port, where that has none.
pub fn takes_old_state(port: u16, old_exists: bool, new_exists: bool) -> (r: bool)
    ensures
        r == (port == DEFAULT_SERVE_PORT && old_exists && !new_exists),
{
    port == DEFAULT_SERVE_PORT && old_exists && !new_exists
}

// ---------------------------------------------------------------------------
// Ending a process
// ---------------------------------------------------------------------------

/// How long a process may take to end after it was asked, in milliseconds.
pub const END_PATIENCE_MS: u64 = 5_000;

/// How long a child may take to end by force, in milliseconds.
pub const FORCE_PATIENCE_MS: u64 = 3_000;

/// How long to wait before it is looked whether a process is gone, in
/// milliseconds.
pub const END_POLL_MS: u64 = 100;

/// How often it is looked whether a process is gone.
pub const END_POLLS: u64 = 50;

/// What is to be done next to end a process.
#[derive(Debug, Clone, Copy, PartialEq, Eq, Structural)]
pub enum EndAction {
    /// Ask the process to end.
    Ask(u32),
    /// Wait until the child has ended, for so many milliseconds at most.
    AwaitChild(u64),
    /// End the child by force.
    ForceChild,
    /// Wait so many milliseconds, and look whether the process is gone.
    Look(u32, u64),
    /// End the process by force.
    Force(u32),
    /// Nothing.
    Done,
}

/// How far the end of a process has come.
#[derive(Debug, Clone, Copy, PartialEq, Eq, Structural)]
pub enum EndStage {
    /// Nothing was done yet.
    Begun,
    /// It was asked.
    Asked,
    /// The child was waited for.
    Awaited,
    /// The child was ended by force.
    Forced,
    /// It was looked so often whether the process is gone.
    Looked(u64),
    /// It was looked for the last time.
    LookedLast,
    /// Nothing is left to be done.
    Over,
}

/// The end of a process: of a child, or of one that something else started.
#[derive(Debug)]
pub struct EndRun {
    pub child: bool,
    pub pid: Option<u32>,
    pub stage: EndStage,
}

/// What is done next in an end, and how far it has come then; `gone` is
/// whether the process had ended when it was last waited for or looked at.
///
/// A child is asked, waited for, and ended by force where it is still there.
/// Another process is asked, looked at again and again until it is gone or
/// has had its time, then once more, and ended by force where it is still
/// there.
pub open spec fn end_step(child: bool, pid: Option<u32>, stage: EndStage, gone: bool) -> (
    EndAction,
    EndStage,
) {
    match (stage, pid) {
        (EndStage::Begun, Some(p)) => (EndAction::Ask(p), EndStage::Asked),
        (EndStage::Begun, None) => if child {
            (EndAction::AwaitChild(END_PATIENCE_MS), EndStage::Awaited)
        } else {
            (EndAction::Done, EndStage::Over)
        },
        (EndStage::Asked, Some(p)) => if child {
            (EndAction::AwaitChild(END_PATIENCE_MS), EndStage::Awaited)
        } else {
            (EndAction::Look(p, END_POLL_MS), EndStage::Looked(1))
        },
        (EndStage::Awaited, _) => if gone {
            (EndAction::Done, EndStage::Over)
        } else {
            (EndAction::ForceChild, EndStage::Forced)
        },
        (EndStage::Forced, _) => (EndAction::AwaitChild(FORCE_PATIENCE_MS), EndStage::Over),
        (EndStage::Looked(n), Some(p)) => if gone || n >= END_POLLS {
            (EndAction::Look(p, 0), EndStage::LookedLast)
        } else {
            (EndAction::Look(p, END_POLL_MS), EndStage::Looked((n + 1) as u64))
        },
        (EndStage::LookedLast, Some(p)) => if gone {
            (EndAction::Done, EndStage::Over)
        } else {
            (EndAction::Force(p), EndStage::Over)
        },
        _ => (EndAction::Done, EndStage::Over),
    }
}

impl EndRun {
    /// The end of a process, begun.
    pub fn new(child: bool, pid: Option<u32>) -> (r: EndRun)
        ensures
            r == (EndRun { child, pid, stage: EndStage::Begun }),
    {
        EndRun { child, pid, stage: EndStage::Begun }
    }

    /// What is to be done next, given whether the process had ended when it
    /// was last waited for or looked at.
    pub fn next(&mut self, gone: bool) -> (r: EndAction)
        ensures
            (r, final(self).stage) == end_step(old(self).child, old(self).pid, old(self).stage, gone),
            final(self).child == old(self).child,
            final(self).pid == old(self).pid,
    {
        let (action, stage): (EndAction, EndStage) = match (self.stage, self.pid) {
            (EndStage::Begun, Some(p)) => (EndAction::Ask(p), EndStage::Asked),
            (EndStage::Begun, None) => if self.child {
                (EndAction::AwaitChild(END_PATIENCE_MS), EndStage::Awaited)
            } else {
                (EndAction::Done, EndStage::Over)
            },
            (EndStage::Asked, Some(p)) => if self.child {
                (EndAction::AwaitChild(END_PATIENCE_MS), EndStage::Awaited)
            } else {
                (EndAction::Look(p, END_POLL_MS), EndStage::Looked(1))
            },
            (EndStage::Awaited, _) => if gone {
                (EndAction::Done, EndStage::Over)
            } else {
                (EndAction::ForceChild, EndStage::Forced)
            },
            (EndStage::Forced, _) => (EndAction::AwaitChild(FORCE_PATIENCE_MS), EndStage::Over),
            (EndStage::Looked(n), Some(p)) => if gone || n >= END_POLLS {
                (EndAction::Look(p, 0), EndStage::LookedLast)
            } else {
                (EndAction::Look(p, END_POLL_MS), EndStage::Looked(n + 1))
            },
            (EndStage::LookedLast, Some(p)) => if gone {
                (EndAction::Done, EndStage::Over)
            } else {
                (EndAction::Force(p), EndStage::Over)
            },
            _ => (EndAction::Done, EndStage::Over),
        };
        self.stage = stage;
        action
    }
}

/// The actions of an end from a stage on, where `gone` tells of each whether
/// the process had ended before it.
pub open spec fn end_actions(child: bool, pid: Option<u32>, stage: EndStage, gone: Seq<bool>) -> Seq<
    EndAction,
>
    decreases gone.len(),
{
    if gone.len() == 0 {
        Seq::empty()
    } else {
        let (action, after) = end_step(child, pid, stage, gone[0]);
        seq![action] + end_actions(child, pid, after, gone.skip(1))
    }
}

/// How long the actions of an end wait for a process, in milliseconds.
pub open spec fn waited_ms(actions: Seq<EndAction>) -> int
    decreases actions.len(),
{
    if actions.len() == 0 {
        0
    } else {
        (match actions[0] {
            EndAction::AwaitChild(ms) => ms as int,
            EndAction::Look(_, ms) => ms as int,
            _ => 0,
        }) + waited_ms(actions.skip(1))
    }
}

/// A process is ended by force only where it was still there when it was last
/// waited for or looked at.
pub proof fn none_is_forced_once_gone(child: bool, pid: Option<u32>, stage: EndStage)
    ensures
        !(end_step(child, pid, stage, true).0 is Force),
        !(end_step(child, pid, stage, true).0 is ForceChild),
{
}

/// The looks at a process that does not end, from one of them on: the rest of
/// its time, then force.
proof fn stubborn_looks(pid: u32, n: u64)
    requires
        1 <= n <= END_POLLS,
    ensures
        ({
            let left = (END_POLLS - n) as nat;
            let actions = end_actions(
                false,
                Some(pid),
                EndStage::Looked(n),
                Seq::new(left + 2, |i: int| false),
            );
            &&& actions.len() == left + 2
            &&& actions.last() == EndAction::Force(pid)
            &&& waited_ms(actions) == left * END_POLL_MS
        }),
    decreases END_POLLS - n,
{
    let left = (END_POLLS - n) as nat;
    let gone = Seq::new(left + 2, |i: int| false);
    let actions = end_actions(false, Some(pid), EndStage::Looked(n), gone);
    if n < END_POLLS {
        stubborn_looks(pid, (n + 1) as u64);
        assert(gone.skip(1) =~= Seq::new((left - 1) as nat + 2, |i: int| false));
        let rest = end_actions(false, Some(pid), EndStage::Looked((n + 1) as u64), gone.skip(1));
        assert(actions =~= seq![EndAction::Look(pid, END_POLL_MS)] + rest);
        assert(actions.skip(1) =~= rest);
    } else {
        let last = gone.skip(1);
        assert(last.skip(1) =~= Seq::<bool>::empty());
        let forced = end_actions(false, Some(pid), EndStage::LookedLast, last);
        assert(forced =~= seq![EndAction::Force(pid)]) by {
            assert(end_actions(false, Some(pid), EndStage::Over, last.skip(1)) =~= Seq::empty());
        }
        assert(actions =~= seq![EndAction::Look(pid, 0), EndAction::Force(pid)]);
        assert(actions.skip(1) =~= seq![EndAction::Force(pid)]);
        assert(actions.skip(1).skip(1) =~= Seq::empty());
        assert(waited_ms(actions.skip(1).skip(1)) == 0);
        assert(waited_ms(actions.skip(1)) == 0);
    }
}

/// A process that does not end is asked first and ended by force last, and a
/// process that something else started has as long in between as a child.
pub proof fn force_comes_after_patience(pid: u32)
    ensures
        ({
            let actions = end_actions(
                false,
                Some(pid),
                EndStage::Begun,
                Seq::new((END_POLLS + 3) as nat, |i: int| false),
            );
            &&& actions.len() == END_POLLS + 3
            &&& actions[0] == EndAction::Ask(pid)
            &&& actions.last() == EndAction::Force(pid)
            &&& waited_ms(actions) == END_PATIENCE_MS
        }),
        end_actions(true, Some(pid), EndStage::Begun, seq![false, false, false]) == seq![
            EndAction::Ask(pid),
            EndAction::AwaitChild(END_PATIENCE_MS),
            EndAction::ForceChild,
        ],
{
    let gone = Seq::new((END_POLLS + 3) as nat, |i: int| false);
    stubborn_looks(pid, 1);
    let rest = end_actions(false, Some(pid), EndStage::Looked(1), gone.skip(1).skip(1));
    assert(gone.skip(1).skip(1) =~= Seq::new((END_POLLS - 1) as nat + 2, |i: int| false));
    let actions = end_actions(false, Some(pid), EndStage::Begun, gone);
    let asked = end_actions(false, Some(pid), EndStage::Asked, gone.skip(1));
    assert(asked =~= seq![EndAction::Look(pid, END_POLL_MS)] + rest);
    assert(actions =~= seq![EndAction::Ask(pid)] + asked);
    assert(actions.skip(1) =~= asked);
    assert(asked.skip(1) =~= rest);
    assert(waited_ms(asked) == END_POLL_MS + waited_ms(rest));
    assert(waited_ms(actions) == waited_ms(asked));
    assert(actions.last() == rest.last());
    let three = seq![false, false, false];
    let a = end_actions(true, Some(pid), EndStage::Asked, three.skip(1));
    let b = end_actions(true, Some(pid), EndStage::Awaited, three.skip(1).skip(1));
    assert(three.skip(1).skip(1).skip(1) =~= Seq::<bool>::empty());
    assert(b =~= seq![EndAction::ForceChild]) by {
        assert(end_actions(true, Some(pid), EndStage::Forced, three.skip(1).skip(1).skip(1))
            =~= Seq::empty());
    }
    assert(a =~= seq![EndAction::AwaitChild(END_PATIENCE_MS)] + b);
    assert(end_actions(true, Some(pid), EndStage::Begun, three) =~= seq![EndAction::Ask(pid)] + a);
}

// ---------------------------------------------------------------------------
// Laws of the life of a server
// ---------------------------------------------------------------------------

/// What is told of a server is what was done with it last: one that is ready
/// is told with its process, engine, backend and model, or as bare without a
/// model; one that failed with the message; one that loads as loading, for as
/// long as it has; one that was stopped as idle, without model, process or
/// error.
#[verifier::rlimit(60)]
pub proof fn status_tells_what_was_done(
    p: ProcessView,
    pid: u32,
    engine: ServeEngine,
    backend: ServeBackend,
    model: Seq<char>,
    message: Seq<char>,
    then: u64,
    now: u64,
)
    requires
        then <= now,
    ensures
        ({
            let s = status_of(ready(p, pid, engine, backend, Some(model)), true, now);
            &&& s.state is Ready
            &&& s.pid == Some(pid)
            &&& s.engine == engine
            &&& s.backend == backend
            &&& s.model == Some(model)
            &&& s.port_verified
        }),
        ({
            let s = status_of(ready(p, pid, engine, backend, None), false, now);
            s.state is Bare && s.model is None && s.pid == Some(pid) && !s.port_verified
        }),
        ({
            let s = status_of(failed(p, message), false, now);
            s.state is Error && s.error == Some(message)
        }),
        ({
            let s = status_of(loading(p, then), false, now);
            s.state is Loading && s.error is None && s.elapsed_ms == now - then
        }),
        ({
            let s = status_of(stopped(p, then), false, now);
            s.state is Idle && s.model is None && s.pid is None && s.error is None
        }),
        ({
            let s = status_of(emergency_stopped(p), false, now);
            s.state is Error && s.model is None && s.pid is None && s.error is Some
        }),
        ({
            let s = status_of(adopted(p, pid, Some(model), engine), true, now);
            s.state is Ready && s.pid == Some(pid) && s.model == Some(model) && s.engine == engine
                && s.backend is Single && s.error is None
        }),
        ({
            let s = status_of(adopted(p, pid, None, engine), true, now);
            s.state is Bare && s.model is None && s.pid == Some(pid)
        }),
        p.port matches Some(port) ==> status_of(p, true, now).port == port,
        p.port is None ==> status_of(p, true, now).port == 19080,
{
}

/// A server that has just been made is idle on its port, and can be adopted.
pub proof fn new_server_is_idle(port: u16, engine: ServeEngine, now: u64)
    ensures
        ({
            let p = fresh(Some(port), engine);
            &&& p.port == Some(port)
            &&& p.engine == engine
            &&& p.state is Idle
            &&& p.model is None && p.pid is None && !p.has_child && p.error is None
            &&& adoptable(p, now)
            &&& !running(p)
        }),
{
}

/// A server that was stopped or has failed serves nothing any more, and one
/// that loads is not taken over by a process that something else started.
pub proof fn only_ready_servers_run(p: ProcessView, message: Seq<char>, now: u64, later: u64)
    ensures
        !running(stopped(p, now)),
        !running(failed(p, message)),
        !running(emergency_stopped(p)),
        !running(loading(p, now)),
        !adoptable(loading(p, now), later),
        p.has_child ==> !adoptable(p, later),
{
}

/// The model that is loaded is the one of the request, with its `~/` expanded;
/// a server of media loads none.
pub proof fn requested_model_is_loaded(req: LoadRequest, home: Seq<char>, rest: Seq<char>)
    requires
        req.model_path.deep_view() == Some("~/"@ + rest),
    ensures
        !(req.engine is ImageGen || req.engine is VideoGen) ==> planned_model(req, Some(home))
            == Some(home + "/"@ + rest),
        req.engine is ImageGen || req.engine is VideoGen ==> planned_model(req, Some(home)) is None,
{
    serve::tilde_is_home(rest, Seq::empty(), home);
}

/// A draft model goes with one request at a time only.
pub proof fn drafts_go_with_one_request(req: LoadRequest)
    ensures
        req.draft_model is None ==> !options_conflict(req),
        req.decode_concurrency is None ==> !options_conflict(req),
        req.decode_concurrency matches Some(n) ==> (options_conflict(req) <==> req.draft_model is Some
            && n >= 2),
{
}

/// A variable that is set stays set where others follow.
proof fn variable_stays(
    vars: Seq<(Seq<char>, Seq<char>)>,
    key: Seq<char>,
    value: Option<Seq<char>>,
    pair: (Seq<char>, Seq<char>),
)
    ensures
        vars.contains(pair) ==> with_var(vars, key, value).contains(pair),
        value matches Some(v) ==> with_var(vars, key, value).contains((key, v)),
{
    let now = with_var(vars, key, value);
    if vars.contains(pair) {
        let i = choose|i: int| 0 <= i < vars.len() && vars[i] == pair;
        assert(now[i] == pair);
    }
    if let Some(v) = value {
        assert(now.last() == (key, v));
    }
}

/// The process of a server is told what the request says: the backend where it
/// is spread over nodes, every variable that may be handed on, the port for a
/// server of media, the shader for a native one, and the settings of the cache
/// for one of `mlx_vlm`.
#[verifier::rlimit(60)]
pub proof fn process_is_told_the_request(
    req: LoadRequest,
    engine: ServeEngine,
    backend: ServeBackend,
    port: u16,
    shader: Option<Seq<char>>,
    i: int,
)
    ensures
        ({
            let vars = spawn_vars(req, engine, backend, port, shader);
            &&& vars.contains(("MLX_METAL_FAST_SYNCH"@, "1"@))
            &&& !(backend is Single) ==> vars.contains(
                ("MLX_DISTRIBUTED_BACKEND"@, backend.word()),
            )
            &&& engine is ImageGen ==> vars.contains(("IMAGE_GEN_PORT"@, text::dec(port as nat)))
            &&& engine is VideoGen ==> vars.contains(("VIDEO_GEN_PORT"@, text::dec(port as nat)))
            &&& engine is Ds4 ==> (shader matches Some(s) ==> vars.contains(
                ("DS4_METAL_FLASH_ATTN_SOURCE"@, s),
            ))
            &&& engine is MlxVlm ==> (req.kv_bits.deep_view() matches Some(b) ==> vars.contains(
                ("KV_BITS"@, b),
            ))
            &&& engine is MlxVlm ==> (req.kv_quant_scheme.deep_view() matches Some(q) ==> q.len() > 0
                ==> vars.contains(("KV_QUANT_SCHEME"@, q)))
            &&& engine is MlxVlm ==> (req.vision_cache_size matches Some(n) ==> vars.contains(
                ("MLX_VLM_VISION_CACHE_SIZE"@, text::dec(n as nat)),
            ))
            &&& req.env.deep_view() matches Some(env) ==> 0 <= i < env.len() && serve::env_allowed(
                env[i].0,
                env[i].1,
            ) ==> vars.contains(env[i])
        }),
{
    let vars = spawn_vars(req, engine, backend, port, shader);
    let fast = ("MLX_METAL_FAST_SYNCH"@, "1"@);
    let a = seq![fast];
    assert(a[0] == fast);
    let shown = if engine is Ds4 {
        shader
    } else {
        None
    };
    let b = with_var(a, "DS4_METAL_FLASH_ATTN_SOURCE"@, shown);
    let named = if backend.distributed() {
        Some(backend.word())
    } else {
        None
    };
    let c = with_var(b, "MLX_DISTRIBUTED_BACKEND"@, named);
    let env = serve::pairs_or_none(req.env.deep_view());
    let d = c + serve::env_forwarded(env);
    let scheme = non_empty(req.kv_quant_scheme.deep_view());
    let e1 = with_var(d, "KV_BITS"@, req.kv_bits.deep_view());
    let e2 = with_var(e1, "KV_QUANT_SCHEME"@, scheme);
    let e3 = with_var(e2, "MLX_VLM_VISION_CACHE_SIZE"@, dec_opt(req.vision_cache_size));
    let e = if engine is MlxVlm {
        e3
    } else {
        d
    };
    assert forall|pair: (Seq<char>, Seq<char>)| #[trigger] d.contains(pair) implies vars.contains(
        pair,
    ) by {
        variable_stays(d, "KV_BITS"@, req.kv_bits.deep_view(), pair);
        variable_stays(e1, "KV_QUANT_SCHEME"@, scheme, pair);
        variable_stays(e2, "MLX_VLM_VISION_CACHE_SIZE"@, dec_opt(req.vision_cache_size), pair);
        let m = choose|m: int| 0 <= m < e.len() && e[m] == pair;
        assert(vars[m] == pair);
    }
    assert forall|pair: (Seq<char>, Seq<char>)| #[trigger] c.contains(pair) implies d.contains(
        pair,
    ) by {
        let m = choose|m: int| 0 <= m < c.len() && c[m] == pair;
        assert(d[m] == pair);
    }
    variable_stays(a, "DS4_METAL_FLASH_ATTN_SOURCE"@, shown, fast);
    variable_stays(b, "MLX_DISTRIBUTED_BACKEND"@, named, fast);
    assert(c.contains(fast));
    if let Some(s) = shown {
        let pair = ("DS4_METAL_FLASH_ATTN_SOURCE"@, s);
        variable_stays(b, "MLX_DISTRIBUTED_BACKEND"@, named, pair);
        assert(c.contains(pair));
    }
    if engine is ImageGen {
        assert(vars.last() == ("IMAGE_GEN_PORT"@, text::dec(port as nat)));
    }
    if engine is VideoGen {
        assert(vars.last() == ("VIDEO_GEN_PORT"@, text::dec(port as nat)));
    }
    if engine is MlxVlm {
        assert(vars == e3);
        if let Some(bits) = req.kv_bits.deep_view() {
            let pair = ("KV_BITS"@, bits);
            variable_stays(d, "KV_BITS"@, req.kv_bits.deep_view(), pair);
            variable_stays(e1, "KV_QUANT_SCHEME"@, scheme, pair);
            variable_stays(e2, "MLX_VLM_VISION_CACHE_SIZE"@, dec_opt(req.vision_cache_size), pair);
        }
        if let Some(q) = scheme {
            let pair = ("KV_QUANT_SCHEME"@, q);
            variable_stays(e1, "KV_QUANT_SCHEME"@, scheme, pair);
            variable_stays(e2, "MLX_VLM_VISION_CACHE_SIZE"@, dec_opt(req.vision_cache_size), pair);
        }
        if let Some(n) = req.vision_cache_size {
            let pair = ("MLX_VLM_VISION_CACHE_SIZE"@, text::dec(n as nat));
            variable_stays(e2, "MLX_VLM_VISION_CACHE_SIZE"@, dec_opt(req.vision_cache_size), pair);
        }
    }
    if 0 <= i < env.len() && serve::env_allowed(env[i].0, env[i].1) {
        serve::allowed_env_is_forwarded(env, i);
        let given = serve::env_forwarded(env);
        let m = choose|m: int| 0 <= m < given.len() && given[m] == env[i];
        assert(d[c.len() + m] == env[i]);
        assert(d.contains(env[i]));
    }
}

/// A state that was saved comes back: the model, the backend, the hostfile and
/// the engine, whose name was written.
pub proof fn saved_state_comes_back(
    model: Seq<char>,
    backend: Seq<char>,
    hostfile: Option<Seq<char>>,
    engine: ServeEngine,
)
    requires
        model.len() > 0,
    ensures
        saved_parts(Some(model), Some(backend), hostfile, Some(engine.label())) == Some(
            SavedView { model, backend, hostfile, engine: Some(engine) },
        ),
        saved_parts(None, Some(backend), hostfile, Some(engine.label())) is None,
        saved_parts(Some(model), None, hostfile, None) == Some(
            SavedView { model, backend: "auto"@, hostfile, engine: None },
        ),
{
    serve::name_stands_for_engine(engine);
}

/// A saved state is read from the members of their names, and one without a
/// model is none.
pub proof fn saved_state_is_read(content: Seq<char>, v: serde_json::Value, model: Seq<char>)
    ensures
        json::json_of(content) == Some(v) && json::text_at(v, "model"@) == Some(model)
            && model.len() > 0 ==> (match saved_in(content) {
            Some(s) => s.model == model && s.hostfile == json::text_at(v, "hostfile"@) && (
            json::text_at(v, "backend"@) matches Some(b) ==> s.backend == b) && (json::text_at(
                v,
                "backend"@,
            ) is None ==> s.backend == "auto"@) && (json::text_at(v, "engine"@) matches Some(w)
                ==> s.engine == serve::engine_for_word(w)),
            None => false,
        }),
        json::json_of(content) == Some(v) && json::text_at(v, "model"@) is None ==> saved_in(
            content,
        ) is None,
        json::json_of(content) is None ==> saved_in(content) is None,
{
}

} // verus!
