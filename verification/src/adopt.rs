//! The servers of a node: which processes that run already are taken over,
//! and what a request to load, share or reload a model leads to.

use crate::api;
use crate::api::{ApiError, ApiErrorView};
use crate::argv::LoadRequest;
use crate::order;
use crate::order::Ranked;
use crate::serve::{ServeBackend, ServeEngine};
use crate::text;
use vstd::prelude::*;
use vstd::string::*;

verus! {

// ---------------------------------------------------------------------------
// Frameworks
// ---------------------------------------------------------------------------

/// What a process that was found on the node is.
#[derive(Debug, Clone, Copy, PartialEq, Eq, Structural)]
pub enum ProcessFramework {
    MlxLm,
    MlxLmShare,
    MlxVlm,
    VllmMlx,
    MlxAudio,
    DFlashProc,
    /// A watchdog, a launcher or something unknown.
    Other,
}

/// The framework that a word of a snapshot stands for.
pub open spec fn framework_for_word(word: Seq<char>) -> ProcessFramework {
    if word == "mlx_lm"@ {
        ProcessFramework::MlxLm
    } else if word == "mlx_lm_share"@ {
        ProcessFramework::MlxLmShare
    } else if word == "mlx_vlm"@ {
        ProcessFramework::MlxVlm
    } else if word == "vllm_mlx"@ {
        ProcessFramework::VllmMlx
    } else if word == "mlx_audio"@ {
        ProcessFramework::MlxAudio
    } else if word == "dflash"@ {
        ProcessFramework::DFlashProc
    } else {
        ProcessFramework::Other
    }
}

/// The framework that a word of a snapshot stands for.
pub fn framework_named(word: &str) -> (r: ProcessFramework)
    ensures
        r == framework_for_word(word@),
{
    if text::same(word, "mlx_lm") {
        ProcessFramework::MlxLm
    } else if text::same(word, "mlx_lm_share") {
        ProcessFramework::MlxLmShare
    } else if text::same(word, "mlx_vlm") {
        ProcessFramework::MlxVlm
    } else if text::same(word, "vllm_mlx") {
        ProcessFramework::VllmMlx
    } else if text::same(word, "mlx_audio") {
        ProcessFramework::MlxAudio
    } else if text::same(word, "dflash") {
        ProcessFramework::DFlashProc
    } else {
        ProcessFramework::Other
    }
}

/// The engine under which a process is taken over.
pub open spec fn engine_for(fw: ProcessFramework) -> ServeEngine {
    match fw {
        ProcessFramework::MlxVlm => ServeEngine::MlxVlm,
        ProcessFramework::VllmMlx => ServeEngine::VllmMlx,
        ProcessFramework::DFlashProc => ServeEngine::DFlash,
        _ => ServeEngine::MlxLm,
    }
}

/// The engine under which a process is taken over.
pub fn framework_to_engine(fw: ProcessFramework) -> (r: ServeEngine)
    ensures
        r == engine_for(fw),
{
    match fw {
        ProcessFramework::MlxLm => ServeEngine::MlxLm,
        ProcessFramework::MlxLmShare => ServeEngine::MlxLm,
        ProcessFramework::MlxVlm => ServeEngine::MlxVlm,
        ProcessFramework::VllmMlx => ServeEngine::VllmMlx,
        ProcessFramework::DFlashProc => ServeEngine::DFlash,
        _ => ServeEngine::MlxLm,
    }
}

/// Whether a process serves models.
pub fn is_model_server_framework(fw: ProcessFramework) -> (r: bool)
    ensures
        r == !(fw is Other),
{
    match fw {
        ProcessFramework::MlxLm => true,
        ProcessFramework::MlxLmShare => true,
        ProcessFramework::MlxVlm => true,
        ProcessFramework::VllmMlx => true,
        ProcessFramework::MlxAudio => true,
        ProcessFramework::DFlashProc => true,
        ProcessFramework::Other => false,
    }
}

/// A process that was found on the node.
pub struct RunningProcess {
    pub pid: u32,
    pub framework: ProcessFramework,
    /// The name of the framework.
    pub label: String,
    pub port: Option<u16>,
    /// The models that it lists.
    pub server_models: Vec<String>,
    /// The model that its command line names.
    pub model: Option<String>,
}

/// A process that was found on the node, with its texts.
pub struct RunningView {
    pub pid: u32,
    pub framework: ProcessFramework,
    pub label: Seq<char>,
    pub port: Option<u16>,
    pub server_models: Seq<Seq<char>>,
    pub model: Option<Seq<char>>,
}

impl DeepView for RunningProcess {
    type V = RunningView;

    open spec fn deep_view(&self) -> RunningView {
        RunningView {
            pid: self.pid,
            framework: self.framework,
            label: self.label@,
            port: self.port,
            server_models: self.server_models.deep_view(),
            model: self.model.deep_view(),
        }
    }
}

/// The process serves models, and none of the managed servers is it.
pub open spec fn is_stray(p: RunningView, managed: Seq<u32>) -> bool {
    !(p.framework is Other) && !managed.contains(p.pid)
}

/// Whether a number is in a list.
fn has_pid(v: &Vec<u32>, x: u32) -> (r: bool)
    ensures
        r == v@.contains(x),
{
    let mut i: usize = 0;
    while i < v.len()
        invariant
            i <= v@.len(),
            forall|k: int| 0 <= k < i ==> v@[k] != x,
        decreases v@.len() - i,
    {
        if v[i] == x {
            assert(v@[i as int] == x);
            return true;
        }
        i = i + 1;
    }
    false
}

/// Whether a port is in a list.
fn has_port(v: &Vec<u16>, x: u16) -> (r: bool)
    ensures
        r == v@.contains(x),
{
    let mut i: usize = 0;
    while i < v.len()
        invariant
            i <= v@.len(),
            forall|k: int| 0 <= k < i ==> v@[k] != x,
        decreases v@.len() - i,
    {
        if v[i] == x {
            assert(v@[i as int] == x);
            return true;
        }
        i = i + 1;
    }
    false
}

/// Whether a process serves models and none of the managed servers is it.
fn check_stray(p: &RunningProcess, managed: &Vec<u32>) -> (r: bool)
    ensures
        r == is_stray(p.deep_view(), managed@),
{
    is_model_server_framework(p.framework) && !has_pid(managed, p.pid)
}

// ---------------------------------------------------------------------------
// Taking processes over
// ---------------------------------------------------------------------------

/// A process that is taken over.
pub struct Adoption {
    pub port: u16,
    pub pid: u32,
    pub model: Option<String>,
    pub engine: ServeEngine,
    /// No server is managed on that port yet.
    pub new_manager: bool,
}

/// A process that is taken over, with its texts.
pub struct AdoptionView {
    pub port: u16,
    pub pid: u32,
    pub model: Option<Seq<char>>,
    pub engine: ServeEngine,
    pub new_manager: bool,
}

impl DeepView for Adoption {
    type V = AdoptionView;

    open spec fn deep_view(&self) -> AdoptionView {
        AdoptionView {
            port: self.port,
            pid: self.pid,
            model: self.model.deep_view(),
            engine: self.engine,
            new_manager: self.new_manager,
        }
    }
}

/// A process without a port, which cannot be taken over.
pub struct Orphan {
    pub pid: u32,
    pub engine: String,
    pub models: Vec<String>,
}

/// A process without a port, with its texts.
pub struct OrphanView {
    pub pid: u32,
    pub engine: Seq<char>,
    pub models: Seq<Seq<char>>,
}

impl DeepView for Orphan {
    type V = OrphanView;

    open spec fn deep_view(&self) -> OrphanView {
        OrphanView { pid: self.pid, engine: self.engine@, models: self.models.deep_view() }
    }
}

/// The model of a process: the first that it lists, else the one that its
/// command line names.
pub open spec fn first_model(p: RunningView) -> Option<Seq<char>> {
    if p.server_models.len() > 0 {
        Some(p.server_models[0])
    } else {
        p.model
    }
}

/// The models of a process.
pub open spec fn process_models(p: RunningView) -> Seq<Seq<char>> {
    if p.server_models.len() > 0 {
        p.server_models
    } else {
        match p.model {
            Some(m) => seq![m],
            None => Seq::empty(),
        }
    }
}

/// What has been decided: the ports of the managed servers, the processes
/// that are taken over, and those that cannot be.
pub struct AdoptView {
    pub ports: Seq<u16>,
    pub taken: Seq<AdoptionView>,
    pub orphans: Seq<OrphanView>,
}

/// What is decided after one more process.
pub open spec fn adopt_step(st: AdoptView, p: RunningView, managed: Seq<u32>) -> AdoptView {
    if !is_stray(p, managed) {
        st
    } else {
        match p.port {
            Some(port) => AdoptView {
                ports: if st.ports.contains(port) {
                    st.ports
                } else {
                    st.ports.push(port)
                },
                taken: st.taken.push(
                    AdoptionView {
                        port,
                        pid: p.pid,
                        model: first_model(p),
                        engine: engine_for(p.framework),
                        new_manager: !st.ports.contains(port),
                    },
                ),
                orphans: st.orphans,
            },
            None => AdoptView {
                orphans: st.orphans.push(
                    OrphanView { pid: p.pid, engine: p.label, models: process_models(p) },
                ),
                ..st
            },
        }
    }
}

/// What is decided about the processes.
pub open spec fn adopted(ports: Seq<u16>, procs: Seq<RunningView>, managed: Seq<u32>) -> AdoptView
    decreases procs.len(),
{
    if procs.len() == 0 {
        AdoptView { ports, taken: Seq::empty(), orphans: Seq::empty() }
    } else {
        adopt_step(adopted(ports, procs.drop_last(), managed), procs.last(), managed)
    }
}

/// The model of a process.
fn read_first_model(p: &RunningProcess) -> (r: Option<String>)
    ensures
        r.deep_view() == first_model(p.deep_view()),
{
    assert(p.server_models.deep_view().len() == p.server_models@.len());
    if p.server_models.len() > 0 {
        assert(p.server_models.deep_view()[0] == p.server_models@[0]@);
        Some(text::own(&p.server_models[0]))
    } else {
        text::own_opt(&p.model)
    }
}

/// The models of a process.
fn read_models(p: &RunningProcess) -> (r: Vec<String>)
    ensures
        r.deep_view() == process_models(p.deep_view()),
{
    assert(p.server_models.deep_view().len() == p.server_models@.len());
    if p.server_models.len() > 0 {
        return text::own_all(&p.server_models);
    }
    let mut v: Vec<String> = Vec::new();
    if let Some(m) = &p.model {
        text::push_str(&mut v, m);
    }
    assert(v.deep_view() =~= process_models(p.deep_view()));
    v
}

/// What is decided about the processes: a process that serves models and is
/// not managed is taken over by the server of its port, for which one is made
/// where there is none; without a port it cannot be.
pub fn plan_adoptions(ports: &Vec<u16>, procs: &Vec<RunningProcess>, managed: &Vec<u32>) -> (r: (
    Vec<Adoption>,
    Vec<Orphan>,
))
    ensures
        r.0.deep_view() == adopted(ports@, procs.deep_view(), managed@).taken,
        r.1.deep_view() == adopted(ports@, procs.deep_view(), managed@).orphans,
{
    let ghost ps = procs.deep_view();
    let mut known: Vec<u16> = Vec::new();
    let mut k: usize = 0;
    while k < ports.len()
        invariant
            k <= ports@.len(),
            known@ == ports@.take(k as int),
        decreases ports@.len() - k,
    {
        known.push(ports[k]);
        k = k + 1;
        assert(known@ =~= ports@.take(k as int));
    }
    assert(ports@.take(k as int) =~= ports@);
    let mut taken: Vec<Adoption> = Vec::new();
    let mut orphans: Vec<Orphan> = Vec::new();
    let mut i: usize = 0;
    assert(taken.deep_view() =~= adopted(ports@, ps.take(0), managed@).taken);
    assert(orphans.deep_view() =~= adopted(ports@, ps.take(0), managed@).orphans);
    while i < procs.len()
        invariant
            i <= procs@.len(),
            ps == procs.deep_view(),
            known@ == adopted(ports@, ps.take(i as int), managed@).ports,
            taken.deep_view() == adopted(ports@, ps.take(i as int), managed@).taken,
            orphans.deep_view() == adopted(ports@, ps.take(i as int), managed@).orphans,
        decreases procs@.len() - i,
    {
        let p: &RunningProcess = &procs[i];
        proof {
            assert(ps.take(i + 1).drop_last() =~= ps.take(i as int));
            assert(ps.take(i + 1).last() == p.deep_view());
        }
        if check_stray(p, managed) {
            match p.port {
                Some(port) => {
                    let new_manager: bool = !has_port(&known, port);
                    if new_manager {
                        known.push(port);
                    }
                    let a = Adoption {
                        port,
                        pid: p.pid,
                        model: read_first_model(p),
                        engine: framework_to_engine(p.framework),
                        new_manager,
                    };
                    text::push_item(&mut taken, a);
                },
                None => {
                    let o = Orphan {
                        pid: p.pid,
                        engine: text::own(&p.label),
                        models: read_models(p),
                    };
                    text::push_item(&mut orphans, o);
                },
            }
        }
        i = i + 1;
    }
    assert(ps.take(i as int) =~= ps);
    (taken, orphans)
}

/// No managed server is taken over again, and no server is made twice for one
/// port: where a process gets a new one, none was managed there before.
pub proof fn adoptions_are_of_strays(
    ports: Seq<u16>,
    procs: Seq<RunningView>,
    managed: Seq<u32>,
)
    ensures
        forall|i: int|
            0 <= i < adopted(ports, procs, managed).taken.len() ==> !managed.contains(
                (#[trigger] adopted(ports, procs, managed).taken[i]).pid,
            ),
        forall|i: int|
            0 <= i < adopted(ports, procs, managed).taken.len() ==> adopted(
                ports,
                procs,
                managed,
            ).ports.contains((#[trigger] adopted(ports, procs, managed).taken[i]).port),
        forall|i: int, j: int|
            0 <= i < j < adopted(ports, procs, managed).taken.len() && (#[trigger] adopted(
                ports,
                procs,
                managed,
            ).taken[i]).port == (#[trigger] adopted(ports, procs, managed).taken[j]).port
                ==> !adopted(ports, procs, managed).taken[j].new_manager,
    decreases procs.len(),
{
    if procs.len() > 0 {
        let front = procs.drop_last();
        adoptions_are_of_strays(ports, front, managed);
        let a = adopted(ports, front, managed);
        let b = adopted(ports, procs, managed);
        let p = procs.last();
        assert forall|x: u16| a.ports.contains(x) implies b.ports.contains(x) by {
            let k = choose|k: int| 0 <= k < a.ports.len() && a.ports[k] == x;
            assert(b.ports[k] == x);
        }
        if is_stray(p, managed) && p.port is Some {
            assert(b.ports.contains(p.port->0)) by {
                if !a.ports.contains(p.port->0) {
                    assert(b.ports[a.ports.len() as int] == p.port->0);
                }
            }
        }
        assert forall|i: int| 0 <= i < b.taken.len() implies !managed.contains(
            (#[trigger] b.taken[i]).pid,
        ) by {
            if i < a.taken.len() {
                assert(b.taken[i] == a.taken[i]);
            }
        }
        assert forall|i: int| 0 <= i < b.taken.len() implies b.ports.contains(
            (#[trigger] b.taken[i]).port,
        ) by {
            if i < a.taken.len() {
                assert(b.taken[i] == a.taken[i]);
            }
        }
        assert forall|i: int, j: int|
            0 <= i < j < b.taken.len() && (#[trigger] b.taken[i]).port == (
            #[trigger] b.taken[j]).port implies !b.taken[j].new_manager by {
            assert(b.taken[i] == a.taken[i]);
            if j < a.taken.len() {
                assert(b.taken[j] == a.taken[j]);
            }
        }
    }
}

impl Ranked for Orphan {
    open spec fn below(&self, other: &Self) -> bool {
        self.pid < other.pid
    }

    fn is_below(&self, other: &Self) -> (r: bool) {
        self.pid < other.pid
    }

    proof fn below_ranks(a: &Self, b: &Self, c: &Self) {
    }
}

/// The processes that cannot be taken over, by their numbers.
pub fn sort_orphans(orphans: Vec<Orphan>) -> (r: Vec<Orphan>)
    ensures
        r@ == order::by_rank(orphans@),
{
    order::sort_by_rank(orphans)
}

/// A managed server: its port, and its place in the list of servers.
#[derive(Debug, Clone, Copy)]
pub struct ServerPlace {
    pub port: u16,
    pub place: usize,
}

impl Ranked for ServerPlace {
    open spec fn below(&self, other: &Self) -> bool {
        self.port < other.port
    }

    fn is_below(&self, other: &Self) -> (r: bool) {
        self.port < other.port
    }

    proof fn below_ranks(a: &Self, b: &Self, c: &Self) {
    }
}

/// The managed servers by their ports.
pub fn sort_servers(servers: Vec<ServerPlace>) -> (r: Vec<ServerPlace>)
    ensures
        r@ == order::by_rank(servers@),
{
    order::sort_by_rank(servers)
}

/// The number of processes that serve models and are not managed.
pub open spec fn strays(procs: Seq<RunningView>, managed: Seq<u32>) -> nat
    decreases procs.len(),
{
    if procs.len() == 0 {
        0
    } else {
        strays(procs.drop_last(), managed) + if is_stray(procs.last(), managed) {
            1nat
        } else {
            0nat
        }
    }
}

/// The number of processes that serve models and are not managed: with no
/// managed ones, of all that serve models.
pub fn count_strays(procs: &Vec<RunningProcess>, managed: &Vec<u32>) -> (r: usize)
    ensures
        r == strays(procs.deep_view(), managed@),
{
    let ghost ps = procs.deep_view();
    let mut n: usize = 0;
    let mut i: usize = 0;
    while i < procs.len()
        invariant
            i <= procs.len(),
            ps == procs.deep_view(),
            n <= i,
            n == strays(ps.take(i as int), managed@),
        decreases procs@.len() - i,
    {
        proof {
            assert(ps.take(i + 1).drop_last() =~= ps.take(i as int));
            assert(ps.take(i + 1).last() == procs@[i as int].deep_view());
        }
        if check_stray(&procs[i], managed) {
            n = n + 1;
        }
        i = i + 1;
    }
    assert(ps.take(i as int) =~= ps);
    n
}

// ---------------------------------------------------------------------------
// Requests
// ---------------------------------------------------------------------------

/// Whether a request to load a model has sense: the model may be left out,
/// but not be empty.
pub fn check_load(model_path: &Option<String>) -> (r: Result<(), ApiError>)
    ensures
        match r {
            Ok(_) => !(model_path.deep_view() matches Some(p) && p.len() == 0),
            Err(e) => (model_path.deep_view() matches Some(p) && p.len() == 0) && e.deep_view()
                == ApiErrorView::BadRequest(
                "model_path must not be empty (omit field for idle start)"@,
            ),
        },
{
    if let Some(p) = model_path {
        if p.as_str().is_empty() {
            return Err(
                api::bad_request("model_path must not be empty (omit field for idle start)"),
            );
        }
    }
    Ok(())
}

/// Whether a request to share a model has sense: it names one.
pub fn check_share(model_path: &str) -> (r: Result<(), ApiError>)
    ensures
        match r {
            Ok(_) => model_path@.len() > 0,
            Err(e) => model_path@.len() == 0 && e.deep_view() == ApiErrorView::BadRequest(
                "model_path required"@,
            ),
        },
{
    if model_path.is_empty() {
        Err(api::bad_request("model_path required"))
    } else {
        Ok(())
    }
}

/// The answer where no server is managed on a port.
pub fn unknown_port(port: u16) -> (r: ApiError)
    ensures
        r.deep_view() == ApiErrorView::NotFound("unknown port: "@ + text::dec(port as nat)),
{
    ApiError::NotFound(text::glue("unknown port: ", &text::decimal(port as u64)))
}

/// What is done about the watch over peers.
#[derive(Debug, Clone, Copy, PartialEq, Eq, Structural)]
pub enum HeartbeatAction {
    /// It is begun for the peers of the session.
    Start,
    /// It ends.
    Stop,
    /// It stays as it is.
    Keep,
}

/// What is done about the watch over peers when a model is loaded: it is
/// begun for a JACCL session that has peers, and ends for any other session.
pub fn heartbeat_for_load(backend: ServeBackend, peers: usize) -> (r: HeartbeatAction)
    ensures
        backend != ServeBackend::Jaccl ==> r == HeartbeatAction::Stop,
        backend == ServeBackend::Jaccl && peers > 0 ==> r == HeartbeatAction::Start,
        backend == ServeBackend::Jaccl && peers == 0 ==> r == HeartbeatAction::Keep,
{
    if backend != ServeBackend::Jaccl {
        HeartbeatAction::Stop
    } else if peers > 0 {
        HeartbeatAction::Start
    } else {
        HeartbeatAction::Keep
    }
}

/// What is done about the watch over peers when a model is shared: it is
/// begun for a JACCL session that has peers, and else stays as it is.
pub fn heartbeat_for_share(backend: ServeBackend, peers: usize) -> (r: HeartbeatAction)
    ensures
        backend == ServeBackend::Jaccl && peers > 0 ==> r == HeartbeatAction::Start,
        !(backend == ServeBackend::Jaccl && peers > 0) ==> r == HeartbeatAction::Keep,
{
    if backend == ServeBackend::Jaccl && peers > 0 {
        HeartbeatAction::Start
    } else {
        HeartbeatAction::Keep
    }
}

/// The request that loads the model of a server again, on the same engine and
/// backend and without options; there must be a model.
pub fn reload_request(model: Option<String>, backend: ServeBackend, engine: ServeEngine) -> (r:
    Result<LoadRequest, ApiError>)
    ensures
        match r {
            Ok(q) => model is Some && q.model_path == model && q.backend@ == backend.word()
                && q.engine == engine && q.hostfile is None && q.draft_model is None
                && q.extra_args is None && q.env is None && !q.pipeline && !q.use_mtp
                && q.num_draft_tokens is None && q.decode_concurrency is None
                && q.prompt_concurrency is None && q.prefill_step_size is None
                && q.prompt_cache_size is None && q.prompt_cache_bytes is None
                && q.cache_type is None && q.max_tokens is None && q.ctx_size is None
                && q.kv_bits is None && q.kv_quant_scheme is None && q.vision_cache_size is None,
            Err(e) => model is None && e.deep_view() == ApiErrorView::NotFound(
                "no model loaded"@,
            ),
        },
{
    match model {
        None => Err(api::not_found("no model loaded")),
        Some(m) => Ok(LoadRequest::plain(Some(m), text::own(backend.as_str()), engine)),
    }
}

/// The file that holds the devices of a worker.
pub fn devices_file(rank: u32) -> (r: String)
    ensures
        r@ == "asmi-ibv-"@ + text::dec(rank as nat) + ".json"@,
{
    let mut s: String = text::glue("asmi-ibv-", &text::decimal(rank as u64));
    s.append(".json");
    s
}

/// The file that holds the ring of a worker.
pub fn ring_file(rank: u32) -> (r: String)
    ensures
        r@ == "asmi-ring-"@ + text::dec(rank as nat) + ".json"@,
{
    let mut s: String = text::glue("asmi-ring-", &text::decimal(rank as u64));
    s.append(".json");
    s
}

/// The log of a worker.
pub fn worker_log(rank: u32) -> (r: String)
    ensures
        r@ == "/tmp/r1o-distributed-rank"@ + text::dec(rank as nat) + ".log"@,
{
    let mut s: String = text::glue("/tmp/r1o-distributed-rank", &text::decimal(rank as u64));
    s.append(".log");
    s
}

/// The adoption takes in the process: its own number on its own port, with the
/// first model that it serves, or else the one that it was started with, under
/// the engine of its framework.
pub open spec fn takes_in(a: AdoptionView, p: RunningView) -> bool {
    &&& p.port == Some(a.port)
    &&& a.pid == p.pid
    &&& p.server_models.len() > 0 ==> a.model == Some(p.server_models[0])
    &&& p.server_models.len() == 0 ==> a.model == p.model
    &&& a.engine == (match p.framework {
        ProcessFramework::MlxVlm => ServeEngine::MlxVlm,
        ProcessFramework::VllmMlx => ServeEngine::VllmMlx,
        ProcessFramework::DFlashProc => ServeEngine::DFlash,
        _ => ServeEngine::MlxLm,
    })
}

/// Some process that serves models and is not managed is taken in.
pub open spec fn is_taken_in(a: AdoptionView, procs: Seq<RunningView>, managed: Seq<u32>) -> bool {
    exists|i: int|
        0 <= i < procs.len() && takes_in(a, #[trigger] procs[i]) && !(procs[i].framework is Other)
            && !managed.contains(procs[i].pid)
}

/// Every process that serves models and is not managed is taken in on its
/// port, or listed without one; nothing else is.
pub proof fn every_stray_is_taken_in(ports: Seq<u16>, procs: Seq<RunningView>, managed: Seq<u32>)
    ensures
        ({
            let r = adopted(ports, procs, managed);
            &&& r.taken.len() + r.orphans.len() == strays(procs, managed)
            &&& forall|m: int|
                0 <= m < r.taken.len() ==> is_taken_in(#[trigger] r.taken[m], procs, managed)
            &&& forall|i: int|
                0 <= i < procs.len() && !((#[trigger] procs[i]).framework is Other)
                    && !managed.contains(procs[i].pid) ==> (if procs[i].port is Some {
                    exists|m: int| 0 <= m < r.taken.len() && takes_in(#[trigger] r.taken[m], procs[i])
                } else {
                    exists|m: int|
                        0 <= m < r.orphans.len() && (#[trigger] r.orphans[m]).pid == procs[i].pid
                            && r.orphans[m].engine == procs[i].label
                })
        }),
    decreases procs.len(),
{
    if procs.len() > 0 {
        let front = procs.drop_last();
        let p = procs.last();
        let k = procs.len() - 1;
        assert(procs[k] == p);
        every_stray_is_taken_in(ports, front, managed);
        let before = adopted(ports, front, managed);
        let r = adopted(ports, procs, managed);
        assert forall|m: int| 0 <= m < r.taken.len() implies is_taken_in(
            #[trigger] r.taken[m],
            procs,
            managed,
        ) by {
            if m < before.taken.len() {
                assert(r.taken[m] == before.taken[m]);
                let i = choose|i: int|
                    0 <= i < front.len() && takes_in(before.taken[m], #[trigger] front[i]) && !(
                    front[i].framework is Other) && !managed.contains(front[i].pid);
                assert(procs[i] == front[i]);
            } else {
                assert(takes_in(r.taken[m], procs[k]));
            }
        }
        assert forall|i: int|
            0 <= i < procs.len() && !((#[trigger] procs[i]).framework is Other)
                && !managed.contains(procs[i].pid) implies (if procs[i].port is Some {
            exists|m: int| 0 <= m < r.taken.len() && takes_in(#[trigger] r.taken[m], procs[i])
        } else {
            exists|m: int|
                0 <= m < r.orphans.len() && (#[trigger] r.orphans[m]).pid == procs[i].pid
                    && r.orphans[m].engine == procs[i].label
        }) by {
            if i < k {
                assert(front[i] == procs[i]);
                if procs[i].port is Some {
                    let m = choose|m: int|
                        0 <= m < before.taken.len() && takes_in(
                            #[trigger] before.taken[m],
                            front[i],
                        );
                    assert(r.taken[m] == before.taken[m]);
                } else {
                    let m = choose|m: int|
                        0 <= m < before.orphans.len() && (#[trigger] before.orphans[m]).pid
                            == front[i].pid && before.orphans[m].engine == front[i].label;
                    assert(r.orphans[m] == before.orphans[m]);
                }
            } else if p.port is Some {
                assert(takes_in(r.taken[before.taken.len() as int], procs[i]));
            } else {
                assert(r.orphans[before.orphans.len() as int].pid == p.pid);
            }
        }
    }
}

/// The strays are counted: the processes that serve models and are not
/// managed.
pub proof fn strays_are_counted(procs: Seq<RunningView>, managed: Seq<u32>)
    ensures
        strays(procs, managed) == procs.filter(
            |p: RunningView| !(p.framework is Other) && !managed.contains(p.pid),
        ).len(),
    decreases procs.len(),
{
    reveal(Seq::filter);
    if procs.len() > 0 {
        strays_are_counted(procs.drop_last(), managed);
    }
}

/// The word of a framework stands for it alone, and any other word for a
/// process that serves no models.
pub proof fn words_stand_for_frameworks(word: Seq<char>)
    ensures
        framework_for_word("mlx_lm"@) is MlxLm,
        framework_for_word("mlx_lm_share"@) is MlxLmShare,
        framework_for_word("mlx_vlm"@) is MlxVlm,
        framework_for_word("vllm_mlx"@) is VllmMlx,
        framework_for_word("mlx_audio"@) is MlxAudio,
        framework_for_word("dflash"@) is DFlashProc,
        framework_for_word(word) is Other <==> word != "mlx_lm"@ && word != "mlx_lm_share"@ && word
            != "mlx_vlm"@ && word != "vllm_mlx"@ && word != "mlx_audio"@ && word != "dflash"@,
{
    reveal_strlit("mlx_lm");
    reveal_strlit("mlx_lm_share");
    reveal_strlit("mlx_vlm");
    reveal_strlit("vllm_mlx");
    reveal_strlit("mlx_audio");
    reveal_strlit("dflash");
    assert("mlx_lm"@.len() == 6 && "mlx_lm_share"@.len() == 12 && "mlx_vlm"@.len() == 7);
    assert("vllm_mlx"@.len() == 8 && "mlx_audio"@.len() == 9 && "dflash"@.len() == 6);
    assert("mlx_lm"@[0] == 'm' && "dflash"@[0] == 'd');
}

/// Whether an orphan is shown with what its process says of itself.
pub open spec fn shows_orphan(o: OrphanView, p: RunningView) -> bool {
    &&& o.pid == p.pid
    &&& o.engine == p.label
    &&& p.server_models.len() > 0 ==> o.models == p.server_models
    &&& p.server_models.len() == 0 && p.model is None ==> o.models.len() == 0
    &&& p.server_models.len() == 0 ==> (p.model matches Some(m) ==> o.models == seq![m])
}

/// Every stray without a port is told as an orphan, with the models that it
/// serves, and nothing else is.
pub proof fn every_orphan_is_told(ports: Seq<u16>, procs: Seq<RunningView>, managed: Seq<u32>, i: int)
    requires
        0 <= i < procs.len(),
        is_stray(procs[i], managed),
        procs[i].port is None,
    ensures
        exists|j: int|
            0 <= j < adopted(ports, procs, managed).orphans.len() && shows_orphan(
                #[trigger] adopted(ports, procs, managed).orphans[j],
                procs[i],
            ),
    decreases procs.len(),
{
    let front = procs.drop_last();
    let a = adopted(ports, front, managed);
    let b = adopted(ports, procs, managed);
    if i < front.len() {
        assert(front[i] == procs[i]);
        every_orphan_is_told(ports, front, managed, i);
        let j = choose|j: int|
            0 <= j < a.orphans.len() && shows_orphan(#[trigger] a.orphans[j], procs[i]);
        assert(b.orphans[j] == a.orphans[j]);
    } else {
        assert(shows_orphan(b.orphans[a.orphans.len() as int], procs[i]));
    }
}

/// There are no more orphans than strays without a port.
pub proof fn orphans_are_strays(ports: Seq<u16>, procs: Seq<RunningView>, managed: Seq<u32>)
    ensures
        adopted(ports, procs, managed).orphans.len() == procs.filter(
            |p: RunningView| is_stray(p, managed) && p.port is None,
        ).len(),
    decreases procs.len(),
{
    reveal(Seq::filter);
    if procs.len() > 0 {
        orphans_are_strays(ports, procs.drop_last(), managed);
    }
}

} // verus!
