//! The command lines of model servers.

use crate::serve;
use crate::serve::{ServeBackend, ServeEngine};
use crate::text;
use vstd::prelude::*;
use vstd::string::*;

verus! {

/// A request to load a model.
pub struct LoadRequest {
    /// The model, or none for a server without one.
    pub model_path: Option<String>,
    pub backend: String,
    pub hostfile: Option<String>,
    pub engine: ServeEngine,
    pub draft_model: Option<String>,
    pub num_draft_tokens: Option<u64>,
    pub decode_concurrency: Option<u64>,
    pub prompt_concurrency: Option<u64>,
    pub prefill_step_size: Option<u64>,
    pub prompt_cache_size: Option<u64>,
    pub prompt_cache_bytes: Option<u64>,
    pub pipeline: bool,
    pub use_mtp: bool,
    pub cache_type: Option<String>,
    pub max_tokens: Option<u64>,
    pub ctx_size: Option<u64>,
    /// Arguments that are handed on as they are, behind all others.
    pub extra_args: Option<Vec<String>>,
    pub env: Option<Vec<(String, String)>>,
    /// The number of bits, as it is written.
    pub kv_bits: Option<String>,
    pub kv_quant_scheme: Option<String>,
    pub vision_cache_size: Option<u64>,
}

impl LoadRequest {
    /// The request has no options.
    pub open spec fn is_plain(&self) -> bool {
        &&& self.draft_model is None
        &&& self.num_draft_tokens is None
        &&& self.decode_concurrency is None
        &&& self.prompt_concurrency is None
        &&& self.prefill_step_size is None
        &&& self.prompt_cache_size is None
        &&& self.prompt_cache_bytes is None
        &&& !self.pipeline
        &&& !self.use_mtp
        &&& self.cache_type is None
        &&& self.max_tokens is None
        &&& self.ctx_size is None
        &&& self.extra_args is None
        &&& self.env is None
        &&& self.kv_bits is None
        &&& self.kv_quant_scheme is None
        &&& self.vision_cache_size is None
    }

    /// A request without options.
    pub fn plain(model_path: Option<String>, backend: String, engine: ServeEngine) -> (r: LoadRequest)
        ensures
            r.model_path == model_path,
            r.backend == backend,
            r.engine == engine,
            r.hostfile is None,
            r.is_plain(),
    {
        LoadRequest {
            model_path,
            backend,
            hostfile: None,
            engine,
            draft_model: None,
            num_draft_tokens: None,
            decode_concurrency: None,
            prompt_concurrency: None,
            prefill_step_size: None,
            prompt_cache_size: None,
            prompt_cache_bytes: None,
            pipeline: false,
            use_mtp: false,
            cache_type: None,
            max_tokens: None,
            ctx_size: None,
            extra_args: None,
            env: None,
            kv_bits: None,
            kv_quant_scheme: None,
            vision_cache_size: None,
        }
    }
}

/// How an engine is started.
pub struct EngineConfig {
    pub binary: String,
    pub binary_args: Vec<String>,
    /// The flag before the model, for engines that load it when they start.
    pub model_flag: Option<String>,
    /// The application, for engines that run under `uvicorn`.
    pub uvicorn_app: Option<String>,
}

/// What the machine has: the home directory and the paths of programs. A path
/// that was not found is the message that says so.
pub struct LaunchEnv {
    pub home: Option<String>,
    pub python: String,
    pub media_script: Result<String, String>,
    pub native_binary: Result<String, String>,
    pub mlx_launch: String,
}

// ---------------------------------------------------------------------------
// Arguments
// ---------------------------------------------------------------------------

/// The arguments with a flag and its value, if there is a value.
pub open spec fn with_text(
    args: Seq<Seq<char>>,
    flag: Seq<char>,
    value: Option<Seq<char>>,
) -> Seq<Seq<char>> {
    match value {
        Some(v) => args.push(flag).push(v),
        None => args,
    }
}

/// The arguments with a flag and its number, if there is a number.
pub open spec fn with_number(args: Seq<Seq<char>>, flag: Seq<char>, n: Option<u64>) -> Seq<
    Seq<char>,
> {
    match n {
        Some(v) => args.push(flag).push(text::dec(v as nat)),
        None => args,
    }
}

/// The arguments with a flag, if it is set.
pub open spec fn with_switch(args: Seq<Seq<char>>, flag: Seq<char>, on: bool) -> Seq<Seq<char>> {
    if on {
        args.push(flag)
    } else {
        args
    }
}

/// Adds a flag and its value, if there is a value.
fn add_text(args: &mut Vec<String>, flag: &str, value: &Option<String>)
    ensures
        final(args).deep_view() == with_text(old(args).deep_view(), flag@, value.deep_view()),
{
    if let Some(v) = value {
        text::push_str(args, flag);
        text::push_str(args, v);
    }
}

/// Adds a flag and its number, if there is a number.
fn add_number(args: &mut Vec<String>, flag: &str, n: Option<u64>)
    ensures
        final(args).deep_view() == with_number(old(args).deep_view(), flag@, n),
{
    if let Some(v) = n {
        text::push_str(args, flag);
        text::push_text(args, text::decimal(v));
    }
}

/// Adds a flag, if it is set.
fn add_switch(args: &mut Vec<String>, flag: &str, on: bool)
    ensures
        final(args).deep_view() == with_switch(old(args).deep_view(), flag@, on),
{
    if on {
        text::push_str(args, flag);
    }
}

/// Adds all of `more`.
pub fn add_all(args: &mut Vec<String>, more: &Vec<String>)
    ensures
        final(args).deep_view() == old(args).deep_view() + more.deep_view(),
{
    let ghost a = args.deep_view();
    let ghost b = more.deep_view();
    let mut i: usize = 0;
    assert(a + b.take(0) =~= a);
    while i < more.len()
        invariant
            i <= more@.len(),
            b == more.deep_view(),
            args.deep_view() == a + b.take(i as int),
        decreases more@.len() - i,
    {
        text::push_str(args, &more[i]);
        i = i + 1;
        assert(args.deep_view() =~= a + b.take(i as int));
    }
    assert(b.take(i as int) =~= b);
}

/// The model of a request, with a leading `~/` expanded.
pub open spec fn model_of(req: LoadRequest, home: Option<Seq<char>>) -> Option<Seq<char>> {
    match req.model_path.deep_view() {
        Some(p) => Some(serve::tilde_expanded(p, home)),
        None => None,
    }
}

/// The arguments with the flag and path of the model, where the engine has
/// such a flag and there is a model.
pub open spec fn with_model(
    args: Seq<Seq<char>>,
    flag: Option<Seq<char>>,
    model: Option<Seq<char>>,
) -> Seq<Seq<char>> {
    match flag {
        Some(f) => with_text(args, f, model),
        None => args,
    }
}

/// The arguments of a native server.
pub open spec fn native_args(
    req: LoadRequest,
    port: u16,
    flag: Option<Seq<char>>,
    model: Option<Seq<char>>,
) -> Seq<Seq<char>> {
    let a = with_model(Seq::empty(), flag, model).push("--port"@).push(text::dec(port as nat)).push(
        "--host"@,
    ).push("0.0.0.0"@).push("--metal"@);
    let b = with_number(a, "-c"@, req.ctx_size);
    match req.draft_model.deep_view() {
        Some(draft) => with_number(
            b.push("--mtp"@).push(draft),
            "--mtp-draft"@,
            req.num_draft_tokens,
        ),
        None => b,
    }
}

/// The arguments of a server that runs under `uvicorn`.
pub open spec fn uvicorn_args(app: Seq<char>, port: u16) -> Seq<Seq<char>> {
    seq![
        "-m"@,
        "uvicorn"@,
        app,
        "--host"@,
        "0.0.0.0"@,
        "--port"@,
        text::dec(port as nat),
        "--workers"@,
        "1"@,
        "--no-access-log"@,
    ]
}

/// The tuning flags of `mlx_lm`.
pub open spec fn with_tuning(args: Seq<Seq<char>>, req: LoadRequest) -> Seq<Seq<char>> {
    let a = with_text(args, "--draft-model"@, req.draft_model.deep_view());
    let a = with_number(a, "--num-draft-tokens"@, req.num_draft_tokens);
    let a = with_number(a, "--decode-concurrency"@, req.decode_concurrency);
    let a = with_number(a, "--prompt-concurrency"@, req.prompt_concurrency);
    let a = with_number(a, "--prefill-step-size"@, req.prefill_step_size);
    let a = with_number(a, "--prompt-cache-size"@, req.prompt_cache_size);
    let a = with_number(a, "--prompt-cache-bytes"@, req.prompt_cache_bytes);
    let a = with_switch(a, "--pipeline"@, req.pipeline);
    let a = with_switch(a, "--mtp"@, req.use_mtp);
    let a = with_text(a, "--cache-type-k"@, req.cache_type.deep_view());
    let a = with_text(a, "--cache-type-v"@, req.cache_type.deep_view());
    with_number(a, "--max-tokens"@, req.max_tokens)
}

/// The arguments of a server that is a Python module.
pub open spec fn module_args(
    req: LoadRequest,
    port: u16,
    engine: ServeEngine,
    cfg: EngineConfig,
    model: Option<Seq<char>>,
) -> Seq<Seq<char>> {
    let a = seq!["-m"@, cfg.binary@] + cfg.binary_args.deep_view();
    let b = with_model(a, cfg.model_flag.deep_view(), model).push("--port"@).push(
        text::dec(port as nat),
    ).push("--host"@).push("0.0.0.0"@);
    if engine is DFlash {
        with_text(b, "--draft"@, req.draft_model.deep_view())
    } else if engine is MlxLm || engine is MlxLmShare {
        with_tuning(b, req)
    } else {
        b
    }
}

/// The program and the arguments of a server on one node, or what to say
/// where its program was not found.
pub open spec fn node_command(
    req: LoadRequest,
    port: u16,
    engine: ServeEngine,
    cfg: EngineConfig,
    env: LaunchEnv,
) -> Result<(Seq<char>, Seq<Seq<char>>), Seq<char>> {
    let model = model_of(req, env.home.deep_view());
    if engine.media() {
        match env.media_script {
            Ok(script) => Ok((env.python@, seq![script@])),
            Err(e) => Err(e@),
        }
    } else if engine is Ds4 {
        match env.native_binary {
            Ok(path) => Ok((path@, native_args(req, port, cfg.model_flag.deep_view(), model))),
            Err(e) => Err(e@),
        }
    } else {
        match cfg.uvicorn_app.deep_view() {
            Some(app) => Ok((env.python@, uvicorn_args(app, port))),
            None => Ok((env.python@, module_args(req, port, engine, cfg, model))),
        }
    }
}

/// The arguments that the caller hands on.
pub open spec fn extra_of(req: LoadRequest) -> Seq<Seq<char>> {
    match req.extra_args.deep_view() {
        Some(extra) => extra,
        None => Seq::empty(),
    }
}

/// The hostfile of a request, or the default one.
pub open spec fn hostfile_of(req: LoadRequest, home: Option<Seq<char>>) -> Seq<char> {
    match req.hostfile.deep_view() {
        Some(hf) => hf,
        None => serve::path_below(serve::config_dir(home), "hostfiles/default.json"@),
    }
}

/// The flags that hand the first `k` variables to every node.
pub open spec fn with_env(
    args: Seq<Seq<char>>,
    vars: Seq<(Seq<char>, Seq<char>)>,
    k: nat,
) -> Seq<Seq<char>>
    decreases k,
{
    if k == 0 {
        args
    } else {
        with_env(args, vars, (k - 1) as nat).push("--env"@).push(
            vars[k - 1].0 + "="@ + vars[k - 1].1,
        )
    }
}

/// The arguments of `mlx.launch` up to the command that it starts.
pub open spec fn launch_args(req: LoadRequest, backend: ServeBackend, home: Option<Seq<char>>) -> Seq<
    Seq<char>,
> {
    let vars = serve::env_forwarded(serve::pairs_or_none(req.env.deep_view()));
    with_env(
        seq![
            "--hostfile"@,
            hostfile_of(req, home),
            "--backend"@,
            backend.word(),
            "--env"@,
            "MLX_DISTRIBUTED_BACKEND="@ + backend.word(),
            "--env"@,
            "MLX_METAL_FAST_SYNCH=1"@,
        ],
        vars,
        vars.len(),
    ).push("--"@)
}

/// The server is started on every node: there is a model, the backend is
/// distributed, and the engine loads its model when it starts.
pub open spec fn launched(req: LoadRequest, backend: ServeBackend, cfg: EngineConfig) -> bool {
    req.model_path is Some && backend.distributed() && cfg.model_flag is Some
}

/// The program and the arguments that a request leads to.
pub open spec fn command_of(
    req: LoadRequest,
    port: u16,
    engine: ServeEngine,
    backend: ServeBackend,
    cfg: EngineConfig,
    env: LaunchEnv,
) -> Result<(Seq<char>, Seq<Seq<char>>), Seq<char>> {
    match node_command(req, port, engine, cfg, env) {
        Err(e) => Err(e),
        Ok(c) => {
            let args = c.1 + extra_of(req);
            if launched(req, backend, cfg) {
                Ok(
                    (
                        env.mlx_launch@,
                        launch_args(req, backend, env.home.deep_view()).push(c.0) + args,
                    ),
                )
            } else {
                Ok((c.0, args))
            }
        },
    }
}

/// The result says what the command is.
pub open spec fn says(
    r: Result<(String, Vec<String>), String>,
    s: Result<(Seq<char>, Seq<Seq<char>>), Seq<char>>,
) -> bool {
    match r {
        Ok(c) => s matches Ok(w) && c.0@ == w.0 && c.1.deep_view() == w.1,
        Err(e) => s matches Err(w) && e@ == w,
    }
}

/// The arguments of a native server.
fn build_native(
    req: &LoadRequest,
    port: u16,
    cfg: &EngineConfig,
    model: &Option<String>,
) -> (r: Vec<String>)
    ensures
        r.deep_view() == native_args(*req, port, cfg.model_flag.deep_view(), model.deep_view()),
{
    let mut args: Vec<String> = Vec::new();
    assert(args.deep_view() =~= Seq::<Seq<char>>::empty());
    if let Some(flag) = &cfg.model_flag {
        add_text(&mut args, flag, model);
    }
    text::push_str(&mut args, "--port");
    text::push_text(&mut args, text::decimal(port as u64));
    text::push_str(&mut args, "--host");
    text::push_str(&mut args, "0.0.0.0");
    text::push_str(&mut args, "--metal");
    add_number(&mut args, "-c", req.ctx_size);
    if let Some(draft) = &req.draft_model {
        text::push_str(&mut args, "--mtp");
        text::push_str(&mut args, draft);
        add_number(&mut args, "--mtp-draft", req.num_draft_tokens);
    }
    args
}

/// The arguments of a server that runs under `uvicorn`.
fn build_uvicorn(app: &str, port: u16) -> (r: Vec<String>)
    ensures
        r.deep_view() == uvicorn_args(app@, port),
{
    let mut args: Vec<String> = Vec::new();
    text::push_str(&mut args, "-m");
    text::push_str(&mut args, "uvicorn");
    text::push_str(&mut args, app);
    text::push_str(&mut args, "--host");
    text::push_str(&mut args, "0.0.0.0");
    text::push_str(&mut args, "--port");
    text::push_text(&mut args, text::decimal(port as u64));
    text::push_str(&mut args, "--workers");
    text::push_str(&mut args, "1");
    text::push_str(&mut args, "--no-access-log");
    assert(args.deep_view() =~= uvicorn_args(app@, port));
    args
}

/// Adds the tuning flags of `mlx_lm`.
fn add_tuning(args: &mut Vec<String>, req: &LoadRequest)
    ensures
        final(args).deep_view() == with_tuning(old(args).deep_view(), *req),
{
    add_text(args, "--draft-model", &req.draft_model);
    add_number(args, "--num-draft-tokens", req.num_draft_tokens);
    add_number(args, "--decode-concurrency", req.decode_concurrency);
    add_number(args, "--prompt-concurrency", req.prompt_concurrency);
    add_number(args, "--prefill-step-size", req.prefill_step_size);
    add_number(args, "--prompt-cache-size", req.prompt_cache_size);
    add_number(args, "--prompt-cache-bytes", req.prompt_cache_bytes);
    add_switch(args, "--pipeline", req.pipeline);
    add_switch(args, "--mtp", req.use_mtp);
    add_text(args, "--cache-type-k", &req.cache_type);
    add_text(args, "--cache-type-v", &req.cache_type);
    add_number(args, "--max-tokens", req.max_tokens);
}

/// The arguments of a server that is a Python module.
fn build_module(
    req: &LoadRequest,
    port: u16,
    engine: ServeEngine,
    cfg: &EngineConfig,
    model: &Option<String>,
) -> (r: Vec<String>)
    ensures
        r.deep_view() == module_args(*req, port, engine, *cfg, model.deep_view()),
{
    let mut args: Vec<String> = Vec::new();
    text::push_str(&mut args, "-m");
    text::push_str(&mut args, &cfg.binary);
    assert(args.deep_view() =~= seq!["-m"@, cfg.binary@]);
    add_all(&mut args, &cfg.binary_args);
    if let Some(flag) = &cfg.model_flag {
        add_text(&mut args, flag, model);
    }
    text::push_str(&mut args, "--port");
    text::push_text(&mut args, text::decimal(port as u64));
    text::push_str(&mut args, "--host");
    text::push_str(&mut args, "0.0.0.0");
    match engine {
        ServeEngine::DFlash => add_text(&mut args, "--draft", &req.draft_model),
        ServeEngine::MlxLm | ServeEngine::MlxLmShare => add_tuning(&mut args, req),
        _ => {},
    }
    args
}

/// The model of a request, with a leading `~/` expanded.
pub fn expanded_model(req: &LoadRequest, home: &Option<String>) -> (r: Option<String>)
    ensures
        r.deep_view() == model_of(*req, home.deep_view()),
{
    match &req.model_path {
        Some(p) => Some(serve::expand_home(p, home)),
        None => None,
    }
}

/// A copy of a result of looking for a program.
fn found(r: &Result<String, String>) -> (c: Result<String, String>)
    ensures
        r matches Ok(s) ==> (c matches Ok(t) && t@ == s@),
        r matches Err(s) ==> (c matches Err(t) && t@ == s@),
{
    match r {
        Ok(s) => Ok(text::own(s)),
        Err(s) => Err(text::own(s)),
    }
}

/// The program and the arguments of a server on one node.
fn build_node(
    req: &LoadRequest,
    port: u16,
    engine: ServeEngine,
    cfg: &EngineConfig,
    env: &LaunchEnv,
) -> (r: Result<(String, Vec<String>), String>)
    ensures
        says(r, node_command(*req, port, engine, *cfg, *env)),
{
    let model: Option<String> = expanded_model(req, &env.home);
    if engine.is_media() {
        match found(&env.media_script) {
            Ok(script) => {
                let mut args: Vec<String> = Vec::new();
                text::push_text(&mut args, script);
                assert(args.deep_view() =~= seq![script@]);
                Ok((text::own(&env.python), args))
            },
            Err(e) => Err(e),
        }
    } else if matches!(engine, ServeEngine::Ds4) {
        match found(&env.native_binary) {
            Ok(path) => Ok((path, build_native(req, port, cfg, &model))),
            Err(e) => Err(e),
        }
    } else {
        match &cfg.uvicorn_app {
            Some(app) => Ok((text::own(&env.python), build_uvicorn(app, port))),
            None => Ok((text::own(&env.python), build_module(req, port, engine, cfg, &model))),
        }
    }
}

/// The arguments of `mlx.launch` up to the command that it starts.
fn build_launch(req: &LoadRequest, backend: ServeBackend, home: &Option<String>) -> (r: Vec<String>)
    ensures
        r.deep_view() == launch_args(*req, backend, home.deep_view()),
{
    let hf: String = match &req.hostfile {
        Some(h) => text::own(h),
        None => serve::default_hostfile(home),
    };
    let mut args: Vec<String> = Vec::new();
    text::push_str(&mut args, "--hostfile");
    text::push_text(&mut args, hf);
    text::push_str(&mut args, "--backend");
    text::push_str(&mut args, backend.as_str());
    text::push_str(&mut args, "--env");
    text::push_text(&mut args, text::glue("MLX_DISTRIBUTED_BACKEND=", backend.as_str()));
    text::push_str(&mut args, "--env");
    text::push_str(&mut args, "MLX_METAL_FAST_SYNCH=1");
    let ghost start = args.deep_view();
    assert(start =~= seq![
        "--hostfile"@,
        hostfile_of(*req, home.deep_view()),
        "--backend"@,
        backend.word(),
        "--env"@,
        "MLX_DISTRIBUTED_BACKEND="@ + backend.word(),
        "--env"@,
        "MLX_METAL_FAST_SYNCH=1"@,
    ]);
    let vars: Vec<(String, String)> = serve::allowlisted_env(&req.env);
    let ghost vs = vars.deep_view();
    let mut i: usize = 0;
    while i < vars.len()
        invariant
            i <= vars@.len(),
            vs == vars.deep_view(),
            args.deep_view() == with_env(start, vs, i as nat),
        decreases vars@.len() - i,
    {
        assert(vs[i as int] == vars@[i as int].deep_view());
        text::push_str(&mut args, "--env");
        let mut pair: String = text::glue(&vars[i].0, "=");
        pair.append(&vars[i].1);
        text::push_text(&mut args, pair);
        i = i + 1;
    }
    text::push_str(&mut args, "--");
    args
}

/// The program and the arguments that a request leads to. The same builder
/// serves the start of a server and a preview of it. A leading `~/` of the
/// model is expanded; the caller's extra arguments come last.
pub fn build_serve_argv(
    req: &LoadRequest,
    port: u16,
    engine: ServeEngine,
    backend: ServeBackend,
    cfg: &EngineConfig,
    env: &LaunchEnv,
) -> (r: Result<(String, Vec<String>), String>)
    ensures
        says(r, command_of(*req, port, engine, backend, *cfg, *env)),
{
    match build_node(req, port, engine, cfg, env) {
        Err(e) => Err(e),
        Ok((program, args0)) => {
            let mut args: Vec<String> = args0;
            let ghost base = args.deep_view();
            match &req.extra_args {
                Some(extra) => add_all(&mut args, extra),
                None => {
                    assert(base + Seq::<Seq<char>>::empty() =~= base);
                },
            }
            if req.model_path.is_some() && backend.is_distributed() && cfg.model_flag.is_some() {
                let mut all: Vec<String> = build_launch(req, backend, &env.home);
                text::push_text(&mut all, program);
                add_all(&mut all, &args);
                Ok((text::own(&env.mlx_launch), all))
            } else {
                Ok((program, args))
            }
        },
    }
}

/// The caller's extra arguments come last, so that they override all others,
/// on one node and on several.
pub proof fn extra_arguments_come_last(
    req: LoadRequest,
    port: u16,
    engine: ServeEngine,
    backend: ServeBackend,
    cfg: EngineConfig,
    env: LaunchEnv,
)
    requires
        command_of(req, port, engine, backend, cfg, env) is Ok,
    ensures
        ({
            let args = command_of(req, port, engine, backend, cfg, env)->Ok_0.1;
            let extra = extra_of(req);
            extra.len() <= args.len() && args.skip(args.len() - extra.len()) == extra
        }),
{
    let args = command_of(req, port, engine, backend, cfg, env)->Ok_0.1;
    let extra = extra_of(req);
    assert(args.skip(args.len() - extra.len()) =~= extra);
}

/// On several nodes the command behind `--` is the one that a single node
/// runs.
pub proof fn launch_wraps_the_node_command(
    req: LoadRequest,
    port: u16,
    engine: ServeEngine,
    backend: ServeBackend,
    cfg: EngineConfig,
    env: LaunchEnv,
)
    requires
        launched(req, backend, cfg),
        node_command(req, port, engine, cfg, env) is Ok,
    ensures
        ({
            let alone = command_of(req, port, engine, ServeBackend::Single, cfg, env)->Ok_0;
            let spread = command_of(req, port, engine, backend, cfg, env)->Ok_0;
            let head = launch_args(req, backend, env.home.deep_view());
            &&& head.last() == "--"@
            &&& spread.1 == head.push(alone.0) + alone.1
        }),
{
}

/// A start without a model gives no model flag, whatever flag the engine has.
pub proof fn bare_start_has_no_model(args: Seq<Seq<char>>, flag: Option<Seq<char>>)
    ensures
        with_model(args, flag, None) == args,
{
}

/// The flag stands among the arguments with the value behind it.
pub open spec fn gives(args: Seq<Seq<char>>, flag: Seq<char>, value: Seq<char>) -> bool {
    exists|i: int| 0 <= i && i + 1 < args.len() && #[trigger] args[i] == flag && args[i + 1] == value
}

/// The arguments begin with others.
pub open spec fn extends(args: Seq<Seq<char>>, front: Seq<Seq<char>>) -> bool {
    front.len() <= args.len() && args.take(front.len() as int) == front
}

/// What arguments give, they give also where others follow.
proof fn given_stays_given(
    front: Seq<Seq<char>>,
    args: Seq<Seq<char>>,
    flag: Seq<char>,
    value: Seq<char>,
)
    requires
        extends(args, front),
        gives(front, flag, value),
    ensures
        gives(args, flag, value),
{
    let i = choose|i: int|
        0 <= i && i + 1 < front.len() && #[trigger] front[i] == flag && front[i + 1] == value;
    assert(args.take(front.len() as int)[i] == args[i]);
    assert(args.take(front.len() as int)[i + 1] == args[i + 1]);
}

/// Arguments behind others behind others.
proof fn extends_further(a: Seq<Seq<char>>, b: Seq<Seq<char>>, c: Seq<Seq<char>>)
    requires
        extends(b, a),
        extends(c, b),
    ensures
        extends(c, a),
{
    assert(c.take(a.len() as int) =~= c.take(b.len() as int).take(a.len() as int));
}

/// A flag with a text gives that text, and keeps what was there.
proof fn text_is_given(args: Seq<Seq<char>>, flag: Seq<char>, value: Option<Seq<char>>)
    ensures
        extends(with_text(args, flag, value), args),
        value matches Some(v) ==> gives(with_text(args, flag, value), flag, v),
{
    let r = with_text(args, flag, value);
    assert(r.take(args.len() as int) =~= args);
    if let Some(v) = value {
        assert(r[args.len() as int] == flag && r[args.len() as int + 1] == v);
    }
}

/// A flag with a number gives that number, and keeps what was there.
proof fn number_is_given(args: Seq<Seq<char>>, flag: Seq<char>, n: Option<u64>)
    ensures
        extends(with_number(args, flag, n), args),
        n matches Some(v) ==> gives(with_number(args, flag, n), flag, text::dec(v as nat)),
{
    let r = with_number(args, flag, n);
    assert(r.take(args.len() as int) =~= args);
    if let Some(v) = n {
        assert(r[args.len() as int] == flag && r[args.len() as int + 1] == text::dec(v as nat));
    }
}

/// A flag that is set stands there, and what was there stays.
proof fn switch_is_set(args: Seq<Seq<char>>, flag: Seq<char>, on: bool)
    ensures
        extends(with_switch(args, flag, on), args),
        on ==> with_switch(args, flag, on).contains(flag),
{
    let r = with_switch(args, flag, on);
    assert(r.take(args.len() as int) =~= args);
    if on {
        assert(r[args.len() as int] == flag);
    }
}

/// What stands among arguments stands there also where others follow.
proof fn set_stays_set(front: Seq<Seq<char>>, args: Seq<Seq<char>>, flag: Seq<char>)
    requires
        extends(args, front),
        front.contains(flag),
    ensures
        args.contains(flag),
{
    let i = choose|i: int| 0 <= i < front.len() && front[i] == flag;
    assert(args.take(front.len() as int)[i] == args[i]);
}

/// Each wish of a request for `mlx_lm` is given with its own flag.
pub open spec fn tuning_given(args: Seq<Seq<char>>, req: LoadRequest) -> bool {
    &&& req.draft_model.deep_view() matches Some(v) ==> gives(args, "--draft-model"@, v)
    &&& req.num_draft_tokens matches Some(n) ==> gives(
        args,
        "--num-draft-tokens"@,
        text::dec(n as nat),
    )
    &&& req.decode_concurrency matches Some(n) ==> gives(
        args,
        "--decode-concurrency"@,
        text::dec(n as nat),
    )
    &&& req.prompt_concurrency matches Some(n) ==> gives(
        args,
        "--prompt-concurrency"@,
        text::dec(n as nat),
    )
    &&& req.prefill_step_size matches Some(n) ==> gives(
        args,
        "--prefill-step-size"@,
        text::dec(n as nat),
    )
    &&& req.prompt_cache_size matches Some(n) ==> gives(
        args,
        "--prompt-cache-size"@,
        text::dec(n as nat),
    )
    &&& req.prompt_cache_bytes matches Some(n) ==> gives(
        args,
        "--prompt-cache-bytes"@,
        text::dec(n as nat),
    )
    &&& req.pipeline ==> args.contains("--pipeline"@)
    &&& req.use_mtp ==> args.contains("--mtp"@)
    &&& req.cache_type.deep_view() matches Some(v) ==> gives(args, "--cache-type-k"@, v) && gives(
        args,
        "--cache-type-v"@,
        v,
    )
    &&& req.max_tokens matches Some(n) ==> gives(args, "--max-tokens"@, text::dec(n as nat))
}

/// The tuning flags are given, and behind what was there.
proof fn tuning_is_given(args: Seq<Seq<char>>, req: LoadRequest)
    ensures
        extends(with_tuning(args, req), args),
        tuning_given(with_tuning(args, req), req),
{
    let r = with_tuning(args, req);
    let a1 = with_text(args, "--draft-model"@, req.draft_model.deep_view());
    let a2 = with_number(a1, "--num-draft-tokens"@, req.num_draft_tokens);
    let a3 = with_number(a2, "--decode-concurrency"@, req.decode_concurrency);
    let a4 = with_number(a3, "--prompt-concurrency"@, req.prompt_concurrency);
    let a5 = with_number(a4, "--prefill-step-size"@, req.prefill_step_size);
    let a6 = with_number(a5, "--prompt-cache-size"@, req.prompt_cache_size);
    let a7 = with_number(a6, "--prompt-cache-bytes"@, req.prompt_cache_bytes);
    let a8 = with_switch(a7, "--pipeline"@, req.pipeline);
    let a9 = with_switch(a8, "--mtp"@, req.use_mtp);
    let a10 = with_text(a9, "--cache-type-k"@, req.cache_type.deep_view());
    let a11 = with_text(a10, "--cache-type-v"@, req.cache_type.deep_view());
    assert(r == with_number(a11, "--max-tokens"@, req.max_tokens));
    number_is_given(a11, "--max-tokens"@, req.max_tokens);
    text_is_given(a10, "--cache-type-v"@, req.cache_type.deep_view());
    extends_further(a10, a11, r);
    text_is_given(a9, "--cache-type-k"@, req.cache_type.deep_view());
    extends_further(a9, a10, r);
    switch_is_set(a8, "--mtp"@, req.use_mtp);
    extends_further(a8, a9, r);
    switch_is_set(a7, "--pipeline"@, req.pipeline);
    extends_further(a7, a8, r);
    number_is_given(a6, "--prompt-cache-bytes"@, req.prompt_cache_bytes);
    extends_further(a6, a7, r);
    number_is_given(a5, "--prompt-cache-size"@, req.prompt_cache_size);
    extends_further(a5, a6, r);
    number_is_given(a4, "--prefill-step-size"@, req.prefill_step_size);
    extends_further(a4, a5, r);
    number_is_given(a3, "--prompt-concurrency"@, req.prompt_concurrency);
    extends_further(a3, a4, r);
    number_is_given(a2, "--decode-concurrency"@, req.decode_concurrency);
    extends_further(a2, a3, r);
    number_is_given(a1, "--num-draft-tokens"@, req.num_draft_tokens);
    extends_further(a1, a2, r);
    text_is_given(args, "--draft-model"@, req.draft_model.deep_view());
    extends_further(args, a1, r);
    if let Some(v) = req.draft_model.deep_view() {
        given_stays_given(a1, r, "--draft-model"@, v);
    }
    if let Some(n) = req.num_draft_tokens {
        given_stays_given(a2, r, "--num-draft-tokens"@, text::dec(n as nat));
    }
    if let Some(n) = req.decode_concurrency {
        given_stays_given(a3, r, "--decode-concurrency"@, text::dec(n as nat));
    }
    if let Some(n) = req.prompt_concurrency {
        given_stays_given(a4, r, "--prompt-concurrency"@, text::dec(n as nat));
    }
    if let Some(n) = req.prefill_step_size {
        given_stays_given(a5, r, "--prefill-step-size"@, text::dec(n as nat));
    }
    if let Some(n) = req.prompt_cache_size {
        given_stays_given(a6, r, "--prompt-cache-size"@, text::dec(n as nat));
    }
    if let Some(n) = req.prompt_cache_bytes {
        given_stays_given(a7, r, "--prompt-cache-bytes"@, text::dec(n as nat));
    }
    if req.pipeline {
        set_stays_set(a8, r, "--pipeline"@);
    }
    if req.use_mtp {
        set_stays_set(a9, r, "--mtp"@);
    }
    if let Some(v) = req.cache_type.deep_view() {
        given_stays_given(a10, r, "--cache-type-k"@, v);
        given_stays_given(a11, r, "--cache-type-v"@, v);
    }
}

/// A tuned command line stays one where arguments follow.
proof fn tuning_stays_given(front: Seq<Seq<char>>, args: Seq<Seq<char>>, req: LoadRequest)
    requires
        extends(args, front),
        tuning_given(front, req),
    ensures
        tuning_given(args, req),
{
    if let Some(v) = req.draft_model.deep_view() {
        given_stays_given(front, args, "--draft-model"@, v);
    }
    if let Some(n) = req.num_draft_tokens {
        given_stays_given(front, args, "--num-draft-tokens"@, text::dec(n as nat));
    }
    if let Some(n) = req.decode_concurrency {
        given_stays_given(front, args, "--decode-concurrency"@, text::dec(n as nat));
    }
    if let Some(n) = req.prompt_concurrency {
        given_stays_given(front, args, "--prompt-concurrency"@, text::dec(n as nat));
    }
    if let Some(n) = req.prefill_step_size {
        given_stays_given(front, args, "--prefill-step-size"@, text::dec(n as nat));
    }
    if let Some(n) = req.prompt_cache_size {
        given_stays_given(front, args, "--prompt-cache-size"@, text::dec(n as nat));
    }
    if let Some(n) = req.prompt_cache_bytes {
        given_stays_given(front, args, "--prompt-cache-bytes"@, text::dec(n as nat));
    }
    if req.pipeline {
        set_stays_set(front, args, "--pipeline"@);
    }
    if req.use_mtp {
        set_stays_set(front, args, "--mtp"@);
    }
    if let Some(v) = req.cache_type.deep_view() {
        given_stays_given(front, args, "--cache-type-k"@, v);
        given_stays_given(front, args, "--cache-type-v"@, v);
    }
    if let Some(n) = req.max_tokens {
        given_stays_given(front, args, "--max-tokens"@, text::dec(n as nat));
    }
}

/// On one node the command is that of the node with the extra arguments behind
/// it.
proof fn alone_extends_node(
    req: LoadRequest,
    port: u16,
    engine: ServeEngine,
    cfg: EngineConfig,
    env: LaunchEnv,
)
    requires
        command_of(req, port, engine, ServeBackend::Single, cfg, env) is Ok,
    ensures
        node_command(req, port, engine, cfg, env) is Ok,
        ({
            let c = node_command(req, port, engine, cfg, env)->Ok_0;
            let r = command_of(req, port, engine, ServeBackend::Single, cfg, env)->Ok_0;
            r.0 == c.0 && extends(r.1, c.1)
        }),
{
    let c = node_command(req, port, engine, cfg, env)->Ok_0;
    assert((c.1 + extra_of(req)).take(c.1.len() as int) =~= c.1);
}

/// A native server listens on the port, on every address; it loads the model
/// with the flag of the engine; and it takes the size of its context, its draft
/// model and the tokens of that with flags of its own.
#[verifier::rlimit(60)]
pub proof fn native_serves_the_request(
    req: LoadRequest,
    port: u16,
    cfg: EngineConfig,
    env: LaunchEnv,
)
    requires
        command_of(req, port, ServeEngine::Ds4, ServeBackend::Single, cfg, env) is Ok,
    ensures
        ({
            let (program, args) = command_of(
                req,
                port,
                ServeEngine::Ds4,
                ServeBackend::Single,
                cfg,
                env,
            )->Ok_0;
            &&& env.native_binary matches Ok(path) && program == path@
            &&& gives(args, "--port"@, text::dec(port as nat))
            &&& gives(args, "--host"@, "0.0.0.0"@)
            &&& match (cfg.model_flag.deep_view(), req.model_path.deep_view()) {
                (Some(flag), Some(path)) => gives(
                    args,
                    flag,
                    serve::tilde_expanded(path, env.home.deep_view()),
                ),
                _ => true,
            }
            &&& req.ctx_size matches Some(n) ==> gives(args, "-c"@, text::dec(n as nat))
            &&& req.draft_model.deep_view() matches Some(d) ==> gives(args, "--mtp"@, d)
            &&& match (req.draft_model, req.num_draft_tokens) {
                (Some(_), Some(n)) => gives(args, "--mtp-draft"@, text::dec(n as nat)),
                _ => true,
            }
        }),
{
    let engine = ServeEngine::Ds4;
    alone_extends_node(req, port, engine, cfg, env);
    let model = model_of(req, env.home.deep_view());
    let c = node_command(req, port, engine, cfg, env)->Ok_0;
    let args = command_of(req, port, engine, ServeBackend::Single, cfg, env)->Ok_0.1;
    let flag = cfg.model_flag.deep_view();
    let a0 = with_model(Seq::empty(), flag, model);
    let a1 = a0.push("--port"@).push(text::dec(port as nat)).push("--host"@).push("0.0.0.0"@).push(
        "--metal"@,
    );
    let a2 = with_number(a1, "-c"@, req.ctx_size);
    if let Some(f) = flag {
        text_is_given(Seq::empty(), f, model);
    }
    let n = a0.len() as int;
    assert(a1[n] == "--port"@ && a1[n + 1] == text::dec(port as nat));
    assert(a1[n + 2] == "--host"@ && a1[n + 3] == "0.0.0.0"@);
    assert(a1.take(n) =~= a0);
    number_is_given(a1, "-c"@, req.ctx_size);
    if let Some(d) = req.draft_model.deep_view() {
        let a3 = a2.push("--mtp"@).push(d);
        assert(a3.take(a2.len() as int) =~= a2);
        assert(a3[a2.len() as int] == "--mtp"@ && a3[a2.len() as int + 1] == d);
        assert(gives(a3, "--mtp"@, d));
        number_is_given(a3, "--mtp-draft"@, req.num_draft_tokens);
        extends_further(a2, a3, c.1);
        extends_further(a3, c.1, args);
        given_stays_given(a3, args, "--mtp"@, d);
        if let Some(k) = req.num_draft_tokens {
            given_stays_given(c.1, args, "--mtp-draft"@, text::dec(k as nat));
        }
    } else {
        assert(c.1 == a2);
        assert(c.1.take(a2.len() as int) =~= a2);
    }
    extends_further(a2, c.1, args);
    extends_further(a1, a2, args);
    extends_further(a0, a1, args);
    given_stays_given(a1, args, "--port"@, text::dec(port as nat));
    given_stays_given(a1, args, "--host"@, "0.0.0.0"@);
    if let Some(k) = req.ctx_size {
        given_stays_given(a2, args, "-c"@, text::dec(k as nat));
    }
    if let Some(f) = flag {
        if let Some(m) = model {
            given_stays_given(a0, args, f, m);
        }
    }
}

/// A server that runs under `uvicorn` runs its application there, and listens
/// on the port, on every address.
#[verifier::rlimit(60)]
pub proof fn uvicorn_serves_the_request(
    req: LoadRequest,
    port: u16,
    engine: ServeEngine,
    cfg: EngineConfig,
    env: LaunchEnv,
    app: Seq<char>,
)
    requires
        !(engine is ImageGen || engine is VideoGen || engine is Ds4),
        cfg.uvicorn_app.deep_view() == Some(app),
    ensures
        command_of(req, port, engine, ServeBackend::Single, cfg, env) is Ok,
        ({
            let (program, args) = command_of(
                req,
                port,
                engine,
                ServeBackend::Single,
                cfg,
                env,
            )->Ok_0;
            &&& program == env.python@
            &&& gives(args, "-m"@, "uvicorn"@)
            &&& gives(args, "uvicorn"@, app)
            &&& gives(args, "--port"@, text::dec(port as nat))
            &&& gives(args, "--host"@, "0.0.0.0"@)
        }),
{
    alone_extends_node(req, port, engine, cfg, env);
    let args = command_of(req, port, engine, ServeBackend::Single, cfg, env)->Ok_0.1;
    let a = uvicorn_args(app, port);
    assert(a[0] == "-m"@ && a[1] == "uvicorn"@ && a[2] == app);
    assert(a[3] == "--host"@ && a[4] == "0.0.0.0"@);
    assert(a[5] == "--port"@ && a[6] == text::dec(port as nat));
    given_stays_given(a, args, "-m"@, "uvicorn"@);
    given_stays_given(a, args, "uvicorn"@, app);
    given_stays_given(a, args, "--host"@, "0.0.0.0"@);
    given_stays_given(a, args, "--port"@, text::dec(port as nat));
}

/// The front of the arguments of a module gives the port, the address and the
/// model.
proof fn front_is_given(
    a: Seq<Seq<char>>,
    flag: Option<Seq<char>>,
    model: Option<Seq<char>>,
    port: Seq<char>,
)
    requires
        a.len() >= 2,
    ensures
        ({
            let b = with_model(a, flag, model).push("--port"@).push(port).push("--host"@).push(
                "0.0.0.0"@,
            );
            &&& gives(b, a[0], a[1])
            &&& gives(b, "--port"@, port)
            &&& gives(b, "--host"@, "0.0.0.0"@)
            &&& flag matches Some(f) ==> (model matches Some(m) ==> gives(b, f, m))
        }),
{
    let a1 = with_model(a, flag, model);
    let b = a1.push("--port"@).push(port).push("--host"@).push("0.0.0.0"@);
    let n = a1.len() as int;
    assert(b[n] == "--port"@ && b[n + 1] == port);
    assert(b[n + 2] == "--host"@ && b[n + 3] == "0.0.0.0"@);
    assert(b[0] == a[0] && b[1] == a[1]);
    if flag is Some && model is Some {
        let k = a.len() as int;
        assert(b[k] == flag->0 && b[k + 1] == model->0);
    }
}

/// What the arguments of a module give.
#[verifier::opaque]
spec fn module_gives(
    args: Seq<Seq<char>>,
    req: LoadRequest,
    port: u16,
    engine: ServeEngine,
    cfg: EngineConfig,
    model: Option<Seq<char>>,
) -> bool {
    &&& gives(args, "-m"@, cfg.binary@)
    &&& gives(args, "--port"@, text::dec(port as nat))
    &&& gives(args, "--host"@, "0.0.0.0"@)
    &&& cfg.model_flag.deep_view() matches Some(f) ==> (model matches Some(m) ==> gives(args, f, m))
    &&& engine is MlxLm || engine is MlxLmShare ==> tuning_given(args, req)
    &&& engine is DFlash ==> (req.draft_model.deep_view() matches Some(d) ==> gives(
        args,
        "--draft"@,
        d,
    ))
}

/// What the front of some arguments gives, they give.
proof fn module_still_gives(
    front: Seq<Seq<char>>,
    args: Seq<Seq<char>>,
    req: LoadRequest,
    port: u16,
    engine: ServeEngine,
    cfg: EngineConfig,
    model: Option<Seq<char>>,
)
    requires
        extends(args, front),
        module_gives(front, req, port, engine, cfg, model),
    ensures
        module_gives(args, req, port, engine, cfg, model),
{
    reveal(module_gives);
    given_stays_given(front, args, "-m"@, cfg.binary@);
    given_stays_given(front, args, "--port"@, text::dec(port as nat));
    given_stays_given(front, args, "--host"@, "0.0.0.0"@);
    if cfg.model_flag.deep_view() is Some && model is Some {
        given_stays_given(front, args, cfg.model_flag.deep_view()->0, model->0);
    }
    if engine is MlxLm || engine is MlxLmShare {
        tuning_stays_given(front, args, req);
    }
    if engine is DFlash && req.draft_model.deep_view() is Some {
        given_stays_given(front, args, "--draft"@, req.draft_model.deep_view()->0);
    }
}

/// The arguments of a module give what they should.
proof fn module_args_give(
    req: LoadRequest,
    port: u16,
    engine: ServeEngine,
    cfg: EngineConfig,
    model: Option<Seq<char>>,
)
    ensures
        module_gives(module_args(req, port, engine, cfg, model), req, port, engine, cfg, model),
{
    reveal(module_gives);
    let flag = cfg.model_flag.deep_view();
    let a = seq!["-m"@, cfg.binary@] + cfg.binary_args.deep_view();
    let b = with_model(a, flag, model).push("--port"@).push(text::dec(port as nat)).push(
        "--host"@,
    ).push("0.0.0.0"@);
    let args = module_args(req, port, engine, cfg, model);
    assert(a[0] == "-m"@ && a[1] == cfg.binary@);
    front_is_given(a, flag, model, text::dec(port as nat));
    if engine is DFlash {
        text_is_given(b, "--draft"@, req.draft_model.deep_view());
    } else if engine is MlxLm || engine is MlxLmShare {
        tuning_is_given(b, req);
    } else {
        assert(b.take(b.len() as int) =~= b);
    }
    assert(extends(args, b));
    given_stays_given(b, args, "-m"@, cfg.binary@);
    given_stays_given(b, args, "--port"@, text::dec(port as nat));
    given_stays_given(b, args, "--host"@, "0.0.0.0"@);
    if flag is Some && model is Some {
        given_stays_given(b, args, flag->0, model->0);
    }
}

/// A server that is a Python module listens on the port, on every address; it
/// loads the model with the flag of the engine; and each wish of the request is
/// given with its own flag.
#[verifier::rlimit(60)]
pub proof fn module_serves_the_request(
    req: LoadRequest,
    port: u16,
    engine: ServeEngine,
    cfg: EngineConfig,
    env: LaunchEnv,
)
    requires
        !(engine is ImageGen || engine is VideoGen || engine is Ds4),
        cfg.uvicorn_app is None,
    ensures
        command_of(req, port, engine, ServeBackend::Single, cfg, env) is Ok,
        ({
            let (program, args) = command_of(
                req,
                port,
                engine,
                ServeBackend::Single,
                cfg,
                env,
            )->Ok_0;
            &&& program == env.python@
            &&& gives(args, "-m"@, cfg.binary@)
            &&& gives(args, "--port"@, text::dec(port as nat))
            &&& gives(args, "--host"@, "0.0.0.0"@)
            &&& match (cfg.model_flag.deep_view(), req.model_path.deep_view()) {
                (Some(flag), Some(path)) => gives(
                    args,
                    flag,
                    serve::tilde_expanded(path, env.home.deep_view()),
                ),
                _ => true,
            }
            &&& engine is MlxLm || engine is MlxLmShare ==> tuning_given(args, req)
            &&& engine is DFlash ==> (req.draft_model.deep_view() matches Some(d) ==> gives(
                args,
                "--draft"@,
                d,
            ))
        }),
{
    alone_extends_node(req, port, engine, cfg, env);
    let model = model_of(req, env.home.deep_view());
    let front = module_args(req, port, engine, cfg, model);
    let args = command_of(req, port, engine, ServeBackend::Single, cfg, env)->Ok_0.1;
    module_args_give(req, port, engine, cfg, model);
    module_still_gives(front, args, req, port, engine, cfg, model);
    reveal(module_gives);
}

/// The text sets the variable `key` to `value`: up to its first equals sign it
/// is the name, and behind that the value.
pub open spec fn sets(t: Seq<char>, key: Seq<char>, value: Seq<char>) -> bool {
    &&& t.len() == key.len() + 1 + value.len()
    &&& t.take(key.len() as int) == key
    &&& t[key.len() as int] == '='
    &&& t.skip(key.len() as int + 1) == value
    &&& forall|i: int| 0 <= i < key.len() ==> t[i] != '='
}

/// The variables stand among the flags that hand them on.
proof fn handed_on(
    args: Seq<Seq<char>>,
    vars: Seq<(Seq<char>, Seq<char>)>,
    k: nat,
    i: int,
)
    requires
        0 <= i < k <= vars.len(),
    ensures
        with_env(args, vars, k).len() == args.len() + 2 * k,
        extends(with_env(args, vars, k), args),
        with_env(args, vars, k)[args.len() + 2 * i] == "--env"@,
        with_env(args, vars, k)[args.len() + 2 * i + 1] == vars[i].0 + "="@ + vars[i].1,
    decreases k,
{
    let now = with_env(args, vars, k);
    let before = with_env(args, vars, (k - 1) as nat);
    if i < k - 1 {
        handed_on(args, vars, (k - 1) as nat, i);
    } else if k > 1 {
        handed_on(args, vars, (k - 1) as nat, 0);
    } else {
        assert(before == args);
        assert(args.take(args.len() as int) =~= args);
    }
    assert(now.take(args.len() as int) =~= before.take(args.len() as int));
}

/// On several nodes every variable of the request that may be handed on is set
/// for all of them, before the command that they run.
#[verifier::rlimit(60)]
pub proof fn variables_reach_every_node(
    req: LoadRequest,
    port: u16,
    engine: ServeEngine,
    backend: ServeBackend,
    cfg: EngineConfig,
    env: LaunchEnv,
    i: int,
)
    requires
        req.model_path is Some,
        !(backend is Single),
        cfg.model_flag is Some,
        node_command(req, port, engine, cfg, env) is Ok,
        req.env.deep_view() is Some,
        0 <= i < req.env.deep_view()->0.len(),
        serve::env_allowed(req.env.deep_view()->0[i].0, req.env.deep_view()->0[i].1),
    ensures
        ({
            let args = command_of(req, port, engine, backend, cfg, env)->Ok_0.1;
            let alone = command_of(req, port, engine, ServeBackend::Single, cfg, env)->Ok_0;
            let (key, value) = req.env.deep_view()->0[i];
            exists|e: int, d: int|
                0 <= e && e + 1 < d < args.len() && #[trigger] args[e] == "--env"@ && sets(
                    args[e + 1],
                    key,
                    value,
                ) && #[trigger] args[d] == "--"@ && args.skip(d + 1) == seq![alone.0] + alone.1
        }),
{
    let pairs = req.env.deep_view()->0;
    let vars = serve::env_forwarded(pairs);
    let (key, value) = pairs[i];
    serve::allowed_env_is_forwarded(pairs, i);
    let j = choose|j: int| 0 <= j < vars.len() && vars[j] == pairs[i];
    let head = launch_args(req, backend, env.home.deep_view());
    let base = seq![
        "--hostfile"@,
        hostfile_of(req, env.home.deep_view()),
        "--backend"@,
        backend.word(),
        "--env"@,
        "MLX_DISTRIBUTED_BACKEND="@ + backend.word(),
        "--env"@,
        "MLX_METAL_FAST_SYNCH=1"@,
    ];
    handed_on(base, vars, vars.len(), j);
    let args = command_of(req, port, engine, backend, cfg, env)->Ok_0.1;
    let alone = command_of(req, port, engine, ServeBackend::Single, cfg, env)->Ok_0;
    let c = node_command(req, port, engine, cfg, env)->Ok_0;
    assert(args == head.push(c.0) + (c.1 + extra_of(req)));
    let e = 8 + 2 * j;
    let d = head.len() - 1;
    reveal_strlit("=");
    let t = key + "="@ + value;
    assert(args[e] == head[e] && args[e + 1] == head[e + 1]);
    assert(args[e + 1] == t);
    assert(args[d] == "--"@);
    assert(args.skip(d + 1) =~= seq![alone.0] + alone.1);
    assert(t.take(key.len() as int) =~= key);
    assert(t.skip(key.len() as int + 1) =~= value);
    assert forall|m: int| 0 <= m < key.len() implies t[m] != '=' by {
        assert(t[m] == key[m]);
        assert(text::is_alnum(key[m]) || key[m] == '_');
    }
    assert(sets(args[e + 1], key, value));
}

/// On several nodes the command goes through `mlx.launch` with the hostfile of
/// the request, or the default one, and the backend, which every node is told.
#[verifier::rlimit(60)]
pub proof fn launch_names_hosts_and_backend(
    req: LoadRequest,
    port: u16,
    engine: ServeEngine,
    backend: ServeBackend,
    cfg: EngineConfig,
    env: LaunchEnv,
)
    requires
        req.model_path is Some,
        !(backend is Single),
        cfg.model_flag is Some,
        node_command(req, port, engine, cfg, env) is Ok,
    ensures
        ({
            let (program, args) = command_of(req, port, engine, backend, cfg, env)->Ok_0;
            &&& program == env.mlx_launch@
            &&& gives(args, "--backend"@, backend.word())
            &&& gives(args, "--env"@, "MLX_DISTRIBUTED_BACKEND="@ + backend.word())
            &&& gives(args, "--env"@, "MLX_METAL_FAST_SYNCH=1"@)
            &&& req.hostfile.deep_view() matches Some(path) ==> gives(args, "--hostfile"@, path)
            &&& req.hostfile is None ==> (env.home.deep_view() matches Some(home) ==> home.len() > 0
                && home.last() != '/' ==> gives(
                args,
                "--hostfile"@,
                home + "/.r1o/hostfiles/default.json"@,
            ))
        }),
{
    let vars = serve::env_forwarded(serve::pairs_or_none(req.env.deep_view()));
    let base = seq![
        "--hostfile"@,
        hostfile_of(req, env.home.deep_view()),
        "--backend"@,
        backend.word(),
        "--env"@,
        "MLX_DISTRIBUTED_BACKEND="@ + backend.word(),
        "--env"@,
        "MLX_METAL_FAST_SYNCH=1"@,
    ];
    let args = command_of(req, port, engine, backend, cfg, env)->Ok_0.1;
    let head = with_env(base, vars, vars.len());
    if vars.len() > 0 {
        handed_on(base, vars, vars.len(), 0);
    } else {
        assert(base.take(base.len() as int) =~= base);
    }
    assert(args.take(head.len() as int) =~= head);
    extends_further(base, head, args);
    assert(base[0] == "--hostfile"@ && base[1] == hostfile_of(req, env.home.deep_view()));
    assert(base[2] == "--backend"@ && base[3] == backend.word());
    assert(base[4] == "--env"@ && base[5] == "MLX_DISTRIBUTED_BACKEND="@ + backend.word());
    assert(base[6] == "--env"@ && base[7] == "MLX_METAL_FAST_SYNCH=1"@);
    given_stays_given(base, args, "--hostfile"@, hostfile_of(req, env.home.deep_view()));
    given_stays_given(base, args, "--backend"@, backend.word());
    given_stays_given(base, args, "--env"@, "MLX_DISTRIBUTED_BACKEND="@ + backend.word());
    given_stays_given(base, args, "--env"@, "MLX_METAL_FAST_SYNCH=1"@);
    if let Some(home) = env.home.deep_view() {
        if req.hostfile is None && home.len() > 0 && home.last() != '/' {
            reveal_strlit("/");
            reveal_strlit(".r1o");
            reveal_strlit("hostfiles/default.json");
            reveal_strlit("/.r1o/hostfiles/default.json");
            assert(!text::ends(home, "/"@)) by {
                assert(home.skip(home.len() - 1)[0] == home.last());
            }
            let dir = home + "/"@ + ".r1o"@;
            assert(!text::ends(dir, "/"@)) by {
                assert(dir.skip(dir.len() - 1)[0] == 'o');
            }
            assert(hostfile_of(req, env.home.deep_view()) =~= home
                + "/.r1o/hostfiles/default.json"@);
        }
    }
}

// ---------------------------------------------------------------------------
// Looking for programs
// ---------------------------------------------------------------------------

/// The environment variable that names a native program, from the name of the
/// program in capitals.
pub fn native_variable(upper: &str) -> (r: String)
    ensures
        r@ == text::joined(text::split_on(upper@, '-'), "_"@) + "_PATH"@,
{
    let s: String = text::replace_char(upper, '-', "_");
    text::glue(&s, "_PATH")
}

/// The places where a native program is looked for, in turn: what the
/// environment names, the managed place, what the search path gives, and two
/// usual places.
pub open spec fn native_places(
    binary: Seq<char>,
    from_env: Option<Seq<char>>,
    home: Option<Seq<char>>,
    from_path: Option<Seq<char>>,
) -> Seq<Seq<char>> {
    let a = match from_env {
        Some(p) => seq![p],
        None => Seq::empty(),
    };
    let b = a.push(
        serve::path_below(serve::path_below(serve::config_dir(home), "bin"@), binary),
    );
    let c = match from_path {
        Some(p) => if text::trimmed(p).len() > 0 {
            b.push(text::trimmed(p))
        } else {
            b
        },
        None => b,
    };
    c.push("/usr/local/bin/"@ + binary).push(
        serve::path_below(
            match home {
                Some(h) => h,
                None => "/tmp"@,
            },
            "opensource/ds4/"@ + binary,
        ),
    )
}

/// The places where a native program is looked for, in turn.
pub fn native_candidates(
    binary: &str,
    from_env: &Option<String>,
    home: &Option<String>,
    from_path: &Option<String>,
) -> (r: Vec<String>)
    ensures
        r.deep_view() == native_places(
            binary@,
            from_env.deep_view(),
            home.deep_view(),
            from_path.deep_view(),
        ),
{
    let mut out: Vec<String> = Vec::new();
    assert(out.deep_view() =~= Seq::<Seq<char>>::empty());
    if let Some(p) = from_env {
        text::push_str(&mut out, p);
        assert(out.deep_view() =~= seq![p@]);
    }
    text::push_text(
        &mut out,
        serve::path_join(&serve::path_join(&serve::r1o_dir(home), "bin"), binary),
    );
    if let Some(p) = from_path {
        let t: String = text::trim(p);
        if !t.as_str().is_empty() {
            text::push_text(&mut out, t);
        }
    }
    text::push_text(&mut out, text::glue("/usr/local/bin/", binary));
    let near: String = text::glue("opensource/ds4/", binary);
    let last: String = match home {
        Some(h) => serve::path_join(h, &near),
        None => serve::path_join("/tmp", &near),
    };
    text::push_text(&mut out, last);
    out
}

/// The places where the script of a media server is looked for, in turn.
pub fn media_candidates(
    script: &str,
    from_env: &Option<String>,
    home: &Option<String>,
) -> (r: Vec<String>)
    ensures
        r.deep_view() == (match from_env.deep_view() {
            Some(p) => seq![p],
            None => Seq::empty(),
        }).push(
            serve::path_below(
                serve::path_below(serve::config_dir(home.deep_view()), "bin"@),
                script@,
            ),
        ).push(
            serve::path_below(
                match home.deep_view() {
                    Some(h) => h,
                    None => "/tmp"@,
                },
                script@,
            ),
        ),
{
    let mut out: Vec<String> = Vec::new();
    assert(out.deep_view() =~= Seq::<Seq<char>>::empty());
    if let Some(p) = from_env {
        text::push_str(&mut out, p);
        assert(out.deep_view() =~= seq![p@]);
    }
    text::push_text(
        &mut out,
        serve::path_join(&serve::path_join(&serve::r1o_dir(home), "bin"), script),
    );
    let last: String = match home {
        Some(h) => serve::path_join(h, script),
        None => serve::path_join("/tmp", script),
    };
    text::push_text(&mut out, last);
    out
}

/// The places where the shaders of a native program are looked for, in turn:
/// beside the program, then below the home directory.
pub fn shader_dirs(parent: &Option<String>, home: &Option<String>) -> (r: Vec<String>)
    ensures
        r.deep_view() == (match parent.deep_view() {
            Some(p) => seq![p],
            None => Seq::empty(),
        }) + (match home.deep_view() {
            Some(h) => seq![
                serve::path_below(h, "opensource/ds4"@),
                serve::path_below(h, ".r1o/ds4"@),
            ],
            None => Seq::empty(),
        }),
{
    let mut out: Vec<String> = Vec::new();
    assert(out.deep_view() =~= Seq::<Seq<char>>::empty());
    if let Some(p) = parent {
        text::push_str(&mut out, p);
        assert(out.deep_view() =~= seq![p@]);
    }
    if let Some(h) = home {
        text::push_text(&mut out, serve::path_join(h, "opensource/ds4"));
        text::push_text(&mut out, serve::path_join(h, ".r1o/ds4"));
    }
    out
}

/// The shader that shows that a directory is such a place.
pub fn shader_file(dir: &str) -> (r: String)
    ensures
        r@ == serve::path_below(serve::path_below(dir@, "metal"@), "flash_attn.metal"@),
{
    serve::path_join(&serve::path_join(dir, "metal"), "flash_attn.metal")
}

/// The first place at which something is.
pub open spec fn first_there(places: Seq<Seq<char>>, there: Seq<bool>) -> Option<Seq<char>>
    decreases places.len(),
{
    if places.len() == 0 || there.len() == 0 {
        None
    } else if there[0] {
        Some(places[0])
    } else {
        first_there(places.drop_first(), there.drop_first())
    }
}

/// The first place at which something is, given which of them exist.
pub fn first_existing(places: &Vec<String>, there: &Vec<bool>) -> (r: Option<String>)
    requires
        places@.len() == there@.len(),
    ensures
        r.deep_view() == first_there(places.deep_view(), there@),
{
    let ghost ps = places.deep_view();
    let mut i: usize = 0;
    assert(ps.skip(0) =~= ps);
    assert(there@.skip(0) =~= there@);
    while i < places.len()
        invariant
            i <= places@.len(),
            places@.len() == there@.len(),
            ps == places.deep_view(),
            first_there(ps, there@) == first_there(ps.skip(i as int), there@.skip(i as int)),
        decreases places@.len() - i,
    {
        proof {
            assert(ps.skip(i as int)[0] == places@[i as int]@);
            assert(ps.skip(i as int).drop_first() =~= ps.skip(i + 1));
            assert(there@.skip(i as int).drop_first() =~= there@.skip(i + 1));
        }
        if there[i] {
            return Some(text::own(&places[i]));
        }
        i = i + 1;
    }
    None
}

/// The places of `mlx.launch`, in turn: the usual ones, and what the search
/// path gives.
pub open spec fn launch_places(from_path: Option<Seq<char>>) -> Seq<Seq<char>> {
    let usual = seq!["/opt/homebrew/bin/mlx.launch"@, "/usr/local/bin/mlx.launch"@];
    match from_path {
        Some(p) => if text::trimmed(p).len() > 0 {
            usual.push(text::trimmed(p))
        } else {
            usual
        },
        None => usual,
    }
}

/// The places of `mlx.launch`, in turn.
pub fn launch_candidates(from_path: &Option<String>) -> (r: Vec<String>)
    ensures
        r.deep_view() == launch_places(from_path.deep_view()),
{
    let mut out: Vec<String> = Vec::new();
    text::push_str(&mut out, "/opt/homebrew/bin/mlx.launch");
    text::push_str(&mut out, "/usr/local/bin/mlx.launch");
    assert(out.deep_view() =~= seq![
        "/opt/homebrew/bin/mlx.launch"@,
        "/usr/local/bin/mlx.launch"@,
    ]);
    if let Some(p) = from_path {
        let t: String = text::trim(p);
        if !t.as_str().is_empty() {
            text::push_text(&mut out, t);
        }
    }
    out
}

/// The program that starts a distributed session: the one that was found, or
/// its bare name.
pub fn choose_launch(found: Option<String>) -> (r: String)
    ensures
        r@ == (match found.deep_view() {
            Some(p) => p,
            None => "mlx.launch"@,
        }),
{
    match found {
        Some(p) => p,
        None => text::own("mlx.launch"),
    }
}

/// The variable that names the script of a media server.
pub fn media_variable(engine: ServeEngine) -> (r: &'static str)
    requires
        engine.media(),
    ensures
        r@ == (if engine == ServeEngine::ImageGen {
            "ASMI_IMAGE_GEN_SCRIPT"@
        } else {
            "ASMI_VIDEO_GEN_SCRIPT"@
        }),
{
    match engine {
        ServeEngine::ImageGen => "ASMI_IMAGE_GEN_SCRIPT",
        _ => "ASMI_VIDEO_GEN_SCRIPT",
    }
}

/// What to say where a native program was not found.
pub fn native_missing(binary: &str, engine: ServeEngine, variable: &str) -> (r: String)
    ensures
        r@ == "native binary '"@ + binary@ + "' not found for engine "@ + engine.label() + ". Set "@
            + variable@ + " or place it in ~/.r1o/bin/"@,
{
    let mut s: String = text::glue("native binary '", binary);
    s.append("' not found for engine ");
    s.append(engine.name());
    s.append(". Set ");
    s.append(variable);
    s.append(" or place it in ~/.r1o/bin/");
    s
}

/// What to say where the script of a media server was not found.
pub fn media_missing(script: &str, variable: &str) -> (r: String)
    ensures
        r@ == "media server script '"@ + script@ + "' not found. Set "@ + variable@
            + ", or copy it from the apple-smi repo's media/ dir to ~/.r1o/bin/"@,
{
    let mut s: String = text::glue("media server script '", script);
    s.append("' not found. Set ");
    s.append(variable);
    s.append(", or copy it from the apple-smi repo's media/ dir to ~/.r1o/bin/");
    s
}

/// The place taken is the first one that is there.
pub proof fn first_place_is_taken(places: Seq<Seq<char>>, there: Seq<bool>, i: int)
    requires
        places.len() == there.len(),
        0 <= i < places.len(),
        there[i],
        forall|j: int| 0 <= j < i ==> !#[trigger] there[j],
    ensures
        first_there(places, there) == Some(places[i]),
    decreases places.len(),
{
    if i > 0 {
        assert(!there[0]);
        let rest = there.drop_first();
        assert(rest[i - 1]);
        assert forall|j: int| 0 <= j < i - 1 implies !#[trigger] rest[j] by {
            assert(rest[j] == there[j + 1]);
        }
        first_place_is_taken(places.drop_first(), rest, i - 1);
        assert(places.drop_first()[i - 1] == places[i]);
    }
}

/// Where none of the places is there, none is taken.
pub proof fn no_place_no_program(places: Seq<Seq<char>>, there: Seq<bool>)
    requires
        places.len() == there.len(),
        forall|j: int| 0 <= j < there.len() ==> !#[trigger] there[j],
    ensures
        first_there(places, there) is None,
    decreases places.len(),
{
    if places.len() > 0 {
        let rest = there.drop_first();
        assert forall|j: int| 0 <= j < rest.len() implies !#[trigger] rest[j] by {
            assert(rest[j] == there[j + 1]);
        }
        assert(!there[0]);
        no_place_no_program(places.drop_first(), rest);
    }
}

/// A program that was named is looked for first, and one on the path before
/// those of the system; every place but a named one ends with its name.
#[verifier::rlimit(60)]
pub proof fn named_program_comes_first(
    binary: Seq<char>,
    named: Seq<char>,
    home: Option<Seq<char>>,
    on_path: Seq<char>,
)
    requires
        on_path.len() > 0,
        !text::is_space(on_path[0]),
        !text::is_space(on_path.last()),
    ensures
        native_places(binary, Some(named), home, None)[0] == named,
        native_places(binary, Some(named), home, Some(on_path))[2] == on_path,
        native_places(binary, Some(named), home, None).skip(1) == native_places(
            binary,
            None,
            home,
            None,
        ),
        native_places(binary, None, home, None)[1] == "/usr/local/bin/"@ + binary,
        launch_places(Some(on_path)).last() == on_path,
        launch_places(Some(on_path)).take(2) == launch_places(None),
        launch_places(None)[0] == "/opt/homebrew/bin/mlx.launch"@,
{
    text::inner_text_comes_back(Seq::empty(), on_path, Seq::empty());
    assert(Seq::<char>::empty() + on_path + Seq::<char>::empty() =~= on_path);
    assert(native_places(binary, Some(named), home, None).skip(1) =~= native_places(
        binary,
        None,
        home,
        None,
    ));
    assert(launch_places(Some(on_path)).take(2) =~= launch_places(None));
}

} // verus!
