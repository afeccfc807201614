//! Model servers: engines and backends, the ports they are managed on, what
//! may be handed to their processes, and what their output says.

use crate::order;
use crate::text;
use vstd::prelude::*;
use vstd::string::*;

verus! {

// ---------------------------------------------------------------------------
// Engines, backends and states
// ---------------------------------------------------------------------------

/// The programs that serve models.
#[derive(Debug, Clone, Copy, PartialEq, Eq, Structural)]
pub enum ServeEngine {
    MlxLm,
    MlxLmShare,
    MlxVlm,
    VllmMlx,
    DFlash,
    Ds4,
    ImageGen,
    VideoGen,
}

/// The ways in which a model is spread over nodes.
#[derive(Debug, Clone, Copy, PartialEq, Eq, Structural)]
pub enum ServeBackend {
    Single,
    Jaccl,
    JacclRing,
    Ring,
}

/// The states of a model server.
#[derive(Debug, Clone, Copy, PartialEq, Eq, Structural)]
pub enum ServeState {
    Idle,
    Loading,
    Ready,
    Bare,
    Error,
}

impl ServeState {
    /// The word for the state.
    pub fn word(&self) -> (r: &'static str)
        ensures
            r@ == (match self {
                ServeState::Idle => "idle"@,
                ServeState::Loading => "loading"@,
                ServeState::Ready => "ready"@,
                ServeState::Bare => "bare"@,
                ServeState::Error => "error"@,
            }),
    {
        match self {
            ServeState::Idle => "idle",
            ServeState::Loading => "loading",
            ServeState::Ready => "ready",
            ServeState::Bare => "bare",
            ServeState::Error => "error",
        }
    }
}

impl ServeEngine {
    /// The engine generates images or videos.
    pub open spec fn media(self) -> bool {
        self is ImageGen || self is VideoGen
    }

    /// Whether the engine generates images or videos.
    pub fn is_media(&self) -> (r: bool)
        ensures
            r == self.media(),
    {
        matches!(self, ServeEngine::ImageGen | ServeEngine::VideoGen)
    }

    /// The name of the variant.
    pub open spec fn label(self) -> Seq<char> {
        match self {
            ServeEngine::MlxLm => "MlxLm"@,
            ServeEngine::MlxLmShare => "MlxLmShare"@,
            ServeEngine::MlxVlm => "MlxVlm"@,
            ServeEngine::VllmMlx => "VllmMlx"@,
            ServeEngine::DFlash => "DFlash"@,
            ServeEngine::Ds4 => "Ds4"@,
            ServeEngine::ImageGen => "ImageGen"@,
            ServeEngine::VideoGen => "VideoGen"@,
        }
    }

    /// The name of the variant.
    pub fn name(&self) -> (r: &'static str)
        ensures
            r@ == self.label(),
    {
        match self {
            ServeEngine::MlxLm => "MlxLm",
            ServeEngine::MlxLmShare => "MlxLmShare",
            ServeEngine::MlxVlm => "MlxVlm",
            ServeEngine::VllmMlx => "VllmMlx",
            ServeEngine::DFlash => "DFlash",
            ServeEngine::Ds4 => "Ds4",
            ServeEngine::ImageGen => "ImageGen",
            ServeEngine::VideoGen => "VideoGen",
        }
    }
}

/// The engine that a word of a request stands for: its name with underscores,
/// or the name of the variant.
pub open spec fn engine_for_word(word: Seq<char>) -> Option<ServeEngine> {
    if word == "mlx_lm"@ || word == "MlxLm"@ {
        Some(ServeEngine::MlxLm)
    } else if word == "mlx_lm_share"@ || word == "MlxLmShare"@ {
        Some(ServeEngine::MlxLmShare)
    } else if word == "mlx_vlm"@ || word == "MlxVlm"@ {
        Some(ServeEngine::MlxVlm)
    } else if word == "vllm_mlx"@ || word == "VllmMlx"@ {
        Some(ServeEngine::VllmMlx)
    } else if word == "dflash"@ || word == "DFlash"@ {
        Some(ServeEngine::DFlash)
    } else if word == "ds4"@ || word == "Ds4"@ {
        Some(ServeEngine::Ds4)
    } else if word == "image_gen"@ || word == "ImageGen"@ {
        Some(ServeEngine::ImageGen)
    } else if word == "video_gen"@ || word == "VideoGen"@ {
        Some(ServeEngine::VideoGen)
    } else {
        None
    }
}

/// The name of an engine stands for it, so an engine that was saved by its
/// name comes back.
pub proof fn name_stands_for_engine(engine: ServeEngine)
    ensures
        engine_for_word(engine.label()) == Some(engine),
{
    reveal_strlit("mlx_lm");
    reveal_strlit("MlxLm");
    reveal_strlit("mlx_lm_share");
    reveal_strlit("MlxLmShare");
    reveal_strlit("mlx_vlm");
    reveal_strlit("MlxVlm");
    reveal_strlit("vllm_mlx");
    reveal_strlit("VllmMlx");
    reveal_strlit("dflash");
    reveal_strlit("DFlash");
    reveal_strlit("ds4");
    reveal_strlit("Ds4");
    reveal_strlit("image_gen");
    reveal_strlit("ImageGen");
    reveal_strlit("video_gen");
    reveal_strlit("VideoGen");
    assert("mlx_lm"@[0] == 'm' && "mlx_lm_share"@[0] == 'm' && "mlx_vlm"@[0] == 'm');
    assert("vllm_mlx"@[0] == 'v' && "video_gen"@[0] == 'v' && "image_gen"@[0] == 'i');
    assert("dflash"@[0] == 'd' && "ds4"@[0] == 'd');
    assert("MlxLm"@[0] == 'M' && "MlxLmShare"@[0] == 'M' && "MlxVlm"@[0] == 'M');
    assert("VllmMlx"@[0] == 'V' && "VideoGen"@[0] == 'V' && "ImageGen"@[0] == 'I');
    assert("DFlash"@[0] == 'D' && "Ds4"@[0] == 'D');
    assert("MlxLm"@.len() == 5 && "MlxLmShare"@.len() == 10 && "MlxVlm"@.len() == 6);
    assert("VllmMlx"@.len() == 7 && "VideoGen"@.len() == 8);
    assert("DFlash"@.len() == 6 && "Ds4"@.len() == 3);
}

/// The engine that a word of a request stands for.
pub fn engine_named(word: &str) -> (r: Option<ServeEngine>)
    ensures
        r == engine_for_word(word@),
{
    if text::same(word, "mlx_lm") || text::same(word, "MlxLm") {
        Some(ServeEngine::MlxLm)
    } else if text::same(word, "mlx_lm_share") || text::same(word, "MlxLmShare") {
        Some(ServeEngine::MlxLmShare)
    } else if text::same(word, "mlx_vlm") || text::same(word, "MlxVlm") {
        Some(ServeEngine::MlxVlm)
    } else if text::same(word, "vllm_mlx") || text::same(word, "VllmMlx") {
        Some(ServeEngine::VllmMlx)
    } else if text::same(word, "dflash") || text::same(word, "DFlash") {
        Some(ServeEngine::DFlash)
    } else if text::same(word, "ds4") || text::same(word, "Ds4") {
        Some(ServeEngine::Ds4)
    } else if text::same(word, "image_gen") || text::same(word, "ImageGen") {
        Some(ServeEngine::ImageGen)
    } else if text::same(word, "video_gen") || text::same(word, "VideoGen") {
        Some(ServeEngine::VideoGen)
    } else {
        None
    }
}

impl ServeBackend {
    /// The model is spread over several nodes.
    pub open spec fn distributed(self) -> bool {
        !(self is Single)
    }

    /// Whether the model is spread over several nodes.
    pub fn is_distributed(&self) -> (r: bool)
        ensures
            r == self.distributed(),
    {
        !matches!(self, ServeBackend::Single)
    }

    /// The word for the backend.
    pub open spec fn word(self) -> Seq<char> {
        match self {
            ServeBackend::Single => "single"@,
            ServeBackend::Jaccl => "jaccl"@,
            ServeBackend::JacclRing => "jaccl-ring"@,
            ServeBackend::Ring => "ring"@,
        }
    }

    /// The word for the backend.
    pub fn as_str(&self) -> (r: &'static str)
        ensures
            r@ == self.word(),
    {
        match self {
            ServeBackend::Single => "single",
            ServeBackend::Jaccl => "jaccl",
            ServeBackend::JacclRing => "jaccl-ring",
            ServeBackend::Ring => "ring",
        }
    }

    /// The backend that a word stands for.
    pub fn from_word(s: &str) -> (r: Option<ServeBackend>)
        ensures
            r matches Some(b) ==> b.word() == s@,
            r is None ==> forall|b: ServeBackend| #[trigger] b.word() != s@,
    {
        if text::same(s, "single") {
            Some(ServeBackend::Single)
        } else if text::same(s, "jaccl") {
            Some(ServeBackend::Jaccl)
        } else if text::same(s, "jaccl-ring") {
            Some(ServeBackend::JacclRing)
        } else if text::same(s, "ring") {
            Some(ServeBackend::Ring)
        } else {
            None
        }
    }
}

/// The words for the backends differ.
pub proof fn words_tell_backends_apart(a: ServeBackend, b: ServeBackend)
    requires
        a.word() == b.word(),
    ensures
        a == b,
{
    reveal_strlit("single");
    reveal_strlit("jaccl");
    reveal_strlit("jaccl-ring");
    reveal_strlit("ring");
    assert("single"@.len() == 6);
    assert("jaccl"@.len() == 5);
    assert("jaccl-ring"@.len() == 10);
    assert("ring"@.len() == 4);
}

// ---------------------------------------------------------------------------
// Paths
// ---------------------------------------------------------------------------

/// The relative path `b` below the directory `a`.
pub open spec fn path_below(a: Seq<char>, b: Seq<char>) -> Seq<char> {
    if a.len() == 0 || text::ends(a, "/"@) {
        a + b
    } else {
        a + "/"@ + b
    }
}

/// The relative path `b` below the directory `a`.
pub fn path_join(a: &str, b: &str) -> (r: String)
    ensures
        r@ == path_below(a@, b@),
{
    if a.is_empty() || text::ends_with(a, "/") {
        text::glue(a, b)
    } else {
        let mut s: String = text::glue(a, "/");
        s.append(b);
        s
    }
}

/// The path `b` seen from the directory `a`: an absolute one stands for
/// itself.
pub open spec fn path_from(a: Seq<char>, b: Seq<char>) -> Seq<char> {
    if text::starts(b, "/"@) {
        b
    } else {
        path_below(a, b)
    }
}

/// The path `b` seen from the directory `a`.
pub fn resolve_path(a: &str, b: &str) -> (r: String)
    ensures
        r@ == path_from(a@, b@),
{
    if text::starts_with(b, "/") {
        text::own(b)
    } else {
        path_join(a, b)
    }
}

/// The configuration directory: below the home directory, or below `/tmp`
/// where there is none.
pub open spec fn config_dir(home: Option<Seq<char>>) -> Seq<char> {
    match home {
        Some(h) => path_below(h, ".r1o"@),
        None => path_below("/tmp"@, ".r1o"@),
    }
}

/// The configuration directory.
pub fn r1o_dir(home: &Option<String>) -> (r: String)
    ensures
        r@ == config_dir(home.deep_view()),
{
    match home {
        Some(h) => path_join(h, ".r1o"),
        None => path_join("/tmp", ".r1o"),
    }
}

/// The name of a process that `ps` printed, if it printed one.
pub fn process_name(output: &str) -> (r: Option<String>)
    ensures
        r.deep_view() == (if text::trimmed(output@).len() > 0 {
            Some(text::trimmed(output@))
        } else {
            None
        }),
{
    let name: String = text::trim(output);
    if name.as_str().is_empty() {
        None
    } else {
        Some(name)
    }
}

/// The file that keeps the state of the server on a port.
pub fn state_file(home: &Option<String>, port: u16) -> (r: String)
    ensures
        r@ == path_below(
            config_dir(home.deep_view()),
            "serve-state-"@ + text::dec(port as nat) + ".json"@,
        ),
{
    let mut name: String = text::glue("serve-state-", &text::decimal(port as u64));
    name.append(".json");
    path_join(&r1o_dir(home), &name)
}

/// The file that kept the state of the only server that there once was.
pub fn old_state_file(home: &Option<String>) -> (r: String)
    ensures
        r@ == path_below(config_dir(home.deep_view()), "serve-state.json"@),
{
    path_join(&r1o_dir(home), "serve-state.json")
}

/// The file that keeps the state of the share session.
pub fn share_state_file(home: &Option<String>) -> (r: String)
    ensures
        r@ == path_below(config_dir(home.deep_view()), "share-state.json"@),
{
    path_join(&r1o_dir(home), "share-state.json")
}

/// The hostfile that is used where none is given.
pub fn default_hostfile(home: &Option<String>) -> (r: String)
    ensures
        r@ == path_below(config_dir(home.deep_view()), "hostfiles/default.json"@),
{
    path_join(&r1o_dir(home), "hostfiles/default.json")
}

/// A path with a leading `~/` replaced by the home directory.
pub open spec fn tilde_expanded(path: Seq<char>, home: Option<Seq<char>>) -> Seq<char> {
    match home {
        Some(h) => if text::starts(path, "~/"@) {
            h + "/"@ + path.skip(2)
        } else {
            path
        },
        None => path,
    }
}

/// A path with a leading `~/` replaced by the home directory.
pub fn expand_home(path: &str, home: &Option<String>) -> (r: String)
    ensures
        r@ == tilde_expanded(path@, home.deep_view()),
{
    match home {
        Some(h) => match text::strip_prefix(path, "~/") {
            Some(rest) => {
                proof {
                    reveal_strlit("~/");
                }
                let mut s: String = text::glue(h, "/");
                s.append(&rest);
                s
            },
            None => text::own(path),
        },
        None => text::own(path),
    }
}

/// Expanding twice is expanding once, where the home directory does not itself
/// begin with a `~` to be expanded.
pub proof fn expansion_is_idempotent(path: Seq<char>, home: Option<Seq<char>>)
    requires
        home matches Some(h) ==> !text::starts(h + "/"@, "~/"@),
    ensures
        tilde_expanded(tilde_expanded(path, home), home) == tilde_expanded(path, home),
{
    reveal_strlit("~/");
    if let Some(h) = home {
        let once = tilde_expanded(path, home);
        reveal_strlit("/");
        if text::starts(path, "~/"@) && text::starts(once, "~/"@) {
            assert(once.take(2)[0] == '~' && once.take(2)[1] == '/');
            assert((h + "/"@).take(2) =~= "~/"@);
        }
    }
}

// ---------------------------------------------------------------------------
// Ports
// ---------------------------------------------------------------------------

/// The port of an engine where the environment names none.
pub open spec fn default_port(engine: ServeEngine) -> u16 {
    match engine {
        ServeEngine::MlxLm | ServeEngine::MlxLmShare => 19080,
        ServeEngine::MlxVlm => 19082,
        ServeEngine::VllmMlx => 8000,
        ServeEngine::DFlash => 19080,
        ServeEngine::Ds4 => 8080,
        ServeEngine::ImageGen => 19095,
        ServeEngine::VideoGen => 19096,
    }
}

/// The port of an engine: the one that the environment names, if it is a port
/// number, else the default.
pub open spec fn engine_port(engine: ServeEngine, env: Option<Seq<char>>) -> int {
    match env {
        Some(v) => match text::unsigned(v, 65535) {
            Some(n) => n as int,
            None => default_port(engine) as int,
        },
        None => default_port(engine) as int,
    }
}

/// The environment variable that names the port of an engine.
pub fn port_variable(engine: ServeEngine) -> (r: &'static str)
    ensures
        r@ == (match engine {
            ServeEngine::MlxLm | ServeEngine::MlxLmShare => "ASMI_MLX_LM_PORT"@,
            ServeEngine::MlxVlm => "ASMI_MLX_VLM_PORT"@,
            ServeEngine::VllmMlx => "ASMI_VLLM_MLX_PORT"@,
            ServeEngine::DFlash => "ASMI_DFLASH_PORT"@,
            ServeEngine::Ds4 => "ASMI_DS4_PORT"@,
            ServeEngine::ImageGen => "ASMI_IMAGE_GEN_PORT"@,
            ServeEngine::VideoGen => "ASMI_VIDEO_GEN_PORT"@,
        }),
{
    match engine {
        ServeEngine::MlxLm | ServeEngine::MlxLmShare => "ASMI_MLX_LM_PORT",
        ServeEngine::MlxVlm => "ASMI_MLX_VLM_PORT",
        ServeEngine::VllmMlx => "ASMI_VLLM_MLX_PORT",
        ServeEngine::DFlash => "ASMI_DFLASH_PORT",
        ServeEngine::Ds4 => "ASMI_DS4_PORT",
        ServeEngine::ImageGen => "ASMI_IMAGE_GEN_PORT",
        ServeEngine::VideoGen => "ASMI_VIDEO_GEN_PORT",
    }
}

/// The port of an engine, given what its environment variable holds.
pub fn port_for_engine(engine: ServeEngine, env: &Option<String>) -> (r: u16)
    ensures
        r == engine_port(engine, env.deep_view()),
{
    let fallback: u16 = match engine {
        ServeEngine::MlxLm | ServeEngine::MlxLmShare => 19080,
        ServeEngine::MlxVlm => 19082,
        ServeEngine::VllmMlx => 8000,
        ServeEngine::DFlash => 19080,
        ServeEngine::Ds4 => 8080,
        ServeEngine::ImageGen => 19095,
        ServeEngine::VideoGen => 19096,
    };
    match env {
        Some(v) => match text::parse_u16(v) {
            Some(n) => n,
            None => fallback,
        },
        None => fallback,
    }
}

/// The engine that a name in the list of media servers stands for.
pub open spec fn media_engine(name: Seq<char>) -> Option<ServeEngine> {
    if name == "image_gen"@ {
        Some(ServeEngine::ImageGen)
    } else if name == "video_gen"@ {
        Some(ServeEngine::VideoGen)
    } else {
        None
    }
}

/// A port is managed.
pub open spec fn port_taken(ports: Seq<(u16, ServeEngine)>, port: u16) -> bool {
    exists|i: int| 0 <= i < ports.len() && (#[trigger] ports[i]).0 == port
}

/// The managed ports after one more name of the list of media servers:
/// unknown names and ports that are managed already add nothing.
pub open spec fn with_media(
    ports: Seq<(u16, ServeEngine)>,
    name: Seq<char>,
    image_port: u16,
    video_port: u16,
) -> Seq<(u16, ServeEngine)> {
    match media_engine(name) {
        None => ports,
        Some(engine) => {
            let port = if engine is ImageGen {
                image_port
            } else {
                video_port
            };
            if port_taken(ports, port) {
                ports
            } else {
                ports.push((port, engine))
            }
        },
    }
}

/// The managed ports: those of the two text engines, then those of the media
/// servers that are to be started.
pub open spec fn managed(
    lm_port: u16,
    vlm_port: u16,
    image_port: u16,
    video_port: u16,
    autostart: Seq<Seq<char>>,
) -> Seq<(u16, ServeEngine)>
    decreases autostart.len(),
{
    if autostart.len() == 0 {
        seq![(lm_port, ServeEngine::MlxLm), (vlm_port, ServeEngine::MlxVlm)]
    } else {
        with_media(
            managed(lm_port, vlm_port, image_port, video_port, autostart.drop_last()),
            autostart.last(),
            image_port,
            video_port,
        )
    }
}

/// The media servers to be started: those of the configuration, then those
/// that the environment lists.
pub fn autostart_names(config: &Vec<String>, env: &Option<String>) -> (r: Vec<String>)
    ensures
        r.deep_view() == config.deep_view() + (match env.deep_view() {
            Some(list) => text::split_on(list, ',').map_values(|s: Seq<char>| text::trimmed(s)),
            None => Seq::empty(),
        }),
{
    let mut out: Vec<String> = text::own_all(config);
    let ghost head = out.deep_view();
    match env {
        Some(list) => {
            let parts: Vec<String> = text::split(list, ',');
            let ghost want = text::split_on(list@, ',').map_values(
                |s: Seq<char>| text::trimmed(s),
            );
            let mut i: usize = 0;
            assert(head + want.take(0) =~= head);
            while i < parts.len()
                invariant
                    i <= parts@.len(),
                    want == parts.deep_view().map_values(|s: Seq<char>| text::trimmed(s)),
                    out.deep_view() == head + want.take(i as int),
                decreases parts@.len() - i,
            {
                text::push_text(&mut out, text::trim(&parts[i]));
                i = i + 1;
                assert(out.deep_view() =~= head + want.take(i as int));
            }
            assert(want.take(i as int) =~= want);
        },
        None => {
            assert(out.deep_view() =~= head + Seq::<Seq<char>>::empty());
        },
    }
    out
}

/// The managed ports with their engines.
pub fn managed_ports(
    lm_port: u16,
    vlm_port: u16,
    image_port: u16,
    video_port: u16,
    autostart: &Vec<String>,
) -> (r: Vec<(u16, ServeEngine)>)
    ensures
        r@ == managed(lm_port, vlm_port, image_port, video_port, autostart.deep_view()),
{
    let ghost names = autostart.deep_view();
    let mut ports: Vec<(u16, ServeEngine)> = Vec::new();
    ports.push((lm_port, ServeEngine::MlxLm));
    ports.push((vlm_port, ServeEngine::MlxVlm));
    assert(ports@ =~= managed(lm_port, vlm_port, image_port, video_port, names.take(0)));
    let mut i: usize = 0;
    while i < autostart.len()
        invariant
            i <= autostart@.len(),
            names == autostart.deep_view(),
            ports@ == managed(lm_port, vlm_port, image_port, video_port, names.take(i as int)),
        decreases autostart@.len() - i,
    {
        proof {
            assert(names.take(i + 1).drop_last() =~= names.take(i as int));
            assert(names.take(i + 1).last() == autostart@[i as int]@);
        }
        let entry: Option<(u16, ServeEngine)> = if text::same(&autostart[i], "image_gen") {
            Some((image_port, ServeEngine::ImageGen))
        } else if text::same(&autostart[i], "video_gen") {
            Some((video_port, ServeEngine::VideoGen))
        } else {
            None
        };
        if let Some((port, engine)) = entry {
            let mut k: usize = 0;
            while k < ports.len() && ports[k].0 != port
                invariant
                    k <= ports@.len(),
                    forall|m: int| 0 <= m < k ==> (#[trigger] ports@[m]).0 != port,
                decreases ports@.len() - k,
            {
                k = k + 1;
            }
            if k == ports.len() {
                ports.push((port, engine));
            } else {
                assert(ports@[k as int].0 == port);
            }
        }
        i = i + 1;
    }
    assert(names.take(i as int) =~= names);
    ports
}

/// No port is managed twice, where the two text engines have different ones.
pub proof fn managed_ports_differ(
    lm_port: u16,
    vlm_port: u16,
    image_port: u16,
    video_port: u16,
    autostart: Seq<Seq<char>>,
)
    requires
        lm_port != vlm_port,
    ensures
        ({
            let ports = managed(lm_port, vlm_port, image_port, video_port, autostart);
            forall|i: int, j: int|
                0 <= i < j < ports.len() ==> (#[trigger] ports[i]).0 != (#[trigger] ports[j]).0
        }),
    decreases autostart.len(),
{
    if autostart.len() > 0 {
        managed_ports_differ(lm_port, vlm_port, image_port, video_port, autostart.drop_last());
        let before = managed(lm_port, vlm_port, image_port, video_port, autostart.drop_last());
        let ports = managed(lm_port, vlm_port, image_port, video_port, autostart);
        assert forall|i: int, j: int| 0 <= i < j < ports.len() implies (#[trigger] ports[i]).0 != (
        #[trigger] ports[j]).0 by {
            assert(ports[i] == before[i]);
            if j < before.len() {
                assert(ports[j] == before[j]);
            }
        }
    }
}

// ---------------------------------------------------------------------------
// Backends
// ---------------------------------------------------------------------------

/// The backend for a word, given whether the hostfile exists: every
/// distributed backend needs it, and unknown words stand for a single node.
pub open spec fn backend_for(word: Seq<char>, hostfile_exists: bool) -> ServeBackend {
    if word == "single"@ || !hostfile_exists {
        ServeBackend::Single
    } else if word == "jaccl"@ || word == "auto"@ {
        ServeBackend::Jaccl
    } else if word == "jaccl-ring"@ {
        ServeBackend::JacclRing
    } else if word == "ring"@ {
        ServeBackend::Ring
    } else {
        ServeBackend::Single
    }
}

/// The backend for a word, given whether the hostfile exists.
pub fn resolve_backend(backend: &str, hostfile_exists: bool) -> (r: ServeBackend)
    ensures
        r == backend_for(backend@, hostfile_exists),
{
    if text::same(backend, "single") || !hostfile_exists {
        ServeBackend::Single
    } else if text::same(backend, "jaccl") || text::same(backend, "auto") {
        ServeBackend::Jaccl
    } else if text::same(backend, "jaccl-ring") {
        ServeBackend::JacclRing
    } else if text::same(backend, "ring") {
        ServeBackend::Ring
    } else {
        ServeBackend::Single
    }
}

/// The hosts of the hostfile have to be asked whether they are alive: only
/// where `auto` stands for a distributed backend because a hostfile exists.
pub fn needs_liveness_check(backend: &str, hostfile_exists: bool) -> (r: bool)
    ensures
        r == (backend_for(backend@, hostfile_exists) is Jaccl && backend@ == "auto"@),
{
    matches!(resolve_backend(backend, hostfile_exists), ServeBackend::Jaccl) && text::same(
        backend,
        "auto",
    )
}

/// The backend for a word, given whether the hostfile exists and whether all
/// its hosts are alive: `auto` stands for a single node where they are not,
/// and an explicit backend is taken as it is.
pub fn resolve_backend_validated(
    backend: &str,
    hostfile_exists: bool,
    hosts_alive: bool,
) -> (r: ServeBackend)
    ensures
        r == (if backend_for(backend@, hostfile_exists) is Jaccl && backend@ == "auto"@
            && !hosts_alive {
            ServeBackend::Single
        } else {
            backend_for(backend@, hostfile_exists)
        }),
{
    if needs_liveness_check(backend, hostfile_exists) && !hosts_alive {
        ServeBackend::Single
    } else {
        resolve_backend(backend, hostfile_exists)
    }
}

/// The host at position `i` answered.
pub open spec fn answered(alive: Seq<bool>, i: int) -> bool {
    0 <= i < alive.len() && alive[i]
}

/// The hosts that did not answer.
pub open spec fn silent(hosts: Seq<Seq<char>>, alive: Seq<bool>) -> Seq<Seq<char>>
    decreases hosts.len(),
{
    if hosts.len() == 0 {
        Seq::empty()
    } else if answered(alive, hosts.len() - 1) {
        silent(hosts.drop_last(), alive)
    } else {
        silent(hosts.drop_last(), alive).push(hosts.last())
    }
}

/// What the answers of the hosts in a hostfile come to: nothing where there
/// are hosts and all answered, else those that did not answer, or that there
/// are none.
pub open spec fn hosts_verdict(hosts: Seq<Seq<char>>, alive: Seq<bool>) -> Seq<Seq<char>> {
    if hosts.len() == 0 {
        seq!["hostfile has no hosts"@]
    } else {
        silent(hosts, alive)
    }
}

/// Judges the answers of the hosts in a hostfile: an error names those that
/// did not answer, or says that there are none.
pub fn judge_hosts(hosts: &Vec<String>, alive: &Vec<bool>) -> (r: Result<(), Vec<String>>)
    ensures
        r is Ok <==> hosts_verdict(hosts.deep_view(), alive@).len() == 0,
        r matches Err(dead) ==> dead.deep_view() == hosts_verdict(hosts.deep_view(), alive@),
{
    let mut dead: Vec<String> = Vec::new();
    assert(hosts.deep_view().len() == hosts@.len());
    if hosts.len() == 0 {
        text::push_str(&mut dead, "hostfile has no hosts");
        assert(dead.deep_view() =~= seq!["hostfile has no hosts"@]);
        return Err(dead);
    }
    let ghost hs = hosts.deep_view();
    let mut i: usize = 0;
    assert(dead.deep_view() =~= silent(hs.take(0), alive@));
    while i < hosts.len()
        invariant
            i <= hosts@.len(),
            hs == hosts.deep_view(),
            dead.deep_view() == silent(hs.take(i as int), alive@),
        decreases hosts@.len() - i,
    {
        proof {
            assert(hs.take(i + 1).drop_last() =~= hs.take(i as int));
            assert(hs.take(i + 1).last() == hosts@[i as int]@);
        }
        if i >= alive.len() || !alive[i] {
            text::push_text(&mut dead, text::own(&hosts[i]));
        }
        i = i + 1;
    }
    assert(hs.take(i as int) =~= hs);
    assert(dead@.len() == dead.deep_view().len());
    if dead.len() == 0 {
        Ok(())
    } else {
        Err(dead)
    }
}

/// No host is silent exactly where every host answered.
pub proof fn silent_is_empty_when_all_answer(hosts: Seq<Seq<char>>, alive: Seq<bool>)
    ensures
        silent(hosts, alive).len() == 0 <==> forall|i: int|
            0 <= i < hosts.len() ==> #[trigger] answered(alive, i),
    decreases hosts.len(),
{
    if hosts.len() > 0 {
        silent_is_empty_when_all_answer(hosts.drop_last(), alive);
    }
}

// ---------------------------------------------------------------------------
// Environment variables for spawned processes
// ---------------------------------------------------------------------------

/// The name begins with a prefix of those that are handed on.
pub open spec fn forwarded_prefix(key: Seq<char>) -> bool {
    ||| text::starts(key, "MLX_"@)
    ||| text::starts(key, "KV_"@)
    ||| text::starts(key, "HF_"@)
    ||| text::starts(key, "JACCL_"@)
    ||| text::starts(key, "NCCL_"@)
}

/// The variable may be handed to a spawned process: its name has a forwarded
/// prefix and holds only ASCII letters, digits and underscores, and its value
/// holds no control character.
pub open spec fn env_allowed(key: Seq<char>, value: Seq<char>) -> bool {
    &&& forwarded_prefix(key)
    &&& forall|i: int| 0 <= i < key.len() ==> text::is_alnum(#[trigger] key[i]) || key[i] == '_'
    &&& forall|i: int| 0 <= i < value.len() ==> !text::is_control(#[trigger] value[i])
}

/// The variables that may be handed on, in order.
pub open spec fn env_forwarded(env: Seq<(Seq<char>, Seq<char>)>) -> Seq<(Seq<char>, Seq<char>)>
    decreases env.len(),
{
    if env.len() == 0 {
        env
    } else {
        let rest = env_forwarded(env.drop_last());
        if env_allowed(env.last().0, env.last().1) {
            order::pair_placed(rest, env.last())
        } else {
            rest
        }
    }
}

/// Whether the variable may be handed to a spawned process.
pub fn env_ok(key: &str, value: &str) -> (r: bool)
    ensures
        r == env_allowed(key@, value@),
{
    if !(text::starts_with(key, "MLX_") || text::starts_with(key, "KV_") || text::starts_with(
        key,
        "HF_",
    ) || text::starts_with(key, "JACCL_") || text::starts_with(key, "NCCL_")) {
        return false;
    }
    let k: Vec<char> = text::chars_of(key);
    let mut i: usize = 0;
    while i < k.len()
        invariant
            i <= k@.len(),
            k@ == key@,
            forall|j: int| 0 <= j < i ==> text::is_alnum(#[trigger] key@[j]) || key@[j] == '_',
        decreases k@.len() - i,
    {
        if !(text::alnum(k[i]) || k[i] == '_') {
            assert(!(text::is_alnum(key@[i as int]) || key@[i as int] == '_'));
            return false;
        }
        i = i + 1;
    }
    let v: Vec<char> = text::chars_of(value);
    let mut i: usize = 0;
    while i < v.len()
        invariant
            i <= v@.len(),
            v@ == value@,
            forall|j: int| 0 <= j < i ==> !text::is_control(#[trigger] value@[j]),
        decreases v@.len() - i,
    {
        if text::control(v[i]) {
            assert(text::is_control(value@[i as int]));
            return false;
        }
        i = i + 1;
    }
    true
}

/// A copy of a pair.
pub fn own_pair(p: &(String, String)) -> (r: (String, String))
    ensures
        r.deep_view() == p.deep_view(),
{
    (text::own(&p.0), text::own(&p.1))
}

/// The pairs of an optional list.
pub open spec fn pairs_or_none(env: Option<Seq<(Seq<char>, Seq<char>)>>) -> Seq<
    (Seq<char>, Seq<char>),
> {
    match env {
        Some(e) => e,
        None => Seq::empty(),
    }
}

/// The variables that may be handed on, in order.
pub fn allowlisted_env(env: &Option<Vec<(String, String)>>) -> (r: Vec<(String, String)>)
    ensures
        r.deep_view() == env_forwarded(pairs_or_none(env.deep_view())),
{
    let mut out: Vec<(String, String)> = Vec::new();
    assert(out.deep_view() =~= Seq::<(Seq<char>, Seq<char>)>::empty());
    match env {
        None => out,
        Some(list) => {
            let ghost s = list.deep_view();
            let mut i: usize = 0;
            assert(s.take(0) =~= Seq::<(Seq<char>, Seq<char>)>::empty());
            while i < list.len()
                invariant
                    i <= list@.len(),
                    s == list.deep_view(),
                    out.deep_view() == env_forwarded(s.take(i as int)),
                decreases list@.len() - i,
            {
                proof {
                    assert(s.take(i + 1).drop_last() =~= s.take(i as int));
                    assert(s.take(i + 1).last() == list@[i as int].deep_view());
                }
                if env_ok(&list[i].0, &list[i].1) {
                    order::place_pair(&mut out, own_pair(&list[i]));
                }
                i = i + 1;
            }
            assert(s.take(i as int) =~= s);
            out
        },
    }
}

/// Every variable that is handed on may be handed on, and they come in order,
/// so that the same variables give the same arguments.
pub proof fn forwarded_env_is_allowed(env: Seq<(Seq<char>, Seq<char>)>)
    ensures
        order::pairs_ordered(env_forwarded(env)),
        forall|i: int|
            0 <= i < env_forwarded(env).len() ==> env_allowed(
                (#[trigger] env_forwarded(env)[i]).0,
                env_forwarded(env)[i].1,
            ),
    decreases env.len(),
{
    if env.len() > 0 {
        let rest = env_forwarded(env.drop_last());
        let now = env_forwarded(env);
        forwarded_env_is_allowed(env.drop_last());
        if env_allowed(env.last().0, env.last().1) {
            order::pair_placed_keeps_order(rest, env.last());
            assert forall|i: int| 0 <= i < now.len() implies env_allowed(
                (#[trigger] now[i]).0,
                now[i].1,
            ) by {
                if now[i] != env.last() {
                    let m = choose|m: int| 0 <= m < rest.len() && rest[m] == now[i];
                    assert(env_allowed(rest[m].0, rest[m].1));
                }
            }
        }
    }
}

/// No variable without a forwarded prefix is handed on, whatever it holds:
/// neither `PATH` nor `PYTHONPATH` can reach a spawned interpreter.
pub proof fn search_paths_are_never_forwarded(value: Seq<char>)
    ensures
        !env_allowed("PATH"@, value),
        !env_allowed("PYTHONPATH"@, value),
        !env_allowed("DYLD_INSERT_LIBRARIES"@, value),
{
    reveal_strlit("PATH");
    reveal_strlit("PYTHONPATH");
    reveal_strlit("DYLD_INSERT_LIBRARIES");
    reveal_strlit("MLX_");
    reveal_strlit("KV_");
    reveal_strlit("HF_");
    reveal_strlit("JACCL_");
    reveal_strlit("NCCL_");
    assert forall|key: Seq<char>|
        key.len() > 0 && (key[0] == 'P' || key[0] == 'D') implies !#[trigger] forwarded_prefix(
        key,
    ) by {
        if text::starts(key, "MLX_"@) {
            assert(key.take(4)[0] == 'M');
        }
        if text::starts(key, "KV_"@) {
            assert(key.take(3)[0] == 'K');
        }
        if text::starts(key, "HF_"@) {
            assert(key.take(3)[0] == 'H');
        }
        if text::starts(key, "JACCL_"@) {
            assert(key.take(6)[0] == 'J');
        }
        if text::starts(key, "NCCL_"@) {
            assert(key.take(5)[0] == 'N');
        }
    }
    assert(!forwarded_prefix("PATH"@));
    assert(!forwarded_prefix("PYTHONPATH"@));
    assert(!forwarded_prefix("DYLD_INSERT_LIBRARIES"@));
}

// ---------------------------------------------------------------------------
// What logs and tools say
// ---------------------------------------------------------------------------

/// The last `n` of the lines, or all of them.
pub open spec fn last_of(lines: Seq<Seq<char>>, n: nat) -> Seq<Seq<char>> {
    if lines.len() <= n {
        lines
    } else {
        lines.skip(lines.len() - n)
    }
}

/// The line reports an error.
pub open spec fn reports_error(line: Seq<char>) -> bool {
    text::has(line, "Error:"@) || text::has(line, "Exception:"@) || text::has(line, "error:"@)
}

/// The last of the lines that reports an error.
pub open spec fn last_error(lines: Seq<Seq<char>>) -> Option<Seq<char>>
    decreases lines.len(),
{
    if lines.len() == 0 {
        None
    } else if reports_error(lines.last()) {
        Some(lines.last())
    } else {
        last_error(lines.drop_last())
    }
}

/// What the end of a log says: the last of its last `n` lines that reports
/// an error, else all of them.
pub open spec fn log_says(content: Seq<char>, n: nat) -> Seq<char> {
    let tail = last_of(text::lines_of(content), n);
    match last_error(tail) {
        Some(line) => text::trimmed(line),
        None => text::trimmed(text::joined(tail, "\n"@)),
    }
}

/// What the end of a log says.
pub fn log_tail(content: &str, n: usize) -> (r: String)
    ensures
        r@ == log_says(content@, n as nat),
{
    let all: Vec<String> = text::lines(content);
    let from: usize = if all.len() <= n {
        0
    } else {
        all.len() - n
    };
    let part: Vec<String> = crate::topology::copy_range(&all, from, all.len());
    let ghost tail = last_of(text::lines_of(content@), n as nat);
    assert(part.deep_view() =~= tail);
    let mut i: usize = part.len();
    assert(tail.take(i as int) =~= tail);
    while i > 0
        invariant
            i <= part@.len(),
            tail == part.deep_view(),
            tail == last_of(text::lines_of(content@), n as nat),
            last_error(tail) == last_error(tail.take(i as int)),
        decreases i,
    {
        assert(tail.take(i as int).last() == part@[i - 1]@);
        assert(tail.take(i as int).drop_last() =~= tail.take(i - 1));
        let line: &String = &part[i - 1];
        if text::contains(line, "Error:") || text::contains(line, "Exception:") || text::contains(
            line,
            "error:",
        ) {
            return text::trim(line);
        }
        i = i - 1;
    }
    text::trim(&text::join(&part, "\n"))
}

/// A colon and the port stand at position `i`, and no digit behind them.
pub open spec fn port_stands_at(output: Seq<char>, port: u16, i: int) -> bool {
    let mark = ":"@ + text::dec(port as nat);
    &&& text::occurs_at(output, mark, i)
    &&& !(i + mark.len() < output.len() && text::is_digit(output[i + mark.len()]))
}

/// Whether the output of `lsof` for a process shows that it listens on the
/// port.
pub fn shows_port(output: &str, port: u16) -> (r: bool)
    ensures
        r == exists|i: int| port_stands_at(output@, port, i),
{
    let v: Vec<char> = text::chars_of(output);
    let mark: Vec<char> = text::chars_of(&text::glue(":", &text::decimal(port as u64)));
    let mut from: usize = 0;
    loop
        invariant
            from <= v@.len(),
            v@ == output@,
            mark@ == ":"@ + text::dec(port as nat),
            forall|i: int| i < from ==> !#[trigger] port_stands_at(output@, port, i),
        decreases v@.len() - from,
    {
        proof {
            reveal_strlit(":");
            text::find_from_is_first(v@, mark@, from as int);
        }
        match text::find_in(&v, &mark, from) {
            None => {
                assert forall|i: int| !#[trigger] port_stands_at(output@, port, i) by {
                    assert(from <= i ==> !text::occurs_at(v@, mark@, i));
                }
                return false;
            },
            Some(i) => {
                let end: usize = i + mark.len();
                let digit: bool = end < v.len() && '0' <= v[end] && v[end] <= '9';
                if !digit {
                    assert(port_stands_at(output@, port, i as int));
                    return true;
                }
                assert forall|k: int| k < i + 1 implies !#[trigger] port_stands_at(
                    output@,
                    port,
                    k,
                ) by {
                    assert(from <= k < i ==> !text::occurs_at(v@, mark@, k));
                }
                from = i + 1;
            },
        }
    }
}

/// The address is a loopback or wildcard address.
pub open spec fn local_address(addr: Seq<char>) -> bool {
    ||| text::starts(addr, "127.0.0.1:"@)
    ||| text::starts(addr, "*:"@)
    ||| text::starts(addr, "[::]:"@)
    ||| text::starts(addr, "[::1]:"@)
}

/// The process and the address in a line of `lsof`.
pub open spec fn listener_of(line: Seq<char>) -> Option<(nat, Seq<char>)> {
    let cols = text::words_of(line);
    if cols.len() < 9 {
        None
    } else {
        match text::unsigned(cols[1], u32::MAX as nat) {
            Some(pid) => Some((pid, cols[8])),
            None => None,
        }
    }
}

/// The first of the lines with a listener on a loopback or wildcard address,
/// else `fallback`, else the first listener.
pub open spec fn chosen_listener(lines: Seq<Seq<char>>, fallback: Option<nat>) -> Option<nat>
    decreases lines.len(),
{
    if lines.len() == 0 {
        fallback
    } else {
        match listener_of(lines[0]) {
            None => chosen_listener(lines.drop_first(), fallback),
            Some(l) => if local_address(l.1) {
                Some(l.0)
            } else {
                chosen_listener(
                    lines.drop_first(),
                    match fallback {
                        Some(p) => Some(p),
                        None => Some(l.0),
                    },
                )
            },
        }
    }
}

/// The listener that the output of `lsof` shows for a port, without its
/// header.
pub open spec fn listener_in(output: Seq<char>) -> Option<nat> {
    let lines = text::lines_of(output);
    if lines.len() == 0 {
        None
    } else {
        chosen_listener(lines.drop_first(), None)
    }
}

/// The process and whether its address is a loopback or wildcard address.
fn parse_listener(line: &str) -> (r: Option<(u32, bool)>)
    ensures
        r is Some <==> listener_of(line@) is Some,
        r matches Some(l) ==> listener_of(line@) matches Some(w) && w.0 == l.0 && local_address(w.1)
            == l.1,
{
    let cols: Vec<String> = text::words(line);
    if cols.len() < 9 {
        return None;
    }
    assert(cols.deep_view()[1] == cols@[1]@);
    assert(cols.deep_view()[8] == cols@[8]@);
    match text::parse_u32(&cols[1]) {
        None => None,
        Some(pid) => {
            let addr: &String = &cols[8];
            let near: bool = text::starts_with(addr, "127.0.0.1:") || text::starts_with(addr, "*:")
                || text::starts_with(addr, "[::]:") || text::starts_with(addr, "[::1]:");
            Some((pid, near))
        },
    }
}

/// The process that listens on a port, from the output of `lsof`. Several can
/// listen on the same port at different addresses; the one that would be
/// managed is at a loopback or wildcard address.
pub fn pid_on_port(output: &str) -> (r: Option<u32>)
    ensures
        r is Some <==> listener_in(output@) is Some,
        r matches Some(pid) ==> listener_in(output@) == Some(pid as nat),
{
    let all: Vec<String> = text::lines(output);
    let ghost ls = all.deep_view();
    if all.len() == 0 {
        return None;
    }
    let mut fallback: Option<u32> = None;
    let mut i: usize = 1;
    assert(ls.skip(1) =~= ls.drop_first());
    while i < all.len()
        invariant
            1 <= i <= all@.len(),
            ls == all.deep_view(),
            ls == text::lines_of(output@),
            listener_in(output@) == chosen_listener(
                ls.skip(i as int),
                match fallback {
                    Some(p) => Some(p as nat),
                    None => None,
                },
            ),
        decreases all@.len() - i,
    {
        assert(ls.skip(i as int)[0] == all@[i as int]@);
        assert(ls.skip(i as int).drop_first() =~= ls.skip(i + 1));
        if let Some((pid, near)) = parse_listener(&all[i]) {
            if near {
                return Some(pid);
            }
            if fallback.is_none() {
                fallback = Some(pid);
            }
        }
        i = i + 1;
    }
    fallback
}

/// What a probe of a server waits for: one of its endpoints to answer.
pub struct HttpHealth {
    pub port: u16,
    pub endpoints: Vec<String>,
}

impl HttpHealth {
    /// The addresses that are asked, in turn.
    pub fn urls(&self) -> (r: Vec<String>)
        ensures
            r.deep_view() == self.endpoints.deep_view().map_values(
                |ep: Seq<char>| "http://127.0.0.1:"@ + text::dec(self.port as nat) + ep,
            ),
    {
        let ghost want = self.endpoints.deep_view().map_values(
            |ep: Seq<char>| "http://127.0.0.1:"@ + text::dec(self.port as nat) + ep,
        );
        let mut out: Vec<String> = Vec::new();
        let mut i: usize = 0;
        while i < self.endpoints.len()
            invariant
                i <= self.endpoints@.len(),
                want == self.endpoints.deep_view().map_values(
                    |ep: Seq<char>| "http://127.0.0.1:"@ + text::dec(self.port as nat) + ep,
                ),
                out.deep_view() == want.take(i as int),
            decreases self.endpoints@.len() - i,
        {
            let mut url: String = text::glue("http://127.0.0.1:", &text::decimal(self.port as u64));
            url.append(&self.endpoints[i]);
            text::push_text(&mut out, url);
            i = i + 1;
            assert(out.deep_view() =~= want.take(i as int));
        }
        assert(want.take(i as int) =~= want);
        out
    }
}

/// What a poll of a server comes to.
#[derive(Debug, Clone, Copy, PartialEq, Eq, Structural)]
pub enum PollVerdict {
    Ready,
    Failed,
    TimedOut,
    Again,
}

/// What a round of asking the endpoints comes to: an answer is success, and
/// without one the time decides.
pub fn judge_health(answered: bool, now_ms: u64, deadline_ms: u64) -> (r: PollVerdict)
    ensures
        answered ==> r == PollVerdict::Ready,
        !answered && now_ms >= deadline_ms ==> r == PollVerdict::TimedOut,
        !answered && now_ms < deadline_ms ==> r == PollVerdict::Again,
{
    if answered {
        PollVerdict::Ready
    } else if now_ms >= deadline_ms {
        PollVerdict::TimedOut
    } else {
        PollVerdict::Again
    }
}

/// What a probe of a share session waits for: a line in its log.
pub struct LogMonitor {
    pub log_path: String,
    pub ready_markers: Vec<String>,
    pub error_markers: Vec<String>,
}

/// The log holds one of the markers.
pub open spec fn marked(content: Seq<char>, markers: Seq<Seq<char>>) -> bool {
    exists|i: int| 0 <= i < markers.len() && text::has(content, #[trigger] markers[i])
}

/// Whether the log holds one of the markers.
fn holds_marker(content: &str, markers: &Vec<String>) -> (r: bool)
    ensures
        r == marked(content@, markers.deep_view()),
{
    let mut i: usize = 0;
    while i < markers.len()
        invariant
            i <= markers@.len(),
            forall|k: int| 0 <= k < i ==> !text::has(content@, #[trigger] markers.deep_view()[k]),
        decreases markers@.len() - i,
    {
        if text::contains(content, &markers[i]) {
            assert(text::has(content@, markers.deep_view()[i as int]));
            return true;
        }
        i = i + 1;
    }
    false
}

impl LogMonitor {
    /// The monitor of the share session.
    pub fn share() -> (r: LogMonitor)
        ensures
            r.log_path@ == "/tmp/r1o-mlx-share.log"@,
            r.ready_markers.deep_view() == seq![
                "Uvicorn running on"@,
                "Application startup complete"@,
                "Starting endpoint"@,
                "Connected to"@,
                "Listening on"@,
            ],
            r.error_markers.deep_view() == seq![
                "Error:"@,
                "Exception:"@,
                "ValueError:"@,
                "RuntimeError:"@,
            ],
    {
        let mut ready: Vec<String> = Vec::new();
        text::push_str(&mut ready, "Uvicorn running on");
        text::push_str(&mut ready, "Application startup complete");
        text::push_str(&mut ready, "Starting endpoint");
        text::push_str(&mut ready, "Connected to");
        text::push_str(&mut ready, "Listening on");
        let mut bad: Vec<String> = Vec::new();
        text::push_str(&mut bad, "Error:");
        text::push_str(&mut bad, "Exception:");
        text::push_str(&mut bad, "ValueError:");
        text::push_str(&mut bad, "RuntimeError:");
        assert(ready.deep_view() =~= seq![
            "Uvicorn running on"@,
            "Application startup complete"@,
            "Starting endpoint"@,
            "Connected to"@,
            "Listening on"@,
        ]);
        assert(bad.deep_view() =~= seq![
            "Error:"@,
            "Exception:"@,
            "ValueError:"@,
            "RuntimeError:"@,
        ]);
        LogMonitor {
            log_path: text::own("/tmp/r1o-mlx-share.log"),
            ready_markers: ready,
            error_markers: bad,
        }
    }

    /// What a round of reading the log and asking the server comes to: the
    /// log decides first, a marker of success before one of an error, then
    /// the answer of the server, then the time.
    pub fn judge(
        &self,
        log: &Option<String>,
        answered: bool,
        now_ms: u64,
        deadline_ms: u64,
    ) -> (r: PollVerdict)
        ensures
            r == (match log.deep_view() {
                Some(content) => if marked(content, self.ready_markers.deep_view()) {
                    PollVerdict::Ready
                } else if marked(content, self.error_markers.deep_view()) {
                    PollVerdict::Failed
                } else if answered {
                    PollVerdict::Ready
                } else if now_ms >= deadline_ms {
                    PollVerdict::TimedOut
                } else {
                    PollVerdict::Again
                },
                None => if answered {
                    PollVerdict::Ready
                } else if now_ms >= deadline_ms {
                    PollVerdict::TimedOut
                } else {
                    PollVerdict::Again
                },
            }),
    {
        if let Some(content) = log {
            if holds_marker(content, &self.ready_markers) {
                return PollVerdict::Ready;
            }
            if holds_marker(content, &self.error_markers) {
                return PollVerdict::Failed;
            }
        }
        judge_health(answered, now_ms, deadline_ms)
    }
}

/// The exit code as text, or the word for a signal.
pub open spec fn exit_word(code: Option<int>) -> Seq<char> {
    match code {
        Some(c) => if c < 0 {
            "-"@ + text::dec((-c) as nat)
        } else {
            text::dec(c as nat)
        },
        None => "signal"@,
    }
}

/// The exit code as text, or the word for a signal.
pub fn exit_text(code: Option<i32>) -> (r: String)
    ensures
        r@ == exit_word(
            match code {
                Some(c) => Some(c as int),
                None => None,
            },
        ),
{
    match code {
        Some(c) => if c < 0 {
            let n: u64 = (0 - (c as i64)) as u64;
            text::glue("-", &text::decimal(n))
        } else {
            text::decimal(c as u64)
        },
        None => text::own("signal"),
    }
}

/// What is said of a process that ended while it was starting.
pub fn startup_exit_message(what: &str, code: Option<i32>, detail: &str) -> (r: String)
    ensures
        r@ == what@ + " exited during startup (exit "@ + exit_word(
            match code {
                Some(c) => Some(c as int),
                None => None,
            },
        ) + "): "@ + detail@,
{
    let mut s: String = text::glue(what, " exited during startup (exit ");
    s.append(&exit_text(code));
    s.append("): ");
    s.append(detail);
    s
}

/// Every variable of a request that may be handed on is handed on.
pub proof fn allowed_env_is_forwarded(env: Seq<(Seq<char>, Seq<char>)>, i: int)
    requires
        0 <= i < env.len(),
        env_allowed(env[i].0, env[i].1),
    ensures
        env_forwarded(env).contains(env[i]),
    decreases env.len(),
{
    broadcast use vstd::seq_lib::group_to_multiset_ensures;

    let front = env.drop_last();
    let rest = env_forwarded(front);
    forwarded_env_is_allowed(front);
    if i < env.len() - 1 {
        assert(front[i] == env[i]);
        allowed_env_is_forwarded(front, i);
    }
    if env_allowed(env.last().0, env.last().1) {
        order::pair_placed_keeps_order(rest, env.last());
        let now = order::pair_placed(rest, env.last());
        assert(rest.contains(env[i]) ==> rest.to_multiset().count(env[i]) > 0);
        assert(now.to_multiset().count(env[i]) > 0);
        assert(now.contains(env[i]));
    }
}

/// A variable that may be handed on has a name that begins with one of the
/// five prefixes and holds nothing that could end it, and a value without
/// control characters. Every such variable may be handed on.
pub proof fn env_rule_is_exact(prefix: Seq<char>, rest: Seq<char>, value: Seq<char>)
    requires
        prefix == "MLX_"@ || prefix == "KV_"@ || prefix == "HF_"@ || prefix == "JACCL_"@ || prefix
            == "NCCL_"@,
    ensures
        env_allowed(prefix + rest, value) <==> {
            &&& forall|i: int|
                0 <= i < rest.len() ==> text::is_alnum(#[trigger] rest[i]) || rest[i] == '_'
            &&& forall|i: int| 0 <= i < value.len() ==> !text::is_control(#[trigger] value[i])
        },
{
    reveal_strlit("MLX_");
    reveal_strlit("KV_");
    reveal_strlit("HF_");
    reveal_strlit("JACCL_");
    reveal_strlit("NCCL_");
    let key = prefix + rest;
    assert(key.take(prefix.len() as int) =~= prefix);
    assert(text::starts(key, prefix));
    assert forall|i: int| 0 <= i < prefix.len() implies text::is_alnum(#[trigger] prefix[i])
        || prefix[i] == '_' by {}
    if env_allowed(key, value) {
        assert forall|i: int| 0 <= i < rest.len() implies text::is_alnum(#[trigger] rest[i])
            || rest[i] == '_' by {
            assert(key[prefix.len() + i] == rest[i]);
        }
    } else if forall|i: int|
        0 <= i < rest.len() ==> text::is_alnum(#[trigger] rest[i]) || rest[i] == '_' {
        assert forall|i: int| 0 <= i < key.len() implies text::is_alnum(#[trigger] key[i])
            || key[i] == '_' by {
            if i < prefix.len() {
                assert(key[i] == prefix[i]);
            } else {
                assert(key[i] == rest[i - prefix.len()]);
            }
        }
    }
}

/// A path that begins with `~/` leads below the home directory, and any other
/// is left as it is.
pub proof fn tilde_is_home(rest: Seq<char>, path: Seq<char>, home: Seq<char>)
    requires
        !(path.len() >= 2 && path[0] == '~' && path[1] == '/'),
    ensures
        tilde_expanded("~/"@ + rest, Some(home)) == home + "/"@ + rest,
        tilde_expanded(path, Some(home)) == path,
        tilde_expanded(path, None) == path,
{
    reveal_strlit("~/");
    let p = "~/"@ + rest;
    assert(p.take(2) =~= "~/"@);
    assert(p.skip(2) =~= rest);
    if text::starts(path, "~/"@) {
        assert(path.take(2)[0] == '~' && path.take(2)[1] == '/');
    }
}

/// The words of backends stand for them where there is a hostfile, `auto`
/// stands for `jaccl`, and without a hostfile there is one node.
pub proof fn words_stand_for_backends(b: ServeBackend, word: Seq<char>)
    ensures
        backend_for(b.word(), true) == b,
        backend_for("auto"@, true) is Jaccl,
        backend_for(word, false) is Single,
        (forall|c: ServeBackend| #[trigger] c.word() != word) && word != "auto"@ ==> backend_for(
            word,
            true,
        ) is Single,
{
    words_tell_backends_apart(b, b);
    reveal_strlit("single");
    reveal_strlit("jaccl");
    reveal_strlit("jaccl-ring");
    reveal_strlit("ring");
    reveal_strlit("auto");
    assert("single"@.len() == 6 && "jaccl"@.len() == 5 && "jaccl-ring"@.len() == 10);
    assert("ring"@.len() == 4 && "auto"@.len() == 4);
    assert("ring"@[0] == 'r' && "auto"@[0] == 'a');
    if forall|c: ServeBackend| #[trigger] c.word() != word {
        assert(ServeBackend::Jaccl.word() != word);
        assert(ServeBackend::JacclRing.word() != word);
        assert(ServeBackend::Ring.word() != word);
    }
}

/// An engine listens on the port that the environment names, where it names
/// one, and else on its own.
pub proof fn environment_names_ports(engine: ServeEngine, port: u16, word: Seq<char>)
    requires
        text::unsigned(word, 65535) is None,
    ensures
        engine_port(engine, Some(text::dec(port as nat))) == port,
        engine_port(engine, None) == default_port(engine),
        engine_port(engine, Some(word)) == default_port(engine),
        default_port(ServeEngine::MlxLm) == 19080,
        default_port(ServeEngine::MlxVlm) == 19082,
        default_port(ServeEngine::ImageGen) == 19095,
        default_port(ServeEngine::VideoGen) == 19096,
{
    text::numeral_round_trip(port as nat, 65535);
}

/// The language and vision servers are always managed on their ports, and a
/// media server where it is to be started on its own, unless its port is
/// taken; nothing else is.
pub proof fn wanted_servers_are_managed(
    lm_port: u16,
    vlm_port: u16,
    image_port: u16,
    video_port: u16,
    autostart: Seq<Seq<char>>,
)
    ensures
        ({
            let ports = managed(lm_port, vlm_port, image_port, video_port, autostart);
            &&& ports.contains((lm_port, ServeEngine::MlxLm))
            &&& ports.contains((vlm_port, ServeEngine::MlxVlm))
            &&& autostart.contains("image_gen"@) ==> port_taken(ports, image_port)
            &&& autostart.contains("video_gen"@) ==> port_taken(ports, video_port)
            &&& forall|i: int|
                0 <= i < ports.len() ==> ({
                    let p = #[trigger] ports[i];
                    ||| p == (lm_port, ServeEngine::MlxLm)
                    ||| p == (vlm_port, ServeEngine::MlxVlm)
                    ||| p == (image_port, ServeEngine::ImageGen) && autostart.contains(
                        "image_gen"@,
                    )
                    ||| p == (video_port, ServeEngine::VideoGen) && autostart.contains(
                        "video_gen"@,
                    )
                })
        }),
    decreases autostart.len(),
{
    let ports = managed(lm_port, vlm_port, image_port, video_port, autostart);
    reveal_strlit("image_gen");
    reveal_strlit("video_gen");
    assert("image_gen"@[0] == 'i' && "video_gen"@[0] == 'v');
    if autostart.len() == 0 {
        assert(ports[0] == (lm_port, ServeEngine::MlxLm));
        assert(ports[1] == (vlm_port, ServeEngine::MlxVlm));
    } else {
        let front = autostart.drop_last();
        let before = managed(lm_port, vlm_port, image_port, video_port, front);
        wanted_servers_are_managed(lm_port, vlm_port, image_port, video_port, front);
        assert forall|p: (u16, ServeEngine)| #[trigger] before.contains(p) implies ports.contains(
            p,
        ) by {
            let i = choose|i: int| 0 <= i < before.len() && before[i] == p;
            assert(ports[i] == p);
        }
        assert(before.contains((lm_port, ServeEngine::MlxLm)));
        assert(before.contains((vlm_port, ServeEngine::MlxVlm)));
        assert forall|w: Seq<char>| #[trigger] front.contains(w) implies autostart.contains(w) by {
            let i = choose|i: int| 0 <= i < front.len() && front[i] == w;
            assert(autostart[i] == w);
        }
        assert forall|w: Seq<char>| #[trigger] autostart.contains(w) implies front.contains(w)
            || autostart.last() == w by {
            let i = choose|i: int| 0 <= i < autostart.len() && autostart[i] == w;
            if i < front.len() {
                assert(front[i] == w);
            }
        }
        assert(autostart.contains(autostart.last())) by {
            assert(autostart[autostart.len() - 1] == autostart.last());
        }
        taken_stays_taken(before, ports, image_port);
        taken_stays_taken(before, ports, video_port);
        if autostart.last() == "image_gen"@ && !port_taken(before, image_port) {
            assert(ports.last() == (image_port, ServeEngine::ImageGen));
            assert(ports[ports.len() - 1].0 == image_port);
        }
        if autostart.last() == "video_gen"@ && !port_taken(before, video_port) {
            assert(ports.last() == (video_port, ServeEngine::VideoGen));
            assert(ports[ports.len() - 1].0 == video_port);
        }
        assert forall|i: int| 0 <= i < ports.len() implies ({
            let p = #[trigger] ports[i];
            ||| p == (lm_port, ServeEngine::MlxLm)
            ||| p == (vlm_port, ServeEngine::MlxVlm)
            ||| p == (image_port, ServeEngine::ImageGen) && autostart.contains("image_gen"@)
            ||| p == (video_port, ServeEngine::VideoGen) && autostart.contains("video_gen"@)
        }) by {
            if i < before.len() {
                assert(ports[i] == before[i]);
            }
        }
    }
}

/// A port that is taken stays so where ports are added.
proof fn taken_stays_taken(
    before: Seq<(u16, ServeEngine)>,
    ports: Seq<(u16, ServeEngine)>,
    port: u16,
)
    requires
        before.len() <= ports.len(),
        forall|i: int| 0 <= i < before.len() ==> #[trigger] before[i] == ports[i],
    ensures
        port_taken(before, port) ==> port_taken(ports, port),
{
    if port_taken(before, port) {
        let i = choose|i: int| 0 <= i < before.len() && (#[trigger] before[i]).0 == port;
        assert(ports[i].0 == port);
    }
}

/// The silent hosts are those that did not answer: each of them is named, and
/// no host that answered at every place where it stands.
pub proof fn silent_hosts_are_named(hosts: Seq<Seq<char>>, alive: Seq<bool>)
    ensures
        forall|i: int|
            0 <= i < hosts.len() && !(i < alive.len() && alive[i]) ==> silent(hosts, alive).contains(
                #[trigger] hosts[i],
            ),
        forall|h: Seq<char>|
            #[trigger] silent(hosts, alive).contains(h) ==> exists|i: int|
                0 <= i < hosts.len() && #[trigger] hosts[i] == h && !(i < alive.len() && alive[i]),
    decreases hosts.len(),
{
    if hosts.len() > 0 {
        let front = hosts.drop_last();
        let rest = silent(front, alive);
        let now = silent(hosts, alive);
        let k = hosts.len() - 1;
        silent_hosts_are_named(front, alive);
        assert forall|i: int|
            0 <= i < hosts.len() && !(i < alive.len() && alive[i]) implies now.contains(
            #[trigger] hosts[i],
        ) by {
            if i < k {
                assert(front[i] == hosts[i]);
                let m = choose|m: int| 0 <= m < rest.len() && rest[m] == hosts[i];
                assert(now[m] == hosts[i]);
            } else {
                assert(now.last() == hosts[i]);
            }
        }
        assert forall|h: Seq<char>| #[trigger] now.contains(h) implies exists|i: int|
            0 <= i < hosts.len() && #[trigger] hosts[i] == h && !(i < alive.len() && alive[i]) by {
            let m = choose|m: int| 0 <= m < now.len() && now[m] == h;
            if m < rest.len() {
                assert(rest[m] == h);
                assert(rest.contains(h));
                let i = choose|i: int|
                    0 <= i < front.len() && #[trigger] front[i] == h && !(i < alive.len()
                        && alive[i]);
                assert(hosts[i] == h);
            } else {
                assert(hosts[k] == h);
            }
        }
    }
}

/// What a log says is its last line among the last ones that reports an error:
/// no later one does. Where none does, no line among them reports any.
pub proof fn last_error_is_last(lines: Seq<Seq<char>>)
    ensures
        match last_error(lines) {
            Some(line) => exists|i: int|
                0 <= i < lines.len() && #[trigger] lines[i] == line && reports_error(line)
                    && forall|j: int| i < j < lines.len() ==> !reports_error(#[trigger] lines[j]),
            None => forall|j: int| 0 <= j < lines.len() ==> !reports_error(#[trigger] lines[j]),
        },
    decreases lines.len(),
{
    if lines.len() > 0 {
        let k = lines.len() - 1;
        if reports_error(lines.last()) {
            assert(lines[k] == lines.last());
        } else {
            let front = lines.drop_last();
            last_error_is_last(front);
            if let Some(line) = last_error(front) {
                let i = choose|i: int|
                    0 <= i < front.len() && #[trigger] front[i] == line && reports_error(line)
                        && forall|j: int|
                        i < j < front.len() ==> !reports_error(#[trigger] front[j]);
                assert(lines[i] == line);
                assert forall|j: int| i < j < lines.len() implies !reports_error(
                    #[trigger] lines[j],
                ) by {
                    if j < k {
                        assert(front[j] == lines[j]);
                    }
                }
            } else {
                assert forall|j: int| 0 <= j < lines.len() implies !reports_error(
                    #[trigger] lines[j],
                ) by {
                    if j < k {
                        assert(front[j] == lines[j]);
                    }
                }
            }
        }
    }
}

/// The process on a port is that of the first listener on an address of this
/// machine, else of the first listener there is.
pub proof fn nearest_listener_is_chosen(
    lines: Seq<Seq<char>>,
    fallback: Option<nat>,
    i: int,
    found: (nat, Seq<char>),
)
    requires
        0 <= i < lines.len(),
        listener_of(lines[i]) == Some(found),
        forall|j: int|
            0 <= j < i ==> !(listener_of(#[trigger] lines[j]) matches Some(l) && local_address(l.1)),
    ensures
        local_address(found.1) ==> chosen_listener(lines, fallback) == Some(
            found.0,
        ),
        (forall|j: int|
            0 <= j < lines.len() ==> !(listener_of(#[trigger] lines[j]) matches Some(l)
                && local_address(l.1))) && fallback is None && (forall|j: int|
            0 <= j < i ==> listener_of(#[trigger] lines[j]) is None) ==> chosen_listener(
            lines,
            fallback,
        ) == Some(found.0),
        (forall|j: int|
            0 <= j < lines.len() ==> !(listener_of(#[trigger] lines[j]) matches Some(l)
                && local_address(l.1))) && fallback is Some ==> chosen_listener(lines, fallback)
            == fallback,
    decreases lines.len(),
{
    let rest = lines.drop_first();
    let next = match listener_of(lines[0]) {
        None => fallback,
        Some(l) => match fallback {
            Some(p) => Some(p),
            None => Some(l.0),
        },
    };
    assert forall|j: int| 0 <= j < rest.len() implies #[trigger] rest[j] == lines[j + 1] by {}
    if i > 0 {
        assert(rest[i - 1] == lines[i]);
        assert forall|j: int| 0 <= j < i - 1 implies !(listener_of(#[trigger] rest[j]) matches Some(
            l,
        ) && local_address(l.1)) by {
            assert(rest[j] == lines[j + 1]);
        }
        assert(!(listener_of(lines[0]) matches Some(l) && local_address(l.1)));
        nearest_listener_is_chosen(rest, next, i - 1, found);
        if forall|j: int|
            0 <= j < lines.len() ==> !(listener_of(#[trigger] lines[j]) matches Some(l)
                && local_address(l.1)) {
            assert forall|j: int| 0 <= j < rest.len() implies !(listener_of(
                #[trigger] rest[j],
            ) matches Some(l) && local_address(l.1)) by {
                assert(rest[j] == lines[j + 1]);
            }
            if forall|j: int| 0 <= j < i ==> listener_of(#[trigger] lines[j]) is None {
                assert(listener_of(lines[0]) is None);
                assert forall|j: int| 0 <= j < i - 1 implies listener_of(
                    #[trigger] rest[j],
                ) is None by {
                    assert(rest[j] == lines[j + 1]);
                }
            }
        }
    } else if !local_address(found.1) {
        if forall|j: int|
            0 <= j < lines.len() ==> !(listener_of(#[trigger] lines[j]) matches Some(l)
                && local_address(l.1)) {
            assert forall|j: int| 0 <= j < rest.len() implies !(listener_of(
                #[trigger] rest[j],
            ) matches Some(l) && local_address(l.1)) by {
                assert(rest[j] == lines[j + 1]);
            }
            far_listeners_change_nothing(rest, next->0);
        }
    }
}

/// Where no listener is on an address of this machine, the one that was found
/// first stays.
proof fn far_listeners_change_nothing(lines: Seq<Seq<char>>, pid: nat)
    requires
        forall|j: int|
            0 <= j < lines.len() ==> !(listener_of(#[trigger] lines[j]) matches Some(l)
                && local_address(l.1)),
    ensures
        chosen_listener(lines, Some(pid)) == Some(pid),
    decreases lines.len(),
{
    if lines.len() > 0 {
        let rest = lines.drop_first();
        assert forall|j: int| 0 <= j < rest.len() implies !(listener_of(
            #[trigger] rest[j],
        ) matches Some(l) && local_address(l.1)) by {
            assert(rest[j] == lines[j + 1]);
        }
        assert(!(listener_of(lines[0]) matches Some(l) && local_address(l.1)));
        far_listeners_change_nothing(rest, pid);
    }
}

/// The end of a log is its last lines, all of them where there are few.
pub proof fn end_is_the_last_lines(front: Seq<Seq<char>>, back: Seq<Seq<char>>)
    ensures
        last_of(front + back, back.len()) == back,
        last_of(back, back.len()) == back,
{
    let all = front + back;
    assert(all.skip(all.len() - back.len()) =~= back);
}

/// A log tells its last error where its end holds one.
pub proof fn last_error_is_told(content: Seq<char>, n: nat)
    ensures
        last_error(last_of(text::lines_of(content), n)) matches Some(line) ==> log_says(content, n)
            == text::trimmed(line),
        last_error(last_of(text::lines_of(content), n)) is None ==> log_says(content, n)
            == text::trimmed(text::joined(last_of(text::lines_of(content), n), "\n"@)),
{
}

/// An exit is told by its code, with its sign, and one without a code is that
/// of a signal.
pub proof fn exit_is_told_by_its_code(c: int)
    ensures
        exit_word(Some(c)) == text::signed_dec(c),
        exit_word(None) == "signal"@,
{
}

/// A port stands where its number is not that of a longer one.
pub proof fn longer_port_is_another(front: Seq<char>, port: u16, back: Seq<char>)
    ensures
        ({
            let s = front + (":"@ + text::dec(port as nat)) + back;
            port_stands_at(s, port, front.len() as int) <==> !(back.len() > 0 && text::is_digit(
                back[0],
            ))
        }),
{
    let mark = ":"@ + text::dec(port as nat);
    let s = front + mark + back;
    let i = front.len() as int;
    assert(s.subrange(i, i + mark.len()) =~= mark);
    if back.len() > 0 {
        assert(s[i + mark.len()] == back[0]);
    }
}

/// A path stands below its directory, with one slash between them, and a full
/// path stays.
pub proof fn path_stands_below_directory(dir: Seq<char>, name: Seq<char>)
    requires
        dir.len() > 0,
        dir.last() != '/',
        name.len() > 0 ==> name[0] != '/',
    ensures
        path_below(dir, name) == dir + seq!['/'] + name,
        path_below(dir + seq!['/'], name) == dir + seq!['/'] + name,
        path_from(dir, name) == dir + seq!['/'] + name,
        path_from(dir, seq!['/'] + name) == seq!['/'] + name,
{
    reveal_strlit("/");
    assert(dir.skip(dir.len() - 1)[0] == dir.last());
    let d = dir + seq!['/'];
    assert(d.skip(d.len() - 1) =~= "/"@);
    assert(dir + "/"@ + name =~= dir + seq!['/'] + name);
    let full = seq!['/'] + name;
    assert(full.take(1) =~= "/"@);
    if text::starts(name, "/"@) {
        assert(name.take(1)[0] == '/');
    }
}

/// An output without hosts is told so, and else the silent hosts are told.
pub proof fn no_hosts_is_a_fault(hosts: Seq<Seq<char>>, alive: Seq<bool>)
    ensures
        hosts_verdict(Seq::empty(), alive).len() == 1,
        hosts.len() > 0 ==> hosts_verdict(hosts, alive) == silent(hosts, alive),
{
}

/// The settings stand in a directory of the home directory.
pub proof fn settings_stand_at_home(home: Seq<char>)
    requires
        home.len() > 0,
        home.last() != '/',
    ensures
        config_dir(Some(home)) == home + "/.r1o"@,
        config_dir(None) == "/tmp/.r1o"@,
{
    reveal_strlit(".r1o");
    reveal_strlit("/.r1o");
    reveal_strlit("/tmp");
    reveal_strlit("/tmp/.r1o");
    assert(".r1o"@[0] == '.');
    assert("/tmp"@.last() == 'p');
    path_stands_below_directory(home, ".r1o"@);
    path_stands_below_directory("/tmp"@, ".r1o"@);
    assert(home + seq!['/'] + ".r1o"@ =~= home + "/.r1o"@);
    assert("/tmp"@ + seq!['/'] + ".r1o"@ =~= "/tmp/.r1o"@);
}

} // verus!
