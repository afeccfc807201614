//! The generation of images and videos: which server a request goes to, how
//! its addresses are made, and how a job is followed.

use crate::api::{ApiError, ApiErrorView};
use crate::json;
use crate::serve::ServeEngine;
use crate::text;
use vstd::prelude::*;
use vstd::string::*;

verus! {

// ---------------------------------------------------------------------------
// Kinds
// ---------------------------------------------------------------------------

/// What is generated.
#[derive(Debug, Clone, Copy, PartialEq, Eq, Structural)]
pub enum MediaKind {
    Image,
    Video,
}

impl MediaKind {
    /// The key of the kind.
    pub open spec fn key(self) -> Seq<char> {
        match self {
            MediaKind::Image => "image_gen"@,
            MediaKind::Video => "video_gen"@,
        }
    }

    /// The variable that names a server.
    pub open spec fn variable(self) -> Seq<char> {
        match self {
            MediaKind::Image => "IMAGE_GEN_ENDPOINT"@,
            MediaKind::Video => "VIDEO_GEN_ENDPOINT"@,
        }
    }

    /// The key of the kind.
    pub fn endpoint_key(&self) -> (r: &'static str)
        ensures
            r@ == self.key(),
    {
        match self {
            MediaKind::Image => "image_gen",
            MediaKind::Video => "video_gen",
        }
    }

    /// The variable that names a server.
    pub fn endpoint_env(&self) -> (r: &'static str)
        ensures
            r@ == self.variable(),
    {
        match self {
            MediaKind::Image => "IMAGE_GEN_ENDPOINT",
            MediaKind::Video => "VIDEO_GEN_ENDPOINT",
        }
    }

    /// The engine that generates it.
    pub fn engine(&self) -> (r: ServeEngine)
        ensures
            r == (match self {
                MediaKind::Image => ServeEngine::ImageGen,
                MediaKind::Video => ServeEngine::VideoGen,
            }),
            r.media(),
    {
        match self {
            MediaKind::Image => ServeEngine::ImageGen,
            MediaKind::Video => ServeEngine::VideoGen,
        }
    }
}

// ---------------------------------------------------------------------------
// Servers
// ---------------------------------------------------------------------------

/// The name of an engine is one of those that generate.
pub open spec fn generates(engine: Option<Seq<char>>) -> bool {
    engine == Some("mflux"@) || engine == Some("mlx-video"@)
}

/// Whether a document about its health shows a server that generates.
pub fn shows_media(document: &serde_json::Value) -> (r: bool)
    ensures
        r == generates(json::text_at(*document, "engine"@)),
{
    let engine: Option<String> = json::member_text(document, "engine");
    text::same_opt(&engine, "mflux") || text::same_opt(&engine, "mlx-video")
}

/// The document about its health with which a server that generates answers:
/// none where another answers, or the answer is no JSON.
pub fn read_health(body: &str) -> (r: Option<serde_json::Value>)
    ensures
        r == (match json::json_of(body@) {
            Some(v) => if generates(json::text_at(v, "engine"@)) {
                Some(v)
            } else {
                None
            },
            None => None,
        }),
{
    match json::parse(body) {
        None => None,
        Some(v) => if shows_media(&v) {
            Some(v)
        } else {
            None
        },
    }
}

/// A server: its address, and how it was found.
#[derive(Debug)]
pub struct MediaBase {
    pub base: String,
    pub via: String,
}

/// The texts of a server.
pub struct MediaBaseView {
    pub base: Seq<char>,
    pub via: Seq<char>,
}

impl DeepView for MediaBase {
    type V = MediaBaseView;

    open spec fn deep_view(&self) -> MediaBaseView {
        MediaBaseView { base: self.base@, via: self.via@ }
    }
}

/// The address of a server on this node.
pub open spec fn local_address(port: nat) -> Seq<char> {
    "http://127.0.0.1:"@ + text::dec(port)
}

/// The address of a server on this node.
pub fn local_base(port: u16) -> (r: String)
    ensures
        r@ == local_address(port as nat),
{
    text::glue("http://127.0.0.1:", &text::decimal(port as u64))
}

/// The address that a variable gives, if it is not empty.
pub open spec fn named_address(env: Option<Seq<char>>) -> Option<Seq<char>> {
    match env {
        Some(e) => if e.len() > 0 {
            Some(text::trim_end_char(e, '/'))
        } else {
            None
        },
        None => None,
    }
}

/// The address that a variable gives, if it is not empty.
pub fn env_base(env: &Option<String>) -> (r: Option<String>)
    ensures
        r.deep_view() == named_address(env.deep_view()),
{
    match env {
        Some(e) => if e.as_str().is_empty() {
            None
        } else {
            Some(text::trim_end_matches(e, '/'))
        },
        None => None,
    }
}

/// The server that a request goes to: the one that the variable names, else
/// one on this node that answers, else the one that is configured.
pub open spec fn chosen_base(
    env: Option<Seq<char>>,
    port: nat,
    local_up: bool,
    config: Option<Seq<char>>,
) -> Option<MediaBaseView> {
    match named_address(env) {
        Some(b) => Some(MediaBaseView { base: b, via: "env"@ }),
        None => if local_up {
            Some(MediaBaseView { base: local_address(port), via: "local"@ })
        } else {
            match config {
                Some(c) => Some(
                    MediaBaseView { base: text::trim_end_char(c, '/'), via: "config"@ },
                ),
                None => None,
            }
        },
    }
}

/// The server that a request goes to.
pub fn resolve_base(env: &Option<String>, port: u16, local_up: bool, config: &Option<String>) -> (r:
    Option<MediaBase>)
    ensures
        r.deep_view() == chosen_base(
            env.deep_view(),
            port as nat,
            local_up,
            config.deep_view(),
        ),
{
    match env_base(env) {
        Some(base) => Some(MediaBase { base, via: text::own("env") }),
        None => if local_up {
            Some(MediaBase { base: local_base(port), via: text::own("local") })
        } else {
            match config {
                Some(c) => Some(
                    MediaBase { base: text::trim_end_matches(c, '/'), via: text::own("config") },
                ),
                None => None,
            }
        },
    }
}

/// What is said where there is no server.
pub open spec fn unavailable_text(key: Seq<char>) -> Seq<char> {
    "no "@ + key + " server reachable — POST /serve/load {\"engine\":\""@ + key
        + "\"} to start one here, or set endpoints."@ + key + " in ~/.config/asmi/config.json"@
}

/// The answer where there is no server.
pub fn unavailable(kind: MediaKind) -> (r: ApiError)
    ensures
        r.deep_view() == ApiErrorView::NotFound(unavailable_text(kind.key())),
{
    let key: &str = kind.endpoint_key();
    let mut s: String = text::glue("no ", key);
    s.append(" server reachable — POST /serve/load {\"engine\":\"");
    s.append(key);
    s.append("\"} to start one here, or set endpoints.");
    s.append(key);
    s.append(" in ~/.config/asmi/config.json");
    ApiError::NotFound(s)
}

/// How to come by a server.
pub fn start_hint(kind: MediaKind) -> (r: String)
    ensures
        r@ == "POST /serve/load {\"engine\":\""@ + kind.key()
            + "\"} to start locally, or set endpoints."@ + kind.key()
            + " in ~/.config/asmi/config.json"@,
{
    let key: &str = kind.endpoint_key();
    let mut s: String = text::glue("POST /serve/load {\"engine\":\"", key);
    s.append("\"} to start locally, or set endpoints.");
    s.append(key);
    s.append(" in ~/.config/asmi/config.json");
    s
}

/// The character may stand in the name of an artifact.
pub open spec fn name_char(c: char) -> bool {
    text::is_alnum(c) || c == '.' || c == '_' || c == '-'
}

/// The characters of a name that may stand in one.
pub open spec fn safe(s: Seq<char>) -> Seq<char>
    decreases s.len(),
{
    if s.len() == 0 {
        s
    } else if name_char(s.last()) {
        safe(s.drop_last()).push(s.last())
    } else {
        safe(s.drop_last())
    }
}

/// A name without the characters that may not stand in one.
pub fn safe_name(name: &str) -> (r: String)
    ensures
        r@ == safe(name@),
{
    let v: Vec<char> = text::chars_of(name);
    let mut out: String = String::new();
    let mut i: usize = 0;
    assert(out@ =~= safe(name@.take(0)));
    while i < v.len()
        invariant
            i <= v@.len(),
            v@ == name@,
            out@ == safe(name@.take(i as int)),
        decreases v@.len() - i,
    {
        let c: char = v[i];
        proof {
            assert(name@.take(i + 1).drop_last() =~= name@.take(i as int));
            assert(name@.take(i + 1).last() == c);
        }
        if text::alnum(c) || c == '.' || c == '_' || c == '-' {
            out.push(c);
        }
        i = i + 1;
    }
    assert(name@.take(i as int) =~= name@);
    out
}

/// A safe name holds no slash, and making it safe again changes nothing.
pub proof fn safe_names_stay_safe(s: Seq<char>)
    ensures
        forall|i: int| 0 <= i < safe(s).len() ==> name_char(#[trigger] safe(s)[i]),
        safe(safe(s)) == safe(s),
        !safe(s).contains('/'),
    decreases s.len(),
{
    if s.len() > 0 {
        safe_names_stay_safe(s.drop_last());
        if name_char(s.last()) {
            let t = safe(s.drop_last());
            assert(safe(s).drop_last() =~= t);
            assert forall|i: int| 0 <= i < safe(s).len() implies name_char(
                #[trigger] safe(s)[i],
            ) by {
                if i < t.len() {
                    assert(safe(s)[i] == t[i]);
                }
            }
        }
    }
    if safe(s).contains('/') {
        let i = choose|i: int| 0 <= i < safe(s).len() && safe(s)[i] == '/';
        assert(name_char(safe(s)[i]));
    }
}

// ---------------------------------------------------------------------------
// Targets of the command line
// ---------------------------------------------------------------------------

/// Where a request of the command line goes.
#[derive(Debug)]
pub enum Target {
    /// A server that generates.
    Direct(String),
    /// A daemon that hands the request on.
    Daemon(String),
}

impl Target {
    /// The address of the target.
    pub open spec fn address(self) -> Seq<char> {
        match self {
            Target::Direct(b) => b@,
            Target::Daemon(b) => b@,
        }
    }

    /// Where something is generated.
    pub fn generate_url(&self, kind: MediaKind) -> (r: String)
        ensures
            r@ == self.address() + (match (self, kind) {
                (Target::Direct(_), _) => "/generate"@,
                (Target::Daemon(_), MediaKind::Image) => "/media/image"@,
                (Target::Daemon(_), MediaKind::Video) => "/media/video"@,
            }),
    {
        match self {
            Target::Direct(b) => text::glue(b, "/generate"),
            Target::Daemon(b) => match kind {
                MediaKind::Image => text::glue(b, "/media/image"),
                MediaKind::Video => text::glue(b, "/media/video"),
            },
        }
    }

    /// The path of jobs.
    pub open spec fn jobs_path(self) -> Seq<char> {
        match self {
            Target::Direct(_) => "/jobs"@,
            Target::Daemon(_) => "/media/video/jobs"@,
        }
    }

    /// Where a job is begun.
    pub fn jobs_url(&self) -> (r: String)
        ensures
            r@ == self.address() + self.jobs_path(),
    {
        match self {
            Target::Direct(b) => text::glue(b, "/jobs"),
            Target::Daemon(b) => text::glue(b, "/media/video/jobs"),
        }
    }

    /// Where a job is asked about.
    pub fn job_status_url(&self, id: &str) -> (r: String)
        ensures
            r@ == self.address() + self.jobs_path() + "/"@ + id@,
    {
        let mut s: String = self.jobs_url();
        s.append("/");
        s.append(id);
        s
    }

    /// Where an artifact is fetched.
    pub fn artifact_url(&self, kind: MediaKind, name: &str) -> (r: String)
        ensures
            r@ == self.address() + (match (self, kind) {
                (Target::Direct(_), MediaKind::Image) => "/images/"@,
                (Target::Direct(_), MediaKind::Video) => "/videos/"@,
                (Target::Daemon(_), MediaKind::Image) => "/media/image/"@,
                (Target::Daemon(_), MediaKind::Video) => "/media/video/"@,
            }) + name@,
    {
        let mut s: String = match self {
            Target::Direct(b) => match kind {
                MediaKind::Image => text::glue(b, "/images/"),
                MediaKind::Video => text::glue(b, "/videos/"),
            },
            Target::Daemon(b) => match kind {
                MediaKind::Image => text::glue(b, "/media/image/"),
                MediaKind::Video => text::glue(b, "/media/video/"),
            },
        };
        s.append(name);
        s
    }

    /// The target in words.
    pub fn describe(&self) -> (r: String)
        ensures
            r@ == self.address() + (match self {
                Target::Direct(_) => " (direct)"@,
                Target::Daemon(_) => " (daemon proxy)"@,
            }),
    {
        match self {
            Target::Direct(b) => text::glue(b, " (direct)"),
            Target::Daemon(b) => text::glue(b, " (daemon proxy)"),
        }
    }
}

/// The port of daemons: what the variable says, or the usual one.
pub fn daemon_port(env: &Option<String>) -> (r: u16)
    ensures
        r == (match env.deep_view() {
            Some(e) => match text::unsigned(e, u16::MAX as nat) {
                Some(n) => n,
                None => 9090,
            },
            None => 9090,
        }),
{
    match env {
        Some(e) => match text::parse_u16(e) {
            Some(n) => n,
            None => 9090,
        },
        None => 9090,
    }
}

/// The address of a daemon.
pub open spec fn daemon_address(node: Seq<char>, port: nat) -> Seq<char> {
    "http://"@ + node + ":"@ + text::dec(port)
}

/// The daemons that are asked last: that of this node, then those of the known
/// nodes.
pub open spec fn daemon_addresses(nodes: Seq<Seq<char>>, port: nat) -> Seq<Seq<char>> {
    seq![daemon_address("localhost"@, port)] + nodes.map_values(
        |n: Seq<char>| daemon_address(n, port),
    )
}

/// The address of a daemon.
fn build_daemon(node: &str, port: u16) -> (r: String)
    ensures
        r@ == daemon_address(node@, port as nat),
{
    let mut s: String = text::glue("http://", node);
    s.append(":");
    s.append(&text::decimal(port as u64));
    s
}

/// The daemons that are asked last.
pub fn daemon_candidates(nodes: &Vec<String>, port: u16) -> (r: Vec<String>)
    ensures
        r.deep_view() == daemon_addresses(nodes.deep_view(), port as nat),
{
    let ghost want = nodes.deep_view().map_values(|n: Seq<char>| daemon_address(n, port as nat));
    let mut out: Vec<String> = Vec::new();
    text::push_text(&mut out, build_daemon("localhost", port));
    let ghost head = out.deep_view();
    assert(head =~= seq![daemon_address("localhost"@, port as nat)]);
    assert(out.deep_view() =~= head + want.take(0));
    let mut i: usize = 0;
    while i < nodes.len()
        invariant
            i <= nodes@.len(),
            want == nodes.deep_view().map_values(
                |n: Seq<char>| daemon_address(n, port as nat),
            ),
            out.deep_view() == head + want.take(i as int),
        decreases nodes@.len() - i,
    {
        text::push_text(&mut out, build_daemon(&nodes[i], port));
        i = i + 1;
        assert(out.deep_view() =~= head + want.take(i as int));
    }
    assert(want.take(i as int) =~= want);
    out
}

/// What a daemon says of a server of that kind.
pub fn part_about<'a>(status: &'a serde_json::Value, kind: MediaKind) -> (r: Option<
    &'a serde_json::Value,
>)
    ensures
        match r {
            Some(m) => json::json_member(*status, kind.key()) == Some(*m),
            None => json::json_member(*status, kind.key()) is None,
        },
{
    json::member(status, kind.endpoint_key())
}

/// Whether a daemon says that it can reach a server of that kind.
pub fn daemon_offers(status: &str, kind: MediaKind) -> (r: bool)
    ensures
        r == (json::json_of(status@) matches Some(v) && json::json_member(v, kind.key())
            matches Some(m) && json::flag_at(m, "available"@) == Some(true)),
{
    match json::parse(status) {
        None => false,
        Some(v) => match part_about(&v, kind) {
            None => false,
            Some(m) => match json::member_flag(m, "available") {
                Some(b) => b,
                None => false,
            },
        },
    }
}

/// What is told of a server: its models, and whether it is busy.
#[derive(Debug)]
pub struct ServerDetail {
    pub models: Vec<String>,
    pub busy: bool,
}

/// What a document tells of a server; what is missing counts as nothing.
pub fn detail_of(document: &serde_json::Value) -> (r: ServerDetail)
    ensures
        r.models.deep_view() == (match json::items_at(*document, "models"@) {
            Some(items) => json::texts_in(items),
            None => Seq::empty(),
        }),
        r.busy == (json::flag_at(*document, "busy"@) == Some(true)),
{
    let models: Vec<String> = match json::member_items(document, "models") {
        Some(items) => json::read_texts(items),
        None => Vec::new(),
    };
    assert(json::items_at(*document, "models"@) is None ==> models.deep_view() =~= Seq::empty());
    let busy: bool = match json::member_flag(document, "busy") {
        Some(b) => b,
        None => false,
    };
    ServerDetail { models, busy }
}

/// A place to look for a server.
#[derive(Debug)]
pub enum Place {
    /// A server that is asked whether it answers, for so many milliseconds.
    Server { base: String, patience_ms: u64 },
    /// A daemon that is asked whether it can reach one.
    Daemon(String),
}

/// A place to look for a server, with its texts.
pub enum PlaceView {
    Server { base: Seq<char>, patience_ms: u64 },
    Daemon(Seq<char>),
}

impl DeepView for Place {
    type V = PlaceView;

    open spec fn deep_view(&self) -> PlaceView {
        match self {
            Place::Server { base, patience_ms } => PlaceView::Server {
                base: base@,
                patience_ms: *patience_ms,
            },
            Place::Daemon(d) => PlaceView::Daemon(d@),
        }
    }
}

impl PlaceView {
    /// The request goes to the place.
    pub open spec fn is_target(self, t: Target) -> bool {
        match self {
            PlaceView::Server { base, .. } => t matches Target::Direct(b) && b@ == base,
            PlaceView::Daemon(d) => t matches Target::Daemon(b) && b@ == d,
        }
    }
}

/// What the command line knows when it looks for a server.
pub struct TargetSearch {
    /// What the variable of the kind holds.
    pub env: Option<String>,
    /// The port of a server of the kind on this node.
    pub port: u16,
    /// The server that the configuration names.
    pub config: Option<String>,
    pub nodes: Vec<String>,
    pub daemon_port: u16,
}

/// The places to look, in this order: this node, the configured server, the
/// daemon of this node, the daemons of the known nodes.
pub open spec fn places_of(s: TargetSearch) -> Seq<PlaceView> {
    let here = seq![PlaceView::Server { base: local_address(s.port as nat), patience_ms: 600 }];
    let configured = match s.config.deep_view() {
        Some(c) => here.push(
            PlaceView::Server { base: text::trim_end_char(c, '/'), patience_ms: 2_000 },
        ),
        None => here,
    };
    configured + daemon_addresses(s.nodes.deep_view(), s.daemon_port as nat).map_values(
        |d: Seq<char>| PlaceView::Daemon(d),
    )
}

/// The place of the first `true`, if there is one.
pub open spec fn first_yes(answers: Seq<bool>) -> Option<int>
    decreases answers.len(),
{
    if answers.len() == 0 {
        None
    } else {
        match first_yes(answers.drop_last()) {
            Some(i) => Some(i),
            None => if answers.last() {
                Some(answers.len() - 1)
            } else {
                None
            },
        }
    }
}

/// `first_yes` is the first.
pub proof fn first_yes_is_first(answers: Seq<bool>)
    ensures
        match first_yes(answers) {
            Some(i) => 0 <= i < answers.len() && answers[i] && forall|j: int|
                0 <= j < i ==> !answers[j],
            None => forall|j: int| 0 <= j < answers.len() ==> !answers[j],
        },
    decreases answers.len(),
{
    if answers.len() > 0 {
        let front = answers.drop_last();
        first_yes_is_first(front);
        assert forall|j: int| 0 <= j < front.len() implies front[j] == answers[j] by {}
    }
}

/// The next step of the search for a server.
#[derive(Debug)]
pub enum Seek {
    /// The request goes there.
    Found(Target),
    /// The next place is to be asked.
    Ask(Place),
    /// There is no server.
    Nowhere,
}

impl TargetSearch {
    /// The places to look, in turn.
    fn places(&self) -> (r: Vec<Place>)
        ensures
            r.deep_view() == places_of(*self),
    {
        let mut out: Vec<Place> = Vec::new();
        assert(out.deep_view() =~= Seq::<PlaceView>::empty());
        text::push_item(&mut out, Place::Server { base: local_base(self.port), patience_ms: 600 });
        assert(out.deep_view() =~= seq![
            PlaceView::Server { base: local_address(self.port as nat), patience_ms: 600 },
        ]);
        if let Some(c) = &self.config {
            text::push_item(
                &mut out,
                Place::Server { base: text::trim_end_matches(c, '/'), patience_ms: 2_000 },
            );
        }
        let ghost head = out.deep_view();
        let daemons: Vec<String> = daemon_candidates(&self.nodes, self.daemon_port);
        let ghost want = daemons.deep_view().map_values(|d: Seq<char>| PlaceView::Daemon(d));
        let mut i: usize = 0;
        assert(out.deep_view() =~= head + want.take(0));
        while i < daemons.len()
            invariant
                i <= daemons@.len(),
                want == daemons.deep_view().map_values(|d: Seq<char>| PlaceView::Daemon(d)),
                out.deep_view() == head + want.take(i as int),
            decreases daemons@.len() - i,
        {
            text::push_item(&mut out, Place::Daemon(text::own(&daemons[i])));
            i = i + 1;
            assert(out.deep_view() =~= head + want.take(i as int));
        }
        assert(want.take(i as int) =~= want);
        out
    }

    /// The next step, given what the places that were asked so far answered:
    /// the server that the variable names is taken without asking; else the
    /// first place that said yes is taken, and until one does the next is
    /// asked.
    pub fn step(&self, answers: &Vec<bool>) -> (r: Seek)
        ensures
            match named_address(self.env.deep_view()) {
                Some(b) => r matches Seek::Found(Target::Direct(t)) && t@ == b,
                None => match first_yes(answers@) {
                    Some(i) => if i < places_of(*self).len() {
                        r matches Seek::Found(t) && places_of(*self)[i].is_target(t)
                    } else {
                        r is Nowhere
                    },
                    None => if answers@.len() < places_of(*self).len() {
                        r matches Seek::Ask(p) && p.deep_view() == places_of(
                            *self,
                        )[answers@.len() as int]
                    } else {
                        r is Nowhere
                    },
                },
            },
    {
        if let Some(b) = env_base(&self.env) {
            return Seek::Found(Target::Direct(b));
        }
        let places: Vec<Place> = self.places();
        assert(places@.len() == places.deep_view().len());
        let mut i: usize = 0;
        while i < answers.len() && !answers[i]
            invariant
                i <= answers@.len(),
                forall|j: int| 0 <= j < i ==> !answers@[j],
            decreases answers@.len() - i,
        {
            i = i + 1;
        }
        proof {
            first_yes_is_first(answers@);
        }
        if i >= places.len() {
            return Seek::Nowhere;
        }
        let ghost p = places.deep_view()[i as int];
        assert(p == places@[i as int].deep_view());
        match &places[i] {
            Place::Server { base, patience_ms } => if i < answers.len() {
                Seek::Found(Target::Direct(text::own(base)))
            } else {
                Seek::Ask(Place::Server { base: text::own(base), patience_ms: *patience_ms })
            },
            Place::Daemon(d) => if i < answers.len() {
                Seek::Found(Target::Daemon(text::own(d)))
            } else {
                Seek::Ask(Place::Daemon(text::own(d)))
            },
        }
    }
}

/// What the command line says where there is no server.
pub open spec fn no_target_text(kind: MediaKind) -> Seq<char> {
    "no "@ + kind.key()
        + " server reachable.\n  Start one:  curl -X POST localhost:9090/serve/load -d '{\"engine\":\""@
        + kind.key() + "\"}'\n  Or set:     endpoints."@ + kind.key()
        + " in ~/.config/asmi/config.json (e.g. \"http://hub:19095\")\n  Or export:  "@
        + kind.variable()
}

/// What the command line says where there is no server.
pub fn no_target(kind: MediaKind) -> (r: String)
    ensures
        r@ == no_target_text(kind),
{
    let key: &str = kind.endpoint_key();
    let mut s: String = text::glue("no ", key);
    s.append(
        " server reachable.\n  Start one:  curl -X POST localhost:9090/serve/load -d '{\"engine\":\"",
    );
    s.append(key);
    s.append("\"}'\n  Or set:     endpoints.");
    s.append(key);
    s.append(" in ~/.config/asmi/config.json (e.g. \"http://hub:19095\")\n  Or export:  ");
    s.append(kind.endpoint_env());
    s
}

// ---------------------------------------------------------------------------
// Results
// ---------------------------------------------------------------------------

/// The file that a result is written to: the one that is asked for, else the
/// name that the server gives, else a name of its own.
pub fn output_path(output: &Option<String>, server_name: &Option<String>, ext: &str) -> (r: String)
    ensures
        r@ == (match output.deep_view() {
            Some(o) => o,
            None => match server_name.deep_view() {
                Some(n) => n,
                None => "asmi-gen."@ + ext@,
            },
        }),
{
    match output {
        Some(o) => text::own(o),
        None => match server_name {
            Some(n) => text::own(n),
            None => text::glue("asmi-gen.", ext),
        },
    }
}

/// How long a video may take, in seconds.
pub const VIDEO_GEN_TIMEOUT_SECS: u64 = 3660;

/// How long an image may take, in seconds.
pub const IMAGE_GEN_TIMEOUT_SECS: u64 = 1860;

/// Whether a job is followed on.
#[derive(Debug)]
pub enum JobStep {
    /// It is done.
    Done,
    /// It has come to nothing.
    Failed(String),
    /// Ask again.
    Again,
}

/// What is made of the state of a job, so many seconds after it began.
pub fn judge_job(job_id: &str, status: &str, error: &Option<String>, elapsed_secs: u64) -> (r:
    JobStep)
    ensures
        if status@ == "done"@ {
            r is Done
        } else if status@ == "error"@ {
            r matches JobStep::Failed(m) && m@ == "job failed: "@ + (match error.deep_view() {
                Some(e) => e,
                None => "unknown"@,
            })
        } else if elapsed_secs > VIDEO_GEN_TIMEOUT_SECS {
            r matches JobStep::Failed(m) && m@ == "gave up after "@ + text::dec(
                elapsed_secs as nat,
            ) + "s (job "@ + job_id@ + " still "@ + status@ + ")"@
        } else {
            r is Again
        },
{
    if text::same(status, "done") {
        JobStep::Done
    } else if text::same(status, "error") {
        match error {
            Some(e) => JobStep::Failed(text::glue("job failed: ", e)),
            None => JobStep::Failed(text::glue("job failed: ", "unknown")),
        }
    } else if elapsed_secs > VIDEO_GEN_TIMEOUT_SECS {
        let mut s: String = text::glue("gave up after ", &text::decimal(elapsed_secs));
        s.append("s (job ");
        s.append(job_id);
        s.append(" still ");
        s.append(status);
        s.append(")");
        JobStep::Failed(s)
    } else {
        JobStep::Again
    }
}

/// The state of a job that a document gives, and its error.
pub fn job_state(job: &serde_json::Value) -> (r: (String, Option<String>))
    ensures
        r.0@ == (match json::text_at(*job, "status"@) {
            Some(s) => s,
            None => "?"@,
        }),
        r.1.deep_view() == json::text_at(*job, "error"@),
{
    let status: String = match json::member_text(job, "status") {
        Some(s) => s,
        None => text::own("?"),
    };
    (status, json::member_text(job, "error"))
}

/// What came of a job, in the document that says it is done.
pub fn job_result<'a>(job: &'a serde_json::Value) -> (r: Option<&'a serde_json::Value>)
    ensures
        match r {
            Some(m) => json::json_member(*job, "result"@) == Some(*m),
            None => json::json_member(*job, "result"@) is None,
        },
{
    json::member(job, "result")
}

/// The identifier of a job that was taken in.
pub fn job_id(submitted: &serde_json::Value) -> (r: Option<String>)
    ensures
        r.deep_view() == json::text_at(*submitted, "id"@),
{
    json::member_text(submitted, "id")
}

/// The name of what a job generated.
pub fn artifact_name(result: Option<&serde_json::Value>) -> (r: Option<String>)
    ensures
        r.deep_view() == (match result {
            Some(m) => json::text_at(*m, "name"@),
            None => None,
        }),
{
    match result {
        Some(m) => json::member_text(m, "name"),
        None => None,
    }
}

/// The document of an answer about a job, or why it is none.
pub fn read_answer(body: &str) -> (r: Result<serde_json::Value, String>)
    ensures
        match r {
            Ok(v) => json::json_read(body@) == Ok::<serde_json::Value, Seq<char>>(v),
            Err(e) => json::json_read(body@) == Err::<serde_json::Value, Seq<char>>(e@),
        },
{
    json::read(body)
}

/// A server is taken from the environment first, then on this node where one
/// answers, then from the configuration; slashes at the end of an address are
/// left out.
pub proof fn places_come_in_turn(
    env: Seq<char>,
    config: Seq<char>,
    slashes: Seq<char>,
    port: nat,
    local_up: bool,
)
    requires
        env.len() > 0,
        env.last() != '/',
        config.len() > 0,
        config.last() != '/',
        forall|i: int| 0 <= i < slashes.len() ==> slashes[i] == '/',
    ensures
        chosen_base(Some(env + slashes), port, local_up, Some(config)) == Some(
            MediaBaseView { base: env, via: "env"@ },
        ),
        chosen_base(None, port, true, Some(config)) == Some(
            MediaBaseView { base: "http://127.0.0.1:"@ + text::dec(port), via: "local"@ },
        ),
        chosen_base(None, port, false, Some(config + slashes)) == Some(
            MediaBaseView { base: config, via: "config"@ },
        ),
        chosen_base(None, port, false, None) is None,
{
    slashes_are_left_out(env, slashes);
    slashes_are_left_out(config, slashes);
}

/// An address stays without the slashes at its end.
proof fn slashes_are_left_out(base: Seq<char>, slashes: Seq<char>)
    requires
        base.len() > 0,
        base.last() != '/',
        forall|i: int| 0 <= i < slashes.len() ==> slashes[i] == '/',
    ensures
        text::trim_end_char(base + slashes, '/') == base,
{
    let all = base + slashes;
    text::end_is_trimmed(all, '/');
    let t = text::trim_end_char(all, '/');
    let n = t.len() as int;
    if n < base.len() {
        assert(all[base.len() - 1] == base.last());
    }
    if n > base.len() {
        assert(t.last() == all.take(n).last());
        assert(all[n - 1] == slashes[n - 1 - base.len()]);
    }
    assert(all.take(n) =~= base);
}

/// The places where a server is looked for are this node, the configured
/// server, the daemon of this node and then the daemons of the known nodes, in
/// that order.
pub proof fn search_goes_from_near_to_far(s: TargetSearch, i: int)
    requires
        0 <= i < s.nodes.deep_view().len(),
    ensures
        ({
            let places = places_of(s);
            let c = if s.config is Some {
                2int
            } else {
                1int
            };
            &&& places.len() == c + 1 + s.nodes.deep_view().len()
            &&& places[0] == PlaceView::Server {
                base: "http://127.0.0.1:"@ + text::dec(s.port as nat),
                patience_ms: 600,
            }
            &&& s.config.deep_view() matches Some(base) ==> base.len() > 0 && base.last() != '/'
                ==> places[1] == (PlaceView::Server { base, patience_ms: 2_000 })
            &&& places[c] == PlaceView::Daemon(
                "http://localhost:"@ + text::dec(s.daemon_port as nat),
            )
            &&& places[c + 1 + i] == PlaceView::Daemon(
                "http://"@ + s.nodes.deep_view()[i] + ":"@ + text::dec(s.daemon_port as nat),
            )
        }),
{
    reveal_strlit("http://localhost:");
    reveal_strlit("http://");
    reveal_strlit("localhost");
    reveal_strlit(":");
    assert("http://"@ + "localhost"@ + ":"@ =~= "http://localhost:"@);
    if let Some(base) = s.config.deep_view() {
        if base.len() > 0 && base.last() != '/' {
            slashes_are_left_out(base, Seq::empty());
            assert(base + Seq::<char>::empty() =~= base);
        }
    }
    let d = daemon_addresses(s.nodes.deep_view(), s.daemon_port as nat);
    assert(d[0] == daemon_address("localhost"@, s.daemon_port as nat));
    assert(d[i + 1] == daemon_address(s.nodes.deep_view()[i], s.daemon_port as nat));
}

/// A safe name is the name without the characters that are not safe, in the
/// same order.
pub proof fn safe_name_keeps_the_rest(s: Seq<char>)
    ensures
        safe(s) == s.filter(|c: char| text::is_alnum(c) || c == '.' || c == '_' || c == '-'),
    decreases s.len(),
{
    reveal(Seq::filter);
    if s.len() > 0 {
        safe_name_keeps_the_rest(s.drop_last());
    }
}

/// The two kinds of media have their own words, variables and jobs, and what is
/// missing is told by its word and its variable.
pub proof fn kinds_have_their_words(kind: MediaKind, key: Seq<char>)
    ensures
        MediaKind::Image.key() != MediaKind::Video.key(),
        MediaKind::Image.variable() != MediaKind::Video.variable(),
        text::has(no_target_text(kind), kind.key()),
        text::ends(no_target_text(kind), kind.variable()),
        text::has(unavailable_text(key), key),
        generates(Some("mflux"@)) && generates(Some("mlx-video"@)) && !generates(None),
{
    reveal_strlit("image_gen");
    reveal_strlit("video_gen");
    reveal_strlit("IMAGE_GEN_ENDPOINT");
    reveal_strlit("VIDEO_GEN_ENDPOINT");
    assert("image_gen"@[0] == 'i' && "video_gen"@[0] == 'v');
    assert("IMAGE_GEN_ENDPOINT"@[0] == 'I' && "VIDEO_GEN_ENDPOINT"@[0] == 'V');
    let s = no_target_text(kind);
    assert(s.skip(s.len() - kind.variable().len()) =~= kind.variable());
    let t = unavailable_text(key);
    let i = "no "@.len() as int;
    assert(t.subrange(i, i + key.len()) =~= key);
    assert(text::occurs_at(t, key, i));
    assert(s.subrange(i, i + kind.key().len()) =~= kind.key());
    assert(text::occurs_at(s, kind.key(), i));
}

/// A server that was named in the environment is used before one here, and one
/// here before one of the settings; a slash at the end is taken off.
pub proof fn named_server_comes_first(env: Seq<char>, port: nat, config: Seq<char>)
    requires
        env.len() > 0,
    ensures
        chosen_base(Some(env), port, true, Some(config)) matches Some(b) && b.via == "env"@ && b.base
            == text::trim_end_char(env, '/'),
        chosen_base(None, port, true, Some(config)) matches Some(b) && b.via == "local"@ && b.base
            == "http://127.0.0.1:"@ + text::dec(port),
        chosen_base(None, port, false, Some(config)) matches Some(b) && b.via == "config"@
            && b.base == text::trim_end_char(config, '/'),
        chosen_base(None, port, false, None) is None,
        chosen_base(Some(Seq::empty()), port, false, None) is None,
{
}

} // verus!
