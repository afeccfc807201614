//! The start of the daemon: its name, the nodes it follows, what it says of
//! its processes, and what it tells when it listens.

use crate::health;
use crate::json;
use crate::serve::ServeState;
use crate::text;
use vstd::prelude::*;
use vstd::string::*;

verus! {

// ---------------------------------------------------------------------------
// The name of the node
// ---------------------------------------------------------------------------

/// The name of the node: the one for the local network, where there is one,
/// else that of the system, where it can be asked, else `unknown`. The first
/// is given in small letters.
pub open spec fn node_name(local: Option<Seq<char>>, system: Option<Seq<char>>) -> Seq<char> {
    match local {
        Some(l) if l.len() > 0 => l,
        _ => match system {
            Some(s) => text::trimmed(s),
            None => "unknown"@,
        },
    }
}

/// The name of the node, given that for the local network, in small letters
/// and without space at its ends.
pub fn choose_name(local: Option<String>, system: &Option<String>) -> (r: String)
    ensures
        r@ == node_name(local.deep_view(), system.deep_view()),
{
    if let Some(l) = local {
        if !l.as_str().is_empty() {
            return l;
        }
    }
    match system {
        Some(s) => text::trim(s),
        None => text::own("unknown"),
    }
}

/// The name of the node, given the outputs of `scutil --get LocalHostName` and
/// of `hostname -s`, where they could be run.
pub fn resolve_name(scutil: &Option<String>, hostname: &Option<String>) -> (r: String)
    ensures
        r@ == node_name(
            match scutil.deep_view() {
                Some(s) => Some(text::lowercase(text::trimmed(s))),
                None => None,
            },
            hostname.deep_view(),
        ),
{
    let local: Option<String> = match scutil {
        Some(s) => Some(text::to_lowercase(&text::trim(s))),
        None => None,
    };
    choose_name(local, hostname)
}

/// The name under which the program was called.
pub fn bin_name(first_arg: &Option<String>) -> (r: String)
    ensures
        r@ == (match first_arg.deep_view() {
            Some(a) => text::split_on(a, '/').last(),
            None => "asmi"@,
        }),
{
    match first_arg {
        Some(a) => text::last_piece(a, '/'),
        None => text::own("asmi"),
    }
}

/// The nodes that the file of the cluster names.
pub open spec fn seeds_in(v: serde_json::Value) -> Seq<Seq<char>> {
    match json::items_at(v, "nodes"@) {
        Some(items) => json::texts_in(items),
        None => Seq::empty(),
    }
}

/// Reads the nodes that the file of the cluster names: none where there is no
/// file, or it is no JSON.
pub fn read_seeds(content: &Option<String>) -> (r: Vec<String>)
    ensures
        r.deep_view() == (match content.deep_view() {
            Some(t) => match json::json_of(t) {
                Some(v) => seeds_in(v),
                None => Seq::empty(),
            },
            None => Seq::empty(),
        }),
{
    if let Some(t) = content {
        if let Some(v) = json::parse(t) {
            if let Some(items) = json::member_items(&v, "nodes") {
                return json::read_texts(items);
            }
        }
    }
    let none: Vec<String> = Vec::new();
    assert(none.deep_view() =~= Seq::<Seq<char>>::empty());
    none
}

/// The nodes that a hub follows: every one that is known but itself. Without
/// known nodes, or where it is no hub, it follows none.
pub fn followed_nodes(hub: bool, known: &Vec<String>, own: &str) -> (r: Option<Vec<String>>)
    ensures
        r.deep_view() == (if hub && known@.len() > 0 {
            Some(health::other_nodes(known.deep_view(), own@))
        } else {
            None
        }),
{
    if hub && known.len() > 0 {
        Some(health::remote_nodes(known, own))
    } else {
        None
    }
}

/// The directories of models: those that were given, else the usual ones.
pub fn model_dirs(given: Vec<String>, usual: Vec<String>) -> (r: Vec<String>)
    ensures
        r.deep_view() == (if given@.len() == 0 {
            usual.deep_view()
        } else {
            given.deep_view()
        }),
{
    if given.len() == 0 {
        usual
    } else {
        given
    }
}

// ---------------------------------------------------------------------------
// Processes
// ---------------------------------------------------------------------------

/// A process, with its port and its model where they are known.
pub struct SeenProcess {
    pub port: Option<u16>,
    pub model: Option<String>,
}

/// A process, with its text.
pub struct SeenView {
    pub port: Option<u16>,
    pub model: Option<Seq<char>>,
}

impl DeepView for SeenProcess {
    type V = SeenView;

    open spec fn deep_view(&self) -> SeenView {
        SeenView { port: self.port, model: self.model.deep_view() }
    }
}

/// What a server has loaded.
pub struct ServerModel {
    pub port: u16,
    pub state: ServeState,
    pub model: Option<String>,
}

/// What a server has loaded, with its text.
pub struct ServerModelView {
    pub port: u16,
    pub state: ServeState,
    pub model: Option<Seq<char>>,
}

impl DeepView for ServerModel {
    type V = ServerModelView;

    open spec fn deep_view(&self) -> ServerModelView {
        ServerModelView { port: self.port, state: self.state, model: self.model.deep_view() }
    }
}

/// The name of a model, by its path.
pub open spec fn short_name(path: Seq<char>) -> Seq<char> {
    text::split_on(text::trim_end_char(path, '/'), '/').last()
}

/// The name of the model that the server at a port has or loads.
pub open spec fn model_at(servers: Seq<ServerModelView>, port: u16) -> Option<Seq<char>>
    decreases servers.len(),
{
    if servers.len() == 0 {
        None
    } else if servers[0].port == port {
        match servers[0].model {
            Some(m) => if servers[0].state == ServeState::Ready || servers[0].state
                == ServeState::Loading {
                Some(short_name(m))
            } else {
                None
            },
            None => None,
        }
    } else {
        model_at(servers.drop_first(), port)
    }
}

/// A process with the model that the server at its port tells of, where its
/// own is not known.
pub open spec fn enriched(p: SeenView, servers: Seq<ServerModelView>) -> SeenView {
    match (p.model, p.port) {
        (None, Some(port)) => SeenView { model: model_at(servers, port), ..p },
        _ => p,
    }
}

/// The name of the model that the server at a port has or loads.
fn find_model(servers: &Vec<ServerModel>, port: u16) -> (r: Option<String>)
    ensures
        r.deep_view() == model_at(servers.deep_view(), port),
{
    let ghost ss = servers.deep_view();
    let mut i: usize = 0;
    assert(ss.skip(0) =~= ss);
    while i < servers.len()
        invariant
            i <= servers@.len(),
            ss == servers.deep_view(),
            model_at(ss, port) == model_at(ss.skip(i as int), port),
        decreases servers@.len() - i,
    {
        let s: &ServerModel = &servers[i];
        assert(ss.skip(i as int)[0] == s.deep_view());
        assert(ss.skip(i as int).drop_first() =~= ss.skip(i + 1));
        if s.port == port {
            return match &s.model {
                Some(m) => if s.state == ServeState::Ready || s.state == ServeState::Loading {
                    Some(text::last_piece(&text::trim_end_matches(m, '/'), '/'))
                } else {
                    None
                },
                None => None,
            };
        }
        i = i + 1;
    }
    None
}

/// Fills in the models of processes from the servers at their ports.
pub fn enrich_processes(processes: &mut Vec<SeenProcess>, servers: &Vec<ServerModel>)
    ensures
        final(processes).deep_view() == old(processes).deep_view().map_values(
            |p: SeenView| enriched(p, servers.deep_view()),
        ),
{
    let ghost before = processes.deep_view();
    let ghost want = before.map_values(|p: SeenView| enriched(p, servers.deep_view()));
    let n: usize = processes.len();
    let mut i: usize = 0;
    while i < n
        invariant
            i <= n,
            n == processes@.len(),
            before.len() == n,
            want == before.map_values(|p: SeenView| enriched(p, servers.deep_view())),
            forall|k: int| 0 <= k < i ==> (#[trigger] processes@[k]).deep_view() == want[k],
            forall|k: int| i <= k < n ==> (#[trigger] processes@[k]).deep_view() == before[k],
        decreases n - i,
    {
        let port: Option<u16> = processes[i].port;
        let known: Option<String> = text::own_opt(&processes[i].model);
        assert(processes@[i as int].deep_view() == before[i as int]);
        let model: Option<String> = match (known, port) {
            (None, Some(p)) => find_model(servers, p),
            (known, _) => known,
        };
        let new = SeenProcess { port, model };
        assert(new.deep_view() == want[i as int]);
        processes.set(i, new);
        i = i + 1;
    }
    assert(processes.deep_view() =~= want);
}

/// A process whose model is known keeps it.
pub proof fn known_models_stay(p: SeenView, servers: Seq<ServerModelView>)
    requires
        p.model is Some,
    ensures
        enriched(p, servers) == p,
{
}

// ---------------------------------------------------------------------------
// What is told
// ---------------------------------------------------------------------------

/// Where the daemon listens.
pub fn listen_address(port: u16) -> (r: String)
    ensures
        r@ == "0.0.0.0:"@ + text::dec(port as nat),
{
    text::glue("0.0.0.0:", &text::decimal(port as u64))
}

/// The first line that the daemon tells.
pub open spec fn hello(name: Seq<char>, host: Seq<char>, port: nat, hub: bool) -> Seq<char> {
    name + (if hub {
        " cluster hub: "@
    } else {
        " daemon: "@
    }) + "http://"@ + host + ":"@ + text::dec(port)
}

/// A port and what is served there.
pub open spec fn port_text(port: nat, engine: Seq<char>) -> Seq<char> {
    text::dec(port) + "("@ + engine + ")"@
}

/// The line that tells the ports.
pub open spec fn ports_line(ports: Seq<(u16, Seq<char>)>) -> Seq<char> {
    "  Managed ports: "@ + text::joined(
        ports.map_values(|p: (u16, Seq<char>)| port_text(p.0 as nat, p.1)),
        ", "@,
    )
}

/// The calls that every daemon answers.
pub open spec fn common_calls() -> Seq<Seq<char>> {
    seq![
        "  GET  /metrics          Node snapshot (CPU, GPU, RAM, power)"@,
        "  GET  /health           Daemon liveness + uptime"@,
        "  GET  /health/setup     Setup validation (MLX, RDMA, SSH, disk)"@,
        "  GET  /health/network   Thunderbolt service validation"@,
        "  POST /health/network/fix  Auto-repair TB service names"@,
        "  GET  /processes        Running MLX/VLM processes"@,
        "  GET  /models           Local model inventory"@,
        "  GET  /runtime          Python/MLX/macOS versions"@,
        "  GET  /logs?name=asmi   Tail log files"@,
        "  GET  /stream           SSE live metrics stream"@,
        "  GET  /serve/status     All server states (or ?port=N)"@,
        "  POST /serve/load       Load model (?port=N)"@,
        "  POST /serve/stop       Stop server (?port=N)"@,
        "  POST /serve/reload     Reload model (?port=N)"@,
        "  POST /serve/share      Start distributed share session"@,
        "  GET  /serve/share/status Share session status"@,
        "  POST /serve/share/stop  Stop share session"@,
        "  GET  /ane              ANE power + status (IOReport)"@,
        "  GET  /egpu             eGPU / TinyGPU detection"@,
        "  GET  /watchdog          Full watchdog report"@,
        "  GET  /watchdog/peers    RDMA peer heartbeat status"@,
        "  GET  /watchdog/gpu-lock GPU Lock detection status"@,
    ]
}

/// The calls that only a hub answers.
pub open spec fn hub_calls() -> Seq<Seq<char>> {
    seq![
        "  GET  /cluster          All node snapshots (hub mode)"@,
        "  GET  /nodes            Known node hostnames"@,
        "  GET  /jaccl/config     RDMA topology for JACCL"@,
        "  POST /jaccl/config     Generate JACCL hostfile"@,
        "  GET  /topology         TB5/RDMA mesh topology (JSON)"@,
        "  GET  /topology/dot     Topology as DOT graph"@,
        "  GET  /topology/validate Mesh completeness + JACCL readiness"@,
    ]
}

/// What the daemon tells when it listens.
pub open spec fn banner(
    name: Seq<char>,
    host: Seq<char>,
    port: nat,
    hub: bool,
    ports: Seq<(u16, Seq<char>)>,
) -> Seq<Seq<char>> {
    seq![hello(name, host, port, hub)] + common_calls() + seq![ports_line(ports)] + (if hub {
        hub_calls()
    } else {
        Seq::empty()
    })
}

/// The first line that the daemon tells.
fn write_hello(name: &str, host: &str, port: u16, hub: bool) -> (r: String)
    ensures
        r@ == hello(name@, host@, port as nat, hub),
{
    let mut s: String = text::own(name);
    if hub {
        s.append(" cluster hub: ");
    } else {
        s.append(" daemon: ");
    }
    s.append("http://");
    s.append(host);
    s.append(":");
    s.append(&text::decimal(port as u64));
    s
}

/// The line that tells the ports.
fn write_ports(ports: &Vec<(u16, String)>) -> (r: String)
    ensures
        r@ == ports_line(ports.deep_view()),
{
    let ghost want = ports.deep_view().map_values(
        |p: (u16, Seq<char>)| port_text(p.0 as nat, p.1),
    );
    let mut texts: Vec<String> = Vec::new();
    let mut i: usize = 0;
    assert(texts.deep_view() =~= want.take(0));
    while i < ports.len()
        invariant
            i <= ports@.len(),
            want == ports.deep_view().map_values(
                |p: (u16, Seq<char>)| port_text(p.0 as nat, p.1),
            ),
            texts.deep_view() == want.take(i as int),
        decreases ports@.len() - i,
    {
        let mut s: String = text::decimal(ports[i].0 as u64);
        s.append("(");
        s.append(&ports[i].1);
        s.append(")");
        assert(s@ == want[i as int]);
        text::push_text(&mut texts, s);
        i = i + 1;
        assert(texts.deep_view() =~= want.take(i as int));
    }
    assert(want.take(i as int) =~= want);
    text::glue("  Managed ports: ", &text::join(&texts, ", "))
}

/// Adds the calls that every daemon answers.
fn push_common(out: &mut Vec<String>)
    ensures
        final(out).deep_view() == old(out).deep_view() + common_calls(),
{
    let ghost before = out.deep_view();
    text::push_str(out, "  GET  /metrics          Node snapshot (CPU, GPU, RAM, power)");
    text::push_str(out, "  GET  /health           Daemon liveness + uptime");
    text::push_str(out, "  GET  /health/setup     Setup validation (MLX, RDMA, SSH, disk)");
    text::push_str(out, "  GET  /health/network   Thunderbolt service validation");
    text::push_str(out, "  POST /health/network/fix  Auto-repair TB service names");
    text::push_str(out, "  GET  /processes        Running MLX/VLM processes");
    text::push_str(out, "  GET  /models           Local model inventory");
    text::push_str(out, "  GET  /runtime          Python/MLX/macOS versions");
    text::push_str(out, "  GET  /logs?name=asmi   Tail log files");
    text::push_str(out, "  GET  /stream           SSE live metrics stream");
    text::push_str(out, "  GET  /serve/status     All server states (or ?port=N)");
    text::push_str(out, "  POST /serve/load       Load model (?port=N)");
    text::push_str(out, "  POST /serve/stop       Stop server (?port=N)");
    text::push_str(out, "  POST /serve/reload     Reload model (?port=N)");
    text::push_str(out, "  POST /serve/share      Start distributed share session");
    text::push_str(out, "  GET  /serve/share/status Share session status");
    text::push_str(out, "  POST /serve/share/stop  Stop share session");
    text::push_str(out, "  GET  /ane              ANE power + status (IOReport)");
    text::push_str(out, "  GET  /egpu             eGPU / TinyGPU detection");
    text::push_str(out, "  GET  /watchdog          Full watchdog report");
    text::push_str(out, "  GET  /watchdog/peers    RDMA peer heartbeat status");
    text::push_str(out, "  GET  /watchdog/gpu-lock GPU Lock detection status");
    assert(out.deep_view() =~= before + common_calls());
}

/// Adds the calls that only a hub answers.
fn push_hub(out: &mut Vec<String>)
    ensures
        final(out).deep_view() == old(out).deep_view() + hub_calls(),
{
    let ghost before = out.deep_view();
    text::push_str(out, "  GET  /cluster          All node snapshots (hub mode)");
    text::push_str(out, "  GET  /nodes            Known node hostnames");
    text::push_str(out, "  GET  /jaccl/config     RDMA topology for JACCL");
    text::push_str(out, "  POST /jaccl/config     Generate JACCL hostfile");
    text::push_str(out, "  GET  /topology         TB5/RDMA mesh topology (JSON)");
    text::push_str(out, "  GET  /topology/dot     Topology as DOT graph");
    text::push_str(out, "  GET  /topology/validate Mesh completeness + JACCL readiness");
    assert(out.deep_view() =~= before + hub_calls());
}

/// What the daemon tells when it listens.
pub fn banner_lines(name: &str, host: &str, port: u16, hub: bool, ports: &Vec<(u16, String)>) -> (r:
    Vec<String>)
    ensures
        r.deep_view() == banner(name@, host@, port as nat, hub, ports.deep_view()),
{
    let mut out: Vec<String> = Vec::new();
    text::push_text(&mut out, write_hello(name, host, port, hub));
    assert(out.deep_view() =~= seq![hello(name@, host@, port as nat, hub)]);
    push_common(&mut out);
    text::push_text(&mut out, write_ports(ports));
    if hub {
        push_hub(&mut out);
    }
    assert(out.deep_view() =~= banner(name@, host@, port as nat, hub, ports.deep_view()));
    out
}

/// A process without a model of its own is told with the model of the server on
/// its port: the last part of the path of the model, where that server is ready
/// or loads.
pub proof fn process_gets_the_model_of_its_port(
    servers: Seq<ServerModelView>,
    i: int,
    dir: Seq<char>,
    name: Seq<char>,
    slashes: Seq<char>,
)
    requires
        0 <= i < servers.len(),
        forall|j: int| 0 <= j < i ==> (#[trigger] servers[j]).port != servers[i].port,
        servers[i].model == Some(dir + seq!['/'] + name + slashes),
        servers[i].state == ServeState::Ready || servers[i].state == ServeState::Loading,
        name.len() > 0,
        !name.contains('/'),
        forall|k: int| 0 <= k < slashes.len() ==> slashes[k] == '/',
    ensures
        enriched(SeenView { port: Some(servers[i].port), model: None }, servers) == (SeenView {
            port: Some(servers[i].port),
            model: Some(name),
        }),
{
    let stem = dir + seq!['/'] + name;
    let path = stem + slashes;
    text::end_is_trimmed(path, '/');
    let t = text::trim_end_char(path, '/');
    let n = t.len() as int;
    assert(stem.last() == name.last());
    assert(name.last() != '/') by {
        assert(name[name.len() - 1] == name.last());
    }
    if n < stem.len() {
        assert(path[stem.len() - 1] == stem.last());
    }
    if n > stem.len() {
        assert(t.last() == path.take(n).last());
        assert(path[n - 1] == slashes[n - 1 - stem.len()]);
    }
    assert(path.take(n) =~= stem);
    text::piece_behind_last(dir, '/', name);
    first_server_of_port(servers, i);
}

/// The model at a port is that of the first server there.
proof fn first_server_of_port(servers: Seq<ServerModelView>, i: int)
    requires
        0 <= i < servers.len(),
        forall|j: int| 0 <= j < i ==> (#[trigger] servers[j]).port != servers[i].port,
    ensures
        model_at(servers, servers[i].port) == (match servers[i].model {
            Some(m) if servers[i].state == ServeState::Ready || servers[i].state
                == ServeState::Loading => Some(short_name(m)),
            _ => None,
        }),
    decreases servers.len(),
{
    if i > 0 {
        let rest = servers.drop_first();
        assert(servers[0].port != servers[i].port);
        assert(rest[i - 1] == servers[i]);
        assert forall|j: int| 0 <= j < i - 1 implies (#[trigger] rest[j]).port
            != rest[i - 1].port by {
            assert(rest[j] == servers[j + 1]);
        }
        first_server_of_port(rest, i - 1);
    }
}

/// The name of a node is that of the local network where there is one, else
/// that of the system without the white space around it.
pub proof fn local_name_comes_first(local: Seq<char>, system: Seq<char>)
    requires
        system.len() > 0,
        !text::is_space(system[0]),
        !text::is_space(system.last()),
    ensures
        local.len() > 0 ==> node_name(Some(local), Some(system)) == local,
        node_name(None, Some(system + seq!['\n'])) == system,
        local.len() == 0 ==> node_name(Some(local), Some(system + seq!['\n'])) == system,
        node_name(None, None) == "unknown"@,
{
    text::inner_text_comes_back(Seq::empty(), system, seq!['\n']);
    assert(Seq::<char>::empty() + system + seq!['\n'] =~= system + seq!['\n']);
}

/// The greeting tells the address, and the ports line tells every port with the
/// engine behind it.
pub proof fn banner_tells_address_and_ports(
    name: Seq<char>,
    host: Seq<char>,
    port: nat,
    hub: bool,
    ports: Seq<(u16, Seq<char>)>,
    last: (u16, Seq<char>),
)
    ensures
        banner(name, host, port, hub, ports)[0] == hello(name, host, port, hub),
        text::ends(hello(name, host, port, hub), "http://"@ + host + ":"@ + text::dec(port)),
        text::starts(hello(name, host, port, hub), name),
        banner(name, host, port, hub, ports).contains(ports_line(ports)),
        banner(name, host, port, true, ports).len() > banner(name, host, port, false, ports).len(),
        ports_line(seq![last]) == "  Managed ports: "@ + (text::dec(last.0 as nat) + "("@ + last.1
            + ")"@),
        ports.len() > 0 ==> ports_line(ports.push(last)) == ports_line(ports) + ", "@ + (text::dec(
            last.0 as nat,
        ) + "("@ + last.1 + ")"@),
{
    let h = hello(name, host, port, hub);
    let tail = "http://"@ + host + ":"@ + text::dec(port);
    assert(h.skip(h.len() - tail.len()) =~= tail);
    assert(h.take(name.len() as int) =~= name);
    let b = banner(name, host, port, hub, ports);
    assert(b[common_calls().len() as int + 1] == ports_line(ports));
    assert(hub_calls().len() > 0);
    let f = |p: (u16, Seq<char>)| port_text(p.0 as nat, p.1);
    assert(seq![last].map_values(f) =~= seq![f(last)]);
    let all = ports.push(last).map_values(f);
    assert(all.drop_last() =~= ports.map_values(f));
    assert(all.last() == f(last));
    if ports.len() > 0 {
        let x = "  Managed ports: "@;
        let y = text::joined(ports.map_values(f), ", "@);
        assert(x + (y + ", "@ + f(last)) =~= x + y + ", "@ + f(last));
    }
}

/// The nodes to start with are the texts of their list.
pub proof fn seeds_are_listed(v: serde_json::Value, items: Seq<serde_json::Value>)
    ensures
        json::items_at(v, "nodes"@) == Some(items) ==> seeds_in(v) == json::texts_in(items),
        json::items_at(v, "nodes"@) is None ==> seeds_in(v).len() == 0,
{
}

} // verus!
