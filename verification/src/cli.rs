//! The command line: which nodes are meant, what is run on them, and how the
//! answers are shown.

use crate::health;
use crate::json;
use crate::serve;
use crate::text;
use vstd::prelude::*;
use vstd::string::*;

verus! {

// ---------------------------------------------------------------------------
// Nodes
// ---------------------------------------------------------------------------

/// The hosts that are meant: those that were given, else the known ones.
pub fn choose_hosts(given: Vec<String>, known: Vec<String>) -> (r: Vec<String>)
    ensures
        r.deep_view() == (if given@.len() > 0 {
            given.deep_view()
        } else {
            known.deep_view()
        }),
{
    if given.len() > 0 {
        given
    } else {
        known
    }
}

/// Whether there are hosts to look at.
pub fn check_hosts(hosts: &Vec<String>) -> (r: Result<(), String>)
    ensures
        match r {
            Ok(_) => hosts@.len() > 0,
            Err(e) => hosts@.len() == 0 && e@
                == "No hosts specified. Use --hosts or configure nodes in ~/.config/asmi/config.json"@,
        },
{
    if hosts.len() == 0 {
        Err(
            text::own(
                "No hosts specified. Use --hosts or configure nodes in ~/.config/asmi/config.json",
            ),
        )
    } else {
        Ok(())
    }
}

/// A link to another node, and the device that carries it.
#[derive(Debug, Clone)]
pub struct RdmaLink {
    pub local_interface: String,
    pub local_ip: String,
    pub remote_ip: String,
    pub remote_hostname: String,
    pub rdma_device: Option<String>,
    pub port_state: Option<String>,
}

/// A link to another node, with its texts.
pub struct RdmaLinkView {
    pub local_interface: Seq<char>,
    pub local_ip: Seq<char>,
    pub remote_ip: Seq<char>,
    pub remote_hostname: Seq<char>,
    pub rdma_device: Option<Seq<char>>,
    pub port_state: Option<Seq<char>>,
}

impl DeepView for RdmaLink {
    type V = RdmaLinkView;

    open spec fn deep_view(&self) -> RdmaLinkView {
        RdmaLinkView {
            local_interface: self.local_interface@,
            local_ip: self.local_ip@,
            remote_ip: self.remote_ip@,
            remote_hostname: self.remote_hostname@,
            rdma_device: self.rdma_device.deep_view(),
            port_state: self.port_state.deep_view(),
        }
    }
}

/// A link after a device was found at an interface.
pub open spec fn correlated(
    link: RdmaLinkView,
    interface: Seq<char>,
    device: Seq<char>,
    state: Seq<char>,
) -> RdmaLinkView {
    if link.local_interface == interface {
        RdmaLinkView { rdma_device: Some(device), port_state: Some(state), ..link }
    } else {
        link
    }
}

/// Notes the device that was found at an interface; whether that changed a
/// link.
pub fn correlate_device(links: &mut Vec<RdmaLink>, interface: &str, device: &str, state: &str) -> (r:
    bool)
    ensures
        final(links).deep_view() == old(links).deep_view().map_values(
            |l: RdmaLinkView| correlated(l, interface@, device@, state@),
        ),
        r == (final(links).deep_view() != old(links).deep_view()),
{
    let ghost before = links.deep_view();
    let ghost want = before.map_values(
        |l: RdmaLinkView| correlated(l, interface@, device@, state@),
    );
    let n: usize = links.len();
    let mut changed: bool = false;
    let mut i: usize = 0;
    while i < n
        invariant
            i <= n,
            n == links@.len(),
            before.len() == n,
            want == before.map_values(
                |l: RdmaLinkView| correlated(l, interface@, device@, state@),
            ),
            forall|k: int| 0 <= k < i ==> (#[trigger] links@[k]).deep_view() == want[k],
            forall|k: int| i <= k < n ==> (#[trigger] links@[k]).deep_view() == before[k],
            changed == exists|k: int| 0 <= k < i && #[trigger] want[k] != before[k],
        decreases n - i,
    {
        assert(links@[i as int].deep_view() == before[i as int]);
        let ghost old_changed = changed;
        let l: &RdmaLink = &links[i];
        if text::same(&l.local_interface, interface) && (!text::same_opt(&l.rdma_device, device)
            || !text::same_opt(&l.port_state, state)) {
            let new = RdmaLink {
                local_interface: text::own(&l.local_interface),
                local_ip: text::own(&l.local_ip),
                remote_ip: text::own(&l.remote_ip),
                remote_hostname: text::own(&l.remote_hostname),
                rdma_device: Some(text::own(device)),
                port_state: Some(text::own(state)),
            };
            assert(new.deep_view() == want[i as int]);
            assert(want[i as int] != before[i as int]);
            links.set(i, new);
            changed = true;
        } else {
            assert(want[i as int] == before[i as int]);
        }
        proof {
            if old_changed {
                let k = choose|k: int| 0 <= k < i && #[trigger] want[k] != before[k];
                assert(want[k] != before[k]);
            }
        }
        i = i + 1;
    }
    assert(links.deep_view() =~= want);
    proof {
        if changed {
            let k = choose|k: int| 0 <= k < n && #[trigger] want[k] != before[k];
            assert(want[k] != before[k]);
        } else {
            assert(forall|k: int| 0 <= k < n ==> #[trigger] want[k] == before[k]);
            assert(want =~= before);
        }
    }
    changed
}

/// To note a device again changes nothing.
pub proof fn noted_once(
    links: Seq<RdmaLinkView>,
    interface: Seq<char>,
    device: Seq<char>,
    state: Seq<char>,
)
    ensures
        ({
            let f = |l: RdmaLinkView| correlated(l, interface, device, state);
            links.map_values(f).map_values(f) == links.map_values(f)
        }),
{
    let f = |l: RdmaLinkView| correlated(l, interface, device, state);
    assert(links.map_values(f).map_values(f) =~= links.map_values(f));
}

// ---------------------------------------------------------------------------
// The table
// ---------------------------------------------------------------------------

/// How a process is spread over nodes, for display.
pub open spec fn backend_text(backend: Option<Seq<char>>) -> Seq<char> {
    match backend {
        Some(b) => "["@ + b + "]"@,
        None => "[local]"@,
    }
}

/// How a process is spread over nodes, for display.
pub fn format_backend(backend: &Option<String>) -> (r: String)
    ensures
        r@ == backend_text(backend.deep_view()),
{
    match backend {
        Some(b) => {
            let mut s: String = text::glue("[", b);
            s.append("]");
            s
        },
        None => text::own("[local]"),
    }
}

/// A process, for display.
pub struct ShownProcess {
    /// The first model that the server at its port tells of.
    pub served: Option<String>,
    pub model: Option<String>,
    pub port: Option<u16>,
    pub backend: Option<String>,
}

/// A process for display, with its texts.
pub struct ShownView {
    pub served: Option<Seq<char>>,
    pub model: Option<Seq<char>>,
    pub port: Option<u16>,
    pub backend: Option<Seq<char>>,
}

impl DeepView for ShownProcess {
    type V = ShownView;

    open spec fn deep_view(&self) -> ShownView {
        ShownView {
            served: self.served.deep_view(),
            model: self.model.deep_view(),
            port: self.port,
            backend: self.backend.deep_view(),
        }
    }
}

/// What is shown of a process.
pub open spec fn process_text(p: ShownView) -> Seq<char> {
    (match (p.served, p.model) {
        (Some(m), _) => text::split_on(m, '/').last(),
        (None, Some(m)) => text::split_on(m, '/').last(),
        (None, None) => "no model"@,
    }) + (match p.port {
        Some(n) => ":"@ + text::dec(n as nat),
        None => Seq::empty(),
    }) + " "@ + backend_text(p.backend)
}

/// What is shown of the processes of a node.
pub open spec fn processes_text(ps: Seq<ShownView>) -> Seq<char> {
    if ps.len() == 0 {
        "--"@
    } else {
        text::joined(ps.map_values(|p: ShownView| process_text(p)), ", "@)
    }
}

/// What is shown of a process.
fn describe_process(p: &ShownProcess) -> (r: String)
    ensures
        r@ == process_text(p.deep_view()),
{
    let mut s: String = match (&p.served, &p.model) {
        (Some(m), _) => text::last_piece(m, '/'),
        (None, Some(m)) => text::last_piece(m, '/'),
        (None, None) => text::own("no model"),
    };
    let ghost name = s@;
    if let Some(n) = p.port {
        s.append(":");
        s.append(&text::decimal(n as u64));
        assert(s@ =~= name + (":"@ + text::dec(n as nat)));
    } else {
        assert(s@ =~= name + Seq::<char>::empty());
    }
    s.append(" ");
    s.append(&format_backend(&p.backend));
    s
}

/// What is shown of the processes of a node.
pub fn describe_processes(ps: &Vec<ShownProcess>) -> (r: String)
    ensures
        r@ == processes_text(ps.deep_view()),
{
    assert(ps.deep_view().len() == ps@.len());
    if ps.len() == 0 {
        return text::own("--");
    }
    let ghost want = ps.deep_view().map_values(|p: ShownView| process_text(p));
    let mut texts: Vec<String> = Vec::new();
    let mut i: usize = 0;
    assert(texts.deep_view() =~= want.take(0));
    while i < ps.len()
        invariant
            i <= ps@.len(),
            want == ps.deep_view().map_values(|p: ShownView| process_text(p)),
            texts.deep_view() == want.take(i as int),
        decreases ps@.len() - i,
    {
        let s: String = describe_process(&ps[i]);
        assert(s@ == want[i as int]);
        text::push_text(&mut texts, s);
        i = i + 1;
        assert(texts.deep_view() =~= want.take(i as int));
    }
    assert(want.take(i as int) =~= want);
    text::join(&texts, ", ")
}

/// How many of the devices of a node are active.
pub fn device_counts(counts: Option<(u64, u64)>) -> (r: String)
    ensures
        r@ == (match counts {
            Some(c) => text::dec(c.0 as nat) + "/"@ + text::dec(c.1 as nat),
            None => "--"@,
        }),
{
    match counts {
        Some(c) => {
            let mut s: String = text::glue(&text::decimal(c.0), "/");
            s.append(&text::decimal(c.1));
            s
        },
        None => text::own("--"),
    }
}

/// What a row of the table holds; the numbers are given as they are shown.
pub struct Row {
    pub name: String,
    pub speed: Option<String>,
    pub cpu: String,
    pub gpu: String,
    pub ram_used: String,
    pub ram_total: String,
    pub cache: String,
    pub watts: String,
    pub devices: String,
    pub processes: String,
}

/// A row of the table.
pub open spec fn row_text(row: &Row) -> Seq<char> {
    "| "@ + text::left_aligned(row.name@, 10) + " "@ + text::left_aligned(
        match row.speed.deep_view() {
            Some(s) => s,
            None => "--"@,
        },
        10,
    ) + " "@ + text::right_aligned(row.cpu@, 4) + "% "@ + text::right_aligned(row.gpu@, 4) + "% "@
        + text::right_aligned(row.ram_used@, 4) + "/"@ + text::left_aligned(row.ram_total@, 4)
        + "GB "@ + text::left_aligned(row.cache@ + "G"@, 7) + " "@ + text::right_aligned(
        row.watts@,
        5,
    ) + "W  "@ + text::left_aligned(row.devices@, 6) + " "@ + text::left_aligned(
        row.processes@,
        17,
    ) + " |"@
}

/// A row of the table.
pub fn format_row(row: &Row) -> (r: String)
    ensures
        r@ == row_text(row),
{
    let speed: String = match &row.speed {
        Some(s) => text::own(s),
        None => text::own("--"),
    };
    let mut s: String = text::glue("| ", &text::align_left(&row.name, 10));
    s.append(" ");
    s.append(&text::align_left(&speed, 10));
    s.append(" ");
    s.append(&text::align_right(&row.cpu, 4));
    s.append("% ");
    s.append(&text::align_right(&row.gpu, 4));
    s.append("% ");
    s.append(&text::align_right(&row.ram_used, 4));
    s.append("/");
    s.append(&text::align_left(&row.ram_total, 4));
    s.append("GB ");
    s.append(&text::align_left(&text::glue(&row.cache, "G"), 7));
    s.append(" ");
    s.append(&text::align_right(&row.watts, 5));
    s.append("W  ");
    s.append(&text::align_left(&row.devices, 6));
    s.append(" ");
    s.append(&text::align_left(&row.processes, 17));
    s.append(" |");
    s
}

// ---------------------------------------------------------------------------
// Daemons
// ---------------------------------------------------------------------------

/// What is asked of the daemons.
#[derive(Debug, PartialEq, Eq)]
pub enum DaemonAction {
    Status,
    Start,
    Stop,
    Restart,
    Deploy,
    Logs,
}

/// The nodes that are meant: the one that was named, or all of them.
pub open spec fn meant(known: Seq<Seq<char>>, node: Option<Seq<char>>) -> Seq<Seq<char>>
    decreases known.len(),
{
    if known.len() == 0 {
        Seq::empty()
    } else {
        let before = meant(known.drop_last(), node);
        match node {
            Some(n) => if n == "all"@ || n == known.last() {
                before.push(known.last())
            } else {
                before
            },
            None => before.push(known.last()),
        }
    }
}

/// The nodes that are meant: the one that was named, or all of them.
pub fn targets(known: &Vec<String>, node: &Option<String>) -> (r: Vec<String>)
    ensures
        r.deep_view() == meant(known.deep_view(), node.deep_view()),
{
    let ghost ks = known.deep_view();
    let mut out: Vec<String> = Vec::new();
    let mut i: usize = 0;
    assert(out.deep_view() =~= meant(ks.take(0), node.deep_view()));
    while i < known.len()
        invariant
            i <= known@.len(),
            ks == known.deep_view(),
            out.deep_view() == meant(ks.take(i as int), node.deep_view()),
        decreases known@.len() - i,
    {
        proof {
            assert(ks.take(i + 1).drop_last() =~= ks.take(i as int));
            assert(ks.take(i + 1).last() == known@[i as int]@);
        }
        let wanted: bool = match node {
            Some(n) => text::same(n, "all") || text::same(n, &known[i]),
            None => true,
        };
        if wanted {
            text::push_text(&mut out, text::own(&known[i]));
        }
        i = i + 1;
    }
    assert(ks.take(i as int) =~= ks);
    out
}

/// The nodes that a deployment goes to: those that are meant, but this one.
pub fn deploy_targets(known: &Vec<String>, node: &Option<String>, local: &str) -> (r: Vec<String>)
    ensures
        r.deep_view() == health::other_nodes(meant(known.deep_view(), node.deep_view()), local@),
{
    health::remote_nodes(&targets(known, node), local)
}

/// Without a name, every known node is meant.
pub proof fn all_are_meant(known: Seq<Seq<char>>)
    ensures
        meant(known, None) == known,
        meant(known, Some("all"@)) == known,
    decreases known.len(),
{
    if known.len() > 0 {
        all_are_meant(known.drop_last());
        assert(known.drop_last().push(known.last()) =~= known);
    } else {
        assert(meant(known, None) =~= known);
        assert(meant(known, Some("all"@)) =~= known);
    }
}

/// The nodes that are meant are known.
pub proof fn meant_are_known(known: Seq<Seq<char>>, node: Option<Seq<char>>, i: int)
    requires
        0 <= i < meant(known, node).len(),
    ensures
        known.contains(meant(known, node)[i]),
        node matches Some(n) ==> n == "all"@ || meant(known, node)[i] == n,
    decreases known.len(),
{
    let before = meant(known.drop_last(), node);
    if i < before.len() {
        meant_are_known(known.drop_last(), node, i);
        let k = choose|k: int| 0 <= k < known.drop_last().len() && known.drop_last()[k] == before[i];
        assert(known[k] == before[i]);
        assert(meant(known, node)[i] == before[i]);
    } else {
        assert(meant(known, node)[i] == known.last());
        assert(known[known.len() - 1] == known.last());
    }
}

/// The command that starts the daemon.
pub fn start_command() -> (r: String)
    ensures
        r@ == "launchctl bootstrap gui/$(id -u) ~/Library/LaunchAgents/com.asmi.daemon.plist"@,
{
    text::own("launchctl bootstrap gui/$(id -u) ~/Library/LaunchAgents/com.asmi.daemon.plist")
}

/// The command that stops the daemon.
pub fn stop_command() -> (r: String)
    ensures
        r@ == "launchctl bootout gui/$(id -u) ~/Library/LaunchAgents/com.asmi.daemon.plist"@,
{
    text::own("launchctl bootout gui/$(id -u) ~/Library/LaunchAgents/com.asmi.daemon.plist")
}

/// The commands that an action runs on a node, one after the other.
pub open spec fn action_commands(action: DaemonAction) -> Seq<Seq<char>> {
    let start = "launchctl bootstrap gui/$(id -u) ~/Library/LaunchAgents/com.asmi.daemon.plist"@;
    let stop = "launchctl bootout gui/$(id -u) ~/Library/LaunchAgents/com.asmi.daemon.plist"@;
    match action {
        DaemonAction::Start => seq![start],
        DaemonAction::Stop => seq![stop],
        DaemonAction::Restart => seq![stop, start],
        DaemonAction::Logs => seq!["tail -50 ~/Library/Logs/asmi-daemon.log"@],
        DaemonAction::Status | DaemonAction::Deploy => Seq::empty(),
    }
}

/// The commands that an action runs on a node, one after the other.
pub fn commands(action: &DaemonAction) -> (r: Vec<String>)
    ensures
        r.deep_view() == action_commands(*action),
{
    let mut out: Vec<String> = Vec::new();
    match action {
        DaemonAction::Start => {
            text::push_text(&mut out, start_command());
        },
        DaemonAction::Stop => {
            text::push_text(&mut out, stop_command());
        },
        DaemonAction::Restart => {
            text::push_text(&mut out, stop_command());
            text::push_text(&mut out, start_command());
        },
        DaemonAction::Logs => {
            text::push_str(&mut out, "tail -50 ~/Library/Logs/asmi-daemon.log");
        },
        DaemonAction::Status => {},
        DaemonAction::Deploy => {},
    }
    assert(out.deep_view() =~= action_commands(*action));
    out
}

/// What is said of an action on a node, by whether its last command succeeded.
pub fn outcome_word(action: &DaemonAction, ok: bool) -> (r: String)
    ensures
        r@ == (match (*action, ok) {
            (DaemonAction::Start, true) => "started"@,
            (DaemonAction::Start, false) => "already running (or error)"@,
            (DaemonAction::Stop, true) => "stopped"@,
            (DaemonAction::Stop, false) => "not running"@,
            (DaemonAction::Restart, true) => "restarted"@,
            (DaemonAction::Restart, false) => "failed"@,
            (DaemonAction::Deploy, true) => "deployed"@,
            (DaemonAction::Deploy, false) => "FAILED"@,
            _ => ""@,
        }),
{
    match (action, ok) {
        (DaemonAction::Start, true) => text::own("started"),
        (DaemonAction::Start, false) => text::own("already running (or error)"),
        (DaemonAction::Stop, true) => text::own("stopped"),
        (DaemonAction::Stop, false) => text::own("not running"),
        (DaemonAction::Restart, true) => text::own("restarted"),
        (DaemonAction::Restart, false) => text::own("failed"),
        (DaemonAction::Deploy, true) => text::own("deployed"),
        (DaemonAction::Deploy, false) => text::own("FAILED"),
        _ => text::own(""),
    }
}

/// How a command is run on a node: here by the shell, elsewhere over SSH.
pub open spec fn node_argv(
    node: Seq<char>,
    local: Seq<char>,
    command: Seq<char>,
    patience: nat,
) -> Seq<Seq<char>> {
    if node == local {
        seq!["sh"@, "-c"@, command]
    } else {
        seq!["ssh"@, "-o"@, "ConnectTimeout="@ + text::dec(patience), node, command]
    }
}

/// How a command is run on a node, with so many seconds to reach it.
pub fn run_on_node(node: &str, local: &str, command: &str, patience: u64) -> (r: Vec<String>)
    ensures
        r.deep_view() == node_argv(node@, local@, command@, patience as nat),
{
    let mut out: Vec<String> = Vec::new();
    if text::same(node, local) {
        text::push_str(&mut out, "sh");
        text::push_str(&mut out, "-c");
        text::push_str(&mut out, command);
    } else {
        text::push_str(&mut out, "ssh");
        text::push_str(&mut out, "-o");
        text::push_text(&mut out, text::glue("ConnectTimeout=", &text::decimal(patience)));
        text::push_str(&mut out, node);
        text::push_str(&mut out, command);
    }
    assert(out.deep_view() =~= node_argv(node@, local@, command@, patience as nat));
    out
}

/// How a file is copied to a place on a node.
pub open spec fn copy_argv(file: Seq<char>, node: Seq<char>, place: Seq<char>) -> Seq<Seq<char>> {
    seq!["scp"@, "-o"@, "ConnectTimeout=5"@, file, node + ":"@ + place]
}

/// How a file is copied to a place on a node.
fn write_copy(file: &str, node: &str, place: &str) -> (r: Vec<String>)
    ensures
        r.deep_view() == copy_argv(file@, node@, place@),
{
    let mut to: String = text::glue(node, ":");
    to.append(place);
    let mut out: Vec<String> = Vec::new();
    text::push_str(&mut out, "scp");
    text::push_str(&mut out, "-o");
    text::push_str(&mut out, "ConnectTimeout=5");
    text::push_str(&mut out, file);
    text::push_text(&mut out, to);
    assert(out.deep_view() =~= copy_argv(file@, node@, place@));
    out
}

/// The commands that bring the program to a node. It is copied beside the one
/// that is there and then takes its place, so that one that runs is never
/// written over; then the description of the daemon is copied.
pub open spec fn deploy_commands(bin: Seq<char>, plist: Seq<char>, node: Seq<char>) -> Seq<
    Seq<Seq<char>>,
> {
    seq![
        copy_argv(bin, node, "~/.cargo/bin/asmi.new"@),
        seq![
            "ssh"@,
            "-o"@,
            "ConnectTimeout=5"@,
            node,
            "mv -f ~/.cargo/bin/asmi.new ~/.cargo/bin/asmi && chmod 755 ~/.cargo/bin/asmi"@,
        ],
        copy_argv(plist, node, "~/Library/LaunchAgents/"@),
    ]
}

/// The commands that bring the program to a node.
pub fn plan_deploy(bin: &str, plist: &str, node: &str) -> (r: Vec<Vec<String>>)
    ensures
        r.deep_view() == deploy_commands(bin@, plist@, node@),
{
    let mut swap: Vec<String> = Vec::new();
    text::push_str(&mut swap, "ssh");
    text::push_str(&mut swap, "-o");
    text::push_str(&mut swap, "ConnectTimeout=5");
    text::push_str(&mut swap, node);
    text::push_str(
        &mut swap,
        "mv -f ~/.cargo/bin/asmi.new ~/.cargo/bin/asmi && chmod 755 ~/.cargo/bin/asmi",
    );
    assert(swap.deep_view() =~= seq![
        "ssh"@,
        "-o"@,
        "ConnectTimeout=5"@,
        node@,
        "mv -f ~/.cargo/bin/asmi.new ~/.cargo/bin/asmi && chmod 755 ~/.cargo/bin/asmi"@,
    ]);
    let mut out: Vec<Vec<String>> = Vec::new();
    text::push_item(&mut out, write_copy(bin, node, "~/.cargo/bin/asmi.new"));
    text::push_item(&mut out, swap);
    text::push_item(&mut out, write_copy(plist, node, "~/Library/LaunchAgents/"));
    assert(out.deep_view() =~= deploy_commands(bin@, plist@, node@));
    out
}

/// Whether the next of those commands is run: the second only where the first
/// succeeded.
pub fn deploy_goes_on(copied: bool, next: usize) -> (r: bool)
    ensures
        r == (next != 1 || copied),
{
    next != 1 || copied
}

/// Where a daemon is asked for its health: under its name, then under its name
/// in the local network.
pub fn health_urls(node: &str, port: u16) -> (r: Vec<String>)
    ensures
        r.deep_view() == seq![
            "http://"@ + node@ + ":"@ + text::dec(port as nat) + "/health"@,
            "http://"@ + node@ + ".local:"@ + text::dec(port as nat) + "/health"@,
        ],
{
    let n: String = text::decimal(port as u64);
    let mut a: String = text::glue("http://", node);
    a.append(":");
    a.append(&n);
    a.append("/health");
    let mut b: String = text::glue("http://", node);
    b.append(".local:");
    b.append(&n);
    b.append("/health");
    let mut out: Vec<String> = Vec::new();
    text::push_text(&mut out, a);
    text::push_text(&mut out, b);
    assert(out.deep_view() =~= seq![
        "http://"@ + node@ + ":"@ + text::dec(port as nat) + "/health"@,
        "http://"@ + node@ + ".local:"@ + text::dec(port as nat) + "/health"@,
    ]);
    out
}

/// A number with at least two digits.
pub open spec fn two_digits(n: nat) -> Seq<char> {
    if n < 10 {
        "0"@ + text::dec(n)
    } else {
        text::dec(n)
    }
}

/// A number with at least two digits.
fn write_two(n: u64) -> (r: String)
    ensures
        r@ == two_digits(n as nat),
{
    if n < 10 {
        text::glue("0", &text::decimal(n))
    } else {
        text::decimal(n)
    }
}

/// How long a daemon has run.
pub open spec fn uptime_text(secs: nat) -> Seq<char> {
    let h = secs / 3600;
    let m = (secs % 3600) / 60;
    let s = secs % 60;
    if h > 0 {
        text::dec(h) + "h"@ + two_digits(m) + "m"@
    } else {
        text::dec(m) + "m"@ + two_digits(s) + "s"@
    }
}

/// How long a daemon has run.
pub fn format_uptime(secs: u64) -> (r: String)
    ensures
        r@ == uptime_text(secs as nat),
{
    let h: u64 = secs / 3600;
    let m: u64 = (secs % 3600) / 60;
    let s: u64 = secs % 60;
    if h > 0 {
        let mut t: String = text::glue(&text::decimal(h), "h");
        t.append(&write_two(m));
        t.append("m");
        t
    } else {
        let mut t: String = text::glue(&text::decimal(m), "m");
        t.append(&write_two(s));
        t.append("s");
        t
    }
}

/// How long the daemon that answers about its health has run, in seconds: none
/// where the answer is no JSON, and zero where it does not say.
pub fn read_uptime(body: &str) -> (r: Option<u64>)
    ensures
        r == (match json::json_of(body@) {
            Some(v) => Some(health::number_or_zero(json::number_at(v, "uptime_secs"@))),
            None => None,
        }),
{
    match json::parse(body) {
        Some(v) => match json::member_number(&v, "uptime_secs") {
            Some(n) => Some(n),
            None => Some(0),
        },
        None => None,
    }
}

/// The places of the program that is copied to the nodes, in turn: beside the
/// one that runs, given its directory; where a release is built, given the
/// directory above; and what the search path gives.
pub open spec fn release_places(
    dir: Option<Seq<char>>,
    above: Option<Seq<char>>,
    from_path: Option<Seq<char>>,
) -> Seq<Seq<char>> {
    let a = match dir {
        Some(d) => seq![serve::path_below(d, "asmi"@)],
        None => Seq::empty(),
    };
    let b = match above {
        Some(d) => a.push(serve::path_below(d, "release/asmi"@)),
        None => a,
    };
    match from_path {
        Some(p) => b.push(text::trimmed(p)),
        None => b,
    }
}

/// The places of the program that is copied to the nodes, in turn.
pub fn release_candidates(
    dir: &Option<String>,
    above: &Option<String>,
    from_path: &Option<String>,
) -> (r: Vec<String>)
    ensures
        r.deep_view() == release_places(dir.deep_view(), above.deep_view(), from_path.deep_view()),
{
    let mut out: Vec<String> = Vec::new();
    assert(out.deep_view() =~= Seq::<Seq<char>>::empty());
    if let Some(d) = dir {
        text::push_text(&mut out, serve::path_join(d, "asmi"));
        assert(out.deep_view() =~= seq![serve::path_below(d@, "asmi"@)]);
    }
    if let Some(d) = above {
        text::push_text(&mut out, serve::path_join(d, "release/asmi"));
    }
    if let Some(p) = from_path {
        text::push_text(&mut out, text::trim(p));
    }
    out
}

/// The program that is copied to the nodes: the one that was found, or the
/// installed one.
pub fn choose_release(found: Option<String>, home: &str) -> (r: String)
    ensures
        r@ == (match found.deep_view() {
            Some(p) => p,
            None => serve::path_below(home@, ".cargo/bin/asmi"@),
        }),
{
    match found {
        Some(p) => p,
        None => serve::path_join(home, ".cargo/bin/asmi"),
    }
}

/// What is said of a daemon, by how long it has run, if it answers.
pub fn status_line(node: &str, uptime: Option<u64>) -> (r: String)
    ensures
        r@ == "  "@ + text::left_aligned(node@, 6) + (match uptime {
            Some(secs) => " \x1b[32m●\x1b[0m online  ("@ + uptime_text(secs as nat) + ")"@,
            None => " \x1b[31m●\x1b[0m offline"@,
        }),
{
    let mut s: String = text::glue("  ", &text::align_left(node, 6));
    let ghost head = s@;
    match uptime {
        Some(secs) => {
            s.append(" \x1b[32m●\x1b[0m online  (");
            s.append(&format_uptime(secs));
            s.append(")");
            assert(s@ =~= head + (" \x1b[32m●\x1b[0m online  ("@ + uptime_text(secs as nat)
                + ")"@));
        },
        None => s.append(" \x1b[31m●\x1b[0m offline"),
    }
    s
}

/// The node that is named is meant, where it is known, and all where none is
/// named.
pub proof fn named_node_is_meant(known: Seq<Seq<char>>, node: Seq<char>)
    ensures
        node != "all"@ ==> meant(known, Some(node)) == known.filter(|n: Seq<char>| n == node),
        known.contains(node) ==> meant(known, Some(node)).contains(node),
        meant(known, None) == known,
    decreases known.len(),
{
    reveal(Seq::filter);
    all_are_meant(known);
    if known.len() > 0 {
        let front = known.drop_last();
        let rest = meant(front, Some(node));
        let now = meant(known, Some(node));
        named_node_is_meant(front, node);
        if known.contains(node) {
            let i = choose|i: int| 0 <= i < known.len() && known[i] == node;
            if i < known.len() - 1 {
                assert(front[i] == node);
                let m = choose|m: int| 0 <= m < rest.len() && rest[m] == node;
                assert(now[m] == node);
            } else {
                assert(now.last() == node);
            }
        }
    }
}

/// A restart is a stop and then a start.
pub proof fn restart_is_stop_and_start()
    ensures
        action_commands(DaemonAction::Restart) == action_commands(DaemonAction::Stop)
            + action_commands(DaemonAction::Start),
        action_commands(DaemonAction::Start) == seq![
            "launchctl bootstrap gui/$(id -u) ~/Library/LaunchAgents/com.asmi.daemon.plist"@,
        ],
        action_commands(DaemonAction::Stop) == seq![
            "launchctl bootout gui/$(id -u) ~/Library/LaunchAgents/com.asmi.daemon.plist"@,
        ],
        action_commands(DaemonAction::Logs) == seq!["tail -50 ~/Library/Logs/asmi-daemon.log"@],
{
    assert(action_commands(DaemonAction::Restart) =~= action_commands(DaemonAction::Stop)
        + action_commands(DaemonAction::Start));
}

/// A command runs in a shell of this node, or over `ssh` on the node that is
/// named.
pub proof fn command_runs_on_its_node(
    node: Seq<char>,
    local: Seq<char>,
    command: Seq<char>,
    patience: nat,
)
    ensures
        ({
            let argv = node_argv(node, local, command, patience);
            &&& argv.last() == command
            &&& node == local ==> argv[0] == "sh"@ && argv[1] == "-c"@
            &&& node != local ==> argv[0] == "ssh"@ && argv[argv.len() - 2] == node
            &&& node != local ==> argv.contains("ConnectTimeout="@ + text::dec(patience))
        }),
{
    let argv = node_argv(node, local, command, patience);
    if node != local {
        assert(argv[2] == "ConnectTimeout="@ + text::dec(patience));
    }
}

/// A deployment brings the program beside the one that is there, puts it in its
/// place, and brings the description, all to the node.
#[verifier::rlimit(60)]
pub proof fn deployment_goes_to_the_node(bin: Seq<char>, plist: Seq<char>, node: Seq<char>)
    ensures
        ({
            let c = deploy_commands(bin, plist, node);
            &&& c.len() == 3
            &&& c[0][0] == "scp"@ && c[0].contains(bin) && c[0].last() == node
                + ":~/.cargo/bin/asmi.new"@
            &&& c[1][0] == "ssh"@ && c[1].contains(node)
            &&& c[2][0] == "scp"@ && c[2].contains(plist) && c[2].last() == node
                + ":~/Library/LaunchAgents/"@
        }),
{
    reveal_strlit(":");
    reveal_strlit("~/.cargo/bin/asmi.new");
    reveal_strlit(":~/.cargo/bin/asmi.new");
    reveal_strlit("~/Library/LaunchAgents/");
    reveal_strlit(":~/Library/LaunchAgents/");
    let c = deploy_commands(bin, plist, node);
    assert(c[0][3] == bin && c[1][3] == node && c[2][3] == plist);
    assert(node + ":"@ + "~/.cargo/bin/asmi.new"@ =~= node + ":~/.cargo/bin/asmi.new"@);
    assert(node + ":"@ + "~/Library/LaunchAgents/"@ =~= node + ":~/Library/LaunchAgents/"@);
}

/// The time that a daemon has run is told in hours and minutes, or in minutes
/// and seconds where it is less than an hour.
pub proof fn uptime_adds_up(h: nat, m: nat, s: nat)
    requires
        m < 60,
        s < 60,
    ensures
        h > 0 ==> uptime_text(h * 3600 + m * 60 + s) == text::dec(h) + "h"@ + two_digits(m) + "m"@,
        uptime_text(m * 60 + s) == text::dec(m) + "m"@ + two_digits(s) + "s"@,
        two_digits(m).len() == 2,
{
    let t = h * 3600 + m * 60 + s;
    assert(t / 3600 == h && t % 3600 == m * 60 + s) by (nonlinear_arith)
        requires
            t == h * 3600 + m * 60 + s,
            m < 60,
            s < 60,
    ;
    let u = m * 60 + s;
    assert(u / 60 == m && u % 60 == s) by (nonlinear_arith)
        requires
            u == m * 60 + s,
            s < 60,
    ;
    assert(u / 3600 == 0 && u % 3600 == u);
    reveal_strlit("0");
    if m >= 10 {
        assert(text::dec(m) == text::dec(m / 10).push(text::digit_char(m % 10)));
        assert(text::dec(m / 10).len() == 1);
    }
}

/// What is shown of a process is the last part of the model that it serves, or
/// else of the one that it was started with, and its port.
pub proof fn process_shows_its_model(
    dir: Seq<char>,
    name: Seq<char>,
    other: Option<Seq<char>>,
    port: u16,
    backend: Option<Seq<char>>,
)
    requires
        !name.contains('/'),
    ensures
        process_text(
            ShownView {
                served: Some(dir + seq!['/'] + name),
                model: other,
                port: Some(port),
                backend,
            },
        ) == name + ":"@ + text::dec(port as nat) + " "@ + backend_text(backend),
        process_text(
            ShownView {
                served: None,
                model: Some(dir + seq!['/'] + name),
                port: Some(port),
                backend,
            },
        ) == name + ":"@ + text::dec(port as nat) + " "@ + backend_text(backend),
{
    text::piece_behind_last(dir, '/', name);
    assert(name + (":"@ + text::dec(port as nat)) =~= name + ":"@ + text::dec(port as nat));
}

/// The state of a device is noted on the links over its interface, and on no
/// other.
pub proof fn state_is_noted_on_its_links(
    link: RdmaLinkView,
    interface: Seq<char>,
    device: Seq<char>,
    state: Seq<char>,
)
    ensures
        link.local_interface == interface ==> correlated(link, interface, device, state) == (
        RdmaLinkView { rdma_device: Some(device), port_state: Some(state), ..link }),
        link.local_interface != interface ==> correlated(link, interface, device, state) == link,
{
}

/// The processes of a node are shown one behind the other, and a node without
/// any shows a mark.
pub proof fn every_process_is_shown(ps: Seq<ShownView>, p: ShownView)
    ensures
        processes_text(seq![p]) == process_text(p),
        ps.len() > 0 ==> processes_text(ps.push(p)) == processes_text(ps) + ", "@ + process_text(p),
        processes_text(Seq::empty()) == "--"@,
{
    let f = |x: ShownView| process_text(x);
    assert(seq![p].map_values(f) =~= seq![process_text(p)]);
    assert(ps.push(p).map_values(f).drop_last() =~= ps.map_values(f));
    assert(ps.push(p).map_values(f).last() == process_text(p));
}

/// The program beside this one is deployed before one above it, and that before
/// one on the path.
pub proof fn nearest_release_comes_first(dir: Seq<char>, above: Seq<char>, on_path: Seq<char>)
    ensures
        ({
            let p = release_places(Some(dir), Some(above), Some(on_path));
            &&& p.len() == 3
            &&& p.take(1) == release_places(Some(dir), None, None)
            &&& p.skip(1).take(1) == release_places(None, Some(above), None)
            &&& p.skip(2) == release_places(None, None, Some(on_path))
            &&& p[0] == serve::path_below(dir, "asmi"@)
            &&& p[2] == text::trimmed(on_path)
        }),
        release_places(None, None, None).len() == 0,
{
    let p = release_places(Some(dir), Some(above), Some(on_path));
    assert(p.take(1) =~= release_places(Some(dir), None, None));
    assert(p.skip(1).take(1) =~= release_places(None, Some(above), None));
    assert(p.skip(2) =~= release_places(None, None, Some(on_path)));
}

} // verus!
