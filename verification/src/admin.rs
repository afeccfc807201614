//! Requests about the node itself: who may make them, ending processes,
//! finding listeners and logs, and the service of Hermes.

use crate::api;
use crate::api::{ApiError, ApiErrorView};
use crate::json;
use crate::scan;
use crate::scan::LineReader;
use crate::text;
use crate::topology;
use vstd::prelude::*;
use vstd::string::*;

verus! {

// ---------------------------------------------------------------------------
// Who may ask
// ---------------------------------------------------------------------------

/// The address of a peer.
#[derive(Debug, Clone, Copy)]
pub enum PeerIp {
    V4(u8, u8, u8, u8),
    V6 { loopback: bool },
}

/// The address is one of the node itself.
pub open spec fn is_loopback(ip: PeerIp) -> bool {
    match ip {
        PeerIp::V4(a, _, _, _) => a == 127,
        PeerIp::V6 { loopback } => loopback,
    }
}

/// The address is one that Tailscale gives to its members: it lies between
/// `100.64.0.0` and `100.127.255.255`.
pub open spec fn is_tailscale(ip: PeerIp) -> bool {
    ip matches PeerIp::V4(a, b, _, _) && a == 100 && 64 <= b <= 127
}

impl PeerIp {
    /// Whether a peer may change the node: only the node itself may.
    pub fn is_local(&self) -> (r: bool)
        ensures
            r == is_loopback(*self),
    {
        match self {
            PeerIp::V4(a, _, _, _) => *a == 127,
            PeerIp::V6 { loopback } => *loopback,
        }
    }

    /// Whether a peer may change Hermes: the node itself and the members of
    /// its Tailscale network may.
    pub fn is_trusted_peer(&self) -> (r: bool)
        ensures
            r == (is_loopback(*self) || is_tailscale(*self)),
    {
        if self.is_local() {
            return true;
        }
        match self {
            PeerIp::V4(a, b, _, _) => *a == 100 && 64 <= *b && *b <= 127,
            PeerIp::V6 { loopback: _ } => false,
        }
    }
}

// ---------------------------------------------------------------------------
// Ending processes
// ---------------------------------------------------------------------------

/// A signal that ends a process.
#[derive(Debug, Clone, Copy, PartialEq, Eq, Structural)]
pub enum EndSignal {
    Term,
    Kill,
}

impl EndSignal {
    /// The name of the signal.
    pub open spec fn label(self) -> Seq<char> {
        match self {
            EndSignal::Term => "TERM"@,
            EndSignal::Kill => "KILL"@,
        }
    }

    /// The name of the signal.
    pub fn name(&self) -> (r: &'static str)
        ensures
            r@ == self.label(),
    {
        match self {
            EndSignal::Term => "TERM",
            EndSignal::Kill => "KILL",
        }
    }
}

/// The signal that a word in small letters stands for.
pub open spec fn signal_for(word: Seq<char>) -> Option<EndSignal> {
    if word == "term"@ || word == "sigterm"@ || word == "15"@ {
        Some(EndSignal::Term)
    } else if word == "kill"@ || word == "sigkill"@ || word == "9"@ {
        Some(EndSignal::Kill)
    } else {
        None
    }
}

/// What is said of a signal that is not known.
pub open spec fn unknown_signal(word: Seq<char>) -> Seq<char> {
    "unsupported signal: "@ + word + " (use 'term' or 'kill')"@
}

/// Whether a process may be ended with the signal that a word in small
/// letters stands for: neither those of the system nor the daemon itself may.
pub fn judge_kill(pid: u32, own_pid: u32, word: &str) -> (r: Result<EndSignal, ApiError>)
    ensures
        if pid == 0 || pid == 1 {
            r matches Err(e) && e.deep_view() == ApiErrorView::BadRequest(
                "refusing to kill PID "@ + text::dec(pid as nat) + " (system process)"@,
            )
        } else if pid == own_pid {
            r matches Err(e) && e.deep_view() == ApiErrorView::BadRequest(
                "refusing to kill the asmi daemon itself"@,
            )
        } else {
            match signal_for(word@) {
                Some(s) => r == Ok::<EndSignal, ApiError>(s),
                None => r matches Err(e) && e.deep_view() == ApiErrorView::BadRequest(
                    unknown_signal(word@),
                ),
            }
        },
{
    if pid == 0 || pid == 1 {
        let mut s: String = text::glue("refusing to kill PID ", &text::decimal(pid as u64));
        s.append(" (system process)");
        return Err(ApiError::BadRequest(s));
    }
    if pid == own_pid {
        return Err(api::bad_request("refusing to kill the asmi daemon itself"));
    }
    if text::same(word, "term") || text::same(word, "sigterm") || text::same(word, "15") {
        Ok(EndSignal::Term)
    } else if text::same(word, "kill") || text::same(word, "sigkill") || text::same(word, "9") {
        Ok(EndSignal::Kill)
    } else {
        let mut s: String = text::glue("unsupported signal: ", word);
        s.append(" (use 'term' or 'kill')");
        Err(ApiError::BadRequest(s))
    }
}

/// Whether a process may be ended with a signal, in letters of any case.
pub fn check_kill(pid: u32, own_pid: u32, signal: &str) -> (r: Result<EndSignal, ApiError>)
    ensures
        if pid == 0 || pid == 1 {
            r matches Err(e) && e.deep_view() == ApiErrorView::BadRequest(
                "refusing to kill PID "@ + text::dec(pid as nat) + " (system process)"@,
            )
        } else if pid == own_pid {
            r matches Err(e) && e.deep_view() == ApiErrorView::BadRequest(
                "refusing to kill the asmi daemon itself"@,
            )
        } else {
            match signal_for(text::lowercase(signal@)) {
                Some(s) => r == Ok::<EndSignal, ApiError>(s),
                None => r matches Err(e) && e.deep_view() == ApiErrorView::BadRequest(
                    unknown_signal(text::lowercase(signal@)),
                ),
            }
        },
{
    judge_kill(pid, own_pid, &text::to_lowercase(signal))
}

/// The node on which a process is ended: this one where none is named.
pub fn kill_node(node: &Option<String>) -> (r: String)
    ensures
        r@ == (match node.deep_view() {
            Some(n) => n,
            None => "local"@,
        }),
{
    match node {
        Some(n) => text::own(n),
        None => text::own("local"),
    }
}

/// Whether a process is to be ended on this node.
pub fn kills_here(node: &str, hostname: &str) -> (r: bool)
    ensures
        r == (node@ == "local"@ || node@ == hostname@),
{
    text::same(node, "local") || text::same(node, hostname)
}

/// The command that ends a process on another node.
pub fn kill_command(signal: EndSignal, pid: u32) -> (r: String)
    ensures
        r@ == "kill -"@ + signal.label() + " "@ + text::dec(pid as nat),
{
    let mut s: String = text::glue("kill -", signal.name());
    s.append(" ");
    s.append(&text::decimal(pid as u64));
    s
}

// ---------------------------------------------------------------------------
// Listeners
// ---------------------------------------------------------------------------

/// The process in the output of `lsof -t`: none where the output is empty,
/// zero where its first line is no number.
pub open spec fn listener_pid(output: Seq<char>) -> Option<nat> {
    let t = text::trimmed(output);
    let ls = text::lines_of(t);
    if t.len() == 0 {
        None
    } else if ls.len() > 0 {
        match text::unsigned(text::trimmed(ls[0]), u32::MAX as nat) {
            Some(n) => Some(n),
            None => Some(0),
        }
    } else {
        Some(0)
    }
}

/// The process that listens on a port, by the output of `lsof -t`.
pub fn read_listener(output: &str) -> (r: Option<u32>)
    ensures
        r is Some <==> listener_pid(output@) is Some,
        r matches Some(n) ==> listener_pid(output@) == Some(n as nat),
{
    let t: String = text::trim(output);
    if t.as_str().is_empty() {
        return None;
    }
    let ls: Vec<String> = text::lines(&t);
    assert(ls.deep_view().len() == ls@.len());
    if ls.len() > 0 {
        assert(ls.deep_view()[0] == ls@[0]@);
        match text::parse_u32(&text::trim(&ls[0])) {
            Some(n) => Some(n),
            None => Some(0),
        }
    } else {
        Some(0)
    }
}

/// What `ps` says of a process.
#[derive(Debug)]
pub struct ProcessLine {
    /// The share of the processor, as it is written; none counts as zero.
    pub cpu: Option<String>,
    pub rss_mb: u64,
    pub name: String,
}

/// What `ps` says of a process, with its texts.
pub struct ProcessLineView {
    pub cpu: Option<Seq<char>>,
    pub rss_mb: nat,
    pub name: Seq<char>,
}

/// What the last line of `ps -o pid,pcpu,rss,comm=` says of a process.
pub open spec fn process_line(output: Option<Seq<char>>) -> ProcessLineView {
    let unknown = ProcessLineView { cpu: None, rss_mb: 0, name: "unknown"@ };
    match output {
        None => unknown,
        Some(out) => {
            let ls = text::lines_of(text::trimmed(out));
            let w = if ls.len() > 0 {
                text::words_of(ls.last())
            } else {
                text::words_of(Seq::empty())
            };
            if w.len() >= 4 {
                ProcessLineView {
                    cpu: Some(w[1]),
                    rss_mb: (match text::unsigned(w[2], u64::MAX as nat) {
                        Some(kb) => kb,
                        None => 0,
                    }) / 1024,
                    name: text::joined(w.skip(3), " "@),
                }
            } else {
                unknown
            }
        },
    }
}

/// What the output of `ps` says of a process.
pub fn read_process_line(output: &Option<String>) -> (r: ProcessLine)
    ensures
        r.cpu.deep_view() == process_line(output.deep_view()).cpu,
        r.rss_mb == process_line(output.deep_view()).rss_mb,
        r.name@ == process_line(output.deep_view()).name,
{
    if let Some(out) = output {
        let ls: Vec<String> = text::lines(&text::trim(out));
        assert(ls.deep_view().len() == ls@.len());
        let w: Vec<String> = if ls.len() > 0 {
            assert(ls.deep_view().last() == ls@.last()@);
            text::words(&ls[ls.len() - 1])
        } else {
            proof {
                reveal_strlit("");
                assert(""@ =~= Seq::<char>::empty());
            }
            text::words("")
        };
        assert(w.deep_view().len() == w@.len());
        if w.len() >= 4 {
            assert(w.deep_view()[1] == w@[1]@);
            assert(w.deep_view()[2] == w@[2]@);
            let kb: u64 = match text::parse_unsigned(&w[2], u64::MAX) {
                Some(n) => n,
                None => 0,
            };
            let name_words: Vec<String> = topology::copy_range(&w, 3, w.len());
            assert(name_words.deep_view() =~= w.deep_view().skip(3));
            return ProcessLine {
                cpu: Some(text::own(&w[1])),
                rss_mb: kb / 1024,
                name: text::join(&name_words, " "),
            };
        }
    }
    ProcessLine { cpu: None, rss_mb: 0, name: text::own("unknown") }
}

// ---------------------------------------------------------------------------
// Logs
// ---------------------------------------------------------------------------

/// The log that goes under a name.
pub open spec fn log_path(name: Seq<char>) -> Option<Seq<char>> {
    if name == "mlx-server"@ || name == "mlx_lm"@ {
        Some("/tmp/r1o-mlx_lm-server.log"@)
    } else if name == "mlx-vlm"@ || name == "mlx_vlm"@ {
        Some("/tmp/r1o-mlx_vlm-server.log"@)
    } else if name == "vllm"@ || name == "vllm_mlx"@ {
        Some("/tmp/r1o-vllm_mlx-server.log"@)
    } else if name == "asmi"@ || name == "daemon"@ {
        Some("~/Library/Logs/asmi-daemon.log"@)
    } else {
        None
    }
}

/// The log that is asked for, with the home directory in place of a tilde.
pub fn find_log(name: &str, home: &str) -> (r: Result<String, ApiError>)
    ensures
        match log_path(name@) {
            Some(p) => r matches Ok(path) && path@ == text::joined(
                text::split_on(p, '~'),
                home@,
            ),
            None => r matches Err(e) && e.deep_view() == ApiErrorView::BadRequest(
                "unknown log name: "@ + name@ + " (known: mlx-server, mlx-vlm, vllm, asmi)"@,
            ),
        },
{
    let path: &str = if text::same(name, "mlx-server") || text::same(name, "mlx_lm") {
        "/tmp/r1o-mlx_lm-server.log"
    } else if text::same(name, "mlx-vlm") || text::same(name, "mlx_vlm") {
        "/tmp/r1o-mlx_vlm-server.log"
    } else if text::same(name, "vllm") || text::same(name, "vllm_mlx") {
        "/tmp/r1o-vllm_mlx-server.log"
    } else if text::same(name, "asmi") || text::same(name, "daemon") {
        "~/Library/Logs/asmi-daemon.log"
    } else {
        let mut s: String = text::glue("unknown log name: ", name);
        s.append(" (known: mlx-server, mlx-vlm, vllm, asmi)");
        return Err(ApiError::BadRequest(s));
    };
    Ok(text::replace_char(path, '~', home))
}

/// The number of lines that are shown: fifty unless another number is asked
/// for, and no more than five hundred.
pub open spec fn wanted_lines(asked: Option<Seq<char>>) -> nat {
    let n = match asked {
        Some(a) => match text::unsigned(a, u64::MAX as nat) {
            Some(n) => n,
            None => 50,
        },
        None => 50,
    };
    if n < 500 {
        n
    } else {
        500
    }
}

/// The number of lines that are shown.
pub fn line_count(asked: &Option<String>) -> (r: usize)
    ensures
        r == wanted_lines(asked.deep_view()),
{
    let n: u64 = match asked {
        Some(a) => match text::parse_unsigned(a, u64::MAX) {
            Some(n) => n,
            None => 50,
        },
        None => 50,
    };
    if n < 500 {
        n as usize
    } else {
        500
    }
}

/// The last lines of a log, and how many it has.
pub fn tail(content: &str, lines: usize) -> (r: (Vec<String>, usize))
    ensures
        r.0.deep_view() == (if text::lines_of(content@).len() > lines {
            text::lines_of(content@).skip(text::lines_of(content@).len() - lines)
        } else {
            text::lines_of(content@)
        }),
        r.1 == text::lines_of(content@).len(),
{
    let all: Vec<String> = text::lines(content);
    let n: usize = all.len();
    assert(all.deep_view().len() == all@.len());
    if n > lines {
        let t: Vec<String> = topology::copy_range(&all, n - lines, n);
        assert(t.deep_view() =~= all.deep_view().skip(n - lines));
        (t, n)
    } else {
        (all, n)
    }
}

// ---------------------------------------------------------------------------
// Hermes
// ---------------------------------------------------------------------------

/// The port of Hermes.
pub const HERMES_PORT: u16 = 41104;

/// How long Hermes may take to come back, in milliseconds.
pub const HERMES_TIMEOUT_MS: u64 = 15_000;

/// Reads the label of the service that runs the models from `launchctl list`.
pub struct ModelLabel;

impl LineReader for ModelLabel {
    type Item = String;

    open spec fn item(&self, line: Seq<char>) -> Option<Seq<char>> {
        let parts = text::split_on(line, '\t');
        if parts.len() < 3 {
            None
        } else {
            let label = text::trimmed(parts[2]);
            if label == "com.r1o.dflash-retriever"@ || label == "com.r1o.mlx-lm"@ || label
                == "com.r1o.mlx-vlm"@ {
                Some(label)
            } else {
                None
            }
        }
    }

    fn read(&self, line: &str) -> (r: Option<String>) {
        let parts: Vec<String> = text::split(line, '\t');
        assert(parts.deep_view().len() == parts@.len());
        if parts.len() < 3 {
            return None;
        }
        assert(parts.deep_view()[2] == parts@[2]@);
        let label: String = text::trim(&parts[2]);
        if text::same(&label, "com.r1o.dflash-retriever") || text::same(&label, "com.r1o.mlx-lm")
            || text::same(&label, "com.r1o.mlx-vlm") {
            Some(label)
        } else {
            None
        }
    }
}

/// The document about its health with which Hermes answers.
pub fn read_hermes(body: &str) -> (r: Result<serde_json::Value, ApiError>)
    ensures
        match json::json_read(body@) {
            Ok(v) => r == Ok::<serde_json::Value, ApiError>(v),
            Err(why) => r matches Err(e) && e.deep_view() == ApiErrorView::Internal(
                "hermes /health not JSON: "@ + why,
            ),
        },
{
    match json::read(body) {
        Ok(v) => Ok(v),
        Err(why) => Err(api::internal(&text::glue("hermes /health not JSON: ", &why))),
    }
}

/// The label that the settings of the cluster name.
pub open spec fn configured_label(settings: Option<Seq<char>>) -> Option<Seq<char>> {
    match settings {
        Some(s) => match json::json_of(s) {
            Some(v) => match json::text_at(v, "mlx_label"@) {
                Some(l) => if l.len() > 0 {
                    Some(l)
                } else {
                    None
                },
                None => None,
            },
            None => None,
        },
        None => None,
    }
}

/// The label that the settings of the cluster name.
pub fn read_configured_label(settings: &Option<String>) -> (r: Option<String>)
    ensures
        r.deep_view() == configured_label(settings.deep_view()),
{
    if let Some(s) = settings {
        if let Some(v) = json::parse(s) {
            if let Some(l) = json::member_text(&v, "mlx_label") {
                if !l.as_str().is_empty() {
                    return Some(l);
                }
            }
        }
    }
    None
}

/// The label of the service that runs the models: the one that was
/// configured, else the first known one in the output of `launchctl list`,
/// if that could be run.
pub fn choose_label(configured: Option<String>, listed: &Option<String>) -> (r: Option<String>)
    ensures
        r.deep_view() == (match configured.deep_view() {
            Some(l) => Some(l),
            None => match listed.deep_view() {
                Some(out) => scan::first_in(ModelLabel, text::lines_of(out)),
                None => None,
            },
        }),
{
    match configured {
        Some(l) => Some(l),
        None => match listed {
            Some(out) => scan::read_first(&ModelLabel, out),
            None => None,
        },
    }
}

/// The label of the service that runs the models, given the settings of the
/// cluster and the output of `launchctl list`.
pub fn resolve_mlx_label(settings: &Option<String>, listed: &Option<String>) -> (r: Option<String>)
    ensures
        r.deep_view() == (match configured_label(settings.deep_view()) {
            Some(l) => Some(l),
            None => match listed.deep_view() {
                Some(out) => scan::first_in(ModelLabel, text::lines_of(out)),
                None => None,
            },
        }),
{
    choose_label(read_configured_label(settings), listed)
}

/// Where Hermes is asked whether it is there.
pub fn hermes_url(path: &str) -> (r: String)
    ensures
        r@ == "http://localhost:"@ + text::dec(HERMES_PORT as nat) + path@,
{
    let mut s: String = text::glue("http://localhost:", &text::decimal(HERMES_PORT as u64));
    s.append(path);
    s
}

/// What is said where Hermes does not come back.
pub open spec fn hermes_silent() -> Seq<char> {
    "hermes-api did not respond on :"@ + text::dec(HERMES_PORT as nat) + " within "@ + text::dec(
        (HERMES_TIMEOUT_MS / 1000) as nat,
    ) + "s after enable"@
}

/// Whether the wait for Hermes is over, so long after it began, and what is
/// said then.
pub fn hermes_overdue(elapsed_ms: u64) -> (r: Option<String>)
    ensures
        r.deep_view() == (if elapsed_ms > HERMES_TIMEOUT_MS {
            Some(hermes_silent())
        } else {
            None
        }),
{
    if elapsed_ms > HERMES_TIMEOUT_MS {
        let mut s: String = text::glue(
            "hermes-api did not respond on :",
            &text::decimal(HERMES_PORT as u64),
        );
        s.append(" within ");
        s.append(&text::decimal(HERMES_TIMEOUT_MS / 1000));
        s.append("s after enable");
        Some(s)
    } else {
        None
    }
}

// ---------------------------------------------------------------------------
// Laws of the administration
// ---------------------------------------------------------------------------

/// A peer is trusted on the machine itself and in the shared network, whose
/// addresses are `100.64.0.0` to `100.127.255.255`; nobody else is.
pub proof fn strangers_are_not_trusted(a: u8, b: u8, c: u8, d: u8)
    ensures
        is_loopback(PeerIp::V4(127, b, c, d)),
        is_loopback(PeerIp::V6 { loopback: true }),
        !is_loopback(PeerIp::V6 { loopback: false }),
        a != 127 ==> !is_loopback(PeerIp::V4(a, b, c, d)),
        64 <= b <= 127 ==> is_tailscale(PeerIp::V4(100, b, c, d)),
        b < 64 || b > 127 ==> !is_tailscale(PeerIp::V4(100, b, c, d)),
        a != 100 ==> !is_tailscale(PeerIp::V4(a, b, c, d)),
        !is_tailscale(PeerIp::V6 { loopback: false }),
{
}

/// A signal is known by its name, by its name with `sig` before it and by its
/// number, and a word that is none of these is none.
#[verifier::rlimit(60)]
pub proof fn words_stand_for_signals(word: Seq<char>)
    ensures
        signal_for("term"@) == Some(EndSignal::Term),
        signal_for("sig"@ + "term"@) == Some(EndSignal::Term),
        signal_for(text::dec(15)) == Some(EndSignal::Term),
        signal_for("kill"@) == Some(EndSignal::Kill),
        signal_for("sig"@ + "kill"@) == Some(EndSignal::Kill),
        signal_for(text::dec(9)) == Some(EndSignal::Kill),
        signal_for(word) is Some ==> {
            ||| word == "term"@
            ||| word == "kill"@
            ||| word == "sigterm"@
            ||| word == "sigkill"@
            ||| word == "15"@
            ||| word == "9"@
        },
{
    reveal_strlit("sig");
    reveal_strlit("term");
    reveal_strlit("kill");
    reveal_strlit("sigterm");
    reveal_strlit("sigkill");
    reveal_strlit("15");
    reveal_strlit("9");
    assert("sig"@ + "term"@ =~= "sigterm"@);
    assert("sig"@ + "kill"@ =~= "sigkill"@);
    reveal_with_fuel(text::dec, 3);
    assert(text::dec(15) =~= "15"@);
    assert(text::dec(9) =~= "9"@);
    assert("kill"@[0] == 'k' && "sigkill"@[3] == 'k' && "9"@[0] == '9');
    assert("term"@[0] == 't' && "sigterm"@[3] == 't' && "15"@[0] == '1');
}

/// The listener is the process whose number stands on the first line.
pub proof fn listener_stands_on_the_first_line(n: nat, rest: Seq<char>)
    requires
        n <= u32::MAX,
        rest.len() > 0 ==> !text::is_space(rest.last()),
    ensures
        listener_pid(text::dec(n) + seq!['\n'] + rest) == Some(n),
        listener_pid(text::dec(n)) == Some(n),
        listener_pid(Seq::empty()) is None,
{
    let d = text::dec(n);
    text::decimal_reads_back(n);
    text::numeral_round_trip(n, u32::MAX as nat);
    text::digits_hold_no(n, '\n');
    text::digits_hold_no(n, '\r');
    assert(text::is_digit(d[0]));
    assert(text::is_digit(d.last()));
    assert(d.contains(d.last()));
    text::inner_text_comes_back(Seq::empty(), d, Seq::empty());
    assert(Seq::<char>::empty() + d + Seq::<char>::empty() =~= d);
    text::lines_come_one_by_one(d, rest);
    let all = d + seq!['\n'] + rest;
    if rest.len() > 0 {
        assert(all[0] == d[0]);
        assert(all.last() == rest.last());
        text::inner_text_comes_back(Seq::empty(), all, Seq::empty());
        assert(Seq::<char>::empty() + all + Seq::<char>::empty() =~= all);
        assert(text::lines_of(all)[0] == d);
    } else {
        text::inner_text_comes_back(Seq::empty(), d, seq!['\n']);
        assert(Seq::<char>::empty() + d + seq!['\n'] =~= all);
    }
    text::trim_takes_white_space(Seq::empty());
}

/// The last line tells of a process its share of the processor, its memory in
/// whole megabytes and its name, which is all that stands behind the two.
pub proof fn columns_tell_the_process(out: Seq<char>, pid: Seq<char>, cpu: Seq<char>, kb: nat, names: Seq<Seq<char>>)
    requires
        text::lines_of(text::trimmed(out)).len() > 0,
        text::words_of(text::lines_of(text::trimmed(out)).last()) == seq![pid, cpu, text::dec(kb)]
            + names,
        names.len() > 0,
        kb <= u64::MAX,
    ensures
        ({
            let p = process_line(Some(out));
            &&& p.cpu == Some(cpu)
            &&& p.rss_mb * 1024 <= kb < (p.rss_mb + 1) * 1024
            &&& p.name == text::joined(names, " "@)
        }),
        process_line(None).cpu is None,
        process_line(None).rss_mb == 0,
{
    let w = text::words_of(text::lines_of(text::trimmed(out)).last());
    text::numeral_round_trip(kb, u64::MAX as nat);
    assert(w[1] == cpu && w[2] == text::dec(kb));
    assert(w.skip(3) =~= names);
}

/// Two names of one server give its log, and logs of different servers differ.
#[verifier::rlimit(60)]
pub proof fn each_server_has_its_log()
    ensures
        log_path("mlx-server"@) == log_path("mlx_lm"@),
        log_path("mlx-vlm"@) == log_path("mlx_vlm"@),
        log_path("vllm"@) == log_path("vllm_mlx"@),
        log_path("asmi"@) == log_path("daemon"@),
        log_path("mlx_lm"@) matches Some(p) && text::has(p, "mlx_lm"@),
        log_path("mlx_vlm"@) matches Some(p) && text::has(p, "mlx_vlm"@),
        log_path("vllm_mlx"@) matches Some(p) && text::has(p, "vllm_mlx"@),
        log_path("asmi"@) matches Some(p) && text::has(p, "asmi-daemon"@),
{
    names_differ();
    reveal_strlit("mlx_lm");
    reveal_strlit("mlx_vlm");
    reveal_strlit("vllm_mlx");
    reveal_strlit("asmi-daemon");
    reveal_strlit("/tmp/r1o-mlx_lm-server.log");
    reveal_strlit("/tmp/r1o-mlx_vlm-server.log");
    reveal_strlit("/tmp/r1o-vllm_mlx-server.log");
    reveal_strlit("~/Library/Logs/asmi-daemon.log");
    assert("/tmp/r1o-mlx_lm-server.log"@.subrange(9, 15) =~= "mlx_lm"@);
    assert(text::occurs_at("/tmp/r1o-mlx_lm-server.log"@, "mlx_lm"@, 9));
    assert("/tmp/r1o-mlx_vlm-server.log"@.subrange(9, 16) =~= "mlx_vlm"@);
    assert(text::occurs_at("/tmp/r1o-mlx_vlm-server.log"@, "mlx_vlm"@, 9));
    assert("/tmp/r1o-vllm_mlx-server.log"@.subrange(9, 17) =~= "vllm_mlx"@);
    assert(text::occurs_at("/tmp/r1o-vllm_mlx-server.log"@, "vllm_mlx"@, 9));
    assert("~/Library/Logs/asmi-daemon.log"@.subrange(15, 26) =~= "asmi-daemon"@);
    assert(text::occurs_at("~/Library/Logs/asmi-daemon.log"@, "asmi-daemon"@, 15));
}

/// The names of the logs are different words.
#[verifier::rlimit(60)]
proof fn names_differ()
    ensures
        "mlx-vlm"@ != "mlx-server"@ && "mlx-vlm"@ != "mlx_lm"@,
        "mlx_vlm"@ != "mlx-server"@ && "mlx_vlm"@ != "mlx_lm"@,
        "vllm"@ != "mlx-server"@ && "vllm"@ != "mlx_lm"@ && "vllm"@ != "mlx-vlm"@ && "vllm"@
            != "mlx_vlm"@,
        "vllm_mlx"@ != "mlx-server"@ && "vllm_mlx"@ != "mlx_lm"@ && "vllm_mlx"@ != "mlx-vlm"@
            && "vllm_mlx"@ != "mlx_vlm"@,
        "asmi"@ != "mlx-server"@ && "asmi"@ != "mlx_lm"@ && "asmi"@ != "mlx-vlm"@ && "asmi"@
            != "mlx_vlm"@ && "asmi"@ != "vllm"@ && "asmi"@ != "vllm_mlx"@,
        "daemon"@ != "mlx-server"@ && "daemon"@ != "mlx_lm"@ && "daemon"@ != "mlx-vlm"@
            && "daemon"@ != "mlx_vlm"@ && "daemon"@ != "vllm"@ && "daemon"@ != "vllm_mlx"@,
{
    reveal_strlit("mlx-server");
    reveal_strlit("mlx_lm");
    reveal_strlit("mlx-vlm");
    reveal_strlit("mlx_vlm");
    reveal_strlit("vllm");
    reveal_strlit("vllm_mlx");
    reveal_strlit("asmi");
    reveal_strlit("daemon");
    assert("mlx-server"@[0] == 'm' && "mlx_lm"@[0] == 'm' && "mlx-vlm"@[0] == 'm'
        && "mlx_vlm"@[0] == 'm');
    assert("vllm"@[0] == 'v' && "vllm_mlx"@[0] == 'v' && "asmi"@[0] == 'a' && "daemon"@[0] == 'd');
    assert("mlx-server"@.len() == 10 && "mlx_lm"@.len() == 6 && "mlx-vlm"@.len() == 7
        && "mlx_vlm"@.len() == 7);
}

/// As many lines are shown as were asked for, but never more than five hundred,
/// and fifty where none or no number was asked for.
pub proof fn lines_are_shown_as_asked(n: nat, word: Seq<char>)
    requires
        n <= u64::MAX,
    ensures
        n <= 500 ==> wanted_lines(Some(text::dec(n))) == n,
        n > 500 ==> wanted_lines(Some(text::dec(n))) == 500,
        wanted_lines(None) == 50,
        text::unsigned(word, u64::MAX as nat) is None ==> wanted_lines(Some(word)) == 50,
{
    text::numeral_round_trip(n, u64::MAX as nat);
}

/// The service that runs the models is known by its label, which stands behind
/// the second tab.
pub proof fn label_stands_behind_the_second_tab(pid: Seq<char>, status: Seq<char>, label: Seq<char>)
    requires
        !pid.contains('\t'),
        !status.contains('\t'),
        !label.contains('\t'),
        label.len() > 0,
        !text::is_space(label[0]),
        !text::is_space(label.last()),
    ensures
        ({
            let found = ModelLabel.item(pid + seq!['\t'] + (status + seq!['\t'] + label));
            &&& label == "com.r1o.mlx-lm"@ ==> found == Some(label)
            &&& label == "com.r1o.mlx-vlm"@ ==> found == Some(label)
            &&& label == "com.r1o.dflash-retriever"@ ==> found == Some(label)
            &&& found is Some ==> found == Some(label)
        }),
{
    let back = status + seq!['\t'] + label;
    text::split_at_first(pid, '\t', back);
    text::split_at_first(status, '\t', label);
    text::split_at_first(label, '\t', Seq::empty());
    let parts = text::split_on(pid + seq!['\t'] + back, '\t');
    assert(parts =~= seq![pid, status, label]);
    text::inner_text_comes_back(Seq::empty(), label, Seq::empty());
    assert(Seq::<char>::empty() + label + Seq::<char>::empty() =~= label);
}

/// The label of the settings is used where it is not empty.
pub proof fn label_of_the_settings_is_used(s: Seq<char>, v: serde_json::Value, label: Seq<char>)
    ensures
        json::json_of(s) == Some(v) && json::text_at(v, "mlx_label"@) == Some(label) && label.len()
            > 0 ==> configured_label(Some(s)) == Some(label),
        configured_label(Some(s)) matches Some(l) ==> l.len() > 0,
        configured_label(None) is None,
{
}

} // verus!
