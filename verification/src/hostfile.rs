//! Hostfiles: which nodes take part in a distributed session, and how the
//! session is set up from them.

use crate::json;
use crate::serve;
use crate::text;
use vstd::prelude::*;
use vstd::string::*;

verus! {

/// A hostfile of `mlx.distributed_config`.
pub struct Hostfile {
    pub backend: String,
    pub envs: Vec<String>,
    pub hosts: Vec<HostEntry>,
}

/// A node in a hostfile.
pub struct HostEntry {
    pub ssh: String,
    pub ips: Vec<String>,
    pub rdma: Vec<Option<String>>,
}

/// What is read of a node: its name for `ssh` and its first address.
pub struct Host {
    pub ssh: Option<String>,
    pub ip: Option<String>,
}

/// The texts of what is read of a node.
pub struct HostView {
    pub ssh: Option<Seq<char>>,
    pub ip: Option<Seq<char>>,
}

impl DeepView for Host {
    type V = HostView;

    open spec fn deep_view(&self) -> HostView {
        HostView { ssh: self.ssh.deep_view(), ip: self.ip.deep_view() }
    }
}

/// What a JSON value says of a node.
pub open spec fn host_in(v: serde_json::Value) -> HostView {
    HostView { ssh: json::text_at(v, "ssh"@), ip: json::first_text_at(v, "ips"@) }
}

/// What the JSON values say of the nodes.
pub open spec fn hosts_in(items: Seq<serde_json::Value>) -> Seq<HostView> {
    items.map_values(|v: serde_json::Value| host_in(v))
}

/// Reads the nodes in a list of JSON values.
fn read_hosts(items: &Vec<serde_json::Value>) -> (r: Vec<Host>)
    ensures
        r.deep_view() == hosts_in(items@),
{
    let ghost want = hosts_in(items@);
    let mut out: Vec<Host> = Vec::new();
    let mut i: usize = 0;
    while i < items.len()
        invariant
            i <= items@.len(),
            want == hosts_in(items@),
            out.deep_view() == want.take(i as int),
        decreases items@.len() - i,
    {
        let h = Host {
            ssh: json::member_text(&items[i], "ssh"),
            ip: json::member_first_text(&items[i], "ips"),
        };
        text::push_item(&mut out, h);
        i = i + 1;
        assert(out.deep_view() =~= want.take(i as int));
    }
    assert(want.take(i as int) =~= want);
    out
}

/// The nodes of a hostfile that is a JSON object: those of its array `hosts`.
pub open spec fn object_hosts(content: Seq<char>) -> Option<Seq<HostView>> {
    match json::json_of(content) {
        Some(v) => match json::items_at(v, "hosts"@) {
            Some(items) => Some(hosts_in(items)),
            None => None,
        },
        None => None,
    }
}

/// The nodes of a hostfile that is a JSON array.
pub open spec fn array_hosts(content: Seq<char>) -> Option<Seq<HostView>> {
    match json::json_of(content) {
        Some(v) => match json::json_items(v) {
            Some(items) => Some(hosts_in(items)),
            None => None,
        },
        None => None,
    }
}

/// What came of reading a hostfile that is a JSON object.
pub enum HostfileRead {
    /// The text is no JSON document.
    NotJson,
    /// There is no array of hosts.
    NoHosts,
    /// The nodes and the backend that is named.
    Hosts(Vec<Host>, Option<String>),
}

/// Reads a hostfile as a JSON document, or says why it is none.
pub fn read_document(content: &str) -> (r: Result<serde_json::Value, String>)
    ensures
        match r {
            Ok(v) => json::json_read(content@) == Ok::<serde_json::Value, Seq<char>>(v),
            Err(e) => json::json_read(content@) == Err::<serde_json::Value, Seq<char>>(e@),
        },
{
    json::read(content)
}

/// The nodes and the backend that a hostfile which is a JSON object names, if
/// it has an array of hosts.
pub fn object_in(document: &serde_json::Value) -> (r: Option<(Vec<Host>, Option<String>)>)
    ensures
        match json::items_at(*document, "hosts"@) {
            Some(items) => r matches Some(p) && p.0.deep_view() == hosts_in(items)
                && p.1.deep_view() == json::text_at(*document, "backend"@),
            None => r is None,
        },
{
    match json::member_items(document, "hosts") {
        Some(items) => Some((read_hosts(items), json::member_text(document, "backend"))),
        None => None,
    }
}

/// The devices of the nodes of a hostfile which is a JSON object, as it writes
/// them: one row for each node, by rank, and none where the node has no
/// devices.
pub fn device_rows<'a>(document: &'a serde_json::Value) -> (r: Vec<Option<&'a serde_json::Value>>)
    ensures
        match json::items_at(*document, "hosts"@) {
            Some(items) => r@.len() == items.len() && forall|i: int|
                0 <= i < items.len() ==> (match #[trigger] r@[i] {
                    Some(row) => json::json_member(items[i], "rdma"@) == Some(*row),
                    None => json::json_member(items[i], "rdma"@) is None,
                }),
            None => r@.len() == 0,
        },
{
    let mut rows: Vec<Option<&'a serde_json::Value>> = Vec::new();
    if let Some(items) = json::member_items(document, "hosts") {
        let mut i: usize = 0;
        while i < items.len()
            invariant
                i <= items@.len(),
                rows@.len() == i,
                forall|k: int|
                    0 <= k < i ==> (match #[trigger] rows@[k] {
                        Some(row) => json::json_member(items@[k], "rdma"@) == Some(*row),
                        None => json::json_member(items@[k], "rdma"@) is None,
                    }),
            decreases items@.len() - i,
        {
            rows.push(json::member(&items[i], "rdma"));
            i = i + 1;
        }
    }
    rows
}

/// The devices of the nodes by rank, with an empty list for a node that has
/// none.
pub open spec fn device_lists(document: serde_json::Value) -> Seq<serde_json::Value> {
    match json::items_at(document, "hosts"@) {
        Some(items) => items.map_values(
            |h: serde_json::Value|
                match json::json_member(h, "rdma"@) {
                    Some(row) => row,
                    None => json::json_from_items(Seq::empty()),
                },
        ),
        None => Seq::empty(),
    }
}

/// The devices of the nodes of a hostfile as they are sent to every node of a
/// session: a JSON list of their rows, by rank.
pub fn write_devices(document: &serde_json::Value) -> (r: String)
    ensures
        r@ == json::json_list_text(device_lists(*document)),
{
    let nothing: Vec<serde_json::Value> = Vec::new();
    assert(nothing@ =~= Seq::<serde_json::Value>::empty());
    let none: serde_json::Value = json::from_items(nothing);
    let rows: Vec<Option<&serde_json::Value>> = device_rows(document);
    let mut lists: Vec<&serde_json::Value> = Vec::new();
    let mut i: usize = 0;
    while i < rows.len()
        invariant
            i <= rows@.len(),
            lists@.len() == i,
            forall|k: int|
                0 <= k < i ==> *(#[trigger] lists@[k]) == (match rows@[k] {
                    Some(row) => *row,
                    None => none,
                }),
        decreases rows@.len() - i,
    {
        match rows[i] {
            Some(row) => lists.push(row),
            None => lists.push(&none),
        }
        i = i + 1;
    }
    proof {
        let sent = lists@.map_values(|v: &serde_json::Value| *v);
        let want = device_lists(*document);
        assert(sent.len() == want.len());
        assert forall|k: int| 0 <= k < sent.len() implies sent[k] == want[k] by {
            assert(*lists@[k] == (match rows@[k] {
                Some(row) => *row,
                None => none,
            }));
        }
        assert(sent =~= want);
    }
    json::write_list(&lists)
}

/// Reads a hostfile that is a JSON object.
pub fn read_object(content: &str) -> (r: HostfileRead)
    ensures
        match r {
            HostfileRead::NotJson => json::json_of(content@) is None,
            HostfileRead::NoHosts => json::json_of(content@) is Some && object_hosts(
                content@,
            ) is None,
            HostfileRead::Hosts(hosts, backend) => object_hosts(content@) == Some(
                hosts.deep_view(),
            ) && json::json_of(content@) is Some && backend.deep_view() == json::text_at(
                json::json_of(content@)->0,
                "backend"@,
            ),
        },
{
    match json::parse(content) {
        None => HostfileRead::NotJson,
        Some(v) => match object_in(&v) {
            None => HostfileRead::NoHosts,
            Some((hosts, backend)) => HostfileRead::Hosts(hosts, backend),
        },
    }
}

// ---------------------------------------------------------------------------
// Peers
// ---------------------------------------------------------------------------

/// The host behind the `@` of a name for `ssh`.
pub open spec fn peer_of(ssh: Option<Seq<char>>) -> Option<Seq<char>> {
    match ssh {
        Some(s) => text::nth_piece(s, '@', 1),
        None => None,
    }
}

/// The peers among the nodes, without the local one.
pub open spec fn peers_among(hosts: Seq<HostView>, local: Seq<char>) -> Seq<Seq<char>>
    decreases hosts.len(),
{
    if hosts.len() == 0 {
        Seq::empty()
    } else {
        let rest = peers_among(hosts.drop_last(), local);
        match peer_of(hosts.last().ssh) {
            Some(h) => if h != local {
                rest.push(h)
            } else {
                rest
            },
            None => rest,
        }
    }
}

/// The peers among the nodes, without the local one.
pub fn peers(hosts: &Vec<Host>, local: &str) -> (r: Vec<String>)
    ensures
        r.deep_view() == peers_among(hosts.deep_view(), local@),
{
    let ghost hs = hosts.deep_view();
    let mut out: Vec<String> = Vec::new();
    let mut i: usize = 0;
    assert(out.deep_view() =~= peers_among(hs.take(0), local@));
    while i < hosts.len()
        invariant
            i <= hosts@.len(),
            hs == hosts.deep_view(),
            out.deep_view() == peers_among(hs.take(i as int), local@),
        decreases hosts@.len() - i,
    {
        proof {
            assert(hs.take(i + 1).drop_last() =~= hs.take(i as int));
            assert(hs.take(i + 1).last() == hosts@[i as int].deep_view());
        }
        if let Some(ssh) = &hosts[i].ssh {
            if let Some(h) = text::piece(ssh, '@', 1) {
                if !text::same(&h, local) {
                    text::push_text(&mut out, h);
                }
            }
        }
        i = i + 1;
    }
    assert(hs.take(i as int) =~= hs);
    out
}

/// The peers in a hostfile that is a JSON array, without the local node; none
/// where it is not such an array.
pub fn parse_hostfile_peers(content: &str, local_hostname: &str) -> (r: Vec<String>)
    ensures
        r.deep_view() == (match array_hosts(content@) {
            Some(hosts) => peers_among(hosts, local_hostname@),
            None => Seq::empty(),
        }),
{
    let none: Vec<String> = Vec::new();
    assert(none.deep_view() =~= Seq::<Seq<char>>::empty());
    match json::parse(content) {
        None => none,
        Some(v) => match json::as_items(&v) {
            None => none,
            Some(items) => peers(&read_hosts(items), local_hostname),
        },
    }
}

/// The local node is never its own peer.
pub proof fn local_node_is_no_peer(hosts: Seq<HostView>, local: Seq<char>)
    ensures
        !peers_among(hosts, local).contains(local),
    decreases hosts.len(),
{
    if hosts.len() > 0 {
        local_node_is_no_peer(hosts.drop_last(), local);
        let rest = peers_among(hosts.drop_last(), local);
        let now = peers_among(hosts, local);
        if now.contains(local) {
            let m = choose|m: int| 0 <= m < now.len() && now[m] == local;
            if m < rest.len() {
                assert(rest[m] == local);
            }
        }
    }
}

/// The name of a node, or the word for a node without one.
pub open spec fn name_or_unknown(h: HostView) -> Seq<char> {
    match h.ssh {
        Some(s) => s,
        None => "unknown"@,
    }
}

/// The names of the nodes.
pub fn host_names(hosts: &Vec<Host>) -> (r: Vec<String>)
    ensures
        r.deep_view() == hosts.deep_view().map_values(|h: HostView| name_or_unknown(h)),
{
    let ghost want = hosts.deep_view().map_values(|h: HostView| name_or_unknown(h));
    let mut out: Vec<String> = Vec::new();
    let mut i: usize = 0;
    while i < hosts.len()
        invariant
            i <= hosts@.len(),
            want == hosts.deep_view().map_values(|h: HostView| name_or_unknown(h)),
            out.deep_view() == want.take(i as int),
        decreases hosts@.len() - i,
    {
        assert(hosts.deep_view()[i as int] == hosts@[i as int].deep_view());
        text::push_text(&mut out, rank_name(&hosts[i]));
        i = i + 1;
        assert(out.deep_view() =~= want.take(i as int));
    }
    assert(want.take(i as int) =~= want);
    out
}

/// The hosts of a hostfile that are asked whether they are alive, or why none
/// is: the file could not be read, or is no JSON document. A file without
/// hosts gives none.
pub open spec fn hosts_asked(content: Result<Seq<char>, Seq<char>>) -> Result<
    Seq<Seq<char>>,
    Seq<char>,
> {
    match content {
        Err(e) => Err("unreadable hostfile: "@ + e),
        Ok(t) => match json::json_read(t) {
            Err(e) => Err("invalid hostfile json: "@ + e),
            Ok(_) => match object_hosts(t) {
                Some(hosts) => Ok(hosts.map_values(|h: HostView| name_or_unknown(h))),
                None => Ok(Seq::empty()),
            },
        },
    }
}

/// Reads the hosts that are asked whether they are alive, given what the file
/// holds or why it could not be read.
pub fn hosts_to_ask(content: &Result<String, String>) -> (r: Result<Vec<String>, String>)
    ensures
        match r {
            Ok(names) => hosts_asked(read_words(*content)) == Ok::<Seq<Seq<char>>, Seq<char>>(
                names.deep_view(),
            ),
            Err(why) => hosts_asked(read_words(*content)) == Err::<Seq<Seq<char>>, Seq<char>>(
                why@,
            ),
        },
{
    match content {
        Err(e) => Err(text::glue("unreadable hostfile: ", e)),
        Ok(t) => match json::read(t) {
            Err(e) => Err(text::glue("invalid hostfile json: ", &e)),
            Ok(v) => match json::member_items(&v, "hosts") {
                Some(items) => Ok(host_names(&read_hosts(items))),
                None => {
                    let none: Vec<String> = Vec::new();
                    assert(none.deep_view() =~= Seq::<Seq<char>>::empty());
                    Ok(none)
                },
            },
        },
    }
}

/// The texts of what was read, or of why nothing was.
pub open spec fn read_words(content: Result<String, String>) -> Result<Seq<char>, Seq<char>> {
    match content {
        Ok(t) => Ok(t@),
        Err(e) => Err(e@),
    }
}

/// What makes a hostfile count as dead, given which of its hosts answered:
/// nothing where all did.
pub open spec fn why_dead(content: Result<Seq<char>, Seq<char>>, alive: Seq<bool>) -> Seq<
    Seq<char>,
> {
    match hosts_asked(content) {
        Err(why) => seq![why],
        Ok(names) => serve::hosts_verdict(names, alive),
    }
}

/// Judges a hostfile: it is alive where it can be read, names hosts, and every
/// host answered, in the order in which they stand in it. Else the reasons are
/// given: the hosts that did not answer, or why none was asked.
pub fn judge_hostfile(content: &Result<String, String>, alive: &Vec<bool>) -> (r: Result<
    (),
    Vec<String>,
>)
    ensures
        r is Ok <==> why_dead(read_words(*content), alive@).len() == 0,
        r matches Err(why) ==> why.deep_view() == why_dead(read_words(*content), alive@),
{
    match hosts_to_ask(content) {
        Ok(names) => serve::judge_hosts(&names, alive),
        Err(e) => {
            let mut why: Vec<String> = Vec::new();
            text::push_text(&mut why, e);
            assert(why.deep_view() =~= why_dead(read_words(*content), alive@));
            Err(why)
        },
    }
}

/// An unreadable hostfile, or one that is no JSON document, is dead whatever
/// answered.
pub proof fn unreadable_is_dead(content: Result<Seq<char>, Seq<char>>, alive: Seq<bool>)
    requires
        content matches Ok(t) ==> json::json_of(t) is None,
    ensures
        why_dead(content, alive).len() == 1,
{
}

/// The name of a node, or the word for a node without one.
fn rank_name(h: &Host) -> (r: String)
    ensures
        r@ == name_or_unknown(h.deep_view()),
{
    match &h.ssh {
        Some(s) => text::own(s),
        None => text::own("unknown"),
    }
}

// ---------------------------------------------------------------------------
// Links that a hostfile shows
// ---------------------------------------------------------------------------

/// A peer and the address under which it was found.
pub struct PeerAddress {
    pub hostname: String,
    pub ip: String,
}

/// The texts of a peer and its address.
pub struct PeerAddressView {
    pub hostname: Seq<char>,
    pub ip: Seq<char>,
}

impl DeepView for PeerAddress {
    type V = PeerAddressView;

    open spec fn deep_view(&self) -> PeerAddressView {
        PeerAddressView { hostname: self.hostname@, ip: self.ip@ }
    }
}

/// The peers that the nodes of a hostfile show: those with a name, without
/// its `.local`, with their first address.
pub open spec fn shown_peers(hosts: Seq<HostView>) -> Seq<PeerAddressView>
    decreases hosts.len(),
{
    if hosts.len() == 0 {
        Seq::empty()
    } else {
        let rest = shown_peers(hosts.drop_last());
        match hosts.last().ssh {
            Some(ssh) => rest.push(
                PeerAddressView {
                    hostname: text::trim_end_text(ssh, ".local"@),
                    ip: match hosts.last().ip {
                        Some(ip) => ip,
                        None => Seq::empty(),
                    },
                },
            ),
            None => rest,
        }
    }
}

/// The peers that the nodes of a hostfile show.
pub fn verified_peers(hosts: &Vec<Host>) -> (r: Vec<PeerAddress>)
    ensures
        r.deep_view() == shown_peers(hosts.deep_view()),
{
    let ghost hs = hosts.deep_view();
    let mut out: Vec<PeerAddress> = Vec::new();
    let mut i: usize = 0;
    assert(out.deep_view() =~= shown_peers(hs.take(0)));
    while i < hosts.len()
        invariant
            i <= hosts@.len(),
            hs == hosts.deep_view(),
            out.deep_view() == shown_peers(hs.take(i as int)),
        decreases hosts@.len() - i,
    {
        proof {
            assert(hs.take(i + 1).drop_last() =~= hs.take(i as int));
            assert(hs.take(i + 1).last() == hosts@[i as int].deep_view());
        }
        if let Some(ssh) = &hosts[i].ssh {
            let ip: String = match &hosts[i].ip {
                Some(ip) => text::own(ip),
                None => String::new(),
            };
            let p = PeerAddress { hostname: text::trim_end_texts(ssh, ".local"), ip };
            text::push_item(&mut out, p);
        }
        i = i + 1;
    }
    assert(hs.take(i as int) =~= hs);
    out
}

/// The peers that a hostfile which is a JSON object shows, or what to say
/// where it is no JSON document; none where it has no array of hosts.
pub fn hostfile_links(content: &str) -> (r: Option<Vec<PeerAddress>>)
    ensures
        json::json_of(content@) is None <==> r is None,
        r matches Some(v) ==> v.deep_view() == (match object_hosts(content@) {
            Some(hosts) => shown_peers(hosts),
            None => Seq::empty(),
        }),
{
    match read_object(content) {
        HostfileRead::NotJson => None,
        HostfileRead::NoHosts => {
            let none: Vec<PeerAddress> = Vec::new();
            assert(none.deep_view() =~= Seq::<PeerAddressView>::empty());
            Some(none)
        },
        HostfileRead::Hosts(hosts, _) => Some(verified_peers(&hosts)),
    }
}

// ---------------------------------------------------------------------------
// Setting up a session
// ---------------------------------------------------------------------------

/// The first port of a distributed session.
pub const SESSION_PORT: u16 = 32323;

/// The most nodes for which there are ports.
pub const MAX_SESSION_HOSTS: usize = 33213;

/// How a distributed session is set up.
pub struct Session {
    pub world_size: u32,
    pub coordinator: String,
    pub backend: String,
    /// The address and port of each node, for the ring.
    pub ring: Vec<String>,
    /// The names of the nodes, by rank.
    pub names: Vec<String>,
    /// The first node is this one, which starts it itself.
    pub local_first: bool,
    /// The first rank that a peer is asked to run.
    pub first_remote: usize,
    /// Where the first node is asked whether the session runs.
    pub first_url: String,
}

/// The address and port of the node of rank `i` in the ring.
pub open spec fn ring_address(h: HostView, i: int) -> Seq<char> {
    (match h.ip {
        Some(ip) => ip,
        None => "127.0.0.1"@,
    }) + ":"@ + text::dec((32323 + i) as nat)
}

/// The addresses of the ring.
pub open spec fn ring_of(hosts: Seq<HostView>) -> Seq<Seq<char>> {
    Seq::new(hosts.len(), |i: int| ring_address(hosts[i], i))
}

/// The name is one of this node.
pub open spec fn is_here(name: Option<Seq<char>>, local: Seq<char>) -> bool {
    let n = match name {
        Some(s) => s,
        None => Seq::empty(),
    };
    n == "127.0.0.1"@ || n == "localhost"@ || n == local
}

/// Where a node is asked whether the session runs. One without a name gives
/// an address without a host.
pub open spec fn session_url(name: Option<Seq<char>>) -> Seq<char> {
    "http://"@ + (match name {
        Some(s) => s,
        None => Seq::empty(),
    }) + ":19080/v1/models"@
}

/// What is said where there are too few nodes.
pub open spec fn too_few(n: nat) -> Seq<char> {
    "need >= 2 hosts for distributed, got "@ + text::dec(n)
}

/// The session is set up as the nodes of the hostfile say.
pub open spec fn session_of(
    s: Session,
    hosts: Seq<HostView>,
    backend: Option<Seq<char>>,
    local: Seq<char>,
) -> bool {
    &&& s.world_size == hosts.len()
    &&& hosts[0].ip matches Some(ip) && s.coordinator@ == ip + ":32323"@
    &&& s.backend@ == (match backend {
        Some(b) => b,
        None => "ring"@,
    })
    &&& s.ring.deep_view() == ring_of(hosts)
    &&& s.names.deep_view() == hosts.map_values(|h: HostView| name_or_unknown(h))
    &&& s.local_first == is_here(hosts[0].ssh, local)
    &&& s.first_url@ == session_url(hosts[0].ssh)
    &&& s.first_remote == (if s.local_first {
        1int
    } else {
        0int
    })
}

/// The addresses of the ring.
fn ring(hosts: &Vec<Host>) -> (r: Vec<String>)
    requires
        hosts@.len() <= MAX_SESSION_HOSTS,
    ensures
        r.deep_view() == ring_of(hosts.deep_view()),
{
    let ghost want = ring_of(hosts.deep_view());
    let mut out: Vec<String> = Vec::new();
    let mut i: usize = 0;
    while i < hosts.len()
        invariant
            i <= hosts@.len() <= MAX_SESSION_HOSTS,
            want == ring_of(hosts.deep_view()),
            out.deep_view() == want.take(i as int),
        decreases hosts@.len() - i,
    {
        assert(hosts.deep_view()[i as int] == hosts@[i as int].deep_view());
        let mut s: String = match &hosts[i].ip {
            Some(ip) => text::own(ip),
            None => text::own("127.0.0.1"),
        };
        s.append(":");
        s.append(&text::decimal(SESSION_PORT as u64 + i as u64));
        text::push_text(&mut out, s);
        i = i + 1;
        assert(out.deep_view() =~= want.take(i as int));
    }
    assert(want.take(i as int) =~= want);
    out
}

/// Whether the name is one of this node.
fn names_here(name: &Option<String>, local: &str) -> (r: bool)
    ensures
        r == is_here(name.deep_view(), local@),
{
    match name {
        Some(s) => text::same(s, "127.0.0.1") || text::same(s, "localhost") || text::same(
            s,
            local,
        ),
        None => {
            proof {
                reveal_strlit("127.0.0.1");
                reveal_strlit("localhost");
                reveal_strlit("");
                assert(""@ =~= Seq::<char>::empty());
            }
            text::same("", local)
        },
    }
}

/// Sets up a distributed session from the nodes of a hostfile: there must be
/// two or more, and the first must have an address.
pub fn plan_session(hosts: &Vec<Host>, backend: Option<String>, local_hostname: &str) -> (r: Result<
    Session,
    String,
>)
    requires
        hosts@.len() <= MAX_SESSION_HOSTS,
    ensures
        hosts@.len() < 2 ==> (r matches Err(e) && e@ == too_few(hosts@.len())),
        hosts@.len() >= 2 && hosts@[0].ip is None ==> (r matches Err(e) && e@
            == "rank 0 missing ips in hostfile"@),
        hosts@.len() >= 2 && hosts@[0].ip is Some ==> (r matches Ok(s) && session_of(
            s,
            hosts.deep_view(),
            backend.deep_view(),
            local_hostname@,
        )),
{
    if hosts.len() < 2 {
        return Err(
            text::glue(
                "need >= 2 hosts for distributed, got ",
                &text::decimal(hosts.len() as u64),
            ),
        );
    }
    assert(hosts.deep_view()[0] == hosts@[0].deep_view());
    match &hosts[0].ip {
        None => Err(text::own("rank 0 missing ips in hostfile")),
        Some(ip) => {
            let b: String = match backend {
                Some(b) => b,
                None => text::own("ring"),
            };
            let here: bool = names_here(&hosts[0].ssh, local_hostname);
            let mut first_url: String = match &hosts[0].ssh {
                Some(name) => text::glue("http://", name),
                None => text::own("http://"),
            };
            assert(first_url@ =~= "http://"@ + (match hosts@[0].ssh.deep_view() {
                Some(s) => s,
                None => Seq::empty(),
            }));
            first_url.append(":19080/v1/models");
            Ok(
                Session {
                    world_size: hosts.len() as u32,
                    coordinator: text::glue(ip, ":32323"),
                    backend: b,
                    ring: ring(hosts),
                    names: host_names(hosts),
                    local_first: here,
                    first_remote: if here {
                        1
                    } else {
                        0
                    },
                    first_url,
                },
            )
        },
    }
}

/// The list of one address that stands for a node in the ring.
pub open spec fn ring_row(address: Seq<char>) -> serde_json::Value {
    json::json_from_items(seq![json::json_from_text(address)])
}

/// The addresses of the ring as they are sent to every node of a session: a
/// JSON list with one list of one address for each node, by rank.
pub fn write_ring(ring: &Vec<String>) -> (r: String)
    ensures
        r@ == json::json_list_text(ring.deep_view().map_values(|a: Seq<char>| ring_row(a))),
{
    let ghost want = ring.deep_view().map_values(|a: Seq<char>| ring_row(a));
    let mut rows: Vec<serde_json::Value> = Vec::new();
    let mut i: usize = 0;
    while i < ring.len()
        invariant
            i <= ring@.len(),
            want == ring.deep_view().map_values(|a: Seq<char>| ring_row(a)),
            rows@ == want.take(i as int),
        decreases ring@.len() - i,
    {
        let mut row: Vec<serde_json::Value> = Vec::new();
        row.push(json::from_text(&ring[i]));
        assert(row@ =~= seq![json::json_from_text(ring@[i as int]@)]);
        rows.push(json::from_items(row));
        i = i + 1;
        assert(rows@ =~= want.take(i as int));
    }
    assert(want.take(i as int) =~= want);
    let mut lent: Vec<&serde_json::Value> = Vec::new();
    let mut k: usize = 0;
    while k < rows.len()
        invariant
            k <= rows@.len(),
            lent@.len() == k,
            forall|j: int| 0 <= j < k ==> *(#[trigger] lent@[j]) == rows@[j],
        decreases rows@.len() - k,
    {
        lent.push(&rows[k]);
        k = k + 1;
    }
    assert(lent@.map_values(|v: &serde_json::Value| *v) =~= rows@);
    json::write_list(&lent)
}

/// The address of a peer that is asked to join.
pub fn join_url(name: &str) -> (r: String)
    ensures
        r@ == "http://"@ + name@ + ":9090/serve/distributed/join"@,
{
    let mut s: String = text::glue("http://", name);
    s.append(":9090/serve/distributed/join");
    s
}

/// The peers that did not join, from rank `rank` on, as they are named in
/// messages.
pub open spec fn absent(names: Seq<Seq<char>>, joined: Seq<bool>, rank: int) -> Seq<Seq<char>>
    decreases joined.len(),
{
    if joined.len() == 0 {
        Seq::empty()
    } else {
        let rest = absent(names, joined.drop_last(), rank);
        let k = rank + joined.len() - 1;
        if joined.last() {
            rest
        } else {
            rest.push("rank"@ + text::dec(k as nat) + "="@ + names[k])
        }
    }
}

/// Judges the answers of the peers that were asked to join: all must.
pub fn judge_joins(session: &Session, joined: &Vec<bool>) -> (r: Result<(), String>)
    requires
        session.first_remote + joined@.len() == session.names@.len(),
    ensures
        r is Ok <==> absent(
            session.names.deep_view(),
            joined@,
            session.first_remote as int,
        ).len() == 0,
        r matches Err(e) ==> e@ == "peers failed to join: "@ + text::joined(
            absent(session.names.deep_view(), joined@, session.first_remote as int),
            ", "@,
        ),
{
    let ghost ns = session.names.deep_view();
    let ghost first = session.first_remote as int;
    let mut out: Vec<String> = Vec::new();
    let mut i: usize = 0;
    assert(out.deep_view() =~= absent(ns, joined@.take(0), first));
    while i < joined.len()
        invariant
            i <= joined@.len(),
            ns == session.names.deep_view(),
            first == session.first_remote as int,
            session.first_remote + joined@.len() == session.names.len(),
            out.deep_view() == absent(ns, joined@.take(i as int), first),
        decreases joined@.len() - i,
    {
        assert(joined@.take(i + 1).drop_last() =~= joined@.take(i as int));
        if !joined[i] {
            let k: usize = session.first_remote + i;
            assert(ns[k as int] == session.names@[k as int]@);
            let mut s: String = text::glue("rank", &text::decimal(k as u64));
            s.append("=");
            s.append(&session.names[k]);
            text::push_text(&mut out, s);
        }
        i = i + 1;
    }
    assert(joined@.take(i as int) =~= joined@);
    assert(out@.len() == out.deep_view().len());
    if out.len() == 0 {
        Ok(())
    } else {
        Err(text::glue("peers failed to join: ", &text::join(&out, ", ")))
    }
}

/// Every node of a session has its own port in the ring.
pub proof fn ring_ports_differ(i: nat, j: nat)
    requires
        i != j,
    ensures
        text::dec((32323 + i) as nat) != text::dec((32323 + j) as nat),
{
    crate::rdma::numerals_differ((32323 + i) as nat, (32323 + j) as nat);
}

/// The arguments of the server of one node in a session.
pub open spec fn worker_args(model: Seq<char>, port: nat, host: Seq<char>) -> Seq<Seq<char>> {
    seq![
        "-m"@,
        "mlx_lm"@,
        "server"@,
        "--model"@,
        model,
        "--port"@,
        text::dec(port),
        "--host"@,
        host,
    ]
}

/// The arguments of the server of one node in a session.
pub fn build_worker_args(model: &str, port: u16, host: &str) -> (r: Vec<String>)
    ensures
        r.deep_view() == worker_args(model@, port as nat, host@),
{
    let mut args: Vec<String> = Vec::new();
    text::push_str(&mut args, "-m");
    text::push_str(&mut args, "mlx_lm");
    text::push_str(&mut args, "server");
    text::push_str(&mut args, "--model");
    text::push_str(&mut args, model);
    text::push_str(&mut args, "--port");
    text::push_text(&mut args, text::decimal(port as u64));
    text::push_str(&mut args, "--host");
    text::push_str(&mut args, host);
    assert(args.deep_view() =~= worker_args(model@, port as nat, host@));
    args
}

/// The variables of the server of one node in a session.
pub open spec fn worker_vars(
    rank: nat,
    world_size: nat,
    backend: Seq<char>,
    coordinator: Seq<char>,
    ibv_path: Seq<char>,
    ring_path: Option<Seq<char>>,
) -> Seq<(Seq<char>, Seq<char>)> {
    let base = seq![
        ("MLX_RANK"@, text::dec(rank)),
        ("MLX_WORLD_SIZE"@, text::dec(world_size)),
        ("MLX_METAL_FAST_SYNCH"@, "1"@),
    ];
    if backend == "jaccl"@ {
        base.push(("MLX_DISTRIBUTED_BACKEND"@, "jaccl"@)).push(
            ("MLX_JACCL_COORDINATOR"@, coordinator),
        ).push(("MLX_IBV_DEVICES"@, ibv_path))
    } else {
        let b = base.push(("MLX_DISTRIBUTED_BACKEND"@, "ring"@));
        match ring_path {
            Some(p) => b.push(("MLX_HOSTFILE"@, p)),
            None => b,
        }
    }
}

/// The variables of the server of one node in a session.
pub fn build_worker_vars(
    rank: u32,
    world_size: u32,
    backend: &str,
    coordinator: &str,
    ibv_path: &str,
    ring_path: &Option<String>,
) -> (r: Vec<(String, String)>)
    ensures
        r.deep_view() == worker_vars(
            rank as nat,
            world_size as nat,
            backend@,
            coordinator@,
            ibv_path@,
            ring_path.deep_view(),
        ),
{
    let mut vars: Vec<(String, String)> = Vec::new();
    text::push_item(&mut vars, (text::own("MLX_RANK"), text::decimal(rank as u64)));
    text::push_item(&mut vars, (text::own("MLX_WORLD_SIZE"), text::decimal(world_size as u64)));
    text::push_item(&mut vars, (text::own("MLX_METAL_FAST_SYNCH"), text::own("1")));
    assert(vars.deep_view() =~= seq![
        ("MLX_RANK"@, text::dec(rank as nat)),
        ("MLX_WORLD_SIZE"@, text::dec(world_size as nat)),
        ("MLX_METAL_FAST_SYNCH"@, "1"@),
    ]);
    if text::same(backend, "jaccl") {
        text::push_item(&mut vars, (text::own("MLX_DISTRIBUTED_BACKEND"), text::own("jaccl")));
        text::push_item(&mut vars, (text::own("MLX_JACCL_COORDINATOR"), text::own(coordinator)));
        text::push_item(&mut vars, (text::own("MLX_IBV_DEVICES"), text::own(ibv_path)));
    } else {
        text::push_item(&mut vars, (text::own("MLX_DISTRIBUTED_BACKEND"), text::own("ring")));
        if let Some(p) = ring_path {
            text::push_item(&mut vars, (text::own("MLX_HOSTFILE"), text::own(p)));
        }
    }
    vars
}

// ---------------------------------------------------------------------------
// Heartbeats of peers
// ---------------------------------------------------------------------------

/// How many checks in a row a peer may miss before the local processes are
/// ended.
pub const HEARTBEAT_MISS_THRESHOLD: u32 = 3;

/// What is known of a peer.
pub struct PeerStatus {
    pub hostname: String,
    pub reachable: bool,
    /// When the peer last answered, in milliseconds of one clock.
    pub last_seen: Option<u64>,
    pub consecutive_misses: u32,
}

/// What is known of a peer, with its text.
pub struct PeerStatusView {
    pub hostname: Seq<char>,
    pub reachable: bool,
    pub last_seen: Option<u64>,
    pub misses: nat,
}

impl DeepView for PeerStatus {
    type V = PeerStatusView;

    open spec fn deep_view(&self) -> PeerStatusView {
        PeerStatusView {
            hostname: self.hostname@,
            reachable: self.reachable,
            last_seen: self.last_seen,
            misses: self.consecutive_misses as nat,
        }
    }
}

/// What is known of a peer after a check.
pub open spec fn checked(p: PeerStatusView, answered: bool, now: u64) -> PeerStatusView {
    if answered {
        PeerStatusView { reachable: true, last_seen: Some(now), misses: 0, ..p }
    } else {
        PeerStatusView { reachable: false, misses: p.misses + 1, ..p }
    }
}

/// The peer has missed as many checks in a row as make it dead.
pub open spec fn dead(p: PeerStatusView) -> bool {
    p.misses >= 3
}

/// The peers of a session and whether they are watched.
pub struct PeerHeartbeat {
    pub active: bool,
    pub peers: Vec<PeerStatus>,
}

impl PeerHeartbeat {
    /// No watch.
    pub fn new() -> (r: PeerHeartbeat)
        ensures
            !r.active,
            r.peers@.len() == 0,
    {
        PeerHeartbeat { active: false, peers: Vec::new() }
    }

    /// No peer has missed so many checks that counting one more overflows.
    pub open spec fn countable(&self) -> bool {
        forall|i: int|
            0 <= i < self.peers@.len() ==> (#[trigger] self.peers@[i]).consecutive_misses
                < u32::MAX
    }

    /// Begins to watch the peers, unless there are none.
    pub fn start(&mut self, hosts: &Vec<String>)
        ensures
            final(self).active == (hosts@.len() > 0),
            hosts@.len() == 0 ==> final(self).peers@ == old(self).peers@,
            hosts@.len() > 0 ==> final(self).peers.deep_view() == hosts.deep_view().map_values(
                |h: Seq<char>|
                    PeerStatusView { hostname: h, reachable: true, last_seen: None, misses: 0 },
            ),
    {
        self.active = false;
        if hosts.len() == 0 {
            return;
        }
        let ghost want = hosts.deep_view().map_values(
            |h: Seq<char>|
                PeerStatusView { hostname: h, reachable: true, last_seen: None, misses: 0 },
        );
        let mut out: Vec<PeerStatus> = Vec::new();
        let mut i: usize = 0;
        while i < hosts.len()
            invariant
                i <= hosts@.len(),
                want == hosts.deep_view().map_values(
                    |h: Seq<char>|
                        PeerStatusView { hostname: h, reachable: true, last_seen: None, misses: 0 },
                ),
                out.deep_view() == want.take(i as int),
            decreases hosts@.len() - i,
        {
            let p = PeerStatus {
                hostname: text::own(&hosts[i]),
                reachable: true,
                last_seen: None,
                consecutive_misses: 0,
            };
            text::push_item(&mut out, p);
            i = i + 1;
            assert(out.deep_view() =~= want.take(i as int));
        }
        assert(want.take(i as int) =~= want);
        self.peers = out;
        self.active = true;
    }

    /// Ends the watch.
    pub fn stop(&mut self)
        ensures
            !final(self).active,
            final(self).peers == old(self).peers,
    {
        self.active = false;
    }

    /// Takes in the answers of a round. The result says whether a peer is
    /// dead, so that the local processes have to be ended; the watch ends
    /// with them.
    pub fn observe(&mut self, answers: &Vec<bool>, now: u64) -> (r: bool)
        requires
            old(self).countable(),
        ensures
            final(self).peers@.len() == old(self).peers@.len(),
            forall|i: int|
                0 <= i < old(self).peers@.len() ==> #[trigger] final(self).peers.deep_view()[i] == (
                if i < answers@.len() {
                    checked(old(self).peers.deep_view()[i], answers@[i], now)
                } else {
                    old(self).peers.deep_view()[i]
                }),
            r == exists|i: int|
                0 <= i < old(self).peers@.len() && i < answers@.len() && !answers@[i] && dead(
                    #[trigger] checked(old(self).peers.deep_view()[i], answers@[i], now),
                ),
            final(self).active == (old(self).active && !r),
    {
        let ghost start = self.peers.deep_view();
        let mut any_dead: bool = false;
        let mut i: usize = 0;
        while i < self.peers.len() && i < answers.len()
            invariant
                i <= self.peers@.len(),
                i <= answers@.len(),
                self.peers@.len() == start.len(),
                self.active == old(self).active,
                start == old(self).peers.deep_view(),
                forall|k: int|
                    i <= k < self.peers@.len() ==> (#[trigger] self.peers@[k]).consecutive_misses
                        < u32::MAX,
                forall|k: int|
                    0 <= k < start.len() ==> #[trigger] self.peers.deep_view()[k] == (if k < i {
                        checked(start[k], answers@[k], now)
                    } else {
                        start[k]
                    }),
                any_dead == exists|k: int|
                    0 <= k < i && !answers@[k] && dead(
                        #[trigger] checked(start[k], answers@[k], now),
                    ),
            decreases self.peers@.len() - i,
        {
            let ghost before = self.peers.deep_view();
            assert(before[i as int] == self.peers@[i as int].deep_view());
            let p: &PeerStatus = &self.peers[i];
            let next: PeerStatus = if answers[i] {
                PeerStatus {
                    hostname: text::own(&p.hostname),
                    reachable: true,
                    last_seen: Some(now),
                    consecutive_misses: 0,
                }
            } else {
                PeerStatus {
                    hostname: text::own(&p.hostname),
                    reachable: false,
                    last_seen: p.last_seen,
                    consecutive_misses: p.consecutive_misses + 1,
                }
            };
            assert(next.deep_view() == checked(start[i as int], answers@[i as int], now));
            if !answers[i] && next.consecutive_misses >= HEARTBEAT_MISS_THRESHOLD {
                assert(dead(checked(start[i as int], answers@[i as int], now)));
                any_dead = true;
            }
            let ghost nv = next.deep_view();
            self.peers.set(i, next);
            assert(self.peers.deep_view() =~= before.update(i as int, nv));
            i = i + 1;
        }
        if any_dead {
            self.active = false;
        }
        any_dead
    }
}

/// A peer that answers is alive whatever it missed before, and it is dead
/// after three misses in a row and not before.
pub proof fn dead_at_third_miss(p: PeerStatusView, a: u64, b: u64, c: u64, d: u64)
    ensures
        ({
            let seen = checked(p, true, a);
            let one = checked(seen, false, b);
            let two = checked(one, false, c);
            let three = checked(two, false, d);
            &&& !dead(seen) && seen.reachable
            &&& !dead(one) && !dead(two)
            &&& dead(three)
            &&& three.last_seen == Some(a)
        }),
{
}

/// The peers of a session are the hosts behind the `@` of the names in the
/// hostfile: every one of them but this node, and no other.
pub proof fn peers_are_the_others(
    hosts: Seq<HostView>,
    local: Seq<char>,
    i: int,
    user: Seq<char>,
    host: Seq<char>,
)
    requires
        0 <= i < hosts.len(),
        !user.contains('@'),
        !host.contains('@'),
        hosts[i].ssh == Some(user + seq!['@'] + host),
    ensures
        peers_among(hosts, local).contains(host) <==> host != local,
    decreases hosts.len(),
{
    local_node_is_no_peer(hosts, local);
    if host != local {
        peer_is_among(hosts, local, i, user, host);
    }
}

/// A host that is not this node is among the peers.
proof fn peer_is_among(
    hosts: Seq<HostView>,
    local: Seq<char>,
    i: int,
    user: Seq<char>,
    host: Seq<char>,
)
    requires
        0 <= i < hosts.len(),
        !user.contains('@'),
        !host.contains('@'),
        hosts[i].ssh == Some(user + seq!['@'] + host),
        host != local,
    ensures
        peers_among(hosts, local).contains(host),
    decreases hosts.len(),
{
    let front = hosts.drop_last();
    let rest = peers_among(front, local);
    let now = peers_among(hosts, local);
    if i < hosts.len() - 1 {
        assert(front[i] == hosts[i]);
        peer_is_among(front, local, i, user, host);
        let m = choose|m: int| 0 <= m < rest.len() && rest[m] == host;
        assert(now[m] == host);
    } else {
        text::second_piece(user, '@', host);
        assert(now.last() == host);
    }
}

/// Some name of the hostfile has the host behind its `@`.
pub open spec fn named_as_peer(hosts: Seq<HostView>, host: Seq<char>) -> bool {
    exists|i: int|
        0 <= i < hosts.len() && ((#[trigger] hosts[i]).ssh matches Some(s) && text::nth_piece(
            s,
            '@',
            1,
        ) == Some(host))
}

/// No host is a peer that the hostfile does not name.
pub proof fn peers_are_named(hosts: Seq<HostView>, local: Seq<char>)
    ensures
        forall|m: int|
            0 <= m < peers_among(hosts, local).len() ==> named_as_peer(
                hosts,
                #[trigger] peers_among(hosts, local)[m],
            ),
    decreases hosts.len(),
{
    if hosts.len() > 0 {
        let front = hosts.drop_last();
        let rest = peers_among(front, local);
        let now = peers_among(hosts, local);
        peers_are_named(front, local);
        assert forall|m: int| 0 <= m < now.len() implies named_as_peer(
            hosts,
            #[trigger] now[m],
        ) by {
            if m < rest.len() {
                assert(now[m] == rest[m]);
                let i = choose|i: int|
                    0 <= i < front.len() && ((#[trigger] front[i]).ssh matches Some(s)
                        && text::nth_piece(s, '@', 1) == Some(rest[m]));
                assert(hosts[i] == front[i]);
            } else {
                assert(hosts[hosts.len() - 1] == hosts.last());
            }
        }
    }
}

/// A session has one name and one address in the ring for each node of the
/// hostfile, by rank: the address is the node's own, or that of the local
/// machine, with a port of its own from 32323 on. The first node coordinates,
/// at its own address, and it is asked whether the session runs. Where it is
/// this node, no peer is asked to run it.
pub proof fn session_follows_the_hostfile(
    s: Session,
    hosts: Seq<HostView>,
    backend: Option<Seq<char>>,
    local: Seq<char>,
    i: int,
)
    requires
        hosts.len() >= 2,
        session_of(s, hosts, backend, local),
        0 <= i < hosts.len(),
    ensures
        s.world_size == hosts.len(),
        s.names.deep_view().len() == hosts.len(),
        s.ring.deep_view().len() == hosts.len(),
        hosts[i].ssh matches Some(name) ==> s.names.deep_view()[i] == name,
        hosts[i].ip matches Some(ip) ==> s.ring.deep_view()[i] == ip + ":"@ + text::dec(
            (32323 + i) as nat,
        ),
        hosts[i].ip is None ==> s.ring.deep_view()[i] == "127.0.0.1:"@ + text::dec(
            (32323 + i) as nat,
        ),
        hosts[0].ip matches Some(ip) && s.coordinator@ == ip + ":32323"@,
        hosts[0].ssh matches Some(name) ==> s.first_url@ == "http://"@ + name
            + ":19080/v1/models"@,
        backend matches Some(b) ==> s.backend@ == b,
        backend is None ==> s.backend@ == "ring"@,
        hosts[0].ssh == Some(local) ==> s.local_first,
        match hosts[0].ssh {
            Some(name) => s.local_first ==> name == local || name == "localhost"@ || name
                == "127.0.0.1"@,
            None => true,
        },
        s.local_first ==> s.first_remote == 1,
        !s.local_first ==> s.first_remote == 0,
{
    reveal_strlit("127.0.0.1");
    reveal_strlit("127.0.0.1:");
    reveal_strlit(":");
    assert("127.0.0.1:"@ =~= "127.0.0.1"@ + ":"@);
}

/// The peers that did not join are named with their ranks: each whose answer
/// was no, and no other.
pub proof fn absent_are_named(names: Seq<Seq<char>>, joined: Seq<bool>, rank: int)
    requires
        0 <= rank,
        rank + joined.len() <= names.len(),
    ensures
        absent(names, joined, rank).len() == 0 <==> forall|i: int|
            0 <= i < joined.len() ==> #[trigger] joined[i],
        forall|i: int|
            0 <= i < joined.len() && !(#[trigger] joined[i]) ==> absent(names, joined, rank).contains(
                "rank"@ + text::dec((rank + i) as nat) + "="@ + names[rank + i],
            ),
        absent(names, joined, rank).len() <= joined.len(),
    decreases joined.len(),
{
    if joined.len() > 0 {
        let front = joined.drop_last();
        let rest = absent(names, front, rank);
        let now = absent(names, joined, rank);
        absent_are_named(names, front, rank);
        assert forall|i: int| 0 <= i < joined.len() && !(#[trigger] joined[i]) implies now.contains(
            "rank"@ + text::dec((rank + i) as nat) + "="@ + names[rank + i],
        ) by {
            let w = "rank"@ + text::dec((rank + i) as nat) + "="@ + names[rank + i];
            if i < front.len() {
                assert(!front[i]);
                let m = choose|m: int| 0 <= m < rest.len() && rest[m] == w;
                assert(now[m] == w);
            } else {
                assert(now.last() == w);
            }
        }
        if forall|i: int| 0 <= i < joined.len() ==> #[trigger] joined[i] {
            assert forall|i: int| 0 <= i < front.len() implies #[trigger] front[i] by {
                assert(joined[i]);
            }
            assert(joined[joined.len() - 1]);
        }
        if now.len() == 0 {
            assert forall|i: int| 0 <= i < joined.len() implies #[trigger] joined[i] by {
                if !joined[i] {
                    let w = "rank"@ + text::dec((rank + i) as nat) + "="@ + names[rank + i];
                    assert(now.contains(w));
                }
            }
        }
    }
}

/// The variables set that name to that value.
pub open spec fn sets_variable(
    vars: Seq<(Seq<char>, Seq<char>)>,
    name: Seq<char>,
    value: Seq<char>,
) -> bool {
    vars.contains((name, value))
}

/// The server of a node is told its rank, the size of the session and the
/// backend; for `jaccl` also who coordinates and where the devices are
/// written, and for any other backend where the ring is.
#[verifier::rlimit(60)]
pub proof fn worker_is_told_its_part(
    rank: nat,
    world_size: nat,
    backend: Seq<char>,
    coordinator: Seq<char>,
    ibv_path: Seq<char>,
    ring_path: Option<Seq<char>>,
)
    ensures
        ({
            let vars = worker_vars(rank, world_size, backend, coordinator, ibv_path, ring_path);
            &&& sets_variable(vars, "MLX_RANK"@, text::dec(rank))
            &&& sets_variable(vars, "MLX_WORLD_SIZE"@, text::dec(world_size))
            &&& sets_variable(vars, "MLX_METAL_FAST_SYNCH"@, "1"@)
            &&& backend == "jaccl"@ ==> {
                &&& sets_variable(vars, "MLX_DISTRIBUTED_BACKEND"@, "jaccl"@)
                &&& sets_variable(vars, "MLX_JACCL_COORDINATOR"@, coordinator)
                &&& sets_variable(vars, "MLX_IBV_DEVICES"@, ibv_path)
            }
            &&& backend != "jaccl"@ ==> {
                &&& sets_variable(vars, "MLX_DISTRIBUTED_BACKEND"@, "ring"@)
                &&& ring_path matches Some(p) ==> sets_variable(vars, "MLX_HOSTFILE"@, p)
            }
        }),
{
    let vars = worker_vars(rank, world_size, backend, coordinator, ibv_path, ring_path);
    assert(vars[0] == ("MLX_RANK"@, text::dec(rank)));
    assert(vars[1] == ("MLX_WORLD_SIZE"@, text::dec(world_size)));
    assert(vars[2] == ("MLX_METAL_FAST_SYNCH"@, "1"@));
    if backend == "jaccl"@ {
        assert(vars[3] == ("MLX_DISTRIBUTED_BACKEND"@, "jaccl"@));
        assert(vars[4] == ("MLX_JACCL_COORDINATOR"@, coordinator));
        assert(vars[5] == ("MLX_IBV_DEVICES"@, ibv_path));
    } else {
        assert(vars[3] == ("MLX_DISTRIBUTED_BACKEND"@, "ring"@));
        if let Some(p) = ring_path {
            assert(vars[4] == ("MLX_HOSTFILE"@, p));
        }
    }
}

/// The server of a node runs the model on the port and the address.
pub proof fn worker_serves_the_model(model: Seq<char>, port: nat, host: Seq<char>)
    ensures
        crate::argv::gives(worker_args(model, port, host), "-m"@, "mlx_lm"@),
        crate::argv::gives(worker_args(model, port, host), "mlx_lm"@, "server"@),
        crate::argv::gives(worker_args(model, port, host), "--model"@, model),
        crate::argv::gives(worker_args(model, port, host), "--port"@, text::dec(port)),
        crate::argv::gives(worker_args(model, port, host), "--host"@, host),
{
    let a = worker_args(model, port, host);
    assert(a[0] == "-m"@ && a[1] == "mlx_lm"@ && a[2] == "server"@);
    assert(a[3] == "--model"@ && a[4] == model);
    assert(a[5] == "--port"@ && a[6] == text::dec(port));
    assert(a[7] == "--host"@ && a[8] == host);
}

/// A host that is shown with its address is one of the hostfile: every host
/// with a name is shown, `.local` behind its name is left out, and its first
/// address stands beside it.
pub proof fn named_hosts_are_shown(hosts: Seq<HostView>, i: int)
    requires
        0 <= i < hosts.len(),
        hosts[i].ssh is Some,
    ensures
        exists|m: int|
            0 <= m < shown_peers(hosts).len() && ({
                let p = #[trigger] shown_peers(hosts)[m];
                &&& p.hostname == text::trim_end_text(hosts[i].ssh->0, ".local"@)
                &&& hosts[i].ip matches Some(ip) ==> p.ip == ip
                &&& hosts[i].ip is None ==> p.ip.len() == 0
            }),
        shown_peers(hosts).len() <= hosts.len(),
    decreases hosts.len(),
{
    let front = hosts.drop_last();
    let rest = shown_peers(front);
    let now = shown_peers(hosts);
    shown_are_few(hosts);
    if i < hosts.len() - 1 {
        assert(front[i] == hosts[i]);
        named_hosts_are_shown(front, i);
        let m = choose|m: int|
            0 <= m < rest.len() && ({
                let p = #[trigger] rest[m];
                &&& p.hostname == text::trim_end_text(front[i].ssh->0, ".local"@)
                &&& front[i].ip matches Some(ip) ==> p.ip == ip
                &&& front[i].ip is None ==> p.ip.len() == 0
            });
        assert(now[m] == rest[m]);
    } else {
        assert(now[rest.len() as int] == now.last());
    }
}

/// No more hosts are shown than there are.
proof fn shown_are_few(hosts: Seq<HostView>)
    ensures
        shown_peers(hosts).len() <= hosts.len(),
    decreases hosts.len(),
{
    if hosts.len() > 0 {
        shown_are_few(hosts.drop_last());
    }
}

/// The hosts of a file are those of its list, in its order, each with its name
/// and its first address.
pub proof fn hosts_come_in_order(items: Seq<serde_json::Value>, i: int, name: Seq<char>, ip: Seq<char>)
    requires
        0 <= i < items.len(),
        json::text_at(items[i], "ssh"@) == Some(name),
        json::first_text_at(items[i], "ips"@) == Some(ip),
    ensures
        hosts_in(items).len() == items.len(),
        hosts_in(items)[i].ssh == Some(name),
        hosts_in(items)[i].ip == Some(ip),
{
}

/// A file holds its hosts in a list of their own, or is such a list.
pub proof fn hosts_are_listed(content: Seq<char>, v: serde_json::Value, items: Seq<serde_json::Value>)
    ensures
        json::json_of(content) == Some(v) && json::items_at(v, "hosts"@) == Some(items)
            ==> object_hosts(content) == Some(hosts_in(items)),
        json::json_of(content) == Some(v) && json::json_items(v) == Some(items) ==> array_hosts(
            content,
        ) == Some(hosts_in(items)),
        json::json_of(content) is None ==> object_hosts(content) is None && array_hosts(
            content,
        ) is None,
{
}

/// Each host has the devices that its entry names.
pub proof fn devices_are_of_the_host(document: serde_json::Value, items: Seq<serde_json::Value>, i: int, row: serde_json::Value)
    requires
        json::items_at(document, "hosts"@) == Some(items),
        0 <= i < items.len(),
        json::json_member(items[i], "rdma"@) == Some(row),
    ensures
        device_lists(document).len() == items.len(),
        device_lists(document)[i] == row,
{
}

} // verus!
