//! Bringing the Thunderbolt interfaces of a node up: which node coordinates,
//! which addresses are set where, which peers are probed through which
//! interface, and what is reported.

use crate::hostfile::{PeerAddress, PeerAddressView};
use crate::json;
use crate::rdma::{AssignmentView, LinkAssignment};
use crate::text;
use vstd::prelude::*;
use vstd::string::*;

verus! {

// ---------------------------------------------------------------------------
// Settings and results
// ---------------------------------------------------------------------------

/// The settings of the setup.
pub struct RdmaSettings {
    pub auto_setup: bool,
    pub auto_destroy_bridge0: bool,
    pub static_ips: Vec<StaticIpEntry>,
    pub default_gateway: Option<String>,
}

/// An address that is set on an interface whatever is found.
pub struct StaticIpEntry {
    pub iface: String,
    pub ip: String,
    pub mask: String,
}

impl RdmaSettings {
    /// The settings where none are given: everything is done, and no address
    /// is fixed.
    pub fn default_settings() -> (r: RdmaSettings)
        ensures
            r.auto_setup,
            r.auto_destroy_bridge0,
            r.static_ips@.len() == 0,
            r.default_gateway is None,
    {
        RdmaSettings {
            auto_setup: true,
            auto_destroy_bridge0: true,
            static_ips: Vec::new(),
            default_gateway: None,
        }
    }
}

/// The mask of a network of four addresses.
pub fn default_mask() -> (r: String)
    ensures
        r@ == "255.255.255.252"@,
{
    text::own("255.255.255.252")
}

/// An address on an interface, and where it comes from.
#[derive(Debug, Clone)]
pub struct InterfaceIp {
    pub iface: String,
    pub ip: String,
    pub source: String,
}

/// The texts of an address on an interface.
pub struct InterfaceIpView {
    pub iface: Seq<char>,
    pub ip: Seq<char>,
    pub source: Seq<char>,
}

impl DeepView for InterfaceIp {
    type V = InterfaceIpView;

    open spec fn deep_view(&self) -> InterfaceIpView {
        InterfaceIpView { iface: self.iface@, ip: self.ip@, source: self.source@ }
    }
}

/// What became of the Thunderbolt bridge.
#[derive(Debug)]
pub enum Bridge0Result {
    Clean,
    Destroyed(Vec<String>),
    Failed(String),
}

/// What became of the routes.
#[derive(Debug)]
pub enum RouteResult {
    NoInterfaces,
    Fixed { primary_interface: String, interfaces_with_ips: usize },
    Failed(String),
}

/// The peers that were reached.
pub struct PeerResult {
    pub verified_links: Vec<PeerAddress>,
    pub total_tried: usize,
}

/// What the setup did.
pub struct AutosetupReport {
    pub bridge0: Bridge0Result,
    pub ips: Vec<InterfaceIp>,
    pub routes: RouteResult,
    pub peers: PeerResult,
    pub hostfile: Option<String>,
}

impl Bridge0Result {
    /// The result in words.
    pub open spec fn words(self) -> Seq<char> {
        match self {
            Bridge0Result::Clean => "clean"@,
            Bridge0Result::Destroyed(m) => "destroyed("@ + text::joined(m.deep_view(), ","@)
                + ")"@,
            Bridge0Result::Failed(e) => "failed("@ + e@ + ")"@,
        }
    }

    /// The result in words.
    pub fn to_text(&self) -> (r: String)
        ensures
            r@ == self.words(),
    {
        match self {
            Bridge0Result::Clean => text::own("clean"),
            Bridge0Result::Destroyed(m) => {
                let mut s: String = text::glue("destroyed(", &text::join(m, ","));
                s.append(")");
                s
            },
            Bridge0Result::Failed(e) => {
                let mut s: String = text::glue("failed(", e);
                s.append(")");
                s
            },
        }
    }

    /// What becomes of a bridge with the members `members`, given how its
    /// removal went: none is needed where it has no members.
    pub fn of_removal(members: Vec<String>, removed: Result<(), String>) -> (r: Bridge0Result)
        ensures
            members@.len() == 0 ==> r is Clean,
            members@.len() > 0 && removed is Ok ==> (r matches Bridge0Result::Destroyed(m)
                && m.deep_view() == members.deep_view()),
            members@.len() > 0 ==> (removed matches Err(e) ==> (r matches Bridge0Result::Failed(f)
                && f@ == e@)),
    {
        if members.len() == 0 {
            Bridge0Result::Clean
        } else {
            match removed {
                Ok(_) => Bridge0Result::Destroyed(members),
                Err(e) => Bridge0Result::Failed(e),
            }
        }
    }
}

impl RouteResult {
    /// The result in words.
    pub open spec fn words(self) -> Seq<char> {
        match self {
            RouteResult::NoInterfaces => "no_interfaces"@,
            RouteResult::Fixed { primary_interface, interfaces_with_ips } => "fixed(primary="@
                + primary_interface@ + ", n="@ + text::dec(interfaces_with_ips as nat) + ")"@,
            RouteResult::Failed(e) => "failed("@ + e@ + ")"@,
        }
    }

    /// The result in words.
    pub fn to_text(&self) -> (r: String)
        ensures
            r@ == self.words(),
    {
        match self {
            RouteResult::NoInterfaces => text::own("no_interfaces"),
            RouteResult::Fixed { primary_interface, interfaces_with_ips } => {
                let mut s: String = text::glue("fixed(primary=", primary_interface);
                s.append(", n=");
                s.append(&text::decimal(*interfaces_with_ips as u64));
                s.append(")");
                s
            },
            RouteResult::Failed(e) => {
                let mut s: String = text::glue("failed(", e);
                s.append(")");
                s
            },
        }
    }
}

impl AutosetupReport {
    /// The report before anything was done.
    pub fn empty() -> (r: AutosetupReport)
        ensures
            r.bridge0 is Clean,
            r.ips@.len() == 0,
            r.routes is NoInterfaces,
            r.peers.verified_links@.len() == 0,
            r.peers.total_tried == 0,
            r.hostfile is None,
    {
        AutosetupReport {
            bridge0: Bridge0Result::Clean,
            ips: Vec::new(),
            routes: RouteResult::NoInterfaces,
            peers: PeerResult { verified_links: Vec::new(), total_tried: 0 },
            hostfile: None,
        }
    }

    /// The report in one line.
    pub open spec fn line(self) -> Seq<char> {
        "bridge0="@ + self.bridge0.words() + ", ips="@ + text::dec(self.ips@.len()) + ", routes="@
            + self.routes.words() + ", peers="@ + text::dec(self.peers.verified_links@.len())
            + "/"@ + text::dec(self.peers.total_tried as nat) + (match self.hostfile.deep_view() {
            Some(hf) => ", hostfile="@ + hf,
            None => Seq::empty(),
        })
    }

    /// The report in one line.
    pub fn summary(&self) -> (r: String)
        ensures
            r@ == self.line(),
    {
        let mut s: String = text::glue("bridge0=", &self.bridge0.to_text());
        s.append(", ips=");
        s.append(&text::decimal(self.ips.len() as u64));
        s.append(", routes=");
        s.append(&self.routes.to_text());
        s.append(", peers=");
        s.append(&text::decimal(self.peers.verified_links.len() as u64));
        s.append("/");
        s.append(&text::decimal(self.peers.total_tried as u64));
        match &self.hostfile {
            Some(hf) => {
                let tail: String = text::glue(", hostfile=", hf);
                s.append(&tail);
            },
            None => {
                assert(s@ + Seq::<char>::empty() =~= s@);
            },
        }
        s
    }

    /// Takes in a hostfile with the peers that it shows: all hosts were
    /// tried, and the routes go through the first interface that has an
    /// address.
    pub fn record_hostfile(&mut self, path: String, links: Vec<PeerAddress>, hosts: usize)
        ensures
            final(self).hostfile.deep_view() == Some(path@),
            final(self).peers.verified_links.deep_view() == links.deep_view(),
            final(self).peers.total_tried == hosts,
            final(self).bridge0 == old(self).bridge0,
            final(self).ips == old(self).ips,
            old(self).ips@.len() == 0 ==> final(self).routes == old(self).routes,
            old(self).ips@.len() > 0 ==> (final(self).routes matches RouteResult::Fixed {
                primary_interface,
                interfaces_with_ips,
            } && primary_interface@ == old(self).ips@[0].iface@ && interfaces_with_ips == (
            if links@.len() > 0 {
                links@.len() - 1
            } else {
                0
            })),
    {
        let n: usize = links.len();
        self.hostfile = Some(path);
        self.peers = PeerResult { verified_links: links, total_tried: hosts };
        if self.ips.len() > 0 {
            self.routes = RouteResult::Fixed {
                primary_interface: text::own(&self.ips[0].iface),
                interfaces_with_ips: if n > 0 {
                    n - 1
                } else {
                    0
                },
            };
        }
    }
}

// ---------------------------------------------------------------------------
// The coordinator
// ---------------------------------------------------------------------------

/// The text that stands first in the order of code points.
pub open spec fn least(s: Seq<Seq<char>>) -> Option<Seq<char>>
    decreases s.len(),
{
    if s.len() == 0 {
        None
    } else {
        match least(s.drop_last()) {
            None => Some(s.last()),
            Some(m) => if text::precedes(s.last(), m) {
                Some(s.last())
            } else {
                Some(m)
            },
        }
    }
}

/// The least text stands in the list and before all others.
pub proof fn least_is_first(s: Seq<Seq<char>>)
    requires
        s.len() > 0,
    ensures
        least(s) is Some,
        s.contains(least(s)->0),
        forall|i: int| 0 <= i < s.len() ==> !text::precedes(#[trigger] s[i], least(s)->0),
    decreases s.len(),
{
    let d = s.drop_last();
    text::precedes_total(s.last(), s.last());
    if d.len() > 0 {
        least_is_first(d);
        let m = least(d)->0;
        let k = choose|k: int| 0 <= k < d.len() && d[k] == m;
        assert(s[k] == m);
        assert(s[s.len() - 1] == s.last());
        assert forall|i: int| 0 <= i < s.len() implies !text::precedes(
            #[trigger] s[i],
            least(s)->0,
        ) by {
            if i < d.len() {
                assert(!text::precedes(d[i], m));
                if text::precedes(s.last(), m) && text::precedes(s[i], s.last()) {
                    text::precedes_transitive(s[i], s.last(), m);
                }
            }
        }
    } else {
        assert(s[0] == s.last());
    }
}

/// The text that stands first in the order of code points.
pub fn least_text(v: &Vec<String>) -> (r: Option<String>)
    ensures
        r.deep_view() == least(v.deep_view()),
{
    let ghost s = v.deep_view();
    let mut best: Option<String> = None;
    let mut i: usize = 0;
    while i < v.len()
        invariant
            i <= v@.len(),
            s == v.deep_view(),
            best.deep_view() == least(s.take(i as int)),
        decreases v@.len() - i,
    {
        proof {
            assert(s.take(i + 1).drop_last() =~= s.take(i as int));
            assert(s.take(i + 1).last() == v@[i as int]@);
        }
        let better: bool = match &best {
            None => true,
            Some(m) => text::before(&v[i], m),
        };
        if better {
            best = Some(text::own(&v[i]));
        }
        i = i + 1;
    }
    assert(s.take(i as int) =~= s);
    best
}

/// The names of the hosts in small letters.
pub open spec fn small_names(hosts: Seq<Seq<char>>) -> Seq<Seq<char>> {
    hosts.map_values(|h: Seq<char>| text::lowercase(h))
}

/// The name is that of a host with a number behind it, as Bonjour gives it to
/// a node whose name it found taken.
pub open spec fn is_numbered(name: Seq<char>, host: Seq<char>) -> bool {
    match text::after_prefix(name, host + "-"@) {
        Some(rest) => rest.len() > 0 && text::all_digits(rest),
        None => false,
    }
}

/// The first of the hosts of which the name is a numbered one.
pub open spec fn unnumbered(name: Seq<char>, hosts: Seq<Seq<char>>) -> Seq<char>
    decreases hosts.len(),
{
    if hosts.len() == 0 {
        name
    } else if is_numbered(name, hosts[0]) {
        hosts[0]
    } else {
        unnumbered(name, hosts.drop_first())
    }
}

/// The name by which the other nodes know this one: its own where it is that
/// of a host, else that of the host of which it is a numbered one.
pub open spec fn known_name(name: Seq<char>, hosts: Seq<Seq<char>>) -> Seq<char> {
    if small_names(hosts).contains(name) {
        name
    } else {
        unnumbered(name, small_names(hosts))
    }
}

/// Whether the text is made of digits, and not empty.
fn is_number(s: &str) -> (r: bool)
    ensures
        r == (s@.len() > 0 && text::all_digits(s@)),
{
    let v: Vec<char> = text::chars_of(s);
    let mut i: usize = 0;
    while i < v.len()
        invariant
            i <= v@.len(),
            v@ == s@,
            forall|k: int| 0 <= k < i ==> text::is_digit(#[trigger] v@[k]),
        decreases v@.len() - i,
    {
        if v[i] < '0' || v[i] > '9' {
            assert(!text::is_digit(s@[i as int]));
            return false;
        }
        i = i + 1;
    }
    v.len() > 0
}

/// The names of the hosts in small letters.
fn lower_names(hosts: &Vec<String>) -> (r: Vec<String>)
    ensures
        r.deep_view() == small_names(hosts.deep_view()),
{
    let ghost want = small_names(hosts.deep_view());
    let mut low: Vec<String> = Vec::new();
    let mut i: usize = 0;
    while i < hosts.len()
        invariant
            i <= hosts@.len(),
            want == small_names(hosts.deep_view()),
            low.deep_view() == want.take(i as int),
        decreases hosts@.len() - i,
    {
        text::push_text(&mut low, text::to_lowercase(&hosts[i]));
        i = i + 1;
        assert(low.deep_view() =~= want.take(i as int));
    }
    assert(want.take(i as int) =~= want);
    low
}

/// The name by which the other nodes know this one.
pub fn canonical_host(name: &str, hosts: &Vec<String>) -> (r: String)
    ensures
        r@ == known_name(name@, hosts.deep_view()),
{
    let low: Vec<String> = lower_names(hosts);
    let ghost ls = low.deep_view();
    if text::listed(&low, name) {
        return text::own(name);
    }
    let mut i: usize = 0;
    assert(ls.skip(0) =~= ls);
    while i < low.len()
        invariant
            i <= low@.len(),
            ls == low.deep_view(),
            ls == small_names(hosts.deep_view()),
            !ls.contains(name@),
            unnumbered(name@, ls) == unnumbered(name@, ls.skip(i as int)),
        decreases low@.len() - i,
    {
        assert(ls.skip(i as int)[0] == low@[i as int]@);
        assert(ls.skip(i as int).drop_first() =~= ls.skip(i + 1));
        if let Some(rest) = text::strip_prefix(name, &text::glue(&low[i], "-")) {
            if is_number(&rest) {
                return text::own(&low[i]);
            }
        }
        i = i + 1;
    }
    text::own(name)
}

/// The node that coordinates: the one whose name in small letters stands
/// first.
pub open spec fn coordinator_among(hosts: Seq<Seq<char>>) -> Option<Seq<char>> {
    least(small_names(hosts))
}

/// The node that coordinates.
pub fn coordinator_of(hosts: &Vec<String>) -> (r: Option<String>)
    ensures
        r.deep_view() == coordinator_among(hosts.deep_view()),
{
    least_text(&lower_names(hosts))
}

/// Where the addresses come from.
#[derive(Debug, Clone, Copy, PartialEq, Eq, Structural)]
pub enum IpSource {
    Topology,
    Static,
    LinkLocal,
}

/// Whether this node looks for the topology and sets addresses by it: it is
/// the coordinator, and there is another node.
pub fn assigns_topology(coordinator: &Option<String>, local: &str, hosts: usize) -> (r: bool)
    ensures
        r == (coordinator.deep_view() == Some(local@) && hosts >= 2),
{
    text::same_opt(coordinator, local) && hosts >= 2
}

/// Where the addresses come from: the topology where it gave any, else the
/// settings, else the link-local addresses.
pub fn ip_source(assigned: usize, static_ips: usize) -> (r: IpSource)
    ensures
        assigned > 0 ==> r == IpSource::Topology,
        assigned == 0 && static_ips > 0 ==> r == IpSource::Static,
        assigned == 0 && static_ips == 0 ==> r == IpSource::LinkLocal,
{
    if assigned > 0 {
        IpSource::Topology
    } else if static_ips > 0 {
        IpSource::Static
    } else {
        IpSource::LinkLocal
    }
}

/// The hosts to look at: those that the caller names, else all known nodes,
/// else those with known addresses.
pub fn setup_hosts(
    wanted: &Option<Vec<String>>,
    known: &Vec<String>,
    addressed: &Vec<String>,
) -> (r: Vec<String>)
    ensures
        r.deep_view() == (match wanted.deep_view() {
            Some(w) => w,
            None => if known@.len() > 0 {
                known.deep_view()
            } else {
                addressed.deep_view()
            },
        }),
{
    match wanted {
        Some(w) => text::own_all(w),
        None => if known.len() > 0 {
            text::own_all(known)
        } else {
            text::own_all(addressed)
        },
    }
}

/// The hosts that a caller names: none where the list is empty.
pub fn hosts_override(hosts: Option<Vec<String>>) -> (r: Option<Vec<String>>)
    ensures
        hosts matches Some(h) ==> (if h@.len() > 0 {
            r == hosts
        } else {
            r is None
        }),
        hosts is None ==> r is None,
{
    match hosts {
        Some(h) => if h.len() > 0 {
            Some(h)
        } else {
            None
        },
        None => None,
    }
}

/// The hosts that a document names: the texts in its list of hosts.
pub open spec fn hosts_in(body: Option<serde_json::Value>) -> Option<Seq<Seq<char>>> {
    match body {
        Some(v) => match json::items_at(v, "hosts"@) {
            Some(items) => Some(json::texts_in(items)),
            None => None,
        },
        None => None,
    }
}

/// The hosts that a caller names in the document that comes with the call, if
/// there is one: none where it names no host.
pub fn read_hosts(body: &Option<serde_json::Value>) -> (r: Option<Vec<String>>)
    ensures
        r.deep_view() == (match hosts_in(*body) {
            Some(h) => if h.len() > 0 {
                Some(h)
            } else {
                None
            },
            None => None,
        }),
{
    let named: Option<Vec<String>> = match body {
        Some(v) => match json::member_items(v, "hosts") {
            Some(items) => Some(json::read_texts(items)),
            None => None,
        },
        None => None,
    };
    if let Some(h) = &named {
        assert(h.deep_view().len() == h@.len());
    }
    hosts_override(named)
}

/// The part of the settings that is about the links.
pub fn links_part<'a>(settings: &'a serde_json::Value) -> (r: Option<&'a serde_json::Value>)
    ensures
        match r {
            Some(m) => json::json_member(*settings, "rdma"@) == Some(*m),
            None => json::json_member(*settings, "rdma"@) is None,
        },
{
    json::member(settings, "rdma")
}

// ---------------------------------------------------------------------------
// Addresses that are kept
// ---------------------------------------------------------------------------

/// The texts of an address that is set whatever is found.
pub struct StaticIpView {
    pub iface: Seq<char>,
    pub ip: Seq<char>,
    pub mask: Seq<char>,
}

impl DeepView for StaticIpEntry {
    type V = StaticIpView;

    open spec fn deep_view(&self) -> StaticIpView {
        StaticIpView { iface: self.iface@, ip: self.ip@, mask: self.mask@ }
    }
}

/// What is kept of an address: its interface and itself, in a network of four
/// addresses.
pub open spec fn kept(ip: InterfaceIpView) -> StaticIpView {
    StaticIpView { iface: ip.iface, ip: ip.ip, mask: "255.255.255.252"@ }
}

/// What is kept of the addresses of a coordinator until its next start.
pub fn persist_coordinator_ips(ips: &Vec<InterfaceIp>) -> (r: Vec<StaticIpEntry>)
    ensures
        r.deep_view() == ips.deep_view().map_values(|x: InterfaceIpView| kept(x)),
{
    let ghost want = ips.deep_view().map_values(|x: InterfaceIpView| kept(x));
    let mut out: Vec<StaticIpEntry> = Vec::new();
    let mut i: usize = 0;
    assert(out.deep_view() =~= want.take(0));
    while i < ips.len()
        invariant
            i <= ips@.len(),
            want == ips.deep_view().map_values(|x: InterfaceIpView| kept(x)),
            out.deep_view() == want.take(i as int),
        decreases ips@.len() - i,
    {
        let e = StaticIpEntry {
            iface: text::own(&ips[i].iface),
            ip: text::own(&ips[i].ip),
            mask: default_mask(),
        };
        assert(e.deep_view() == want[i as int]);
        text::push_item(&mut out, e);
        i = i + 1;
        assert(out.deep_view() =~= want.take(i as int));
    }
    assert(want.take(i as int) =~= want);
    out
}

/// The addresses that were set, out of those that were tried.
pub open spec fn set_of(entries: Seq<StaticIpView>, done: Seq<bool>, source: Seq<char>) -> Seq<
    InterfaceIpView,
>
    decreases entries.len(),
{
    if entries.len() == 0 {
        Seq::empty()
    } else {
        let before = set_of(entries.drop_last(), done, source);
        let e = entries.last();
        if done[entries.len() - 1] {
            before.push(InterfaceIpView { iface: e.iface, ip: e.ip, source })
        } else {
            before
        }
    }
}

/// The addresses that were set, given for each whether it could be.
pub fn addresses_set(entries: &Vec<StaticIpEntry>, done: &Vec<bool>, source: &str) -> (r: Vec<
    InterfaceIp,
>)
    requires
        done@.len() == entries@.len(),
    ensures
        r.deep_view() == set_of(entries.deep_view(), done@, source@),
{
    let ghost es = entries.deep_view();
    let mut out: Vec<InterfaceIp> = Vec::new();
    let mut i: usize = 0;
    assert(out.deep_view() =~= set_of(es.take(0), done@, source@));
    while i < entries.len()
        invariant
            i <= entries@.len(),
            done@.len() == entries@.len(),
            es == entries.deep_view(),
            out.deep_view() == set_of(es.take(i as int), done@, source@),
        decreases entries@.len() - i,
    {
        proof {
            assert(es.take(i + 1).drop_last() =~= es.take(i as int));
            assert(es.take(i + 1).last() == entries@[i as int].deep_view());
        }
        if done[i] {
            let x = InterfaceIp {
                iface: text::own(&entries[i].iface),
                ip: text::own(&entries[i].ip),
                source: text::own(source),
            };
            text::push_item(&mut out, x);
        }
        i = i + 1;
    }
    assert(es.take(i as int) =~= es);
    out
}

/// The addresses that are kept come back on their interfaces, where each of
/// them can be set again.
pub proof fn kept_addresses_return(ips: Seq<InterfaceIpView>, done: Seq<bool>, source: Seq<char>)
    requires
        done.len() >= ips.len(),
        forall|i: int| 0 <= i < ips.len() ==> done[i],
    ensures
        ({
            let back = set_of(ips.map_values(|x: InterfaceIpView| kept(x)), done, source);
            &&& back.len() == ips.len()
            &&& forall|i: int|
                0 <= i < ips.len() ==> (#[trigger] back[i]).iface == ips[i].iface && back[i].ip
                    == ips[i].ip
        }),
    decreases ips.len(),
{
    let entries = ips.map_values(|x: InterfaceIpView| kept(x));
    if ips.len() > 0 {
        let fewer = ips.drop_last();
        kept_addresses_return(fewer, done, source);
        assert(fewer.map_values(|x: InterfaceIpView| kept(x)) =~= entries.drop_last());
        let before = set_of(entries.drop_last(), done, source);
        let back = set_of(entries, done, source);
        assert(entries.last() == kept(ips.last()));
        assert forall|i: int| 0 <= i < ips.len() implies (#[trigger] back[i]).iface
            == ips[i].iface && back[i].ip == ips[i].ip by {
            if i < fewer.len() {
                assert(back[i] == before[i]);
                assert(fewer[i] == ips[i]);
            }
        }
    }
}

/// The command that sets an address.
pub open spec fn set_command(iface: Seq<char>, ip: Seq<char>, mask: Seq<char>) -> Seq<Seq<char>> {
    seq!["sudo"@, "ifconfig"@, iface, "inet"@, ip, "netmask"@, mask]
}

/// The command that sets an address.
pub fn build_set_command(iface: &str, ip: &str, mask: &str) -> (r: Vec<String>)
    ensures
        r.deep_view() == set_command(iface@, ip@, mask@),
{
    let mut v: Vec<String> = Vec::new();
    text::push_str(&mut v, "sudo");
    text::push_str(&mut v, "ifconfig");
    text::push_str(&mut v, iface);
    text::push_str(&mut v, "inet");
    text::push_str(&mut v, ip);
    text::push_str(&mut v, "netmask");
    text::push_str(&mut v, mask);
    assert(v.deep_view() =~= set_command(iface@, ip@, mask@));
    v
}

/// The command that takes another address from an interface, if it has one.
pub fn build_clear_command(iface: &str, ip: &str, existing: &Option<String>) -> (r: Option<
    Vec<String>,
>)
    ensures
        r.deep_view() == (match existing.deep_view() {
            Some(x) => if x != ip@ {
                Some(seq!["sudo"@, "ifconfig"@, iface@, "delete"@, x])
            } else {
                None
            },
            None => None,
        }),
{
    match existing {
        Some(x) => if !text::same(x, ip) {
            let mut v: Vec<String> = Vec::new();
            text::push_str(&mut v, "sudo");
            text::push_str(&mut v, "ifconfig");
            text::push_str(&mut v, iface);
            text::push_str(&mut v, "delete");
            text::push_str(&mut v, x);
            assert(v.deep_view() =~= seq!["sudo"@, "ifconfig"@, iface@, "delete"@, x@]);
            Some(v)
        } else {
            None
        },
        None => None,
    }
}

/// The commands that lead the network of an address to an interface.
pub open spec fn route_commands(iface: Seq<char>, ip: Seq<char>) -> Seq<Seq<Seq<char>>> {
    match network_of(ip) {
        Some(net) => seq![
            seq!["sudo"@, "route"@, "delete"@, "-net"@, net],
            seq!["sudo"@, "route"@, "add"@, "-net"@, net, "-interface"@, iface],
        ],
        None => Seq::empty(),
    }
}

/// The commands that lead the network of an address to an interface.
pub fn build_route_commands(iface: &str, ip: &str) -> (r: Vec<Vec<String>>)
    ensures
        r.deep_view() == route_commands(iface@, ip@),
{
    let mut out: Vec<Vec<String>> = Vec::new();
    if let Some(net) = subnet30(ip) {
        let mut gone: Vec<String> = Vec::new();
        text::push_str(&mut gone, "sudo");
        text::push_str(&mut gone, "route");
        text::push_str(&mut gone, "delete");
        text::push_str(&mut gone, "-net");
        text::push_str(&mut gone, &net);
        assert(gone.deep_view() =~= seq!["sudo"@, "route"@, "delete"@, "-net"@, net@]);
        let mut new: Vec<String> = Vec::new();
        text::push_str(&mut new, "sudo");
        text::push_str(&mut new, "route");
        text::push_str(&mut new, "add");
        text::push_str(&mut new, "-net");
        text::push_str(&mut new, &net);
        text::push_str(&mut new, "-interface");
        text::push_str(&mut new, iface);
        assert(new.deep_view() =~= seq![
            "sudo"@,
            "route"@,
            "add"@,
            "-net"@,
            net@,
            "-interface"@,
            iface@,
        ]);
        text::push_item(&mut out, gone);
        text::push_item(&mut out, new);
    }
    assert(out.deep_view() =~= route_commands(iface@, ip@));
    out
}

// ---------------------------------------------------------------------------
// Waiting for a stable topology
// ---------------------------------------------------------------------------

/// The most scans that are made.
pub const MAX_SCANS: u32 = 12;

/// The scans made so far: how many, the most links that one showed, whether
/// the last one showed as many, and whether two in a row did.
pub struct StableScan {
    pub attempts: u32,
    pub best_links: usize,
    pub at_best: bool,
    pub repeated: bool,
}

/// What follows from a scan.
pub struct ScanStep {
    /// The scan is the best so far, and its topology is kept.
    pub keep: bool,
    /// No further scan is made.
    pub finished: bool,
}

/// The scan is not finished.
pub open spec fn scanning(s: StableScan) -> bool {
    s.attempts < MAX_SCANS && !s.repeated
}

impl StableScan {
    /// No scan has been made.
    pub fn new() -> (r: StableScan)
        ensures
            r.attempts == 0,
            r.best_links == 0,
            !r.at_best,
            !r.repeated,
            scanning(r),
    {
        StableScan { attempts: 0, best_links: 0, at_best: false, repeated: false }
    }

    /// Takes in the number of links that a scan showed, or none where it
    /// failed. The scans end when two in a row show the most links, or with
    /// the last that is allowed.
    pub fn observe(&mut self, links: Option<usize>) -> (r: ScanStep)
        requires
            scanning(*old(self)),
        ensures
            final(self).attempts == old(self).attempts + 1,
            r.keep == (links matches Some(n) && n > old(self).best_links),
            final(self).best_links == (if r.keep {
                links->0
            } else {
                old(self).best_links
            }),
            final(self).at_best == (links matches Some(n) && n > 0 && n >= old(self).best_links),
            final(self).repeated == (old(self).at_best && links == Some(old(self).best_links)
                && old(self).best_links > 0),
            r.finished == !scanning(*final(self)),
    {
        self.attempts = self.attempts + 1;
        let mut keep: bool = false;
        let mut at_best: bool = false;
        if let Some(n) = links {
            if n > self.best_links {
                self.best_links = n;
                keep = true;
                at_best = true;
            } else if n == self.best_links && n > 0 {
                self.repeated = self.at_best;
                at_best = true;
            }
        }
        self.at_best = at_best;
        let finished: bool = !(self.attempts < MAX_SCANS && !self.repeated);
        ScanStep { keep, finished }
    }
}

// ---------------------------------------------------------------------------
// Setting addresses
// ---------------------------------------------------------------------------

/// An address to set.
pub enum SetAddress {
    /// On an interface of this node.
    Here { iface: String, ip: String },
    /// On an interface of another node.
    There { node: String, iface: String, ip: String },
}

/// The texts of an address to set.
pub enum SetAddressView {
    Here { iface: Seq<char>, ip: Seq<char> },
    There { node: Seq<char>, iface: Seq<char>, ip: Seq<char> },
}

impl DeepView for SetAddress {
    type V = SetAddressView;

    open spec fn deep_view(&self) -> SetAddressView {
        match self {
            SetAddress::Here { iface, ip } => SetAddressView::Here { iface: iface@, ip: ip@ },
            SetAddress::There { node, iface, ip } => SetAddressView::There {
                node: node@,
                iface: iface@,
                ip: ip@,
            },
        }
    }
}

/// The steps with the one for an end of a link: on this node, or on another
/// one where other nodes are set too.
pub open spec fn with_end(
    steps: Seq<SetAddressView>,
    node: Seq<char>,
    iface: Seq<char>,
    ip: Seq<char>,
    local: Seq<char>,
    push_remote: bool,
) -> Seq<SetAddressView> {
    if node == local {
        steps.push(SetAddressView::Here { iface, ip })
    } else if push_remote {
        steps.push(SetAddressView::There { node, iface, ip })
    } else {
        steps
    }
}

/// The steps for the assignments: for each link the first end, then the
/// second.
pub open spec fn address_steps(
    a: Seq<AssignmentView>,
    local: Seq<char>,
    push_remote: bool,
) -> Seq<SetAddressView>
    decreases a.len(),
{
    if a.len() == 0 {
        Seq::empty()
    } else {
        let x = a.last();
        with_end(
            with_end(
                address_steps(a.drop_last(), local, push_remote),
                x.cable.node_first,
                x.cable.iface_first,
                x.ip_first,
                local,
                push_remote,
            ),
            x.cable.node_second,
            x.cable.iface_second,
            x.ip_second,
            local,
            push_remote,
        )
    }
}

/// Adds the step for an end of a link.
fn add_end(
    steps: &mut Vec<SetAddress>,
    node: &str,
    iface: &str,
    ip: &str,
    local: &str,
    push_remote: bool,
)
    ensures
        final(steps).deep_view() == with_end(
            old(steps).deep_view(),
            node@,
            iface@,
            ip@,
            local@,
            push_remote,
        ),
{
    if text::same(node, local) {
        text::push_item(steps, SetAddress::Here { iface: text::own(iface), ip: text::own(ip) });
    } else if push_remote {
        text::push_item(
            steps,
            SetAddress::There { node: text::own(node), iface: text::own(iface), ip: text::own(ip) },
        );
    }
}

/// The steps that set the addresses of the links, on this node and, where
/// wanted, on the others.
pub fn plan_addresses(a: &Vec<LinkAssignment>, local: &str, push_remote: bool) -> (r: Vec<SetAddress>)
    ensures
        r.deep_view() == address_steps(a.deep_view(), local@, push_remote),
{
    let ghost s = a.deep_view();
    let mut out: Vec<SetAddress> = Vec::new();
    let mut i: usize = 0;
    assert(out.deep_view() =~= address_steps(s.take(0), local@, push_remote));
    while i < a.len()
        invariant
            i <= a@.len(),
            s == a.deep_view(),
            out.deep_view() == address_steps(s.take(i as int), local@, push_remote),
        decreases a@.len() - i,
    {
        proof {
            assert(s.take(i + 1).drop_last() =~= s.take(i as int));
            assert(s.take(i + 1).last() == a@[i as int].deep_view());
        }
        let x: &LinkAssignment = &a[i];
        add_end(&mut out, &x.node_first, &x.iface_first, &x.ip_first, local, push_remote);
        add_end(&mut out, &x.node_second, &x.iface_second, &x.ip_second, local, push_remote);
        i = i + 1;
    }
    assert(s.take(i as int) =~= s);
    out
}

/// A node that does not set the others sets only its own interfaces.
pub proof fn without_push_only_local(a: Seq<AssignmentView>, local: Seq<char>)
    ensures
        forall|i: int|
            0 <= i < address_steps(a, local, false).len() ==> (#[trigger] address_steps(
                a,
                local,
                false,
            )[i]) is Here,
    decreases a.len(),
{
    if a.len() > 0 {
        without_push_only_local(a.drop_last(), local);
    }
}

/// The parts of an address that are numbers of one byte.
pub open spec fn byte_parts(parts: Seq<Seq<char>>) -> Seq<nat>
    decreases parts.len(),
{
    if parts.len() == 0 {
        Seq::empty()
    } else {
        match text::unsigned(parts.last(), 255) {
            Some(n) => byte_parts(parts.drop_last()).push(n),
            None => byte_parts(parts.drop_last()),
        }
    }
}

/// The network of four addresses that an address lies in.
pub open spec fn network_of(ip: Seq<char>) -> Option<Seq<char>> {
    let b = byte_parts(text::split_on(ip, '.'));
    if b.len() == 4 {
        Some(
            text::dec(b[0]) + "."@ + text::dec(b[1]) + "."@ + text::dec(b[2]) + "."@ + text::dec(
                (b[3] / 4 * 4) as nat,
            ) + "/30"@,
        )
    } else {
        None
    }
}

/// The network of four addresses that an address lies in.
pub fn subnet30(ip: &str) -> (r: Option<String>)
    ensures
        r.deep_view() == network_of(ip@),
{
    let parts: Vec<String> = text::split(ip, '.');
    let ghost ps = parts.deep_view();
    let mut b: Vec<u8> = Vec::new();
    let mut i: usize = 0;
    assert(b@.map_values(|x: u8| x as nat) =~= byte_parts(ps.take(0)));
    while i < parts.len()
        invariant
            i <= parts@.len(),
            ps == parts.deep_view(),
            b@.map_values(|x: u8| x as nat) == byte_parts(ps.take(i as int)),
        decreases parts@.len() - i,
    {
        proof {
            assert(ps.take(i + 1).drop_last() =~= ps.take(i as int));
            assert(ps.take(i + 1).last() == parts@[i as int]@);
        }
        let ghost before = b@;
        if let Some(n) = text::parse_u8(&parts[i]) {
            b.push(n);
            assert(b@.map_values(|x: u8| x as nat) =~= before.map_values(|x: u8| x as nat).push(
                n as nat,
            ));
        }
        i = i + 1;
    }
    assert(ps.take(i as int) =~= ps);
    let ghost w = b@.map_values(|x: u8| x as nat);
    if b.len() != 4 {
        return None;
    }
    assert(w[0] == b@[0] && w[1] == b@[1] && w[2] == b@[2] && w[3] == b@[3]);
    let mut s: String = text::decimal(b[0] as u64);
    s.append(".");
    s.append(&text::decimal(b[1] as u64));
    s.append(".");
    s.append(&text::decimal(b[2] as u64));
    s.append(".");
    s.append(&text::decimal((b[3] / 4 * 4) as u64));
    s.append("/30");
    Some(s)
}

/// The commands that renew the route of a network on another node.
pub open spec fn route_command(ip: Seq<char>, iface: Seq<char>) -> Seq<char> {
    let p = text::split_on(ip, '.');
    if p.len() == 4 {
        match text::unsigned(p[3], 255) {
            Some(n) => {
                let net = p[0] + "."@ + p[1] + "."@ + p[2] + "."@ + text::dec((n / 4 * 4) as nat)
                    + "/30"@;
                "sudo route delete -net "@ + net + " 2>/dev/null; sudo route add -net "@ + net
                    + " -interface "@ + iface
            },
            None => Seq::empty(),
        }
    } else {
        Seq::empty()
    }
}

/// The command that sets an address on another node: an old address goes, the
/// new one is set, and its route is renewed.
pub open spec fn remote_command(iface: Seq<char>, ip: Seq<char>) -> Seq<char> {
    "old=$(ifconfig "@ + iface
        + " 2>/dev/null | grep 'inet ' | awk '{print $2}'); [ -n \"$old\" ] && [ \"$old\" != \""@
        + ip + "\" ] && sudo ifconfig "@ + iface + " delete $old 2>/dev/null; sudo ifconfig "@
        + iface + " inet "@ + ip + " netmask 255.255.255.252; "@ + route_command(ip, iface)
}

/// The commands that renew the route of a network on another node.
fn build_route_command(ip: &str, iface: &str) -> (r: String)
    ensures
        r@ == route_command(ip@, iface@),
{
    let p: Vec<String> = text::split(ip, '.');
    if p.len() != 4 {
        return String::new();
    }
    assert(p.deep_view()[0] == p@[0]@);
    assert(p.deep_view()[1] == p@[1]@);
    assert(p.deep_view()[2] == p@[2]@);
    assert(p.deep_view()[3] == p@[3]@);
    match text::parse_u8(&p[3]) {
        None => String::new(),
        Some(n) => {
            let mut net: String = text::glue(&p[0], ".");
            net.append(&p[1]);
            net.append(".");
            net.append(&p[2]);
            net.append(".");
            net.append(&text::decimal((n / 4 * 4) as u64));
            net.append("/30");
            let mut s: String = text::glue("sudo route delete -net ", &net);
            s.append(" 2>/dev/null; sudo route add -net ");
            s.append(&net);
            s.append(" -interface ");
            s.append(iface);
            s
        },
    }
}

/// The command that sets an address on another node.
pub fn build_remote_command(iface: &str, ip: &str) -> (r: String)
    ensures
        r@ == remote_command(iface@, ip@),
{
    let mut s: String = text::glue("old=$(ifconfig ", iface);
    s.append(
        " 2>/dev/null | grep 'inet ' | awk '{print $2}'); [ -n \"$old\" ] && [ \"$old\" != \"",
    );
    s.append(ip);
    s.append("\" ] && sudo ifconfig ");
    s.append(iface);
    s.append(" delete $old 2>/dev/null; sudo ifconfig ");
    s.append(iface);
    s.append(" inet ");
    s.append(ip);
    s.append(" netmask 255.255.255.252; ");
    s.append(&build_route_command(ip, iface));
    s
}

/// The name of a host in the local network: one without a dot gets `.local`.
pub open spec fn local_name(host: Seq<char>) -> Seq<char> {
    if text::has(host, "."@) {
        host
    } else {
        host + ".local"@
    }
}

/// The names of the hosts in the local network.
pub fn local_names(hosts: &Vec<String>) -> (r: Vec<String>)
    ensures
        r.deep_view() == hosts.deep_view().map_values(|h: Seq<char>| local_name(h)),
{
    let ghost want = hosts.deep_view().map_values(|h: Seq<char>| local_name(h));
    let mut out: Vec<String> = Vec::new();
    let mut i: usize = 0;
    while i < hosts.len()
        invariant
            i <= hosts@.len(),
            want == hosts.deep_view().map_values(|h: Seq<char>| local_name(h)),
            out.deep_view() == want.take(i as int),
        decreases hosts@.len() - i,
    {
        if text::contains(&hosts[i], ".") {
            text::push_str(&mut out, &hosts[i]);
        } else {
            text::push_text(&mut out, text::glue(&hosts[i], ".local"));
        }
        i = i + 1;
        assert(out.deep_view() =~= want.take(i as int));
    }
    assert(want.take(i as int) =~= want);
    out
}

// ---------------------------------------------------------------------------
// Reading the output of network tools
// ---------------------------------------------------------------------------

/// The members of a bridge that the lines of `ifconfig` name.
pub open spec fn members_in(lines: Seq<Seq<char>>) -> Seq<Seq<char>>
    decreases lines.len(),
{
    if lines.len() == 0 {
        Seq::empty()
    } else {
        let rest = members_in(lines.drop_last());
        if text::starts(text::trimmed(lines.last()), "member:"@) {
            match text::nth_word(lines.last(), 1) {
                Some(w) => rest.push(w),
                None => rest,
            }
        } else {
            rest
        }
    }
}

/// The members of the Thunderbolt bridge in the output of `ifconfig`.
pub fn bridge_members(output: &str) -> (r: Vec<String>)
    ensures
        r.deep_view() == members_in(text::lines_of(output@)),
{
    let all: Vec<String> = text::lines(output);
    let ghost ls = all.deep_view();
    let mut out: Vec<String> = Vec::new();
    let mut i: usize = 0;
    assert(out.deep_view() =~= members_in(ls.take(0)));
    while i < all.len()
        invariant
            i <= all@.len(),
            ls == all.deep_view(),
            out.deep_view() == members_in(ls.take(i as int)),
        decreases all@.len() - i,
    {
        proof {
            assert(ls.take(i + 1).drop_last() =~= ls.take(i as int));
            assert(ls.take(i + 1).last() == all@[i as int]@);
        }
        if text::starts_with(&text::trim(&all[i]), "member:") {
            if let Some(w) = text::word(&all[i], 1) {
                text::push_text(&mut out, w);
            }
        }
        i = i + 1;
    }
    assert(ls.take(i as int) =~= ls);
    out
}

/// A Thunderbolt interface and the number in its name.
pub struct TbInterface {
    pub name: String,
    pub index: u8,
}

/// The device that a line of `networksetup` names, and its number.
pub open spec fn tb_device(line: Seq<char>) -> Option<(Seq<char>, nat)> {
    match text::after_prefix(line, "Device: "@) {
        None => None,
        Some(rest) => match text::after_prefix(text::trimmed(rest), "en"@) {
            None => None,
            Some(digits) => match text::unsigned(digits, 255) {
                None => None,
                Some(n) => Some((text::trimmed(rest), n)),
            },
        },
    }
}

/// The line begins the entry of a Thunderbolt port, and not of the bridge.
pub open spec fn tb_port_line(line: Seq<char>) -> bool {
    text::has(line, "Thunderbolt"@) && !text::has(line, "Bridge"@)
}

/// The Thunderbolt interfaces in the first `k` lines of `networksetup`, with
/// the line behind each.
pub open spec fn tb_interfaces_in(lines: Seq<Seq<char>>, k: nat) -> Seq<(Seq<char>, nat)>
    decreases k,
{
    if k == 0 || k > lines.len() {
        Seq::empty()
    } else {
        let rest = tb_interfaces_in(lines, (k - 1) as nat);
        if tb_port_line(lines[k - 1]) && k < lines.len() {
            match tb_device(lines[k as int]) {
                Some(d) => rest.push(d),
                None => rest,
            }
        } else {
            rest
        }
    }
}

/// The names and numbers of interfaces.
pub open spec fn tb_views(v: Seq<TbInterface>) -> Seq<(Seq<char>, nat)> {
    v.map_values(|t: TbInterface| (t.name@, t.index as nat))
}

/// The device that a line of `networksetup` names, and its number.
fn parse_tb_device(line: &str) -> (r: Option<TbInterface>)
    ensures
        r is Some <==> tb_device(line@) is Some,
        r matches Some(t) ==> tb_device(line@) == Some((t.name@, t.index as nat)),
{
    match text::strip_prefix(line, "Device: ") {
        None => None,
        Some(rest) => {
            let name: String = text::trim(&rest);
            match text::strip_prefix(&name, "en") {
                None => None,
                Some(digits) => match text::parse_u8(&digits) {
                    None => None,
                    Some(index) => Some(TbInterface { name, index }),
                },
            }
        },
    }
}

/// The Thunderbolt interfaces in the output of
/// `networksetup -listallhardwareports`.
pub fn tb_interfaces(output: &str) -> (r: Vec<TbInterface>)
    ensures
        tb_views(r@) == tb_interfaces_in(
            text::lines_of(output@),
            text::lines_of(output@).len(),
        ),
{
    let all: Vec<String> = text::lines(output);
    let ghost ls = all.deep_view();
    let mut out: Vec<TbInterface> = Vec::new();
    let mut i: usize = 0;
    assert(tb_views(out@) =~= tb_interfaces_in(ls, 0));
    while i < all.len()
        invariant
            i <= all@.len(),
            ls == all.deep_view(),
            tb_views(out@) == tb_interfaces_in(ls, i as nat),
        decreases all@.len() - i,
    {
        assert(ls[i as int] == all@[i as int]@);
        let ghost before = out@;
        if text::contains(&all[i], "Thunderbolt") && !text::contains(&all[i], "Bridge") && i + 1
            < all.len() {
            assert(ls[i + 1] == all@[i + 1]@);
            if let Some(t) = parse_tb_device(&all[i + 1]) {
                let ghost tv = (t.name@, t.index as nat);
                out.push(t);
                assert(tb_views(out@) =~= tb_views(before).push(tv));
            }
        }
        i = i + 1;
    }
    out
}

/// The last word of the first line that holds `status:`, or nothing.
pub open spec fn status_in(output: Seq<char>) -> Seq<char> {
    match text::first_with(text::lines_of(output), "status:"@) {
        Some(line) => if text::words_of(line).len() > 0 {
            text::words_of(line).last()
        } else {
            Seq::empty()
        },
        None => Seq::empty(),
    }
}

/// The status of an interface in the output of `ifconfig`.
pub fn interface_status(output: &str) -> (r: String)
    ensures
        r@ == status_in(output@),
{
    match text::line_with(output, "status:") {
        Some(line) => {
            let w: Vec<String> = text::words(&line);
            if w.len() > 0 {
                assert(w.deep_view().last() == w@.last()@);
                text::own(&w[w.len() - 1])
            } else {
                String::new()
            }
        },
        None => String::new(),
    }
}

/// The link-local address of an interface in the output of `ifconfig`.
pub fn link_local_ip(output: &str) -> (r: Option<String>)
    ensures
        r.deep_view() == text::word_with(text::lines_of(output@), "inet 169.254"@, 1),
{
    text::line_word(output, "inet 169.254", 1)
}

/// The hardware address of an interface in the output of `ifconfig`.
pub fn hardware_address(output: &str) -> (r: Option<String>)
    ensures
        r.deep_view() == text::word_with(text::lines_of(output@), "ether "@, 1),
{
    text::line_word(output, "ether ", 1)
}

/// The first of the lines with an address of version 4.
pub open spec fn first_inet(lines: Seq<Seq<char>>) -> Option<Seq<char>>
    decreases lines.len(),
{
    if lines.len() == 0 {
        None
    } else if text::has(lines[0], "inet "@) && !text::has(lines[0], "inet6"@) {
        text::nth_word(lines[0], 1)
    } else {
        first_inet(lines.drop_first())
    }
}

/// The address of version 4 that an interface has, in the output of
/// `ifconfig`.
pub fn current_address(output: &str) -> (r: Option<String>)
    ensures
        r.deep_view() == first_inet(text::lines_of(output@)),
{
    let all: Vec<String> = text::lines(output);
    let ghost ls = all.deep_view();
    let mut i: usize = 0;
    assert(ls.skip(0) =~= ls);
    while i < all.len()
        invariant
            i <= all@.len(),
            ls == all.deep_view(),
            ls == text::lines_of(output@),
            first_inet(ls) == first_inet(ls.skip(i as int)),
        decreases all@.len() - i,
    {
        assert(ls.skip(i as int)[0] == all@[i as int]@);
        assert(ls.skip(i as int).drop_first() =~= ls.skip(i + 1));
        if text::contains(&all[i], "inet ") && !text::contains(&all[i], "inet6") {
            return text::word(&all[i], 1);
        }
        i = i + 1;
    }
    None
}

/// What stands between the first `(` and the next `)`.
pub open spec fn bracketed(line: Seq<char>) -> Option<Seq<char>> {
    match text::cut_at(line, '(') {
        None => None,
        Some(a) => match text::cut_at(a.1, ')') {
            None => None,
            Some(b) => Some(b.0),
        },
    }
}

/// What stands between the first `(` and the next `)`.
pub fn in_brackets(line: &str) -> (r: Option<String>)
    ensures
        r.deep_view() == bracketed(line@),
{
    match text::cut(line, '(') {
        None => None,
        Some(a) => match text::cut(&a.1, ')') {
            None => None,
            Some(b) => Some(b.0),
        },
    }
}

/// The first word behind the first occurrence of `p`.
pub open spec fn word_behind(line: Seq<char>, p: Seq<char>) -> Option<Seq<char>> {
    match text::nth_text_piece(line, p, 1) {
        Some(rest) => text::nth_word(rest, 0),
        None => None,
    }
}

/// The first word behind the first occurrence of `p`, which is not empty.
pub fn first_word_behind(line: &str, p: &str) -> (r: Option<String>)
    requires
        p@.len() > 0,
    ensures
        r.deep_view() == word_behind(line@, p@),
{
    match text::text_piece(line, p, 1) {
        Some(rest) => text::word(&rest, 0),
        None => None,
    }
}

/// The peer address that a line of `arp -an` maps to a hardware address of
/// this node: an entry that the bridge left behind.
pub open spec fn poisoned_in(
    line: Seq<char>,
    macs: Seq<Seq<char>>,
    own_ips: Seq<Seq<char>>,
) -> Option<Seq<char>> {
    if !text::has(line, "permanent"@) || text::has(line, "on lo0"@) {
        None
    } else {
        match (bracketed(line), word_behind(line, " at "@)) {
            (Some(ip), Some(mac)) => if text::starts(ip, "169.254"@) && !own_ips.contains(ip)
                && macs.contains(mac) {
                Some(ip)
            } else {
                None
            },
            _ => None,
        }
    }
}

/// The addresses whose entries are to be removed.
pub open spec fn poisoned(
    lines: Seq<Seq<char>>,
    macs: Seq<Seq<char>>,
    own_ips: Seq<Seq<char>>,
) -> Seq<Seq<char>>
    decreases lines.len(),
{
    if lines.len() == 0 {
        Seq::empty()
    } else {
        let rest = poisoned(lines.drop_last(), macs, own_ips);
        match poisoned_in(lines.last(), macs, own_ips) {
            Some(ip) => rest.push(ip),
            None => rest,
        }
    }
}

/// The addresses whose entries in the output of `arp -an` are to be removed.
pub fn poisoned_entries(arp: &str, macs: &Vec<String>, own_ips: &Vec<String>) -> (r: Vec<String>)
    ensures
        r.deep_view() == poisoned(text::lines_of(arp@), macs.deep_view(), own_ips.deep_view()),
{
    let all: Vec<String> = text::lines(arp);
    let ghost ls = all.deep_view();
    let ghost ms = macs.deep_view();
    let ghost os = own_ips.deep_view();
    let mut out: Vec<String> = Vec::new();
    let mut i: usize = 0;
    proof {
        reveal_strlit(" at ");
    }
    assert(out.deep_view() =~= poisoned(ls.take(0), ms, os));
    while i < all.len()
        invariant
            i <= all@.len(),
            ls == all.deep_view(),
            ms == macs.deep_view(),
            os == own_ips.deep_view(),
            " at "@.len() > 0,
            out.deep_view() == poisoned(ls.take(i as int), ms, os),
        decreases all@.len() - i,
    {
        proof {
            assert(ls.take(i + 1).drop_last() =~= ls.take(i as int));
            assert(ls.take(i + 1).last() == all@[i as int]@);
        }
        let line: &String = &all[i];
        if text::contains(line, "permanent") && !text::contains(line, "on lo0") {
            if let Some(ip) = in_brackets(line) {
                if let Some(mac) = first_word_behind(line, " at ") {
                    if text::starts_with(&ip, "169.254") && !text::listed(own_ips, &ip)
                        && text::listed(macs, &mac) {
                        text::push_text(&mut out, ip);
                    }
                }
            }
        }
        i = i + 1;
    }
    assert(ls.take(i as int) =~= ls);
    out
}

/// No address of this node is removed from its table.
pub proof fn own_addresses_are_kept(
    lines: Seq<Seq<char>>,
    macs: Seq<Seq<char>>,
    own_ips: Seq<Seq<char>>,
)
    ensures
        forall|i: int|
            0 <= i < poisoned(lines, macs, own_ips).len() ==> !own_ips.contains(
                #[trigger] poisoned(lines, macs, own_ips)[i],
            ),
    decreases lines.len(),
{
    if lines.len() > 0 {
        own_addresses_are_kept(lines.drop_last(), macs, own_ips);
        let rest = poisoned(lines.drop_last(), macs, own_ips);
        let now = poisoned(lines, macs, own_ips);
        assert forall|i: int| 0 <= i < now.len() implies !own_ips.contains(#[trigger] now[i]) by {
            if i < rest.len() {
                assert(now[i] == rest[i]);
            }
        }
    }
}

/// The time that a line of `ping` gives, as it is written.
pub fn latency_text(output: &str) -> (r: Option<String>)
    ensures
        r.deep_view() == (match text::first_with(text::lines_of(output@), "time="@) {
            Some(line) => word_behind(line, "time="@),
            None => None,
        }),
{
    match text::line_with(output, "time=") {
        Some(line) => {
            proof {
                reveal_strlit("time=");
            }
            first_word_behind(&line, "time=")
        },
        None => None,
    }
}

// ---------------------------------------------------------------------------
// Link-local addresses
// ---------------------------------------------------------------------------

/// What is done about the link-local address of an interface.
pub enum LinkLocalStep {
    /// Nothing: no cable is connected.
    Skip,
    /// The address is there.
    Use(InterfaceIp),
    /// Wait for one.
    Wait,
    /// Set this one.
    Assign(InterfaceIp),
}

/// What is done first: an interface without a cable is left alone, one with
/// an address keeps it, and another waits for one.
pub fn first_link_local(name: &str, status: &str, existing: &Option<String>) -> (r: LinkLocalStep)
    ensures
        status@ != "active"@ ==> r is Skip,
        status@ == "active"@ ==> (match existing.deep_view() {
            Some(ip) => r matches LinkLocalStep::Use(a) && a.deep_view() == (InterfaceIpView {
                iface: name@,
                ip,
                source: "existing"@,
            }),
            None => r is Wait,
        }),
{
    if !text::same(status, "active") {
        return LinkLocalStep::Skip;
    }
    match existing {
        Some(ip) => LinkLocalStep::Use(
            InterfaceIp {
                iface: text::own(name),
                ip: text::own(ip),
                source: text::own("existing"),
            },
        ),
        None => LinkLocalStep::Wait,
    }
}

/// What is done after the wait: the address that came is used, and without
/// one an address is set that the number of the interface decides.
pub fn second_link_local(name: &str, index: u8, came: &Option<String>) -> (r: LinkLocalStep)
    ensures
        match came.deep_view() {
            Some(ip) => r matches LinkLocalStep::Use(a) && a.deep_view() == (InterfaceIpView {
                iface: name@,
                ip,
                source: "ipv4ll"@,
            }),
            None => r matches LinkLocalStep::Assign(a) && a.deep_view() == (InterfaceIpView {
                iface: name@,
                ip: "169.254."@ + text::dec(index as nat) + ".1"@,
                source: "manual"@,
            }),
        },
{
    match came {
        Some(ip) => LinkLocalStep::Use(
            InterfaceIp { iface: text::own(name), ip: text::own(ip), source: text::own("ipv4ll") },
        ),
        None => {
            let mut ip: String = text::glue("169.254.", &text::decimal(index as u64));
            ip.append(".1");
            LinkLocalStep::Assign(
                InterfaceIp { iface: text::own(name), ip, source: text::own("manual") },
            )
        },
    }
}

// ---------------------------------------------------------------------------
// Probing peers
// ---------------------------------------------------------------------------

/// The peers that are probed: every address of every node but this one.
pub open spec fn peers_to_probe(
    nodes: Seq<(Seq<char>, Seq<Seq<char>>)>,
    local: Seq<char>,
) -> Seq<PeerAddressView>
    decreases nodes.len(),
{
    if nodes.len() == 0 {
        Seq::empty()
    } else {
        let rest = peers_to_probe(nodes.drop_last(), local);
        if text::lowercase(nodes.last().0) == local {
            rest
        } else {
            rest + nodes.last().1.map_values(
                |ip: Seq<char>| PeerAddressView { hostname: nodes.last().0, ip },
            )
        }
    }
}

/// The peers that are probed, given the addresses of the nodes and the name
/// of this one in small letters.
pub fn probe_list(nodes: &Vec<(String, Vec<String>)>, local: &str) -> (r: Vec<PeerAddress>)
    ensures
        r.deep_view() == peers_to_probe(nodes.deep_view(), local@),
{
    let ghost ns = nodes.deep_view();
    let mut out: Vec<PeerAddress> = Vec::new();
    let mut i: usize = 0;
    assert(out.deep_view() =~= peers_to_probe(ns.take(0), local@));
    while i < nodes.len()
        invariant
            i <= nodes@.len(),
            ns == nodes.deep_view(),
            out.deep_view() == peers_to_probe(ns.take(i as int), local@),
        decreases nodes@.len() - i,
    {
        let node: &(String, Vec<String>) = &nodes[i];
        proof {
            assert(ns.take(i + 1).drop_last() =~= ns.take(i as int));
            assert(ns.take(i + 1).last() == node.deep_view());
        }
        if !text::same(&text::to_lowercase(&node.0), local) {
            let ghost before = out.deep_view();
            let ghost more = node.1.deep_view().map_values(
                |ip: Seq<char>| PeerAddressView { hostname: node.0@, ip },
            );
            let mut k: usize = 0;
            assert(before + more.take(0) =~= before);
            while k < node.1.len()
                invariant
                    k <= node.1@.len(),
                    more == node.1.deep_view().map_values(
                        |ip: Seq<char>| PeerAddressView { hostname: node.0@, ip },
                    ),
                    out.deep_view() == before + more.take(k as int),
                decreases node.1@.len() - k,
            {
                let p = PeerAddress { hostname: text::own(&node.0), ip: text::own(&node.1[k]) };
                text::push_item(&mut out, p);
                k = k + 1;
                assert(out.deep_view() =~= before + more.take(k as int));
            }
            assert(more.take(k as int) =~= more);
            assert(more =~= ns[i as int].1.map_values(
                |ip: Seq<char>| PeerAddressView { hostname: ns[i as int].0, ip },
            ));
        }
        i = i + 1;
    }
    assert(ns.take(i as int) =~= ns);
    out
}

/// The part of the probing that is under way.
#[derive(Debug, Clone, Copy, PartialEq, Eq, Structural)]
pub enum Phase {
    /// Every peer through every interface, until one works.
    Source,
    /// The peers that were not found, through each interface but the first,
    /// with a route of their own for the time of the probe.
    Route,
    /// Nothing is left.
    Done,
}

/// A place in the probing.
pub struct Place {
    pub phase: Phase,
    pub peer: int,
    pub local: int,
}

/// The place of the next probe, from a place that may lie behind the end of a
/// row or at a peer that was found.
pub open spec fn settle(at: Place, locals: int, ips: Seq<Seq<char>>, found: Seq<Seq<char>>) -> Place
    decreases
            (match at.phase {
                Phase::Source => 2nat,
                Phase::Route => 1nat,
                Phase::Done => 0nat,
            }),
            locals - at.local,
            ips.len() - at.peer,
{
    match at.phase {
        Phase::Source => if at.peer < ips.len() {
            at
        } else {
            settle(Place { phase: Phase::Route, peer: 0, local: 1 }, locals, ips, found)
        },
        Phase::Route => if at.local >= locals {
            Place { phase: Phase::Done, peer: 0, local: 0 }
        } else if at.peer >= ips.len() {
            settle(Place { phase: Phase::Route, peer: 0, local: at.local + 1 }, locals, ips, found)
        } else if found.contains(ips[at.peer]) {
            settle(
                Place { phase: Phase::Route, peer: at.peer + 1, local: at.local },
                locals,
                ips,
                found,
            )
        } else {
            at
        },
        Phase::Done => Place { phase: Phase::Done, peer: 0, local: 0 },
    }
}

/// The place behind a probe that did or did not reach its peer.
pub open spec fn behind(at: Place, locals: int, reached: bool) -> Place {
    match at.phase {
        Phase::Source => if reached || at.local + 1 >= locals {
            Place { phase: Phase::Source, peer: at.peer + 1, local: 0 }
        } else {
            Place { phase: Phase::Source, peer: at.peer, local: at.local + 1 }
        },
        Phase::Route => Place { phase: Phase::Route, peer: at.peer + 1, local: at.local },
        Phase::Done => at,
    }
}

/// The addresses of peers.
pub open spec fn ips_of(peers: Seq<PeerAddressView>) -> Seq<Seq<char>> {
    peers.map_values(|p: PeerAddressView| p.ip)
}

/// A run of probes.
pub struct ProbeRun {
    peers: Vec<PeerAddress>,
    locals: Vec<InterfaceIp>,
    phase: Phase,
    peer: usize,
    local: usize,
    reached: Vec<PeerAddress>,
}

/// A run of probes, with its texts.
pub struct ProbeView {
    pub peers: Seq<PeerAddressView>,
    pub locals: Seq<InterfaceIpView>,
    pub at: Place,
    pub reached: Seq<PeerAddressView>,
}

/// A probe to make.
pub struct Probe {
    pub hostname: String,
    /// The address to reach.
    pub target: String,
    /// The address from which it is tried.
    pub source: String,
    /// The interface of that address.
    pub iface: String,
    /// The target gets a route through the interface before the probe, which
    /// goes where the probe fails.
    pub temporary_route: bool,
}

/// The probe that a place stands for.
pub open spec fn probe_at(v: ProbeView, p: Probe) -> bool {
    &&& p.hostname@ == v.peers[v.at.peer].hostname
    &&& p.target@ == v.peers[v.at.peer].ip
    &&& p.source@ == v.locals[v.at.local].ip
    &&& p.iface@ == v.locals[v.at.local].iface
    &&& p.temporary_route == (v.at.phase is Route)
}

impl View for ProbeRun {
    type V = ProbeView;

    closed spec fn view(&self) -> ProbeView {
        ProbeView {
            peers: self.peers.deep_view(),
            locals: self.locals.deep_view(),
            at: Place {
                phase: self.phase,
                peer: self.peer as int,
                local: self.local as int,
            },
            reached: self.reached.deep_view(),
        }
    }
}

/// The place is one of a probe, or nothing is left.
pub open spec fn settled(v: ProbeView) -> bool {
    &&& v.locals.len() > 0
    &&& v.at == settle(v.at, v.locals.len() as int, ips_of(v.peers), ips_of(v.reached))
    &&& !(v.at.phase is Done) ==> 0 <= v.at.peer < v.peers.len() && 0 <= v.at.local
        < v.locals.len()
    &&& v.at.phase is Route ==> !ips_of(v.reached).contains(v.peers[v.at.peer].ip)
}

/// Settling a place once is enough, and it leads to a probe or to the end.
proof fn settle_settles(at: Place, locals: int, ips: Seq<Seq<char>>, found: Seq<Seq<char>>)
    requires
        locals > 0,
        at.peer >= 0,
        0 <= at.local,
        at.phase is Source ==> at.local < locals,
    ensures
        ({
            let to = settle(at, locals, ips, found);
            &&& settle(to, locals, ips, found) == to
            &&& !(to.phase is Done) ==> 0 <= to.peer < ips.len() && 0 <= to.local < locals
            &&& to.phase is Route ==> !found.contains(ips[to.peer])
        }),
    decreases
            (match at.phase {
                Phase::Source => 2nat,
                Phase::Route => 1nat,
                Phase::Done => 0nat,
            }),
            locals - at.local,
            ips.len() - at.peer,
{
    match at.phase {
        Phase::Source => if at.peer >= ips.len() {
            settle_settles(Place { phase: Phase::Route, peer: 0, local: 1 }, locals, ips, found);
        },
        Phase::Route => if at.local >= locals {
        } else if at.peer >= ips.len() {
            settle_settles(
                Place { phase: Phase::Route, peer: 0, local: at.local + 1 },
                locals,
                ips,
                found,
            );
        } else if found.contains(ips[at.peer]) {
            settle_settles(
                Place { phase: Phase::Route, peer: at.peer + 1, local: at.local },
                locals,
                ips,
                found,
            );
        },
        Phase::Done => {},
    }
}

impl ProbeRun {
    /// A probe is next, or nothing is left.
    pub open spec fn wf(&self) -> bool {
        settled(self@)
    }

    /// Moves to the next probe.
    fn advance(&mut self)
        requires
            old(self)@.locals.len() > 0,
            !(old(self)@.at.phase is Done),
            old(self)@.at.phase is Source ==> old(self)@.at.local < old(self)@.locals.len(),
        ensures
            final(self)@ == (ProbeView {
                at: settle(
                    old(self)@.at,
                    old(self)@.locals.len() as int,
                    ips_of(old(self)@.peers),
                    ips_of(old(self)@.reached),
                ),
                ..old(self)@
            }),
            settled(final(self)@),
    {
        let ghost start = self@;
        let ghost locals = start.locals.len() as int;
        let ghost ips = ips_of(start.peers);
        let ghost found = ips_of(start.reached);
        proof {
            settle_settles(start.at, locals, ips, found);
        }
        if matches!(self.phase, Phase::Source) && self.peer >= self.peers.len() {
            self.phase = Phase::Route;
            self.peer = 0;
            self.local = 1;
        }
        assert(settle(start.at, locals, ips, found) == settle(self@.at, locals, ips, found));
        while matches!(self.phase, Phase::Route)
            invariant
                self@.peers == start.peers,
                self@.locals == start.locals,
                self@.reached == start.reached,
                locals == start.locals.len(),
                ips == ips_of(start.peers),
                found == ips_of(start.reached),
                settle(start.at, locals, ips, found) == settle(self@.at, locals, ips, found),
                self.phase is Source ==> self.peer < self.peers@.len(),
                self.phase is Done ==> self.peer == 0 && self.local == 0,
            ensures
                self@.peers == start.peers,
                self@.locals == start.locals,
                self@.reached == start.reached,
                self@.at == settle(start.at, locals, ips, found),
            decreases
                    (match self.phase {
                        Phase::Source => 2nat,
                        Phase::Route => 1nat,
                        Phase::Done => 0nat,
                    }),
                    self.locals@.len() - self.local,
                    self.peers@.len() - self.peer,
        {
            if self.local >= self.locals.len() {
                self.phase = Phase::Done;
                self.peer = 0;
                self.local = 0;
            } else if self.peer >= self.peers.len() {
                self.peer = 0;
                self.local = self.local + 1;
            } else {
                let ip: &String = &self.peers[self.peer].ip;
                assert(start.peers[self.peer as int] == self.peers@[self.peer as int].deep_view());
                assert(ips[self.peer as int] == ip@);
                let known: bool = has_ip(&self.reached, ip);
                if !known {
                    assert(settle(self@.at, locals, ips, found) == self@.at);
                    break;
                }
                self.peer = self.peer + 1;
            }
        }
        assert(self@ == (ProbeView { at: settle(start.at, locals, ips, found), ..start }));
    }

    /// Begins a run. There must be an interface with an address.
    pub fn new(peers: Vec<PeerAddress>, locals: Vec<InterfaceIp>) -> (r: ProbeRun)
        requires
            locals@.len() > 0,
        ensures
            r.wf(),
            r@.peers == peers.deep_view(),
            r@.locals == locals.deep_view(),
            r@.reached.len() == 0,
            r@.at == settle(
                Place { phase: Phase::Source, peer: 0, local: 0 },
                locals@.len() as int,
                ips_of(peers.deep_view()),
                Seq::empty(),
            ),
    {
        let mut run = ProbeRun {
            peers,
            locals,
            phase: Phase::Source,
            peer: 0,
            local: 0,
            reached: Vec::new(),
        };
        assert(ips_of(run@.reached) =~= Seq::<Seq<char>>::empty());
        run.advance();
        run
    }

    /// The next probe, or none where nothing is left.
    pub fn next(&self) -> (r: Option<Probe>)
        requires
            self.wf(),
        ensures
            r is None <==> self@.at.phase is Done,
            r matches Some(p) ==> probe_at(self@, p),
    {
        if matches!(self.phase, Phase::Done) {
            return None;
        }
        assert(self@.peers[self.peer as int] == self.peers@[self.peer as int].deep_view());
        assert(self@.locals[self.local as int] == self.locals@[self.local as int].deep_view());
        Some(
            Probe {
                hostname: text::own(&self.peers[self.peer].hostname),
                target: text::own(&self.peers[self.peer].ip),
                source: text::own(&self.locals[self.local].ip),
                iface: text::own(&self.locals[self.local].iface),
                temporary_route: matches!(self.phase, Phase::Route),
            },
        )
    }

    /// Takes in whether the probe reached its peer.
    pub fn record(&mut self, reached: bool)
        requires
            old(self).wf(),
            !(old(self)@.at.phase is Done),
        ensures
            final(self).wf(),
            final(self)@.peers == old(self)@.peers,
            final(self)@.locals == old(self)@.locals,
            final(self)@.reached == (if reached {
                old(self)@.reached.push(old(self)@.peers[old(self)@.at.peer])
            } else {
                old(self)@.reached
            }),
            final(self)@.at == settle(
                behind(old(self)@.at, old(self)@.locals.len() as int, reached),
                old(self)@.locals.len() as int,
                ips_of(old(self)@.peers),
                ips_of(final(self)@.reached),
            ),
    {
        let ghost start = self@;
        let peers: usize = self.peers.len();
        let locals: usize = self.locals.len();
        assert(self.peer < peers && self.local < locals);
        if reached {
            let p: &PeerAddress = &self.peers[self.peer];
            assert(start.peers[self.peer as int] == self.peers@[self.peer as int].deep_view());
            let hit = PeerAddress { hostname: text::own(&p.hostname), ip: text::own(&p.ip) };
            text::push_item(&mut self.reached, hit);
        }
        match self.phase {
            Phase::Source => {
                if reached || self.local + 1 >= locals {
                    self.peer = self.peer + 1;
                    self.local = 0;
                } else {
                    self.local = self.local + 1;
                }
            },
            Phase::Route => {
                self.peer = self.peer + 1;
            },
            Phase::Done => {},
        }
        assert(self@.at == behind(start.at, start.locals.len() as int, reached));
        self.advance();
    }

    /// The routes and peers that a run came to: one route for each peer that
    /// was reached, the first interface as the primary one.
    pub fn finish(self) -> (r: (RouteResult, PeerResult))
        requires
            self.wf(),
        ensures
            r.0 matches RouteResult::Fixed { primary_interface, interfaces_with_ips }
                && primary_interface@ == self@.locals[0].iface && interfaces_with_ips
                == self@.reached.len(),
            r.1.verified_links.deep_view() == self@.reached,
            r.1.total_tried == self@.peers.len(),
    {
        assert(self@.locals[0] == self.locals@[0].deep_view());
        (
            RouteResult::Fixed {
                primary_interface: text::own(&self.locals[0].iface),
                interfaces_with_ips: self.reached.len(),
            },
            PeerResult { verified_links: self.reached, total_tried: self.peers.len() },
        )
    }
}

/// Whether an address is one of those of the peers.
fn has_ip(peers: &Vec<PeerAddress>, ip: &str) -> (r: bool)
    ensures
        r == ips_of(peers.deep_view()).contains(ip@),
{
    let ghost s = ips_of(peers.deep_view());
    let mut i: usize = 0;
    while i < peers.len()
        invariant
            i <= peers@.len(),
            s == ips_of(peers.deep_view()),
            forall|k: int| 0 <= k < i ==> #[trigger] s[k] != ip@,
        decreases peers@.len() - i,
    {
        assert(s[i as int] == peers@[i as int].ip@);
        if text::same(&peers[i].ip, ip) {
            return true;
        }
        i = i + 1;
    }
    false
}

/// A peer is only given a route for a probe while it has not been reached.
pub proof fn routes_only_for_unreached(v: ProbeView)
    requires
        settled(v),
        v.at.phase is Route,
    ensures
        !ips_of(v.reached).contains(v.peers[v.at.peer].ip),
{
}

// ---------------------------------------------------------------------------
// The hostfile
// ---------------------------------------------------------------------------

/// The nodes of the hostfile: this node, then each peer under whose name no
/// node stands yet.
pub open spec fn hostfile_nodes(
    ip: Seq<char>,
    local: Seq<char>,
    links: Seq<PeerAddressView>,
) -> Seq<PeerAddressView>
    decreases links.len(),
{
    if links.len() == 0 {
        seq![PeerAddressView { hostname: local, ip }]
    } else {
        let rest = hostfile_nodes(ip, local, links.drop_last());
        if named_in(rest, links.last().hostname) {
            rest
        } else {
            rest.push(links.last())
        }
    }
}

/// A node of that name is in the list.
pub open spec fn named_in(s: Seq<PeerAddressView>, name: Seq<char>) -> bool {
    exists|i: int| 0 <= i < s.len() && (#[trigger] s[i]).hostname == name
}

/// The address of this node in the hostfile: the first of its interfaces.
pub fn coordinator_ip(ips: &Vec<InterfaceIp>) -> (r: String)
    ensures
        r@ == (if ips@.len() > 0 {
            ips@[0].ip@
        } else {
            "127.0.0.1"@
        }),
{
    if ips.len() > 0 {
        text::own(&ips[0].ip)
    } else {
        text::own("127.0.0.1")
    }
}

/// The nodes of the hostfile.
pub fn build_hostfile_nodes(ip: &str, local: &str, links: &Vec<PeerAddress>) -> (r: Vec<PeerAddress>)
    ensures
        r.deep_view() == hostfile_nodes(ip@, local@, links.deep_view()),
{
    let ghost ls = links.deep_view();
    let mut out: Vec<PeerAddress> = Vec::new();
    text::push_item(&mut out, PeerAddress { hostname: text::own(local), ip: text::own(ip) });
    assert(out.deep_view() =~= hostfile_nodes(ip@, local@, ls.take(0)));
    let mut i: usize = 0;
    while i < links.len()
        invariant
            i <= links@.len(),
            ls == links.deep_view(),
            out.deep_view() == hostfile_nodes(ip@, local@, ls.take(i as int)),
        decreases links@.len() - i,
    {
        proof {
            assert(ls.take(i + 1).drop_last() =~= ls.take(i as int));
            assert(ls.take(i + 1).last() == links@[i as int].deep_view());
        }
        let ghost o = out.deep_view();
        let mut k: usize = 0;
        let mut hit: bool = false;
        while k < out.len()
            invariant
                k <= out@.len(),
                o == out.deep_view(),
                i < links@.len(),
                hit == exists|m: int| 0 <= m < k && (#[trigger] o[m]).hostname
                    == links@[i as int].hostname@,
            decreases out@.len() - k,
        {
            assert(o[k as int] == out@[k as int].deep_view());
            if text::same(&out[k].hostname, &links[i].hostname) {
                hit = true;
            }
            k = k + 1;
        }
        if !hit {
            let p = PeerAddress {
                hostname: text::own(&links[i].hostname),
                ip: text::own(&links[i].ip),
            };
            text::push_item(&mut out, p);
        }
        i = i + 1;
    }
    assert(ls.take(i as int) =~= ls);
    out
}

/// No name stands twice in the hostfile.
pub proof fn hostfile_names_differ(ip: Seq<char>, local: Seq<char>, links: Seq<PeerAddressView>)
    ensures
        forall|i: int, j: int|
            0 <= i < j < hostfile_nodes(ip, local, links).len() ==> (#[trigger] hostfile_nodes(
                ip,
                local,
                links,
            )[i]).hostname != (#[trigger] hostfile_nodes(ip, local, links)[j]).hostname,
    decreases links.len(),
{
    if links.len() > 0 {
        hostfile_names_differ(ip, local, links.drop_last());
        let rest = hostfile_nodes(ip, local, links.drop_last());
        let now = hostfile_nodes(ip, local, links);
        assert forall|i: int, j: int| 0 <= i < j < now.len() implies (#[trigger] now[i]).hostname
            != (#[trigger] now[j]).hostname by {
            assert(now[i] == rest[i]);
            if j < rest.len() {
                assert(now[j] == rest[j]);
            }
        }
    }
}

// ---------------------------------------------------------------------------
// Laws of the setup
// ---------------------------------------------------------------------------

/// The address of one end of a cable is set: on the interface of the node at
/// that end, here where that is this node, and there where it is another.
pub open spec fn end_is_set(
    steps: Seq<SetAddressView>,
    node: Seq<char>,
    iface: Seq<char>,
    ip: Seq<char>,
    local: Seq<char>,
) -> bool {
    if node == local {
        steps.contains(SetAddressView::Here { iface, ip })
    } else {
        steps.contains(SetAddressView::There { node, iface, ip })
    }
}

/// A step stays where others follow, and the step of an end is there.
proof fn end_stays(
    steps: Seq<SetAddressView>,
    node: Seq<char>,
    iface: Seq<char>,
    ip: Seq<char>,
    local: Seq<char>,
)
    ensures
        end_is_set(with_end(steps, node, iface, ip, local, true), node, iface, ip, local),
        forall|s: SetAddressView|
            #[trigger] steps.contains(s) ==> with_end(
                steps,
                node,
                iface,
                ip,
                local,
                true,
            ).contains(s),
{
    let now = with_end(steps, node, iface, ip, local, true);
    assert(now[steps.len() as int] == now.last());
    assert forall|s: SetAddressView| #[trigger] steps.contains(s) implies now.contains(s) by {
        let i = choose|i: int| 0 <= i < steps.len() && steps[i] == s;
        assert(now[i] == s);
    }
}

/// Both ends of every cable get the addresses that were assigned to them, on
/// their own interfaces, and each of them once.
#[verifier::rlimit(60)]
pub proof fn both_ends_get_addresses(a: Seq<AssignmentView>, local: Seq<char>, i: int)
    requires
        0 <= i < a.len(),
    ensures
        ({
            let steps = address_steps(a, local, true);
            let c = a[i].cable;
            &&& end_is_set(steps, c.node_first, c.iface_first, a[i].ip_first, local)
            &&& end_is_set(steps, c.node_second, c.iface_second, a[i].ip_second, local)
            &&& steps.len() == 2 * a.len()
        }),
    decreases a.len(),
{
    let front = a.drop_last();
    let x = a.last();
    let before = address_steps(front, local, true);
    let first = with_end(
        before,
        x.cable.node_first,
        x.cable.iface_first,
        x.ip_first,
        local,
        true,
    );
    end_stays(before, x.cable.node_first, x.cable.iface_first, x.ip_first, local);
    end_stays(first, x.cable.node_second, x.cable.iface_second, x.ip_second, local);
    if i < a.len() - 1 {
        assert(front[i] == a[i]);
        both_ends_get_addresses(front, local, i);
        let c = a[i].cable;
        if c.node_first == local {
            assert(before.contains(
                SetAddressView::Here { iface: c.iface_first, ip: a[i].ip_first },
            ));
        } else {
            assert(before.contains(
                SetAddressView::There {
                    node: c.node_first,
                    iface: c.iface_first,
                    ip: a[i].ip_first,
                },
            ));
        }
        if c.node_second == local {
            assert(before.contains(
                SetAddressView::Here { iface: c.iface_second, ip: a[i].ip_second },
            ));
        } else {
            assert(before.contains(
                SetAddressView::There {
                    node: c.node_second,
                    iface: c.iface_second,
                    ip: a[i].ip_second,
                },
            ));
        }
    } else {
        if front.len() > 0 {
            both_ends_get_addresses(front, local, 0);
        }
        if x.cable.node_first == local {
            assert(first.contains(
                SetAddressView::Here { iface: x.cable.iface_first, ip: x.ip_first },
            ));
        } else {
            assert(first.contains(
                SetAddressView::There {
                    node: x.cable.node_first,
                    iface: x.cable.iface_first,
                    ip: x.ip_first,
                },
            ));
        }
    }
}

/// The address in dotted form.
pub open spec fn dotted(a: nat, b: nat, c: nat, d: nat) -> Seq<char> {
    text::dec(a) + seq!['.'] + (text::dec(b) + seq!['.'] + (text::dec(c) + seq!['.'] + text::dec(
        d,
    )))
}

/// The parts of an address in dotted form are its numbers.
proof fn dotted_parts(a: nat, b: nat, c: nat, d: nat)
    ensures
        text::split_on(dotted(a, b, c, d), '.') == seq![
            text::dec(a),
            text::dec(b),
            text::dec(c),
            text::dec(d),
        ],
{
    text::digits_hold_no(a, '.');
    text::digits_hold_no(b, '.');
    text::digits_hold_no(c, '.');
    text::digits_hold_no(d, '.');
    let r3 = text::dec(d);
    let r2 = text::dec(c) + seq!['.'] + r3;
    let r1 = text::dec(b) + seq!['.'] + r2;
    text::split_at_first(r3, '.', Seq::empty());
    text::split_at_first(text::dec(c), '.', r3);
    text::split_at_first(text::dec(b), '.', r2);
    text::split_at_first(text::dec(a), '.', r1);
    assert(text::split_on(dotted(a, b, c, d), '.') =~= seq![
        text::dec(a),
        text::dec(b),
        text::dec(c),
        text::dec(d),
    ]);
}

/// The route of an address leads to its network of four addresses: the same
/// first three numbers, and the multiple of four at or below the last.
#[verifier::rlimit(60)]
pub proof fn route_leads_to_network(a: u8, b: u8, c: u8, d: u8)
    ensures
        network_of(dotted(a as nat, b as nat, c as nat, d as nat)) == Some(
            dotted(a as nat, b as nat, c as nat, (d - d % 4) as nat) + "/30"@,
        ),
{
    dotted_parts(a as nat, b as nat, c as nat, d as nat);
    text::numeral_round_trip(a as nat, 255);
    text::numeral_round_trip(b as nat, 255);
    text::numeral_round_trip(c as nat, 255);
    text::numeral_round_trip(d as nat, 255);
    let p = seq![
        text::dec(a as nat),
        text::dec(b as nat),
        text::dec(c as nat),
        text::dec(d as nat),
    ];
    let p3 = p.drop_last();
    let p2 = p3.drop_last();
    let p1 = p2.drop_last();
    assert(p1.drop_last() =~= Seq::empty());
    assert(byte_parts(p1.drop_last()) =~= Seq::empty());
    assert(byte_parts(p1) =~= seq![a as nat]);
    assert(byte_parts(p2) =~= seq![a as nat, b as nat]);
    assert(byte_parts(p3) =~= seq![a as nat, b as nat, c as nat]);
    assert(byte_parts(p) =~= seq![a as nat, b as nat, c as nat, d as nat]);
    assert(d / 4 * 4 == d - d % 4);
    reveal_strlit(".");
    assert("."@ =~= seq!['.']);
    let last = text::dec((d / 4 * 4) as nat);
    assert(text::dec(a as nat) + "."@ + text::dec(b as nat) + "."@ + text::dec(c as nat) + "."@
        + last + "/30"@ =~= dotted(a as nat, b as nat, c as nat, (d - d % 4) as nat) + "/30"@);
}

/// Every address of every other node is probed, under the name of its node, and
/// none of this one.
pub proof fn addresses_of_others_are_probed(
    nodes: Seq<(Seq<char>, Seq<Seq<char>>)>,
    local: Seq<char>,
    i: int,
    j: int,
)
    requires
        0 <= i < nodes.len(),
        0 <= j < nodes[i].1.len(),
    ensures
        text::lowercase(nodes[i].0) != local ==> peers_to_probe(nodes, local).contains(
            PeerAddressView { hostname: nodes[i].0, ip: nodes[i].1[j] },
        ),
        forall|m: int|
            0 <= m < peers_to_probe(nodes, local).len() ==> text::lowercase(
                (#[trigger] peers_to_probe(nodes, local)[m]).hostname,
            ) != local,
    decreases nodes.len(),
{
    no_own_address_is_probed(nodes, local);
    if text::lowercase(nodes[i].0) != local {
        let front = nodes.drop_last();
        let rest = peers_to_probe(front, local);
        let now = peers_to_probe(nodes, local);
        let p = PeerAddressView { hostname: nodes[i].0, ip: nodes[i].1[j] };
        if i < nodes.len() - 1 {
            assert(front[i] == nodes[i]);
            addresses_of_others_are_probed(front, local, i, j);
            let m = choose|m: int| 0 <= m < rest.len() && rest[m] == p;
            assert(now[m] == p);
        } else {
            assert(now[rest.len() + j] == p);
        }
    }
}

/// No address of this node is probed.
proof fn no_own_address_is_probed(nodes: Seq<(Seq<char>, Seq<Seq<char>>)>, local: Seq<char>)
    ensures
        forall|m: int|
            0 <= m < peers_to_probe(nodes, local).len() ==> text::lowercase(
                (#[trigger] peers_to_probe(nodes, local)[m]).hostname,
            ) != local,
    decreases nodes.len(),
{
    if nodes.len() > 0 {
        let rest = peers_to_probe(nodes.drop_last(), local);
        let now = peers_to_probe(nodes, local);
        no_own_address_is_probed(nodes.drop_last(), local);
        assert forall|m: int| 0 <= m < now.len() implies text::lowercase(
            (#[trigger] now[m]).hostname,
        ) != local by {
            if m < rest.len() {
                assert(now[m] == rest[m]);
            }
        }
    }
}

/// Some line is a false entry for the address.
pub open spec fn poisons(
    lines: Seq<Seq<char>>,
    macs: Seq<Seq<char>>,
    own_ips: Seq<Seq<char>>,
    ip: Seq<char>,
) -> bool {
    exists|i: int|
        0 <= i < lines.len() && text::has(#[trigger] lines[i], "permanent"@) && !text::has(
            lines[i],
            "on lo0"@,
        ) && bracketed(lines[i]) == Some(ip) && text::starts(ip, "169.254"@) && !own_ips.contains(
            ip,
        ) && (word_behind(lines[i], " at "@) matches Some(mac) && macs.contains(mac))
}

/// The entries that are removed are the lasting ones that lead the link-local
/// address of a peer to the hardware of this node: each of them, and no other.
pub proof fn false_entries_are_removed(
    lines: Seq<Seq<char>>,
    macs: Seq<Seq<char>>,
    own_ips: Seq<Seq<char>>,
    ip: Seq<char>,
)
    ensures
        poisoned(lines, macs, own_ips).contains(ip) <==> poisons(lines, macs, own_ips, ip),
    decreases lines.len(),
{
    if lines.len() > 0 {
        let front = lines.drop_last();
        let k = lines.len() - 1;
        let rest = poisoned(front, macs, own_ips);
        let now = poisoned(lines, macs, own_ips);
        assert(lines[k] == lines.last());
        false_entries_are_removed(front, macs, own_ips, ip);
        if now.contains(ip) {
            let m = choose|m: int| 0 <= m < now.len() && now[m] == ip;
            if m < rest.len() {
                assert(rest[m] == ip);
                assert(poisons(front, macs, own_ips, ip));
                let i = choose|i: int|
                    0 <= i < front.len() && text::has(#[trigger] front[i], "permanent"@)
                        && !text::has(front[i], "on lo0"@) && bracketed(front[i]) == Some(ip)
                        && text::starts(ip, "169.254"@) && !own_ips.contains(ip) && (word_behind(
                        front[i],
                        " at "@,
                    ) matches Some(mac) && macs.contains(mac));
                assert(lines[i] == front[i]);
            } else {
                assert(bracketed(lines[k]) == Some(ip));
            }
        }
        if poisons(lines, macs, own_ips, ip) {
            let i = choose|i: int|
                0 <= i < lines.len() && text::has(#[trigger] lines[i], "permanent"@) && !text::has(
                    lines[i],
                    "on lo0"@,
                ) && bracketed(lines[i]) == Some(ip) && text::starts(ip, "169.254"@)
                    && !own_ips.contains(ip) && (word_behind(lines[i], " at "@) matches Some(mac)
                    && macs.contains(mac));
            if i < k {
                assert(front[i] == lines[i]);
                assert(poisons(front, macs, own_ips, ip));
                let m = choose|m: int| 0 <= m < rest.len() && rest[m] == ip;
                assert(now[m] == ip);
            } else {
                assert(now.last() == ip);
            }
        }
    }
}

/// Every Thunderbolt port that is no bridge gives the interface of the line
/// behind it.
pub proof fn ports_give_interfaces(lines: Seq<Seq<char>>, k: nat, i: int, n: u8)
    requires
        k <= lines.len(),
        0 <= i < k,
        i + 1 < lines.len(),
        text::has(lines[i], "Thunderbolt"@),
        !text::has(lines[i], "Bridge"@),
        lines[i + 1] == "Device: en"@ + text::dec(n as nat),
    ensures
        tb_interfaces_in(lines, k).contains(("en"@ + text::dec(n as nat), n as nat)),
    decreases k,
{
    let now = tb_interfaces_in(lines, k);
    let before = tb_interfaces_in(lines, (k - 1) as nat);
    let d = ("en"@ + text::dec(n as nat), n as nat);
    if i < k - 1 {
        ports_give_interfaces(lines, (k - 1) as nat, i, n);
        let m = choose|m: int| 0 <= m < before.len() && before[m] == d;
        assert(now[m] == d);
    } else {
        device_line_is_read(n);
        assert(now.last() == d);
    }
}

/// The line of a device gives its name and its number.
proof fn device_line_is_read(n: u8)
    ensures
        tb_device("Device: en"@ + text::dec(n as nat)) == Some(
            ("en"@ + text::dec(n as nat), n as nat),
        ),
{
    reveal_strlit("Device: en");
    reveal_strlit("Device: ");
    reveal_strlit("en");
    let digits = text::dec(n as nat);
    let line = "Device: en"@ + digits;
    let name = "en"@ + digits;
    text::decimal_reads_back(n as nat);
    text::numeral_round_trip(n as nat, 255);
    assert(line.take(8) =~= "Device: "@);
    assert(line.skip(8) =~= name);
    assert(text::is_digit(digits[digits.len() - 1]));
    assert(name.last() == digits.last());
    text::inner_text_comes_back(Seq::empty(), name, Seq::empty());
    assert(Seq::<char>::empty() + name + Seq::<char>::empty() =~= name);
    assert(name.take(2) =~= "en"@);
    assert(name.skip(2) =~= digits);
}

/// A line of a bridge that names a member gives it.
pub proof fn members_are_listed(lines: Seq<Seq<char>>, i: int, name: Seq<char>)
    requires
        0 <= i < lines.len(),
        text::starts(text::trimmed(lines[i]), "member:"@),
        text::nth_word(lines[i], 1) == Some(name),
    ensures
        members_in(lines).contains(name),
        members_in(lines).len() <= lines.len(),
    decreases lines.len(),
{
    let front = lines.drop_last();
    let rest = members_in(front);
    let now = members_in(lines);
    few_members(lines);
    if i < lines.len() - 1 {
        assert(front[i] == lines[i]);
        members_are_listed(front, i, name);
        let m = choose|m: int| 0 <= m < rest.len() && rest[m] == name;
        assert(now[m] == name);
    } else {
        assert(now.last() == name);
    }
}

/// No more members are listed than there are lines.
proof fn few_members(lines: Seq<Seq<char>>)
    ensures
        members_in(lines).len() <= lines.len(),
    decreases lines.len(),
{
    if lines.len() > 0 {
        few_members(lines.drop_last());
    }
}

/// The coordinator is one of the hosts, in small letters, and no host comes
/// before it.
pub proof fn coordinator_is_the_first_host(hosts: Seq<Seq<char>>)
    requires
        hosts.len() > 0,
    ensures
        coordinator_among(hosts) is Some,
        exists|i: int|
            0 <= i < hosts.len() && text::lowercase(#[trigger] hosts[i]) == coordinator_among(
                hosts,
            )->0,
        forall|i: int|
            0 <= i < hosts.len() ==> !text::precedes(
                text::lowercase(#[trigger] hosts[i]),
                coordinator_among(hosts)->0,
            ),
{
    let s = small_names(hosts);
    least_is_first(s);
    let c = least(s)->0;
    let i = choose|i: int| 0 <= i < s.len() && s[i] == c;
    assert(text::lowercase(hosts[i]) == c);
    assert forall|i: int| 0 <= i < hosts.len() implies !text::precedes(
        text::lowercase(#[trigger] hosts[i]),
        c,
    ) by {
        assert(s[i] == text::lowercase(hosts[i]));
    }
}

/// A name to which a number was added is known as the host without it; a name
/// that is a host's stays.
pub proof fn numbered_name_is_known(name: Seq<char>, hosts: Seq<Seq<char>>)
    ensures
        small_names(hosts).contains(name) ==> known_name(name, hosts) == name,
        known_name(name, hosts) != name ==> {
            let host = known_name(name, hosts);
            &&& small_names(hosts).contains(host)
            &&& exists|n: Seq<char>|
                #[trigger] text::all_digits(n) && n.len() > 0 && name == host + "-"@ + n
        },
        (exists|i: int|
            0 <= i < hosts.len() && is_numbered(name, text::lowercase(#[trigger] hosts[i])))
            && !small_names(hosts).contains(name) ==> small_names(hosts).contains(
            known_name(name, hosts),
        ),
{
    let s = small_names(hosts);
    if !s.contains(name) {
        unnumbered_is_host(name, s);
        if exists|i: int|
            0 <= i < hosts.len() && is_numbered(name, text::lowercase(#[trigger] hosts[i])) {
            let i = choose|i: int|
                0 <= i < hosts.len() && is_numbered(name, text::lowercase(#[trigger] hosts[i]));
            assert(is_numbered(name, s[i]));
        }
    }
}

/// A name without its number is a host, where one fits.
proof fn unnumbered_is_host(name: Seq<char>, s: Seq<Seq<char>>)
    ensures
        unnumbered(name, s) != name ==> s.contains(unnumbered(name, s)) && exists|n: Seq<char>|
            #[trigger] text::all_digits(n) && n.len() > 0 && name == unnumbered(name, s) + "-"@ + n,
        (exists|i: int| 0 <= i < s.len() && is_numbered(name, #[trigger] s[i])) ==> s.contains(
            unnumbered(name, s),
        ),
    decreases s.len(),
{
    if s.len() > 0 {
        if is_numbered(name, s[0]) {
            let p = s[0] + "-"@;
            let n = name.skip(p.len() as int);
            assert(name =~= p + n);
            assert(text::all_digits(n));
            assert(s.contains(s[0]));
        } else {
            let rest = s.drop_first();
            unnumbered_is_host(name, rest);
            assert forall|h: Seq<char>| #[trigger] rest.contains(h) implies s.contains(h) by {
                let i = choose|i: int| 0 <= i < rest.len() && rest[i] == h;
                assert(s[i + 1] == h);
            }
            if exists|i: int| 0 <= i < s.len() && is_numbered(name, #[trigger] s[i]) {
                let i = choose|i: int| 0 <= i < s.len() && is_numbered(name, #[trigger] s[i]);
                assert(rest[i - 1] == s[i]);
                assert(rest.contains(unnumbered(name, rest)));
            }
        }
    }
}

/// The host file that is written begins with this node and its address, names
/// every peer that was reached, and gives each that address at which a peer of
/// that name was reached first.
pub proof fn hostfile_names_the_reached(
    ip: Seq<char>,
    local: Seq<char>,
    links: Seq<PeerAddressView>,
)
    ensures
        ({
            let nodes = hostfile_nodes(ip, local, links);
            &&& nodes.len() > 0 && nodes[0] == (PeerAddressView { hostname: local, ip })
            &&& forall|i: int|
                0 <= i < links.len() ==> named_in(nodes, (#[trigger] links[i]).hostname)
            &&& forall|m: int| 1 <= m < nodes.len() ==> links.contains(#[trigger] nodes[m])
        }),
    decreases links.len(),
{
    if links.len() > 0 {
        let front = links.drop_last();
        let rest = hostfile_nodes(ip, local, front);
        let now = hostfile_nodes(ip, local, links);
        let k = links.len() - 1;
        hostfile_names_the_reached(ip, local, front);
        assert(now[0] == rest[0]);
        assert forall|i: int| 0 <= i < links.len() implies named_in(
            now,
            (#[trigger] links[i]).hostname,
        ) by {
            if i < k {
                assert(front[i] == links[i]);
                let m = choose|m: int|
                    0 <= m < rest.len() && (#[trigger] rest[m]).hostname == front[i].hostname;
                assert(now[m] == rest[m]);
            } else if named_in(rest, links.last().hostname) {
                assert(now == rest);
            } else {
                assert(now[rest.len() as int].hostname == links[i].hostname);
            }
        }
        assert forall|m: int| 1 <= m < now.len() implies links.contains(#[trigger] now[m]) by {
            if m < rest.len() {
                assert(now[m] == rest[m]);
                let i = choose|i: int| 0 <= i < front.len() && front[i] == rest[m];
                assert(links[i] == now[m]);
            } else {
                assert(links[k] == now[m]);
            }
        }
    }
}

/// A peer is tried from each interface in turn until it is reached, and then
/// the next one from the first.
pub proof fn probes_take_turns(at: Place, locals: int, ips: Seq<Seq<char>>, found: Seq<Seq<char>>)
    requires
        at.phase is Source,
        0 <= at.peer < ips.len(),
        0 <= at.local < locals,
    ensures
        ({
            let missed = settle(behind(at, locals, false), locals, ips, found);
            let hit = settle(behind(at, locals, true), locals, ips, found);
            &&& at.local + 1 < locals ==> missed == (Place { local: at.local + 1, ..at })
            &&& at.local + 1 == locals && at.peer + 1 < ips.len() ==> missed == (Place {
                phase: Phase::Source,
                peer: at.peer + 1,
                local: 0,
            })
            &&& at.peer + 1 < ips.len() ==> hit == (Place {
                phase: Phase::Source,
                peer: at.peer + 1,
                local: 0,
            })
        }),
{
}

/// The commands for an interface name it and its address, and the route to its
/// network is deleted before it is added for the interface.
#[verifier::rlimit(60)]
pub proof fn commands_name_interface_and_address(iface: Seq<char>, ip: Seq<char>, mask: Seq<char>)
    ensures
        ({
            let c = set_command(iface, ip, mask);
            &&& c[2] == iface && c[3] == "inet"@ && c[4] == ip
            &&& c[5] == "netmask"@ && c[6] == mask && c.len() == 7
        }),
        network_of(ip) is None ==> route_commands(iface, ip).len() == 0,
        network_of(ip) matches Some(net) ==> {
            let r = route_commands(iface, ip);
            &&& r.len() == 2
            &&& r[0][2] == "delete"@ && r[0].last() == net
            &&& r[1][2] == "add"@ && r[1][4] == net && r[1].last() == iface
        },
        text::has(
            remote_command(iface, ip),
            "sudo ifconfig "@ + iface + " inet "@ + ip + " netmask 255.255.255.252"@,
        ),
{
    reveal_strlit(" delete $old 2>/dev/null; sudo ifconfig ");
    reveal_strlit("sudo ifconfig ");
    reveal_strlit(" netmask 255.255.255.252; ");
    reveal_strlit(" netmask 255.255.255.252");
    let a = "old=$(ifconfig "@ + iface
        + " 2>/dev/null | grep 'inet ' | awk '{print $2}'); [ -n \"$old\" ] && [ \"$old\" != \""@
        + ip + "\" ] && sudo ifconfig "@ + iface;
    let b = " delete $old 2>/dev/null; sudo ifconfig "@;
    let p = "sudo ifconfig "@ + iface + " inet "@ + ip + " netmask 255.255.255.252"@;
    let all = remote_command(iface, ip);
    let i = a.len() + b.len() - "sudo ifconfig "@.len();
    assert(all == a + b + iface + " inet "@ + ip + " netmask 255.255.255.252; "@ + route_command(
        ip,
        iface,
    ));
    assert(b.skip(b.len() - "sudo ifconfig "@.len()) =~= "sudo ifconfig "@);
    assert(all.subrange(i, i + p.len()) =~= p);
    assert(text::occurs_at(all, p, i));
}

/// A host without a dot is one of the local network; a full name stays.
pub proof fn short_names_are_local(host: Seq<char>)
    ensures
        text::has(host, "."@) ==> local_name(host) == host,
        !text::has(host, "."@) ==> local_name(host) == host + ".local"@,
        local_name(local_name(host)) == local_name(host),
{
    let s = host + ".local"@;
    reveal_strlit(".");
    reveal_strlit(".local");
    let i = host.len() as int;
    assert(s.subrange(i, i + 1) =~= "."@);
    assert(text::occurs_at(s, "."@, i));
}

/// The state of an interface is the last word of the first line that tells it.
pub proof fn state_is_the_last_word(output: Seq<char>, front: Seq<Seq<char>>, line: Seq<char>, back: Seq<Seq<char>>)
    requires
        text::lines_of(output) == front + seq![line] + back,
        forall|i: int| 0 <= i < front.len() ==> !text::has(#[trigger] front[i], "status:"@),
        text::has(line, "status:"@),
        text::words_of(line).len() > 0,
    ensures
        status_in(output) == text::words_of(line).last(),
{
    text::first_with_is_first(front, line, back, "status:"@);
}

/// The address of an interface is the second word of its first line about one.
pub proof fn first_address_is_taken(front: Seq<Seq<char>>, line: Seq<char>, back: Seq<Seq<char>>, ip: Seq<char>, rest: Seq<Seq<char>>)
    requires
        forall|i: int|
            0 <= i < front.len() ==> !text::has(#[trigger] front[i], "inet "@) || text::has(
                front[i],
                "inet6"@,
            ),
        text::has(line, "inet "@),
        !text::has(line, "inet6"@),
        text::words_of(line) == seq!["inet"@, ip] + rest,
    ensures
        first_inet(front + seq![line] + back) == Some(ip),
        first_inet(front) is None,
    decreases front.len(),
{
    let all = front + seq![line] + back;
    if front.len() > 0 {
        let f = front.drop_first();
        assert(all[0] == front[0]);
        assert(all.drop_first() =~= f + seq![line] + back);
        assert forall|i: int| 0 <= i < f.len() implies !text::has(#[trigger] f[i], "inet "@)
            || text::has(f[i], "inet6"@) by {
            assert(f[i] == front[i + 1]);
        }
        first_address_is_taken(f, line, back, ip, rest);
    } else {
        assert(all[0] == line);
        assert(text::words_of(line)[1] == ip);
    }
}

/// A name with a number behind it is that of the host, and one without or with
/// something else behind it is not; an address is kept in its network of four.
pub proof fn number_makes_a_numbered_name(host: Seq<char>, n: nat, other: Seq<char>, ip: InterfaceIpView)
    ensures
        is_numbered(host + seq!['-'] + text::dec(n), host),
        !is_numbered(host, host),
        other.len() > 0 && !text::is_digit(other[0]) ==> !is_numbered(
            host + seq!['-'] + other,
            host,
        ),
        kept(ip).iface == ip.iface,
        kept(ip).ip == ip.ip,
        kept(ip).mask == "255.255.255.252"@,
{
    reveal_strlit("-");
    let p = host + "-"@;
    assert(p =~= host + seq!['-']);
    let s = p + text::dec(n);
    assert(s.take(p.len() as int) =~= p);
    assert(s.skip(p.len() as int) =~= text::dec(n));
    text::decimal_reads_back(n);
    let t = p + other;
    assert(t.take(p.len() as int) =~= p);
    assert(t.skip(p.len() as int) =~= other);
}

} // verus!
