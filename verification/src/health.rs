//! The health of the RDMA network: what the interfaces and devices of a node
//! show, which peers are to be reached, and what the nodes of a mesh report.

use crate::json;
use crate::scan;
use crate::scan::LineReader;
use crate::text;
use crate::topology;
use vstd::prelude::*;
use vstd::string::*;

verus! {

// ---------------------------------------------------------------------------
// Interfaces
// ---------------------------------------------------------------------------

/// An address and the interface that it belongs to.
#[derive(Debug)]
pub struct IfaceIp {
    pub iface: String,
    pub ip: String,
}

/// The texts of an address and its interface.
pub struct IfaceIpView {
    pub iface: Seq<char>,
    pub ip: Seq<char>,
}

impl DeepView for IfaceIp {
    type V = IfaceIpView;

    open spec fn deep_view(&self) -> IfaceIpView {
        IfaceIpView { iface: self.iface@, ip: self.ip@ }
    }
}

/// What the interfaces of a node show.
pub struct Interfaces {
    /// The addresses of bridges.
    pub bridges: Vec<IfaceIp>,
    /// The addresses that RDMA can use.
    pub link_local: Vec<IfaceIp>,
    /// The members of the Thunderbolt bridge.
    pub members: Vec<String>,
}

/// What has been read of the interfaces, and the one that the last line was
/// about.
pub struct InterfacesView {
    pub current: Seq<char>,
    pub bridges: Seq<IfaceIpView>,
    pub link_local: Seq<IfaceIpView>,
    pub members: Seq<Seq<char>>,
}

/// The address that a line of `ifconfig` gives.
pub open spec fn inet_in(line: Seq<char>) -> Option<Seq<char>> {
    if text::has(line, "inet "@) && !text::has(line, "inet6"@) {
        text::nth_word(line, 1)
    } else {
        None
    }
}

/// The member of a bridge that a line of `ifconfig` names.
pub open spec fn member_in(line: Seq<char>) -> Option<Seq<char>> {
    if text::starts(text::trimmed(line), "member:"@) {
        text::nth_word(text::trimmed(line), 1)
    } else {
        None
    }
}

/// The address is one that RDMA can use: a link-local one, or one of the
/// networks that are assigned.
pub open spec fn rdma_address(ip: Seq<char>) -> bool {
    text::starts(ip, "169.254."@) || text::starts(ip, "192.168.10."@)
}

/// What has been read after one more line.
pub open spec fn interface_step(st: InterfacesView, line: Seq<char>) -> InterfacesView {
    let current = topology::interface_after(st.current, line);
    let members = match member_in(line) {
        Some(m) if current == "bridge0"@ => st.members.push(m),
        _ => st.members,
    };
    match inet_in(line) {
        Some(ip) => {
            let entry = IfaceIpView { iface: current, ip };
            InterfacesView {
                current,
                members,
                bridges: if text::starts(current, "bridge"@) {
                    st.bridges.push(entry)
                } else {
                    st.bridges
                },
                link_local: if rdma_address(ip) && !text::starts(current, "lo"@) {
                    st.link_local.push(entry)
                } else {
                    st.link_local
                },
            }
        },
        None => InterfacesView { current, members, ..st },
    }
}

/// What the lines of `ifconfig` show.
pub open spec fn interfaces_in(lines: Seq<Seq<char>>) -> InterfacesView
    decreases lines.len(),
{
    if lines.len() == 0 {
        InterfacesView {
            current: Seq::empty(),
            bridges: Seq::empty(),
            link_local: Seq::empty(),
            members: Seq::empty(),
        }
    } else {
        interface_step(interfaces_in(lines.drop_last()), lines.last())
    }
}

/// The address that a line of `ifconfig` gives.
fn read_inet(line: &str) -> (r: Option<String>)
    ensures
        r.deep_view() == inet_in(line@),
{
    if text::contains(line, "inet ") && !text::contains(line, "inet6") {
        text::word(line, 1)
    } else {
        None
    }
}

/// The member of a bridge that a line of `ifconfig` names.
fn read_member(line: &str) -> (r: Option<String>)
    ensures
        r.deep_view() == member_in(line@),
{
    let t: String = text::trim(line);
    if text::starts_with(&t, "member:") {
        text::word(&t, 1)
    } else {
        None
    }
}

/// What the output of `ifconfig` shows.
pub fn read_interfaces(ifconfig: &str) -> (r: Interfaces)
    ensures
        r.bridges.deep_view() == interfaces_in(text::lines_of(ifconfig@)).bridges,
        r.link_local.deep_view() == interfaces_in(text::lines_of(ifconfig@)).link_local,
        r.members.deep_view() == interfaces_in(text::lines_of(ifconfig@)).members,
{
    let all: Vec<String> = text::lines(ifconfig);
    let ghost ls = all.deep_view();
    let mut current: String = String::new();
    let mut bridges: Vec<IfaceIp> = Vec::new();
    let mut link_local: Vec<IfaceIp> = Vec::new();
    let mut members: Vec<String> = Vec::new();
    let mut i: usize = 0;
    assert(bridges.deep_view() =~= interfaces_in(ls.take(0)).bridges);
    assert(link_local.deep_view() =~= interfaces_in(ls.take(0)).link_local);
    assert(members.deep_view() =~= interfaces_in(ls.take(0)).members);
    while i < all.len()
        invariant
            i <= all@.len(),
            ls == all.deep_view(),
            current@ == interfaces_in(ls.take(i as int)).current,
            bridges.deep_view() == interfaces_in(ls.take(i as int)).bridges,
            link_local.deep_view() == interfaces_in(ls.take(i as int)).link_local,
            members.deep_view() == interfaces_in(ls.take(i as int)).members,
        decreases all@.len() - i,
    {
        proof {
            assert(ls.take(i + 1).drop_last() =~= ls.take(i as int));
            assert(ls.take(i + 1).last() == all@[i as int]@);
        }
        let line: &String = &all[i];
        current = topology::next_interface(&current, line);
        if text::same(&current, "bridge0") {
            if let Some(m) = read_member(line) {
                text::push_text(&mut members, m);
            }
        }
        if let Some(ip) = read_inet(line) {
            if text::starts_with(&current, "bridge") {
                text::push_item(
                    &mut bridges,
                    IfaceIp { iface: text::own(&current), ip: text::own(&ip) },
                );
            }
            if (text::starts_with(&ip, "169.254.") || text::starts_with(&ip, "192.168.10."))
                && !text::starts_with(&current, "lo") {
                text::push_item(&mut link_local, IfaceIp { iface: text::own(&current), ip });
            }
        }
        i = i + 1;
    }
    assert(ls.take(i as int) =~= ls);
    Interfaces { bridges, link_local, members }
}

impl Interfaces {
    /// Whether the Thunderbolt bridge holds interfaces that RDMA needs.
    pub fn bridge0_blocking(&self) -> (r: bool)
        ensures
            r == (self.members@.len() > 0),
    {
        self.members.len() > 0
    }
}

// ---------------------------------------------------------------------------
// Devices
// ---------------------------------------------------------------------------

/// An RDMA device and the state of its port.
pub struct RdmaDevice {
    pub name: String,
    pub port_state: String,
}

/// The texts of a device.
pub struct RdmaDeviceView {
    pub name: Seq<char>,
    pub port_state: Seq<char>,
}

impl DeepView for RdmaDevice {
    type V = RdmaDeviceView;

    open spec fn deep_view(&self) -> RdmaDeviceView {
        RdmaDeviceView { name: self.name@, port_state: self.port_state@ }
    }
}

/// The interfaces of the devices whose port is active.
pub open spec fn active_interfaces(devices: Seq<RdmaDeviceView>) -> Seq<Seq<char>>
    decreases devices.len(),
{
    if devices.len() == 0 {
        Seq::empty()
    } else {
        let rest = active_interfaces(devices.drop_last());
        if devices.last().port_state == "Active"@ {
            rest.push(text::without_prefix(devices.last().name, "rdma_"@))
        } else {
            rest
        }
    }
}

/// The interfaces of the devices whose port is active.
pub fn active_ifaces(devices: &Vec<RdmaDevice>) -> (r: Vec<String>)
    ensures
        r.deep_view() == active_interfaces(devices.deep_view()),
{
    let ghost ds = devices.deep_view();
    let mut out: Vec<String> = Vec::new();
    let mut i: usize = 0;
    assert(out.deep_view() =~= active_interfaces(ds.take(0)));
    while i < devices.len()
        invariant
            i <= devices@.len(),
            ds == devices.deep_view(),
            out.deep_view() == active_interfaces(ds.take(i as int)),
        decreases devices@.len() - i,
    {
        proof {
            assert(ds.take(i + 1).drop_last() =~= ds.take(i as int));
            assert(ds.take(i + 1).last() == devices@[i as int].deep_view());
        }
        if text::same(&devices[i].port_state, "Active") {
            text::push_text(&mut out, text::drop_prefix(&devices[i].name, "rdma_"));
        }
        i = i + 1;
    }
    assert(ds.take(i as int) =~= ds);
    out
}

// ---------------------------------------------------------------------------
// Peers to reach
// ---------------------------------------------------------------------------

/// The address and the interface in a line of `arp -an`.
pub open spec fn arp_entry(line: Seq<char>) -> Option<IfaceIpView> {
    match (text::nth_piece(line, '(', 1), text::nth_text_piece(line, " on "@, 1)) {
        (Some(a), Some(b)) => match (text::nth_piece(a, ')', 0), text::nth_word(b, 0)) {
            (Some(ip), Some(iface)) => Some(IfaceIpView { iface, ip }),
            _ => None,
        },
        _ => None,
    }
}

/// The address and the interface in a line of `arp -an`.
fn read_arp_entry(line: &str) -> (r: Option<IfaceIp>)
    ensures
        r.deep_view() == arp_entry(line@),
{
    proof {
        reveal_strlit(" on ");
    }
    let a: Option<String> = text::piece(line, '(', 1);
    let b: Option<String> = text::text_piece(line, " on ", 1);
    if let Some(a) = a {
        if let Some(b) = b {
            let ip: Option<String> = text::piece(&a, ')', 0);
            let iface: Option<String> = text::word(&b, 0);
            if let Some(ip) = ip {
                if let Some(iface) = iface {
                    return Some(IfaceIp { iface, ip });
                }
            }
        }
    }
    None
}

/// Reads the peers on Thunderbolt and bridge interfaces from `arp -an`.
pub struct ArpPeers;

impl LineReader for ArpPeers {
    type Item = IfaceIp;

    open spec fn item(&self, line: Seq<char>) -> Option<IfaceIpView> {
        if text::has(line, "incomplete"@) || !text::has(line, "ifscope"@) {
            None
        } else {
            match arp_entry(line) {
                Some(e) => if (text::starts(e.iface, "en"@) && text::byte_len(e.iface) <= 4)
                    || text::starts(e.iface, "bridge"@) {
                    Some(e)
                } else {
                    None
                },
                None => None,
            }
        }
    }

    fn read(&self, line: &str) -> (r: Option<IfaceIp>) {
        if text::contains(line, "incomplete") || !text::contains(line, "ifscope") {
            return None;
        }
        match read_arp_entry(line) {
            Some(e) => if (text::starts_with(&e.iface, "en") && text::fits_bytes(&e.iface, 4))
                || text::starts_with(&e.iface, "bridge") {
                Some(e)
            } else {
                None
            },
            None => None,
        }
    }
}

/// The peers on Thunderbolt and bridge interfaces in the output of `arp -an`.
pub fn arp_peers(output: &str) -> (r: Vec<IfaceIp>)
    ensures
        r.deep_view() == scan::items_in(ArpPeers, text::lines_of(output@)),
{
    scan::read_lines(&ArpPeers, output)
}

/// The addresses of entries.
pub open spec fn ips_of(s: Seq<IfaceIpView>) -> Seq<Seq<char>> {
    s.map_values(|e: IfaceIpView| e.ip)
}

/// The interfaces of entries.
pub open spec fn ifaces_of(s: Seq<IfaceIpView>) -> Seq<Seq<char>> {
    s.map_values(|e: IfaceIpView| e.iface)
}

/// Whether an address is one of those of the entries.
fn has_ip(v: &Vec<IfaceIp>, ip: &str) -> (r: bool)
    ensures
        r == ips_of(v.deep_view()).contains(ip@),
{
    let ghost s = ips_of(v.deep_view());
    let mut i: usize = 0;
    while i < v.len()
        invariant
            i <= v@.len(),
            s == ips_of(v.deep_view()),
            forall|k: int| 0 <= k < i ==> #[trigger] s[k] != ip@,
        decreases v@.len() - i,
    {
        assert(s[i as int] == v@[i as int].ip@);
        if text::same(&v[i].ip, ip) {
            return true;
        }
        i = i + 1;
    }
    false
}

/// Whether an interface is one of those of the entries.
fn has_iface(v: &Vec<IfaceIp>, iface: &str) -> (r: bool)
    ensures
        r == ifaces_of(v.deep_view()).contains(iface@),
{
    let ghost s = ifaces_of(v.deep_view());
    let mut i: usize = 0;
    while i < v.len()
        invariant
            i <= v@.len(),
            s == ifaces_of(v.deep_view()),
            forall|k: int| 0 <= k < i ==> #[trigger] s[k] != iface@,
        decreases v@.len() - i,
    {
        assert(s[i as int] == v@[i as int].iface@);
        if text::same(&v[i].iface, iface) {
            return true;
        }
        i = i + 1;
    }
    false
}

/// The peers that are known, but for the node itself.
pub open spec fn known_targets(known: Seq<Seq<char>>, own: Seq<IfaceIpView>) -> Seq<IfaceIpView>
    decreases known.len(),
{
    if known.len() == 0 {
        Seq::empty()
    } else {
        let rest = known_targets(known.drop_last(), own);
        if ips_of(own).contains(known.last()) {
            rest
        } else {
            rest.push(IfaceIpView { iface: "nodemap"@, ip: known.last() })
        }
    }
}

/// A line of `arp -an` names a peer that is worth a try: it lies in an RDMA
/// network, on an interface with an active device and an address.
pub open spec fn arp_target(
    line: Seq<char>,
    own: Seq<IfaceIpView>,
    active: Seq<Seq<char>>,
) -> Option<IfaceIpView> {
    if text::has(line, "incomplete"@) || !(text::has(line, "169.254."@) || text::has(
        line,
        "192.168.10."@,
    )) {
        None
    } else {
        match arp_entry(line) {
            Some(e) => if !text::starts(e.iface, "bridge"@) && !text::starts(e.iface, "lo"@)
                && !ips_of(own).contains(e.ip) && active.contains(e.iface) && ifaces_of(
                own,
            ).contains(e.iface) {
                Some(e)
            } else {
                None
            },
            None => None,
        }
    }
}

/// The peers to reach: those that are known, then those that the lines of
/// `arp -an` add.
pub open spec fn targets(
    known: Seq<Seq<char>>,
    lines: Seq<Seq<char>>,
    own: Seq<IfaceIpView>,
    active: Seq<Seq<char>>,
) -> Seq<IfaceIpView>
    decreases lines.len(),
{
    if lines.len() == 0 {
        known_targets(known, own)
    } else {
        let rest = targets(known, lines.drop_last(), own, active);
        match arp_target(lines.last(), own, active) {
            Some(e) => if ips_of(rest).contains(e.ip) {
                rest
            } else {
                rest.push(e)
            },
            None => rest,
        }
    }
}

/// Whether a line of `arp -an` names a peer that is worth a try.
fn read_arp_target(line: &str, own: &Vec<IfaceIp>, active: &Vec<String>) -> (r: Option<IfaceIp>)
    ensures
        r.deep_view() == arp_target(line@, own.deep_view(), active.deep_view()),
{
    if text::contains(line, "incomplete") || !(text::contains(line, "169.254.") || text::contains(
        line,
        "192.168.10.",
    )) {
        return None;
    }
    match read_arp_entry(line) {
        Some(e) => if !text::starts_with(&e.iface, "bridge") && !text::starts_with(&e.iface, "lo")
            && !has_ip(own, &e.ip) && text::listed(active, &e.iface) && has_iface(own, &e.iface) {
            Some(e)
        } else {
            None
        },
        None => None,
    }
}

/// The peers that are known, but for the node itself.
fn read_known(known: &Vec<String>, own: &Vec<IfaceIp>) -> (r: Vec<IfaceIp>)
    ensures
        r.deep_view() == known_targets(known.deep_view(), own.deep_view()),
{
    let ghost ks = known.deep_view();
    let ghost os = own.deep_view();
    let mut out: Vec<IfaceIp> = Vec::new();
    let mut i: usize = 0;
    assert(out.deep_view() =~= known_targets(ks.take(0), os));
    while i < known.len()
        invariant
            i <= known@.len(),
            ks == known.deep_view(),
            os == own.deep_view(),
            out.deep_view() == known_targets(ks.take(i as int), os),
        decreases known@.len() - i,
    {
        proof {
            assert(ks.take(i + 1).drop_last() =~= ks.take(i as int));
            assert(ks.take(i + 1).last() == known@[i as int]@);
        }
        if !has_ip(own, &known[i]) {
            text::push_item(
                &mut out,
                IfaceIp { iface: text::own("nodemap"), ip: text::own(&known[i]) },
            );
        }
        i = i + 1;
    }
    assert(ks.take(i as int) =~= ks);
    out
}

/// The peers to reach, given the addresses that are known, the output of
/// `arp -an`, the addresses of this node and the interfaces with an active
/// device.
pub fn ping_targets(
    known: &Vec<String>,
    arp: &str,
    own: &Vec<IfaceIp>,
    active: &Vec<String>,
) -> (r: Vec<IfaceIp>)
    ensures
        r.deep_view() == targets(
            known.deep_view(),
            text::lines_of(arp@),
            own.deep_view(),
            active.deep_view(),
        ),
{
    let all: Vec<String> = text::lines(arp);
    let ghost ls = all.deep_view();
    let ghost ks = known.deep_view();
    let ghost os = own.deep_view();
    let ghost acts = active.deep_view();
    let mut out: Vec<IfaceIp> = read_known(known, own);
    let mut i: usize = 0;
    assert(out.deep_view() =~= targets(ks, ls.take(0), os, acts));
    while i < all.len()
        invariant
            i <= all@.len(),
            ls == all.deep_view(),
            ks == known.deep_view(),
            os == own.deep_view(),
            acts == active.deep_view(),
            out.deep_view() == targets(ks, ls.take(i as int), os, acts),
        decreases all@.len() - i,
    {
        proof {
            assert(ls.take(i + 1).drop_last() =~= ls.take(i as int));
            assert(ls.take(i + 1).last() == all@[i as int]@);
        }
        if let Some(e) = read_arp_target(&all[i], own, active) {
            if !has_ip(&out, &e.ip) {
                text::push_item(&mut out, e);
            }
        }
        i = i + 1;
    }
    assert(ls.take(i as int) =~= ls);
    out
}

/// No node is asked to reach itself.
pub proof fn no_target_is_own(
    known: Seq<Seq<char>>,
    lines: Seq<Seq<char>>,
    own: Seq<IfaceIpView>,
    active: Seq<Seq<char>>,
)
    ensures
        forall|i: int|
            0 <= i < targets(known, lines, own, active).len() ==> !ips_of(own).contains(
                (#[trigger] targets(known, lines, own, active)[i]).ip,
            ),
    decreases lines.len(),
{
    let now = targets(known, lines, own, active);
    if lines.len() == 0 {
        known_is_not_own(known, own);
    } else {
        no_target_is_own(known, lines.drop_last(), own, active);
        let rest = targets(known, lines.drop_last(), own, active);
        assert forall|i: int| 0 <= i < now.len() implies !ips_of(own).contains(
            (#[trigger] now[i]).ip,
        ) by {
            if i < rest.len() {
                assert(now[i] == rest[i]);
            }
        }
    }
}

/// No known peer is the node itself.
proof fn known_is_not_own(known: Seq<Seq<char>>, own: Seq<IfaceIpView>)
    ensures
        forall|i: int|
            0 <= i < known_targets(known, own).len() ==> !ips_of(own).contains(
                (#[trigger] known_targets(known, own)[i]).ip,
            ),
    decreases known.len(),
{
    if known.len() > 0 {
        known_is_not_own(known.drop_last(), own);
        let rest = known_targets(known.drop_last(), own);
        let now = known_targets(known, own);
        assert forall|i: int| 0 <= i < now.len() implies !ips_of(own).contains(
            (#[trigger] now[i]).ip,
        ) by {
            if i < rest.len() {
                assert(now[i] == rest[i]);
            }
        }
    }
}

// ---------------------------------------------------------------------------
// The verdict on a node
// ---------------------------------------------------------------------------

/// The result of a ping.
pub struct PingResult {
    pub ip: String,
    pub interface: String,
    pub reachable: bool,
    /// The time of the round trip in milliseconds, as `ping` writes it.
    pub latency: Option<String>,
}

/// The number of peers that answered.
pub open spec fn answered(pings: Seq<PingResult>) -> nat
    decreases pings.len(),
{
    if pings.len() == 0 {
        0
    } else {
        answered(pings.drop_last()) + if pings.last().reachable {
            1nat
        } else {
            0nat
        }
    }
}

/// The addresses that answered.
pub open spec fn answering(pings: Seq<PingResult>) -> Seq<Seq<char>>
    decreases pings.len(),
{
    if pings.len() == 0 {
        Seq::empty()
    } else if pings.last().reachable {
        answering(pings.drop_last()).push(pings.last().ip@)
    } else {
        answering(pings.drop_last())
    }
}

/// The addresses that answered, one for each peer that did.
pub fn reachable_ips(pings: &Vec<PingResult>) -> (r: Vec<String>)
    ensures
        r.deep_view() == answering(pings@),
        r@.len() == answered(pings@),
{
    let mut out: Vec<String> = Vec::new();
    let mut i: usize = 0;
    assert(out.deep_view() =~= answering(pings@.take(0)));
    while i < pings.len()
        invariant
            i <= pings@.len(),
            out.deep_view() == answering(pings@.take(i as int)),
            out@.len() == answered(pings@.take(i as int)),
        decreases pings@.len() - i,
    {
        proof {
            assert(pings@.take(i + 1).drop_last() =~= pings@.take(i as int));
            assert(pings@.take(i + 1).last() == pings@[i as int]);
        }
        if pings[i].reachable {
            text::push_str(&mut out, &pings[i].ip);
            assert(out.deep_view().len() == out@.len());
        }
        i = i + 1;
    }
    assert(pings@.take(i as int) =~= pings@);
    out
}

/// The verdict on the network of a node.
pub struct NodeHealth {
    pub healthy: bool,
    pub summary: String,
    pub active_count: usize,
    pub peers_reachable: usize,
    pub peers_total: usize,
}

/// The verdict in words.
pub open spec fn node_summary(active: nat, reachable: nat, total: nat, bridges: nat) -> Seq<char> {
    text::dec(active) + " RDMA devices active, "@ + text::dec(reachable) + "/"@ + text::dec(total)
        + " peers reachable, "@ + text::dec(bridges) + " bridges"@
}

/// The verdict on the network of a node: it is healthy where a device is
/// active, there are peers, and every one of them answers.
pub fn judge_node(active_count: usize, pings: &Vec<PingResult>, bridges: usize) -> (r: NodeHealth)
    ensures
        r.active_count == active_count,
        r.peers_reachable == answered(pings@),
        r.peers_total == pings@.len(),
        r.healthy == (active_count > 0 && answered(pings@) > 0 && answered(pings@)
            == pings@.len()),
        r.summary@ == node_summary(
            active_count as nat,
            answered(pings@),
            pings@.len(),
            bridges as nat,
        ),
{
    let up: usize = reachable_ips(pings).len();
    let total: usize = pings.len();
    let mut s: String = text::decimal(active_count as u64);
    s.append(" RDMA devices active, ");
    s.append(&text::decimal(up as u64));
    s.append("/");
    s.append(&text::decimal(total as u64));
    s.append(" peers reachable, ");
    s.append(&text::decimal(bridges as u64));
    s.append(" bridges");
    NodeHealth {
        healthy: active_count > 0 && up > 0 && up == total,
        summary: s,
        active_count,
        peers_reachable: up,
        peers_total: total,
    }
}

// ---------------------------------------------------------------------------
// The mesh
// ---------------------------------------------------------------------------

/// What a node reports of itself.
#[derive(Debug, Clone, Copy, PartialEq, Eq, Structural)]
pub struct NodeCheck {
    pub healthy: bool,
    pub active: u64,
    pub reachable: u64,
    pub total: u64,
}

/// What a node reports of itself in a JSON object; what is missing counts as
/// nothing.
pub open spec fn check_in(v: serde_json::Value) -> NodeCheck {
    NodeCheck {
        healthy: json::flag_at(v, "healthy"@) == Some(true),
        active: number_or_zero(json::number_at(v, "rdma_active_count"@)),
        reachable: number_or_zero(json::number_at(v, "peers_reachable"@)),
        total: number_or_zero(json::number_at(v, "peers_total"@)),
    }
}

/// A number, or zero where there is none.
pub open spec fn number_or_zero(n: Option<u64>) -> u64 {
    match n {
        Some(n) => n,
        None => 0,
    }
}

/// A number, or zero where there is none.
fn or_zero(n: Option<u64>) -> (r: u64)
    ensures
        r == number_or_zero(n),
{
    match n {
        Some(n) => n,
        None => 0,
    }
}

/// What a node reports of itself in a JSON object.
pub fn check_of(v: &serde_json::Value) -> (r: NodeCheck)
    ensures
        r == check_in(*v),
{
    let healthy: bool = match json::member_flag(v, "healthy") {
        Some(b) => b,
        None => false,
    };
    NodeCheck {
        healthy,
        active: or_zero(json::member_number(v, "rdma_active_count")),
        reachable: or_zero(json::member_number(v, "peers_reachable")),
        total: or_zero(json::member_number(v, "peers_total")),
    }
}

/// The report of a node: the document it answered with, and what that says.
pub struct NodeReport {
    pub document: serde_json::Value,
    pub check: NodeCheck,
}

/// Reads the report of a node, if it is JSON.
pub fn read_report(body: &str) -> (r: Option<NodeReport>)
    ensures
        match json::json_of(body@) {
            Some(v) => r == Some(NodeReport { document: v, check: check_in(v) }),
            None => r is None,
        },
{
    match json::parse(body) {
        None => None,
        Some(v) => {
            let check: NodeCheck = check_of(&v);
            Some(NodeReport { document: v, check })
        },
    }
}

/// The nodes but this one.
pub open spec fn other_nodes(nodes: Seq<Seq<char>>, local: Seq<char>) -> Seq<Seq<char>>
    decreases nodes.len(),
{
    if nodes.len() == 0 {
        Seq::empty()
    } else if nodes.last() == local {
        other_nodes(nodes.drop_last(), local)
    } else {
        other_nodes(nodes.drop_last(), local).push(nodes.last())
    }
}

/// The nodes but this one.
pub fn remote_nodes(nodes: &Vec<String>, local: &str) -> (r: Vec<String>)
    ensures
        r.deep_view() == other_nodes(nodes.deep_view(), local@),
{
    let ghost ns = nodes.deep_view();
    let mut out: Vec<String> = Vec::new();
    let mut i: usize = 0;
    assert(out.deep_view() =~= other_nodes(ns.take(0), local@));
    while i < nodes.len()
        invariant
            i <= nodes@.len(),
            ns == nodes.deep_view(),
            out.deep_view() == other_nodes(ns.take(i as int), local@),
        decreases nodes@.len() - i,
    {
        proof {
            assert(ns.take(i + 1).drop_last() =~= ns.take(i as int));
            assert(ns.take(i + 1).last() == nodes@[i as int]@);
        }
        if !text::same(&nodes[i], local) {
            text::push_str(&mut out, &nodes[i]);
        }
        i = i + 1;
    }
    assert(ns.take(i as int) =~= ns);
    out
}

/// Where a node is asked about its network.
pub fn check_url(node: &str) -> (r: String)
    ensures
        r@ == "http://"@ + node@ + ".local:9090/rdma/check"@,
{
    let mut s: String = text::glue("http://", node);
    s.append(".local:9090/rdma/check");
    s
}

/// The sums over the reports of the nodes.
pub struct MeshCounts {
    pub online: nat,
    pub healthy: nat,
    pub active: nat,
    pub reachable: nat,
    pub total: nat,
}

/// The sums over the reports of the nodes; a node that did not answer adds
/// nothing.
pub open spec fn mesh_counts(checks: Seq<Option<NodeCheck>>) -> MeshCounts
    decreases checks.len(),
{
    if checks.len() == 0 {
        MeshCounts { online: 0, healthy: 0, active: 0, reachable: 0, total: 0 }
    } else {
        let rest = mesh_counts(checks.drop_last());
        match checks.last() {
            None => rest,
            Some(c) => MeshCounts {
                online: rest.online + 1,
                healthy: if c.healthy {
                    rest.healthy + 1
                } else {
                    rest.healthy
                },
                active: rest.active + c.active as nat,
                reachable: rest.reachable + c.reachable as nat,
                total: rest.total + c.total as nat,
            },
        }
    }
}

/// The verdict on the mesh.
pub struct MeshHealth {
    pub healthy: bool,
    pub summary: String,
    pub nodes_online: u64,
    pub nodes_healthy: u64,
    pub active: u64,
    pub reachable: u64,
    pub total: u64,
}

/// The verdict on the mesh in words.
pub open spec fn mesh_summary(c: MeshCounts, nodes: nat) -> Seq<char> {
    text::dec(c.healthy) + "/"@ + text::dec(nodes) + " nodes healthy, "@ + text::dec(c.active)
        + " RDMA devices active, "@ + text::dec(c.reachable) + "/"@ + text::dec(c.total)
        + " peer links verified"@
}

/// The sums over a part of the reports are no larger than those over all.
proof fn counts_grow(checks: Seq<Option<NodeCheck>>, i: int)
    requires
        0 <= i <= checks.len(),
    ensures
        mesh_counts(checks.take(i)).active <= mesh_counts(checks).active,
        mesh_counts(checks.take(i)).reachable <= mesh_counts(checks).reachable,
        mesh_counts(checks.take(i)).total <= mesh_counts(checks).total,
        mesh_counts(checks.take(i)).online <= i,
        mesh_counts(checks.take(i)).healthy <= mesh_counts(checks.take(i)).online,
    decreases checks.len() - i,
{
    few_online(checks.take(i));
    if i < checks.len() {
        counts_grow(checks, i + 1);
        assert(checks.take(i + 1).drop_last() =~= checks.take(i));
    } else {
        assert(checks.take(i) =~= checks);
    }
}

/// No more nodes are online than there are reports, nor more healthy than
/// online.
pub proof fn few_online(checks: Seq<Option<NodeCheck>>)
    ensures
        mesh_counts(checks).online <= checks.len(),
        mesh_counts(checks).healthy <= mesh_counts(checks).online,
    decreases checks.len(),
{
    if checks.len() > 0 {
        few_online(checks.drop_last());
    }
}

/// Whether the sums over the reports can be written as numbers of 64 bits.
pub fn counts_fit(checks: &Vec<Option<NodeCheck>>) -> (r: bool)
    ensures
        r == (mesh_counts(checks@).active <= u64::MAX && mesh_counts(checks@).reachable
            <= u64::MAX && mesh_counts(checks@).total <= u64::MAX),
{
    let mut active: u64 = 0;
    let mut reachable: u64 = 0;
    let mut total: u64 = 0;
    let mut i: usize = 0;
    while i < checks.len()
        invariant
            i <= checks@.len(),
            active == mesh_counts(checks@.take(i as int)).active,
            reachable == mesh_counts(checks@.take(i as int)).reachable,
            total == mesh_counts(checks@.take(i as int)).total,
        decreases checks@.len() - i,
    {
        proof {
            assert(checks@.take(i + 1).drop_last() =~= checks@.take(i as int));
            assert(checks@.take(i + 1).last() == checks@[i as int]);
            counts_grow(checks@, i + 1);
        }
        if let Some(c) = &checks[i] {
            if c.active > u64::MAX - active || c.reachable > u64::MAX - reachable || c.total
                > u64::MAX - total {
                return false;
            }
            active = active + c.active;
            reachable = reachable + c.reachable;
            total = total + c.total;
        }
        i = i + 1;
    }
    assert(checks@.take(i as int) =~= checks@);
    true
}

/// The verdict on the mesh: it is healthy where a node answers and every node
/// that answers is healthy.
pub fn judge_mesh(checks: &Vec<Option<NodeCheck>>, nodes_total: usize) -> (r: MeshHealth)
    requires
        mesh_counts(checks@).active <= u64::MAX,
        mesh_counts(checks@).reachable <= u64::MAX,
        mesh_counts(checks@).total <= u64::MAX,
    ensures
        r.nodes_online == mesh_counts(checks@).online,
        r.nodes_healthy == mesh_counts(checks@).healthy,
        r.active == mesh_counts(checks@).active,
        r.reachable == mesh_counts(checks@).reachable,
        r.total == mesh_counts(checks@).total,
        r.healthy == (r.nodes_healthy == r.nodes_online && r.nodes_online > 0),
        r.summary@ == mesh_summary(mesh_counts(checks@), nodes_total as nat),
{
    let mut online: u64 = 0;
    let mut healthy: u64 = 0;
    let mut active: u64 = 0;
    let mut reachable: u64 = 0;
    let mut total: u64 = 0;
    let mut i: usize = 0;
    while i < checks.len()
        invariant
            i <= checks.len(),
            mesh_counts(checks@).active <= u64::MAX,
            mesh_counts(checks@).reachable <= u64::MAX,
            mesh_counts(checks@).total <= u64::MAX,
            online <= i,
            healthy <= online,
            online == mesh_counts(checks@.take(i as int)).online,
            healthy == mesh_counts(checks@.take(i as int)).healthy,
            active == mesh_counts(checks@.take(i as int)).active,
            reachable == mesh_counts(checks@.take(i as int)).reachable,
            total == mesh_counts(checks@.take(i as int)).total,
        decreases checks@.len() - i,
    {
        proof {
            assert(checks@.take(i + 1).drop_last() =~= checks@.take(i as int));
            assert(checks@.take(i + 1).last() == checks@[i as int]);
            counts_grow(checks@, i + 1);
        }
        if let Some(c) = &checks[i] {
            online = online + 1;
            if c.healthy {
                healthy = healthy + 1;
            }
            active = active + c.active;
            reachable = reachable + c.reachable;
            total = total + c.total;
        }
        i = i + 1;
    }
    assert(checks@.take(i as int) =~= checks@);
    let mut s: String = text::decimal(healthy);
    s.append("/");
    s.append(&text::decimal(nodes_total as u64));
    s.append(" nodes healthy, ");
    s.append(&text::decimal(active));
    s.append(" RDMA devices active, ");
    s.append(&text::decimal(reachable));
    s.append("/");
    s.append(&text::decimal(total));
    s.append(" peer links verified");
    MeshHealth {
        healthy: healthy == online && online > 0,
        summary: s,
        nodes_online: online,
        nodes_healthy: healthy,
        active,
        reachable,
        total,
    }
}

/// Where every node that answers is healthy, and one answers, the mesh is.
pub proof fn all_healthy_is_healthy(checks: Seq<Option<NodeCheck>>)
    requires
        forall|i: int|
            0 <= i < checks.len() ==> ((#[trigger] checks[i]) matches Some(c) ==> c.healthy),
    ensures
        mesh_counts(checks).healthy == mesh_counts(checks).online,
    decreases checks.len(),
{
    if checks.len() > 0 {
        let front = checks.drop_last();
        assert forall|i: int| 0 <= i < front.len() implies ((#[trigger] front[i]) matches Some(c)
            ==> c.healthy) by {
            assert(front[i] == checks[i]);
        }
        all_healthy_is_healthy(front);
        assert(checks.last() == checks[checks.len() - 1]);
    }
}

// ---------------------------------------------------------------------------
// The limits of devices
// ---------------------------------------------------------------------------

/// The limits of an RDMA device.
#[derive(Debug)]
pub struct DeviceLimits {
    pub name: String,
    pub max_pd: i64,
    pub max_qp: i64,
    pub max_mr: i64,
}

/// The limits of a device, with its name as a text.
pub struct DeviceLimitsView {
    pub name: Seq<char>,
    pub max_pd: int,
    pub max_qp: int,
    pub max_mr: int,
}

impl DeepView for DeviceLimits {
    type V = DeviceLimitsView;

    open spec fn deep_view(&self) -> DeviceLimitsView {
        DeviceLimitsView {
            name: self.name@,
            max_pd: self.max_pd as int,
            max_qp: self.max_qp as int,
            max_mr: self.max_mr as int,
        }
    }
}

/// What has been read of the output of `ibv_devinfo -v`.
pub struct DevinfoView {
    pub done: Seq<DeviceLimitsView>,
    pub current: DeviceLimitsView,
}

/// The number behind a label, or zero.
pub open spec fn limit_in(line: Seq<char>, label: Seq<char>) -> int {
    match text::signed(text::trimmed(text::without_prefix(line, label))) {
        Some(n) => n,
        None => 0,
    }
}

/// The devices that are complete: with the current one, if it has a name.
pub open spec fn with_current(st: DevinfoView) -> Seq<DeviceLimitsView> {
    if st.current.name.len() > 0 {
        st.done.push(st.current)
    } else {
        st.done
    }
}

/// What has been read after one more line.
pub open spec fn devinfo_step(st: DevinfoView, raw: Seq<char>) -> DevinfoView {
    let line = text::trimmed(raw);
    if text::starts(line, "hca_id:"@) {
        DevinfoView {
            done: with_current(st),
            current: DeviceLimitsView {
                name: text::trimmed(text::without_prefix(line, "hca_id:"@)),
                max_pd: 0,
                max_qp: 0,
                max_mr: 0,
            },
        }
    } else if text::starts(line, "max_pd:"@) {
        DevinfoView {
            current: DeviceLimitsView { max_pd: limit_in(line, "max_pd:"@), ..st.current },
            ..st
        }
    } else if text::starts(line, "max_qp:"@) {
        DevinfoView {
            current: DeviceLimitsView { max_qp: limit_in(line, "max_qp:"@), ..st.current },
            ..st
        }
    } else if text::starts(line, "max_mr:"@) {
        DevinfoView {
            current: DeviceLimitsView { max_mr: limit_in(line, "max_mr:"@), ..st.current },
            ..st
        }
    } else {
        st
    }
}

/// What the lines of `ibv_devinfo -v` show.
pub open spec fn devinfo_of(lines: Seq<Seq<char>>) -> DevinfoView
    decreases lines.len(),
{
    if lines.len() == 0 {
        DevinfoView {
            done: Seq::empty(),
            current: DeviceLimitsView { name: Seq::empty(), max_pd: 0, max_qp: 0, max_mr: 0 },
        }
    } else {
        devinfo_step(devinfo_of(lines.drop_last()), lines.last())
    }
}

/// The number behind a label, or zero.
fn read_limit(line: &str, label: &str) -> (r: i64)
    ensures
        r == limit_in(line@, label@),
{
    match text::parse_i64(&text::trim(&text::drop_prefix(line, label))) {
        Some(n) => n,
        None => 0,
    }
}

/// The limits of the devices in the output of `ibv_devinfo -v`.
pub fn device_limits(devinfo: &str) -> (r: Vec<DeviceLimits>)
    ensures
        r.deep_view() == with_current(devinfo_of(text::lines_of(devinfo@))),
{
    let all: Vec<String> = text::lines(devinfo);
    let ghost ls = all.deep_view();
    let mut done: Vec<DeviceLimits> = Vec::new();
    let mut name: String = String::new();
    let mut max_pd: i64 = 0;
    let mut max_qp: i64 = 0;
    let mut max_mr: i64 = 0;
    let mut i: usize = 0;
    assert(done.deep_view() =~= devinfo_of(ls.take(0)).done);
    while i < all.len()
        invariant
            i <= all@.len(),
            ls == all.deep_view(),
            done.deep_view() == devinfo_of(ls.take(i as int)).done,
            name@ == devinfo_of(ls.take(i as int)).current.name,
            max_pd == devinfo_of(ls.take(i as int)).current.max_pd,
            max_qp == devinfo_of(ls.take(i as int)).current.max_qp,
            max_mr == devinfo_of(ls.take(i as int)).current.max_mr,
        decreases all@.len() - i,
    {
        proof {
            assert(ls.take(i + 1).drop_last() =~= ls.take(i as int));
            assert(ls.take(i + 1).last() == all@[i as int]@);
        }
        let line: String = text::trim(&all[i]);
        if text::starts_with(&line, "hca_id:") {
            if !name.as_str().is_empty() {
                text::push_item(&mut done, DeviceLimits { name, max_pd, max_qp, max_mr });
            }
            name = text::trim(&text::drop_prefix(&line, "hca_id:"));
            max_pd = 0;
            max_qp = 0;
            max_mr = 0;
        } else if text::starts_with(&line, "max_pd:") {
            max_pd = read_limit(&line, "max_pd:");
        } else if text::starts_with(&line, "max_qp:") {
            max_qp = read_limit(&line, "max_qp:");
        } else if text::starts_with(&line, "max_mr:") {
            max_mr = read_limit(&line, "max_mr:");
        }
        i = i + 1;
    }
    assert(ls.take(i as int) =~= ls);
    if !name.as_str().is_empty() {
        text::push_item(&mut done, DeviceLimits { name, max_pd, max_qp, max_mr });
    }
    done
}

/// Reads the document that `asmi-pd-probe` prints: none where it did not
/// succeed, or printed no JSON.
pub fn read_probe(output: &Option<String>) -> (r: Option<serde_json::Value>)
    ensures
        r == (match output.deep_view() {
            Some(t) => json::json_of(t),
            None => None,
        }),
{
    match output {
        Some(t) => json::parse(t),
        None => None,
    }
}

/// What is known of the room on the devices.
pub enum DeviceBudget {
    /// The document of the probe.
    Probed(serde_json::Value),
    /// The limits that `ibv_devinfo -v` shows.
    Limits(Vec<DeviceLimits>),
}

impl DeviceBudget {
    /// The word for where it was read.
    pub open spec fn source(&self) -> Seq<char> {
        match self {
            DeviceBudget::Probed(_) => "asmi-pd-probe"@,
            DeviceBudget::Limits(_) => "ibv_devinfo-fallback"@,
        }
    }

    /// The word for where it was read.
    pub fn probe(&self) -> (r: &'static str)
        ensures
            r@ == self.source(),
    {
        match self {
            DeviceBudget::Probed(_) => "asmi-pd-probe",
            DeviceBudget::Limits(_) => "ibv_devinfo-fallback",
        }
    }
}

/// What is known of the room on the devices: the document of the probe where
/// there is one, else the limits in the output of `ibv_devinfo -v`, which are
/// none where that did not succeed.
pub fn device_budget(document: Option<serde_json::Value>, devinfo: &Option<String>) -> (r:
    DeviceBudget)
    ensures
        match document {
            Some(v) => r == DeviceBudget::Probed(v),
            None => r matches DeviceBudget::Limits(limits) && limits.deep_view() == with_current(
                devinfo_of(
                    text::lines_of(
                        match devinfo.deep_view() {
                            Some(t) => t,
                            None => Seq::empty(),
                        },
                    ),
                ),
            ),
        },
{
    match document {
        Some(v) => DeviceBudget::Probed(v),
        None => match devinfo {
            Some(t) => DeviceBudget::Limits(device_limits(t)),
            None => {
                let nothing: String = String::new();
                assert(nothing@ =~= Seq::<char>::empty());
                DeviceBudget::Limits(device_limits(&nothing))
            },
        },
    }
}

/// What is known of the room on the devices, from what the two programs
/// printed where they succeeded.
pub fn read_budget(probe: &Option<String>, devinfo: &Option<String>) -> (r: DeviceBudget)
    ensures
        match probe.deep_view() {
            Some(t) => match json::json_of(t) {
                Some(v) => r == DeviceBudget::Probed(v),
                None => r is Limits,
            },
            None => r is Limits,
        },
        r matches DeviceBudget::Limits(limits) ==> limits.deep_view() == with_current(
            devinfo_of(
                text::lines_of(
                    match devinfo.deep_view() {
                        Some(t) => t,
                        None => Seq::empty(),
                    },
                ),
            ),
        ),
{
    device_budget(read_probe(probe), devinfo)
}

/// Reads the names of devices from `ibv_devinfo`.
pub struct DeviceNames;

impl LineReader for DeviceNames {
    type Item = String;

    open spec fn item(&self, line: Seq<char>) -> Option<Seq<char>> {
        match text::after_prefix(text::trimmed(line), "hca_id:"@) {
            Some(name) => Some(text::trimmed(name)),
            None => None,
        }
    }

    fn read(&self, line: &str) -> (r: Option<String>) {
        match text::strip_prefix(&text::trim(line), "hca_id:") {
            Some(name) => Some(text::trim(&name)),
            None => None,
        }
    }
}

/// The names of the devices in the output of `ibv_devinfo`.
pub fn device_names(devinfo: &str) -> (r: Vec<String>)
    ensures
        r.deep_view() == scan::items_in(DeviceNames, text::lines_of(devinfo@)),
{
    scan::read_lines(&DeviceNames, devinfo)
}

// ---------------------------------------------------------------------------
// Laws of the checks
// ---------------------------------------------------------------------------

/// The active interfaces are those of the devices whose port is active: each of
/// them, and no other.
pub proof fn active_devices_are_found(devices: Seq<RdmaDeviceView>, iface: Seq<char>)
    ensures
        active_interfaces(devices).contains(iface) <==> exists|i: int|
            0 <= i < devices.len() && (#[trigger] devices[i]).port_state == "Active"@ && (
            devices[i].name == "rdma_"@ + iface || (!text::starts(devices[i].name, "rdma_"@)
                && devices[i].name == iface)),
        active_interfaces(devices).len() == devices.filter(
            |d: RdmaDeviceView| d.port_state == "Active"@,
        ).len(),
    decreases devices.len(),
{
    reveal(Seq::filter);
    if devices.len() > 0 {
        let front = devices.drop_last();
        let d = devices.last();
        let k = devices.len() - 1;
        let rest = active_interfaces(front);
        let now = active_interfaces(devices);
        assert(devices[k] == d);
        active_devices_are_found(front, iface);
        let p = "rdma_"@;
        assert((p + iface).take(p.len() as int) =~= p);
        assert((p + iface).skip(p.len() as int) =~= iface);
        if text::starts(d.name, p) {
            assert(d.name =~= p + d.name.skip(p.len() as int));
        }
        if rest.contains(iface) {
            let m = choose|m: int| 0 <= m < rest.len() && rest[m] == iface;
            assert(now[m] == iface);
            let i = choose|i: int|
                0 <= i < front.len() && (#[trigger] front[i]).port_state == "Active"@ && (
                front[i].name == "rdma_"@ + iface || (!text::starts(front[i].name, "rdma_"@)
                    && front[i].name == iface));
            assert(devices[i] == front[i]);
        } else if now.contains(iface) {
            let m = choose|m: int| 0 <= m < now.len() && now[m] == iface;
            if m < rest.len() {
                assert(rest[m] == iface);
            }
            assert(devices[k].port_state == "Active"@);
        } else if exists|i: int|
            0 <= i < devices.len() && (#[trigger] devices[i]).port_state == "Active"@ && (
            devices[i].name == "rdma_"@ + iface || (!text::starts(devices[i].name, "rdma_"@)
                && devices[i].name == iface)) {
            let i = choose|i: int|
                0 <= i < devices.len() && (#[trigger] devices[i]).port_state == "Active"@ && (
                devices[i].name == "rdma_"@ + iface || (!text::starts(devices[i].name, "rdma_"@)
                    && devices[i].name == iface));
            if i < k {
                assert(front[i] == devices[i]);
            } else {
                assert(now.last() == iface);
            }
        }
    }
}

/// An address in the output of `ifconfig` is noted for the interface that the
/// lines are about: as one of a bridge where it is one, and as one that peers
/// can reach where it lies in one of their networks and is no loopback.
pub proof fn address_is_noted(st: InterfacesView, ip: Seq<char>, rest: Seq<char>)
    requires
        ip.len() > 0,
        forall|i: int| 0 <= i < ip.len() ==> !text::is_space(#[trigger] ip[i]),
        rest.len() > 0 ==> text::is_space(rest[0]),
        !text::has(
            seq!['\t'] + (seq!['i', 'n', 'e', 't'] + (seq![' '] + ip + rest)),
            "inet6"@,
        ),
    ensures
        ({
            let line = seq!['\t'] + (seq!['i', 'n', 'e', 't'] + (seq![' '] + ip + rest));
            let now = interface_step(st, line);
            let entry = IfaceIpView { iface: st.current, ip };
            &&& now.current == st.current
            &&& now.bridges == (if text::starts(st.current, "bridge"@) {
                st.bridges.push(entry)
            } else {
                st.bridges
            })
            &&& now.link_local == (if (text::starts(ip, "169.254."@) || text::starts(
                ip,
                "192.168.10."@,
            )) && !text::starts(st.current, "lo"@) {
                st.link_local.push(entry)
            } else {
                st.link_local
            })
        }),
{
    reveal_strlit("inet ");
    reveal_strlit("\t");
    let word = seq!['i', 'n', 'e', 't'];
    let behind = seq![' '] + ip + rest;
    let line = seq!['\t'] + (word + behind);
    topology::inet_line_is_read(ip, rest);
    assert(line.subrange(1, 6) =~= "inet "@);
    assert(text::occurs_at(line, "inet "@, 1));
    assert(line.take(1) =~= "\t"@);
}

/// Every address that is known and not this node's own is pinged.
pub proof fn known_addresses_are_pinged(
    known: Seq<Seq<char>>,
    lines: Seq<Seq<char>>,
    own: Seq<IfaceIpView>,
    active: Seq<Seq<char>>,
    i: int,
)
    requires
        0 <= i < known.len(),
        forall|k: int| 0 <= k < own.len() ==> (#[trigger] own[k]).ip != known[i],
    ensures
        exists|m: int|
            0 <= m < targets(known, lines, own, active).len() && (#[trigger] targets(
                known,
                lines,
                own,
                active,
            )[m]).ip == known[i],
    decreases lines.len(),
{
    if lines.len() == 0 {
        known_target_is_kept(known, own, i);
        let kept = known_targets(known, own);
        let m = choose|m: int| 0 <= m < kept.len() && (#[trigger] kept[m]).ip == known[i];
        assert(targets(known, lines, own, active)[m].ip == known[i]);
    } else {
        known_addresses_are_pinged(known, lines.drop_last(), own, active, i);
        let rest = targets(known, lines.drop_last(), own, active);
        let now = targets(known, lines, own, active);
        let m = choose|m: int| 0 <= m < rest.len() && (#[trigger] rest[m]).ip == known[i];
        assert(now[m] == rest[m]);
    }
}

/// A known address that is not this node's own is among the targets.
proof fn known_target_is_kept(known: Seq<Seq<char>>, own: Seq<IfaceIpView>, i: int)
    requires
        0 <= i < known.len(),
        forall|k: int| 0 <= k < own.len() ==> (#[trigger] own[k]).ip != known[i],
    ensures
        exists|m: int|
            0 <= m < known_targets(known, own).len() && (#[trigger] known_targets(known, own)[m]).ip
                == known[i],
    decreases known.len(),
{
    let front = known.drop_last();
    let rest = known_targets(front, own);
    let now = known_targets(known, own);
    if i < known.len() - 1 {
        assert(front[i] == known[i]);
        known_target_is_kept(front, own, i);
        let m = choose|m: int| 0 <= m < rest.len() && (#[trigger] rest[m]).ip == front[i];
        assert(now[m] == rest[m]);
    } else {
        assert(!ips_of(own).contains(known[i])) by {
            if ips_of(own).contains(known[i]) {
                let k = choose|k: int| 0 <= k < ips_of(own).len() && ips_of(own)[k] == known[i];
                assert(own[k].ip == known[i]);
            }
        }
        assert(now[rest.len() as int].ip == known[i]);
    }
}

/// Every peer in the table of addresses that is seen on an active interface of
/// this node is pinged.
pub proof fn seen_peers_are_pinged(
    known: Seq<Seq<char>>,
    lines: Seq<Seq<char>>,
    own: Seq<IfaceIpView>,
    active: Seq<Seq<char>>,
    i: int,
    peer: IfaceIpView,
)
    requires
        0 <= i < lines.len(),
        arp_entry(lines[i]) == Some(peer),
        !text::has(lines[i], "incomplete"@),
        text::has(lines[i], "169.254."@) || text::has(lines[i], "192.168.10."@),
        !text::starts(peer.iface, "bridge"@),
        !text::starts(peer.iface, "lo"@),
        forall|k: int| 0 <= k < own.len() ==> (#[trigger] own[k]).ip != peer.ip,
        active.contains(peer.iface),
        exists|k: int| 0 <= k < own.len() && (#[trigger] own[k]).iface == peer.iface,
    ensures
        exists|m: int|
            0 <= m < targets(known, lines, own, active).len() && (#[trigger] targets(
                known,
                lines,
                own,
                active,
            )[m]).ip == peer.ip,
    decreases lines.len(),
{
    let front = lines.drop_last();
    let rest = targets(known, front, own, active);
    let now = targets(known, lines, own, active);
    if i < lines.len() - 1 {
        assert(front[i] == lines[i]);
        seen_peers_are_pinged(known, front, own, active, i, peer);
        let m = choose|m: int| 0 <= m < rest.len() && (#[trigger] rest[m]).ip == peer.ip;
        assert(now[m] == rest[m]);
    } else {
        assert(!ips_of(own).contains(peer.ip)) by {
            if ips_of(own).contains(peer.ip) {
                let k = choose|k: int| 0 <= k < ips_of(own).len() && ips_of(own)[k] == peer.ip;
                assert(own[k].ip == peer.ip);
            }
        }
        let k = choose|k: int| 0 <= k < own.len() && (#[trigger] own[k]).iface == peer.iface;
        assert(ifaces_of(own)[k] == peer.iface);
        assert(arp_target(lines.last(), own, active) == Some(peer));
        if ips_of(rest).contains(peer.ip) {
            let m = choose|m: int| 0 <= m < ips_of(rest).len() && ips_of(rest)[m] == peer.ip;
            assert(now[m].ip == peer.ip);
        } else {
            assert(now[rest.len() as int].ip == peer.ip);
        }
    }
}

/// The peers that answered are counted, and their addresses are those of the
/// pings that came back.
pub proof fn answers_are_counted(pings: Seq<PingResult>)
    ensures
        answered(pings) == pings.filter(|p: PingResult| p.reachable).len(),
        answered(pings) <= pings.len(),
        answered(pings) == pings.len() <==> forall|i: int|
            0 <= i < pings.len() ==> (#[trigger] pings[i]).reachable,
        forall|i: int|
            0 <= i < pings.len() && (#[trigger] pings[i]).reachable ==> answering(pings).contains(
                pings[i].ip@,
            ),
        forall|ip: Seq<char>|
            #[trigger] answering(pings).contains(ip) ==> exists|i: int|
                0 <= i < pings.len() && (#[trigger] pings[i]).reachable && pings[i].ip@ == ip,
    decreases pings.len(),
{
    reveal(Seq::filter);
    if pings.len() > 0 {
        let front = pings.drop_last();
        let k = pings.len() - 1;
        let rest = answering(front);
        let now = answering(pings);
        assert(pings[k] == pings.last());
        answers_are_counted(front);
        if answered(pings) == pings.len() {
            assert forall|i: int| 0 <= i < pings.len() implies (#[trigger] pings[i]).reachable by {
                if i < k {
                    assert(front[i] == pings[i]);
                }
            }
        }
        if forall|i: int| 0 <= i < pings.len() ==> (#[trigger] pings[i]).reachable {
            assert forall|i: int| 0 <= i < front.len() implies (#[trigger] front[i]).reachable by {
                assert(front[i] == pings[i]);
            }
            assert(pings[k].reachable);
        }
        assert forall|i: int|
            0 <= i < pings.len() && (#[trigger] pings[i]).reachable implies now.contains(
            pings[i].ip@,
        ) by {
            if i < k {
                assert(front[i] == pings[i]);
                let m = choose|m: int| 0 <= m < rest.len() && rest[m] == pings[i].ip@;
                assert(now[m] == pings[i].ip@);
            } else {
                assert(now.last() == pings[i].ip@);
            }
        }
        assert forall|ip: Seq<char>| #[trigger] now.contains(ip) implies exists|i: int|
            0 <= i < pings.len() && (#[trigger] pings[i]).reachable && pings[i].ip@ == ip by {
            let m = choose|m: int| 0 <= m < now.len() && now[m] == ip;
            if m < rest.len() {
                assert(rest[m] == ip);
                assert(rest.contains(ip));
                let i = choose|i: int|
                    0 <= i < front.len() && (#[trigger] front[i]).reachable && front[i].ip@ == ip;
                assert(pings[i] == front[i]);
            } else {
                assert(pings[k].reachable);
            }
        }
    }
}

/// The other nodes are all that are not this one, in the order in which they
/// are known.
pub proof fn others_are_all_but_this(nodes: Seq<Seq<char>>, local: Seq<char>)
    ensures
        other_nodes(nodes, local) == nodes.filter(|n: Seq<char>| n != local),
        forall|n: Seq<char>|
            #[trigger] other_nodes(nodes, local).contains(n) <==> nodes.contains(n) && n != local,
    decreases nodes.len(),
{
    reveal(Seq::filter);
    if nodes.len() > 0 {
        let front = nodes.drop_last();
        let rest = other_nodes(front, local);
        let now = other_nodes(nodes, local);
        let k = nodes.len() - 1;
        others_are_all_but_this(front, local);
        assert forall|n: Seq<char>| #[trigger] now.contains(n) <==> nodes.contains(n) && n
            != local by {
            if now.contains(n) {
                let m = choose|m: int| 0 <= m < now.len() && now[m] == n;
                if m < rest.len() {
                    assert(rest[m] == n);
                    assert(rest.contains(n));
                    let i = choose|i: int| 0 <= i < front.len() && front[i] == n;
                    assert(nodes[i] == n);
                } else {
                    assert(nodes[k] == n);
                }
            }
            if nodes.contains(n) && n != local {
                let i = choose|i: int| 0 <= i < nodes.len() && nodes[i] == n;
                if i < k {
                    assert(front[i] == n);
                    assert(rest.contains(n));
                    let m = choose|m: int| 0 <= m < rest.len() && rest[m] == n;
                    assert(now[m] == n);
                } else {
                    assert(now.last() == n);
                }
            }
        }
    }
}

/// The counts of a mesh are those of the nodes that answered: how many they
/// are, how many of them are healthy, and the sums of what they report.
pub proof fn mesh_is_counted(checks: Seq<Option<NodeCheck>>, more: Option<NodeCheck>)
    ensures
        mesh_counts(checks).online == checks.filter(|c: Option<NodeCheck>| c is Some).len(),
        mesh_counts(checks).healthy == checks.filter(
            |c: Option<NodeCheck>| c matches Some(n) && n.healthy,
        ).len(),
        ({
            let a = mesh_counts(checks);
            let b = mesh_counts(checks.push(more));
            match more {
                Some(c) => b.active == a.active + c.active && b.reachable == a.reachable
                    + c.reachable && b.total == a.total + c.total,
                None => b == a,
            }
        }),
        mesh_counts(Seq::empty()) == (MeshCounts {
            online: 0,
            healthy: 0,
            active: 0,
            reachable: 0,
            total: 0,
        }),
    decreases checks.len(),
{
    reveal(Seq::filter);
    assert(checks.push(more).drop_last() =~= checks);
    if checks.len() > 0 {
        mesh_is_counted(checks.drop_last(), more);
    }
}

/// A limit in the output of `ibv_devinfo` is that of the device whose name came
/// last, and leaves the other limits as they are.
pub proof fn limits_are_of_the_named_device(st: DevinfoView, n: u32)
    ensures
        ({
            let digits = text::dec(n as nat);
            let pd = devinfo_step(st, "max_pd:"@ + digits);
            let qp = devinfo_step(st, "max_qp:"@ + digits);
            let mr = devinfo_step(st, "max_mr:"@ + digits);
            &&& pd == (DevinfoView {
                current: DeviceLimitsView { max_pd: n as int, ..st.current },
                ..st
            })
            &&& qp == (DevinfoView {
                current: DeviceLimitsView { max_qp: n as int, ..st.current },
                ..st
            })
            &&& mr == (DevinfoView {
                current: DeviceLimitsView { max_mr: n as int, ..st.current },
                ..st
            })
        }),
{
    reveal_strlit("hca_id:");
    reveal_strlit("max_pd:");
    reveal_strlit("max_qp:");
    reveal_strlit("max_mr:");
    assert("max_pd:"@[4] == 'p' && "max_qp:"@[4] == 'q' && "max_mr:"@[4] == 'm');
    labelled_limit("max_pd:"@, n);
    labelled_limit("max_qp:"@, n);
    labelled_limit("max_mr:"@, n);
    let digits = text::dec(n as nat);
    let pd = "max_pd:"@ + digits;
    let qp = "max_qp:"@ + digits;
    let mr = "max_mr:"@ + digits;
    assert(pd.take(7)[0] == 'm' && qp.take(7)[0] == 'm' && mr.take(7)[0] == 'm');
    assert("hca_id:"@[0] == 'h');
    assert(qp.take(7)[4] == 'q' && mr.take(7)[4] == 'm');
}

/// The number behind a label is read.
proof fn labelled_limit(label: Seq<char>, n: u32)
    requires
        label.len() == 7,
        !text::is_space(label[0]),
    ensures
        text::trimmed(label + text::dec(n as nat)) == label + text::dec(n as nat),
        text::starts(label + text::dec(n as nat), label),
        limit_in(label + text::dec(n as nat), label) == n,
{
    let digits = text::dec(n as nat);
    let line = label + digits;
    text::decimal_reads_back(n as nat);
    text::numeral_round_trip(n as nat, i64::MAX as nat);
    assert(line.take(7) =~= label);
    assert(line.skip(7) =~= digits);
    assert(text::is_digit(digits[0]));
    assert(text::is_digit(digits[digits.len() - 1]));
    text::inner_text_comes_back(Seq::empty(), line, Seq::empty());
    assert(Seq::<char>::empty() + line + Seq::<char>::empty() =~= line);
    text::inner_text_comes_back(Seq::empty(), digits, Seq::empty());
    assert(Seq::<char>::empty() + digits + Seq::<char>::empty() =~= digits);
}

/// The name of a device begins a new one, without limits, and completes the one
/// before it.
pub proof fn devices_follow_each_other(st: DevinfoView, name: Seq<char>)
    requires
        name.len() > 0,
        !text::is_space(name[0]),
        !text::is_space(name.last()),
    ensures
        ({
            let now = devinfo_step(st, "hca_id:"@ + seq!['\t'] + name);
            &&& now.current == (DeviceLimitsView { name, max_pd: 0, max_qp: 0, max_mr: 0 })
            &&& st.current.name.len() > 0 ==> now.done == st.done.push(st.current)
            &&& st.current.name.len() == 0 ==> now.done == st.done
            &&& with_current(now) == now.done.push(now.current)
        }),
{
    reveal_strlit("hca_id:");
    let label = "hca_id:"@;
    let line = label + seq!['\t'] + name;
    text::inner_text_comes_back(Seq::empty(), line, Seq::empty());
    assert(Seq::<char>::empty() + line + Seq::<char>::empty() =~= line);
    assert(line.take(7) =~= label);
    assert(line.skip(7) =~= seq!['\t'] + name);
    text::inner_text_comes_back(seq!['\t'], name, Seq::empty());
    assert(seq!['\t'] + name + Seq::<char>::empty() =~= seq!['\t'] + name);
}

/// The summaries tell each count before what is counted.
pub proof fn counts_stand_before_their_words(active: nat, reachable: nat, total: nat, bridges: nat, c: MeshCounts, nodes: nat)
    ensures
        text::starts(
            node_summary(active, reachable, total, bridges),
            text::dec(active) + " RDMA devices active"@,
        ),
        text::has(
            node_summary(active, reachable, total, bridges),
            text::dec(reachable) + "/"@ + text::dec(total) + " peers reachable"@,
        ),
        text::ends(
            node_summary(active, reachable, total, bridges),
            text::dec(bridges) + " bridges"@,
        ),
        text::starts(
            mesh_summary(c, nodes),
            text::dec(c.healthy) + "/"@ + text::dec(nodes) + " nodes healthy"@,
        ),
        text::ends(
            mesh_summary(c, nodes),
            text::dec(c.reachable) + "/"@ + text::dec(c.total) + " peer links verified"@,
        ),
{
    node_counts_stand(text::dec(active), text::dec(reachable), text::dec(total), text::dec(bridges));
    mesh_counts_stand(
        text::dec(c.healthy),
        text::dec(nodes),
        text::dec(c.active),
        text::dec(c.reachable),
        text::dec(c.total),
    );
}

/// Where the counts of a node stand.
#[verifier::rlimit(60)]
proof fn node_counts_stand(a: Seq<char>, r: Seq<char>, t: Seq<char>, b: Seq<char>)
    ensures
        ({
            let s = a + " RDMA devices active, "@ + r + "/"@ + t + " peers reachable, "@ + b
                + " bridges"@;
            &&& text::starts(s, a + " RDMA devices active"@)
            &&& text::has(s, r + "/"@ + t + " peers reachable"@)
            &&& text::ends(s, b + " bridges"@)
        }),
{
    reveal_strlit(" RDMA devices active, ");
    reveal_strlit(" RDMA devices active");
    reveal_strlit(" peers reachable, ");
    reveal_strlit(" peers reachable");
    let x = " RDMA devices active, "@;
    let y = " peers reachable, "@;
    let s = a + x + r + "/"@ + t + y + b + " bridges"@;
    let p = a + " RDMA devices active"@;
    assert(x.take(" RDMA devices active"@.len() as int) =~= " RDMA devices active"@);
    assert(s.take(p.len() as int) =~= p);
    let m = r + "/"@ + t + " peers reachable"@;
    assert(y.take(" peers reachable"@.len() as int) =~= " peers reachable"@);
    let i = a.len() + x.len();
    assert(s.subrange(i as int, i as int + m.len()) =~= m);
    assert(text::occurs_at(s, m, i as int));
    let e = b + " bridges"@;
    assert(s.skip(s.len() - e.len()) =~= e);
}

/// Where the counts of a mesh stand.
#[verifier::rlimit(60)]
proof fn mesh_counts_stand(h: Seq<char>, n: Seq<char>, a: Seq<char>, r: Seq<char>, t: Seq<char>)
    ensures
        ({
            let s = h + "/"@ + n + " nodes healthy, "@ + a + " RDMA devices active, "@ + r + "/"@ + t
                + " peer links verified"@;
            &&& text::starts(s, h + "/"@ + n + " nodes healthy"@)
            &&& text::ends(s, r + "/"@ + t + " peer links verified"@)
        }),
{
    reveal_strlit(" nodes healthy, ");
    reveal_strlit(" nodes healthy");
    let x = " nodes healthy, "@;
    let s = h + "/"@ + n + x + a + " RDMA devices active, "@ + r + "/"@ + t
        + " peer links verified"@;
    let p = h + "/"@ + n + " nodes healthy"@;
    assert(x.take(" nodes healthy"@.len() as int) =~= " nodes healthy"@);
    assert(s.take(p.len() as int) =~= p);
    let e = r + "/"@ + t + " peer links verified"@;
    assert(s.skip(s.len() - e.len()) =~= e);
}

/// A node's answer is read from the members of their names.
pub proof fn answer_is_read(v: serde_json::Value, active: u64, reachable: u64, total: u64)
    requires
        json::number_at(v, "rdma_active_count"@) == Some(active),
        json::number_at(v, "peers_reachable"@) == Some(reachable),
        json::number_at(v, "peers_total"@) == Some(total),
    ensures
        check_in(v).active == active,
        check_in(v).reachable == reachable,
        check_in(v).total == total,
        json::flag_at(v, "healthy"@) == Some(true) <==> check_in(v).healthy,
{
}

/// The members of the bridge are those listed under it, and the current
/// interface is kept for the lines that follow.
pub proof fn bridge_members_are_listed(st: InterfacesView, line: Seq<char>, m: Seq<char>)
    requires
        member_in(line) == Some(m),
    ensures
        topology::interface_after(st.current, line) == "bridge0"@ ==> interface_step(
            st,
            line,
        ).members == st.members.push(m),
        topology::interface_after(st.current, line) != "bridge0"@ ==> interface_step(
            st,
            line,
        ).members == st.members,
        interface_step(st, line).current == topology::interface_after(st.current, line),
{
}

/// A member is named behind the word for it.
pub proof fn member_is_named(line: Seq<char>, m: Seq<char>, rest: Seq<Seq<char>>)
    requires
        text::words_of(text::trimmed(line)) == seq!["member:"@, m] + rest,
    ensures
        text::starts(text::trimmed(line), "member:"@) ==> member_in(line) == Some(m),
        !text::starts(text::trimmed(line), "member:"@) ==> member_in(line) is None,
{
    assert(text::words_of(text::trimmed(line))[1] == m);
}

} // verus!
