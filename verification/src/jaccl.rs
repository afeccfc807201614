//! The hostfile of a JACCL session: which nodes take part, and through which
//! device each of them reaches each other one.

use crate::api;
use crate::api::{ApiError, ApiErrorView};
use crate::json;
use crate::text;
use crate::topology::{self, LinkView, TopologyLink, TopologyReport};
use vstd::prelude::*;
use vstd::string::*;

verus! {

// ---------------------------------------------------------------------------
// The nodes and their devices
// ---------------------------------------------------------------------------

/// The largest of the subsets, the last of those of equal size.
pub open spec fn largest(subsets: Seq<Seq<Seq<char>>>) -> Option<Seq<Seq<char>>>
    decreases subsets.len(),
{
    if subsets.len() == 0 {
        None
    } else {
        match largest(subsets.drop_last()) {
            None => Some(subsets.last()),
            Some(m) => if subsets.last().len() >= m.len() {
                Some(subsets.last())
            } else {
                Some(m)
            },
        }
    }
}

/// No subset is larger than the largest, which is one of them.
pub proof fn largest_is_largest(subsets: Seq<Seq<Seq<char>>>)
    requires
        subsets.len() > 0,
    ensures
        largest(subsets) is Some,
        subsets.contains(largest(subsets)->0),
        forall|i: int|
            0 <= i < subsets.len() ==> (#[trigger] subsets[i]).len() <= (largest(
                subsets,
            )->0).len(),
    decreases subsets.len(),
{
    let front = subsets.drop_last();
    assert(subsets[subsets.len() - 1] == subsets.last());
    if front.len() > 0 {
        largest_is_largest(front);
        let m = largest(front)->0;
        let k = choose|k: int| 0 <= k < front.len() && front[k] == m;
        assert(subsets[k] == m);
        assert forall|i: int| 0 <= i < subsets.len() implies (#[trigger] subsets[i]).len() <= (
        largest(subsets)->0).len() by {
            if i < front.len() {
                assert(front[i] == subsets[i]);
            }
        }
    }
}

/// The nodes that take part: the largest subset that is fully meshed, or all
/// nodes where there is none of two or more.
pub open spec fn taking_part(nodes: Seq<Seq<char>>, subsets: Seq<Seq<Seq<char>>>) -> Seq<
    Seq<char>,
> {
    match largest(subsets) {
        Some(s) => if s.len() >= 2 {
            s
        } else {
            nodes
        },
        None => nodes,
    }
}

/// In a complete mesh of three nodes or more, all nodes take part.
pub proof fn complete_mesh_takes_all(nodes: Seq<Seq<char>>, links: Seq<LinkView>)
    requires
        nodes.no_duplicates(),
        nodes.len() >= 3,
        topology::full_mesh(nodes, links),
    ensures
        taking_part(nodes, topology::ready_subsets(nodes, links)) == nodes,
{
    topology::complete_mesh_is_ready(nodes, links);
    let one = seq![nodes];
    assert(one.drop_last() =~= Seq::<Seq<Seq<char>>>::empty());
    assert(largest(one.drop_last()) is None);
    assert(one.last() == nodes);
}

/// The nodes that take part.
pub fn target_nodes(nodes: &Vec<String>, subsets: &Vec<Vec<String>>) -> (r: Vec<String>)
    ensures
        r.deep_view() == taking_part(nodes.deep_view(), subsets.deep_view()),
{
    let ghost ss = subsets.deep_view();
    let mut best: Option<usize> = None;
    let mut i: usize = 0;
    while i < subsets.len()
        invariant
            i <= subsets@.len(),
            ss == subsets.deep_view(),
            match best {
                None => largest(ss.take(i as int)) is None,
                Some(b) => b < i && largest(ss.take(i as int)) == Some(ss[b as int]),
            },
        decreases subsets@.len() - i,
    {
        proof {
            assert(ss.take(i + 1).drop_last() =~= ss.take(i as int));
            assert(ss.take(i + 1).last() == ss[i as int]);
            assert(ss[i as int].len() == subsets@[i as int]@.len());
        }
        let better: bool = match best {
            None => true,
            Some(b) => {
                assert(ss[b as int].len() == subsets@[b as int]@.len());
                subsets[i].len() >= subsets[b].len()
            },
        };
        if better {
            best = Some(i);
        }
        i = i + 1;
    }
    assert(ss.take(i as int) =~= ss);
    match best {
        None => text::own_all(nodes),
        Some(b) => {
            assert(ss[b as int].len() == subsets@[b as int]@.len());
            assert(ss[b as int] == subsets@[b as int].deep_view());
            if subsets[b].len() >= 2 {
                text::own_all(&subsets[b])
            } else {
                text::own_all(nodes)
            }
        },
    }
}

/// The name of a device with its prefix, which it may have already.
pub open spec fn rdma_name(device: Seq<char>) -> Seq<char> {
    "rdma_"@ + text::without_prefix(device, "rdma_"@)
}

/// The device of `a` at the first link between `a` and `b`.
pub open spec fn device_between(links: Seq<LinkView>, a: Seq<char>, b: Seq<char>) -> Option<
    Seq<char>,
>
    decreases links.len(),
{
    if links.len() == 0 {
        None
    } else if topology::joins(links[0], a, b) {
        Some(
            rdma_name(
                if links[0].node_a == a {
                    links[0].device_a
                } else {
                    links[0].device_b
                },
            ),
        )
    } else {
        device_between(links.drop_first(), a, b)
    }
}

/// What the row of `a` holds for `b`: nothing for itself.
pub open spec fn entry(links: Seq<LinkView>, a: Seq<char>, b: Seq<char>) -> Option<Seq<char>> {
    if a == b {
        None
    } else {
        device_between(links, a, b)
    }
}

/// A host of the hostfile: its name, and its device towards each host.
#[derive(Debug)]
pub struct JacclHost {
    pub ssh: String,
    pub rdma: Vec<Option<String>>,
}

/// The texts of a host.
pub struct JacclHostView {
    pub ssh: Seq<char>,
    pub rdma: Seq<Option<Seq<char>>>,
}

impl DeepView for JacclHost {
    type V = JacclHostView;

    open spec fn deep_view(&self) -> JacclHostView {
        JacclHostView { ssh: self.ssh@, rdma: self.rdma.deep_view() }
    }
}

/// The devices of a node towards the nodes.
pub open spec fn row(nodes: Seq<Seq<char>>, links: Seq<LinkView>, a: Seq<char>) -> Seq<
    Option<Seq<char>>,
> {
    nodes.map_values(|b: Seq<char>| entry(links, a, b))
}

/// The hostfile of the nodes.
pub open spec fn matrix(nodes: Seq<Seq<char>>, links: Seq<LinkView>) -> Seq<JacclHostView> {
    nodes.map_values(|a: Seq<char>| JacclHostView { ssh: a, rdma: row(nodes, links, a) })
}

/// The device of `a` at the first link between `a` and `b`.
fn find_device(links: &Vec<TopologyLink>, a: &str, b: &str) -> (r: Option<String>)
    ensures
        r.deep_view() == device_between(links.deep_view(), a@, b@),
{
    let ghost ls = links.deep_view();
    let mut i: usize = 0;
    assert(ls.skip(0) =~= ls);
    while i < links.len()
        invariant
            i <= links@.len(),
            ls == links.deep_view(),
            device_between(ls, a@, b@) == device_between(ls.skip(i as int), a@, b@),
        decreases links@.len() - i,
    {
        let l: &TopologyLink = &links[i];
        assert(ls.skip(i as int)[0] == l.deep_view());
        assert(ls.skip(i as int).drop_first() =~= ls.skip(i + 1));
        if (text::same(&l.node_a, a) && text::same(&l.node_b, b)) || (text::same(&l.node_b, a)
            && text::same(&l.node_a, b)) {
            let device: &String = if text::same(&l.node_a, a) {
                &l.device_a
            } else {
                &l.device_b
            };
            return Some(text::glue("rdma_", &text::drop_prefix(device, "rdma_")));
        }
        i = i + 1;
    }
    None
}

/// The devices of a node towards the nodes.
fn build_row(nodes: &Vec<String>, links: &Vec<TopologyLink>, a: &str) -> (r: Vec<Option<String>>)
    ensures
        r.deep_view() == row(nodes.deep_view(), links.deep_view(), a@),
{
    let ghost want = row(nodes.deep_view(), links.deep_view(), a@);
    let mut out: Vec<Option<String>> = Vec::new();
    let mut i: usize = 0;
    while i < nodes.len()
        invariant
            i <= nodes@.len(),
            want == row(nodes.deep_view(), links.deep_view(), a@),
            out.deep_view() == want.take(i as int),
        decreases nodes@.len() - i,
    {
        let d: Option<String> = if text::same(a, &nodes[i]) {
            None
        } else {
            find_device(links, a, &nodes[i])
        };
        assert(d.deep_view() == want[i as int]);
        text::push_item(&mut out, d);
        i = i + 1;
        assert(out.deep_view() =~= want.take(i as int));
    }
    assert(want.take(i as int) =~= want);
    out
}

/// The hostfile of the nodes.
pub fn build_matrix(nodes: &Vec<String>, links: &Vec<TopologyLink>) -> (r: Vec<JacclHost>)
    ensures
        r.deep_view() == matrix(nodes.deep_view(), links.deep_view()),
{
    let ghost want = matrix(nodes.deep_view(), links.deep_view());
    let mut out: Vec<JacclHost> = Vec::new();
    let mut i: usize = 0;
    while i < nodes.len()
        invariant
            i <= nodes@.len(),
            want == matrix(nodes.deep_view(), links.deep_view()),
            out.deep_view() == want.take(i as int),
        decreases nodes@.len() - i,
    {
        let h = JacclHost { ssh: text::own(&nodes[i]), rdma: build_row(nodes, links, &nodes[i]) };
        assert(h.deep_view() == want[i as int]);
        text::push_item(&mut out, h);
        i = i + 1;
        assert(out.deep_view() =~= want.take(i as int));
    }
    assert(want.take(i as int) =~= want);
    out
}

/// The matrix is square, and no host has a device towards itself.
pub proof fn matrix_is_square(nodes: Seq<Seq<char>>, links: Seq<LinkView>, i: int)
    requires
        0 <= i < nodes.len(),
    ensures
        matrix(nodes, links).len() == nodes.len(),
        matrix(nodes, links)[i].ssh == nodes[i],
        matrix(nodes, links)[i].rdma.len() == nodes.len(),
        matrix(nodes, links)[i].rdma[i] is None,
{
}

/// One host has a device towards another where that one has one back.
pub proof fn devices_come_in_pairs(links: Seq<LinkView>, a: Seq<char>, b: Seq<char>)
    ensures
        entry(links, a, b) is Some <==> entry(links, b, a) is Some,
    decreases links.len(),
{
    if links.len() > 0 {
        devices_come_in_pairs(links.drop_first(), a, b);
    }
}

/// A host has a device towards another where a link joins them.
pub proof fn device_where_linked(links: Seq<LinkView>, a: Seq<char>, b: Seq<char>, k: int)
    requires
        a != b,
        0 <= k < links.len(),
        topology::joins(links[k], a, b),
    ensures
        entry(links, a, b) is Some,
    decreases links.len(),
{
    if !topology::joins(links[0], a, b) {
        assert(links.drop_first()[k - 1] == links[k]);
        device_where_linked(links.drop_first(), a, b, k - 1);
    }
}

// ---------------------------------------------------------------------------
// The hosts that are asked for
// ---------------------------------------------------------------------------

/// The name begins with one of those that are asked for.
pub open spec fn asked_for(name: Seq<char>, asked: Seq<Seq<char>>) -> bool {
    exists|i: int| 0 <= i < asked.len() && text::starts(name, #[trigger] asked[i])
}

/// The places of the hosts whose names are asked for, among the first `k`.
pub open spec fn kept_places(names: Seq<Option<Seq<char>>>, asked: Seq<Seq<char>>, k: nat) -> Seq<
    int,
>
    decreases k,
{
    if k == 0 || k > names.len() {
        Seq::empty()
    } else {
        let rest = kept_places(names, asked, (k - 1) as nat);
        match names[k - 1] {
            Some(n) => if asked_for(n, asked) {
                rest.push(k - 1)
            } else {
                rest
            },
            None => rest,
        }
    }
}

/// The places of all hosts, or of those that a list with commas asks for.
pub open spec fn places(names: Seq<Option<Seq<char>>>, hosts: Option<Seq<char>>) -> Seq<int> {
    match hosts {
        None => Seq::new(names.len(), |i: int| i),
        Some(h) => kept_places(names, text::split_on(h, ','), names.len()),
    }
}

/// Places as integers.
pub open spec fn as_places(v: Seq<usize>) -> Seq<int> {
    v.map_values(|i: usize| i as int)
}

/// Whether the name begins with one of those that are asked for.
fn is_asked(name: &str, asked: &Vec<String>) -> (r: bool)
    ensures
        r == asked_for(name@, asked.deep_view()),
{
    let ghost s = asked.deep_view();
    let mut i: usize = 0;
    while i < asked.len()
        invariant
            i <= asked@.len(),
            s == asked.deep_view(),
            forall|k: int| 0 <= k < i ==> !text::starts(name@, #[trigger] s[k]),
        decreases asked@.len() - i,
    {
        assert(s[i as int] == asked@[i as int]@);
        if text::starts_with(name, &asked[i]) {
            return true;
        }
        i = i + 1;
    }
    false
}

/// The places of all hosts, or of those that a list with commas asks for.
pub fn keep_requested(names: &Vec<Option<String>>, hosts: &Option<String>) -> (r: Vec<usize>)
    ensures
        as_places(r@) == places(names.deep_view(), hosts.deep_view()),
        forall|i: int| 0 <= i < r@.len() ==> (#[trigger] r@[i]) < names@.len(),
{
    let ghost ns = names.deep_view();
    let mut out: Vec<usize> = Vec::new();
    let mut i: usize = 0;
    match hosts {
        None => {
            assert(as_places(out@) =~= Seq::new(0, |i: int| i));
            while i < names.len()
                invariant
                    i <= names@.len(),
                    as_places(out@) == Seq::new(i as nat, |i: int| i),
                    forall|k: int| 0 <= k < out@.len() ==> (#[trigger] out@[k]) < names@.len(),
                decreases names@.len() - i,
            {
                let ghost before = out@;
                out.push(i);
                assert(as_places(out@) =~= as_places(before).push(i as int));
                i = i + 1;
                assert(as_places(out@) =~= Seq::new(i as nat, |i: int| i));
            }
        },
        Some(h) => {
            let asked: Vec<String> = text::split(h, ',');
            let ghost a = asked.deep_view();
            assert(as_places(out@) =~= kept_places(ns, a, 0));
            while i < names.len()
                invariant
                    i <= names@.len(),
                    ns == names.deep_view(),
                    a == asked.deep_view(),
                    as_places(out@) == kept_places(ns, a, i as nat),
                    forall|k: int| 0 <= k < out@.len() ==> (#[trigger] out@[k]) < names@.len(),
                decreases names@.len() - i,
            {
                assert(ns[i as int] == names@[i as int].deep_view());
                let keep: bool = match &names[i] {
                    Some(n) => is_asked(n, &asked),
                    None => false,
                };
                let ghost before = out@;
                if keep {
                    out.push(i);
                    assert(as_places(out@) =~= as_places(before).push(i as int));
                }
                i = i + 1;
            }
        },
    }
    out
}

/// A host is kept where its name is asked for, and only there.
pub proof fn kept_are_asked_for(names: Seq<Option<Seq<char>>>, asked: Seq<Seq<char>>, k: nat, i: int)
    requires
        k <= names.len(),
        0 <= i < k,
    ensures
        kept_places(names, asked, k).contains(i) <==> (names[i] matches Some(n) && asked_for(
            n,
            asked,
        )),
    decreases k,
{
    let rest = kept_places(names, asked, (k - 1) as nat);
    kept_are_small(names, asked, (k - 1) as nat);
    if i < k - 1 {
        kept_are_asked_for(names, asked, (k - 1) as nat, i);
        if rest.contains(i) {
            let j = choose|j: int| 0 <= j < rest.len() && rest[j] == i;
            assert(kept_places(names, asked, k)[j] == i);
        }
        let now = kept_places(names, asked, k);
        if now.contains(i) {
            let j = choose|j: int| 0 <= j < now.len() && now[j] == i;
            assert(rest[j] == i);
        }
    } else {
        let now = kept_places(names, asked, k);
        if names[i] matches Some(n) && asked_for(n, asked) {
            assert(now[now.len() - 1] == i);
        } else {
            assert(!rest.contains(i)) by {
                if rest.contains(i) {
                    let j = choose|j: int| 0 <= j < rest.len() && rest[j] == i;
                    assert(rest[j] < k - 1);
                }
            }
        }
    }
}

/// The places lie among the first `k`.
proof fn kept_are_small(names: Seq<Option<Seq<char>>>, asked: Seq<Seq<char>>, k: nat)
    ensures
        forall|j: int|
            0 <= j < kept_places(names, asked, k).len() ==> 0 <= (#[trigger] kept_places(
                names,
                asked,
                k,
            )[j]) < k,
    decreases k,
{
    if k > 0 && k <= names.len() {
        kept_are_small(names, asked, (k - 1) as nat);
        let rest = kept_places(names, asked, (k - 1) as nat);
        let now = kept_places(names, asked, k);
        assert forall|j: int| 0 <= j < now.len() implies 0 <= (#[trigger] now[j]) < k by {
            if j < rest.len() {
                assert(now[j] == rest[j]);
            }
        }
    }
}

// ---------------------------------------------------------------------------
// The answers
// ---------------------------------------------------------------------------

/// The names of hosts.
pub open spec fn names_of(hosts: Seq<JacclHostView>) -> Seq<Option<Seq<char>>> {
    hosts.map_values(|h: JacclHostView| Some(h.ssh))
}

/// The hosts at the places.
pub open spec fn hosts_at(hosts: Seq<JacclHostView>, at: Seq<int>) -> Seq<JacclHostView> {
    at.map_values(|i: int| hosts[i])
}

/// A copy of a host.
fn copy_host(h: &JacclHost) -> (r: JacclHost)
    ensures
        r.deep_view() == h.deep_view(),
{
    let ghost want = h.rdma.deep_view();
    let mut rdma: Vec<Option<String>> = Vec::new();
    let mut i: usize = 0;
    while i < h.rdma.len()
        invariant
            i <= h.rdma@.len(),
            want == h.rdma.deep_view(),
            rdma.deep_view() == want.take(i as int),
        decreases h.rdma@.len() - i,
    {
        let d: Option<String> = text::own_opt(&h.rdma[i]);
        assert(want[i as int] == h.rdma@[i as int].deep_view());
        text::push_item(&mut rdma, d);
        i = i + 1;
        assert(rdma.deep_view() =~= want.take(i as int));
    }
    assert(want.take(i as int) =~= want);
    JacclHost { ssh: text::own(&h.ssh), rdma }
}

/// The hostfile that a topology gives: none where it has no links, and only
/// the hosts that are asked for.
pub fn config_from_topology(report: &TopologyReport, hosts: &Option<String>) -> (r: Result<
    Vec<JacclHost>,
    ApiError,
>)
    ensures
        match r {
            Err(e) => report.links@.len() == 0 && e.deep_view() == ApiErrorView::NotFound(
                "Topology scanned but no RDMA links found."@,
            ),
            Ok(v) => report.links@.len() > 0 && v.deep_view() == hosts_at(
                matrix(
                    taking_part(report.nodes.deep_view(), report.jaccl_ready_subsets.deep_view()),
                    report.links.deep_view(),
                ),
                places(
                    names_of(
                        matrix(
                            taking_part(
                                report.nodes.deep_view(),
                                report.jaccl_ready_subsets.deep_view(),
                            ),
                            report.links.deep_view(),
                        ),
                    ),
                    hosts.deep_view(),
                ),
            ),
        },
{
    if report.links.len() == 0 {
        return Err(api::not_found("Topology scanned but no RDMA links found."));
    }
    let nodes: Vec<String> = target_nodes(&report.nodes, &report.jaccl_ready_subsets);
    let all: Vec<JacclHost> = build_matrix(&nodes, &report.links);
    let ghost m = all.deep_view();
    let mut names: Vec<Option<String>> = Vec::new();
    let mut i: usize = 0;
    while i < all.len()
        invariant
            i <= all@.len(),
            m == all.deep_view(),
            names.deep_view() == names_of(m).take(i as int),
        decreases all@.len() - i,
    {
        let n: Option<String> = Some(text::own(&all[i].ssh));
        assert(n.deep_view() == names_of(m)[i as int]);
        text::push_item(&mut names, n);
        i = i + 1;
        assert(names.deep_view() =~= names_of(m).take(i as int));
    }
    assert(names_of(m).take(i as int) =~= names_of(m));
    let kept: Vec<usize> = keep_requested(&names, hosts);
    assert(names.deep_view().len() == names@.len());
    let ghost at = as_places(kept@);
    let mut out: Vec<JacclHost> = Vec::new();
    let mut k: usize = 0;
    while k < kept.len()
        invariant
            k <= kept@.len(),
            m == all.deep_view(),
            at == as_places(kept@),
            forall|j: int| 0 <= j < kept@.len() ==> (#[trigger] kept@[j]) < all@.len(),
            out.deep_view() == hosts_at(m, at).take(k as int),
        decreases kept@.len() - k,
    {
        let h: JacclHost = copy_host(&all[kept[k]]);
        assert(m[kept@[k as int] as int] == all@[kept@[k as int] as int].deep_view());
        assert(hosts_at(m, at)[k as int] == h.deep_view());
        text::push_item(&mut out, h);
        k = k + 1;
        assert(out.deep_view() =~= hosts_at(m, at).take(k as int));
    }
    assert(hosts_at(m, at).take(k as int) =~= hosts_at(m, at));
    Ok(out)
}

/// What the stored hostfile gives.
pub enum StoredHosts {
    /// The places of its hosts that are asked for.
    Kept(Vec<usize>),
    /// It holds no list, and is given whole.
    Whole,
}

impl StoredHosts {
    /// The number of hosts that are given.
    pub fn count(&self) -> (r: usize)
        ensures
            r == (match self {
                StoredHosts::Kept(at) => at@.len(),
                StoredHosts::Whole => 0,
            }),
    {
        match self {
            StoredHosts::Kept(at) => at.len(),
            StoredHosts::Whole => 0,
        }
    }
}

/// The stored hostfile as a document, and what it gives.
pub struct StoredConfig {
    pub document: serde_json::Value,
    pub hosts: StoredHosts,
}

/// The names of the hosts of a stored hostfile.
pub open spec fn stored_names(items: Seq<serde_json::Value>) -> Seq<Option<Seq<char>>> {
    items.map_values(|v: serde_json::Value| json::text_at(v, "ssh"@))
}

/// What is said where no links are known.
pub open spec fn no_links() -> Seq<char> {
    "No RDMA links discovered. Run `asmi` TUI scan first to discover RDMA topology."@
}

/// The names of the hosts of a stored hostfile.
fn read_names(items: &Vec<serde_json::Value>) -> (r: Vec<Option<String>>)
    ensures
        r.deep_view() == stored_names(items@),
{
    let ghost want = stored_names(items@);
    let mut names: Vec<Option<String>> = Vec::new();
    let mut i: usize = 0;
    while i < items.len()
        invariant
            i <= items@.len(),
            want == stored_names(items@),
            names.deep_view() == want.take(i as int),
        decreases items@.len() - i,
    {
        let n: Option<String> = json::member_text(&items[i], "ssh");
        assert(n.deep_view() == want[i as int]);
        text::push_item(&mut names, n);
        i = i + 1;
        assert(names.deep_view() =~= want.take(i as int));
    }
    assert(want.take(i as int) =~= want);
    names
}

/// What the stored hostfile gives where no topology is known: an error where
/// there are no links, it is empty or it is not JSON.
pub fn config_from_store(links: usize, hostfile: &str, hosts: &Option<String>) -> (r: Result<
    StoredConfig,
    ApiError,
>)
    ensures
        if links == 0 {
            r matches Err(e) && e.deep_view() == ApiErrorView::NotFound(no_links())
        } else if hostfile@ == "[]"@ {
            r matches Err(e) && e.deep_view() == ApiErrorView::NotFound(
                "No RDMA-connected nodes found in topology"@,
            )
        } else {
            match json::json_read(hostfile@) {
                Err(why) => r matches Err(e) && e.deep_view() == ApiErrorView::Internal(
                    "Failed to build JACCL matrix: "@ + why,
                ),
                Ok(v) => match json::json_items(v) {
                    Some(items) => r matches Ok(c) && c.document == v && (c.hosts matches
                        StoredHosts::Kept(at) && as_places(at@) == places(
                        stored_names(items),
                        hosts.deep_view(),
                    )),
                    None => r matches Ok(c) && c.document == v && c.hosts is Whole,
                },
            }
        },
{
    if links == 0 {
        return Err(
            api::not_found(
                "No RDMA links discovered. Run `asmi` TUI scan first to discover RDMA topology.",
            ),
        );
    }
    if text::same(hostfile, "[]") {
        return Err(api::not_found("No RDMA-connected nodes found in topology"));
    }
    match json::read(hostfile) {
        Err(why) => Err(api::internal(&text::glue("Failed to build JACCL matrix: ", &why))),
        Ok(v) => {
            let given: StoredHosts = match json::as_items(&v) {
                None => StoredHosts::Whole,
                Some(items) => StoredHosts::Kept(keep_requested(&read_names(items), hosts)),
            };
            Ok(StoredConfig { document: v, hosts: given })
        },
    }
}

/// Where the hostfile of a session comes from.
pub enum HostfileSource {
    /// The topology.
    Live(Vec<JacclHost>),
    /// The stored links.
    Stored,
}

/// The hosts that a topology gives, if it has links.
pub open spec fn live_hosts(report: Option<TopologyReport>) -> Seq<JacclHostView> {
    match report {
        Some(p) => if p.links@.len() > 0 {
            matrix(
                taking_part(p.nodes.deep_view(), p.jaccl_ready_subsets.deep_view()),
                p.links.deep_view(),
            )
        } else {
            Seq::empty()
        },
        None => Seq::empty(),
    }
}

/// Where the hostfile of a session comes from: the topology where it gives
/// any host, else the stored links, of which there must be some.
pub fn choose_source(report: &Option<TopologyReport>, links: usize) -> (r: Result<
    HostfileSource,
    ApiError,
>)
    ensures
        if live_hosts(*report).len() > 0 {
            r matches Ok(HostfileSource::Live(v)) && v.deep_view() == live_hosts(*report)
        } else if links == 0 {
            r matches Err(e) && e.deep_view() == ApiErrorView::NotFound(no_links())
        } else {
            r matches Ok(HostfileSource::Stored)
        },
{
    if let Some(p) = report {
        if p.links.len() > 0 {
            let nodes: Vec<String> = target_nodes(&p.nodes, &p.jaccl_ready_subsets);
            let all: Vec<JacclHost> = build_matrix(&nodes, &p.links);
            assert(all.deep_view().len() == all@.len());
            if all.len() > 0 {
                return Ok(HostfileSource::Live(all));
            }
        }
    }
    if links == 0 {
        return Err(
            api::not_found(
                "No RDMA links discovered. Run `asmi` TUI scan first to discover RDMA topology.",
            ),
        );
    }
    Ok(HostfileSource::Stored)
}

/// Reads a hostfile as a document, with the number of its hosts, which must
/// not be zero.
pub fn count_hosts(hostfile: &str) -> (r: Result<(serde_json::Value, usize), ApiError>)
    ensures
        match json::json_read(hostfile@) {
            Err(why) => r matches Err(e) && e.deep_view() == ApiErrorView::Internal(
                "Failed to build matrix: "@ + why,
            ),
            Ok(v) => match json::json_items(v) {
                Some(items) if items.len() > 0 => r matches Ok(p) && p.0 == v && p.1 == items.len(),
                _ => r matches Err(e) && e.deep_view() == ApiErrorView::NotFound(
                    "No RDMA-connected nodes found"@,
                ),
            },
        },
{
    match json::read(hostfile) {
        Err(why) => Err(api::internal(&text::glue("Failed to build matrix: ", &why))),
        Ok(v) => {
            let n: usize = match json::as_items(&v) {
                Some(items) => items.len(),
                None => 0,
            };
            if n > 0 {
                Ok((v, n))
            } else {
                Err(api::not_found("No RDMA-connected nodes found"))
            }
        },
    }
}

/// Whether a request asks for the hostfile to be written.
pub fn wants_write(body: &serde_json::Value) -> (r: bool)
    ensures
        r == (json::flag_at(*body, "write"@) == Some(true)),
{
    match json::member_flag(body, "write") {
        Some(b) => b,
        None => false,
    }
}

/// The hostfile as it is written to its file.
pub fn write_hostfile(document: &serde_json::Value) -> (r: String)
    ensures
        r@ == json::json_pretty(*document),
{
    json::write_pretty(document)
}

/// The file of a hostfile for so many nodes.
pub open spec fn hostfile_path(count: nat) -> Seq<char> {
    "~/hostfile-jaccl-"@ + text::dec(count) + "node.json"@
}

/// The file of a hostfile for so many nodes.
pub fn build_path(count: usize) -> (r: String)
    ensures
        r@ == hostfile_path(count as nat),
{
    let mut s: String = text::glue("~/hostfile-jaccl-", &text::decimal(count as u64));
    s.append("node.json");
    s
}

/// A path with the home directory in place of each `~`.
pub fn expand_tilde(path: &str, home: &str) -> (r: String)
    ensures
        r@ == text::joined(text::split_on(path@, '~'), home@),
{
    text::replace_char(path, '~', home)
}

/// What was done with the hostfile.
pub fn action_name(written: bool) -> (r: String)
    ensures
        r@ == (if written {
            "generate"@
        } else {
            "discover"@
        }),
{
    if written {
        text::own("generate")
    } else {
        text::own("discover")
    }
}

/// The name is that of the RDMA device, whether or not that was given with its
/// prefix.
pub open spec fn names_device(name: Seq<char>, device: Seq<char>) -> bool {
    &&& text::starts(name, "rdma_"@)
    &&& name == device || name == "rdma_"@ + device
}

/// The device that a link has at the node `a`, where its other end is `b`.
pub open spec fn device_of_end(
    l: LinkView,
    a: Seq<char>,
    b: Seq<char>,
    name: Seq<char>,
) -> bool {
    ||| l.node_a == a && l.node_b == b && names_device(name, l.device_a)
    ||| l.node_b == a && l.node_a == b && names_device(name, l.device_b)
}

/// The device with which a node reaches another is one of its own: the one that
/// a link between the two has at its end. Without a link there is none.
proof fn device_is_the_nodes_own(links: Seq<LinkView>, a: Seq<char>, b: Seq<char>)
    ensures
        match device_between(links, a, b) {
            Some(d) => exists|k: int|
                0 <= k < links.len() && device_of_end(#[trigger] links[k], a, b, d),
            None => !topology::link_found(links, a, b),
        },
    decreases links.len(),
{
    if links.len() > 0 {
        let l = links[0];
        let rest = links.drop_first();
        if topology::joins(l, a, b) {
            let dev = if l.node_a == a {
                l.device_a
            } else {
                l.device_b
            };
            let p = "rdma_"@;
            if text::starts(dev, p) {
                assert(p + dev.skip(p.len() as int) =~= dev);
            }
            assert((p + text::without_prefix(dev, p)).take(p.len() as int) =~= p);
            assert(device_of_end(links[0], a, b, rdma_name(dev)));
        } else {
            device_is_the_nodes_own(rest, a, b);
            if let Some(d) = device_between(rest, a, b) {
                let k = choose|k: int|
                    0 <= k < rest.len() && device_of_end(#[trigger] rest[k], a, b, d);
                assert(links[k + 1] == rest[k]);
            } else if topology::link_found(links, a, b) {
                let k = choose|k: int|
                    0 <= k < links.len() && ({
                        let l = #[trigger] links[k];
                        (l.node_a == a && l.node_b == b) || (l.node_a == b && l.node_b == a)
                    });
                assert(rest[k - 1] == links[k]);
            }
        }
    }
}

/// The row of a node holds, in the column of every other, the device that the
/// node itself has on a link between the two, and nothing where no link leads.
pub proof fn row_holds_the_nodes_devices(
    nodes: Seq<Seq<char>>,
    links: Seq<LinkView>,
    i: int,
    j: int,
)
    requires
        0 <= i < nodes.len(),
        0 <= j < nodes.len(),
        nodes[i] != nodes[j],
    ensures
        matrix(nodes, links)[i].ssh == nodes[i],
        match matrix(nodes, links)[i].rdma[j] {
            Some(d) => exists|k: int|
                0 <= k < links.len() && device_of_end(#[trigger] links[k], nodes[i], nodes[j], d),
            None => !topology::link_found(links, nodes[i], nodes[j]),
        },
{
    device_is_the_nodes_own(links, nodes[i], nodes[j]);
}

/// The nodes that take part are the largest set that is ready, where one of two
/// or more is, and else all.
pub proof fn largest_ready_set_takes_part(nodes: Seq<Seq<char>>, subsets: Seq<Seq<Seq<char>>>, i: int)
    requires
        0 <= i < subsets.len(),
    ensures
        subsets[i].len() >= 2 ==> subsets.contains(taking_part(nodes, subsets)) && taking_part(
            nodes,
            subsets,
        ).len() >= subsets[i].len(),
        (forall|k: int| 0 <= k < subsets.len() ==> (#[trigger] subsets[k]).len() < 2)
            ==> taking_part(nodes, subsets) == nodes,
        taking_part(nodes, Seq::empty()) == nodes,
{
    largest_is_largest(subsets);
    let m = largest(subsets)->0;
    let k = choose|k: int| 0 <= k < subsets.len() && subsets[k] == m;
    assert(subsets[k].len() == m.len());
}

/// Without a report or without a link there are no hosts, and else each of the
/// nodes that take part is one.
pub proof fn linked_nodes_are_hosts(p: TopologyReport)
    ensures
        live_hosts(None).len() == 0,
        p.links@.len() == 0 ==> live_hosts(Some(p)).len() == 0,
        p.links@.len() > 0 ==> live_hosts(Some(p)).len() == taking_part(
            p.nodes.deep_view(),
            p.jaccl_ready_subsets.deep_view(),
        ).len(),
{
    if p.links@.len() > 0 {
        let nodes = taking_part(p.nodes.deep_view(), p.jaccl_ready_subsets.deep_view());
        if nodes.len() > 0 {
            matrix_is_square(nodes, p.links.deep_view(), 0);
        }
    }
}

/// Every host that was asked for is kept, in the order of the hosts, and all
/// are where none was named.
pub proof fn every_host_asked_for_is_kept(names: Seq<Option<Seq<char>>>, asked: Seq<Seq<char>>, k: nat, i: int)
    requires
        k <= names.len(),
        0 <= i < k,
        names[i] is Some,
        asked_for(names[i]->0, asked),
    ensures
        kept_places(names, asked, k).contains(i),
        places(names, None).len() == names.len(),
        forall|j: int| 0 <= j < names.len() ==> #[trigger] places(names, None)[j] == j,
    decreases k,
{
    let rest = kept_places(names, asked, (k - 1) as nat);
    let now = kept_places(names, asked, k);
    if i < k - 1 {
        every_host_asked_for_is_kept(names, asked, (k - 1) as nat, i);
        let m = choose|m: int| 0 <= m < rest.len() && rest[m] == i;
        assert(now[m] == i);
    } else {
        assert(now.last() == i);
        assert(now[now.len() - 1] == i);
    }
}

/// Hosts are kept in their order, none twice.
pub proof fn kept_hosts_are_in_order(names: Seq<Option<Seq<char>>>, asked: Seq<Seq<char>>, k: nat)
    requires
        k <= names.len(),
    ensures
        forall|a: int, b: int|
            0 <= a < b < kept_places(names, asked, k).len() ==> #[trigger] kept_places(
                names,
                asked,
                k,
            )[a] < #[trigger] kept_places(names, asked, k)[b],
        forall|a: int|
            0 <= a < kept_places(names, asked, k).len() ==> 0 <= #[trigger] kept_places(
                names,
                asked,
                k,
            )[a] < k,
    decreases k,
{
    if k > 0 {
        let rest = kept_places(names, asked, (k - 1) as nat);
        let now = kept_places(names, asked, k);
        kept_hosts_are_in_order(names, asked, (k - 1) as nat);
        assert forall|a: int| 0 <= a < now.len() implies 0 <= #[trigger] now[a] < k by {
            if a < rest.len() {
                assert(now[a] == rest[a]);
            }
        }
        assert forall|a: int, b: int| 0 <= a < b < now.len() implies #[trigger] now[a]
            < #[trigger] now[b] by {
            assert(now[a] == rest[a]);
            if b < rest.len() {
                assert(now[b] == rest[b]);
            }
        }
    }
}

} // verus!
