//! Addresses for the Thunderbolt links of the cluster: which end of which
//! link gets which address, and which links are remembered between scans.

use crate::text;
use crate::topology::{LinkView, TopologyLink, TopologyReport};
use vstd::prelude::*;
use vstd::string::*;

verus! {

// ---------------------------------------------------------------------------
// Links in their canonical form
// ---------------------------------------------------------------------------

/// A link with the node that stands first in the order of code points as its
/// first end, and the names of the interfaces for its devices.
pub struct Cable {
    pub node_first: String,
    pub iface_first: String,
    pub node_second: String,
    pub iface_second: String,
}

/// The texts of a link in its canonical form.
pub struct CableView {
    pub node_first: Seq<char>,
    pub iface_first: Seq<char>,
    pub node_second: Seq<char>,
    pub iface_second: Seq<char>,
}

impl DeepView for Cable {
    type V = CableView;

    open spec fn deep_view(&self) -> CableView {
        CableView {
            node_first: self.node_first@,
            iface_first: self.iface_first@,
            node_second: self.node_second@,
            iface_second: self.iface_second@,
        }
    }
}

/// The canonical form of a link.
pub open spec fn canonical(l: LinkView) -> CableView {
    let a = text::without_prefix(l.device_a, "rdma_"@);
    let b = text::without_prefix(l.device_b, "rdma_"@);
    if text::precedes(l.node_a, l.node_b) {
        CableView { node_first: l.node_a, iface_first: a, node_second: l.node_b, iface_second: b }
    } else {
        CableView { node_first: l.node_b, iface_first: b, node_second: l.node_a, iface_second: a }
    }
}

/// The canonical forms of the links.
pub open spec fn cables(links: Seq<LinkView>) -> Seq<CableView> {
    links.map_values(|l: LinkView| canonical(l))
}

/// The interface of a link that stands first in the order of code points.
pub open spec fn least_iface(c: CableView) -> Seq<char> {
    if text::precedes(c.iface_second, c.iface_first) {
        c.iface_second
    } else {
        c.iface_first
    }
}

/// `a` comes before `b`: by the first nodes, then by the second nodes, then
/// by the interfaces that stand first. Between crossed links of the same two
/// nodes, for which those are the same, the interfaces of the first node
/// decide, and then those of the second.
pub open spec fn comes_before(a: CableView, b: CableView) -> bool {
    if a.node_first != b.node_first {
        text::precedes(a.node_first, b.node_first)
    } else if a.node_second != b.node_second {
        text::precedes(a.node_second, b.node_second)
    } else if least_iface(a) != least_iface(b) {
        text::precedes(least_iface(a), least_iface(b))
    } else if a.iface_first != b.iface_first {
        text::precedes(a.iface_first, b.iface_first)
    } else {
        text::precedes(a.iface_second, b.iface_second)
    }
}

/// `comes_before` is asymmetric, and tells any two cables apart.
pub proof fn comes_before_asymmetric(a: CableView, b: CableView)
    ensures
        !comes_before(a, a),
        comes_before(a, b) ==> !comes_before(b, a),
        a != b ==> comes_before(a, b) || comes_before(b, a),
{
    text::precedes_total(a.iface_first, b.iface_first);
    text::precedes_total(a.iface_second, b.iface_second);
    text::precedes_total(a.node_first, b.node_first);
    text::precedes_total(a.node_second, b.node_second);
    text::precedes_total(least_iface(a), least_iface(b));
}

/// `comes_before` is transitive, and so is its denial.
pub proof fn comes_before_transitive(a: CableView, b: CableView, c: CableView)
    ensures
        comes_before(a, b) && comes_before(b, c) ==> comes_before(a, c),
        !comes_before(b, a) && !comes_before(c, b) ==> !comes_before(c, a),
{
    order_of_three(a.node_first, b.node_first, c.node_first);
    order_of_three(a.node_second, b.node_second, c.node_second);
    order_of_three(least_iface(a), least_iface(b), least_iface(c));
    order_of_three(a.iface_first, b.iface_first, c.iface_first);
    order_of_three(a.iface_second, b.iface_second, c.iface_second);
}

/// The order of code points on three texts, in all the ways they can stand.
proof fn order_of_three(a: Seq<char>, b: Seq<char>, c: Seq<char>)
    ensures
        text::precedes(a, b) && text::precedes(b, c) ==> text::precedes(a, c),
        text::precedes(b, a) && text::precedes(c, b) ==> text::precedes(c, a),
        text::precedes(c, a) && text::precedes(a, b) ==> text::precedes(c, b),
        text::precedes(b, c) && text::precedes(c, a) ==> text::precedes(b, a),
        !text::precedes(a, a),
        !text::precedes(b, b),
        !text::precedes(c, c),
        a != b ==> (text::precedes(a, b) <==> !text::precedes(b, a)),
        b != c ==> (text::precedes(b, c) <==> !text::precedes(c, b)),
        a != c ==> (text::precedes(a, c) <==> !text::precedes(c, a)),
{
    text::precedes_total(a, b);
    text::precedes_total(b, c);
    text::precedes_total(c, a);
    if text::precedes(a, b) && text::precedes(b, c) {
        text::precedes_transitive(a, b, c);
    }
    if text::precedes(c, b) && text::precedes(b, a) {
        text::precedes_transitive(c, b, a);
    }
    if text::precedes(c, a) && text::precedes(a, b) {
        text::precedes_transitive(c, a, b);
    }
    if text::precedes(b, c) && text::precedes(c, a) {
        text::precedes_transitive(b, c, a);
    }
}

/// An ordered sequence with `x` put behind everything that it does not come
/// before.
pub open spec fn placed(s: Seq<CableView>, x: CableView) -> Seq<CableView>
    decreases s.len(),
{
    if s.len() > 0 && comes_before(x, s.last()) {
        placed(s.drop_last(), x).push(s.last())
    } else {
        s.push(x)
    }
}

/// The links in order.
pub open spec fn in_order(s: Seq<CableView>) -> Seq<CableView>
    decreases s.len(),
{
    if s.len() == 0 {
        s
    } else {
        placed(in_order(s.drop_last()), s.last())
    }
}

/// Nothing stands behind a link that it comes before.
pub open spec fn is_ordered(s: Seq<CableView>) -> bool {
    forall|i: int, j: int| 0 <= i < j < s.len() ==> !comes_before(#[trigger] s[j], #[trigger] s[i])
}

/// Placing a link keeps the order and adds just that link.
pub proof fn placed_keeps_order(s: Seq<CableView>, x: CableView)
    requires
        is_ordered(s),
    ensures
        is_ordered(placed(s, x)),
        placed(s, x).to_multiset() == s.to_multiset().insert(x),
        placed(s, x).len() == s.len() + 1,
        forall|i: int|
            0 <= i < placed(s, x).len() ==> #[trigger] placed(s, x)[i] == x || s.contains(
                placed(s, x)[i],
            ),
    decreases s.len(),
{
    broadcast use vstd::seq_lib::group_to_multiset_ensures;

    let r = placed(s, x);
    if s.len() > 0 && comes_before(x, s.last()) {
        let d = s.drop_last();
        let w = placed(d, x);
        assert(is_ordered(d)) by {
            assert forall|i: int, j: int| 0 <= i < j < d.len() implies !comes_before(
                #[trigger] d[j],
                #[trigger] d[i],
            ) by {
                assert(!comes_before(s[j], s[i]));
            }
        }
        placed_keeps_order(d, x);
        assert(s =~= d.push(s.last()));
        assert(r.to_multiset() =~= s.to_multiset().insert(x));
        assert forall|i: int, j: int| 0 <= i < j < r.len() implies !comes_before(
            #[trigger] r[j],
            #[trigger] r[i],
        ) by {
            if j < w.len() {
                assert(!comes_before(w[j], w[i]));
            } else {
                assert(r[i] == w[i]);
                if w[i] == x {
                    comes_before_asymmetric(x, s.last());
                } else {
                    assert(d.contains(w[i]));
                    let m = choose|m: int| 0 <= m < d.len() && d[m] == w[i];
                    assert(!comes_before(s[s.len() - 1], s[m]));
                }
            }
        }
        assert forall|i: int| 0 <= i < r.len() implies #[trigger] r[i] == x || s.contains(
            r[i],
        ) by {
            if i < w.len() {
                assert(r[i] == w[i]);
                if w[i] != x {
                    let m = choose|m: int| 0 <= m < d.len() && d[m] == w[i];
                    assert(s[m] == w[i]);
                }
            } else {
                assert(s[s.len() - 1] == r[i]);
            }
        }
    } else {
        assert forall|i: int, j: int| 0 <= i < j < r.len() implies !comes_before(
            #[trigger] r[j],
            #[trigger] r[i],
        ) by {
            if j < s.len() {
                assert(!comes_before(s[j], s[i]));
            } else if i < s.len() - 1 {
                assert(!comes_before(s[s.len() - 1], s[i]));
                comes_before_transitive(s[i], s.last(), x);
            }
        }
        assert forall|i: int| 0 <= i < r.len() implies #[trigger] r[i] == x || s.contains(
            r[i],
        ) by {
            if i < s.len() {
                assert(s[i] == r[i]);
            }
        }
    }
}

/// Putting links in order gives an ordered sequence of the same links.
pub proof fn in_order_is_ordered(s: Seq<CableView>)
    ensures
        is_ordered(in_order(s)),
        in_order(s).to_multiset() == s.to_multiset(),
        in_order(s).len() == s.len(),
    decreases s.len(),
{
    broadcast use vstd::seq_lib::group_to_multiset_ensures;

    if s.len() > 0 {
        in_order_is_ordered(s.drop_last());
        placed_keeps_order(in_order(s.drop_last()), s.last());
        assert(s =~= s.drop_last().push(s.last()));
    }
}

/// Two ordered sequences of the same links are the same sequence.
proof fn order_is_unique(a: Seq<CableView>, b: Seq<CableView>)
    requires
        is_ordered(a),
        is_ordered(b),
        a.to_multiset() == b.to_multiset(),
    ensures
        a == b,
    decreases a.len(),
{
    broadcast use vstd::seq_lib::group_to_multiset_ensures;

    assert(a.len() == b.len()) by {
        a.to_multiset_ensures();
        b.to_multiset_ensures();
    }
    if a.len() == 0 {
        assert(a =~= b);
    } else {
        let x = a.last();
        let y = b.last();
        assert(a[a.len() - 1] == x);
        assert(b[b.len() - 1] == y);
        assert(a.contains(x) && b.contains(y));
        assert(a.to_multiset().count(x) > 0 && b.to_multiset().count(y) > 0);
        assert(b.contains(x) && a.contains(y));
        let k = choose|k: int| 0 <= k < b.len() && b[k] == x;
        let m = choose|m: int| 0 <= m < a.len() && a[m] == y;
        if x != y {
            assert(!comes_before(b[b.len() - 1], b[k]));
            assert(!comes_before(a[a.len() - 1], a[m]));
            comes_before_asymmetric(x, y);
            assert(false);
        }
        let c = a.drop_last();
        let d = b.drop_last();
        assert(a =~= c.push(x));
        assert(b =~= d.push(y));
        assert(c.to_multiset() =~= a.to_multiset().remove(x));
        assert(d.to_multiset() =~= b.to_multiset().remove(y));
        assert forall|i: int, j: int| 0 <= i < j < c.len() implies !comes_before(
            #[trigger] c[j],
            #[trigger] c[i],
        ) by {
            assert(!comes_before(a[j], a[i]));
        }
        assert forall|i: int, j: int| 0 <= i < j < d.len() implies !comes_before(
            #[trigger] d[j],
            #[trigger] d[i],
        ) by {
            assert(!comes_before(b[j], b[i]));
        }
        order_is_unique(c, d);
    }
}

/// Links in another sequence are the same cables in another sequence.
proof fn sequence_keeps_cables(a: Seq<LinkView>, b: Seq<LinkView>)
    requires
        a.to_multiset() == b.to_multiset(),
    ensures
        cables(a).to_multiset() == cables(b).to_multiset(),
    decreases a.len(),
{
    broadcast use vstd::seq_lib::group_to_multiset_ensures;

    assert(a.len() == b.len()) by {
        a.to_multiset_ensures();
        b.to_multiset_ensures();
    }
    if a.len() == 0 {
        assert(cables(a) =~= cables(b));
    } else {
        let x = a.last();
        assert(a[a.len() - 1] == x);
        assert(a.contains(x));
        assert(a.to_multiset().count(x) > 0);
        assert(b.contains(x));
        let k = choose|k: int| 0 <= k < b.len() && b[k] == x;
        let c = a.drop_last();
        let d = b.remove(k);
        assert(a =~= c.push(x));
        assert(c.to_multiset() =~= a.to_multiset().remove(x));
        assert(d.to_multiset() =~= b.to_multiset().remove(x));
        sequence_keeps_cables(c, d);
        assert(cables(a) =~= cables(c).push(canonical(x)));
        assert(cables(d) =~= cables(b).remove(k));
        assert(cables(b)[k] == canonical(x));
        assert(cables(b).contains(canonical(x)));
        assert(cables(b).to_multiset() =~= cables(d).to_multiset().insert(canonical(x)));
    }
}

/// The same cables, found in whatever sequence and from whichever end, come
/// out in the same order.
pub proof fn order_depends_on_cables_alone(a: Seq<LinkView>, b: Seq<LinkView>)
    requires
        cables(a).to_multiset() == cables(b).to_multiset(),
    ensures
        in_order(cables(a)) == in_order(cables(b)),
{
    in_order_is_ordered(cables(a));
    in_order_is_ordered(cables(b));
    order_is_unique(in_order(cables(a)), in_order(cables(b)));
}

/// A link seen from its other end.
pub open spec fn turned(l: LinkView) -> LinkView {
    LinkView {
        node_a: l.node_b,
        device_a: l.device_b,
        node_b: l.node_a,
        device_b: l.device_a,
    }
}

/// Turning a link round does not change its canonical form, unless it leads
/// from a node to itself.
pub proof fn canonical_from_either_end(l: LinkView)
    requires
        l.node_a != l.node_b,
    ensures
        canonical(l) == canonical(turned(l)),
{
    text::precedes_total(l.node_a, l.node_b);
}

// ---------------------------------------------------------------------------
// Addresses
// ---------------------------------------------------------------------------

/// The addresses at the two ends of a link. The first node is the one that
/// stands first in the order of code points.
#[derive(Debug, Clone, PartialEq, Eq)]
pub struct LinkAssignment {
    pub node_first: String,
    pub iface_first: String,
    pub ip_first: String,
    pub node_second: String,
    pub iface_second: String,
    pub ip_second: String,
}

/// The texts of an assignment.
pub struct AssignmentView {
    pub cable: CableView,
    pub ip_first: Seq<char>,
    pub ip_second: Seq<char>,
}

impl DeepView for LinkAssignment {
    type V = AssignmentView;

    open spec fn deep_view(&self) -> AssignmentView {
        AssignmentView {
            cable: CableView {
                node_first: self.node_first@,
                iface_first: self.iface_first@,
                node_second: self.node_second@,
                iface_second: self.iface_second@,
            },
            ip_first: self.ip_first@,
            ip_second: self.ip_second@,
        }
    }
}

/// The address `192.168.10.n`.
pub open spec fn link_ip(n: nat) -> Seq<char> {
    "192.168.10."@ + text::dec(n)
}

/// The addresses for the links in order: the link at position `i` gets those
/// that end in `4 i + 1` and `4 i + 2`.
pub open spec fn assigned(cs: Seq<CableView>) -> Seq<AssignmentView> {
    Seq::new(
        cs.len(),
        |i: int|
            AssignmentView {
                cable: cs[i],
                ip_first: link_ip((4 * i + 1) as nat),
                ip_second: link_ip((4 * i + 2) as nat),
            },
    )
}

/// The canonical form of a link.
fn canon(l: &TopologyLink) -> (r: Cable)
    ensures
        r.deep_view() == canonical(l.deep_view()),
{
    let a: String = text::drop_prefix(&l.device_a, "rdma_");
    let b: String = text::drop_prefix(&l.device_b, "rdma_");
    if text::before(&l.node_a, &l.node_b) {
        Cable {
            node_first: text::own(&l.node_a),
            iface_first: a,
            node_second: text::own(&l.node_b),
            iface_second: b,
        }
    } else {
        Cable {
            node_first: text::own(&l.node_b),
            iface_first: b,
            node_second: text::own(&l.node_a),
            iface_second: a,
        }
    }
}

/// The interface of a link that stands first in the order of code points.
fn first_iface(c: &Cable) -> (r: &str)
    ensures
        r@ == least_iface(c.deep_view()),
{
    if text::before(&c.iface_second, &c.iface_first) {
        &c.iface_second
    } else {
        &c.iface_first
    }
}

/// Whether `a` comes before `b`.
fn is_before(a: &Cable, b: &Cable) -> (r: bool)
    ensures
        r == comes_before(a.deep_view(), b.deep_view()),
{
    if !text::same(&a.node_first, &b.node_first) {
        text::before(&a.node_first, &b.node_first)
    } else if !text::same(&a.node_second, &b.node_second) {
        text::before(&a.node_second, &b.node_second)
    } else if !text::same(first_iface(a), first_iface(b)) {
        text::before(first_iface(a), first_iface(b))
    } else if !text::same(&a.iface_first, &b.iface_first) {
        text::before(&a.iface_first, &b.iface_first)
    } else {
        text::before(&a.iface_second, &b.iface_second)
    }
}

/// Puts `x` behind everything that it does not come before.
fn place(v: &mut Vec<Cable>, x: Cable)
    ensures
        final(v).deep_view() == placed(old(v).deep_view(), x.deep_view()),
{
    let ghost s = v.deep_view();
    let ghost y = x.deep_view();
    let mut i: usize = v.len();
    assert(s.take(i as int) =~= s);
    assert(s.skip(i as int) =~= Seq::<CableView>::empty());
    assert(placed(s, y) + Seq::<CableView>::empty() =~= placed(s, y));
    while i > 0 && is_before(&x, &v[i - 1])
        invariant
            i <= v@.len(),
            s == v.deep_view(),
            y == x.deep_view(),
            placed(s, y) == placed(s.take(i as int), y) + s.skip(i as int),
        decreases i,
    {
        proof {
            let t = s.take(i as int);
            assert(t.last() == v@[i - 1].deep_view());
            assert(t.drop_last() =~= s.take(i - 1));
            assert(placed(t.drop_last(), y).push(t.last()) + s.skip(i as int) =~= placed(
                s.take(i - 1),
                y,
            ) + s.skip(i - 1));
        }
        i = i - 1;
    }
    proof {
        let t = s.take(i as int);
        if i > 0 {
            assert(t.last() == v@[i - 1].deep_view());
        }
        assert(placed(t, y) == t.push(y));
    }
    v.insert(i, x);
    assert(v.deep_view() =~= s.take(i as int).push(y) + s.skip(i as int));
}

/// The addresses for the links of a topology. The links are put in order by
/// their nodes, then by the interface that stands first; the link at position
/// `i` gets the addresses that end in `4 i + 1`, for the node that stands
/// first, and `4 i + 2`. The interfaces decide between parallel links of the
/// same two nodes, so that the same cables get the same addresses in whatever
/// sequence they are found.
pub fn deterministic_link_ips(topo: &TopologyReport) -> (r: Vec<LinkAssignment>)
    requires
        4 * topo.links@.len() <= usize::MAX,
    ensures
        r.deep_view() == assigned(in_order(cables(topo.links.deep_view()))),
{
    let ghost ls = topo.links.deep_view();
    let ghost cs = cables(ls);
    let mut sorted: Vec<Cable> = Vec::new();
    let mut i: usize = 0;
    assert(sorted.deep_view() =~= in_order(cs.take(0)));
    while i < topo.links.len()
        invariant
            i <= topo.links@.len(),
            ls == topo.links.deep_view(),
            cs == cables(ls),
            sorted.deep_view() == in_order(cs.take(i as int)),
            sorted@.len() == i,
        decreases topo.links@.len() - i,
    {
        let c: Cable = canon(&topo.links[i]);
        proof {
            assert(ls[i as int] == topo.links@[i as int].deep_view());
            assert(cs.take(i + 1).drop_last() =~= cs.take(i as int));
            assert(cs.take(i + 1).last() == c.deep_view());
            in_order_is_ordered(cs.take(i as int));
            placed_keeps_order(in_order(cs.take(i as int)), c.deep_view());
        }
        place(&mut sorted, c);
        assert(sorted.deep_view().len() == i + 1);
        i = i + 1;
    }
    assert(cs.take(i as int) =~= cs);
    let ghost want = assigned(in_order(cs));
    let mut out: Vec<LinkAssignment> = Vec::new();
    let mut k: usize = 0;
    while k < sorted.len()
        invariant
            k <= sorted@.len(),
            4 * sorted@.len() <= usize::MAX,
            want == assigned(sorted.deep_view()),
            out.deep_view() == want.take(k as int),
        decreases sorted@.len() - k,
    {
        let c: &Cable = &sorted[k];
        assert(sorted.deep_view()[k as int] == c.deep_view());
        let base: u64 = (4 * k) as u64;
        let a = LinkAssignment {
            node_first: text::own(&c.node_first),
            iface_first: text::own(&c.iface_first),
            ip_first: text::glue("192.168.10.", &text::decimal(base + 1)),
            node_second: text::own(&c.node_second),
            iface_second: text::own(&c.iface_second),
            ip_second: text::glue("192.168.10.", &text::decimal(base + 2)),
        };
        text::push_item(&mut out, a);
        k = k + 1;
        assert(out.deep_view() =~= want.take(k as int));
    }
    assert(want.take(k as int) =~= want);
    out
}

/// The numerals of different numbers differ.
pub proof fn numerals_differ(m: nat, n: nat)
    requires
        m != n,
    ensures
        text::dec(m) != text::dec(n),
{
    text::decimal_reads_back(m);
    text::decimal_reads_back(n);
}

/// No two ends of links get the same address.
pub proof fn no_address_twice(cs: Seq<CableView>, i: int, j: int)
    requires
        0 <= i < cs.len(),
        0 <= j < cs.len(),
    ensures
        assigned(cs)[i].ip_first != assigned(cs)[j].ip_second,
        i != j ==> assigned(cs)[i].ip_first != assigned(cs)[j].ip_first,
        i != j ==> assigned(cs)[i].ip_second != assigned(cs)[j].ip_second,
{
    let p = "192.168.10."@;
    let a = (4 * i + 1) as nat;
    let b = (4 * i + 2) as nat;
    let c = (4 * j + 1) as nat;
    let d = (4 * j + 2) as nat;
    assert(a != d);
    numerals_differ(a, d);
    assert(link_ip(a).skip(p.len() as int) =~= text::dec(a));
    assert(link_ip(b).skip(p.len() as int) =~= text::dec(b));
    assert(link_ip(c).skip(p.len() as int) =~= text::dec(c));
    assert(link_ip(d).skip(p.len() as int) =~= text::dec(d));
    if i != j {
        numerals_differ(a, c);
        numerals_differ(b, d);
    }
}

/// The same cables get the same addresses, in whatever sequence and from
/// whichever end they are found: `b` are the links of `a` in the sequence
/// `found`, each seen from one of its ends.
pub proof fn same_cables_same_addresses(
    a: Seq<LinkView>,
    found: Seq<LinkView>,
    b: Seq<LinkView>,
)
    requires
        a.to_multiset() == found.to_multiset(),
        b.len() == found.len(),
        forall|i: int|
            0 <= i < b.len() ==> #[trigger] b[i] == found[i] || b[i] == turned(found[i]),
        forall|i: int| 0 <= i < found.len() ==> (#[trigger] found[i]).node_a != found[i].node_b,
    ensures
        assigned(in_order(cables(a))) == assigned(in_order(cables(b))),
{
    sequence_keeps_cables(a, found);
    assert forall|i: int| 0 <= i < b.len() implies #[trigger] cables(b)[i] == cables(found)[i] by {
        assert(b[i] == found[i] || b[i] == turned(found[i]));
        canonical_from_either_end(found[i]);
    }
    assert(cables(b) =~= cables(found));
    order_depends_on_cables_alone(a, b);
}

/// The two ends of a link lie in the network of four addresses that begins at
/// `4 i`, and no other link does.
pub proof fn each_link_has_its_network(i: nat, j: nat)
    ensures
        (4 * i + 1) / 4 == i,
        (4 * i + 2) / 4 == i,
        i != j ==> (4 * i + 1) / 4 != (4 * j + 1) / 4,
{
}

// ---------------------------------------------------------------------------
// Remembering links between scans
// ---------------------------------------------------------------------------

/// The number of scans in a row without a link that make it forgotten.
pub const FORGET_AFTER: u32 = 3;

/// A link that has been seen, and the number of scans since then.
pub struct KnownLink {
    pub key: String,
    pub link: TopologyLink,
    pub misses: u32,
}

/// The texts of a known link.
pub struct KnownView {
    pub key: Seq<char>,
    pub link: LinkView,
    pub misses: nat,
}

impl DeepView for KnownLink {
    type V = KnownView;

    open spec fn deep_view(&self) -> KnownView {
        KnownView { key: self.key@, link: self.link.deep_view(), misses: self.misses as nat }
    }
}

/// The key of a link: its ends in canonical form.
pub open spec fn key_of(l: LinkView) -> Seq<char> {
    let c = canonical(l);
    c.node_first + ":"@ + c.iface_first + "|"@ + c.node_second + ":"@ + c.iface_second
}

/// The key of a link, which is the same from either end.
pub fn link_key(l: &TopologyLink) -> (r: String)
    ensures
        r@ == key_of(l.deep_view()),
{
    let c: Cable = canon(l);
    let mut s: String = text::own(&c.node_first);
    s.append(":");
    s.append(&c.iface_first);
    s.append("|");
    s.append(&c.node_second);
    s.append(":");
    s.append(&c.iface_second);
    s
}

/// What is known under a key.
pub open spec fn known_at(s: Seq<KnownView>, key: Seq<char>) -> Option<KnownView>
    decreases s.len(),
{
    if s.len() == 0 {
        None
    } else if s[0].key == key {
        Some(s[0])
    } else {
        known_at(s.drop_first(), key)
    }
}

/// The last link of a scan with that key.
pub open spec fn seen_at(scan: Seq<LinkView>, key: Seq<char>) -> Option<LinkView>
    decreases scan.len(),
{
    if scan.len() == 0 {
        None
    } else if key_of(scan.last()) == key {
        Some(scan.last())
    } else {
        seen_at(scan.drop_last(), key)
    }
}

/// What is known under a key after a scan: a link that was seen is known
/// with no miss, one that was not seen has one miss more, and it is forgotten
/// at the third.
pub open spec fn after_scan(
    old: Option<KnownView>,
    scan: Seq<LinkView>,
    key: Seq<char>,
) -> Option<KnownView> {
    match seen_at(scan, key) {
        Some(link) => Some(KnownView { key, link, misses: 0 }),
        None => match old {
            Some(k) => if k.misses + 1 < 3 {
                Some(KnownView { key, link: k.link, misses: (k.misses + 1) as nat })
            } else {
                None
            },
            None => None,
        },
    }
}

/// The links that have been seen, without those that were missing from three
/// scans in a row.
pub struct LinkMemory {
    known: Vec<KnownLink>,
}

/// No key stands twice, and no link has three misses.
pub open spec fn memory_wf(s: Seq<KnownView>) -> bool {
    &&& forall|i: int, j: int| 0 <= i < j < s.len() ==> (#[trigger] s[i]).key != (#[trigger] s[j]).key
    &&& forall|i: int| 0 <= i < s.len() ==> (#[trigger] s[i]).misses < 3
}

/// A key is found exactly where some entry has it.
proof fn known_at_finds(s: Seq<KnownView>, key: Seq<char>)
    ensures
        known_at(s, key) is None ==> forall|i: int| 0 <= i < s.len() ==> (#[trigger] s[i]).key
            != key,
        known_at(s, key) matches Some(k) ==> s.contains(k) && k.key == key,
    decreases s.len(),
{
    if s.len() > 0 && s[0].key != key {
        known_at_finds(s.drop_first(), key);
        assert forall|i: int|
            known_at(s, key) is None && 0 <= i < s.len() implies (#[trigger] s[i]).key != key by {
            if i > 0 {
                assert(s[i] == s.drop_first()[i - 1]);
            }
        }
        if let Some(k) = known_at(s, key) {
            let m = choose|m: int| 0 <= m < s.drop_first().len() && s.drop_first()[m] == k;
            assert(s[m + 1] == k);
        }
    } else if s.len() > 0 {
        assert(s.contains(s[0]));
    }
}

/// Adding an entry at the end shows under its key where none had it.
proof fn known_at_push(s: Seq<KnownView>, e: KnownView, key: Seq<char>)
    ensures
        known_at(s.push(e), key) == (match known_at(s, key) {
            Some(k) => Some(k),
            None => if e.key == key {
                Some(e)
            } else {
                None
            },
        }),
    decreases s.len(),
{
    let r = s.push(e);
    if s.len() == 0 {
        assert(r.drop_first() =~= s);
    } else {
        assert(r.drop_first() =~= s.drop_first().push(e));
        known_at_push(s.drop_first(), e, key);
    }
}

/// Setting an entry with the same key shows under that key alone.
proof fn known_at_update(s: Seq<KnownView>, i: int, e: KnownView, key: Seq<char>)
    requires
        0 <= i < s.len(),
        s[i].key == e.key,
        forall|a: int, b: int| 0 <= a < b < s.len() ==> (#[trigger] s[a]).key != (#[trigger] s[b]).key,
    ensures
        known_at(s.update(i, e), key) == (if key == e.key {
            Some(e)
        } else {
            known_at(s, key)
        }),
    decreases s.len(),
{
    let r = s.update(i, e);
    let d = s.drop_first();
    if i == 0 {
        assert(r.drop_first() =~= d);
    } else {
        assert(r.drop_first() =~= d.update(i - 1, e));
        assert forall|a: int, b: int| 0 <= a < b < d.len() implies (#[trigger] d[a]).key
            != (#[trigger] d[b]).key by {
            assert(s[a + 1].key != s[b + 1].key);
        }
        assert(s[0].key != s[i].key);
        known_at_update(d, i - 1, e, key);
    }
}

/// Seeing one link more shows under its key.
proof fn seen_at_push(scan: Seq<LinkView>, n: int, key: Seq<char>)
    requires
        0 <= n < scan.len(),
    ensures
        seen_at(scan.take(n + 1), key) == (if key_of(scan[n]) == key {
            Some(scan[n])
        } else {
            seen_at(scan.take(n), key)
        }),
{
    assert(scan.take(n + 1).drop_last() =~= scan.take(n));
    assert(scan.take(n + 1).last() == scan[n]);
}

/// A copy of a link.
pub fn copy_link(l: &TopologyLink) -> (r: TopologyLink)
    ensures
        r.deep_view() == l.deep_view(),
{
    TopologyLink {
        node_a: text::own(&l.node_a),
        device_a: text::own(&l.device_a),
        node_b: text::own(&l.node_b),
        device_b: text::own(&l.device_b),
    }
}

impl View for LinkMemory {
    type V = Seq<KnownView>;

    closed spec fn view(&self) -> Seq<KnownView> {
        self.known.deep_view()
    }
}

/// Whether a link of the scan has that key.
fn is_seen(scan: &Vec<TopologyLink>, key: &str) -> (r: bool)
    ensures
        r == (seen_at(scan.deep_view(), key@) is Some),
{
    let ghost s = scan.deep_view();
    let mut i: usize = 0;
    assert(s.take(0) =~= Seq::<LinkView>::empty());
    let mut hit: bool = false;
    while i < scan.len()
        invariant
            i <= scan@.len(),
            s == scan.deep_view(),
            hit == (seen_at(s.take(i as int), key@) is Some),
        decreases scan@.len() - i,
    {
        proof {
            seen_at_push(s, i as int, key@);
            assert(s[i as int] == scan@[i as int].deep_view());
        }
        if text::same(&link_key(&scan[i]), key) {
            hit = true;
        }
        i = i + 1;
    }
    assert(s.take(i as int) =~= s);
    hit
}

impl LinkMemory {
    /// No key stands twice, and no link has three misses.
    pub open spec fn wf(&self) -> bool {
        memory_wf(self@)
    }

    /// A memory without links.
    pub fn new() -> (r: LinkMemory)
        ensures
            r.wf(),
            r@.len() == 0,
    {
        LinkMemory { known: Vec::new() }
    }

    /// The number of links that are known.
    pub fn len(&self) -> (r: usize)
        ensures
            r == self@.len(),
    {
        self.known.len()
    }

    /// The number of scans since the link under `key` was seen.
    pub fn streak(&self, key: &str) -> (r: Option<u32>)
        ensures
            r matches Some(n) ==> known_at(self@, key@) matches Some(k) && k.misses == n,
            r is None ==> known_at(self@, key@) is None,
    {
        let ghost s = self@;
        let mut i: usize = 0;
        assert(s.skip(0) =~= s);
        while i < self.known.len()
            invariant
                i <= self.known@.len(),
                s == self@,
                s == self.known.deep_view(),
                known_at(s, key@) == known_at(s.skip(i as int), key@),
            decreases self.known@.len() - i,
        {
            assert(s.skip(i as int)[0] == self.known@[i as int].deep_view());
            assert(s.skip(i as int).drop_first() =~= s.skip(i + 1));
            if text::same(&self.known[i].key, key) {
                return Some(self.known[i].misses);
            }
            i = i + 1;
        }
        None
    }

    /// The link at position `i`.
    pub fn link(&self, i: usize) -> (r: TopologyLink)
        requires
            i < self@.len(),
        ensures
            r.deep_view() == self@[i as int].link,
    {
        assert(self@[i as int] == self.known@[i as int].deep_view());
        copy_link(&self.known[i].link)
    }

    /// The entries that a scan leaves: those that it does not show, with one
    /// miss more, but for those that reach the third.
    fn aged(&self, scan: &Vec<TopologyLink>) -> (r: Vec<KnownLink>)
        requires
            self.wf(),
        ensures
            memory_wf(r.deep_view()),
            forall|key: Seq<char>| #[trigger]
                known_at(r.deep_view(), key) == (if seen_at(scan.deep_view(), key) is Some {
                    None
                } else {
                    after_scan(known_at(self@, key), scan.deep_view(), key)
                }),
    {
        let ghost s = self@;
        let ghost seen = scan.deep_view();
        let mut out: Vec<KnownLink> = Vec::new();
        let mut i: usize = 0;
        assert(s.take(0) =~= Seq::<KnownView>::empty());
        while i < self.known.len()
            invariant
                i <= self.known@.len(),
                s == self@,
                s == self.known.deep_view(),
                self.wf(),
                seen == scan.deep_view(),
                memory_wf(out.deep_view()),
                forall|j: int|
                    0 <= j < out@.len() ==> exists|m: int|
                        0 <= m < i && (#[trigger] out.deep_view()[j]).key == (#[trigger] s[m]).key,
                forall|key: Seq<char>| #[trigger]
                    known_at(out.deep_view(), key) == (if seen_at(seen, key) is Some {
                        None
                    } else {
                        after_scan(known_at(s.take(i as int), key), seen, key)
                    }),
            decreases self.known@.len() - i,
        {
            let k: &KnownLink = &self.known[i];
            let ghost before = out.deep_view();
            let ghost e = s[i as int];
            proof {
                assert(e == k.deep_view());
                assert(s.take(i + 1) =~= s.take(i as int).push(e));
                assert(e.misses < 3);
            }
            if !is_seen(scan, &k.key) && k.misses + 1 < FORGET_AFTER {
                let n = KnownLink {
                    key: text::own(&k.key),
                    link: copy_link(&k.link),
                    misses: k.misses + 1,
                };
                let ghost nv = n.deep_view();
                text::push_item(&mut out, n);
                proof {
                    assert(out.deep_view() =~= before.push(nv));
                    assert forall|a: int, b: int| 0 <= a < b < out.deep_view().len() implies (
                    #[trigger] out.deep_view()[a]).key != (#[trigger] out.deep_view()[b]).key by {
                        if b == before.len() {
                            assert(out.deep_view()[a] == before[a]);
                            let m = choose|m: int|
                                0 <= m < i && before[a].key == (#[trigger] s[m]).key;
                            assert(s[m].key != s[i as int].key);
                        } else {
                            assert(before[a].key != before[b].key);
                        }
                    }
                    assert forall|j: int| 0 <= j < out@.len() implies exists|m: int|
                        0 <= m < i + 1 && (#[trigger] out.deep_view()[j]).key == (
                        #[trigger] s[m]).key by {
                        if j == before.len() {
                            assert(out.deep_view()[j].key == s[i as int].key);
                        } else {
                            assert(out.deep_view()[j] == before[j]);
                            let m = choose|m: int|
                                0 <= m < i && before[j].key == (#[trigger] s[m]).key;
                            assert(out.deep_view()[j].key == s[m].key);
                        }
                    }
                }
            }
            proof {
                assert forall|key: Seq<char>| #[trigger]
                    known_at(out.deep_view(), key) == (if seen_at(seen, key) is Some {
                        None
                    } else {
                        after_scan(known_at(s.take(i + 1), key), seen, key)
                    }) by {
                    known_at_push(s.take(i as int), e, key);
                    assert(known_at(before, key) == (if seen_at(seen, key) is Some {
                        None
                    } else {
                        after_scan(known_at(s.take(i as int), key), seen, key)
                    }));
                    if out.deep_view().len() > before.len() {
                        known_at_push(before, out.deep_view().last(), key);
                        assert(out.deep_view() =~= before.push(out.deep_view().last()));
                    }
                    known_at_finds(s.take(i as int), key);
                    if e.key == key {
                        if known_at(s.take(i as int), key) is Some {
                            let kk = known_at(s.take(i as int), key)->0;
                            let m = choose|m: int|
                                0 <= m < s.take(i as int).len() && s.take(i as int)[m] == kk;
                            assert(s[m].key != s[i as int].key);
                        }
                    }
                }
            }
            i = i + 1;
        }
        assert(s.take(i as int) =~= s);
        out
    }

    /// Takes in a scan: the links that it shows are known with no miss, the
    /// others have one miss more, and those that were missing from three
    /// scans in a row are forgotten.
    pub fn merge(&mut self, scan: &Vec<TopologyLink>)
        requires
            old(self).wf(),
        ensures
            final(self).wf(),
            forall|key: Seq<char>| #[trigger]
                known_at(final(self)@, key) == after_scan(
                    known_at(old(self)@, key),
                    scan.deep_view(),
                    key,
                ),
    {
        let ghost s = self@;
        let ghost seen = scan.deep_view();
        let mut out: Vec<KnownLink> = self.aged(scan);
        let mut i: usize = 0;
        let ghost kept = out.deep_view();
        assert(seen.take(0) =~= Seq::<LinkView>::empty());
        assert forall|key: Seq<char>| #[trigger]
            known_at(out.deep_view(), key) == (match seen_at(seen.take(0), key) {
                Some(link) => Some(KnownView { key, link, misses: 0 }),
                None => known_at(kept, key),
            }) by {}
        while i < scan.len()
            invariant
                i <= scan@.len(),
                seen == scan.deep_view(),
                memory_wf(out.deep_view()),
                forall|key: Seq<char>| #[trigger]
                    known_at(out.deep_view(), key) == (match seen_at(seen.take(i as int), key) {
                        Some(link) => Some(KnownView { key, link, misses: 0 }),
                        None => known_at(kept, key),
                    }),
            decreases scan@.len() - i,
        {
            let key: String = link_key(&scan[i]);
            let ghost before = out.deep_view();
            let mut j: usize = 0;
            while j < out.len() && !text::same(&out[j].key, &key)
                invariant
                    j <= out@.len(),
                    before == out.deep_view(),
                    forall|m: int| 0 <= m < j ==> (#[trigger] before[m]).key != key@,
                decreases out@.len() - j,
            {
                assert(before[j as int] == out@[j as int].deep_view());
                j = j + 1;
            }
            let e = KnownLink { key, link: copy_link(&scan[i]), misses: 0 };
            let ghost ev = e.deep_view();
            proof {
                assert(seen[i as int] == scan@[i as int].deep_view());
            }
            if j < out.len() {
                assert(before[j as int] == out@[j as int].deep_view());
                out.set(j, e);
                proof {
                    assert(out.deep_view() =~= before.update(j as int, ev));
                    assert forall|a: int, b: int| 0 <= a < b < out.deep_view().len() implies (
                    #[trigger] out.deep_view()[a]).key != (#[trigger] out.deep_view()[b]).key by {
                        assert(before[a].key != before[b].key);
                    }
                    assert forall|a: int| 0 <= a < out.deep_view().len() implies (
                    #[trigger] out.deep_view()[a]).misses < 3 by {
                        assert(before[a].misses < 3);
                    }
                }
            } else {
                out.push(e);
                proof {
                    assert(out.deep_view() =~= before.push(ev));
                    assert forall|a: int, b: int| 0 <= a < b < out.deep_view().len() implies (
                    #[trigger] out.deep_view()[a]).key != (#[trigger] out.deep_view()[b]).key by {
                        assert(out.deep_view()[a] == before[a]);
                        if b < before.len() {
                            assert(before[a].key != before[b].key);
                        }
                    }
                    assert forall|a: int| 0 <= a < out.deep_view().len() implies (
                    #[trigger] out.deep_view()[a]).misses < 3 by {
                        if a < before.len() {
                            assert(before[a].misses < 3);
                        }
                    }
                }
            }
            proof {
                assert forall|k: Seq<char>| #[trigger]
                    known_at(out.deep_view(), k) == (match seen_at(seen.take(i + 1), k) {
                        Some(link) => Some(KnownView { key: k, link, misses: 0 }),
                        None => known_at(kept, k),
                    }) by {
                    seen_at_push(seen, i as int, k);
                    assert(known_at(before, k) == (match seen_at(seen.take(i as int), k) {
                        Some(link) => Some(KnownView { key: k, link, misses: 0 }),
                        None => known_at(kept, k),
                    }));
                    if j < before.len() {
                        known_at_update(before, j as int, ev, k);
                    } else {
                        known_at_push(before, ev, k);
                        known_at_finds(before, k);
                        if k == ev.key && known_at(before, k) is Some {
                            let kk = known_at(before, k)->0;
                            let m = choose|m: int| 0 <= m < before.len() && before[m] == kk;
                            assert(before[m].key != ev.key);
                        }
                    }
                }
            }
            i = i + 1;
        }
        assert(seen.take(i as int) =~= seen);
        self.known = out;
    }
}

/// A link that a scan shows is known after it with no miss, whatever was
/// known before.
pub proof fn seen_link_is_fresh(old: Option<KnownView>, scan: Seq<LinkView>, key: Seq<char>)
    requires
        seen_at(scan, key) is Some,
    ensures
        after_scan(old, scan, key) == Some(
            (KnownView { key, link: seen_at(scan, key)->0, misses: 0 }),
        ),
{
}

/// A link just seen survives two scans that do not show it and is forgotten
/// at the third.
pub proof fn forgotten_at_third_miss(
    k: KnownView,
    a: Seq<LinkView>,
    b: Seq<LinkView>,
    c: Seq<LinkView>,
)
    requires
        k.misses == 0,
        seen_at(a, k.key) is None,
        seen_at(b, k.key) is None,
        seen_at(c, k.key) is None,
    ensures
        ({
            let one = after_scan(Some(k), a, k.key);
            let two = after_scan(one, b, k.key);
            let three = after_scan(two, c, k.key);
            &&& one is Some
            &&& two is Some
            &&& (two->0).link == k.link
            &&& three is None
        }),
{
}

/// Taking in a scan twice in a row changes nothing the second time, for the
/// links that it shows.
pub proof fn scan_twice(old: Option<KnownView>, scan: Seq<LinkView>, key: Seq<char>)
    requires
        seen_at(scan, key) is Some,
    ensures
        after_scan(after_scan(old, scan, key), scan, key) == after_scan(old, scan, key),
{
}

// ---------------------------------------------------------------------------
// Laws of cables
// ---------------------------------------------------------------------------

/// A cable has the two ends of its link: each node keeps the interface that its
/// device is named after, and the smaller node stands first.
pub proof fn ends_keep_their_interfaces(a: Seq<char>, x: Seq<char>, b: Seq<char>, y: Seq<char>)
    ensures
        ({
            let c = canonical(
                LinkView { node_a: a, device_a: "rdma_"@ + x, node_b: b, device_b: "rdma_"@ + y },
            );
            &&& text::precedes(a, b) ==> c.node_first == a && c.iface_first == x && c.node_second
                == b && c.iface_second == y
            &&& text::precedes(b, a) ==> c.node_first == b && c.iface_first == y && c.node_second
                == a && c.iface_second == x
        }),
{
    text::precedes_total(a, b);
    let p = "rdma_"@ + x;
    let q = "rdma_"@ + y;
    assert(p.take("rdma_"@.len() as int) =~= "rdma_"@);
    assert(q.take("rdma_"@.len() as int) =~= "rdma_"@);
    assert(p.skip("rdma_"@.len() as int) =~= x);
    assert(q.skip("rdma_"@.len() as int) =~= y);
}

/// Cables come in the order of their nodes, and between the same nodes in the
/// order of the smaller of their interfaces.
pub proof fn nodes_decide_first(a: CableView, b: CableView)
    ensures
        text::precedes(a.node_first, b.node_first) ==> comes_before(a, b),
        a.node_first == b.node_first && text::precedes(a.node_second, b.node_second)
            ==> comes_before(a, b),
        a.node_first == b.node_first && a.node_second == b.node_second && text::precedes(
            least_iface(a),
            least_iface(b),
        ) ==> comes_before(a, b),
        least_iface(a) == a.iface_first || least_iface(a) == a.iface_second,
        !text::precedes(a.iface_first, least_iface(a)),
        !text::precedes(a.iface_second, least_iface(a)),
{
    text::precedes_total(a.node_first, b.node_first);
    text::precedes_total(a.node_second, b.node_second);
    text::precedes_total(least_iface(a), least_iface(b));
    text::precedes_total(a.iface_first, a.iface_second);
    text::precedes_total(a.iface_first, a.iface_first);
    text::precedes_total(a.iface_second, a.iface_second);
}

/// The two addresses of a cable stand next to each other in one network of
/// four, which is that of its place, and the cable is the one at that place.
pub proof fn ends_share_a_network(cs: Seq<CableView>, i: int) -> (n: nat)
    requires
        0 <= i < cs.len(),
    ensures
        assigned(cs).len() == cs.len(),
        assigned(cs)[i].cable == cs[i],
        assigned(cs)[i].ip_first == "192.168.10."@ + text::dec(n),
        assigned(cs)[i].ip_second == "192.168.10."@ + text::dec(n + 1),
        n / 4 == i,
        n % 4 == 1,
        (n + 1) / 4 == i,
{
    (4 * i + 1) as nat
}

/// A link is seen under a key where the scan holds one with that key, and it is
/// the latest such.
pub proof fn seen_link_is_in_the_scan(scan: Seq<LinkView>, key: Seq<char>)
    ensures
        match seen_at(scan, key) {
            Some(l) => exists|i: int|
                0 <= i < scan.len() && #[trigger] scan[i] == l && key_of(l) == key && forall|
                    j: int,
                |
                    i < j < scan.len() ==> key_of(#[trigger] scan[j]) != key,
            None => forall|i: int| 0 <= i < scan.len() ==> key_of(#[trigger] scan[i]) != key,
        },
    decreases scan.len(),
{
    if scan.len() > 0 {
        let k = scan.len() - 1;
        let front = scan.drop_last();
        if key_of(scan.last()) == key {
            assert(scan[k] == scan.last());
        } else {
            seen_link_is_in_the_scan(front, key);
            if let Some(l) = seen_at(front, key) {
                let i = choose|i: int|
                    0 <= i < front.len() && #[trigger] front[i] == l && key_of(l) == key && forall|
                        j: int,
                    |
                        i < j < front.len() ==> key_of(#[trigger] front[j]) != key;
                assert(scan[i] == l);
                assert forall|j: int| i < j < scan.len() implies key_of(#[trigger] scan[j]) != key by {
                    if j < k {
                        assert(scan[j] == front[j]);
                    }
                }
            } else {
                assert forall|i: int| 0 <= i < scan.len() implies key_of(#[trigger] scan[i]) != key by {
                    if i < k {
                        assert(scan[i] == front[i]);
                    }
                }
            }
        }
    }
}

/// Whether the names of a cable's ends hold none of the marks of a key.
pub open spec fn plain_ends(c: CableView) -> bool {
    &&& !c.node_first.contains(':') && !c.iface_first.contains('|')
    &&& !c.node_second.contains(':')
}

/// Links have the same key only where they are the same cable.
#[verifier::rlimit(60)]
pub proof fn key_tells_cables_apart(a: LinkView, b: LinkView)
    requires
        plain_ends(canonical(a)),
        plain_ends(canonical(b)),
    ensures
        key_of(a) == key_of(b) <==> canonical(a) == canonical(b),
{
    reveal_strlit(":");
    reveal_strlit("|");
    if key_of(a) == key_of(b) {
        let c = canonical(a);
        let d = canonical(b);
        let x = c.iface_first + "|"@ + c.node_second + ":"@ + c.iface_second;
        let y = d.iface_first + "|"@ + d.node_second + ":"@ + d.iface_second;
        assert(key_of(a) =~= c.node_first + seq![':'] + x);
        assert(key_of(b) =~= d.node_first + seq![':'] + y);
        text::cut_at_first(c.node_first, ':', x);
        text::cut_at_first(d.node_first, ':', y);
        let v = c.node_second + ":"@ + c.iface_second;
        let w = d.node_second + ":"@ + d.iface_second;
        assert(x =~= c.iface_first + seq!['|'] + v);
        assert(y =~= d.iface_first + seq!['|'] + w);
        text::cut_at_first(c.iface_first, '|', v);
        text::cut_at_first(d.iface_first, '|', w);
        assert(v =~= c.node_second + seq![':'] + c.iface_second);
        assert(w =~= d.node_second + seq![':'] + d.iface_second);
        text::cut_at_first(c.node_second, ':', c.iface_second);
        text::cut_at_first(d.node_second, ':', d.iface_second);
    }
}

/// What is known under a key is an entry of that key, and nothing is known only
/// where there is none.
pub proof fn known_link_has_the_key(s: Seq<KnownView>, key: Seq<char>)
    ensures
        match known_at(s, key) {
            Some(k) => k.key == key && s.contains(k),
            None => forall|i: int| 0 <= i < s.len() ==> (#[trigger] s[i]).key != key,
        },
    decreases s.len(),
{
    if s.len() > 0 {
        let rest = s.drop_first();
        known_link_has_the_key(rest, key);
        if s[0].key == key {
            assert(s.contains(s[0]));
        } else if let Some(k) = known_at(rest, key) {
            let i = choose|i: int| 0 <= i < rest.len() && rest[i] == k;
            assert(s[i + 1] == k);
        } else {
            assert forall|i: int| 0 <= i < s.len() implies (#[trigger] s[i]).key != key by {
                if i > 0 {
                    assert(s[i] == rest[i - 1]);
                }
            }
        }
    }
}

} // verus!
