//! A graph that was written is read back as it was.

use crate::table;
use crate::text;
use crate::topology::{self, LinkView, MAX_DOT_NODES};
use vstd::prelude::*;

verus! {

// ---------------------------------------------------------------------------
// Text
// ---------------------------------------------------------------------------

/// The first piece before a `c` is what holds no `c`.
proof fn cut_around(a: Seq<char>, c: char, b: Seq<char>)
    requires
        !a.contains(c),
    ensures
        text::find_char(a + seq![c] + b, c) == a.len(),
        text::cut_at(a + seq![c] + b, c) == Some((a, b)),
{
    let s = a + seq![c] + b;
    let k = text::find_char(s, c);
    text::find_char_is_first(s, c);
    assert(s[a.len() as int] == c);
    if k < a.len() {
        assert(a[k as int] == c);
    }
    assert(s.take(k as int) =~= a);
    assert(s.skip(k as int + 1) =~= b);
}

/// One more line at the end of a text of whole lines.
proof fn one_more_line(s: Seq<char>, l: Seq<char>)
    requires
        s.len() == 0 || s.last() == '\n',
        !l.contains('\n'),
    ensures
        text::lines_of(s + l + seq!['\n']) == text::lines_of(s).push(text::without_return(l)),
    decreases s.len(),
{
    let t = s + l + seq!['\n'];
    if s.len() == 0 {
        cut_around(l, '\n', Seq::empty());
        assert(t =~= l + seq!['\n'] + Seq::<char>::empty());
        assert(t.take(l.len() as int) =~= l);
        assert(t.skip(l.len() as int + 1) =~= Seq::<char>::empty());
        assert(text::lines_of(Seq::<char>::empty()) =~= Seq::<Seq<char>>::empty());
        assert(text::lines_of(t) =~= seq![text::without_return(l)]);
        assert(text::lines_of(s) =~= Seq::<Seq<char>>::empty());
    } else {
        let k = text::find_char(s, '\n');
        text::find_char_is_first(s, '\n');
        let a = s.take(k as int);
        let b = s.skip(k as int + 1);
        assert(!a.contains('\n'));
        cut_around(a, '\n', b + l + seq!['\n']);
        assert(t =~= a + seq!['\n'] + (b + l + seq!['\n']));
        one_more_line(b, l);
        assert(t.take(k as int) =~= a);
        assert(t.skip(k as int + 1) =~= b + l + seq!['\n']);
        assert(text::lines_of(t) =~= text::lines_of(s).push(text::without_return(l)));
    }
}

/// Where the white space at the front ends.
proof fn space_ends(s: Seq<char>, n: nat)
    requires
        n <= s.len(),
        forall|i: int| 0 <= i < n ==> text::is_space(#[trigger] s[i]),
        n == s.len() || !text::is_space(s[n as int]),
    ensures
        text::lead_space(s) == n,
    decreases n,
{
    if n > 0 {
        let t = s.drop_first();
        assert forall|i: int| 0 <= i < n - 1 implies text::is_space(#[trigger] t[i]) by {
            assert(t[i] == s[i + 1]);
        }
        space_ends(t, (n - 1) as nat);
    }
}

/// Where the word at the front ends.
proof fn word_ends(s: Seq<char>, n: nat)
    requires
        n <= s.len(),
        forall|i: int| 0 <= i < n ==> !text::is_space(#[trigger] s[i]),
        n == s.len() || text::is_space(s[n as int]),
    ensures
        text::lead_word(s) == n,
    decreases n,
{
    if n > 0 {
        let t = s.drop_first();
        assert forall|i: int| 0 <= i < n - 1 implies !text::is_space(#[trigger] t[i]) by {
            assert(t[i] == s[i + 1]);
        }
        word_ends(t, (n - 1) as nat);
    }
}

/// The next word of a text.
proof fn next_word(gap: Seq<char>, w: Seq<char>, rest: Seq<char>)
    requires
        forall|i: int| 0 <= i < gap.len() ==> text::is_space(#[trigger] gap[i]),
        w.len() > 0,
        forall|i: int| 0 <= i < w.len() ==> !text::is_space(#[trigger] w[i]),
        rest.len() == 0 || text::is_space(rest[0]),
    ensures
        text::words_of(gap + w + rest) == seq![w] + text::words_of(rest),
{
    let s = gap + w + rest;
    space_ends(s, gap.len());
    let t = s.skip(gap.len() as int);
    assert(t =~= w + rest);
    word_ends(t, w.len());
    assert(t.take(w.len() as int) =~= w);
    assert(t.skip(w.len() as int) =~= rest);
}

/// Trimming takes the space before a text that begins and ends with none.
proof fn trimmed_behind(gap: Seq<char>, x: Seq<char>)
    requires
        forall|i: int| 0 <= i < gap.len() ==> text::is_space(#[trigger] gap[i]),
        x.len() > 0,
        !text::is_space(x[0]),
        !text::is_space(x.last()),
    ensures
        text::trimmed(gap + x) == x,
{
    space_ends(gap + x, gap.len());
    assert((gap + x).skip(gap.len() as int) =~= x);
}

/// A pattern stands in none of three pieces and does not hold what borders
/// the middle one: it does not stand in the whole.
proof fn stays_out(pre: Seq<char>, mid: Seq<char>, post: Seq<char>, p: Seq<char>)
    requires
        p.len() > 0,
        pre.len() > 0,
        post.len() > 0,
        !p.contains(pre.last()),
        !p.contains(post[0]),
        !text::has(pre, p),
        !text::has(mid, p),
        !text::has(post, p),
    ensures
        !text::has(pre + mid + post, p),
{
    let s = pre + mid + post;
    assert forall|i: int| !text::occurs_at(s, p, i) by {
        if text::occurs_at(s, p, i) {
            let n = p.len() as int;
            let a = pre.len() as int;
            let b = a + mid.len();
            assert forall|j: int| 0 <= j < n implies #[trigger] p[j] == s[i + j] by {
                assert(s.subrange(i, i + n)[j] == s[i + j]);
            }
            if i < a && i + n >= a {
                assert(p[a - 1 - i] == pre.last());
            } else if i <= b && i + n > b {
                assert(p[b - i] == post[0]);
            } else if i < a {
                assert(pre.subrange(i, i + n) =~= p);
                assert(text::occurs_at(pre, p, i));
            } else if i < b {
                assert(mid.subrange(i - a, i - a + n) =~= p);
                assert(text::occurs_at(mid, p, i - a));
            } else {
                assert(post.subrange(i - b, i - b + n) =~= p);
                assert(text::occurs_at(post, p, i - b));
            }
        }
    }
}

// ---------------------------------------------------------------------------
// Lines
// ---------------------------------------------------------------------------

/// A name that the line of a node can carry.
pub open spec fn nameable(name: Seq<char>) -> bool {
    &&& !name.contains('"')
    &&& !name.contains('\n')
    &&& !text::has(name, "--"@)
    &&& !text::has(name, "shape="@)
}

/// A link that a line can carry: its ends are nodes whose identifiers are
/// no white space, and its devices are RDMA devices whose names hold nothing
/// that ends a label or a half of one.
pub open spec fn drawable(nodes: Seq<Seq<char>>, l: LinkView) -> bool {
    &&& nodes.contains(l.node_a)
    &&& nodes.contains(l.node_b)
    &&& !text::is_space(topology::id_of(nodes, l.node_a)[0])
    &&& !text::is_space(topology::id_of(nodes, l.node_b)[0])
    &&& text::starts(l.device_a, "rdma_"@)
    &&& text::starts(l.device_b, "rdma_"@)
    &&& !l.device_a.contains('"')
    &&& !l.device_a.contains('\n')
    &&& !l.device_a.contains('/')
    &&& !l.device_b.contains('"')
    &&& !l.device_b.contains('\n')
}

/// What one more line adds to a graph.
proof fn one_more_step(s: Seq<char>, l: Seq<char>)
    requires
        s.len() == 0 || s.last() == '\n',
        !l.contains('\n'),
        l.len() > 0,
        l.last() != '\r',
    ensures
        topology::graph_of(text::lines_of(s + l + seq!['\n'])) == topology::graph_step(
            topology::graph_of(text::lines_of(s)),
            l,
        ),
{
    one_more_line(s, l);
    let lines = text::lines_of(s);
    assert(lines.push(l).drop_last() =~= lines);
}

/// The last node of a name has its identifier.
proof fn id_is_of_a_node(nodes: Seq<Seq<char>>, name: Seq<char>) -> (j: int)
    requires
        nodes.contains(name),
    ensures
        0 <= j < nodes.len(),
        nodes[j] == name,
        topology::id_of(nodes, name) == topology::node_id(j),
    decreases nodes.len(),
{
    if nodes.last() == name {
        nodes.len() - 1
    } else {
        let i = choose|i: int| 0 <= i < nodes.len() && nodes[i] == name;
        assert(nodes.drop_last()[i] == name);
        let j = id_is_of_a_node(nodes.drop_last(), name);
        j
    }
}

/// What the line of a node is without its margin and its end.
spec fn node_text(id: Seq<char>, name: Seq<char>) -> Seq<char> {
    id + " [label=\""@ + name + "\"];"@
}

/// The line of a node declares the node and no link.
proof fn node_is_read(c: char, name: Seq<char>)
    requires
        97 <= c as u32,
        !text::is_space(c),
        nameable(name),
    ensures
        text::trimmed("  "@ + node_text(seq![c], name)) == node_text(seq![c], name),
        topology::is_node_line(node_text(seq![c], name)),
        !text::has(node_text(seq![c], name), "--"@),
        topology::node_of(node_text(seq![c], name)) == Some((seq![c], name)),
{
    reveal_strlit("  ");
    reveal_strlit(" [label=\"");
    reveal_strlit("\"];");
    reveal_strlit("[label=");
    reveal_strlit("label=");
    reveal_strlit("--");
    reveal_strlit("shape=");
    let x = node_text(seq![c], name);
    let pre = seq![c] + " [label=\""@;
    let post = "\"];"@;
    trimmed_behind("  "@, x);
    assert(x.subrange(2, 9) =~= "[label="@);
    assert(text::occurs_at(x, "[label="@, 2));
    assert forall|i: int| !text::occurs_at(pre, "--"@, i) by {
        if text::occurs_at(pre, "--"@, i) {
            assert(pre.subrange(i, i + 2)[0] == pre[i]);
        }
    }
    assert forall|i: int| !text::occurs_at(post, "--"@, i) by {
        if text::occurs_at(post, "--"@, i) {
            assert(post.subrange(i, i + 2)[0] == post[i]);
        }
    }
    assert forall|i: int| !text::occurs_at(pre, "shape="@, i) by {
        if text::occurs_at(pre, "shape="@, i) {
            assert(pre.subrange(i, i + 6)[0] == pre[i]);
            assert(pre.subrange(i, i + 6)[1] == pre[i + 1]);
        }
    }
    assert(!text::has(post, "shape="@));
    stays_out(pre, name, post, "--"@);
    stays_out(pre, name, post, "shape="@);
    let rest = "[label=\""@ + name + post;
    reveal_strlit("[label=\"");
    assert(!seq![c].contains(' '));
    cut_around(seq![c], ' ', rest);
    assert(x =~= seq![c] + seq![' '] + rest);
    assert(rest.subrange(1, 7) =~= "label="@);
    assert(text::occurs_at(rest, "label="@, 1));
    assert(!text::occurs_at(rest, "label="@, 0)) by {
        assert(rest.subrange(0, 6)[0] == rest[0]);
    }
    text::find_from_is_first(rest, "label="@, 0);
    assert(text::find_from(rest, "label="@, 0) == 1);
    let tail = seq![']', ';'];
    assert(!Seq::<char>::empty().contains('"'));
    cut_around(Seq::empty(), '"', name + seq!['"'] + tail);
    assert(rest.skip(7) =~= Seq::<char>::empty() + seq!['"'] + (name + seq!['"'] + tail));
    cut_around(name, '"', tail);
}

/// The line of a node whose identifier is white space declares no link, and
/// no node under an identifier of one letter.
proof fn blank_is_no_letter(c: char, name: Seq<char>)
    requires
        text::is_space(c),
        nameable(name),
    ensures
        !text::has(text::trimmed("  "@ + node_text(seq![c], name)), "--"@),
        topology::node_of(text::trimmed("  "@ + node_text(seq![c], name))) matches Some(d)
            ==> d.0.len() > 0 && d.0[0] == '[',
{
    reveal_strlit("  ");
    reveal_strlit(" [label=\"");
    reveal_strlit("[label=\"");
    reveal_strlit("\"];");
    reveal_strlit("--");
    let pre = "[label=\""@;
    let post = "\"];"@;
    let x = pre + name + post;
    let gap = "  "@ + seq![c] + seq![' '];
    trimmed_behind(gap, x);
    assert("  "@ + node_text(seq![c], name) =~= gap + x);
    assert forall|i: int| !text::occurs_at(pre, "--"@, i) by {
        if text::occurs_at(pre, "--"@, i) {
            assert(pre.subrange(i, i + 2)[0] == pre[i]);
        }
    }
    assert forall|i: int| !text::occurs_at(post, "--"@, i) by {
        if text::occurs_at(post, "--"@, i) {
            assert(post.subrange(i, i + 2)[0] == post[i]);
        }
    }
    stays_out(pre, name, post, "--"@);
    text::find_char_is_first(x, ' ');
    assert(x[0] == '[');
}

/// The text before the first node is no node and no link.
proof fn head_is_empty() -> (head: Seq<char>)
    ensures
        head == "graph G {\n  node [shape=rectangle];\n"@,
        head.len() > 0,
        head.last() == '\n',
        topology::graph_of(text::lines_of(head)) == (topology::GraphView {
            names: Seq::empty(),
            links: Seq::empty(),
        }),
{
    reveal_strlit("graph G {\n  node [shape=rectangle];\n");
    reveal_strlit("graph G {");
    reveal_strlit("  node [shape=rectangle];");
    reveal_strlit("  ");
    reveal_strlit("node [shape=rectangle];");
    reveal_strlit("[label=");
    reveal_strlit("--");
    let head = "graph G {\n  node [shape=rectangle];\n"@;
    let one = "graph G {"@;
    let two = "node [shape=rectangle];"@;
    let first = Seq::<char>::empty() + one + seq!['\n'];
    one_more_step(Seq::empty(), one);
    one_more_step(first, "  "@ + two);
    assert(head =~= first + ("  "@ + two) + seq!['\n']);
    trimmed_behind(Seq::empty(), one);
    assert(Seq::<char>::empty() + one =~= one);
    trimmed_behind("  "@, two);
    declares_nothing(one);
    declares_nothing(two);
    head
}

/// A line without a `b` and without a dash declares nothing.
proof fn declares_nothing(x: Seq<char>)
    requires
        !x.contains('-'),
        !x.contains('b'),
    ensures
        !text::has(x, "--"@),
        !text::has(x, "[label="@),
{
    reveal_strlit("--");
    reveal_strlit("[label=");
    assert forall|i: int| !text::occurs_at(x, "--"@, i) by {
        if text::occurs_at(x, "--"@, i) {
            assert(x.subrange(i, i + 2)[0] == x[i]);
        }
    }
    assert forall|i: int| !text::occurs_at(x, "[label="@, i) by {
        if text::occurs_at(x, "[label="@, i) {
            assert(x.subrange(i, i + 7)[3] == x[i + 3]);
        }
    }
}

/// The first `k` nodes have been read.
spec fn nodes_read(g: topology::GraphView, nodes: Seq<Seq<char>>, k: int) -> bool {
    &&& table::ordered(g.names)
    &&& g.links == Seq::<LinkView>::empty()
    &&& forall|j: int|
        0 <= j < k && !text::is_space(topology::node_id(j)[0]) ==> table::lookup(
            g.names,
            #[trigger] topology::node_id(j),
        ) == Some(nodes[j])
}

/// The lines of the nodes are read back.
proof fn nodes_come_back(head: Seq<char>, nodes: Seq<Seq<char>>, k: nat)
    requires
        k <= nodes.len() <= MAX_DOT_NODES,
        forall|i: int| 0 <= i < nodes.len() ==> nameable(#[trigger] nodes[i]),
        head.len() > 0,
        head.last() == '\n',
        nodes_read(topology::graph_of(text::lines_of(head)), nodes, 0),
    ensures
        topology::node_lines(head, nodes, k).len() > 0,
        topology::node_lines(head, nodes, k).last() == '\n',
        nodes_read(
            topology::graph_of(text::lines_of(topology::node_lines(head, nodes, k))),
            nodes,
            k as int,
        ),
    decreases k,
{
    if k > 0 {
        nodes_come_back(head, nodes, (k - 1) as nat);
        let s = topology::node_lines(head, nodes, (k - 1) as nat);
        let c = topology::node_id(k - 1)[0];
        let name = nodes[k - 1];
        let l = "  "@ + node_text(seq![c], name);
        reveal_strlit("  ");
        reveal_strlit(" [label=\"");
        reveal_strlit("\"];");
        reveal_strlit("\"];\n");
        assert(topology::node_lines(head, nodes, k) =~= s + l + seq!['\n']);
        assert(!l.contains('\n')) by {
            assert forall|i: int| 0 <= i < l.len() implies l[i] != '\n' by {
                if 12 <= i < 12 + name.len() {
                    assert(l[i] == name[i - 12]);
                }
            }
        }
        one_more_step(s, l);
        let g = topology::graph_of(text::lines_of(s));
        let line = text::trimmed(l);
        if text::is_space(c) {
            blank_is_no_letter(c, name);
        } else {
            node_is_read(c, name);
        }
        match topology::node_of(line) {
            Some(d) => {
                table::with_entry_sets(g.names, d.0, d.1);
            },
            None => {},
        }
        let next = topology::graph_step(g, l);
        assert forall|j: int| 0 <= j < k && !text::is_space(topology::node_id(j)[0]) implies
            table::lookup(next.names, #[trigger] topology::node_id(j)) == Some(nodes[j]) by {
            if j < k - 1 {
                assert(topology::node_id(j)[0] != topology::node_id(k - 1)[0]);
            }
        }
    }
}

/// What the line of a link is without its margin and its end.
spec fn link_text(a: Seq<char>, b: Seq<char>, x: Seq<char>, y: Seq<char>) -> Seq<char> {
    a + " -- "@ + b + " [label=\""@ + x + "/"@ + y + "\"]"@
}

/// The label of a link gives the devices.
proof fn devices_are_read(a: char, b: char, x: Seq<char>, y: Seq<char>)
    requires
        97 <= a as u32,
        97 <= b as u32,
        !x.contains('"'),
        !x.contains('/'),
        !y.contains('"'),
    ensures
        topology::devices_of(link_text(seq![a], seq![b], x, y)) == ("rdma_"@ + x, "rdma_"@ + y),
{
    reveal_strlit(" -- ");
    reveal_strlit(" [label=\"");
    reveal_strlit("/");
    reveal_strlit("\"]");
    reveal_strlit("label=");
    let t = link_text(seq![a], seq![b], x, y);
    assert(t.subrange(8, 14) =~= "label="@);
    assert(text::occurs_at(t, "label="@, 8));
    assert forall|i: int| 0 <= i < 8 implies !text::occurs_at(t, "label="@, i) by {
        if text::occurs_at(t, "label="@, i) {
            assert(t.subrange(i, i + 6)[0] == t[i]);
            assert(t.subrange(i, i + 6)[1] == t[i + 1]);
        }
    }
    text::find_from_is_first(t, "label="@, 0);
    assert(text::find_from(t, "label="@, 0) == 8);
    let label = x + seq!['/'] + y;
    let tail = seq![']'];
    assert(!Seq::<char>::empty().contains('"'));
    cut_around(Seq::empty(), '"', label + seq!['"'] + tail);
    assert(t.skip(14) =~= Seq::<char>::empty() + seq!['"'] + (label + seq!['"'] + tail));
    assert(!label.contains('"')) by {
        assert forall|i: int| 0 <= i < label.len() implies label[i] != '"' by {
            if i < x.len() {
                assert(label[i] == x[i]);
            } else if i > x.len() {
                assert(label[i] == y[i - x.len() - 1]);
            }
        }
    }
    cut_around(label, '"', tail);
    cut_around(x, '/', y);
}

/// The line of a link declares the link and no node.
proof fn link_is_read(
    names: Seq<(Seq<char>, Seq<char>)>,
    a: char,
    b: char,
    x: Seq<char>,
    y: Seq<char>,
)
    requires
        97 <= a as u32,
        97 <= b as u32,
        !text::is_space(a),
        !text::is_space(b),
        !x.contains('"'),
        !x.contains('/'),
        !y.contains('"'),
    ensures
        text::trimmed("  "@ + link_text(seq![a], seq![b], x, y)) == link_text(
            seq![a],
            seq![b],
            x,
            y,
        ),
        text::has(link_text(seq![a], seq![b], x, y), "--"@),
        topology::edge_of(names, link_text(seq![a], seq![b], x, y)) == Some(
            (LinkView {
                node_a: topology::name_of(names, seq![a]),
                device_a: "rdma_"@ + x,
                node_b: topology::name_of(names, seq![b]),
                device_b: "rdma_"@ + y,
            }),
        ),
{
    reveal_strlit("  ");
    reveal_strlit(" -- ");
    reveal_strlit("--");
    reveal_strlit(" [label=\"");
    reveal_strlit("/");
    reveal_strlit("\"]");
    let t = link_text(seq![a], seq![b], x, y);
    trimmed_behind("  "@, t);
    assert(t.subrange(2, 4) =~= "--"@);
    assert(text::occurs_at(t, "--"@, 2));
    devices_are_read(a, b, x, y);
    let rest = " [label=\""@ + x + "/"@ + y + "\"]"@;
    let gap = seq![' '];
    let after = gap + seq![b] + rest;
    let dashes = gap + "--"@ + after;
    next_word(Seq::empty(), seq![a], dashes);
    next_word(gap, "--"@, after);
    next_word(gap, seq![b], rest);
    assert(t =~= Seq::<char>::empty() + seq![a] + dashes);
    let words = text::words_of(t);
    assert(words == seq![seq![a]] + (seq!["--"@] + (seq![seq![b]] + text::words_of(rest))));
    assert(words[0] == seq![a]);
    assert(words[1] == "--"@);
    assert(words[2] == seq![b]);
    assert(text::trim_end_char(seq![b], ';') == seq![b]);
}

/// The lines of the links are read back behind those of the nodes.
proof fn links_come_back(s: Seq<char>, nodes: Seq<Seq<char>>, links: Seq<LinkView>, k: nat)
    requires
        k <= links.len(),
        nodes.len() <= MAX_DOT_NODES,
        forall|i: int| 0 <= i < links.len() ==> drawable(nodes, #[trigger] links[i]),
        s.len() > 0,
        s.last() == '\n',
        nodes_read(topology::graph_of(text::lines_of(s)), nodes, nodes.len() as int),
    ensures
        topology::link_lines(s, nodes, links, k).len() > 0,
        topology::link_lines(s, nodes, links, k).last() == '\n',
        topology::graph_of(text::lines_of(topology::link_lines(s, nodes, links, k))) == (
        topology::GraphView {
            names: topology::graph_of(text::lines_of(s)).names,
            links: links.take(k as int),
        }),
    decreases k,
{
    let names = topology::graph_of(text::lines_of(s)).names;
    if k == 0 {
        assert(links.take(0) =~= Seq::<LinkView>::empty());
    } else {
        links_come_back(s, nodes, links, (k - 1) as nat);
        let before = topology::link_lines(s, nodes, links, (k - 1) as nat);
        let l = links[k - 1];
        let i = id_is_of_a_node(nodes, l.node_a);
        let j = id_is_of_a_node(nodes, l.node_b);
        let a = topology::node_id(i)[0];
        let b = topology::node_id(j)[0];
        let x = l.device_a.skip(5);
        let y = l.device_b.skip(5);
        let raw = "  "@ + link_text(seq![a], seq![b], x, y);
        reveal_strlit("rdma_");
        reveal_strlit("  ");
        reveal_strlit(" -- ");
        reveal_strlit(" [label=\"");
        reveal_strlit("/");
        reveal_strlit("\"]");
        reveal_strlit("\"]\n");
        assert(topology::node_id(i) =~= seq![a]);
        assert(topology::node_id(j) =~= seq![b]);
        assert(topology::link_lines(s, nodes, links, k) =~= before + raw + seq!['\n']);
        assert("rdma_"@ + x =~= l.device_a);
        assert("rdma_"@ + y =~= l.device_b);
        assert forall|m: int| 0 <= m < x.len() implies #[trigger] x[m] != '"' && x[m] != '\n'
            && x[m] != '/' by {
            assert(l.device_a[m + 5] == x[m]);
        }
        assert forall|m: int| 0 <= m < y.len() implies #[trigger] y[m] != '"' && y[m]
            != '\n' by {
            assert(l.device_b[m + 5] == y[m]);
        }
        assert(!raw.contains('\n')) by {
            let n = x.len();
            assert forall|m: int| 0 <= m < raw.len() implies raw[m] != '\n' by {
                if 17 <= m < 17 + n {
                    assert(raw[m] == x[m - 17]);
                } else if 18 + n <= m < 18 + n + y.len() {
                    assert(raw[m] == y[m - 18 - n]);
                }
            }
        }
        one_more_step(before, raw);
        link_is_read(names, a, b, x, y);
        assert(links.take(k as int) =~= links.take(k - 1).push(l));
    }
}

/// The graph that is written of nodes and links is read back with the same
/// links, in their order.
pub proof fn graph_reads_back(nodes: Seq<Seq<char>>, links: Seq<LinkView>)
    requires
        nodes.len() <= MAX_DOT_NODES,
        forall|i: int| 0 <= i < nodes.len() ==> nameable(#[trigger] nodes[i]),
        forall|i: int| 0 <= i < links.len() ==> drawable(nodes, #[trigger] links[i]),
    ensures
        topology::graph_of(text::lines_of(topology::dot_of(nodes, links))).links == links,
{
    let head = head_is_empty();
    nodes_come_back(head, nodes, nodes.len());
    let s = topology::node_lines(head, nodes, nodes.len());
    links_come_back(s, nodes, links, links.len());
    let t = topology::link_lines(s, nodes, links, links.len());
    reveal_strlit("}\n");
    let close = seq!['}'];
    assert(topology::dot_of(nodes, links) =~= t + close + seq!['\n']);
    one_more_step(t, close);
    trimmed_behind(Seq::empty(), close);
    assert(Seq::<char>::empty() + close =~= close);
    declares_nothing(close);
    assert(links.take(links.len() as int) =~= links);
}

} // verus!
