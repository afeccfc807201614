//! The Thunderbolt mesh of the cluster: reading the graph that
//! `mlx.distributed_config --dot` prints, finding the links from address
//! tables, and telling which nodes are fully connected.

use crate::table;
use crate::table::TextMap;
use crate::text;
use vstd::prelude::*;
use vstd::string::*;

verus! {

// ---------------------------------------------------------------------------
// The program that looks at the cables
// ---------------------------------------------------------------------------

/// The places of `mlx.distributed_config`.
pub open spec fn config_places() -> Seq<Seq<char>> {
    seq!["/opt/homebrew/bin/mlx.distributed_config"@, "/usr/local/bin/mlx.distributed_config"@]
}

/// The places of `mlx.distributed_config`.
pub fn config_candidates() -> (r: Vec<String>)
    ensures
        r.deep_view() == config_places(),
{
    let mut out: Vec<String> = Vec::new();
    text::push_str(&mut out, "/opt/homebrew/bin/mlx.distributed_config");
    text::push_str(&mut out, "/usr/local/bin/mlx.distributed_config");
    assert(out.deep_view() =~= config_places());
    out
}

/// The program that looks at the cables: the one that was found in its places,
/// else the one that the search path gives, else what is said.
pub fn choose_config(found: Option<String>, from_path: &Option<String>) -> (r: Result<
    String,
    String,
>)
    ensures
        match (found.deep_view(), from_path.deep_view()) {
            (Some(p), _) => r matches Ok(s) && s@ == p,
            (None, Some(p)) if text::trimmed(p).len() > 0 => r matches Ok(s) && s@
                == text::trimmed(p),
            _ => r matches Err(e) && e@
                == "mlx.distributed_config not found. Install with: pip install mlx"@,
        },
{
    if let Some(p) = found {
        return Ok(p);
    }
    if let Some(p) = from_path {
        let t: String = text::trim(p);
        if !t.as_str().is_empty() {
            return Ok(t);
        }
    }
    Err(text::own("mlx.distributed_config not found. Install with: pip install mlx"))
}

/// What `mlx.distributed_config` is run for.
#[derive(Debug)]
pub enum ConfigTask {
    /// To print the graph of the cables, for a backend if one is named.
    Graph(Option<String>),
    /// To write a hostfile for the hosts that can be reached.
    Hostfile { path: String },
    /// To set up the addresses of the cables and write a hostfile.
    Setup { backend: String, path: String },
}

/// The arguments of `mlx.distributed_config` that every task has.
pub open spec fn config_base(hosts: Seq<Seq<char>>) -> Seq<Seq<char>> {
    seq!["--hosts"@, text::joined(hosts, ","@), "--over"@, "thunderbolt"@]
}

/// The arguments of `mlx.distributed_config` for a task.
pub open spec fn config_args(hosts: Seq<Seq<char>>, task: ConfigTask) -> Seq<Seq<char>> {
    let base = config_base(hosts);
    match task {
        ConfigTask::Graph(backend) => match backend {
            Some(b) => base.push("--backend"@).push(b@).push("--dot"@),
            None => base.push("--dot"@),
        },
        ConfigTask::Hostfile { path } => base.push("--backend"@).push("jaccl"@).push(
            "--output-hostfile"@,
        ).push(path@).push("--ignore-unreachable"@),
        ConfigTask::Setup { backend, path } => (seq!["--verbose"@] + base).push(
            "--backend"@,
        ).push(backend@).push("--auto-setup"@).push("--output-hostfile"@).push(path@),
    }
}

/// The arguments of `mlx.distributed_config` for a task.
pub fn build_config_args(hosts: &Vec<String>, task: &ConfigTask) -> (r: Vec<String>)
    ensures
        r.deep_view() == config_args(hosts.deep_view(), *task),
{
    let mut args: Vec<String> = Vec::new();
    assert(args.deep_view() =~= Seq::<Seq<char>>::empty());
    let ghost head = Seq::<Seq<char>>::empty();
    if let ConfigTask::Setup { .. } = task {
        text::push_str(&mut args, "--verbose");
        proof {
            head = seq!["--verbose"@];
        }
        assert(args.deep_view() =~= head);
    }
    text::push_str(&mut args, "--hosts");
    text::push_text(&mut args, text::join(hosts, ","));
    text::push_str(&mut args, "--over");
    text::push_str(&mut args, "thunderbolt");
    assert(args.deep_view() =~= head + config_base(hosts.deep_view()));
    match task {
        ConfigTask::Graph(backend) => {
            assert(args.deep_view() =~= config_base(hosts.deep_view()));
            if let Some(b) = backend {
                text::push_str(&mut args, "--backend");
                text::push_str(&mut args, b);
            }
            text::push_str(&mut args, "--dot");
        },
        ConfigTask::Hostfile { path } => {
            assert(args.deep_view() =~= config_base(hosts.deep_view()));
            text::push_str(&mut args, "--backend");
            text::push_str(&mut args, "jaccl");
            text::push_str(&mut args, "--output-hostfile");
            text::push_str(&mut args, path);
            text::push_str(&mut args, "--ignore-unreachable");
        },
        ConfigTask::Setup { backend, path } => {
            text::push_str(&mut args, "--backend");
            text::push_str(&mut args, backend);
            text::push_str(&mut args, "--auto-setup");
            text::push_str(&mut args, "--output-hostfile");
            text::push_str(&mut args, path);
        },
    }
    args
}

/// Why `mlx.distributed_config` came to nothing.
#[derive(Debug)]
pub enum ConfigError {
    BinaryNotFound,
    NonZeroExit(i32, String),
    JsonParse(String),
    Io(String),
}

impl ConfigError {
    /// What is said of it.
    pub open spec fn words(&self) -> Seq<char> {
        match self {
            ConfigError::BinaryNotFound => "mlx.distributed_config binary not found in PATH"@,
            ConfigError::NonZeroExit(code, stderr) => "mlx.distributed_config exited with status "@
                + text::signed_dec(*code as int) + ": "@ + stderr@,
            ConfigError::JsonParse(e) => "invalid JSON output: "@ + e@,
            ConfigError::Io(e) => "io error: "@ + e@,
        }
    }

    /// What is said of it.
    pub fn to_text(&self) -> (r: String)
        ensures
            r@ == self.words(),
    {
        match self {
            ConfigError::BinaryNotFound => text::own(
                "mlx.distributed_config binary not found in PATH",
            ),
            ConfigError::NonZeroExit(code, stderr) => {
                let mut s: String = text::glue(
                    "mlx.distributed_config exited with status ",
                    &text::signed_decimal(*code),
                );
                s.append(": ");
                s.append(stderr);
                s
            },
            ConfigError::JsonParse(e) => text::glue("invalid JSON output: ", e),
            ConfigError::Io(e) => text::glue("io error: ", e),
        }
    }
}

/// How a run of `mlx.distributed_config` ended.
#[derive(Debug)]
pub enum ConfigRun {
    /// There is no such program.
    Missing,
    /// It could not be run, for the reason that is given.
    Failed(String),
    /// It ended: whether it succeeded, its code if it has one, and what it
    /// printed as output and as errors.
    Ended { ok: bool, code: Option<i32>, stdout: String, stderr: String },
}

/// What a run of `mlx.distributed_config` printed, where it succeeded. One
/// that ended without a code counts as ended with the code -1.
pub fn judge_config(run: ConfigRun) -> (r: Result<String, ConfigError>)
    ensures
        match run {
            ConfigRun::Missing => r == Err::<String, ConfigError>(ConfigError::BinaryNotFound),
            ConfigRun::Failed(e) => r == Err::<String, ConfigError>(ConfigError::Io(e)),
            ConfigRun::Ended { ok, code, stdout, stderr } => if ok {
                r == Ok::<String, ConfigError>(stdout)
            } else {
                r == Err::<String, ConfigError>(
                    ConfigError::NonZeroExit(
                        match code {
                            Some(c) => c,
                            None => (-1) as i32,
                        },
                        stderr,
                    ),
                )
            },
        },
{
    match run {
        ConfigRun::Missing => Err(ConfigError::BinaryNotFound),
        ConfigRun::Failed(e) => Err(ConfigError::Io(e)),
        ConfigRun::Ended { ok, code, stdout, stderr } => if ok {
            Ok(stdout)
        } else {
            let c: i32 = match code {
                Some(c) => c,
                None => -1,
            };
            Err(ConfigError::NonZeroExit(c, stderr))
        },
    }
}

/// Whether a report can be made on so many hosts: there is one, and the links
/// of a full mesh can be counted.
pub fn can_report(hosts: usize) -> (r: bool)
    ensures
        r == (hosts > 0 && hosts * (hosts - 1) <= usize::MAX),
{
    hosts > 0 && hosts.checked_mul(hosts - 1).is_some()
}

// ---------------------------------------------------------------------------
// Links and reports
// ---------------------------------------------------------------------------

/// A single Thunderbolt link between two nodes.
#[derive(Debug, Clone)]
pub struct TopologyLink {
    pub node_a: String,
    pub device_a: String,
    pub node_b: String,
    pub device_b: String,
}

/// The texts of a link.
pub struct LinkView {
    pub node_a: Seq<char>,
    pub device_a: Seq<char>,
    pub node_b: Seq<char>,
    pub device_b: Seq<char>,
}

impl DeepView for TopologyLink {
    type V = LinkView;

    open spec fn deep_view(&self) -> LinkView {
        LinkView {
            node_a: self.node_a@,
            device_a: self.device_a@,
            node_b: self.node_b@,
            device_b: self.device_b@,
        }
    }
}

/// The topology of the cluster.
#[derive(Debug, Clone)]
pub struct TopologyReport {
    pub nodes: Vec<String>,
    pub links: Vec<TopologyLink>,
    pub mesh_complete: bool,
    pub missing_links: Vec<(String, String)>,
    pub jaccl_ready: bool,
    /// Fully meshed subsets of three or more nodes.
    pub jaccl_ready_subsets: Vec<Vec<String>>,
    pub raw_dot: String,
}

/// A link joins the two nodes, from whichever end.
pub open spec fn joins(l: LinkView, x: Seq<char>, y: Seq<char>) -> bool {
    (l.node_a == x && l.node_b == y) || (l.node_b == x && l.node_a == y)
}

/// Some link joins the nodes `x` and `y`.
pub open spec fn connected(links: Seq<LinkView>, x: Seq<char>, y: Seq<char>) -> bool {
    exists|i: int| 0 <= i < links.len() && joins(#[trigger] links[i], x, y)
}

/// Every two of the nodes are connected.
pub open spec fn full_mesh(nodes: Seq<Seq<char>>, links: Seq<LinkView>) -> bool {
    forall|i: int, j: int|
        0 <= i < j < nodes.len() ==> connected(links, #[trigger] nodes[i], #[trigger] nodes[j])
}

/// The partners of node `i`, from position `j` on, to which no link leads.
pub open spec fn missing_row(
    nodes: Seq<Seq<char>>,
    links: Seq<LinkView>,
    i: int,
    j: int,
) -> Seq<(Seq<char>, Seq<char>)>
    decreases nodes.len() - j,
{
    if j >= nodes.len() {
        Seq::empty()
    } else if connected(links, nodes[i], nodes[j]) {
        missing_row(nodes, links, i, j + 1)
    } else {
        seq![(nodes[i], nodes[j])] + missing_row(nodes, links, i, j + 1)
    }
}

/// The pairs of nodes, row by row from position `i` on, that no link joins.
pub open spec fn missing_pairs(
    nodes: Seq<Seq<char>>,
    links: Seq<LinkView>,
    i: int,
) -> Seq<(Seq<char>, Seq<char>)>
    decreases nodes.len() - i,
{
    if i >= nodes.len() {
        Seq::empty()
    } else {
        missing_row(nodes, links, i, i + 1) + missing_pairs(nodes, links, i + 1)
    }
}

/// The number of links in a full mesh of `n` nodes.
pub open spec fn mesh_size(n: int) -> int {
    n * (n - 1) / 2
}

/// Whether a link joins the nodes `x` and `y`.
fn has_link(links: &Vec<TopologyLink>, x: &str, y: &str) -> (r: bool)
    ensures
        r == connected(links.deep_view(), x@, y@),
{
    let mut i: usize = 0;
    while i < links.len()
        invariant
            i <= links@.len(),
            forall|k: int| 0 <= k < i ==> !joins(#[trigger] links.deep_view()[k], x@, y@),
        decreases links@.len() - i,
    {
        let l: &TopologyLink = &links[i];
        assert(links.deep_view()[i as int] == l.deep_view());
        if (text::same(&l.node_a, x) && text::same(&l.node_b, y)) || (text::same(&l.node_b, x)
            && text::same(&l.node_a, y)) {
            assert(joins(links.deep_view()[i as int], x@, y@));
            return true;
        }
        i = i + 1;
    }
    false
}

/// The pairs of nodes that no link joins.
fn missing(nodes: &Vec<String>, links: &Vec<TopologyLink>) -> (r: Vec<(String, String)>)
    ensures
        r.deep_view() == missing_pairs(nodes.deep_view(), links.deep_view(), 0),
{
    let ghost ns = nodes.deep_view();
    let ghost ls = links.deep_view();
    let mut out: Vec<(String, String)> = Vec::new();
    let mut i: usize = 0;
    assert(out.deep_view() + missing_pairs(ns, ls, 0) =~= missing_pairs(ns, ls, 0));
    while i < nodes.len()
        invariant
            i <= nodes@.len(),
            ns == nodes.deep_view(),
            ls == links.deep_view(),
            out.deep_view() + missing_pairs(ns, ls, i as int) == missing_pairs(ns, ls, 0),
        decreases nodes@.len() - i,
    {
        let ghost before = out.deep_view();
        let mut j: usize = i + 1;
        assert(out.deep_view() + missing_row(ns, ls, i as int, j as int) =~= before + missing_row(
            ns,
            ls,
            i as int,
            i + 1,
        ));
        while j < nodes.len()
            invariant
                i < nodes@.len(),
                i < j <= nodes@.len(),
                ns == nodes.deep_view(),
                ls == links.deep_view(),
                out.deep_view() + missing_row(ns, ls, i as int, j as int) == before + missing_row(
                    ns,
                    ls,
                    i as int,
                    i + 1,
                ),
            decreases nodes@.len() - j,
        {
            let ghost part = out.deep_view();
            if !has_link(links, &nodes[i], &nodes[j]) {
                text::push_item(&mut out, (text::own(&nodes[i]), text::own(&nodes[j])));
                assert(out.deep_view() + missing_row(ns, ls, i as int, j + 1) =~= part
                    + missing_row(ns, ls, i as int, j as int));
            }
            j = j + 1;
        }
        assert(out.deep_view() =~= before + missing_row(ns, ls, i as int, i + 1));
        assert(out.deep_view() + missing_pairs(ns, ls, i + 1) =~= before + missing_pairs(
            ns,
            ls,
            i as int,
        ));
        i = i + 1;
    }
    assert(out.deep_view() + Seq::<(Seq<char>, Seq<char>)>::empty() =~= out.deep_view());
    out
}

/// Whether every two of the nodes are connected.
pub fn is_full_mesh(subset: &Vec<String>, links: &Vec<TopologyLink>) -> (r: bool)
    ensures
        r == full_mesh(subset.deep_view(), links.deep_view()),
{
    let ghost ns = subset.deep_view();
    let mut i: usize = 0;
    while i < subset.len()
        invariant
            i <= subset@.len(),
            ns == subset.deep_view(),
            forall|p: int, q: int|
                0 <= p < i && p < q < ns.len() ==> connected(
                    links.deep_view(),
                    #[trigger] ns[p],
                    #[trigger] ns[q],
                ),
        decreases subset@.len() - i,
    {
        let mut j: usize = i + 1;
        while j < subset.len()
            invariant
                i < j <= subset@.len(),
                ns == subset.deep_view(),
                forall|q: int|
                    i < q < j ==> connected(
                        links.deep_view(),
                        ns[i as int],
                        #[trigger] ns[q],
                    ),
            decreases subset@.len() - j,
        {
            if !has_link(links, &subset[i], &subset[j]) {
                assert(!connected(links.deep_view(), ns[i as int], ns[j as int]));
                return false;
            }
            j = j + 1;
        }
        i = i + 1;
    }
    true
}

// ---------------------------------------------------------------------------
// Fully meshed subsets
// ---------------------------------------------------------------------------

/// Each sequence of `tail` with `x` before it.
pub open spec fn each_after(x: int, tail: Seq<Seq<int>>) -> Seq<Seq<int>> {
    tail.map_values(|t: Seq<int>| seq![x] + t)
}

/// The increasing sequences of `k` numbers from `start` up to `n`, in
/// lexicographic order.
pub open spec fn choices(start: int, n: int, k: nat) -> Seq<Seq<int>>
    decreases n - start, k,
{
    if k == 0 {
        seq![Seq::empty()]
    } else if start >= n {
        Seq::empty()
    } else {
        each_after(start, choices(start + 1, n, (k - 1) as nat)) + choices(start + 1, n, k)
    }
}

/// `c` holds `k` numbers that grow from one to the next, none below `start`
/// and all below `n`.
pub open spec fn increasing(c: Seq<int>, start: int, n: int, k: nat) -> bool {
    &&& c.len() == k
    &&& forall|i: int| 0 <= i < c.len() ==> start <= #[trigger] c[i] < n
    &&& forall|i: int, j: int| 0 <= i < j < c.len() ==> #[trigger] c[i] < #[trigger] c[j]
}

/// `choices` lists exactly the increasing sequences.
pub proof fn choices_are_increasing(start: int, n: int, k: nat, c: Seq<int>)
    ensures
        choices(start, n, k).contains(c) <==> increasing(c, start, n, k),
    decreases n - start, k,
{
    let all = choices(start, n, k);
    if k == 0 {
        assert(all[0] =~= Seq::<int>::empty());
        if increasing(c, start, n, k) {
            assert(c =~= all[0]);
        }
    } else if start >= n {
        if increasing(c, start, n, k) {
            assert(start <= c[0] < n);
        }
    } else {
        let sub = choices(start + 1, n, (k - 1) as nat);
        let first = each_after(start, sub);
        let later = choices(start + 1, n, k);
        choices_are_increasing(start + 1, n, k, c);
        if c.len() > 0 {
            choices_are_increasing(start + 1, n, (k - 1) as nat, c.drop_first());
        }
        if increasing(c, start, n, k) {
            if c[0] == start {
                let d = c.drop_first();
                assert forall|i: int| 0 <= i < d.len() implies start + 1 <= #[trigger] d[i]
                    < n by {
                    assert(c[0] < c[i + 1]);
                }
                assert(increasing(d, start + 1, n, (k - 1) as nat));
                let m = choose|m: int| 0 <= m < sub.len() && sub[m] == d;
                assert(first[m] =~= c);
                assert(all[m] == c);
            } else {
                assert forall|i: int| 0 <= i < c.len() implies start + 1 <= #[trigger] c[i]
                    < n by {
                    if i > 0 {
                        assert(c[0] < c[i]);
                    }
                }
                let m = choose|m: int| 0 <= m < later.len() && later[m] == c;
                assert(all[first.len() + m] == c);
            }
        }
        if all.contains(c) {
            let m = choose|m: int| 0 <= m < all.len() && all[m] == c;
            if m < first.len() {
                assert(c == seq![start] + sub[m]);
                assert(c.drop_first() =~= sub[m]);
                assert(sub.contains(c.drop_first()));
                let d = c.drop_first();
                assert(increasing(d, start + 1, n, (k - 1) as nat));
                assert forall|i: int| 0 <= i < c.len() implies start <= #[trigger] c[i] < n by {
                    if i > 0 {
                        assert(c[i] == d[i - 1]);
                    }
                }
                assert forall|i: int, j: int| 0 <= i < j < c.len() implies #[trigger] c[i]
                    < #[trigger] c[j] by {
                    assert(c[j] == d[j - 1]);
                    if i > 0 {
                        assert(c[i] == d[i - 1]);
                    }
                }
            } else {
                assert(later[m - first.len()] == c);
                assert(later.contains(c));
            }
        }
    }
}

/// The numbers of an index list.
pub open spec fn numbers(c: Seq<usize>) -> Seq<int> {
    c.map_values(|i: usize| i as int)
}

/// The numbers of every index list.
pub open spec fn all_numbers(cs: Seq<Seq<usize>>) -> Seq<Seq<int>> {
    cs.map_values(|c: Seq<usize>| numbers(c))
}

/// The increasing sequences of `k` numbers from `start` up to `n`, in
/// lexicographic order.
pub fn combinations_from(start: usize, n: usize, k: usize) -> (r: Vec<Vec<usize>>)
    ensures
        all_numbers(r.deep_view()) == choices(start as int, n as int, k as nat),
    decreases n - start, k,
{
    let mut out: Vec<Vec<usize>> = Vec::new();
    if k == 0 {
        let none: Vec<usize> = Vec::new();
        assert(numbers(none.deep_view()) =~= Seq::<int>::empty());
        text::push_item(&mut out, none);
        assert(all_numbers(out.deep_view()) =~= choices(start as int, n as int, 0));
        return out;
    }
    if start >= n {
        assert(all_numbers(out.deep_view()) =~= Seq::<Seq<int>>::empty());
        return out;
    }
    let tails: Vec<Vec<usize>> = combinations_from(start + 1, n, k - 1);
    let later: Vec<Vec<usize>> = combinations_from(start + 1, n, k);
    let ghost first = each_after(start as int, all_numbers(tails.deep_view()));
    let ghost rest = all_numbers(later.deep_view());
    let mut i: usize = 0;
    while i < tails.len()
        invariant
            i <= tails@.len(),
            first == each_after(start as int, all_numbers(tails.deep_view())),
            all_numbers(out.deep_view()) == first.take(i as int),
        decreases tails@.len() - i,
    {
        let mut c: Vec<usize> = Vec::new();
        c.push(start);
        let tail: &Vec<usize> = &tails[i];
        let mut j: usize = 0;
        while j < tail.len()
            invariant
                j <= tail@.len(),
                c@ == seq![start] + tail@.take(j as int),
            decreases tail@.len() - j,
        {
            c.push(tail[j]);
            j = j + 1;
            assert(c@ =~= seq![start] + tail@.take(j as int));
        }
        proof {
            assert(tail@.take(j as int) =~= tail@);
            assert(c.deep_view() =~= c@);
            assert(tail.deep_view() =~= tail@);
            assert(tails.deep_view()[i as int] == tail.deep_view());
            assert(numbers(c.deep_view()) =~= seq![start as int] + numbers(tail@));
            assert(first[i as int] == seq![start as int] + numbers(tail.deep_view()));
        }
        let ghost before = out.deep_view();
        text::push_item(&mut out, c);
        assert(all_numbers(out.deep_view()) =~= all_numbers(before).push(
            numbers(c.deep_view()),
        ));
        i = i + 1;
        assert(all_numbers(out.deep_view()) =~= first.take(i as int));
    }
    assert(first.take(i as int) =~= first);
    let mut i: usize = 0;
    assert(first + rest.take(0) =~= first);
    while i < later.len()
        invariant
            i <= later@.len(),
            rest == all_numbers(later.deep_view()),
            all_numbers(out.deep_view()) == first + rest.take(i as int),
        decreases later@.len() - i,
    {
        let l: &Vec<usize> = &later[i];
        let mut c: Vec<usize> = Vec::new();
        let mut j: usize = 0;
        while j < l.len()
            invariant
                j <= l@.len(),
                c@ == l@.take(j as int),
            decreases l@.len() - j,
        {
            c.push(l[j]);
            j = j + 1;
            assert(c@ =~= l@.take(j as int));
        }
        proof {
            assert(l@.take(j as int) =~= l@);
            assert(c.deep_view() =~= l.deep_view());
            assert(later.deep_view()[i as int] == l.deep_view());
        }
        let ghost before = out.deep_view();
        text::push_item(&mut out, c);
        assert(all_numbers(out.deep_view()) =~= all_numbers(before).push(
            numbers(c.deep_view()),
        ));
        i = i + 1;
        assert(all_numbers(out.deep_view()) =~= first + rest.take(i as int));
    }
    assert(rest.take(i as int) =~= rest);
    out
}

/// The combinations of `k` items from `0..n`, in lexicographic order.
pub fn combinations(n: usize, k: usize) -> (r: Vec<Vec<usize>>)
    ensures
        all_numbers(r.deep_view()) == choices(0, n as int, k as nat),
{
    combinations_from(0, n, k)
}

/// The choices of `size` nodes out of `n`, then those of `size - 1` and so on
/// down to three.
pub open spec fn candidates(n: int, size: nat) -> Seq<Seq<int>>
    decreases size,
{
    if size < 3 {
        Seq::empty()
    } else {
        choices(0, n, size) + candidates(n, (size - 1) as nat)
    }
}

/// The nodes at the positions of a choice.
pub open spec fn picked(nodes: Seq<Seq<char>>, c: Seq<int>) -> Seq<Seq<char>> {
    c.map_values(|i: int| nodes[i])
}

/// Every name in `a` stands in `b`.
pub open spec fn within(a: Seq<Seq<char>>, b: Seq<Seq<char>>) -> bool {
    forall|i: int| 0 <= i < a.len() ==> b.contains(#[trigger] a[i])
}

/// Some subset in `found` holds every name of `s`.
pub open spec fn covered(found: Seq<Seq<Seq<char>>>, s: Seq<Seq<char>>) -> bool {
    exists|i: int| 0 <= i < found.len() && within(s, #[trigger] found[i])
}

/// The choices, read in order, that are fully meshed and not covered by one
/// that was taken before.
pub open spec fn meshed(
    nodes: Seq<Seq<char>>,
    links: Seq<LinkView>,
    cs: Seq<Seq<int>>,
) -> Seq<Seq<Seq<char>>>
    decreases cs.len(),
{
    if cs.len() == 0 {
        Seq::empty()
    } else {
        let found = meshed(nodes, links, cs.drop_last());
        let s = picked(nodes, cs.last());
        if full_mesh(s, links) && !covered(found, s) {
            found.push(s)
        } else {
            found
        }
    }
}

/// The fully meshed subsets of three nodes or more that no larger or earlier
/// one covers.
pub open spec fn ready_subsets(nodes: Seq<Seq<char>>, links: Seq<LinkView>) -> Seq<
    Seq<Seq<char>>,
> {
    meshed(nodes, links, candidates(nodes.len() as int, nodes.len()))
}

/// Whether every name in `a` stands in `b`.
fn all_within(a: &Vec<String>, b: &Vec<String>) -> (r: bool)
    ensures
        r == within(a.deep_view(), b.deep_view()),
{
    let mut i: usize = 0;
    while i < a.len()
        invariant
            i <= a@.len(),
            forall|k: int| 0 <= k < i ==> b.deep_view().contains(#[trigger] a.deep_view()[k]),
        decreases a@.len() - i,
    {
        if !text::listed(b, &a[i]) {
            assert(!b.deep_view().contains(a.deep_view()[i as int]));
            return false;
        }
        i = i + 1;
    }
    true
}

/// Whether a subset in `found` holds every name of `s`.
fn is_covered(found: &Vec<Vec<String>>, s: &Vec<String>) -> (r: bool)
    ensures
        r == covered(found.deep_view(), s.deep_view()),
{
    let mut i: usize = 0;
    while i < found.len()
        invariant
            i <= found@.len(),
            forall|k: int|
                0 <= k < i ==> !within(s.deep_view(), #[trigger] found.deep_view()[k]),
        decreases found@.len() - i,
    {
        if all_within(s, &found[i]) {
            assert(within(s.deep_view(), found.deep_view()[i as int]));
            return true;
        }
        i = i + 1;
    }
    false
}

/// The numbers of a choice lie below `n`.
proof fn candidates_in_range(n: int, size: nat)
    ensures
        forall|m: int, i: int|
            0 <= m < candidates(n, size).len() && 0 <= i < candidates(n, size)[m].len() ==> 0
                <= #[trigger] candidates(n, size)[m][i] < n,
    decreases size,
{
    if size >= 3 {
        candidates_in_range(n, (size - 1) as nat);
        let head = choices(0, n, size);
        let all = candidates(n, size);
        assert forall|m: int, i: int| 0 <= m < all.len() && 0 <= i < all[m].len() implies 0
            <= #[trigger] all[m][i] < n by {
            if m < head.len() {
                choices_are_increasing(0, n, size, head[m]);
                assert(head.contains(head[m]));
                assert(all[m] == head[m]);
            } else {
                assert(all[m] == candidates(n, (size - 1) as nat)[m - head.len()]);
            }
        }
    }
}

/// The choices of `size` down to three nodes out of `n`.
fn candidate_list(n: usize, size: usize) -> (r: Vec<Vec<usize>>)
    ensures
        all_numbers(r.deep_view()) == candidates(n as int, size as nat),
    decreases size,
{
    if size < 3 {
        let none: Vec<Vec<usize>> = Vec::new();
        assert(all_numbers(none.deep_view()) =~= Seq::<Seq<int>>::empty());
        return none;
    }
    let mut head: Vec<Vec<usize>> = combinations(n, size);
    let mut tail: Vec<Vec<usize>> = candidate_list(n, size - 1);
    let ghost h = head.deep_view();
    let ghost t = tail.deep_view();
    head.append(&mut tail);
    assert(head.deep_view() =~= h + t);
    assert(all_numbers(h + t) =~= all_numbers(h) + all_numbers(t));
    head
}

/// The fully meshed subsets of three nodes or more that no larger or earlier
/// one covers.
pub fn find_jaccl_subsets(nodes: &Vec<String>, links: &Vec<TopologyLink>) -> (r: Vec<Vec<String>>)
    ensures
        r.deep_view() == ready_subsets(nodes.deep_view(), links.deep_view()),
{
    let n: usize = nodes.len();
    let cs: Vec<Vec<usize>> = candidate_list(n, n);
    let ghost ns = nodes.deep_view();
    let ghost ls = links.deep_view();
    let ghost all = all_numbers(cs.deep_view());
    proof {
        candidates_in_range(n as int, n as nat);
    }
    let mut found: Vec<Vec<String>> = Vec::new();
    let mut m: usize = 0;
    assert(found.deep_view() =~= meshed(ns, ls, all.take(0)));
    while m < cs.len()
        invariant
            m <= cs@.len(),
            n == nodes@.len(),
            ns == nodes.deep_view(),
            ls == links.deep_view(),
            all == all_numbers(cs.deep_view()),
            all == candidates(n as int, n as nat),
            forall|p: int, i: int|
                0 <= p < candidates(n as int, n as nat).len() && 0 <= i < candidates(
                    n as int,
                    n as nat,
                )[p].len() ==> 0 <= #[trigger] candidates(n as int, n as nat)[p][i] < n,
            found.deep_view() == meshed(ns, ls, all.take(m as int)),
        decreases cs@.len() - m,
    {
        let c: &Vec<usize> = &cs[m];
        proof {
            assert(c.deep_view() =~= c@);
            assert(cs.deep_view()[m as int] == c.deep_view());
            assert(all[m as int] == numbers(c@));
        }
        let ghost want = picked(ns, all[m as int]);
        let mut s: Vec<String> = Vec::new();
        let mut i: usize = 0;
        while i < c.len()
            invariant
                i <= c@.len(),
                m < cs@.len(),
                n == nodes@.len(),
                ns == nodes.deep_view(),
                all == candidates(n as int, n as nat),
                all.len() == cs@.len(),
                all[m as int] == numbers(c@),
                want == picked(ns, all[m as int]),
                forall|p: int, i: int|
                    0 <= p < candidates(n as int, n as nat).len() && 0 <= i < candidates(
                        n as int,
                        n as nat,
                    )[p].len() ==> 0 <= #[trigger] candidates(n as int, n as nat)[p][i] < n,
                s.deep_view() == want.take(i as int),
            decreases c@.len() - i,
        {
            assert(all[m as int][i as int] == c@[i as int] as int);
            assert(candidates(n as int, n as nat)[m as int][i as int] < n);
            text::push_text(&mut s, text::own(&nodes[c[i]]));
            i = i + 1;
            assert(s.deep_view() =~= want.take(i as int));
        }
        assert(want.take(i as int) =~= want);
        assert(all.take(m + 1).drop_last() =~= all.take(m as int));
        if is_full_mesh(&s, links) && !is_covered(&found, &s) {
            text::push_item(&mut found, s);
        }
        m = m + 1;
    }
    assert(all.take(m as int) =~= all);
    found
}

/// Every subset that is found is fully meshed.
pub proof fn subsets_are_meshed(nodes: Seq<Seq<char>>, links: Seq<LinkView>, cs: Seq<Seq<int>>)
    ensures
        forall|i: int|
            0 <= i < meshed(nodes, links, cs).len() ==> full_mesh(
                #[trigger] meshed(nodes, links, cs)[i],
                links,
            ),
    decreases cs.len(),
{
    if cs.len() > 0 {
        subsets_are_meshed(nodes, links, cs.drop_last());
        let found = meshed(nodes, links, cs.drop_last());
        let now = meshed(nodes, links, cs);
        assert forall|i: int| 0 <= i < now.len() implies full_mesh(#[trigger] now[i], links) by {
            if i < found.len() {
                assert(now[i] == found[i]);
            }
        }
    }
}

/// No subset that is found is covered by one found before it.
pub proof fn subsets_do_not_repeat(nodes: Seq<Seq<char>>, links: Seq<LinkView>, cs: Seq<Seq<int>>)
    ensures
        forall|i: int, j: int|
            0 <= i < j < meshed(nodes, links, cs).len() ==> !within(
                #[trigger] meshed(nodes, links, cs)[j],
                #[trigger] meshed(nodes, links, cs)[i],
            ),
    decreases cs.len(),
{
    if cs.len() > 0 {
        subsets_do_not_repeat(nodes, links, cs.drop_last());
        let found = meshed(nodes, links, cs.drop_last());
        let now = meshed(nodes, links, cs);
        assert forall|i: int, j: int| 0 <= i < j < now.len() implies !within(
            #[trigger] now[j],
            #[trigger] now[i],
        ) by {
            assert(now[i] == found[i]);
            if j < found.len() {
                assert(now[j] == found[j]);
            }
        }
    }
}

/// Every choice that is fully meshed is covered by a subset that is found.
pub proof fn subsets_cover(
    nodes: Seq<Seq<char>>,
    links: Seq<LinkView>,
    cs: Seq<Seq<int>>,
    m: int,
)
    requires
        0 <= m < cs.len(),
        full_mesh(picked(nodes, cs[m]), links),
    ensures
        covered(meshed(nodes, links, cs), picked(nodes, cs[m])),
    decreases cs.len(),
{
    let found = meshed(nodes, links, cs.drop_last());
    let now = meshed(nodes, links, cs);
    let s = picked(nodes, cs[m]);
    if m == cs.len() - 1 {
        if !covered(found, s) {
            assert(now.last() == s);
            assert(within(s, now[now.len() - 1])) by {
                assert forall|i: int| 0 <= i < s.len() implies s.contains(#[trigger] s[i]) by {}
            }
        } else {
            let i = choose|i: int| 0 <= i < found.len() && within(s, #[trigger] found[i]);
            assert(now[i] == found[i]);
        }
    } else {
        assert(cs.drop_last()[m] == cs[m]);
        subsets_cover(nodes, links, cs.drop_last(), m);
        let i = choose|i: int| 0 <= i < found.len() && within(s, #[trigger] found[i]);
        assert(now[i] == found[i]);
    }
}

/// A choice of `size` or fewer nodes, but three at least, is a candidate.
proof fn candidates_hold(n: int, size: nat, k: nat, c: Seq<int>)
    requires
        3 <= k <= size,
        increasing(c, 0, n, k),
    ensures
        candidates(n, size).contains(c),
    decreases size,
{
    let head = choices(0, n, size);
    let tail = candidates(n, (size - 1) as nat);
    if k == size {
        choices_are_increasing(0, n, k, c);
        let m = choose|m: int| 0 <= m < head.len() && head[m] == c;
        assert(candidates(n, size)[m] == c);
    } else {
        candidates_hold(n, (size - 1) as nat, k, c);
        let m = choose|m: int| 0 <= m < tail.len() && tail[m] == c;
        assert(candidates(n, size)[head.len() + m] == c);
    }
}

/// The candidates are increasing, have three nodes or more, and come by size,
/// the largest first.
proof fn candidates_shrink(n: int, size: nat)
    ensures
        forall|m: int|
            0 <= m < candidates(n, size).len() ==> {
                let c = #[trigger] candidates(n, size)[m];
                3 <= c.len() <= size && increasing(c, 0, n, c.len())
            },
        forall|m: int, k: int|
            0 <= m < k < candidates(n, size).len() ==> (#[trigger] candidates(n, size)[m]).len()
                >= (#[trigger] candidates(n, size)[k]).len(),
    decreases size,
{
    if size >= 3 {
        let head = choices(0, n, size);
        let tail = candidates(n, (size - 1) as nat);
        let all = candidates(n, size);
        candidates_shrink(n, (size - 1) as nat);
        assert forall|m: int| 0 <= m < all.len() implies {
            let c = #[trigger] all[m];
            3 <= c.len() <= size && increasing(c, 0, n, c.len()) && (m < head.len() ==> c.len()
                == size) && (m >= head.len() ==> c == tail[m - head.len()])
        } by {
            if m < head.len() {
                assert(all[m] == head[m]);
                assert(head.contains(head[m]));
                choices_are_increasing(0, n, size, head[m]);
            } else {
                assert(all[m] == tail[m - head.len()]);
            }
        }
    }
}

/// What the choices of falling size give: each is the nodes of one of them,
/// and their sizes fall too.
proof fn meshed_shrink(nodes: Seq<Seq<char>>, links: Seq<LinkView>, cs: Seq<Seq<int>>)
    requires
        forall|m: int, k: int|
            0 <= m < k < cs.len() ==> (#[trigger] cs[m]).len() >= (#[trigger] cs[k]).len(),
    ensures
        forall|i: int|
            0 <= i < meshed(nodes, links, cs).len() ==> exists|m: int|
                0 <= m < cs.len() && #[trigger] meshed(nodes, links, cs)[i] == picked(
                    nodes,
                    #[trigger] cs[m],
                ),
        forall|i: int, j: int|
            0 <= i < j < meshed(nodes, links, cs).len() ==> (#[trigger] meshed(
                nodes,
                links,
                cs,
            )[i]).len() >= (#[trigger] meshed(nodes, links, cs)[j]).len(),
    decreases cs.len(),
{
    if cs.len() > 0 {
        let front = cs.drop_last();
        let found = meshed(nodes, links, front);
        let now = meshed(nodes, links, cs);
        assert forall|m: int, k: int| 0 <= m < k < front.len() implies (#[trigger] front[m]).len()
            >= (#[trigger] front[k]).len() by {
            assert(cs[m].len() >= cs[k].len());
        }
        meshed_shrink(nodes, links, front);
        let last = cs.len() - 1;
        assert forall|i: int| 0 <= i < now.len() implies exists|m: int|
            0 <= m < cs.len() && #[trigger] now[i] == picked(nodes, #[trigger] cs[m]) by {
            if i < found.len() {
                assert(now[i] == found[i]);
                let m = choose|m: int|
                    0 <= m < front.len() && found[i] == picked(nodes, #[trigger] front[m]);
                assert(cs[m] == front[m]);
            } else {
                assert(now[i] == picked(nodes, cs[last]));
            }
        }
        assert forall|i: int, j: int| 0 <= i < j < now.len() implies (#[trigger] now[i]).len() >= (
        #[trigger] now[j]).len() by {
            assert(now[i] == found[i]);
            if j < found.len() {
                assert(now[j] == found[j]);
            } else {
                let m = choose|m: int|
                    0 <= m < front.len() && found[i] == picked(nodes, #[trigger] front[m]);
                assert(cs[m].len() >= cs[last].len());
            }
        }
    }
}

/// The nodes of an increasing choice are different where all nodes are.
proof fn picked_differ(nodes: Seq<Seq<char>>, c: Seq<int>)
    requires
        nodes.no_duplicates(),
        increasing(c, 0, nodes.len() as int, c.len()),
    ensures
        picked(nodes, c).no_duplicates(),
{
    let s = picked(nodes, c);
    assert forall|i: int, j: int| 0 <= i < s.len() && 0 <= j < s.len() && i != j implies s[i]
        != s[j] by {
        assert(c[i] != c[j]) by {
            if i < j {
                assert(c[i] < c[j]);
            } else {
                assert(c[j] < c[i]);
            }
        }
        assert(0 <= c[i] < nodes.len() && 0 <= c[j] < nodes.len());
    }
}

/// Of two lists without repetition, of which the first is no shorter and lies
/// within the second, the second lies within the first.
proof fn within_is_mutual(a: Seq<Seq<char>>, b: Seq<Seq<char>>)
    requires
        a.no_duplicates(),
        b.no_duplicates(),
        a.len() >= b.len(),
        within(a, b),
    ensures
        within(b, a),
{
    a.unique_seq_to_set();
    b.unique_seq_to_set();
    vstd::seq_lib::seq_to_set_is_finite(a);
    vstd::seq_lib::seq_to_set_is_finite(b);
    assert forall|x: Seq<char>| a.to_set().contains(x) implies b.to_set().contains(x) by {
        let i = choose|i: int| 0 <= i < a.len() && a[i] == x;
        assert(b.contains(a[i]));
    }
    vstd::set_lib::lemma_len_subset(a.to_set(), b.to_set());
    vstd::set_lib::lemma_subset_equality(a.to_set(), b.to_set());
    assert forall|i: int| 0 <= i < b.len() implies a.contains(#[trigger] b[i]) by {
        assert(b.contains(b[i]));
        assert(b.to_set().contains(b[i]));
        assert(a.to_set().contains(b[i]));
    }
}

/// The subsets in the report have three nodes or more, in the order in which
/// the nodes are listed; they come by size, the largest first; and, where no
/// node is listed twice, none lies within another.
pub proof fn subsets_are_largest(nodes: Seq<Seq<char>>, links: Seq<LinkView>)
    requires
        nodes.no_duplicates(),
    ensures
        forall|i: int|
            0 <= i < ready_subsets(nodes, links).len() ==> (#[trigger] ready_subsets(
                nodes,
                links,
            )[i]).len() >= 3 && exists|c: Seq<int>|
                ready_subsets(nodes, links)[i] == #[trigger] picked(nodes, c) && increasing(
                    c,
                    0,
                    nodes.len() as int,
                    c.len(),
                ),
        forall|i: int, j: int|
            0 <= i < j < ready_subsets(nodes, links).len() ==> (#[trigger] ready_subsets(
                nodes,
                links,
            )[i]).len() >= (#[trigger] ready_subsets(nodes, links)[j]).len(),
        forall|i: int, j: int|
            0 <= i < ready_subsets(nodes, links).len() && 0 <= j < ready_subsets(nodes, links).len()
                && i != j ==> !within(
                #[trigger] ready_subsets(nodes, links)[i],
                #[trigger] ready_subsets(nodes, links)[j],
            ),
{
    let n = nodes.len() as int;
    let cs = candidates(n, n as nat);
    let r = ready_subsets(nodes, links);
    candidates_shrink(n, n as nat);
    meshed_shrink(nodes, links, cs);
    subsets_do_not_repeat(nodes, links, cs);
    assert forall|i: int| 0 <= i < r.len() implies (#[trigger] r[i]).len() >= 3
        && r[i].no_duplicates() && exists|c: Seq<int>|
        r[i] == #[trigger] picked(nodes, c) && increasing(c, 0, n, c.len()) by {
        let m = choose|m: int| 0 <= m < cs.len() && r[i] == picked(nodes, #[trigger] cs[m]);
        assert(increasing(cs[m], 0, n, cs[m].len()));
        picked_differ(nodes, cs[m]);
    }
    assert forall|i: int, j: int| 0 <= i < r.len() && 0 <= j < r.len() && i != j implies !within(
        #[trigger] r[i],
        #[trigger] r[j],
    ) by {
        if i < j && within(r[i], r[j]) {
            within_is_mutual(r[i], r[j]);
        }
    }
}

/// An increasing sequence of numbers in a range is no longer than the range.
proof fn choice_has_room(c: Seq<int>, start: int, n: int)
    requires
        increasing(c, start, n, c.len()),
        c.len() > 0,
    ensures
        c.len() <= n - start,
    decreases c.len(),
{
    assert(start <= c[0] < n);
    if c.len() > 1 {
        let rest = c.drop_first();
        assert forall|i: int| 0 <= i < rest.len() implies start + 1 <= #[trigger] rest[i] < n by {
            assert(rest[i] == c[i + 1]);
            assert(c[0] < c[i + 1]);
        }
        assert forall|i: int, j: int| 0 <= i < j < rest.len() implies #[trigger] rest[i]
            < #[trigger] rest[j] by {
            assert(c[i + 1] < c[j + 1]);
        }
        choice_has_room(rest, start + 1, n);
    }
}

/// Every fully meshed choice of three nodes or more is covered by one of the
/// subsets in the report.
pub proof fn every_mesh_is_covered(nodes: Seq<Seq<char>>, links: Seq<LinkView>, c: Seq<int>)
    requires
        increasing(c, 0, nodes.len() as int, c.len()),
        3 <= c.len(),
        full_mesh(picked(nodes, c), links),
    ensures
        covered(ready_subsets(nodes, links), picked(nodes, c)),
{
    let n = nodes.len() as int;
    choice_has_room(c, 0, n);
    candidates_hold(n, n as nat, c.len(), c);
    let cs = candidates(n, n as nat);
    let m = choose|m: int| 0 <= m < cs.len() && cs[m] == c;
    subsets_cover(nodes, links, cs, m);
}

/// A choice of as many numbers as there are is all of them in order.
proof fn whole_choice(c: Seq<int>, n: int)
    requires
        increasing(c, 0, n, n as nat),
        n >= 0,
    ensures
        forall|k: int| 0 <= k < n ==> #[trigger] c[k] == k,
{
    assert forall|k: int| 0 <= k < n implies #[trigger] c[k] == k by {
        let a = c.take(k + 1);
        assert forall|i: int| 0 <= i < a.len() implies 0 <= #[trigger] a[i] < c[k] + 1 by {
            assert(a[i] == c[i]);
            if i < k {
                assert(c[i] < c[k]);
            }
        }
        choice_has_room(a, 0, c[k] + 1);
        let b = c.skip(k);
        assert forall|i: int| 0 <= i < b.len() implies c[k] <= #[trigger] b[i] < n by {
            assert(b[i] == c[i + k]);
            if i > 0 {
                assert(c[k] < c[i + k]);
            }
        }
        assert forall|i: int, j: int| 0 <= i < j < b.len() implies #[trigger] b[i]
            < #[trigger] b[j] by {
            assert(c[i + k] < c[j + k]);
        }
        choice_has_room(b, c[k], n);
    }
}

/// In a complete mesh of three nodes or more, the one subset in the report is
/// that of all nodes.
pub proof fn complete_mesh_is_ready(nodes: Seq<Seq<char>>, links: Seq<LinkView>)
    requires
        nodes.no_duplicates(),
        nodes.len() >= 3,
        full_mesh(nodes, links),
    ensures
        ready_subsets(nodes, links) == seq![nodes],
{
    let n = nodes.len() as int;
    let r = ready_subsets(nodes, links);
    let all = Seq::new(nodes.len(), |i: int| i);
    assert(picked(nodes, all) =~= nodes);
    every_mesh_is_covered(nodes, links, all);
    subsets_are_largest(nodes, links);
    let i = choose|i: int| 0 <= i < r.len() && within(nodes, #[trigger] r[i]);
    assert forall|j: int| 0 <= j < r.len() implies within(#[trigger] r[j], r[i]) by {
        let c = choose|c: Seq<int>|
            r[j] == #[trigger] picked(nodes, c) && increasing(c, 0, n, c.len());
        assert forall|k: int| 0 <= k < r[j].len() implies r[i].contains(#[trigger] r[j][k]) by {
            assert(0 <= c[k] < n);
            assert(r[j][k] == nodes[c[k]]);
            assert(r[i].contains(nodes[c[k]]));
        }
    }
    assert(i == 0 && r.len() == 1) by {
        let other = if i == 0 {
            r.len() - 1
        } else {
            0
        };
        if other != i {
            assert(within(r[other], r[i]));
        }
    }
    let c = choose|c: Seq<int>|
        r[0] == #[trigger] picked(nodes, c) && increasing(c, 0, n, c.len());
    choice_has_room(c, 0, n);
    picked_differ(nodes, c);
    assert(nodes.len() <= r[0].len()) by {
        nodes.unique_seq_to_set();
        r[0].unique_seq_to_set();
        vstd::seq_lib::seq_to_set_is_finite(nodes);
        vstd::seq_lib::seq_to_set_is_finite(r[0]);
        assert forall|x: Seq<char>| nodes.to_set().contains(x) implies r[0].to_set().contains(
            x,
        ) by {
            let k = choose|k: int| 0 <= k < nodes.len() && nodes[k] == x;
            assert(r[0].contains(nodes[k]));
        }
        vstd::set_lib::lemma_len_subset(nodes.to_set(), r[0].to_set());
    }
    whole_choice(c, n);
    assert(r[0] =~= nodes);
    assert(r =~= seq![nodes]);
}

// ---------------------------------------------------------------------------
// Reading a graph
// ---------------------------------------------------------------------------

/// What stands between the first two quotation marks behind the first `key`.
pub open spec fn quoted(s: Seq<char>, key: Seq<char>) -> Option<Seq<char>> {
    let k = text::find_from(s, key, 0);
    if k < 0 {
        None
    } else {
        match text::cut_at(s.skip(k + key.len()), '"') {
            None => None,
            Some(parts) => match text::cut_at(parts.1, '"') {
                None => None,
                Some(inner) => Some(inner.0),
            },
        }
    }
}

/// What stands between the first two quotation marks behind the first `key`.
pub fn extract_quoted(s: &str, key: &str) -> (r: Option<String>)
    ensures
        r.deep_view() == quoted(s@, key@),
{
    let v: Vec<char> = text::chars_of(s);
    let k: Vec<char> = text::chars_of(key);
    match text::find_in(&v, &k, 0) {
        None => None,
        Some(i) => {
            let after: String = text::string_of(&v, i + k.len(), v.len());
            assert(after@ =~= s@.skip(i + key@.len()));
            match text::cut(&after, '"') {
                None => None,
                Some(parts) => match text::cut(&parts.1, '"') {
                    None => None,
                    Some(inner) => Some(inner.0),
                },
            }
        },
    }
}

/// What has been read of a graph: the names of the nodes by their
/// identifiers, and the links.
pub struct GraphView {
    pub names: Seq<(Seq<char>, Seq<char>)>,
    pub links: Seq<LinkView>,
}

/// The line declares a node.
pub open spec fn is_node_line(line: Seq<char>) -> bool {
    &&& text::has(line, "[label="@)
    &&& !text::has(line, "--"@)
    &&& !text::has(line, "shape="@)
}

/// The identifier and the name that a line declares.
pub open spec fn node_of(line: Seq<char>) -> Option<(Seq<char>, Seq<char>)> {
    match text::cut_at(line, ' ') {
        None => None,
        Some(parts) => match quoted(parts.1, "label="@) {
            None => None,
            Some(label) => Some((parts.0, label)),
        },
    }
}

/// The name under an identifier, or the identifier where it has none.
pub open spec fn name_of(names: Seq<(Seq<char>, Seq<char>)>, id: Seq<char>) -> Seq<char> {
    match table::lookup(names, id) {
        Some(name) => name,
        None => id,
    }
}

/// The devices at the two ends that the label of a link gives.
pub open spec fn devices_of(line: Seq<char>) -> (Seq<char>, Seq<char>) {
    match quoted(line, "label="@) {
        None => ("unknown"@, "unknown"@),
        Some(label) => match text::cut_at(label, '/') {
            None => (label, label),
            Some(parts) => ("rdma_"@ + parts.0, "rdma_"@ + parts.1),
        },
    }
}

/// The link that a line declares.
pub open spec fn edge_of(names: Seq<(Seq<char>, Seq<char>)>, line: Seq<char>) -> Option<LinkView> {
    let parts = text::words_of(line);
    if text::has(line, "--"@) && parts.len() >= 3 && parts[1] == "--"@ {
        Some(
            (LinkView {
                node_a: name_of(names, parts[0]),
                device_a: devices_of(line).0,
                node_b: name_of(names, text::trim_end_char(parts[2], ';')),
                device_b: devices_of(line).1,
            }),
        )
    } else {
        None
    }
}

/// What is known of the graph after one more line.
pub open spec fn graph_step(g: GraphView, raw: Seq<char>) -> GraphView {
    let line = text::trimmed(raw);
    let names = if is_node_line(line) {
        match node_of(line) {
            None => g.names,
            Some(d) => table::with_entry(g.names, d.0, d.1),
        }
    } else {
        g.names
    };
    let links = match edge_of(names, line) {
        None => g.links,
        Some(l) => g.links.push(l),
    };
    GraphView { names, links }
}

/// What the lines declare.
pub open spec fn graph_of(lines: Seq<Seq<char>>) -> GraphView
    decreases lines.len(),
{
    if lines.len() == 0 {
        GraphView { names: Seq::empty(), links: Seq::empty() }
    } else {
        graph_step(graph_of(lines.drop_last()), lines.last())
    }
}

/// The report on the nodes `nodes` with the links `links`.
pub open spec fn report_on(
    r: TopologyReport,
    nodes: Seq<Seq<char>>,
    links: Seq<LinkView>,
    dot: Seq<char>,
) -> bool {
    let missing = missing_pairs(nodes, links, 0);
    &&& r.nodes.deep_view() == nodes
    &&& r.links.deep_view() == links
    &&& r.missing_links.deep_view() == missing
    &&& r.mesh_complete == (missing.len() == 0)
    &&& r.jaccl_ready == (missing.len() == 0 && links.len() >= mesh_size(nodes.len() as int))
    &&& r.jaccl_ready_subsets.deep_view() == ready_subsets(nodes, links)
    &&& r.raw_dot@ == dot
}

/// The number of pairs among `n` nodes.
pub fn expected_links(n: usize) -> (r: usize)
    requires
        n > 0,
        n * (n - 1) <= usize::MAX,
    ensures
        r == mesh_size(n as int),
{
    n * (n - 1) / 2
}

/// Completes a report on the nodes `nodes` with the links `links`.
fn report(nodes: &Vec<String>, links: Vec<TopologyLink>, dot: String) -> (r: TopologyReport)
    requires
        nodes@.len() > 0,
        nodes@.len() * (nodes@.len() - 1) <= usize::MAX,
    ensures
        report_on(r, nodes.deep_view(), links.deep_view(), dot@),
{
    let lost: Vec<(String, String)> = missing(nodes, &links);
    let complete: bool = lost.len() == 0;
    let ready: bool = complete && links.len() >= expected_links(nodes.len());
    let subsets: Vec<Vec<String>> = find_jaccl_subsets(nodes, &links);
    TopologyReport {
        nodes: text::own_all(nodes),
        links,
        mesh_complete: complete,
        missing_links: lost,
        jaccl_ready: ready,
        jaccl_ready_subsets: subsets,
        raw_dot: dot,
    }
}

/// The name under an identifier, or the identifier where it has none.
fn resolve(names: &TextMap, id: &str) -> (r: String)
    ensures
        r@ == name_of(names@, id@),
{
    match names.get(id) {
        Some(name) => name,
        None => text::own(id),
    }
}

/// The devices at the two ends that the label of a link gives.
fn edge_devices(line: &str) -> (r: (String, String))
    ensures
        r.deep_view() == devices_of(line@),
{
    match extract_quoted(line, "label=") {
        None => (text::own("unknown"), text::own("unknown")),
        Some(label) => match text::cut(&label, '/') {
            None => (text::own(&label), label),
            Some(parts) => (text::glue("rdma_", &parts.0), text::glue("rdma_", &parts.1)),
        },
    }
}

/// The link that a line declares.
fn parse_edge(names: &TextMap, line: &str) -> (r: Option<TopologyLink>)
    ensures
        r.deep_view() == edge_of(names@, line@),
{
    let parts: Vec<String> = text::words(line);
    let dashes: bool = text::contains(line, "--");
    if parts.len() >= 3 && dashes {
        assert(parts.deep_view()[0] == parts@[0]@);
        assert(parts.deep_view()[1] == parts@[1]@);
        assert(parts.deep_view()[2] == parts@[2]@);
        if text::same(&parts[1], "--") {
            let d: (String, String) = edge_devices(line);
            let far: String = text::trim_end_matches(&parts[2], ';');
            return Some(
                TopologyLink {
                    node_a: resolve(names, &parts[0]),
                    device_a: d.0,
                    node_b: resolve(names, &far),
                    device_b: d.1,
                },
            );
        }
    }
    None
}

/// Reads a graph, with the requested hosts as the nodes of the report.
///
/// ```dot
/// graph G {
///   node [shape=rectangle];
///   a [label="m3u1"];
///   b [label="m3u2"];
///   a -- b [label="en3/en4"]
/// }
/// ```
pub fn parse_dot(dot: &str, requested_hosts: &Vec<String>) -> (r: Result<TopologyReport, String>)
    requires
        requested_hosts@.len() > 0,
        requested_hosts@.len() * (requested_hosts@.len() - 1) <= usize::MAX,
    ensures
        r matches Ok(rep) && report_on(
            rep,
            requested_hosts.deep_view(),
            graph_of(text::lines_of(dot@)).links,
            dot@,
        ),
{
    let all: Vec<String> = text::lines(dot);
    let ghost ls = all.deep_view();
    let mut names: TextMap = TextMap::new();
    let mut links: Vec<TopologyLink> = Vec::new();
    let mut i: usize = 0;
    assert(links.deep_view() =~= Seq::<LinkView>::empty());
    while i < all.len()
        invariant
            i <= all@.len(),
            ls == all.deep_view(),
            names.wf(),
            names@ == graph_of(ls.take(i as int)).names,
            links.deep_view() == graph_of(ls.take(i as int)).links,
        decreases all@.len() - i,
    {
        proof {
            assert(ls.take(i + 1).drop_last() =~= ls.take(i as int));
            assert(ls.take(i + 1).last() == all@[i as int]@);
        }
        let line: String = text::trim(&all[i]);
        if text::contains(&line, "[label=") && !text::contains(&line, "--") && !text::contains(
            &line,
            "shape=",
        ) {
            if let Some((id, rest)) = text::cut(&line, ' ') {
                if let Some(label) = extract_quoted(&rest, "label=") {
                    names.insert(&id, &label);
                }
            }
        }
        if let Some(link) = parse_edge(&names, &line) {
            text::push_item(&mut links, link);
        }
        i = i + 1;
    }
    assert(ls.take(i as int) =~= ls);
    Ok(report(requested_hosts, links, text::own(dot)))
}

/// The lines from the first one on that holds `p`.
pub open spec fn from_line_with(lines: Seq<Seq<char>>, p: Seq<char>) -> Seq<Seq<char>>
    decreases lines.len(),
{
    if lines.len() == 0 || text::has(lines[0], p) {
        lines
    } else {
        from_line_with(lines.drop_first(), p)
    }
}

/// The graph in the output of `mlx.distributed_config`: all of the standard
/// output where it holds one, else the error output from the graph on.
pub open spec fn graph_text(stdout: Seq<char>, stderr: Seq<char>) -> Seq<char> {
    if text::has(stdout, "graph G"@) {
        stdout
    } else if text::has(stderr, "graph G"@) {
        text::joined(from_line_with(text::lines_of(stderr), "graph G"@), "\n"@)
    } else {
        Seq::empty()
    }
}

/// The first `n` items of a sequence, or all of them.
pub open spec fn first_of<T>(s: Seq<T>, n: int) -> Seq<T> {
    if s.len() <= n {
        s
    } else {
        s.take(n)
    }
}

/// What is said where there is no graph: the first five lines of the error
/// output.
pub open spec fn no_graph_text(stderr: Seq<char>) -> Seq<char> {
    "mlx.distributed_config produced no topology output.\nstderr: "@ + text::joined(
        first_of(text::lines_of(stderr), 5),
        "\n"@,
    )
}

/// The list from position `from` up to `to`, copied.
pub fn copy_range(v: &Vec<String>, from: usize, to: usize) -> (r: Vec<String>)
    requires
        from <= to <= v@.len(),
    ensures
        r.deep_view() == v.deep_view().subrange(from as int, to as int),
{
    let mut out: Vec<String> = Vec::new();
    let mut i: usize = from;
    while i < to
        invariant
            from <= i <= to <= v@.len(),
            out.deep_view() == v.deep_view().subrange(from as int, i as int),
        decreases to - i,
    {
        text::push_text(&mut out, text::own(&v[i]));
        i = i + 1;
        assert(out.deep_view() =~= v.deep_view().subrange(from as int, i as int));
    }
    out
}

/// The graph in the output of `mlx.distributed_config`, or what to say where
/// there is none.
pub fn select_dot(stdout: &str, stderr: &str) -> (r: Result<String, String>)
    ensures
        graph_text(stdout@, stderr@).len() > 0 ==> (r matches Ok(dot) && dot@ == graph_text(
            stdout@,
            stderr@,
        )),
        graph_text(stdout@, stderr@).len() == 0 ==> (r matches Err(e) && e@ == no_graph_text(
            stderr@,
        )),
{
    let all: Vec<String> = text::lines(stderr);
    let ghost ls = all.deep_view();
    let dot: String = if text::contains(stdout, "graph G") {
        text::own(stdout)
    } else if text::contains(stderr, "graph G") {
        let mut i: usize = 0;
        assert(ls.skip(0) =~= ls);
        while i < all.len() && !text::contains(&all[i], "graph G")
            invariant
                i <= all@.len(),
                ls == all.deep_view(),
                from_line_with(ls, "graph G"@) == from_line_with(ls.skip(i as int), "graph G"@),
            decreases all@.len() - i,
        {
            assert(ls.skip(i as int)[0] == all@[i as int]@);
            assert(ls.skip(i as int).drop_first() =~= ls.skip(i + 1));
            i = i + 1;
        }
        proof {
            assert(ls.subrange(i as int, all@.len() as int) =~= ls.skip(i as int));
            if i < all@.len() {
                assert(ls.skip(i as int)[0] == all@[i as int]@);
            }
        }
        text::join(&copy_range(&all, i, all.len()), "\n")
    } else {
        String::new()
    };
    if dot.as_str().is_empty() {
        let n: usize = if all.len() <= 5 {
            all.len()
        } else {
            5
        };
        let head: Vec<String> = copy_range(&all, 0, n);
        assert(head.deep_view() =~= first_of(ls, 5));
        Err(
            text::glue(
                "mlx.distributed_config produced no topology output.\nstderr: ",
                &text::join(&head, "\n"),
            ),
        )
    } else {
        Ok(dot)
    }
}

// ---------------------------------------------------------------------------
// Finding links from address tables
// ---------------------------------------------------------------------------

/// The name of the interface that a line of `ifconfig` is about: a line that
/// is not indented begins a new one.
pub open spec fn interface_after(current: Seq<char>, line: Seq<char>) -> Seq<char> {
    if !text::starts(line, "\t"@) && !text::starts(line, " "@) {
        text::split_on(line, ':')[0]
    } else {
        current
    }
}

/// The name of the interface that a line of `ifconfig` is about.
pub fn next_interface(current: &str, line: &str) -> (r: String)
    ensures
        r@ == interface_after(current@, line@),
{
    if !text::starts_with(line, "\t") && !text::starts_with(line, " ") {
        let parts: Vec<String> = text::split(line, ':');
        assert(parts.deep_view()[0] == parts@[0]@);
        text::own(&parts[0])
    } else {
        text::own(current)
    }
}

/// What has been read of the output of `ifconfig`: the interface that the
/// last line was about, and the link-local address of each interface.
pub struct AddressesView {
    pub current: Seq<char>,
    pub found: Seq<(Seq<char>, Seq<char>)>,
}

/// What is known of the addresses after one more line.
pub open spec fn address_step(st: AddressesView, line: Seq<char>) -> AddressesView {
    let current = interface_after(st.current, line);
    let found = match text::nth_word(line, 1) {
        Some(ip) => if text::has(line, "inet 169.254."@) && current.len() > 0 && !text::starts(
            current,
            "lo"@,
        ) && !text::starts(current, "bridge"@) {
            table::with_entry(st.found, current, ip)
        } else {
            st.found
        },
        None => st.found,
    };
    AddressesView { current, found }
}

/// The addresses that the lines give.
pub open spec fn addresses_of(lines: Seq<Seq<char>>) -> AddressesView
    decreases lines.len(),
{
    if lines.len() == 0 {
        AddressesView { current: Seq::empty(), found: Seq::empty() }
    } else {
        address_step(addresses_of(lines.drop_last()), lines.last())
    }
}

/// The link-local address of each interface in the output of `ifconfig`, but
/// for loopback and bridge interfaces.
pub fn link_local_ips(ifconfig: &str) -> (r: TextMap)
    ensures
        r.wf(),
        r@ == addresses_of(text::lines_of(ifconfig@)).found,
{
    let all: Vec<String> = text::lines(ifconfig);
    let ghost ls = all.deep_view();
    let mut current: String = String::new();
    let mut found: TextMap = TextMap::new();
    let mut i: usize = 0;
    while i < all.len()
        invariant
            i <= all@.len(),
            ls == all.deep_view(),
            found.wf(),
            found@ == addresses_of(ls.take(i as int)).found,
            current@ == addresses_of(ls.take(i as int)).current,
        decreases all@.len() - i,
    {
        proof {
            assert(ls.take(i + 1).drop_last() =~= ls.take(i as int));
            assert(ls.take(i + 1).last() == all@[i as int]@);
        }
        let line: &String = &all[i];
        current = next_interface(&current, line);
        if let Some(ip) = text::word(line, 1) {
            if text::contains(line, "inet 169.254.") && !current.as_str().is_empty()
                && !text::starts_with(&current, "lo") && !text::starts_with(&current, "bridge") {
                found.insert(&current, &ip);
            }
        }
        i = i + 1;
    }
    assert(ls.take(i as int) =~= ls);
    found
}

/// The number of round brackets at the front of `s`.
pub open spec fn lead_brackets(s: Seq<char>) -> nat
    decreases s.len(),
{
    if s.len() > 0 && (s[0] == '(' || s[0] == ')') {
        1 + lead_brackets(s.drop_first())
    } else {
        0
    }
}

/// `s` without the round brackets at its end.
pub open spec fn trim_end_brackets(s: Seq<char>) -> Seq<char>
    decreases s.len(),
{
    if s.len() > 0 && (s.last() == '(' || s.last() == ')') {
        trim_end_brackets(s.drop_last())
    } else {
        s
    }
}

/// `s` without the round brackets at its two ends.
pub open spec fn unbracketed(s: Seq<char>) -> Seq<char> {
    trim_end_brackets(s.skip(lead_brackets(s) as int))
}

/// `s` without the round brackets at its two ends.
fn trim_brackets(s: &str) -> (r: String)
    ensures
        r@ == unbracketed(s@),
{
    let v: Vec<char> = text::chars_of(s);
    let mut from: usize = 0;
    assert(v@.skip(0) =~= v@);
    while from < v.len() && (v[from] == '(' || v[from] == ')')
        invariant
            from <= v@.len(),
            lead_brackets(v@) == from + lead_brackets(v@.skip(from as int)),
        decreases v@.len() - from,
    {
        assert(v@.skip(from as int).drop_first() =~= v@.skip(from + 1));
        from = from + 1;
    }
    let mut to: usize = v.len();
    assert(v@.subrange(from as int, to as int) =~= v@.skip(from as int));
    while to > from && (v[to - 1] == '(' || v[to - 1] == ')')
        invariant
            from <= to <= v@.len(),
            trim_end_brackets(v@.skip(from as int)) == trim_end_brackets(
                v@.subrange(from as int, to as int),
            ),
        decreases to,
    {
        assert(v@.subrange(from as int, to as int).drop_last() =~= v@.subrange(
            from as int,
            to - 1,
        ));
        to = to - 1;
    }
    text::string_of(&v, from, to)
}

/// The address and the interface in a line of `arp -an`, unless the entry is
/// incomplete or on a bridge.
pub open spec fn arp_peer(line: Seq<char>) -> Option<(Seq<char>, Seq<char>)> {
    let parts = text::words_of(line);
    if parts.len() >= 6 && parts[3] != "(incomplete)"@ && !text::starts(parts[5], "bridge"@) {
        Some((unbracketed(parts[1]), parts[5]))
    } else {
        None
    }
}

/// The peers that the lines give.
pub open spec fn arp_peers(lines: Seq<Seq<char>>) -> Seq<(Seq<char>, Seq<char>)>
    decreases lines.len(),
{
    if lines.len() == 0 {
        Seq::empty()
    } else {
        match arp_peer(lines.last()) {
            None => arp_peers(lines.drop_last()),
            Some(p) => arp_peers(lines.drop_last()).push(p),
        }
    }
}

/// The address and the interface in a line of `arp -an`.
fn parse_arp_peer(line: &str) -> (r: Option<(String, String)>)
    ensures
        r.deep_view() == arp_peer(line@),
{
    let parts: Vec<String> = text::words(line);
    if parts.len() < 6 {
        return None;
    }
    assert(parts.deep_view()[1] == parts@[1]@);
    assert(parts.deep_view()[3] == parts@[3]@);
    assert(parts.deep_view()[5] == parts@[5]@);
    if text::same(&parts[3], "(incomplete)") || text::starts_with(&parts[5], "bridge") {
        return None;
    }
    Some((trim_brackets(&parts[1]), text::own(&parts[5])))
}

/// The peers in the output of `arp -an`: the address of each and the local
/// interface on which it was seen.
pub fn parse_arp_peers(output: &str) -> (r: Vec<(String, String)>)
    ensures
        r.deep_view() == arp_peers(text::lines_of(output@)),
{
    let all: Vec<String> = text::lines(output);
    let ghost ls = all.deep_view();
    let mut out: Vec<(String, String)> = Vec::new();
    let mut i: usize = 0;
    assert(out.deep_view() =~= Seq::<(Seq<char>, Seq<char>)>::empty());
    while i < all.len()
        invariant
            i <= all@.len(),
            ls == all.deep_view(),
            out.deep_view() == arp_peers(ls.take(i as int)),
        decreases all@.len() - i,
    {
        proof {
            assert(ls.take(i + 1).drop_last() =~= ls.take(i as int));
            assert(ls.take(i + 1).last() == all@[i as int]@);
        }
        if let Some(p) = parse_arp_peer(&all[i]) {
            text::push_item(&mut out, p);
        }
        i = i + 1;
    }
    assert(ls.take(i as int) =~= ls);
    out
}

/// What one node says of its network: the address of each of its interfaces,
/// and its peers with the interface on which each was seen.
pub struct NodeTables {
    pub host: String,
    pub addresses: TextMap,
    pub peers: Vec<(String, String)>,
}

/// The texts of what a node says.
pub struct NodeTablesView {
    pub host: Seq<char>,
    pub addresses: Seq<(Seq<char>, Seq<char>)>,
    pub peers: Seq<(Seq<char>, Seq<char>)>,
}

impl DeepView for NodeTables {
    type V = NodeTablesView;

    open spec fn deep_view(&self) -> NodeTablesView {
        NodeTablesView {
            host: self.host@,
            addresses: self.addresses@,
            peers: self.peers.deep_view(),
        }
    }
}

/// The node and the interface that hold an address: those of the last node
/// in the list, and of its last interface, that has it.
pub open spec fn owner_of(nodes: Seq<NodeTablesView>, ip: Seq<char>) -> Option<
    (Seq<char>, Seq<char>),
>
    decreases nodes.len(),
{
    if nodes.len() == 0 {
        None
    } else {
        match last_with_value(nodes.last().addresses, ip) {
            Some(iface) => Some((nodes.last().host, iface)),
            None => owner_of(nodes.drop_last(), ip),
        }
    }
}

/// The key of the last entry that holds the value `v`.
pub open spec fn last_with_value(s: Seq<(Seq<char>, Seq<char>)>, v: Seq<char>) -> Option<Seq<char>>
    decreases s.len(),
{
    if s.len() == 0 {
        None
    } else if s.last().1 == v {
        Some(s.last().0)
    } else {
        last_with_value(s.drop_last(), v)
    }
}

/// The link between two nodes, the one that stands first in the order of code
/// points as its first end.
pub open spec fn link_between(
    host: Seq<char>,
    iface: Seq<char>,
    far: Seq<char>,
    far_iface: Seq<char>,
) -> LinkView {
    if text::precedes(host, far) {
        LinkView {
            node_a: host,
            device_a: "rdma_"@ + iface,
            node_b: far,
            device_b: "rdma_"@ + far_iface,
        }
    } else {
        LinkView {
            node_a: far,
            device_a: "rdma_"@ + far_iface,
            node_b: host,
            device_b: "rdma_"@ + iface,
        }
    }
}

/// Some link has the same two ends as `l`.
pub open spec fn same_ends(links: Seq<LinkView>, l: LinkView) -> bool {
    exists|i: int|
        0 <= i < links.len() && (#[trigger] links[i]).node_a == l.node_a && links[i].node_b
            == l.node_b
}

/// The links after one more peer of the node `host`: the peer adds one where
/// its address belongs to another node and no link between the two is known.
pub open spec fn peer_step(
    links: Seq<LinkView>,
    nodes: Seq<NodeTablesView>,
    host: Seq<char>,
    peer: (Seq<char>, Seq<char>),
) -> Seq<LinkView> {
    match owner_of(nodes, peer.0) {
        None => links,
        Some(far) => {
            let l = link_between(host, peer.1, far.0, far.1);
            if far.0 == host || same_ends(links, l) {
                links
            } else {
                links.push(l)
            }
        },
    }
}

/// The links after the peers of the node `host`.
pub open spec fn peers_step(
    links: Seq<LinkView>,
    nodes: Seq<NodeTablesView>,
    host: Seq<char>,
    peers: Seq<(Seq<char>, Seq<char>)>,
) -> Seq<LinkView>
    decreases peers.len(),
{
    if peers.len() == 0 {
        links
    } else {
        peer_step(peers_step(links, nodes, host, peers.drop_last()), nodes, host, peers.last())
    }
}

/// The links that the address tables of the nodes show, read from the first
/// `k` nodes.
pub open spec fn arp_links(nodes: Seq<NodeTablesView>, k: nat) -> Seq<LinkView>
    decreases k,
{
    if k == 0 || k > nodes.len() {
        Seq::empty()
    } else {
        peers_step(arp_links(nodes, (k - 1) as nat), nodes, nodes[k - 1].host, nodes[k - 1].peers)
    }
}

/// The node and the interface that hold an address.
fn find_owner(nodes: &Vec<NodeTables>, ip: &str) -> (r: Option<(String, String)>)
    ensures
        r.deep_view() == owner_of(nodes.deep_view(), ip@),
{
    let ghost ns = nodes.deep_view();
    let mut i: usize = nodes.len();
    assert(ns.take(i as int) =~= ns);
    while i > 0
        invariant
            i <= nodes@.len(),
            ns == nodes.deep_view(),
            owner_of(ns, ip@) == owner_of(ns.take(i as int), ip@),
        decreases i,
    {
        let node: &NodeTables = &nodes[i - 1];
        proof {
            assert(ns.take(i as int).last() == node.deep_view());
            assert(ns.take(i as int).drop_last() =~= ns.take(i - 1));
        }
        let ghost at = node.addresses@;
        let mut j: usize = node.addresses.len();
        assert(at.take(j as int) =~= at);
        while j > 0
            invariant
                j <= at.len(),
                0 < i <= nodes@.len(),
                node == &nodes@[i - 1],
                at == node.addresses@,
                ns == nodes.deep_view(),
                ns.take(i as int).last() == node.deep_view(),
                owner_of(ns, ip@) == owner_of(ns.take(i as int), ip@),
                last_with_value(at, ip@) == last_with_value(at.take(j as int), ip@),
            decreases j,
        {
            assert(at.take(j as int).last() == at[j - 1]);
            assert(at.take(j as int).drop_last() =~= at.take(j - 1));
            if text::same(node.addresses.value(j - 1), ip) {
                return Some((text::own(&node.host), text::own(node.addresses.key(j - 1))));
            }
            j = j - 1;
        }
        i = i - 1;
    }
    None
}

/// Whether a link has the same two ends as `l`.
fn knows_ends(links: &Vec<TopologyLink>, l: &TopologyLink) -> (r: bool)
    ensures
        r == same_ends(links.deep_view(), l.deep_view()),
{
    let mut i: usize = 0;
    while i < links.len()
        invariant
            i <= links@.len(),
            forall|k: int|
                0 <= k < i ==> !((#[trigger] links.deep_view()[k]).node_a == l.node_a@
                    && links.deep_view()[k].node_b == l.node_b@),
        decreases links@.len() - i,
    {
        if text::same(&links[i].node_a, &l.node_a) && text::same(&links[i].node_b, &l.node_b) {
            assert(links.deep_view()[i as int] == links@[i as int].deep_view());
            return true;
        }
        i = i + 1;
    }
    false
}

/// The links that the address tables of the nodes show.
pub fn links_from_tables(nodes: &Vec<NodeTables>) -> (r: Vec<TopologyLink>)
    ensures
        r.deep_view() == arp_links(nodes.deep_view(), nodes@.len()),
{
    let ghost ns = nodes.deep_view();
    let mut links: Vec<TopologyLink> = Vec::new();
    let mut i: usize = 0;
    assert(links.deep_view() =~= Seq::<LinkView>::empty());
    while i < nodes.len()
        invariant
            i <= nodes@.len(),
            ns == nodes.deep_view(),
            links.deep_view() == arp_links(ns, i as nat),
        decreases nodes@.len() - i,
    {
        let node: &NodeTables = &nodes[i];
        let ghost before = links.deep_view();
        let ghost peers = node.peers.deep_view();
        assert(ns[i as int] == node.deep_view());
        let mut j: usize = 0;
        while j < node.peers.len()
            invariant
                j <= node.peers@.len(),
                peers == node.peers.deep_view(),
                ns == nodes.deep_view(),
                links.deep_view() == peers_step(before, ns, node.host@, peers.take(j as int)),
            decreases node.peers@.len() - j,
        {
            let peer: &(String, String) = &node.peers[j];
            proof {
                assert(peers[j as int] == peer.deep_view());
                assert(peers.take(j + 1).last() == peer.deep_view());
                assert(peers.take(j + 1).drop_last() =~= peers.take(j as int));
            }
            if let Some((far, far_iface)) = find_owner(nodes, &peer.0) {
                if !text::same(&far, &node.host) {
                    let here: String = text::glue("rdma_", &peer.1);
                    let there: String = text::glue("rdma_", &far_iface);
                    let l: TopologyLink = if text::before(&node.host, &far) {
                        TopologyLink {
                            node_a: text::own(&node.host),
                            device_a: here,
                            node_b: far,
                            device_b: there,
                        }
                    } else {
                        TopologyLink {
                            node_a: far,
                            device_a: there,
                            node_b: text::own(&node.host),
                            device_b: here,
                        }
                    };
                    if !knows_ends(&links, &l) {
                        text::push_item(&mut links, l);
                    }
                }
            }
            j = j + 1;
        }
        assert(peers.take(j as int) =~= peers);
        i = i + 1;
    }
    links
}

/// The link is one that the entry `p` among the peers of the node `x` shows:
/// the entry names an address that the interface `q` of the node `y` holds, and
/// each end of the link is a device of the node that stands there.
pub open spec fn shown_by(
    l: LinkView,
    nodes: Seq<NodeTablesView>,
    x: int,
    p: int,
    y: int,
    q: int,
) -> bool {
    &&& 0 <= x < nodes.len()
    &&& 0 <= y < nodes.len()
    &&& 0 <= p < nodes[x].peers.len()
    &&& 0 <= q < nodes[y].addresses.len()
    &&& nodes[y].addresses[q].1 == nodes[x].peers[p].0
    &&& ({
        ||| l.node_a == nodes[x].host && l.device_a == "rdma_"@ + nodes[x].peers[p].1 && l.node_b
            == nodes[y].host && l.device_b == "rdma_"@ + nodes[y].addresses[q].0
        ||| l.node_b == nodes[x].host && l.device_b == "rdma_"@ + nodes[x].peers[p].1 && l.node_a
            == nodes[y].host && l.device_a == "rdma_"@ + nodes[y].addresses[q].0
    })
}

/// Some entry among the peers of some node shows the link.
pub open spec fn is_shown(l: LinkView, nodes: Seq<NodeTablesView>) -> bool {
    exists|x: int, p: int, y: int, q: int| #[trigger] shown_by(l, nodes, x, p, y, q)
}

/// The entry that holds the value `v`, where one does.
proof fn value_is_held(s: Seq<(Seq<char>, Seq<char>)>, v: Seq<char>) -> (q: int)
    ensures
        match last_with_value(s, v) {
            Some(k) => 0 <= q < s.len() && s[q] == (k, v),
            None => forall|i: int| 0 <= i < s.len() ==> (#[trigger] s[i]).1 != v,
        },
    decreases s.len(),
{
    if s.len() == 0 {
        0
    } else if s.last().1 == v {
        s.len() - 1
    } else {
        let q = value_is_held(s.drop_last(), v);
        assert forall|i: int|
            last_with_value(s, v) is None && 0 <= i < s.len() implies (#[trigger] s[i]).1 != v by {
            if i < s.len() - 1 {
                assert(s.drop_last()[i] == s[i]);
            }
        }
        q
    }
}

/// The node and the interface that hold an address, where one does.
proof fn owner_holds(nodes: Seq<NodeTablesView>, ip: Seq<char>) -> (at: (int, int))
    ensures
        match owner_of(nodes, ip) {
            Some(o) => 0 <= at.0 < nodes.len() && 0 <= at.1 < nodes[at.0].addresses.len()
                && nodes[at.0].host == o.0 && nodes[at.0].addresses[at.1] == (o.1, ip),
            None => forall|y: int, q: int|
                0 <= y < nodes.len() && 0 <= q < nodes[y].addresses.len() ==> (
                #[trigger] nodes[y].addresses[q]).1 != ip,
        },
    decreases nodes.len(),
{
    if nodes.len() == 0 {
        (0, 0)
    } else {
        let q = value_is_held(nodes.last().addresses, ip);
        if last_with_value(nodes.last().addresses, ip) is Some {
            (nodes.len() - 1, q)
        } else {
            let at = owner_holds(nodes.drop_last(), ip);
            assert forall|y: int, q: int|
                owner_of(nodes, ip) is None && 0 <= y < nodes.len() && 0 <= q
                    < nodes[y].addresses.len() implies (#[trigger] nodes[y].addresses[q]).1
                != ip by {
                if y < nodes.len() - 1 {
                    assert(nodes.drop_last()[y].addresses[q] == nodes[y].addresses[q]);
                }
            }
            at
        }
    }
}

/// The links have ends of different names, in the order of the names.
pub open spec fn ends_in_order(links: Seq<LinkView>) -> bool {
    forall|i: int|
        0 <= i < links.len() ==> text::precedes((#[trigger] links[i]).node_a, links[i].node_b)
}

/// No two links have the same ends.
pub open spec fn ends_differ(links: Seq<LinkView>) -> bool {
    forall|i: int, j: int|
        0 <= i < j < links.len() ==> (#[trigger] links[i]).node_a != (#[trigger] links[j]).node_a
            || links[i].node_b != links[j].node_b
}

/// The links so far are shown by the tables, in order and without repetition.
spec fn links_stand(links: Seq<LinkView>, nodes: Seq<NodeTablesView>) -> bool {
    &&& ends_in_order(links)
    &&& ends_differ(links)
    &&& forall|i: int| 0 <= i < links.len() ==> is_shown(#[trigger] links[i], nodes)
}

/// One more node keeps the links standing, keeps those that were there, and
/// links it with every node that holds one of the addresses among its peers.
proof fn peers_are_linked(
    links: Seq<LinkView>,
    nodes: Seq<NodeTablesView>,
    x: int,
    k: nat,
)
    requires
        0 <= x < nodes.len(),
        k <= nodes[x].peers.len(),
        links_stand(links, nodes),
    ensures
        ({
            let now = peers_step(links, nodes, nodes[x].host, nodes[x].peers.take(k as int));
            &&& links_stand(now, nodes)
            &&& links.len() <= now.len()
            &&& now.take(links.len() as int) == links
            &&& forall|p: int|
                0 <= p < k ==> (match owner_of(nodes, (#[trigger] nodes[x].peers[p]).0) {
                    Some(o) => o.0 == nodes[x].host || connected(now, nodes[x].host, o.0),
                    None => true,
                })
        }),
    decreases k,
{
    let host = nodes[x].host;
    let peers = nodes[x].peers.take(k as int);
    let now = peers_step(links, nodes, host, peers);
    if k == 0 {
        assert(peers =~= Seq::empty());
        assert(now.take(links.len() as int) =~= links);
    } else {
        peers_are_linked(links, nodes, x, (k - 1) as nat);
        assert(peers.drop_last() =~= nodes[x].peers.take(k - 1));
        let before = peers_step(links, nodes, host, peers.drop_last());
        let peer = nodes[x].peers[k - 1];
        assert(peers.last() == peer);
        let at = owner_holds(nodes, peer.0);
        if let Some(far) = owner_of(nodes, peer.0) {
            let l = link_between(host, peer.1, far.0, far.1);
            text::precedes_total(host, far.0);
            if far.0 != host {
                assert(shown_by(l, nodes, x, k - 1, at.0, at.1));
                assert(joins(l, host, far.0) || joins(l, far.0, host));
                if same_ends(before, l) {
                    let i = choose|i: int|
                        0 <= i < before.len() && (#[trigger] before[i]).node_a == l.node_a
                            && before[i].node_b == l.node_b;
                    assert(joins(now[i], host, far.0) || joins(now[i], far.0, host));
                } else {
                    assert(now == before.push(l));
                    assert(now.last() == l);
                    assert(joins(now[before.len() as int], host, far.0) || joins(
                        now[before.len() as int],
                        far.0,
                        host,
                    ));
                }
                assert(connected(now, host, far.0));
            }
        }
        assert(before.len() <= now.len() && now.take(before.len() as int) =~= before);
        assert(now.take(links.len() as int) =~= before.take(links.len() as int));
        assert forall|p: int| 0 <= p < k implies (match owner_of(
            nodes,
            (#[trigger] nodes[x].peers[p]).0,
        ) {
            Some(o) => o.0 == host || connected(now, host, o.0),
            None => true,
        }) by {
            if p < k - 1 {
                if let Some(o) = owner_of(nodes, nodes[x].peers[p].0) {
                    if o.0 != host {
                        connection_stays(before, now, host, o.0);
                    }
                }
            }
        }
    }
}

/// What is connected stays so where links are added.
proof fn connection_stays(before: Seq<LinkView>, now: Seq<LinkView>, x: Seq<char>, y: Seq<char>)
    requires
        before.len() <= now.len(),
        now.take(before.len() as int) == before,
        connected(before, x, y),
    ensures
        connected(now, x, y),
{
    let i = choose|i: int|
        0 <= i < before.len() && (joins(#[trigger] before[i], x, y) || joins(before[i], y, x));
    assert(now.take(before.len() as int)[i] == now[i]);
}

/// The links of the first nodes stand, and connect them with their peers.
proof fn tables_are_linked(nodes: Seq<NodeTablesView>, k: nat)
    requires
        k <= nodes.len(),
    ensures
        links_stand(arp_links(nodes, k), nodes),
        forall|x: int, p: int|
            0 <= x < k && 0 <= p < nodes[x].peers.len() ==> (match owner_of(
                nodes,
                (#[trigger] nodes[x].peers[p]).0,
            ) {
                Some(o) => o.0 == nodes[x].host || connected(
                    arp_links(nodes, k),
                    nodes[x].host,
                    o.0,
                ),
                None => true,
            }),
    decreases k,
{
    if k > 0 {
        let before = arp_links(nodes, (k - 1) as nat);
        let now = arp_links(nodes, k);
        tables_are_linked(nodes, (k - 1) as nat);
        peers_are_linked(before, nodes, k - 1, nodes[k - 1].peers.len());
        assert(nodes[k - 1].peers.take(nodes[k - 1].peers.len() as int) =~= nodes[k - 1].peers);
        assert forall|x: int, p: int| 0 <= x < k && 0 <= p < nodes[x].peers.len() implies (
        match owner_of(nodes, (#[trigger] nodes[x].peers[p]).0) {
            Some(o) => o.0 == nodes[x].host || connected(now, nodes[x].host, o.0),
            None => true,
        }) by {
            if x < k - 1 {
                if let Some(o) = owner_of(nodes, nodes[x].peers[p].0) {
                    if o.0 != nodes[x].host {
                        connection_stays(before, now, nodes[x].host, o.0);
                    }
                }
            }
        }
    }
}

/// Every link that the address tables give is one that a node sees: some node
/// has, on the interface whose device stands at its end, a peer with an
/// address that the other node holds on the interface whose device stands at
/// the other end. The two are different nodes, and no two links join the same.
pub proof fn links_join_owners(nodes: Seq<NodeTablesView>)
    ensures
        forall|i: int|
            0 <= i < arp_links(nodes, nodes.len()).len() ==> is_shown(
                #[trigger] arp_links(nodes, nodes.len())[i],
                nodes,
            ),
        forall|i: int|
            0 <= i < arp_links(nodes, nodes.len()).len() ==> (#[trigger] arp_links(
                nodes,
                nodes.len(),
            )[i]).node_a != arp_links(nodes, nodes.len())[i].node_b,
        ends_in_order(arp_links(nodes, nodes.len())),
        ends_differ(arp_links(nodes, nodes.len())),
{
    tables_are_linked(nodes, nodes.len());
    let links = arp_links(nodes, nodes.len());
    assert forall|i: int| 0 <= i < links.len() implies (#[trigger] links[i]).node_a
        != links[i].node_b by {
        text::precedes_total(links[i].node_a, links[i].node_b);
    }
}

/// A node that sees the address of another is linked with it: where the node
/// `x` has a peer with an address that the node `y` holds, and no node of
/// another name holds it, the links connect the two.
#[verifier::rlimit(60)]
pub proof fn seen_neighbours_are_linked(
    nodes: Seq<NodeTablesView>,
    x: int,
    p: int,
    y: int,
    q: int,
)
    requires
        0 <= x < nodes.len(),
        0 <= y < nodes.len(),
        0 <= p < nodes[x].peers.len(),
        0 <= q < nodes[y].addresses.len(),
        nodes[y].addresses[q].1 == nodes[x].peers[p].0,
        nodes[x].host != nodes[y].host,
        forall|z: int, r: int|
            0 <= z < nodes.len() && 0 <= r < nodes[z].addresses.len() && (
            #[trigger] nodes[z].addresses[r]).1 == nodes[x].peers[p].0 ==> nodes[z].host
                == nodes[y].host,
    ensures
        exists|i: int|
            0 <= i < arp_links(nodes, nodes.len()).len() && ({
                let l = #[trigger] arp_links(nodes, nodes.len())[i];
                ||| l.node_a == nodes[x].host && l.node_b == nodes[y].host
                ||| l.node_a == nodes[y].host && l.node_b == nodes[x].host
            }),
{
    tables_are_linked(nodes, nodes.len());
    let at = owner_holds(nodes, nodes[x].peers[p].0);
    let links = arp_links(nodes, nodes.len());
    let o = owner_of(nodes, nodes[x].peers[p].0);
    assert(nodes[y].addresses[q].1 == nodes[x].peers[p].0);
    assert(o is Some);
    assert(nodes[at.0].addresses[at.1].1 == nodes[x].peers[p].0);
    assert(connected(links, nodes[x].host, nodes[y].host));
    let i = choose|i: int|
        0 <= i < links.len() && (joins(#[trigger] links[i], nodes[x].host, nodes[y].host) || joins(
            links[i],
            nodes[y].host,
            nodes[x].host,
        ));
    assert(links[i] == arp_links(nodes, nodes.len())[i]);
}

/// The hosts of the nodes.
pub open spec fn hosts_of(nodes: Seq<NodeTablesView>) -> Seq<Seq<char>> {
    nodes.map_values(|n: NodeTablesView| n.host)
}

/// The hosts of the nodes.
fn host_list(nodes: &Vec<NodeTables>) -> (r: Vec<String>)
    ensures
        r.deep_view() == hosts_of(nodes.deep_view()),
{
    let ghost want = hosts_of(nodes.deep_view());
    let mut out: Vec<String> = Vec::new();
    let mut i: usize = 0;
    while i < nodes.len()
        invariant
            i <= nodes@.len(),
            want == hosts_of(nodes.deep_view()),
            out.deep_view() == want.take(i as int),
        decreases nodes@.len() - i,
    {
        text::push_text(&mut out, text::own(&nodes[i].host));
        i = i + 1;
        assert(out.deep_view() =~= want.take(i as int));
    }
    assert(want.take(i as int) =~= want);
    out
}

/// The report that the address tables of the nodes give.
pub fn report_from_tables(nodes: &Vec<NodeTables>) -> (r: TopologyReport)
    requires
        0 < nodes@.len() <= MAX_DOT_NODES,
    ensures
        report_on(
            r,
            hosts_of(nodes.deep_view()),
            arp_links(nodes.deep_view(), nodes@.len()),
            dot_of(hosts_of(nodes.deep_view()), arp_links(nodes.deep_view(), nodes@.len())),
        ),
{
    let hosts: Vec<String> = host_list(nodes);
    let links: Vec<TopologyLink> = links_from_tables(nodes);
    assert(hosts@.len() == hosts.deep_view().len());
    let dot: String = generate_dot(&hosts, &links);
    assert(hosts@.len() * (hosts@.len() - 1) <= 158 * 157) by (nonlinear_arith)
        requires
            0 < hosts@.len() <= 158,
    ;
    report(&hosts, links, dot)
}

// ---------------------------------------------------------------------------
// Writing a graph
// ---------------------------------------------------------------------------

/// The number of nodes for which there is an identifier of one character.
pub const MAX_DOT_NODES: usize = 158;

/// The identifier of the node at position `i`: one character, from `a` on.
pub open spec fn node_id(i: int) -> Seq<char> {
    seq![(97 + i) as char]
}

/// The identifier of the last node of that name, or a question mark.
pub open spec fn id_of(nodes: Seq<Seq<char>>, name: Seq<char>) -> Seq<char>
    decreases nodes.len(),
{
    if nodes.len() == 0 {
        "?"@
    } else if nodes.last() == name {
        node_id(nodes.len() - 1)
    } else {
        id_of(nodes.drop_last(), name)
    }
}

/// The line that declares a node.
pub open spec fn node_line(id: Seq<char>, name: Seq<char>) -> Seq<char> {
    "  "@ + id + " [label=\""@ + name + "\"];\n"@
}

/// The line that declares a link.
pub open spec fn link_line(nodes: Seq<Seq<char>>, l: LinkView) -> Seq<char> {
    "  "@ + id_of(nodes, l.node_a) + " -- "@ + id_of(nodes, l.node_b) + " [label=\""@
        + text::without_prefix(l.device_a, "rdma_"@) + "/"@ + text::without_prefix(
        l.device_b,
        "rdma_"@,
    ) + "\"]\n"@
}

/// The lines that declare the first `k` nodes, behind `start`.
pub open spec fn node_lines(start: Seq<char>, nodes: Seq<Seq<char>>, k: nat) -> Seq<char>
    decreases k,
{
    if k == 0 {
        start
    } else {
        node_lines(start, nodes, (k - 1) as nat) + node_line(node_id(k - 1), nodes[k - 1])
    }
}

/// The lines that declare the first `k` links, behind `start`.
pub open spec fn link_lines(
    start: Seq<char>,
    nodes: Seq<Seq<char>>,
    links: Seq<LinkView>,
    k: nat,
) -> Seq<char>
    decreases k,
{
    if k == 0 {
        start
    } else {
        link_lines(start, nodes, links, (k - 1) as nat) + link_line(nodes, links[k - 1])
    }
}

/// The graph of the nodes and links.
pub open spec fn dot_of(nodes: Seq<Seq<char>>, links: Seq<LinkView>) -> Seq<char> {
    link_lines(
        node_lines("graph G {\n  node [shape=rectangle];\n"@, nodes, nodes.len()),
        nodes,
        links,
        links.len(),
    ) + "}\n"@
}

/// The identifier of the node at position `i`.
fn one_char_id(i: usize) -> (r: String)
    requires
        i < MAX_DOT_NODES,
    ensures
        r@ == node_id(i as int),
{
    let mut s: String = String::new();
    s.push((97u8 + i as u8) as char);
    assert(s@ =~= node_id(i as int));
    s
}

/// The identifier of the last node of that name, or a question mark.
fn find_id(nodes: &Vec<String>, name: &str) -> (r: String)
    requires
        nodes@.len() <= MAX_DOT_NODES,
    ensures
        r@ == id_of(nodes.deep_view(), name@),
{
    let ghost ns = nodes.deep_view();
    let mut i: usize = nodes.len();
    assert(ns.take(i as int) =~= ns);
    while i > 0
        invariant
            i <= nodes@.len() <= MAX_DOT_NODES,
            ns == nodes.deep_view(),
            id_of(ns, name@) == id_of(ns.take(i as int), name@),
        decreases i,
    {
        proof {
            assert(ns.take(i as int).last() == nodes@[i - 1]@);
            assert(ns.take(i as int).drop_last() =~= ns.take(i - 1));
        }
        if text::same(&nodes[i - 1], name) {
            return one_char_id(i - 1);
        }
        i = i - 1;
    }
    text::own("?")
}

/// The graph of the nodes and links.
pub fn generate_dot(nodes: &Vec<String>, links: &Vec<TopologyLink>) -> (r: String)
    requires
        nodes@.len() <= MAX_DOT_NODES,
    ensures
        r@ == dot_of(nodes.deep_view(), links.deep_view()),
{
    let ghost ns = nodes.deep_view();
    let ghost ls = links.deep_view();
    let mut dot: String = String::from_str("graph G {\n  node [shape=rectangle];\n");
    let ghost start = dot@;
    let mut i: usize = 0;
    while i < nodes.len()
        invariant
            i <= nodes@.len() <= MAX_DOT_NODES,
            ns == nodes.deep_view(),
            dot@ == node_lines(start, ns, i as nat),
        decreases nodes@.len() - i,
    {
        let mut line: String = String::from_str("  ");
        line.append(&one_char_id(i));
        line.append(" [label=\"");
        line.append(&nodes[i]);
        line.append("\"];\n");
        dot.append(&line);
        i = i + 1;
    }
    let ghost middle = dot@;
    let mut k: usize = 0;
    while k < links.len()
        invariant
            k <= links@.len(),
            nodes@.len() <= MAX_DOT_NODES,
            ns == nodes.deep_view(),
            ls == links.deep_view(),
            dot@ == link_lines(middle, ns, ls, k as nat),
        decreases links@.len() - k,
    {
        let l: &TopologyLink = &links[k];
        assert(ls[k as int] == l.deep_view());
        let mut line: String = String::from_str("  ");
        line.append(&find_id(nodes, &l.node_a));
        line.append(" -- ");
        line.append(&find_id(nodes, &l.node_b));
        line.append(" [label=\"");
        line.append(&text::drop_prefix(&l.device_a, "rdma_"));
        line.append("/");
        line.append(&text::drop_prefix(&l.device_b, "rdma_"));
        line.append("\"]\n");
        dot.append(&line);
        k = k + 1;
    }
    dot.append("}\n");
    dot
}

// ---------------------------------------------------------------------------
// The table
// ---------------------------------------------------------------------------

/// The width of the columns: that of the longest name in bytes, and six at
/// least.
pub open spec fn column_width(nodes: Seq<Seq<char>>) -> nat
    decreases nodes.len(),
{
    if nodes.len() == 0 {
        6
    } else {
        let w = column_width(nodes.drop_last());
        let n = vstd::utf8::encode_utf8(nodes.last()).len() as usize;
        if n > w {
            n as nat
        } else {
            w
        }
    }
}

/// The device at `a` of the last link between `a` and `b`.
pub open spec fn device_at(links: Seq<LinkView>, a: Seq<char>, b: Seq<char>) -> Option<Seq<char>>
    decreases links.len(),
{
    if links.len() == 0 {
        None
    } else if links.last().node_b == a && links.last().node_a == b {
        Some(links.last().device_b)
    } else if links.last().node_a == a && links.last().node_b == b {
        Some(links.last().device_a)
    } else {
        device_at(links.drop_last(), a, b)
    }
}

/// What the table shows for the link from `a` to `b`.
pub open spec fn cell(links: Seq<LinkView>, a: Seq<char>, b: Seq<char>) -> Seq<char> {
    if a == b {
        "—"@
    } else {
        match device_at(links, a, b) {
            Some(dev) => text::replaced(dev, "rdma_"@, ""@),
            None => "MISS"@,
        }
    }
}

/// The names of the first `k` nodes in columns, behind `start`.
pub open spec fn header_cells(start: Seq<char>, nodes: Seq<Seq<char>>, w: nat, k: nat) -> Seq<char>
    decreases k,
{
    if k == 0 {
        start
    } else {
        header_cells(start, nodes, w, (k - 1) as nat) + " "@ + text::right_aligned(nodes[k - 1], w)
    }
}

/// The cells from `a` to the first `k` nodes, behind `start`.
pub open spec fn row_cells(
    start: Seq<char>,
    a: Seq<char>,
    nodes: Seq<Seq<char>>,
    links: Seq<LinkView>,
    w: nat,
    k: nat,
) -> Seq<char>
    decreases k,
{
    if k == 0 {
        start
    } else {
        row_cells(start, a, nodes, links, w, (k - 1) as nat) + " "@ + text::right_aligned(
            cell(links, a, nodes[k - 1]),
            w,
        )
    }
}

/// The rows of the first `k` nodes, behind `start`.
pub open spec fn table_rows(
    start: Seq<char>,
    nodes: Seq<Seq<char>>,
    links: Seq<LinkView>,
    w: nat,
    k: nat,
) -> Seq<char>
    decreases k,
{
    if k == 0 {
        start
    } else {
        row_cells(
            table_rows(start, nodes, links, w, (k - 1) as nat) + text::right_aligned(
                nodes[k - 1],
                w,
            ),
            nodes[k - 1],
            nodes,
            links,
            w,
            nodes.len(),
        ) + "\n"@
    }
}

/// The lines on the first `k` missing links, behind `start`.
pub open spec fn missing_lines(
    start: Seq<char>,
    pairs: Seq<(Seq<char>, Seq<char>)>,
    k: nat,
) -> Seq<char>
    decreases k,
{
    if k == 0 {
        start
    } else {
        missing_lines(start, pairs, (k - 1) as nat) + "  "@ + pairs[k - 1].0 + " ↔ "@
            + pairs[k - 1].1 + " — add a TB5 cable\n"@
    }
}

/// The lines on the first `k` meshed subsets, behind `start`.
pub open spec fn subset_lines(start: Seq<char>, subsets: Seq<Seq<Seq<char>>>, k: nat) -> Seq<char>
    decreases k,
{
    if k == 0 {
        start
    } else {
        subset_lines(start, subsets, (k - 1) as nat) + "  "@ + text::joined(
            subsets[k - 1],
            ", "@,
        ) + " ("@ + text::dec(subsets[k - 1].len()) + " nodes)\n"@
    }
}

/// The adjacency matrix with its header.
pub open spec fn matrix(nodes: Seq<Seq<char>>, links: Seq<LinkView>) -> Seq<char> {
    let w = column_width(nodes);
    let header = header_cells(
        "=== CLUSTER TOPOLOGY ===\n\n"@ + text::right_aligned(""@, w),
        nodes,
        w,
        nodes.len(),
    ) + "\n"@;
    table_rows(header, nodes, links, w, nodes.len())
}

/// The matrix, then the count of links.
pub open spec fn with_count(
    nodes: Seq<Seq<char>>,
    links: Seq<LinkView>,
    ready: bool,
) -> Seq<char> {
    matrix(nodes, links) + "\n"@ + "Links: "@ + text::dec(links.len()) + "/"@ + text::dec(
        mesh_size(nodes.len() as int) as nat,
    ) + " | JACCL ready: "@ + (if ready {
        "YES"@
    } else {
        "NO"@
    }) + "\n"@
}

/// The count, then the missing links.
pub open spec fn with_missing(
    nodes: Seq<Seq<char>>,
    links: Seq<LinkView>,
    ready: bool,
    pairs: Seq<(Seq<char>, Seq<char>)>,
) -> Seq<char> {
    let head = with_count(nodes, links, ready);
    if pairs.len() == 0 {
        head
    } else {
        missing_lines(head + "\nMissing links:\n"@, pairs, pairs.len())
    }
}

/// The whole table.
pub open spec fn table_text(
    nodes: Seq<Seq<char>>,
    links: Seq<LinkView>,
    ready: bool,
    pairs: Seq<(Seq<char>, Seq<char>)>,
    subsets: Seq<Seq<Seq<char>>>,
) -> Seq<char> {
    let head = with_missing(nodes, links, ready, pairs);
    if ready || subsets.len() == 0 {
        head
    } else {
        subset_lines(head + "\nJACCL-ready subsets:\n"@, subsets, subsets.len())
    }
}

/// The width of the columns.
fn width_of(nodes: &Vec<String>) -> (r: usize)
    ensures
        r == column_width(nodes.deep_view()),
{
    let ghost ns = nodes.deep_view();
    let mut w: usize = 6;
    let mut i: usize = 0;
    while i < nodes.len()
        invariant
            i <= nodes@.len(),
            ns == nodes.deep_view(),
            w == column_width(ns.take(i as int)),
        decreases nodes@.len() - i,
    {
        proof {
            assert(ns.take(i + 1).last() == nodes@[i as int]@);
            assert(ns.take(i + 1).drop_last() =~= ns.take(i as int));
        }
        let n: usize = nodes[i].as_str().len();
        if n > w {
            w = n;
        }
        i = i + 1;
    }
    assert(ns.take(i as int) =~= ns);
    w
}

/// The device at `a` of the last link between `a` and `b`.
fn find_device(links: &Vec<TopologyLink>, a: &str, b: &str) -> (r: Option<String>)
    ensures
        r.deep_view() == device_at(links.deep_view(), a@, b@),
{
    let ghost ls = links.deep_view();
    let mut i: usize = links.len();
    assert(ls.take(i as int) =~= ls);
    while i > 0
        invariant
            i <= links@.len(),
            ls == links.deep_view(),
            device_at(ls, a@, b@) == device_at(ls.take(i as int), a@, b@),
        decreases i,
    {
        let l: &TopologyLink = &links[i - 1];
        proof {
            assert(ls.take(i as int).last() == l.deep_view());
            assert(ls.take(i as int).drop_last() =~= ls.take(i - 1));
        }
        if text::same(&l.node_b, a) && text::same(&l.node_a, b) {
            return Some(text::own(&l.device_b));
        }
        if text::same(&l.node_a, a) && text::same(&l.node_b, b) {
            return Some(text::own(&l.device_a));
        }
        i = i - 1;
    }
    None
}

/// What the table shows for the link from `a` to `b`.
fn cell_text(links: &Vec<TopologyLink>, a: &str, b: &str) -> (r: String)
    ensures
        r@ == cell(links.deep_view(), a@, b@),
{
    if text::same(a, b) {
        text::own("—")
    } else {
        match find_device(links, a, b) {
            Some(dev) => {
                proof {
                    reveal_strlit("rdma_");
                }
                text::replace(&dev, "rdma_", "")
            },
            None => text::own("MISS"),
        }
    }
}

/// The adjacency matrix with its header.
fn matrix_text(nodes: &Vec<String>, links: &Vec<TopologyLink>) -> (r: String)
    ensures
        r@ == matrix(nodes.deep_view(), links.deep_view()),
{
    let ghost ns = nodes.deep_view();
    let ghost ls = links.deep_view();
    let w: usize = width_of(nodes);
    let mut out: String = String::from_str("=== CLUSTER TOPOLOGY ===\n\n");
    out.append(&text::align_right("", w));
    let ghost start = out@;
    let mut i: usize = 0;
    while i < nodes.len()
        invariant
            i <= nodes@.len(),
            ns == nodes.deep_view(),
            out@ == header_cells(start, ns, w as nat, i as nat),
        decreases nodes@.len() - i,
    {
        out.append(" ");
        out.append(&text::align_right(&nodes[i], w));
        i = i + 1;
    }
    out.append("\n");
    let ghost header = out@;
    let mut i: usize = 0;
    while i < nodes.len()
        invariant
            i <= nodes@.len(),
            ns == nodes.deep_view(),
            ls == links.deep_view(),
            out@ == table_rows(header, ns, ls, w as nat, i as nat),
        decreases nodes@.len() - i,
    {
        out.append(&text::align_right(&nodes[i], w));
        let ghost row = out@;
        let mut j: usize = 0;
        while j < nodes.len()
            invariant
                i < nodes@.len(),
                j <= nodes@.len(),
                ns == nodes.deep_view(),
                ls == links.deep_view(),
                out@ == row_cells(row, ns[i as int], ns, ls, w as nat, j as nat),
            decreases nodes@.len() - j,
        {
            out.append(" ");
            out.append(&text::align_right(&cell_text(links, &nodes[i], &nodes[j]), w));
            j = j + 1;
        }
        out.append("\n");
        i = i + 1;
    }
    out
}

/// Formats the report as a table for people.
pub fn format_table(report: &TopologyReport) -> (r: String)
    requires
        report.nodes@.len() > 0,
        report.nodes@.len() * (report.nodes@.len() - 1) <= usize::MAX,
    ensures
        r@ == table_text(
            report.nodes.deep_view(),
            report.links.deep_view(),
            report.jaccl_ready,
            report.missing_links.deep_view(),
            report.jaccl_ready_subsets.deep_view(),
        ),
{
    let mut out: String = matrix_text(&report.nodes, &report.links);
    out.append("\n");
    out.append("Links: ");
    out.append(&text::decimal(report.links.len() as u64));
    out.append("/");
    out.append(&text::decimal(expected_links(report.nodes.len()) as u64));
    out.append(" | JACCL ready: ");
    if report.jaccl_ready {
        out.append("YES");
    } else {
        out.append("NO");
    }
    out.append("\n");
    let ghost pairs = report.missing_links.deep_view();
    if report.missing_links.len() > 0 {
        out.append("\nMissing links:\n");
        let ghost start = out@;
        let mut i: usize = 0;
        while i < report.missing_links.len()
            invariant
                i <= report.missing_links@.len(),
                pairs == report.missing_links.deep_view(),
                out@ == missing_lines(start, pairs, i as nat),
            decreases report.missing_links@.len() - i,
        {
            let pair: &(String, String) = &report.missing_links[i];
            assert(pairs[i as int] == pair.deep_view());
            out.append("  ");
            out.append(&pair.0);
            out.append(" ↔ ");
            out.append(&pair.1);
            out.append(" — add a TB5 cable\n");
            i = i + 1;
        }
    }
    let ghost subsets = report.jaccl_ready_subsets.deep_view();
    if !report.jaccl_ready && report.jaccl_ready_subsets.len() > 0 {
        out.append("\nJACCL-ready subsets:\n");
        let ghost start = out@;
        let mut i: usize = 0;
        while i < report.jaccl_ready_subsets.len()
            invariant
                i <= report.jaccl_ready_subsets@.len(),
                subsets == report.jaccl_ready_subsets.deep_view(),
                out@ == subset_lines(start, subsets, i as nat),
            decreases report.jaccl_ready_subsets@.len() - i,
        {
            let s: &Vec<String> = &report.jaccl_ready_subsets[i];
            assert(subsets[i as int] == s.deep_view());
            out.append("  ");
            out.append(&text::join(s, ", "));
            out.append(" (");
            out.append(&text::decimal(s.len() as u64));
            out.append(" nodes)\n");
            i = i + 1;
        }
    }
    out
}

// ---------------------------------------------------------------------------
// What the reports promise
// ---------------------------------------------------------------------------

/// The row lists a pair exactly where no link joins the two nodes.
proof fn missing_row_lists(
    nodes: Seq<Seq<char>>,
    links: Seq<LinkView>,
    i: int,
    j: int,
)
    ensures
        missing_row(nodes, links, i, j).len() == 0 <==> forall|q: int|
            j <= q < nodes.len() ==> connected(links, nodes[i], #[trigger] nodes[q]),
    decreases nodes.len() - j,
{
    if j < nodes.len() {
        missing_row_lists(nodes, links, i, j + 1);
    }
}

/// Nothing is missing exactly where every two nodes are connected.
proof fn missing_pairs_list(nodes: Seq<Seq<char>>, links: Seq<LinkView>, i: int)
    requires
        0 <= i,
    ensures
        missing_pairs(nodes, links, i).len() == 0 <==> forall|p: int, q: int|
            i <= p < q < nodes.len() ==> connected(links, #[trigger] nodes[p], #[trigger] nodes[q]),
    decreases nodes.len() - i,
{
    if i < nodes.len() {
        missing_pairs_list(nodes, links, i + 1);
        missing_row_lists(nodes, links, i, i + 1);
    }
}

/// The mesh is complete exactly where every two nodes are connected, in
/// whatever order they are listed.
pub proof fn complete_is_full_mesh(nodes: Seq<Seq<char>>, links: Seq<LinkView>)
    ensures
        missing_pairs(nodes, links, 0).len() == 0 <==> full_mesh(nodes, links),
{
    missing_pairs_list(nodes, links, 0);
}

/// Whether two nodes are connected does not depend on which is named first.
pub proof fn connection_is_symmetric(links: Seq<LinkView>, x: Seq<char>, y: Seq<char>)
    ensures
        connected(links, x, y) == connected(links, y, x),
{
    if connected(links, x, y) {
        let i = choose|i: int| 0 <= i < links.len() && joins(#[trigger] links[i], x, y);
        assert(joins(links[i], y, x));
    }
    if connected(links, y, x) {
        let i = choose|i: int| 0 <= i < links.len() && joins(#[trigger] links[i], y, x);
        assert(joins(links[i], x, y));
    }
}

/// Some link has the two names at its ends.
pub open spec fn link_found(links: Seq<LinkView>, x: Seq<char>, y: Seq<char>) -> bool {
    exists|i: int|
        0 <= i < links.len() && ({
            let l = #[trigger] links[i];
            (l.node_a == x && l.node_b == y) || (l.node_a == y && l.node_b == x)
        })
}

/// Two nodes are connected where some link has them at its ends.
proof fn connected_by_link(links: Seq<LinkView>, x: Seq<char>, y: Seq<char>)
    ensures
        connected(links, x, y) == link_found(links, x, y),
{
    if connected(links, x, y) {
        let i = choose|i: int| 0 <= i < links.len() && joins(#[trigger] links[i], x, y);
        assert(links[i] == links[i]);
        assert(link_found(links, x, y));
    }
    if link_found(links, x, y) {
        let i = choose|i: int|
            0 <= i < links.len() && ({
                let l = #[trigger] links[i];
                (l.node_a == x && l.node_b == y) || (l.node_a == y && l.node_b == x)
            });
        assert(joins(links[i], x, y));
    }
}

/// The pair is one of a node and a later one to which no link leads.
spec fn row_pair(
    nodes: Seq<Seq<char>>,
    links: Seq<LinkView>,
    i: int,
    j: int,
    pair: (Seq<char>, Seq<char>),
) -> bool {
    exists|q: int|
        j <= q < nodes.len() && pair == (nodes[i], #[trigger] nodes[q]) && !link_found(
            links,
            nodes[i],
            nodes[q],
        )
}

/// The partners of a node that are missing are those to which no link leads.
proof fn missing_row_is_exact(nodes: Seq<Seq<char>>, links: Seq<LinkView>, i: int, j: int)
    requires
        0 <= i < j,
    ensures
        forall|q: int|
            j <= q < nodes.len() && !link_found(links, nodes[i], #[trigger] nodes[q])
                ==> missing_row(nodes, links, i, j).contains((nodes[i], nodes[q])),
        forall|m: int|
            0 <= m < missing_row(nodes, links, i, j).len() ==> row_pair(
                nodes,
                links,
                i,
                j,
                #[trigger] missing_row(nodes, links, i, j)[m],
            ),
    decreases nodes.len() - j,
{
    if j < nodes.len() {
        missing_row_is_exact(nodes, links, i, j + 1);
        connected_by_link(links, nodes[i], nodes[j]);
        let rest = missing_row(nodes, links, i, j + 1);
        let now = missing_row(nodes, links, i, j);
        assert forall|q: int|
            j <= q < nodes.len() && !link_found(
                links,
                nodes[i],
                #[trigger] nodes[q],
            ) implies now.contains((nodes[i], nodes[q])) by {
            if q == j {
                assert(now[0] == (nodes[i], nodes[q]));
            } else {
                let m = choose|m: int| 0 <= m < rest.len() && rest[m] == (nodes[i], nodes[q]);
                if connected(links, nodes[i], nodes[j]) {
                    assert(now[m] == rest[m]);
                } else {
                    assert(now[m + 1] == rest[m]);
                }
            }
        }
        assert forall|m: int| 0 <= m < now.len() implies row_pair(
            nodes,
            links,
            i,
            j,
            #[trigger] now[m],
        ) by {
            if connected(links, nodes[i], nodes[j]) {
                let q = choose|q: int|
                    j + 1 <= q < nodes.len() && rest[m] == (nodes[i], #[trigger] nodes[q])
                        && !link_found(links, nodes[i], nodes[q]);
                assert(now[m] == (nodes[i], nodes[q]));
            } else if m == 0 {
                assert(now[m] == (nodes[i], nodes[j]));
            } else {
                assert(now[m] == rest[m - 1]);
                let q = choose|q: int|
                    j + 1 <= q < nodes.len() && rest[m - 1] == (nodes[i], #[trigger] nodes[q])
                        && !link_found(links, nodes[i], nodes[q]);
                assert(now[m] == (nodes[i], nodes[q]));
            }
        }
    }
}

/// The pair is one of two nodes, the one that is listed first at the front,
/// that no link joins.
pub open spec fn unlinked_pair(
    nodes: Seq<Seq<char>>,
    links: Seq<LinkView>,
    from: int,
    pair: (Seq<char>, Seq<char>),
) -> bool {
    exists|p: int, q: int|
        from <= p < q < nodes.len() && pair == (#[trigger] nodes[p], #[trigger] nodes[q])
            && !link_found(links, nodes[p], nodes[q])
}

/// What is missing from a row on is what no link joins.
proof fn missing_is_exact_from(nodes: Seq<Seq<char>>, links: Seq<LinkView>, i: int)
    requires
        0 <= i,
    ensures
        forall|p: int, q: int|
            i <= p < q < nodes.len() && !link_found(
                links,
                #[trigger] nodes[p],
                #[trigger] nodes[q],
            ) ==> missing_pairs(nodes, links, i).contains((nodes[p], nodes[q])),
        forall|m: int|
            0 <= m < missing_pairs(nodes, links, i).len() ==> unlinked_pair(
                nodes,
                links,
                i,
                #[trigger] missing_pairs(nodes, links, i)[m],
            ),
    decreases nodes.len() - i,
{
    if i < nodes.len() {
        missing_is_exact_from(nodes, links, i + 1);
        missing_row_is_exact(nodes, links, i, i + 1);
        let row = missing_row(nodes, links, i, i + 1);
        let rest = missing_pairs(nodes, links, i + 1);
        let now = missing_pairs(nodes, links, i);
        assert forall|p: int, q: int|
            i <= p < q < nodes.len() && !link_found(
                links,
                #[trigger] nodes[p],
                #[trigger] nodes[q],
            ) implies now.contains((nodes[p], nodes[q])) by {
            if p == i {
                let m = choose|m: int| 0 <= m < row.len() && row[m] == (nodes[p], nodes[q]);
                assert(now[m] == row[m]);
            } else {
                let m = choose|m: int| 0 <= m < rest.len() && rest[m] == (nodes[p], nodes[q]);
                assert(now[row.len() + m] == rest[m]);
            }
        }
        assert forall|m: int| 0 <= m < now.len() implies unlinked_pair(
            nodes,
            links,
            i,
            #[trigger] now[m],
        ) by {
            if m < row.len() {
                assert(now[m] == row[m]);
                let q = choose|q: int|
                    i + 1 <= q < nodes.len() && row[m] == (nodes[i], #[trigger] nodes[q])
                        && !link_found(links, nodes[i], nodes[q]);
                assert(now[m] == (nodes[i], nodes[q]));
            } else {
                assert(now[m] == rest[m - row.len()]);
                let (p, q) = choose|p: int, q: int|
                    i + 1 <= p < q < nodes.len() && rest[m - row.len()] == (
                        #[trigger] nodes[p],
                        #[trigger] nodes[q],
                    ) && !link_found(links, nodes[p], nodes[q]);
                assert(now[m] == (nodes[p], nodes[q]));
            }
        }
    }
}

/// A report tells the truth of its nodes and links: the missing links are the
/// pairs of nodes that no link joins, the mesh is complete where every two
/// nodes are joined, and it is ready where it is complete and has as many links
/// as pairs of nodes.
pub proof fn report_tells_the_mesh(
    r: TopologyReport,
    nodes: Seq<Seq<char>>,
    links: Seq<LinkView>,
    dot: Seq<char>,
)
    requires
        report_on(r, nodes, links, dot),
    ensures
        r.nodes.deep_view() == nodes,
        r.links.deep_view() == links,
        r.raw_dot@ == dot,
        forall|p: int, q: int|
            0 <= p < q < nodes.len() && !link_found(links, #[trigger] nodes[p], #[trigger] nodes[q])
                ==> r.missing_links.deep_view().contains((nodes[p], nodes[q])),
        forall|m: int|
            0 <= m < r.missing_links.deep_view().len() ==> unlinked_pair(
                nodes,
                links,
                0,
                #[trigger] r.missing_links.deep_view()[m],
            ),
        r.mesh_complete <==> forall|p: int, q: int|
            0 <= p < q < nodes.len() ==> link_found(links, #[trigger] nodes[p], #[trigger] nodes[q]),
        r.jaccl_ready <==> r.mesh_complete && 2 * links.len() >= nodes.len() * (nodes.len() - 1),
{
    missing_is_exact_from(nodes, links, 0);
    complete_is_full_mesh(nodes, links);
    assert forall|p: int, q: int| 0 <= p < q < nodes.len() implies connected(
        links,
        #[trigger] nodes[p],
        #[trigger] nodes[q],
    ) == link_found(links, nodes[p], nodes[q]) by {
        connected_by_link(links, nodes[p], nodes[q]);
    }
    if r.mesh_complete {
        assert forall|p: int, q: int| 0 <= p < q < nodes.len() implies link_found(
            links,
            #[trigger] nodes[p],
            #[trigger] nodes[q],
        ) by {
            assert(connected(links, nodes[p], nodes[q]));
        }
    } else {
        let m = 0int;
        assert(unlinked_pair(nodes, links, 0, missing_pairs(nodes, links, 0)[m]));
    }
    let n = nodes.len() as int;
    assert((n * (n - 1)) % 2 == 0) by {
        product_is_even(n);
    }
}

/// The product of two numbers in a row is even.
proof fn product_is_even(n: int)
    ensures
        (n * (n - 1)) % 2 == 0,
{
    let k = n / 2;
    if n % 2 == 0 {
        assert(n * (n - 1) == 2 * (k * (n - 1))) by (nonlinear_arith)
            requires
                n == 2 * k,
        ;
    } else {
        assert(n * (n - 1) == 2 * (k * n)) by (nonlinear_arith)
            requires
                n == 2 * k + 1,
        ;
    }
}

/// What the table shows in the row of one node and the column of another is the
/// device that the first has on a link between them.
pub proof fn shown_device_is_the_row_nodes(links: Seq<LinkView>, a: Seq<char>, b: Seq<char>)
    ensures
        match device_at(links, a, b) {
            Some(d) => exists|i: int|
                0 <= i < links.len() && ({
                    let l = #[trigger] links[i];
                    ||| l.node_a == a && l.node_b == b && l.device_a == d
                    ||| l.node_b == a && l.node_a == b && l.device_b == d
                }),
            None => !link_found(links, a, b),
        },
    decreases links.len(),
{
    if links.len() > 0 {
        shown_device_is_the_row_nodes(links.drop_last(), a, b);
        let l = links.last();
        let k = links.len() - 1;
        assert(links[k] == l);
        if (l.node_b == a && l.node_a == b) || (l.node_a == a && l.node_b == b) {
        } else {
            if let Some(d) = device_at(links, a, b) {
                let i = choose|i: int|
                    0 <= i < links.drop_last().len() && ({
                        let l = #[trigger] links.drop_last()[i];
                        ||| l.node_a == a && l.node_b == b && l.device_a == d
                        ||| l.node_b == a && l.node_a == b && l.device_b == d
                    });
                assert(links[i] == links.drop_last()[i]);
            } else if link_found(links, a, b) {
                let i = choose|i: int|
                    0 <= i < links.len() && ({
                        let l = #[trigger] links[i];
                        (l.node_a == a && l.node_b == b) || (l.node_a == b && l.node_b == a)
                    });
                assert(links.drop_last()[i] == links[i]);
            }
        }
    }
}

/// A link is written as the two identifiers of its nodes and the interfaces of
/// their devices, in the same order.
pub proof fn link_is_written_in_order(
    nodes: Seq<Seq<char>>,
    a: Seq<char>,
    e: Seq<char>,
    b: Seq<char>,
    f: Seq<char>,
)
    ensures
        link_line(
            nodes,
            LinkView {
                node_a: a,
                device_a: "rdma_"@ + e,
                node_b: b,
                device_b: "rdma_"@ + f,
            },
        ) == "  "@ + id_of(nodes, a) + " -- "@ + id_of(nodes, b) + " [label=\""@ + e + "/"@ + f
            + "\"]\n"@,
{
    let p = "rdma_"@;
    assert((p + e).take(p.len() as int) =~= p);
    assert((p + f).take(p.len() as int) =~= p);
    assert((p + e).skip(p.len() as int) =~= e);
    assert((p + f).skip(p.len() as int) =~= f);
}

/// The identifier of a node that is listed once is the letter of its place.
pub proof fn nodes_have_letters(nodes: Seq<Seq<char>>, i: int)
    requires
        0 <= i < nodes.len(),
        nodes.no_duplicates(),
    ensures
        id_of(nodes, nodes[i]) == seq![(97 + i) as char],
    decreases nodes.len(),
{
    if i < nodes.len() - 1 {
        assert(nodes.last() != nodes[i]);
        assert(nodes.drop_last()[i] == nodes[i]);
        nodes_have_letters(nodes.drop_last(), i);
    }
}

/// A line of `arp -an` gives the address in its brackets and the interface
/// behind `on`, unless the address is not resolved or the interface is a
/// bridge.
#[verifier::rlimit(60)]
pub proof fn arp_line_is_read(
    ip: Seq<char>,
    mac: Seq<char>,
    iface: Seq<char>,
    rest: Seq<char>,
)
    requires
        ip.len() > 0,
        forall|i: int|
            0 <= i < ip.len() ==> !text::is_space(#[trigger] ip[i]) && ip[i] != '(' && ip[i] != ')',
        mac.len() > 0,
        forall|i: int| 0 <= i < mac.len() ==> !text::is_space(#[trigger] mac[i]),
        iface.len() > 0,
        forall|i: int| 0 <= i < iface.len() ==> !text::is_space(#[trigger] iface[i]),
        rest.len() > 0 ==> text::is_space(rest[0]),
    ensures
        arp_peer("? ("@ + ip + ") at "@ + mac + " on "@ + iface + rest) == (if mac
            == "(incomplete)"@ || text::starts(iface, "bridge"@) {
            None::<(Seq<char>, Seq<char>)>
        } else {
            Some((ip, iface))
        }),
{
    let line = "? ("@ + ip + ") at "@ + mac + " on "@ + iface + rest;
    let w0 = seq!['?'];
    let w1 = seq!['('] + ip + seq![')'];
    let w2 = seq!['a', 't'];
    let w4 = seq!['o', 'n'];
    arp_line_is_words(ip, mac, iface, rest);
    assert forall|i: int| 0 <= i < w1.len() implies !text::is_space(#[trigger] w1[i]) by {
        if 0 < i < w1.len() - 1 {
            assert(w1[i] == ip[i - 1]);
        }
    }
    words_in_a_row(w0, w1, w2, mac, w4, iface, rest);
    let words = text::words_of(line);
    assert(words[1] == w1 && words[3] == mac && words[5] == iface);
    brackets_are_taken(ip);
}

/// Words with a blank before each but the first.
spec fn spaced(
    w0: Seq<char>,
    w1: Seq<char>,
    w2: Seq<char>,
    w3: Seq<char>,
    w4: Seq<char>,
    w5: Seq<char>,
    rest: Seq<char>,
) -> Seq<char> {
    w0 + (seq![' '] + w1 + (seq![' '] + w2 + (seq![' '] + w3 + (seq![' '] + w4 + (seq![' '] + w5
        + rest)))))
}

/// The line of an entry is made of its words.
proof fn arp_line_is_words(ip: Seq<char>, mac: Seq<char>, iface: Seq<char>, rest: Seq<char>)
    ensures
        "? ("@ + ip + ") at "@ + mac + " on "@ + iface + rest == spaced(
            seq!['?'],
            seq!['('] + ip + seq![')'],
            seq!['a', 't'],
            mac,
            seq!['o', 'n'],
            iface,
            rest,
        ),
{
    reveal_strlit("? (");
    reveal_strlit(") at ");
    reveal_strlit(" on ");
    let line = "? ("@ + ip + ") at "@ + mac + " on "@ + iface + rest;
    let r4 = seq![' '] + iface + rest;
    let r3 = seq![' ', 'o', 'n'] + r4;
    let r2 = seq![' '] + mac + r3;
    assert(seq![' '] + seq!['o', 'n'] + r4 =~= r3);
    assert(" on "@ + iface + rest =~= r3);
    assert(mac + " on "@ + iface + rest =~= mac + (" on "@ + iface + rest));
    assert(") at "@ + mac + " on "@ + iface + rest =~= seq![')', ' ', 'a', 't'] + r2);
    assert(line =~= "? ("@ + ip + (") at "@ + mac + " on "@ + iface + rest));
    let r1 = seq![' '] + seq!['a', 't'] + r2;
    assert(seq![')', ' ', 'a', 't'] + r2 =~= seq![')'] + r1);
    assert("? ("@ + ip + (seq![')'] + r1) =~= seq!['?'] + (seq![' '] + (seq!['('] + ip + seq![')'])
        + r1));
}

/// Words with a blank before each but the first are read one by one.
#[verifier::rlimit(60)]
proof fn words_in_a_row(
    w0: Seq<char>,
    w1: Seq<char>,
    w2: Seq<char>,
    w3: Seq<char>,
    w4: Seq<char>,
    w5: Seq<char>,
    rest: Seq<char>,
)
    requires
        w0.len() > 0 && forall|i: int| 0 <= i < w0.len() ==> !text::is_space(#[trigger] w0[i]),
        w1.len() > 0 && forall|i: int| 0 <= i < w1.len() ==> !text::is_space(#[trigger] w1[i]),
        w2.len() > 0 && forall|i: int| 0 <= i < w2.len() ==> !text::is_space(#[trigger] w2[i]),
        w3.len() > 0 && forall|i: int| 0 <= i < w3.len() ==> !text::is_space(#[trigger] w3[i]),
        w4.len() > 0 && forall|i: int| 0 <= i < w4.len() ==> !text::is_space(#[trigger] w4[i]),
        w5.len() > 0 && forall|i: int| 0 <= i < w5.len() ==> !text::is_space(#[trigger] w5[i]),
        rest.len() > 0 ==> text::is_space(rest[0]),
    ensures
        text::words_of(spaced(w0, w1, w2, w3, w4, w5, rest)) == seq![w0, w1, w2, w3, w4, w5]
            + text::words_of(rest),
{
    let blank = seq![' '];
    let r4 = blank + w5 + rest;
    let r3 = blank + w4 + r4;
    let r2 = blank + w3 + r3;
    let r1 = blank + w2 + r2;
    let r0 = blank + w1 + r1;
    text::words_come_one_by_one(blank, w5, rest);
    text::words_come_one_by_one(blank, w4, r4);
    text::words_come_one_by_one(blank, w3, r3);
    text::words_come_one_by_one(blank, w2, r2);
    text::words_come_one_by_one(blank, w1, r1);
    text::words_come_one_by_one(Seq::empty(), w0, r0);
    assert(Seq::<char>::empty() + w0 + r0 =~= w0 + r0);
    assert(text::words_of(w0 + r0) =~= seq![w0, w1, w2, w3, w4, w5] + text::words_of(rest));
}

/// A text without brackets comes out of a pair of them.
proof fn brackets_are_taken(ip: Seq<char>)
    requires
        ip.len() > 0,
        forall|i: int| 0 <= i < ip.len() ==> ip[i] != '(' && ip[i] != ')',
    ensures
        unbracketed(seq!['('] + ip + seq![')']) == ip,
{
    let s = seq!['('] + ip + seq![')'];
    let t = ip + seq![')'];
    assert(s.drop_first() =~= t);
    assert(t[0] == ip[0]);
    assert(lead_brackets(t) == 0);
    assert(lead_brackets(s) == 1);
    assert(s.skip(1) =~= t);
    assert(t.drop_last() =~= ip);
    assert(trim_end_brackets(ip) == ip);
}

/// Some line gives the peer.
pub open spec fn seen_in(lines: Seq<Seq<char>>, p: (Seq<char>, Seq<char>)) -> bool {
    exists|i: int| 0 <= i < lines.len() && arp_peer(#[trigger] lines[i]) == Some(p)
}

/// The peers of a node are those that the lines give.
pub proof fn peers_come_from_lines(lines: Seq<Seq<char>>)
    ensures
        forall|i: int|
            0 <= i < lines.len() ==> (match arp_peer(#[trigger] lines[i]) {
                Some(p) => arp_peers(lines).contains(p),
                None => true,
            }),
        forall|m: int|
            0 <= m < arp_peers(lines).len() ==> seen_in(lines, #[trigger] arp_peers(lines)[m]),
    decreases lines.len(),
{
    if lines.len() > 0 {
        let front = lines.drop_last();
        let rest = arp_peers(front);
        let now = arp_peers(lines);
        peers_come_from_lines(front);
        assert forall|i: int| 0 <= i < lines.len() implies (match arp_peer(#[trigger] lines[i]) {
            Some(p) => now.contains(p),
            None => true,
        }) by {
            if let Some(p) = arp_peer(lines[i]) {
                if i < front.len() {
                    assert(front[i] == lines[i]);
                    let m = choose|m: int| 0 <= m < rest.len() && rest[m] == p;
                    assert(now[m] == p);
                } else {
                    assert(now.last() == p);
                }
            }
        }
        assert forall|m: int| 0 <= m < now.len() implies seen_in(lines, #[trigger] now[m]) by {
            if m < rest.len() {
                assert(now[m] == rest[m]);
                let i = choose|i: int|
                    0 <= i < front.len() && arp_peer(#[trigger] front[i]) == Some(rest[m]);
                assert(lines[i] == front[i]);
            } else {
                assert(arp_peer(lines[lines.len() - 1]) == Some(now[m]));
            }
        }
    }
}

/// The head of an interface in the output of `ifconfig` names it up to its
/// colon; an indented line is about the same interface as the one before.
pub proof fn head_names_interface(
    current: Seq<char>,
    name: Seq<char>,
    flags: Seq<char>,
    detail: Seq<char>,
)
    requires
        name.len() > 0,
        !name.contains(':'),
        name[0] != '\t' && name[0] != ' ',
    ensures
        interface_after(current, name + seq![':'] + flags) == name,
        interface_after(current, seq!['\t'] + detail) == current,
        interface_after(current, seq![' '] + detail) == current,
{
    reveal_strlit("\t");
    reveal_strlit(" ");
    let first = name + seq![':'] + flags;
    text::split_at_first(name, ':', flags);
    assert(first.take(1)[0] == name[0]);
    assert((seq!['\t'] + detail).take(1) =~= "\t"@);
    assert((seq![' '] + detail).take(1) =~= " "@);
}

/// The address in a line of `ifconfig` is its second word.
pub proof fn inet_line_is_read(ip: Seq<char>, rest: Seq<char>)
    requires
        ip.len() > 0,
        forall|i: int| 0 <= i < ip.len() ==> !text::is_space(#[trigger] ip[i]),
        rest.len() > 0 ==> text::is_space(rest[0]),
    ensures
        text::nth_word(
            seq!['\t'] + (seq!['i', 'n', 'e', 't'] + (seq![' '] + ip + rest)),
            1,
        ) == Some(ip),
{
    let word = seq!['i', 'n', 'e', 't'];
    let behind = seq![' '] + ip + rest;
    let line = seq!['\t'] + (word + behind);
    assert(seq!['\t'] + word + behind =~= line);
    text::words_come_one_by_one(seq![' '], ip, rest);
    text::words_come_one_by_one(seq!['\t'], word, behind);
    assert(text::words_of(line) == seq![word] + (seq![ip] + text::words_of(rest)));
}

/// A line with a link-local address holds its mark.
proof fn inet_line_is_marked(ip: Seq<char>, rest: Seq<char>)
    requires
        text::starts(ip, "169.254."@),
    ensures
        text::has(
            seq!['\t'] + (seq!['i', 'n', 'e', 't'] + (seq![' '] + ip + rest)),
            "inet 169.254."@,
        ),
{
    let line = seq!['\t'] + (seq!['i', 'n', 'e', 't'] + (seq![' '] + ip + rest));
    link_local_mark();
    let head = seq!['i', 'n', 'e', 't', ' '] + ip.take(8);
    assert(line.subrange(1, 14) =~= head);
    assert(text::occurs_at(line, "inet 169.254."@, 1));
}

/// The mark of a link-local address is the beginning of one behind its label.
proof fn link_local_mark()
    ensures
        "169.254."@.len() == 8,
        "inet 169.254."@.len() == 13,
        "inet 169.254."@ == seq!['i', 'n', 'e', 't', ' '] + "169.254."@,
{
    reveal_strlit("169.254.");
    reveal_strlit("inet 169.254.");
    assert("inet 169.254."@ =~= seq!['i', 'n', 'e', 't', ' '] + "169.254."@);
}

/// A link-local address is that of the interface whose head came last, unless
/// it is a loopback or a bridge, and the addresses of other interfaces stay.
pub proof fn address_is_of_its_interface(st: AddressesView, ip: Seq<char>, rest: Seq<char>)
    requires
        table::ordered(st.found),
        st.current.len() > 0,
        text::starts(ip, "169.254."@),
        forall|i: int| 0 <= i < ip.len() ==> !text::is_space(#[trigger] ip[i]),
        rest.len() > 0 ==> text::is_space(rest[0]),
    ensures
        ({
            let line = seq!['\t'] + (seq!['i', 'n', 'e', 't'] + (seq![' '] + ip + rest));
            let now = address_step(st, line);
            let left_out = text::starts(st.current, "lo"@) || text::starts(st.current, "bridge"@);
            &&& now.current == st.current
            &&& !left_out ==> table::lookup(now.found, st.current) == Some(ip)
            &&& left_out ==> now.found == st.found
            &&& forall|other: Seq<char>|
                other != st.current ==> table::lookup(now.found, other) == #[trigger] table::lookup(
                    st.found,
                    other,
                )
        }),
{
    link_local_mark();
    inet_line_is_read(ip, rest);
    inet_line_is_marked(ip, rest);
    head_names_interface(
        st.current,
        seq!['x'],
        Seq::empty(),
        seq!['i', 'n', 'e', 't'] + (seq![' '] + ip + rest),
    );
    table::with_entry_sets(st.found, st.current, ip);
}

/// Whether an option with its value stands among arguments.
pub open spec fn option_given(args: Seq<Seq<char>>, key: Seq<char>, value: Seq<char>) -> bool {
    exists|i: int| 0 <= i < args.len() - 1 && #[trigger] args[i] == key && args[i + 1] == value
}

/// The program is asked about all hosts over their cables, and for what was
/// wanted of it, where it was wanted.
#[verifier::rlimit(60)]
pub proof fn all_hosts_are_asked_about(hosts: Seq<Seq<char>>, task: ConfigTask)
    ensures
        ({
            let args = config_args(hosts, task);
            &&& option_given(args, "--hosts"@, text::joined(hosts, ","@))
            &&& option_given(args, "--over"@, "thunderbolt"@)
            &&& match task {
                ConfigTask::Graph(backend) => args.last() == "--dot"@ && match backend {
                    Some(b) => option_given(args, "--backend"@, b@),
                    None => args.len() == 5,
                },
                ConfigTask::Hostfile { path } => option_given(args, "--backend"@, "jaccl"@)
                    && option_given(args, "--output-hostfile"@, path@) && args.contains(
                    "--ignore-unreachable"@,
                ),
                ConfigTask::Setup { backend, path } => option_given(args, "--backend"@, backend@)
                    && option_given(args, "--output-hostfile"@, path@) && args.contains(
                    "--auto-setup"@,
                ),
            }
        }),
{
    let args = config_args(hosts, task);
    match task {
        ConfigTask::Graph(backend) => {
            assert(args[0] == "--hosts"@ && args[2] == "--over"@);
            if backend is Some {
                assert(args[4] == "--backend"@);
            }
        },
        ConfigTask::Hostfile { path } => {
            assert(args[0] == "--hosts"@ && args[2] == "--over"@ && args[4] == "--backend"@
                && args[6] == "--output-hostfile"@ && args[8] == "--ignore-unreachable"@);
        },
        ConfigTask::Setup { backend, path } => {
            assert(args[1] == "--hosts"@ && args[3] == "--over"@ && args[5] == "--backend"@
                && args[7] == "--auto-setup"@ && args[8] == "--output-hostfile"@);
        },
    }
}

/// The rest of some lines starts at the first one that holds a text.
pub proof fn rest_starts_at_the_line(front: Seq<Seq<char>>, line: Seq<char>, back: Seq<Seq<char>>, p: Seq<char>)
    requires
        forall|i: int| 0 <= i < front.len() ==> !text::has(#[trigger] front[i], p),
        text::has(line, p),
    ensures
        from_line_with(front + seq![line] + back, p) == seq![line] + back,
    decreases front.len(),
{
    let all = front + seq![line] + back;
    if front.len() > 0 {
        let rest = front.drop_first();
        assert(all[0] == front[0]);
        assert(all.drop_first() =~= rest + seq![line] + back);
        assert forall|i: int| 0 <= i < rest.len() implies !text::has(#[trigger] rest[i], p) by {
            assert(rest[i] == front[i + 1]);
        }
        rest_starts_at_the_line(rest, line, back, p);
    } else {
        assert(all[0] == line);
        assert(all =~= seq![line] + back);
    }
}

/// A graph is read from what was printed, and from the complaints only where
/// nothing was printed.
pub proof fn printed_graph_is_preferred(stdout: Seq<char>, stderr: Seq<char>)
    ensures
        text::has(stdout, "graph G"@) ==> graph_text(stdout, stderr) == stdout,
        !text::has(stdout, "graph G"@) && !text::has(stderr, "graph G"@) ==> graph_text(
            stdout,
            stderr,
        ).len() == 0,
        graph_text(stderr, stdout) == stderr || !text::has(stderr, "graph G"@),
{
}

/// A text that stands in the front of another stands in the other.
proof fn stays_in_longer(s: Seq<char>, more: Seq<char>, p: Seq<char>)
    requires
        text::has(s, p),
    ensures
        text::has(s + more, p),
{
    let i = choose|i: int| text::occurs_at(s, p, i);
    assert((s + more).subrange(i, i + p.len()) =~= s.subrange(i, i + p.len()));
    assert(text::occurs_at(s + more, p, i));
}

/// A text that is put at an end stands in the whole.
proof fn stands_at_end(s: Seq<char>, p: Seq<char>)
    ensures
        text::has(s + p, p),
{
    let i = s.len() as int;
    assert((s + p).subrange(i, i + p.len()) =~= p);
    assert(text::occurs_at(s + p, p, i));
}

/// The parts of a text may be put together in any grouping.
proof fn regrouped(
    a: Seq<char>,
    b: Seq<char>,
    c: Seq<char>,
    d: Seq<char>,
    e: Seq<char>,
    f: Seq<char>,
    g: Seq<char>,
)
    ensures
        a + b + c + d + e + f == a + (b + c + d + e + f),
        a + b + c + d + e + f == a + b + (c + d + e) + f,
        a + b + c + d + e + f + g == a + b + (c + d + e + f) + g,
{
    assert(a + b + c + d + e + f =~= a + (b + c + d + e + f));
    assert(a + b + c + d + e + f =~= a + b + (c + d + e) + f);
    assert(a + b + c + d + e + f + g =~= a + b + (c + d + e + f) + g);
}

/// The line of a missing cable.
#[verifier::rlimit(60)]
proof fn missing_line_stands(start: Seq<char>, pairs: Seq<(Seq<char>, Seq<char>)>, k: nat, i: int)
    requires
        0 <= i < k <= pairs.len(),
    ensures
        text::has(missing_lines(start, pairs, k), pairs[i].0 + " ↔ "@ + pairs[i].1),
    decreases k,
{
    let p = pairs[i].0 + " ↔ "@ + pairs[i].1;
    let front = missing_lines(start, pairs, (k - 1) as nat);
    let all = missing_lines(start, pairs, k);
    let end = " — add a TB5 cable\n"@;
    let x = pairs[k - 1].0;
    let y = pairs[k - 1].1;
    assert(all == front + "  "@ + x + " ↔ "@ + y + end);
    regrouped(front, "  "@, x, " ↔ "@, y, end, end);
    if i < k - 1 {
        missing_line_stands(start, pairs, (k - 1) as nat, i);
        stays_in_longer(front, "  "@ + x + " ↔ "@ + y + end, p);
    } else {
        stands_at_end(front + "  "@, p);
        stays_in_longer(front + "  "@ + p, end, p);
    }
}

/// What was written first stays.
proof fn missing_lines_keep(start: Seq<char>, pairs: Seq<(Seq<char>, Seq<char>)>, k: nat, p: Seq<char>)
    requires
        text::has(start, p),
        k <= pairs.len(),
    ensures
        text::has(missing_lines(start, pairs, k), p),
    decreases k,
{
    if k > 0 {
        missing_lines_keep(start, pairs, (k - 1) as nat, p);
        let front = missing_lines(start, pairs, (k - 1) as nat);
        let more = "  "@ + pairs[k - 1].0 + " ↔ "@ + pairs[k - 1].1
            + " — add a TB5 cable\n"@;
        stays_in_longer(front, more, p);
        assert(front + more =~= missing_lines(start, pairs, k));
    }
}

/// What was written first stays.
proof fn subset_lines_keep(start: Seq<char>, subsets: Seq<Seq<Seq<char>>>, k: nat, p: Seq<char>)
    requires
        text::has(start, p),
        k <= subsets.len(),
    ensures
        text::has(subset_lines(start, subsets, k), p),
    decreases k,
{
    if k > 0 {
        subset_lines_keep(start, subsets, (k - 1) as nat, p);
        let front = subset_lines(start, subsets, (k - 1) as nat);
        let more = "  "@ + text::joined(subsets[k - 1], ", "@) + " ("@ + text::dec(
            subsets[k - 1].len(),
        ) + " nodes)\n"@;
        stays_in_longer(front, more, p);
        assert(front + more =~= subset_lines(start, subsets, k));
    }
}

/// The line of a subset.
#[verifier::rlimit(60)]
proof fn subset_line_stands(start: Seq<char>, subsets: Seq<Seq<Seq<char>>>, k: nat, i: int)
    requires
        0 <= i < k <= subsets.len(),
    ensures
        text::has(
            subset_lines(start, subsets, k),
            text::joined(subsets[i], ", "@) + " ("@ + text::dec(subsets[i].len()) + " nodes)"@,
        ),
    decreases k,
{
    let p = text::joined(subsets[i], ", "@) + " ("@ + text::dec(subsets[i].len()) + " nodes)"@;
    let front = subset_lines(start, subsets, (k - 1) as nat);
    let all = subset_lines(start, subsets, k);
    let x = text::joined(subsets[k - 1], ", "@);
    let n = text::dec(subsets[k - 1].len());
    assert(all == front + "  "@ + x + " ("@ + n + " nodes)\n"@);
    if i < k - 1 {
        subset_line_stands(start, subsets, (k - 1) as nat, i);
        regrouped(front, "  "@, x, " ("@, n, " nodes)\n"@, "\n"@);
        stays_in_longer(front, "  "@ + x + " ("@ + n + " nodes)\n"@, p);
    } else {
        nodes_line_ends();
        let cut = front + "  "@ + x + " ("@ + n;
        assert(cut + " nodes)\n"@ == cut + " nodes)"@ + "\n"@) by {
            assert(cut + (" nodes)"@ + "\n"@) =~= cut + " nodes)"@ + "\n"@);
        }
        regrouped(front, "  "@, x, " ("@, n, " nodes)"@, "\n"@);
        stands_at_end(front + "  "@, p);
        stays_in_longer(front + "  "@ + p, "\n"@, p);
    }
}

/// The line about a set ends with a new line.
proof fn nodes_line_ends()
    ensures
        " nodes)\n"@ == " nodes)"@ + "\n"@,
{
    reveal_strlit(" nodes)");
    reveal_strlit(" nodes)\n");
    reveal_strlit("\n");
    assert(" nodes)\n"@ =~= " nodes)"@ + "\n"@);
}

/// The table tells of every pair of nodes that no cable joins.
pub proof fn every_missing_cable_is_told(
    nodes: Seq<Seq<char>>,
    links: Seq<LinkView>,
    ready: bool,
    pairs: Seq<(Seq<char>, Seq<char>)>,
    subsets: Seq<Seq<Seq<char>>>,
    i: int,
)
    requires
        0 <= i < pairs.len(),
    ensures
        text::has(
            table_text(nodes, links, ready, pairs, subsets),
            pairs[i].0 + " ↔ "@ + pairs[i].1,
        ),
{
    let p = pairs[i].0 + " ↔ "@ + pairs[i].1;
    let start = with_count(nodes, links, ready) + "\nMissing links:\n"@;
    missing_line_stands(start, pairs, pairs.len(), i);
    let head = with_missing(nodes, links, ready, pairs);
    if !ready && subsets.len() > 0 {
        stays_in_longer(head, "\nJACCL-ready subsets:\n"@, p);
        subset_lines_keep(head + "\nJACCL-ready subsets:\n"@, subsets, subsets.len(), p);
    }
}

/// The table tells of every set of nodes that is ready, with its size, where
/// not all nodes are.
pub proof fn every_ready_set_is_told(
    nodes: Seq<Seq<char>>,
    links: Seq<LinkView>,
    pairs: Seq<(Seq<char>, Seq<char>)>,
    subsets: Seq<Seq<Seq<char>>>,
    i: int,
)
    requires
        0 <= i < subsets.len(),
    ensures
        text::has(
            table_text(nodes, links, false, pairs, subsets),
            text::joined(subsets[i], ", "@) + " ("@ + text::dec(subsets[i].len()) + " nodes)"@,
        ),
{
    let head = with_missing(nodes, links, false, pairs);
    subset_line_stands(head + "\nJACCL-ready subsets:\n"@, subsets, subsets.len(), i);
}

/// What is told below the table.
#[verifier::rlimit(60)]
proof fn count_tells(nodes: Seq<Seq<char>>, links: Seq<LinkView>, ready: bool)
    ensures
        text::has(
            with_count(nodes, links, ready),
            "Links: "@ + text::dec(links.len()) + "/"@ + text::dec(
                mesh_size(nodes.len() as int) as nat,
            ) + " | JACCL ready: "@ + (if ready {
                "YES"@
            } else {
                "NO"@
            }),
        ),
{
    let word = if ready {
        "YES"@
    } else {
        "NO"@
    };
    let m = text::dec(links.len());
    let n = text::dec(mesh_size(nodes.len() as int) as nat);
    let front = matrix(nodes, links) + "\n"@;
    let p = "Links: "@ + m + "/"@ + n + " | JACCL ready: "@ + word;
    grouped(front, "Links: "@, m, "/"@, n, " | JACCL ready: "@, word);
    stands_at_end(front, p);
    stays_in_longer(front + p, "\n"@, p);
}

/// The parts of a text may be put together in any grouping.
proof fn grouped(
    a: Seq<char>,
    b: Seq<char>,
    c: Seq<char>,
    d: Seq<char>,
    e: Seq<char>,
    f: Seq<char>,
    g: Seq<char>,
)
    ensures
        a + b + c + d + e + f + g == a + (b + c + d + e + f + g),
{
    assert(a + b + c + d + e + f + g =~= a + (b + c + d + e + f + g));
}

/// The table tells how many cables there are of how many, and whether all nodes
/// are ready.
#[verifier::rlimit(60)]
pub proof fn readiness_is_told(
    nodes: Seq<Seq<char>>,
    links: Seq<LinkView>,
    ready: bool,
    pairs: Seq<(Seq<char>, Seq<char>)>,
    subsets: Seq<Seq<Seq<char>>>,
)
    ensures
        text::has(
            table_text(nodes, links, ready, pairs, subsets),
            "Links: "@ + text::dec(links.len()) + "/"@ + text::dec(
                (nodes.len() * (nodes.len() - 1) / 2) as nat,
            ) + " | JACCL ready: "@ + (if ready {
                "YES"@
            } else {
                "NO"@
            }),
        ),
{
    let p = "Links: "@ + text::dec(links.len()) + "/"@ + text::dec(
        mesh_size(nodes.len() as int) as nat,
    ) + " | JACCL ready: "@ + (if ready {
        "YES"@
    } else {
        "NO"@
    });
    let count = with_count(nodes, links, ready);
    count_tells(nodes, links, ready);
    let head = with_missing(nodes, links, ready, pairs);
    if pairs.len() > 0 {
        stays_in_longer(count, "\nMissing links:\n"@, p);
        missing_lines_keep(count + "\nMissing links:\n"@, pairs, pairs.len(), p);
    }
    if !ready && subsets.len() > 0 {
        stays_in_longer(head, "\nJACCL-ready subsets:\n"@, p);
        subset_lines_keep(head + "\nJACCL-ready subsets:\n"@, subsets, subsets.len(), p);
    }
}

/// A cell shows a mark on the diagonal and a word where no cable is.
pub proof fn cell_shows_what_is_missing(links: Seq<LinkView>, a: Seq<char>, b: Seq<char>)
    ensures
        a == b ==> cell(links, a, b) == "—"@,
        a != b && device_at(links, a, b) is None ==> cell(links, a, b) == "MISS"@,
{
}

/// Three texts may be put together in either grouping.
proof fn three_parts(a: Seq<char>, b: Seq<char>, c: Seq<char>)
    ensures
        a + b + c == a + (b + c),
{
    assert(a + b + c =~= a + (b + c));
}

/// A row shows for every node what joins the row's node to it.
#[verifier::rlimit(60)]
pub proof fn row_shows_every_node(
    start: Seq<char>,
    a: Seq<char>,
    nodes: Seq<Seq<char>>,
    links: Seq<LinkView>,
    w: nat,
    k: nat,
    j: int,
)
    requires
        0 <= j < k <= nodes.len(),
    ensures
        text::has(
            row_cells(start, a, nodes, links, w, k),
            " "@ + text::right_aligned(cell(links, a, nodes[j]), w),
        ),
    decreases k,
{
    let front = row_cells(start, a, nodes, links, w, (k - 1) as nat);
    let shown = text::right_aligned(cell(links, a, nodes[k - 1]), w);
    three_parts(front, " "@, shown);
    assert(row_cells(start, a, nodes, links, w, k) == front + (" "@ + shown));
    if j < k - 1 {
        row_shows_every_node(start, a, nodes, links, w, (k - 1) as nat, j);
        stays_in_longer(
            front,
            " "@ + shown,
            " "@ + text::right_aligned(cell(links, a, nodes[j]), w),
        );
    } else {
        stands_at_end(front, " "@ + shown);
    }
}

} // verus!
