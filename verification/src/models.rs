//! The models of the cluster: which of the files on a node are being served,
//! and the inventory over all nodes.

use crate::json;
use crate::order;
use crate::order::Ranked;
use crate::text;
use vstd::prelude::*;
use vstd::string::*;

verus! {

// ---------------------------------------------------------------------------
// What is being served
// ---------------------------------------------------------------------------

/// The first model in a document that lists the models of a server.
pub open spec fn first_listed(v: serde_json::Value) -> Option<Seq<char>> {
    match json::items_at(v, "data"@) {
        Some(items) => if items.len() > 0 {
            json::text_at(items[0], "id"@)
        } else {
            None
        },
        None => None,
    }
}

/// What a server answers when it is asked for its models: nothing where the
/// answer is no JSON document, else the first model, if one is listed.
pub fn read_listed(body: &str) -> (r: Option<Option<String>>)
    ensures
        match json::json_of(body@) {
            None => r is None,
            Some(v) => r matches Some(m) && m.deep_view() == first_listed(v),
        },
{
    match json::parse(body) {
        None => None,
        Some(v) => match json::member_items(&v, "data") {
            Some(items) => if items.len() > 0 {
                Some(json::member_text(&items[0], "id"))
            } else {
                Some(None)
            },
            None => Some(None),
        },
    }
}

/// The models that the document of a node lists.
pub fn listed_models<'a>(document: &'a serde_json::Value) -> (r: Option<
    &'a Vec<serde_json::Value>,
>)
    ensures
        match r {
            Some(all) => json::items_at(*document, "models"@) == Some(all@),
            None => json::items_at(*document, "models"@) is None,
        },
{
    json::member_items(document, "models")
}

/// The document with which a node lists its models: none where the answer is
/// no JSON, or lists none.
pub fn read_inventory(body: &str) -> (r: Option<serde_json::Value>)
    ensures
        r == (match json::json_of(body@) {
            Some(v) => if json::items_at(v, "models"@) is Some {
                Some(v)
            } else {
                None
            },
            None => None,
        }),
{
    match json::parse(body) {
        None => None,
        Some(v) => if listed_models(&v).is_some() {
            Some(v)
        } else {
            None
        },
    }
}

/// A model that a server has in memory.
#[derive(Debug, Clone)]
pub struct ServingInfo {
    pub port: u16,
    pub engine: String,
    pub pid: Option<u32>,
    pub managed: bool,
}

/// A model that a server has in memory, with its texts.
pub struct ServingView {
    pub port: u16,
    pub engine: Seq<char>,
    pub pid: Option<u32>,
    pub managed: bool,
}

impl DeepView for ServingInfo {
    type V = ServingView;

    open spec fn deep_view(&self) -> ServingView {
        ServingView {
            port: self.port,
            engine: self.engine@,
            pid: self.pid,
            managed: self.managed,
        }
    }
}

/// The names under which a model is known.
pub struct ServedModel {
    pub names: Vec<String>,
    pub info: ServingInfo,
}

/// The texts of the names under which a model is known.
pub struct ServedView {
    pub names: Seq<Seq<char>>,
    pub info: ServingView,
}

impl DeepView for ServedModel {
    type V = ServedView;

    open spec fn deep_view(&self) -> ServedView {
        ServedView { names: self.names.deep_view(), info: self.info.deep_view() }
    }
}

/// The names that can be searched for in an id: what stands behind its last
/// slash, in small letters.
pub open spec fn name_fragments(id: Seq<char>) -> Seq<Seq<char>> {
    seq![text::lowercase(text::split_on(id, '/').last())]
}

/// The names that can be searched for in an id.
pub fn normalize_model_id(id: &str) -> (r: Vec<String>)
    ensures
        r.deep_view() == name_fragments(id@),
{
    let mut v: Vec<String> = Vec::new();
    text::push_text(&mut v, text::to_lowercase(&text::last_piece(id, '/')));
    assert(v.deep_view() =~= name_fragments(id@));
    v
}

/// The names under which a served model is found: those that can be searched
/// for in its id, and the whole id in small letters, which a path is compared
/// with.
pub open spec fn model_names(id: Seq<char>) -> Seq<Seq<char>> {
    name_fragments(id).push(text::lowercase(id))
}

/// The names under which a served model is found.
fn served_names(id: &str) -> (r: Vec<String>)
    ensures
        r.deep_view() == model_names(id@),
{
    let mut v: Vec<String> = normalize_model_id(id);
    text::push_text(&mut v, text::to_lowercase(id));
    v
}

/// A server that the daemon manages.
pub struct ManagedServer {
    pub port: u16,
    /// The name of the engine.
    pub engine: String,
    pub pid: Option<u32>,
    pub model: Option<String>,
}

/// A server that the daemon manages, with its texts.
pub struct ManagedView {
    pub port: u16,
    pub engine: Seq<char>,
    pub pid: Option<u32>,
    pub model: Option<Seq<char>>,
}

impl DeepView for ManagedServer {
    type V = ManagedView;

    open spec fn deep_view(&self) -> ManagedView {
        ManagedView {
            port: self.port,
            engine: self.engine@,
            pid: self.pid,
            model: self.model.deep_view(),
        }
    }
}

/// A server process that was found on the node.
pub struct FoundServer {
    pub pid: u32,
    pub port: Option<u16>,
    /// The name of the framework.
    pub framework: String,
    /// The models that the server lists.
    pub server_models: Vec<String>,
    /// The model that its command line names.
    pub model: Option<String>,
}

/// A server process that was found on the node, with its texts.
pub struct FoundView {
    pub pid: u32,
    pub port: Option<u16>,
    pub framework: Seq<char>,
    pub server_models: Seq<Seq<char>>,
    pub model: Option<Seq<char>>,
}

impl DeepView for FoundServer {
    type V = FoundView;

    open spec fn deep_view(&self) -> FoundView {
        FoundView {
            pid: self.pid,
            port: self.port,
            framework: self.framework@,
            server_models: self.server_models.deep_view(),
            model: self.model.deep_view(),
        }
    }
}

/// What a managed server serves.
pub open spec fn managed_entry(m: ManagedView) -> Option<ServedView> {
    match m.model {
        Some(id) => Some(
            ServedView {
                names: model_names(id),
                info: ServingView {
                    port: m.port,
                    engine: text::lowercase(m.engine),
                    pid: m.pid,
                    managed: true,
                },
            },
        ),
        None => None,
    }
}

/// What the managed servers serve.
pub open spec fn managed_entries(s: Seq<ManagedView>) -> Seq<ServedView>
    decreases s.len(),
{
    if s.len() == 0 {
        Seq::empty()
    } else {
        match managed_entry(s.last()) {
            Some(e) => managed_entries(s.drop_last()).push(e),
            None => managed_entries(s.drop_last()),
        }
    }
}

/// The models of a found server: those that it lists, else the one that its
/// command line names.
pub open spec fn found_models(f: FoundView) -> Seq<Seq<char>> {
    if f.server_models.len() > 0 {
        f.server_models
    } else {
        match f.model {
            Some(m) => seq![m],
            None => Seq::empty(),
        }
    }
}

/// What a found server serves: nothing where it has no port.
pub open spec fn found_entries(f: FoundView) -> Seq<ServedView> {
    match f.port {
        Some(port) => found_models(f).map_values(
            |id: Seq<char>|
                ServedView {
                    names: model_names(id),
                    info: ServingView {
                        port,
                        engine: text::lowercase(f.framework),
                        pid: Some(f.pid),
                        managed: false,
                    },
                },
        ),
        None => Seq::empty(),
    }
}

/// What the found servers serve.
pub open spec fn all_found(s: Seq<FoundView>) -> Seq<ServedView>
    decreases s.len(),
{
    if s.len() == 0 {
        Seq::empty()
    } else {
        all_found(s.drop_last()) + found_entries(s.last())
    }
}

/// The models of a found server.
pub fn models_of(f: &FoundServer) -> (r: Vec<String>)
    ensures
        r.deep_view() == found_models(f.deep_view()),
{
    assert(f.server_models.deep_view().len() == f.server_models@.len());
    if f.server_models.len() > 0 {
        return text::own_all(&f.server_models);
    }
    let mut v: Vec<String> = Vec::new();
    if let Some(m) = &f.model {
        text::push_str(&mut v, m);
    }
    assert(v.deep_view() =~= found_models(f.deep_view()));
    v
}

/// Adds what a found server serves.
fn add_found(out: &mut Vec<ServedModel>, f: &FoundServer)
    ensures
        final(out).deep_view() == old(out).deep_view() + found_entries(f.deep_view()),
{
    let ghost before = out.deep_view();
    let ghost want = found_entries(f.deep_view());
    match f.port {
        None => {
            assert(out.deep_view() =~= before + want);
        },
        Some(port) => {
            let ids: Vec<String> = models_of(f);
            let mut i: usize = 0;
            assert(before + want.take(0) =~= before);
            while i < ids.len()
                invariant
                    i <= ids@.len(),
                    f.port == Some(port),
                    ids.deep_view() == found_models(f.deep_view()),
                    want == found_entries(f.deep_view()),
                    out.deep_view() == before + want.take(i as int),
                decreases ids@.len() - i,
            {
                let e = ServedModel {
                    names: served_names(&ids[i]),
                    info: ServingInfo {
                        port,
                        engine: text::to_lowercase(&f.framework),
                        pid: Some(f.pid),
                        managed: false,
                    },
                };
                assert(ids.deep_view()[i as int] == ids@[i as int]@);
                assert(e.deep_view() == want[i as int]);
                text::push_item(out, e);
                i = i + 1;
                assert(out.deep_view() =~= before + want.take(i as int));
            }
            assert(ids.deep_view().len() == ids@.len());
            assert(want.take(i as int) =~= want);
        },
    }
}

/// What is being served on the node: by the managed servers, then by the
/// others.
pub fn collect_serving_map(managed: &Vec<ManagedServer>, found: &Vec<FoundServer>) -> (r: Vec<
    ServedModel,
>)
    ensures
        r.deep_view() == managed_entries(managed.deep_view()) + all_found(found.deep_view()),
{
    let ghost ms = managed.deep_view();
    let ghost fs = found.deep_view();
    let mut out: Vec<ServedModel> = Vec::new();
    let mut i: usize = 0;
    assert(out.deep_view() =~= managed_entries(ms.take(0)));
    while i < managed.len()
        invariant
            i <= managed@.len(),
            ms == managed.deep_view(),
            out.deep_view() == managed_entries(ms.take(i as int)),
        decreases managed@.len() - i,
    {
        let m: &ManagedServer = &managed[i];
        proof {
            assert(ms.take(i + 1).drop_last() =~= ms.take(i as int));
            assert(ms.take(i + 1).last() == m.deep_view());
        }
        if let Some(id) = &m.model {
            let e = ServedModel {
                names: served_names(id),
                info: ServingInfo {
                    port: m.port,
                    engine: text::to_lowercase(&m.engine),
                    pid: m.pid,
                    managed: true,
                },
            };
            text::push_item(&mut out, e);
        }
        i = i + 1;
    }
    assert(ms.take(i as int) =~= ms);
    let mut k: usize = 0;
    assert(out.deep_view() =~= managed_entries(ms) + all_found(fs.take(0)));
    while k < found.len()
        invariant
            k <= found@.len(),
            fs == found.deep_view(),
            out.deep_view() == managed_entries(ms) + all_found(fs.take(k as int)),
        decreases found@.len() - k,
    {
        proof {
            assert(fs.take(k + 1).drop_last() =~= fs.take(k as int));
            assert(fs.take(k + 1).last() == found@[k as int].deep_view());
        }
        add_found(&mut out, &found[k]);
        k = k + 1;
        assert(out.deep_view() =~= managed_entries(ms) + all_found(fs.take(k as int)));
    }
    assert(fs.take(k as int) =~= fs);
    out
}

/// One of the names is one of the three.
pub open spec fn named(names: Seq<Seq<char>>, a: Seq<char>, b: Seq<char>, c: Seq<char>) -> bool {
    exists|i: int|
        0 <= i < names.len() && ((#[trigger] names[i]) == a || names[i] == b || names[i] == c)
}

/// The first of the entries that goes under one of the three names.
pub open spec fn first_served(
    s: Seq<ServedView>,
    a: Seq<char>,
    b: Seq<char>,
    c: Seq<char>,
) -> Option<ServingView>
    decreases s.len(),
{
    if s.len() == 0 {
        None
    } else if named(s[0].names, a, b, c) {
        Some(s[0].info)
    } else {
        first_served(s.drop_first(), a, b, c)
    }
}

/// The first of the entries that goes under one of the three names.
pub fn find_served(served: &Vec<ServedModel>, a: &str, b: &str, c: &str) -> (r: Option<ServingInfo>)
    ensures
        r.deep_view() == first_served(served.deep_view(), a@, b@, c@),
{
    let ghost s = served.deep_view();
    let mut i: usize = 0;
    assert(s.skip(0) =~= s);
    while i < served.len()
        invariant
            i <= served@.len(),
            s == served.deep_view(),
            first_served(s, a@, b@, c@) == first_served(s.skip(i as int), a@, b@, c@),
        decreases served@.len() - i,
    {
        let e: &ServedModel = &served[i];
        assert(s.skip(i as int)[0] == e.deep_view());
        assert(s.skip(i as int).drop_first() =~= s.skip(i + 1));
        let ghost ns = e.names.deep_view();
        let mut k: usize = 0;
        while k < e.names.len()
            invariant
                k <= e.names@.len(),
                i < served@.len(),
                s == served.deep_view(),
                ns == e.names.deep_view(),
                s.skip(i as int)[0] == e.deep_view(),
                first_served(s, a@, b@, c@) == first_served(s.skip(i as int), a@, b@, c@),
                forall|m: int|
                    0 <= m < k ==> (#[trigger] ns[m]) != a@ && ns[m] != b@ && ns[m] != c@,
            decreases e.names@.len() - k,
        {
            assert(ns[k as int] == e.names@[k as int]@);
            if text::same(&e.names[k], a) || text::same(&e.names[k], b) || text::same(
                &e.names[k],
                c,
            ) {
                return Some(
                    ServingInfo {
                        port: e.info.port,
                        engine: text::own(&e.info.engine),
                        pid: e.info.pid,
                        managed: e.info.managed,
                    },
                );
            }
            k = k + 1;
        }
        assert(!named(ns, a@, b@, c@));
        i = i + 1;
    }
    None
}

/// What serves a model: the first entry that goes under its name, the name of
/// its directory or its path, all in small letters.
pub fn match_serving(
    name: &str,
    path: &str,
    file_name: &Option<String>,
    served: &Vec<ServedModel>,
) -> (r: Option<ServingInfo>)
    ensures
        r.deep_view() == first_served(
            served.deep_view(),
            text::lowercase(name@),
            (match file_name.deep_view() {
                Some(f) => text::lowercase(f),
                None => Seq::empty(),
            }),
            text::lowercase(path@),
        ),
{
    let name_lower: String = text::to_lowercase(name);
    let path_lower: String = text::to_lowercase(path);
    let dir_name: String = match file_name {
        Some(f) => text::to_lowercase(f),
        None => String::new(),
    };
    find_served(served, &name_lower, &dir_name, &path_lower)
}

// ---------------------------------------------------------------------------
// The inventory of the cluster
// ---------------------------------------------------------------------------

/// The nodes to ask: each canonical name once, in order.
pub fn canonical_nodes(resolved: &Vec<String>) -> (r: Vec<String>)
    ensures
        r.deep_view() == order::sorted_texts(order::distinct(resolved.deep_view())),
{
    order::sort_texts(&order::dedup(resolved))
}

/// Whether a node is this one.
pub fn is_local_node(node: &str, local: &str) -> (r: bool)
    ensures
        r == (text::same_letters(node@, local@) || node@ == "hub"@ || node@
            == "HUB"@ || node@ == "localhost"@),
{
    text::same_but_case(node, local) || text::same(node, "hub") || text::same(node, "HUB")
        || text::same(node, "localhost")
}

/// Where a node is asked for its models, in this order.
pub fn model_urls(node: &str) -> (r: Vec<String>)
    ensures
        r.deep_view() == seq![
            "http://"@ + node@ + ".local:9090/models"@,
            "http://"@ + node@ + ":9090/models"@,
        ],
{
    let mut a: String = text::glue("http://", node);
    a.append(".local:9090/models");
    let mut b: String = text::glue("http://", node);
    b.append(":9090/models");
    let mut v: Vec<String> = Vec::new();
    text::push_text(&mut v, a);
    text::push_text(&mut v, b);
    assert(v.deep_view() =~= seq![
        "http://"@ + node@ + ".local:9090/models"@,
        "http://"@ + node@ + ":9090/models"@,
    ]);
    v
}

/// A model on a node.
pub struct ModelFile {
    pub name: String,
    pub size_bytes: u64,
}

/// A model on a node, with its name as a text.
pub struct ModelFileView {
    pub name: Seq<char>,
    pub size_bytes: u64,
}

impl DeepView for ModelFile {
    type V = ModelFileView;

    open spec fn deep_view(&self) -> ModelFileView {
        ModelFileView { name: self.name@, size_bytes: self.size_bytes }
    }
}

/// What a node answered: its models, or nothing.
pub struct NodeModels {
    pub node: String,
    pub models: Option<Vec<ModelFile>>,
}

/// What a node answered, with its texts.
pub struct NodeModelsView {
    pub node: Seq<char>,
    pub models: Option<Seq<ModelFileView>>,
}

impl DeepView for NodeModels {
    type V = NodeModelsView;

    open spec fn deep_view(&self) -> NodeModelsView {
        NodeModelsView { node: self.node@, models: self.models.deep_view() }
    }
}

/// A model of the inventory: its node, and its place among the models there.
#[derive(Debug)]
pub struct ClusterModel {
    pub node: String,
    pub name: String,
    pub size_bytes: u64,
    pub place: usize,
}

/// A model of the inventory, with its texts.
pub struct ClusterModelView {
    pub node: Seq<char>,
    pub name: Seq<char>,
    pub size_bytes: u64,
    pub place: int,
}

impl DeepView for ClusterModel {
    type V = ClusterModelView;

    open spec fn deep_view(&self) -> ClusterModelView {
        ClusterModelView {
            node: self.node@,
            name: self.name@,
            size_bytes: self.size_bytes,
            place: self.place as int,
        }
    }
}

/// The models of a node among the first `k`, without those whose name stood
/// there before, whatever its letters' case.
pub open spec fn kept_models(node: Seq<char>, models: Seq<ModelFileView>, k: nat) -> Seq<
    ClusterModelView,
>
    decreases k,
{
    if k == 0 || k > models.len() {
        Seq::empty()
    } else {
        let rest = kept_models(node, models, (k - 1) as nat);
        let m = models[k - 1];
        if name_known(models, (k - 1) as nat, m.name) {
            rest
        } else {
            rest.push(
                ClusterModelView {
                    node,
                    name: m.name,
                    size_bytes: m.size_bytes,
                    place: k - 1,
                },
            )
        }
    }
}

/// One of the first `k` models has that name, whatever its letters' case.
pub open spec fn name_known(models: Seq<ModelFileView>, k: nat, name: Seq<char>) -> bool {
    exists|i: int|
        0 <= i < k && text::lowercase((#[trigger] models[i]).name) == text::lowercase(name)
}

/// The models of the inventory that a node gives.
pub open spec fn models_from(n: NodeModelsView) -> Seq<ClusterModelView> {
    match n.models {
        Some(m) => kept_models(n.node, m, m.len()),
        None => Seq::empty(),
    }
}

/// The models that the nodes give, node by node.
pub open spec fn all_models(nodes: Seq<NodeModelsView>) -> Seq<ClusterModelView>
    decreases nodes.len(),
{
    if nodes.len() == 0 {
        Seq::empty()
    } else {
        all_models(nodes.drop_last()) + models_from(nodes.last())
    }
}

/// An inventory in order with one more model, behind those of the same name.
pub open spec fn placed_by_name(s: Seq<ClusterModelView>, x: ClusterModelView) -> Seq<
    ClusterModelView,
>
    decreases s.len(),
{
    if s.len() > 0 && text::precedes(x.name, s.last().name) {
        placed_by_name(s.drop_last(), x).push(s.last())
    } else {
        s.push(x)
    }
}

/// The models by their names, those of the same name as they stood.
pub open spec fn sorted_by_name(s: Seq<ClusterModelView>) -> Seq<ClusterModelView>
    decreases s.len(),
{
    if s.len() == 0 {
        s
    } else {
        placed_by_name(sorted_by_name(s.drop_last()), s.last())
    }
}

impl Ranked for ClusterModel {
    open spec fn below(&self, other: &Self) -> bool {
        text::precedes(self.name@, other.name@)
    }

    fn is_below(&self, other: &Self) -> (r: bool) {
        text::before(&self.name, &other.name)
    }

    proof fn below_ranks(a: &Self, b: &Self, c: &Self) {
        text::precedes_total(a.name@, a.name@);
        text::precedes_total(a.name@, b.name@);
        text::precedes_total(b.name@, c.name@);
        text::precedes_total(a.name@, c.name@);
        if text::precedes(a.name@, b.name@) && text::precedes(b.name@, c.name@) {
            text::precedes_transitive(a.name@, b.name@, c.name@);
        }
        if text::precedes(c.name@, b.name@) && text::precedes(b.name@, a.name@) {
            text::precedes_transitive(c.name@, b.name@, a.name@);
        }
    }
}

/// The texts of the models of an inventory.
pub open spec fn model_views(s: Seq<ClusterModel>) -> Seq<ClusterModelView> {
    s.map_values(|m: ClusterModel| m.deep_view())
}

/// Placing a model by its rank is placing it by its name.
proof fn rank_is_name_placed(s: Seq<ClusterModel>, x: ClusterModel)
    ensures
        model_views(order::rank_placed(s, x)) == placed_by_name(model_views(s), x.deep_view()),
    decreases s.len(),
{
    if s.len() > 0 {
        assert(model_views(s).last() == s.last().deep_view());
        assert(model_views(s).drop_last() =~= model_views(s.drop_last()));
        if x.below(&s.last()) {
            rank_is_name_placed(s.drop_last(), x);
            assert(model_views(order::rank_placed(s, x)) =~= model_views(
                order::rank_placed(s.drop_last(), x),
            ).push(s.last().deep_view()));
        } else {
            assert(model_views(s.push(x)) =~= model_views(s).push(x.deep_view()));
        }
    } else {
        assert(model_views(s.push(x)) =~= model_views(s).push(x.deep_view()));
    }
}

/// Sorting by rank is sorting by name.
proof fn rank_is_name(s: Seq<ClusterModel>)
    ensures
        model_views(order::by_rank(s)) == sorted_by_name(model_views(s)),
    decreases s.len(),
{
    if s.len() > 0 {
        rank_is_name(s.drop_last());
        assert(model_views(s).last() == s.last().deep_view());
        assert(model_views(s).drop_last() =~= model_views(s.drop_last()));
        rank_is_name_placed(order::by_rank(s.drop_last()), s.last());
    } else {
        assert(model_views(order::by_rank(s)) =~= sorted_by_name(model_views(s)));
    }
}

/// Adds the models of the inventory that a node gives.
fn add_models(out: &mut Vec<ClusterModel>, n: &NodeModels)
    ensures
        final(out).deep_view() == old(out).deep_view() + models_from(n.deep_view()),
{
    let ghost before = out.deep_view();
    match &n.models {
        None => {
            assert(out.deep_view() =~= before + models_from(n.deep_view()));
        },
        Some(models) => {
            let ghost ms = models.deep_view();
            let mut seen: Vec<String> = Vec::new();
            let ghost lows = ms.map_values(|m: ModelFileView| text::lowercase(m.name));
            let mut i: usize = 0;
            assert(before + kept_models(n.node@, ms, 0) =~= before);
            while i < models.len()
                invariant
                    i <= models@.len(),
                    ms == models.deep_view(),
                    lows == ms.map_values(|m: ModelFileView| text::lowercase(m.name)),
                    seen.deep_view() == lows.take(i as int),
                    out.deep_view() == before + kept_models(n.node@, ms, i as nat),
                decreases models@.len() - i,
            {
                let m: &ModelFile = &models[i];
                assert(ms[i as int] == m.deep_view());
                let key: String = text::to_lowercase(&m.name);
                let known: bool = text::listed(&seen, &key);
                proof {
                    let t = lows.take(i as int);
                    if known {
                        let j = choose|j: int| 0 <= j < t.len() && t[j] == key@;
                        assert(text::lowercase(ms[j].name) == text::lowercase(m.name@));
                        assert(name_known(ms, i as nat, m.name@));
                    }
                    if name_known(ms, i as nat, m.name@) {
                        let j = choose|j: int|
                            0 <= j < i && text::lowercase((#[trigger] ms[j]).name)
                                == text::lowercase(m.name@);
                        assert(t[j] == key@);
                        assert(t.contains(key@));
                    }
                }
                if !known {
                    let c = ClusterModel {
                        node: text::own(&n.node),
                        name: text::own(&m.name),
                        size_bytes: m.size_bytes,
                        place: i,
                    };
                    text::push_item(out, c);
                }
                text::push_text(&mut seen, key);
                i = i + 1;
                assert(seen.deep_view() =~= lows.take(i as int));
                assert(out.deep_view() =~= before + kept_models(n.node@, ms, i as nat));
            }
            assert(models.deep_view().len() == models@.len());
        },
    }
}

/// The inventory of the cluster: the models that the nodes give, by name.
pub fn merge_models(nodes: &Vec<NodeModels>) -> (r: Vec<ClusterModel>)
    ensures
        r.deep_view() == sorted_by_name(all_models(nodes.deep_view())),
{
    let ghost ns = nodes.deep_view();
    let mut all: Vec<ClusterModel> = Vec::new();
    let mut i: usize = 0;
    assert(all.deep_view() =~= all_models(ns.take(0)));
    while i < nodes.len()
        invariant
            i <= nodes@.len(),
            ns == nodes.deep_view(),
            all.deep_view() == all_models(ns.take(i as int)),
        decreases nodes@.len() - i,
    {
        proof {
            assert(ns.take(i + 1).drop_last() =~= ns.take(i as int));
            assert(ns.take(i + 1).last() == nodes@[i as int].deep_view());
        }
        add_models(&mut all, &nodes[i]);
        i = i + 1;
    }
    assert(ns.take(i as int) =~= ns);
    proof {
        rank_is_name(all@);
        assert(all.deep_view() =~= model_views(all@));
    }
    let r: Vec<ClusterModel> = order::sort_by_rank(all);
    assert(r.deep_view() =~= model_views(r@));
    r
}

/// No name stands twice among the models that a node gives, whatever its
/// letters' case.
pub proof fn node_names_differ(node: Seq<char>, models: Seq<ModelFileView>, k: nat)
    requires
        k <= models.len(),
    ensures
        forall|i: int, j: int|
            0 <= i < j < kept_models(node, models, k).len() ==> text::lowercase(
                (#[trigger] kept_models(node, models, k)[i]).name,
            ) != text::lowercase((#[trigger] kept_models(node, models, k)[j]).name),
        forall|i: int|
            0 <= i < kept_models(node, models, k).len() ==> {
                let c = #[trigger] kept_models(node, models, k)[i];
                0 <= c.place < k && models[c.place].name == c.name && models[c.place].size_bytes
                    == c.size_bytes
            },
    decreases k,
{
    if k > 0 {
        node_names_differ(node, models, (k - 1) as nat);
        let rest = kept_models(node, models, (k - 1) as nat);
        let now = kept_models(node, models, k);
        assert forall|i: int, j: int| 0 <= i < j < now.len() implies text::lowercase(
            (#[trigger] now[i]).name,
        ) != text::lowercase((#[trigger] now[j]).name) by {
            assert(now[i] == rest[i]);
            if j < rest.len() {
                assert(now[j] == rest[j]);
            } else {
                let c = rest[i];
                assert(models[c.place].name == c.name);
            }
        }
        assert forall|i: int| 0 <= i < now.len() implies {
            let c = #[trigger] now[i];
            0 <= c.place < k && models[c.place].name == c.name && models[c.place].size_bytes
                == c.size_bytes
        } by {
            if i < rest.len() {
                assert(now[i] == rest[i]);
            }
        }
    }
}

/// The sum of the sizes of models.
pub open spec fn size_of_all(s: Seq<ClusterModelView>) -> nat
    decreases s.len(),
{
    if s.len() == 0 {
        0
    } else {
        size_of_all(s.drop_last()) + s.last().size_bytes as nat
    }
}

/// A part of the models is no larger than all.
proof fn size_grows(s: Seq<ClusterModelView>, i: int)
    requires
        0 <= i <= s.len(),
    ensures
        size_of_all(s.take(i)) <= size_of_all(s),
    decreases s.len() - i,
{
    if i < s.len() {
        size_grows(s, i + 1);
        assert(s.take(i + 1).drop_last() =~= s.take(i));
    } else {
        assert(s.take(i) =~= s);
    }
}

/// The sum of the sizes of models, if it is a number of 64 bits.
pub fn total_bytes(models: &Vec<ClusterModel>) -> (r: Option<u64>)
    ensures
        r is Some <==> size_of_all(models.deep_view()) <= u64::MAX,
        r matches Some(n) ==> n == size_of_all(models.deep_view()),
{
    let ghost s = models.deep_view();
    let mut sum: u64 = 0;
    let mut i: usize = 0;
    while i < models.len()
        invariant
            i <= models@.len(),
            s == models.deep_view(),
            sum == size_of_all(s.take(i as int)),
        decreases models@.len() - i,
    {
        proof {
            assert(s.take(i + 1).drop_last() =~= s.take(i as int));
            assert(s.take(i + 1).last() == models@[i as int].deep_view());
            size_grows(s, i + 1);
        }
        if models[i].size_bytes > u64::MAX - sum {
            return None;
        }
        sum = sum + models[i].size_bytes;
        i = i + 1;
    }
    assert(s.take(i as int) =~= s);
    Some(sum)
}

/// What the inventory says of a node.
pub struct NodeSummary {
    pub node: String,
    pub online: bool,
    pub model_count: usize,
    pub total_bytes: u64,
}

/// What the inventory says of a node, if its size is a number of 64 bits.
pub fn summarize_node(n: &NodeModels) -> (r: Option<NodeSummary>)
    ensures
        r is Some <==> size_of_all(models_from(n.deep_view())) <= u64::MAX,
        r matches Some(s) ==> s.node@ == n.node@ && s.online == (n.models is Some)
            && s.model_count == models_from(n.deep_view()).len() && s.total_bytes == size_of_all(
            models_from(n.deep_view()),
        ),
{
    let mut own: Vec<ClusterModel> = Vec::new();
    assert(own.deep_view() + models_from(n.deep_view()) =~= models_from(n.deep_view()));
    add_models(&mut own, n);
    assert(own.deep_view().len() == own@.len());
    let online: bool = n.models.is_some();
    match total_bytes(&own) {
        None => None,
        Some(b) => Some(
            NodeSummary {
                node: text::own(&n.node),
                online,
                model_count: own.len(),
                total_bytes: b,
            },
        ),
    }
}

/// The number of nodes that answered.
pub open spec fn responding(nodes: Seq<NodeModelsView>) -> nat
    decreases nodes.len(),
{
    if nodes.len() == 0 {
        0
    } else {
        responding(nodes.drop_last()) + if nodes.last().models is Some {
            1nat
        } else {
            0nat
        }
    }
}

/// The number of nodes that answered.
pub fn nodes_responded(nodes: &Vec<NodeModels>) -> (r: usize)
    ensures
        r == responding(nodes.deep_view()),
{
    let ghost ns = nodes.deep_view();
    let mut n: usize = 0;
    let mut i: usize = 0;
    while i < nodes.len()
        invariant
            i <= nodes.len(),
            ns == nodes.deep_view(),
            n <= i,
            n == responding(ns.take(i as int)),
        decreases nodes@.len() - i,
    {
        proof {
            assert(ns.take(i + 1).drop_last() =~= ns.take(i as int));
            assert(ns.take(i + 1).last() == nodes@[i as int].deep_view());
        }
        if nodes[i].models.is_some() {
            n = n + 1;
        }
        i = i + 1;
    }
    assert(ns.take(i as int) =~= ns);
    n
}

/// The name of a model as it is told apart from others: in small letters.
pub open spec fn plain_name(m: ModelFileView) -> Seq<char> {
    text::lowercase(m.name)
}

/// The number of names that the models of the nodes have, node by node.
pub open spec fn names_counted(nodes: Seq<NodeModelsView>) -> nat
    decreases nodes.len(),
{
    if nodes.len() == 0 {
        0
    } else {
        names_counted(nodes.drop_last()) + (match nodes.last().models {
            Some(m) => m.map_values(|f: ModelFileView| plain_name(f)).to_set().len(),
            None => 0,
        })
    }
}

/// The models kept of a node are as many as their names, and each model whose
/// name stands first is among them.
proof fn kept_counts(node: Seq<char>, models: Seq<ModelFileView>, k: nat)
    requires
        k <= models.len(),
    ensures
        ({
            let names = models.take(k as int).map_values(|f: ModelFileView| plain_name(f));
            &&& names.to_set().finite()
            &&& kept_models(node, models, k).len() == names.to_set().len()
        }),
        forall|j: int|
            0 <= j < k && !name_known(models, j as nat, (#[trigger] models[j]).name)
                ==> kept_models(node, models, k).contains(
                ClusterModelView {
                    node,
                    name: models[j].name,
                    size_bytes: models[j].size_bytes,
                    place: j,
                },
            ),
        forall|i: int|
            0 <= i < kept_models(node, models, k).len() ==> {
                let c = #[trigger] kept_models(node, models, k)[i];
                &&& c.node == node
                &&& 0 <= c.place < k
                &&& models[c.place].name == c.name
                &&& models[c.place].size_bytes == c.size_bytes
            },
    decreases k,
{
    let names = models.take(k as int).map_values(|f: ModelFileView| plain_name(f));
    vstd::seq_lib::seq_to_set_is_finite(names);
    if k == 0 {
        assert(names.to_set() =~= Set::empty());
    } else {
        kept_counts(node, models, (k - 1) as nat);
        let m = models[k - 1];
        let before = models.take(k - 1).map_values(|f: ModelFileView| plain_name(f));
        let rest = kept_models(node, models, (k - 1) as nat);
        let now = kept_models(node, models, k);
        vstd::seq_lib::seq_to_set_is_finite(before);
        assert(names =~= before.push(plain_name(m)));
        assert(names.to_set() =~= before.to_set().insert(plain_name(m))) by {
            assert forall|n: Seq<char>| names.to_set().contains(n) == before.to_set().insert(
                plain_name(m),
            ).contains(n) by {
                if names.contains(n) {
                    let i = choose|i: int| 0 <= i < names.len() && names[i] == n;
                    if i < k - 1 {
                        assert(before[i] == n);
                    }
                }
                if before.contains(n) {
                    let i = choose|i: int| 0 <= i < before.len() && before[i] == n;
                    assert(names[i] == n);
                }
                assert(names[k - 1] == plain_name(m));
            }
        }
        if name_known(models, (k - 1) as nat, m.name) {
            let i = choose|i: int|
                0 <= i < k - 1 && text::lowercase((#[trigger] models[i]).name) == text::lowercase(
                    m.name,
                );
            assert(before[i] == plain_name(m));
            assert(before.contains(plain_name(m)));
            assert(names.to_set() =~= before.to_set());
        } else {
            assert(!before.contains(plain_name(m))) by {
                if before.contains(plain_name(m)) {
                    let i = choose|i: int| 0 <= i < before.len() && before[i] == plain_name(m);
                    assert(text::lowercase(models[i].name) == text::lowercase(m.name));
                }
            }
        }
        assert forall|j: int|
            0 <= j < k && !name_known(
                models,
                j as nat,
                (#[trigger] models[j]).name,
            ) implies now.contains(
            ClusterModelView {
                node,
                name: models[j].name,
                size_bytes: models[j].size_bytes,
                place: j,
            },
        ) by {
            let c = ClusterModelView {
                node,
                name: models[j].name,
                size_bytes: models[j].size_bytes,
                place: j,
            };
            if j < k - 1 {
                let i = choose|i: int| 0 <= i < rest.len() && rest[i] == c;
                assert(now[i] == c);
            } else {
                assert(now.last() == c);
            }
        }
        assert forall|i: int| 0 <= i < now.len() implies {
            let c = #[trigger] now[i];
            &&& c.node == node
            &&& 0 <= c.place < k
            &&& models[c.place].name == c.name
            &&& models[c.place].size_bytes == c.size_bytes
        } by {
            if i < rest.len() {
                assert(now[i] == rest[i]);
            }
        }
    }
}

/// The entry stands for the model `j` of the node `n`.
pub open spec fn stands_for(c: ClusterModelView, nodes: Seq<NodeModelsView>, n: int, j: int) -> bool {
    &&& 0 <= n < nodes.len()
    &&& nodes[n].models matches Some(m) && 0 <= j < m.len() && c.node == nodes[n].node && c.name
        == m[j].name && c.size_bytes == m[j].size_bytes && c.place == j
}

/// The entry stands for a model of some node.
pub open spec fn is_listed(c: ClusterModelView, nodes: Seq<NodeModelsView>) -> bool {
    exists|n: int, j: int| #[trigger] stands_for(c, nodes, n, j)
}

/// What the nodes give is counted, and comes from them, model by model.
proof fn given_counts(nodes: Seq<NodeModelsView>)
    ensures
        all_models(nodes).len() == names_counted(nodes),
        forall|i: int|
            0 <= i < all_models(nodes).len() ==> is_listed(#[trigger] all_models(nodes)[i], nodes),
        forall|n: int, j: int|
            0 <= n < nodes.len() && nodes[n].models is Some && 0 <= j < nodes[n].models->0.len()
                && !name_known(nodes[n].models->0, j as nat, (#[trigger] nodes[n].models->0[j]).name)
                ==> all_models(nodes).contains(
                ClusterModelView {
                    node: nodes[n].node,
                    name: nodes[n].models->0[j].name,
                    size_bytes: nodes[n].models->0[j].size_bytes,
                    place: j,
                },
            ),
    decreases nodes.len(),
{
    if nodes.len() > 0 {
        let front = nodes.drop_last();
        let last = nodes.last();
        given_counts(front);
        let rest = all_models(front);
        let more = models_from(last);
        let now = all_models(nodes);
        if let Some(m) = last.models {
            kept_counts(last.node, m, m.len());
            assert(m.take(m.len() as int) =~= m);
        }
        assert forall|i: int| 0 <= i < now.len() implies is_listed(#[trigger] now[i], nodes) by {
            if i < rest.len() {
                assert(now[i] == rest[i]);
                let (n, j) = choose|n: int, j: int| #[trigger] stands_for(rest[i], front, n, j);
                assert(stands_for(now[i], nodes, n, j));
            } else {
                let c = more[i - rest.len()];
                assert(now[i] == c);
                assert(stands_for(c, nodes, nodes.len() - 1, c.place));
            }
        }
        assert forall|n: int, j: int|
            0 <= n < nodes.len() && nodes[n].models is Some && 0 <= j < nodes[n].models->0.len()
                && !name_known(
                nodes[n].models->0,
                j as nat,
                (#[trigger] nodes[n].models->0[j]).name,
            ) implies now.contains(
            ClusterModelView {
                node: nodes[n].node,
                name: nodes[n].models->0[j].name,
                size_bytes: nodes[n].models->0[j].size_bytes,
                place: j,
            },
        ) by {
            let c = ClusterModelView {
                node: nodes[n].node,
                name: nodes[n].models->0[j].name,
                size_bytes: nodes[n].models->0[j].size_bytes,
                place: j,
            };
            if n < nodes.len() - 1 {
                assert(front[n].models->0[j] == nodes[n].models->0[j]);
                assert(rest.contains(c));
                let i = choose|i: int| 0 <= i < rest.len() && rest[i] == c;
                assert(now[i] == c);
            } else {
                assert(more.contains(c));
                let i = choose|i: int| 0 <= i < more.len() && more[i] == c;
                assert(now[rest.len() + i] == c);
            }
        }
    }
}

/// The models by their names are the same models, in the order of the names.
proof fn sorting_keeps_models(s: Seq<ClusterModelView>)
    ensures
        sorted_by_name(s).to_multiset() == s.to_multiset(),
        sorted_by_name(s).len() == s.len(),
        forall|c: ClusterModelView| #[trigger] sorted_by_name(s).contains(c) == s.contains(c),
        forall|i: int, j: int|
            0 <= i < j < sorted_by_name(s).len() ==> !text::precedes(
                (#[trigger] sorted_by_name(s)[j]).name,
                (#[trigger] sorted_by_name(s)[i]).name,
            ),
    decreases s.len(),
{
    broadcast use vstd::seq_lib::group_to_multiset_ensures;

    if s.len() > 0 {
        sorting_keeps_models(s.drop_last());
        placing_keeps_models(sorted_by_name(s.drop_last()), s.last());
        assert(s =~= s.drop_last().push(s.last()));
    }
    let r = sorted_by_name(s);
    assert(r.len() == r.to_multiset().len());
    assert(s.len() == s.to_multiset().len());
    assert forall|c: ClusterModelView| #[trigger] r.contains(c) == s.contains(c) by {
        assert(r.contains(c) == (r.to_multiset().count(c) > 0));
        assert(s.contains(c) == (s.to_multiset().count(c) > 0));
    }
}

/// Placing a model by its name adds it and keeps the order.
proof fn placing_keeps_models(s: Seq<ClusterModelView>, x: ClusterModelView)
    requires
        forall|i: int, j: int|
            0 <= i < j < s.len() ==> !text::precedes((#[trigger] s[j]).name, (#[trigger] s[i]).name),
    ensures
        placed_by_name(s, x).to_multiset() == s.to_multiset().insert(x),
        forall|i: int|
            0 <= i < placed_by_name(s, x).len() ==> #[trigger] placed_by_name(s, x)[i] == x
                || s.contains(placed_by_name(s, x)[i]),
        forall|i: int, j: int|
            0 <= i < j < placed_by_name(s, x).len() ==> !text::precedes(
                (#[trigger] placed_by_name(s, x)[j]).name,
                (#[trigger] placed_by_name(s, x)[i]).name,
            ),
    decreases s.len(),
{
    broadcast use vstd::seq_lib::group_to_multiset_ensures;

    let r = placed_by_name(s, x);
    if s.len() > 0 && text::precedes(x.name, s.last().name) {
        let d = s.drop_last();
        let w = placed_by_name(d, x);
        placing_keeps_models(d, x);
        assert(s =~= d.push(s.last()));
        assert(r.to_multiset() =~= s.to_multiset().insert(x));
        assert forall|i: int| 0 <= i < r.len() implies #[trigger] r[i] == x || s.contains(r[i]) by {
            if i < w.len() {
                assert(r[i] == w[i]);
                if w[i] != x {
                    let m = choose|m: int| 0 <= m < d.len() && d[m] == w[i];
                    assert(s[m] == w[i]);
                }
            } else {
                assert(s[s.len() - 1] == r[i]);
            }
        }
        assert forall|i: int, j: int| 0 <= i < j < r.len() implies !text::precedes(
            (#[trigger] r[j]).name,
            (#[trigger] r[i]).name,
        ) by {
            assert(r[i] == w[i]);
            if j < w.len() {
                assert(r[j] == w[j]);
            } else if w[i] == x {
                text::precedes_total(x.name, s.last().name);
            } else {
                let m = choose|m: int| 0 <= m < d.len() && d[m] == w[i];
                assert(s[m] == w[i]);
            }
        }
    } else {
        assert forall|i: int| 0 <= i < r.len() implies #[trigger] r[i] == x || s.contains(r[i]) by {
            if i < s.len() {
                assert(r[i] == s[i]);
            }
        }
        assert forall|i: int, j: int| 0 <= i < j < r.len() implies !text::precedes(
            (#[trigger] r[j]).name,
            (#[trigger] r[i]).name,
        ) by {
            if j < s.len() {
                assert(r[i] == s[i] && r[j] == s[j]);
            } else {
                let last = s[s.len() - 1];
                assert(!text::precedes(x.name, last.name));
                if i < s.len() - 1 {
                    assert(!text::precedes(s[s.len() - 1].name, s[i].name));
                    text::precedes_total(x.name, s[i].name);
                    text::precedes_total(last.name, s[i].name);
                    text::precedes_total(x.name, last.name);
                    if text::precedes(x.name, s[i].name) {
                        if text::precedes(s[i].name, last.name) {
                            text::precedes_transitive(x.name, s[i].name, last.name);
                        }
                    }
                }
            }
        }
    }
}

/// Every model that a node lists is in the inventory: the first of those that
/// have its name, whatever the letters' case, stands there with the node, its
/// name, its size and its place.
#[verifier::rlimit(60)]
pub proof fn every_model_is_listed(nodes: Seq<NodeModelsView>, n: int, j: int)
    requires
        0 <= n < nodes.len(),
        nodes[n].models is Some,
        0 <= j < nodes[n].models->0.len(),
    ensures
        exists|i: int, f: int|
            0 <= i < sorted_by_name(all_models(nodes)).len() && f <= j && text::lowercase(
                nodes[n].models->0[f].name,
            ) == text::lowercase(nodes[n].models->0[j].name) && #[trigger] stands_for(
                sorted_by_name(all_models(nodes))[i],
                nodes,
                n,
                f,
            ),
    decreases j,
{
    let m = nodes[n].models->0;
    let all = all_models(nodes);
    let r = sorted_by_name(all);
    given_counts(nodes);
    sorting_keeps_models(all);
    if name_known(m, j as nat, m[j].name) {
        let e = choose|e: int|
            0 <= e < j && text::lowercase((#[trigger] m[e]).name) == text::lowercase(m[j].name);
        every_model_is_listed(nodes, n, e);
        let (i, f) = choose|i: int, f: int|
            0 <= i < r.len() && f <= e && text::lowercase(m[f].name) == text::lowercase(m[e].name)
                && #[trigger] stands_for(r[i], nodes, n, f);
        assert(stands_for(r[i], nodes, n, f) && f <= j);
    } else {
        let c = ClusterModelView {
            node: nodes[n].node,
            name: m[j].name,
            size_bytes: m[j].size_bytes,
            place: j,
        };
        assert(nodes[n].models->0[j] == m[j]);
        assert(all.contains(c));
        assert(r.contains(c));
        let i = choose|i: int| 0 <= i < r.len() && r[i] == c;
        assert(stands_for(r[i], nodes, n, j));
    }
}

/// The inventory holds nothing but models that nodes list, each name of a node
/// once, whatever its letters' case, and comes in the order of the names.
#[verifier::rlimit(60)]
pub proof fn inventory_is_of_the_nodes(nodes: Seq<NodeModelsView>)
    ensures
        sorted_by_name(all_models(nodes)).len() == names_counted(nodes),
        forall|i: int|
            0 <= i < sorted_by_name(all_models(nodes)).len() ==> is_listed(
                #[trigger] sorted_by_name(all_models(nodes))[i],
                nodes,
            ),
        forall|i: int, j: int|
            0 <= i < j < sorted_by_name(all_models(nodes)).len() ==> !text::precedes(
                (#[trigger] sorted_by_name(all_models(nodes))[j]).name,
                (#[trigger] sorted_by_name(all_models(nodes))[i]).name,
            ),
{
    let all = all_models(nodes);
    let r = sorted_by_name(all);
    given_counts(nodes);
    sorting_keeps_models(all);
    assert forall|i: int| 0 <= i < r.len() implies is_listed(#[trigger] r[i], nodes) by {
        assert(r.contains(r[i]));
        assert(all.contains(r[i]));
        let k = choose|k: int| 0 <= k < all.len() && all[k] == r[i];
        let (n, j) = choose|n: int, j: int| #[trigger] stands_for(all[k], nodes, n, j);
        assert(stands_for(r[i], nodes, n, j));
    }
}

/// A model is known by what stands behind the last slash of its id and by its
/// whole id, in small letters.
pub proof fn model_is_known_by_its_name(path: Seq<char>, name: Seq<char>)
    requires
        !name.contains('/'),
    ensures
        model_names(path + seq!['/'] + name).contains(text::lowercase(name)),
        model_names(path + seq!['/'] + name).contains(text::lowercase(path + seq!['/'] + name)),
        model_names(name).contains(text::lowercase(name)),
        name_fragments(path + seq!['/'] + name) == seq![text::lowercase(name)],
{
    let id = path + seq!['/'] + name;
    text::piece_behind_last(path, '/', name);
    assert(model_names(id)[0] == text::lowercase(name));
    assert(model_names(id)[1] == text::lowercase(id));
    assert(model_names(name)[0] == text::lowercase(name));
}

/// Every model that a managed server has is served there: on its port, by its
/// process, under the names of the model.
pub proof fn managed_models_are_served(managed: Seq<ManagedView>, i: int, id: Seq<char>)
    requires
        0 <= i < managed.len(),
        managed[i].model == Some(id),
    ensures
        managed_entries(managed).contains(
            ServedView {
                names: model_names(id),
                info: ServingView {
                    port: managed[i].port,
                    engine: text::lowercase(managed[i].engine),
                    pid: managed[i].pid,
                    managed: true,
                },
            },
        ),
        managed_entries(managed).len() <= managed.len(),
    decreases managed.len(),
{
    let front = managed.drop_last();
    let rest = managed_entries(front);
    let now = managed_entries(managed);
    let e = ServedView {
        names: model_names(id),
        info: ServingView {
            port: managed[i].port,
            engine: text::lowercase(managed[i].engine),
            pid: managed[i].pid,
            managed: true,
        },
    };
    few_are_managed(managed);
    if i < managed.len() - 1 {
        assert(front[i] == managed[i]);
        managed_models_are_served(front, i, id);
        let m = choose|m: int| 0 <= m < rest.len() && rest[m] == e;
        assert(now[m] == e);
    } else {
        assert(now.last() == e);
    }
}

/// No more models are served by managed servers than there are servers.
proof fn few_are_managed(managed: Seq<ManagedView>)
    ensures
        managed_entries(managed).len() <= managed.len(),
    decreases managed.len(),
{
    if managed.len() > 0 {
        few_are_managed(managed.drop_last());
    }
}

/// Every model that a server which was found on a port lists is served there,
/// or else the one it was started with.
pub proof fn found_models_are_served(found: Seq<FoundView>, i: int, id: Seq<char>, port: u16)
    requires
        0 <= i < found.len(),
        found[i].port == Some(port),
        found[i].server_models.contains(id) || (found[i].server_models.len() == 0 && found[i].model
            == Some(id)),
    ensures
        all_found(found).contains(
            ServedView {
                names: model_names(id),
                info: ServingView {
                    port,
                    engine: text::lowercase(found[i].framework),
                    pid: Some(found[i].pid),
                    managed: false,
                },
            },
        ),
    decreases found.len(),
{
    let front = found.drop_last();
    let rest = all_found(front);
    let more = found_entries(found.last());
    let now = all_found(found);
    let e = ServedView {
        names: model_names(id),
        info: ServingView {
            port,
            engine: text::lowercase(found[i].framework),
            pid: Some(found[i].pid),
            managed: false,
        },
    };
    if i < found.len() - 1 {
        assert(front[i] == found[i]);
        found_models_are_served(front, i, id, port);
        let m = choose|m: int| 0 <= m < rest.len() && rest[m] == e;
        assert(now[m] == e);
    } else {
        let ids = found_models(found[i]);
        assert(ids.contains(id)) by {
            if found[i].server_models.len() == 0 {
                assert(ids[0] == id);
            }
        }
        let m = choose|m: int| 0 <= m < ids.len() && ids[m] == id;
        assert(more[m] == e);
        assert(now[rest.len() + m] == e);
    }
}

/// A file is shown as served exactly where some served model has one of its
/// names, and with what serves the first of those.
pub proof fn served_files_are_shown(
    s: Seq<ServedView>,
    a: Seq<char>,
    b: Seq<char>,
    c: Seq<char>,
)
    ensures
        match first_served(s, a, b, c) {
            Some(info) => exists|i: int|
                0 <= i < s.len() && (#[trigger] s[i]).info == info && (s[i].names.contains(a)
                    || s[i].names.contains(b) || s[i].names.contains(c)) && forall|j: int|
                    0 <= j < i ==> !(#[trigger] s[j]).names.contains(a) && !s[j].names.contains(b)
                        && !s[j].names.contains(c),
            None => forall|j: int|
                0 <= j < s.len() ==> !(#[trigger] s[j]).names.contains(a) && !s[j].names.contains(b)
                    && !s[j].names.contains(c),
        },
    decreases s.len(),
{
    if s.len() > 0 {
        let rest = s.drop_first();
        named_is_contained(s[0].names, a, b, c);
        if !named(s[0].names, a, b, c) {
            served_files_are_shown(rest, a, b, c);
            if let Some(info) = first_served(rest, a, b, c) {
                let i = choose|i: int|
                    0 <= i < rest.len() && (#[trigger] rest[i]).info == info && (
                    rest[i].names.contains(a) || rest[i].names.contains(b)
                        || rest[i].names.contains(c)) && forall|j: int|
                        0 <= j < i ==> !(#[trigger] rest[j]).names.contains(a)
                            && !rest[j].names.contains(b) && !rest[j].names.contains(c);
                assert(s[i + 1] == rest[i]);
                assert forall|j: int| 0 <= j < i + 1 implies !(#[trigger] s[j]).names.contains(a)
                    && !s[j].names.contains(b) && !s[j].names.contains(c) by {
                    if j > 0 {
                        assert(rest[j - 1] == s[j]);
                    }
                }
            } else {
                assert forall|j: int| 0 <= j < s.len() implies !(#[trigger] s[j]).names.contains(a)
                    && !s[j].names.contains(b) && !s[j].names.contains(c) by {
                    if j > 0 {
                        assert(rest[j - 1] == s[j]);
                    }
                }
            }
        }
    }
}

/// One of three names stands among names where one of them is contained.
proof fn named_is_contained(names: Seq<Seq<char>>, a: Seq<char>, b: Seq<char>, c: Seq<char>)
    ensures
        named(names, a, b, c) == (names.contains(a) || names.contains(b) || names.contains(c)),
{
    if names.contains(a) {
        let i = choose|i: int| 0 <= i < names.len() && names[i] == a;
        assert(named(names, a, b, c));
    }
    if names.contains(b) {
        let i = choose|i: int| 0 <= i < names.len() && names[i] == b;
        assert(named(names, a, b, c));
    }
    if names.contains(c) {
        let i = choose|i: int| 0 <= i < names.len() && names[i] == c;
        assert(named(names, a, b, c));
    }
}

/// The nodes that answered are counted: as many as those that gave a list.
pub proof fn answers_are_counted(nodes: Seq<NodeModelsView>)
    ensures
        responding(nodes) == nodes.filter(|n: NodeModelsView| n.models is Some).len(),
    decreases nodes.len(),
{
    reveal(Seq::filter);
    if nodes.len() > 0 {
        answers_are_counted(nodes.drop_last());
    }
}

/// The size of an inventory is the sum of the sizes of its models.
pub proof fn sizes_add_up(s: Seq<ClusterModelView>, t: Seq<ClusterModelView>, m: ClusterModelView)
    ensures
        size_of_all(s + t) == size_of_all(s) + size_of_all(t),
        size_of_all(seq![m]) == m.size_bytes,
        size_of_all(Seq::empty()) == 0,
    decreases t.len(),
{
    assert(seq![m].drop_last() =~= Seq::empty());
    assert(size_of_all(seq![m].drop_last()) == 0);
    assert(seq![m].last() == m);
    if t.len() > 0 {
        sizes_add_up(s, t.drop_last(), m);
        assert((s + t).drop_last() =~= s + t.drop_last());
    } else {
        assert(s + t =~= s);
    }
}

/// The model that a server answers with is the first one that it lists.
pub proof fn first_model_is_named(v: serde_json::Value, items: Seq<serde_json::Value>)
    requires
        json::items_at(v, "data"@) == Some(items),
    ensures
        items.len() > 0 ==> first_listed(v) == json::text_at(items[0], "id"@),
        items.len() == 0 ==> first_listed(v) is None,
{
}

} // verus!
