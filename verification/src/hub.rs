//! The search for models on the hub of Hugging Face: what is asked for, how
//! long an answer is kept, and how a model of the answer is described.

use crate::json;
use crate::process;
use crate::scan;
use crate::scan::LineReader;
use crate::text;
use vstd::prelude::*;
use vstd::string::*;

verus! {

// ---------------------------------------------------------------------------
// The query
// ---------------------------------------------------------------------------

/// What a client asks for.
#[derive(Debug)]
pub struct HfSearchQuery {
    pub q: Option<String>,
    pub filter: Option<String>,
    pub pipeline_tag: Option<String>,
    pub sort: Option<String>,
    pub limit: Option<u32>,
}

/// A query with its defaults filled in.
#[derive(Debug)]
pub struct SearchTerms {
    pub search: String,
    pub filter: String,
    pub sort: String,
    pub limit: u32,
    pub pipeline_tag: String,
}

/// The texts of a query.
pub struct TermsView {
    pub search: Seq<char>,
    pub filter: Seq<char>,
    pub sort: Seq<char>,
    pub limit: nat,
    pub pipeline_tag: Seq<char>,
}

impl View for SearchTerms {
    type V = TermsView;

    open spec fn view(&self) -> TermsView {
        TermsView {
            search: self.search@,
            filter: self.filter@,
            sort: self.sort@,
            limit: self.limit as nat,
            pipeline_tag: self.pipeline_tag@,
        }
    }
}

/// A text, or another where there is none.
pub open spec fn or_default(t: Option<Seq<char>>, d: Seq<char>) -> Seq<char> {
    match t {
        Some(t) => t,
        None => d,
    }
}

/// A text, or another where there is none.
fn or_text(t: &Option<String>, d: &str) -> (r: String)
    ensures
        r@ == or_default(t.deep_view(), d@),
{
    match t {
        Some(t) => text::own(t),
        None => text::own(d),
    }
}

/// The query with its defaults: without a text, the filter is searched for.
pub open spec fn terms_of(q: HfSearchQuery) -> TermsView {
    let filter = or_default(q.filter.deep_view(), "mlx"@);
    let text = or_default(q.q.deep_view(), Seq::empty());
    TermsView {
        search: if text.len() == 0 {
            filter
        } else {
            text
        },
        filter,
        sort: or_default(q.sort.deep_view(), "downloads"@),
        limit: match q.limit {
            Some(n) => n as nat,
            None => 15,
        },
        pipeline_tag: or_default(q.pipeline_tag.deep_view(), Seq::empty()),
    }
}

impl HfSearchQuery {
    /// The query with its defaults.
    pub fn terms(&self) -> (r: SearchTerms)
        ensures
            r@ == terms_of(*self),
    {
        proof {
            reveal_strlit("");
            assert(""@ =~= Seq::<char>::empty());
        }
        let filter: String = or_text(&self.filter, "mlx");
        let q: String = or_text(&self.q, "");
        let search: String = if q.as_str().is_empty() {
            text::own(&filter)
        } else {
            q
        };
        let limit: u32 = match self.limit {
            Some(n) => n,
            None => 15,
        };
        SearchTerms {
            search,
            filter,
            sort: or_text(&self.sort, "downloads"),
            limit,
            pipeline_tag: or_text(&self.pipeline_tag, ""),
        }
    }
}

/// The key under which the answer to a query is kept.
pub open spec fn key_of(t: TermsView) -> Seq<char> {
    "search="@ + t.search + "&filter="@ + t.filter + "&sort="@ + t.sort + "&limit="@ + text::dec(
        t.limit,
    ) + "&pipeline="@ + t.pipeline_tag
}

/// The parameters of the request to the hub.
pub open spec fn parameters_of(t: TermsView) -> Seq<(Seq<char>, Seq<char>)> {
    let base = seq![
        ("search"@, t.search),
        ("filter"@, t.filter),
        ("sort"@, t.sort),
        ("direction"@, "-1"@),
        ("limit"@, text::dec(t.limit)),
        ("full"@, "true"@),
        ("config"@, "true"@),
    ];
    if t.pipeline_tag.len() > 0 {
        base.push(("pipeline_tag"@, t.pipeline_tag))
    } else {
        base
    }
}

impl SearchTerms {
    /// The key under which the answer is kept.
    pub fn cache_key(&self) -> (r: String)
        ensures
            r@ == key_of(self@),
    {
        let mut s: String = text::glue("search=", &self.search);
        s.append("&filter=");
        s.append(&self.filter);
        s.append("&sort=");
        s.append(&self.sort);
        s.append("&limit=");
        s.append(&text::decimal(self.limit as u64));
        s.append("&pipeline=");
        s.append(&self.pipeline_tag);
        s
    }

    /// The parameters of the request to the hub.
    pub fn parameters(&self) -> (r: Vec<(String, String)>)
        ensures
            r.deep_view() == parameters_of(self@),
    {
        let mut v: Vec<(String, String)> = Vec::new();
        text::push_item(&mut v, (text::own("search"), text::own(&self.search)));
        text::push_item(&mut v, (text::own("filter"), text::own(&self.filter)));
        text::push_item(&mut v, (text::own("sort"), text::own(&self.sort)));
        text::push_item(&mut v, (text::own("direction"), text::own("-1")));
        text::push_item(&mut v, (text::own("limit"), text::decimal(self.limit as u64)));
        text::push_item(&mut v, (text::own("full"), text::own("true")));
        text::push_item(&mut v, (text::own("config"), text::own("true")));
        if !self.pipeline_tag.as_str().is_empty() {
            text::push_item(&mut v, (text::own("pipeline_tag"), text::own(&self.pipeline_tag)));
        }
        assert(v.deep_view() =~= parameters_of(self@));
        v
    }
}

// ---------------------------------------------------------------------------
// Answers that are kept
// ---------------------------------------------------------------------------

/// How long an answer is given again, in milliseconds.
pub const CACHE_TTL_MS: u64 = 60_000;

/// The answer to a search. A model is described by an `M`.
#[derive(Debug)]
pub struct HfSearchResponse<M> {
    pub models: Vec<M>,
    pub error: Option<String>,
}

/// What came of asking the hub.
pub enum HubReply<M> {
    /// The request could not be sent.
    Unsent(String),
    /// The hub answered with a status that is no success.
    Refused(String),
    /// The answer could not be read.
    Unreadable(String),
    Models(Vec<M>),
}

impl<M> HubReply<M> {
    /// The models of a reply that is a success.
    pub open spec fn models(self) -> Option<Seq<M>> {
        match self {
            HubReply::Models(m) => Some(m@),
            _ => None,
        }
    }

    /// What is said of a reply that is none.
    pub open spec fn fault(self) -> Seq<char> {
        match self {
            HubReply::Unsent(e) => "request failed: "@ + e@,
            HubReply::Refused(e) => "HuggingFace API returned "@ + e@,
            HubReply::Unreadable(e) => "decode failed: "@ + e@,
            HubReply::Models(_) => Seq::empty(),
        }
    }
}

/// An answer that is kept, and when it came.
struct KeptAnswer<M> {
    key: String,
    models: Vec<M>,
    at: u64,
}

/// What is kept under a key.
pub struct KeptView<M> {
    pub models: Seq<M>,
    pub at: u64,
}

/// The answers that are kept.
pub struct SearchCache<M> {
    entries: Vec<KeptAnswer<M>>,
}

/// The answer at position `i` has that key.
spec fn has_key<M>(s: Seq<KeptAnswer<M>>, key: Seq<char>, i: int) -> bool {
    0 <= i < s.len() && s[i].key@ == key
}

/// No key stands twice.
spec fn keys_differ<M>(s: Seq<KeptAnswer<M>>) -> bool {
    forall|i: int, j: int|
        0 <= i < j < s.len() ==> (#[trigger] s[i]).key@ != (#[trigger] s[j]).key@
}

/// What stands under a key.
spec fn kept_under<M>(s: Seq<KeptAnswer<M>>, key: Seq<char>) -> Option<KeptView<M>> {
    if exists|i: int| has_key(s, key, i) {
        let i = choose|i: int| has_key(s, key, i);
        Some(KeptView { models: s[i].models@, at: s[i].at })
    } else {
        None
    }
}

/// The answer at a position stands under its key.
proof fn stands_under_its_key<M>(s: Seq<KeptAnswer<M>>, i: int)
    requires
        keys_differ(s),
        0 <= i < s.len(),
    ensures
        kept_under(s, s[i].key@) == Some(KeptView { models: s[i].models@, at: s[i].at }),
{
    assert(has_key(s, s[i].key@, i));
    let j = choose|j: int| has_key(s, s[i].key@, j);
    assert(j == i);
}

/// Where no answer has the key, nothing stands under it.
proof fn stands_nowhere<M>(s: Seq<KeptAnswer<M>>, key: Seq<char>)
    requires
        forall|i: int| 0 <= i < s.len() ==> (#[trigger] s[i]).key@ != key,
    ensures
        kept_under(s, key) is None,
{
}

/// Taking an answer away leaves the others.
proof fn others_stay<M>(s: Seq<KeptAnswer<M>>, i: int, key: Seq<char>)
    requires
        keys_differ(s),
        0 <= i < s.len(),
    ensures
        keys_differ(s.remove(i)),
        kept_under(s.remove(i), key) == (if s[i].key@ == key {
            None
        } else {
            kept_under(s, key)
        }),
{
    let r = s.remove(i);
    assert forall|p: int, q: int| 0 <= p < q < r.len() implies (#[trigger] r[p]).key@ != (
    #[trigger] r[q]).key@ by {
        let p2 = if p < i {
            p
        } else {
            p + 1
        };
        let q2 = if q < i {
            q
        } else {
            q + 1
        };
        assert(s[p2].key@ != s[q2].key@);
    }
    if exists|m: int| has_key(r, key, m) {
        let m = choose|m: int| has_key(r, key, m);
        let k = if m < i {
            m
        } else {
            m + 1
        };
        assert(r[m] == s[k]);
        stands_under_its_key(r, m);
        stands_under_its_key(s, k);
        if s[i].key@ == key {
            if k < i {
                assert(s[k].key@ != s[i].key@);
            } else {
                assert(s[i].key@ != s[k].key@);
            }
        }
    } else if exists|k: int| has_key(s, key, k) {
        let k = choose|k: int| has_key(s, key, k);
        if k != i {
            let m = if k < i {
                k
            } else {
                k - 1
            };
            assert(r[m] == s[k]);
            assert(has_key(r, key, m));
        }
    }
}

/// What is kept under a key after a reply came to a search: a failure changes
/// nothing, a success is kept under its own key, and with it goes what is twice
/// as old as an answer may be.
pub open spec fn after_reply<M>(
    old: Option<KeptView<M>>,
    key: Seq<char>,
    reply: ReplyView<M>,
) -> Option<KeptView<M>> {
    match reply.models {
        None => old,
        Some(models) => if reply.key == key {
            Some(KeptView { models, at: reply.at })
        } else {
            match old {
                Some(k) => if process::elapsed(reply.at, k.at) < 2 * CACHE_TTL_MS {
                    Some(k)
                } else {
                    None
                },
                None => None,
            }
        },
    }
}

/// A reply that came to the search under a key, with its models if it was a
/// success.
pub struct ReplyView<M> {
    pub key: Seq<char>,
    pub models: Option<Seq<M>>,
    pub at: u64,
}

/// What is kept under a key after several replies.
pub open spec fn after_replies<M>(
    old: Option<KeptView<M>>,
    key: Seq<char>,
    replies: Seq<ReplyView<M>>,
) -> Option<KeptView<M>>
    decreases replies.len(),
{
    if replies.len() == 0 {
        old
    } else {
        after_reply(after_replies(old, key, replies.drop_last()), key, replies.last())
    }
}

/// The models that are given again, without asking the hub.
pub open spec fn given_again<M>(kept: Option<KeptView<M>>, now: u64) -> Option<Seq<M>> {
    match kept {
        Some(k) => if process::elapsed(now, k.at) < CACHE_TTL_MS {
            Some(k.models)
        } else {
            None
        },
        None => None,
    }
}

impl<M> SearchCache<M> {
    /// What is kept under a key.
    pub closed spec fn kept(&self, key: Seq<char>) -> Option<KeptView<M>> {
        kept_under(self.entries@, key)
    }

    /// Every key is kept once.
    pub closed spec fn wf(&self) -> bool {
        keys_differ(self.entries@)
    }

    /// Nothing is kept.
    pub fn new() -> (r: SearchCache<M>)
        ensures
            r.wf(),
            forall|key: Seq<char>| #[trigger] r.kept(key) is None,
    {
        SearchCache { entries: Vec::new() }
    }

    /// The models that are given again, without asking the hub: those that came
    /// less than a minute ago.
    pub fn lookup(&self, key: &str, now: u64) -> (r: Option<&Vec<M>>)
        requires
            self.wf(),
        ensures
            match r {
                Some(m) => given_again(self.kept(key@), now) == Some(m@),
                None => given_again(self.kept(key@), now) is None,
            },
    {
        let mut i: usize = 0;
        while i < self.entries.len()
            invariant
                i <= self.entries@.len(),
                keys_differ(self.entries@),
                forall|k: int| 0 <= k < i ==> (#[trigger] self.entries@[k]).key@ != key@,
            decreases self.entries@.len() - i,
        {
            let e: &KeptAnswer<M> = &self.entries[i];
            if text::same(&e.key, key) {
                proof {
                    stands_under_its_key(self.entries@, i as int);
                }
                return if process::since(now, e.at) < CACHE_TTL_MS {
                    Some(&e.models)
                } else {
                    None
                };
            }
            i = i + 1;
        }
        proof {
            stands_nowhere(self.entries@, key@);
        }
        None
    }

    /// Drops what has the key, and what is twice as old as an answer may be.
    fn drop_old(&mut self, key: &str, now: u64)
        requires
            old(self).wf(),
        ensures
            final(self).wf(),
            final(self).kept(key@) is None,
            forall|k: Seq<char>|
                k != key@ ==> #[trigger] final(self).kept(k) == (match old(self).kept(k) {
                    Some(e) => if process::elapsed(now, e.at) < 2 * CACHE_TTL_MS {
                        Some(e)
                    } else {
                        None
                    },
                    None => None,
                }),
    {
        let ghost before = self.entries@;
        let mut i: usize = 0;
        while i < self.entries.len()
            invariant
                i <= self.entries@.len(),
                keys_differ(self.entries@),
                forall|j: int|
                    0 <= j < i ==> (#[trigger] self.entries@[j]).key@ != key@ && process::elapsed(
                        now,
                        self.entries@[j].at,
                    ) < 2 * CACHE_TTL_MS,
                forall|k: Seq<char>|
                    k != key@ ==> (#[trigger] kept_under(self.entries@, k) == kept_under(before, k)
                        || (kept_under(self.entries@, k) is None && (kept_under(before, k)
                        matches Some(e) && process::elapsed(now, e.at) >= 2 * CACHE_TTL_MS))),
            decreases self.entries@.len() - i,
        {
            let e: &KeptAnswer<M> = &self.entries[i];
            let own: bool = text::same(&e.key, key);
            let old: bool = process::since(now, e.at) >= 2 * CACHE_TTL_MS;
            if own || old {
                let ghost now_kept = self.entries@;
                proof {
                    stands_under_its_key(now_kept, i as int);
                    assert forall|k: Seq<char>| k != key@ implies (#[trigger] kept_under(
                        now_kept.remove(i as int),
                        k,
                    ) == kept_under(before, k) || (kept_under(now_kept.remove(i as int), k) is None
                        && (kept_under(before, k) matches Some(e) && process::elapsed(now, e.at)
                        >= 2 * CACHE_TTL_MS))) by {
                        others_stay(now_kept, i as int, k);
                        assert(kept_under(now_kept, k) == kept_under(before, k) || kept_under(
                            now_kept,
                            k,
                        ) is None);
                    }
                    others_stay(now_kept, i as int, key@);
                }
                self.entries.remove(i);
                assert(self.entries@ =~= now_kept.remove(i as int));
            } else {
                i = i + 1;
            }
        }
        proof {
            stands_nowhere(self.entries@, key@);
            assert forall|k: Seq<char>| k != key@ implies #[trigger] kept_under(self.entries@, k)
                == (match kept_under(before, k) {
                Some(e) => if process::elapsed(now, e.at) < 2 * CACHE_TTL_MS {
                    Some(e)
                } else {
                    None
                },
                None => None,
            }) by {
                if exists|m: int| has_key(self.entries@, k, m) {
                    let m = choose|m: int| has_key(self.entries@, k, m);
                    assert(self.entries@[m].key@ != key@);
                }
            }
        }
    }

    /// Takes in what came of asking the hub: a success is kept, and a failure
    /// is answered without models and never kept.
    pub fn store(&mut self, key: &str, reply: HubReply<M>, now: u64) -> (r: Result<
        (),
        HfSearchResponse<M>,
    >)
        requires
            old(self).wf(),
        ensures
            final(self).wf(),
            forall|k: Seq<char>| #[trigger]
                final(self).kept(k) == after_reply(
                    old(self).kept(k),
                    k,
                    (ReplyView { key: key@, models: reply.models(), at: now }),
                ),
            match r {
                Ok(_) => reply.models() is Some,
                Err(answer) => {
                    &&& reply.models() is None
                    &&& answer.models@.len() == 0
                    &&& answer.error matches Some(e) && e@ == reply.fault()
                },
            },
    {
        let error: String = match reply {
            HubReply::Unsent(e) => text::glue("request failed: ", &e),
            HubReply::Refused(e) => text::glue("HuggingFace API returned ", &e),
            HubReply::Unreadable(e) => text::glue("decode failed: ", &e),
            HubReply::Models(models) => {
                self.drop_old(key, now);
                let ghost rest = *self;
                let ghost before = self.entries@;
                self.entries.push(KeptAnswer { key: text::own(key), models, at: now });
                proof {
                    let s = self.entries@;
                    let n = before.len() as int;
                    assert forall|i: int, j: int| 0 <= i < j < s.len() implies (
                    #[trigger] s[i]).key@ != (#[trigger] s[j]).key@ by {
                        assert(s[i] == before[i]);
                        if j == n {
                            if before[i].key@ == key@ {
                                assert(has_key(before, key@, i));
                            }
                        } else {
                            assert(s[j] == before[j]);
                        }
                    }
                    stands_under_its_key(s, n);
                    assert forall|k: Seq<char>| k != key@ implies #[trigger] kept_under(s, k)
                        == kept_under(before, k) by {
                        assert(s.remove(n) =~= before);
                        others_stay(s, n, k);
                    }
                    assert forall|k: Seq<char>| #[trigger] self.kept(k) == after_reply(
                        old(self).kept(k),
                        k,
                        (ReplyView { key: key@, models: reply.models(), at: now }),
                    ) by {
                        if k != key@ {
                            assert(kept_under(s, k) == rest.kept(k));
                        }
                    }
                }
                return Ok(());
            },
        };
        Err(HfSearchResponse { models: Vec::new(), error: Some(error) })
    }
}

/// For a minute after models came to a search, the same search is given them
/// again without asking the hub, whatever replies come to other searches, and
/// whatever fails.
pub proof fn answer_is_given_again<M>(
    kept: KeptView<M>,
    key: Seq<char>,
    replies: Seq<ReplyView<M>>,
    now: u64,
)
    requires
        process::elapsed(now, kept.at) < CACHE_TTL_MS,
        forall|i: int| 0 <= i < replies.len() ==> (#[trigger] replies[i]).at <= now,
        forall|i: int|
            0 <= i < replies.len() && (#[trigger] replies[i]).key == key ==> replies[i].models
                is None,
    ensures
        given_again(after_replies(Some(kept), key, replies), now) == Some(kept.models),
{
    stays_kept(kept, key, replies, now);
}

/// An answer stays kept for the time that it may be given again.
proof fn stays_kept<M>(
    kept: KeptView<M>,
    key: Seq<char>,
    replies: Seq<ReplyView<M>>,
    now: u64,
)
    requires
        process::elapsed(now, kept.at) < CACHE_TTL_MS,
        forall|i: int| 0 <= i < replies.len() ==> (#[trigger] replies[i]).at <= now,
        forall|i: int|
            0 <= i < replies.len() && (#[trigger] replies[i]).key == key ==> replies[i].models
                is None,
    ensures
        after_replies(Some(kept), key, replies) == Some(kept),
    decreases replies.len(),
{
    if replies.len() > 0 {
        let front = replies.drop_last();
        assert forall|i: int| 0 <= i < front.len() implies (#[trigger] front[i]).at <= now && (
        front[i].key == key ==> front[i].models is None) by {
            assert(front[i] == replies[i]);
        }
        stays_kept(kept, key, front, now);
        assert(replies[replies.len() - 1] == replies.last());
    }
}

/// A search to which only failures came is asked again: nothing is kept for it.
pub proof fn failures_are_never_kept<M>(key: Seq<char>, replies: Seq<ReplyView<M>>, now: u64)
    requires
        forall|i: int|
            0 <= i < replies.len() && (#[trigger] replies[i]).key == key ==> replies[i].models
                is None,
    ensures
        after_replies(None, key, replies) is None,
        given_again(after_replies(None, key, replies), now) is None,
    decreases replies.len(),
{
    if replies.len() > 0 {
        let front = replies.drop_last();
        assert forall|i: int|
            0 <= i < front.len() && (#[trigger] front[i]).key == key implies front[i].models
            is None by {
            assert(front[i] == replies[i]);
        }
        failures_are_never_kept(key, front, now);
        assert(replies[replies.len() - 1] == replies.last());
    }
}

// ---------------------------------------------------------------------------
// Tags
// ---------------------------------------------------------------------------

/// Reads what stands behind a prefix of a tag.
pub struct TagValue {
    pub prefix: String,
}

impl LineReader for TagValue {
    type Item = String;

    open spec fn item(&self, line: Seq<char>) -> Option<Seq<char>> {
        text::after_prefix(line, self.prefix@)
    }

    fn read(&self, line: &str) -> (r: Option<String>) {
        text::strip_prefix(line, &self.prefix)
    }
}

/// What stands behind the prefix of the first tag that has it.
pub open spec fn first_tag(tags: Seq<Seq<char>>, prefix: Seq<char>) -> Option<Seq<char>>
    decreases tags.len(),
{
    if tags.len() == 0 {
        None
    } else {
        match text::after_prefix(tags[0], prefix) {
            Some(v) => Some(v),
            None => first_tag(tags.drop_first(), prefix),
        }
    }
}

/// What stands behind the prefix of the tags that have it.
pub open spec fn all_tags(tags: Seq<Seq<char>>, prefix: Seq<char>) -> Seq<Seq<char>>
    decreases tags.len(),
{
    if tags.len() == 0 {
        Seq::empty()
    } else {
        match text::after_prefix(tags.last(), prefix) {
            Some(v) => all_tags(tags.drop_last(), prefix).push(v),
            None => all_tags(tags.drop_last(), prefix),
        }
    }
}

/// The first tag with a prefix is what the reader finds first.
proof fn reader_finds_first(reader: TagValue, tags: Seq<Seq<char>>)
    ensures
        scan::first_in(reader, tags) == first_tag(tags, reader.prefix@),
    decreases tags.len(),
{
    if tags.len() > 0 {
        reader_finds_first(reader, tags.drop_first());
    }
}

/// The tags with a prefix are what the reader finds.
proof fn reader_finds_all(reader: TagValue, tags: Seq<Seq<char>>)
    ensures
        scan::items_in(reader, tags) == all_tags(tags, reader.prefix@),
    decreases tags.len(),
{
    if tags.len() > 0 {
        reader_finds_all(reader, tags.drop_last());
    }
}

/// The model that another was made from.
pub fn parse_base_model(tags: &Vec<String>) -> (r: Option<String>)
    ensures
        r.deep_view() == first_tag(tags.deep_view(), "base_model:"@),
{
    let reader = TagValue { prefix: text::own("base_model:") };
    proof {
        reader_finds_first(reader, tags.deep_view());
    }
    scan::find_in_all(&reader, tags)
}

/// The license of a model.
pub fn parse_license(tags: &Vec<String>) -> (r: Option<String>)
    ensures
        r.deep_view() == first_tag(tags.deep_view(), "license:"@),
{
    let reader = TagValue { prefix: text::own("license:") };
    proof {
        reader_finds_first(reader, tags.deep_view());
    }
    scan::find_in_all(&reader, tags)
}

/// The languages of a model.
pub fn parse_languages(tags: &Vec<String>) -> (r: Vec<String>)
    ensures
        r.deep_view() == all_tags(tags.deep_view(), "language:"@),
{
    let reader = TagValue { prefix: text::own("language:") };
    proof {
        reader_finds_all(reader, tags.deep_view());
    }
    scan::read_all(&reader, tags)
}

// ---------------------------------------------------------------------------
// Models
// ---------------------------------------------------------------------------

/// How a model is quantized, as the hub gives it.
#[derive(Debug)]
pub struct HfRawQuantConfig {
    pub bits: Option<u32>,
}

/// The configuration of a model, as the hub gives it.
#[derive(Debug)]
pub struct HfRawConfig {
    pub architectures: Option<Vec<String>>,
    pub model_type: Option<String>,
    pub quantization_config: Option<HfRawQuantConfig>,
}

/// A file of a model, as the hub gives it.
#[derive(Debug)]
pub struct HfRawSibling {
    pub rfilename: Option<String>,
    pub size: Option<u64>,
}

/// A model, as the hub gives it.
#[derive(Debug)]
pub struct HfRawModel {
    pub id: String,
    pub author: Option<String>,
    pub downloads: Option<u64>,
    pub likes: Option<u64>,
    pub tags: Option<Vec<String>>,
    pub pipeline_tag: Option<String>,
    pub library_name: Option<String>,
    pub last_modified: Option<String>,
    /// A number with a fraction, passed on as it comes.
    pub trending_score: Option<serde_json::Value>,
    /// Whether access is restricted: a boolean or the word for a way of asking
    /// for it, passed on as it comes.
    pub gated: Option<serde_json::Value>,
    pub config: Option<HfRawConfig>,
    pub siblings: Option<Vec<HfRawSibling>>,
}

/// A model, as it is given to clients.
#[derive(Debug)]
pub struct HfModel {
    pub id: String,
    pub author: String,
    pub downloads: u64,
    pub likes: u64,
    pub tags: Vec<String>,
    pub pipeline_tag: Option<String>,
    pub library: Option<String>,
    pub last_modified: String,
    pub trending_score: Option<serde_json::Value>,
    pub gated: serde_json::Value,
    pub architecture: Option<String>,
    pub model_type: Option<String>,
    pub quant_bits: Option<u32>,
    pub base_model: Option<String>,
    pub license: Option<String>,
    pub languages: Vec<String>,
    pub file_count: Option<u32>,
    pub total_size_bytes: Option<u64>,
}

/// The sum of the sizes of files; one without a size adds nothing.
pub open spec fn sizes_sum(files: Seq<HfRawSibling>) -> nat
    decreases files.len(),
{
    if files.len() == 0 {
        0
    } else {
        sizes_sum(files.drop_last()) + match files.last().size {
            Some(n) => n as nat,
            None => 0nat,
        }
    }
}

/// The sum over a part of the files is no larger than that over all.
proof fn sizes_grow(files: Seq<HfRawSibling>, i: int)
    requires
        0 <= i <= files.len(),
    ensures
        sizes_sum(files.take(i)) <= sizes_sum(files),
    decreases files.len() - i,
{
    if i < files.len() {
        sizes_grow(files, i + 1);
        assert(files.take(i + 1).drop_last() =~= files.take(i));
    } else {
        assert(files.take(i) =~= files);
    }
}

/// The sum of the sizes of files, if it is a number of 64 bits.
fn sum_sizes(files: &Vec<HfRawSibling>) -> (r: Option<u64>)
    ensures
        r is Some <==> sizes_sum(files@) <= u64::MAX,
        r matches Some(n) ==> n == sizes_sum(files@),
{
    let mut sum: u64 = 0;
    let mut i: usize = 0;
    while i < files.len()
        invariant
            i <= files@.len(),
            sum == sizes_sum(files@.take(i as int)),
        decreases files@.len() - i,
    {
        proof {
            assert(files@.take(i + 1).drop_last() =~= files@.take(i as int));
            assert(files@.take(i + 1).last() == files@[i as int]);
            sizes_grow(files@, i + 1);
        }
        if let Some(n) = files[i].size {
            if n > u64::MAX - sum {
                return None;
            }
            sum = sum + n;
        }
        i = i + 1;
    }
    assert(files@.take(i as int) =~= files@);
    Some(sum)
}

/// The size of the model is a number of 64 bits.
pub open spec fn size_fits(raw: HfRawModel) -> bool {
    raw.siblings matches Some(files) ==> sizes_sum(files@) <= u64::MAX
}

/// Whether the size of the model is a number of 64 bits.
pub fn has_fitting_size(raw: &HfRawModel) -> (r: bool)
    ensures
        r == size_fits(*raw),
{
    match &raw.siblings {
        Some(files) => sum_sizes(files).is_some(),
        None => true,
    }
}

/// The tags of a model.
pub open spec fn tags_of(raw: HfRawModel) -> Seq<Seq<char>> {
    match raw.tags.deep_view() {
        Some(t) => t,
        None => Seq::empty(),
    }
}

/// The author of a model: who is given, else what stands before the first
/// slash of its id.
pub open spec fn author_of(raw: HfRawModel) -> Seq<char> {
    match raw.author.deep_view() {
        Some(a) => a,
        None => match text::cut_at(raw.id@, '/') {
            Some(p) => p.0,
            None => Seq::empty(),
        },
    }
}

/// The first architecture of a model.
pub open spec fn architecture_of(raw: HfRawModel) -> Option<Seq<char>> {
    match raw.config {
        Some(c) => match c.architectures.deep_view() {
            Some(a) => if a.len() > 0 {
                Some(a[0])
            } else {
                None
            },
            None => None,
        },
        None => None,
    }
}

/// The number of bits of a quantized model.
pub open spec fn bits_of(raw: HfRawModel) -> Option<u32> {
    match raw.config {
        Some(c) => match c.quantization_config {
            Some(q) => q.bits,
            None => None,
        },
        None => None,
    }
}

/// A model of the hub as it is given to clients.
pub fn map_raw(raw: HfRawModel) -> (r: HfModel)
    requires
        size_fits(raw),
    ensures
        r.id@ == raw.id@,
        r.author@ == author_of(raw),
        r.downloads == (match raw.downloads {
            Some(n) => n,
            None => 0,
        }),
        r.likes == (match raw.likes {
            Some(n) => n,
            None => 0,
        }),
        r.tags.deep_view() == tags_of(raw),
        r.pipeline_tag.deep_view() == raw.pipeline_tag.deep_view(),
        r.library.deep_view() == raw.library_name.deep_view(),
        r.last_modified@ == or_default(raw.last_modified.deep_view(), Seq::empty()),
        r.trending_score == raw.trending_score,
        r.gated == (match raw.gated {
            Some(v) => v,
            None => json::json_from_flag(false),
        }),
        r.architecture.deep_view() == architecture_of(raw),
        r.model_type.deep_view() == (match raw.config {
            Some(c) => c.model_type.deep_view(),
            None => None,
        }),
        r.quant_bits == bits_of(raw),
        r.base_model.deep_view() == first_tag(tags_of(raw), "base_model:"@),
        r.license.deep_view() == first_tag(tags_of(raw), "license:"@),
        r.languages.deep_view() == all_tags(tags_of(raw), "language:"@),
        raw.siblings is None ==> r.file_count is None && r.total_size_bytes is None,
        raw.siblings matches Some(files) ==> r.file_count == Some(files@.len() as u32)
            && r.total_size_bytes == Some(sizes_sum(files@) as u64),
{
    let author: String = match &raw.author {
        Some(a) => text::own(a),
        None => match text::cut(&raw.id, '/') {
            Some(p) => p.0,
            None => String::new(),
        },
    };
    let tags: Vec<String> = match raw.tags {
        Some(t) => t,
        None => Vec::new(),
    };
    assert(tags.deep_view() =~= tags_of(raw));
    let mut quant_bits: Option<u32> = None;
    let mut architecture: Option<String> = None;
    let mut model_type: Option<String> = None;
    if let Some(c) = &raw.config {
        if let Some(q) = &c.quantization_config {
            quant_bits = q.bits;
        }
        if let Some(a) = &c.architectures {
            assert(a.deep_view().len() == a@.len());
            if a.len() > 0 {
                assert(a.deep_view()[0] == a@[0]@);
                architecture = Some(text::own(&a[0]));
            }
        }
        model_type = text::own_opt(&c.model_type);
    }
    let mut file_count: Option<u32> = None;
    let mut total_size_bytes: Option<u64> = None;
    if let Some(files) = &raw.siblings {
        file_count = Some(files.len() as u32);
        total_size_bytes = sum_sizes(files);
    }
    let downloads: u64 = match raw.downloads {
        Some(n) => n,
        None => 0,
    };
    let likes: u64 = match raw.likes {
        Some(n) => n,
        None => 0,
    };
    let gated: serde_json::Value = match raw.gated {
        Some(v) => v,
        None => json::from_flag(false),
    };
    let last_modified: String = match raw.last_modified {
        Some(t) => t,
        None => String::new(),
    };
    HfModel {
        id: raw.id,
        author,
        downloads,
        likes,
        pipeline_tag: raw.pipeline_tag,
        library: raw.library_name,
        last_modified,
        trending_score: raw.trending_score,
        gated,
        architecture,
        model_type,
        quant_bits,
        base_model: parse_base_model(&tags),
        license: parse_license(&tags),
        languages: parse_languages(&tags),
        file_count,
        total_size_bytes,
        tags,
    }
}

/// The pairs hold one with that name, and it has that value.
pub open spec fn only_value(
    pairs: Seq<(Seq<char>, Seq<char>)>,
    name: Seq<char>,
    value: Seq<char>,
) -> bool {
    &&& exists|i: int| 0 <= i < pairs.len() && #[trigger] pairs[i] == (name, value)
    &&& forall|i: int, j: int|
        0 <= i < pairs.len() && 0 <= j < pairs.len() && (#[trigger] pairs[i]).0 == name && (
        #[trigger] pairs[j]).0 == name ==> i == j
}

/// The names of parameters tell them apart.
proof fn parameter_names_differ(t: TermsView)
    ensures
        forall|i: int, j: int|
            0 <= i < j < parameters_of(t).len() ==> (#[trigger] parameters_of(t)[i]).0 != (
            #[trigger] parameters_of(t)[j]).0,
{
    reveal_strlit("search");
    reveal_strlit("filter");
    reveal_strlit("sort");
    reveal_strlit("direction");
    reveal_strlit("limit");
    reveal_strlit("full");
    reveal_strlit("config");
    reveal_strlit("pipeline_tag");
    assert("search"@.len() == 6 && "filter"@.len() == 6 && "sort"@.len() == 4);
    assert("direction"@.len() == 9 && "limit"@.len() == 5 && "full"@.len() == 4);
    assert("config"@.len() == 6 && "pipeline_tag"@.len() == 12);
    assert("search"@[0] == 's' && "filter"@[0] == 'f' && "config"@[0] == 'c');
    assert("sort"@[0] == 's' && "full"@[0] == 'f');
}

/// The request to the hub asks for what the client asked for: the text of the
/// client is searched for, or the filter where there is none; the filter, the
/// order, the number of models and the pipeline are the client's, or `mlx`,
/// `downloads`, fifteen and none. Each is given once.
#[verifier::rlimit(60)]
pub proof fn request_asks_for_the_query(q: HfSearchQuery)
    ensures
        only_value(
            parameters_of(terms_of(q)),
            "search"@,
            match (q.q.deep_view(), q.filter.deep_view()) {
                (Some(t), _) if t.len() > 0 => t,
                (_, Some(f)) => f,
                _ => "mlx"@,
            },
        ),
        only_value(
            parameters_of(terms_of(q)),
            "filter"@,
            match q.filter.deep_view() {
                Some(f) => f,
                None => "mlx"@,
            },
        ),
        only_value(
            parameters_of(terms_of(q)),
            "sort"@,
            match q.sort.deep_view() {
                Some(s) => s,
                None => "downloads"@,
            },
        ),
        only_value(
            parameters_of(terms_of(q)),
            "limit"@,
            text::dec(
                match q.limit {
                    Some(n) => n as nat,
                    None => 15,
                },
            ),
        ),
        only_value(parameters_of(terms_of(q)), "direction"@, "-1"@),
        only_value(parameters_of(terms_of(q)), "full"@, "true"@),
        only_value(parameters_of(terms_of(q)), "config"@, "true"@),
        match q.pipeline_tag.deep_view() {
            Some(t) if t.len() > 0 => only_value(parameters_of(terms_of(q)), "pipeline_tag"@, t),
            _ => forall|i: int|
                0 <= i < parameters_of(terms_of(q)).len() ==> (#[trigger] parameters_of(
                    terms_of(q),
                )[i]).0 != "pipeline_tag"@,
        },
{
    let t = terms_of(q);
    let p = parameters_of(t);
    parameter_names_differ(t);
    assert(p[0].0 == "search"@ && p[1].0 == "filter"@ && p[2].0 == "sort"@);
    assert(p[3].0 == "direction"@ && p[4].0 == "limit"@ && p[5].0 == "full"@);
    assert(p[6].0 == "config"@);
    let full = parameters_of(TermsView { pipeline_tag: seq!['x'], ..t });
    parameter_names_differ(TermsView { pipeline_tag: seq!['x'], ..t });
    assert(full[7].0 == "pipeline_tag"@);
    assert forall|i: int|
        t.pipeline_tag.len() == 0 && 0 <= i < p.len() implies (#[trigger] p[i]).0
        != "pipeline_tag"@ by {
        assert(full[i] == p[i]);
    }
    if t.pipeline_tag.len() > 0 {
        assert(p[7] == ("pipeline_tag"@, t.pipeline_tag));
    }
}

/// Two keys that are equal up to the part behind the first `&` have equal
/// parts before and behind it.
proof fn parts_agree(a: Seq<char>, b: Seq<char>, c: Seq<char>, d: Seq<char>)
    requires
        !a.contains('&'),
        !c.contains('&'),
        b.len() > 0 && b[0] == '&',
        d.len() > 0 && d[0] == '&',
        a + b == c + d,
    ensures
        a == c,
        b == d,
{
    if a.len() < c.len() {
        assert((a + b)[a.len() as int] == '&');
        assert((c + d)[a.len() as int] == c[a.len() as int]);
    }
    if c.len() < a.len() {
        assert((c + d)[c.len() as int] == '&');
        assert((a + b)[c.len() as int] == a[c.len() as int]);
    }
    assert((a + b).take(a.len() as int) =~= a);
    assert((c + d).take(a.len() as int) =~= c);
    assert((a + b).skip(a.len() as int) =~= b);
    assert((c + d).skip(a.len() as int) =~= d);
}

/// The same label before two values that agree together.
proof fn labels_agree(label: Seq<char>, x: Seq<char>, y: Seq<char>)
    requires
        label + x == label + y,
    ensures
        x == y,
{
    assert((label + x).skip(label.len() as int) =~= x);
    assert((label + y).skip(label.len() as int) =~= y);
}

/// A label without `&` before a value without `&` holds none.
proof fn labelled_is_plain(label: Seq<char>, x: Seq<char>)
    requires
        !label.contains('&'),
        !x.contains('&'),
    ensures
        !(label + x).contains('&'),
{
    let s = label + x;
    if s.contains('&') {
        let i = choose|i: int| 0 <= i < s.len() && s[i] == '&';
        if i < label.len() {
            assert(label[i] == '&');
        } else {
            assert(x[i - label.len()] == '&');
        }
    }
}

/// An answer is kept for its query alone: two queries whose texts hold no `&`
/// have the same key only where they ask for the same.
#[verifier::rlimit(60)]
pub proof fn key_tells_queries_apart(a: TermsView, b: TermsView)
    requires
        !a.search.contains('&') && !b.search.contains('&'),
        !a.filter.contains('&') && !b.filter.contains('&'),
        !a.sort.contains('&') && !b.sort.contains('&'),
        key_of(a) == key_of(b),
    ensures
        a == b,
{
    reveal_strlit("search=");
    reveal_strlit("&filter=");
    reveal_strlit("&sort=");
    reveal_strlit("&limit=");
    reveal_strlit("&pipeline=");
    let la = text::dec(a.limit);
    let lb = text::dec(b.limit);
    text::digits_hold_no(a.limit, '&');
    text::digits_hold_no(b.limit, '&');
    let a4 = "&pipeline="@ + a.pipeline_tag;
    let b4 = "&pipeline="@ + b.pipeline_tag;
    let a3 = "&limit="@ + la + a4;
    let b3 = "&limit="@ + lb + b4;
    let a2 = "&sort="@ + a.sort + a3;
    let b2 = "&sort="@ + b.sort + b3;
    let a1 = "&filter="@ + a.filter + a2;
    let b1 = "&filter="@ + b.filter + b2;
    assert(key_of(a) =~= ("search="@ + a.search) + a1);
    assert(key_of(b) =~= ("search="@ + b.search) + b1);
    assert(!"search="@.contains('&'));
    labelled_is_plain("search="@, a.search);
    labelled_is_plain("search="@, b.search);
    assert(a1[0] == '&' && b1[0] == '&');
    parts_agree("search="@ + a.search, a1, "search="@ + b.search, b1);
    labels_agree("search="@, a.search, b.search);
    assert(a1 =~= "&filter="@ + (a.filter + a2));
    assert(b1 =~= "&filter="@ + (b.filter + b2));
    labels_agree("&filter="@, a.filter + a2, b.filter + b2);
    assert(a2[0] == '&' && b2[0] == '&');
    parts_agree(a.filter, a2, b.filter, b2);
    assert(a2 =~= "&sort="@ + (a.sort + a3));
    assert(b2 =~= "&sort="@ + (b.sort + b3));
    labels_agree("&sort="@, a.sort + a3, b.sort + b3);
    assert(a3[0] == '&' && b3[0] == '&');
    parts_agree(a.sort, a3, b.sort, b3);
    assert(a3 =~= "&limit="@ + (la + a4));
    assert(b3 =~= "&limit="@ + (lb + b4));
    labels_agree("&limit="@, la + a4, lb + b4);
    assert(a4[0] == '&' && b4[0] == '&');
    parts_agree(la, a4, lb, b4);
    labels_agree("&pipeline="@, a.pipeline_tag, b.pipeline_tag);
    if a.limit != b.limit {
        crate::rdma::numerals_differ(a.limit, b.limit);
    }
}

/// What stands behind the prefix of the first tag that has it is given, and
/// nothing only where no tag has it.
pub proof fn first_tag_is_first(tags: Seq<Seq<char>>, prefix: Seq<char>)
    ensures
        match first_tag(tags, prefix) {
            Some(v) => exists|i: int|
                0 <= i < tags.len() && #[trigger] tags[i] == prefix + v && forall|j: int|
                    0 <= j < i ==> !text::starts(#[trigger] tags[j], prefix),
            None => forall|j: int| 0 <= j < tags.len() ==> !text::starts(#[trigger] tags[j], prefix),
        },
    decreases tags.len(),
{
    if tags.len() > 0 {
        let rest = tags.drop_first();
        if text::starts(tags[0], prefix) {
            assert(tags[0] =~= prefix + tags[0].skip(prefix.len() as int));
        } else {
            first_tag_is_first(rest, prefix);
            if let Some(v) = first_tag(rest, prefix) {
                let i = choose|i: int|
                    0 <= i < rest.len() && #[trigger] rest[i] == prefix + v && forall|j: int|
                        0 <= j < i ==> !text::starts(#[trigger] rest[j], prefix);
                assert(tags[i + 1] == prefix + v);
                assert forall|j: int| 0 <= j < i + 1 implies !text::starts(
                    #[trigger] tags[j],
                    prefix,
                ) by {
                    if j > 0 {
                        assert(rest[j - 1] == tags[j]);
                    }
                }
            } else {
                assert forall|j: int| 0 <= j < tags.len() implies !text::starts(
                    #[trigger] tags[j],
                    prefix,
                ) by {
                    if j > 0 {
                        assert(rest[j - 1] == tags[j]);
                    }
                }
            }
        }
    }
}

/// What stands behind the prefix of each tag that has it is given, and nothing
/// else.
pub proof fn every_tag_is_read(tags: Seq<Seq<char>>, prefix: Seq<char>, v: Seq<char>)
    ensures
        all_tags(tags, prefix).contains(v) <==> tags.contains(prefix + v),
    decreases tags.len(),
{
    if tags.len() > 0 {
        let front = tags.drop_last();
        let rest = all_tags(front, prefix);
        let now = all_tags(tags, prefix);
        let t = tags.last();
        let k = tags.len() - 1;
        every_tag_is_read(front, prefix, v);
        assert((prefix + v).take(prefix.len() as int) =~= prefix);
        assert((prefix + v).skip(prefix.len() as int) =~= v);
        if text::starts(t, prefix) {
            assert(t =~= prefix + t.skip(prefix.len() as int));
        }
        if now.contains(v) {
            let m = choose|m: int| 0 <= m < now.len() && now[m] == v;
            if m < rest.len() {
                assert(rest[m] == v);
                let i = choose|i: int| 0 <= i < front.len() && front[i] == prefix + v;
                assert(tags[i] == prefix + v);
            } else {
                assert(tags[k] == prefix + v);
            }
        }
        if tags.contains(prefix + v) {
            let i = choose|i: int| 0 <= i < tags.len() && tags[i] == prefix + v;
            if i < k {
                assert(front[i] == prefix + v);
                assert(rest.contains(v));
                let m = choose|m: int| 0 <= m < rest.len() && rest[m] == v;
                assert(now[m] == v);
            } else {
                assert(now.last() == v);
            }
        }
    }
}

/// The author of a model is the one that is given, or else what stands before
/// the slash of its id.
pub proof fn author_stands_before_the_slash(raw: HfRawModel, owner: Seq<char>, name: Seq<char>)
    requires
        raw.id@ == owner + seq!['/'] + name,
        !owner.contains('/'),
    ensures
        raw.author.deep_view() matches Some(a) ==> author_of(raw) == a,
        raw.author is None ==> author_of(raw) == owner,
{
    text::cut_at_first(owner, '/', name);
}

/// The size of a model is the sum of the sizes of its files.
pub proof fn file_sizes_add_up(
    files: Seq<HfRawSibling>,
    more: Seq<HfRawSibling>,
    file: HfRawSibling,
)
    ensures
        sizes_sum(files + more) == sizes_sum(files) + sizes_sum(more),
        file.size matches Some(n) ==> sizes_sum(seq![file]) == n,
        file.size is None ==> sizes_sum(seq![file]) == 0,
        sizes_sum(Seq::empty()) == 0,
    decreases more.len(),
{
    assert(seq![file].drop_last() =~= Seq::empty());
    assert(sizes_sum(seq![file].drop_last()) == 0);
    assert(seq![file].last() == file);
    if more.len() > 0 {
        file_sizes_add_up(files, more.drop_last(), file);
        assert((files + more).drop_last() =~= files + more.drop_last());
    } else {
        assert(files + more =~= files);
    }
}

/// A model has the first architecture that it names, the bits that it was cut
/// to, and its own tags.
pub proof fn model_tells_its_shape(raw: HfRawModel)
    ensures
        raw.config matches Some(c) ==> (c.architectures.deep_view() matches Some(a) ==> (a.len() > 0
            ==> architecture_of(raw) == Some(a[0]))),
        raw.config matches Some(c) ==> (c.quantization_config matches Some(q) ==> bits_of(raw)
            == q.bits),
        raw.config is None ==> architecture_of(raw) is None && bits_of(raw) is None,
        raw.tags.deep_view() matches Some(t) ==> tags_of(raw) == t,
        raw.tags is None ==> tags_of(raw).len() == 0,
{
}

/// An answer is given again while it is fresh, and an answer to another query
/// drops it only once it is twice as old as that.
pub proof fn fresh_answers_are_kept<M>(k: KeptView<M>, key: Seq<char>, reply: ReplyView<M>, now: u64)
    ensures
        process::elapsed(now, k.at) < 60_000 <==> given_again(Some(k), now) == Some(k.models),
        process::elapsed(now, k.at) >= 60_000 <==> given_again(Some(k), now) is None,
        reply.key != key && process::elapsed(reply.at, k.at) < 120_000 ==> after_reply(
            Some(k),
            key,
            reply,
        ) == Some(k),
        reply.key != key && reply.models is Some && process::elapsed(reply.at, k.at) >= 120_000
            ==> after_reply(Some(k), key, reply) is None,
        reply.key == key ==> (reply.models matches Some(m) ==> (after_reply(Some(k), key, reply)
            matches Some(n) && n.models == m && n.at == reply.at)),
{
}

} // verus!
