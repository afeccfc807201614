//! Downloads of models: what may be asked for, how the progress of a download
//! is read, and the life of a job.

use crate::numeral;
use crate::order;
use crate::order::Ranked;
use crate::serve;
use crate::text;
use vstd::prelude::*;
use vstd::string::*;

verus! {

// ---------------------------------------------------------------------------
// Requests
// ---------------------------------------------------------------------------

/// A request for a download.
#[derive(Debug)]
pub struct DownloadRequest {
    pub hf_id: String,
    pub target_dir: Option<String>,
}

/// The answer to a request.
#[derive(Debug)]
pub struct DownloadStartResponse {
    pub job_id: String,
    pub status: String,
    pub target_dir: String,
}

/// Whether a regular expression of the crate `regex` matches somewhere in a
/// text; nothing where the expression cannot be compiled.
pub uninterp spec fn regex_matches(pattern: Seq<char>, text: Seq<char>) -> Option<bool>;

/// Calls `regex::Regex::new` and `regex::Regex::is_match`. The result depends
/// on the pattern and the text alone.
#[verifier::external_body]
fn matches_regex(pattern: &str, text: &str) -> (r: Option<bool>)
    ensures
        r == regex_matches(pattern@, text@),
{
    regex::Regex::new(pattern).ok().map(|re| re.is_match(text))
}

/// The form of the id of a model: two names with a slash between them.
pub open spec fn id_pattern() -> Seq<char> {
    "^[\\w\\-\\.]+/[\\w\\-\\.]+$"@
}

/// The id has the form of one.
pub open spec fn valid_id(id: Seq<char>) -> bool {
    regex_matches(id_pattern(), id) == Some(true)
}

/// What is said of an id that has not the form of one.
pub open spec fn invalid_id_text(id: Seq<char>) -> Seq<char> {
    "Invalid model ID format: "@ + id
}

/// Whether an id is accepted, given whether it has the form of one.
pub fn judge_hf_id(id: &str, well_formed: bool) -> (r: Result<(), String>)
    ensures
        match r {
            Ok(_) => well_formed,
            Err(e) => !well_formed && e@ == invalid_id_text(id@),
        },
{
    if well_formed {
        Ok(())
    } else {
        Err(text::glue("Invalid model ID format: ", id))
    }
}

/// Whether an id is accepted.
pub fn validate_hf_id(id: &str) -> (r: Result<(), String>)
    ensures
        match r {
            Ok(_) => valid_id(id@),
            Err(e) => !valid_id(id@) && e@ == invalid_id_text(id@),
        },
{
    let well_formed: bool = match matches_regex("^[\\w\\-\\.]+/[\\w\\-\\.]+$", id) {
        Some(b) => b,
        None => false,
    };
    judge_hf_id(id, well_formed)
}

/// The directory holds nothing that leads out of it or that a shell reads.
pub open spec fn safe_dir(dir: Seq<char>) -> bool {
    !text::has(dir, ".."@) && !text::has(dir, ";"@) && !text::has(dir, "|"@) && !text::has(
        dir,
        "`"@,
    )
}

/// Whether a directory is accepted.
pub fn validate_target_dir(dir: &str) -> (r: Result<(), String>)
    ensures
        match r {
            Ok(_) => safe_dir(dir@),
            Err(e) => !safe_dir(dir@) && e@ == "Invalid target directory"@,
        },
{
    if text::contains(dir, "..") || text::contains(dir, ";") || text::contains(dir, "|")
        || text::contains(dir, "`") {
        Err(text::own("Invalid target directory"))
    } else {
        Ok(())
    }
}

/// A path with the home directory in place of a leading tilde.
pub open spec fn tilde_path(p: Seq<char>, home: Option<Seq<char>>) -> Seq<char> {
    match home {
        Some(h) => match text::after_prefix(p, "~/"@) {
            Some(rest) => serve::path_from(h, rest),
            None => if p == "~"@ {
                h
            } else {
                p
            },
        },
        None => p,
    }
}

/// A path with the home directory in place of a leading tilde.
pub fn expand_tilde(p: &str, home: &Option<String>) -> (r: String)
    ensures
        r@ == tilde_path(p@, home.deep_view()),
{
    match home {
        None => text::own(p),
        Some(h) => match text::strip_prefix(p, "~/") {
            Some(rest) => serve::resolve_path(h, &rest),
            None => if text::same(p, "~") {
                text::own(h)
            } else {
                text::own(p)
            },
        },
    }
}

/// The directory of a model: below the base, with two hyphens in place of the
/// slash of its id.
pub open spec fn model_dir(base: Seq<char>, id: Seq<char>) -> Seq<char> {
    text::trim_end_char(base, '/') + "/"@ + text::joined(text::split_on(id, '/'), "--"@)
}

/// What a request leads to.
pub struct DownloadPlan {
    pub hf_id: String,
    pub target_dir: String,
}

/// The directory that a request names.
pub open spec fn wanted_dir(dir: Option<Seq<char>>) -> Seq<char> {
    match dir {
        Some(d) => d,
        None => "~/Models"@,
    }
}

/// The directory of a model is named after it: below the base, which may end
/// in slashes, with the two names of its id and two hyphens between them.
pub proof fn directory_is_named_after_model(
    base: Seq<char>,
    slashes: Seq<char>,
    owner: Seq<char>,
    name: Seq<char>,
)
    requires
        base.len() > 0 ==> base.last() != '/',
        forall|i: int| 0 <= i < slashes.len() ==> slashes[i] == '/',
        !owner.contains('/'),
        !name.contains('/'),
    ensures
        model_dir(base + slashes, owner + seq!['/'] + name) == base + "/"@ + owner + "--"@ + name,
{
    let all = base + slashes;
    text::end_is_trimmed(all, '/');
    let n = text::trim_end_char(all, '/').len() as int;
    if n < base.len() {
        assert(all[base.len() - 1] == base.last());
    }
    if n > base.len() {
        assert(text::trim_end_char(all, '/').last() == all.take(n).last());
        assert(all[n - 1] == slashes[n - 1 - base.len()]);
    }
    assert(all.take(n) =~= base);
    text::one_is_replaced(owner, '/', name, "--"@);
    assert(model_dir(all, owner + seq!['/'] + name) =~= base + "/"@ + owner + "--"@ + name);
}

/// Without a directory of its own, a model goes below `Models` in the home
/// directory.
pub proof fn models_go_home(home: Seq<char>, owner: Seq<char>, name: Seq<char>)
    requires
        home.len() > 0,
        home.last() != '/',
        !owner.contains('/'),
        !name.contains('/'),
    ensures
        model_dir(tilde_path(wanted_dir(None), Some(home)), owner + seq!['/'] + name) == home
            + "/Models/"@ + owner + "--"@ + name,
{
    reveal_strlit("~/Models");
    reveal_strlit("~/");
    reveal_strlit("/");
    reveal_strlit("/Models/");
    reveal_strlit("Models");
    let wanted = "~/Models"@;
    assert(wanted.take(2) =~= "~/"@);
    assert(wanted.skip(2) =~= "Models"@);
    assert(!text::starts("Models"@, "/"@)) by {
        assert("Models"@.take(1)[0] == 'M');
    }
    assert(!text::ends(home, "/"@)) by {
        assert(home.skip(home.len() - 1)[0] == home.last());
    }
    let base = home + "/"@ + "Models"@;
    assert(tilde_path(wanted, Some(home)) == base);
    assert(base.last() == 's');
    directory_is_named_after_model(base, Seq::empty(), owner, name);
    assert(base + Seq::<char>::empty() =~= base);
    assert(base + "/"@ =~= home + "/Models/"@);
}

/// The owner of a model is one whose end can be told in the name of a
/// directory: it holds no two hyphens in a row, and does not end in one.
pub open spec fn plain_owner(owner: Seq<char>) -> bool {
    &&& !text::has(owner, "--"@)
    &&& owner.len() > 0 ==> owner.last() != '-'
}

/// Two models have different directories below the same base.
#[verifier::rlimit(60)]
pub proof fn directories_differ(
    base: Seq<char>,
    owner: Seq<char>,
    name: Seq<char>,
    other_owner: Seq<char>,
    other_name: Seq<char>,
)
    requires
        !owner.contains('/'),
        !name.contains('/'),
        !other_owner.contains('/'),
        !other_name.contains('/'),
        plain_owner(owner),
        plain_owner(other_owner),
        owner != other_owner || name != other_name,
    ensures
        model_dir(base, owner + seq!['/'] + name) != model_dir(
            base,
            other_owner + seq!['/'] + other_name,
        ),
{
    let stem = text::trim_end_char(base, '/') + "/"@;
    text::one_is_replaced(owner, '/', name, "--"@);
    text::one_is_replaced(other_owner, '/', other_name, "--"@);
    let a = owner + "--"@ + name;
    let b = other_owner + "--"@ + other_name;
    if stem + a == stem + b {
        assert((stem + a).skip(stem.len() as int) =~= a);
        assert((stem + b).skip(stem.len() as int) =~= b);
        reveal_strlit("--");
        if owner.len() < other_owner.len() {
            shorter_owner_differs(owner, name, other_owner, other_name);
        } else if other_owner.len() < owner.len() {
            shorter_owner_differs(other_owner, other_name, owner, name);
        } else {
            assert(a.take(owner.len() as int) =~= owner);
            assert(b.take(owner.len() as int) =~= other_owner);
            assert(a.skip(owner.len() as int + 2) =~= name);
            assert(b.skip(owner.len() as int + 2) =~= other_name);
        }
    }
}

/// An owner that is shorter than another, which is plain, gives another name.
proof fn shorter_owner_differs(
    owner: Seq<char>,
    name: Seq<char>,
    other_owner: Seq<char>,
    other_name: Seq<char>,
)
    requires
        owner.len() < other_owner.len(),
        plain_owner(other_owner),
    ensures
        owner + "--"@ + name != other_owner + "--"@ + other_name,
{
    reveal_strlit("--");
    let a = owner + "--"@ + name;
    let b = other_owner + "--"@ + other_name;
    if a == b {
        let k = owner.len() as int;
        assert(a[k] == '-' && a[k + 1] == '-');
        if k + 1 < other_owner.len() {
            assert(other_owner.subrange(k, k + 2) =~= "--"@) by {
                assert(b[k] == other_owner[k] && b[k + 1] == other_owner[k + 1]);
            }
            assert(text::occurs_at(other_owner, "--"@, k));
        } else {
            assert(b[k] == other_owner.last());
        }
    }
}

/// What a request leads to, given whether its id has the form of one: an
/// error for such an id, then for a directory that is not accepted.
pub fn judge_download(id: &str, well_formed: bool, dir: &Option<String>, home: &Option<String>) -> (r:
    Result<DownloadPlan, String>)
    ensures
        if !well_formed {
            r matches Err(e) && e@ == invalid_id_text(id@)
        } else if !safe_dir(wanted_dir(dir.deep_view())) {
            r matches Err(e) && e@ == "Invalid target directory"@
        } else {
            r matches Ok(p) && p.hf_id@ == id@ && p.target_dir@ == model_dir(
                tilde_path(wanted_dir(dir.deep_view()), home.deep_view()),
                id@,
            )
        },
{
    match judge_hf_id(id, well_formed) {
        Err(e) => return Err(e),
        Ok(_) => {},
    }
    let raw: String = match dir {
        Some(d) => text::own(d),
        None => text::own("~/Models"),
    };
    match validate_target_dir(&raw) {
        Err(e) => Err(e),
        Ok(_) => {
            let base: String = expand_tilde(&raw, home);
            let mut full: String = text::glue(&text::trim_end_matches(&base, '/'), "/");
            full.append(&text::replace_char(id, '/', "--"));
            Ok(DownloadPlan { hf_id: text::own(id), target_dir: full })
        },
    }
}

/// What a request leads to.
pub fn plan_download(req: &DownloadRequest, home: &Option<String>) -> (r: Result<
    DownloadPlan,
    String,
>)
    ensures
        ({
            let id = text::trimmed(req.hf_id@);
            if !valid_id(id) {
                r matches Err(e) && e@ == invalid_id_text(id)
            } else if !safe_dir(wanted_dir(req.target_dir.deep_view())) {
                r matches Err(e) && e@ == "Invalid target directory"@
            } else {
                r matches Ok(p) && p.hf_id@ == id && p.target_dir@ == model_dir(
                    tilde_path(wanted_dir(req.target_dir.deep_view()), home.deep_view()),
                    id,
                )
            }
        }),
{
    let id: String = text::trim(&req.hf_id);
    let ok: bool = validate_hf_id(&id).is_ok();
    judge_download(&id, ok, &req.target_dir, home)
}

impl DownloadStartResponse {
    /// The answer to a request whose job has begun.
    pub fn started(job_id: String, target_dir: String) -> (r: DownloadStartResponse)
        ensures
            r.job_id == job_id,
            r.status@ == "started"@,
            r.target_dir == target_dir,
    {
        DownloadStartResponse { job_id, status: text::own("started"), target_dir }
    }
}

// ---------------------------------------------------------------------------
// The command
// ---------------------------------------------------------------------------

/// The programs that can download a model, the first that is there first.
pub open spec fn cli_paths() -> Seq<Seq<char>> {
    seq![
        "/opt/homebrew/bin/huggingface-cli"@,
        "/usr/local/bin/huggingface-cli"@,
        "/opt/homebrew/bin/hf"@,
        "/usr/local/bin/hf"@,
    ]
}

/// The programs that can download a model.
pub fn cli_candidates() -> (r: Vec<String>)
    ensures
        r.deep_view() == cli_paths(),
{
    let mut v: Vec<String> = Vec::new();
    text::push_str(&mut v, "/opt/homebrew/bin/huggingface-cli");
    text::push_str(&mut v, "/usr/local/bin/huggingface-cli");
    text::push_str(&mut v, "/opt/homebrew/bin/hf");
    text::push_str(&mut v, "/usr/local/bin/hf");
    assert(v.deep_view() =~= cli_paths());
    v
}

/// The program that downloads a model: the one that was found, or what the
/// search path gives.
pub fn choose_cli(found: Option<String>) -> (r: String)
    ensures
        r@ == (match found.deep_view() {
            Some(p) => p,
            None => "huggingface-cli"@,
        }),
{
    match found {
        Some(p) => p,
        None => text::own("huggingface-cli"),
    }
}

/// The arguments of the program.
pub fn cli_args(target_dir: &str, hf_id: &str) -> (r: Vec<String>)
    ensures
        r.deep_view() == seq!["download"@, "--local-dir"@, target_dir@, hf_id@],
{
    let mut v: Vec<String> = Vec::new();
    text::push_str(&mut v, "download");
    text::push_str(&mut v, "--local-dir");
    text::push_str(&mut v, target_dir);
    text::push_str(&mut v, hf_id);
    assert(v.deep_view() =~= seq!["download"@, "--local-dir"@, target_dir@, hf_id@]);
    v
}

/// The search path of the program: with the usual directories, unless they
/// are there.
pub fn search_path(path: &str) -> (r: String)
    ensures
        r@ == (if text::has(path@, "/opt/homebrew/bin"@) {
            path@
        } else {
            "/opt/homebrew/bin:/usr/local/bin:/usr/bin:/bin:"@ + path@
        }),
{
    if text::contains(path, "/opt/homebrew/bin") {
        text::own(path)
    } else {
        text::glue("/opt/homebrew/bin:/usr/local/bin:/usr/bin:/bin:", path)
    }
}

/// The token in a file: what it holds but for white space, if anything.
pub fn read_token(content: &str) -> (r: Option<String>)
    ensures
        r.deep_view() == (if text::trimmed(content@).len() > 0 {
            Some(text::trimmed(content@))
        } else {
            None
        }),
{
    let t: String = text::trim(content);
    if t.as_str().is_empty() {
        None
    } else {
        Some(t)
    }
}

// ---------------------------------------------------------------------------
// Progress
// ---------------------------------------------------------------------------

/// An amount of bytes as it is written: a number, and what it is multiplied
/// with.
#[derive(Debug)]
pub struct SizeToken {
    pub number: String,
    pub multiplier: u64,
}

/// An amount of bytes, with its number as a text.
pub struct SizeView {
    pub number: Seq<char>,
    pub multiplier: u64,
}

impl DeepView for SizeToken {
    type V = SizeView;

    open spec fn deep_view(&self) -> SizeView {
        SizeView { number: self.number@, multiplier: self.multiplier }
    }
}

/// What the letter behind a number multiplies it with.
pub open spec fn letter_value(c: char) -> Option<u64> {
    if c == 'K' || c == 'k' {
        Some(1024)
    } else if c == 'M' || c == 'm' {
        Some(1_048_576)
    } else if c == 'G' || c == 'g' {
        Some(1_073_741_824)
    } else if c == 'T' || c == 't' {
        Some(1_099_511_627_776)
    } else {
        None
    }
}

/// `s` without one letter B at its end.
pub open spec fn without_b(s: Seq<char>) -> Seq<char> {
    if s.len() > 0 && (s.last() == 'B' || s.last() == 'b') {
        s.drop_last()
    } else {
        s
    }
}

/// The amount that a token writes.
pub open spec fn size_of(tok: Seq<char>) -> Option<SizeView> {
    let u = without_b(text::trimmed(tok));
    if u.len() == 0 {
        None
    } else {
        match letter_value(u.last()) {
            Some(m) => if numeral::is_number(u.drop_last()) {
                Some(SizeView { number: u.drop_last(), multiplier: m })
            } else {
                None
            },
            None => if (text::is_digit(u.last()) || u.last() == '.') && numeral::is_number(u) {
                Some(SizeView { number: u, multiplier: 1 })
            } else {
                None
            },
        }
    }
}

/// What the letter behind a number multiplies it with.
fn read_letter(c: char) -> (r: Option<u64>)
    ensures
        r == letter_value(c),
{
    if c == 'K' || c == 'k' {
        Some(1024)
    } else if c == 'M' || c == 'm' {
        Some(1_048_576)
    } else if c == 'G' || c == 'g' {
        Some(1_073_741_824)
    } else if c == 'T' || c == 't' {
        Some(1_099_511_627_776)
    } else {
        None
    }
}

/// The amount that a token such as `1.23G`, `456MB` or `100` writes.
pub fn parse_size_token(tok: &str) -> (r: Option<SizeToken>)
    ensures
        r.deep_view() == size_of(tok@),
{
    let t: String = text::trim(tok);
    let v: Vec<char> = text::chars_of(&t);
    let n: usize = if v.len() > 0 && (v[v.len() - 1] == 'B' || v[v.len() - 1] == 'b') {
        v.len() - 1
    } else {
        v.len()
    };
    let ghost u = without_b(t@);
    assert(v@.take(n as int) =~= u);
    if n == 0 {
        return None;
    }
    let c: char = v[n - 1];
    assert(u.last() == c);
    match read_letter(c) {
        Some(m) => {
            let number: String = text::string_of(&v, 0, n - 1);
            assert(number@ =~= u.drop_last());
            if numeral::writes_number(&number) {
                Some(SizeToken { number, multiplier: m })
            } else {
                None
            }
        },
        None => if ('0' <= c && c <= '9') || c == '.' {
            let number: String = text::string_of(&v, 0, n);
            assert(number@ =~= u);
            if numeral::writes_number(&number) {
                Some(SizeToken { number, multiplier: 1 })
            } else {
                None
            }
        } else {
            None
        },
    }
}

/// The last place of `c` in `s`, or -1.
pub open spec fn last_place(s: Seq<char>, c: char) -> int
    decreases s.len(),
{
    if s.len() == 0 {
        -1
    } else if s.last() == c {
        s.len() - 1
    } else {
        last_place(s.drop_last(), c)
    }
}

/// The last place lies in the text, or there is none.
proof fn last_place_bound(s: Seq<char>, c: char)
    ensures
        -1 <= last_place(s, c) < s.len(),
        last_place(s, c) >= 0 ==> s[last_place(s, c)] == c,
    decreases s.len(),
{
    if s.len() > 0 && s.last() != c {
        last_place_bound(s.drop_last(), c);
        let i = last_place(s, c);
        if i >= 0 {
            assert(s[i] == s.drop_last()[i]);
        }
    }
}

/// The last place of `c`.
fn find_last(v: &Vec<char>, c: char) -> (r: Option<usize>)
    ensures
        match r {
            Some(i) => last_place(v@, c) == i && i < v@.len(),
            None => last_place(v@, c) == -1,
        },
{
    let mut i: usize = v.len();
    assert(v@.take(i as int) =~= v@);
    while i > 0
        invariant
            i <= v@.len(),
            last_place(v@, c) == last_place(v@.take(i as int), c),
        decreases i,
    {
        let ghost t = v@.take(i as int);
        assert(t.last() == v@[i - 1]);
        assert(t.drop_last() =~= v@.take(i - 1));
        if v[i - 1] == c {
            return Some(i - 1);
        }
        i = i - 1;
    }
    None
}

/// The last of the words that holds a slash.
pub open spec fn last_with_slash(words: Seq<Seq<char>>) -> Option<Seq<char>>
    decreases words.len(),
{
    if words.len() == 0 {
        None
    } else if text::has(words.last(), "/"@) {
        Some(words.last())
    } else {
        last_with_slash(words.drop_last())
    }
}

/// The two amounts on both sides of the first slash of a word.
pub open spec fn counts_in(word: Option<Seq<char>>) -> (Option<SizeView>, Option<SizeView>) {
    match word {
        Some(w) => match text::cut_at(w, '/') {
            Some(p) => (size_of(p.0), size_of(p.1)),
            None => (None, None),
        },
        None => (None, None),
    }
}

/// `s` with a comma in place of each space.
pub open spec fn commas(s: Seq<char>) -> Seq<char> {
    s.map_values(
        |c: char|
            if c == ' ' {
                ','
            } else {
                c
            },
    )
}

/// The first of the pieces that ends as a speed does, without that end.
pub open spec fn first_speed(pieces: Seq<Seq<char>>) -> Option<Seq<char>>
    decreases pieces.len(),
{
    if pieces.len() == 0 {
        None
    } else if text::ends(text::trimmed(pieces[0]), "/s"@) {
        Some(text::trim_end_text(text::trimmed(pieces[0]), "/s"@))
    } else {
        first_speed(pieces.drop_first())
    }
}

/// The speed between the brackets.
pub open spec fn speed_in(inner: Seq<char>) -> Option<SizeView> {
    match first_speed(text::split_on(commas(inner), ',')) {
        Some(t) => size_of(t),
        None => None,
    }
}

/// The amounts that a bar of progress gives.
#[derive(Debug)]
pub struct Amounts {
    pub current: Option<SizeToken>,
    pub total: Option<SizeToken>,
    pub speed: Option<SizeToken>,
}

/// The amounts that a bar of progress gives, with their texts.
pub struct AmountsView {
    pub current: Option<SizeView>,
    pub total: Option<SizeView>,
    pub speed: Option<SizeView>,
}

impl DeepView for Amounts {
    type V = AmountsView;

    open spec fn deep_view(&self) -> AmountsView {
        AmountsView {
            current: self.current.deep_view(),
            total: self.total.deep_view(),
            speed: self.speed.deep_view(),
        }
    }
}

/// The amounts before and between the last brackets of a line, if there is
/// any.
pub open spec fn amounts_in(line: Seq<char>) -> Option<AmountsView> {
    let lb = last_place(line, '[');
    if lb < 0 {
        None
    } else {
        match text::cut_at(line.skip(lb + 1), ']') {
            None => None,
            Some(p) => {
                let c = counts_in(last_with_slash(text::words_of(line.take(lb))));
                let speed = speed_in(p.0);
                if c.0 is None && c.1 is None && speed is None {
                    None
                } else {
                    Some(AmountsView { current: c.0, total: c.1, speed })
                }
            },
        }
    }
}

/// The last of the words that holds a slash.
fn find_slash_word(words: &Vec<String>) -> (r: Option<String>)
    ensures
        r.deep_view() == last_with_slash(words.deep_view()),
{
    let ghost ws = words.deep_view();
    let mut i: usize = words.len();
    assert(ws.take(i as int) =~= ws);
    while i > 0
        invariant
            i <= words@.len(),
            ws == words.deep_view(),
            last_with_slash(ws) == last_with_slash(ws.take(i as int)),
        decreases i,
    {
        let ghost t = ws.take(i as int);
        assert(t.last() == words@[i - 1]@);
        assert(t.drop_last() =~= ws.take(i - 1));
        if text::contains(&words[i - 1], "/") {
            return Some(text::own(&words[i - 1]));
        }
        i = i - 1;
    }
    None
}

/// `s` with a comma in place of each space.
fn build_commas(s: &str) -> (r: String)
    ensures
        r@ == commas(s@),
{
    let v: Vec<char> = text::chars_of(s);
    let mut out: String = String::new();
    let mut i: usize = 0;
    while i < v.len()
        invariant
            i <= v@.len(),
            v@ == s@,
            out@ == commas(s@).take(i as int),
        decreases v@.len() - i,
    {
        let c: char = if v[i] == ' ' {
            ','
        } else {
            v[i]
        };
        out.push(c);
        i = i + 1;
        assert(out@ =~= commas(s@).take(i as int));
    }
    assert(commas(s@).take(i as int) =~= commas(s@));
    out
}

/// The speed between the brackets.
fn read_speed(inner: &str) -> (r: Option<SizeToken>)
    ensures
        r.deep_view() == speed_in(inner@),
{
    let pieces: Vec<String> = text::split(&build_commas(inner), ',');
    let ghost ps = pieces.deep_view();
    let mut i: usize = 0;
    assert(ps.skip(0) =~= ps);
    while i < pieces.len()
        invariant
            i <= pieces@.len(),
            ps == pieces.deep_view(),
            ps == text::split_on(commas(inner@), ','),
            first_speed(ps) == first_speed(ps.skip(i as int)),
        decreases pieces@.len() - i,
    {
        assert(ps.skip(i as int)[0] == pieces@[i as int]@);
        assert(ps.skip(i as int).drop_first() =~= ps.skip(i + 1));
        let t: String = text::trim(&pieces[i]);
        if text::ends_with(&t, "/s") {
            return parse_size_token(&text::trim_end_texts(&t, "/s"));
        }
        i = i + 1;
    }
    None
}

/// The amounts before and between the last brackets of a line, if there is
/// any.
pub fn parse_bracketed(line: &str) -> (r: Option<Amounts>)
    ensures
        r.deep_view() == amounts_in(line@),
{
    let v: Vec<char> = text::chars_of(line);
    match find_last(&v, '[') {
        None => None,
        Some(lb) => {
            let rest: String = text::string_of(&v, lb + 1, v.len());
            assert(rest@ =~= line@.skip(lb + 1));
            match text::cut(&rest, ']') {
                None => None,
                Some(p) => {
                    let pre: String = text::string_of(&v, 0, lb);
                    assert(pre@ =~= line@.take(lb as int));
                    let word: Option<String> = find_slash_word(&text::words(&pre));
                    let mut current: Option<SizeToken> = None;
                    let mut total: Option<SizeToken> = None;
                    if let Some(w) = word {
                        if let Some(c) = text::cut(&w, '/') {
                            current = parse_size_token(&c.0);
                            total = parse_size_token(&c.1);
                        }
                    }
                    let speed: Option<SizeToken> = read_speed(&p.0);
                    if current.is_none() && total.is_none() && speed.is_none() {
                        None
                    } else {
                        Some(Amounts { current, total, speed })
                    }
                },
            }
        },
    }
}

/// The number of digits and dots at the end of `s`.
pub open spec fn tail_number(s: Seq<char>) -> nat
    decreases s.len(),
{
    if s.len() > 0 && (text::is_digit(s.last()) || s.last() == '.') {
        1 + tail_number(s.drop_last())
    } else {
        0
    }
}

/// No more stand there than there are characters.
proof fn tail_number_bound(s: Seq<char>)
    ensures
        tail_number(s) <= s.len(),
    decreases s.len(),
{
    if s.len() > 0 {
        tail_number_bound(s.drop_last());
    }
}

/// The number before a percent sign at place `i`.
pub open spec fn percent_at(line: Seq<char>, i: int) -> Option<Seq<char>> {
    let pre = line.take(i);
    let n = tail_number(pre);
    if line[i] == '%' && n > 0 && numeral::is_number(pre.skip(pre.len() - n)) {
        Some(pre.skip(pre.len() - n))
    } else {
        None
    }
}

/// The numbers before the percent signs among the first `i` characters, the
/// last one first.
pub open spec fn percents_in(line: Seq<char>, i: nat) -> Seq<Seq<char>>
    decreases i,
{
    if i == 0 || i > line.len() {
        Seq::empty()
    } else {
        match percent_at(line, i - 1) {
            Some(p) => seq![p] + percents_in(line, (i - 1) as nat),
            None => percents_in(line, (i - 1) as nat),
        }
    }
}

/// The number before a percent sign.
fn read_percent(v: &Vec<char>, i: usize) -> (r: Option<String>)
    requires
        i < v@.len(),
    ensures
        r.deep_view() == percent_at(v@, i as int),
{
    if v[i] != '%' {
        return None;
    }
    let ghost pre = v@.take(i as int);
    let mut start: usize = i;
    while start > 0 && (('0' <= v[start - 1] && v[start - 1] <= '9') || v[start - 1] == '.')
        invariant
            start <= i < v@.len(),
            pre == v@.take(i as int),
            tail_number(pre) == i - start + tail_number(v@.take(start as int)),
        decreases start,
    {
        let ghost t = v@.take(start as int);
        assert(t.last() == v@[start - 1]);
        assert(t.drop_last() =~= v@.take(start - 1));
        start = start - 1;
    }
    proof {
        let t = v@.take(start as int);
        if start > 0 {
            assert(t.last() == v@[start - 1]);
        }
        assert(tail_number(t) == 0);
    }
    if start == i {
        return None;
    }
    let s: String = text::string_of(v, start, i);
    assert(s@ =~= pre.skip(start as int));
    if numeral::writes_number(&s) {
        Some(s)
    } else {
        None
    }
}

/// The numbers before the percent signs of a line, the last one first. The
/// first of them that lies between zero and a hundred is the progress.
pub fn percent_candidates(line: &str) -> (r: Vec<String>)
    ensures
        r.deep_view() == percents_in(line@, line@.len()),
{
    let v: Vec<char> = text::chars_of(line);
    let ghost all = percents_in(line@, line@.len());
    let mut out: Vec<String> = Vec::new();
    let mut i: usize = v.len();
    assert(out.deep_view() + all =~= all);
    while i > 0
        invariant
            i <= v@.len(),
            v@ == line@,
            all == percents_in(line@, line@.len()),
            out.deep_view() + percents_in(line@, i as nat) == all,
        decreases i,
    {
        let ghost before = out.deep_view();
        if let Some(p) = read_percent(&v, i - 1) {
            let ghost pv = p@;
            text::push_text(&mut out, p);
            assert(before.push(pv) + percents_in(line@, (i - 1) as nat) =~= before + (seq![pv]
                + percents_in(line@, (i - 1) as nat)));
        }
        i = i - 1;
    }
    assert(out.deep_view() + percents_in(line@, 0) =~= out.deep_view());
    out
}

/// `s` without quotes at its front.
pub open spec fn unquoted_front(s: Seq<char>) -> Seq<char>
    decreases s.len(),
{
    if s.len() > 0 && (s[0] == '\'' || s[0] == '"') {
        unquoted_front(s.skip(1))
    } else {
        s
    }
}

/// `s` without quotes at its end.
pub open spec fn unquoted_end(s: Seq<char>) -> Seq<char>
    decreases s.len(),
{
    if s.len() > 0 && (s.last() == '\'' || s.last() == '"') {
        unquoted_end(s.drop_last())
    } else {
        s
    }
}

/// `s` without quotes at both ends.
fn trim_quotes(s: &str) -> (r: String)
    ensures
        r@ == unquoted_end(unquoted_front(s@)),
{
    let v: Vec<char> = text::chars_of(s);
    let mut from: usize = 0;
    assert(v@.skip(0) =~= v@);
    while from < v.len() && (v[from] == '\'' || v[from] == '"')
        invariant
            from <= v@.len(),
            v@ == s@,
            unquoted_front(s@) == unquoted_front(v@.skip(from as int)),
        decreases v@.len() - from,
    {
        assert(v@.skip(from as int)[0] == v@[from as int]);
        assert(v@.skip(from as int).skip(1) =~= v@.skip(from + 1));
        from = from + 1;
    }
    let ghost f = v@.skip(from as int);
    proof {
        if from < v@.len() {
            assert(f[0] == v@[from as int]);
        }
    }
    let mut to: usize = v.len();
    assert(v@.subrange(from as int, to as int) =~= f);
    while to > from && (v[to - 1] == '\'' || v[to - 1] == '"')
        invariant
            from <= to <= v@.len(),
            unquoted_end(f) == unquoted_end(v@.subrange(from as int, to as int)),
        decreases to,
    {
        let ghost t = v@.subrange(from as int, to as int);
        assert(t.last() == v@[to - 1]);
        assert(t.drop_last() =~= v@.subrange(from as int, to - 1));
        to = to - 1;
    }
    proof {
        let t = v@.subrange(from as int, to as int);
        if to > from {
            assert(t.last() == v@[to - 1]);
        }
    }
    let r: String = text::string_of(&v, from, to);
    assert(r@ =~= v@.subrange(from as int, to as int));
    r
}

/// White space stands somewhere in `s`.
pub open spec fn has_space(s: Seq<char>) -> bool {
    exists|i: int| 0 <= i < s.len() && text::is_space(#[trigger] s[i])
}

/// Whether white space stands somewhere in `s`.
fn check_space(s: &str) -> (r: bool)
    ensures
        r == has_space(s@),
{
    let v: Vec<char> = text::chars_of(s);
    let mut i: usize = 0;
    while i < v.len()
        invariant
            i <= v@.len(),
            v@ == s@,
            forall|k: int| 0 <= k < i ==> !text::is_space(#[trigger] s@[k]),
        decreases v@.len() - i,
    {
        if text::space(v[i]) {
            assert(text::is_space(s@[i as int]));
            return true;
        }
        i = i + 1;
    }
    false
}

/// The file that a line names: behind the word `Downloading`, or before a
/// colon that a percent sign follows.
pub open spec fn file_in(line: Seq<char>) -> Option<Seq<char>> {
    match text::after_prefix(line, "Downloading "@) {
        Some(rest) => {
            let f = unquoted_end(unquoted_front(text::trimmed(rest)));
            if f.len() > 0 {
                Some(f)
            } else {
                None
            }
        },
        None => match text::cut_at_text(line, ": "@) {
            Some(p) => if p.0.len() > 0 && !has_space(p.0) && text::has(p.1, "%"@) {
                Some(p.0)
            } else {
                None
            },
            None => None,
        },
    }
}

/// The file that a line names.
pub fn current_file(line: &str) -> (r: Option<String>)
    ensures
        r.deep_view() == file_in(line@),
{
    match text::strip_prefix(line, "Downloading ") {
        Some(rest) => {
            let f: String = trim_quotes(&text::trim(&rest));
            if f.as_str().is_empty() {
                None
            } else {
                Some(f)
            }
        },
        None => match text::cut_text(line, ": ") {
            Some(p) => if !p.0.as_str().is_empty() && !check_space(&p.0) && text::contains(
                &p.1,
                "%",
            ) {
                Some(p.0)
            } else {
                None
            },
            None => None,
        },
    }
}

// ---------------------------------------------------------------------------
// Jobs
// ---------------------------------------------------------------------------

/// The state of a job.
#[derive(Debug)]
pub enum JobState {
    Queued,
    Running,
    Completed,
    Failed { error: String },
}

/// The state of a job, with its text.
pub enum JobStateView {
    Queued,
    Running,
    Completed,
    Failed { error: Seq<char> },
}

impl DeepView for JobState {
    type V = JobStateView;

    open spec fn deep_view(&self) -> JobStateView {
        match self {
            JobState::Queued => JobStateView::Queued,
            JobState::Running => JobStateView::Running,
            JobState::Completed => JobStateView::Completed,
            JobState::Failed { error } => JobStateView::Failed { error: error@ },
        }
    }
}

/// The job has ended.
pub open spec fn has_ended(s: JobStateView) -> bool {
    s is Completed || s is Failed
}

/// The name of a state.
pub open spec fn state_label(s: JobStateView) -> Seq<char> {
    match s {
        JobStateView::Queued => "Queued"@,
        JobStateView::Running => "Running"@,
        JobStateView::Completed => "Completed"@,
        JobStateView::Failed { error: _ } => "Failed"@,
    }
}

impl JobState {
    /// Whether the job has ended.
    pub fn is_terminal(&self) -> (r: bool)
        ensures
            r == has_ended(self.deep_view()),
    {
        match self {
            JobState::Queued => false,
            JobState::Running => false,
            JobState::Completed => true,
            JobState::Failed { error: _ } => true,
        }
    }

    /// The name of the state.
    pub fn label(&self) -> (r: String)
        ensures
            r@ == state_label(self.deep_view()),
    {
        match self {
            JobState::Queued => text::own("Queued"),
            JobState::Running => text::own("Running"),
            JobState::Completed => text::own("Completed"),
            JobState::Failed { error: _ } => text::own("Failed"),
        }
    }

    /// The same state.
    pub fn copy(&self) -> (r: JobState)
        ensures
            r.deep_view() == self.deep_view(),
    {
        match self {
            JobState::Queued => JobState::Queued,
            JobState::Running => JobState::Running,
            JobState::Completed => JobState::Completed,
            JobState::Failed { error } => JobState::Failed { error: text::own(error) },
        }
    }
}

/// What is told of the progress of a job.
#[derive(Debug)]
pub struct ProgressEvent {
    pub job_id: String,
    pub state: String,
    pub bytes_downloaded: u64,
    pub total_bytes: Option<u64>,
    pub current_file: Option<String>,
    /// The progress in percent, as it is written.
    pub percent: Option<String>,
    pub speed_bytes_per_sec: Option<u64>,
    /// Where the model is, once it is there.
    pub local_path: Option<String>,
}

/// A job as it is shown.
#[derive(Debug)]
pub struct JobSnapshot {
    pub id: String,
    pub hf_id: String,
    pub target_dir: String,
    pub started_at_ms: u128,
    pub finished_at_ms: Option<u128>,
    pub state: JobState,
    pub bytes_downloaded: u64,
    pub total_bytes: Option<u64>,
    pub current_file: Option<String>,
    /// The progress in percent, as it is written.
    pub percent: Option<String>,
    pub speed_bytes_per_sec: Option<u64>,
    /// Where the model is, once it is there.
    pub local_path: Option<String>,
}

/// A download.
pub struct DownloadJob {
    pub id: String,
    pub hf_id: String,
    pub target_dir: String,
    pub started_at_ms: u128,
    pub finished_at_ms: Option<u128>,
    pub state: JobState,
    pub bytes_downloaded: u64,
    pub total_bytes: Option<u64>,
    pub current_file: Option<String>,
    pub percent: Option<String>,
    pub speed_bytes_per_sec: Option<u64>,
    pub local_path: Option<String>,
}

/// A download, with its texts.
pub struct JobView {
    pub id: Seq<char>,
    pub hf_id: Seq<char>,
    pub target_dir: Seq<char>,
    pub started_at_ms: u128,
    pub finished_at_ms: Option<u128>,
    pub state: JobStateView,
    pub bytes_downloaded: u64,
    pub total_bytes: Option<u64>,
    pub current_file: Option<Seq<char>>,
    pub percent: Option<Seq<char>>,
    pub speed_bytes_per_sec: Option<u64>,
    pub local_path: Option<Seq<char>>,
}

impl DeepView for DownloadJob {
    type V = JobView;

    open spec fn deep_view(&self) -> JobView {
        JobView {
            id: self.id@,
            hf_id: self.hf_id@,
            target_dir: self.target_dir@,
            started_at_ms: self.started_at_ms,
            finished_at_ms: self.finished_at_ms,
            state: self.state.deep_view(),
            bytes_downloaded: self.bytes_downloaded,
            total_bytes: self.total_bytes,
            current_file: self.current_file.deep_view(),
            percent: self.percent.deep_view(),
            speed_bytes_per_sec: self.speed_bytes_per_sec,
            local_path: self.local_path.deep_view(),
        }
    }
}

impl DeepView for JobSnapshot {
    type V = JobView;

    open spec fn deep_view(&self) -> JobView {
        JobView {
            id: self.id@,
            hf_id: self.hf_id@,
            target_dir: self.target_dir@,
            started_at_ms: self.started_at_ms,
            finished_at_ms: self.finished_at_ms,
            state: self.state.deep_view(),
            bytes_downloaded: self.bytes_downloaded,
            total_bytes: self.total_bytes,
            current_file: self.current_file.deep_view(),
            percent: self.percent.deep_view(),
            speed_bytes_per_sec: self.speed_bytes_per_sec,
            local_path: self.local_path.deep_view(),
        }
    }
}

/// What a line of progress says, with its amounts as numbers.
pub struct ProgressUpdate {
    pub current_file: Option<String>,
    pub percent: Option<String>,
    /// The line has amounts, though perhaps not each of the three.
    pub amounts: bool,
    pub current: Option<u64>,
    pub total: Option<u64>,
    pub speed: Option<u64>,
}

/// The job after a line of progress: what the line does not say stays.
pub open spec fn updated(j: JobView, u: ProgressUpdate) -> JobView {
    JobView {
        current_file: if u.current_file is Some {
            u.current_file.deep_view()
        } else {
            j.current_file
        },
        percent: if u.percent is Some {
            u.percent.deep_view()
        } else {
            j.percent
        },
        bytes_downloaded: match u.current {
            Some(c) if u.amounts => c,
            _ => j.bytes_downloaded,
        },
        total_bytes: if u.amounts && u.total is Some {
            u.total
        } else {
            j.total_bytes
        },
        speed_bytes_per_sec: if u.amounts && u.speed is Some {
            u.speed
        } else {
            j.speed_bytes_per_sec
        },
        ..j
    }
}

/// The job when its download has succeeded.
pub open spec fn completed(j: JobView, now_ms: u128) -> JobView {
    JobView {
        state: JobStateView::Completed,
        finished_at_ms: Some(now_ms),
        percent: if j.percent is None {
            Some("100"@)
        } else {
            j.percent
        },
        bytes_downloaded: match j.total_bytes {
            Some(t) => t,
            None => j.bytes_downloaded,
        },
        local_path: Some(j.target_dir),
        ..j
    }
}

/// The job when its download has failed.
pub open spec fn failed(j: JobView, error: Seq<char>, now_ms: u128) -> JobView {
    JobView { state: JobStateView::Failed { error }, finished_at_ms: Some(now_ms), ..j }
}

/// How a download ends.
#[derive(Debug)]
pub enum JobEnd {
    Succeeded,
    /// The directory above the target could not be made.
    NoParent(String),
    /// The program could not be started.
    NotStarted(String),
    /// The program ended with another status than success.
    Exited(String),
    /// It is not known how the program ended.
    Lost(String),
}

/// The job when its download has ended.
pub open spec fn ended(j: JobView, end: &JobEnd, now_ms: u128) -> JobView {
    match end {
        JobEnd::Succeeded => completed(j, now_ms),
        JobEnd::NoParent(e) => failed(j, "create target parent failed: "@ + e@, now_ms),
        JobEnd::NotStarted(e) => failed(j, "spawn huggingface-cli failed: "@ + e@, now_ms),
        JobEnd::Exited(status) => failed(
            j,
            "huggingface-cli exited with status "@ + status@,
            now_ms,
        ),
        JobEnd::Lost(e) => failed(j, "wait failed: "@ + e@, now_ms),
    }
}

/// A path is told only of a job whose download has succeeded.
pub open spec fn path_only_when_done(j: JobView) -> bool {
    j.local_path is Some ==> j.state is Completed && j.local_path == Some(j.target_dir)
}

impl DownloadJob {
    /// A job that waits.
    pub fn queued(id: String, hf_id: String, target_dir: String, started_at_ms: u128) -> (r:
        DownloadJob)
        ensures
            r.deep_view() == (JobView {
                id: id@,
                hf_id: hf_id@,
                target_dir: target_dir@,
                started_at_ms,
                finished_at_ms: None,
                state: JobStateView::Queued,
                bytes_downloaded: 0,
                total_bytes: None,
                current_file: None,
                percent: None,
                speed_bytes_per_sec: None,
                local_path: None,
            }),
            path_only_when_done(r.deep_view()),
    {
        DownloadJob {
            id,
            hf_id,
            target_dir,
            started_at_ms,
            finished_at_ms: None,
            state: JobState::Queued,
            bytes_downloaded: 0,
            total_bytes: None,
            current_file: None,
            percent: None,
            speed_bytes_per_sec: None,
            local_path: None,
        }
    }

    /// The download runs.
    pub fn run(&mut self)
        ensures
            final(self).deep_view() == (JobView {
                state: JobStateView::Running,
                ..old(self).deep_view()
            }),
    {
        self.state = JobState::Running;
    }

    /// Takes in a line of progress. The result says whether it told anything.
    pub fn apply(&mut self, u: ProgressUpdate) -> (r: bool)
        ensures
            final(self).deep_view() == updated(old(self).deep_view(), u),
            r == (u.current_file is Some || u.percent is Some || u.amounts),
    {
        let told: bool = u.current_file.is_some() || u.percent.is_some() || u.amounts;
        if u.current_file.is_some() {
            self.current_file = u.current_file;
        }
        if u.percent.is_some() {
            self.percent = u.percent;
        }
        if u.amounts {
            if let Some(c) = u.current {
                self.bytes_downloaded = c;
            }
            if u.total.is_some() {
                self.total_bytes = u.total;
            }
            if u.speed.is_some() {
                self.speed_bytes_per_sec = u.speed;
            }
        }
        told
    }

    /// The download has succeeded.
    pub fn complete(&mut self, now_ms: u128)
        ensures
            final(self).deep_view() == completed(old(self).deep_view(), now_ms),
            path_only_when_done(final(self).deep_view()),
    {
        self.state = JobState::Completed;
        self.finished_at_ms = Some(now_ms);
        if self.percent.is_none() {
            self.percent = Some(text::own("100"));
        }
        if let Some(t) = self.total_bytes {
            self.bytes_downloaded = t;
        }
        self.local_path = Some(text::own(&self.target_dir));
    }

    /// The download has failed.
    pub fn fail(&mut self, error: String, now_ms: u128)
        ensures
            final(self).deep_view() == failed(old(self).deep_view(), error@, now_ms),
    {
        self.state = JobState::Failed { error };
        self.finished_at_ms = Some(now_ms);
    }

    /// The download has ended.
    pub fn finish(&mut self, end: &JobEnd, now_ms: u128)
        ensures
            final(self).deep_view() == ended(old(self).deep_view(), end, now_ms),
    {
        match end {
            JobEnd::Succeeded => self.complete(now_ms),
            JobEnd::NoParent(e) => self.fail(
                text::glue("create target parent failed: ", e),
                now_ms,
            ),
            JobEnd::NotStarted(e) => self.fail(
                text::glue("spawn huggingface-cli failed: ", e),
                now_ms,
            ),
            JobEnd::Exited(status) => self.fail(
                text::glue("huggingface-cli exited with status ", status),
                now_ms,
            ),
            JobEnd::Lost(e) => self.fail(text::glue("wait failed: ", e), now_ms),
        }
    }

    /// The job as it is shown.
    pub fn snapshot(&self) -> (r: JobSnapshot)
        ensures
            r.deep_view() == self.deep_view(),
    {
        JobSnapshot {
            id: text::own(&self.id),
            hf_id: text::own(&self.hf_id),
            target_dir: text::own(&self.target_dir),
            started_at_ms: self.started_at_ms,
            finished_at_ms: self.finished_at_ms,
            state: self.state.copy(),
            bytes_downloaded: self.bytes_downloaded,
            total_bytes: self.total_bytes,
            current_file: text::own_opt(&self.current_file),
            percent: text::own_opt(&self.percent),
            speed_bytes_per_sec: self.speed_bytes_per_sec,
            local_path: text::own_opt(&self.local_path),
        }
    }

    /// What is told of the progress of the job.
    pub fn to_event(&self) -> (r: ProgressEvent)
        ensures
            r.job_id@ == self.id@,
            r.state@ == state_label(self.state.deep_view()),
            r.bytes_downloaded == self.bytes_downloaded,
            r.total_bytes == self.total_bytes,
            r.current_file.deep_view() == self.current_file.deep_view(),
            r.percent.deep_view() == self.percent.deep_view(),
            r.speed_bytes_per_sec == self.speed_bytes_per_sec,
            r.local_path.deep_view() == self.local_path.deep_view(),
    {
        ProgressEvent {
            job_id: text::own(&self.id),
            state: self.state.label(),
            bytes_downloaded: self.bytes_downloaded,
            total_bytes: self.total_bytes,
            current_file: text::own_opt(&self.current_file),
            percent: text::own_opt(&self.percent),
            speed_bytes_per_sec: self.speed_bytes_per_sec,
            local_path: text::own_opt(&self.local_path),
        }
    }

    /// Whether the job may be forgotten, so long after it began: it has ended
    /// and an hour has passed.
    pub fn expired(&self, elapsed_ms: u64) -> (r: bool)
        ensures
            r == (has_ended(self.state.deep_view()) && elapsed_ms >= 3_600_000),
    {
        self.state.is_terminal() && elapsed_ms >= 3_600_000
    }
}

/// A path is told only when the download has succeeded: running and lines of
/// progress keep that, and a job that fails before it succeeds has none.
pub proof fn path_waits_for_success(j: JobView, u: ProgressUpdate, error: Seq<char>, now_ms: u128)
    requires
        path_only_when_done(j),
        !has_ended(j.state),
    ensures
        path_only_when_done(JobView { state: JobStateView::Running, ..j }),
        path_only_when_done(updated(j, u)),
        path_only_when_done(failed(j, error, now_ms)),
        path_only_when_done(completed(j, now_ms)),
        failed(j, error, now_ms).local_path is None,
        completed(j, now_ms).local_path == Some(j.target_dir),
{
}

/// A line of progress leaves the state of the job and what it is about.
pub proof fn progress_keeps_identity(j: JobView, u: ProgressUpdate)
    ensures
        updated(j, u).id == j.id,
        updated(j, u).hf_id == j.hf_id,
        updated(j, u).target_dir == j.target_dir,
        updated(j, u).state == j.state,
        updated(j, u).local_path == j.local_path,
{
}

impl Ranked for JobSnapshot {
    open spec fn below(&self, other: &Self) -> bool {
        self.started_at_ms > other.started_at_ms
    }

    fn is_below(&self, other: &Self) -> (r: bool) {
        self.started_at_ms > other.started_at_ms
    }

    proof fn below_ranks(a: &Self, b: &Self, c: &Self) {
    }
}

/// The jobs, those that began last first.
pub fn newest_first(jobs: Vec<JobSnapshot>) -> (r: Vec<JobSnapshot>)
    ensures
        r@ == order::by_rank(jobs@),
{
    order::sort_by_rank(jobs)
}

/// Whether an event says that its job has ended.
pub fn is_terminal_event(ev: &ProgressEvent) -> (r: bool)
    ensures
        r == (ev.state@ == "Completed"@ || ev.state@ == "Failed"@),
{
    text::same(&ev.state, "Completed") || text::same(&ev.state, "Failed")
}

/// Forwards events up to the first that says that the job has ended.
pub struct EventGate {
    pub closed: bool,
}

impl EventGate {
    /// A gate for a job whose first event says whether it has ended.
    pub fn new(ended: bool) -> (r: EventGate)
        ensures
            r.closed == ended,
    {
        EventGate { closed: ended }
    }

    /// Whether an event is forwarded, given whether it is the last.
    pub fn pass(&mut self, last: bool) -> (r: bool)
        ensures
            r == !old(self).closed,
            final(self).closed == (old(self).closed || last),
    {
        if self.closed {
            return false;
        }
        if last {
            self.closed = true;
        }
        true
    }
}

/// What is said of a job that is not known.
pub fn unknown_job(job_id: &str) -> (r: String)
    ensures
        r@ == "unknown job_id: "@ + job_id@,
{
    text::glue("unknown job_id: ", job_id)
}

// ---------------------------------------------------------------------------
// Laws of downloads
// ---------------------------------------------------------------------------

/// A size is the number before its letter, times what the letter stands for,
/// with or without a `B` behind it; a number without a letter stands for bytes.
#[verifier::rlimit(60)]
pub proof fn letters_stand_for_sizes(num: Seq<char>)
    requires
        num.len() > 0,
        numeral::is_number(num),
        text::is_digit(num[0]),
        text::is_digit(num.last()),
    ensures
        size_of(num + seq!['K']) == Some(SizeView { number: num, multiplier: 1024 }),
        size_of(num + seq!['M']) == Some(SizeView { number: num, multiplier: 1048576 }),
        size_of(num + seq!['G']) == Some(SizeView { number: num, multiplier: 1073741824 }),
        size_of(num + seq!['T']) == Some(SizeView { number: num, multiplier: 1099511627776 }),
        size_of(num + seq!['G', 'B']) == Some(SizeView { number: num, multiplier: 1073741824 }),
        size_of(num + seq!['M', 'B']) == Some(SizeView { number: num, multiplier: 1048576 }),
        size_of(num) == Some(SizeView { number: num, multiplier: 1 }),
        size_of(num + seq!['B']) == Some(SizeView { number: num, multiplier: 1 }),
{
    lettered_size(num, seq!['K']);
    lettered_size(num, seq!['M']);
    lettered_size(num, seq!['G']);
    lettered_size(num, seq!['T']);
    lettered_size(num, seq!['G', 'B']);
    lettered_size(num, seq!['M', 'B']);
    lettered_size(num, seq!['B']);
    lettered_size(num, Seq::empty());
    assert(num + Seq::<char>::empty() =~= num);
    assert((num + seq!['K']).drop_last() =~= num);
    assert((num + seq!['M']).drop_last() =~= num);
    assert((num + seq!['G']).drop_last() =~= num);
    assert((num + seq!['T']).drop_last() =~= num);
    assert((num + seq!['B']).drop_last() =~= num);
    assert((num + seq!['G', 'B']).drop_last() =~= num + seq!['G']);
    assert((num + seq!['M', 'B']).drop_last() =~= num + seq!['M']);
}

/// A number with letters behind it is not changed by trimming.
proof fn lettered_size(num: Seq<char>, letters: Seq<char>)
    requires
        num.len() > 0,
        text::is_digit(num[0]),
        text::is_digit(num.last()),
        letters.len() > 0 ==> !text::is_space(letters.last()),
    ensures
        text::trimmed(num + letters) == num + letters,
{
    let s = num + letters;
    assert(s[0] == num[0]);
    if letters.len() > 0 {
        assert(s.last() == letters.last());
    } else {
        assert(s.last() == num.last());
    }
    text::inner_text_comes_back(Seq::empty(), s, Seq::empty());
    assert(Seq::<char>::empty() + s + Seq::<char>::empty() =~= s);
}

/// What has arrived stands before the slash of a count, and what there is in
/// all behind it.
pub proof fn counts_stand_around_the_slash(current: Seq<char>, total: Seq<char>)
    requires
        !current.contains('/'),
    ensures
        counts_in(Some(current + seq!['/'] + total)) == (size_of(current), size_of(total)),
{
    text::cut_at_first(current, '/', total);
}

/// The counts of a line are those of the last word with a slash before its
/// brackets.
pub proof fn last_count_is_last(words: Seq<Seq<char>>)
    ensures
        match last_with_slash(words) {
            Some(w) => exists|i: int|
                0 <= i < words.len() && #[trigger] words[i] == w && text::has(w, "/"@) && forall|
                    j: int,
                |
                    i < j < words.len() ==> !text::has(#[trigger] words[j], "/"@),
            None => forall|j: int| 0 <= j < words.len() ==> !text::has(#[trigger] words[j], "/"@),
        },
    decreases words.len(),
{
    if words.len() > 0 {
        let k = words.len() - 1;
        assert(words[k] == words.last());
        if !text::has(words.last(), "/"@) {
            let front = words.drop_last();
            last_count_is_last(front);
            if let Some(w) = last_with_slash(front) {
                let i = choose|i: int|
                    0 <= i < front.len() && #[trigger] front[i] == w && text::has(w, "/"@)
                        && forall|j: int|
                        i < j < front.len() ==> !text::has(#[trigger] front[j], "/"@);
                assert(words[i] == w);
                assert forall|j: int| i < j < words.len() implies !text::has(
                    #[trigger] words[j],
                    "/"@,
                ) by {
                    if j < k {
                        assert(front[j] == words[j]);
                    }
                }
            } else {
                assert forall|j: int| 0 <= j < words.len() implies !text::has(
                    #[trigger] words[j],
                    "/"@,
                ) by {
                    if j < k {
                        assert(front[j] == words[j]);
                    }
                }
            }
        }
    }
}

/// The speed of a line is what stands before `/s` in the first piece that ends
/// so.
pub proof fn speed_is_per_second(front: Seq<Seq<char>>, speed: Seq<char>, back: Seq<Seq<char>>)
    requires
        forall|i: int|
            0 <= i < front.len() ==> !text::ends(text::trimmed(#[trigger] front[i]), "/s"@),
        speed.len() > 0,
        text::is_digit(speed[0]),
        !text::ends(speed, "/s"@),
    ensures
        first_speed(front + seq![speed + "/s"@] + back) == Some(speed),
    decreases front.len(),
{
    let all = front + seq![speed + "/s"@] + back;
    if front.len() > 0 {
        let rest = front.drop_first();
        assert(all[0] == front[0]);
        assert(all.drop_first() =~= rest + seq![speed + "/s"@] + back);
        assert forall|i: int| 0 <= i < rest.len() implies !text::ends(
            text::trimmed(#[trigger] rest[i]),
            "/s"@,
        ) by {
            assert(rest[i] == front[i + 1]);
        }
        speed_is_per_second(rest, speed, back);
    } else {
        reveal_strlit("/s");
        let t = speed + "/s"@;
        assert(all[0] == t);
        assert(t[0] == speed[0]);
        assert(t.last() == 's');
        text::inner_text_comes_back(Seq::empty(), t, Seq::empty());
        assert(Seq::<char>::empty() + t + Seq::<char>::empty() =~= t);
        assert(t.skip(t.len() - 2) =~= "/s"@);
        assert(t.take(t.len() - 2) =~= speed);
        assert(text::trim_end_text(speed, "/s"@) == speed);
        assert(text::trim_end_text(t, "/s"@) == speed);
    }
}

/// Every number directly before a percent sign is a percentage of the line, and
/// the ones further to the right come first.
pub proof fn percentages_are_found(line: Seq<char>, i: nat, k: int)
    requires
        i <= line.len(),
        0 <= k < i,
        percent_at(line, k) is Some,
    ensures
        percents_in(line, i).contains(percent_at(line, k)->0),
        (forall|j: int| k < j < i ==> percent_at(line, j) is None) ==> percents_in(line, i)[0]
            == percent_at(line, k)->0,
    decreases i,
{
    let now = percents_in(line, i);
    let rest = percents_in(line, (i - 1) as nat);
    let p = percent_at(line, k)->0;
    if k < i - 1 {
        percentages_are_found(line, (i - 1) as nat, k);
        let m = choose|m: int| 0 <= m < rest.len() && rest[m] == p;
        if percent_at(line, i - 1) is Some {
            assert(now[m + 1] == p);
        } else {
            assert(now[m] == p);
        }
    } else {
        assert(now[0] == p);
    }
}

/// The percentage before a percent sign is the longest run of digits and dots
/// there.
pub proof fn percentage_stands_before_its_sign(front: Seq<char>, num: Seq<char>, back: Seq<char>)
    requires
        num.len() > 0,
        numeral::is_number(num),
        forall|i: int| 0 <= i < num.len() ==> text::is_digit(#[trigger] num[i]) || num[i] == '.',
        front.len() > 0 ==> !text::is_digit(front.last()) && front.last() != '.',
    ensures
        percent_at(front + num + seq!['%'] + back, (front.len() + num.len()) as int) == Some(num),
{
    let line = front + num + seq!['%'] + back;
    let i = (front.len() + num.len()) as int;
    let pre = line.take(i);
    assert(pre =~= front + num);
    assert(line[i] == '%');
    tail_is_number(front, num);
    assert(pre.skip(pre.len() - num.len()) =~= num);
}

/// The run of digits and dots at the end of a text.
proof fn tail_is_number(front: Seq<char>, num: Seq<char>)
    requires
        forall|i: int| 0 <= i < num.len() ==> text::is_digit(#[trigger] num[i]) || num[i] == '.',
        front.len() > 0 ==> !text::is_digit(front.last()) && front.last() != '.',
    ensures
        tail_number(front + num) == num.len(),
    decreases num.len(),
{
    let s = front + num;
    if num.len() > 0 {
        assert(s.last() == num[num.len() - 1]);
        assert(s.drop_last() =~= front + num.drop_last());
        tail_is_number(front, num.drop_last());
    } else {
        assert(s =~= front);
    }
}

/// A report of progress is taken in: what it gives becomes what the job shows,
/// and what it leaves open stays.
pub proof fn progress_is_taken_in(j: JobView, u: ProgressUpdate)
    ensures
        ({
            let now = updated(j, u);
            &&& u.current_file.deep_view() matches Some(f) ==> now.current_file == Some(f)
            &&& u.current_file is None ==> now.current_file == j.current_file
            &&& u.percent.deep_view() matches Some(p) ==> now.percent == Some(p)
            &&& u.percent is None ==> now.percent == j.percent
            &&& u.amounts ==> (u.current matches Some(n) ==> now.bytes_downloaded == n)
            &&& u.amounts ==> (u.total matches Some(n) ==> now.total_bytes == Some(n))
            &&& u.amounts ==> (u.speed matches Some(n) ==> now.speed_bytes_per_sec == Some(n))
            &&& u.current is None ==> now.bytes_downloaded == j.bytes_downloaded
            &&& u.total is None ==> now.total_bytes == j.total_bytes
            &&& u.speed is None ==> now.speed_bytes_per_sec == j.speed_bytes_per_sec
            &&& now.started_at_ms == j.started_at_ms
            &&& now.finished_at_ms == j.finished_at_ms
        }),
{
}

/// A job that succeeded shows where the model is, all of its bytes and when it
/// was done; one that did not shows why, and no path.
#[verifier::rlimit(60)]
pub proof fn end_is_shown(j: JobView, end: JobEnd, now_ms: u128)
    requires
        j.local_path is None,
    ensures
        ({
            let done = ended(j, &end, now_ms);
            &&& done.finished_at_ms == Some(now_ms)
            &&& done.id == j.id && done.hf_id == j.hf_id && done.target_dir == j.target_dir
            &&& end is Succeeded <==> done.state is Completed
            &&& end is Succeeded ==> done.local_path == Some(j.target_dir)
            &&& end is Succeeded ==> (j.total_bytes matches Some(n) ==> done.bytes_downloaded == n)
            &&& end is Succeeded ==> done.percent is Some
            &&& !(end is Succeeded) ==> done.local_path is None && done.state is Failed
            &&& match (end, done.state) {
                (JobEnd::NoParent(e), JobStateView::Failed { error }) => text::ends(error, e@),
                (JobEnd::NotStarted(e), JobStateView::Failed { error }) => text::ends(error, e@),
                (JobEnd::Exited(e), JobStateView::Failed { error }) => text::ends(error, e@),
                (JobEnd::Lost(e), JobStateView::Failed { error }) => text::ends(error, e@),
                _ => end is Succeeded,
            }
        }),
{
    match end {
        JobEnd::NoParent(e) => ends_with_reason("create target parent failed: "@, e@),
        JobEnd::NotStarted(e) => ends_with_reason("spawn huggingface-cli failed: "@, e@),
        JobEnd::Exited(e) => ends_with_reason("huggingface-cli exited with status "@, e@),
        JobEnd::Lost(e) => ends_with_reason("wait failed: "@, e@),
        JobEnd::Succeeded => {},
    }
}

/// A message ends with its reason.
proof fn ends_with_reason(head: Seq<char>, reason: Seq<char>)
    ensures
        text::ends(head + reason, reason),
{
    let s = head + reason;
    assert(s.skip(s.len() - reason.len()) =~= reason);
}

/// A file that a line says is downloaded is the one in its quotes.
pub proof fn quoted_file_is_read(name: Seq<char>)
    requires
        name.len() > 0,
        !text::is_space(name[0]),
        !text::is_space(name.last()),
        name[0] != '\'' && name[0] != '"',
        name.last() != '\'' && name.last() != '"',
    ensures
        file_in("Downloading "@ + (seq!['\''] + name + seq!['\''])) == Some(name),
        file_in("Downloading "@ + name) == Some(name),
{
    let q = seq!['\''] + name + seq!['\''];
    behind_word("Downloading "@, q);
    behind_word("Downloading "@, name);
    quotes_are_taken_off(name);
    text::inner_text_comes_back(Seq::empty(), q, Seq::empty());
    assert(Seq::<char>::empty() + q + Seq::<char>::empty() =~= q);
    text::inner_text_comes_back(Seq::empty(), name, Seq::empty());
    assert(Seq::<char>::empty() + name + Seq::<char>::empty() =~= name);
}

/// What stands behind a word is what was put there.
proof fn behind_word(word: Seq<char>, rest: Seq<char>)
    ensures
        text::after_prefix(word + rest, word) == Some(rest),
{
    let s = word + rest;
    assert(s.take(word.len() as int) =~= word);
    assert(s.skip(word.len() as int) =~= rest);
}

/// Quotes around a name are taken off.
proof fn quotes_are_taken_off(name: Seq<char>)
    requires
        name.len() > 0,
        name[0] != '\'' && name[0] != '"',
        name.last() != '\'' && name.last() != '"',
    ensures
        unquoted_end(unquoted_front(seq!['\''] + name + seq!['\''])) == name,
        unquoted_end(unquoted_front(name)) == name,
{
    let q = seq!['\''] + name + seq!['\''];
    let t = name + seq!['\''];
    assert(q.skip(1) =~= t);
    assert(t[0] == name[0]);
    assert(unquoted_front(t) == t);
    assert(unquoted_front(q) == t);
    assert(t.drop_last() =~= name);
    assert(unquoted_end(name) == name);
    assert(unquoted_end(t) == name);
    assert(unquoted_front(name) == name);
}

/// A directory that leads out of itself or that a shell would read is refused.
pub proof fn unsafe_directories_are_refused(front: Seq<char>, back: Seq<char>)
    ensures
        !safe_dir(front + ".."@ + back),
        !safe_dir(front + ";"@ + back),
        !safe_dir(front + "|"@ + back),
        !safe_dir(front + "`"@ + back),
{
    stands_inside(front, ".."@, back);
    stands_inside(front, ";"@, back);
    stands_inside(front, "|"@, back);
    stands_inside(front, "`"@, back);
}

/// A text stands in what is put around it.
proof fn stands_inside(front: Seq<char>, p: Seq<char>, back: Seq<char>)
    ensures
        text::has(front + p + back, p),
{
    let s = front + p + back;
    let i = front.len() as int;
    assert(s.subrange(i, i + p.len()) =~= p);
    assert(text::occurs_at(s, p, i));
}

/// The last place of a character has none behind it.
pub proof fn last_place_is_last(a: Seq<char>, c: char, b: Seq<char>)
    requires
        !b.contains(c),
    ensures
        last_place(a + seq![c] + b, c) == a.len(),
        last_place(b, c) == -1,
    decreases b.len(),
{
    let s = a + seq![c] + b;
    if b.len() > 0 {
        assert(b.contains(b.last()));
        assert(s.drop_last() =~= a + seq![c] + b.drop_last());
        assert(!b.drop_last().contains(c)) by {
            if b.drop_last().contains(c) {
                let i = choose|i: int| 0 <= i < b.drop_last().len() && b.drop_last()[i] == c;
                assert(b[i] == c);
            }
        }
        last_place_is_last(a, c, b.drop_last());
    } else {
        assert(s.last() == c);
    }
}

/// The amounts of a line are counted before its last bracket, and the speed
/// stands in it.
pub proof fn amounts_stand_around_the_bracket(front: Seq<char>, inner: Seq<char>, back: Seq<char>)
    requires
        !inner.contains('[') && !inner.contains(']'),
        !back.contains('['),
        last_with_slash(text::words_of(front)) is Some,
    ensures
        ({
            let count = counts_in(last_with_slash(text::words_of(front)));
            match amounts_in(front + seq!['['] + (inner + seq![']'] + back)) {
                Some(a) => a.current == count.0 && a.total == count.1 && a.speed == speed_in(
                    inner,
                ),
                None => count.0 is None && count.1 is None && speed_in(inner) is None,
            }
        }),
        amounts_in(inner) is None,
{
    let rest = inner + seq![']'] + back;
    let line = front + seq!['['] + rest;
    assert(!rest.contains('[')) by {
        if rest.contains('[') {
            let i = choose|i: int| 0 <= i < rest.len() && rest[i] == '[';
            if i < inner.len() {
                assert(inner[i] == '[');
            } else if i > inner.len() {
                assert(back[i - inner.len() - 1] == '[');
            }
        }
    }
    last_place_is_last(front, '[', rest);
    last_place_is_last(Seq::empty(), '[', inner);
    assert(line.skip(front.len() as int + 1) =~= rest);
    assert(line.take(front.len() as int) =~= front);
    text::cut_at_first(inner, ']', back);
}

} // verus!
