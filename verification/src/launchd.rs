//! The agents of `launchd`: what `launchctl` says of them, and how they are
//! disabled and enabled.

use crate::text;
use std::collections::HashMap;
use vstd::prelude::*;
use vstd::string::*;

verus! {

// ---------------------------------------------------------------------------
// Errors
// ---------------------------------------------------------------------------

/// Why `launchctl` did not do what it should.
#[derive(Debug)]
pub enum LaunchdError {
    /// The agent must not be touched.
    Protected(String),
    /// It took too long.
    Timeout,
    /// It could not be run.
    Io(String),
    /// It failed.
    NonZero { cmd: String, code: i32, stderr: String },
}

impl LaunchdError {
    /// The error in words.
    pub open spec fn words(self) -> Seq<char> {
        match self {
            LaunchdError::Protected(label) => "protected label: "@ + label@,
            LaunchdError::Timeout => "launchctl timeout"@,
            LaunchdError::Io(e) => "launchctl failed: "@ + e@,
            LaunchdError::NonZero { cmd, code, stderr } => "launchctl "@ + cmd@ + " exited "@
                + text::signed_dec(code as int) + ": "@ + stderr@,
        }
    }

    /// The error in words.
    pub fn to_text(&self) -> (r: String)
        ensures
            r@ == self.words(),
    {
        match self {
            LaunchdError::Protected(label) => text::glue("protected label: ", label),
            LaunchdError::Timeout => text::own("launchctl timeout"),
            LaunchdError::Io(e) => text::glue("launchctl failed: ", e),
            LaunchdError::NonZero { cmd, code, stderr } => {
                let mut s: String = text::glue("launchctl ", cmd);
                s.append(" exited ");
                s.append(&text::signed_decimal(*code));
                s.append(": ");
                s.append(stderr);
                s
            },
        }
    }

    /// The status code of the answer to a request that met the error.
    pub fn status(&self) -> (r: u16)
        ensures
            r == (match self {
                LaunchdError::Protected(_) => 403u16,
                _ => 500u16,
            }),
    {
        match self {
            LaunchdError::Protected(_) => 403,
            _ => 500,
        }
    }
}

// ---------------------------------------------------------------------------
// The processes of agents
// ---------------------------------------------------------------------------

/// The process and the label in a line of `launchctl list`.
pub open spec fn agent_in(line: Seq<char>) -> Option<(u32, Seq<char>)> {
    let w = text::words_of(line);
    if w.len() < 3 {
        None
    } else {
        match text::unsigned(w[0], u32::MAX as nat) {
            Some(pid) => Some((pid as u32, w[2])),
            None => None,
        }
    }
}

/// The label of each process in the lines of `launchctl list`.
pub open spec fn agents_in(lines: Seq<Seq<char>>) -> Map<u32, Seq<char>>
    decreases lines.len(),
{
    if lines.len() == 0 {
        Map::empty()
    } else {
        match agent_in(lines.last()) {
            Some(a) => agents_in(lines.drop_last()).insert(a.0, a.1),
            None => agents_in(lines.drop_last()),
        }
    }
}

/// The lines behind the first, which is a heading.
pub open spec fn without_heading(lines: Seq<Seq<char>>) -> Seq<Seq<char>> {
    if lines.len() > 0 {
        lines.skip(1)
    } else {
        lines
    }
}

/// The texts of a map.
pub open spec fn texts_of(m: Map<u32, String>) -> Map<u32, Seq<char>> {
    m.map_values(|s: String| s@)
}

/// The process and the label in a line of `launchctl list`.
fn read_agent(line: &str) -> (r: Option<(u32, String)>)
    ensures
        r is Some <==> agent_in(line@) is Some,
        r matches Some(a) ==> agent_in(line@) == Some((a.0, a.1@)),
{
    let w: Vec<String> = text::words(line);
    assert(w.deep_view().len() == w@.len());
    if w.len() < 3 {
        return None;
    }
    assert(w.deep_view()[0] == w@[0]@);
    assert(w.deep_view()[2] == w@[2]@);
    match text::parse_u32(&w[0]) {
        Some(pid) => Some((pid, text::own(&w[2]))),
        None => None,
    }
}

/// The label of each process in the output of `launchctl list`. An agent that
/// is not running has no process, and is left out.
pub fn parse_launchctl_list(output: &str) -> (r: HashMap<u32, String>)
    ensures
        texts_of(r@) == agents_in(without_heading(text::lines_of(output@))),
{
    broadcast use vstd::std_specs::hash::group_hash_axioms;

    let all: Vec<String> = text::lines(output);
    let ghost ls = all.deep_view();
    let ghost rows = without_heading(ls);
    let mut out: HashMap<u32, String> = HashMap::new();
    let mut i: usize = 1;
    assert(texts_of(out@) =~= agents_in(rows.take(0)));
    assert(ls.len() == all@.len());
    while i < all.len()
        invariant
            1 <= i,
            i <= all@.len() || i == 1,
            ls == all.deep_view(),
            rows == without_heading(ls),
            texts_of(out@) == agents_in(rows.take(i - 1)),
        decreases all@.len() - i,
    {
        proof {
            assert(rows.take(i as int).drop_last() =~= rows.take(i - 1));
            assert(rows.take(i as int).last() == all@[i as int]@);
        }
        if let Some((pid, label)) = read_agent(&all[i]) {
            let ghost before = out@;
            let ghost l = label;
            out.insert(pid, label);
            assert(texts_of(out@) =~= texts_of(before).insert(pid, l@));
        }
        i = i + 1;
    }
    assert(rows.len() == i - 1);
    assert(rows.take(i - 1) =~= rows);
    out
}

// ---------------------------------------------------------------------------
// The state of an agent
// ---------------------------------------------------------------------------

/// The state of an agent.
#[derive(Debug, Clone, Copy, PartialEq, Eq, Structural)]
pub enum LaunchdState {
    Running,
    Waiting,
    Disabled,
}

impl LaunchdState {
    /// The word for the state.
    pub fn word(&self) -> (r: &'static str)
        ensures
            r@ == (match self {
                LaunchdState::Running => "running"@,
                LaunchdState::Waiting => "waiting"@,
                LaunchdState::Disabled => "disabled"@,
            }),
    {
        match self {
            LaunchdState::Running => "running",
            LaunchdState::Waiting => "waiting",
            LaunchdState::Disabled => "disabled",
        }
    }
}

/// What is known of an agent.
#[derive(Debug, Clone)]
pub struct LaunchdInfo {
    pub label: String,
    pub keep_alive: Option<bool>,
    pub run_at_load: Option<bool>,
    pub state: LaunchdState,
    pub program: Option<String>,
}

/// What is known of an agent, with its texts.
pub struct InfoView {
    pub label: Seq<char>,
    pub keep_alive: Option<bool>,
    pub run_at_load: Option<bool>,
    pub state: LaunchdState,
    pub program: Option<Seq<char>>,
}

impl DeepView for LaunchdInfo {
    type V = InfoView;

    open spec fn deep_view(&self) -> InfoView {
        InfoView {
            label: self.label@,
            keep_alive: self.keep_alive,
            run_at_load: self.run_at_load,
            state: self.state,
            program: self.program.deep_view(),
        }
    }
}

/// What has been read of the output of `launchctl print`.
pub struct PrintView {
    pub state: Option<Seq<char>>,
    pub program: Option<Seq<char>>,
    pub properties: Option<Seq<char>>,
    pub disabled: bool,
}

/// What stands in a line behind its key.
pub open spec fn value_in(raw: Seq<char>, key: Seq<char>) -> Seq<char> {
    text::trimmed(text::trim_start_text(text::trimmed(raw), key))
}

/// What has been read after one more line: the first of each key counts.
pub open spec fn print_step(st: PrintView, raw: Seq<char>) -> PrintView {
    if text::starts(raw, "\tstate = "@) && st.state is None {
        PrintView { state: Some(value_in(raw, "state = "@)), ..st }
    } else if text::starts(raw, "\tprogram = "@) && st.program is None {
        PrintView { program: Some(value_in(raw, "program = "@)), ..st }
    } else if text::starts(raw, "\tproperties = "@) && st.properties is None {
        PrintView { properties: Some(value_in(raw, "properties = "@)), ..st }
    } else if text::starts(raw, "\tdisabled on keys"@) {
        PrintView { disabled: true, ..st }
    } else {
        st
    }
}

/// What the lines of `launchctl print` say.
pub open spec fn printed(lines: Seq<Seq<char>>) -> PrintView
    decreases lines.len(),
{
    if lines.len() == 0 {
        PrintView { state: None, program: None, properties: None, disabled: false }
    } else {
        print_step(printed(lines.drop_last()), lines.last())
    }
}

/// One of the properties is `word`, in letters of any case.
pub open spec fn has_property(properties: Seq<char>, word: Seq<char>) -> bool {
    exists|i: int|
        0 <= i < text::split_on(properties, '|').len() && text::same_letters(
            text::trimmed(#[trigger] text::split_on(properties, '|')[i]),
            word,
        )
}

/// Whether one of the properties is `word`, if there are any.
pub open spec fn property(properties: Option<Seq<char>>, word: Seq<char>) -> Option<bool> {
    match properties {
        Some(p) => Some(has_property(p, word)),
        None => None,
    }
}

/// What is known of an agent by what was printed.
pub open spec fn info_of(label: Seq<char>, p: PrintView) -> InfoView {
    InfoView {
        label,
        keep_alive: property(p.properties, "keepalive"@),
        run_at_load: property(p.properties, "runatload"@),
        state: if p.disabled {
            LaunchdState::Disabled
        } else if p.state == Some("running"@) {
            LaunchdState::Running
        } else {
            LaunchdState::Waiting
        },
        program: p.program,
    }
}

/// What stands in a line behind its key.
fn read_value(raw: &str, key: &str) -> (r: String)
    ensures
        r@ == value_in(raw@, key@),
{
    text::trim(&text::trim_start_texts(&text::trim(raw), key))
}

/// Whether one of the properties is `word`, if there are any.
fn check_property(properties: &Option<String>, word: &str) -> (r: Option<bool>)
    ensures
        r == property(properties.deep_view(), word@),
{
    match properties {
        None => None,
        Some(p) => {
            let tokens: Vec<String> = text::split(p, '|');
            let ghost ts = tokens.deep_view();
            let mut i: usize = 0;
            while i < tokens.len()
                invariant
                    i <= tokens@.len(),
                    ts == tokens.deep_view(),
                    ts == text::split_on(p@, '|'),
                    properties.deep_view() == Some(p@),
                    forall|k: int|
                        0 <= k < i ==> !text::same_letters(
                            text::trimmed(#[trigger] ts[k]),
                            word@,
                        ),
                decreases tokens@.len() - i,
            {
                assert(ts[i as int] == tokens@[i as int]@);
                if text::same_but_case(&text::trim(&tokens[i]), word) {
                    return Some(true);
                }
                i = i + 1;
            }
            Some(false)
        },
    }
}

/// What is known of an agent by the output of `launchctl print`.
pub fn parse_launchctl_print(label: &str, output: &str) -> (r: LaunchdInfo)
    ensures
        r.deep_view() == info_of(label@, printed(text::lines_of(output@))),
{
    let all: Vec<String> = text::lines(output);
    let ghost ls = all.deep_view();
    let mut state: Option<String> = None;
    let mut program: Option<String> = None;
    let mut properties: Option<String> = None;
    let mut disabled: bool = false;
    let mut i: usize = 0;
    while i < all.len()
        invariant
            i <= all@.len(),
            ls == all.deep_view(),
            state.deep_view() == printed(ls.take(i as int)).state,
            program.deep_view() == printed(ls.take(i as int)).program,
            properties.deep_view() == printed(ls.take(i as int)).properties,
            disabled == printed(ls.take(i as int)).disabled,
        decreases all@.len() - i,
    {
        proof {
            assert(ls.take(i + 1).drop_last() =~= ls.take(i as int));
            assert(ls.take(i + 1).last() == all@[i as int]@);
        }
        let raw: &String = &all[i];
        if text::starts_with(raw, "\tstate = ") && state.is_none() {
            state = Some(read_value(raw, "state = "));
        } else if text::starts_with(raw, "\tprogram = ") && program.is_none() {
            program = Some(read_value(raw, "program = "));
        } else if text::starts_with(raw, "\tproperties = ") && properties.is_none() {
            properties = Some(read_value(raw, "properties = "));
        } else if text::starts_with(raw, "\tdisabled on keys") {
            disabled = true;
        }
        i = i + 1;
    }
    assert(ls.take(i as int) =~= ls);
    let now: LaunchdState = if disabled {
        LaunchdState::Disabled
    } else if text::same_opt(&state, "running") {
        LaunchdState::Running
    } else {
        LaunchdState::Waiting
    };
    LaunchdInfo {
        label: text::own(label),
        keep_alive: check_property(&properties, "keepalive"),
        run_at_load: check_property(&properties, "runatload"),
        state: now,
        program,
    }
}

// ---------------------------------------------------------------------------
// Disabled agents
// ---------------------------------------------------------------------------

/// The flag under a key.
pub open spec fn flag_under(s: Seq<(Seq<char>, bool)>, k: Seq<char>) -> Option<bool>
    decreases s.len(),
{
    if s.len() == 0 {
        None
    } else if s[0].0 == k {
        Some(s[0].1)
    } else {
        flag_under(s.drop_first(), k)
    }
}

/// The flags with one set: in its place where the key is there, else at the
/// end.
pub open spec fn with_flag(s: Seq<(Seq<char>, bool)>, k: Seq<char>, b: bool) -> Seq<
    (Seq<char>, bool),
>
    decreases s.len(),
{
    if s.len() == 0 {
        seq![(k, b)]
    } else if s[0].0 == k {
        s.update(0, (k, b))
    } else {
        seq![s[0]] + with_flag(s.drop_first(), k, b)
    }
}

/// Setting a flag sets that one and leaves the others.
pub proof fn with_flag_sets(s: Seq<(Seq<char>, bool)>, k: Seq<char>, b: bool, other: Seq<char>)
    ensures
        flag_under(with_flag(s, k, b), k) == Some(b),
        other != k ==> flag_under(with_flag(s, k, b), other) == flag_under(s, other),
        with_flag(s, k, b).len() == s.len() + if flag_under(s, k) is Some {
            0nat
        } else {
            1nat
        },
    decreases s.len(),
{
    reveal_with_fuel(flag_under, 2);
    let w = with_flag(s, k, b);
    if s.len() > 0 {
        with_flag_sets(s.drop_first(), k, b, other);
        if s[0].0 == k {
            assert(w.drop_first() =~= s.drop_first());
        } else {
            assert(w.drop_first() =~= with_flag(s.drop_first(), k, b));
        }
    } else {
        assert(w.drop_first() =~= Seq::<(Seq<char>, bool)>::empty());
    }
}

/// Flags under texts.
pub struct FlagMap {
    entries: Vec<(String, bool)>,
}

impl View for FlagMap {
    type V = Seq<(Seq<char>, bool)>;

    closed spec fn view(&self) -> Seq<(Seq<char>, bool)> {
        self.entries.deep_view()
    }
}

impl FlagMap {
    /// No flags.
    pub fn new() -> (r: FlagMap)
        ensures
            r@.len() == 0,
    {
        FlagMap { entries: Vec::new() }
    }

    /// The number of flags.
    pub fn len(&self) -> (r: usize)
        ensures
            r == self@.len(),
    {
        self.entries.len()
    }

    /// The flag under a key.
    pub fn get(&self, k: &str) -> (r: Option<bool>)
        ensures
            r == flag_under(self@, k@),
    {
        let ghost s = self.entries.deep_view();
        let mut i: usize = 0;
        assert(s.skip(0) =~= s);
        while i < self.entries.len()
            invariant
                i <= self.entries@.len(),
                s == self.entries.deep_view(),
                flag_under(s, k@) == flag_under(s.skip(i as int), k@),
            decreases self.entries@.len() - i,
        {
            assert(s.skip(i as int)[0] == self.entries@[i as int].deep_view());
            assert(s.skip(i as int).drop_first() =~= s.skip(i + 1));
            if text::same(&self.entries[i].0, k) {
                return Some(self.entries[i].1);
            }
            i = i + 1;
        }
        None
    }

    /// Sets the flag under a key.
    pub fn set(&mut self, k: String, b: bool)
        ensures
            final(self)@ == with_flag(old(self)@, k@, b),
    {
        let ghost s = self.entries.deep_view();
        let mut i: usize = 0;
        assert(s.skip(0) =~= s);
        assert(s.take(0) + with_flag(s, k@, b) =~= with_flag(s, k@, b));
        while i < self.entries.len()
            invariant
                i <= self.entries@.len(),
                s == self.entries.deep_view(),
                s == old(self)@,
                with_flag(s, k@, b) == s.take(i as int) + with_flag(s.skip(i as int), k@, b),
            decreases self.entries@.len() - i,
        {
            let ghost t = s.skip(i as int);
            assert(t[0] == self.entries@[i as int].deep_view());
            assert(t.drop_first() =~= s.skip(i + 1));
            if text::same(&self.entries[i].0, &k) {
                let ghost kv = k@;
                self.entries.set(i, (k, b));
                assert(self.entries.deep_view() =~= s.take(i as int) + t.update(0, (kv, b)));
                return;
            }
            proof {
                assert(s.take(i as int) + (seq![t[0]] + with_flag(t.drop_first(), k@, b))
                    =~= s.take(i + 1) + with_flag(s.skip(i + 1), k@, b));
            }
            i = i + 1;
        }
        let ghost kv = k@;
        assert(s.skip(i as int) =~= Seq::<(Seq<char>, bool)>::empty());
        assert(s.take(i as int) =~= s);
        text::push_item(&mut self.entries, (k, b));
        assert(self.entries.deep_view() =~= s + seq![(kv, b)]);
    }
}

/// The label in a line of `launchctl print-disabled`, and whether it is
/// disabled.
pub open spec fn disabled_in(raw: Seq<char>) -> Option<(Seq<char>, bool)> {
    match text::cut_at_text(text::trimmed(raw), "=>"@) {
        None => None,
        Some(parts) => {
            let lhs = text::trimmed(parts.0);
            let rhs = text::trimmed(parts.1);
            if text::starts(lhs, "\""@) && text::ends(lhs, "\""@) {
                Some(
                    (
                        text::trim_end_char(text::trim_start_char(lhs, '"'), '"'),
                        text::same_letters(rhs, "disabled"@),
                    ),
                )
            } else {
                None
            }
        },
    }
}

/// The flags that the lines of `launchctl print-disabled` give.
pub open spec fn disabled_flags(lines: Seq<Seq<char>>) -> Seq<(Seq<char>, bool)>
    decreases lines.len(),
{
    if lines.len() == 0 {
        Seq::empty()
    } else {
        match disabled_in(lines.last()) {
            Some(e) => with_flag(disabled_flags(lines.drop_last()), e.0, e.1),
            None => disabled_flags(lines.drop_last()),
        }
    }
}

/// The label in a line of `launchctl print-disabled`, and whether it is
/// disabled.
fn read_disabled(raw: &str) -> (r: Option<(String, bool)>)
    ensures
        r.deep_view() == disabled_in(raw@),
{
    match text::cut_text(&text::trim(raw), "=>") {
        None => None,
        Some(parts) => {
            let lhs: String = text::trim(&parts.0);
            let rhs: String = text::trim(&parts.1);
            if text::starts_with(&lhs, "\"") && text::ends_with(&lhs, "\"") {
                Some((text::trim_matches(&lhs, '"'), text::same_but_case(&rhs, "disabled")))
            } else {
                None
            }
        },
    }
}

/// Whether each agent in the output of `launchctl print-disabled` is
/// disabled.
pub fn parse_print_disabled(output: &str) -> (r: FlagMap)
    ensures
        r@ == disabled_flags(text::lines_of(output@)),
{
    let all: Vec<String> = text::lines(output);
    let ghost ls = all.deep_view();
    let mut out: FlagMap = FlagMap::new();
    let mut i: usize = 0;
    assert(out@ =~= disabled_flags(ls.take(0)));
    while i < all.len()
        invariant
            i <= all@.len(),
            ls == all.deep_view(),
            out@ == disabled_flags(ls.take(i as int)),
        decreases all@.len() - i,
    {
        proof {
            assert(ls.take(i + 1).drop_last() =~= ls.take(i as int));
            assert(ls.take(i + 1).last() == all@[i as int]@);
        }
        if let Some((label, disabled)) = read_disabled(&all[i]) {
            out.set(label, disabled);
        }
        i = i + 1;
    }
    assert(ls.take(i as int) =~= ls);
    out
}

/// What is known of an agent that is not loaded, by the output of
/// `launchctl print-disabled`: nothing where it does not name the agent.
pub fn describe_unloaded(label: &str, disabled_output: &str) -> (r: Option<LaunchdInfo>)
    ensures
        r.deep_view() == (match flag_under(
            disabled_flags(text::lines_of(disabled_output@)),
            label@,
        ) {
            Some(disabled) => Some(
                InfoView {
                    label: label@,
                    keep_alive: None,
                    run_at_load: None,
                    state: if disabled {
                        LaunchdState::Disabled
                    } else {
                        LaunchdState::Waiting
                    },
                    program: None,
                },
            ),
            None => None,
        }),
{
    match parse_print_disabled(disabled_output).get(label) {
        None => None,
        Some(disabled) => Some(
            LaunchdInfo {
                label: text::own(label),
                keep_alive: None,
                run_at_load: None,
                state: if disabled {
                    LaunchdState::Disabled
                } else {
                    LaunchdState::Waiting
                },
                program: None,
            },
        ),
    }
}

// ---------------------------------------------------------------------------
// Actions
// ---------------------------------------------------------------------------

/// The agent must not be touched.
pub open spec fn is_protected(label: Seq<char>) -> bool {
    text::starts(label, "com.asmi."@) || text::starts(label, "com.r1o.watchdog"@)
}

/// Refuses the agents that must not be touched.
pub fn guard_protected(label: &str) -> (r: Result<(), LaunchdError>)
    ensures
        match r {
            Ok(_) => !is_protected(label@),
            Err(e) => is_protected(label@) && (e matches LaunchdError::Protected(l) && l@
                == label@),
        },
{
    if text::starts_with(label, "com.asmi.") || text::starts_with(label, "com.r1o.watchdog") {
        Err(LaunchdError::Protected(text::own(label)))
    } else {
        Ok(())
    }
}

/// The domain of a user.
pub fn domain(uid: u32) -> (r: String)
    ensures
        r@ == "gui/"@ + text::dec(uid as nat),
{
    text::glue("gui/", &text::decimal(uid as u64))
}

/// The name of an agent in the domain of a user.
pub open spec fn target_name(uid: nat, label: Seq<char>) -> Seq<char> {
    "gui/"@ + text::dec(uid) + "/"@ + label
}

/// The name of an agent in the domain of a user.
pub fn target(uid: u32, label: &str) -> (r: String)
    ensures
        r@ == target_name(uid as nat, label@),
{
    let mut s: String = domain(uid);
    s.append("/");
    s.append(label);
    s
}

/// The file that describes an agent.
pub fn agent_plist(home: &str, label: &str) -> (r: String)
    ensures
        r@ == home@ + "/Library/LaunchAgents/"@ + label@ + ".plist"@,
{
    let mut s: String = text::glue(home, "/Library/LaunchAgents/");
    s.append(label);
    s.append(".plist");
    s
}

/// The name of a command of `launchctl` for a message.
pub fn command_name(first: &Option<String>) -> (r: String)
    ensures
        r@ == (match first.deep_view() {
            Some(a) => if a == "list"@ || a == "print"@ || a == "print-disabled"@ || a
                == "disable"@ || a == "enable"@ || a == "bootstrap"@ || a == "bootout"@ {
                a
            } else {
                "launchctl"@
            },
            None => "launchctl"@,
        }),
{
    if let Some(a) = first {
        if text::same(a, "list") || text::same(a, "print") || text::same(a, "print-disabled")
            || text::same(a, "disable") || text::same(a, "enable") || text::same(a, "bootstrap")
            || text::same(a, "bootout") {
            return text::own(a);
        }
    }
    text::own("launchctl")
}

/// The message says that the agent is loaded already.
pub open spec fn says_loaded(stderr: Seq<char>) -> bool {
    text::has(stderr, "service already bootstrapped"@) || text::has(
        stderr,
        "Service is already loaded"@,
    ) || text::has(stderr, "already loaded"@)
}

/// What comes of an attempt to load an agent: that it is loaded already is no
/// failure.
pub fn judge_bootstrap(outcome: Result<(), LaunchdError>) -> (r: Result<(), LaunchdError>)
    ensures
        outcome is Ok ==> r is Ok,
        outcome matches Err(e) ==> (if e matches LaunchdError::NonZero { cmd, code, stderr }
            && says_loaded(stderr@) {
            r is Ok
        } else {
            r == outcome
        }),
{
    match outcome {
        Ok(_) => Ok(()),
        Err(e) => {
            let loaded: bool = match &e {
                LaunchdError::NonZero { cmd, code, stderr } => text::contains(
                    stderr,
                    "service already bootstrapped",
                ) || text::contains(stderr, "Service is already loaded") || text::contains(
                    stderr,
                    "already loaded",
                ),
                _ => false,
            };
            if loaded {
                Ok(())
            } else {
                Err(e)
            }
        },
    }
}

// ---------------------------------------------------------------------------
// Laws of the agents
// ---------------------------------------------------------------------------

/// A line gives the label in its last column to the process in its first; one
/// of an agent that does not run gives none.
pub proof fn columns_give_agent(line: Seq<char>, pid: nat, status: Seq<char>, label: Seq<char>)
    requires
        pid <= u32::MAX,
    ensures
        text::words_of(line) == seq![text::dec(pid), status, label] ==> agent_in(line) == Some(
            (pid as u32, label),
        ),
        text::words_of(line) == seq!["-"@, status, label] ==> agent_in(line) is None,
{
    text::numeral_round_trip(pid, u32::MAX as nat);
    reveal_strlit("-");
    reveal_strlit("+");
    assert("-"@[0] == '-');
    assert(!text::is_digit('-'));
}

/// Whether a line gives a label to a process.
pub open spec fn gives_label(line: Seq<char>, pid: u32, label: Seq<char>) -> bool {
    agent_in(line) == Some((pid, label))
}

/// Every process that a line gives a label to has one, and every label was
/// given to its process by a line.
pub proof fn labels_are_of_their_lines(lines: Seq<Seq<char>>, pid: u32)
    ensures
        agents_in(lines).dom().contains(pid) ==> exists|i: int|
            0 <= i < lines.len() && gives_label(#[trigger] lines[i], pid, agents_in(lines)[pid]),
        forall|i: int, label: Seq<char>|
            0 <= i < lines.len() && #[trigger] gives_label(lines[i], pid, label) ==> agents_in(
                lines,
            ).dom().contains(pid),
    decreases lines.len(),
{
    if lines.len() > 0 {
        let front = lines.drop_last();
        let k = lines.len() - 1;
        labels_are_of_their_lines(front, pid);
        if agents_in(lines).dom().contains(pid) {
            if agent_in(lines.last()) is Some && (agent_in(lines.last())->0).0 == pid {
                assert(gives_label(lines[k], pid, agents_in(lines)[pid]));
            } else {
                let i = choose|i: int|
                    0 <= i < front.len() && gives_label(
                        #[trigger] front[i],
                        pid,
                        agents_in(front)[pid],
                    );
                assert(lines[i] == front[i]);
            }
        }
        assert forall|i: int, label: Seq<char>|
            0 <= i < lines.len() && #[trigger] gives_label(
                lines[i],
                pid,
                label,
            ) implies agents_in(lines).dom().contains(pid) by {
            if i < k {
                assert(front[i] == lines[i]);
                assert(gives_label(front[i], pid, label));
            }
        }
    }
}

/// The first line is the heading, and every other one is read.
pub proof fn heading_is_left_out(heading: Seq<char>, lines: Seq<Seq<char>>)
    ensures
        without_heading(seq![heading] + lines) == lines,
{
    assert((seq![heading] + lines).skip(1) =~= lines);
}

/// The first value of each kind is kept, as it stands behind its equals sign.
#[verifier::rlimit(60)]
pub proof fn first_value_is_kept(st: PrintView, v: Seq<char>)
    requires
        v.len() > 0,
        !text::is_space(v[0]),
        !text::is_space(v.last()),
        !text::starts(v, "state = "@),
        !text::starts(v, "program = "@),
        !text::starts(v, "properties = "@),
    ensures
        print_step(st, "\tstate = "@ + v) == (if st.state is None {
            PrintView { state: Some(v), ..st }
        } else {
            st
        }),
        print_step(st, "\tprogram = "@ + v) == (if st.program is None {
            PrintView { program: Some(v), ..st }
        } else {
            st
        }),
        print_step(st, "\tproperties = "@ + v) == (if st.properties is None {
            PrintView { properties: Some(v), ..st }
        } else {
            st
        }),
        print_step(st, "\tdisabled on keys"@ + v) == (PrintView { disabled: true, ..st }),
{
    reveal_strlit("\tstate = ");
    reveal_strlit("\tprogram = ");
    reveal_strlit("\tproperties = ");
    reveal_strlit("\tdisabled on keys");
    reveal_strlit("state = ");
    reveal_strlit("program = ");
    reveal_strlit("properties = ");
    assert("\tstate = "@ =~= seq!['\t'] + "state = "@);
    assert("\tprogram = "@ =~= seq!['\t'] + "program = "@);
    assert("\tproperties = "@ =~= seq!['\t'] + "properties = "@);
    value_stands_behind("state = "@, v);
    value_stands_behind("program = "@, v);
    value_stands_behind("properties = "@, v);
    let a = "\tstate = "@ + v;
    let b = "\tprogram = "@ + v;
    let c = "\tproperties = "@ + v;
    let d = "\tdisabled on keys"@ + v;
    assert(a.take(9) =~= "\tstate = "@);
    assert(b.take(11) =~= "\tprogram = "@);
    assert(c.take(14) =~= "\tproperties = "@);
    assert(d.take(17) =~= "\tdisabled on keys"@);
    assert(a[1] == 's' && b[1] == 'p' && b[4] == 'g' && c[1] == 'p' && c[4] == 'p' && d[1] == 'd');
    starts_alike(a);
    starts_alike(b);
    starts_alike(c);
    starts_alike(d);
}

/// What a line that starts with one of the keys has at two places.
proof fn starts_alike(s: Seq<char>)
    ensures
        text::starts(s, "\tstate = "@) ==> s[1] == 's',
        text::starts(s, "\tprogram = "@) ==> s[1] == 'p' && s[4] == 'g',
        text::starts(s, "\tproperties = "@) ==> s[1] == 'p' && s[4] == 'p',
        text::starts(s, "\tdisabled on keys"@) ==> s[1] == 'd',
{
    reveal_strlit("\tstate = ");
    reveal_strlit("\tprogram = ");
    reveal_strlit("\tproperties = ");
    reveal_strlit("\tdisabled on keys");
    assert(text::starts(s, "\tstate = "@) ==> s.take(9)[1] == 's');
    assert(text::starts(s, "\tprogram = "@) ==> s.take(11)[1] == 'p' && s.take(11)[4] == 'g');
    assert(text::starts(s, "\tproperties = "@) ==> s.take(14)[1] == 'p' && s.take(14)[4] == 'p');
    assert(text::starts(s, "\tdisabled on keys"@) ==> s.take(17)[1] == 'd');
}

/// The value of a line stands behind its key.
proof fn value_stands_behind(key: Seq<char>, v: Seq<char>)
    requires
        key.len() > 0,
        !text::is_space(key[0]),
        v.len() > 0,
        !text::is_space(v[0]),
        !text::is_space(v.last()),
        !text::starts(v, key),
    ensures
        value_in(seq!['\t'] + key + v, key) == v,
{
    let s = key + v;
    assert(s[0] == key[0]);
    assert(s.last() == v.last());
    text::inner_text_comes_back(seq!['\t'], s, Seq::empty());
    assert(seq!['\t'] + s + Seq::<char>::empty() =~= seq!['\t'] + key + v);
    text::word_is_taken_off(key, v);
    text::inner_text_comes_back(Seq::empty(), v, Seq::empty());
    assert(Seq::<char>::empty() + v + Seq::<char>::empty() =~= v);
}

/// An agent is disabled where that is said, and else runs where its state says
/// so; its program is the one that was printed.
pub proof fn state_is_told(label: Seq<char>, p: PrintView)
    ensures
        info_of(label, p).state is Disabled <==> p.disabled,
        info_of(label, p).state is Running <==> !p.disabled && p.state == Some("running"@),
        info_of(label, p).program == p.program,
        info_of(label, p).label == label,
        p.properties is None ==> info_of(label, p).keep_alive is None && info_of(
            label,
            p,
        ).run_at_load is None,
        p.properties matches Some(t) ==> info_of(label, p).keep_alive == Some(
            has_property(t, "keepalive"@),
        ) && info_of(label, p).run_at_load == Some(has_property(t, "runatload"@)),
{
}

/// A property is found between bars, in capitals or not.
pub proof fn property_stands_between_bars(a: Seq<char>, word: Seq<char>, b: Seq<char>)
    requires
        !a.contains('|'),
        !word.contains('|'),
        word.len() > 0,
        !text::is_space(word[0]),
        !text::is_space(word.last()),
    ensures
        has_property(a + seq!['|'] + (seq![' '] + word + seq![' '] + seq!['|'] + b), word),
        has_property(word, word),
{
    let mid = seq![' '] + word + seq![' '];
    let back = mid + seq!['|'] + b;
    assert(!mid.contains('|'));
    text::split_at_first(a, '|', back);
    text::split_at_first(mid, '|', b);
    let s = a + seq!['|'] + back;
    text::inner_text_comes_back(seq![' '], word, seq![' ']);
    assert(text::split_on(s, '|')[1] == mid);
    text::split_at_first(word, '|', Seq::empty());
    text::inner_text_comes_back(Seq::empty(), word, Seq::empty());
    assert(Seq::<char>::empty() + word + Seq::<char>::empty() =~= word);
    assert(text::split_on(word, '|')[0] == word);
}

/// A line in quotes says of its label whether it is disabled.
#[verifier::rlimit(60)]
pub proof fn line_says_what_is_disabled(label: Seq<char>, word: Seq<char>)
    requires
        label.len() > 0,
        !label.contains('='),
        label[0] != '"',
        label.last() != '"',
        word.len() > 0,
        !text::is_space(word[0]),
        !text::is_space(word.last()),
    ensures
        disabled_in(seq!['\t', '"'] + label + seq!['"', ' ', '=', '>', ' '] + word) == Some(
            (label, text::same_letters(word, "disabled"@)),
        ),
{
    let raw = seq!['\t', '"'] + label + seq!['"', ' ', '=', '>', ' '] + word;
    let q = seq!['"'] + label + seq!['"'];
    let lhs = q + seq![' '];
    let rhs = seq![' '] + word;
    reveal_strlit("=>");
    reveal_strlit("\"");
    let line = lhs + "=>"@ + rhs;
    assert(line[0] == '"');
    assert(line.last() == word.last());
    text::inner_text_comes_back(seq!['\t'], line, Seq::empty());
    assert(seq!['\t'] + line + Seq::<char>::empty() =~= raw);
    assert(!lhs.contains('='));
    text::cut_at_first_text(lhs, "=>"@, rhs);
    text::inner_text_comes_back(Seq::empty(), q, seq![' ']);
    assert(Seq::<char>::empty() + q + seq![' '] =~= lhs);
    text::inner_text_comes_back(seq![' '], word, Seq::empty());
    assert(seq![' '] + word + Seq::<char>::empty() =~= rhs);
    assert(q.take(1) =~= "\""@);
    assert(q.skip(q.len() - 1) =~= "\""@);
    quotes_come_off(label);
}

/// Quotes around a label come off.
proof fn quotes_come_off(label: Seq<char>)
    requires
        label.len() > 0,
        label[0] != '"',
        label.last() != '"',
    ensures
        text::trim_end_char(
            text::trim_start_char(seq!['"'] + label + seq!['"'], '"'),
            '"',
        ) == label,
{
    let q = seq!['"'] + label + seq!['"'];
    let t = label + seq!['"'];
    assert(q.skip(1) =~= t);
    assert(t[0] == label[0]);
    assert(text::trim_start_char(t, '"') == t);
    assert(text::trim_start_char(q, '"') == t);
    assert(t.drop_last() =~= label);
    assert(text::trim_end_char(label, '"') == label);
    assert(text::trim_end_char(t, '"') == label);
}

/// The latest line about a label decides, and one about another label does not
/// change it.
pub proof fn latest_line_decides(lines: Seq<Seq<char>>, raw: Seq<char>, label: Seq<char>)
    ensures
        disabled_in(raw) matches Some(e) ==> flag_under(disabled_flags(lines.push(raw)), e.0)
            == Some(e.1),
        (disabled_in(raw) matches Some(e) ==> e.0 != label) ==> flag_under(
            disabled_flags(lines.push(raw)),
            label,
        ) == flag_under(disabled_flags(lines), label),
{
    assert(lines.push(raw).drop_last() =~= lines);
    if let Some(e) = disabled_in(raw) {
        with_flag_sets(disabled_flags(lines), e.0, e.1, label);
    }
}

/// The agents of this program and its watchdog are protected, and no others.
pub proof fn own_agents_are_protected(rest: Seq<char>, other: Seq<char>)
    ensures
        is_protected("com.asmi."@ + rest),
        is_protected("com.r1o.watchdog"@ + rest),
        !text::starts(other, "com.asmi."@) && !text::starts(other, "com.r1o.watchdog"@)
            ==> !is_protected(other),
{
    let a = "com.asmi."@ + rest;
    let b = "com.r1o.watchdog"@ + rest;
    assert(a.take("com.asmi."@.len() as int) =~= "com.asmi."@);
    assert(b.take("com.r1o.watchdog"@.len() as int) =~= "com.r1o.watchdog"@);
}

/// An agent is addressed in the domain of its user.
pub proof fn target_names_user_and_label(uid: nat, other: nat, label: Seq<char>)
    ensures
        text::ends(target_name(uid, label), "/"@ + label),
        target_name(uid, label) == target_name(other, label) ==> uid == other,
{
    let s = target_name(uid, label);
    let tail = "/"@ + label;
    assert(s.skip(s.len() - tail.len()) =~= tail);
    if s == target_name(other, label) {
        let t = target_name(other, label);
        assert(s.len() == t.len());
        assert(text::dec(uid).len() == text::dec(other).len());
        let n = "gui/"@.len() as int;
        assert(s.subrange(n, n + text::dec(uid).len()) =~= text::dec(uid));
        assert(t.subrange(n, n + text::dec(uid).len()) =~= text::dec(other));
        text::decimal_reads_back(uid);
        text::decimal_reads_back(other);
    }
}

/// A complaint that an agent is loaded already is known by its words.
pub proof fn loaded_already_is_known(front: Seq<char>, back: Seq<char>, other: Seq<char>)
    ensures
        says_loaded(front + "already loaded"@ + back),
        says_loaded(front + "service already bootstrapped"@ + back),
        says_loaded(other) ==> text::has(other, "already loaded"@) || text::has(
            other,
            "service already bootstrapped"@,
        ) || text::has(other, "Service is already loaded"@),
{
    let p = "already loaded"@;
    let q = "service already bootstrapped"@;
    let i = front.len() as int;
    let s = front + p + back;
    let t = front + q + back;
    assert(s.subrange(i, i + p.len()) =~= p);
    assert(text::occurs_at(s, p, i));
    assert(t.subrange(i, i + q.len()) =~= q);
    assert(text::occurs_at(t, q, i));
}

} // verus!
