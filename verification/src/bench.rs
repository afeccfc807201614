//! Making a node ready for measurements: whether it is fit for one, what is
//! reset between two, and which programs are ended before.

use crate::api::{ApiError, ApiErrorView};
use crate::text;
use vstd::prelude::*;
use vstd::string::*;

verus! {

// ---------------------------------------------------------------------------
// Fitness for a measurement
// ---------------------------------------------------------------------------

/// Twenty gigabytes.
pub const MIN_AVAILABLE_BYTES: u64 = 21_474_836_480;

/// The model is a machine without a battery.
pub open spec fn desktop(model: Option<Seq<char>>) -> bool {
    match model {
        Some(m) => {
            let lower = text::ascii_lower(m);
            text::has(lower, "mac studio"@) || text::has(lower, "mac pro"@) || text::has(
                lower,
                "mac mini"@,
            ) || text::has(lower, "imac"@)
        },
        None => false,
    }
}

/// Whether the model is a machine without a battery.
pub fn is_desktop_chassis(model: &Option<String>) -> (r: bool)
    ensures
        r == desktop(model.deep_view()),
{
    match model {
        Some(m) => {
            let lower: String = text::to_ascii_lower(m);
            text::contains(&lower, "mac studio") || text::contains(&lower, "mac pro")
                || text::contains(&lower, "mac mini") || text::contains(&lower, "imac")
        },
        None => false,
    }
}

/// The node runs on mains power: its power source says so, or it has none to
/// report and no battery.
pub open spec fn mains_power(source: Option<Seq<char>>, model: Option<Seq<char>>) -> bool {
    match source {
        Some(s) => s == "AC"@,
        None => desktop(model),
    }
}

/// Whether the node runs on mains power.
pub fn on_ac(source: &Option<String>, model: &Option<String>) -> (r: bool)
    ensures
        r == mains_power(source.deep_view(), model.deep_view()),
{
    match source {
        Some(s) => text::same(s, "AC"),
        None => is_desktop_chassis(model),
    }
}

/// The memory that is not in use.
pub fn available_bytes(total: u64, used: u64) -> (r: u64)
    ensures
        r == (if total > used {
            total - used
        } else {
            0
        }),
{
    if total > used {
        total - used
    } else {
        0
    }
}

/// What decides whether a node is fit for a measurement.
pub struct GateReading {
    pub cpu_throttled: bool,
    pub gpu_throttled: bool,
    pub available_bytes: u64,
    pub on_ac: bool,
    pub ghost_procs: usize,
    /// The errors in the last snapshot of the node.
    pub snapshot_errors: usize,
}

impl GateReading {
    /// Whether the node is fit for a measurement: neither processor is
    /// throttled, more than twenty gigabytes are available, it runs on mains
    /// power, no unmanaged process serves models, and the last snapshot has no
    /// errors.
    pub fn ready(&self) -> (r: bool)
        ensures
            r == (!self.cpu_throttled && !self.gpu_throttled && self.available_bytes
                > MIN_AVAILABLE_BYTES && self.on_ac && self.ghost_procs == 0
                && self.snapshot_errors == 0),
    {
        !self.cpu_throttled && !self.gpu_throttled && self.available_bytes > MIN_AVAILABLE_BYTES
            && self.on_ac && self.ghost_procs == 0 && self.snapshot_errors == 0
    }
}

// ---------------------------------------------------------------------------
// The reset
// ---------------------------------------------------------------------------

/// Whether a wait goes on.
#[derive(Debug)]
pub enum WaitStep {
    /// What was waited for has come.
    Done,
    /// It has not come in time, and this is noted.
    GaveUp(String),
    /// Wait on.
    Again,
}

/// Whether the wait for processes to end goes on, with so many alive: thirty
/// seconds are allowed.
pub fn await_processes(alive: u32, now_ms: u64, deadline_ms: u64) -> (r: WaitStep)
    ensures
        alive == 0 ==> r is Done,
        alive > 0 && now_ms >= deadline_ms ==> (r matches WaitStep::GaveUp(m) && m@
            == "mlx proc reap timeout: "@ + text::dec(alive as nat)
            + " still alive after 30 s"@),
        alive > 0 && now_ms < deadline_ms ==> r is Again,
{
    if alive == 0 {
        WaitStep::Done
    } else if now_ms >= deadline_ms {
        let mut s: String = text::glue("mlx proc reap timeout: ", &text::decimal(alive as u64));
        s.append(" still alive after 30 s");
        WaitStep::GaveUp(s)
    } else {
        WaitStep::Again
    }
}

/// Whether the wait for the processors to cool down goes on: given whether
/// each of the two is cool, if that is known at all.
pub fn await_cooling(cool: Option<(bool, bool)>, now_ms: u64, deadline_ms: u64) -> (r: WaitStep)
    ensures
        cool is None || cool == Some((true, true)) ==> r is Done,
        cool is Some && cool != Some((true, true)) && now_ms >= deadline_ms ==> (
        r matches WaitStep::GaveUp(m) && m@ == "thermal recovery timeout (60 s)"@),
        cool is Some && cool != Some((true, true)) && now_ms < deadline_ms ==> r is Again,
{
    match cool {
        None => WaitStep::Done,
        Some((cpu, gpu)) => if cpu && gpu {
            WaitStep::Done
        } else if now_ms >= deadline_ms {
            WaitStep::GaveUp(text::own("thermal recovery timeout (60 s)"))
        } else {
            WaitStep::Again
        },
    }
}

// ---------------------------------------------------------------------------
// Preparing
// ---------------------------------------------------------------------------

/// What is asked for.
#[derive(Debug, Clone, Copy, PartialEq, Eq, Structural)]
pub enum PrepAction {
    Status,
    On,
    Off,
}

/// What a word asks for.
pub fn prep_action(word: &str) -> (r: Result<PrepAction, ApiError>)
    ensures
        word@ == "status"@ ==> r == Ok::<PrepAction, ApiError>(PrepAction::Status),
        word@ == "on"@ ==> r == Ok::<PrepAction, ApiError>(PrepAction::On),
        word@ == "off"@ ==> r == Ok::<PrepAction, ApiError>(PrepAction::Off),
        word@ != "status"@ && word@ != "on"@ && word@ != "off"@ ==> (r matches Err(e)
            && e.deep_view() == ApiErrorView::BadRequest(
            "unknown prep action: "@ + word@ + " (use 'on', 'off', or 'status')"@,
        )),
{
    proof {
        words_differ();
    }
    if text::same(word, "status") {
        Ok(PrepAction::Status)
    } else if text::same(word, "on") {
        Ok(PrepAction::On)
    } else if text::same(word, "off") {
        Ok(PrepAction::Off)
    } else {
        let mut s: String = text::glue("unknown prep action: ", word);
        s.append(" (use 'on', 'off', or 'status')");
        Err(ApiError::BadRequest(s))
    }
}

/// The three words are different.
proof fn words_differ()
    ensures
        "status"@ != "on"@,
        "status"@ != "off"@,
        "on"@ != "off"@,
{
    reveal_strlit("status");
    reveal_strlit("on");
    reveal_strlit("off");
    assert("status"@.len() == 6);
    assert("on"@.len() == 2);
    assert("off"@.len() == 3);
}

/// The programs that stay.
pub open spec fn kept_apps() -> Seq<Seq<char>> {
    seq!["Finder"@, "cmux"@]
}

/// The programs that stay.
pub fn keep_apps() -> (r: Vec<String>)
    ensures
        r.deep_view() == kept_apps(),
{
    let mut v: Vec<String> = Vec::new();
    text::push_str(&mut v, "Finder");
    text::push_str(&mut v, "cmux");
    assert(v.deep_view() =~= kept_apps());
    v
}

/// The background processes that are ended.
pub open spec fn ended_processes() -> Seq<Seq<char>> {
    seq![
        "speechrecognitiond"@,
        "localspeechrecognition"@,
        "DictationIM"@,
        "SpeechSynthesisServerXPC"@,
        "Playwright"@,
        "playwright"@,
        "SpringBoard.app"@,
        "SimulatorTrampoline"@,
        "Simulator.app"@,
    ]
}

/// The background processes that are ended.
pub fn kill_procs() -> (r: Vec<String>)
    ensures
        r.deep_view() == ended_processes(),
{
    let mut v: Vec<String> = Vec::new();
    text::push_str(&mut v, "speechrecognitiond");
    text::push_str(&mut v, "localspeechrecognition");
    text::push_str(&mut v, "DictationIM");
    text::push_str(&mut v, "SpeechSynthesisServerXPC");
    text::push_str(&mut v, "Playwright");
    text::push_str(&mut v, "playwright");
    text::push_str(&mut v, "SpringBoard.app");
    text::push_str(&mut v, "SimulatorTrampoline");
    text::push_str(&mut v, "Simulator.app");
    assert(v.deep_view() =~= ended_processes());
    v
}

/// The names in quotes, with commas between them.
pub open spec fn quoted_list(names: Seq<Seq<char>>) -> Seq<char> {
    text::joined(names.map_values(|n: Seq<char>| "\""@ + n + "\""@), ", "@)
}

/// The names in quotes, with commas between them.
pub fn build_quoted_list(names: &Vec<String>) -> (r: String)
    ensures
        r@ == quoted_list(names.deep_view()),
{
    let ghost want = names.deep_view().map_values(|n: Seq<char>| "\""@ + n + "\""@);
    let mut out: Vec<String> = Vec::new();
    let mut i: usize = 0;
    while i < names.len()
        invariant
            i <= names@.len(),
            want == names.deep_view().map_values(|n: Seq<char>| "\""@ + n + "\""@),
            out.deep_view() == want.take(i as int),
        decreases names@.len() - i,
    {
        let mut s: String = text::glue("\"", &names[i]);
        s.append("\"");
        text::push_text(&mut out, s);
        i = i + 1;
        assert(out.deep_view() =~= want.take(i as int));
    }
    assert(want.take(i as int) =~= want);
    text::join(&out, ", ")
}

/// The script that lists the programs that do not stay.
pub open spec fn list_script(keep: Seq<Seq<char>>) -> Seq<char> {
    "tell application \"System Events\"\n                    set keepList to {"@ + quoted_list(keep)
        + "}\n                    set appNames to name of every application process whose background only is false\n                    set killList to {}\n                    repeat with a in appNames\n                        if a is not in keepList then\n                            set end of killList to (a as text)\n                        end if\n                    end repeat\n                    return killList\n                end tell"@
}

/// The script that lists the programs that do not stay.
pub fn build_list_script(keep: &Vec<String>) -> (r: String)
    ensures
        r@ == list_script(keep.deep_view()),
{
    let mut s: String = text::glue(
        "tell application \"System Events\"\n                    set keepList to {",
        &build_quoted_list(keep),
    );
    s.append(
        "}\n                    set appNames to name of every application process whose background only is false\n                    set killList to {}\n                    repeat with a in appNames\n                        if a is not in keepList then\n                            set end of killList to (a as text)\n                        end if\n                    end repeat\n                    return killList\n                end tell",
    );
    s
}

/// The names between commas, but for empty ones.
pub open spec fn names_among(parts: Seq<Seq<char>>) -> Seq<Seq<char>>
    decreases parts.len(),
{
    if parts.len() == 0 {
        Seq::empty()
    } else {
        let rest = names_among(parts.drop_last());
        if parts.last().len() == 0 {
            rest
        } else {
            rest.push(text::trimmed(parts.last()))
        }
    }
}

/// The programs that the script lists.
pub open spec fn listed_apps(output: Seq<char>) -> Seq<Seq<char>> {
    names_among(text::split_at_text(text::trimmed(output), ", "@))
}

/// The programs that the script lists.
pub fn read_apps(output: &str) -> (r: Vec<String>)
    ensures
        r.deep_view() == listed_apps(output@),
{
    proof {
        reveal_strlit(", ");
    }
    let parts: Vec<String> = text::split_text(&text::trim(output), ", ");
    let ghost ps = parts.deep_view();
    let mut out: Vec<String> = Vec::new();
    let mut i: usize = 0;
    assert(out.deep_view() =~= names_among(ps.take(0)));
    while i < parts.len()
        invariant
            i <= parts@.len(),
            ps == parts.deep_view(),
            out.deep_view() == names_among(ps.take(i as int)),
        decreases parts@.len() - i,
    {
        proof {
            assert(ps.take(i + 1).drop_last() =~= ps.take(i as int));
            assert(ps.take(i + 1).last() == parts@[i as int]@);
        }
        if !parts[i].as_str().is_empty() {
            text::push_text(&mut out, text::trim(&parts[i]));
        }
        i = i + 1;
    }
    assert(ps.take(i as int) =~= ps);
    out
}

/// The script that ends a program.
pub fn quit_script(app: &str) -> (r: String)
    ensures
        r@ == "tell application \""@ + app@ + "\" to quit"@,
{
    let mut s: String = text::glue("tell application \"", app);
    s.append("\" to quit");
    s
}

/// The numbers of pages that `vm_stat` gives, as they are written; none counts
/// as zero.
#[derive(Debug)]
pub struct MemoryPages {
    pub free: Option<String>,
    pub inactive: Option<String>,
    pub purgeable: Option<String>,
}

/// The texts of the numbers of pages.
pub struct PagesView {
    pub free: Option<Seq<char>>,
    pub inactive: Option<Seq<char>>,
    pub purgeable: Option<Seq<char>>,
}

/// The number behind the colon of a line, without the dots at its end.
pub open spec fn pages_in(line: Seq<char>) -> Option<Seq<char>> {
    match text::nth_piece(line, ':', 1) {
        Some(rest) => Some(text::trim_end_char(text::trimmed(rest), '.')),
        None => None,
    }
}

/// The numbers of pages after one more line.
pub open spec fn pages_step(st: PagesView, line: Seq<char>) -> PagesView {
    if text::starts(line, "Pages free"@) {
        PagesView { free: pages_in(line), ..st }
    } else if text::starts(line, "Pages inactive"@) {
        PagesView { inactive: pages_in(line), ..st }
    } else if text::starts(line, "Pages purgeable"@) {
        PagesView { purgeable: pages_in(line), ..st }
    } else {
        st
    }
}

/// The numbers of pages that the lines of `vm_stat` give.
pub open spec fn pages_of(lines: Seq<Seq<char>>) -> PagesView
    decreases lines.len(),
{
    if lines.len() == 0 {
        PagesView { free: None, inactive: None, purgeable: None }
    } else {
        pages_step(pages_of(lines.drop_last()), lines.last())
    }
}

/// The number behind the colon of a line.
fn read_pages(line: &str) -> (r: Option<String>)
    ensures
        r.deep_view() == pages_in(line@),
{
    match text::piece(line, ':', 1) {
        Some(rest) => Some(text::trim_end_matches(&text::trim(&rest), '.')),
        None => None,
    }
}

/// The numbers of pages in the output of `vm_stat`.
pub fn memory_pages(output: &str) -> (r: MemoryPages)
    ensures
        r.free.deep_view() == pages_of(text::lines_of(output@)).free,
        r.inactive.deep_view() == pages_of(text::lines_of(output@)).inactive,
        r.purgeable.deep_view() == pages_of(text::lines_of(output@)).purgeable,
{
    let all: Vec<String> = text::lines(output);
    let ghost ls = all.deep_view();
    let mut free: Option<String> = None;
    let mut inactive: Option<String> = None;
    let mut purgeable: Option<String> = None;
    let mut i: usize = 0;
    while i < all.len()
        invariant
            i <= all@.len(),
            ls == all.deep_view(),
            free.deep_view() == pages_of(ls.take(i as int)).free,
            inactive.deep_view() == pages_of(ls.take(i as int)).inactive,
            purgeable.deep_view() == pages_of(ls.take(i as int)).purgeable,
        decreases all@.len() - i,
    {
        proof {
            assert(ls.take(i + 1).drop_last() =~= ls.take(i as int));
            assert(ls.take(i + 1).last() == all@[i as int]@);
        }
        let line: &String = &all[i];
        if text::starts_with(line, "Pages free") {
            free = read_pages(line);
        } else if text::starts_with(line, "Pages inactive") {
            inactive = read_pages(line);
        } else if text::starts_with(line, "Pages purgeable") {
            purgeable = read_pages(line);
        }
        i = i + 1;
    }
    assert(ls.take(i as int) =~= ls);
    MemoryPages { free, inactive, purgeable }
}

/// How many processes are gone: none where there are more than before.
pub fn processes_removed(before: u32, after: u32) -> (r: i64)
    ensures
        r == (if before > after {
            before - after
        } else {
            0
        }),
{
    if before > after {
        before as i64 - after as i64
    } else {
        0
    }
}

/// By how much a count has fallen.
pub fn fallen_by(before: u32, after: u32) -> (r: i64)
    ensures
        r == before - after,
{
    before as i64 - after as i64
}

/// The count that a script printed, or zero where it is none.
pub fn read_count(output: &Option<String>) -> (r: u32)
    ensures
        r == (match output.deep_view() {
            Some(t) => match text::unsigned(text::trimmed(t), u32::MAX as nat) {
                Some(n) => n as int,
                None => 0,
            },
            None => 0,
        }),
{
    match output {
        Some(t) => match text::parse_u32(&text::trim(t)) {
            Some(n) => n,
            None => 0,
        },
        None => 0,
    }
}

/// Whether the output of `mdutil` says that files are indexed.
pub fn indexing_on(output: &str) -> (r: bool)
    ensures
        r == text::has(output@, "Indexing enabled"@),
{
    text::contains(output, "Indexing enabled")
}

// ---------------------------------------------------------------------------
// Laws of the preparations
// ---------------------------------------------------------------------------

/// Whether a text stands in another, put between what is around it.
proof fn stands_in(front: Seq<char>, p: Seq<char>, back: Seq<char>)
    ensures
        text::has(front + p + back, p),
{
    let s = front + p + back;
    let i = front.len() as int;
    assert(s.subrange(i, i + p.len()) =~= p);
    assert(text::occurs_at(s, p, i));
}

/// A desktop is known by its name, in capitals or not; of a desktop without a
/// known source the power is from the mains, and a known source decides.
pub proof fn desktops_are_on_mains(m: Seq<char>, other: Seq<char>, front: Seq<char>, back: Seq<char>)
    ensures
        text::ascii_lower(m) == text::ascii_lower(other) ==> desktop(Some(m)) == desktop(
            Some(other),
        ),
        text::ascii_lower(m) == front + "mac studio"@ + back ==> desktop(Some(m)) && mains_power(
            None,
            Some(m),
        ),
        text::ascii_lower(m) == front + "mac mini"@ + back ==> desktop(Some(m)) && mains_power(
            None,
            Some(m),
        ),
        text::ascii_lower(m) == front + "mac pro"@ + back ==> desktop(Some(m)),
        text::ascii_lower(m) == front + "imac"@ + back ==> desktop(Some(m)),
        !desktop(None) && !mains_power(None, None),
        mains_power(Some("AC"@), None),
        other != "AC"@ ==> !mains_power(Some(other), Some(m)),
{
    stands_in(front, "mac studio"@, back);
    stands_in(front, "mac mini"@, back);
    stands_in(front, "mac pro"@, back);
    stands_in(front, "imac"@, back);
}

/// A list of names holds each of them in quotes, in their order, with commas
/// between them.
pub proof fn names_are_quoted(names: Seq<Seq<char>>, name: Seq<char>)
    ensures
        quoted_list(seq![name]) == "\""@ + name + "\""@,
        names.len() > 0 ==> quoted_list(names.push(name)) == quoted_list(names) + ", "@ + (
        quoted_list(seq![name])),
        quoted_list(Seq::empty()).len() == 0,
{
    let f = |n: Seq<char>| "\""@ + n + "\""@;
    assert(seq![name].map_values(f) =~= seq![f(name)]);
    assert(names.push(name).map_values(f).drop_last() =~= names.map_values(f));
    assert(names.push(name).map_values(f).last() == f(name));
    assert(Seq::<Seq<char>>::empty().map_values(f) =~= Seq::<Seq<char>>::empty());
}

/// The script spares the programs that it is given.
#[verifier::rlimit(60)]
pub proof fn script_spares_the_kept(keep: Seq<Seq<char>>)
    ensures
        text::has(list_script(keep), "{"@ + quoted_list(keep) + "}"@),
{
    reveal_strlit("{");
    reveal_strlit("}");
    let head = "tell application \"System Events\"\n                    set keepList to {"@;
    reveal_strlit(
        "tell application \"System Events\"\n                    set keepList to {",
    );
    let tail = "}\n                    set appNames to name of every application process whose background only is false\n                    set killList to {}\n                    repeat with a in appNames\n                        if a is not in keepList then\n                            set end of killList to (a as text)\n                        end if\n                    end repeat\n                    return killList\n                end tell"@;
    reveal_strlit(
        "}\n                    set appNames to name of every application process whose background only is false\n                    set killList to {}\n                    repeat with a in appNames\n                        if a is not in keepList then\n                            set end of killList to (a as text)\n                        end if\n                    end repeat\n                    return killList\n                end tell",
    );
    let p = "{"@ + quoted_list(keep) + "}"@;
    let s = list_script(keep);
    let i = head.len() - 1;
    assert(head.last() == '{');
    assert(tail[0] == '}');
    assert(s.subrange(i, i + p.len()) =~= p);
    assert(text::occurs_at(s, p, i));
}

/// Every name that is listed is read, without white space around it.
pub proof fn every_name_is_read(parts: Seq<Seq<char>>, i: int)
    requires
        0 <= i < parts.len(),
        parts[i].len() > 0,
    ensures
        names_among(parts).contains(text::trimmed(parts[i])),
    decreases parts.len(),
{
    let front = parts.drop_last();
    let now = names_among(parts);
    if i < front.len() {
        assert(front[i] == parts[i]);
        every_name_is_read(front, i);
        let rest = names_among(front);
        let m = choose|m: int| 0 <= m < rest.len() && rest[m] == text::trimmed(parts[i]);
        assert(now[m] == text::trimmed(parts[i]));
    } else {
        assert(now.last() == text::trimmed(parts[i]));
    }
}

/// There are as many names as parts that hold one.
pub proof fn no_name_is_added(parts: Seq<Seq<char>>)
    ensures
        names_among(parts).len() == parts.filter(|p: Seq<char>| p.len() > 0).len(),
    decreases parts.len(),
{
    reveal(Seq::filter);
    if parts.len() > 0 {
        no_name_is_added(parts.drop_last());
    }
}

/// A count of pages stands behind the colon of its line, without white space
/// and without the dot.
pub proof fn pages_stand_behind_the_colon(name: Seq<char>, space: Seq<char>, n: nat)
    requires
        !name.contains(':'),
        forall|i: int| 0 <= i < space.len() ==> #[trigger] space[i] == ' ',
    ensures
        pages_in(name + seq![':'] + (space + (text::dec(n) + seq!['.']))) == Some(text::dec(n)),
{
    let d = text::dec(n);
    let t = d + seq!['.'];
    let rest = space + t;
    text::digits_hold_no(n, ':');
    text::digits_hold_no(n, ' ');
    text::digits_hold_no(n, '.');
    assert(!rest.contains(':'));
    text::second_piece(name, ':', rest);
    digits_are_digits(n);
    assert(t[0] == d[0]);
    assert(t.last() == '.');
    assert forall|i: int| 0 <= i < space.len() implies text::is_space(#[trigger] space[i]) by {
        assert(space[i] == ' ');
    }
    text::inner_text_comes_back(space, t, Seq::empty());
    assert(space + t + Seq::<char>::empty() =~= rest);
    assert(d.last() != '.') by {
        assert(d.contains(d.last()));
    }
    assert(t.drop_last() =~= d);
    assert(text::trim_end_char(d, '.') == d);
    assert(text::trim_end_char(t, '.') == d);
}

/// The digits of a number are digits, and there is one.
proof fn digits_are_digits(n: nat)
    ensures
        text::dec(n).len() > 0,
        text::is_digit(text::dec(n)[0]),
    decreases n,
{
    if n >= 10 {
        digits_are_digits(n / 10);
    }
}

/// Each count is that of the line that is about it, and a line about something
/// else changes none.
#[verifier::rlimit(60)]
pub proof fn line_gives_its_pages(st: PagesView, rest: Seq<char>, line: Seq<char>)
    ensures
        pages_step(st, "Pages free"@ + rest) == (PagesView {
            free: pages_in("Pages free"@ + rest),
            ..st
        }),
        pages_step(st, "Pages inactive"@ + rest) == (PagesView {
            inactive: pages_in("Pages inactive"@ + rest),
            ..st
        }),
        pages_step(st, "Pages purgeable"@ + rest) == (PagesView {
            purgeable: pages_in("Pages purgeable"@ + rest),
            ..st
        }),
        !text::starts(line, "Pages "@) ==> pages_step(st, line) == st,
{
    reveal_strlit("Pages ");
    reveal_strlit("Pages free");
    reveal_strlit("Pages inactive");
    reveal_strlit("Pages purgeable");
    let a = "Pages free"@ + rest;
    let b = "Pages inactive"@ + rest;
    let c = "Pages purgeable"@ + rest;
    assert(a.take(10) =~= "Pages free"@);
    assert(b.take(14) =~= "Pages inactive"@);
    assert(c.take(15) =~= "Pages purgeable"@);
    assert(b.take(10)[6] == 'i' && c.take(10)[6] == 'p' && c.take(14)[6] == 'p');
    if text::starts(line, "Pages free"@) {
        assert(line.take(6) =~= line.take(10).take(6));
        assert("Pages free"@.take(6) =~= "Pages "@);
    }
    if text::starts(line, "Pages inactive"@) {
        assert(line.take(6) =~= line.take(14).take(6));
        assert("Pages inactive"@.take(6) =~= "Pages "@);
    }
    if text::starts(line, "Pages purgeable"@) {
        assert(line.take(6) =~= line.take(15).take(6));
        assert("Pages purgeable"@.take(6) =~= "Pages "@);
    }
}

} // verus!
