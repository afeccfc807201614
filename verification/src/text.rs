//! Text as sequences of characters: searching, splitting, trimming, comparing,
//! and reading and writing decimal numerals.

use vstd::prelude::*;
use vstd::string::*;

verus! {

// ---------------------------------------------------------------------------
// Characters
// ---------------------------------------------------------------------------

/// Unicode white space.
pub open spec fn is_space(c: char) -> bool {
    ||| 0x9 <= c as u32 <= 0xd
    ||| c as u32 == 0x20
    ||| c as u32 == 0x85
    ||| c as u32 == 0xa0
    ||| c as u32 == 0x1680
    ||| 0x2000 <= c as u32 <= 0x200a
    ||| c as u32 == 0x2028
    ||| c as u32 == 0x2029
    ||| c as u32 == 0x202f
    ||| c as u32 == 0x205f
    ||| c as u32 == 0x3000
}

/// Whether `c` is Unicode white space.
pub fn space(c: char) -> (r: bool)
    ensures
        r == is_space(c),
{
    let n: u32 = c as u32;
    (0x9 <= n && n <= 0xd) || n == 0x20 || n == 0x85 || n == 0xa0 || n == 0x1680 || (0x2000 <= n
        && n <= 0x200a) || n == 0x2028 || n == 0x2029 || n == 0x202f || n == 0x205f || n == 0x3000
}

/// An ASCII decimal digit.
pub open spec fn is_digit(c: char) -> bool {
    '0' <= c <= '9'
}

/// An ASCII letter or decimal digit.
pub open spec fn is_alnum(c: char) -> bool {
    ||| 'a' <= c <= 'z'
    ||| 'A' <= c <= 'Z'
    ||| is_digit(c)
}

/// Whether `c` is an ASCII letter or decimal digit.
pub fn alnum(c: char) -> (r: bool)
    ensures
        r == is_alnum(c),
{
    ('a' <= c && c <= 'z') || ('A' <= c && c <= 'Z') || ('0' <= c && c <= '9')
}

/// A control character: U+0000 to U+001F and U+007F to U+009F.
pub open spec fn is_control(c: char) -> bool {
    c as u32 <= 0x1f || 0x7f <= c as u32 <= 0x9f
}

/// Whether `c` is a control character.
pub fn control(c: char) -> (r: bool)
    ensures
        r == is_control(c),
{
    let n: u32 = c as u32;
    n <= 0x1f || (0x7f <= n && n <= 0x9f)
}

/// `c` with `A` to `Z` turned into `a` to `z`.
pub open spec fn lower_char(c: char) -> char {
    if 'A' <= c <= 'Z' {
        ((c as u32 + 32) as u32) as char
    } else {
        c
    }
}

// ---------------------------------------------------------------------------
// Strings and characters
// ---------------------------------------------------------------------------

/// `String::push` appends the character to the end of the string.
pub assume_specification[ String::push ](s: &mut String, c: char)
    ensures
        final(s)@ == old(s)@.push(c),
;

/// The characters of a string.
pub fn chars_of(s: &str) -> (r: Vec<char>)
    ensures
        r@ == s@,
{
    let mut out: Vec<char> = Vec::new();
    for c in it: s.chars()
        invariant
            out@ == it.seq().take(it.index()),
            it.seq() == s@,
    {
        out.push(c);
        assert(out@ =~= it.seq().take(it.index() + 1));
    }
    assert(s@.take(s@.len() as int) =~= s@);
    out
}

/// The string made of the characters from `from` up to `to`.
pub fn string_of(v: &Vec<char>, from: usize, to: usize) -> (r: String)
    requires
        from <= to <= v@.len(),
    ensures
        r@ == v@.subrange(from as int, to as int),
{
    let mut out = String::new();
    let mut i: usize = from;
    while i < to
        invariant
            from <= i <= to <= v@.len(),
            out@ == v@.subrange(from as int, i as int),
        decreases to - i,
    {
        out.push(v[i]);
        i = i + 1;
        assert(out@ =~= v@.subrange(from as int, i as int));
    }
    out
}

/// An owned copy of `s`.
pub fn own(s: &str) -> (r: String)
    ensures
        r@ == s@,
{
    String::from_str(s)
}

/// An owned copy of the text in `o`.
pub fn own_opt(o: &Option<String>) -> (r: Option<String>)
    ensures
        r.deep_view() == o.deep_view(),
{
    match o {
        Some(s) => Some(own(s)),
        None => None,
    }
}

/// Appends `s` to the list `v`.
pub fn push_text(v: &mut Vec<String>, s: String)
    ensures
        final(v).deep_view() == old(v).deep_view().push(s@),
        final(v)@ == old(v)@.push(s),
{
    v.push(s);
    assert(v.deep_view() =~= old(v).deep_view().push(s@));
}

/// Appends `x` to the list `v`.
pub fn push_item<T: DeepView>(v: &mut Vec<T>, x: T)
    ensures
        final(v).deep_view() == old(v).deep_view().push(x.deep_view()),
        final(v)@ == old(v)@.push(x),
{
    v.push(x);
    assert(v.deep_view() =~= old(v).deep_view().push(x.deep_view()));
}

/// Appends an owned copy of `s` to the list `v`.
pub fn push_str(v: &mut Vec<String>, s: &str)
    ensures
        final(v).deep_view() == old(v).deep_view().push(s@),
{
    push_text(v, own(s));
}

/// An owned copy of a list of strings.
pub fn own_all(v: &Vec<String>) -> (r: Vec<String>)
    ensures
        r.deep_view() == v.deep_view(),
{
    let mut out: Vec<String> = Vec::new();
    let mut i: usize = 0;
    while i < v.len()
        invariant
            i <= v@.len(),
            out.deep_view() == v.deep_view().take(i as int),
        decreases v@.len() - i,
    {
        push_text(&mut out, own(&v[i]));
        i = i + 1;
        assert(out.deep_view() =~= v.deep_view().take(i as int));
    }
    assert(v.deep_view().take(i as int) =~= v.deep_view());
    out
}

/// Whether the two strings are equal.
pub fn same(a: &str, b: &str) -> (r: bool)
    ensures
        r == (a@ == b@),
{
    let x: String = String::from_str(a);
    let y: String = String::from_str(b);
    x == y
}

/// Whether the optional string is `b`.
pub fn same_opt(a: &Option<String>, b: &str) -> (r: bool)
    ensures
        r == (a.deep_view() == Some(b@)),
{
    match a {
        Some(s) => same(s, b),
        None => false,
    }
}

/// Whether `x` is one of the strings of `v`.
pub fn listed(v: &Vec<String>, x: &str) -> (r: bool)
    ensures
        r == v.deep_view().contains(x@),
{
    let mut i: usize = 0;
    while i < v.len()
        invariant
            i <= v@.len(),
            forall|j: int| 0 <= j < i ==> v.deep_view()[j] != x@,
        decreases v@.len() - i,
    {
        if same(&v[i], x) {
            assert(v.deep_view()[i as int] == x@);
            return true;
        }
        i = i + 1;
    }
    false
}

/// The number of bytes of a character in UTF-8.
pub open spec fn char_bytes(c: char) -> nat {
    if (c as u32) < 0x80 {
        1
    } else if (c as u32) < 0x800 {
        2
    } else if (c as u32) < 0x10000 {
        3
    } else {
        4
    }
}

/// The number of bytes of a text in UTF-8.
pub open spec fn byte_len(s: Seq<char>) -> nat
    decreases s.len(),
{
    if s.len() == 0 {
        0
    } else {
        byte_len(s.drop_last()) + char_bytes(s.last())
    }
}

/// A prefix is no longer than the whole.
proof fn byte_len_grows(s: Seq<char>, i: int)
    requires
        0 <= i <= s.len(),
    ensures
        byte_len(s.take(i)) <= byte_len(s),
    decreases s.len() - i,
{
    if i < s.len() {
        byte_len_grows(s, i + 1);
        assert(s.take(i + 1).drop_last() =~= s.take(i));
    } else {
        assert(s.take(i) =~= s);
    }
}

/// Whether a text has at most `n` bytes in UTF-8.
pub fn fits_bytes(s: &str, n: u64) -> (r: bool)
    ensures
        r == (byte_len(s@) <= n),
{
    let v: Vec<char> = chars_of(s);
    let mut left: u64 = n;
    let mut i: usize = 0;
    while i < v.len()
        invariant
            i <= v@.len(),
            v@ == s@,
            byte_len(s@.take(i as int)) + left == n,
        decreases v@.len() - i,
    {
        let c: u32 = v[i] as u32;
        let b: u64 = if c < 0x80 {
            1
        } else if c < 0x800 {
            2
        } else if c < 0x10000 {
            3
        } else {
            4
        };
        proof {
            assert(s@.take(i + 1).drop_last() =~= s@.take(i as int));
            assert(s@.take(i + 1).last() == v@[i as int]);
            byte_len_grows(s@, i + 1);
        }
        if b > left {
            return false;
        }
        left = left - b;
        i = i + 1;
    }
    assert(s@.take(i as int) =~= s@);
    true
}

/// `a` followed by `b`.
pub fn glue(a: &str, b: &str) -> (r: String)
    ensures
        r@ == a@ + b@,
{
    let mut s: String = String::from_str(a);
    s.append(b);
    s
}

// ---------------------------------------------------------------------------
// Prefixes, suffixes and searching
// ---------------------------------------------------------------------------

/// `s` begins with `p`.
pub open spec fn starts(s: Seq<char>, p: Seq<char>) -> bool {
    p.len() <= s.len() && s.take(p.len() as int) == p
}

/// `s` ends with `p`.
pub open spec fn ends(s: Seq<char>, p: Seq<char>) -> bool {
    p.len() <= s.len() && s.skip(s.len() - p.len()) == p
}

/// What is left of `s` behind the prefix `p`, if `s` begins with `p`.
pub open spec fn after_prefix(s: Seq<char>, p: Seq<char>) -> Option<Seq<char>> {
    if starts(s, p) {
        Some(s.skip(p.len() as int))
    } else {
        None
    }
}

/// `s` without the prefix `p`, or `s` itself where it does not begin with `p`.
pub open spec fn without_prefix(s: Seq<char>, p: Seq<char>) -> Seq<char> {
    if starts(s, p) {
        s.skip(p.len() as int)
    } else {
        s
    }
}

/// `p` stands in `s` at position `i`.
pub open spec fn occurs_at(s: Seq<char>, p: Seq<char>, i: int) -> bool {
    0 <= i && i + p.len() <= s.len() && s.subrange(i, i + p.len()) == p
}

/// `p` stands somewhere in `s`.
pub open spec fn has(s: Seq<char>, p: Seq<char>) -> bool {
    exists|i: int| occurs_at(s, p, i)
}

/// The first position of `p` in `s` that is not before `from`, or -1.
pub open spec fn find_from(s: Seq<char>, p: Seq<char>, from: int) -> int
    decreases s.len() - from + 1,
{
    if from < 0 || from + p.len() > s.len() {
        -1
    } else if occurs_at(s, p, from) {
        from
    } else {
        find_from(s, p, from + 1)
    }
}

/// `find_from` gives the first occurrence, and -1 only where there is none.
pub proof fn find_from_is_first(s: Seq<char>, p: Seq<char>, from: int)
    requires
        0 <= from,
    ensures
        find_from(s, p, from) == -1 ==> forall|i: int| from <= i ==> !occurs_at(s, p, i),
        find_from(s, p, from) != -1 ==> {
            &&& from <= find_from(s, p, from)
            &&& occurs_at(s, p, find_from(s, p, from))
            &&& forall|i: int| from <= i < find_from(s, p, from) ==> !occurs_at(s, p, i)
        },
    decreases s.len() - from + 1,
{
    if from + p.len() <= s.len() && !occurs_at(s, p, from) {
        find_from_is_first(s, p, from + 1);
    }
}

/// Whether `p` stands in `v` at position `i`.
fn occurs(v: &Vec<char>, p: &Vec<char>, i: usize) -> (r: bool)
    ensures
        r == occurs_at(v@, p@, i as int),
{
    if v.len() < p.len() || i > v.len() - p.len() {
        return false;
    }
    let mut k: usize = 0;
    while k < p.len()
        invariant
            k <= p@.len(),
            i + p@.len() <= v.len(),
            forall|j: int| 0 <= j < k ==> v@[i + j] == p@[j],
        decreases p@.len() - k,
    {
        if v[i + k] != p[k] {
            proof {
                let sub = v@.subrange(i as int, i + p@.len());
                assert(sub[k as int] == v@[i + k]);
            }
            return false;
        }
        k = k + 1;
    }
    assert(v@.subrange(i as int, i + p@.len()) =~= p@);
    true
}

/// The first position of `p` in `v` from `from` on.
pub fn find_in(v: &Vec<char>, p: &Vec<char>, from: usize) -> (r: Option<usize>)
    ensures
        r matches Some(i) ==> i == find_from(v@, p@, from as int) && i + p@.len() <= v.len(),
        r is None ==> find_from(v@, p@, from as int) == -1,
{
    let mut i: usize = from;
    while i <= v.len() && p.len() <= v.len() - i
        invariant
            from <= i,
            find_from(v@, p@, from as int) == find_from(v@, p@, i as int),
        decreases v@.len() - i,
    {
        if occurs(v, p, i) {
            return Some(i);
        }
        if i == v.len() {
            assert(v@.subrange(i as int, i + p@.len()) =~= p@);
            return None;
        }
        i = i + 1;
    }
    None
}

/// Whether `p` stands somewhere in `s`.
pub fn contains(s: &str, p: &str) -> (r: bool)
    ensures
        r == has(s@, p@),
{
    let v: Vec<char> = chars_of(s);
    let q: Vec<char> = chars_of(p);
    proof {
        find_from_is_first(s@, p@, 0);
    }
    match find_in(&v, &q, 0) {
        Some(i) => {
            assert(occurs_at(s@, p@, i as int));
            true
        },
        None => false,
    }
}

/// Whether `s` begins with `p`.
pub fn starts_with(s: &str, p: &str) -> (r: bool)
    ensures
        r == starts(s@, p@),
{
    let v: Vec<char> = chars_of(s);
    let q: Vec<char> = chars_of(p);
    let r: bool = occurs(&v, &q, 0);
    proof {
        if q@.len() <= v@.len() {
            assert(v@.subrange(0, q@.len() as int) =~= v@.take(q@.len() as int));
        }
    }
    r
}

/// Whether `s` ends with `p`.
pub fn ends_with(s: &str, p: &str) -> (r: bool)
    ensures
        r == ends(s@, p@),
{
    let v: Vec<char> = chars_of(s);
    let q: Vec<char> = chars_of(p);
    if q.len() > v.len() {
        return false;
    }
    let r: bool = occurs(&v, &q, v.len() - q.len());
    assert(v@.subrange(v@.len() - q@.len(), v@.len() as int) =~= v@.skip(v@.len() - q@.len()));
    r
}

/// What is left of `s` behind the prefix `p`.
pub fn strip_prefix(s: &str, p: &str) -> (r: Option<String>)
    ensures
        r.deep_view() == after_prefix(s@, p@),
{
    if starts_with(s, p) {
        let v: Vec<char> = chars_of(s);
        let q: Vec<char> = chars_of(p);
        let t: String = string_of(&v, q.len(), v.len());
        assert(t@ =~= s@.skip(p@.len() as int));
        Some(t)
    } else {
        None
    }
}

/// `s` without the prefix `p`, or a copy of `s`.
pub fn drop_prefix(s: &str, p: &str) -> (r: String)
    ensures
        r@ == without_prefix(s@, p@),
{
    match strip_prefix(s, p) {
        Some(t) => t,
        None => own(s),
    }
}

// ---------------------------------------------------------------------------
// Trimming
// ---------------------------------------------------------------------------

/// The number of white space characters at the front of `s`.
pub open spec fn lead_space(s: Seq<char>) -> nat
    decreases s.len(),
{
    if s.len() > 0 && is_space(s[0]) {
        1 + lead_space(s.drop_first())
    } else {
        0
    }
}

/// The number of characters at the front of `s` that are no white space.
pub open spec fn lead_word(s: Seq<char>) -> nat
    decreases s.len(),
{
    if s.len() > 0 && !is_space(s[0]) {
        1 + lead_word(s.drop_first())
    } else {
        0
    }
}

/// Neither count exceeds the length, and each stops at a character of the
/// other sort.
pub proof fn lead_bounds(s: Seq<char>)
    ensures
        lead_space(s) <= s.len(),
        lead_word(s) <= s.len(),
        lead_space(s) < s.len() ==> !is_space(s[lead_space(s) as int]),
        lead_word(s) < s.len() ==> is_space(s[lead_word(s) as int]),
    decreases s.len(),
{
    if s.len() > 0 {
        lead_bounds(s.drop_first());
    }
}

/// `s` without the white space at its end.
pub open spec fn trim_end_of(s: Seq<char>) -> Seq<char>
    decreases s.len(),
{
    if s.len() > 0 && is_space(s.last()) {
        trim_end_of(s.drop_last())
    } else {
        s
    }
}

/// `s` without the white space at its two ends.
pub open spec fn trimmed(s: Seq<char>) -> Seq<char> {
    trim_end_of(s.skip(lead_space(s) as int))
}

/// The end of the run of white space (or of other characters) at `from`.
fn run_end(v: &Vec<char>, from: usize, of_space: bool) -> (r: usize)
    requires
        from <= v@.len(),
    ensures
        from <= r <= v@.len(),
        of_space ==> r == from + lead_space(v@.skip(from as int)),
        !of_space ==> r == from + lead_word(v@.skip(from as int)),
{
    let mut i: usize = from;
    while i < v.len() && space(v[i]) == of_space
        invariant
            from <= i <= v@.len(),
            of_space ==> lead_space(v@.skip(from as int)) == i - from + lead_space(
                v@.skip(i as int),
            ),
            !of_space ==> lead_word(v@.skip(from as int)) == i - from + lead_word(
                v@.skip(i as int),
            ),
        decreases v@.len() - i,
    {
        assert(v@.skip(i as int).drop_first() =~= v@.skip(i + 1));
        i = i + 1;
    }
    i
}

/// `s` without the white space at its two ends.
pub fn trim(s: &str) -> (r: String)
    ensures
        r@ == trimmed(s@),
{
    let v: Vec<char> = chars_of(s);
    let from: usize = run_end(&v, 0, true);
    assert(v@.skip(0) =~= v@);
    let mut to: usize = v.len();
    assert(v@.subrange(from as int, to as int) =~= v@.skip(from as int));
    while to > from && space(v[to - 1])
        invariant
            from <= to <= v@.len(),
            trim_end_of(v@.skip(from as int)) == trim_end_of(v@.subrange(from as int, to as int)),
        decreases to,
    {
        assert(v@.subrange(from as int, to as int).drop_last() =~= v@.subrange(
            from as int,
            to - 1,
        ));
        to = to - 1;
    }
    string_of(&v, from, to)
}

/// `s` without the characters `c` at its end.
pub open spec fn trim_end_char(s: Seq<char>, c: char) -> Seq<char>
    decreases s.len(),
{
    if s.len() > 0 && s.last() == c {
        trim_end_char(s.drop_last(), c)
    } else {
        s
    }
}

/// `s` without the characters `c` at its end.
pub fn trim_end_matches(s: &str, c: char) -> (r: String)
    ensures
        r@ == trim_end_char(s@, c),
{
    let v: Vec<char> = chars_of(s);
    let mut to: usize = v.len();
    assert(v@.take(to as int) =~= v@);
    while to > 0 && v[to - 1] == c
        invariant
            to <= v@.len(),
            trim_end_char(v@, c) == trim_end_char(v@.take(to as int), c),
        decreases to,
    {
        assert(v@.take(to as int).drop_last() =~= v@.take(to - 1));
        to = to - 1;
    }
    let r: String = string_of(&v, 0, to);
    assert(r@ =~= v@.take(to as int));
    r
}

// ---------------------------------------------------------------------------
// Splitting
// ---------------------------------------------------------------------------

/// The pieces of `s` between the occurrences of `c`.
pub open spec fn split_on(s: Seq<char>, c: char) -> Seq<Seq<char>>
    decreases s.len(),
{
    let k = find_char(s, c);
    if k >= s.len() {
        seq![s]
    } else {
        seq![s.take(k as int)] + split_on(s.skip(k as int + 1), c)
    }
}

/// The first position of `c` in `s`, or the length of `s`.
pub open spec fn find_char(s: Seq<char>, c: char) -> nat
    decreases s.len(),
{
    if s.len() == 0 || s[0] == c {
        0
    } else {
        1 + find_char(s.drop_first(), c)
    }
}

/// `find_char` gives the first position of `c`.
pub proof fn find_char_is_first(s: Seq<char>, c: char)
    ensures
        find_char(s, c) <= s.len(),
        find_char(s, c) < s.len() ==> s[find_char(s, c) as int] == c,
        forall|i: int| 0 <= i < find_char(s, c) ==> s[i] != c,
    decreases s.len(),
{
    if s.len() > 0 && s[0] != c {
        find_char_is_first(s.drop_first(), c);
        assert forall|i: int| 0 <= i < find_char(s, c) implies s[i] != c by {
            if i > 0 {
                assert(s[i] == s.drop_first()[i - 1]);
            }
        }
    }
}

/// The first position of `c` in `v` from `from` on, or the length.
fn seek(v: &Vec<char>, from: usize, c: char) -> (r: usize)
    requires
        from <= v@.len(),
    ensures
        from <= r <= v@.len(),
        r == from + find_char(v@.skip(from as int), c),
{
    let mut i: usize = from;
    while i < v.len() && v[i] != c
        invariant
            from <= i <= v@.len(),
            find_char(v@.skip(from as int), c) == i - from + find_char(v@.skip(i as int), c),
        decreases v@.len() - i,
    {
        assert(v@.skip(i as int).drop_first() =~= v@.skip(i + 1));
        i = i + 1;
    }
    i
}

/// The pieces of `s` between the occurrences of `c`.
pub fn split(s: &str, c: char) -> (r: Vec<String>)
    ensures
        r.deep_view() == split_on(s@, c),
        r@.len() >= 1,
{
    let v: Vec<char> = chars_of(s);
    let mut out: Vec<String> = Vec::new();
    let mut i: usize = 0;
    assert(v@.skip(0) =~= v@);
    loop
        invariant
            i <= v@.len(),
            v@ == s@,
            out.deep_view() + split_on(v@.skip(i as int), c) == split_on(s@, c),
        decreases v@.len() - i,
    {
        let j: usize = seek(&v, i, c);
        let ghost rest = v@.skip(i as int);
        let piece: String = string_of(&v, i, j);
        assert(piece@ =~= rest.take(j - i));
        let ghost before = out.deep_view();
        push_text(&mut out, piece);
        if j >= v.len() {
            assert(rest.take(j - i) =~= rest);
            assert(out.deep_view() =~= before + seq![rest]);
            return out;
        }
        proof {
            assert(rest.skip(j - i + 1) =~= v@.skip(j + 1));
            assert(out.deep_view() + split_on(v@.skip(j + 1), c) =~= before + split_on(rest, c));
        }
        i = j + 1;
    }
}

/// The piece at position `n` between the occurrences of `c`.
pub open spec fn nth_piece(s: Seq<char>, c: char, n: int) -> Option<Seq<char>> {
    if 0 <= n < split_on(s, c).len() {
        Some(split_on(s, c)[n])
    } else {
        None
    }
}

/// The piece of `s` at position `n` between the occurrences of `c`.
pub fn piece(s: &str, c: char, n: usize) -> (r: Option<String>)
    ensures
        r.deep_view() == nth_piece(s@, c, n as int),
{
    let v: Vec<String> = split(s, c);
    if n < v.len() {
        assert(v.deep_view()[n as int] == v@[n as int]@);
        Some(own(&v[n]))
    } else {
        None
    }
}

/// The last piece of `s` behind the occurrences of `c`.
pub fn last_piece(s: &str, c: char) -> (r: String)
    ensures
        r@ == split_on(s@, c).last(),
{
    let v: Vec<String> = split(s, c);
    assert(v.deep_view().last() == v@.last()@);
    own(&v[v.len() - 1])
}

/// What stands before and behind the first `c` in `s`.
pub open spec fn cut_at(s: Seq<char>, c: char) -> Option<(Seq<char>, Seq<char>)> {
    let k = find_char(s, c);
    if k >= s.len() {
        None
    } else {
        Some((s.take(k as int), s.skip(k as int + 1)))
    }
}

/// What stands before and behind the first `c` in `s`.
pub fn cut(s: &str, c: char) -> (r: Option<(String, String)>)
    ensures
        r.deep_view() == cut_at(s@, c),
{
    let v: Vec<char> = chars_of(s);
    assert(v@.skip(0) =~= v@);
    let k: usize = seek(&v, 0, c);
    if k >= v.len() {
        None
    } else {
        let a: String = string_of(&v, 0, k);
        let b: String = string_of(&v, k + 1, v.len());
        assert(a@ =~= s@.take(k as int));
        assert(b@ =~= s@.skip(k + 1));
        Some((a, b))
    }
}

/// The pieces of `s` between the occurrences of the pattern `p`.
pub open spec fn split_at_text(s: Seq<char>, p: Seq<char>) -> Seq<Seq<char>>
    decreases s.len(),
{
    let k = find_from(s, p, 0);
    if p.len() == 0 || k < 0 || k + p.len() > s.len() {
        seq![s]
    } else {
        seq![s.take(k)] + split_at_text(s.skip(k + p.len()), p)
    }
}

/// Searching behind the front of a text is searching in its rest.
proof fn find_from_skip(s: Seq<char>, p: Seq<char>, n: int, from: int)
    requires
        0 <= n <= s.len(),
        0 <= from,
    ensures
        find_from(s, p, n + from) == (if find_from(s.skip(n), p, from) < 0 {
            -1
        } else {
            n + find_from(s.skip(n), p, from)
        }),
    decreases s.len() - n - from + 1,
{
    let t = s.skip(n);
    if n + from + p.len() <= s.len() {
        assert(s.subrange(n + from, n + from + p.len()) =~= t.subrange(from, from + p.len()));
        if !occurs_at(s, p, n + from) {
            find_from_skip(s, p, n, from + 1);
        } else {
        }
    }
}

/// The pieces of `s` between the occurrences of the pattern `p`, which is
/// not empty.
pub fn split_text(s: &str, p: &str) -> (r: Vec<String>)
    requires
        p@.len() > 0,
    ensures
        r.deep_view() == split_at_text(s@, p@),
        r@.len() >= 1,
{
    let v: Vec<char> = chars_of(s);
    let q: Vec<char> = chars_of(p);
    let mut out: Vec<String> = Vec::new();
    let mut i: usize = 0;
    assert(v@.skip(0) =~= v@);
    loop
        invariant
            i <= v@.len(),
            v@ == s@,
            q@ == p@,
            p@.len() > 0,
            out.deep_view() + split_at_text(v@.skip(i as int), p@) == split_at_text(s@, p@),
        decreases v@.len() - i,
    {
        let ghost rest = v@.skip(i as int);
        let ghost before = out.deep_view();
        proof {
            find_from_skip(v@, q@, i as int, 0);
            find_from_is_first(rest, p@, 0);
        }
        match find_in(&v, &q, i) {
            None => {
                let last: String = string_of(&v, i, v.len());
                assert(last@ =~= rest);
                push_text(&mut out, last);
                assert(out.deep_view() =~= before + seq![rest]);
                return out;
            },
            Some(j) => {
                let piece: String = string_of(&v, i, j);
                assert(piece@ =~= rest.take(j - i));
                push_text(&mut out, piece);
                proof {
                    assert(rest.skip(j - i + p@.len()) =~= v@.skip(j + p@.len()));
                    assert(out.deep_view() + split_at_text(v@.skip(j + p@.len()), p@) =~= before
                        + split_at_text(rest, p@));
                }
                i = j + q.len();
            },
        }
    }
}

/// The piece at position `n` between the occurrences of `p`.
pub open spec fn nth_text_piece(s: Seq<char>, p: Seq<char>, n: int) -> Option<Seq<char>> {
    if 0 <= n < split_at_text(s, p).len() {
        Some(split_at_text(s, p)[n])
    } else {
        None
    }
}

/// The piece of `s` at position `n` between the occurrences of `p`, which is
/// not empty.
pub fn text_piece(s: &str, p: &str, n: usize) -> (r: Option<String>)
    requires
        p@.len() > 0,
    ensures
        r.deep_view() == nth_text_piece(s@, p@, n as int),
{
    let v: Vec<String> = split_text(s, p);
    if n < v.len() {
        assert(v.deep_view()[n as int] == v@[n as int]@);
        Some(own(&v[n]))
    } else {
        None
    }
}

/// The words of `s`: its longest pieces without white space.
pub open spec fn words_of(s: Seq<char>) -> Seq<Seq<char>>
    decreases s.len(),
{
    let t = s.skip(lead_space(s) as int);
    let n = lead_word(t);
    if lead_space(s) >= s.len() || n == 0 || n > t.len() {
        Seq::empty()
    } else {
        seq![t.take(n as int)] + words_of(t.skip(n as int))
    }
}

/// The words of `s`: its longest pieces without white space.
pub fn words(s: &str) -> (r: Vec<String>)
    ensures
        r.deep_view() == words_of(s@),
{
    let v: Vec<char> = chars_of(s);
    let mut out: Vec<String> = Vec::new();
    let mut i: usize = 0;
    assert(v@.skip(0) =~= v@);
    assert(out.deep_view() =~= Seq::<Seq<char>>::empty());
    assert(Seq::<Seq<char>>::empty() + words_of(v@) =~= words_of(v@));
    loop
        invariant
            i <= v@.len(),
            v@ == s@,
            out.deep_view() + words_of(v@.skip(i as int)) == words_of(s@),
        decreases v@.len() - i,
    {
        let ghost rest = v@.skip(i as int);
        let ghost before = out.deep_view();
        let j: usize = run_end(&v, i, true);
        let k: usize = run_end(&v, j, false);
        let ghost t = v@.skip(j as int);
        proof {
            assert(rest.skip(lead_space(rest) as int) =~= t);
            lead_bounds(rest);
            lead_bounds(t);
        }
        if j >= v.len() {
            assert(out.deep_view() + Seq::<Seq<char>>::empty() =~= out.deep_view());
            return out;
        }
        assert(t[0] == v@[j as int]);
        assert(rest[lead_space(rest) as int] == t[0]);
        let w: String = string_of(&v, j, k);
        assert(w@ =~= t.take(k - j));
        push_text(&mut out, w);
        proof {
            assert(t.skip(k - j) =~= v@.skip(k as int));
            assert(out.deep_view() + words_of(v@.skip(k as int)) =~= before + words_of(rest));
        }
        i = k;
    }
}

/// The word of `s` at position `n`.
pub open spec fn nth_word(s: Seq<char>, n: int) -> Option<Seq<char>> {
    if 0 <= n < words_of(s).len() {
        Some(words_of(s)[n])
    } else {
        None
    }
}

/// The word of `s` at position `n`.
pub fn word(s: &str, n: usize) -> (r: Option<String>)
    ensures
        r.deep_view() == nth_word(s@, n as int),
{
    let v: Vec<String> = words(s);
    if n < v.len() {
        assert(v.deep_view()[n as int] == v@[n as int]@);
        Some(own(&v[n]))
    } else {
        None
    }
}

/// A line without the carriage return before its line feed.
pub open spec fn without_return(s: Seq<char>) -> Seq<char> {
    if s.len() > 0 && s.last() == '\r' {
        s.drop_last()
    } else {
        s
    }
}

/// The lines of `s`: its pieces that end in a line feed, with or without a
/// carriage return before it, and what follows the last of them unless that
/// is empty.
pub open spec fn lines_of(s: Seq<char>) -> Seq<Seq<char>>
    decreases s.len(),
{
    let k = find_char(s, '\n');
    if s.len() == 0 {
        Seq::empty()
    } else if k >= s.len() {
        seq![s]
    } else {
        seq![without_return(s.take(k as int))] + lines_of(s.skip(k as int + 1))
    }
}

/// The lines of `s`.
pub fn lines(s: &str) -> (r: Vec<String>)
    ensures
        r.deep_view() == lines_of(s@),
{
    let v: Vec<char> = chars_of(s);
    let mut out: Vec<String> = Vec::new();
    let mut i: usize = 0;
    assert(v@.skip(0) =~= v@);
    assert(out.deep_view() + lines_of(v@) =~= lines_of(v@));
    while i < v.len()
        invariant
            i <= v@.len(),
            v@ == s@,
            out.deep_view() + lines_of(v@.skip(i as int)) == lines_of(s@),
        decreases v@.len() - i,
    {
        let ghost rest = v@.skip(i as int);
        let ghost before = out.deep_view();
        let j: usize = seek(&v, i, '\n');
        if j >= v.len() {
            let last: String = string_of(&v, i, j);
            assert(last@ =~= rest);
            push_text(&mut out, last);
            assert(out.deep_view() =~= before + seq![rest]);
            return out;
        }
        let ghost raw = rest.take(j - i);
        let end: usize = if j > i && v[j - 1] == '\r' {
            j - 1
        } else {
            j
        };
        let line: String = string_of(&v, i, end);
        assert(line@ =~= without_return(raw));
        push_text(&mut out, line);
        proof {
            assert(rest.skip(j - i + 1) =~= v@.skip(j + 1));
            assert(out.deep_view() + lines_of(v@.skip(j + 1)) =~= before + lines_of(rest));
        }
        i = j + 1;
    }
    assert(v@.skip(i as int) =~= Seq::<char>::empty());
    assert(out.deep_view() + Seq::<Seq<char>>::empty() =~= out.deep_view());
    out
}

/// The first of the lines that holds `p`.
pub open spec fn first_with(lines: Seq<Seq<char>>, p: Seq<char>) -> Option<Seq<char>>
    decreases lines.len(),
{
    if lines.len() == 0 {
        None
    } else if has(lines[0], p) {
        Some(lines[0])
    } else {
        first_with(lines.drop_first(), p)
    }
}

/// The first line of `s` that holds `p`.
pub fn line_with(s: &str, p: &str) -> (r: Option<String>)
    ensures
        r.deep_view() == first_with(lines_of(s@), p@),
{
    let all: Vec<String> = lines(s);
    let ghost ls = all.deep_view();
    let mut i: usize = 0;
    assert(ls.skip(0) =~= ls);
    while i < all.len()
        invariant
            i <= all@.len(),
            ls == all.deep_view(),
            ls == lines_of(s@),
            first_with(ls, p@) == first_with(ls.skip(i as int), p@),
        decreases all@.len() - i,
    {
        assert(ls.skip(i as int)[0] == all@[i as int]@);
        assert(ls.skip(i as int).drop_first() =~= ls.skip(i + 1));
        if contains(&all[i], p) {
            return Some(own(&all[i]));
        }
        i = i + 1;
    }
    None
}

/// The word at position `n` of the first of the lines that holds `p`.
pub open spec fn word_with(lines: Seq<Seq<char>>, p: Seq<char>, n: int) -> Option<Seq<char>> {
    match first_with(lines, p) {
        Some(line) => nth_word(line, n),
        None => None,
    }
}

/// The word at position `n` of the first line of `s` that holds `p`.
pub fn line_word(s: &str, p: &str, n: usize) -> (r: Option<String>)
    ensures
        r.deep_view() == word_with(lines_of(s@), p@, n as int),
{
    match line_with(s, p) {
        Some(line) => word(&line, n),
        None => None,
    }
}

/// `s` without the copies of `p` at its front.
pub open spec fn trim_start_text(s: Seq<char>, p: Seq<char>) -> Seq<char>
    decreases s.len(),
{
    if p.len() > 0 && starts(s, p) {
        trim_start_text(s.skip(p.len() as int), p)
    } else {
        s
    }
}

/// `s` without the copies of `p` at its front.
pub fn trim_start_texts(s: &str, p: &str) -> (r: String)
    ensures
        r@ == trim_start_text(s@, p@),
{
    let v: Vec<char> = chars_of(s);
    let q: Vec<char> = chars_of(p);
    if q.len() == 0 {
        return own(s);
    }
    let mut from: usize = 0;
    assert(v@.skip(0) =~= v@);
    while from <= v.len() && q.len() <= v.len() - from
        invariant
            from <= v@.len(),
            q@ == p@,
            q@.len() > 0,
            v@ == s@,
            trim_start_text(s@, p@) == trim_start_text(v@.skip(from as int), p@),
        decreases v@.len() - from,
    {
        let ghost t = v@.skip(from as int);
        let hit: bool = occurs(&v, &q, from);
        proof {
            assert(v@.subrange(from as int, from + q@.len()) =~= t.take(p@.len() as int));
            assert(t.skip(p@.len() as int) =~= v@.skip(from + q@.len()));
        }
        if !hit {
            let r: String = string_of(&v, from, v.len());
            assert(r@ =~= t);
            return r;
        }
        from = from + q.len();
    }
    let r: String = string_of(&v, from, v.len());
    assert(r@ =~= v@.skip(from as int));
    r
}

/// `s` without the characters `c` at its front.
pub open spec fn trim_start_char(s: Seq<char>, c: char) -> Seq<char>
    decreases s.len(),
{
    if s.len() > 0 && s[0] == c {
        trim_start_char(s.skip(1), c)
    } else {
        s
    }
}

/// `s` without the characters `c` at both ends.
pub fn trim_matches(s: &str, c: char) -> (r: String)
    ensures
        r@ == trim_end_char(trim_start_char(s@, c), c),
{
    let v: Vec<char> = chars_of(s);
    let mut from: usize = 0;
    assert(v@.skip(0) =~= v@);
    while from < v.len() && v[from] == c
        invariant
            from <= v@.len(),
            v@ == s@,
            trim_start_char(s@, c) == trim_start_char(v@.skip(from as int), c),
        decreases v@.len() - from,
    {
        assert(v@.skip(from as int)[0] == v@[from as int]);
        assert(v@.skip(from as int).skip(1) =~= v@.skip(from + 1));
        from = from + 1;
    }
    let t: String = string_of(&v, from, v.len());
    proof {
        assert(t@ =~= v@.skip(from as int));
        if from < v@.len() {
            assert(t@[0] == v@[from as int]);
        }
    }
    trim_end_matches(&t, c)
}

/// What stands before and behind the first `p`.
pub open spec fn cut_at_text(s: Seq<char>, p: Seq<char>) -> Option<(Seq<char>, Seq<char>)> {
    let i = find_from(s, p, 0);
    if i < 0 {
        None
    } else {
        Some((s.take(i), s.skip(i + p.len())))
    }
}

/// What stands before and behind the first `p`.
pub fn cut_text(s: &str, p: &str) -> (r: Option<(String, String)>)
    ensures
        r.deep_view() == cut_at_text(s@, p@),
{
    let v: Vec<char> = chars_of(s);
    let q: Vec<char> = chars_of(p);
    match find_in(&v, &q, 0) {
        None => None,
        Some(i) => {
            let a: String = string_of(&v, 0, i);
            let b: String = string_of(&v, i + q.len(), v.len());
            assert(a@ =~= s@.take(i as int));
            assert(b@ =~= s@.skip(i + q@.len()));
            Some((a, b))
        },
    }
}

/// The texts are the same but for the case of ASCII letters.
pub open spec fn same_letters(a: Seq<char>, b: Seq<char>) -> bool {
    ascii_lower(a) == ascii_lower(b)
}

/// Whether the texts are the same but for the case of ASCII letters.
pub fn same_but_case(a: &str, b: &str) -> (r: bool)
    ensures
        r == same_letters(a@, b@),
{
    same(&to_ascii_lower(a), &to_ascii_lower(b))
}

/// `s` without the copies of `p` at its end.
pub open spec fn trim_end_text(s: Seq<char>, p: Seq<char>) -> Seq<char>
    decreases s.len(),
{
    if p.len() > 0 && ends(s, p) {
        trim_end_text(s.take(s.len() - p.len()), p)
    } else {
        s
    }
}

/// `s` without the copies of `p` at its end.
pub fn trim_end_texts(s: &str, p: &str) -> (r: String)
    ensures
        r@ == trim_end_text(s@, p@),
{
    let v: Vec<char> = chars_of(s);
    let q: Vec<char> = chars_of(p);
    if q.len() == 0 {
        return own(s);
    }
    let mut to: usize = v.len();
    assert(v@.take(to as int) =~= v@);
    while to >= q.len()
        invariant
            to <= v@.len(),
            q@ == p@,
            q@.len() > 0,
            v@ == s@,
            trim_end_text(s@, p@) == trim_end_text(v@.take(to as int), p@),
        decreases to,
    {
        let ghost t = v@.take(to as int);
        let hit: bool = occurs(&v, &q, to - q.len());
        proof {
            assert(v@.subrange(to - q@.len(), to as int) =~= t.skip(t.len() - p@.len()));
            assert(t.take(t.len() - p@.len()) =~= v@.take(to - q@.len()));
        }
        if !hit {
            let r: String = string_of(&v, 0, to);
            assert(r@ =~= t);
            return r;
        }
        to = to - q.len();
    }
    let r: String = string_of(&v, 0, to);
    assert(r@ =~= v@.take(to as int));
    r
}

// ---------------------------------------------------------------------------
// Joining and replacing
// ---------------------------------------------------------------------------

/// The pieces one after the other, with `sep` between them.
pub open spec fn joined(parts: Seq<Seq<char>>, sep: Seq<char>) -> Seq<char>
    decreases parts.len(),
{
    if parts.len() == 0 {
        Seq::empty()
    } else if parts.len() == 1 {
        parts[0]
    } else {
        joined(parts.drop_last(), sep) + sep + parts.last()
    }
}

/// The strings one after the other, with `sep` between them.
pub fn join(parts: &Vec<String>, sep: &str) -> (r: String)
    ensures
        r@ == joined(parts.deep_view(), sep@),
{
    let mut out: String = String::new();
    let mut i: usize = 0;
    let ghost all = parts.deep_view();
    while i < parts.len()
        invariant
            i <= parts@.len(),
            all == parts.deep_view(),
            out@ == joined(all.take(i as int), sep@),
        decreases parts@.len() - i,
    {
        proof {
            assert(all.take(i + 1).drop_last() =~= all.take(i as int));
            assert(all.take(i + 1).last() == parts@[i as int]@);
        }
        if i > 0 {
            out.append(sep);
        }
        out.append(&parts[i]);
        proof {
            if i == 0 {
                assert(out@ =~= parts@[0]@);
            }
        }
        i = i + 1;
    }
    assert(all.take(i as int) =~= all);
    out
}

/// `n` spaces.
pub open spec fn spaces(n: nat) -> Seq<char> {
    Seq::new(n, |i: int| ' ')
}

/// `s` with spaces before it up to `width` characters.
pub open spec fn right_aligned(s: Seq<char>, width: nat) -> Seq<char> {
    if s.len() >= width {
        s
    } else {
        spaces((width - s.len()) as nat) + s
    }
}

/// `s` with spaces behind it up to `width` characters.
pub open spec fn left_aligned(s: Seq<char>, width: nat) -> Seq<char> {
    if s.len() >= width {
        s
    } else {
        s + spaces((width - s.len()) as nat)
    }
}

/// `n` spaces.
fn blanks(n: usize) -> (r: String)
    ensures
        r@ == spaces(n as nat),
{
    let mut out: String = String::new();
    let mut i: usize = 0;
    while i < n
        invariant
            i <= n,
            out@ == spaces(i as nat),
        decreases n - i,
    {
        out.push(' ');
        i = i + 1;
        assert(out@ =~= spaces(i as nat));
    }
    assert(out@ =~= spaces(n as nat));
    out
}

/// `s` with spaces before it up to `width` characters.
pub fn align_right(s: &str, width: usize) -> (r: String)
    ensures
        r@ == right_aligned(s@, width as nat),
{
    let n: usize = s.unicode_len();
    if n >= width {
        own(s)
    } else {
        glue(&blanks(width - n), s)
    }
}

/// `s` with spaces behind it up to `width` characters.
pub fn align_left(s: &str, width: usize) -> (r: String)
    ensures
        r@ == left_aligned(s@, width as nat),
{
    let n: usize = s.unicode_len();
    if n >= width {
        own(s)
    } else {
        glue(s, &blanks(width - n))
    }
}

/// `s` with every occurrence of `from`, read from the left and without
/// overlaps, replaced by `to`.
pub open spec fn replaced(s: Seq<char>, from: Seq<char>, to: Seq<char>) -> Seq<char> {
    joined(split_at_text(s, from), to)
}

/// `s` with every occurrence of `from`, which is not empty, replaced by `to`.
pub fn replace(s: &str, from: &str, to: &str) -> (r: String)
    requires
        from@.len() > 0,
    ensures
        r@ == replaced(s@, from@, to@),
{
    join(&split_text(s, from), to)
}

/// `s` with the character `from` replaced by `to` wherever it stands.
pub fn replace_char(s: &str, from: char, to: &str) -> (r: String)
    ensures
        r@ == joined(split_on(s@, from), to@),
{
    join(&split(s, from), to)
}

// ---------------------------------------------------------------------------
// Case
// ---------------------------------------------------------------------------

/// `s` with its ASCII capitals turned into small letters.
pub open spec fn ascii_lower(s: Seq<char>) -> Seq<char> {
    s.map_values(|c: char| lower_char(c))
}

/// `s` with its ASCII capitals turned into small letters.
pub fn to_ascii_lower(s: &str) -> (r: String)
    ensures
        r@ == ascii_lower(s@),
{
    let v: Vec<char> = chars_of(s);
    let mut out: String = String::new();
    let mut i: usize = 0;
    while i < v.len()
        invariant
            i <= v@.len(),
            v@ == s@,
            out@ == ascii_lower(s@).take(i as int),
        decreases v@.len() - i,
    {
        let c: char = v[i];
        let d: char = if 'A' <= c && c <= 'Z' {
            ((c as u8) + 32) as char
        } else {
            c
        };
        assert(d == lower_char(c));
        out.push(d);
        i = i + 1;
        assert(out@ =~= ascii_lower(s@).take(i as int));
    }
    assert(ascii_lower(s@).take(i as int) =~= ascii_lower(s@));
    out
}

/// What `str::to_lowercase` makes of a text: each character mapped by
/// Unicode's rules for small letters.
pub uninterp spec fn lowercase(s: Seq<char>) -> Seq<char>;

/// Calls `str::to_lowercase`, whose result depends on the text alone.
#[verifier::external_body]
pub(crate) fn to_lowercase(s: &str) -> (r: String)
    ensures
        r@ == lowercase(s@),
{
    s.to_lowercase()
}

// ---------------------------------------------------------------------------
// Order
// ---------------------------------------------------------------------------

/// `a` stands before `b` in the order of code points.
pub open spec fn precedes(a: Seq<char>, b: Seq<char>) -> bool
    decreases a.len(),
{
    if b.len() == 0 {
        false
    } else if a.len() == 0 {
        true
    } else if a[0] == b[0] {
        precedes(a.drop_first(), b.drop_first())
    } else {
        a[0] < b[0]
    }
}

/// `precedes` is a strict total order.
pub proof fn precedes_total(a: Seq<char>, b: Seq<char>)
    ensures
        !precedes(a, a),
        precedes(a, b) ==> !precedes(b, a),
        a != b ==> precedes(a, b) || precedes(b, a),
    decreases a.len(),
{
    if a.len() > 0 {
        precedes_total(a.drop_first(), a.drop_first());
    }
    if a.len() > 0 && b.len() > 0 && a[0] == b[0] {
        precedes_total(a.drop_first(), b.drop_first());
        if a.drop_first() == b.drop_first() {
            assert(a =~= seq![a[0]] + a.drop_first());
            assert(b =~= seq![b[0]] + b.drop_first());
        }
    }
    if a.len() == 0 && b.len() == 0 {
        assert(a =~= b);
    }
}

/// `precedes` is transitive.
pub proof fn precedes_transitive(a: Seq<char>, b: Seq<char>, c: Seq<char>)
    requires
        precedes(a, b),
        precedes(b, c),
    ensures
        precedes(a, c),
    decreases a.len(),
{
    if a.len() > 0 && b.len() > 0 && c.len() > 0 && a[0] == b[0] && b[0] == c[0] {
        precedes_transitive(a.drop_first(), b.drop_first(), c.drop_first());
    }
}

/// Whether `a` stands before `b` in the order of code points.
pub fn before(a: &str, b: &str) -> (r: bool)
    ensures
        r == precedes(a@, b@),
{
    let x: Vec<char> = chars_of(a);
    let y: Vec<char> = chars_of(b);
    let mut i: usize = 0;
    assert(x@.skip(0) =~= x@);
    assert(y@.skip(0) =~= y@);
    while i < x.len() && i < y.len() && x[i] == y[i]
        invariant
            i <= x@.len(),
            i <= y@.len(),
            precedes(x@, y@) == precedes(x@.skip(i as int), y@.skip(i as int)),
        decreases x@.len() - i,
    {
        assert(x@.skip(i as int).drop_first() =~= x@.skip(i + 1));
        assert(y@.skip(i as int).drop_first() =~= y@.skip(i + 1));
        i = i + 1;
    }
    if i >= y.len() {
        false
    } else if i >= x.len() {
        true
    } else {
        x[i] < y[i]
    }
}

// ---------------------------------------------------------------------------
// Numerals
// ---------------------------------------------------------------------------

/// The digit for a number below ten.
pub open spec fn digit_char(d: nat) -> char {
    (48 + d) as char
}

/// The decimal numeral of `n`.
pub open spec fn dec(n: nat) -> Seq<char>
    decreases n,
{
    if n < 10 {
        seq![digit_char(n)]
    } else {
        dec(n / 10).push(digit_char(n % 10))
    }
}

/// The decimal numeral of `n`.
pub fn decimal(n: u64) -> (r: String)
    ensures
        r@ == dec(n as nat),
    decreases n,
{
    let c: char = (48u8 + (n % 10) as u8) as char;
    if n < 10 {
        let mut s: String = String::new();
        s.push(c);
        assert(s@ =~= dec(n as nat));
        s
    } else {
        let mut s: String = decimal(n / 10);
        s.push(c);
        s
    }
}

/// The value of a digit.
pub open spec fn digit_value(c: char) -> nat {
    (c as u32 - 48) as nat
}

/// Every character is a decimal digit.
pub open spec fn all_digits(s: Seq<char>) -> bool {
    forall|i: int| 0 <= i < s.len() ==> is_digit(#[trigger] s[i])
}

/// The value of a sequence of decimal digits.
pub open spec fn digits_value(s: Seq<char>) -> nat
    decreases s.len(),
{
    if s.len() == 0 {
        0
    } else {
        digits_value(s.drop_last()) * 10 + digit_value(s.last())
    }
}

/// `s` without one leading plus sign.
pub open spec fn without_plus(s: Seq<char>) -> Seq<char> {
    if s.len() > 0 && s[0] == '+' {
        s.skip(1)
    } else {
        s
    }
}

/// The unsigned number that `s` writes in decimal digits, at least one, with
/// or without a plus sign before them, if it does not exceed `max`.
pub open spec fn unsigned(s: Seq<char>, max: nat) -> Option<nat> {
    let t = without_plus(s);
    if t.len() > 0 && all_digits(t) && digits_value(t) <= max {
        Some(digits_value(t))
    } else {
        None
    }
}

/// A longer numeral has a value at least as large.
proof fn digits_value_grows(s: Seq<char>, i: int)
    requires
        0 <= i <= s.len(),
    ensures
        digits_value(s.take(i)) <= digits_value(s),
    decreases s.len() - i,
{
    if i < s.len() {
        digits_value_grows(s, i + 1);
        assert(s.take(i + 1).drop_last() =~= s.take(i));
    } else {
        assert(s.take(i) =~= s);
    }
}

/// The unsigned number that `s` writes, if it does not exceed `max`.
pub fn parse_unsigned(s: &str, max: u64) -> (r: Option<u64>)
    ensures
        r is Some <==> unsigned(s@, max as nat) is Some,
        r matches Some(n) ==> unsigned(s@, max as nat) == Some(n as nat) && n <= max,
{
    let v: Vec<char> = chars_of(s);
    let from: usize = if v.len() > 0 && v[0] == '+' {
        1
    } else {
        0
    };
    let ghost t = without_plus(s@);
    assert(v@.skip(from as int) =~= t);
    if from >= v.len() {
        return None;
    }
    let mut n: u64 = 0;
    let mut i: usize = from;
    while i < v.len()
        invariant
            from <= i <= v@.len(),
            from <= 1,
            t == v@.skip(from as int),
            t == without_plus(s@),
            n == digits_value(t.take(i - from)),
            n <= max,
            forall|j: int| 0 <= j < i - from ==> is_digit(#[trigger] t[j]),
        decreases v@.len() - i,
    {
        let c: char = v[i];
        assert(t[i - from] == c);
        if !('0' <= c && c <= '9') {
            return None;
        }
        let d: u64 = ((c as u32) - 48) as u64;
        proof {
            assert(t.take(i - from + 1).drop_last() =~= t.take(i - from));
            assert(t.take(i - from + 1).last() == c);
            digits_value_grows(t, i - from + 1);
        }
        if n > max / 10 {
            assert(n * 10 > max);
            return None;
        }
        let tens: u64 = n * 10;
        if d > max - tens {
            return None;
        }
        n = tens + d;
        i = i + 1;
    }
    assert(t.take(i - from) =~= t);
    Some(n)
}

/// Reads a 32-bit unsigned number.
pub fn parse_u32(s: &str) -> (r: Option<u32>)
    ensures
        r is Some <==> unsigned(s@, u32::MAX as nat) is Some,
        r matches Some(n) ==> unsigned(s@, u32::MAX as nat) == Some(n as nat),
{
    match parse_unsigned(s, 0xffff_ffff) {
        Some(n) => Some(n as u32),
        None => None,
    }
}

/// Reads a 16-bit unsigned number.
pub fn parse_u16(s: &str) -> (r: Option<u16>)
    ensures
        r is Some <==> unsigned(s@, u16::MAX as nat) is Some,
        r matches Some(n) ==> unsigned(s@, u16::MAX as nat) == Some(n as nat),
{
    match parse_unsigned(s, 0xffff) {
        Some(n) => Some(n as u16),
        None => None,
    }
}

/// Reads an 8-bit unsigned number.
pub fn parse_u8(s: &str) -> (r: Option<u8>)
    ensures
        r is Some <==> unsigned(s@, u8::MAX as nat) is Some,
        r matches Some(n) ==> unsigned(s@, u8::MAX as nat) == Some(n as nat),
{
    match parse_unsigned(s, 0xff) {
        Some(n) => Some(n as u8),
        None => None,
    }
}

/// A number in decimal digits, with a minus sign where it is negative.
pub open spec fn signed_dec(n: int) -> Seq<char> {
    if n < 0 {
        "-"@ + dec((-n) as nat)
    } else {
        dec(n as nat)
    }
}

/// A number in decimal digits.
pub fn signed_decimal(n: i32) -> (r: String)
    ensures
        r@ == signed_dec(n as int),
{
    let wide: i64 = n as i64;
    if wide < 0 {
        glue("-", &decimal((-wide) as u64))
    } else {
        decimal(wide as u64)
    }
}

/// The signed number of 64 bits that `s` writes: a minus sign and digits, or
/// an unsigned number.
pub open spec fn signed(s: Seq<char>) -> Option<int> {
    if s.len() > 0 && s[0] == '-' {
        let t = s.skip(1);
        if t.len() > 0 && all_digits(t) && digits_value(t) <= 0x8000_0000_0000_0000 {
            Some(-(digits_value(t) as int))
        } else {
            None
        }
    } else {
        match unsigned(s, 0x7fff_ffff_ffff_ffff) {
            Some(n) => Some(n as int),
            None => None,
        }
    }
}

/// Reads a 64-bit signed number.
pub fn parse_i64(s: &str) -> (r: Option<i64>)
    ensures
        r is Some <==> signed(s@) is Some,
        r matches Some(n) ==> signed(s@) == Some(n as int),
{
    let v: Vec<char> = chars_of(s);
    if v.len() > 0 && v[0] == '-' {
        let rest: String = string_of(&v, 1, v.len());
        assert(rest@ =~= s@.skip(1));
        if v.len() > 1 && v[1] == '+' {
            assert(rest@[0] == '+');
            assert(!is_digit(rest@[0]));
            return None;
        }
        match parse_unsigned(&rest, 0x8000_0000_0000_0000) {
            None => None,
            Some(n) => if n == 0x8000_0000_0000_0000 {
                Some(i64::MIN)
            } else {
                Some(-(n as i64))
            },
        }
    } else {
        match parse_unsigned(s, 0x7fff_ffff_ffff_ffff) {
            Some(n) => Some(n as i64),
            None => None,
        }
    }
}

/// The digits of a numeral are decimal digits, and reading them gives back
/// the number.
pub proof fn decimal_reads_back(n: nat)
    ensures
        all_digits(dec(n)),
        dec(n).len() > 0,
        digits_value(dec(n)) == n,
    decreases n,
{
    if n < 10 {
        assert(dec(n).drop_last() =~= Seq::<char>::empty());
        reveal_with_fuel(digits_value, 2);
    } else {
        decimal_reads_back(n / 10);
        assert(dec(n).drop_last() =~= dec(n / 10));
    }
}

/// Writing a number and reading it back gives the number, whatever limit it
/// does not exceed.
pub proof fn numeral_round_trip(n: nat, max: nat)
    requires
        n <= max,
    ensures
        unsigned(dec(n), max) == Some(n),
{
    decimal_reads_back(n);
    assert(is_digit(dec(n)[0]));
}

// ---------------------------------------------------------------------------
// Laws of texts
// ---------------------------------------------------------------------------

/// A character that does not stand in the first part of a text is found behind
/// it.
pub proof fn found_behind(a: Seq<char>, c: char, b: Seq<char>)
    requires
        !a.contains(c),
    ensures
        find_char(a + seq![c] + b, c) == a.len(),
        find_char(a, c) == a.len(),
    decreases a.len(),
{
    let s = a + seq![c] + b;
    if a.len() > 0 {
        let t = a.drop_first();
        assert(!t.contains(c)) by {
            if t.contains(c) {
                let i = choose|i: int| 0 <= i < t.len() && t[i] == c;
                assert(a[i + 1] == c);
            }
        }
        assert(a[0] != c);
        assert(s[0] == a[0]);
        assert(s.drop_first() =~= t + seq![c] + b);
        found_behind(t, c, b);
    } else {
        assert(s[0] == c);
    }
}

/// A text is split where the character stands: what is before the first one
/// is the first piece, and what is behind it is split further. A text without
/// the character is one piece.
pub proof fn split_at_first(a: Seq<char>, c: char, b: Seq<char>)
    requires
        !a.contains(c),
    ensures
        split_on(a + seq![c] + b, c) == seq![a] + split_on(b, c),
        split_on(a, c) == seq![a],
{
    let s = a + seq![c] + b;
    found_behind(a, c, b);
    assert(s.take(a.len() as int) =~= a);
    assert(s.skip(a.len() as int + 1) =~= b);
}

/// The pieces of a text hold the character nowhere, and with the character
/// between them they are the text.
pub proof fn pieces_make_text(s: Seq<char>, c: char)
    ensures
        split_on(s, c).len() > 0,
        joined(split_on(s, c), seq![c]) == s,
        forall|i: int, j: int|
            0 <= i < split_on(s, c).len() && 0 <= j < split_on(s, c)[i].len() ==> (
            #[trigger] split_on(s, c)[i][j]) != c,
    decreases s.len(),
{
    let k = find_char(s, c);
    find_char_is_first(s, c);
    if k < s.len() {
        let a = s.take(k as int);
        let b = s.skip(k as int + 1);
        pieces_make_text(b, c);
        let rest = split_on(b, c);
        let all = split_on(s, c);
        assert(all == seq![a] + rest);
        joined_head(a, rest, seq![c]);
        assert(a + seq![c] + b =~= s);
        assert forall|i: int, j: int| 0 <= i < all.len() && 0 <= j < all[i].len() implies (
        #[trigger] all[i][j]) != c by {
            if i > 0 {
                assert(all[i] == rest[i - 1]);
            }
        }
    } else {
        assert(split_on(s, c) =~= seq![s]);
    }
}

/// Pieces put together begin with the first of them.
pub proof fn joined_head(a: Seq<char>, rest: Seq<Seq<char>>, sep: Seq<char>)
    requires
        rest.len() > 0,
    ensures
        joined(seq![a] + rest, sep) == a + sep + joined(rest, sep),
    decreases rest.len(),
{
    let all = seq![a] + rest;
    assert(all.last() == rest.last());
    assert(all.drop_last() =~= seq![a] + rest.drop_last());
    if rest.len() == 1 {
        assert(all.drop_last() =~= seq![a]);
        assert(joined(seq![a], sep) == a);
    } else {
        joined_head(a, rest.drop_last(), sep);
        assert(joined(all, sep) =~= a + sep + joined(rest, sep));
    }
}

/// Where a character stands once, a text in its place stands between what was
/// before and behind it.
pub proof fn one_is_replaced(a: Seq<char>, c: char, b: Seq<char>, to: Seq<char>)
    requires
        !a.contains(c),
        !b.contains(c),
    ensures
        joined(split_on(a + seq![c] + b, c), to) == a + to + b,
{
    split_at_first(a, c, b);
    split_at_first(b, c, Seq::empty());
    joined_head(a, seq![b], to);
    assert(joined(seq![b], to) == b);
}

/// What is left of a text without the characters at its end is its front, which
/// does not end with that character, and only that character was behind it.
pub proof fn end_is_trimmed(s: Seq<char>, c: char)
    ensures
        trim_end_char(s, c).len() <= s.len(),
        s.take(trim_end_char(s, c).len() as int) == trim_end_char(s, c),
        trim_end_char(s, c).len() > 0 ==> trim_end_char(s, c).last() != c,
        forall|i: int| trim_end_char(s, c).len() <= i < s.len() ==> s[i] == c,
    decreases s.len(),
{
    if s.len() > 0 && s.last() == c {
        end_is_trimmed(s.drop_last(), c);
        let n = trim_end_char(s, c).len() as int;
        assert(s.drop_last().take(n) =~= s.take(n));
        assert forall|i: int| n <= i < s.len() implies s[i] == c by {
            if i < s.len() - 1 {
                assert(s.drop_last()[i] == s[i]);
            }
        }
    } else {
        assert(s.take(s.len() as int) =~= s);
    }
}

/// What is left of a text without the white space at its end is its front,
/// which does not end with white space, and only white space was behind it.
proof fn space_end_is_trimmed(s: Seq<char>)
    ensures
        trim_end_of(s).len() <= s.len(),
        s.take(trim_end_of(s).len() as int) == trim_end_of(s),
        trim_end_of(s).len() > 0 ==> !is_space(trim_end_of(s).last()),
        forall|i: int| trim_end_of(s).len() <= i < s.len() ==> is_space(#[trigger] s[i]),
    decreases s.len(),
{
    if s.len() > 0 && is_space(s.last()) {
        space_end_is_trimmed(s.drop_last());
        let n = trim_end_of(s).len() as int;
        assert(s.drop_last().take(n) =~= s.take(n));
        assert forall|i: int| n <= i < s.len() implies is_space(#[trigger] s[i]) by {
            if i < s.len() - 1 {
                assert(s.drop_last()[i] == s[i]);
            }
        }
    } else {
        assert(s.take(s.len() as int) =~= s);
    }
}

/// Only white space stands before the first character that is none.
proof fn lead_is_space(s: Seq<char>)
    ensures
        lead_space(s) <= s.len(),
        forall|i: int| 0 <= i < lead_space(s) ==> is_space(#[trigger] s[i]),
    decreases s.len(),
{
    if s.len() > 0 && is_space(s[0]) {
        lead_is_space(s.drop_first());
        assert forall|i: int| 0 <= i < lead_space(s) implies is_space(#[trigger] s[i]) by {
            if i > 0 {
                assert(s[i] == s.drop_first()[i - 1]);
            }
        }
    }
}

/// A trimmed text is what stands between the white space at the two ends of
/// the text: it neither begins nor ends with white space, and nothing but
/// white space was taken away.
pub proof fn trim_takes_white_space(s: Seq<char>) -> (at: int)
    ensures
        0 <= at,
        at + trimmed(s).len() <= s.len(),
        s.subrange(at, at + trimmed(s).len()) == trimmed(s),
        forall|i: int| 0 <= i < at ==> is_space(#[trigger] s[i]),
        forall|i: int| at + trimmed(s).len() <= i < s.len() ==> is_space(#[trigger] s[i]),
        trimmed(s).len() > 0 ==> !is_space(trimmed(s)[0]) && !is_space(trimmed(s).last()),
{
    let at = lead_space(s) as int;
    let t = s.skip(at);
    lead_is_space(s);
    lead_bounds(s);
    space_end_is_trimmed(t);
    let n = trimmed(s).len() as int;
    assert(t.take(n) =~= s.subrange(at, at + n));
    assert forall|i: int| at + n <= i < s.len() implies is_space(#[trigger] s[i]) by {
        assert(t[i - at] == s[i]);
    }
    if n > 0 {
        assert(trimmed(s)[0] == t.take(n)[0]);
        assert(t[0] == s[at]);
    }
    at
}

/// A text whose ends are no white space is left as it is by trimming, also
/// where white space is put around it.
pub proof fn inner_text_comes_back(front: Seq<char>, s: Seq<char>, back: Seq<char>)
    requires
        s.len() > 0,
        !is_space(s[0]),
        !is_space(s.last()),
        forall|i: int| 0 <= i < front.len() ==> is_space(#[trigger] front[i]),
        forall|i: int| 0 <= i < back.len() ==> is_space(#[trigger] back[i]),
    ensures
        trimmed(front + s + back) == s,
{
    let all = front + s + back;
    let at = trim_takes_white_space(all);
    let n = trimmed(all).len() as int;
    assert(all[front.len() as int] == s[0]);
    assert(all[front.len() + s.len() - 1] == s.last());
    assert(at <= front.len());
    assert(at + n >= front.len() + s.len());
    if at < front.len() {
        assert(trimmed(all)[0] == all.subrange(at, at + n)[0]);
        assert(all[at] == front[at]);
    }
    if at + n > front.len() + s.len() {
        assert(trimmed(all).last() == all.subrange(at, at + n).last());
        assert(all[at + n - 1] == back[at + n - 1 - front.len() - s.len()]);
    }
    assert(all.subrange(at, at + n) =~= s);
}

/// The words of a text are not empty and hold no white space.
pub proof fn words_are_words(s: Seq<char>)
    ensures
        forall|i: int| 0 <= i < words_of(s).len() ==> (#[trigger] words_of(s)[i]).len() > 0,
        forall|i: int, j: int|
            0 <= i < words_of(s).len() && 0 <= j < words_of(s)[i].len() ==> !is_space(
                #[trigger] words_of(s)[i][j],
            ),
    decreases s.len(),
{
    lead_bounds(s);
    let t = s.skip(lead_space(s) as int);
    let n = lead_word(t);
    if !(lead_space(s) >= s.len() || n == 0 || n > t.len()) {
        word_holds_no_space(t);
        let rest = words_of(t.skip(n as int));
        words_are_words(t.skip(n as int));
        assert forall|i: int| 0 <= i < words_of(s).len() implies (#[trigger] words_of(s)[i]).len()
            > 0 by {
            if i > 0 {
                assert(words_of(s)[i] == rest[i - 1]);
            }
        }
        assert forall|i: int, j: int|
            0 <= i < words_of(s).len() && 0 <= j < words_of(s)[i].len() implies !is_space(
            #[trigger] words_of(s)[i][j],
        ) by {
            if i > 0 {
                assert(words_of(s)[i] == rest[i - 1]);
            } else {
                assert(words_of(s)[0][j] == t[j]);
            }
        }
    }
}

/// The first word holds no white space.
proof fn word_holds_no_space(s: Seq<char>)
    ensures
        forall|i: int| 0 <= i < lead_word(s) ==> !is_space(#[trigger] s[i]),
    decreases s.len(),
{
    if s.len() > 0 && !is_space(s[0]) {
        word_holds_no_space(s.drop_first());
        lead_bounds(s);
        assert forall|i: int| 0 <= i < lead_word(s) implies !is_space(#[trigger] s[i]) by {
            if i > 0 {
                assert(s[i] == s.drop_first()[i - 1]);
            }
        }
    }
}

/// A word with white space behind it is the first word of a text, whatever
/// white space stands before it, and the words behind it follow.
pub proof fn words_come_one_by_one(front: Seq<char>, w: Seq<char>, rest: Seq<char>)
    requires
        forall|i: int| 0 <= i < front.len() ==> is_space(#[trigger] front[i]),
        w.len() > 0,
        forall|i: int| 0 <= i < w.len() ==> !is_space(#[trigger] w[i]),
        rest.len() > 0 ==> is_space(rest[0]),
    ensures
        words_of(front + w + rest) == seq![w] + words_of(rest),
{
    let s = front + w + rest;
    lead_is_space(s);
    lead_bounds(s);
    let k = lead_space(s) as int;
    assert(s[front.len() as int] == w[0]);
    assert(k == front.len()) by {
        if k < front.len() {
            assert(s[k] == front[k]);
        }
    }
    let t = s.skip(k);
    assert(t =~= w + rest);
    lead_bounds(t);
    word_holds_no_space(t);
    let n = lead_word(t) as int;
    assert(n == w.len()) by {
        if n < w.len() {
            assert(t[n] == w[n]);
        }
        if n > w.len() {
            assert(t[w.len() as int] == rest[0]);
        }
    }
    assert(t.take(n) =~= w);
    assert(t.skip(n) =~= rest);
}

/// A line that ends in a line feed is the first of a text, without a carriage
/// return at its end, and the lines behind it follow. No line holds a line
/// feed.
pub proof fn lines_come_one_by_one(line: Seq<char>, rest: Seq<char>)
    requires
        !line.contains('\n'),
    ensures
        lines_of(line + seq!['\n'] + rest) == seq![
            if line.len() > 0 && line.last() == '\r' {
                line.drop_last()
            } else {
                line
            },
        ] + lines_of(rest),
        line.len() > 0 ==> lines_of(line) == seq![line],
        lines_of(Seq::empty()).len() == 0,
{
    let s = line + seq!['\n'] + rest;
    found_behind(line, '\n', rest);
    assert(s.take(line.len() as int) =~= line);
    assert(s.skip(line.len() as int + 1) =~= rest);
}

/// The order of texts is that of the first characters in which they differ; a
/// text comes before a longer one that begins with it.
pub proof fn first_difference_decides(front: Seq<char>, a: Seq<char>, b: Seq<char>)
    ensures
        a.len() > 0 && b.len() > 0 && a[0] < b[0] ==> precedes(front + a, front + b),
        b.len() > 0 ==> precedes(front, front + b),
    decreases front.len(),
{
    if front.len() > 0 {
        first_difference_decides(front.drop_first(), a, b);
        assert((front + a).drop_first() =~= front.drop_first() + a);
        assert((front + b).drop_first() =~= front.drop_first() + b);
        assert((front + a)[0] == front[0] && (front + b)[0] == front[0]);
    } else {
        assert(front + a =~= a);
        assert(front + b =~= b);
    }
}

/// Alignment pads a text with blanks up to the width, and leaves a text that
/// is as wide or wider as it is.
pub proof fn alignment_pads(s: Seq<char>, width: nat)
    ensures
        s.len() >= width ==> left_aligned(s, width) == s && right_aligned(s, width) == s,
        s.len() < width ==> {
            &&& left_aligned(s, width).len() == width
            &&& left_aligned(s, width).take(s.len() as int) == s
            &&& forall|i: int| s.len() <= i < width ==> left_aligned(s, width)[i] == ' '
            &&& right_aligned(s, width).len() == width
            &&& right_aligned(s, width).skip(width - s.len()) == s
            &&& forall|i: int| 0 <= i < width - s.len() ==> right_aligned(s, width)[i] == ' '
        },
{
    if s.len() < width {
        assert(left_aligned(s, width).take(s.len() as int) =~= s);
        assert(right_aligned(s, width).skip(width - s.len()) =~= s);
    }
}

/// The digits of a number hold nothing but digits.
pub proof fn digits_hold_no(n: nat, c: char)
    requires
        !is_digit(c),
    ensures
        !dec(n).contains(c),
    decreases n,
{
    if n >= 10 {
        digits_hold_no(n / 10, c);
    }
    let s = dec(n);
    if s.contains(c) {
        let i = choose|i: int| 0 <= i < s.len() && s[i] == c;
        if n >= 10 {
            if i < dec(n / 10).len() {
                assert(dec(n / 10)[i] == c);
            }
        }
    }
}

/// What stands behind the only separator of a text is its second piece.
pub proof fn second_piece(a: Seq<char>, c: char, b: Seq<char>)
    requires
        !a.contains(c),
        !b.contains(c),
    ensures
        nth_piece(a + seq![c] + b, c, 1) == Some(b),
        nth_piece(a + seq![c] + b, c, 0) == Some(a),
        nth_piece(a, c, 1) is None,
{
    split_at_first(a, c, b);
    split_at_first(b, c, Seq::empty());
    split_at_first(a, c, Seq::empty());
}

/// A text is cut at the first of a character: what is before it holds none.
pub proof fn cut_at_first(a: Seq<char>, c: char, b: Seq<char>)
    requires
        !a.contains(c),
    ensures
        cut_at(a + seq![c] + b, c) == Some((a, b)),
        cut_at(a, c) is None,
{
    let s = a + seq![c] + b;
    found_behind(a, c, b);
    assert(s.take(a.len() as int) =~= a);
    assert(s.skip(a.len() as int + 1) =~= b);
}

/// What stands behind the last separator of a text is its last piece.
pub proof fn piece_behind_last(a: Seq<char>, c: char, b: Seq<char>)
    requires
        !b.contains(c),
    ensures
        split_on(a + seq![c] + b, c).last() == b,
        split_on(b, c).last() == b,
        split_on(a + seq![c] + b, c).len() > 0,
    decreases a.len(),
{
    split_at_first(b, c, Seq::empty());
    if a.contains(c) {
        let k = find_char(a, c) as int;
        find_char_is_first(a, c);
        let i = choose|i: int| 0 <= i < a.len() && a[i] == c;
        assert(k <= i);
        let front = a.take(k);
        let back = a.skip(k + 1);
        assert(!front.contains(c)) by {
            if front.contains(c) {
                let j = choose|j: int| 0 <= j < front.len() && front[j] == c;
                assert(a[j] == c);
            }
        }
        assert(a + seq![c] + b =~= front + seq![c] + (back + seq![c] + b));
        split_at_first(front, c, back + seq![c] + b);
        piece_behind_last(back, c, b);
        let rest = split_on(back + seq![c] + b, c);
        assert((seq![front] + rest).last() == rest.last());
    } else {
        split_at_first(a, c, b);
        assert((seq![a] + seq![b]).last() == b);
    }
}

/// A text is cut at the first place of a pattern, and split there.
pub proof fn cut_at_first_text(a: Seq<char>, p: Seq<char>, b: Seq<char>)
    requires
        p.len() > 0,
        !a.contains(p[0]),
    ensures
        cut_at_text(a + p + b, p) == Some((a, b)),
        split_at_text(a + p + b, p) == seq![a] + split_at_text(b, p),
        cut_at_text(a, p) is None,
        split_at_text(a, p) == seq![a],
{
    let s = a + p + b;
    let n = a.len() as int;
    assert(s.subrange(n, n + p.len()) =~= p);
    assert(occurs_at(s, p, n));
    assert forall|i: int| 0 <= i < n implies !occurs_at(s, p, i) by {
        if occurs_at(s, p, i) {
            assert(s.subrange(i, i + p.len())[0] == p[0]);
            assert(s[i] == a[i]);
            assert(a.contains(p[0]));
        }
    }
    find_from_is_first(s, p, 0);
    assert(s.take(n) =~= a);
    assert(s.skip(n + p.len()) =~= b);
    find_from_is_first(a, p, 0);
    let k = find_from(a, p, 0);
    if k != -1 {
        assert(a.subrange(k, k + p.len())[0] == p[0]);
        assert(a.contains(p[0]));
    }
}

/// The line with a pattern is the first one that holds it.
pub proof fn first_with_is_first(front: Seq<Seq<char>>, line: Seq<char>, back: Seq<Seq<char>>, p: Seq<char>)
    requires
        forall|i: int| 0 <= i < front.len() ==> !self::has(#[trigger] front[i], p),
        has(line, p),
    ensures
        first_with(front + seq![line] + back, p) == Some(line),
        first_with(front, p) is None,
    decreases front.len(),
{
    let all = front + seq![line] + back;
    if front.len() > 0 {
        let rest = front.drop_first();
        assert(all[0] == front[0]);
        assert(all.drop_first() =~= rest + seq![line] + back);
        assert forall|i: int| 0 <= i < rest.len() implies !self::has(#[trigger] rest[i], p) by {
            assert(rest[i] == front[i + 1]);
        }
        first_with_is_first(rest, line, back, p);
    } else {
        assert(all[0] == line);
    }
}

/// Case does not tell two texts apart where each letter is the same but for it:
/// a capital becomes its small letter, and nothing else changes.
pub proof fn capitals_become_small(s: Seq<char>)
    ensures
        ascii_lower(s).len() == s.len(),
        forall|i: int|
            0 <= i < s.len() ==> #[trigger] ascii_lower(s)[i] == (if 'A' <= s[i] <= 'Z' {
                (s[i] as u32 + 32) as char
            } else {
                s[i]
            }),
        ascii_lower(ascii_lower(s)) == ascii_lower(s),
        same_letters(s, ascii_lower(s)),
{
    let l = ascii_lower(s);
    assert forall|i: int| 0 <= i < s.len() implies #[trigger] ascii_lower(s)[i] == (if 'A' <= s[i]
        <= 'Z' {
        (s[i] as u32 + 32) as char
    } else {
        s[i]
    }) by {}
    assert(ascii_lower(l) =~= l);
}

/// A character that a text was led by, however often, is taken off its front.
pub proof fn front_is_trimmed(s: Seq<char>, c: char)
    ensures
        trim_start_char(s, c).len() <= s.len(),
        s.skip(s.len() - trim_start_char(s, c).len()) == trim_start_char(s, c),
        trim_start_char(s, c).len() > 0 ==> trim_start_char(s, c)[0] != c,
        forall|i: int| 0 <= i < s.len() - trim_start_char(s, c).len() ==> s[i] == c,
    decreases s.len(),
{
    if s.len() > 0 && s[0] == c {
        let t = s.skip(1);
        front_is_trimmed(t, c);
        let r = trim_start_char(t, c);
        assert(t.skip(t.len() - r.len()) =~= s.skip(s.len() - r.len()));
        assert forall|i: int| 0 <= i < s.len() - r.len() implies s[i] == c by {
            if i > 0 {
                assert(s[i] == t[i - 1]);
            }
        }
    } else {
        assert(s.skip(0) =~= s);
    }
}

/// A word that stands once before a text is taken off it.
pub proof fn word_is_taken_off(p: Seq<char>, rest: Seq<char>)
    requires
        p.len() > 0,
        !starts(rest, p),
    ensures
        trim_start_text(p + rest, p) == rest,
        trim_start_text(rest, p) == rest,
        after_prefix(p + rest, p) == Some(rest),
        without_prefix(p + rest, p) == rest,
        without_prefix(rest, p) == rest,
{
    let s = p + rest;
    assert(s.take(p.len() as int) =~= p);
    assert(s.skip(p.len() as int) =~= rest);
    assert(trim_start_text(rest, p) == rest);
}

/// A number with a sign is read back out of its digits.
pub proof fn signed_reads_back(n: int)
    requires
        -0x8000_0000_0000_0000 <= n <= 0x7fff_ffff_ffff_ffff,
    ensures
        signed(signed_dec(n)) == Some(n),
{
    if n < 0 {
        let d = dec((-n) as nat);
        decimal_reads_back((-n) as nat);
        reveal_strlit("-");
        let s = "-"@ + d;
        assert(s[0] == '-');
        assert(s.skip(1) =~= d);
    } else {
        numeral_round_trip(n as nat, 0x7fff_ffff_ffff_ffff);
        decimal_reads_back(n as nat);
        assert(is_digit(dec(n as nat)[0]));
    }
}

/// A text takes as many bytes as its characters do, and an ASCII character
/// takes one.
pub proof fn bytes_add_up(a: Seq<char>, b: Seq<char>)
    ensures
        byte_len(a + b) == byte_len(a) + byte_len(b),
        forall|c: char| (c as u32) < 0x80 ==> byte_len(#[trigger] seq![c]) == 1,
        byte_len(a) >= a.len(),
    decreases a.len() + b.len(),
{
    assert forall|c: char| (c as u32) < 0x80 implies byte_len(#[trigger] seq![c]) == 1 by {
        assert(seq![c].drop_last() =~= Seq::<char>::empty());
        assert(byte_len(Seq::<char>::empty()) == 0);
    }
    if b.len() > 0 {
        assert((a + b).drop_last() =~= a + b.drop_last());
        bytes_add_up(a, b.drop_last());
    } else {
        assert(a + b =~= a);
        if a.len() > 0 {
            bytes_add_up(a.drop_last(), Seq::empty());
        }
    }
}

/// A pattern that stands once in a text is replaced there, and a text without
/// it stays.
pub proof fn pattern_is_replaced(a: Seq<char>, p: Seq<char>, b: Seq<char>, to: Seq<char>)
    requires
        p.len() > 0,
        !a.contains(p[0]),
        !b.contains(p[0]),
    ensures
        replaced(a + p + b, p, to) == a + to + b,
        replaced(a, p, to) == a,
{
    cut_at_first_text(a, p, b);
    cut_at_first_text(b, p, Seq::empty());
    assert(split_at_text(a + p + b, p) =~= seq![a, b]);
    assert(seq![a, b].drop_last() =~= seq![a]);
    assert(joined(seq![a], to) == a);
    assert(joined(seq![a, b], to) == a + to + b);
}

} // verus!
