//! Numbers with a fraction, as they are written. Their values are left to
//! callers; what is decided here is which texts write one.

use crate::text;
use vstd::prelude::*;

verus! {

/// The number of digits at the front of `s`.
pub open spec fn lead_digits(s: Seq<char>) -> nat
    decreases s.len(),
{
    if s.len() > 0 && text::is_digit(s[0]) {
        1 + lead_digits(s.skip(1))
    } else {
        0
    }
}

/// No more digits stand at the front than there are characters.
proof fn lead_digits_bound(s: Seq<char>)
    ensures
        lead_digits(s) <= s.len(),
    decreases s.len(),
{
    if s.len() > 0 && text::is_digit(s[0]) {
        lead_digits_bound(s.skip(1));
    }
}

/// `s` without one sign at its front.
pub open spec fn without_sign(s: Seq<char>) -> Seq<char> {
    if s.len() > 0 && (s[0] == '+' || s[0] == '-') {
        s.skip(1)
    } else {
        s
    }
}

/// `s` is empty or an exponent: `e`, a sign or none, and digits.
pub open spec fn is_exponent(s: Seq<char>) -> bool {
    s.len() == 0 || {
        let d = without_sign(s.skip(1));
        (s[0] == 'e' || s[0] == 'E') && d.len() > 0 && text::all_digits(d)
    }
}

/// `s` is digits with a dot among them or none, at least one digit, and an
/// exponent or none.
pub open spec fn is_plain_number(s: Seq<char>) -> bool {
    let a = lead_digits(s);
    let r = s.skip(a as int);
    if r.len() > 0 && r[0] == '.' {
        let b = lead_digits(r.skip(1));
        a + b > 0 && is_exponent(r.skip(1).skip(b as int))
    } else {
        a > 0 && is_exponent(r)
    }
}

/// `s` writes a number with or without a fraction: a sign or none, and a plain
/// number or one of the words for what is infinite or no number.
pub open spec fn is_number(s: Seq<char>) -> bool {
    let t = without_sign(s);
    text::same_letters(t, "inf"@) || text::same_letters(t, "infinity"@) || text::same_letters(
        t,
        "nan"@,
    ) || is_plain_number(t)
}

/// The place behind the digits that stand in `v` from `from` on.
fn skip_digits(v: &Vec<char>, from: usize) -> (r: usize)
    requires
        from <= v@.len(),
    ensures
        r == from + lead_digits(v@.skip(from as int)),
        from <= r <= v@.len(),
{
    let mut i: usize = from;
    while i < v.len() && '0' <= v[i] && v[i] <= '9'
        invariant
            from <= i <= v@.len(),
            from + lead_digits(v@.skip(from as int)) == i + lead_digits(v@.skip(i as int)),
        decreases v@.len() - i,
    {
        assert(v@.skip(i as int)[0] == v@[i as int]);
        assert(v@.skip(i as int).skip(1) =~= v@.skip(i + 1));
        i = i + 1;
    }
    proof {
        if i < v@.len() {
            assert(v@.skip(i as int)[0] == v@[i as int]);
        }
    }
    i
}

/// Digits are all there is where as many stand at the front as there are
/// characters.
proof fn all_lead(s: Seq<char>)
    ensures
        (lead_digits(s) == s.len()) == text::all_digits(s),
    decreases s.len(),
{
    lead_digits_bound(s);
    if s.len() > 0 {
        let t = s.skip(1);
        all_lead(t);
        lead_digits_bound(t);
        if text::all_digits(s) {
            assert(text::is_digit(s[0]));
            assert forall|i: int| 0 <= i < t.len() implies text::is_digit(#[trigger] t[i]) by {
                assert(t[i] == s[i + 1]);
            }
        }
        if lead_digits(s) == s.len() {
            assert forall|i: int| 0 <= i < s.len() implies text::is_digit(#[trigger] s[i]) by {
                if i > 0 {
                    assert(s[i] == t[i - 1]);
                }
            }
        }
    }
}

/// Whether what stands in `v` from `from` on is an exponent or nothing.
fn check_exponent(v: &Vec<char>, from: usize) -> (r: bool)
    requires
        from <= v@.len(),
    ensures
        r == is_exponent(v@.skip(from as int)),
{
    let ghost s = v@.skip(from as int);
    if from == v.len() {
        return true;
    }
    assert(s[0] == v@[from as int]);
    if !(v[from] == 'e' || v[from] == 'E') {
        return false;
    }
    let at: usize = if from + 1 < v.len() && (v[from + 1] == '+' || v[from + 1] == '-') {
        from + 2
    } else {
        from + 1
    };
    proof {
        if from + 1 < v@.len() {
            assert(s.skip(1)[0] == v@[from + 1]);
        }
        assert(without_sign(s.skip(1)) =~= v@.skip(at as int));
        all_lead(v@.skip(at as int));
    }
    let end: usize = skip_digits(v, at);
    at < v.len() && end == v.len()
}

/// Whether `s` writes a number with or without a fraction.
pub fn writes_number(s: &str) -> (r: bool)
    ensures
        r == is_number(s@),
{
    let v: Vec<char> = text::chars_of(s);
    let from: usize = if v.len() > 0 && (v[0] == '+' || v[0] == '-') {
        1
    } else {
        0
    };
    let t: String = text::string_of(&v, from, v.len());
    let ghost u = without_sign(s@);
    assert(t@ =~= u);
    if text::same_but_case(&t, "inf") || text::same_but_case(&t, "infinity")
        || text::same_but_case(&t, "nan") {
        return true;
    }
    let a: usize = skip_digits(&v, from);
    assert(v@.skip(from as int) =~= u);
    let ghost r = u.skip(a - from);
    assert(r =~= v@.skip(a as int));
    if a < v.len() && v[a] == '.' {
        assert(r[0] == '.');
        let b: usize = skip_digits(&v, a + 1);
        proof {
            assert(r.skip(1) =~= v@.skip(a + 1));
            assert(r.skip(1).skip(b - (a + 1)) =~= v@.skip(b as int));
        }
        (a > from || b > a + 1) && check_exponent(&v, b)
    } else {
        proof {
            if a < v@.len() {
                assert(r[0] == v@[a as int]);
            }
        }
        a > from && check_exponent(&v, a)
    }
}

/// Digits at the front of a text are counted up to what is none.
proof fn digits_lead(d: Seq<char>, rest: Seq<char>)
    requires
        text::all_digits(d),
        rest.len() > 0 ==> !text::is_digit(rest[0]),
    ensures
        lead_digits(d + rest) == d.len(),
    decreases d.len(),
{
    let s = d + rest;
    if d.len() > 0 {
        assert(s[0] == d[0]);
        assert(s.skip(1) =~= d.skip(1) + rest);
        assert(text::all_digits(d.skip(1))) by {
            assert forall|i: int| 0 <= i < d.skip(1).len() implies text::is_digit(
                #[trigger] d.skip(1)[i],
            ) by {
                assert(d.skip(1)[i] == d[i + 1]);
            }
        }
        digits_lead(d.skip(1), rest);
    } else {
        assert(s =~= rest);
    }
}

/// A whole number and one with a fraction are numbers, with or without a sign;
/// a text that starts with something else than a digit, a sign, a point or a
/// word for a number is none.
pub proof fn decimals_are_numbers(m: nat, n: nat)
    ensures
        is_number(text::dec(m)),
        is_number(seq!['-'] + text::dec(m)),
        is_number(text::dec(m) + seq!['.'] + text::dec(n)),
        !is_plain_number(Seq::empty()),
        !is_plain_number(seq!['.']),
        forall|s: Seq<char>|
            s.len() > 0 && !text::is_digit(s[0]) && s[0] != '.' ==> !#[trigger] is_plain_number(s),
{
    let a = text::dec(m);
    let b = text::dec(n);
    text::decimal_reads_back(m);
    text::decimal_reads_back(n);
    assert(text::is_digit(a[0]));
    digits_lead(a, Seq::empty());
    assert(a + Seq::<char>::empty() =~= a);
    assert(a.skip(a.len() as int).len() == 0);
    assert(is_plain_number(a));
    let neg = seq!['-'] + a;
    assert(neg.skip(1) =~= a);
    let frac = seq!['.'] + b;
    let s = a + seq!['.'] + b;
    assert(s =~= a + frac);
    digits_lead(a, frac);
    assert(s.skip(a.len() as int) =~= frac);
    assert(frac.skip(1) =~= b);
    digits_lead(b, Seq::empty());
    assert(b + Seq::<char>::empty() =~= b);
    assert(b.skip(b.len() as int).len() == 0);
    assert(s[0] == a[0]);
    assert(is_plain_number(s));
    let dot = seq!['.'];
    assert(dot.skip(0) =~= dot);
    assert(dot.skip(1).len() == 0);
    assert forall|s: Seq<char>|
        s.len() > 0 && !text::is_digit(s[0]) && s[0] != '.' implies !#[trigger] is_plain_number(s) by {
        assert(lead_digits(s) == 0);
        assert(s.skip(0) =~= s);
    }
}

} // verus!
