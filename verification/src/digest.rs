//! SHA-256 sums of data that comes in pieces.
//!
//! The sums themselves are those of the crate `sha2`; what is proved here is
//! what is handed to it, and how its result is written.

use sha2::Digest;
use vstd::prelude::*;
use vstd::string::*;

verus! {

/// A computation of `sha2::Sha256`. The crate's type takes its algorithm and
/// size as type arguments, and stands behind this one.
#[verifier::external_body]
pub struct Hasher {
    inner: sha2::Sha256,
}

/// The bytes that have been handed to a computation.
pub uninterp spec fn absorbed(h: Hasher) -> Seq<u8>;

/// What `sha2::Sha256` makes of bytes.
pub uninterp spec fn sha256_of(data: Seq<u8>) -> Seq<u8>;

/// The number of bytes that a sum can be made of: their bits are counted in
/// 64 bits.
pub const MAX_HASHED: u64 = 0x1fff_ffff_ffff_ffff;

/// Calls `sha2::Digest::new` of `sha2::Sha256`: nothing has been handed over.
#[verifier::external_body]
fn new_hasher() -> (r: Hasher)
    ensures
        absorbed(r) == Seq::<u8>::empty(),
{
    Hasher { inner: sha2::Sha256::new() }
}

/// Calls `sha2::Digest::update` of `sha2::Sha256`: the bytes come behind those
/// that have been handed over before.
#[verifier::external_body]
fn absorb(h: &mut Hasher, data: &Vec<u8>)
    requires
        absorbed(*old(h)).len() + data@.len() <= MAX_HASHED,
    ensures
        absorbed(*final(h)) == absorbed(*old(h)) + data@,
{
    h.inner.update(data);
}

/// Calls `sha2::Digest::finalize` of `sha2::Sha256`: the sum depends on the
/// bytes alone, not on the pieces in which they came, and has 32 bytes.
#[verifier::external_body]
fn sum(h: Hasher) -> (r: Vec<u8>)
    requires
        absorbed(h).len() <= MAX_HASHED,
    ensures
        r@ == sha256_of(absorbed(h)),
        r@.len() == 32,
{
    h.inner.finalize().to_vec()
}

/// The hexadecimal digit of a number below sixteen.
pub open spec fn hex_digit(n: nat) -> char {
    if n < 10 {
        (48 + n) as char
    } else {
        (87 + n) as char
    }
}

/// Bytes in hexadecimal digits, two for each.
pub open spec fn hex(s: Seq<u8>) -> Seq<char>
    decreases s.len(),
{
    if s.len() == 0 {
        Seq::empty()
    } else {
        hex(s.drop_last()).push(hex_digit((s.last() / 16) as nat)).push(
            hex_digit((s.last() % 16) as nat),
        )
    }
}

/// The hexadecimal digit of a number below sixteen.
fn digit(n: u8) -> (r: char)
    requires
        n < 16,
    ensures
        r == hex_digit(n as nat),
{
    if n < 10 {
        (48 + n) as char
    } else {
        (87 + n) as char
    }
}

/// Bytes in hexadecimal digits.
pub fn to_hex(v: &Vec<u8>) -> (r: String)
    ensures
        r@ == hex(v@),
{
    let mut out: String = String::new();
    let mut i: usize = 0;
    assert(out@ =~= hex(v@.take(0)));
    while i < v.len()
        invariant
            i <= v@.len(),
            out@ == hex(v@.take(i as int)),
        decreases v@.len() - i,
    {
        proof {
            assert(v@.take(i + 1).drop_last() =~= v@.take(i as int));
            assert(v@.take(i + 1).last() == v@[i as int]);
        }
        out.push(digit(v[i] / 16));
        out.push(digit(v[i] % 16));
        i = i + 1;
    }
    assert(v@.take(i as int) =~= v@);
    out
}

/// Two digits stand for each byte.
pub proof fn hex_has_two_digits_each(s: Seq<u8>)
    ensures
        hex(s).len() == 2 * s.len(),
    decreases s.len(),
{
    if s.len() > 0 {
        hex_has_two_digits_each(s.drop_last());
    }
}

/// Bytes with the same digits are the same.
pub proof fn hex_tells_bytes_apart(a: Seq<u8>, b: Seq<u8>)
    requires
        hex(a) == hex(b),
    ensures
        a == b,
    decreases a.len(),
{
    hex_has_two_digits_each(a);
    hex_has_two_digits_each(b);
    if a.len() > 0 {
        let x = a.last();
        let y = b.last();
        let n = hex(a).len();
        assert(hex(a)[n - 1] == hex_digit((x % 16) as nat));
        assert(hex(b)[n - 1] == hex_digit((y % 16) as nat));
        assert(hex(a)[n - 2] == hex_digit((x / 16) as nat));
        assert(hex(b)[n - 2] == hex_digit((y / 16) as nat));
        digits_differ((x % 16) as nat, (y % 16) as nat);
        digits_differ((x / 16) as nat, (y / 16) as nat);
        assert(x == y);
        assert(hex(a.drop_last()) =~= hex(a).take(n - 2));
        assert(hex(b.drop_last()) =~= hex(b).take(n - 2));
        hex_tells_bytes_apart(a.drop_last(), b.drop_last());
        assert(a =~= a.drop_last().push(x));
        assert(b =~= b.drop_last().push(y));
    } else {
        assert(a =~= b);
    }
}

/// Different numbers have different digits.
proof fn digits_differ(m: nat, n: nat)
    requires
        m < 16,
        n < 16,
        hex_digit(m) == hex_digit(n),
    ensures
        m == n,
{
    assert(hex_digit(m) as u32 == hex_digit(n) as u32);
    assert(m < 10 ==> hex_digit(m) as u32 == 48 + m);
    assert(m >= 10 ==> hex_digit(m) as u32 == 87 + m);
    assert(n < 10 ==> hex_digit(n) as u32 == 48 + n);
    assert(n >= 10 ==> hex_digit(n) as u32 == 87 + n);
}

/// The sum of data that comes in pieces.
pub struct FileHash {
    hasher: Hasher,
    len: u64,
}

impl View for FileHash {
    type V = Seq<u8>;

    /// The data that has come.
    closed spec fn view(&self) -> Seq<u8> {
        absorbed(self.hasher)
    }
}

impl FileHash {
    /// The data is counted.
    pub closed spec fn wf(&self) -> bool {
        self.len == absorbed(self.hasher).len() && self.len <= MAX_HASHED
    }

    /// No data has come.
    pub fn new() -> (r: FileHash)
        ensures
            r.wf(),
            r@ == Seq::<u8>::empty(),
    {
        FileHash { hasher: new_hasher(), len: 0 }
    }

    /// Takes in a piece of data, unless there would be too much of it. The
    /// result says whether it was taken in.
    pub fn push(&mut self, data: &Vec<u8>) -> (r: bool)
        requires
            old(self).wf(),
        ensures
            final(self).wf(),
            r == (old(self)@.len() + data@.len() <= MAX_HASHED),
            r ==> final(self)@ == old(self)@ + data@,
            !r ==> final(self)@ == old(self)@,
    {
        let n: u64 = data.len() as u64;
        if n > MAX_HASHED - self.len {
            return false;
        }
        absorb(&mut self.hasher, data);
        self.len = self.len + n;
        true
    }

    /// The sum of the data in hexadecimal digits.
    pub fn finish(self) -> (r: String)
        requires
            self.wf(),
        ensures
            r@ == hex(sha256_of(self@)),
            r@.len() == 64,
    {
        let s: Vec<u8> = sum(self.hasher);
        proof {
            hex_has_two_digits_each(s@);
        }
        to_hex(&s)
    }
}

/// The two digits of a byte make its value, the greater one first, and the
/// digits of some bytes stand one behind the other.
pub proof fn digits_make_bytes(a: Seq<u8>, b: Seq<u8>, x: u8)
    ensures
        crate::transfer::hex_value(hex(seq![x])) == x,
        hex(a + b) == hex(a) + hex(b),
    decreases b.len(),
{
    let one = seq![x];
    assert(one.drop_last() =~= Seq::<u8>::empty());
    assert(hex(Seq::<u8>::empty()).len() == 0);
    let h = hex(one);
    let hi = hex_digit((x / 16) as nat);
    let lo = hex_digit((x % 16) as nat);
    assert(h =~= seq![hi, lo]);
    assert(h.drop_last() =~= seq![hi]);
    assert(seq![hi].drop_last() =~= Seq::<char>::empty());
    assert(crate::transfer::hex_value(Seq::<char>::empty()) == 0);
    assert(crate::transfer::hex_value(seq![hi]) == x / 16);
    assert(crate::transfer::hex_value(h) == 16 * (x / 16) + x % 16);
    if b.len() > 0 {
        assert((a + b).drop_last() =~= a + b.drop_last());
        digits_make_bytes(a, b.drop_last(), x);
        assert(hex(a + b) =~= hex(a) + hex(b));
    } else {
        assert(a + b =~= a);
        assert(hex(a) + hex(b) =~= hex(a));
    }
}

} // verus!
