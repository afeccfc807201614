//! The messages of a transfer as bytes: numbers, framed documents, and the
//! pieces in which a file is sent.

use vstd::prelude::*;

verus! {

// ---------------------------------------------------------------------------
// Numbers
// ---------------------------------------------------------------------------

/// A number in `k` bytes, the lowest first.
pub open spec fn le_bytes(n: nat, k: nat) -> Seq<u8>
    decreases k,
{
    if k == 0 {
        Seq::empty()
    } else {
        seq![(n % 256) as u8] + le_bytes(n / 256, (k - 1) as nat)
    }
}

/// The number that bytes write, the lowest first.
pub open spec fn le_value(s: Seq<u8>) -> nat
    decreases s.len(),
{
    if s.len() == 0 {
        0
    } else {
        s[0] as nat + 256 * le_value(s.skip(1))
    }
}

/// The number of values of `k` bytes.
pub open spec fn byte_values(k: nat) -> nat
    decreases k,
{
    if k == 0 {
        1
    } else {
        256 * byte_values((k - 1) as nat)
    }
}

/// Eight bytes have as many values as a number of 64 bits.
proof fn eight_bytes()
    ensures
        byte_values(8) == 0x1_0000_0000_0000_0000,
{
    reveal_with_fuel(byte_values, 9);
}

/// Writing a number and reading it back gives the number, where it has room.
pub proof fn number_reads_back(n: nat, k: nat)
    requires
        n < byte_values(k),
    ensures
        le_bytes(n, k).len() == k,
        le_value(le_bytes(n, k)) == n,
    decreases k,
{
    if k > 0 {
        number_reads_back(n / 256, (k - 1) as nat);
        let s = le_bytes(n, k);
        assert(s.skip(1) =~= le_bytes(n / 256, (k - 1) as nat));
        assert(s[0] == (n % 256) as u8);
    }
}

/// What bytes write is below the number of their values.
pub proof fn value_has_bound(s: Seq<u8>)
    ensures
        le_value(s) < byte_values(s.len()),
    decreases s.len(),
{
    if s.len() > 0 {
        value_has_bound(s.skip(1));
    }
}

/// A number of 64 bits in eight bytes.
pub fn write_u64(n: u64) -> (r: Vec<u8>)
    ensures
        r@ == le_bytes(n as nat, 8),
        r@.len() == 8,
        le_value(r@) == n,
{
    proof {
        eight_bytes();
        number_reads_back(n as nat, 8);
    }
    let ghost all = le_bytes(n as nat, 8);
    let mut out: Vec<u8> = Vec::new();
    let mut rest: u64 = n;
    let mut i: u64 = 0;
    assert(out@ + all =~= all);
    while i < 8
        invariant
            i <= 8,
            all == le_bytes(n as nat, 8),
            out@ + le_bytes(rest as nat, (8 - i) as nat) == all,
        decreases 8 - i,
    {
        let ghost before = out@;
        let b: u8 = (rest % 256) as u8;
        out.push(b);
        proof {
            assert(before.push(b) + le_bytes((rest / 256) as nat, (8 - i - 1) as nat) =~= before
                + (seq![b] + le_bytes((rest / 256) as nat, (8 - i - 1) as nat)));
        }
        rest = rest / 256;
        i = i + 1;
    }
    assert(out@ + le_bytes(rest as nat, 0) =~= out@);
    out
}

/// The number of 64 bits in eight bytes.
pub fn read_u64(v: &Vec<u8>) -> (r: u64)
    requires
        v@.len() == 8,
    ensures
        r == le_value(v@),
{
    let mut n: u64 = 0;
    let mut i: usize = 8;
    assert(v@.skip(8) =~= Seq::<u8>::empty());
    while i > 0
        invariant
            i <= 8,
            v@.len() == 8,
            n == le_value(v@.skip(i as int)),
        decreases i,
    {
        proof {
            let t = v@.skip(i - 1);
            assert(t[0] == v@[i - 1]);
            assert(t.skip(1) =~= v@.skip(i as int));
            value_has_bound(t);
            eight_bytes();
            grows(t.len(), 8);
        }
        n = n * 256 + v[i - 1] as u64;
        i = i - 1;
    }
    assert(v@.skip(0) =~= v@);
    n
}

/// More bytes have more values.
proof fn grows(a: nat, b: nat)
    requires
        a <= b,
    ensures
        byte_values(a) <= byte_values(b),
    decreases b,
{
    if a < b {
        grows(a, (b - 1) as nat);
        positive((b - 1) as nat);
    }
}

/// Bytes have values.
proof fn positive(k: nat)
    ensures
        byte_values(k) >= 1,
    decreases k,
{
    if k > 0 {
        positive((k - 1) as nat);
    }
}

// ---------------------------------------------------------------------------
// Frames
// ---------------------------------------------------------------------------

/// The room for a document: one megabyte.
pub const FRAME_ROOM: usize = 1_048_576;

/// A document in its room, with zeros behind it; what has no room is left
/// out.
pub open spec fn padded(doc: Seq<u8>) -> Seq<u8> {
    Seq::new(
        FRAME_ROOM as nat,
        |i: int|
            if i < doc.len() {
                doc[i]
            } else {
                0u8
            },
    )
}

/// A document as it is sent: its length, then the document in its room.
pub struct Frame {
    pub length: Vec<u8>,
    pub body: Vec<u8>,
}

/// A document as it is sent.
pub fn frame(doc: &Vec<u8>) -> (r: Frame)
    ensures
        r.length@ == le_bytes(doc@.len(), 8),
        r.body@ == padded(doc@),
{
    let n: usize = doc.len();
    let mut body: Vec<u8> = Vec::new();
    let ghost want = padded(doc@);
    let mut i: usize = 0;
    while i < FRAME_ROOM
        invariant
            i <= FRAME_ROOM,
            n == doc@.len(),
            want == padded(doc@),
            body@ == want.take(i as int),
        decreases FRAME_ROOM - i,
    {
        let b: u8 = if i < n {
            doc[i]
        } else {
            0
        };
        body.push(b);
        i = i + 1;
        assert(body@ =~= want.take(i as int));
    }
    assert(want.take(i as int) =~= want);
    Frame { length: write_u64(n as u64), body }
}

/// The length that a header gives fits into the room.
pub open spec fn length_fits(length: Seq<u8>, body: Seq<u8>) -> bool {
    le_value(length) <= body.len()
}

/// Whether the length that a header gives fits into the room.
pub fn check_length(length: &Vec<u8>, body: &Vec<u8>) -> (r: bool)
    requires
        length@.len() == 8,
    ensures
        r == length_fits(length@, body@),
{
    read_u64(length) <= body.len() as u64
}

/// The document in a frame.
pub fn unframe(length: &Vec<u8>, body: &Vec<u8>) -> (r: Vec<u8>)
    requires
        length@.len() == 8,
        length_fits(length@, body@),
    ensures
        r@ == body@.take(le_value(length@) as int),
{
    let room: usize = body.len();
    let wide: u64 = read_u64(length);
    assert(wide <= room);
    let n: usize = wide as usize;
    let mut out: Vec<u8> = Vec::new();
    let mut i: usize = 0;
    while i < n
        invariant
            i <= n <= body@.len(),
            out@ == body@.take(i as int),
        decreases n - i,
    {
        out.push(body[i]);
        i = i + 1;
        assert(out@ =~= body@.take(i as int));
    }
    out
}

/// A document that has room is received as it was sent.
pub proof fn document_arrives(doc: Seq<u8>)
    requires
        doc.len() <= FRAME_ROOM,
    ensures
        length_fits(le_bytes(doc.len(), 8), padded(doc)),
        padded(doc).take(le_value(le_bytes(doc.len(), 8)) as int) == doc,
{
    eight_bytes();
    number_reads_back(doc.len(), 8);
    assert(padded(doc).take(doc.len() as int) =~= doc);
}

/// A document that has no room does not arrive: its length does not fit.
pub proof fn too_long_is_noticed(doc: Seq<u8>)
    requires
        FRAME_ROOM < doc.len() <= u64::MAX,
    ensures
        !length_fits(le_bytes(doc.len(), 8), padded(doc)),
{
    eight_bytes();
    number_reads_back(doc.len(), 8);
}

// ---------------------------------------------------------------------------
// Files
// ---------------------------------------------------------------------------

/// The largest piece of a file: four megabytes.
pub const BULK_CHUNK: u64 = 4_194_304;

/// The size of the piece at an offset of a file.
pub open spec fn chunk_at(done: int, size: int) -> int {
    if size - done < BULK_CHUNK {
        size - done
    } else {
        BULK_CHUNK as int
    }
}

/// The sizes of the pieces of a file from an offset on.
pub open spec fn chunks_from(done: int, size: int) -> Seq<int>
    decreases size - done,
{
    if done >= size {
        Seq::empty()
    } else {
        seq![chunk_at(done, size)] + chunks_from(done + chunk_at(done, size), size)
    }
}

/// The sum of sizes.
pub open spec fn total(s: Seq<int>) -> int
    decreases s.len(),
{
    if s.len() == 0 {
        0
    } else {
        s[0] + total(s.drop_first())
    }
}

/// The pieces of a file make up the file, and none is empty or too large.
pub proof fn chunks_make_file(done: int, size: int)
    requires
        0 <= done <= size,
    ensures
        total(chunks_from(done, size)) == size - done,
        forall|i: int|
            0 <= i < chunks_from(done, size).len() ==> 0 < #[trigger] chunks_from(done, size)[i]
                <= BULK_CHUNK,
    decreases size - done,
{
    if done < size {
        let c = chunk_at(done, size);
        chunks_make_file(done + c, size);
        let rest = chunks_from(done + c, size);
        let all = chunks_from(done, size);
        assert(all.drop_first() =~= rest);
        assert forall|i: int| 0 <= i < all.len() implies 0 < #[trigger] all[i] <= BULK_CHUNK by {
            if i > 0 {
                assert(all[i] == rest[i - 1]);
            }
        }
    }
}

/// A file that is being sent or received.
pub struct BulkFile {
    done: u64,
    size: u64,
}

/// How far a file has been sent, and its size.
pub struct BulkView {
    pub done: int,
    pub size: int,
}

impl View for BulkFile {
    type V = BulkView;

    closed spec fn view(&self) -> BulkView {
        BulkView { done: self.done as int, size: self.size as int }
    }
}

impl BulkFile {
    /// No more than the file has been sent.
    pub open spec fn wf(&self) -> bool {
        0 <= self@.done <= self@.size
    }

    /// Nothing has been sent.
    pub fn new(size: u64) -> (r: BulkFile)
        ensures
            r.wf(),
            r@.done == 0,
            r@.size == size,
    {
        BulkFile { done: 0, size }
    }

    /// The size of the next piece, or none where all has been sent.
    pub fn next_chunk(&self) -> (r: Option<u64>)
        requires
            self.wf(),
        ensures
            r is None <==> self@.done == self@.size,
            r matches Some(n) ==> n == chunk_at(self@.done, self@.size) && n > 0,
    {
        if self.done >= self.size {
            None
        } else {
            let left: u64 = self.size - self.done;
            if left < BULK_CHUNK {
                Some(left)
            } else {
                Some(BULK_CHUNK)
            }
        }
    }

    /// The next piece has been sent.
    pub fn advance(&mut self)
        requires
            old(self).wf(),
            old(self)@.done < old(self)@.size,
        ensures
            final(self).wf(),
            final(self)@.size == old(self)@.size,
            final(self)@.done == old(self)@.done + chunk_at(old(self)@.done, old(self)@.size),
    {
        let left: u64 = self.size - self.done;
        if left < BULK_CHUNK {
            self.done = self.size;
        } else {
            self.done = self.done + BULK_CHUNK;
        }
    }

    /// How much has been sent.
    pub fn offset(&self) -> (r: u64)
        ensures
            r == self@.done,
    {
        self.done
    }
}

/// Every chunk but the last is full, so a file moves in as few as can be.
pub proof fn chunks_are_full(done: int, size: int)
    requires
        0 <= done <= size,
    ensures
        forall|i: int|
            0 <= i < chunks_from(done, size).len() - 1 ==> #[trigger] chunks_from(done, size)[i]
                == BULK_CHUNK,
    decreases size - done,
{
    if done < size {
        let n = chunk_at(done, size);
        let rest = chunks_from(done + n, size);
        chunks_are_full(done + n, size);
        assert forall|i: int| 0 <= i < chunks_from(done, size).len() - 1 implies #[trigger] chunks_from(
            done,
            size,
        )[i] == BULK_CHUNK by {
            if i > 0 {
                assert(chunks_from(done, size)[i] == rest[i - 1]);
            }
        }
    }
}

} // verus!
