//! Tables from texts to texts, kept in the order of their keys.

use crate::text;
use vstd::prelude::*;

verus! {

/// A table from texts to texts. Each key stands in it once, and the entries
/// stand in the order of their keys.
pub struct TextMap {
    entries: Vec<(String, String)>,
}

/// The value that the first entry with the key `k` holds.
pub open spec fn lookup(s: Seq<(Seq<char>, Seq<char>)>, k: Seq<char>) -> Option<Seq<char>>
    decreases s.len(),
{
    if s.len() == 0 {
        None
    } else if s[0].0 == k {
        Some(s[0].1)
    } else {
        lookup(s.drop_first(), k)
    }
}

/// The keys grow from entry to entry.
pub open spec fn ordered(s: Seq<(Seq<char>, Seq<char>)>) -> bool {
    forall|i: int, j: int|
        0 <= i < j < s.len() ==> text::precedes(#[trigger] s[i].0, #[trigger] s[j].0)
}

/// `s` with the value of `k` set to `v`, in an ordered sequence.
pub open spec fn with_entry(
    s: Seq<(Seq<char>, Seq<char>)>,
    k: Seq<char>,
    v: Seq<char>,
) -> Seq<(Seq<char>, Seq<char>)>
    decreases s.len(),
{
    if s.len() == 0 || text::precedes(k, s[0].0) {
        seq![(k, v)] + s
    } else if s[0].0 == k {
        seq![(k, v)] + s.drop_first()
    } else {
        seq![s[0]] + with_entry(s.drop_first(), k, v)
    }
}

/// Setting a key keeps the order, gives the key its new value and leaves
/// every other key alone.
pub proof fn with_entry_sets(s: Seq<(Seq<char>, Seq<char>)>, k: Seq<char>, v: Seq<char>)
    requires
        ordered(s),
    ensures
        ordered(with_entry(s, k, v)),
        forall|j: Seq<char>| #[trigger]
            lookup(with_entry(s, k, v), j) == (if j == k {
                Some(v)
            } else {
                lookup(s, j)
            }),
        forall|i: int|
            0 <= i < with_entry(s, k, v).len() ==> (#[trigger] with_entry(s, k, v)[i]).0 == k
                || exists|m: int| 0 <= m < s.len() && with_entry(s, k, v)[i] == #[trigger] s[m],
    decreases s.len(),
{
    let r = with_entry(s, k, v);
    if s.len() == 0 {
        assert(r =~= seq![(k, v)]);
        assert forall|j: Seq<char>| #[trigger] lookup(r, j) == (if j == k {
            Some(v)
        } else {
            lookup(s, j)
        }) by {
            assert(r.drop_first() =~= s);
        }
    } else if text::precedes(k, s[0].0) {
        assert(r.drop_first() =~= s);
        assert forall|i: int, j: int| 0 <= i < j < r.len() implies text::precedes(
            #[trigger] r[i].0,
            #[trigger] r[j].0,
        ) by {
            if i == 0 {
                if j > 1 {
                    assert(text::precedes(s[0].0, s[j - 1].0));
                    text::precedes_transitive(k, s[0].0, s[j - 1].0);
                }
            } else {
                assert(text::precedes(s[i - 1].0, s[j - 1].0));
            }
        }
        assert forall|i: int| 0 <= i < r.len() implies (#[trigger] r[i]).0 == k || exists|m: int|
            0 <= m < s.len() && r[i] == #[trigger] s[m] by {
            if i > 0 {
                assert(r[i] == s[i - 1]);
            }
        }
        assert forall|j: Seq<char>| #[trigger] lookup(r, j) == (if j == k {
            Some(v)
        } else {
            lookup(s, j)
        }) by {}
    } else if s[0].0 == k {
        assert(r.drop_first() =~= s.drop_first());
        assert forall|i: int, j: int| 0 <= i < j < r.len() implies text::precedes(
            #[trigger] r[i].0,
            #[trigger] r[j].0,
        ) by {
            assert(text::precedes(s[i].0, s[j].0));
        }
        assert forall|i: int| 0 <= i < r.len() implies (#[trigger] r[i]).0 == k || exists|m: int|
            0 <= m < s.len() && r[i] == #[trigger] s[m] by {
            if i > 0 {
                assert(r[i] == s[i]);
            }
        }
    } else {
        let rest = s.drop_first();
        let w = with_entry(rest, k, v);
        assert forall|i: int, j: int| 0 <= i < j < rest.len() implies text::precedes(
            #[trigger] rest[i].0,
            #[trigger] rest[j].0,
        ) by {
            assert(text::precedes(s[i + 1].0, s[j + 1].0));
        }
        with_entry_sets(rest, k, v);
        text::precedes_total(k, s[0].0);
        assert(r.drop_first() =~= w);
        assert forall|i: int, j: int| 0 <= i < j < r.len() implies text::precedes(
            #[trigger] r[i].0,
            #[trigger] r[j].0,
        ) by {
            if i == 0 {
                assert(r[j] == w[j - 1]);
                if w[j - 1].0 != k {
                    let m = choose|m: int| 0 <= m < rest.len() && w[j - 1] == #[trigger] rest[m];
                    assert(text::precedes(s[0].0, s[m + 1].0));
                }
            } else {
                assert(text::precedes(w[i - 1].0, w[j - 1].0));
            }
        }
        assert forall|i: int| 0 <= i < r.len() implies (#[trigger] r[i]).0 == k || exists|m: int|
            0 <= m < s.len() && r[i] == #[trigger] s[m] by {
            if i == 0 {
                assert(r[i] == s[0]);
            } else {
                assert(r[i] == w[i - 1]);
                if w[i - 1].0 != k {
                    let m = choose|m: int| 0 <= m < rest.len() && w[i - 1] == #[trigger] rest[m];
                    assert(r[i] == s[m + 1]);
                }
            }
        }
        assert forall|j: Seq<char>| #[trigger] lookup(r, j) == (if j == k {
            Some(v)
        } else {
            lookup(s, j)
        }) by {
            if s[0].0 != j {
                assert(lookup(r, j) == lookup(w, j));
                assert(lookup(s, j) == lookup(rest, j));
            }
        }
    }
}

impl View for TextMap {
    type V = Seq<(Seq<char>, Seq<char>)>;

    closed spec fn view(&self) -> Seq<(Seq<char>, Seq<char>)> {
        self.entries.deep_view()
    }
}

impl DeepView for TextMap {
    type V = Seq<(Seq<char>, Seq<char>)>;

    open spec fn deep_view(&self) -> Seq<(Seq<char>, Seq<char>)> {
        self@
    }
}

impl TextMap {
    /// The keys grow from entry to entry.
    pub open spec fn wf(&self) -> bool {
        ordered(self@)
    }

    /// The empty table.
    pub fn new() -> (r: TextMap)
        ensures
            r.wf(),
            r@ == Seq::<(Seq<char>, Seq<char>)>::empty(),
    {
        let r = TextMap { entries: Vec::new() };
        assert(r@ =~= Seq::<(Seq<char>, Seq<char>)>::empty());
        r
    }

    /// The number of entries.
    pub fn len(&self) -> (r: usize)
        ensures
            r == self@.len(),
    {
        self.entries.len()
    }

    /// The key of the entry at `i`.
    pub fn key(&self, i: usize) -> (r: &str)
        requires
            i < self@.len(),
        ensures
            r@ == self@[i as int].0,
    {
        assert(self@[i as int] == self.entries@[i as int].deep_view());
        &self.entries[i].0
    }

    /// The value of the entry at `i`.
    pub fn value(&self, i: usize) -> (r: &str)
        requires
            i < self@.len(),
        ensures
            r@ == self@[i as int].1,
    {
        assert(self@[i as int] == self.entries@[i as int].deep_view());
        &self.entries[i].1
    }

    /// The value under the key `k`.
    pub fn get(&self, k: &str) -> (r: Option<String>)
        ensures
            r.deep_view() == lookup(self@, k@),
    {
        let mut i: usize = 0;
        assert(self@.skip(0) =~= self@);
        while i < self.len()
            invariant
                i <= self@.len(),
                lookup(self@, k@) == lookup(self@.skip(i as int), k@),
            decreases self@.len() - i,
        {
            if text::same(self.key(i), k) {
                return Some(text::own(self.value(i)));
            }
            assert(self@.skip(i as int).drop_first() =~= self@.skip(i + 1));
            i = i + 1;
        }
        None
    }

    /// Sets the value under the key `k` to `v`.
    pub fn insert(&mut self, k: &str, v: &str)
        requires
            old(self).wf(),
        ensures
            final(self).wf(),
            final(self)@ == with_entry(old(self)@, k@, v@),
    {
        let ghost start = self@;
        let mut i: usize = 0;
        assert(start.take(0) + with_entry(start.skip(0), k@, v@) =~= with_entry(
            start.skip(0),
            k@,
            v@,
        ));
        assert(start.skip(0) =~= start);
        proof {
            with_entry_sets(start, k@, v@);
        }
        while i < self.entries.len() && text::before(self.key(i), k)
            invariant
                i <= self@.len(),
                self@ == start,
                ordered(with_entry(start, k@, v@)),
                with_entry(start, k@, v@) == start.take(i as int) + with_entry(
                    start.skip(i as int),
                    k@,
                    v@,
                ),
            decreases self@.len() - i,
        {
            proof {
                text::precedes_total(start[i as int].0, k@);
                let rest = start.skip(i as int);
                assert(rest[0] == start[i as int]);
                assert(rest.drop_first() =~= start.skip(i + 1));
                assert(start.take(i as int) + (seq![rest[0]] + with_entry(
                    rest.drop_first(),
                    k@,
                    v@,
                )) =~= start.take(i + 1) + with_entry(start.skip(i + 1), k@, v@));
            }
            i = i + 1;
        }
        let ghost rest = start.skip(i as int);
        let there: bool = i < self.entries.len() && text::same(self.key(i), k);
        let entry: (String, String) = (text::own(k), text::own(v));
        let ghost old_entries = self.entries@;
        if there {
            self.entries.set(i, entry);
            proof {
                text::precedes_total(k@, k@);
                assert(self@ =~= start.take(i as int) + (seq![(k@, v@)] + rest.drop_first()));
            }
        } else {
            self.entries.insert(i, entry);
            proof {
                if i < start.len() {
                    text::precedes_total(start[i as int].0, k@);
                    assert(rest[0] == start[i as int]);
                }
                assert(self@ =~= start.take(i as int) + (seq![(k@, v@)] + rest));
            }
        }
    }
}

} // verus!
