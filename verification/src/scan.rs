//! Reading texts line by line and lists item by item: what is kept of each
//! line is said by a reader, and the lines that it passes over leave nothing.

use crate::text;
use vstd::prelude::*;

verus! {

/// Something that reads an item from a line, or passes the line over.
pub trait LineReader {
    type Item: DeepView;

    /// The item in a line.
    spec fn item(&self, line: Seq<char>) -> Option<<Self::Item as DeepView>::V>;

    /// The item in a line.
    fn read(&self, line: &str) -> (r: Option<Self::Item>)
        ensures
            r.deep_view() == self.item(line@),
    ;
}

/// The items that a reader finds in lines, in their order.
pub open spec fn items_in<R: LineReader>(reader: R, lines: Seq<Seq<char>>) -> Seq<
    <R::Item as DeepView>::V,
>
    decreases lines.len(),
{
    if lines.len() == 0 {
        Seq::empty()
    } else {
        let rest = items_in(reader, lines.drop_last());
        match reader.item(lines.last()) {
            Some(x) => rest.push(x),
            None => rest,
        }
    }
}

/// The items that a reader finds in a list of texts.
pub fn read_all<R: LineReader>(reader: &R, all: &Vec<String>) -> (r: Vec<R::Item>)
    ensures
        r.deep_view() == items_in(*reader, all.deep_view()),
{
    let ghost ls = all.deep_view();
    let mut out: Vec<R::Item> = Vec::new();
    let mut i: usize = 0;
    assert(out.deep_view() =~= items_in(*reader, ls.take(0)));
    while i < all.len()
        invariant
            i <= all@.len(),
            ls == all.deep_view(),
            out.deep_view() == items_in(*reader, ls.take(i as int)),
        decreases all@.len() - i,
    {
        proof {
            assert(ls.take(i + 1).drop_last() =~= ls.take(i as int));
            assert(ls.take(i + 1).last() == all@[i as int]@);
        }
        if let Some(x) = reader.read(&all[i]) {
            text::push_item(&mut out, x);
        }
        i = i + 1;
    }
    assert(ls.take(i as int) =~= ls);
    out
}

/// The items that a reader finds in the lines of a text.
pub fn read_lines<R: LineReader>(reader: &R, s: &str) -> (r: Vec<R::Item>)
    ensures
        r.deep_view() == items_in(*reader, text::lines_of(s@)),
{
    let all: Vec<String> = text::lines(s);
    read_all(reader, &all)
}

/// The first item that a reader finds in lines.
pub open spec fn first_in<R: LineReader>(reader: R, lines: Seq<Seq<char>>) -> Option<
    <R::Item as DeepView>::V,
>
    decreases lines.len(),
{
    if lines.len() == 0 {
        None
    } else {
        match reader.item(lines[0]) {
            Some(x) => Some(x),
            None => first_in(reader, lines.drop_first()),
        }
    }
}

/// The first item that a reader finds in a list of texts.
pub fn find_in_all<R: LineReader>(reader: &R, all: &Vec<String>) -> (r: Option<R::Item>)
    ensures
        r.deep_view() == first_in(*reader, all.deep_view()),
{
    let ghost ls = all.deep_view();
    let mut i: usize = 0;
    assert(ls.skip(0) =~= ls);
    while i < all.len()
        invariant
            i <= all@.len(),
            ls == all.deep_view(),
            first_in(*reader, ls) == first_in(*reader, ls.skip(i as int)),
        decreases all@.len() - i,
    {
        assert(ls.skip(i as int)[0] == all@[i as int]@);
        assert(ls.skip(i as int).drop_first() =~= ls.skip(i + 1));
        let found: Option<R::Item> = reader.read(&all[i]);
        if let Some(x) = found {
            return Some(x);
        }
        i = i + 1;
    }
    None
}

/// The first item that a reader finds in the lines of a text.
pub fn read_first<R: LineReader>(reader: &R, s: &str) -> (r: Option<R::Item>)
    ensures
        r.deep_view() == first_in(*reader, text::lines_of(s@)),
{
    let all: Vec<String> = text::lines(s);
    find_in_all(reader, &all)
}

/// Every item was read from one of the lines.
pub proof fn items_come_from_lines<R: LineReader>(reader: R, lines: Seq<Seq<char>>)
    ensures
        forall|i: int|
            0 <= i < items_in(reader, lines).len() ==> exists|k: int|
                0 <= k < lines.len() && #[trigger] reader.item(lines[k]) == Some(
                    #[trigger] items_in(reader, lines)[i],
                ),
    decreases lines.len(),
{
    if lines.len() > 0 {
        let front = lines.drop_last();
        items_come_from_lines(reader, front);
        let rest = items_in(reader, front);
        let now = items_in(reader, lines);
        assert forall|i: int| 0 <= i < now.len() implies exists|k: int|
            0 <= k < lines.len() && #[trigger] reader.item(lines[k]) == Some(
                #[trigger] now[i],
            ) by {
            if i < rest.len() {
                assert(now[i] == rest[i]);
                let k = choose|k: int|
                    0 <= k < front.len() && #[trigger] reader.item(front[k]) == Some(rest[i]);
                assert(reader.item(lines[k]) == Some(now[i]));
            } else {
                assert(reader.item(lines[lines.len() - 1]) == Some(now[i]));
            }
        }
    }
}

/// The first item is that of the first line that holds one.
pub proof fn first_is_first<R: LineReader>(reader: R, front: Seq<Seq<char>>, line: Seq<char>, back: Seq<Seq<char>>)
    requires
        forall|i: int| 0 <= i < front.len() ==> reader.item(#[trigger] front[i]) is None,
        reader.item(line) is Some,
    ensures
        first_in(reader, front + seq![line] + back) == reader.item(line),
        first_in(reader, front) is None,
    decreases front.len(),
{
    let all = front + seq![line] + back;
    if front.len() > 0 {
        let rest = front.drop_first();
        assert(all[0] == front[0]);
        assert(all.drop_first() =~= rest + seq![line] + back);
        assert forall|i: int| 0 <= i < rest.len() implies reader.item(#[trigger] rest[i]) is None by {
            assert(rest[i] == front[i + 1]);
        }
        first_is_first(reader, rest, line, back);
    } else {
        assert(all[0] == line);
    }
}

/// The items of some lines are those of their parts, in their order: no line
/// that holds one is passed over.
pub proof fn items_follow_the_lines<R: LineReader>(reader: R, a: Seq<Seq<char>>, b: Seq<Seq<char>>)
    ensures
        items_in(reader, a + b) == items_in(reader, a) + items_in(reader, b),
        forall|line: Seq<char>| items_in(reader, #[trigger] seq![line]) == (match reader.item(line) {
            Some(x) => seq![x],
            None => Seq::empty(),
        }),
    decreases b.len(),
{
    assert forall|line: Seq<char>| items_in(reader, #[trigger] seq![line]) == (match reader.item(
        line,
    ) {
        Some(x) => seq![x],
        None => Seq::empty(),
    }) by {
        let one = seq![line];
        assert(one.drop_last() =~= Seq::<Seq<char>>::empty());
        assert(items_in(reader, Seq::<Seq<char>>::empty()).len() == 0);
        assert(one.last() == line);
        assert(items_in(reader, one) =~= (match reader.item(line) {
            Some(x) => seq![x],
            None => Seq::empty(),
        }));
    }
    if b.len() > 0 {
        assert((a + b).drop_last() =~= a + b.drop_last());
        assert((a + b).last() == b.last());
        items_follow_the_lines(reader, a, b.drop_last());
        assert(items_in(reader, a + b) =~= items_in(reader, a) + items_in(reader, b));
    } else {
        assert(a + b =~= a);
        assert(items_in(reader, a) + items_in(reader, b) =~= items_in(reader, a));
    }
}

} // verus!
