//! Splitting and joining of text.

use vstd::prelude::*;
use vstd::string::*;

verus! {

/// The views of a sequence of strings.
pub open spec fn views(v: Seq<String>) -> Seq<Seq<char>> {
    v.map_values(|x: String| x@)
}

/// `s` cut at every occurrence of `sep`. The separators themselves are
/// dropped; between two adjacent separators, before a leading one and after
/// a trailing one stands an empty part, so the result is never empty.
pub open spec fn split(s: Seq<char>, sep: char) -> Seq<Seq<char>>
    decreases s.len(),
{
    if s.len() == 0 {
        seq![Seq::<char>::empty()]
    } else {
        let before = split(s.drop_last(), sep);
        if s.last() == sep {
            before.push(Seq::<char>::empty())
        } else {
            before.drop_last().push(before.last().push(s.last()))
        }
    }
}

/// The parts put together again, with one `sep` between each two.
pub open spec fn join(parts: Seq<Seq<char>>, sep: char) -> Seq<char>
    decreases parts.len(),
{
    if parts.len() == 0 {
        Seq::<char>::empty()
    } else if parts.len() == 1 {
        parts[0]
    } else {
        join(parts.drop_last(), sep).push(sep) + parts.last()
    }
}

/// Splitting gives at least one part, and no part holds the separator.
pub proof fn lemma_split_parts(s: Seq<char>, sep: char)
    ensures
        split(s, sep).len() >= 1,
        forall|i: int| 0 <= i < split(s, sep).len() ==> !(#[trigger] split(s, sep)[i]).contains(sep),
    decreases s.len(),
{
    if s.len() > 0 {
        lemma_split_parts(s.drop_last(), sep);
        let before = split(s.drop_last(), sep);
        if s.last() != sep {
            let grown = before.last().push(s.last());
            assert forall|j: int| 0 <= j < grown.len() implies grown[j] != sep by {
                if j < before.last().len() {
                    assert(before.last().contains(grown[j]));
                }
            }
            assert(!grown.contains(sep));
        } else {
            assert(!Seq::<char>::empty().contains(sep));
        }
    } else {
        assert(!Seq::<char>::empty().contains(sep));
    }
}

/// Joining what was split gives the text back.
pub proof fn lemma_join_split(s: Seq<char>, sep: char)
    ensures
        join(split(s, sep), sep) == s,
    decreases s.len(),
{
    if s.len() == 0 {
        assert(join(split(s, sep), sep) =~= s);
    } else {
        let t = s.drop_last();
        let c = s.last();
        lemma_join_split(t, sep);
        lemma_split_parts(t, sep);
        let before = split(t, sep);
        let parts = split(s, sep);
        assert(s =~= t.push(c));
        if c == sep {
            assert(parts.drop_last() =~= before);
            assert(join(parts, sep) =~= t.push(sep));
        } else if before.len() == 1 {
            assert(parts =~= seq![before[0].push(c)]);
            assert(join(parts, sep) =~= t.push(c));
        } else {
            assert(parts.drop_last() =~= before.drop_last());
            assert(join(parts, sep) =~= join(before, sep).push(c));
        }
    }
}

/// Text without a separator, appended to `a`, only lengthens the last part.
proof fn lemma_split_append(a: Seq<char>, b: Seq<char>, sep: char)
    requires
        !b.contains(sep),
    ensures
        split(a + b, sep) == split(a, sep).drop_last().push(split(a, sep).last() + b),
    decreases b.len(),
{
    lemma_split_parts(a, sep);
    let parts = split(a, sep);
    if b.len() == 0 {
        assert(a + b =~= a);
        assert(parts.last() + b =~= parts.last());
        assert(parts.drop_last().push(parts.last()) =~= parts);
    } else {
        let b0 = b.drop_last();
        assert forall|j: int| 0 <= j < b0.len() implies b0[j] != sep by {
            assert(b.contains(b[j]));
        }
        assert(b.contains(b.last()));
        lemma_split_append(a, b0, sep);
        assert((a + b).drop_last() =~= a + b0);
        assert((a + b).last() == b.last());
        let mid = parts.drop_last().push(parts.last() + b0);
        assert(mid.drop_last() =~= parts.drop_last());
        assert((parts.last() + b0).push(b.last()) =~= parts.last() + b);
    }
}

/// Splitting what was joined gives the parts back, as long as there is at
/// least one part and none of them holds the separator.
pub proof fn lemma_split_join(parts: Seq<Seq<char>>, sep: char)
    requires
        parts.len() >= 1,
        forall|i: int| 0 <= i < parts.len() ==> !(#[trigger] parts[i]).contains(sep),
    ensures
        split(join(parts, sep), sep) == parts,
    decreases parts.len(),
{
    if parts.len() == 1 {
        lemma_split_append(Seq::<char>::empty(), parts[0], sep);
        assert(Seq::<char>::empty() + parts[0] =~= parts[0]);
        assert(split(Seq::<char>::empty(), sep) =~= seq![Seq::<char>::empty()]);
        assert(split(parts[0], sep) =~= parts);
    } else {
        let front = parts.drop_last();
        lemma_split_join(front, sep);
        let head = join(front, sep).push(sep);
        assert(head.drop_last() =~= join(front, sep));
        assert(split(head, sep) =~= front.push(Seq::<char>::empty()));
        lemma_split_append(head, parts.last(), sep);
        assert(Seq::<char>::empty() + parts.last() =~= parts.last());
        assert(split(join(parts, sep), sep) =~= parts);
    }
}

/// Cuts `s` at every occurrence of `sep`: the parts hold no `sep`, and
/// joined by `sep` they give `s` back.
pub fn split_on(s: &str, sep: char) -> (parts: Vec<String>)
    ensures
        views(parts@) == split(s@, sep),
        parts@.len() >= 1,
        forall|i: int| 0 <= i < parts@.len() ==> !(#[trigger] views(parts@)[i]).contains(sep),
        join(views(parts@), sep) == s@,
{
    proof {
        lemma_split_parts(s@, sep);
        lemma_join_split(s@, sep);
    }
    let n = s.unicode_len();
    let mut parts: Vec<String> = Vec::new();
    let mut start: usize = 0;
    let mut i: usize = 0;
    assert(s@.take(0) =~= Seq::<char>::empty());
    assert(views(parts@).push(s@.subrange(0, 0)) =~= seq![Seq::<char>::empty()]);
    for c in it: s.chars()
        invariant
            it.seq() == s@,
            n == s@.len(),
            i == it.index(),
            start <= i,
            split(s@.take(i as int), sep) == views(parts@).push(
                s@.subrange(start as int, i as int),
            ),
    {
        proof {
            let head = s@.take(i as int + 1);
            assert(head.drop_last() =~= s@.take(i as int));
            assert(head.last() == c);
        }
        if c == sep {
            let part = s.substring_char(start, i);
            let ghost before = parts@;
            parts.push(part.to_owned());
            assert(views(parts@) =~= views(before).push(part@));
            start = i + 1;
            assert(s@.subrange(start as int, i as int + 1) =~= Seq::<char>::empty());
        } else {
            assert(s@.subrange(start as int, i as int + 1) =~= s@.subrange(
                start as int,
                i as int,
            ).push(c));
            assert(views(parts@).push(s@.subrange(start as int, i as int)).drop_last() =~= views(
                parts@,
            ));
        }
        i = i + 1;
    }
    let part = s.substring_char(start, n);
    let ghost before = parts@;
    parts.push(part.to_owned());
    assert(views(parts@) =~= views(before).push(part@));
    assert(s@.take(n as int) =~= s@);
    parts
}

/// Whether `c` occurs in `s`.
pub fn contains_char(s: &str, c: char) -> (res: bool)
    ensures
        res == s@.contains(c),
{
    let n = s.unicode_len();
    let mut i: usize = 0;
    for x in it: s.chars()
        invariant
            it.seq() == s@,
            n == s@.len(),
            i == it.index(),
            forall|j: int| 0 <= j < i ==> s@[j] != c,
    {
        if x == c {
            assert(s@[i as int] == c);
            return true;
        }
        i = i + 1;
    }
    false
}

} // verus!
