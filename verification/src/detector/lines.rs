//! Splitting a sequence into lines: the lines that a line break has closed,
//! and the open line after the last break.
//!
//! The definitions are generic in the item, so that the same rules cut bytes
//! (in the output buffer) and characters (in the classifier's text window).
//! `nl` is the line break, `cr` the carriage return that may precede it.

use vstd::prelude::*;

verus! {

/// The number of items before the first line break of `s`; `s.len()` where
/// `s` has no line break.
pub open spec fn first_break<T>(s: Seq<T>, nl: T) -> int
    decreases s.len(),
{
    if s.len() == 0 || s[0] == nl {
        0
    } else {
        1 + first_break(s.drop_first(), nl)
    }
}

/// Whether `s` holds a line break.
pub open spec fn has_break<T>(s: Seq<T>, nl: T) -> bool {
    first_break(s, nl) < s.len()
}

/// `line` without the carriage return at its end, if it has one.
pub open spec fn chomp<T>(line: Seq<T>, cr: T) -> Seq<T> {
    if line.len() > 0 && line.last() == cr {
        line.drop_last()
    } else {
        line
    }
}

/// The lines of `s` that a line break closes, in order, each without its
/// line break and without a carriage return before it.
pub open spec fn closed_lines<T>(s: Seq<T>, nl: T, cr: T) -> Seq<Seq<T>>
    decreases s.len(),
{
    let i = first_break(s, nl);
    if 0 <= i < s.len() {
        seq![chomp(s.take(i), cr)] + closed_lines(s.skip(i + 1), nl, cr)
    } else {
        Seq::empty()
    }
}

/// What follows the last line break of `s`; all of `s` where it has none.
pub open spec fn open_line<T>(s: Seq<T>, nl: T) -> Seq<T>
    decreases s.len(),
{
    let i = first_break(s, nl);
    if 0 <= i < s.len() {
        open_line(s.skip(i + 1), nl)
    } else {
        s
    }
}

/// All lines of `s`: the closed ones, then the open line unless it is empty.
pub open spec fn all_lines<T>(s: Seq<T>, nl: T, cr: T) -> Seq<Seq<T>> {
    if open_line(s, nl).len() > 0 {
        closed_lines(s, nl, cr).push(open_line(s, nl))
    } else {
        closed_lines(s, nl, cr)
    }
}

/// `first_break` is the position of the first line break.
pub proof fn lemma_first_break<T>(s: Seq<T>, nl: T)
    ensures
        0 <= first_break(s, nl) <= s.len(),
        forall|k: int| 0 <= k < first_break(s, nl) ==> s[k] != nl,
        first_break(s, nl) < s.len() ==> s[first_break(s, nl)] == nl,
    decreases s.len(),
{
    if s.len() == 0 || s[0] == nl {
    } else {
        let rest = s.drop_first();
        lemma_first_break(rest, nl);
        let f = first_break(rest, nl);
        assert(first_break(s, nl) == 1 + f);
        assert forall|k: int| 0 <= k < 1 + f implies s[k] != nl by {
            if k > 0 {
                assert(s[k] == rest[k - 1]);
            }
        }
        if 1 + f < s.len() {
            assert(s[1 + f] == rest[f]);
        }
    }
}

/// A position with a line break (or the end) and none before it is the
/// first break.
pub proof fn lemma_first_break_is<T>(s: Seq<T>, nl: T, i: int)
    requires
        0 <= i <= s.len(),
        forall|k: int| 0 <= k < i ==> s[k] != nl,
        i < s.len() ==> s[i] == nl,
    ensures
        first_break(s, nl) == i,
{
    lemma_first_break(s, nl);
    let f = first_break(s, nl);
    if f < i {
        assert(s[f] == nl);
    } else if i < f {
        assert(s[i] == nl);
    }
}

/// The open line is what follows the last line break: it is the end of the
/// sequence, holds no line break itself, and what stands right before it,
/// if anything, is a line break.
pub proof fn lemma_open_line<T>(s: Seq<T>, nl: T)
    ensures
        !has_break(open_line(s, nl), nl),
        open_line(s, nl).len() <= s.len(),
        open_line(s, nl) == s.skip(s.len() - open_line(s, nl).len()),
        open_line(s, nl).len() < s.len() ==> s[s.len() - open_line(s, nl).len() - 1] == nl,
        open_line(s, nl).len() == s.len() <==> !has_break(s, nl),
    decreases s.len(),
{
    lemma_first_break(s, nl);
    let i = first_break(s, nl);
    if 0 <= i < s.len() {
        let rest = s.skip(i + 1);
        lemma_open_line(rest, nl);
        let open = open_line(rest, nl);
        assert(rest.skip(rest.len() - open.len()) =~= s.skip(s.len() - open.len()));
        if open.len() < rest.len() {
            assert(rest[rest.len() - open.len() - 1] == s[s.len() - open.len() - 1]);
        }
    } else {
        assert(s.skip(0) =~= s);
    }
}

/// A sequence without a line break is its own open line and has no
/// closed lines.
pub proof fn lemma_single_line<T>(s: Seq<T>, nl: T, cr: T)
    requires
        !has_break(s, nl),
    ensures
        closed_lines(s, nl, cr) == Seq::<Seq<T>>::empty(),
        open_line(s, nl) == s,
{
    lemma_first_break(s, nl);
}

/// A sequence that holds no line break and does not end in a carriage
/// return, with a line break after it, is one closed line and leaves
/// nothing open.
pub proof fn lemma_one_closed_line<T>(line: Seq<T>, nl: T, cr: T)
    requires
        !has_break(line, nl),
        line.len() > 0 ==> line.last() != cr,
    ensures
        closed_lines(line.push(nl), nl, cr) == seq![line],
        open_line(line.push(nl), nl) == Seq::<T>::empty(),
{
    let whole = line.push(nl);
    lemma_first_break(line, nl);
    assert forall|k: int| 0 <= k < line.len() implies whole[k] != nl by {
        assert(whole[k] == line[k]);
    }
    assert(whole[line.len() as int] == nl);
    lemma_first_break_is(whole, nl, line.len() as int);
    assert(whole.take(line.len() as int) =~= line);
    let rest = whole.skip(line.len() as int + 1);
    assert(rest =~= Seq::<T>::empty());
    assert(first_break(rest, nl) == 0);
    lemma_single_line(rest, nl, cr);
    assert(chomp(line, cr) == line);
    assert(closed_lines(whole, nl, cr) == seq![chomp(whole.take(line.len() as int), cr)]
        + closed_lines(rest, nl, cr));
    assert(open_line(whole, nl) == open_line(rest, nl));
    assert(seq![line] + Seq::<Seq<T>>::empty() =~= seq![line]);
}

/// No line holds a line break.
pub proof fn lemma_lines_hold_no_break<T>(s: Seq<T>, nl: T, cr: T)
    ensures
        forall|i: int|
            0 <= i < all_lines(s, nl, cr).len() ==> !has_break(
                #[trigger] all_lines(s, nl, cr)[i],
                nl,
            ),
        forall|i: int|
            0 <= i < closed_lines(s, nl, cr).len() ==> !has_break(
                #[trigger] closed_lines(s, nl, cr)[i],
                nl,
            ),
    decreases s.len(),
{
    lemma_first_break(s, nl);
    lemma_open_line(s, nl);
    let i = first_break(s, nl);
    if 0 <= i < s.len() {
        let rest = s.skip(i + 1);
        lemma_lines_hold_no_break(rest, nl, cr);
        let first = chomp(s.take(i), cr);
        assert forall|k: int| 0 <= k < first.len() implies first[k] != nl by {
            assert(first[k] == s[k]);
        }
        lemma_first_break_is(first, nl, first.len() as int);
        let closed = closed_lines(s, nl, cr);
        assert forall|k: int| 0 <= k < closed.len() implies !has_break(#[trigger] closed[k], nl) by {
            if k > 0 {
                assert(closed[k] == closed_lines(rest, nl, cr)[k - 1]);
            }
        }
    }
    let closed = closed_lines(s, nl, cr);
    let all = all_lines(s, nl, cr);
    assert forall|k: int| 0 <= k < all.len() implies !has_break(#[trigger] all[k], nl) by {
        if k < closed.len() {
            assert(all[k] == closed[k]);
        }
    }
}

/// Cutting lines is indifferent to how the input was handed over: the
/// closed lines of two chunks taken as one are those of the first chunk,
/// followed by those of the first chunk's open line joined to the second;
/// and the open line left at the end is the same.
pub proof fn lemma_lines_of_chunks<T>(a: Seq<T>, b: Seq<T>, nl: T, cr: T)
    ensures
        closed_lines(a + b, nl, cr) == closed_lines(a, nl, cr) + closed_lines(
            open_line(a, nl) + b,
            nl,
            cr,
        ),
        open_line(a + b, nl) == open_line(open_line(a, nl) + b, nl),
    decreases a.len(),
{
    lemma_first_break(a, nl);
    let i = first_break(a, nl);
    if 0 <= i < a.len() {
        let whole = a + b;
        assert forall|k: int| 0 <= k < i implies whole[k] != nl by {
            assert(whole[k] == a[k]);
        }
        assert(whole[i] == a[i]);
        lemma_first_break_is(whole, nl, i);
        assert(whole.take(i) =~= a.take(i));
        assert(whole.skip(i + 1) =~= a.skip(i + 1) + b);
        lemma_lines_of_chunks(a.skip(i + 1), b, nl, cr);
        assert(closed_lines(a + b, nl, cr) =~= closed_lines(a, nl, cr) + closed_lines(
            open_line(a, nl) + b,
            nl,
            cr,
        ));
    } else {
        assert(closed_lines(a, nl, cr) + closed_lines(a + b, nl, cr) =~= closed_lines(
            a + b,
            nl,
            cr,
        ));
    }
}

} // verus!
