//! Splitting a text into lines and joining lines back together.
//!
//! A text splits on `\r\n`, `\n` and bare `\r`; the terminators themselves
//! are discarded. The final segment is a line even without a trailing
//! terminator, and the empty text splits into a single empty line; a
//! terminator at the very end does not open a further empty line. Joining
//! always uses a single `\n` between lines, whatever terminators the input
//! had.

use vstd::prelude::*;
use crate::chars::{chars_to_string, push_char};

verus! {

/// A character that ends a line.
pub open spec fn is_line_break(c: char) -> bool {
    c == '\n' || c == '\r'
}

/// How many characters the terminator at the front of `t` spans:
/// two for `\r\n`, one otherwise.
pub open spec fn break_width(t: Seq<char>) -> int {
    if t.len() >= 2 && t[0] == '\r' && t[1] == '\n' {
        2
    } else {
        1
    }
}

/// The segments of `t` between line terminators, the final segment
/// included even when it is empty.
pub open spec fn raw_lines(t: Seq<char>) -> Seq<Seq<char>>
    decreases t.len(),
{
    if t.len() == 0 {
        seq![Seq::<char>::empty()]
    } else if is_line_break(t[0]) {
        seq![Seq::<char>::empty()] + raw_lines(t.skip(break_width(t)))
    } else {
        let rest = raw_lines(t.skip(1));
        seq![seq![t[0]] + rest[0]] + rest.skip(1)
    }
}

/// The lines of `t`: its segments, except that a terminator at the very
/// end closes the last line instead of opening an empty one.
pub open spec fn spec_lines(t: Seq<char>) -> Seq<Seq<char>> {
    let raw = raw_lines(t);
    if raw.len() > 1 && raw.last().len() == 0 {
        raw.drop_last()
    } else {
        raw
    }
}

/// The lines joined with a single `\n` between consecutive lines.
pub open spec fn join_lines(ls: Seq<Seq<char>>) -> Seq<char>
    decreases ls.len(),
{
    if ls.len() == 0 {
        Seq::<char>::empty()
    } else if ls.len() == 1 {
        ls[0]
    } else {
        ls[0] + seq!['\n'] + join_lines(ls.drop_first())
    }
}

/// No character of `l` is a line terminator.
pub open spec fn break_free(l: Seq<char>) -> bool {
    forall|j: int| 0 <= j < l.len() ==> !is_line_break(l[j])
}

/// The views of a vector of character vectors.
pub open spec fn line_views(ls: Seq<Vec<char>>) -> Seq<Seq<char>> {
    ls.map_values(|v: Vec<char>| v@)
}

/// Splitting always yields at least one line.
pub proof fn lemma_raw_lines_nonempty(t: Seq<char>)
    ensures
        raw_lines(t).len() >= 1,
    decreases t.len(),
{
    if t.len() != 0 && is_line_break(t[0]) {
        lemma_raw_lines_nonempty(t.skip(break_width(t)));
    } else if t.len() != 0 {
        lemma_raw_lines_nonempty(t.skip(1));
    }
}

/// Every character of every segment comes from between terminators, so no
/// segment holds a terminator.
pub proof fn lemma_raw_lines_break_free(t: Seq<char>)
    ensures
        forall|i: int|
            0 <= i < raw_lines(t).len() ==> #[trigger] break_free(raw_lines(t)[i]),
    decreases t.len(),
{
    if t.len() == 0 {
        assert(break_free(raw_lines(t)[0]));
    } else if is_line_break(t[0]) {
        lemma_raw_lines_break_free(t.skip(break_width(t)));
        assert(break_free(raw_lines(t)[0]));
        assert forall|i: int| 1 <= i < raw_lines(t).len() implies #[trigger] break_free(
            raw_lines(t)[i],
        ) by {
            assert(raw_lines(t)[i] == raw_lines(t.skip(break_width(t)))[i - 1]);
        }
    } else {
        lemma_raw_lines_break_free(t.skip(1));
        lemma_raw_lines_nonempty(t.skip(1));
        let rest = raw_lines(t.skip(1));
        assert(break_free(rest[0]));
        assert(break_free(raw_lines(t)[0]));
        assert forall|i: int| 1 <= i < raw_lines(t).len() implies #[trigger] break_free(
            raw_lines(t)[i],
        ) by {
            assert(raw_lines(t)[i] == rest.skip(1)[i - 1]);
            assert(rest.skip(1)[i - 1] == rest[i]);
        }
    }
}

/// A line of the split text holds no terminator.
pub proof fn lemma_spec_lines_break_free(t: Seq<char>)
    ensures
        forall|i: int|
            0 <= i < spec_lines(t).len() ==> #[trigger] break_free(spec_lines(t)[i]),
{
    lemma_raw_lines_break_free(t);
    assert forall|i: int| 0 <= i < spec_lines(t).len() implies #[trigger] break_free(
        spec_lines(t)[i],
    ) by {
        assert(spec_lines(t)[i] == raw_lines(t)[i]);
    }
}

/// Appending one more line to a non-empty sequence appends a separator and
/// that line to the joined text.
pub proof fn lemma_join_lines_push(ls: Seq<Seq<char>>, x: Seq<char>)
    requires
        ls.len() >= 1,
    ensures
        join_lines(ls.push(x)) == join_lines(ls) + seq!['\n'] + x,
    decreases ls.len(),
{
    if ls.len() == 1 {
        assert(ls.push(x).drop_first() =~= seq![x]);
        assert(join_lines(seq![x]) == x);
        assert(join_lines(ls.push(x)) == ls.push(x)[0] + seq!['\n'] + join_lines(
            ls.push(x).drop_first(),
        ));
        assert(ls.push(x)[0] == ls[0]);
        assert(join_lines(ls) == ls[0]);
    } else {
        lemma_join_lines_push(ls.drop_first(), x);
        assert(ls.push(x).drop_first() =~= ls.drop_first().push(x));
        assert(join_lines(ls) + seq!['\n'] + x =~= ls[0] + seq!['\n'] + (join_lines(
            ls.drop_first(),
        ) + seq!['\n'] + x));
    }
}

/// Splitting a terminator-free text gives back that text as its one line.
pub proof fn lemma_raw_lines_single(l: Seq<char>)
    requires
        break_free(l),
    ensures
        raw_lines(l) =~~= seq![l],
    decreases l.len(),
{
    if l.len() != 0 {
        assert(!is_line_break(l[0]));
        lemma_raw_lines_single(l.skip(1));
        assert(seq![l[0]] + l.skip(1) =~= l);
    }
}

/// Splitting `line \n rest` yields `line` and then the split of `rest`,
/// provided `line` holds no terminator.
pub proof fn lemma_raw_lines_prepend(l: Seq<char>, s: Seq<char>)
    requires
        break_free(l),
    ensures
        raw_lines(l + seq!['\n'] + s) =~~= seq![l] + raw_lines(s),
    decreases l.len(),
{
    let t = l + seq!['\n'] + s;
    lemma_raw_lines_nonempty(s);
    if l.len() == 0 {
        assert(t[0] == '\n');
        assert(t.skip(break_width(t)) =~= s);
    } else {
        assert(!is_line_break(t[0]));
        lemma_raw_lines_prepend(l.skip(1), s);
        assert(t.skip(1) =~= l.skip(1) + seq!['\n'] + s);
        let rest = raw_lines(t.skip(1));
        assert(rest =~~= seq![l.skip(1)] + raw_lines(s));
        assert(rest[0] == l.skip(1));
        assert(seq![t[0]] + rest[0] =~= l);
        assert(rest.skip(1) =~~= raw_lines(s));
    }
}

/// Joining and re-splitting gives the segments back, provided none holds a
/// terminator.
pub proof fn lemma_raw_lines_of_join(ls: Seq<Seq<char>>)
    requires
        ls.len() >= 1,
        forall|i: int| 0 <= i < ls.len() ==> #[trigger] break_free(ls[i]),
    ensures
        raw_lines(join_lines(ls)) =~~= ls,
    decreases ls.len(),
{
    if ls.len() == 1 {
        lemma_raw_lines_single(ls[0]);
    } else {
        lemma_raw_lines_of_join(ls.drop_first());
        lemma_raw_lines_prepend(ls[0], join_lines(ls.drop_first()));
        assert(seq![ls[0]] + ls.drop_first() =~= ls);
    }
}

/// Joining and re-splitting gives the lines back: none may hold a
/// terminator, and an empty last line survives only on its own.
pub proof fn lemma_lines_of_join(ls: Seq<Seq<char>>)
    requires
        ls.len() >= 1,
        forall|i: int| 0 <= i < ls.len() ==> #[trigger] break_free(ls[i]),
        ls.len() > 1 ==> ls.last().len() > 0,
    ensures
        spec_lines(join_lines(ls)) =~~= ls,
{
    lemma_raw_lines_of_join(ls);
}

/// Split a text into its lines.
pub fn split_lines(t: &Vec<char>) -> (r: Vec<Vec<char>>)
    ensures
        line_views(r@) == spec_lines(t@),
{
    let mut out: Vec<Vec<char>> = Vec::new();
    let mut cur: Vec<char> = Vec::new();
    let mut i: usize = 0;
    proof {
        lemma_raw_lines_nonempty(t@);
        assert(t@.skip(0) =~= t@);
        assert(line_views(out@) =~= Seq::<Seq<char>>::empty());
        assert(raw_lines(t@) =~= line_views(out@) + seq![cur@ + raw_lines(t@.skip(0))[0]]
            + raw_lines(t@.skip(0)).skip(1));
    }
    while i < t.len()
        invariant
            i <= t@.len(),
            raw_lines(t@.skip(i as int)).len() >= 1,
            raw_lines(t@) == line_views(out@) + seq![cur@ + raw_lines(t@.skip(i as int))[0]]
                + raw_lines(t@.skip(i as int)).skip(1),
        decreases t@.len() - i,
    {
        let ghost rest = t@.skip(i as int);
        let c = t[i];
        assert(rest[0] == c);
        if c == '\n' || c == '\r' {
            let w: usize = if c == '\r' && i + 1 < t.len() && t[i + 1] == '\n' {
                2
            } else {
                1
            };
            proof {
                assert(w == break_width(rest));
                assert(rest.skip(break_width(rest)) =~= t@.skip(i + w));
                lemma_raw_lines_nonempty(t@.skip(i + w));
            }
            let ghost rr = raw_lines(t@.skip(i + w));
            out.push(cur);
            cur = Vec::new();
            proof {
                assert(raw_lines(rest) == seq![Seq::<char>::empty()] + rr);
                assert(line_views(out@) =~= line_views(out@.drop_last()) + seq![
                    out@.last()@,
                ]);
                assert(rr =~= seq![rr[0]] + rr.skip(1));
                assert(raw_lines(t@) =~= line_views(out@) + seq![cur@ + raw_lines(
                    t@.skip(i + w),
                )[0]] + raw_lines(t@.skip(i + w)).skip(1));
            }
            i += w;
        } else {
            assert(!is_line_break(rest[0]));
            proof {
                assert(rest.skip(1) =~= t@.skip(i + 1));
                lemma_raw_lines_nonempty(t@.skip(i + 1));
            }
            let ghost rr = raw_lines(t@.skip(i + 1));
            let ghost cur0 = cur@;
            cur.push(c);
            proof {
                assert(cur@ =~= cur0 + seq![c]);
                assert(raw_lines(rest) == seq![seq![rest[0]] + rr[0]] + rr.skip(1));
                assert(raw_lines(rest)[0] == seq![c] + rr[0]);
                assert(raw_lines(rest).skip(1) =~= rr.skip(1));
                assert(cur0 + (seq![c] + rr[0]) =~= (cur0 + seq![c]) + rr[0]);
                assert(cur@ + rr[0] == (cur0 + seq![c]) + rr[0]);
                assert(raw_lines(t@) =~= line_views(out@) + seq![cur@ + rr[0]] + rr.skip(1));
            }
            i += 1;
        }
    }
    proof {
        assert(t@.skip(i as int) =~= Seq::<char>::empty());
        assert(raw_lines(t@) =~= line_views(out@) + seq![cur@]);
    }
    if out.len() == 0 || cur.len() > 0 {
        out.push(cur);
        proof {
            assert(line_views(out@) =~= line_views(out@.drop_last()) + seq![out@.last()@]);
            assert(line_views(out@) =~= raw_lines(t@));
            assert(spec_lines(t@) == raw_lines(t@));
        }
    } else {
        proof {
            assert(raw_lines(t@).len() > 1 && raw_lines(t@).last().len() == 0);
            assert(line_views(out@) =~= raw_lines(t@).drop_last());
        }
    }
    out
}

/// Join lines with a single `\n` between consecutive lines.
pub fn join_to_string(lines: &Vec<Vec<char>>) -> (r: String)
    ensures
        r@ == join_lines(line_views(lines@)),
{
    let ghost ls = line_views(lines@);
    let mut r = String::new();
    let mut i: usize = 0;
    proof {
        assert(ls.take(0) =~= Seq::<Seq<char>>::empty());
    }
    while i < lines.len()
        invariant
            i <= lines@.len(),
            ls == line_views(lines@),
            r@ == join_lines(ls.take(i as int)),
        decreases lines@.len() - i,
    {
        if i > 0 {
            push_char(&mut r, '\n');
        }
        let piece = chars_to_string(&lines[i]);
        r.append(piece.as_str());
        proof {
            assert(ls.take(i + 1) =~= ls.take(i as int).push(ls[i as int]));
            if i > 0 {
                lemma_join_lines_push(ls.take(i as int), ls[i as int]);
            } else {
                assert(join_lines(ls.take(1)) == ls[0]);
                assert(r@ =~= ls[0]);
            }
        }
        i += 1;
    }
    proof {
        assert(ls.take(i as int) =~= ls);
    }
    r
}

} // verus!
