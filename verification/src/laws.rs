//! Properties of the trimming rule that hold across functions: lines
//! without the marker pass through, the line structure survives a round
//! through joining, and leading whitespace before a marker never matters.

use vstd::prelude::*;
use crate::chars::is_whitespace_char;
use crate::lines::{
    break_free, join_lines, lemma_lines_of_join, lemma_raw_lines_nonempty,
    lemma_spec_lines_break_free, spec_lines,
};
use crate::trim::{
    has_marker, marker_at, spec_lstrip_lines, spec_trim_line, starts_with, strip_leading_ws,
    trimmed_lines, ws_prefix_len,
};

verus! {

/// The whitespace prefix never reaches past the end of the line.
pub proof fn lemma_ws_prefix_len_le(l: Seq<char>)
    ensures
        ws_prefix_len(l) <= l.len(),
    decreases l.len(),
{
    if l.len() > 0 && is_whitespace_char(l[0]) {
        lemma_ws_prefix_len_le(l.drop_first());
    }
}

/// A line that begins with the marker contains it.
proof fn lemma_starts_with_implies_has_marker(l: Seq<char>, m: Seq<char>)
    requires
        starts_with(l, m),
    ensures
        has_marker(l, m),
{
    assert(l.subrange(0, m.len() as int) =~= l.take(m.len() as int));
    assert(marker_at(l, m, 0));
}

/// A line without the marker comes through the trim byte-identical. The
/// one pass that still runs on such a line is the whitespace pass the flag
/// turns on, so with the flag set the line must not begin with whitespace.
pub proof fn lemma_no_marker_line_unchanged(l: Seq<char>, m: Seq<char>, strip_ws: bool)
    requires
        !has_marker(l, m),
        strip_ws ==> l.len() == 0 || !is_whitespace_char(l[0]),
    ensures
        spec_trim_line(l, m, strip_ws) == l,
{
    if starts_with(l, m) {
        lemma_starts_with_implies_has_marker(l, m);
    }
    if strip_ws {
        assert(ws_prefix_len(l) == 0);
        assert(strip_leading_ws(l) =~= l);
    }
}

/// Whatever the trim removes, it removes from the front: the result is a
/// suffix of the line, so a line free of terminators stays free of them.
pub proof fn lemma_trim_line_break_free(l: Seq<char>, m: Seq<char>, strip_ws: bool)
    requires
        break_free(l),
    ensures
        break_free(spec_trim_line(l, m, strip_ws)),
{
    lemma_ws_prefix_len_le(l);
    let a = if has_marker(l, m) {
        strip_leading_ws(l)
    } else {
        l
    };
    assert(break_free(a));
    let b = if starts_with(a, m) {
        a.skip(m.len() as int)
    } else {
        a
    };
    assert(break_free(b));
    lemma_ws_prefix_len_le(b);
    assert(break_free(strip_leading_ws(b)));
}

/// The text always splits into at least one line.
pub proof fn lemma_spec_lines_nonempty(t: Seq<char>)
    ensures
        spec_lines(t).len() >= 1,
{
    lemma_raw_lines_nonempty(t);
}

/// Line-count preservation: splitting the trimmed text gives back exactly
/// the trimmed lines, one per input line. Joining swallows one trailing
/// empty line, so when the input has several lines its last one must not
/// trim away to nothing.
pub proof fn lemma_line_count_preserved(m: Seq<char>, t: Seq<char>, strip_ws: bool)
    requires
        spec_lines(t).len() > 1 ==> spec_trim_line(spec_lines(t).last(), m, strip_ws).len()
            > 0,
    ensures
        spec_lines(spec_lstrip_lines(m, t, strip_ws)) == trimmed_lines(m, t, strip_ws),
        spec_lines(spec_lstrip_lines(m, t, strip_ws)).len() == spec_lines(t).len(),
{
    let ls = trimmed_lines(m, t, strip_ws);
    lemma_spec_lines_nonempty(t);
    lemma_spec_lines_break_free(t);
    assert forall|i: int| 0 <= i < ls.len() implies #[trigger] break_free(ls[i]) by {
        assert(break_free(spec_lines(t)[i]));
        lemma_trim_line_break_free(spec_lines(t)[i], m, strip_ws);
    }
    assert(ls.len() > 1 ==> ls.last().len() > 0);
    lemma_lines_of_join(ls);
    assert(spec_lines(join_lines(ls)) =~~= ls);
}

/// A marker seen in `l` is seen in `x + l`, further along.
proof fn lemma_has_marker_prepend(x: Seq<char>, l: Seq<char>, m: Seq<char>)
    requires
        has_marker(l, m),
    ensures
        has_marker(x + l, m),
{
    let i = choose|i: int| marker_at(l, m, i);
    assert((x + l).subrange(x.len() + i, x.len() + i + m.len() as int) =~= l.subrange(
        i,
        i + m.len() as int,
    ));
    assert(marker_at(x + l, m, x.len() + i));
}

/// One whitespace character in front of a line that holds the marker
/// changes nothing about the trimmed result.
pub proof fn lemma_whitespace_char_tolerated(
    l: Seq<char>,
    m: Seq<char>,
    c: char,
    strip_ws: bool,
)
    requires
        has_marker(l, m),
        is_whitespace_char(c),
    ensures
        spec_trim_line(seq![c] + l, m, strip_ws) == spec_trim_line(l, m, strip_ws),
{
    let l2 = seq![c] + l;
    lemma_has_marker_prepend(seq![c], l, m);
    assert(l2.drop_first() =~= l);
    assert(ws_prefix_len(l2) == 1 + ws_prefix_len(l));
    lemma_ws_prefix_len_le(l);
    assert(strip_leading_ws(l2) =~= strip_leading_ws(l));
}

/// Whitespace-prefix tolerance: any run of whitespace in front of a line
/// that holds the marker is stripped whatever the flag says, so the
/// trimmed result does not depend on it.
pub proof fn lemma_whitespace_prefix_tolerated(
    p: Seq<char>,
    l: Seq<char>,
    m: Seq<char>,
    strip_ws: bool,
)
    requires
        has_marker(l, m),
        forall|j: int| 0 <= j < p.len() ==> is_whitespace_char(p[j]),
    ensures
        spec_trim_line(p + l, m, strip_ws) == spec_trim_line(l, m, strip_ws),
    decreases p.len(),
{
    if p.len() == 0 {
        assert(p + l =~= l);
    } else {
        lemma_whitespace_prefix_tolerated(p.drop_first(), l, m, strip_ws);
        lemma_has_marker_prepend(p.drop_first(), l, m);
        lemma_whitespace_char_tolerated(p.drop_first() + l, m, p[0], strip_ws);
        assert(p + l =~= seq![p[0]] + (p.drop_first() + l));
    }
}

} // verus!
