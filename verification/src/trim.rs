//! The per-line trimming rule and the whole-text entry point.
//!
//! A line is eligible when it contains the marker anywhere, not only at its
//! start. An eligible line first loses all its leading whitespace; the
//! marker is then removed when it stands at the very start of what remains,
//! and exactly one occurrence of it. A final pass, taken on every line when
//! the flag asks for it, removes whatever leading whitespace is still left.

use vstd::prelude::*;
use crate::chars::{is_whitespace, is_whitespace_char, str_to_chars};
use crate::lines::{join_lines, join_to_string, line_views, spec_lines, split_lines};

verus! {

/// How many whitespace characters stand at the front of `l`.
pub open spec fn ws_prefix_len(l: Seq<char>) -> nat
    decreases l.len(),
{
    if l.len() > 0 && is_whitespace_char(l[0]) {
        1 + ws_prefix_len(l.drop_first())
    } else {
        0
    }
}

/// `l` without its leading whitespace.
pub open spec fn strip_leading_ws(l: Seq<char>) -> Seq<char> {
    l.skip(ws_prefix_len(l) as int)
}

/// The marker `m` occurs in `l` at position `i`.
pub open spec fn marker_at(l: Seq<char>, m: Seq<char>, i: int) -> bool {
    0 <= i && i + m.len() <= l.len() && l.subrange(i, i + m.len() as int) == m
}

/// The marker `m` occurs somewhere in `l`.
pub open spec fn has_marker(l: Seq<char>, m: Seq<char>) -> bool {
    exists|i: int| marker_at(l, m, i)
}

/// `l` begins with `m`.
pub open spec fn starts_with(l: Seq<char>, m: Seq<char>) -> bool {
    m.len() <= l.len() && l.take(m.len() as int) == m
}

/// One line after trimming: leading whitespace goes when the line holds the
/// marker anywhere, one front-anchored marker goes, and the flag removes
/// the whitespace that remains in front.
pub open spec fn spec_trim_line(l: Seq<char>, m: Seq<char>, strip_ws: bool) -> Seq<char> {
    let a = if has_marker(l, m) {
        strip_leading_ws(l)
    } else {
        l
    };
    let b = if starts_with(a, m) {
        a.skip(m.len() as int)
    } else {
        a
    };
    if strip_ws {
        strip_leading_ws(b)
    } else {
        b
    }
}

/// Every line of the text after trimming, in order.
pub open spec fn trimmed_lines(m: Seq<char>, t: Seq<char>, strip_ws: bool) -> Seq<Seq<char>> {
    spec_lines(t).map_values(|l: Seq<char>| spec_trim_line(l, m, strip_ws))
}

/// The whole text after trimming: each line trimmed, the lines joined with
/// a single `\n`.
pub open spec fn spec_lstrip_lines(m: Seq<char>, t: Seq<char>, strip_ws: bool) -> Seq<char> {
    join_lines(trimmed_lines(m, t, strip_ws))
}

/// The whitespace prefix ends at the first index that is out of range or
/// holds a non-whitespace character.
proof fn lemma_ws_prefix_len_from_index(l: Seq<char>, i: int)
    requires
        0 <= i <= l.len(),
        forall|j: int| 0 <= j < i ==> is_whitespace_char(l[j]),
        i == l.len() || !is_whitespace_char(l[i]),
    ensures
        ws_prefix_len(l) == i,
    decreases l.len(),
{
    if i == 0 {
    } else {
        assert(is_whitespace_char(l[0]));
        lemma_ws_prefix_len_from_index(l.drop_first(), i - 1);
    }
}

/// Find the end of the whitespace run that starts at `from`.
fn ws_end(l: &Vec<char>, from: usize) -> (r: usize)
    requires
        from <= l@.len(),
    ensures
        from <= r <= l@.len(),
        r - from == ws_prefix_len(l@.skip(from as int)),
        l@.skip(r as int) == strip_leading_ws(l@.skip(from as int)),
{
    let mut i = from;
    while i < l.len() && is_whitespace(l[i])
        invariant
            from <= i <= l@.len(),
            forall|j: int| from <= j < i ==> is_whitespace_char(l@[j]),
        decreases l@.len() - i,
    {
        i += 1;
    }
    proof {
        let s = l@.skip(from as int);
        assert(forall|j: int| 0 <= j < i - from ==> is_whitespace_char(s[j]));
        lemma_ws_prefix_len_from_index(s, i - from);
        assert(s.skip((i - from) as int) =~= l@.skip(i as int));
    }
    i
}

/// Does `m` stand in `l` at position `i`?
fn marker_matches_at(l: &Vec<char>, m: &Vec<char>, i: usize) -> (b: bool)
    requires
        i + m@.len() <= l@.len(),
    ensures
        b == marker_at(l@, m@, i as int),
{
    let ln = l.len();
    let mut j: usize = 0;
    while j < m.len()
        invariant
            j <= m@.len(),
            i + m@.len() <= l@.len(),
            ln == l@.len(),
            forall|k: int| 0 <= k < j ==> l@[i + k] == m@[k],
        decreases m@.len() - j,
    {
        if l[i + j] != m[j] {
            proof {
                assert(l@.subrange(i as int, i + m@.len() as int)[j as int] != m@[j as int]);
            }
            return false;
        }
        j += 1;
    }
    proof {
        assert(l@.subrange(i as int, i + m@.len() as int) =~= m@);
    }
    true
}

/// Does `m` occur anywhere in `l`?
pub fn contains_marker(l: &Vec<char>, m: &Vec<char>) -> (b: bool)
    ensures
        b == has_marker(l@, m@),
{
    if m.len() > l.len() {
        proof {
            assert(forall|i: int| !marker_at(l@, m@, i));
        }
        return false;
    }
    let last = l.len() - m.len();
    let mut i: usize = 0;
    loop
        invariant
            last == l@.len() - m@.len(),
            m@.len() <= l@.len(),
            i <= last,
            forall|k: int| 0 <= k < i ==> !marker_at(l@, m@, k),
        decreases last - i,
    {
        if marker_matches_at(l, m, i) {
            proof {
                assert(marker_at(l@, m@, i as int));
            }
            return true;
        }
        if i == last {
            proof {
                assert(forall|k: int| marker_at(l@, m@, k) ==> 0 <= k <= last);
            }
            return false;
        }
        i += 1;
    }
}

/// Trim one line.
pub fn trim_line(l: &Vec<char>, m: &Vec<char>, strip_ws: bool) -> (r: Vec<char>)
    ensures
        r@ == spec_trim_line(l@, m@, strip_ws),
{
    let mut start: usize = 0;
    let ghost a = if has_marker(l@, m@) {
        strip_leading_ws(l@)
    } else {
        l@
    };
    if contains_marker(l, m) {
        start = ws_end(l, 0);
        proof {
            assert(l@.skip(0) =~= l@);
            assert(l@.skip(start as int) == a);
        }
    } else {
        proof {
            assert(l@.skip(0) =~= l@);
        }
    }
    assert(l@.skip(start as int) == a);
    let ghost b = if starts_with(a, m@) {
        a.skip(m@.len() as int)
    } else {
        a
    };
    if m.len() <= l.len() - start && marker_matches_at(l, m, start) {
        proof {
            assert(a.take(m@.len() as int) =~= l@.subrange(
                start as int,
                start + m@.len() as int,
            ));
            assert(starts_with(a, m@));
            assert(a.skip(m@.len() as int) =~= l@.skip(start + m@.len() as int));
        }
        start = start + m.len();
    } else {
        proof {
            if starts_with(a, m@) {
                assert(l@.subrange(start as int, start + m@.len() as int) =~= a.take(
                    m@.len() as int,
                ));
                assert(marker_at(l@, m@, start as int));
            }
        }
    }
    assert(l@.skip(start as int) == b);
    if strip_ws {
        start = ws_end(l, start);
    }
    assert(l@.skip(start as int) == spec_trim_line(l@, m@, strip_ws));
    let mut r: Vec<char> = Vec::new();
    let mut i = start;
    while i < l.len()
        invariant
            start <= i <= l@.len(),
            r@ == l@.subrange(start as int, i as int),
        decreases l@.len() - i,
    {
        r.push(l[i]);
        proof {
            assert(r@ =~= l@.subrange(start as int, i + 1));
        }
        i += 1;
    }
    proof {
        assert(r@ =~= l@.skip(start as int));
    }
    r
}

/// Trim every line of `text` and join the results with `\n`.
///
/// The marker must not be empty: which lines an empty marker would select
/// is left open, so such a call is rejected here and must be fenced off by
/// the caller.
pub fn lstrip_lines(leading_chars: &String, text: &String, lstrip_whitespace: bool) -> (r:
    String)
    requires
        leading_chars@.len() > 0,
    ensures
        r@ == spec_lstrip_lines(leading_chars@, text@, lstrip_whitespace),
{
    let m = str_to_chars(leading_chars.as_str());
    let t = str_to_chars(text.as_str());
    let lines = split_lines(&t);
    let ghost f = |l: Seq<char>| spec_trim_line(l, m@, lstrip_whitespace);
    let mut out: Vec<Vec<char>> = Vec::new();
    let mut i: usize = 0;
    proof {
        assert(line_views(out@) =~= line_views(lines@).take(0).map_values(f));
    }
    while i < lines.len()
        invariant
            i <= lines@.len(),
            m@ == leading_chars@,
            line_views(lines@) == spec_lines(text@),
            f == (|l: Seq<char>| spec_trim_line(l, m@, lstrip_whitespace)),
            line_views(out@) == line_views(lines@).take(i as int).map_values(f),
        decreases lines@.len() - i,
    {
        let trimmed = trim_line(&lines[i], &m, lstrip_whitespace);
        let ghost out0 = out@;
        let ghost lv = line_views(lines@);
        out.push(trimmed);
        proof {
            assert(line_views(out@) =~= line_views(out0).push(trimmed@));
            assert(lv[i as int] == lines@[i as int]@);
            assert(trimmed@ == f(lv[i as int]));
            assert(lv.take(i + 1) =~= lv.take(i as int).push(lv[i as int]));
            assert(lv.take(i + 1).map_values(f) =~= lv.take(i as int).map_values(f).push(
                f(lv[i as int]),
            ));
            assert(line_views(out@) =~= lv.take(i + 1).map_values(f));
        }
        i += 1;
    }
    proof {
        assert(line_views(lines@).take(i as int) =~= line_views(lines@));
        assert(line_views(out@) =~= trimmed_lines(leading_chars@, text@, lstrip_whitespace));
    }
    join_to_string(&out)
}

} // verus!
