//! Incremental search: every case-insensitive occurrence of a query in the
//! captured lines, and the match that follows the cursor.

use vstd::prelude::*;
use crate::style::StyledChar;
use crate::text::{cell_lower, chars_of, lowercase, occurs_at, to_cell_lower, unicode_lowercase, window_eq};

verus! {

/// A line of cells with every character lower-cased for matching.
pub open spec fn lowered_line(cells: Seq<StyledChar>) -> Seq<char> {
    cells.map_values(|c: StyledChar| cell_lower(c.ch))
}

/// All captured lines, lower-cased for matching.
pub open spec fn lowered_lines(lines: Seq<Vec<StyledChar>>) -> Seq<Seq<char>> {
    lines.map_values(|l: Vec<StyledChar>| lowered_line(l@))
}

/// Occurrences of `pat` in line `li` (text `hay`) that start before column
/// `upto`, in column order.
pub open spec fn line_matches(li: int, hay: Seq<char>, pat: Seq<char>, upto: int) -> Seq<(usize, usize)>
    decreases upto,
{
    if upto <= 0 {
        seq![]
    } else {
        let prev = line_matches(li, hay, pat, upto - 1);
        if occurs_at(hay, pat, upto - 1) {
            prev.push((li as usize, (upto - 1) as usize))
        } else {
            prev
        }
    }
}

/// Occurrences of `pat` in the first `upto` lines, in stream order.
pub open spec fn text_matches(lines: Seq<Seq<char>>, pat: Seq<char>, upto: int) -> Seq<(usize, usize)>
    decreases upto,
{
    if upto <= 0 {
        seq![]
    } else {
        text_matches(lines, pat, upto - 1) + line_matches(upto - 1, lines[upto - 1], pat, (lines[upto - 1].len() + 1) as int)
    }
}

/// `(line, col)` comes at or after the cursor in stream order.
pub open spec fn at_or_after(m: (usize, usize), cursor: (usize, usize)) -> bool {
    m.0 > cursor.0 || (m.0 == cursor.0 && m.1 >= cursor.1)
}

/// The ASCII-lower-cased characters of one line.
pub(crate) fn lower_cells(cells: &Vec<StyledChar>) -> (v: Vec<char>)
    ensures
        v@ == lowered_line(cells@),
{
    let mut v: Vec<char> = Vec::new();
    let n = cells.len();
    let mut i: usize = 0;
    while i < n
        invariant
            n == cells.len(),
            i <= n,
            v@ == lowered_line(cells@).take(i as int),
        decreases n - i,
    {
        v.push(to_cell_lower(cells[i].ch));
        i = i + 1;
        assert(v@ =~= lowered_line(cells@).take(i as int));
    }
    assert(v@ =~= lowered_line(cells@));
    v
}

/// Every occurrence of `pattern` in the ASCII-lower-cased lines, as
/// `(line, col)` match starts in stream order.
pub fn search_matches_for_pattern(lines: &[Vec<StyledChar>], pattern: &Vec<char>) -> (out: Vec<(usize, usize)>)
    ensures
        out@ == text_matches(lowered_lines(lines@), pattern@, lines@.len() as int),
{
    let ghost ll = lowered_lines(lines@);
    let qlen = pattern.len();
    let mut out: Vec<(usize, usize)> = Vec::new();
    let nlines = lines.len();
    let mut li: usize = 0;
    while li < nlines
        invariant
            nlines == lines@.len(),
            li <= nlines,
            qlen == pattern.len(),
            ll == lowered_lines(lines@),
            out@ == text_matches(ll, pattern@, li as int),
        decreases nlines - li,
    {
        let lc = lower_cells(&lines[li]);
        assert(lc@ == ll[li as int]);
        let ghost before = out@;
        if lc.len() >= qlen {
            let last = lc.len() - qlen;
            let mut col: usize = 0;
            loop
                invariant_except_break
                    col <= last,
                    out@ == before + line_matches(li as int, lc@, pattern@, col as int),
                invariant
                    qlen == pattern.len(),
                    last + qlen == lc.len(),
                ensures
                    out@ == before + line_matches(li as int, lc@, pattern@, last + 1),
                decreases last - col,
            {
                if window_eq(&lc, col, pattern) {
                    out.push((li, col));
                }
                if col == last {
                    break;
                }
                col = col + 1;
            }
            proof { lemma_line_matches_tail(li as int, lc@, pattern@, (last + 1) as int, (lc@.len() + 1) as int); }
        } else {
            proof { lemma_line_matches_tail(li as int, lc@, pattern@, 0, (lc@.len() + 1) as int); }
        }
        li = li + 1;
    }
    out
}

/// Past the last column where `pat` fits, no further occurrence is found.
pub proof fn lemma_line_matches_tail(li: int, hay: Seq<char>, pat: Seq<char>, from: int, to: int)
    requires
        0 <= from <= to,
        from + pat.len() > hay.len(),
    ensures
        line_matches(li, hay, pat, to) == line_matches(li, hay, pat, from),
    decreases to - from,
{
    if to > from {
        lemma_line_matches_tail(li, hay, pat, from, to - 1);
    }
}

/// All case-insensitive occurrences of `query` across all captured lines,
/// as `(line, col)` match starts in stream order; an empty query has none.
/// The query is lower-cased with `str::to_lowercase`; each line character
/// by `cell_lower` (ASCII-wise for ASCII, its one-character Unicode lower
/// case otherwise), so identical text matches.
pub fn compute_search_matches(lines: &[Vec<StyledChar>], query: &str) -> (out: Vec<(usize, usize)>)
    ensures
        query@.len() == 0 ==> out@.len() == 0,
        query@.len() > 0 ==> out@ == text_matches(
            lowered_lines(lines@),
            unicode_lowercase(query@),
            lines@.len() as int,
        ),
{
    if query.is_empty() {
        return Vec::new();
    }
    let lower = lowercase(query);
    let q = chars_of(lower.as_str());
    search_matches_for_pattern(lines, &q)
}

/// Index of the first match at or after the cursor, or 0 when there is
/// none.
pub fn search_current_from_cursor(matches: &[(usize, usize)], cursor: (usize, usize)) -> (r: usize)
    ensures
        forall|j: int| 0 <= j < r ==> !at_or_after(#[trigger] matches@[j], cursor),
        (r < matches@.len() && at_or_after(matches@[r as int], cursor))
            || (r == 0 && forall|j: int| 0 <= j < matches@.len() ==> !at_or_after(#[trigger] matches@[j], cursor)),
{
    let n = matches.len();
    let mut i: usize = 0;
    while i < n
        invariant
            n == matches@.len(),
            i <= n,
            forall|j: int| 0 <= j < i ==> !at_or_after(#[trigger] matches@[j], cursor),
        decreases n - i,
    {
        let (ml, mc) = matches[i];
        if ml > cursor.0 || (ml == cursor.0 && mc >= cursor.1) {
            return i;
        }
        i = i + 1;
    }
    0
}

/// `a` comes strictly before `b` in stream order.
pub open spec fn stream_less(a: (usize, usize), b: (usize, usize)) -> bool {
    a.0 < b.0 || (a.0 == b.0 && a.1 < b.1)
}

proof fn lemma_line_matches_facts(li: int, hay: Seq<char>, pat: Seq<char>, upto: int)
    requires
        0 <= li <= usize::MAX,
        upto <= usize::MAX + 1,
    ensures
        forall|k: int| 0 <= k < line_matches(li, hay, pat, upto).len() ==> {
            let m = #[trigger] line_matches(li, hay, pat, upto)[k];
            &&& m.0 == li
            &&& m.1 < upto
            &&& occurs_at(hay, pat, m.1 as int)
        },
        forall|col: int| 0 <= col < upto && occurs_at(hay, pat, col) ==> line_matches(li, hay, pat, upto).contains(
            (li as usize, col as usize),
        ),
        forall|i: int, j: int| 0 <= i < j < line_matches(li, hay, pat, upto).len() ==> line_matches(li, hay, pat, upto)[i].1
            < line_matches(li, hay, pat, upto)[j].1,
    decreases upto,
{
    if upto > 0 {
        lemma_line_matches_facts(li, hay, pat, upto - 1);
        let prev = line_matches(li, hay, pat, upto - 1);
        let cur = line_matches(li, hay, pat, upto);
        assert forall|col: int| 0 <= col < upto && occurs_at(hay, pat, col) implies cur.contains((li as usize, col as usize)) by {
            if col < upto - 1 {
                let k = choose|k: int| 0 <= k < prev.len() && prev[k] == (li as usize, col as usize);
                assert(cur[k] == prev[k]);
            } else {
                assert(cur[prev.len() as int] == (li as usize, col as usize));
            }
        }
    }
}

proof fn lemma_text_matches_facts(lines: Seq<Seq<char>>, pat: Seq<char>, upto: int)
    requires
        0 <= upto <= lines.len(),
        lines.len() <= usize::MAX,
        forall|l: int| 0 <= l < lines.len() ==> (#[trigger] lines[l]).len() < usize::MAX,
    ensures
        forall|k: int| 0 <= k < text_matches(lines, pat, upto).len() ==> {
            let m = #[trigger] text_matches(lines, pat, upto)[k];
            &&& m.0 < upto
            &&& occurs_at(lines[m.0 as int], pat, m.1 as int)
        },
        forall|li: int, col: int| 0 <= li < upto && occurs_at(lines[li], pat, col)
            ==> #[trigger] text_matches(lines, pat, upto).contains((li as usize, col as usize)),
        forall|i: int, j: int| 0 <= i < j < text_matches(lines, pat, upto).len() ==> stream_less(
            text_matches(lines, pat, upto)[i],
            text_matches(lines, pat, upto)[j],
        ),
    decreases upto,
{
    if upto > 0 {
        let li = upto - 1;
        lemma_text_matches_facts(lines, pat, li);
        let prev = text_matches(lines, pat, li);
        let lm = line_matches(li, lines[li], pat, (lines[li].len() + 1) as int);
        lemma_line_matches_facts(li, lines[li], pat, (lines[li].len() + 1) as int);
        let cur = text_matches(lines, pat, upto);
        assert(cur == prev + lm);
        assert forall|k: int| 0 <= k < cur.len() implies {
            let m = #[trigger] cur[k];
            &&& m.0 < upto
            &&& occurs_at(lines[m.0 as int], pat, m.1 as int)
        } by {
            if k >= prev.len() {
                assert(cur[k] == lm[k - prev.len()]);
            }
        }
        assert forall|l: int, col: int| 0 <= l < upto && occurs_at(lines[l], pat, col)
            implies #[trigger] cur.contains((l as usize, col as usize)) by {
            if l < li {
                assert(prev.contains((l as usize, col as usize)));
                let k = choose|k: int| 0 <= k < prev.len() && prev[k] == (l as usize, col as usize);
                assert(cur[k] == prev[k]);
            } else {
                assert(lm.contains((l as usize, col as usize)));
                let k = choose|k: int| 0 <= k < lm.len() && lm[k] == (l as usize, col as usize);
                assert(cur[prev.len() + k] == lm[k]);
            }
        }
        assert forall|i: int, j: int| 0 <= i < j < cur.len() implies stream_less(cur[i], cur[j]) by {
            if j < prev.len() {
                assert(cur[i] == prev[i] && cur[j] == prev[j]);
            } else if i >= prev.len() {
                assert(cur[i] == lm[i - prev.len()] && cur[j] == lm[j - prev.len()]);
            } else {
                assert(cur[i] == prev[i] && cur[j] == lm[j - prev.len()]);
            }
        }
    }
}

/// The search matches are exactly the occurrences of the pattern in the
/// lines, each listed once, in stream order (by line, then column).
pub proof fn law_search_matches_are_the_occurrences(lines: Seq<Seq<char>>, pat: Seq<char>)
    requires
        lines.len() <= usize::MAX,
        forall|l: int| 0 <= l < lines.len() ==> (#[trigger] lines[l]).len() < usize::MAX,
    ensures
        ({
            let ms = text_matches(lines, pat, lines.len() as int);
            &&& forall|k: int| 0 <= k < ms.len() ==> {
                let m = #[trigger] ms[k];
                &&& m.0 < lines.len()
                &&& occurs_at(lines[m.0 as int], pat, m.1 as int)
            }
            &&& forall|li: int, col: int| 0 <= li < lines.len() && occurs_at(lines[li], pat, col)
                ==> #[trigger] ms.contains((li as usize, col as usize))
            &&& forall|i: int, j: int| 0 <= i < j < ms.len() ==> stream_less(ms[i], ms[j])
        }),
{
    lemma_text_matches_facts(lines, pat, lines.len() as int);
}

} // verus!
