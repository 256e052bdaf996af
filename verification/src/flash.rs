//! Word-jump and line-jump labels.
//!
//! A word jump matches the typed prefix case-insensitively against the
//! visible lines and gives each match a one-character label; a line jump
//! labels every visible line but the cursor's.

use vstd::prelude::*;
use crate::style::StyledChar;
use crate::search::{lowered_line, lower_cells};
use crate::text::{ascii_lower, ascii_upper, chars_of, lowercase, occurs_at, to_ascii_lower, to_ascii_upper, unicode_lowercase, window_eq};

verus! {

/// A labeled jump match: `(line, jump_col, label_col, label_char)`.
/// `jump_col` is where the cursor lands; `label_col` is where the label
/// glyph renders.
pub type JumpLabel = (usize, usize, usize, char);

/// An unlabeled match: `(line, jump_col, label_col)`.
pub type PartialMatch = (usize, usize, usize);

/// Number of spaces that end `p`.
pub open spec fn trailing_spaces(p: Seq<char>) -> nat
    decreases p.len(),
{
    if p.len() > 0 && p.last() == ' ' {
        1 + trailing_spaces(p.drop_last())
    } else {
        0
    }
}

/// A lower-cased line with `extra` virtual spaces appended, so that a
/// prefix that ends in spaces also matches at the end of the line. An empty
/// line gets no virtual spaces.
pub open spec fn extended_line(cells: Seq<StyledChar>, extra: nat) -> Seq<char> {
    let low = lowered_line(cells);
    if low.len() > 0 {
        low + Seq::new(extra, |i: int| ' ')
    } else {
        low
    }
}

/// Column of the label of a match at `col`: the last character of the
/// prefix, clamped to the last real character of the line.
pub open spec fn label_col_for(col: int, tlen: int, orig_n: int) -> int {
    let last_real = if orig_n == 0 { 0 } else { orig_n - 1 };
    if col + tlen - 1 <= last_real { col + tlen - 1 } else { last_real }
}

/// Matches of `pat` in the extended line `ext` of line `li` that start
/// before column `upto`, in column order.
pub open spec fn jump_line_matches(li: int, ext: Seq<char>, pat: Seq<char>, orig_n: int, upto: int) -> Seq<PartialMatch>
    decreases upto,
{
    if upto <= 0 {
        seq![]
    } else {
        let prev = jump_line_matches(li, ext, pat, orig_n, upto - 1);
        if occurs_at(ext, pat, upto - 1) {
            prev.push((li as usize, (upto - 1) as usize, label_col_for(upto - 1, pat.len() as int, orig_n) as usize))
        } else {
            prev
        }
    }
}

/// All matches of `pat` in line `li`.
pub open spec fn jump_matches_in_line(lines: Seq<Vec<StyledChar>>, li: int, pat: Seq<char>) -> Seq<PartialMatch> {
    let ext = extended_line(lines[li]@, trailing_spaces(pat));
    jump_line_matches(li, ext, pat, lines[li]@.len() as int, (ext.len() + 1) as int)
}

/// All matches of `pat` in the lines from `start` up to (not including)
/// `upto`, in stream order.
pub open spec fn raw_jump_matches(lines: Seq<Vec<StyledChar>>, start: int, upto: int, pat: Seq<char>) -> Seq<PartialMatch>
    decreases upto - start,
{
    if upto <= start {
        seq![]
    } else {
        raw_jump_matches(lines, start, upto - 1, pat) + jump_matches_in_line(lines, upto - 1, pat)
    }
}

/// End (exclusive) of the visible window of lines.
pub open spec fn visible_end(scroll_y: int, content_rows: int, n: int) -> int {
    if scroll_y + content_rows <= n { scroll_y + content_rows } else { n }
}


/// The character that follows the typed prefix at match `m`, lower-cased,
/// if the line continues past the prefix.
pub open spec fn continuation(lines: Seq<Vec<StyledChar>>, m: PartialMatch, tlen: int) -> Option<char> {
    let line = lines[m.0 as int]@;
    if m.1 + tlen < line.len() {
        Some(ascii_lower(line[m.1 + tlen].ch))
    } else {
        None
    }
}

/// The continuation of every match, index for index.
pub open spec fn match_continuations(lines: Seq<Vec<StyledChar>>, raw: Seq<PartialMatch>, tlen: int) -> Seq<Option<char>> {
    raw.map_values(|m: PartialMatch| continuation(lines, m, tlen))
}

/// How many matches continue with `c`.
pub open spec fn count_continuation(conts: Seq<Option<char>>, c: char) -> nat
    decreases conts.len(),
{
    if conts.len() == 0 {
        0
    } else {
        count_continuation(conts.drop_last(), c) + if conts.last() == Some(c) { 1nat } else { 0nat }
    }
}

/// `c` is one of the typed characters, in either ASCII case.
pub open spec fn typed_excludes(typed: Seq<char>, c: char) -> bool {
    exists|i: int| 0 <= i < typed.len() && (ascii_lower(#[trigger] typed[i]) == c || ascii_upper(typed[i]) == c)
}

/// `c` is the continuation of some match, in either ASCII case.
pub open spec fn continuation_excludes(conts: Seq<Option<char>>, c: char) -> bool {
    exists|j: int| 0 <= j < conts.len() && (#[trigger] conts[j] matches Some(d) && (ascii_lower(d) == c || ascii_upper(d) == c))
}

/// The label characters that may label a match freely: neither typed nor
/// a continuation, in either case, in their configured order.
pub open spec fn label_pool(label_chars: Seq<char>, typed: Seq<char>, conts: Seq<Option<char>>) -> Seq<char> {
    label_chars.filter(|c: char| !typed_excludes(typed, c) && !continuation_excludes(conts, c))
}

/// The label a match gets from its own continuation: when exactly one
/// match continues with `c`, that match is labeled `c` (or, when `c` is
/// not usable, its upper case), provided the label charset holds it and it
/// was not typed.
pub open spec fn pre_label(
    lines: Seq<Vec<StyledChar>>,
    conts: Seq<Option<char>>,
    tlen: int,
    typed: Seq<char>,
    label_chars: Seq<char>,
    m: PartialMatch,
) -> Option<char> {
    match continuation(lines, m, tlen) {
        Some(c) => if count_continuation(conts, c) == 1 {
            if label_chars.contains(c) && !typed_excludes(typed, c) {
                Some(c)
            } else if label_chars.contains(ascii_upper(c)) && !typed_excludes(typed, ascii_upper(c)) {
                Some(ascii_upper(c))
            } else {
                None
            }
        } else {
            None
        },
        None => None,
    }
}

/// Distance of a position from the cursor: lines weigh 10 000 columns.
pub open spec fn dist_key(line: usize, col: usize, cursor: (usize, usize)) -> int {
    let dl = if line >= cursor.0 { line - cursor.0 } else { cursor.0 - line };
    let dc = if col >= cursor.1 { col - cursor.1 } else { cursor.1 - col };
    dl * 10000 + dc
}

/// Index at which an element of key `k` is inserted into `s`: after every
/// leading element whose key is at most `k`.
pub open spec fn insertion_point<T>(s: Seq<(T, u128)>, k: int) -> int
    decreases s.len(),
{
    if s.len() == 0 {
        0
    } else if s[0].1 > k {
        0
    } else {
        1 + insertion_point(s.drop_first(), k)
    }
}

/// `s` sorted by key, stably: equal keys keep their order.
pub open spec fn sort_keyed<T>(s: Seq<(T, u128)>) -> Seq<(T, u128)>
    decreases s.len(),
{
    if s.len() == 0 {
        s
    } else {
        let sorted = sort_keyed(s.drop_last());
        let p = insertion_point(sorted, s.last().1 as int);
        sorted.take(p).push(s.last()) + sorted.skip(p)
    }
}

/// Matches sorted stably by distance from the cursor.
pub open spec fn sort_matches(s: Seq<PartialMatch>, cursor: (usize, usize)) -> Seq<PartialMatch> {
    sort_keyed(s.map_values(|m: PartialMatch| (m, dist_key(m.0, m.1, cursor) as u128))).map_values(
        |p: (PartialMatch, u128)| p.0,
    )
}

/// Labels sorted stably by distance of their match from the cursor.
pub open spec fn sort_labels(s: Seq<JumpLabel>, cursor: (usize, usize)) -> Seq<JumpLabel> {
    sort_keyed(s.map_values(|m: JumpLabel| (m, dist_key(m.0, m.1, cursor) as u128))).map_values(
        |p: (JumpLabel, u128)| p.0,
    )
}

/// The labels and partial matches for the lower-cased prefix `pat`.
///
/// With no match there is nothing. When the matches without a label of
/// their own outnumber the pool, every match is returned unlabeled.
/// Otherwise the pre-labeled matches keep their continuation, the others
/// take pool characters nearest first, and all labels come sorted by
/// distance from the cursor.
pub open spec fn jump_labels_spec(
    lines: Seq<Vec<StyledChar>>,
    scroll_y: usize,
    content_rows: usize,
    cursor: (usize, usize),
    pat: Seq<char>,
    typed: Seq<char>,
    label_chars: Seq<char>,
) -> (Seq<JumpLabel>, Seq<PartialMatch>) {
    let raw = raw_jump_matches(lines, scroll_y as int, visible_end(scroll_y as int, content_rows as int, lines.len() as int), pat);
    let tlen = pat.len() as int;
    let conts = match_continuations(lines, raw, tlen);
    let pool = label_pool(label_chars, typed, conts);
    let pre = raw.filter(|m: PartialMatch| pre_label(lines, conts, tlen, typed, label_chars, m) is Some);
    let to_label = raw.filter(|m: PartialMatch| pre_label(lines, conts, tlen, typed, label_chars, m) is None);
    if raw.len() == 0 {
        (seq![], seq![])
    } else if to_label.len() > pool.len() {
        (seq![], raw)
    } else {
        let pre_labeled = pre.map_values(|m: PartialMatch| (m.0, m.1, m.2, pre_label(lines, conts, tlen, typed, label_chars, m)->0));
        let sorted = sort_matches(to_label, cursor);
        let pooled = Seq::new(sorted.len(), |i: int| (sorted[i].0, sorted[i].1, sorted[i].2, pool[i]));
        (sort_labels(pre_labeled + pooled, cursor), seq![])
    }
}

/// Past the last column where `pat` fits, no further match is found.
proof fn lemma_jump_line_matches_tail(li: int, ext: Seq<char>, pat: Seq<char>, orig_n: int, from: int, to: int)
    requires
        0 <= from <= to,
        from + pat.len() > ext.len(),
    ensures
        jump_line_matches(li, ext, pat, orig_n, to) == jump_line_matches(li, ext, pat, orig_n, from),
    decreases to - from,
{
    if to > from {
        lemma_jump_line_matches_tail(li, ext, pat, orig_n, from, to - 1);
    }
}


/// Every match lies on a line in `[start, upto)`.
proof fn lemma_raw_lines(lines: Seq<Vec<StyledChar>>, start: int, upto: int, pat: Seq<char>)
    requires
        0 <= start,
        upto <= lines.len(),
        upto <= usize::MAX,
    ensures
        forall|j: int| 0 <= j < raw_jump_matches(lines, start, upto, pat).len() ==> {
            let m = #[trigger] raw_jump_matches(lines, start, upto, pat)[j];
            start <= m.0 < upto
        },
    decreases upto - start,
{
    if upto > start {
        lemma_raw_lines(lines, start, upto - 1, pat);
        let ext = extended_line(lines[upto - 1]@, trailing_spaces(pat));
        lemma_line_matches_on_line(upto - 1, ext, pat, lines[upto - 1]@.len() as int, (ext.len() + 1) as int);
        let a = raw_jump_matches(lines, start, upto - 1, pat);
        let b = jump_matches_in_line(lines, upto - 1, pat);
        let r = raw_jump_matches(lines, start, upto, pat);
        assert(r == a + b);
        assert forall|j: int| 0 <= j < r.len() implies start <= (#[trigger] r[j]).0 < upto by {
            if j < a.len() {
                assert(r[j] == a[j]);
            } else {
                assert(r[j] == b[j - a.len()]);
            }
        }
    }
}

proof fn lemma_line_matches_on_line(li: int, ext: Seq<char>, pat: Seq<char>, orig_n: int, upto: int)
    requires
        0 <= li,
        li <= usize::MAX,
    ensures
        forall|j: int| 0 <= j < jump_line_matches(li, ext, pat, orig_n, upto).len()
            ==> (#[trigger] jump_line_matches(li, ext, pat, orig_n, upto)[j]).0 == li,
    decreases upto,
{
    if upto > 0 {
        lemma_line_matches_on_line(li, ext, pat, orig_n, upto - 1);
        let prev = jump_line_matches(li, ext, pat, orig_n, upto - 1);
        let cur = jump_line_matches(li, ext, pat, orig_n, upto);
        assert forall|j: int| 0 <= j < cur.len() implies (#[trigger] cur[j]).0 == li by {
            if j < prev.len() {
                assert(cur[j] == prev[j]);
            }
        }
    }
}

/// The continuation of every match.
fn match_conts(lines: &[Vec<StyledChar>], raw: &Vec<PartialMatch>, tlen: usize) -> (conts: Vec<Option<char>>)
    requires
        forall|j: int| 0 <= j < raw@.len() ==> (#[trigger] raw@[j]).0 < lines@.len(),
    ensures
        conts@ == match_continuations(lines@, raw@, tlen as int),
{
    let mut conts: Vec<Option<char>> = Vec::new();
    let n = raw.len();
    let mut j: usize = 0;
    while j < n
        invariant
            n == raw@.len(),
            j <= n,
            forall|k: int| 0 <= k < raw@.len() ==> (#[trigger] raw@[k]).0 < lines@.len(),
            conts@ == match_continuations(lines@, raw@, tlen as int).take(j as int),
        decreases n - j,
    {
        let (li, col, _) = raw[j];
        let line = &lines[li];
        let c = if col < line.len() && tlen < line.len() - col {
            Some(to_ascii_lower(line[col + tlen].ch))
        } else {
            None
        };
        conts.push(c);
        j = j + 1;
        assert(conts@ =~= match_continuations(lines@, raw@, tlen as int).take(j as int));
    }
    assert(conts@ =~= match_continuations(lines@, raw@, tlen as int));
    conts
}

/// How many matches continue with `c`.
fn count_cont(conts: &Vec<Option<char>>, c: char) -> (r: usize)
    ensures
        r == count_continuation(conts@, c),
{
    let n = conts.len();
    let mut r: usize = 0;
    let mut j: usize = 0;
    while j < n
        invariant
            n == conts@.len(),
            j <= n,
            r <= j,
            r == count_continuation(conts@.take(j as int), c),
        decreases n - j,
    {
        assert(conts@.take(j + 1).drop_last() =~= conts@.take(j as int));
        if conts[j] == Some(c) {
            r = r + 1;
        }
        j = j + 1;
    }
    assert(conts@.take(n as int) =~= conts@);
    r
}

/// `c` is one of the typed characters, in either ASCII case.
fn typed_excl(typed: &Vec<char>, c: char) -> (r: bool)
    ensures
        r == typed_excludes(typed@, c),
{
    let n = typed.len();
    let mut i: usize = 0;
    while i < n
        invariant
            n == typed@.len(),
            i <= n,
            forall|k: int| 0 <= k < i ==> !(ascii_lower(#[trigger] typed@[k]) == c || ascii_upper(typed@[k]) == c),
        decreases n - i,
    {
        if to_ascii_lower(typed[i]) == c || to_ascii_upper(typed[i]) == c {
            return true;
        }
        i = i + 1;
    }
    false
}

/// `c` is the continuation of some match, in either ASCII case.
fn cont_excl(conts: &Vec<Option<char>>, c: char) -> (r: bool)
    ensures
        r == continuation_excludes(conts@, c),
{
    let n = conts.len();
    let mut j: usize = 0;
    while j < n
        invariant
            n == conts@.len(),
            j <= n,
            forall|k: int| 0 <= k < j ==> !(#[trigger] conts@[k] matches Some(d) && (ascii_lower(d) == c || ascii_upper(d) == c)),
        decreases n - j,
    {
        if let Some(d) = conts[j] {
            if to_ascii_lower(d) == c || to_ascii_upper(d) == c {
                return true;
            }
        }
        j = j + 1;
    }
    false
}

/// `c` occurs in `s`.
pub(crate) fn contains_char(s: &[char], c: char) -> (r: bool)
    ensures
        r == s@.contains(c),
{
    let n = s.len();
    let mut i: usize = 0;
    while i < n
        invariant
            n == s@.len(),
            i <= n,
            forall|k: int| 0 <= k < i ==> s@[k] != c,
        decreases n - i,
    {
        if s[i] == c {
            return true;
        }
        i = i + 1;
    }
    false
}

/// The free label pool.
fn build_pool(label_chars: &[char], typed: &Vec<char>, conts: &Vec<Option<char>>) -> (pool: Vec<char>)
    ensures
        pool@ == label_pool(label_chars@, typed@, conts@),
{
    let ghost pred = |c: char| !typed_excludes(typed@, c) && !continuation_excludes(conts@, c);
    let mut pool: Vec<char> = Vec::new();
    let n = label_chars.len();
    let mut i: usize = 0;
    while i < n
        invariant
            n == label_chars@.len(),
            i <= n,
            pred == (|c: char| !typed_excludes(typed@, c) && !continuation_excludes(conts@, c)),
            pool@ == label_chars@.take(i as int).filter(pred),
        decreases n - i,
    {
        let c = label_chars[i];
        proof {
            assert(label_chars@.take(i + 1).drop_last() =~= label_chars@.take(i as int));
            reveal(Seq::filter);
        }
        if !typed_excl(typed, c) && !cont_excl(conts, c) {
            pool.push(c);
        }
        i = i + 1;
    }
    assert(label_chars@.take(n as int) =~= label_chars@);
    pool
}

/// The label a match gets from its own continuation, if any.
fn pre_label_of(
    lines: &[Vec<StyledChar>],
    conts: &Vec<Option<char>>,
    tlen: usize,
    typed: &Vec<char>,
    label_chars: &[char],
    m: PartialMatch,
) -> (r: Option<char>)
    requires
        m.0 < lines@.len(),
    ensures
        r == pre_label(lines@, conts@, tlen as int, typed@, label_chars@, m),
{
    let (li, col, _) = m;
    let line = &lines[li];
    if col < line.len() && tlen < line.len() - col {
        let c = to_ascii_lower(line[col + tlen].ch);
        if count_cont(conts, c) == 1 {
            if contains_char(label_chars, c) && !typed_excl(typed, c) {
                Some(c)
            } else {
                let cu = to_ascii_upper(c);
                if contains_char(label_chars, cu) && !typed_excl(typed, cu) {
                    Some(cu)
                } else {
                    None
                }
            }
        } else {
            None
        }
    } else {
        None
    }
}

/// Index at which an element of key `k` is inserted into a sorted `s`.
fn find_insertion_point<T: Copy>(s: &Vec<(T, u128)>, k: u128) -> (p: usize)
    ensures
        p == insertion_point(s@, k as int),
        p <= s@.len(),
{
    let n = s.len();
    let mut j: usize = 0;
    assert(s@.skip(0) =~= s@);
    while j < n && s[j].1 <= k
        invariant
            n == s@.len(),
            j <= n,
            insertion_point(s@, k as int) == j + insertion_point(s@.skip(j as int), k as int),
        decreases n - j,
    {
        assert(s@.skip(j as int).drop_first() =~= s@.skip(j + 1));
        j = j + 1;
    }
    proof {
        if j < n {
            assert(s@.skip(j as int)[0] == s@[j as int]);
        }
    }
    j
}

/// `v` sorted stably by key.
fn sort_by_keys<T: Copy>(v: &Vec<(T, u128)>) -> (out: Vec<(T, u128)>)
    ensures
        out@ == sort_keyed(v@),
{
    let mut out: Vec<(T, u128)> = Vec::new();
    let n = v.len();
    let mut i: usize = 0;
    assert(v@.take(0) =~= Seq::<(T, u128)>::empty());
    while i < n
        invariant
            n == v@.len(),
            i <= n,
            out@ == sort_keyed(v@.take(i as int)),
        decreases n - i,
    {
        let x = v[i];
        let p = find_insertion_point(&out, x.1);
        let ghost old_out = out@;
        out.insert(p, x);
        proof {
            assert(v@.take(i + 1).drop_last() =~= v@.take(i as int));
            assert(v@.take(i + 1).last() == x);
            assert(out@ =~= old_out.take(p as int).push(x) + old_out.skip(p as int));
        }
        i = i + 1;
    }
    assert(v@.take(n as int) =~= v@);
    out
}

/// The extended, lower-cased characters of one line.
fn extended_cells(cells: &Vec<StyledChar>, extra: usize) -> (v: Vec<char>)
    ensures
        v@ == extended_line(cells@, extra as nat),
{
    let mut v = lower_cells(cells);
    if v.len() > 0 {
        let ghost low = v@;
        let mut k: usize = 0;
        while k < extra
            invariant
                k <= extra,
                v@ == low + Seq::new(k as nat, |i: int| ' '),
            decreases extra - k,
        {
            v.push(' ');
            k = k + 1;
            assert(v@ =~= low + Seq::new(k as nat, |i: int| ' '));
        }
    }
    v
}

/// Number of spaces that end `p`.
fn count_trailing_spaces(p: &Vec<char>) -> (r: usize)
    ensures
        r == trailing_spaces(p@),
{
    let mut k: usize = p.len();
    assert(p@.take(k as int) =~= p@);
    while k > 0 && p[k - 1] == ' '
        invariant
            k <= p.len(),
            trailing_spaces(p@) == (p.len() - k) + trailing_spaces(p@.take(k as int)),
        decreases k,
    {
        assert(p@.take(k as int).drop_last() =~= p@.take(k - 1));
        k = k - 1;
    }
    assert(p@.take(p.len() as int) =~= p@);
    p.len() - k
}

/// Matches of `pat` in the visible lines `[vis_start, vis_end)`.
fn raw_matches(lines: &[Vec<StyledChar>], vis_start: usize, vis_end: usize, pat: &Vec<char>) -> (out: Vec<PartialMatch>)
    requires
        pat@.len() > 0,
        vis_end <= lines@.len(),
    ensures
        out@ == raw_jump_matches(lines@, vis_start as int, vis_end as int, pat@),
{
    let tlen = pat.len();
    let trailing = count_trailing_spaces(pat);
    let mut out: Vec<PartialMatch> = Vec::new();
    let mut li: usize = vis_start;
    if vis_start >= vis_end {
        return out;
    }
    while li < vis_end
        invariant
            vis_start <= li <= vis_end,
            vis_end <= lines@.len(),
            tlen == pat@.len(),
            tlen > 0,
            trailing == trailing_spaces(pat@),
            out@ == raw_jump_matches(lines@, vis_start as int, li as int, pat@),
        decreases vis_end - li,
    {
        let ext = extended_cells(&lines[li], trailing);
        let orig_n = lines[li].len();
        let ghost before = out@;
        if tlen <= ext.len() {
            let last = ext.len() - tlen;
            let mut col: usize = 0;
            loop
                invariant_except_break
                    col <= last,
                    out@ == before + jump_line_matches(li as int, ext@, pat@, orig_n as int, col as int),
                invariant
                    tlen == pat@.len(),
                    tlen > 0,
                    last + tlen == ext.len(),
                    orig_n == lines@[li as int]@.len(),
                    ext@ == extended_line(lines@[li as int]@, trailing as nat),
                ensures
                    out@ == before + jump_line_matches(li as int, ext@, pat@, orig_n as int, last + 1),
                decreases last - col,
            {
                if window_eq(&ext, col, pat) {
                    proof {
                        assert(ext@.len() > 0);
                        assert(orig_n > 0);
                    }
                    let last_real = orig_n - 1;
                    let label_col = if col + tlen - 1 <= last_real { col + tlen - 1 } else { last_real };
                    out.push((li, col, label_col));
                }
                if col == last {
                    break;
                }
                col = col + 1;
            }
            proof { lemma_jump_line_matches_tail(li as int, ext@, pat@, orig_n as int, (last + 1) as int, (ext@.len() + 1) as int); }
        } else {
            proof { lemma_jump_line_matches_tail(li as int, ext@, pat@, orig_n as int, 0, (ext@.len() + 1) as int); }
        }
        li = li + 1;
    }
    out
}


proof fn lemma_insertion_point_bound<T>(s: Seq<(T, u128)>, k: int)
    ensures
        0 <= insertion_point(s, k) <= s.len(),
    decreases s.len(),
{
    if s.len() > 0 && s[0].1 <= k {
        lemma_insertion_point_bound(s.drop_first(), k);
    }
}

/// Sorting keeps the length.
pub proof fn lemma_sort_keyed_len<T>(s: Seq<(T, u128)>)
    ensures
        sort_keyed(s).len() == s.len(),
    decreases s.len(),
{
    if s.len() > 0 {
        lemma_sort_keyed_len(s.drop_last());
        lemma_insertion_point_bound(sort_keyed(s.drop_last()), s.last().1 as int);
    }
}

/// Distance of a position from the cursor, as computed.
fn dist_key_exec(line: usize, col: usize, cursor: (usize, usize)) -> (k: u128)
    ensures
        k as int == dist_key(line, col, cursor),
{
    let dl: usize = if line >= cursor.0 { line - cursor.0 } else { cursor.0 - line };
    let dc: usize = if col >= cursor.1 { col - cursor.1 } else { cursor.1 - col };
    (dl as u128) * 10000 + (dc as u128)
}

/// Word-jump labels for an already lower-cased, non-empty prefix `pat`;
/// `typed` is the prefix as typed.
pub fn jump_labels_for_pattern(
    lines: &[Vec<StyledChar>],
    scroll_y: usize,
    content_rows: usize,
    cursor: (usize, usize),
    pat: &Vec<char>,
    typed: &Vec<char>,
    label_chars: &[char],
) -> (r: (Vec<JumpLabel>, Vec<PartialMatch>))
    requires
        pat@.len() > 0,
    ensures
        (r.0@, r.1@) == jump_labels_spec(lines@, scroll_y, content_rows, cursor, pat@, typed@, label_chars@),
{
    let ghost spec_end = visible_end(scroll_y as int, content_rows as int, lines@.len() as int);
    let vis_end: usize = if scroll_y <= lines.len() && content_rows <= lines.len() - scroll_y {
        scroll_y + content_rows
    } else {
        lines.len()
    };
    assert(vis_end == spec_end);
    let raw = raw_matches(lines, scroll_y, vis_end, pat);
    if raw.len() == 0 {
        return (Vec::new(), Vec::new());
    }
    proof {
        lemma_raw_lines(lines@, scroll_y as int, vis_end as int, pat@);
    }
    let tlen = pat.len();
    let conts = match_conts(lines, &raw, tlen);
    let pool = build_pool(label_chars, typed, &conts);
    let ghost is_pre = |m: PartialMatch| pre_label(lines@, conts@, tlen as int, typed@, label_chars@, m) is Some;
    let ghost is_free = |m: PartialMatch| pre_label(lines@, conts@, tlen as int, typed@, label_chars@, m) is None;
    let ghost with_label = |m: PartialMatch| (m.0, m.1, m.2, pre_label(lines@, conts@, tlen as int, typed@, label_chars@, m)->0);
    let mut pre: Vec<JumpLabel> = Vec::new();
    let mut to_label: Vec<PartialMatch> = Vec::new();
    let n = raw.len();
    let mut i: usize = 0;
    while i < n
        invariant
            n == raw@.len(),
            i <= n,
            forall|j: int| 0 <= j < raw@.len() ==> (#[trigger] raw@[j]).0 < lines@.len(),
            is_pre == (|m: PartialMatch| pre_label(lines@, conts@, tlen as int, typed@, label_chars@, m) is Some),
            is_free == (|m: PartialMatch| pre_label(lines@, conts@, tlen as int, typed@, label_chars@, m) is None),
            with_label == (|m: PartialMatch| (m.0, m.1, m.2, pre_label(lines@, conts@, tlen as int, typed@, label_chars@, m)->0)),
            pre@ == raw@.take(i as int).filter(is_pre).map_values(with_label),
            to_label@ == raw@.take(i as int).filter(is_free),
        decreases n - i,
    {
        let m = raw[i];
        let pl = pre_label_of(lines, &conts, tlen, typed, label_chars, m);
        proof {
            assert(raw@.take(i + 1).drop_last() =~= raw@.take(i as int));
            reveal(Seq::filter);
        }
        match pl {
            Some(lc) => {
                pre.push((m.0, m.1, m.2, lc));
            },
            None => {
                to_label.push(m);
            },
        }
        proof {
            let f1 = raw@.take(i + 1).filter(is_pre);
            let f0 = raw@.take(i as int).filter(is_pre);
            if is_pre(m) {
                assert(f1 == f0.push(m));
                assert(f1.map_values(with_label) =~= f0.map_values(with_label).push(with_label(m)));
            } else {
                assert(f1 == f0);
            }
        }
        i = i + 1;
    }
    assert(raw@.take(n as int) =~= raw@);
    if to_label.len() > pool.len() {
        return (Vec::new(), raw);
    }
    // Nearest non-pre-labeled matches take the pool characters first.
    let ghost keyf = |m: PartialMatch| (m, dist_key(m.0, m.1, cursor) as u128);
    let mut keyed: Vec<(PartialMatch, u128)> = Vec::new();
    let nt = to_label.len();
    let mut k: usize = 0;
    while k < nt
        invariant
            nt == to_label@.len(),
            k <= nt,
            keyf == (|m: PartialMatch| (m, dist_key(m.0, m.1, cursor) as u128)),
            keyed@ == to_label@.take(k as int).map_values(keyf),
        decreases nt - k,
    {
        let m = to_label[k];
        let d = dist_key_exec(m.0, m.1, cursor);
        keyed.push((m, d));
        k = k + 1;
        assert(keyed@ =~= to_label@.take(k as int).map_values(keyf));
    }
    assert(to_label@.take(nt as int) =~= to_label@);
    let sorted = sort_by_keys(&keyed);
    proof {
        lemma_sort_keyed_len(keyed@);
    }
    let ghost sorted_matches = sort_matches(to_label@, cursor);
    assert(sorted_matches =~= sorted@.map_values(|p: (PartialMatch, u128)| p.0));
    let mut labels: Vec<JumpLabel> = pre;
    let ghost pre_part = labels@;
    let mut q: usize = 0;
    while q < nt
        invariant
            nt == sorted@.len(),
            nt <= pool@.len(),
            q <= nt,
            sorted_matches == sorted@.map_values(|p: (PartialMatch, u128)| p.0),
            labels@ == pre_part + Seq::new(q as nat, |j: int| (sorted_matches[j].0, sorted_matches[j].1, sorted_matches[j].2, pool@[j])),
        decreases nt - q,
    {
        let (m, _) = sorted[q];
        labels.push((m.0, m.1, m.2, pool[q]));
        q = q + 1;
        assert(labels@ =~= pre_part + Seq::new(q as nat, |j: int| (sorted_matches[j].0, sorted_matches[j].1, sorted_matches[j].2, pool@[j])));
    }
    // All labels come sorted by distance from the cursor.
    let ghost keyl = |m: JumpLabel| (m, dist_key(m.0, m.1, cursor) as u128);
    let mut keyed_labels: Vec<(JumpLabel, u128)> = Vec::new();
    let nl = labels.len();
    let mut t: usize = 0;
    while t < nl
        invariant
            nl == labels@.len(),
            t <= nl,
            keyl == (|m: JumpLabel| (m, dist_key(m.0, m.1, cursor) as u128)),
            keyed_labels@ == labels@.take(t as int).map_values(keyl),
        decreases nl - t,
    {
        let m = labels[t];
        let d = dist_key_exec(m.0, m.1, cursor);
        keyed_labels.push((m, d));
        t = t + 1;
        assert(keyed_labels@ =~= labels@.take(t as int).map_values(keyl));
    }
    assert(labels@.take(nl as int) =~= labels@);
    let sorted_labels = sort_by_keys(&keyed_labels);
    proof {
        lemma_sort_keyed_len(keyed_labels@);
    }
    let mut out: Vec<JumpLabel> = Vec::new();
    let ns = sorted_labels.len();
    let mut u: usize = 0;
    while u < ns
        invariant
            ns == sorted_labels@.len(),
            u <= ns,
            out@ == sorted_labels@.take(u as int).map_values(|p: (JumpLabel, u128)| p.0),
        decreases ns - u,
    {
        out.push(sorted_labels[u].0);
        u = u + 1;
        assert(out@ =~= sorted_labels@.take(u as int).map_values(|p: (JumpLabel, u128)| p.0));
    }
    assert(sorted_labels@.take(ns as int) =~= sorted_labels@);
    (out, Vec::new())
}

/// Word-jump labels for the typed prefix, over the visible lines
/// `[scroll_y, scroll_y + content_rows)`.
///
/// The prefix is lower-cased with `str::to_lowercase`; each line
/// character by `cell_lower` (ASCII-wise for ASCII, its one-character
/// Unicode lower case otherwise), so identical text matches. An empty
/// prefix yields nothing. See `jump_labels_spec` for the labeling rules.
pub fn compute_jump_labels(
    lines: &[Vec<StyledChar>],
    scroll_y: usize,
    content_rows: usize,
    cursor: (usize, usize),
    typed: &str,
    label_chars: &[char],
) -> (r: (Vec<JumpLabel>, Vec<PartialMatch>))
    ensures
        typed@.len() == 0 || unicode_lowercase(typed@).len() == 0 ==> r.0@.len() == 0 && r.1@.len() == 0,
        typed@.len() > 0 && unicode_lowercase(typed@).len() > 0 ==> (r.0@, r.1@) == jump_labels_spec(
            lines@,
            scroll_y,
            content_rows,
            cursor,
            unicode_lowercase(typed@),
            typed@,
            label_chars@,
        ),
{
    if typed.is_empty() {
        return (Vec::new(), Vec::new());
    }
    let lower = lowercase(typed);
    let pat = chars_of(lower.as_str());
    if pat.len() == 0 {
        return (Vec::new(), Vec::new());
    }
    let typed_chars = chars_of(typed);
    jump_labels_for_pattern(lines, scroll_y, content_rows, cursor, &pat, &typed_chars, label_chars)
}


/// Default label charset: `a`-`z` then `A`-`Z`.
pub const LABEL_CHARS: [char; 52] = [
    'a', 'b', 'c', 'd', 'e', 'f', 'g', 'h', 'i', 'j', 'k', 'l', 'm', 'n', 'o', 'p', 'q', 'r', 's',
    't', 'u', 'v', 'w', 'x', 'y', 'z', 'A', 'B', 'C', 'D', 'E', 'F', 'G', 'H', 'I', 'J', 'K', 'L',
    'M', 'N', 'O', 'P', 'Q', 'R', 'S', 'T', 'U', 'V', 'W', 'X', 'Y', 'Z',
];

/// The lines `[lo, hi)` in ascending order.
pub open spec fn lines_up(lo: int, hi: int) -> Seq<int> {
    Seq::new(if hi > lo { (hi - lo) as nat } else { 0 }, |i: int| lo + i)
}

/// The lines `[lo, hi)` in descending order.
pub open spec fn lines_down(lo: int, hi: int) -> Seq<int> {
    Seq::new(if hi > lo { (hi - lo) as nat } else { 0 }, |i: int| hi - 1 - i)
}

/// Pairs each line with the label at the same position, as far as both
/// reach.
pub open spec fn zip_labels(ls: Seq<int>, pool: Seq<char>) -> Seq<(usize, char)> {
    Seq::new(if ls.len() <= pool.len() { ls.len() } else { pool.len() }, |i: int| (ls[i] as usize, pool[i]))
}

/// `n` consecutive characters starting at code point `first`.
pub open spec fn char_run(first: int, n: nat) -> Seq<char> {
    Seq::new(n, |i: int| (first + i) as char)
}

/// Line-jump labels: every visible line below the cursor, nearest first,
/// then every visible line above it, nearest first. Directional: `a`-`z`
/// below and `A`-`Z` above. Unified: the first half of `label_chars`
/// (rounded up) below and the rest above.
pub open spec fn line_labels_spec(
    n_lines: int,
    scroll_y: int,
    content_rows: int,
    cline: int,
    label_chars: Seq<char>,
    unified: bool,
) -> Seq<(usize, char)> {
    let vis_end = visible_end(scroll_y, content_rows, n_lines);
    let below = lines_up(if cline + 1 > scroll_y { cline + 1 } else { scroll_y }, vis_end);
    let above = lines_down(scroll_y, if cline < vis_end { cline } else { vis_end });
    if unified {
        let mid = ((label_chars.len() + 1) / 2) as int;
        zip_labels(below, label_chars.take(mid)) + zip_labels(above, label_chars.skip(mid))
    } else {
        zip_labels(below, char_run(97, 26)) + zip_labels(above, char_run(65, 26))
    }
}

/// Appends `(line, label)` pairs for `ls` and `pool`, as far as both reach.
fn push_zipped(out: &mut Vec<(usize, char)>, lo: usize, hi: usize, down: bool, pool: &Vec<char>)
    ensures
        final(out)@ == old(out)@ + zip_labels(
            if down { lines_down(lo as int, hi as int) } else { lines_up(lo as int, hi as int) },
            pool@,
        ),
{
    let ghost ls = if down { lines_down(lo as int, hi as int) } else { lines_up(lo as int, hi as int) };
    let ghost start = out@;
    let cnt: usize = if hi > lo { hi - lo } else { 0 };
    let m: usize = if cnt <= pool.len() { cnt } else { pool.len() };
    let mut i: usize = 0;
    while i < m
        invariant
            i <= m,
            m <= cnt,
            m <= pool@.len(),
            cnt == ls.len(),
            ls == (if down { lines_down(lo as int, hi as int) } else { lines_up(lo as int, hi as int) }),
            cnt == (if hi > lo { hi - lo } else { 0 }),
            out@ == start + zip_labels(ls, pool@).take(i as int),
        decreases m - i,
    {
        let line: usize = if down { hi - 1 - i } else { lo + i };
        out.push((line, pool[i]));
        i = i + 1;
        assert(out@ =~= start + zip_labels(ls, pool@).take(i as int));
    }
    assert(zip_labels(ls, pool@).take(m as int) =~= zip_labels(ls, pool@));
}

/// `n` consecutive characters starting at the ASCII code `first`.
pub(crate) fn ascii_run(first: u8, n: u8) -> (v: Vec<char>)
    requires
        first as int + n as int <= 128,
    ensures
        v@ == char_run(first as int, n as nat),
{
    let mut v: Vec<char> = Vec::new();
    let mut i: u8 = 0;
    while i < n
        invariant
            i <= n,
            first as int + n as int <= 128,
            v@ == char_run(first as int, i as nat),
        decreases n - i,
    {
        let b: u8 = first + i;
        v.push(b as char);
        i = i + 1;
        assert(v@ =~= char_run(first as int, i as nat));
    }
    v
}

/// Line-jump labels for the visible viewport: one per visible line except
/// the cursor line. See `line_labels_spec`.
pub fn compute_line_labels(
    lines: &[Vec<StyledChar>],
    scroll_y: usize,
    content_rows: usize,
    cursor: (usize, usize),
    label_chars: &[char],
    unified: bool,
) -> (labels: Vec<(usize, char)>)
    ensures
        labels@ == line_labels_spec(lines@.len() as int, scroll_y as int, content_rows as int, cursor.0 as int, label_chars@, unified),
{
    let vis_end: usize = if scroll_y <= lines.len() && content_rows <= lines.len() - scroll_y {
        scroll_y + content_rows
    } else {
        lines.len()
    };
    let cline = cursor.0;
    let below_start: usize = if cline >= scroll_y && cline < usize::MAX { cline + 1 } else if cline >= scroll_y { vis_end } else { scroll_y };
    let above_end: usize = if cline < vis_end { cline } else { vis_end };
    let ghost below_spec = lines_up(if cline + 1 > scroll_y { cline + 1 } else { scroll_y as int }, vis_end as int);
    assert(lines_up(below_start as int, vis_end as int) =~= below_spec);
    let mut labels: Vec<(usize, char)> = Vec::new();
    if unified {
        let n = label_chars.len();
        let mid = n / 2 + n % 2;
        let mut below_pool: Vec<char> = Vec::new();
        let mut above_pool: Vec<char> = Vec::new();
        let mut i: usize = 0;
        while i < n
            invariant
                n == label_chars@.len(),
                mid == (n + 1) / 2,
                i <= n,
                below_pool@ == label_chars@.take(mid as int).take(if i < mid { i as int } else { mid as int }),
                above_pool@ == label_chars@.skip(mid as int).take(if i < mid { 0 } else { i - mid }),
            decreases n - i,
        {
            if i < mid {
                below_pool.push(label_chars[i]);
            } else {
                above_pool.push(label_chars[i]);
            }
            i = i + 1;
            assert(below_pool@ =~= label_chars@.take(mid as int).take(if i < mid { i as int } else { mid as int }));
            assert(above_pool@ =~= label_chars@.skip(mid as int).take(if i < mid { 0 } else { i - mid }));
        }
        assert(below_pool@ =~= label_chars@.take(mid as int));
        assert(above_pool@ =~= label_chars@.skip(mid as int));
        push_zipped(&mut labels, below_start, vis_end, false, &below_pool);
        push_zipped(&mut labels, scroll_y, above_end, true, &above_pool);
    } else {
        let lower = ascii_run(97, 26);
        let upper = ascii_run(65, 26);
        push_zipped(&mut labels, below_start, vis_end, false, &lower);
        push_zipped(&mut labels, scroll_y, above_end, true, &upper);
    }
    labels
}

} // verus!
