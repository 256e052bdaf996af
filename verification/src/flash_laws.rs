//! Laws of word-jump labeling: what the matches are, and the guarantees
//! the labels give a user who types on.

use vstd::prelude::*;
use crate::style::StyledChar;
use crate::text::{ascii_lower, ascii_upper, occurs_at, lemma_ascii_lower_idempotent, lemma_cases_meet};
use crate::flash::{
    PartialMatch, JumpLabel, extended_line, trailing_spaces, label_col_for, jump_line_matches, jump_matches_in_line,
    raw_jump_matches, visible_end, continuation, match_continuations, count_continuation, typed_excludes,
    continuation_excludes, label_pool, pre_label, dist_key, sort_keyed, sort_matches, sort_labels, jump_labels_spec,
    line_labels_spec, lines_up, lines_down, zip_labels, char_run, lemma_sort_keyed_len,
};
use crate::sorting::{lemma_sort_keyed_sorted, lemma_sort_keyed_from, lemma_sort_keyed_keeps, lemma_sort_keyed_apart, lemma_filter_facts, lemma_filter_ordered};

verus! {

/// `m` is the match of `pat` at column `col` of line `li`.
pub open spec fn is_jump_match(lines: Seq<Vec<StyledChar>>, pat: Seq<char>, m: PartialMatch) -> bool {
    let li = m.0 as int;
    let ext = extended_line(lines[li]@, trailing_spaces(pat));
    &&& occurs_at(ext, pat, m.1 as int)
    &&& m.2 as int == label_col_for(m.1 as int, pat.len() as int, lines[li]@.len() as int)
}

/// `a` comes strictly before `b` in stream order.
pub open spec fn stream_before(a: PartialMatch, b: PartialMatch) -> bool {
    a.0 < b.0 || (a.0 == b.0 && a.1 < b.1)
}

proof fn lemma_line_matches_facts(li: int, ext: Seq<char>, pat: Seq<char>, orig_n: int, upto: int)
    requires
        0 <= li <= usize::MAX,
        upto <= usize::MAX + 1,
        ext.len() <= usize::MAX,
        0 <= orig_n <= usize::MAX,
        pat.len() > 0,
    ensures
        forall|j: int| 0 <= j < jump_line_matches(li, ext, pat, orig_n, upto).len() ==> {
            let m = #[trigger] jump_line_matches(li, ext, pat, orig_n, upto)[j];
            &&& m.0 == li
            &&& m.1 < upto
            &&& occurs_at(ext, pat, m.1 as int)
            &&& m.2 as int == label_col_for(m.1 as int, pat.len() as int, orig_n)
        },
        forall|i: int, j: int| 0 <= i < j < jump_line_matches(li, ext, pat, orig_n, upto).len() ==>
            jump_line_matches(li, ext, pat, orig_n, upto)[i].1 < jump_line_matches(li, ext, pat, orig_n, upto)[j].1,
        forall|col: int| 0 <= col < upto && occurs_at(ext, pat, col) ==> exists|j: int|
            0 <= j < jump_line_matches(li, ext, pat, orig_n, upto).len()
                && #[trigger] jump_line_matches(li, ext, pat, orig_n, upto)[j].1 == col,
    decreases upto,
{
    if upto > 0 {
        lemma_line_matches_facts(li, ext, pat, orig_n, upto - 1);
        let prev = jump_line_matches(li, ext, pat, orig_n, upto - 1);
        let cur = jump_line_matches(li, ext, pat, orig_n, upto);
        assert forall|j: int| 0 <= j < cur.len() implies {
            let m = #[trigger] cur[j];
            &&& m.0 == li
            &&& m.1 < upto
            &&& occurs_at(ext, pat, m.1 as int)
            &&& m.2 as int == label_col_for(m.1 as int, pat.len() as int, orig_n)
        } by {
            if j < prev.len() {
                assert(cur[j] == prev[j]);
            } else {
                let lc = label_col_for(upto - 1, pat.len() as int, orig_n);
                assert(0 <= lc);
            }
        }
        assert forall|i: int, j: int| 0 <= i < j < cur.len() implies cur[i].1 < cur[j].1 by {
            assert(cur[i] == prev[i]);
            if j < prev.len() {
                assert(cur[j] == prev[j]);
            }
        }
        assert forall|col: int| 0 <= col < upto && occurs_at(ext, pat, col) implies exists|j: int|
            0 <= j < cur.len() && #[trigger] cur[j].1 == col by {
            if col < upto - 1 {
                let j = choose|j: int| 0 <= j < prev.len() && #[trigger] prev[j].1 == col;
                assert(cur[j] == prev[j]);
            } else {
                assert(cur[prev.len() as int].1 == col);
            }
        }
    }
}


/// Lines and the prefix fit the machine: every extended line's length
/// fits in `usize`.
pub open spec fn lines_fit(lines: Seq<Vec<StyledChar>>, pat: Seq<char>) -> bool {
    &&& lines.len() <= usize::MAX
    &&& forall|li: int| 0 <= li < lines.len() ==> (#[trigger] lines[li])@.len() + pat.len() < usize::MAX
}

proof fn lemma_trailing_spaces_bound(p: Seq<char>)
    ensures
        trailing_spaces(p) <= p.len(),
    decreases p.len(),
{
    if p.len() > 0 && p.last() == ' ' {
        lemma_trailing_spaces_bound(p.drop_last());
    }
}

/// The matches in the lines `[start, upto)`: each is a match of `pat` on
/// one of those lines, they come in stream order, and none is missing.
pub proof fn lemma_raw_facts(lines: Seq<Vec<StyledChar>>, start: int, upto: int, pat: Seq<char>)
    requires
        0 <= start,
        upto <= lines.len(),
        lines_fit(lines, pat),
        pat.len() > 0,
    ensures
        forall|j: int| 0 <= j < raw_jump_matches(lines, start, upto, pat).len() ==> {
            let m = #[trigger] raw_jump_matches(lines, start, upto, pat)[j];
            start <= m.0 < upto && is_jump_match(lines, pat, m)
        },
        forall|i: int, j: int| 0 <= i < j < raw_jump_matches(lines, start, upto, pat).len()
            ==> stream_before(raw_jump_matches(lines, start, upto, pat)[i], raw_jump_matches(lines, start, upto, pat)[j]),
        forall|m: PartialMatch| start <= m.0 < upto && is_jump_match(lines, pat, m)
            ==> #[trigger] raw_jump_matches(lines, start, upto, pat).contains(m),
    decreases upto - start,
{
    if upto > start {
        lemma_raw_facts(lines, start, upto - 1, pat);
        let li = upto - 1;
        let ext = extended_line(lines[li]@, trailing_spaces(pat));
        lemma_trailing_spaces_bound(pat);
        assert(lines[li]@.len() + pat.len() < usize::MAX);
        lemma_line_matches_facts(li, ext, pat, lines[li]@.len() as int, (ext.len() + 1) as int);
        let a = raw_jump_matches(lines, start, upto - 1, pat);
        let b = jump_matches_in_line(lines, li, pat);
        let r = raw_jump_matches(lines, start, upto, pat);
        assert(r == a + b);
        assert forall|j: int| 0 <= j < r.len() implies {
            let m = #[trigger] r[j];
            start <= m.0 < upto && is_jump_match(lines, pat, m)
        } by {
            if j < a.len() {
                assert(r[j] == a[j]);
            } else {
                assert(r[j] == b[j - a.len()]);
            }
        }
        assert forall|i: int, j: int| 0 <= i < j < r.len() implies stream_before(r[i], r[j]) by {
            if j < a.len() {
                assert(r[i] == a[i]);
                assert(r[j] == a[j]);
            } else if i < a.len() {
                assert(r[i] == a[i]);
                assert(r[j] == b[j - a.len()]);
            } else {
                assert(r[i] == b[i - a.len()]);
                assert(r[j] == b[j - a.len()]);
            }
        }
        assert forall|m: PartialMatch| start <= m.0 < upto && is_jump_match(lines, pat, m) implies #[trigger] r.contains(m) by {
            if m.0 < upto - 1 {
                assert(a.contains(m));
                let j = choose|j: int| 0 <= j < a.len() && a[j] == m;
                assert(r[j] == m);
            } else {
                let col = m.1 as int;
                assert(occurs_at(ext, pat, col));
                assert(col < ext.len() + 1);
                let j = choose|j: int| 0 <= j < b.len() && #[trigger] b[j].1 == col;
                assert(b[j] == m);
                assert(r[a.len() + j] == m);
            }
        }
    }
}


/// The matches a word jump considers: those on the visible lines.
pub open spec fn jl_raw(lines: Seq<Vec<StyledChar>>, scroll_y: usize, content_rows: usize, pat: Seq<char>) -> Seq<PartialMatch> {
    raw_jump_matches(lines, scroll_y as int, visible_end(scroll_y as int, content_rows as int, lines.len() as int), pat)
}

/// The continuations of those matches.
pub open spec fn jl_conts(lines: Seq<Vec<StyledChar>>, scroll_y: usize, content_rows: usize, pat: Seq<char>) -> Seq<Option<char>> {
    match_continuations(lines, jl_raw(lines, scroll_y, content_rows, pat), pat.len() as int)
}

/// Sorting a sequence of labels yields labels of the input.
proof fn lemma_sort_labels_from(u: Seq<JumpLabel>, cursor: (usize, usize))
    ensures
        sort_labels(u, cursor).len() == u.len(),
        forall|i: int| 0 <= i < sort_labels(u, cursor).len() ==> u.contains(#[trigger] sort_labels(u, cursor)[i]),
{
    let k = u.map_values(|m: JumpLabel| (m, dist_key(m.0, m.1, cursor) as u128));
    lemma_sort_keyed_len(k);
    lemma_sort_keyed_from(k);
    let sk = sort_keyed(k);
    assert forall|i: int| 0 <= i < sort_labels(u, cursor).len() implies u.contains(#[trigger] sort_labels(u, cursor)[i]) by {
        assert(sort_labels(u, cursor)[i] == sk[i].0);
        assert(k.contains(sk[i]));
        let j = choose|j: int| 0 <= j < k.len() && k[j] == sk[i];
        assert(u[j] == sk[i].0);
    }
}

/// Sorting a sequence of matches yields matches of the input.
proof fn lemma_sort_matches_from(u: Seq<PartialMatch>, cursor: (usize, usize))
    ensures
        sort_matches(u, cursor).len() == u.len(),
        forall|i: int| 0 <= i < sort_matches(u, cursor).len() ==> u.contains(#[trigger] sort_matches(u, cursor)[i]),
{
    let k = u.map_values(|m: PartialMatch| (m, dist_key(m.0, m.1, cursor) as u128));
    lemma_sort_keyed_len(k);
    lemma_sort_keyed_from(k);
    let sk = sort_keyed(k);
    assert forall|i: int| 0 <= i < sort_matches(u, cursor).len() implies u.contains(#[trigger] sort_matches(u, cursor)[i]) by {
        assert(sort_matches(u, cursor)[i] == sk[i].0);
        assert(k.contains(sk[i]));
        let j = choose|j: int| 0 <= j < k.len() && k[j] == sk[i];
        assert(u[j] == sk[i].0);
    }
}

/// Where every label comes from: each labels a visible match, and is
/// either that match's own pre-assigned label or a pool character given
/// to a match without one. With labels, there is one per match.
pub proof fn lemma_label_origin(
    lines: Seq<Vec<StyledChar>>,
    scroll_y: usize,
    content_rows: usize,
    cursor: (usize, usize),
    pat: Seq<char>,
    typed: Seq<char>,
    label_chars: Seq<char>,
)
    ensures
        ({
            let (labels, partials) = jump_labels_spec(lines, scroll_y, content_rows, cursor, pat, typed, label_chars);
            let raw = jl_raw(lines, scroll_y, content_rows, pat);
            let conts = jl_conts(lines, scroll_y, content_rows, pat);
            let pool = label_pool(label_chars, typed, conts);
            &&& partials.len() > 0 ==> labels.len() == 0 && partials == raw
            &&& partials.len() == 0 ==> labels.len() == raw.len()
            &&& forall|i: int| 0 <= i < labels.len() ==> {
                let l = #[trigger] labels[i];
                let pos = (l.0, l.1, l.2);
                &&& raw.contains(pos)
                &&& (pre_label(lines, conts, pat.len() as int, typed, label_chars, pos) == Some(l.3)
                    || (pre_label(lines, conts, pat.len() as int, typed, label_chars, pos) is None && pool.contains(l.3)))
            }
        }),
{
    let (labels, partials) = jump_labels_spec(lines, scroll_y, content_rows, cursor, pat, typed, label_chars);
    let raw = jl_raw(lines, scroll_y, content_rows, pat);
    let tlen = pat.len() as int;
    let conts = jl_conts(lines, scroll_y, content_rows, pat);
    let pool = label_pool(label_chars, typed, conts);
    let is_pre = |m: PartialMatch| pre_label(lines, conts, tlen, typed, label_chars, m) is Some;
    let is_free = |m: PartialMatch| pre_label(lines, conts, tlen, typed, label_chars, m) is None;
    let pre = raw.filter(is_pre);
    let to_label = raw.filter(is_free);
    lemma_filter_facts(raw, is_pre, is_free);
    lemma_filter_facts(raw, is_free, is_pre);
    if raw.len() > 0 && to_label.len() <= pool.len() {
        let with_label = |m: PartialMatch| (m.0, m.1, m.2, pre_label(lines, conts, tlen, typed, label_chars, m)->0);
        let pre_labeled = pre.map_values(with_label);
        let sorted = sort_matches(to_label, cursor);
        lemma_sort_matches_from(to_label, cursor);
        let pooled = Seq::new(sorted.len(), |i: int| (sorted[i].0, sorted[i].1, sorted[i].2, pool[i]));
        let u = pre_labeled + pooled;
        assert(labels == sort_labels(u, cursor));
        lemma_sort_labels_from(u, cursor);
        assert forall|i: int| 0 <= i < labels.len() implies {
            let l = #[trigger] labels[i];
            let pos = (l.0, l.1, l.2);
            &&& raw.contains(pos)
            &&& (pre_label(lines, conts, tlen, typed, label_chars, pos) == Some(l.3)
                || (pre_label(lines, conts, tlen, typed, label_chars, pos) is None && pool.contains(l.3)))
        } by {
            let l = labels[i];
            assert(u.contains(l));
            let k = choose|k: int| 0 <= k < u.len() && u[k] == l;
            if k < pre_labeled.len() {
                let m = pre[k];
                assert(u[k] == with_label(m));
                assert(is_pre(m));
                assert(raw.contains(m));
            } else {
                let q = k - pre_labeled.len();
                let m = sorted[q];
                assert(u[k] == pooled[q]);
                assert(to_label.contains(m));
                let t = choose|t: int| 0 <= t < to_label.len() && to_label[t] == m;
                assert(is_free(to_label[t]));
                assert(raw.contains(to_label[t]));
                assert(pool[q] == l.3);
            }
        }
    }
}


/// When there are too many matches to label, no match is labeled and
/// every visible match is returned for partial highlighting.
pub proof fn law_partial_fallback_is_all_or_nothing(
    lines: Seq<Vec<StyledChar>>,
    scroll_y: usize,
    content_rows: usize,
    cursor: (usize, usize),
    pat: Seq<char>,
    typed: Seq<char>,
    label_chars: Seq<char>,
)
    ensures
        ({
            let (labels, partials) = jump_labels_spec(lines, scroll_y, content_rows, cursor, pat, typed, label_chars);
            &&& labels.len() == 0 || partials.len() == 0
            &&& partials.len() > 0 ==> partials == jl_raw(lines, scroll_y, content_rows, pat)
        }),
{
    lemma_label_origin(lines, scroll_y, content_rows, cursor, pat, typed, label_chars);
}

/// Typing a character never jumps: no label is a typed character, in
/// either ASCII case.
pub proof fn law_typed_chars_never_label(
    lines: Seq<Vec<StyledChar>>,
    scroll_y: usize,
    content_rows: usize,
    cursor: (usize, usize),
    pat: Seq<char>,
    typed: Seq<char>,
    label_chars: Seq<char>,
)
    ensures
        forall|i: int| 0 <= i < jump_labels_spec(lines, scroll_y, content_rows, cursor, pat, typed, label_chars).0.len()
            ==> !typed_excludes(typed, (#[trigger] jump_labels_spec(lines, scroll_y, content_rows, cursor, pat, typed, label_chars).0[i]).3),
{
    lemma_label_origin(lines, scroll_y, content_rows, cursor, pat, typed, label_chars);
    let labels = jump_labels_spec(lines, scroll_y, content_rows, cursor, pat, typed, label_chars).0;
    let conts = jl_conts(lines, scroll_y, content_rows, pat);
    let pool = label_pool(label_chars, typed, conts);
    let pred = |c: char| !typed_excludes(typed, c) && !continuation_excludes(conts, c);
    lemma_filter_facts(label_chars, pred, |c: char| !pred(c));
    assert forall|i: int| 0 <= i < labels.len() implies !typed_excludes(typed, (#[trigger] labels[i]).3) by {
        let l = labels[i];
        if pool.contains(l.3) {
            let k = choose|k: int| 0 <= k < pool.len() && pool[k] == l.3;
            assert(pred(pool[k]));
        }
    }
}

/// A character that continues two or more matches never labels anything,
/// in either ASCII case: typing it narrows the search.
pub proof fn law_shared_continuation_never_label(
    lines: Seq<Vec<StyledChar>>,
    scroll_y: usize,
    content_rows: usize,
    cursor: (usize, usize),
    pat: Seq<char>,
    typed: Seq<char>,
    label_chars: Seq<char>,
    m: PartialMatch,
    c: char,
)
    requires
        jl_raw(lines, scroll_y, content_rows, pat).contains(m),
        continuation(lines, m, pat.len() as int) == Some(c),
        count_continuation(jl_conts(lines, scroll_y, content_rows, pat), c) >= 2,
    ensures
        forall|i: int| 0 <= i < jump_labels_spec(lines, scroll_y, content_rows, cursor, pat, typed, label_chars).0.len() ==> {
            let lc = (#[trigger] jump_labels_spec(lines, scroll_y, content_rows, cursor, pat, typed, label_chars).0[i]).3;
            lc != c && lc != ascii_upper(c)
        },
{
    lemma_label_origin(lines, scroll_y, content_rows, cursor, pat, typed, label_chars);
    let labels = jump_labels_spec(lines, scroll_y, content_rows, cursor, pat, typed, label_chars).0;
    let raw = jl_raw(lines, scroll_y, content_rows, pat);
    let conts = jl_conts(lines, scroll_y, content_rows, pat);
    let tlen = pat.len() as int;
    let pool = label_pool(label_chars, typed, conts);
    let pred = |x: char| !typed_excludes(typed, x) && !continuation_excludes(conts, x);
    lemma_filter_facts(label_chars, pred, |x: char| !pred(x));
    let j = choose|j: int| 0 <= j < raw.len() && raw[j] == m;
    assert(conts[j] == Some(c));
    let line = lines[m.0 as int]@;
    lemma_ascii_lower_idempotent(line[m.1 + tlen].ch);
    assert(ascii_lower(c) == c);
    assert forall|i: int| 0 <= i < labels.len() implies {
        let lc = (#[trigger] labels[i]).3;
        lc != c && lc != ascii_upper(c)
    } by {
        let l = labels[i];
        let pos = (l.0, l.1, l.2);
        if pool.contains(l.3) && pre_label(lines, conts, tlen, typed, label_chars, pos) is None {
            let k = choose|k: int| 0 <= k < pool.len() && pool[k] == l.3;
            assert(pred(pool[k]));
            assert(!continuation_excludes(conts, l.3));
        } else {
            assert(pre_label(lines, conts, tlen, typed, label_chars, pos) == Some(l.3));
            let d = continuation(lines, pos, tlen)->0;
            let pline = lines[pos.0 as int]@;
            lemma_ascii_lower_idempotent(pline[pos.1 + tlen].ch);
            assert(count_continuation(conts, d) == 1);
            if l.3 == c || l.3 == ascii_upper(c) {
                lemma_cases_meet(d, c);
            }
        }
    }
}

/// Two different positions with the same continuation make it shared.
proof fn lemma_count_two(conts: Seq<Option<char>>, c: char, i: int, j: int)
    requires
        0 <= i < j < conts.len(),
        conts[i] == Some(c),
        conts[j] == Some(c),
    ensures
        count_continuation(conts, c) >= 2,
    decreases conts.len(),
{
    let t = conts.drop_last();
    if j < conts.len() - 1 {
        assert(t[i] == conts[i]);
        assert(t[j] == conts[j]);
        lemma_count_two(t, c, i, j);
    } else {
        assert(t[i] == conts[i]);
        lemma_count_one(t, c, i);
    }
}

proof fn lemma_count_one(conts: Seq<Option<char>>, c: char, i: int)
    requires
        0 <= i < conts.len(),
        conts[i] == Some(c),
    ensures
        count_continuation(conts, c) >= 1,
    decreases conts.len(),
{
    let t = conts.drop_last();
    if i < conts.len() - 1 {
        assert(t[i] == conts[i]);
        lemma_count_one(t, c, i);
    }
}

/// A label pre-assigned from a continuation belongs to its match alone:
/// when exactly one visible match continues with `c`, every label that is
/// `c` or its upper case sits on that match.
pub proof fn law_unique_continuation_labels_its_match(
    lines: Seq<Vec<StyledChar>>,
    scroll_y: usize,
    content_rows: usize,
    cursor: (usize, usize),
    pat: Seq<char>,
    typed: Seq<char>,
    label_chars: Seq<char>,
    m: PartialMatch,
    c: char,
)
    requires
        jl_raw(lines, scroll_y, content_rows, pat).contains(m),
        continuation(lines, m, pat.len() as int) == Some(c),
        count_continuation(jl_conts(lines, scroll_y, content_rows, pat), c) == 1,
    ensures
        forall|i: int| 0 <= i < jump_labels_spec(lines, scroll_y, content_rows, cursor, pat, typed, label_chars).0.len() ==> {
            let l = #[trigger] jump_labels_spec(lines, scroll_y, content_rows, cursor, pat, typed, label_chars).0[i];
            (l.3 == c || l.3 == ascii_upper(c)) ==> (l.0, l.1, l.2) == m
        },
{
    lemma_label_origin(lines, scroll_y, content_rows, cursor, pat, typed, label_chars);
    let labels = jump_labels_spec(lines, scroll_y, content_rows, cursor, pat, typed, label_chars).0;
    let raw = jl_raw(lines, scroll_y, content_rows, pat);
    let conts = jl_conts(lines, scroll_y, content_rows, pat);
    let tlen = pat.len() as int;
    let pool = label_pool(label_chars, typed, conts);
    let pred = |x: char| !typed_excludes(typed, x) && !continuation_excludes(conts, x);
    lemma_filter_facts(label_chars, pred, |x: char| !pred(x));
    let jm = choose|j: int| 0 <= j < raw.len() && raw[j] == m;
    assert(conts[jm] == Some(c));
    let line = lines[m.0 as int]@;
    lemma_ascii_lower_idempotent(line[m.1 + tlen].ch);
    assert forall|i: int| 0 <= i < labels.len() implies {
        let l = #[trigger] labels[i];
        (l.3 == c || l.3 == ascii_upper(c)) ==> (l.0, l.1, l.2) == m
    } by {
        let l = labels[i];
        let pos = (l.0, l.1, l.2);
        if l.3 == c || l.3 == ascii_upper(c) {
            if pool.contains(l.3) && pre_label(lines, conts, tlen, typed, label_chars, pos) is None {
                let k = choose|k: int| 0 <= k < pool.len() && pool[k] == l.3;
                assert(pred(pool[k]));
                assert(lower_fixed_excl(conts, jm, c, l.3));
            } else {
                let d = continuation(lines, pos, tlen)->0;
                let pline = lines[pos.0 as int]@;
                lemma_ascii_lower_idempotent(pline[pos.1 + tlen].ch);
                lemma_cases_meet(d, c);
                let jp = choose|j: int| 0 <= j < raw.len() && raw[j] == pos;
                assert(conts[jp] == Some(c));
                if jp != jm {
                    if jp < jm {
                        lemma_count_two(conts, c, jp, jm);
                    } else {
                        lemma_count_two(conts, c, jm, jp);
                    }
                }
            }
        }
    }
}

/// A continuation excludes its own character in both cases.
spec fn lower_fixed_excl(conts: Seq<Option<char>>, j: int, c: char, x: char) -> bool {
    (0 <= j < conts.len() && conts[j] == Some(c) && ascii_lower(c) == c && (x == c || x == ascii_upper(c)))
        ==> continuation_excludes(conts, x)
}


/// Sorting labels keeps every label.
proof fn lemma_sort_labels_keeps(u: Seq<JumpLabel>, cursor: (usize, usize))
    ensures
        forall|j: int| 0 <= j < u.len() ==> sort_labels(u, cursor).contains(#[trigger] u[j]),
{
    let k = u.map_values(|m: JumpLabel| (m, dist_key(m.0, m.1, cursor) as u128));
    lemma_sort_keyed_len(k);
    lemma_sort_keyed_keeps(k);
    let sk = sort_keyed(k);
    assert forall|j: int| 0 <= j < u.len() implies sort_labels(u, cursor).contains(#[trigger] u[j]) by {
        assert(sk.contains(k[j]));
        let i = choose|i: int| 0 <= i < sk.len() && sk[i] == k[j];
        assert(sort_labels(u, cursor)[i] == u[j]);
    }
}

/// Sorting matches keeps every match.
proof fn lemma_sort_matches_keeps(u: Seq<PartialMatch>, cursor: (usize, usize))
    ensures
        forall|j: int| 0 <= j < u.len() ==> sort_matches(u, cursor).contains(#[trigger] u[j]),
{
    let k = u.map_values(|m: PartialMatch| (m, dist_key(m.0, m.1, cursor) as u128));
    lemma_sort_keyed_len(k);
    lemma_sort_keyed_keeps(k);
    let sk = sort_keyed(k);
    assert forall|j: int| 0 <= j < u.len() implies sort_matches(u, cursor).contains(#[trigger] u[j]) by {
        assert(sk.contains(k[j]));
        let i = choose|i: int| 0 <= i < sk.len() && sk[i] == k[j];
        assert(sort_matches(u, cursor)[i] == u[j]);
    }
}

/// Unless the search falls back to partial highlighting, every visible
/// match gets a label, one label per match.
pub proof fn law_every_match_labeled(
    lines: Seq<Vec<StyledChar>>,
    scroll_y: usize,
    content_rows: usize,
    cursor: (usize, usize),
    pat: Seq<char>,
    typed: Seq<char>,
    label_chars: Seq<char>,
)
    ensures
        ({
            let (labels, partials) = jump_labels_spec(lines, scroll_y, content_rows, cursor, pat, typed, label_chars);
            let raw = jl_raw(lines, scroll_y, content_rows, pat);
            partials.len() == 0 ==> {
                &&& labels.len() == raw.len()
                &&& forall|j: int| 0 <= j < raw.len() ==> exists|i: int|
                    0 <= i < labels.len() && (labels[i].0, labels[i].1, labels[i].2) == #[trigger] raw[j]
            }
        }),
{
    lemma_label_origin(lines, scroll_y, content_rows, cursor, pat, typed, label_chars);
    let (labels, partials) = jump_labels_spec(lines, scroll_y, content_rows, cursor, pat, typed, label_chars);
    let raw = jl_raw(lines, scroll_y, content_rows, pat);
    let tlen = pat.len() as int;
    let conts = jl_conts(lines, scroll_y, content_rows, pat);
    let pool = label_pool(label_chars, typed, conts);
    let is_pre = |m: PartialMatch| pre_label(lines, conts, tlen, typed, label_chars, m) is Some;
    let is_free = |m: PartialMatch| pre_label(lines, conts, tlen, typed, label_chars, m) is None;
    let pre = raw.filter(is_pre);
    let to_label = raw.filter(is_free);
    lemma_filter_facts(raw, is_pre, is_free);
    lemma_filter_facts(raw, is_free, is_pre);
    if raw.len() > 0 && to_label.len() <= pool.len() {
        let with_label = |m: PartialMatch| (m.0, m.1, m.2, pre_label(lines, conts, tlen, typed, label_chars, m)->0);
        let pre_labeled = pre.map_values(with_label);
        let sorted = sort_matches(to_label, cursor);
        lemma_sort_matches_from(to_label, cursor);
        lemma_sort_matches_keeps(to_label, cursor);
        let pooled = Seq::new(sorted.len(), |i: int| (sorted[i].0, sorted[i].1, sorted[i].2, pool[i]));
        let u = pre_labeled + pooled;
        assert(labels == sort_labels(u, cursor));
        lemma_sort_labels_keeps(u, cursor);
        assert forall|j: int| 0 <= j < raw.len() implies exists|i: int|
            0 <= i < labels.len() && (labels[i].0, labels[i].1, labels[i].2) == #[trigger] raw[j] by {
            let m = raw[j];
            let k: int = if is_pre(m) {
                assert(pre.contains(m));
                let a = choose|a: int| 0 <= a < pre.len() && pre[a] == m;
                assert(u[a] == with_label(m));
                a
            } else {
                assert(to_label.contains(m));
                let t = choose|t: int| 0 <= t < to_label.len() && to_label[t] == m;
                assert(sorted.contains(to_label[t]));
                let q = choose|q: int| 0 <= q < sorted.len() && sorted[q] == m;
                assert(u[pre_labeled.len() + q] == pooled[q]);
                pre_labeled.len() + q
            };
            assert(labels.contains(u[k]));
            let i = choose|i: int| 0 <= i < labels.len() && labels[i] == u[k];
            assert((labels[i].0, labels[i].1, labels[i].2) == m);
        }
    }
}


proof fn lemma_dist_key_fits(line: usize, col: usize, cursor: (usize, usize))
    ensures
        0 <= dist_key(line, col, cursor) < 0x1_0000_0000_0000_0000_0000_0000_0000_0000,
        (dist_key(line, col, cursor) as u128) as int == dist_key(line, col, cursor),
{
}

/// Sorted labels come nearest first.
proof fn lemma_sort_labels_sorted(u: Seq<JumpLabel>, cursor: (usize, usize))
    ensures
        forall|i: int, j: int| 0 <= i <= j < sort_labels(u, cursor).len() ==>
            dist_key(sort_labels(u, cursor)[i].0, sort_labels(u, cursor)[i].1, cursor)
                <= dist_key(sort_labels(u, cursor)[j].0, sort_labels(u, cursor)[j].1, cursor),
{
    let k = u.map_values(|m: JumpLabel| (m, dist_key(m.0, m.1, cursor) as u128));
    lemma_sort_keyed_len(k);
    lemma_sort_keyed_from(k);
    lemma_sort_keyed_sorted(k);
    let sk = sort_keyed(k);
    let r = sort_labels(u, cursor);
    assert forall|i: int| 0 <= i < sk.len() implies (#[trigger] sk[i]).1 as int == dist_key(sk[i].0.0, sk[i].0.1, cursor) by {
        assert(k.contains(sk[i]));
        let j = choose|j: int| 0 <= j < k.len() && k[j] == sk[i];
        lemma_dist_key_fits(u[j].0, u[j].1, cursor);
    }
    assert forall|i: int, j: int| 0 <= i <= j < r.len() implies
        dist_key(r[i].0, r[i].1, cursor) <= dist_key(r[j].0, r[j].1, cursor) by {
        assert(r[i] == sk[i].0);
        assert(r[j] == sk[j].0);
        assert(sk[i].1 <= sk[j].1);
    }
}

/// Labels come nearest to the cursor first.
pub proof fn law_labels_nearest_first(
    lines: Seq<Vec<StyledChar>>,
    scroll_y: usize,
    content_rows: usize,
    cursor: (usize, usize),
    pat: Seq<char>,
    typed: Seq<char>,
    label_chars: Seq<char>,
)
    ensures
        ({
            let labels = jump_labels_spec(lines, scroll_y, content_rows, cursor, pat, typed, label_chars).0;
            forall|i: int, j: int| 0 <= i <= j < labels.len() ==>
                dist_key(labels[i].0, labels[i].1, cursor) <= dist_key(labels[j].0, labels[j].1, cursor)
        }),
{
    let (labels, partials) = jump_labels_spec(lines, scroll_y, content_rows, cursor, pat, typed, label_chars);
    let raw = jl_raw(lines, scroll_y, content_rows, pat);
    let tlen = pat.len() as int;
    let conts = jl_conts(lines, scroll_y, content_rows, pat);
    let pool = label_pool(label_chars, typed, conts);
    let is_pre = |m: PartialMatch| pre_label(lines, conts, tlen, typed, label_chars, m) is Some;
    let is_free = |m: PartialMatch| pre_label(lines, conts, tlen, typed, label_chars, m) is None;
    let pre = raw.filter(is_pre);
    let to_label = raw.filter(is_free);
    if raw.len() > 0 && to_label.len() <= pool.len() {
        let with_label = |m: PartialMatch| (m.0, m.1, m.2, pre_label(lines, conts, tlen, typed, label_chars, m)->0);
        let pre_labeled = pre.map_values(with_label);
        let sorted = sort_matches(to_label, cursor);
        let pooled = Seq::new(sorted.len(), |i: int| (sorted[i].0, sorted[i].1, sorted[i].2, pool[i]));
        let u = pre_labeled + pooled;
        assert(labels == sort_labels(u, cursor));
        lemma_sort_labels_sorted(u, cursor);
    }
}


/// No character occurs twice.
pub open spec fn chars_distinct(s: Seq<char>) -> bool {
    forall|i: int, j: int| 0 <= i < j < s.len() ==> s[i] != s[j]
}

/// A pre-assigned label is the match's continuation or its upper case,
/// and that continuation continues this match only.
proof fn lemma_pre_label_source(
    lines: Seq<Vec<StyledChar>>,
    conts: Seq<Option<char>>,
    tlen: int,
    typed: Seq<char>,
    label_chars: Seq<char>,
    m: PartialMatch,
) -> (c: char)
    requires
        pre_label(lines, conts, tlen, typed, label_chars, m) is Some,
    ensures
        continuation(lines, m, tlen) == Some(c),
        ascii_lower(c) == c,
        count_continuation(conts, c) == 1,
        pre_label(lines, conts, tlen, typed, label_chars, m)->0 == c
            || pre_label(lines, conts, tlen, typed, label_chars, m)->0 == ascii_upper(c),
{
    let c = continuation(lines, m, tlen)->0;
    let line = lines[m.0 as int]@;
    lemma_ascii_lower_idempotent(line[m.1 + tlen].ch);
    c
}

/// Labels are distinct characters whenever the label charset is.
pub proof fn law_labels_distinct(
    lines: Seq<Vec<StyledChar>>,
    scroll_y: usize,
    content_rows: usize,
    cursor: (usize, usize),
    pat: Seq<char>,
    typed: Seq<char>,
    label_chars: Seq<char>,
)
    requires
        chars_distinct(label_chars),
        lines_fit(lines, pat),
        pat.len() > 0,
    ensures
        ({
            let labels = jump_labels_spec(lines, scroll_y, content_rows, cursor, pat, typed, label_chars).0;
            forall|i: int, j: int| 0 <= i < j < labels.len() ==> labels[i].3 != labels[j].3
        }),
{
    let (labels, partials) = jump_labels_spec(lines, scroll_y, content_rows, cursor, pat, typed, label_chars);
    let end = visible_end(scroll_y as int, content_rows as int, lines.len() as int);
    let raw = jl_raw(lines, scroll_y, content_rows, pat);
    let tlen = pat.len() as int;
    let conts = jl_conts(lines, scroll_y, content_rows, pat);
    let pool = label_pool(label_chars, typed, conts);
    let pred = |x: char| !typed_excludes(typed, x) && !continuation_excludes(conts, x);
    let is_pre = |m: PartialMatch| pre_label(lines, conts, tlen, typed, label_chars, m) is Some;
    let is_free = |m: PartialMatch| pre_label(lines, conts, tlen, typed, label_chars, m) is None;
    let pre = raw.filter(is_pre);
    let to_label = raw.filter(is_free);
    if raw.len() > 0 && to_label.len() <= pool.len() {
        assert(0 <= end <= lines.len());
        lemma_raw_facts(lines, scroll_y as int, end, pat);
        lemma_filter_facts(raw, is_pre, is_free);
        lemma_filter_facts(label_chars, pred, |x: char| !pred(x));
        lemma_filter_ordered(raw, is_pre, |a: PartialMatch, b: PartialMatch| stream_before(a, b));
        lemma_filter_ordered(label_chars, pred, |a: char, b: char| a != b);
        let with_label = |m: PartialMatch| (m.0, m.1, m.2, pre_label(lines, conts, tlen, typed, label_chars, m)->0);
        let pre_labeled = pre.map_values(with_label);
        let sorted = sort_matches(to_label, cursor);
        lemma_sort_matches_from(to_label, cursor);
        let pooled = Seq::new(sorted.len(), |i: int| (sorted[i].0, sorted[i].1, sorted[i].2, pool[i]));
        let u = pre_labeled + pooled;
        assert(labels == sort_labels(u, cursor));
        let np = pre_labeled.len() as int;
        assert forall|i: int, j: int| 0 <= i < j < u.len() implies u[i].3 != u[j].3 by {
            if j < np {
                let mi = pre[i];
                let mj = pre[j];
                assert(stream_before(mi, mj));
                assert(is_pre(mi) && is_pre(mj));
                let ci = lemma_pre_label_source(lines, conts, tlen, typed, label_chars, mi);
                let cj = lemma_pre_label_source(lines, conts, tlen, typed, label_chars, mj);
                assert(u[i] == with_label(mi));
                assert(u[j] == with_label(mj));
                if u[i].3 == u[j].3 {
                    lemma_cases_meet(ci, cj);
                    assert(raw.contains(mi));
                    assert(raw.contains(mj));
                    let a = choose|a: int| 0 <= a < raw.len() && raw[a] == mi;
                    let b = choose|b: int| 0 <= b < raw.len() && raw[b] == mj;
                    assert(conts[a] == Some(ci));
                    assert(conts[b] == Some(cj));
                    if a < b {
                        lemma_count_two(conts, ci, a, b);
                    } else if b < a {
                        lemma_count_two(conts, ci, b, a);
                    }
                }
            } else if i >= np {
                assert(u[i] == pooled[i - np]);
                assert(u[j] == pooled[j - np]);
            } else {
                let mi = pre[i];
                assert(u[i] == with_label(mi));
                assert(is_pre(mi));
                let ci = lemma_pre_label_source(lines, conts, tlen, typed, label_chars, mi);
                assert(raw.contains(mi));
                let a = choose|a: int| 0 <= a < raw.len() && raw[a] == mi;
                assert(conts[a] == Some(ci));
                assert(continuation_excludes(conts, u[i].3));
                assert(u[j] == pooled[j - np]);
                assert(pred(pool[j - np]));
            }
        }
        let k = u.map_values(|m: JumpLabel| (m, dist_key(m.0, m.1, cursor) as u128));
        let f = |p: (JumpLabel, u128)| p.0.3;
        assert forall|i: int, j: int| 0 <= i < j < k.len() implies f(k[i]) != f(k[j]) by {
            assert(k[i].0 == u[i]);
            assert(k[j].0 == u[j]);
        }
        lemma_sort_keyed_apart(k, f);
        lemma_sort_keyed_len(k);
        let sk = sort_keyed(k);
        assert forall|i: int, j: int| 0 <= i < j < labels.len() implies labels[i].3 != labels[j].3 by {
            assert(labels[i] == sk[i].0);
            assert(labels[j] == sk[j].0);
        }
    }
}


/// The matches a word jump works with are exactly the case-insensitive
/// occurrences of the prefix on the visible lines (a prefix ending in
/// spaces also matching at a line's end), in stream order, and each
/// match's label column lies on a real character of its line.
pub proof fn law_jump_matches_are_visible_occurrences(
    lines: Seq<Vec<StyledChar>>,
    scroll_y: usize,
    content_rows: usize,
    pat: Seq<char>,
)
    requires
        lines_fit(lines, pat),
        pat.len() > 0,
    ensures
        ({
            let raw = jl_raw(lines, scroll_y, content_rows, pat);
            let end = visible_end(scroll_y as int, content_rows as int, lines.len() as int);
            &&& forall|j: int| 0 <= j < raw.len() ==> {
                let m = #[trigger] raw[j];
                &&& scroll_y <= m.0 < end
                &&& is_jump_match(lines, pat, m)
                &&& m.2 < lines[m.0 as int]@.len()
            }
            &&& forall|m: PartialMatch| scroll_y <= m.0 < end && is_jump_match(lines, pat, m) ==> #[trigger] raw.contains(m)
            &&& forall|i: int, j: int| 0 <= i < j < raw.len() ==> stream_before(raw[i], raw[j])
        }),
{
    let raw = jl_raw(lines, scroll_y, content_rows, pat);
    let end = visible_end(scroll_y as int, content_rows as int, lines.len() as int);
    lemma_raw_facts(lines, scroll_y as int, end, pat);
    assert forall|j: int| 0 <= j < raw.len() implies (#[trigger] raw[j]).2 < lines[raw[j].0 as int]@.len() by {
        let m = raw[j];
        let ext = extended_line(lines[m.0 as int]@, trailing_spaces(pat));
        assert(occurs_at(ext, pat, m.1 as int));
        assert(ext.len() > 0);
    }
}


/// Line labels never mark the cursor line, only mark visible lines, and
/// mark each line at most once.
pub proof fn law_line_labels_skip_cursor_line(
    n_lines: int,
    scroll_y: usize,
    content_rows: usize,
    cline: usize,
    label_chars: Seq<char>,
    unified: bool,
)
    requires
        n_lines <= usize::MAX,
    ensures
        ({
            let labels = line_labels_spec(n_lines, scroll_y as int, content_rows as int, cline as int, label_chars, unified);
            let end = visible_end(scroll_y as int, content_rows as int, n_lines);
            &&& forall|i: int| 0 <= i < labels.len() ==> (#[trigger] labels[i]).0 != cline
            &&& forall|i: int| 0 <= i < labels.len() ==> scroll_y <= (#[trigger] labels[i]).0 < end
            &&& forall|i: int, j: int| 0 <= i < j < labels.len() ==> labels[i].0 != labels[j].0
        }),
{
    let sy = scroll_y as int;
    let end = visible_end(sy, content_rows as int, n_lines);
    let lo = if cline + 1 > sy { cline + 1 } else { sy };
    let hi = if cline < end { cline as int } else { end };
    let below = lines_up(lo, end);
    let above = lines_down(sy, hi);
    let (pb, pa) = if unified {
        let mid = ((label_chars.len() + 1) / 2) as int;
        (label_chars.take(mid), label_chars.skip(mid))
    } else {
        (char_run(97, 26), char_run(65, 26))
    };
    let zb = zip_labels(below, pb);
    let za = zip_labels(above, pa);
    let labels = line_labels_spec(n_lines, sy, content_rows as int, cline as int, label_chars, unified);
    assert(labels == zb + za);
    assert forall|i: int| 0 <= i < labels.len() implies {
        let l = #[trigger] labels[i];
        &&& l.0 != cline
        &&& scroll_y <= l.0 < end
        &&& (i < zb.len() ==> l.0 > cline)
        &&& (i >= zb.len() ==> l.0 < cline)
    } by {
        if i < zb.len() {
            assert(labels[i] == zb[i]);
            assert(zb[i].0 == (lo + i) as usize);
        } else {
            let q = i - zb.len();
            assert(labels[i] == za[q]);
            assert(za[q].0 == (hi - 1 - q) as usize);
        }
    }
    assert forall|i: int, j: int| 0 <= i < j < labels.len() implies labels[i].0 != labels[j].0 by {
        if j < zb.len() {
            assert(labels[i] == zb[i]);
            assert(labels[j] == zb[j]);
        } else if i >= zb.len() {
            assert(labels[i] == za[i - zb.len()]);
            assert(labels[j] == za[j - zb.len()]);
        } else {
            assert(labels[i].0 > cline);
            assert(labels[j].0 < cline);
        }
    }
}

/// The directional scheme labels the nearest line below the cursor `a`,
/// the next `b`, and so on; the nearest line above `A`, the next `B`.
pub proof fn law_directional_labels_nearest_first(
    n_lines: int,
    scroll_y: usize,
    content_rows: usize,
    cline: usize,
    label_chars: Seq<char>,
)
    requires
        n_lines <= usize::MAX,
    ensures
        ({
            let labels = line_labels_spec(n_lines, scroll_y as int, content_rows as int, cline as int, label_chars, false);
            forall|i: int| 0 <= i < labels.len() ==> {
                let l = #[trigger] labels[i];
                (l.0 > cline && l.1 as int == 97 + (l.0 - (if cline + 1 > scroll_y { cline + 1 } else { scroll_y as int })))
                    || (l.0 < cline && l.1 as int == 65 + ((if cline < visible_end(scroll_y as int, content_rows as int, n_lines) { cline as int } else { visible_end(scroll_y as int, content_rows as int, n_lines) }) - 1 - l.0))
            }
        }),
{
    let sy = scroll_y as int;
    let end = visible_end(sy, content_rows as int, n_lines);
    let lo = if cline + 1 > sy { cline + 1 } else { sy };
    let hi = if cline < end { cline as int } else { end };
    let below = lines_up(lo, end);
    let above = lines_down(sy, hi);
    let zb = zip_labels(below, char_run(97, 26));
    let za = zip_labels(above, char_run(65, 26));
    let labels = line_labels_spec(n_lines, sy, content_rows as int, cline as int, label_chars, false);
    assert(labels == zb + za);
    assert forall|i: int| 0 <= i < labels.len() implies {
        let l = #[trigger] labels[i];
        (l.0 > cline && l.1 as int == 97 + (l.0 - lo)) || (l.0 < cline && l.1 as int == 65 + (hi - 1 - l.0))
    } by {
        if i < zb.len() {
            assert(labels[i] == zb[i]);
            assert(zb[i].0 == (lo + i) as usize);
            assert(zb[i].1 == (97 + i) as char);
        } else {
            let q = i - zb.len();
            assert(labels[i] == za[q]);
            assert(za[q].0 == (hi - 1 - q) as usize);
            assert(za[q].1 == (65 + q) as char);
        }
    }
}

/// How far a position is from the cursor: whole lines weigh 10 000
/// columns each, then the column difference counts.
pub open spec fn line_major_distance(line: usize, col: usize, cursor: (usize, usize)) -> int {
    (if line >= cursor.0 { line - cursor.0 } else { cursor.0 - line }) * 10000
        + (if col >= cursor.1 { col - cursor.1 } else { cursor.1 - col })
}

/// Labels come in order of distance from the cursor, lines first: each
/// label is at most as far as the next one, counting a line as 10 000
/// columns. So, on lines shorter than 10 000 columns with the cursor
/// column below 10 000 too, a label on a nearer line always comes before
/// one on a farther line.
pub proof fn law_labels_ordered_by_line_then_column(
    lines: Seq<Vec<StyledChar>>,
    scroll_y: usize,
    content_rows: usize,
    cursor: (usize, usize),
    pat: Seq<char>,
    typed: Seq<char>,
    label_chars: Seq<char>,
)
    ensures
        ({
            let labels = jump_labels_spec(lines, scroll_y, content_rows, cursor, pat, typed, label_chars).0;
            &&& forall|i: int, j: int| 0 <= i <= j < labels.len() ==>
                line_major_distance(labels[i].0, labels[i].1, cursor) <= line_major_distance(labels[j].0, labels[j].1, cursor)
            &&& forall|i: int, j: int| 0 <= i <= j < labels.len() && labels[i].1 < 10000 && labels[j].1 < 10000
                && cursor.1 < 10000 ==> (if labels[i].0 >= cursor.0 { labels[i].0 - cursor.0 } else { cursor.0 - labels[i].0 })
                    <= (if labels[j].0 >= cursor.0 { labels[j].0 - cursor.0 } else { cursor.0 - labels[j].0 })
        }),
{
    law_labels_nearest_first(lines, scroll_y, content_rows, cursor, pat, typed, label_chars);
    let labels = jump_labels_spec(lines, scroll_y, content_rows, cursor, pat, typed, label_chars).0;
    assert forall|i: int, j: int| 0 <= i <= j < labels.len() implies
        line_major_distance(labels[i].0, labels[i].1, cursor) <= line_major_distance(labels[j].0, labels[j].1, cursor) by {
        assert(dist_key(labels[i].0, labels[i].1, cursor) <= dist_key(labels[j].0, labels[j].1, cursor));
    }
}

/// Sorted matches come nearest first.
proof fn lemma_sort_matches_sorted(u: Seq<PartialMatch>, cursor: (usize, usize))
    ensures
        forall|i: int, j: int| 0 <= i <= j < sort_matches(u, cursor).len() ==>
            dist_key(sort_matches(u, cursor)[i].0, sort_matches(u, cursor)[i].1, cursor)
                <= dist_key(sort_matches(u, cursor)[j].0, sort_matches(u, cursor)[j].1, cursor),
{
    let k = u.map_values(|m: PartialMatch| (m, dist_key(m.0, m.1, cursor) as u128));
    lemma_sort_keyed_len(k);
    lemma_sort_keyed_from(k);
    lemma_sort_keyed_sorted(k);
    let sk = sort_keyed(k);
    let r = sort_matches(u, cursor);
    assert forall|i: int| 0 <= i < sk.len() implies (#[trigger] sk[i]).1 as int == dist_key(sk[i].0.0, sk[i].0.1, cursor) by {
        assert(k.contains(sk[i]));
        let j = choose|j: int| 0 <= j < k.len() && k[j] == sk[i];
        lemma_dist_key_fits(u[j].0, u[j].1, cursor);
    }
    assert forall|i: int, j: int| 0 <= i <= j < r.len() implies
        dist_key(r[i].0, r[i].1, cursor) <= dist_key(r[j].0, r[j].1, cursor) by {
        assert(r[i] == sk[i].0);
        assert(r[j] == sk[j].0);
        assert(sk[i].1 <= sk[j].1);
    }
}

/// Pool characters go to the matches without a label of their own in
/// order of distance: with a charset that repeats no character, of two
/// labels drawn from the pool, the one strictly nearer the cursor (lines
/// weighing 10 000 columns) carries the earlier pool character.
pub proof fn law_nearer_matches_take_earlier_pool_chars(
    lines: Seq<Vec<StyledChar>>,
    scroll_y: usize,
    content_rows: usize,
    cursor: (usize, usize),
    pat: Seq<char>,
    typed: Seq<char>,
    label_chars: Seq<char>,
)
    requires
        chars_distinct(label_chars),
    ensures
        ({
            let labels = jump_labels_spec(lines, scroll_y, content_rows, cursor, pat, typed, label_chars).0;
            let pool = label_pool(label_chars, typed, jl_conts(lines, scroll_y, content_rows, pat));
            forall|i: int, j: int, pi: int, pj: int|
                0 <= i < labels.len() && 0 <= j < labels.len() && 0 <= pi < pool.len() && 0 <= pj < pool.len()
                    && labels[i].3 == pool[pi] && labels[j].3 == pool[pj]
                    && line_major_distance(labels[i].0, labels[i].1, cursor) < line_major_distance(labels[j].0, labels[j].1, cursor)
                    ==> pi < pj
        }),
{
    let (labels, partials) = jump_labels_spec(lines, scroll_y, content_rows, cursor, pat, typed, label_chars);
    let raw = jl_raw(lines, scroll_y, content_rows, pat);
    let tlen = pat.len() as int;
    let conts = jl_conts(lines, scroll_y, content_rows, pat);
    let pool = label_pool(label_chars, typed, conts);
    let pred = |x: char| !typed_excludes(typed, x) && !continuation_excludes(conts, x);
    let is_pre = |m: PartialMatch| pre_label(lines, conts, tlen, typed, label_chars, m) is Some;
    let is_free = |m: PartialMatch| pre_label(lines, conts, tlen, typed, label_chars, m) is None;
    let pre = raw.filter(is_pre);
    let to_label = raw.filter(is_free);
    if raw.len() > 0 && to_label.len() <= pool.len() {
        lemma_filter_facts(raw, is_pre, is_free);
        lemma_filter_facts(label_chars, pred, |x: char| !pred(x));
        lemma_filter_ordered(label_chars, pred, |a: char, b: char| a != b);
        let with_label = |m: PartialMatch| (m.0, m.1, m.2, pre_label(lines, conts, tlen, typed, label_chars, m)->0);
        let pre_labeled = pre.map_values(with_label);
        let sorted = sort_matches(to_label, cursor);
        lemma_sort_matches_from(to_label, cursor);
        lemma_sort_matches_sorted(to_label, cursor);
        let pooled = Seq::new(sorted.len(), |i: int| (sorted[i].0, sorted[i].1, sorted[i].2, pool[i]));
        let u = pre_labeled + pooled;
        assert(labels == sort_labels(u, cursor));
        lemma_sort_labels_from(u, cursor);
        let np = pre_labeled.len() as int;
        assert forall|k: int, q: int| 0 <= k < u.len() && 0 <= q < pool.len() && u[k].3 == pool[q]
            implies k >= np && k - np == q by {
            assert(pred(pool[q]));
            if k < np {
                let m = pre[k];
                assert(u[k] == with_label(m));
                assert(is_pre(m));
                let c = lemma_pre_label_source(lines, conts, tlen, typed, label_chars, m);
                assert(raw.contains(m));
                let a = choose|a: int| 0 <= a < raw.len() && raw[a] == m;
                assert(conts[a] == Some(c));
                assert(continuation_excludes(conts, u[k].3));
            } else {
                assert(u[k] == pooled[k - np]);
                if k - np != q {
                    assert(pool[k - np] == pool[q]);
                }
            }
        }
        assert forall|i: int, j: int, pi: int, pj: int|
            0 <= i < labels.len() && 0 <= j < labels.len() && 0 <= pi < pool.len() && 0 <= pj < pool.len()
                && labels[i].3 == pool[pi] && labels[j].3 == pool[pj]
                && line_major_distance(labels[i].0, labels[i].1, cursor) < line_major_distance(labels[j].0, labels[j].1, cursor)
                implies pi < pj by {
            assert(u.contains(labels[i]));
            assert(u.contains(labels[j]));
            let ki = choose|k: int| 0 <= k < u.len() && u[k] == labels[i];
            let kj = choose|k: int| 0 <= k < u.len() && u[k] == labels[j];
            assert(u[ki].3 == pool[pi]);
            assert(u[kj].3 == pool[pj]);
            assert(u[ki] == pooled[ki - np]);
            assert(u[kj] == pooled[kj - np]);
            if pj <= pi {
                assert(dist_key(sorted[pj].0, sorted[pj].1, cursor) <= dist_key(sorted[pi].0, sorted[pi].1, cursor));
            }
        }
    }
}

} // verus!
