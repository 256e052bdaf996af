//! The color theme, color parsing, and the per-line styling of cells with
//! the cursor, selection, jump and search overlays.

use vstd::prelude::*;
use crate::style::{Color, Style, StyledChar, plain_style, MODIFIER_BOLD};
use crate::text::{chars_of, decimal, parse_u32, parse_u32_spec, push_char, push_decimal, string_of, trim, trim_chars};

verus! {

broadcast use vstd::string::group_string_axioms;

/// The value of a hexadecimal digit, if `c` is one.
pub open spec fn hex_value(c: char) -> Option<u8> {
    let u = c as u32;
    if 48 <= u && u <= 57 {
        Some((u - 48) as u8)
    } else if 97 <= u && u <= 102 {
        Some((u - 87) as u8)
    } else if 65 <= u && u <= 70 {
        Some((u - 55) as u8)
    } else {
        None
    }
}

/// The byte two hexadecimal digits denote, when both are digits.
pub open spec fn hex_pair(a: char, b: char) -> Option<u8> {
    match (hex_value(a), hex_value(b)) {
        (Some(x), Some(y)) => Some((x * 16 + y) as u8),
        _ => None,
    }
}

/// Number of `#` characters that begin `s`.
pub open spec fn leading_hashes(s: Seq<char>) -> nat
    decreases s.len(),
{
    if s.len() > 0 && s[0] == '#' {
        1 + leading_hashes(s.drop_first())
    } else {
        0
    }
}

/// The color a `#rrggbb` or `rrggbb` string denotes, after trimming
/// whitespace and any number of leading `#`.
pub open spec fn hex_color(s: Seq<char>) -> Option<Color> {
    let t = trim(s);
    let h = t.skip(leading_hashes(t) as int);
    if h.len() == 6 {
        match (hex_pair(h[0], h[1]), hex_pair(h[2], h[3]), hex_pair(h[4], h[5])) {
            (Some(r), Some(g), Some(b)) => Some(Color::Rgb(r, g, b)),
            _ => None,
        }
    } else {
        None
    }
}

fn hex_digit(c: char) -> (r: Option<u8>)
    ensures
        r == hex_value(c),
{
    let u = c as u32;
    if 48 <= u && u <= 57 {
        Some((u - 48) as u8)
    } else if 97 <= u && u <= 102 {
        Some((u - 87) as u8)
    } else if 65 <= u && u <= 70 {
        Some((u - 55) as u8)
    } else {
        None
    }
}

fn parse_hex_pair(a: char, b: char) -> (r: Option<u8>)
    ensures
        r == hex_pair(a, b),
{
    match (hex_digit(a), hex_digit(b)) {
        (Some(x), Some(y)) => Some(x * 16 + y),
        _ => None,
    }
}

/// Parses a `#rrggbb` or `rrggbb` hex string into an RGB color.
///
/// Surrounding whitespace and any number of leading `#` are ignored; each
/// channel is two hexadecimal digits (either case).
pub fn parse_hex_color(s: &str) -> (r: Option<Color>)
    ensures
        r == hex_color(s@),
{
    let chars = chars_of(s);
    let t = trim_chars(&chars);
    let n = t.len();
    let mut a: usize = 0;
    assert(t@.skip(0) =~= t@);
    while a < n && t[a] == '#'
        invariant
            n == t@.len(),
            a <= n,
            leading_hashes(t@) == a + leading_hashes(t@.skip(a as int)),
        decreases n - a,
    {
        assert(t@.skip(a as int).drop_first() =~= t@.skip(a + 1));
        a = a + 1;
    }
    proof {
        if a < n {
            assert(t@.skip(a as int)[0] == t@[a as int]);
        }
    }
    let ghost h = t@.skip(a as int);
    if n - a != 6 {
        return None;
    }
    match (parse_hex_pair(t[a], t[a + 1]), parse_hex_pair(t[a + 2], t[a + 3]), parse_hex_pair(t[a + 4], t[a + 5])) {
        (Some(r), Some(g), Some(b)) => Some(Color::Rgb(r, g, b)),
        _ => None,
    }
}

/// Runtime color theme (16 roles).
#[derive(Clone, Copy, Debug, PartialEq, Eq, Structural)]
pub struct Theme {
    pub sel_bg: Color,
    pub sel_fg: Color,
    pub cursor_bg: Color,
    pub cursor_fg: Color,
    pub gutter_cursor: Color,
    pub gutter_dim: Color,
    pub sel_indicator: Color,
    pub footer_dim: Color,
    pub footer_key: Color,
    pub jump_label_bg: Color,
    pub jump_label_fg: Color,
    pub jump_match_fg: Color,
    pub jump_partial_fg: Color,
    pub search_match_bg: Color,
    pub search_current_bg: Color,
    pub search_fg: Color,
}

/// The default theme: the Catppuccin Macchiato palette.
pub open spec fn default_theme() -> Theme {
    let base = Color::Rgb(36, 39, 58);
    let overlay0 = Color::Rgb(110, 115, 141);
    let text = Color::Rgb(202, 211, 245);
    let yellow = Color::Rgb(238, 212, 159);
    let blue = Color::Rgb(138, 173, 244);
    let teal = Color::Rgb(139, 213, 202);
    let subtext1 = Color::Rgb(184, 192, 224);
    let peach = Color::Rgb(245, 169, 127);
    let red = Color::Rgb(237, 135, 150);
    let green = Color::Rgb(166, 218, 149);
    Theme {
        sel_bg: blue,
        sel_fg: base,
        cursor_bg: text,
        cursor_fg: base,
        gutter_cursor: yellow,
        gutter_dim: overlay0,
        sel_indicator: teal,
        footer_dim: overlay0,
        footer_key: subtext1,
        jump_label_bg: peach,
        jump_label_fg: base,
        jump_match_fg: red,
        jump_partial_fg: yellow,
        search_match_bg: green,
        search_current_bg: yellow,
        search_fg: base,
    }
}

impl Default for Theme {
    fn default() -> (t: Theme)
        ensures
            t == default_theme(),
    {
        let base = Color::Rgb(36, 39, 58);
        let overlay0 = Color::Rgb(110, 115, 141);
        let text = Color::Rgb(202, 211, 245);
        let yellow = Color::Rgb(238, 212, 159);
        let blue = Color::Rgb(138, 173, 244);
        let teal = Color::Rgb(139, 213, 202);
        let subtext1 = Color::Rgb(184, 192, 224);
        let peach = Color::Rgb(245, 169, 127);
        let red = Color::Rgb(237, 135, 150);
        let green = Color::Rgb(166, 218, 149);
        Theme {
            sel_bg: blue,
            sel_fg: base,
            cursor_bg: text,
            cursor_fg: base,
            gutter_cursor: yellow,
            gutter_dim: overlay0,
            sel_indicator: teal,
            footer_dim: overlay0,
            footer_key: subtext1,
            jump_label_bg: peach,
            jump_label_fg: base,
            jump_match_fg: red,
            jump_partial_fg: yellow,
            search_match_bg: green,
            search_current_bg: yellow,
            search_fg: base,
        }
    }
}

/// The centered x position for a percentage width: `"W%"` with `W < 100`
/// gives `"((100 - W) / 2)%"`, `W >= 100` gives `"0%"`; anything else has
/// none.
pub open spec fn center_x_spec(width: Seq<char>) -> Option<Seq<char>> {
    if width.len() > 0 && width.last() == '%' {
        match parse_u32_spec(width.drop_last()) {
            Some(pct) => if pct >= 100 {
                Some(seq!['0', '%'])
            } else {
                Some(decimal(((100 - pct) / 2) as nat).push('%'))
            },
            None => None,
        }
    } else {
        None
    }
}

/// Computes the centered x for a percentage width string, e.g. `"90%"`
/// gives `"5%"`.
pub fn center_x_for_width(width: &str) -> (r: Option<String>)
    ensures
        r matches Some(s) ==> center_x_spec(width@) == Some(s@),
        r is None ==> center_x_spec(width@) is None,
{
    let w = chars_of(width);
    let n = w.len();
    if n == 0 || w[n - 1] != '%' {
        return None;
    }
    let mut digits: Vec<char> = Vec::new();
    let mut i: usize = 0;
    while i < n - 1
        invariant
            n == w@.len(),
            n > 0,
            i <= n - 1,
            digits@ == w@.take(i as int),
        decreases n - 1 - i,
    {
        digits.push(w[i]);
        i = i + 1;
        assert(digits@ =~= w@.take(i as int));
    }
    assert(digits@ =~= w@.drop_last());
    match parse_u32(&digits) {
        Some(pct) => {
            let mut out: Vec<char> = Vec::new();
            if pct >= 100 {
                out.push('0');
                out.push('%');
                assert(out@ =~= seq!['0', '%']);
            } else {
                push_decimal(((100 - pct) / 2) as u64, &mut out);
                out.push('%');
                assert(out@ =~= decimal(((100 - pct) / 2) as nat).push('%'));
            }
            Some(string_of(&out))
        },
        None => None,
    }
}

/// The selection's column range on `line` for the normalized selection
/// `start..=end`, or `None` when the line is outside it. Lines strictly
/// inside the selection span columns `0..=line_len - 1` (saturating).
pub fn sel_range_for_line(start: (usize, usize), end: (usize, usize), line: usize, line_len: usize) -> (r: Option<(usize, usize)>)
    ensures
        r == (if line < start.0 || line > end.0 {
            None
        } else {
            Some((
                if line == start.0 { start.1 } else { 0 },
                if line == end.0 { end.1 } else if line_len > 0 { (line_len - 1) as usize } else { 0 },
            ))
        }),
{
    let (sl, sc) = start;
    let (el, ec) = end;
    if line < sl || line > el {
        return None;
    }
    let col_start = if line == sl { sc } else { 0 };
    let col_end = if line == el { ec } else if line_len > 0 { line_len - 1 } else { 0 };
    Some((col_start, col_end))
}


/// Jump overlay data for one line, in display columns: labeled matches as
/// `(label_col, label_char)`, partial-match label columns, and the length
/// of the typed prefix.
#[derive(Default)]
pub struct JumpOverlay<'a> {
    pub labels: &'a [(usize, char)],
    pub partial_cols: &'a [usize],
    pub typed_len: usize,
}

/// Search overlay data for one line: match start columns with whether each
/// is the current match, and the length of the query.
#[derive(Default)]
pub struct SearchOverlay<'a> {
    pub matches: &'a [(usize, bool)],
    pub query_len: usize,
}

/// A run of text drawn with one style.
#[derive(Debug)]
pub struct Span {
    pub content: String,
    pub style: Style,
}

impl View for Span {
    type V = (Seq<char>, Style);

    open spec fn view(&self) -> (Seq<char>, Style) {
        (self.content@, self.style)
    }
}

/// Everything drawn over one line, as values.
pub struct LineOverlays {
    pub cursor_col: Option<usize>,
    pub sel_range: Option<(usize, usize)>,
    pub sel_pad: usize,
    pub labels: Seq<(usize, char)>,
    pub partial_cols: Seq<usize>,
    pub typed_len: usize,
    pub search: Seq<(usize, bool)>,
    pub query_len: usize,
}

pub open spec fn cursor_style(t: Theme) -> Style {
    Style { fg: Some(t.cursor_fg), bg: Some(t.cursor_bg), ..plain_style() }
}

pub open spec fn sel_style(t: Theme) -> Style {
    Style { fg: Some(t.sel_fg), bg: Some(t.sel_bg), ..plain_style() }
}

pub open spec fn label_style(t: Theme) -> Style {
    Style { fg: Some(t.jump_label_fg), bg: Some(t.jump_label_bg), add_modifier: MODIFIER_BOLD, ..plain_style() }
}

pub open spec fn match_style(t: Theme) -> Style {
    Style { fg: Some(t.jump_match_fg), add_modifier: MODIFIER_BOLD, ..plain_style() }
}

pub open spec fn partial_style(t: Theme) -> Style {
    Style { fg: Some(t.jump_partial_fg), add_modifier: MODIFIER_BOLD, ..plain_style() }
}

pub open spec fn search_style(t: Theme) -> Style {
    Style { fg: Some(t.search_fg), bg: Some(t.search_match_bg), ..plain_style() }
}

pub open spec fn search_current_style(t: Theme) -> Style {
    Style { fg: Some(t.search_fg), bg: Some(t.search_current_bg), add_modifier: MODIFIER_BOLD, ..plain_style() }
}

/// The label drawn at column `i`: that of the first label there.
pub open spec fn label_at(labels: Seq<(usize, char)>, i: int) -> Option<char>
    decreases labels.len(),
{
    if labels.len() == 0 {
        None
    } else if labels[0].0 == i {
        Some(labels[0].1)
    } else {
        label_at(labels.drop_first(), i)
    }
}

/// First column of the typed prefix whose label sits at `label_col`.
pub open spec fn prefix_start(label_col: int, typed_len: int) -> int {
    if label_col >= typed_len - 1 { label_col - (typed_len - 1) } else { 0 }
}

/// Column `i` is one of the prefix characters before a label.
pub open spec fn in_jump_match(labels: Seq<(usize, char)>, typed_len: int, i: int) -> bool {
    typed_len > 1 && exists|k: int|
        0 <= k < labels.len() && prefix_start((#[trigger] labels[k]).0 as int, typed_len) <= i && i < labels[k].0
}

/// Column `i` is one of the typed characters of a partial match.
pub open spec fn in_partial(cols: Seq<usize>, typed_len: int, i: int) -> bool {
    typed_len > 0 && exists|k: int| 0 <= k < cols.len() && prefix_start(#[trigger] cols[k] as int, typed_len) <= i && i <= cols[k]
}

/// Search match `m` (start column, current or not) covers column `i`.
pub open spec fn covers(m: (usize, bool), qlen: int, i: int) -> bool {
    m.0 <= i && i < m.0 + qlen
}

/// Whether column `i` lies in a search match, and if so whether one of
/// the matches covering it is the current one (the current match is drawn
/// over the others).
pub open spec fn search_at(matches: Seq<(usize, bool)>, qlen: int, i: int) -> Option<bool> {
    if exists|k: int| 0 <= k < matches.len() && covers(#[trigger] matches[k], qlen, i) && matches[k].1 {
        Some(true)
    } else if exists|k: int| 0 <= k < matches.len() && covers(#[trigger] matches[k], qlen, i) {
        Some(false)
    } else {
        None
    }
}

/// The character and style drawn for cell `i`, by priority: jump label,
/// jump prefix, partial match, cursor, search match, selection, then the
/// cell's own style.
pub open spec fn cell_look(cells: Seq<StyledChar>, i: int, o: LineOverlays, t: Theme) -> (char, Style) {
    let ch = cells[i].ch;
    match label_at(o.labels, i) {
        Some(lc) => (lc, label_style(t)),
        None => if in_jump_match(o.labels, o.typed_len as int, i) {
            (ch, match_style(t))
        } else if in_partial(o.partial_cols, o.typed_len as int, i) {
            (ch, partial_style(t))
        } else if o.cursor_col == Some(i as usize) {
            (ch, cursor_style(t))
        } else if o.query_len > 0 && search_at(o.search, o.query_len as int, i) is Some {
            (ch, if search_at(o.search, o.query_len as int, i)->0 { search_current_style(t) } else { search_style(t) })
        } else if (o.sel_range matches Some((s, e)) && s <= i && i <= e) {
            (ch, sel_style(t))
        } else {
            (ch, cells[i].style)
        },
    }
}

/// The blank cells drawn past the end of a line of `n` cells: the block
/// selection's padding (with the cursor's cell in cursor style), or one
/// cell for a cursor past the end.
pub open spec fn past_end(n: int, o: LineOverlays, t: Theme) -> Seq<(char, Style)> {
    let past = o.cursor_col matches Some(c) && c >= n;
    if o.sel_pad > 0 {
        Seq::new(
            o.sel_pad as nat,
            |k: int| (' ', if past && (o.cursor_col matches Some(c) && c == n + k) { cursor_style(t) } else { sel_style(t) }),
        )
    } else if past {
        seq![(' ', if (o.sel_range matches Some((s, e)) && s <= n && n <= e) { sel_style(t) } else { cursor_style(t) })]
    } else {
        seq![]
    }
}

/// Every drawn cell of a line, in order.
pub open spec fn line_looks(cells: Seq<StyledChar>, o: LineOverlays, t: Theme) -> Seq<(char, Style)> {
    Seq::new(cells.len(), |i: int| cell_look(cells, i, o, t)) + past_end(cells.len() as int, o, t)
}

/// `spans` cut `looks` into maximal runs: each span is a non-empty run of
/// cells sharing its style, the spans cover the cells in order, and
/// neighbouring spans differ in style.
pub open spec fn runs_of(spans: Seq<(Seq<char>, Style)>, looks: Seq<(char, Style)>) -> bool
    decreases spans.len(),
{
    if spans.len() == 0 {
        looks.len() == 0
    } else {
        let last = spans.last();
        let n = last.0.len() as int;
        let m = looks.len() - n;
        &&& n > 0
        &&& m >= 0
        &&& forall|q: int| 0 <= q < n ==> #[trigger] looks[m + q] == (last.0[q], last.1)
        &&& runs_of(spans.drop_last(), looks.take(m))
        &&& spans.len() > 1 ==> spans[spans.len() - 2].1 != last.1
    }
}


/// The text of a sequence of spans, one after the other.
pub open spec fn span_text(spans: Seq<(Seq<char>, Style)>) -> Seq<char>
    decreases spans.len(),
{
    if spans.len() == 0 {
        seq![]
    } else {
        span_text(spans.drop_last()) + spans.last().0
    }
}

/// Spans that cut a line's drawn cells into runs spell out exactly the
/// drawn characters, in order.
pub proof fn law_spans_spell_the_line(spans: Seq<(Seq<char>, Style)>, looks: Seq<(char, Style)>)
    requires
        runs_of(spans, looks),
    ensures
        span_text(spans) == looks.map_values(|l: (char, Style)| l.0),
    decreases spans.len(),
{
    if spans.len() > 0 {
        let last = spans.last();
        let n = last.0.len() as int;
        let m = looks.len() - n;
        law_spans_spell_the_line(spans.drop_last(), looks.take(m));
        let whole = looks.map_values(|l: (char, Style)| l.0);
        let head = looks.take(m).map_values(|l: (char, Style)| l.0);
        assert forall|i: int| 0 <= i < whole.len() implies whole[i] == (head + last.0)[i] by {
            if i >= m {
                assert(looks[m + (i - m)] == (last.0[i - m], last.1));
            }
        }
        assert(whole =~= head + last.0);
    } else {
        assert(looks.map_values(|l: (char, Style)| l.0) =~= Seq::<char>::empty());
    }
}

/// With no jump overlay on a line, the cursor's cell is drawn in the
/// cursor colors (background `cursor_bg`, foreground `cursor_fg`, no
/// emphasis) whatever search matches or selection cover it; a cell off the
/// cursor that the current search match covers is drawn in the current
/// match's colors (background `search_current_bg`, foreground `search_fg`,
/// bold), one covered by other matches only in `search_match_bg` /
/// `search_fg`; every cell keeps its character.
pub proof fn law_cursor_drawn_over_search(cells: Seq<StyledChar>, o: LineOverlays, t: Theme, i: int)
    requires
        0 <= i < cells.len(),
        o.labels.len() == 0,
        o.partial_cols.len() == 0,
    ensures
        line_looks(cells, o, t)[i].0 == cells[i].ch,
        o.cursor_col == Some(i as usize) ==> line_looks(cells, o, t)[i].1 == (Style {
            fg: Some(t.cursor_fg),
            bg: Some(t.cursor_bg),
            underline_color: None,
            add_modifier: 0,
            sub_modifier: 0,
        }),
        (o.cursor_col != Some(i as usize) && o.query_len > 0 && exists|k: int|
            0 <= k < o.search.len() && (#[trigger] o.search[k]).1 && o.search[k].0 <= i < o.search[k].0 + o.query_len)
            ==> line_looks(cells, o, t)[i].1 == (Style {
                fg: Some(t.search_fg),
                bg: Some(t.search_current_bg),
                underline_color: None,
                add_modifier: MODIFIER_BOLD,
                sub_modifier: 0,
            }),
        (o.cursor_col != Some(i as usize) && o.query_len > 0
            && (exists|k: int| 0 <= k < o.search.len() && (#[trigger] o.search[k]).0 <= i < o.search[k].0 + o.query_len)
            && !(exists|k: int| 0 <= k < o.search.len() && (#[trigger] o.search[k]).1 && o.search[k].0 <= i < o.search[k].0 + o.query_len))
            ==> line_looks(cells, o, t)[i].1 == (Style {
                fg: Some(t.search_fg),
                bg: Some(t.search_match_bg),
                underline_color: None,
                add_modifier: 0,
                sub_modifier: 0,
            }),
{
    assert(label_at(o.labels, i) is None);
    assert(line_looks(cells, o, t)[i] == cell_look(cells, i, o, t));
    if exists|k: int| 0 <= k < o.search.len() && (#[trigger] o.search[k]).1 && o.search[k].0 <= i < o.search[k].0 + o.query_len {
        let k = choose|k: int| 0 <= k < o.search.len() && (#[trigger] o.search[k]).1 && o.search[k].0 <= i < o.search[k].0 + o.query_len;
        assert(covers(o.search[k], o.query_len as int, i));
    }
    if exists|k: int| 0 <= k < o.search.len() && (#[trigger] o.search[k]).0 <= i < o.search[k].0 + o.query_len {
        let k = choose|k: int| 0 <= k < o.search.len() && (#[trigger] o.search[k]).0 <= i < o.search[k].0 + o.query_len;
        assert(covers(o.search[k], o.query_len as int, i));
    }
}

proof fn lemma_label_at_first(labels: Seq<(usize, char)>, i: int, k: int)
    requires
        0 <= k < labels.len(),
        labels[k].0 == i,
        forall|k2: int| 0 <= k2 < k ==> (#[trigger] labels[k2]).0 != i,
    ensures
        label_at(labels, i) == Some(labels[k].1),
    decreases k,
{
    if k > 0 {
        assert(labels[0].0 != i);
        assert forall|k2: int| 0 <= k2 < k - 1 implies (#[trigger] labels.drop_first()[k2]).0 != i by {
            assert(labels.drop_first()[k2] == labels[k2 + 1]);
        }
        lemma_label_at_first(labels.drop_first(), i, k - 1);
    }
}

proof fn lemma_label_at_none(labels: Seq<(usize, char)>, i: int)
    requires
        forall|k: int| 0 <= k < labels.len() ==> (#[trigger] labels[k]).0 != i,
    ensures
        label_at(labels, i) is None,
    decreases labels.len(),
{
    if labels.len() > 0 {
        assert(labels[0].0 != i);
        assert forall|k: int| 0 <= k < labels.len() - 1 implies (#[trigger] labels.drop_first()[k]).0 != i by {
            assert(labels.drop_first()[k] == labels[k + 1]);
        }
        lemma_label_at_none(labels.drop_first(), i);
    }
}

/// A cell where a jump label sits shows the first such label's character
/// in the label colors (background `jump_label_bg`, foreground
/// `jump_label_fg`, bold), over every other mark.
pub proof fn law_labels_drawn_over_everything(cells: Seq<StyledChar>, o: LineOverlays, t: Theme, i: int, k: int)
    requires
        0 <= i < cells.len(),
        0 <= k < o.labels.len(),
        o.labels[k].0 == i,
        forall|k2: int| 0 <= k2 < k ==> (#[trigger] o.labels[k2]).0 != i,
    ensures
        line_looks(cells, o, t)[i] == (o.labels[k].1, Style {
            fg: Some(t.jump_label_fg),
            bg: Some(t.jump_label_bg),
            underline_color: None,
            add_modifier: MODIFIER_BOLD,
            sub_modifier: 0,
        }),
{
    lemma_label_at_first(o.labels, i, k);
    assert(line_looks(cells, o, t)[i] == cell_look(cells, i, o, t));
}

/// With no jump or search mark and no cursor on a cell, the cell is drawn
/// in the selection colors (background `sel_bg`, foreground `sel_fg`) when
/// the selection range covers it, else in its own style.
pub proof fn law_selection_and_plain_cells(cells: Seq<StyledChar>, o: LineOverlays, t: Theme, i: int)
    requires
        0 <= i < cells.len(),
        o.labels.len() == 0,
        o.partial_cols.len() == 0,
        o.search.len() == 0,
        o.cursor_col != Some(i as usize),
    ensures
        (o.sel_range matches Some((s, e)) && s <= i && i <= e) ==> line_looks(cells, o, t)[i] == (cells[i].ch, Style {
            fg: Some(t.sel_fg),
            bg: Some(t.sel_bg),
            underline_color: None,
            add_modifier: 0,
            sub_modifier: 0,
        }),
        !(o.sel_range matches Some((s, e)) && s <= i && i <= e) ==> line_looks(cells, o, t)[i] == (cells[i].ch, cells[i].style),
{
    lemma_label_at_none(o.labels, i);
    assert(search_at(o.search, o.query_len as int, i) is None);
    assert(line_looks(cells, o, t)[i] == cell_look(cells, i, o, t));
}

/// The overlays of one line, as values.
pub open spec fn overlays_of(
    cursor_col: Option<usize>,
    sel_range: Option<(usize, usize)>,
    sel_pad: usize,
    jump: JumpOverlay,
    search: SearchOverlay,
) -> LineOverlays {
    LineOverlays {
        cursor_col,
        sel_range,
        sel_pad,
        labels: jump.labels@,
        partial_cols: jump.partial_cols@,
        typed_len: jump.typed_len,
        search: search.matches@,
        query_len: search.query_len,
    }
}

fn label_at_exec(labels: &[(usize, char)], i: usize) -> (r: Option<char>)
    ensures
        r == label_at(labels@, i as int),
{
    let n = labels.len();
    let mut k: usize = 0;
    assert(labels@.skip(0) =~= labels@);
    while k < n
        invariant
            n == labels@.len(),
            k <= n,
            label_at(labels@, i as int) == label_at(labels@.skip(k as int), i as int),
        decreases n - k,
    {
        assert(labels@.skip(k as int)[0] == labels@[k as int]);
        if labels[k].0 == i {
            return Some(labels[k].1);
        }
        assert(labels@.skip(k as int).drop_first() =~= labels@.skip(k + 1));
        k = k + 1;
    }
    None
}

fn prefix_start_exec(label_col: usize, typed_len: usize) -> (r: usize)
    requires
        typed_len >= 1,
    ensures
        r == prefix_start(label_col as int, typed_len as int),
{
    if label_col >= typed_len - 1 { label_col - (typed_len - 1) } else { 0 }
}

fn in_jump_match_exec(labels: &[(usize, char)], typed_len: usize, i: usize) -> (r: bool)
    ensures
        r == in_jump_match(labels@, typed_len as int, i as int),
{
    if typed_len <= 1 {
        return false;
    }
    let n = labels.len();
    let mut k: usize = 0;
    while k < n
        invariant
            n == labels@.len(),
            k <= n,
            typed_len > 1,
            forall|j: int| 0 <= j < k ==> !(prefix_start((#[trigger] labels@[j]).0 as int, typed_len as int) <= i && i < labels@[j].0),
        decreases n - k,
    {
        let lc = labels[k].0;
        if prefix_start_exec(lc, typed_len) <= i && i < lc {
            return true;
        }
        k = k + 1;
    }
    false
}

fn in_partial_exec(cols: &[usize], typed_len: usize, i: usize) -> (r: bool)
    ensures
        r == in_partial(cols@, typed_len as int, i as int),
{
    if typed_len == 0 {
        return false;
    }
    let n = cols.len();
    let mut k: usize = 0;
    while k < n
        invariant
            n == cols@.len(),
            k <= n,
            typed_len > 0,
            forall|j: int| 0 <= j < k ==> !(prefix_start(#[trigger] cols@[j] as int, typed_len as int) <= i && i <= cols@[j]),
        decreases n - k,
    {
        let pc = cols[k];
        if prefix_start_exec(pc, typed_len) <= i && i <= pc {
            return true;
        }
        k = k + 1;
    }
    false
}

fn search_at_exec(matches: &[(usize, bool)], qlen: usize, i: usize) -> (r: Option<bool>)
    ensures
        r == search_at(matches@, qlen as int, i as int),
{
    let n = matches.len();
    let mut any = false;
    let mut current = false;
    let mut k: usize = 0;
    while k < n
        invariant
            n == matches@.len(),
            k <= n,
            any == exists|j: int| 0 <= j < k && covers(#[trigger] matches@[j], qlen as int, i as int),
            current == exists|j: int| 0 <= j < k && covers(#[trigger] matches@[j], qlen as int, i as int) && matches@[j].1,
        decreases n - k,
    {
        let (mc, cur) = matches[k];
        if mc <= i && i - mc < qlen {
            any = true;
            if cur {
                current = true;
            }
        }
        proof {
            if covers(matches@[k as int], qlen as int, i as int) {
                assert(0 <= k < k + 1 && covers(matches@[k as int], qlen as int, i as int));
            }
            assert forall|j: int| 0 <= j < k + 1 && covers(#[trigger] matches@[j], qlen as int, i as int)
                implies j < k || (mc <= i && i - mc < qlen) by {}
        }
        k = k + 1;
    }
    if current {
        Some(true)
    } else if any {
        Some(false)
    } else {
        None
    }
}

fn look_of_cell(
    cells: &[StyledChar],
    i: usize,
    cursor_col: Option<usize>,
    sel_range: Option<(usize, usize)>,
    jump: &JumpOverlay,
    search: &SearchOverlay,
    theme: &Theme,
    Ghost(o): Ghost<LineOverlays>,
) -> (r: (char, Style))
    requires
        i < cells@.len(),
        o.cursor_col == cursor_col,
        o.sel_range == sel_range,
        o.labels == jump.labels@,
        o.partial_cols == jump.partial_cols@,
        o.typed_len == jump.typed_len,
        o.search == search.matches@,
        o.query_len == search.query_len,
    ensures
        r == cell_look(cells@, i as int, o, *theme),
{
    let ch = cells[i].ch;
    proof { crate::style::lemma_bold_bits(); }
    match label_at_exec(jump.labels, i) {
        Some(lc) => {
            return (lc, Style::new().bg(theme.jump_label_bg).fg(theme.jump_label_fg).add_modifier(MODIFIER_BOLD));
        },
        None => {},
    }
    if in_jump_match_exec(jump.labels, jump.typed_len, i) {
        return (ch, Style::new().fg(theme.jump_match_fg).add_modifier(MODIFIER_BOLD));
    }
    if in_partial_exec(jump.partial_cols, jump.typed_len, i) {
        return (ch, Style::new().fg(theme.jump_partial_fg).add_modifier(MODIFIER_BOLD));
    }
    if cursor_col == Some(i) {
        return (ch, Style::new().bg(theme.cursor_bg).fg(theme.cursor_fg));
    }
    if search.query_len > 0 {
        match search_at_exec(search.matches, search.query_len, i) {
            Some(is_cur) => {
                let st = if is_cur {
                    Style::new().bg(theme.search_current_bg).fg(theme.search_fg).add_modifier(MODIFIER_BOLD)
                } else {
                    Style::new().bg(theme.search_match_bg).fg(theme.search_fg)
                };
                return (ch, st);
            },
            None => {},
        }
    }
    match sel_range {
        Some((s, e)) => {
            if s <= i && i <= e {
                return (ch, Style::new().bg(theme.sel_bg).fg(theme.sel_fg));
            }
        },
        None => {},
    }
    (ch, cells[i].style)
}

/// Builds the styled spans of one line of cells.
///
/// Each cell is drawn by the priority of `cell_look`; past the end, the
/// block selection's padding or a cursor past the end adds blank cells.
/// Consecutive cells of one style merge into one span; a line with no
/// cells at all is one empty, unstyled span.
pub fn build_line_spans(
    cells: &[StyledChar],
    cursor_col: Option<usize>,
    sel_range: Option<(usize, usize)>,
    sel_pad: usize,
    jump: JumpOverlay,
    search: SearchOverlay,
    theme: &Theme,
) -> (spans: Vec<Span>)
    ensures
        line_looks(cells@, overlays_of(cursor_col, sel_range, sel_pad, jump, search), *theme).len() == 0 ==> spans@.map_values(
            |s: Span| s@,
        ) == seq![(Seq::<char>::empty(), plain_style())],
        line_looks(cells@, overlays_of(cursor_col, sel_range, sel_pad, jump, search), *theme).len() > 0 ==> runs_of(
            spans@.map_values(|s: Span| s@),
            line_looks(cells@, overlays_of(cursor_col, sel_range, sel_pad, jump, search), *theme),
        ),
{
    let ghost o = overlays_of(cursor_col, sel_range, sel_pad, jump, search);
    let ghost looks_spec = line_looks(cells@, o, *theme);
    let n = cells.len();
    let mut looks: Vec<(char, Style)> = Vec::new();
    let mut i: usize = 0;
    while i < n
        invariant
            n == cells@.len(),
            i <= n,
            o == overlays_of(cursor_col, sel_range, sel_pad, jump, search),
            looks@ == Seq::new(n as nat, |j: int| cell_look(cells@, j, o, *theme)).take(i as int),
        decreases n - i,
    {
        let l = look_of_cell(cells, i, cursor_col, sel_range, &jump, &search, theme, Ghost(o));
        looks.push(l);
        i = i + 1;
        assert(looks@ =~= Seq::new(n as nat, |j: int| cell_look(cells@, j, o, *theme)).take(i as int));
    }
    let ghost body = looks@;
    assert(body =~= Seq::new(n as nat, |j: int| cell_look(cells@, j, o, *theme)));
    let cursor_past_end = match cursor_col {
        Some(c) => c >= n,
        None => false,
    };
    let cursor_st = Style::new().bg(theme.cursor_bg).fg(theme.cursor_fg);
    let sel_st = Style::new().bg(theme.sel_bg).fg(theme.sel_fg);
    if sel_pad > 0 {
        let mut k: usize = 0;
        while k < sel_pad
            invariant
                k <= sel_pad,
                n == cells@.len(),
                cursor_st == cursor_style(*theme),
                sel_st == sel_style(*theme),
                o == overlays_of(cursor_col, sel_range, sel_pad, jump, search),
                cursor_past_end == (cursor_col matches Some(c) && c >= n),
                looks@ == body + past_end(n as int, o, *theme).take(k as int),
            decreases sel_pad - k,
        {
            let at_cursor = match cursor_col {
                Some(c) => cursor_past_end && c - n == k,
                None => false,
            };
            looks.push((' ', if at_cursor { cursor_st } else { sel_st }));
            k = k + 1;
            assert(looks@ =~= body + past_end(n as int, o, *theme).take(k as int));
        }
        assert(past_end(n as int, o, *theme).take(sel_pad as int) =~= past_end(n as int, o, *theme));
    } else if cursor_past_end {
        let st = match sel_range {
            Some((s, e)) => if s <= n && n <= e { sel_st } else { cursor_st },
            None => cursor_st,
        };
        looks.push((' ', st));
        assert(looks@ =~= body + past_end(n as int, o, *theme));
    } else {
        assert(looks@ =~= body + past_end(n as int, o, *theme));
    }
    assert(looks@ == looks_spec);
    // Merge consecutive cells with the same style into spans.
    let mut spans: Vec<Span> = Vec::new();
    let mut run = String::new();
    let mut run_style = Style::new();
    let total = looks.len();
    let mut k: usize = 0;
    while k < total
        invariant
            total == looks@.len(),
            k <= total,
            k == 0 ==> spans@.len() == 0 && run@.len() == 0,
            k > 0 ==> run@.len() > 0 && runs_of(
                spans@.map_values(|s: Span| s@).push((run@, run_style)),
                looks@.take(k as int),
            ),
        decreases total - k,
    {
        let (ch, st) = looks[k];
        let ghost prev_spans = spans@.map_values(|s: Span| s@);
        let ghost prev_run = run@;
        let ghost prev_style = run_style;
        if st != run_style {
            if !run.as_str().is_empty() {
                let done = Span { content: run, style: run_style };
                spans.push(done);
                run = String::new();
                assert(spans@.map_values(|s: Span| s@) =~= prev_spans.push((prev_run, prev_style)));
            }
            run_style = st;
        }
        push_char(&mut run, ch);
        proof {
            let cur = spans@.map_values(|s: Span| s@).push((run@, run_style));
            let lk = looks@.take(k + 1);
            assert(lk.take(k as int) =~= looks@.take(k as int));
            if k > 0 && st == prev_style {
                let old_cur = prev_spans.push((prev_run, prev_style));
                let lk0 = looks@.take(k as int);
                assert(runs_of(old_cur, lk0));
                assert(old_cur.drop_last() =~= prev_spans);
                assert(old_cur.last() == (prev_run, prev_style));
                assert(spans@.map_values(|s: Span| s@) =~= prev_spans);
                assert(cur.drop_last() =~= prev_spans);
                assert(cur.last() == (run@, run_style));
                assert(run@ == prev_run.push(ch));
                let m = k + 1 - run@.len();
                assert(m == k - prev_run.len());
                assert(lk.take(m) =~= lk0.take(m));
                assert(runs_of(prev_spans, lk0.take(m)));
                assert forall|q: int| 0 <= q < run@.len() implies #[trigger] lk[m + q] == (run@[q], run_style) by {
                    if q < prev_run.len() {
                        assert(lk0[m + q] == (prev_run[q], prev_style));
                        assert(lk[m + q] == lk0[m + q]);
                    } else {
                        assert(lk[m + q] == looks@[k as int]);
                    }
                }
                if cur.len() > 1 {
                    assert(cur[cur.len() - 2] == old_cur[old_cur.len() - 2]);
                }
                assert(runs_of(cur, lk));
            } else {
                assert(run@ =~= seq![ch]);
                assert(run_style == st);
                assert(lk[k as int] == (ch, st));
                assert(cur.last() == (run@, run_style));
                if k > 0 {
                    assert(cur.drop_last() =~= prev_spans.push((prev_run, prev_style)));
                    assert(cur[cur.len() - 2] == (prev_run, prev_style));
                    assert(lk.take(k as int) =~= looks@.take(k as int));
                } else {
                    assert(cur.drop_last() =~= Seq::<(Seq<char>, Style)>::empty());
                    assert(lk.take(0) =~= Seq::<(char, Style)>::empty());
                }
                assert(lk.len() == k + 1);
                assert(run@.len() == 1);
                assert(runs_of(cur.drop_last(), lk.take(k as int)));
                assert forall|q: int| 0 <= q < run@.len() implies #[trigger] lk[(lk.len() - run@.len()) + q] == (run@[q], run_style) by {
                    assert(q == 0);
                }
                assert(runs_of(cur, lk));
            }
        }
        k = k + 1;
    }
    assert(looks@.take(total as int) =~= looks@);
    if !run.as_str().is_empty() {
        let ghost prev_spans = spans@.map_values(|s: Span| s@);
        let last = Span { content: run, style: run_style };
        spans.push(last);
        assert(spans@.map_values(|s: Span| s@) =~= prev_spans.push(last@));
    }
    if spans.len() == 0 {
        spans.push(Span { content: String::new(), style: Style::new() });
        assert(spans@.map_values(|s: Span| s@) =~= seq![(Seq::<char>::empty(), plain_style())]);
    }
    spans
}

} // verus!
