//! Laws of viewer navigation: what stays in view after a key, and which
//! moves undo each other.

use vstd::prelude::*;
use crate::viewer::{
    Key, State, avail_width, line_view_spec, max_line_len, handle_key_spec, line_len_of, min_int, move_down_spec, move_left_spec,
    move_right_spec, move_up_spec, recenter_spec, sat_sub,
    scroll_cursor_into_view_spec, scroll_x_into_view_spec, state_wf,
};

verus! {

/// The cursor line lies within the rows on screen.
pub open spec fn cursor_line_visible(s: State) -> bool {
    s.scroll_y <= s.cursor.0 < s.scroll_y + s.content_rows
}

/// The cursor column lies within the text columns on screen, short of
/// the last one, which is kept for the overflow marker.
pub open spec fn cursor_col_visible(s: State) -> bool {
    s.scroll_x <= s.cursor.1 < s.scroll_x + avail_width(s.content_rows as int, s.content_cols as int) - 1
}

proof fn lemma_scroll_x_shows_col(s: State)
    requires
        avail_width(s.content_rows as int, s.content_cols as int) >= 2,
        s.cursor.1 <= usize::MAX - 2,
    ensures
        cursor_col_visible(scroll_x_into_view_spec(s)),
        scroll_x_into_view_spec(s).scroll_y == s.scroll_y,
        scroll_x_into_view_spec(s).cursor == s.cursor,
        scroll_x_into_view_spec(s).content_rows == s.content_rows,
        scroll_x_into_view_spec(s).content_cols == s.content_cols,
{
}

proof fn lemma_scroll_x_keeps_rows(s: State)
    ensures
        scroll_x_into_view_spec(s).scroll_y == s.scroll_y,
        scroll_x_into_view_spec(s).cursor == s.cursor,
        scroll_x_into_view_spec(s).content_rows == s.content_rows,
        scroll_x_into_view_spec(s).content_cols == s.content_cols,
        scroll_x_into_view_spec(s).lines == s.lines,
{
}

proof fn lemma_scroll_cursor_shows_line(s: State)
    requires
        s.content_rows > 0,
        s.cursor.0 + 1 <= usize::MAX,
    ensures
        cursor_line_visible(scroll_cursor_into_view_spec(s)),
{
    let c = s.cursor.0 as int;
    let sy = if c < s.scroll_y {
        c
    } else if c >= s.scroll_y + s.content_rows {
        c + 1 - s.content_rows
    } else {
        s.scroll_y as int
    };
    lemma_scroll_x_keeps_rows(State { scroll_y: sy as usize, ..s });
}

proof fn lemma_recenter_shows_line(s: State)
    requires
        s.content_rows > 0,
        s.cursor.0 < s.lines@.len() || s.cursor.0 == 0,
    ensures
        cursor_line_visible(recenter_spec(s)),
{
    let ideal = sat_sub(s.cursor.0 as int, s.content_rows as int / 2);
    let max_scroll = sat_sub(s.lines@.len() as int, s.content_rows as int);
    lemma_scroll_x_keeps_rows(State { scroll_y: min_int(ideal, max_scroll) as usize, ..s });
}

/// With at least one row on screen, every key keeps a visible cursor
/// line visible: vertical moves scroll just enough, page keys recenter,
/// and panning and the other keys leave the rows alone.
pub proof fn law_keys_keep_cursor_line_visible(s: State, key: Key, only_shift: bool)
    requires
        state_wf(s),
        s.content_rows > 0,
        cursor_line_visible(s),
    ensures
        cursor_line_visible(handle_key_spec(s, key, only_shift).0),
{
    let s0 = State { message: None, ..s };
    match key {
        Key::Up => {
            if s0.cursor.0 != 0 {
                let l = s0.cursor.0 - 1;
                let c = min_int(s0.cursor.1 as int, line_len_of(s0.lines@, l));
                lemma_scroll_cursor_shows_line(State { cursor: (l as usize, c as usize), ..s0 });
            }
        },
        Key::Down => {
            if s0.cursor.0 + 1 < s0.lines@.len() {
                let l = s0.cursor.0 + 1;
                let c = min_int(s0.cursor.1 as int, line_len_of(s0.lines@, l));
                lemma_scroll_cursor_shows_line(State { cursor: (l as usize, c as usize), ..s0 });
            }
        },
        Key::Left => {
            if !only_shift {
                if s0.cursor.1 > 0 {
                    lemma_scroll_x_keeps_rows(State { cursor: (s0.cursor.0, (s0.cursor.1 - 1) as usize), ..s0 });
                } else if s0.cursor.0 > 0 {
                    let l = s0.cursor.0 - 1;
                    lemma_scroll_cursor_shows_line(
                        State { cursor: (l as usize, line_len_of(s0.lines@, l) as usize), ..s0 },
                    );
                }
            }
        },
        Key::Right => {
            if !only_shift {
                let len = line_len_of(s0.lines@, s0.cursor.0 as int);
                if s0.cursor.1 < len {
                    lemma_scroll_x_keeps_rows(State { cursor: (s0.cursor.0, (s0.cursor.1 + 1) as usize), ..s0 });
                } else if s0.cursor.0 + 1 < s0.lines@.len() {
                    lemma_scroll_cursor_shows_line(State { cursor: ((s0.cursor.0 + 1) as usize, 0), ..s0 });
                }
            }
        },
        Key::PageUp => {
            let half = if s0.content_rows / 2 >= 1 { s0.content_rows / 2 } else { 1 };
            let l = sat_sub(s0.cursor.0 as int, half as int);
            let c = min_int(s0.cursor.1 as int, line_len_of(s0.lines@, l));
            lemma_recenter_shows_line(State { cursor: (l as usize, c as usize), ..s0 });
        },
        Key::PageDown => {
            let half = if s0.content_rows / 2 >= 1 { s0.content_rows / 2 } else { 1 };
            let last = sat_sub(s0.lines@.len() as int, 1);
            let l = min_int(s0.cursor.0 + half, last);
            let c = min_int(s0.cursor.1 as int, line_len_of(s0.lines@, l));
            lemma_recenter_shows_line(State { cursor: (l as usize, c as usize), ..s0 });
        },
        _ => {},
    }
}

proof fn lemma_scroll_cursor_keeps(s: State)
    ensures
        scroll_cursor_into_view_spec(s).cursor == s.cursor,
        scroll_cursor_into_view_spec(s).lines == s.lines,
{
    let c = s.cursor.0 as int;
    let sy = if c < s.scroll_y {
        c
    } else if c >= s.scroll_y + s.content_rows {
        c + 1 - s.content_rows
    } else {
        s.scroll_y as int
    };
    lemma_scroll_x_keeps_rows(State { scroll_y: sy as usize, ..s });
}

proof fn lemma_scroll_cursor_shows_col(s: State)
    requires
        avail_width(s.content_rows as int, s.content_cols as int) >= 2,
        s.cursor.1 <= usize::MAX - 2,
    ensures
        cursor_col_visible(scroll_cursor_into_view_spec(s)),
{
    let c = s.cursor.0 as int;
    let sy = if c < s.scroll_y {
        c
    } else if c >= s.scroll_y + s.content_rows {
        c + 1 - s.content_rows
    } else {
        s.scroll_y as int
    };
    lemma_scroll_x_shows_col(State { scroll_y: sy as usize, ..s });
}

proof fn lemma_recenter_shows_col(s: State)
    requires
        avail_width(s.content_rows as int, s.content_cols as int) >= 2,
        s.cursor.1 <= usize::MAX - 2,
    ensures
        cursor_col_visible(recenter_spec(s)),
{
    let ideal = sat_sub(s.cursor.0 as int, s.content_rows as int / 2);
    let max_scroll = sat_sub(s.lines@.len() as int, s.content_rows as int);
    lemma_scroll_x_shows_col(State { scroll_y: min_int(ideal, max_scroll) as usize, ..s });
}

/// With at least two text columns on screen, every key but a pan keeps a
/// visible cursor column visible: moves scroll sideways just enough to
/// show it.
pub proof fn law_moves_keep_cursor_column_visible(s: State, key: Key, only_shift: bool)
    requires
        state_wf(s),
        avail_width(s.content_rows as int, s.content_cols as int) >= 2,
        cursor_col_visible(s),
        !(only_shift && (key is Left || key is Right)),
    ensures
        cursor_col_visible(handle_key_spec(s, key, only_shift).0),
{
    let s0 = State { message: None, ..s };
    let n = s0.lines@.len();
    match key {
        Key::Up => {
            if s0.cursor.0 != 0 {
                let l = s0.cursor.0 - 1;
                let c = min_int(s0.cursor.1 as int, line_len_of(s0.lines@, l));
                lemma_scroll_cursor_shows_col(State { cursor: (l as usize, c as usize), ..s0 });
            }
        },
        Key::Down => {
            if s0.cursor.0 + 1 < n {
                let l = s0.cursor.0 + 1;
                let c = min_int(s0.cursor.1 as int, line_len_of(s0.lines@, l));
                lemma_scroll_cursor_shows_col(State { cursor: (l as usize, c as usize), ..s0 });
            }
        },
        Key::Left => {
            if s0.cursor.1 > 0 {
                lemma_scroll_x_shows_col(State { cursor: (s0.cursor.0, (s0.cursor.1 - 1) as usize), ..s0 });
            } else if s0.cursor.0 > 0 {
                let l = s0.cursor.0 - 1;
                assert(s0.lines@[l]@.len() <= isize::MAX);
                lemma_scroll_cursor_shows_col(
                    State { cursor: (l as usize, line_len_of(s0.lines@, l) as usize), ..s0 },
                );
            }
        },
        Key::Right => {
            let len = line_len_of(s0.lines@, s0.cursor.0 as int);
            if s0.cursor.1 < len {
                assert(s0.lines@[s0.cursor.0 as int]@.len() <= isize::MAX);
                lemma_scroll_x_shows_col(State { cursor: (s0.cursor.0, (s0.cursor.1 + 1) as usize), ..s0 });
            } else if s0.cursor.0 + 1 < n {
                lemma_scroll_cursor_shows_col(State { cursor: ((s0.cursor.0 + 1) as usize, 0), ..s0 });
            }
        },
        Key::PageUp => {
            let half = if s0.content_rows / 2 >= 1 { s0.content_rows / 2 } else { 1 };
            let l = sat_sub(s0.cursor.0 as int, half as int);
            let c = min_int(s0.cursor.1 as int, line_len_of(s0.lines@, l));
            lemma_recenter_shows_col(State { cursor: (l as usize, c as usize), ..s0 });
        },
        Key::PageDown => {
            let half = if s0.content_rows / 2 >= 1 { s0.content_rows / 2 } else { 1 };
            let last = sat_sub(n as int, 1);
            let l = min_int(s0.cursor.0 + half, last);
            let c = min_int(s0.cursor.1 as int, line_len_of(s0.lines@, l));
            lemma_recenter_shows_col(State { cursor: (l as usize, c as usize), ..s0 });
        },
        _ => {},
    }
}

/// A step right followed by a step left puts the cursor back where it
/// was, wherever a step right moves at all (anywhere but the end of the
/// last line).
pub proof fn law_left_undoes_right(s: State)
    requires
        state_wf(s),
        !(s.cursor.0 + 1 >= s.lines@.len() && s.cursor.1 == line_len_of(s.lines@, s.cursor.0 as int)),
    ensures
        move_left_spec(move_right_spec(s)).cursor == s.cursor,
{
    let len = line_len_of(s.lines@, s.cursor.0 as int);
    if s.cursor.1 < len {
        lemma_scroll_x_keeps_rows(State { cursor: (s.cursor.0, (s.cursor.1 + 1) as usize), ..s });
        let r = move_right_spec(s);
        lemma_scroll_x_keeps_rows(State { cursor: (r.cursor.0, (r.cursor.1 - 1) as usize), ..r });
    } else {
        lemma_scroll_cursor_keeps(State { cursor: ((s.cursor.0 + 1) as usize, 0), ..s });
        let r = move_right_spec(s);
        let l = r.cursor.0 - 1;
        lemma_scroll_cursor_keeps(State { cursor: (l as usize, line_len_of(r.lines@, l) as usize), ..r });
    }
}

/// A step left followed by a step right puts the cursor back where it
/// was, wherever a step left moves at all (anywhere but the start of the
/// first line).
pub proof fn law_right_undoes_left(s: State)
    requires
        state_wf(s),
        s.cursor != (0usize, 0usize),
    ensures
        move_right_spec(move_left_spec(s)).cursor == s.cursor,
{
    if s.cursor.1 > 0 {
        lemma_scroll_x_keeps_rows(State { cursor: (s.cursor.0, (s.cursor.1 - 1) as usize), ..s });
        let l = move_left_spec(s);
        lemma_scroll_x_keeps_rows(State { cursor: (l.cursor.0, (l.cursor.1 + 1) as usize), ..l });
    } else {
        let p = s.cursor.0 - 1;
        assert(s.lines@[p]@.len() <= isize::MAX);
        lemma_scroll_cursor_keeps(State { cursor: (p as usize, line_len_of(s.lines@, p) as usize), ..s });
        let l = move_left_spec(s);
        lemma_scroll_cursor_keeps(State { cursor: ((l.cursor.0 + 1) as usize, 0), ..l });
    }
}

/// A step down followed by a step up returns to the starting line, and to
/// the starting column when the line below reaches it.
pub proof fn law_up_undoes_down(s: State)
    requires
        state_wf(s),
        s.cursor.0 + 1 < s.lines@.len(),
    ensures
        move_up_spec(move_down_spec(s)).cursor.0 == s.cursor.0,
        s.cursor.1 <= line_len_of(s.lines@, s.cursor.0 + 1) ==> move_up_spec(move_down_spec(s)).cursor == s.cursor,
{
    let l = s.cursor.0 + 1;
    let c = min_int(s.cursor.1 as int, line_len_of(s.lines@, l));
    lemma_scroll_cursor_keeps(State { cursor: (l as usize, c as usize), ..s });
    let d = move_down_spec(s);
    let l2 = d.cursor.0 - 1;
    let c2 = min_int(d.cursor.1 as int, line_len_of(d.lines@, l2));
    lemma_scroll_cursor_keeps(State { cursor: (l2 as usize, c2 as usize), ..d });
}

/// A step up followed by a step down returns to the starting line, and to
/// the starting column when the line above reaches it.
pub proof fn law_down_undoes_up(s: State)
    requires
        state_wf(s),
        s.cursor.0 > 0,
    ensures
        move_down_spec(move_up_spec(s)).cursor.0 == s.cursor.0,
        s.cursor.1 <= line_len_of(s.lines@, s.cursor.0 - 1) ==> move_down_spec(move_up_spec(s)).cursor == s.cursor,
{
    let l = s.cursor.0 - 1;
    let c = min_int(s.cursor.1 as int, line_len_of(s.lines@, l));
    lemma_scroll_cursor_keeps(State { cursor: (l as usize, c as usize), ..s });
    let u = move_up_spec(s);
    let l2 = u.cursor.0 + 1;
    let c2 = min_int(u.cursor.1 as int, line_len_of(u.lines@, l2));
    lemma_scroll_cursor_keeps(State { cursor: (l2 as usize, c2 as usize), ..u });
}

/// Half a viewport, at least one line.
pub open spec fn half_page(rows: usize) -> int {
    if rows / 2 >= 1 { (rows / 2) as int } else { 1 }
}

/// Page keys move the cursor by half a viewport (at least one line):
/// PageUp to `max(0, line - half)`, PageDown to `min(last line, line +
/// half)`, with the column clamped to the new line's length. So PageUp
/// moves the cursor up whenever it is not on line 0, and PageDown moves it
/// down whenever it is not on the last line.
pub proof fn law_page_keys_move_half_a_viewport(s: State, only_shift: bool)
    requires
        state_wf(s),
    ensures
        ({
            let h = half_page(s.content_rows);
            let up = handle_key_spec(s, Key::PageUp, only_shift).0;
            let l = if s.cursor.0 >= h { s.cursor.0 - h } else { 0 };
            &&& up.cursor.0 == l
            &&& up.cursor.1 == (if s.cursor.1 <= line_len_of(s.lines@, l) { s.cursor.1 as int } else { line_len_of(s.lines@, l) })
            &&& s.cursor.0 > 0 ==> up.cursor.0 < s.cursor.0
        }),
        ({
            let h = half_page(s.content_rows);
            let down = handle_key_spec(s, Key::PageDown, only_shift).0;
            let last = if s.lines@.len() > 0 { s.lines@.len() - 1 } else { 0 };
            let l = if s.cursor.0 + h <= last { s.cursor.0 + h } else { last };
            &&& down.cursor.0 == l
            &&& down.cursor.1 == (if s.cursor.1 <= line_len_of(s.lines@, l) { s.cursor.1 as int } else { line_len_of(s.lines@, l) })
            &&& s.cursor.0 < last ==> down.cursor.0 > s.cursor.0
        }),
        handle_key_spec(s, Key::PageUp, only_shift).0.lines == s.lines,
        handle_key_spec(s, Key::PageDown, only_shift).0.lines == s.lines,
{
    let s0 = State { message: None, ..s };
    let half = if s0.content_rows / 2 >= 1 { s0.content_rows / 2 } else { 1 };
    let lu = sat_sub(s0.cursor.0 as int, half as int);
    let cu = min_int(s0.cursor.1 as int, line_len_of(s0.lines@, lu));
    let tu = State { cursor: (lu as usize, cu as usize), ..s0 };
    let ideal = sat_sub(tu.cursor.0 as int, tu.content_rows as int / 2);
    let max_scroll = sat_sub(tu.lines@.len() as int, tu.content_rows as int);
    lemma_scroll_x_keeps_rows(State { scroll_y: min_int(ideal, max_scroll) as usize, ..tu });
    let last = sat_sub(s0.lines@.len() as int, 1);
    let ld = min_int(s0.cursor.0 + half, last);
    let cd = min_int(s0.cursor.1 as int, line_len_of(s0.lines@, ld));
    let td = State { cursor: (ld as usize, cd as usize), ..s0 };
    let ideal2 = sat_sub(td.cursor.0 as int, td.content_rows as int / 2);
    let max_scroll2 = sat_sub(td.lines@.len() as int, td.content_rows as int);
    lemma_scroll_x_keeps_rows(State { scroll_y: min_int(ideal2, max_scroll2) as usize, ..td });
}

/// The arrow keys move the cursor one line or one column: Up to the line
/// above and Down to the line below (column clamped to that line), each
/// doing nothing at the first or last line.
pub proof fn law_arrow_keys_move_one_line(s: State)
    requires
        state_wf(s),
    ensures
        s.cursor.0 > 0 ==> handle_key_spec(s, Key::Up, false).0.cursor.0 == s.cursor.0 - 1,
        s.cursor.0 == 0 ==> handle_key_spec(s, Key::Up, false).0.cursor == s.cursor,
        s.cursor.0 + 1 < s.lines@.len() ==> handle_key_spec(s, Key::Down, false).0.cursor.0 == s.cursor.0 + 1,
        s.cursor.0 + 1 >= s.lines@.len() ==> handle_key_spec(s, Key::Down, false).0.cursor == s.cursor,
{
    let s0 = State { message: None, ..s };
    if s0.cursor.0 != 0 {
        let l = s0.cursor.0 - 1;
        let c = min_int(s0.cursor.1 as int, line_len_of(s0.lines@, l));
        lemma_scroll_cursor_keeps(State { cursor: (l as usize, c as usize), ..s0 });
    }
    if s0.cursor.0 + 1 < s0.lines@.len() {
        let l = s0.cursor.0 + 1;
        let c = min_int(s0.cursor.1 as int, line_len_of(s0.lines@, l));
        lemma_scroll_cursor_keeps(State { cursor: (l as usize, c as usize), ..s0 });
    }
}

/// On the cursor line, the view's cursor column is the cursor's column
/// less the horizontal scroll (0 when scrolled past it), so the drawn
/// cursor sits on the character at the cursor whenever that character is
/// in the window; other lines carry no cursor column.
pub proof fn law_line_view_cursor_column(s: State, h: int, width: int, abs: int)
    requires
        state_wf(s),
        0 <= abs < s.lines@.len(),
    ensures
        ({
            let v = line_view_spec(s, h, width, abs);
            &&& abs == s.cursor.0 ==> v.5 == Some((if s.cursor.1 >= s.scroll_x { s.cursor.1 - s.scroll_x } else { 0 }) as usize)
            &&& abs != s.cursor.0 ==> v.5 is None
            &&& (abs == s.cursor.0 && s.scroll_x <= s.cursor.1 && s.cursor.1 - s.scroll_x < v.4.len())
                ==> v.4[s.cursor.1 - s.scroll_x] == s.lines@[abs]@[s.cursor.1 as int]
            &&& forall|k: int| 0 <= k < v.4.len() ==> v.4[k] == #[trigger] s.lines@[abs]@[s.scroll_x + k]
        }),
{
}

/// Left and Right step one character: Left to the previous column, or
/// from column 0 to the end of the line above; Right to the next column,
/// or from a line's end to the start of the line below; nothing at the
/// very start or the very end of the text.
pub proof fn law_arrow_keys_move_one_column(s: State)
    requires
        state_wf(s),
    ensures
        s.cursor.1 > 0 ==> handle_key_spec(s, Key::Left, false).0.cursor == (s.cursor.0, (s.cursor.1 - 1) as usize),
        s.cursor.1 == 0 && s.cursor.0 > 0 ==> handle_key_spec(s, Key::Left, false).0.cursor
            == ((s.cursor.0 - 1) as usize, s.lines@[s.cursor.0 - 1]@.len() as usize),
        s.cursor == (0usize, 0usize) ==> handle_key_spec(s, Key::Left, false).0.cursor == s.cursor,
        s.cursor.1 < line_len_of(s.lines@, s.cursor.0 as int) ==> handle_key_spec(s, Key::Right, false).0.cursor
            == (s.cursor.0, (s.cursor.1 + 1) as usize),
        s.cursor.1 == line_len_of(s.lines@, s.cursor.0 as int) && s.cursor.0 + 1 < s.lines@.len()
            ==> handle_key_spec(s, Key::Right, false).0.cursor == ((s.cursor.0 + 1) as usize, 0usize),
        s.cursor.1 == line_len_of(s.lines@, s.cursor.0 as int) && s.cursor.0 + 1 >= s.lines@.len()
            ==> handle_key_spec(s, Key::Right, false).0.cursor == s.cursor,
{
    let s0 = State { message: None, ..s };
    if s0.cursor.1 > 0 {
        lemma_scroll_x_keeps_rows(State { cursor: (s0.cursor.0, (s0.cursor.1 - 1) as usize), ..s0 });
    } else if s0.cursor.0 > 0 {
        let l = s0.cursor.0 - 1;
        lemma_scroll_cursor_keeps(State { cursor: (l as usize, line_len_of(s0.lines@, l) as usize), ..s0 });
    }
    let len = line_len_of(s0.lines@, s0.cursor.0 as int);
    if s0.cursor.1 < len {
        lemma_scroll_x_keeps_rows(State { cursor: (s0.cursor.0, (s0.cursor.1 + 1) as usize), ..s0 });
    } else if s0.cursor.0 + 1 < s0.lines@.len() {
        lemma_scroll_cursor_keeps(State { cursor: ((s0.cursor.0 + 1) as usize, 0), ..s0 });
    }
}

/// Shift+Left pans five columns left (stopping at 0); Shift+Right pans
/// five columns right but no further than where the longest line's end
/// meets the last text column. Panning moves neither the cursor nor the
/// rows. Esc closes the viewer; every other key keeps it open, and every
/// key clears the message.
pub proof fn law_pan_and_close(s: State, key: Key, only_shift: bool)
    requires
        state_wf(s),
    ensures
        ({
            let l = handle_key_spec(s, Key::Left, true).0;
            &&& l.scroll_x == (if s.scroll_x >= 5 { s.scroll_x - 5 } else { 0 })
            &&& l.cursor == s.cursor && l.scroll_y == s.scroll_y
        }),
        ({
            let r = handle_key_spec(s, Key::Right, true).0;
            let avail = avail_width(s.content_rows as int, s.content_cols as int);
            let keep = if avail >= 1 { avail - 1 } else { 0 };
            let longest = max_line_len(s.lines@, s.lines@.len() as int);
            let max_x = if longest >= keep { longest - keep } else { 0 };
            &&& r.scroll_x == (if s.scroll_x + 5 <= max_x { s.scroll_x + 5 } else { max_x })
            &&& r.cursor == s.cursor && r.scroll_y == s.scroll_y
        }),
        handle_key_spec(s, key, only_shift).1 == !(key is Esc),
        handle_key_spec(s, key, only_shift).0.message is None,
        key is Esc ==> handle_key_spec(s, key, only_shift).0 == (State { message: None, ..s }),
{
}

} // verus!
