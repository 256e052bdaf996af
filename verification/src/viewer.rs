//! The scrollback viewer's state: the captured lines, the cursor, the
//! scroll offsets and the viewport size, with cursor movement, scrolling
//! and the key dispatch of the event loop.

use vstd::prelude::*;
use vstd::string::StrSliceExecFns;
use crate::render::{Theme, default_theme};
use crate::text::{chars_of, decimal, push_decimal, string_of};
use crate::style::{StyledChar, Style, plain_style};

verus! {

/// Interaction mode.
#[derive(Clone, Copy, Debug, PartialEq, Eq, Structural)]
pub enum Mode {
    Normal,
}

/// A key press, as the viewer dispatches it.
#[derive(Clone, Copy, Debug, PartialEq, Eq, Structural)]
pub enum Key {
    Esc,
    Up,
    Down,
    Left,
    Right,
    PageUp,
    PageDown,
    Other,
}

/// The viewer's state.
#[derive(Debug)]
pub struct State {
    pub lines: Vec<String>,
    pub cursor: (usize, usize),
    pub scroll_y: usize,
    pub scroll_x: usize,
    pub content_rows: usize,
    pub content_cols: usize,
    pub theme: Theme,
    pub mode: Mode,
    pub message: Option<String>,
}

pub open spec fn sat_sub(a: int, b: int) -> int {
    if a >= b { a - b } else { 0 }
}

pub open spec fn min_int(a: int, b: int) -> int {
    if a <= b { a } else { b }
}

/// Length in characters of line `l`, or 0 past the last line.
pub open spec fn line_len_of(lines: Seq<String>, l: int) -> int {
    if 0 <= l < lines.len() { lines[l]@.len() as int } else { 0 }
}

/// Width of the relative-line-number gutter: the digits of the largest
/// distance shown, plus a marker and a space.
pub open spec fn gutter_width(content_rows: int) -> int {
    let digits = decimal(sat_sub(content_rows, 1) as nat).len() as int;
    (if digits >= 1 { digits } else { 1 }) + 2
}

/// Width left for text beside the gutter.
pub open spec fn avail_width(content_rows: int, content_cols: int) -> int {
    sat_sub(content_cols, gutter_width(content_rows))
}

/// A state whose numbers stay within what memory can hold: line counts
/// and lengths fit in `isize`, the cursor is on a line (line 0 when there
/// are none) and at most one past its last character, and the viewport
/// measures at most `u16::MAX` cells each way.
pub open spec fn state_wf(s: State) -> bool {
    &&& s.lines@.len() <= isize::MAX
    &&& forall|l: int| 0 <= l < s.lines@.len() ==> (#[trigger] s.lines@[l])@.len() <= isize::MAX
    &&& (s.lines@.len() == 0 && s.cursor.0 == 0 || s.cursor.0 < s.lines@.len())
    &&& s.cursor.1 <= line_len_of(s.lines@, s.cursor.0 as int)
    &&& s.scroll_y <= isize::MAX
    &&& s.scroll_x <= isize::MAX + 1
    &&& s.content_rows <= u16::MAX
    &&& s.content_cols <= u16::MAX
}

/// `s` with `scroll_x` moved so the cursor column is visible, keeping one
/// column free for the overflow marker.
pub open spec fn scroll_x_into_view_spec(s: State) -> State {
    let avail = avail_width(s.content_rows as int, s.content_cols as int);
    let c = s.cursor.1 as int;
    if avail == 0 {
        s
    } else if c < s.scroll_x {
        State { scroll_x: c as usize, ..s }
    } else if c + 1 >= s.scroll_x + avail {
        State { scroll_x: (c + 2 - avail) as usize, ..s }
    } else {
        s
    }
}

/// `s` scrolled just enough that the cursor line is visible, then
/// horizontally.
pub open spec fn scroll_cursor_into_view_spec(s: State) -> State {
    let c = s.cursor.0 as int;
    let sy = if c < s.scroll_y {
        c
    } else if c >= s.scroll_y + s.content_rows {
        c + 1 - s.content_rows
    } else {
        s.scroll_y as int
    };
    scroll_x_into_view_spec(State { scroll_y: sy as usize, ..s })
}

/// `s` scrolled so the cursor line sits mid-viewport where possible.
pub open spec fn recenter_spec(s: State) -> State {
    let ideal = sat_sub(s.cursor.0 as int, s.content_rows as int / 2);
    let max_scroll = sat_sub(s.lines@.len() as int, s.content_rows as int);
    scroll_x_into_view_spec(State { scroll_y: min_int(ideal, max_scroll) as usize, ..s })
}

/// One line up, the column clamped to the new line.
pub open spec fn move_up_spec(s: State) -> State {
    if s.cursor.0 == 0 {
        s
    } else {
        let l = s.cursor.0 - 1;
        let c = min_int(s.cursor.1 as int, line_len_of(s.lines@, l));
        scroll_cursor_into_view_spec(State { cursor: (l as usize, c as usize), ..s })
    }
}

/// One line down, the column clamped to the new line; nothing on the last
/// line.
pub open spec fn move_down_spec(s: State) -> State {
    if s.cursor.0 + 1 >= s.lines@.len() {
        s
    } else {
        let l = s.cursor.0 + 1;
        let c = min_int(s.cursor.1 as int, line_len_of(s.lines@, l));
        scroll_cursor_into_view_spec(State { cursor: (l as usize, c as usize), ..s })
    }
}

/// One column left, or to the end of the previous line.
pub open spec fn move_left_spec(s: State) -> State {
    if s.cursor.1 > 0 {
        scroll_x_into_view_spec(State { cursor: (s.cursor.0, (s.cursor.1 - 1) as usize), ..s })
    } else if s.cursor.0 > 0 {
        let l = s.cursor.0 - 1;
        scroll_cursor_into_view_spec(State { cursor: (l as usize, line_len_of(s.lines@, l) as usize), ..s })
    } else {
        s
    }
}

/// One column right, or to the start of the next line.
pub open spec fn move_right_spec(s: State) -> State {
    let len = line_len_of(s.lines@, s.cursor.0 as int);
    if s.cursor.1 < len {
        scroll_x_into_view_spec(State { cursor: (s.cursor.0, (s.cursor.1 + 1) as usize), ..s })
    } else if s.cursor.0 + 1 < s.lines@.len() {
        scroll_cursor_into_view_spec(State { cursor: ((s.cursor.0 + 1) as usize, 0), ..s })
    } else {
        s
    }
}

/// Half a viewport (at least one line) up, recentered.
pub open spec fn page_up_spec(s: State) -> State {
    let half = if s.content_rows / 2 >= 1 { s.content_rows / 2 } else { 1 };
    let l = sat_sub(s.cursor.0 as int, half as int);
    let c = min_int(s.cursor.1 as int, line_len_of(s.lines@, l));
    recenter_spec(State { cursor: (l as usize, c as usize), ..s })
}

/// Half a viewport (at least one line) down, stopping at the last line,
/// recentered.
pub open spec fn page_down_spec(s: State) -> State {
    let half = if s.content_rows / 2 >= 1 { s.content_rows / 2 } else { 1 };
    let last = sat_sub(s.lines@.len() as int, 1);
    let l = min_int(s.cursor.0 + half, last);
    let c = min_int(s.cursor.1 as int, line_len_of(s.lines@, l));
    recenter_spec(State { cursor: (l as usize, c as usize), ..s })
}

/// Number of decimal digits of `n`.
fn decimal_len(n: usize) -> (r: usize)
    ensures
        r == decimal(n as nat).len(),
{
    let mut v: Vec<char> = Vec::new();
    push_decimal(n as u64, &mut v);
    assert(v@ =~= decimal(n as nat));
    v.len()
}

impl State {
    /// Length in characters of line `line`, or 0 past the last line.
    pub fn line_len(&self, line: usize) -> (r: usize)
        ensures
            r == line_len_of(self.lines@, line as int),
    {
        if line < self.lines.len() {
            self.lines[line].as_str().unicode_len()
        } else {
            0
        }
    }

    pub fn gutter_w(&self) -> (r: usize)
        requires
            self.content_rows <= u16::MAX,
        ensures
            r == gutter_width(self.content_rows as int),
    {
        let max_dist = if self.content_rows >= 1 { self.content_rows - 1 } else { 0 };
        let d = decimal_len(max_dist);
        proof { lemma_decimal_len_small(max_dist as nat); }
        (if d >= 1 { d } else { 1 }) + 2
    }

    pub fn avail_w(&self) -> (r: usize)
        requires
            self.content_rows <= u16::MAX,
        ensures
            r == avail_width(self.content_rows as int, self.content_cols as int),
    {
        let g = self.gutter_w();
        if self.content_cols >= g { self.content_cols - g } else { 0 }
    }

    fn scroll_x_into_view(&mut self)
        requires
            state_wf(*old(self)),
        ensures
            *final(self) == scroll_x_into_view_spec(*old(self)),
            state_wf(*final(self)),
    {
        let avail = self.avail_w();
        if avail == 0 {
            return;
        }
        if self.cursor.1 < self.scroll_x {
            self.scroll_x = self.cursor.1;
        } else if self.cursor.1 + 1 >= self.scroll_x + avail {
            self.scroll_x = self.cursor.1 + 2 - avail;
        }
    }

    fn scroll_cursor_into_view(&mut self)
        requires
            state_wf(*old(self)),
        ensures
            *final(self) == scroll_cursor_into_view_spec(*old(self)),
            state_wf(*final(self)),
    {
        if self.cursor.0 < self.scroll_y {
            self.scroll_y = self.cursor.0;
        } else if self.cursor.0 >= self.scroll_y + self.content_rows {
            self.scroll_y = self.cursor.0 + 1 - self.content_rows;
        }
        self.scroll_x_into_view();
    }

    fn recenter_scroll(&mut self)
        requires
            state_wf(*old(self)),
        ensures
            *final(self) == recenter_spec(*old(self)),
            state_wf(*final(self)),
    {
        let half_rows = self.content_rows / 2;
        let ideal = if self.cursor.0 >= half_rows { self.cursor.0 - half_rows } else { 0 };
        let max_scroll = if self.lines.len() >= self.content_rows { self.lines.len() - self.content_rows } else { 0 };
        self.scroll_y = if ideal <= max_scroll { ideal } else { max_scroll };
        self.scroll_x_into_view();
    }

    /// Moves the cursor one line up.
    pub fn move_up(&mut self)
        requires
            state_wf(*old(self)),
        ensures
            *final(self) == move_up_spec(*old(self)),
            state_wf(*final(self)),
    {
        if self.cursor.0 == 0 {
            return;
        }
        self.cursor.0 = self.cursor.0 - 1;
        let len = self.line_len(self.cursor.0);
        self.cursor.1 = if self.cursor.1 <= len { self.cursor.1 } else { len };
        self.scroll_cursor_into_view();
    }

    /// Moves the cursor one line down.
    pub fn move_down(&mut self)
        requires
            state_wf(*old(self)),
        ensures
            *final(self) == move_down_spec(*old(self)),
            state_wf(*final(self)),
    {
        if self.cursor.0 + 1 >= self.lines.len() {
            return;
        }
        self.cursor.0 = self.cursor.0 + 1;
        let len = self.line_len(self.cursor.0);
        self.cursor.1 = if self.cursor.1 <= len { self.cursor.1 } else { len };
        self.scroll_cursor_into_view();
    }

    /// Moves the cursor one column left, wrapping to the previous line's
    /// end.
    pub fn move_left(&mut self)
        requires
            state_wf(*old(self)),
        ensures
            *final(self) == move_left_spec(*old(self)),
            state_wf(*final(self)),
    {
        if self.cursor.1 > 0 {
            self.cursor.1 = self.cursor.1 - 1;
            self.scroll_x_into_view();
        } else if self.cursor.0 > 0 {
            self.cursor.0 = self.cursor.0 - 1;
            self.cursor.1 = self.line_len(self.cursor.0);
            self.scroll_cursor_into_view();
        }
    }

    /// Moves the cursor one column right, wrapping to the next line's
    /// start.
    pub fn move_right(&mut self)
        requires
            state_wf(*old(self)),
        ensures
            *final(self) == move_right_spec(*old(self)),
            state_wf(*final(self)),
    {
        let len = self.line_len(self.cursor.0);
        if self.cursor.1 < len {
            self.cursor.1 = self.cursor.1 + 1;
            self.scroll_x_into_view();
        } else if self.cursor.0 + 1 < self.lines.len() {
            self.cursor.0 = self.cursor.0 + 1;
            self.cursor.1 = 0;
            self.scroll_cursor_into_view();
        }
    }

    /// Moves the cursor half a viewport up and recenters.
    pub fn page_up(&mut self)
        requires
            state_wf(*old(self)),
        ensures
            *final(self) == page_up_spec(*old(self)),
            state_wf(*final(self)),
    {
        let half = if self.content_rows / 2 >= 1 { self.content_rows / 2 } else { 1 };
        self.cursor.0 = if self.cursor.0 >= half { self.cursor.0 - half } else { 0 };
        let len = self.line_len(self.cursor.0);
        self.cursor.1 = if self.cursor.1 <= len { self.cursor.1 } else { len };
        self.recenter_scroll();
    }

    /// Moves the cursor half a viewport down and recenters.
    pub fn page_down(&mut self)
        requires
            state_wf(*old(self)),
        ensures
            *final(self) == page_down_spec(*old(self)),
            state_wf(*final(self)),
    {
        let half = if self.content_rows / 2 >= 1 { self.content_rows / 2 } else { 1 };
        let last = if self.lines.len() >= 1 { self.lines.len() - 1 } else { 0 };
        let down = self.cursor.0 + half;
        self.cursor.0 = if down <= last { down } else { last };
        let len = self.line_len(self.cursor.0);
        self.cursor.1 = if self.cursor.1 <= len { self.cursor.1 } else { len };
        self.recenter_scroll();
    }
}

/// A number below 65 536 has at most five decimal digits.
proof fn lemma_decimal_len_small(n: nat)
    ensures
        decimal(n).len() >= 1,
        n < 10 ==> decimal(n).len() == 1,
        n < 100 ==> decimal(n).len() <= 2,
        n < 1000 ==> decimal(n).len() <= 3,
        n < 10000 ==> decimal(n).len() <= 4,
        n < 100000 ==> decimal(n).len() <= 5,
    decreases n,
{
    if n >= 10 {
        lemma_decimal_len_small(n / 10);
    }
}


/// The longest line's length among the first `upto` lines.
pub open spec fn max_line_len(lines: Seq<String>, upto: int) -> int
    decreases upto,
{
    if upto <= 0 {
        0
    } else {
        let m = max_line_len(lines, upto - 1);
        let l = lines[upto - 1]@.len() as int;
        if l > m { l } else { m }
    }
}

/// The state before any text or terminal size is known.
pub open spec fn default_state_spec(s: State) -> bool {
    &&& s.lines@.len() == 0
    &&& s.cursor == (0usize, 0usize)
    &&& s.scroll_y == 0
    &&& s.scroll_x == 0
    &&& s.content_rows == 24
    &&& s.content_cols == 80
    &&& s.theme == default_theme()
    &&& s.mode == Mode::Normal
    &&& s.message is None
}

/// The state after a key: `Esc` closes (returns false); arrows move,
/// Shift+arrows pan by 5 columns (right panning stops where the longest
/// line's end is in view), page keys move by half a viewport. Any key
/// clears the message.
pub open spec fn handle_key_spec(s: State, key: Key, only_shift: bool) -> (State, bool) {
    let s0 = State { message: None, ..s };
    match key {
        Key::Esc => (s0, false),
        Key::Up => (move_up_spec(s0), true),
        Key::Down => (move_down_spec(s0), true),
        Key::Left => if only_shift {
            (State { scroll_x: sat_sub(s0.scroll_x as int, 5) as usize, ..s0 }, true)
        } else {
            (move_left_spec(s0), true)
        },
        Key::Right => if only_shift {
            let max_x = sat_sub(
                max_line_len(s0.lines@, s0.lines@.len() as int),
                sat_sub(avail_width(s0.content_rows as int, s0.content_cols as int), 1),
            );
            (State { scroll_x: min_int(s0.scroll_x + 5, max_x) as usize, ..s0 }, true)
        } else {
            (move_right_spec(s0), true)
        },
        Key::PageUp => (page_up_spec(s0), true),
        Key::PageDown => (page_down_spec(s0), true),
        Key::Other => (s0, true),
    }
}

proof fn lemma_max_line_len_bound(lines: Seq<String>, upto: int)
    requires
        0 <= upto <= lines.len(),
        forall|l: int| 0 <= l < lines.len() ==> (#[trigger] lines[l])@.len() <= isize::MAX,
    ensures
        0 <= max_line_len(lines, upto) <= isize::MAX,
    decreases upto,
{
    if upto > 0 {
        lemma_max_line_len_bound(lines, upto - 1);
    }
}

impl Default for State {
    fn default() -> (s: State)
        ensures
            default_state_spec(s),
    {
        State {
            lines: Vec::new(),
            cursor: (0, 0),
            scroll_y: 0,
            scroll_x: 0,
            content_rows: 24,
            content_cols: 80,
            theme: Theme::default(),
            mode: Mode::Normal,
            message: None,
        }
    }
}

impl State {
    /// The viewer over the captured lines (one empty line when there are
    /// none), with the cursor at the start of the last line and that line
    /// at the bottom of the default 24-row viewport.
    pub fn open(lines: Vec<String>) -> (s: State)
        requires
            lines@.len() < isize::MAX,
            forall|l: int| 0 <= l < lines@.len() ==> (#[trigger] lines@[l])@.len() <= isize::MAX,
        ensures
            state_wf(s),
            lines@.len() == 0 ==> s.lines@.len() == 1 && s.lines@[0]@ == Seq::<char>::empty(),
            lines@.len() > 0 ==> s.lines@ == lines@,
            s.cursor == ((s.lines@.len() - 1) as usize, 0usize),
            s.scroll_y == sat_sub(s.lines@.len() - 1, 23),
            s.scroll_x == 0,
            s.content_rows == 24,
            s.content_cols == 80,
            s.theme == default_theme(),
            s.mode == Mode::Normal,
            s.message is None,
    {
        let mut state = State::default();
        state.lines = lines;
        if state.lines.len() == 0 {
            state.lines.push(String::new());
        }
        let last = state.lines.len() - 1;
        state.cursor = (last, 0);
        let keep = if state.content_rows >= 1 { state.content_rows - 1 } else { 0 };
        state.scroll_y = if last >= keep { last - keep } else { 0 };
        state
    }

    /// Adopts the terminal's size: the footer takes four rows, and the
    /// vertical scroll is clamped so the viewport ends at most at the last
    /// line.
    pub fn resize(&mut self, width: u16, height: u16)
        requires
            state_wf(*old(self)),
        ensures
            state_wf(*final(self)),
            *final(self) == (State {
                content_rows: sat_sub(height as int, 4) as usize,
                content_cols: width as usize,
                scroll_y: min_int(old(self).scroll_y as int, sat_sub(old(self).lines@.len() as int, sat_sub(height as int, 4))) as usize,
                ..*old(self)
            }),
    {
        self.content_rows = if height >= 4 { (height - 4) as usize } else { 0 };
        self.content_cols = width as usize;
        let max_scroll = if self.lines.len() >= self.content_rows { self.lines.len() - self.content_rows } else { 0 };
        if self.scroll_y > max_scroll {
            self.scroll_y = max_scroll;
        }
    }

    /// Handles one key press; returns false when the viewer should close.
    pub fn handle_key(&mut self, key: Key, only_shift: bool) -> (keep_open: bool)
        requires
            state_wf(*old(self)),
        ensures
            state_wf(*final(self)),
            (*final(self), keep_open) == handle_key_spec(*old(self), key, only_shift),
    {
        self.message = None;
        match key {
            Key::Esc => false,
            Key::Up => {
                self.move_up();
                true
            },
            Key::Down => {
                self.move_down();
                true
            },
            Key::Left => {
                if only_shift {
                    self.scroll_x = if self.scroll_x >= 5 { self.scroll_x - 5 } else { 0 };
                } else {
                    self.move_left();
                }
                true
            },
            Key::Right => {
                if only_shift {
                    let longest = self.longest_line();
                    let avail = self.avail_w();
                    let keep = if avail >= 1 { avail - 1 } else { 0 };
                    let max_x = if longest >= keep { longest - keep } else { 0 };
                    let moved = self.scroll_x + 5;
                    self.scroll_x = if moved <= max_x { moved } else { max_x };
                } else {
                    self.move_right();
                }
                true
            },
            Key::PageUp => {
                self.page_up();
                true
            },
            Key::PageDown => {
                self.page_down();
                true
            },
            Key::Other => true,
        }
    }

    /// The longest line's length in characters.
    fn longest_line(&self) -> (r: usize)
        requires
            state_wf(*self),
        ensures
            r == max_line_len(self.lines@, self.lines@.len() as int),
            r <= isize::MAX,
    {
        let n = self.lines.len();
        let mut m: usize = 0;
        let mut i: usize = 0;
        while i < n
            invariant
                n == self.lines@.len(),
                i <= n,
                state_wf(*self),
                m == max_line_len(self.lines@, i as int),
            decreases n - i,
        {
            proof { lemma_max_line_len_bound(self.lines@, i + 1); }
            let l = self.lines[i].as_str().unicode_len();
            if l > m {
                m = l;
            }
            i = i + 1;
        }
        proof { lemma_max_line_len_bound(self.lines@, n as int); }
        m
    }
}


/// Whether a terminal area is too small to draw the viewer in: under 20
/// columns or under 5 rows.
pub fn area_too_small(width: u16, height: u16) -> (r: bool)
    ensures
        r == (width < 20 || height < 5),
{
    width < 20 || height < 5
}

/// What one visible line shows: its gutter text, the visible window of
/// its characters, whether text is cut off on either side, and the cursor
/// column within the window on the cursor line.
#[derive(Debug)]
pub struct LineView {
    pub gutter: String,
    pub is_cursor_line: bool,
    pub left_overflow: bool,
    pub right_overflow: bool,
    pub cells: Vec<StyledChar>,
    pub cursor_col: Option<usize>,
}

/// `s` right-aligned in a field of `w` characters.
pub open spec fn pad_left(s: Seq<char>, w: int) -> Seq<char> {
    Seq::new(if w > s.len() { (w - s.len()) as nat } else { 0 }, |i: int| ' ') + s
}

/// Width of the distance numbers in a viewport of `h` rows.
pub open spec fn number_width(h: int) -> int {
    let d = decimal(sat_sub(h, 1) as nat).len() as int;
    if d >= 1 { d } else { 1 }
}

/// First line drawn.
pub open spec fn view_top(s: State) -> int {
    min_int(s.scroll_y as int, sat_sub(s.lines@.len() as int, 1))
}

/// Number of lines drawn in a viewport of `h` rows.
pub open spec fn view_count(s: State, h: int) -> int {
    min_int(view_top(s) + h, s.lines@.len() as int) - view_top(s)
}

/// The view of absolute line `abs` in a viewport of `h` rows and `width`
/// columns: gutter with the distance from the cursor line (a `►` marker on
/// the cursor line), the characters from `scroll_x` that fit (one column
/// fewer when the line overflows to the right), and the cursor's column in
/// that window.
pub open spec fn line_view_spec(s: State, h: int, width: int, abs: int) -> (Seq<char>, bool, bool, bool, Seq<char>, Option<usize>) {
    let total = s.lines@.len() as int;
    let cursor_line = min_int(s.cursor.0 as int, sat_sub(total, 1));
    let is_cursor = abs == cursor_line;
    let dist = if abs >= cursor_line { abs - cursor_line } else { cursor_line - abs };
    let nw = number_width(h);
    let avail = sat_sub(width, nw + 2);
    let marker = if is_cursor { seq!['\u{25BA}', ' '] } else { seq![' ', ' '] };
    let text = s.lines@[abs]@;
    let sx = s.scroll_x as int;
    let right = text.len() > sx + avail;
    let vis_w = if right { sat_sub(avail, 1) } else { avail };
    let from = min_int(sx, text.len() as int);
    let to = min_int(sx + vis_w, text.len() as int);
    (
        pad_left(decimal(dist as nat), nw) + marker,
        is_cursor,
        sx > 0,
        right,
        text.subrange(from, to),
        if is_cursor { Some(sat_sub(s.cursor.1 as int, sx) as usize) } else { None },
    )
}

/// The spec value of a [`LineView`].
pub open spec fn line_view_value(v: LineView) -> (Seq<char>, bool, bool, bool, Seq<char>, Option<usize>) {
    (v.gutter@, v.is_cursor_line, v.left_overflow, v.right_overflow, v.cells@.map_values(|c: StyledChar| c.ch), v.cursor_col)
}

/// The status text: `line:col` (1-based), plus `+scroll_x` when the view
/// is panned.
pub open spec fn position_spec(s: State) -> Seq<char> {
    let base = decimal((s.cursor.0 + 1) as nat).push(':') + decimal((s.cursor.1 + 1) as nat);
    if s.scroll_x > 0 {
        base + seq![' ', ' ', '+'] + decimal(s.scroll_x as nat)
    } else {
        base
    }
}

/// An unstyled cell holding `c`.
fn plain_cell(c: char) -> (r: StyledChar)
    ensures
        r == (StyledChar { ch: c, style: plain_style() }),
{
    StyledChar { ch: c, style: Style::new() }
}

/// Unstyled cells for the characters `text[from..to]`.
fn plain_cells(text: &Vec<char>, lo: usize, hi: usize) -> (out: Vec<StyledChar>)
    requires
        lo <= hi <= text@.len(),
    ensures
        out@.map_values(|c: StyledChar| c.ch) == text@.subrange(lo as int, hi as int),
        forall|j: int| 0 <= j < out@.len() ==> (#[trigger] out@[j]).style == plain_style(),
{
    let mut buf: Vec<StyledChar> = Vec::new();
    let mut q: usize = lo;
    while q < hi
        invariant
            lo <= q <= hi,
            hi <= text@.len(),
            buf@.len() == q - lo,
            forall|j: int| 0 <= j < buf@.len() ==> (#[trigger] buf@[j]).ch == text@[lo + j] && buf@[j].style == plain_style(),
        decreases hi - q,
    {
        let sc = plain_cell(text[q]);
        buf.push(sc);
        q = q + 1;
    }
    assert(buf@.map_values(|c: StyledChar| c.ch) =~= text@.subrange(lo as int, hi as int));
    buf
}

impl State {
    /// The view of line `abs` in a viewport of `viewport_h` rows and
    /// `width` columns.
    pub fn line_view(&self, viewport_h: u16, width: u16, abs: usize) -> (view: LineView)
        requires
            state_wf(*self),
            abs < self.lines@.len(),
        ensures
            line_view_value(view) == line_view_spec(*self, viewport_h as int, width as int, abs as int),
            forall|j: int| 0 <= j < view.cells@.len() ==> (#[trigger] view.cells@[j]).style == plain_style(),
    {
        let total = self.lines.len();
        let last = total - 1;
        let cursor_line = if self.cursor.0 <= last { self.cursor.0 } else { last };
        let h = viewport_h as usize;
        let max_dist = if h >= 1 { h - 1 } else { 0 };
        let d = decimal_len(max_dist);
        proof { lemma_decimal_len_small(max_dist as nat); }
        let nw = if d >= 1 { d } else { 1 };
        let w = width as usize;
        let avail = if w >= nw + 2 { w - (nw + 2) } else { 0 };
        let is_cursor = abs == cursor_line;
        let dist = if abs >= cursor_line { abs - cursor_line } else { cursor_line - abs };
        let mut g: Vec<char> = Vec::new();
        let mut digits: Vec<char> = Vec::new();
        push_decimal(dist as u64, &mut digits);
        let dl = digits.len();
        let pad = if nw > dl { nw - dl } else { 0 };
        let mut k: usize = 0;
        while k < pad
            invariant
                k <= pad,
                g@ == Seq::new(k as nat, |i: int| ' '),
            decreases pad - k,
        {
            g.push(' ');
            k = k + 1;
            assert(g@ =~= Seq::new(k as nat, |i: int| ' '));
        }
        let ghost digits_v = digits@;
        g.append(&mut digits);
        if is_cursor {
            g.push('\u{25BA}');
        } else {
            g.push(' ');
        }
        g.push(' ');
        proof {
            let marker = if is_cursor { seq!['\u{25BA}', ' '] } else { seq![' ', ' '] };
            assert(digits_v =~= decimal(dist as nat));
            assert(g@ =~= pad_left(decimal(dist as nat), nw as int) + marker);
        }
        let text = chars_of(self.lines[abs].as_str());
        let len = text.len();
        let sx = self.scroll_x;
        let right = len > sx && len - sx > avail;
        let vis_w = if right { if avail >= 1 { avail - 1 } else { 0 } } else { avail };
        let lo = if sx <= len { sx } else { len };
        let hi = if sx <= len && vis_w <= len - sx { sx + vis_w } else { len };
        let cells = plain_cells(&text, lo, hi);
        let cursor_col = if is_cursor {
            Some(if self.cursor.1 >= sx { self.cursor.1 - sx } else { 0 })
        } else {
            None
        };
        LineView {
            gutter: string_of(&g),
            is_cursor_line: is_cursor,
            left_overflow: sx > 0,
            right_overflow: right,
            cells,
            cursor_col,
        }
    }

    /// The views of the lines drawn in a viewport of `viewport_h` rows and
    /// `width` columns, top to bottom.
    pub fn line_views(&self, viewport_h: u16, width: u16) -> (views: Vec<LineView>)
        requires
            state_wf(*self),
        ensures
            views@.len() == view_count(*self, viewport_h as int),
            forall|i: int| 0 <= i < views@.len() ==> line_view_value(#[trigger] views@[i]) == line_view_spec(
                *self,
                viewport_h as int,
                width as int,
                view_top(*self) + i,
            ),
    {
        let total = self.lines.len();
        let last = if total >= 1 { total - 1 } else { 0 };
        let top = if self.scroll_y <= last { self.scroll_y } else { last };
        let h = viewport_h as usize;
        let end = if top + h <= total { top + h } else { total };
        let mut views: Vec<LineView> = Vec::new();
        if end <= top {
            return views;
        }
        let mut abs: usize = top;
        while abs < end
            invariant
                state_wf(*self),
                total == self.lines@.len(),
                top == view_top(*self),
                top <= abs <= end,
                end <= total,
                end == min_int(top + viewport_h, total as int),
                views@.len() == abs - top,
                forall|i: int| 0 <= i < views@.len() ==> line_view_value(#[trigger] views@[i]) == line_view_spec(
                    *self,
                    viewport_h as int,
                    width as int,
                    view_top(*self) + i,
                ),
            decreases end - abs,
        {
            let v = self.line_view(viewport_h, width, abs);
            views.push(v);
            abs = abs + 1;
        }
        views
    }

    /// The status line's cursor position text.
    pub fn position_text(&self) -> (r: String)
        requires
            state_wf(*self),
        ensures
            r@ == position_spec(*self),
    {
        let mut v: Vec<char> = Vec::new();
        push_decimal((self.cursor.0 + 1) as u64, &mut v);
        v.push(':');
        push_decimal((self.cursor.1 + 1) as u64, &mut v);
        if self.scroll_x > 0 {
            v.push(' ');
            v.push(' ');
            v.push('+');
            push_decimal(self.scroll_x as u64, &mut v);
        }
        proof {
            let base = decimal((self.cursor.0 + 1) as nat).push(':') + decimal((self.cursor.1 + 1) as nat);
            if self.scroll_x > 0 {
                assert(v@ =~= base + seq![' ', ' ', '+'] + decimal(self.scroll_x as nat));
            } else {
                assert(v@ =~= base);
            }
        }
        string_of(&v)
    }

    /// The status line's line count text, `N lines`.
    pub fn line_count_text(&self) -> (r: String)
        ensures
            r@ == decimal(self.lines@.len() as nat) + " lines"@,
    {
        let mut v: Vec<char> = Vec::new();
        push_decimal(self.lines.len() as u64, &mut v);
        let mut suffix = chars_of(" lines");
        v.append(&mut suffix);
        string_of(&v)
    }
}

} // verus!
