use herdr_flash::config::{
    default_depths, find_profile, load, parse_scroll_follow, select_profile, Config, Depth, Profile, ScrollFollow,
};
use herdr_flash::flash::{compute_jump_labels, compute_line_labels, LABEL_CHARS};
use herdr_flash::protocol::{focused_pane_id, get_member, parse_json_document, reply_scrollback, scrollback_text};
use herdr_flash::render::{
    build_line_spans, center_x_for_width, parse_hex_color, sel_range_for_line, JumpOverlay, SearchOverlay, Theme,
};
use herdr_flash::search::{compute_search_matches, search_current_from_cursor};
use herdr_flash::style::{Color, Style, MODIFIER_BOLD};
use herdr_flash::toml_doc::{parse_toml_document, TomlNode};
use herdr_flash::viewer::{area_too_small, Key, State};
use herdr_flash::StyledChar;

fn cells(s: &str) -> Vec<StyledChar> {
    s.chars().map(|ch| StyledChar { ch, style: Style::default() }).collect()
}

fn cell_lines(text: &str) -> Vec<Vec<StyledChar>> {
    text.lines().map(cells).collect()
}

fn viewer(text: &[&str]) -> State {
    State::open(text.iter().map(|s| s.to_string()).collect())
}

// ── configuration ──────────────────────────────────────────────────────────

#[test]
fn load_without_file_gives_defaults() {
    let out = load(None, None);
    assert!(out.parse_error.is_none());
    assert!(out.profile_found);
    assert_eq!(out.config.labels, LABEL_CHARS.to_vec());
    assert_eq!(out.config.log_level, "info");
    assert_eq!(out.config.profiles.len(), 1);
    assert_eq!(out.config.current_profile, 0);
    assert_eq!(out.config.scroll_follow, ScrollFollow::Off);
}

#[test]
fn load_broken_document_keeps_defaults() {
    let out = load(Some("labels = \"abc"), None);
    assert!(out.parse_error.is_some());
    assert_eq!(out.config.labels, LABEL_CHARS.to_vec());
    assert_eq!(out.config.profiles[0].name, "default");
}

#[test]
fn load_selects_named_profile_ignoring_case() {
    let text = "[profiles.deep]\ndepths = [\"2000\"]\n";
    let out = load(Some(text), Some("DEEP"));
    assert!(out.profile_found);
    assert_eq!(out.config.profiles[out.config.current_profile].name, "deep");
}

#[test]
fn load_unknown_profile_falls_back_to_default() {
    let text = "[profiles.deep]\ndepths = [\"2000\"]\n";
    let out = load(Some(text), Some("nope"));
    assert!(!out.profile_found);
    assert_eq!(out.config.profiles.len(), 2);
    assert_eq!(out.config.profiles[out.config.current_profile].name, "default");
}

#[test]
fn load_reports_unknown_scroll_follow() {
    let out = load(Some("scroll_follow = \"sideways\"\n"), None);
    assert_eq!(out.rejected_scroll_follow.as_deref(), Some("sideways"));
    assert_eq!(out.config.scroll_follow, ScrollFollow::Off);
    let ok = load(Some("scroll_follow = \" Offset \"\n"), None);
    assert!(ok.rejected_scroll_follow.is_none());
    assert_eq!(ok.config.scroll_follow, ScrollFollow::Offset);
}

#[test]
fn labels_setting_drops_repeats_in_order() {
    let out = load(Some("labels = \"abacab\"\n"), None);
    assert_eq!(out.config.labels, vec!['a', 'b', 'c']);
    let empty = load(Some("labels = \"\"\n"), None);
    assert_eq!(empty.config.labels, LABEL_CHARS.to_vec());
}

#[test]
fn log_level_and_unified_line_labels() {
    let out = load(Some("log_level = \"debug\"\nline_labels = \" on \"\n"), None);
    assert_eq!(out.config.log_level, "debug");
    assert!(out.config.line_labels_unified);
    let off = load(Some("line_labels = \"directional\"\n"), None);
    assert!(!off.config.line_labels_unified);
}

#[test]
fn bad_color_keeps_default() {
    let base = Config::default();
    let out = load(Some("color_sel_bg = \"#12345\"\ncolor_sel_fg = \"##0a0B0c\"\n"), None);
    assert_eq!(out.config.theme.sel_bg, base.theme.sel_bg);
    assert_eq!(out.config.theme.sel_fg, Color::Rgb(10, 11, 12));
    let plus = load(Some("color_sel_bg = \"+f+f+f\"\n"), None);
    assert_eq!(plus.config.theme.sel_bg, base.theme.sel_bg);
}

#[test]
fn depth_labels_read_back() {
    for d in [Depth::Viewport, Depth::Unlimited, Depth::Lines(1), Depth::Lines(4294967295)] {
        assert_eq!(herdr_flash::config::parse_depth(&d.label()), Some(d));
    }
    assert_eq!(herdr_flash::config::parse_depth(&Depth::Lines(0).label()), None);
    assert_eq!(herdr_flash::config::parse_depth(" +42 "), Some(Depth::Lines(42)));
    assert_eq!(herdr_flash::config::parse_depth("4294967296"), None);
}

#[test]
fn scroll_follow_aliases() {
    assert_eq!(parse_scroll_follow("FALSE"), Some(ScrollFollow::Off));
    assert_eq!(parse_scroll_follow(" content\t"), Some(ScrollFollow::Content));
    assert_eq!(parse_scroll_follow("offsets"), None);
}

#[test]
fn find_and_select_profile() {
    let profiles = vec![
        Profile { name: "Quick".to_string(), depths: vec![Depth::Viewport] },
        Profile { name: "default".to_string(), depths: default_depths() },
    ];
    assert_eq!(find_profile(&profiles, "quick"), Some(0));
    assert_eq!(find_profile(&profiles, "DEFAULT"), Some(1));
    assert_eq!(find_profile(&profiles, "deep"), None);
    assert_eq!(profiles[0].label(), "Quick");
    let mut config = Config::default();
    config.profiles = profiles;
    assert!(select_profile(&mut config, "QUICK"));
    assert_eq!(config.current_profile, 0);
    assert!(!select_profile(&mut config, "missing"));
    assert_eq!(config.current_profile, 1);
}

#[test]
fn toml_parse_error_is_reported() {
    assert!(parse_toml_document("a = [").is_err());
    match parse_toml_document("a = \"x\"\nb = 3\n") {
        Ok(TomlNode::Table(entries)) => {
            assert_eq!(entries.len(), 2);
            assert!(matches!(&entries[0].1, TomlNode::Str(s) if s == "x"));
            assert!(matches!(entries[1].1, TomlNode::Other));
        },
        _ => panic!("expected a table"),
    }
}

// ── rendering helpers ──────────────────────────────────────────────────────

#[test]
fn hex_colors() {
    assert_eq!(parse_hex_color("#ff0000"), Some(Color::Rgb(255, 0, 0)));
    assert_eq!(parse_hex_color(" 8aadf4 "), Some(Color::Rgb(138, 173, 244)));
    assert_eq!(parse_hex_color("#ff00"), None);
    assert_eq!(parse_hex_color("#gg0000"), None);
    assert_eq!(parse_hex_color("#+f0000"), None);
    assert_eq!(parse_hex_color("+f+f+f"), None);
    assert_eq!(parse_hex_color("#8AADF4"), Some(Color::Rgb(138, 173, 244)));
}

#[test]
fn centered_x_positions() {
    assert_eq!(center_x_for_width("90%"), Some("5%".to_string()));
    assert_eq!(center_x_for_width("85%"), Some("7%".to_string()));
    assert_eq!(center_x_for_width("100%"), Some("0%".to_string()));
    assert_eq!(center_x_for_width("250%"), Some("0%".to_string()));
    assert_eq!(center_x_for_width("90"), None);
    assert_eq!(center_x_for_width("x%"), None);
}

#[test]
fn selection_ranges_per_line() {
    assert_eq!(sel_range_for_line((1, 3), (3, 2), 0, 10), None);
    assert_eq!(sel_range_for_line((1, 3), (3, 2), 1, 10), Some((3, 9)));
    assert_eq!(sel_range_for_line((1, 3), (3, 2), 2, 0), Some((0, 0)));
    assert_eq!(sel_range_for_line((1, 3), (3, 2), 3, 10), Some((0, 2)));
    assert_eq!(sel_range_for_line((2, 1), (2, 4), 2, 10), Some((1, 4)));
    assert_eq!(sel_range_for_line((1, 3), (3, 2), 4, 10), None);
}

#[test]
fn spans_merge_runs_and_mark_cursor() {
    let theme = Theme::default();
    let line = cells("abcd");
    let spans = build_line_spans(&line, Some(1), None, 0, JumpOverlay::default(), SearchOverlay::default(), &theme);
    assert_eq!(spans.len(), 3);
    assert_eq!(spans[0].content, "a");
    assert_eq!(spans[0].style, Style::default());
    assert_eq!(spans[1].content, "b");
    assert_eq!(spans[1].style, Style::default().bg(theme.cursor_bg).fg(theme.cursor_fg));
    assert_eq!(spans[2].content, "cd");
}

#[test]
fn spans_for_empty_line_and_cursor_past_end() {
    let theme = Theme::default();
    let empty = build_line_spans(&[], None, None, 0, JumpOverlay::default(), SearchOverlay::default(), &theme);
    assert_eq!(empty.len(), 1);
    assert_eq!(empty[0].content, "");
    let line = cells("ab");
    let spans = build_line_spans(&line, Some(2), None, 0, JumpOverlay::default(), SearchOverlay::default(), &theme);
    assert_eq!(spans.len(), 2);
    assert_eq!(spans[0].content, "ab");
    assert_eq!(spans[1].content, " ");
}

#[test]
fn spans_show_labels_matches_and_search() {
    let theme = Theme::default();
    let line = cells("foo bar");
    let labels = [(6usize, 'k')];
    let jump = JumpOverlay { labels: &labels, partial_cols: &[], typed_len: 2 };
    let spans = build_line_spans(&line, None, None, 0, jump, SearchOverlay::default(), &theme);
    let text: String = spans.iter().map(|s| s.content.as_str()).collect();
    assert_eq!(text, "foo bak");
    let last = spans.last().unwrap();
    assert_eq!(last.content, "k");
    assert_eq!(last.style, Style::default().bg(theme.jump_label_bg).fg(theme.jump_label_fg).add_modifier(MODIFIER_BOLD));

    let found = [(0usize, true), (4usize, false)];
    let search = SearchOverlay { matches: &found, query_len: 3 };
    let spans = build_line_spans(&line, None, None, 0, JumpOverlay::default(), search, &theme);
    assert_eq!(spans.len(), 3);
    assert_eq!(spans[0].content, "foo");
    assert_eq!(spans[1].content, " ");
    assert_eq!(spans[2].content, "bar");
}

// ── word and line jumps ────────────────────────────────────────────────────

#[test]
fn jump_labels_are_distinct_and_nearest_first() {
    let lines = cell_lines("ab ab ab\nab ab");
    let (labels, partials) = compute_jump_labels(&lines, 0, 10, (1, 0), "a", &LABEL_CHARS);
    assert!(partials.is_empty());
    assert_eq!(labels.len(), 5);
    for i in 0..labels.len() {
        for j in i + 1..labels.len() {
            assert_ne!(labels[i].3, labels[j].3);
        }
    }
    assert_eq!((labels[0].0, labels[0].1), (1, 0));
    assert!(labels.iter().all(|l| l.3 != 'a' && l.3 != 'A'));
}

#[test]
fn unified_line_labels_split_the_charset() {
    let lines = cell_lines("a\nb\nc\nd\ne");
    let pool = ['q', 'w', 'e', 'r', 't'];
    let labels = compute_line_labels(&lines, 0, 10, (2, 0), &pool, true);
    assert_eq!(labels, vec![(3, 'q'), (4, 'w'), (1, 'r'), (0, 't')]);
}

// ── search ────────────────────────────────────────────────────────────────

#[test]
fn search_matches_come_in_stream_order() {
    let lines = cell_lines("aaa\nxa\naa");
    let matches = compute_search_matches(&lines, "aa");
    assert_eq!(matches, vec![(0, 0), (0, 1), (2, 0)]);
    assert_eq!(search_current_from_cursor(&matches, (0, 1)), 1);
    assert_eq!(search_current_from_cursor(&matches, (3, 0)), 0);
    assert_eq!(search_current_from_cursor(&[], (0, 0)), 0);
}

#[test]
fn search_query_is_lowercased() {
    let lines = cell_lines("Straße STRASSE");
    assert_eq!(compute_search_matches(&lines, "STRA"), vec![(0, 0), (0, 7)]);
    let accented = cell_lines("É é");
    assert_eq!(compute_search_matches(&accented, "É"), vec![(0, 0), (0, 2)]);
    assert_eq!(compute_search_matches(&accented, "é"), vec![(0, 0), (0, 2)]);
    let (labels, partials) = compute_jump_labels(&accented, 0, 10, (0, 2), "É", &LABEL_CHARS);
    assert!(partials.is_empty());
    assert_eq!(labels.len(), 2);
    assert_eq!((labels[0].0, labels[0].1), (0, 2));
    assert_eq!((labels[1].0, labels[1].1), (0, 0));
}

#[test]
fn current_search_match_drawn_over_others() {
    let theme = Theme::default();
    let line = cells("aaa");
    let found = [(0usize, false), (1usize, true)];
    let search = SearchOverlay { matches: &found, query_len: 2 };
    let spans = build_line_spans(&line, None, None, 0, JumpOverlay::default(), search, &theme);
    assert_eq!(spans.len(), 2);
    assert_eq!(spans[0].content, "a");
    assert_eq!(spans[0].style, Style::default().bg(theme.search_match_bg).fg(theme.search_fg));
    assert_eq!(spans[1].content, "aa");
    assert_eq!(
        spans[1].style,
        Style::default().bg(theme.search_current_bg).fg(theme.search_fg).add_modifier(MODIFIER_BOLD)
    );
}

// ── viewer ────────────────────────────────────────────────────────────────

#[test]
fn open_puts_cursor_at_bottom() {
    let s = viewer(&[]);
    assert_eq!(s.lines, vec![String::new()]);
    assert_eq!(s.cursor, (0, 0));
    let lines: Vec<String> = (0..30).map(|i| format!("l{i}")).collect();
    let s = State::open(lines);
    assert_eq!(s.cursor, (29, 0));
    assert_eq!(s.scroll_y, 6);
}

#[test]
fn right_then_left_returns() {
    let mut s = viewer(&["ab", "cde"]);
    s.resize(40, 10);
    s.cursor = (0, 2);
    assert!(s.handle_key(Key::Right, false));
    assert_eq!(s.cursor, (1, 0));
    assert!(s.handle_key(Key::Left, false));
    assert_eq!(s.cursor, (0, 2));
}

#[test]
fn vertical_moves_clamp_column_and_scroll() {
    let lines: Vec<String> = (0..20).map(|i| if i == 10 { "x".to_string() } else { "abcdef".to_string() }).collect();
    let mut s = State::open(lines);
    s.resize(40, 9);
    assert_eq!(s.content_rows, 5);
    assert_eq!(s.scroll_y, 0);
    s.cursor = (11, 4);
    s.scroll_y = 10;
    s.handle_key(Key::Up, false);
    assert_eq!(s.cursor, (10, 1));
    s.handle_key(Key::Up, false);
    assert_eq!(s.cursor, (9, 1));
    assert_eq!(s.scroll_y, 9);
    s.handle_key(Key::PageDown, false);
    assert_eq!(s.cursor, (11, 1));
    assert_eq!(s.scroll_y, 9);
    assert!(s.scroll_y <= s.cursor.0 && s.cursor.0 < s.scroll_y + s.content_rows);
}

#[test]
fn panning_and_closing() {
    let mut s = viewer(&["0123456789012345678901234567890123456789"]);
    s.resize(20, 10);
    s.message = Some("copied".to_string());
    s.handle_key(Key::Right, true);
    assert_eq!(s.scroll_x, 5);
    assert!(s.message.is_none());
    s.handle_key(Key::Left, true);
    assert_eq!(s.scroll_x, 0);
    s.handle_key(Key::Left, true);
    assert_eq!(s.scroll_x, 0);
    assert!(!s.handle_key(Key::Esc, false));
}

#[test]
fn line_views_and_footer_text() {
    let mut s = viewer(&["alpha", "beta", "gamma"]);
    s.cursor = (1, 2);
    let views = s.line_views(3, 7);
    assert_eq!(views.len(), 3);
    assert_eq!(views[0].gutter, "1  ");
    assert_eq!(views[1].gutter, "0\u{25BA} ");
    assert!(views[1].is_cursor_line);
    assert_eq!(views[1].cursor_col, Some(2));
    let text: String = views[2].cells.iter().map(|c| c.ch).collect();
    assert_eq!(text, "gam");
    assert!(views[2].right_overflow);
    assert_eq!(s.position_text(), "2:3");
    s.scroll_x = 4;
    assert_eq!(s.position_text(), "2:3  +4");
    assert_eq!(s.line_count_text(), "3 lines");
}

// ── launch protocol ───────────────────────────────────────────────────────

#[test]
fn focused_pane_from_context() {
    assert_eq!(focused_pane_id("{\"focused_pane_id\": \"p7\"}"), Ok("p7".to_string()));
    assert_eq!(
        focused_pane_id("{\"other\": 1}"),
        Err("context JSON has no focused_pane_id (nothing was focused before this popup opened)".to_string())
    );
    let bad = focused_pane_id("{").unwrap_err();
    assert!(bad.starts_with("invalid context JSON: "));
    assert!(bad.len() > "invalid context JSON: ".len());
}

#[test]
fn scrollback_from_read_result() {
    let ok = parse_json_document("{\"read\": {\"text\": \"a\\nb\"}}").ok().unwrap();
    assert_eq!(scrollback_text(&ok), Ok("a\nb".to_string()));
    let missing = parse_json_document("{\"read\": {\"lines\": 2}}").ok().unwrap();
    assert_eq!(scrollback_text(&missing), Err("pane.read response had no \"read.text\" field".to_string()));
    assert!(get_member(&ok, "read").is_some());
    assert!(get_member(&ok, "text").is_none());
}

#[test]
fn scrollback_from_whole_reply() {
    let ok = parse_json_document("{\"id\": 1, \"result\": {\"read\": {\"text\": \"x\"}}}").ok().unwrap();
    assert_eq!(reply_scrollback(&ok), Ok("x".to_string()));
    let err = parse_json_document("{\"id\": 1, \"error\": \"no such pane\"}").ok().unwrap();
    assert_eq!(reply_scrollback(&err), Err("pane.read failed: no such pane".to_string()));
    let err_obj = parse_json_document("{\"error\": {\"code\": 3}, \"result\": {}}").ok().unwrap();
    assert_eq!(reply_scrollback(&err_obj), Err("pane.read failed: the reply reports an error".to_string()));
    let neither = parse_json_document("{\"id\": 1}").ok().unwrap();
    assert_eq!(reply_scrollback(&neither), Err("pane.read failed: reply has neither result nor error".to_string()));
    let no_text = parse_json_document("{\"result\": {\"read\": {}}}").ok().unwrap();
    assert_eq!(reply_scrollback(&no_text), Err("pane.read response had no \"read.text\" field".to_string()));
}

#[test]
fn up_then_down_returns() {
    let mut s = viewer(&["abcdef", "ab", "abcdef"]);
    s.cursor = (1, 2);
    s.handle_key(Key::Down, false);
    assert_eq!(s.cursor, (2, 2));
    s.handle_key(Key::Up, false);
    assert_eq!(s.cursor, (1, 2));
    s.cursor = (2, 5);
    s.handle_key(Key::Up, false);
    s.handle_key(Key::Down, false);
    assert_eq!(s.cursor, (2, 2));
}

#[test]
fn cursor_column_scrolls_into_view() {
    let mut s = viewer(&["0123456789abcdefghij"]);
    s.resize(10, 10);
    let avail = s.avail_w();
    assert_eq!(avail, 7);
    for _ in 0..12 {
        s.handle_key(Key::Right, false);
        assert!(s.scroll_x <= s.cursor.1 && s.cursor.1 < s.scroll_x + avail - 1);
    }
    assert_eq!(s.cursor, (0, 12));
    assert_eq!(s.scroll_x, 7);
}

#[test]
fn tiny_areas_are_refused() {
    assert!(area_too_small(19, 40));
    assert!(area_too_small(80, 4));
    assert!(!area_too_small(20, 5));
}
