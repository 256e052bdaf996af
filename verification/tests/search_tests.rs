use herdr_flash::search::{compute_search_matches, search_current_from_cursor};
use herdr_flash::style::{Color, Style, MODIFIER_BOLD};
use herdr_flash::StyledChar;

fn styled_line(s: &str) -> Vec<StyledChar> {
    s.chars()
        .map(|ch| StyledChar {
            ch,
            style: Style::default(),
        })
        .collect()
}

fn styled_lines(text: &str) -> Vec<Vec<StyledChar>> {
    text.lines().map(styled_line).collect()
}

#[test]
fn empty_query_no_matches() {
    let lines = styled_lines("foo bar");
    assert!(compute_search_matches(&lines, "").is_empty());
}

#[test]
fn single_line_matches() {
    let lines = styled_lines("foo bar foo baz");
    let matches = compute_search_matches(&lines, "foo");
    assert_eq!(matches, vec![(0, 0), (0, 8)]);
}

#[test]
fn multi_line_matches() {
    let lines = styled_lines("foo\nbar\nfoo bar");
    let matches = compute_search_matches(&lines, "foo");
    assert_eq!(matches, vec![(0, 0), (2, 0)]);
}

#[test]
fn case_insensitive() {
    let lines = styled_lines("Foo BAR baz");
    let matches = compute_search_matches(&lines, "ba");
    assert_eq!(matches, vec![(0, 4), (0, 8)]); // BAR and baz
}

#[test]
fn no_matches() {
    let lines = styled_lines("foo bar");
    let matches = compute_search_matches(&lines, "xyz");
    assert!(matches.is_empty());
}

#[test]
fn current_from_cursor_at_or_after() {
    // matches at (0,0), (0,8), (2,0)
    let lines = styled_lines("foo bar foo\nbaz\nfoo bar");
    let matches = compute_search_matches(&lines, "foo");
    assert_eq!(search_current_from_cursor(&matches, (0, 5)), 1);
    assert_eq!(search_current_from_cursor(&matches, (1, 0)), 2);
    assert_eq!(search_current_from_cursor(&matches, (2, 5)), 0);
}

#[test]
fn matches_all_lines_not_just_visible() {
    let lines = styled_lines("foo\nbar\nfoo\nbaz\nfoo");
    let matches = compute_search_matches(&lines, "foo");
    assert_eq!(matches, vec![(0, 0), (2, 0), (4, 0)]);
}

/// The cells that `\x1b[31mfoo\x1b[0m bar \x1b[1;32mfoo\x1b[0m` prints:
/// a red `foo`, a plain ` bar `, and a bold green `foo`.
fn escape_styled_fixture() -> Vec<Vec<StyledChar>> {
    let red = Style::default().fg(Color::Red);
    let bold_green = Style::default().add_modifier(MODIFIER_BOLD).fg(Color::Green);
    let mut line = Vec::new();
    for ch in "foo".chars() {
        line.push(StyledChar { ch, style: red });
    }
    for ch in " bar ".chars() {
        line.push(StyledChar { ch, style: Style::default() });
    }
    for ch in "foo".chars() {
        line.push(StyledChar { ch, style: bold_green });
    }
    vec![line]
}

#[test]
fn search_ignores_style() {
    let plain = styled_lines("foo bar foo");
    let styled = escape_styled_fixture();
    assert_eq!(plain[0].len(), styled[0].len());
    let plain_matches = compute_search_matches(&plain, "foo");
    let styled_matches = compute_search_matches(&styled, "foo");
    assert_eq!(plain_matches, styled_matches);
    assert_eq!(styled_matches, vec![(0, 0), (0, 8)]);
}
