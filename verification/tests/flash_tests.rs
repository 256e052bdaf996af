use herdr_flash::flash::{compute_jump_labels, compute_line_labels, LABEL_CHARS};
use herdr_flash::style::Style;
use herdr_flash::StyledChar;

fn styled_line(s: &str) -> Vec<StyledChar> {
    s.chars()
        .map(|ch| StyledChar {
            ch,
            style: Style::default(),
        })
        .collect()
}

fn styled_lines(text: &str) -> Vec<Vec<StyledChar>> {
    text.lines().map(styled_line).collect()
}

#[test]
fn empty_prefix_yields_nothing() {
    let lines = styled_lines("foo bar baz");
    let (labels, partials) = compute_jump_labels(&lines, 0, 10, (0, 0), "", &LABEL_CHARS);
    assert!(labels.is_empty());
    assert!(partials.is_empty());
}

#[test]
fn few_matches_get_labeled() {
    let lines = styled_lines("foo bar baz");
    let (labels, partials) = compute_jump_labels(&lines, 0, 10, (0, 0), "ba", &LABEL_CHARS);
    assert!(partials.is_empty(), "should not be partial");
    assert_eq!(labels.len(), 2, "two matches should get labels");
    assert_eq!(labels[0].1, 4, "nearest match first");
    assert_eq!(labels[1].1, 8);
    assert_ne!(labels[0].3, labels[1].3);
}

#[test]
fn too_many_matches_fall_back_to_partial() {
    let line = styled_line(&"x ".repeat(60));
    let lines = vec![line];
    let (labels, partials) = compute_jump_labels(&lines, 0, 10, (0, 0), "x", &LABEL_CHARS);
    assert!(labels.is_empty(), "too many matches → no labels");
    assert_eq!(partials.len(), 60, "all matches in partial");
}

#[test]
fn typed_chars_excluded_from_pool() {
    let lines = styled_lines("aba");
    let (labels, partials) = compute_jump_labels(&lines, 0, 10, (0, 0), "a", &LABEL_CHARS);
    assert!(partials.is_empty());
    assert_eq!(labels.len(), 2);
    for &(_, _, _, lc) in &labels {
        assert_ne!(lc, 'a', "typed char must not be a label");
        assert_ne!(lc, 'A', "typed char (upper) must not be a label");
    }
}

#[test]
fn trailing_space_matches_at_eol() {
    let lines = styled_lines("x foo");
    let (labels, partials) = compute_jump_labels(&lines, 0, 10, (0, 0), "foo ", &LABEL_CHARS);
    assert!(partials.is_empty());
    assert_eq!(labels.len(), 1, "trailing-space pattern should match at EOL");
    assert_eq!(labels[0].1, 2, "match starts at col 2");
}

#[test]
fn case_insensitive_matching() {
    let lines = styled_lines("Foo BAR baz");
    let (labels, partials) = compute_jump_labels(&lines, 0, 10, (0, 0), "ba", &LABEL_CHARS);
    assert!(partials.is_empty());
    assert_eq!(labels.len(), 2, "BAR and baz both match 'ba'");
    let jump_cols: Vec<usize> = labels.iter().map(|&(_, jc, _, _)| jc).collect();
    assert!(jump_cols.contains(&4));
    assert!(jump_cols.contains(&8));
}

#[test]
fn only_visible_lines_matched() {
    let lines = styled_lines("foo\nbar\nbaz");
    let (labels, partials) = compute_jump_labels(&lines, 1, 1, (1, 0), "ba", &LABEL_CHARS);
    assert!(partials.is_empty());
    assert_eq!(labels.len(), 1, "only the visible line matches");
    assert_eq!(labels[0].0, 1, "match is on visible line 1");
}

#[test]
fn unique_continuation_preassigned() {
    let lines = styled_lines("abc abd");
    let (labels, partials) = compute_jump_labels(&lines, 0, 10, (0, 0), "ab", &LABEL_CHARS);
    assert!(partials.is_empty());
    assert_eq!(labels.len(), 2);
    let label_chars: Vec<char> = labels.iter().map(|&(_, _, _, lc)| lc).collect();
    assert!(label_chars.contains(&'c'), "unique continuation 'c' pre-assigned");
    assert!(label_chars.contains(&'d'), "unique continuation 'd' pre-assigned");
}

#[test]
fn ambiguous_continuation_excluded() {
    let lines = styled_lines("abx abx");
    let (labels, partials) = compute_jump_labels(&lines, 0, 10, (0, 0), "ab", &LABEL_CHARS);
    assert!(partials.is_empty());
    assert_eq!(labels.len(), 2);
    for &(_, _, _, lc) in &labels {
        assert_ne!(lc, 'x', "ambiguous continuation must not be a label");
        assert_ne!(lc, 'X');
    }
}

#[test]
fn line_jump_labels_all_visible_except_cursor() {
    let lines = styled_lines("a\nb\nc\nd\ne");
    let labels = compute_line_labels(&lines, 0, 10, (2, 0), &LABEL_CHARS, false);
    assert_eq!(labels.len(), 4);
    let by_line: std::collections::HashMap<usize, char> = labels.iter().cloned().collect();
    assert_eq!(by_line[&3], 'a', "nearest below = a");
    assert_eq!(by_line[&4], 'b');
    assert_eq!(by_line[&1], 'A', "nearest above = A");
    assert_eq!(by_line[&0], 'B');
    assert!(!by_line.contains_key(&2), "cursor line has no label");
}

#[test]
fn line_jump_cursor_at_top() {
    let lines = styled_lines("a\nb\nc");
    let labels = compute_line_labels(&lines, 0, 10, (0, 0), &LABEL_CHARS, false);
    assert_eq!(labels.len(), 2);
    assert_eq!(labels[0], (1, 'a'));
    assert_eq!(labels[1], (2, 'b'));
}

#[test]
fn line_jump_cursor_at_bottom() {
    let lines = styled_lines("a\nb\nc");
    let labels = compute_line_labels(&lines, 0, 10, (2, 0), &LABEL_CHARS, false);
    assert_eq!(labels.len(), 2);
    assert_eq!(labels[0], (1, 'A'));
    assert_eq!(labels[1], (0, 'B'));
}

#[test]
fn line_jump_respects_scroll_window() {
    let lines = styled_lines("a\nb\nc\nd\ne");
    let labels = compute_line_labels(&lines, 1, 2, (1, 0), &LABEL_CHARS, false);
    assert_eq!(labels.len(), 1);
    assert_eq!(labels[0], (2, 'a'));
}

#[test]
fn line_jump_more_than_26_lines() {
    let text: String = (0..31).map(|i| format!("line{i}\n")).collect();
    let lines = styled_lines(text.trim_end());
    let labels = compute_line_labels(&lines, 0, 31, (0, 0), &LABEL_CHARS, false);
    assert_eq!(labels.len(), 26);
    assert_eq!(labels[0], (1, 'a'));
    assert_eq!(labels[25], (26, 'z'));
}
