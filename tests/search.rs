use mlux::search::grep_markdown;
use mlux::tile::VisualLine;

/// Visual lines where line N maps to md_line_range (N, N).
fn make_visual_lines(n: usize) -> Vec<VisualLine> {
    (1..=n)
        .map(|i| VisualLine {
            y_px: 0,
            md_line_range: Some((i, i)),
            md_line_exact: None,
        })
        .collect()
}

#[test]
fn regex_heading_pattern() {
    let md = "# Title\nsome text\n## Subtitle\nmore text";
    let vl = make_visual_lines(4);
    let (matches, valid) = grep_markdown("^#", md, &vl);
    assert!(valid);
    assert_eq!(matches.len(), 2);
    assert_eq!(matches[0].md_line, 1);
    assert_eq!(matches[1].md_line, 3);
}

#[test]
fn smartcase_all_lower_is_insensitive() {
    let md = "Hello World\nhello world\nHELLO";
    let vl = make_visual_lines(3);
    let (matches, valid) = grep_markdown("hello", md, &vl);
    assert!(valid);
    assert_eq!(matches.len(), 3);
}

#[test]
fn smartcase_upper_is_sensitive() {
    let md = "Hello World\nhello world\nHELLO";
    let vl = make_visual_lines(3);
    let (matches, valid) = grep_markdown("Hello", md, &vl);
    assert!(valid);
    assert_eq!(matches.len(), 1);
    assert_eq!(matches[0].md_line, 1);
}

#[test]
fn invalid_pattern_returns_empty() {
    let md = "some [text] here";
    let vl = make_visual_lines(1);
    let (matches, valid) = grep_markdown("[", md, &vl);
    assert!(!valid);
    assert!(matches.is_empty());
}

#[test]
fn literal_string_still_works() {
    let md = "foo bar baz\nqux foo quux";
    let vl = make_visual_lines(2);
    let (matches, valid) = grep_markdown("foo", md, &vl);
    assert!(valid);
    assert_eq!(matches.len(), 2);
    // Check highlight positions
    assert_eq!(matches[0].col_start, 0);
    assert_eq!(matches[0].col_end, 3);
    assert_eq!(matches[1].col_start, 4);
    assert_eq!(matches[1].col_end, 7);
}

#[test]
fn empty_query_returns_empty() {
    let md = "anything";
    let vl = make_visual_lines(1);
    let (matches, valid) = grep_markdown("", md, &vl);
    assert!(valid);
    assert!(matches.is_empty());
}
