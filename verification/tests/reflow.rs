use bk::line_index::line_of;
use bk::links::find_link;
use bk::search::{find_from, rfind_before};
use bk::width::{col_to_offset, width_of};
use bk::wrap::wrap;

fn chars(s: &str) -> Vec<char> {
    s.chars().collect()
}

/// Every produced span lies in bounds, in order, starting at zero, with
/// nothing between consecutive spans but a single space or line feed.
fn assert_covers(text: &[char], lines: &[(usize, usize)]) {
    if text.is_empty() {
        assert!(lines.is_empty());
        return;
    }
    assert!(!lines.is_empty());
    assert_eq!(lines[0].0, 0);
    let mut prev_end = 0;
    let mut first = true;
    for &(s, e) in lines {
        assert!(s <= e && e <= text.len());
        if !first {
            assert!(prev_end <= s && s <= prev_end + 1);
            if s == prev_end + 1 {
                assert!(text[prev_end] == ' ' || text[prev_end] == '\n');
            }
        }
        first = false;
        prev_end = e;
    }
    assert!(prev_end <= text.len() && text.len() <= prev_end + 1);
    if text.len() == prev_end + 1 {
        assert!(text[prev_end] == ' ' || text[prev_end] == '\n');
    }
}

fn display_width(text: &[char]) -> usize {
    text.iter().map(|&c| width_of(c)).sum()
}

/// No line is wider than the budget unless it holds no break character.
fn assert_fits(text: &[char], lines: &[(usize, usize)], max: usize) {
    for &(s, e) in lines {
        let w = display_width(&text[s..e]);
        if w > max {
            assert!(text[s..e].iter().all(|&c| c != ' ' && c != '\n'));
        }
    }
}

#[test]
fn wrap_example_consumes_spaces() {
    let t = chars("AAAA BBBB CCCC");
    let lines = wrap(&t, 4);
    assert_eq!(lines, vec![(0, 4), (5, 9), (10, 14)]);
    assert_covers(&t, &lines);
    assert_fits(&t, &lines, 4);
}

#[test]
fn wrap_short_text_is_one_line() {
    let t = chars("abc");
    let lines = wrap(&t, 10);
    assert_eq!(lines, vec![(0, 3)]);
    assert_covers(&t, &lines);
    assert_fits(&t, &lines, 10);
}

#[test]
fn wrap_empty_text_is_empty() {
    let t = chars("");
    let lines = wrap(&t, 10);
    assert!(lines.is_empty());
    assert_covers(&t, &lines);
}

#[test]
fn wrap_long_word_is_cut() {
    let t = chars("abcdefghij");
    let lines = wrap(&t, 4);
    assert_covers(&t, &lines);
    // a single token wider than the budget is force-cut, never lost
    for &(s, e) in &lines {
        assert!(display_width(&t[s..e]) <= 4);
    }
}

#[test]
fn wrap_only_break_characters() {
    let t = chars("\n\n\n");
    let lines = wrap(&t, 4);
    assert_covers(&t, &lines);
    for &(s, e) in &lines {
        assert!(display_width(&t[s..e]) <= 4);
    }
    let t2 = chars("    ");
    let lines2 = wrap(&t2, 2);
    assert_covers(&t2, &lines2);
    assert_fits(&t2, &lines2, 2);
}

#[test]
fn wrap_breaks_after_hyphen() {
    let t = chars("ab-cd");
    let lines = wrap(&t, 3);
    assert_covers(&t, &lines);
    assert_fits(&t, &lines, 3);
    // the hyphen stays on the first line
    assert_eq!(lines[0], (0, 3));
}

#[test]
fn wrap_hard_break_on_newline() {
    let t = chars("ab\ncd");
    let lines = wrap(&t, 10);
    assert_eq!(lines, vec![(0, 2), (3, 5)]);
}

#[test]
fn wrap_wide_characters_count_double() {
    // CJK characters are two columns wide, so only two fit in five columns
    let t = chars("你好吗 ok");
    let lines = wrap(&t, 5);
    assert_covers(&t, &lines);
    assert_fits(&t, &lines, 5);
    assert!(lines.len() >= 2);
}

#[test]
fn line_of_round_trips_every_line() {
    let t = chars("one two three four five six seven");
    let lines = wrap(&t, 8);
    assert_covers(&t, &lines);
    for (i, &(s, e)) in lines.iter().enumerate() {
        assert!(s < e);
        assert_eq!(line_of(&lines, s), i);
        assert_eq!(line_of(&lines, e - 1), i);
    }
}

#[test]
fn find_link_hits_inside_and_misses_outside() {
    let links: Vec<(usize, usize, Vec<char>)> = vec![
        (2, 5, chars("a.xhtml")),
        (7, 9, chars("b.xhtml")),
        (12, 20, chars("c.xhtml")),
    ];
    for byte in 0..25 {
        let hit = find_link(&links, byte);
        let expect = links.iter().position(|&(s, e, _)| s <= byte && byte < e);
        assert_eq!(hit, expect);
    }
}

#[test]
fn find_and_rfind_agree_with_scan() {
    let t = chars("abcabcabc");
    let q = chars("abc");
    assert_eq!(find_from(&t, &q, 0), Some(0));
    assert_eq!(find_from(&t, &q, 1), Some(3));
    assert_eq!(find_from(&t, &q, 7), None);
    assert_eq!(rfind_before(&t, &q, 9), Some(6));
    assert_eq!(rfind_before(&t, &q, 8), Some(3));
    assert_eq!(rfind_before(&t, &q, 2), None);
}

#[test]
fn column_maps_to_covering_offset() {
    let t = chars("a你b");
    // widths: 1, 2, 1 — columns 0|1 2|3
    assert_eq!(col_to_offset(&t, 0, 3, 0), Some(0));
    assert_eq!(col_to_offset(&t, 0, 3, 1), Some(1));
    assert_eq!(col_to_offset(&t, 0, 3, 2), Some(1));
    assert_eq!(col_to_offset(&t, 0, 3, 3), Some(2));
    assert_eq!(col_to_offset(&t, 0, 3, 4), None);
}
