use bk::book::{mark_get, register_chapter, epub_new, Direction, ViewKind};
use bk::book::build_chapter_doc;
use bk::compose::{compose_page, Piece};
use bk::style::StyleState;
use bk::view::{bk_new, on_key, Key};
use bk::wrap::wrap;
use bk::xml::parse_markup;

fn chars(s: &str) -> Vec<char> {
    s.chars().collect()
}

fn string(v: &[char]) -> String {
    v.iter().collect()
}

/// Parses and registers one chapter document, panicking on malformed input
/// the way a load error would surface.
fn add(book: &mut bk::book::Epub, title: &str, path: &str, xml: &str) {
    let doc = parse_markup(xml).expect("chapter parses");
    let cb = build_chapter_doc(&doc).expect("chapter has content");
    register_chapter(book, chars(title), &chars(path), cb);
}

fn two_chapter_book() -> bk::book::Epub {
    let mut book = epub_new(chars("title: T\n"));
    add(
        &mut book,
        "one",
        "ch1.xhtml",
        "<html><head></head><body><p>alpha needle beta</p><p><a href=\"ch2.xhtml#s3\">go</a></p></body></html>",
    );
    add(
        &mut book,
        "two",
        "ch2.xhtml",
        "<html><head></head><body><p>gamma</p><p><span id=\"s3\">needle here</span> tail</p></body></html>",
    );
    book
}

#[test]
fn renderer_flattens_markup() {
    let doc = parse_markup("<html><head></head><body><p>Hello <em>world</em></p></body></html>")
        .expect("parses");
    let cb = build_chapter_doc(&doc).expect("content");
    assert_eq!(string(&cb.text), "\nHello world\n");
    // the em element opened an italic run and closed it again
    assert!(cb.runs.iter().any(|&(_, st)| st.italic));
    assert!(!cb.state.italic);
}

#[test]
fn renderer_records_links_and_anchors() {
    let doc = parse_markup(
        "<html><head></head><body><p id=\"top\"><a href=\"x.xhtml\">link text</a></p></body></html>",
    )
    .expect("parses");
    let cb = build_chapter_doc(&doc).expect("content");
    assert_eq!(cb.links.len(), 1);
    let (s, e, ref href) = cb.links[0];
    assert_eq!(string(href), "x.xhtml");
    assert_eq!(string(&cb.text[s..e]), "link text");
    assert_eq!(cb.frags.len(), 1);
    assert_eq!(string(&cb.frags[0].0), "top");
}

#[test]
fn malformed_markup_is_a_load_error() {
    assert!(parse_markup("<html><body>").is_none());
    assert!(parse_markup("not xml at all").is_none());
}

#[test]
fn image_only_chapter_is_dropped() {
    // an image-only page renders to placeholder text, but a whitespace-only
    // body is dropped
    let blank = parse_markup("<html><head></head><body><p> </p></body></html>").expect("parses");
    assert!(build_chapter_doc(&blank).is_none());
}

#[test]
fn search_then_reverse_search_refinds_occurrence() {
    let book = two_chapter_book();
    let mut bk = bk_new(book, 80, 10, 40, false, 0, 0);
    bk.query = chars("needle");
    assert!(bk.search(Direction::Next, false));
    let hit = (bk.chapter, bk.line);
    let (s, e) = bk.chapters[bk.chapter].lines[bk.line];
    let line_text = string(&bk.chapters[bk.chapter].text[s..e]);
    assert!(line_text.contains("needle"));
    // reverse search from the found line lands on the same line
    assert!(bk.search(Direction::Prev, false));
    assert_eq!((bk.chapter, bk.line), hit);
}

#[test]
fn search_crosses_into_later_chapters() {
    let book = two_chapter_book();
    let mut bk = bk_new(book, 80, 10, 40, false, 0, 0);
    bk.query = chars("gamma");
    assert!(bk.search(Direction::Next, false));
    assert_eq!(bk.chapter, 1);
}

#[test]
fn query_split_across_chapters_is_never_found() {
    let book = two_chapter_book();
    let mut bk = bk_new(book, 80, 10, 40, false, 0, 0);
    // chapter one ends "...go\n", chapter two begins "\ngamma..." — the
    // concatenation occurs across the boundary only
    bk.query = chars("go\n\ngamma");
    let before = (bk.chapter, bk.line);
    assert!(!bk.search(Direction::Next, false));
    assert_eq!((bk.chapter, bk.line), before);
    assert!(!bk.search(Direction::Prev, false));
    assert_eq!((bk.chapter, bk.line), before);
}

#[test]
fn failed_search_never_strands_the_cursor() {
    let book = two_chapter_book();
    let mut bk = bk_new(book, 80, 10, 40, false, 0, 0);
    bk.view = ViewKind::Search;
    bk.dir = Direction::Next;
    // typing a query with no match leaves the position at the saved mark
    let before = (bk.chapter, bk.line);
    on_key(&mut bk, Key::Char('z'));
    on_key(&mut bk, Key::Char('z'));
    assert_eq!((bk.chapter, bk.line), before);
    assert_eq!(string(&bk.query), "zz");
}

#[test]
fn mark_set_and_jump_round_trip() {
    let book = two_chapter_book();
    let mut bk = bk_new(book, 80, 10, 40, false, 0, 0);
    let p1 = (bk.chapter, bk.line);
    // set mark 'a' at the current position
    on_key(&mut bk, Key::Char('m'));
    on_key(&mut bk, Key::Char('a'));
    assert!(matches!(bk.view, ViewKind::Page));
    // navigate elsewhere
    on_key(&mut bk, Key::Char(']'));
    let elsewhere = (bk.chapter, bk.line);
    assert_ne!(elsewhere, p1);
    // jump back to mark 'a'
    on_key(&mut bk, Key::Char('\''));
    on_key(&mut bk, Key::Char('a'));
    assert_eq!((bk.chapter, bk.line), p1);
    // the reserved mark now holds the position the jump was made from
    assert_eq!(mark_get(&bk.mark, '\''), Some(elsewhere));
}

#[test]
fn click_on_link_jumps_to_anchor_target() {
    let book = two_chapter_book();
    let mut bk = bk_new(book, 40, 10, 40, false, 0, 0);
    // find the screen position of the link text "go" in chapter one
    let (ls, le, _) = {
        let c = &bk.chapters[0];
        c.links[0].clone()
    };
    let row = {
        let c = &bk.chapters[0];
        (0..c.lines.len()).find(|&i| c.lines[i].0 <= ls && ls < c.lines[i].1).unwrap()
    };
    assert!(le <= bk.chapters[0].lines[row].1);
    // pad is zero at full width; click the link's first column
    let col = {
        let c = &bk.chapters[0];
        let (s, _) = c.lines[row];
        c.text[s..ls].iter().map(|&ch| bk::width::width_of(ch)).sum::<usize>()
    };
    bk.click(col, row);
    assert_eq!(bk.chapter, 1);
    // the position is the line holding the anchor offset of fragment s3
    let frag_off = {
        let c = &bk.chapters[1];
        c.frag.iter().find(|f| string(&f.0) == "s3").unwrap().1
    };
    let (s, e) = bk.chapters[1].lines[bk.line];
    assert!(s <= frag_off && frag_off < e);
}

#[test]
fn compositor_applies_base_style_before_highlight_at_equal_offset() {
    let text = chars("hello world");
    let runs: Vec<(usize, StyleState)> = vec![
        (0, StyleState { bold: false, italic: false, underline: false }),
        (6, StyleState { bold: true, italic: false, underline: false }),
    ];
    let query = chars("world");
    let lines = wrap(&text, 20);
    assert_eq!(lines, vec![(0, 11)]);
    let frame = compose_page(&text, &runs, &query, &lines, 0, 5);
    assert_eq!(frame.len(), 1);
    let mut bold_at = None;
    let mut hl_at = None;
    for (i, p) in frame[0].iter().enumerate() {
        match p {
            Piece::Style { state } if state.bold => {
                if bold_at.is_none() {
                    bold_at = Some(i);
                }
            },
            Piece::Highlight { on: true } => {
                if hl_at.is_none() {
                    hl_at = Some(i);
                }
            },
            _ => {},
        }
    }
    let b = bold_at.expect("bold style change appears");
    let h = hl_at.expect("highlight appears");
    // both sit at text offset six; the base style event is applied first
    assert!(b < h);
    for p in &frame[0][b + 1..h] {
        match p {
            Piece::Text { chars } => assert!(chars.is_empty()),
            Piece::Style { .. } => {},
            Piece::Highlight { .. } => panic!("highlight out of order"),
        }
    }
    // the rendered text of the line is intact
    let joined: String = frame[0]
        .iter()
        .filter_map(|p| match p {
            Piece::Text { chars } => Some(string(chars)),
            _ => None,
        })
        .collect();
    assert_eq!(joined, "hello world");
}

#[test]
fn resize_rewraps_and_clamps() {
    let book = two_chapter_book();
    let mut bk = bk_new(book, 80, 10, 40, false, 0, 0);
    let lines_wide = bk.chapters[0].lines.len();
    bk::view::resize(&mut bk, 12, 5);
    assert_eq!(bk.rows, 5);
    assert!(bk.chapters[0].lines.len() >= lines_wide);
    assert!(bk.line < bk.chapters[bk.chapter].lines.len());
}

#[test]
fn repeat_search_skips_the_current_match() {
    let mut book = epub_new(vec![]);
    add(
        &mut book,
        "one",
        "c.xhtml",
        "<html><head></head><body><p>aaa xx bbb</p><p>ccc xx ddd</p></body></html>",
    );
    let mut bk = bk_new(book, 80, 10, 12, false, 0, 0);
    bk.query = chars("xx");
    assert!(bk.search(Direction::Next, false));
    let first = (bk.chapter, bk.line);
    // repeating with the skip flag moves past the match found in place
    assert!(bk.search(Direction::Next, true));
    assert_ne!((bk.chapter, bk.line), first);
}

#[test]
fn long_titles_are_trimmed_with_an_ellipsis() {
    let mut book = epub_new(vec![]);
    add(
        &mut book,
        "a very long chapter title indeed",
        "c.xhtml",
        "<html><head></head><body><p>text</p></body></html>",
    );
    let bk = bk_new(book, 10, 5, 10, false, 0, 0);
    let title = string(&bk.chapters[0].title);
    assert_eq!(title.chars().count(), 10);
    assert!(title.ends_with('\u{2026}'));
}

#[test]
fn trailing_comment_does_not_hide_the_body() {
    let doc = parse_markup(
        "<html><head></head><body><p>words</p></body><!-- the end --></html>",
    )
    .expect("parses");
    let cb = build_chapter_doc(&doc).expect("content");
    assert_eq!(string(&cb.text), "\nwords\n");
}

#[test]
fn comments_inside_the_body_render_nothing() {
    let doc = parse_markup(
        "<html><head></head><body><p>a<!-- hidden -->b</p><?marker?></body></html>",
    )
    .expect("parses");
    let cb = build_chapter_doc(&doc).expect("content");
    assert_eq!(string(&cb.text), "\nab\n");
}
