use bk::extract::{
    dec_chars, dir_of, file_name_of, nav2_collect, nav3_collect, parse_package, rootfile_path,
    spine_entries, strip_fragment,
};
use bk::session::{parse_hex_color, session_start, SaveData};
use bk::xml::parse_markup;

fn chars(s: &str) -> Vec<char> {
    s.chars().collect()
}

fn string(v: &[char]) -> String {
    v.iter().collect()
}

#[test]
fn rootfile_names_the_package_document() {
    let doc = parse_markup(
        "<container><rootfiles><rootfile full-path=\"OEBPS/content.opf\" media-type=\"x\"/></rootfiles></container>",
    )
    .expect("parses");
    let p = rootfile_path(&doc).expect("rootfile found");
    assert_eq!(string(&p), "OEBPS/content.opf");
}

#[test]
fn missing_rootfile_is_a_load_error() {
    let doc = parse_markup("<container><rootfiles></rootfiles></container>").expect("parses");
    assert!(rootfile_path(&doc).is_none());
}

#[test]
fn paths_split_into_directory_and_name() {
    assert_eq!(string(&dir_of(&chars("OEBPS/content.opf"))), "OEBPS/");
    assert_eq!(string(&dir_of(&chars("content.opf"))), "");
    assert_eq!(string(&file_name_of(&chars("OEBPS/text/ch1.xhtml"))), "ch1.xhtml");
    assert_eq!(string(&strip_fragment(&chars("ch1.xhtml#s3"))), "ch1.xhtml");
    assert_eq!(string(&strip_fragment(&chars("ch1.xhtml"))), "ch1.xhtml");
}

#[test]
fn package_document_yields_meta_manifest_spine() {
    let doc = parse_markup(
        "<package version=\"3.0\"><metadata><title>My Book</title><meta>x</meta></metadata>\
         <manifest><item id=\"c1\" href=\"ch1.xhtml\"/><item id=\"nav\" href=\"nav.xhtml\" properties=\"nav\"/></manifest>\
         <spine><itemref idref=\"c1\"/></spine></package>",
    )
    .expect("parses");
    let p = parse_package(&doc).expect("package reads");
    assert_eq!(string(&p.meta), "title: My Book\n");
    assert!(p.version3);
    assert_eq!(p.manifest.len(), 2);
    assert_eq!(p.spine.len(), 1);
    assert_eq!(string(&p.spine[0]), "c1");
    assert_eq!(string(&p.nav_href.expect("nav item found")), "nav.xhtml");
    assert_eq!(string(&p.toc_id), "ncx");
}

#[test]
fn spine_idref_without_manifest_entry_is_a_load_error() {
    let doc = parse_markup(
        "<package><metadata></metadata><manifest></manifest>\
         <spine><itemref idref=\"ghost\"/></spine></package>",
    )
    .expect("parses");
    let p = parse_package(&doc).expect("package reads");
    assert!(spine_entries(&p.manifest, &Vec::new(), false, &p.spine).is_none());
}

#[test]
fn spine_order_wins_and_nav_only_labels() {
    let doc = parse_markup(
        "<package><metadata></metadata>\
         <manifest><item id=\"a\" href=\"a.xhtml\"/><item id=\"b\" href=\"b.xhtml\"/></manifest>\
         <spine><itemref idref=\"b\"/><itemref idref=\"a\"/></spine></package>",
    )
    .expect("parses");
    let p = parse_package(&doc).expect("package reads");
    // the navigation map lists a first, but the spine says b comes first
    let nav = vec![(chars("a.xhtml"), chars("Alpha")), (chars("b.xhtml"), chars("Beta"))];
    let entries = spine_entries(&p.manifest, &nav, false, &p.spine).expect("resolves");
    assert_eq!(string(&entries[0].0), "Beta");
    assert_eq!(string(&entries[0].1), "b.xhtml");
    assert_eq!(string(&entries[1].0), "Alpha");
}

#[test]
fn missing_nav_label_falls_back_to_position() {
    let doc = parse_markup(
        "<package><metadata></metadata>\
         <manifest><item id=\"a\" href=\"a.xhtml\"/><item id=\"b\" href=\"b.xhtml\"/></manifest>\
         <spine><itemref idref=\"a\"/><itemref idref=\"b\"/></spine></package>",
    )
    .expect("parses");
    let p = parse_package(&doc).expect("package reads");
    let entries = spine_entries(&p.manifest, &Vec::new(), false, &p.spine).expect("resolves");
    assert_eq!(string(&entries[0].0), "0");
    assert_eq!(string(&entries[1].0), "1");
}

#[test]
fn hierarchical_nav_map_collects_labels() {
    let doc = parse_markup(
        "<ncx><navMap><navPoint><navLabel><text>One</text></navLabel>\
         <content src=\"ch1.xhtml#top\"/></navPoint>\
         <navPoint><navLabel><text>Two</text></navLabel><content src=\"ch2.xhtml\"/></navPoint>\
         </navMap></ncx>",
    )
    .expect("parses");
    let mut pairs: Vec<(Vec<char>, Vec<char>)> = Vec::new();
    nav2_collect(&doc, &mut pairs);
    assert_eq!(pairs.len(), 2);
    assert_eq!(string(&pairs[0].0), "ch1.xhtml");
    assert_eq!(string(&pairs[0].1), "One");
    assert_eq!(string(&pairs[1].0), "ch2.xhtml");
    assert_eq!(string(&pairs[1].1), "Two");
}

#[test]
fn flat_nav_list_collects_anchor_labels() {
    let doc = parse_markup(
        "<html><body><nav><ol><li><a href=\"ch1.xhtml#x\">First <i>part</i></a></li>\
         <li><a href=\"ch2.xhtml\">Second</a></li></ol></nav></body></html>",
    )
    .expect("parses");
    let mut pairs: Vec<(Vec<char>, Vec<char>)> = Vec::new();
    nav3_collect(&doc, &mut pairs);
    assert_eq!(pairs.len(), 2);
    assert_eq!(string(&pairs[0].0), "ch1.xhtml");
    assert_eq!(string(&pairs[0].1), "First part");
    assert_eq!(string(&pairs[1].1), "Second");
}

#[test]
fn numbers_print_in_decimal() {
    assert_eq!(string(&dec_chars(0)), "0");
    assert_eq!(string(&dec_chars(7)), "7");
    assert_eq!(string(&dec_chars(10)), "10");
    assert_eq!(string(&dec_chars(409)), "409");
}

#[test]
fn hex_colors_parse_and_reject() {
    assert_eq!(parse_hex_color(&chars("282a36")), Some((0x28, 0x2a, 0x36)));
    assert_eq!(parse_hex_color(&chars("F8f8F2")), Some((0xf8, 0xf8, 0xf2)));
    assert_eq!(parse_hex_color(&chars("28")), None);
    assert_eq!(parse_hex_color(&chars("28zz36")), None);
}

#[test]
fn session_resumes_saved_position() {
    let save = SaveData {
        last: chars("/books/a.epub"),
        files: vec![(chars("/books/a.epub"), (3, 120)), (chars("/books/b.epub"), (1, 7))],
    };
    // no argument: reopen the last book where it left off
    let r = session_start(Some(save), None).expect("resumes");
    assert_eq!(string(&r.0), "/books/a.epub");
    assert_eq!((r.1, r.2), (3, 120));
}

#[test]
fn session_argument_overrides_and_fresh_books_start_at_zero() {
    let save = SaveData {
        last: chars("/books/a.epub"),
        files: vec![(chars("/books/a.epub"), (3, 120))],
    };
    let r = session_start(Some(save), Some(chars("/books/new.epub"))).expect("opens");
    assert_eq!(string(&r.0), "/books/new.epub");
    assert_eq!((r.1, r.2), (0, 0));
    // no record and no argument is an error
    assert!(session_start(None, None).is_none());
    // no record but an argument: start that book fresh
    let r2 = session_start(None, Some(chars("/books/c.epub"))).expect("opens");
    assert_eq!((r2.1, r2.2), (0, 0));
}

#[test]
fn toc_and_help_and_metadata_render() {
    let mut book = bk::book::epub_new(chars("title: T\nauthor: A\n"));
    let doc = parse_markup("<html><head></head><body><p>words here</p></body></html>")
        .expect("parses");
    let cb = bk::book::build_chapter_doc(&doc).expect("content");
    bk::book::register_chapter(&mut book, chars("only"), &chars("c.xhtml"), cb);
    let bk = bk::view::bk_new(book, 40, 8, 40, true, 0, 0);
    assert!(matches!(bk.view, bk::book::ViewKind::Toc));
    let toc = bk::view::toc_frame(&bk);
    assert_eq!(toc.len(), 1);
    assert!(toc[0].len() == 3);
    let help = bk::view::help_frame();
    assert_eq!(help.len(), 24);
    let meta = bk::view::metadata_frame(&bk);
    assert_eq!(string(&meta[0]), "chapter: 1/1");
    assert_eq!(string(&meta[1]), "total: 0%");
    assert!(meta[2].is_empty());
    assert_eq!(string(&meta[3]), "title: T");
    assert_eq!(string(&meta[4]), "author: A");
}

#[test]
fn comments_and_instructions_do_not_shift_the_package() {
    let doc = parse_markup(
        "<package><!-- a note --><metadata><title>T</title></metadata><?marker data?>\
         <manifest><item id=\"a\" href=\"a.xhtml\"/></manifest>\
         <spine><!-- a note --><itemref idref=\"a\"/><?marker?></spine></package>",
    )
    .expect("parses");
    let p = parse_package(&doc).expect("package reads");
    assert_eq!(string(&p.meta), "title: T\n");
    assert_eq!(p.manifest.len(), 1);
    assert_eq!(p.spine.len(), 1);
    assert_eq!(string(&p.spine[0]), "a");
}
