use symark::comment::{comment_processor, GENERATOR_COMMENT};
use symark::dates::naturalize_date;
use symark::graph::build_graph;
use symark::model::{Block, MarkKind, NodeKind, Note, NoteIndex};
use symark::page::{
    cleanup_template_variables, filter_index_tag, page_description, remove_zero_width_spaces, tag_excerpt,
};
use symark::resolve::{find_block_by_id, find_content_by_id};
use symark::style::get_style_class;
use symark::text::{escape_html, split_trimmed, truncate_chars};
use symark::toc::{extract_toc_items, generate_toc_html, render_blocks_with_ids, TocItem};

fn text(s: &str) -> Block {
    let mut b = Block::new(NodeKind::Text);
    b.data = String::from(s);
    b
}

fn heading(level: u8, id: &str, s: &str) -> Block {
    let mut b = Block::new(NodeKind::Heading);
    b.heading_level = level;
    b.id = String::from(id);
    b.children = vec![text(s)];
    b
}

fn note(id: &str, title: &str, tags: &str, children: Vec<Block>) -> Note {
    Note { id: String::from(id), title: String::from(title), tags: String::from(tags), children }
}

fn block_ref(target: &str) -> Block {
    let mut b = Block::new(NodeKind::TextMark);
    b.mark = MarkKind::BlockRef;
    b.mark_ref_id = String::from(target);
    b
}

fn para(children: Vec<Block>) -> Block {
    let mut b = Block::new(NodeKind::Paragraph);
    b.children = children;
    b
}

#[test]
fn toc_collects_nested_headings_in_order() {
    let mut quote = Block::new(NodeKind::Blockquote);
    quote.children = vec![heading(3, "", "Inner")];
    let blocks = vec![heading(2, "", "First"), quote, heading(2, "own", "Second")];
    let mut items: Vec<TocItem> = Vec::new();
    let mut counter: usize = 0;
    extract_toc_items(&blocks, &mut items, &mut counter);
    assert_eq!(items.len(), 3);
    assert_eq!(items[0].id, "heading-0");
    assert_eq!(items[1].id, "heading-1");
    assert_eq!(items[1].text, "Inner");
    assert_eq!(items[2].id, "own");
    assert_eq!(counter, 3);
    let html = generate_toc_html(&items);
    assert_eq!(
        html,
        "<li class=\"toc-item\"><a class=\"toc-link\" href=\"#heading-0\">First</a></li>\n\
<li class=\"toc-item toc-subitem\"><a class=\"toc-link\" href=\"#heading-1\">Inner</a></li>\n\
<li class=\"toc-item\"><a class=\"toc-link\" href=\"#own\">Second</a></li>\n"
    );
}

#[test]
fn toc_placeholder_without_qualifying_headings() {
    let items = vec![TocItem { id: String::from("a"), text: String::from("A"), level: 1 }];
    assert_eq!(
        generate_toc_html(&items),
        "<li class=\"toc-item\"><em>No headings found</em></li>\n"
    );
    assert_eq!(
        generate_toc_html(&[]),
        "<li class=\"toc-item\"><em>No headings found</em></li>\n"
    );
}

#[test]
fn rendering_with_heading_anchors() {
    let index = NoteIndex::new();
    let blocks = vec![heading(2, "", "A & B"), heading(2, "x", "C"), heading(3, "", "D")];
    assert_eq!(
        render_blocks_with_ids(&blocks, &index),
        "<h2 id=\"heading-0\">A &amp; B</h2>\n<h2 id=\"x\">C</h2>\n<h3 id=\"heading-1\">D</h3>\n"
    );
}

#[test]
fn mutual_references_make_one_edge() {
    let mut index = NoteIndex::new();
    index.insert(note("A", "Alpha", "x, y", vec![para(vec![block_ref("B")])]));
    index.insert(note("B", "", "", vec![para(vec![block_ref("A"), block_ref("B"), block_ref("zz")])]));
    let g = build_graph(&index);
    assert_eq!(g.edges.len(), 1);
    assert_eq!(g.edges[0].source, "A");
    assert_eq!(g.edges[0].target, "B");
    assert_eq!(g.nodes.len(), 2);
    assert_eq!(g.nodes[0].connections, 1);
    assert_eq!(g.nodes[1].connections, 1);
    assert_eq!(g.nodes[0].title, "Alpha");
    assert_eq!(g.nodes[1].title, "B");
    assert_eq!(g.nodes[0].tags, vec![String::from("x"), String::from("y")]);
    assert!(g.nodes[1].tags.is_empty());
}

#[test]
fn graph_without_references() {
    let mut index = NoteIndex::new();
    index.insert(note("A", "", "", vec![]));
    let g = build_graph(&index);
    assert!(g.edges.is_empty());
    assert_eq!(g.nodes[0].connections, 0);
}

#[test]
fn index_replaces_same_id() {
    let mut index = NoteIndex::new();
    index.insert(note("A", "old", "", vec![]));
    index.insert(note("A", "new", "", vec![]));
    assert_eq!(index.notes().len(), 1);
    assert_eq!(index.get("A").unwrap().title, "new");
    assert!(index.get("B").is_none());
}

#[test]
fn block_lookup_depth_first() {
    let mut inner = text("deep");
    inner.id = String::from("d");
    let outer = para(vec![inner]);
    let blocks = vec![outer];
    assert_eq!(find_block_by_id("d", &blocks).unwrap().data, "deep");
    assert!(find_block_by_id("nope", &blocks).is_none());
    let mut index = NoteIndex::new();
    index.insert(note("N", "", "", blocks));
    assert_eq!(find_content_by_id("N", &index).unwrap().len(), 1);
    assert_eq!(find_content_by_id("d", &index).unwrap().len(), 1);
    assert!(find_content_by_id("zz", &index).is_none());
}

#[test]
fn style_classification() {
    let info = "background-color: var(--b3-card-info-background); color: var(--b3-card-info-color);";
    assert_eq!(get_style_class(info, false), (Some(String::from("info-box")), false));
    assert_eq!(get_style_class(info, true), (Some(String::from("inline-info-box")), false));
    let err = "var(--b3-card-error-background) var(--b3-card-error-color)";
    assert_eq!(get_style_class(err, false), (Some(String::from("error-box")), false));
    let custom = "background: #123;";
    assert_eq!(get_style_class(custom, false), (Some(String::from("custom-box")), true));
    let half = "background-color: var(--b3-card-success-background);";
    assert_eq!(get_style_class(half, false), (Some(String::from("custom-box")), true));
    assert_eq!(get_style_class("color: red", false), (None, false));
    assert_eq!(get_style_class("", true), (None, false));
}

#[test]
fn escaping() {
    assert_eq!(escape_html("<script>alert('x')</script>"), "&lt;script&gt;alert(&#39;x&#39;)&lt;/script&gt;");
    assert_eq!(escape_html("a & \"b\""), "a &amp; &quot;b&quot;");
    assert_eq!(escape_html("plain text"), "plain text");
    assert_eq!(escape_html(""), "");
}

#[test]
fn truncation_by_characters() {
    let s: String = std::iter::repeat("日").take(305).collect();
    let t = truncate_chars(&s, 300);
    assert_eq!(t.chars().count(), 303);
    assert!(t.ends_with("..."));
    assert_eq!(truncate_chars("short", 300), "short");
    let exact: String = std::iter::repeat("a").take(300).collect();
    assert_eq!(truncate_chars(&exact, 300), exact);
}

#[test]
fn tag_lists() {
    assert_eq!(filter_index_tag("index, rust ,web"), "rust, web");
    assert_eq!(filter_index_tag("index"), "");
    assert_eq!(filter_index_tag(""), "");
    assert_eq!(split_trimmed(" a ,b"), vec![String::from("a"), String::from("b")]);
}

#[test]
fn zero_width_removal() {
    assert_eq!(remove_zero_width_spaces("a\u{200B}b\u{200F}c"), "abc");
    let family = "\u{1F468}\u{200D}\u{1F469}\u{1F3FB}";
    assert_eq!(remove_zero_width_spaces(family), family);
    assert_eq!(remove_zero_width_spaces("\u{1F600}\u{200D}\u{200B}x"), "\u{1F600}\u{200D}\u{200B}x");
}

#[test]
fn template_cleanup() {
    assert_eq!(cleanup_template_variables("a{{x}}b"), "ab\n");
    assert_eq!(cleanup_template_variables("a{{x"), "a{{x\n");
    let page = "<head>\n  <meta property=\"og:title\" content=\"\">\n<meta property=\"og:url\" content=\"u\">\r\n</head>";
    assert_eq!(
        cleanup_template_variables(page),
        "<head>\n<meta property=\"og:url\" content=\"u\">\n</head>\n"
    );
    assert_eq!(cleanup_template_variables(""), "");
}

#[test]
fn dates_compact_and_iso() {
    assert_eq!(naturalize_date(""), "Unknown date");
    assert_eq!(naturalize_date("20240131"), "January 31st, 2024");
    assert_eq!(naturalize_date("20240302T140500"), "March 2nd, 2024 at 2:05 PM");
    assert_eq!(naturalize_date("20241123T000900"), "November 23rd, 2024 at 12:09 AM");
    assert_eq!(naturalize_date("20241311"), "Unknown 11th, 2024");
    assert_eq!(naturalize_date("20240302T1405"), "March 2nd, 2024");
    assert_eq!(naturalize_date("2024-07-04"), "July 4th, 2024");
    assert_eq!(naturalize_date("2024-07-22T12:30"), "July 22nd, 2024 at 12:30 PM");
    assert_eq!(naturalize_date("2024-07-22Tab:30"), "July 22nd, 2024");
    assert_eq!(naturalize_date("2024-xx-22"), "2024-xx-22");
    assert_eq!(naturalize_date("yesterday"), "yesterday");
}

#[test]
fn comment_goes_after_a_deep_text_position() {
    let page = "<html><body><div><p>one two three four five six seven eight</p></div></body></html>";
    let out = comment_processor(page);
    assert_eq!(out.len(), page.len() + GENERATOR_COMMENT.len());
    assert_eq!(out.replacen(GENERATOR_COMMENT, "", 1), page);
    let at = out.find(GENERATOR_COMMENT).unwrap();
    assert!(out[..at].ends_with(' '));
    assert!(at * 5 > page.len() && at * 5 < page.len() * 4);
}

#[test]
fn comment_falls_back_to_the_middle() {
    let out = comment_processor("abcd");
    assert_eq!(out, format!("ab{}cd", GENERATOR_COMMENT));
    let out = comment_processor("");
    assert_eq!(out, GENERATOR_COMMENT);
}

#[test]
fn tag_page_excerpts() {
    let mut p1 = Block::new(NodeKind::LegacyParagraph);
    p1.id = String::from("p1");
    p1.data = String::from("Short & sweet");
    let mut p2 = Block::new(NodeKind::LegacyParagraph);
    p2.id = String::from("p2");
    p2.data = String::from("second");
    let n = note("n", "T", "", vec![p1, p2]);
    assert_eq!(tag_excerpt(&n), "Short &amp; sweet second");
    let n = note("n", "T", "", vec![para(vec![text("from a child")])]);
    assert_eq!(tag_excerpt(&n), "from a child");
    let n = note("n", "T", " a, ,b ", vec![]);
    assert_eq!(tag_excerpt(&n), "Tagged with: a, b");
    let n = note("n", "Title only", "", vec![]);
    assert_eq!(tag_excerpt(&n), "Title only");
    let mut long = Block::new(NodeKind::LegacyParagraph);
    long.data = std::iter::repeat("word ").take(60).collect();
    let n = note("n", "T", "", vec![long]);
    let e = tag_excerpt(&n);
    assert!(e.ends_with("..."));
    assert_eq!(e.len(), 199 + 3);
    assert!(e.ends_with("word..."));
}

#[test]
fn kind_names() {
    assert_eq!(symark::model::node_kind_of("NodeParagraph"), NodeKind::Paragraph);
    assert_eq!(symark::model::node_kind_of("P"), NodeKind::LegacyParagraph);
    assert_eq!(symark::model::node_kind_of("NodeWhatever"), NodeKind::Other);
    assert_eq!(symark::model::mark_kind_of("strong text"), MarkKind::Strong);
    assert_eq!(symark::model::mark_kind_of("block-ref"), MarkKind::BlockRef);
    assert_eq!(symark::model::mark_kind_of("strong em"), MarkKind::Other);
}

#[test]
fn page_descriptions() {
    let index = NoteIndex::new();
    let n = note("id1", "Title", "", vec![para(vec![text("a <b>")]), para(vec![text("c")])]);
    assert_eq!(page_description(&n, &index, "Title"), "a &amp;lt;b&amp;gt; c");
    let empty = note("id2", "", "", vec![]);
    assert_eq!(page_description(&empty, &index, "id2"), "id2");
    let long: String = std::iter::repeat("x").take(250).collect();
    let n = note("id3", "", "", vec![para(vec![text(&long)])]);
    let d = page_description(&n, &index, "");
    assert_eq!(d.chars().count(), 196 + 3);
    assert!(d.ends_with("..."));
}

#[test]
fn white_space_property() {
    assert!(symark::text::is_white_space('\u{3000}'));
    assert!(symark::text::is_white_space('\t'));
    assert!(!symark::text::is_white_space('\u{200B}'));
    assert!(!symark::text::is_white_space('x'));
    assert_eq!(symark::text::trim_text("\u{00A0} a b\u{2029}"), "a b");
}
