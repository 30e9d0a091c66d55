use symark::model::{Block, MarkKind, NodeKind, Note, NoteIndex};
use symark::render::{extract_quoted_id, render_block, render_blocks};
use symark::marks::render_text_mark;

fn text(s: &str) -> Block {
    let mut b = Block::new(NodeKind::Text);
    b.data = String::from(s);
    b
}

fn with_children(kind: NodeKind, children: Vec<Block>) -> Block {
    let mut b = Block::new(kind);
    b.children = children;
    b
}

fn paragraph(s: &str) -> Block {
    with_children(NodeKind::Paragraph, vec![text(s)])
}

fn note(id: &str, title: &str, children: Vec<Block>) -> Note {
    Note { id: String::from(id), title: String::from(title), tags: String::new(), children }
}

fn block_ref(target: &str, label: &str) -> Block {
    let mut b = Block::new(NodeKind::TextMark);
    b.mark = MarkKind::BlockRef;
    b.mark_ref_id = String::from(target);
    b.mark_text = String::from(label);
    b
}

#[test]
fn paragraph_escapes_text() {
    let index = NoteIndex::new();
    let html = render_block(&paragraph("Hello & <world>"), &index);
    assert_eq!(html, "<p>Hello &amp; &lt;world&gt;</p>\n");
}

#[test]
fn ordered_list_with_one_item() {
    let index = NoteIndex::new();
    let item = with_children(NodeKind::ListItem, vec![paragraph("Item")]);
    let mut list = with_children(NodeKind::List, vec![item]);
    list.list_type = 1;
    assert_eq!(render_block(&list, &index), "<ol>\n<li><p>Item</p>\n</li>\n</ol>\n");
}

#[test]
fn unordered_and_task_lists_use_ul() {
    let index = NoteIndex::new();
    let item = with_children(NodeKind::ListItem, vec![paragraph("Item")]);
    let mut list = with_children(NodeKind::List, vec![item]);
    list.list_type = 3;
    assert_eq!(render_block(&list, &index), "<ul>\n<li><p>Item</p>\n</li>\n</ul>\n");
    let item = with_children(NodeKind::ListItem, vec![paragraph("Item")]);
    let list = with_children(NodeKind::List, vec![item]);
    assert_eq!(render_block(&list, &index), "<ul>\n<li><p>Item</p>\n</li>\n</ul>\n");
}

#[test]
fn consecutive_paragraphs_in_item_collapse() {
    let index = NoteIndex::new();
    let item = with_children(NodeKind::ListItem, vec![paragraph("a"), paragraph("b")]);
    assert_eq!(render_block(&item, &index), "<li><p>a</p>\nb</li>\n");
}

#[test]
fn checked_task_item() {
    let index = NoteIndex::new();
    let mut marker = Block::new(NodeKind::TaskListItemMarker);
    marker.task_checked = true;
    let item = with_children(NodeKind::ListItem, vec![marker, paragraph("Done")]);
    let html = render_block(&item, &index);
    assert_eq!(
        html,
        "<li style=\"position: relative; padding-left: 30px; margin-bottom: 12px; list-style: none; \">\
<span class=\"task-checkbox-checked\"></span>\
<span class=\"task-complete\" style=\"text-decoration: line-through; color: #7f8c8d;\"><p>Done</p>\n</span></li>\n"
    );
}

#[test]
fn unchecked_task_item() {
    let index = NoteIndex::new();
    let marker = Block::new(NodeKind::TaskListItemMarker);
    let item = with_children(NodeKind::ListItem, vec![marker, paragraph("Todo")]);
    let html = render_block(&item, &index);
    assert!(html.contains("<span class=\"task-checkbox-unchecked\"></span><p>Todo</p>\n"));
    assert!(!html.contains("task-complete"));
}

#[test]
fn ids_go_on_elements() {
    let index = NoteIndex::new();
    let mut p = paragraph("x");
    p.id = String::from("20240101120000-abcdefg");
    assert_eq!(render_block(&p, &index), "<p id=\"20240101120000-abcdefg\">x</p>\n");
    let mut h = with_children(NodeKind::Heading, vec![text("T")]);
    h.id = String::from("h1");
    h.heading_level = 9;
    assert_eq!(render_block(&h, &index), "<h6 id=\"h1\">T</h6>\n");
    let mut t = text("plain");
    t.id = String::from("t1");
    assert_eq!(render_block(&t, &index), "<span id=\"t1\">plain</span>");
}

#[test]
fn heading_level_zero_clamps_to_one() {
    let index = NoteIndex::new();
    let h = with_children(NodeKind::Heading, vec![text("T")]);
    assert_eq!(render_block(&h, &index), "<h1>T</h1>\n");
}

fn superblock(layout: &str, children: Vec<Block>) -> Block {
    let mut marker = Block::new(NodeKind::SuperBlockLayoutMarker);
    marker.data = String::from(layout);
    let mut all = vec![Block::new(NodeKind::SuperBlockOpenMarker), marker];
    for c in children {
        all.push(c);
    }
    all.push(Block::new(NodeKind::SuperBlockCloseMarker));
    with_children(NodeKind::SuperBlock, all)
}

#[test]
fn layout_row_payload_renders_column() {
    let index = NoteIndex::new();
    let sb = superblock("row", vec![paragraph("a")]);
    assert_eq!(
        render_block(&sb, &index),
        "<div class=\"superblock superblock-col\">\n<p>a</p>\n</div>\n"
    );
}

#[test]
fn layout_other_payload_renders_row_with_column() {
    let index = NoteIndex::new();
    let sb = superblock("col", vec![paragraph("a")]);
    assert_eq!(
        render_block(&sb, &index),
        "<div class=\"superblock superblock-row\">\n<div class=\"superblock superblock-col\">\n<p>a</p>\n</div>\n</div>\n"
    );
}

#[test]
fn row_with_nested_containers() {
    let index = NoteIndex::new();
    let inner = superblock("row", vec![paragraph("in")]);
    let sb = superblock("col", vec![inner, paragraph("rest")]);
    assert_eq!(
        render_block(&sb, &index),
        "<div class=\"superblock superblock-row\">\n\
<div class=\"superblock superblock-col\">\n<p>in</p>\n</div>\n\
<div class=\"superblock superblock-col\">\n<p>rest</p>\n</div>\n</div>\n"
    );
}

#[test]
fn code_block_base64_language() {
    let index = NoteIndex::new();
    let mut code = Block::new(NodeKind::CodeBlockCode);
    code.data = String::from("if a < b {}");
    let mut cb = with_children(NodeKind::CodeBlock, vec![code]);
    cb.code_info = String::from("cnVzdA==");
    assert_eq!(
        render_block(&cb, &index),
        "<pre><code class=\"language-rust\">if a &lt; b {}</code></pre>\n"
    );
}

#[test]
fn code_block_raw_language_when_not_base64() {
    let index = NoteIndex::new();
    let mut cb = with_children(NodeKind::CodeBlock, vec![]);
    cb.code_info = String::from("c++");
    assert_eq!(render_block(&cb, &index), "<pre><code class=\"language-c++\"></code></pre>\n");
}

#[test]
fn code_block_raw_language_when_not_text() {
    let index = NoteIndex::new();
    let mut cb = with_children(NodeKind::CodeBlock, vec![]);
    cb.code_info = String::from("rust");
    assert_eq!(render_block(&cb, &index), "<pre><code class=\"language-rust\"></code></pre>\n");
}

#[test]
fn code_block_without_language() {
    let index = NoteIndex::new();
    let mut code = Block::new(NodeKind::CodeBlockCode);
    code.data = String::from("<script>");
    let cb = with_children(NodeKind::CodeBlock, vec![code]);
    let html = render_block(&cb, &index);
    assert_eq!(html, "<pre><code>&lt;script&gt;</code></pre>\n");
    assert!(!html.contains("<script>"));
}

fn image(src: &str, alt: &str, title: &str) -> Block {
    let mut parts = Vec::new();
    let mut d = Block::new(NodeKind::LinkDest);
    d.data = String::from(src);
    parts.push(d);
    let mut t = Block::new(NodeKind::LinkText);
    t.data = String::from(alt);
    parts.push(t);
    if !title.is_empty() {
        let mut c = Block::new(NodeKind::LinkTitle);
        c.data = String::from(title);
        parts.push(c);
    }
    let mut b = with_children(NodeKind::Image, parts);
    b.id = String::from("img1");
    b
}

#[test]
fn image_id_placement() {
    let index = NoteIndex::new();
    let plain = image("a.png", "A", "");
    assert_eq!(render_block(&plain, &index), "<img id=\"img1\" src=\"a.png\" alt=\"A\"/>");
    let captioned = image("a.png", "A", "Cap & co");
    assert_eq!(
        render_block(&captioned, &index),
        "<figure id=\"img1\" class=\"image-with-caption\"><img src=\"a.png\" alt=\"A\"/>\
<figcaption>Cap &amp; co</figcaption></figure>"
    );
    let mut wrapped = image("a.png", "A", "");
    wrapped.parent_style = String::from("text-align: center");
    wrapped.style = String::from("width: 50%");
    assert_eq!(
        render_block(&wrapped, &index),
        "<div id=\"img1\" style=\"text-align: center\"><img src=\"a.png\" alt=\"A\" style=\"width: 50%\"/></div>"
    );
    let none = image("", "A", "");
    assert_eq!(render_block(&none, &index), "");
}

#[test]
fn table_cells() {
    let index = NoteIndex::new();
    let mut th = with_children(NodeKind::TableCell, vec![text("H")]);
    th.data = String::from("th");
    let td = with_children(NodeKind::TableCell, vec![text("D")]);
    let row = with_children(NodeKind::TableRow, vec![th, td]);
    let table = with_children(NodeKind::Table, vec![row]);
    assert_eq!(
        render_block(&table, &index),
        "<table>\n<tr>\n<th>H</th>\n<td>D</td>\n</tr>\n</table>\n"
    );
}

#[test]
fn simple_wrappers() {
    let index = NoteIndex::new();
    let bq = with_children(NodeKind::Blockquote, vec![paragraph("q")]);
    assert_eq!(render_block(&bq, &index), "<blockquote><p>q</p>\n</blockquote>\n");
    assert_eq!(render_block(&Block::new(NodeKind::ThematicBreak), &index), "<hr>\n");
    assert_eq!(render_block(&Block::new(NodeKind::Br), &index), "<br>");
    let unknown = with_children(NodeKind::Other, vec![text("kept")]);
    assert_eq!(render_block(&unknown, &index), "kept");
}

#[test]
fn paragraph_styles() {
    let index = NoteIndex::new();
    let mut p = paragraph("x");
    p.style = String::from(
        "background-color: var(--b3-card-info-background); color: var(--b3-card-info-color);",
    );
    assert_eq!(render_block(&p, &index), "<p class=\"info-box\">x</p>\n");
    let mut p = paragraph("x");
    p.style = String::from("background-color: #ff0;");
    assert_eq!(
        render_block(&p, &index),
        "<p class=\"custom-box\" style=\"background-color: #ff0;\">x</p>\n"
    );
    let mut p = paragraph("x");
    p.style = String::from("color: red;");
    assert_eq!(render_block(&p, &index), "<p style=\"color: red;\">x</p>\n");
}

fn embed(query: &str) -> Block {
    let mut script = Block::new(NodeKind::BlockQueryEmbedScript);
    script.data = String::from(query);
    with_children(NodeKind::BlockQueryEmbed, vec![script])
}

#[test]
fn transclusion_of_block_and_note() {
    let mut index = NoteIndex::new();
    let mut target = paragraph("embedded");
    target.id = String::from("blk");
    index.insert(note("n1", "One", vec![target]));
    let html = render_block(&embed("select * from blocks where id='blk'"), &index);
    assert_eq!(
        html,
        "<div class=\"transcluded-block\"><a href=\"n1.html#blk\" class=\"source-link\">Go to source</a>\
<p id=\"blk\">embedded</p>\n</div>"
    );
    let html = render_block(&embed("select * from blocks where id='n1'"), &index);
    assert_eq!(
        html,
        "<div class=\"transcluded-block\"><a href=\"n1.html\" class=\"source-link\">Go to source</a>\
<p id=\"blk\">embedded</p>\n</div>"
    );
}

#[test]
fn transclusion_missing_target() {
    let index = NoteIndex::new();
    let html = render_block(&embed("select * from blocks where id='gone'"), &index);
    assert_eq!(
        html,
        "<div class=\"transcluded-block\"><a href=\".html#gone\" class=\"source-link\">Go to source</a>\
<p><em>Transcluded content not found: gone</em></p></div>"
    );
}

#[test]
fn transclusion_without_identifier_renders_children() {
    let index = NoteIndex::new();
    let html = render_block(&embed("select * from blocks"), &index);
    assert_eq!(html, "");
}

#[test]
fn self_transclusion_terminates() {
    let mut index = NoteIndex::new();
    let mut e = embed("select * from blocks where id='loop'");
    e.id = String::from("loop");
    index.insert(note("n", "", vec![e]));
    let html = render_blocks(&index.notes()[0].children, &index);
    assert!(html.starts_with("<div id=\"loop\" class=\"transcluded-block\">"));
}

#[test]
fn quoted_id_extraction() {
    assert_eq!(extract_quoted_id("where id='abc' limit 1"), Some(String::from("abc")));
    assert_eq!(extract_quoted_id("where id='abc"), None);
    assert_eq!(extract_quoted_id("nothing"), None);
}

#[test]
fn missing_block_reference() {
    let index = NoteIndex::new();
    let html = render_text_mark(&block_ref("absent", "see <this>"), &index);
    assert_eq!(html, "<span title=\"Missing reference: absent\">see &lt;this&gt;</span>");
}

#[test]
fn resolved_block_reference() {
    let mut index = NoteIndex::new();
    index.insert(note("n2", "Second", vec![paragraph("first"), paragraph("second"), paragraph("third")]));
    let html = render_text_mark(&block_ref("n2", ""), &index);
    assert_eq!(
        html,
        "<span class=\"tooltip\"><a href=\"n2.html\">Second</a><span class=\"right bottom\">\
<span class=\"tooltip-title\">Second</span><span class=\"tooltip-excerpt\">first <br>second </span>\
<i></i></span></span>"
    );
}

#[test]
fn long_excerpt_is_cut() {
    let mut index = NoteIndex::new();
    let long: String = std::iter::repeat("é").take(400).collect();
    index.insert(note("n3", "", vec![paragraph(&long)]));
    let html = render_text_mark(&block_ref("n3", ""), &index);
    let start = html.find("<span class=\"tooltip-excerpt\">").unwrap() + "<span class=\"tooltip-excerpt\">".len();
    let end = html[start..].find("</span>").unwrap() + start;
    let excerpt = &html[start..end];
    assert_eq!(excerpt.chars().count(), 303);
    assert!(excerpt.ends_with("..."));
    assert!(html.contains("<a href=\"n3.html\">n3</a>"));
}

fn mark(kind: MarkKind, content: &str) -> Block {
    let mut b = Block::new(NodeKind::TextMark);
    b.mark = kind;
    b.mark_text = String::from(content);
    b
}

#[test]
fn inline_marks() {
    let index = NoteIndex::new();
    assert_eq!(render_text_mark(&mark(MarkKind::Code, "a<b"), &index), "<code>a&lt;b</code>");
    assert_eq!(render_text_mark(&mark(MarkKind::Strong, "s"), &index), "<strong>s</strong>");
    assert_eq!(render_text_mark(&mark(MarkKind::Underline, "u"), &index), "<u>u</u>");
    assert_eq!(render_text_mark(&mark(MarkKind::Kbd, "k"), &index), "<kbd>k</kbd>");
    assert_eq!(render_text_mark(&mark(MarkKind::Highlight, "m"), &index), "<mark>m</mark>");
    assert_eq!(render_text_mark(&mark(MarkKind::Text, "t&"), &index), "t&amp;");
    assert_eq!(render_text_mark(&mark(MarkKind::Other, "o'"), &index), "o&#39;");
    assert_eq!(
        render_text_mark(&mark(MarkKind::InlineMath, "x<y"), &index),
        "<span class=\"math-inline\">x&lt;y</span>"
    );
    let mut tag = mark(MarkKind::Tag, "my tag");
    tag.id = String::from("t");
    assert_eq!(
        render_text_mark(&tag, &index),
        "<a id=\"t\" href=\"tag_my_tag.html\" class=\"tag\"># my tag</a>"
    );
    let mut memo = mark(MarkKind::InlineMemo, "word");
    memo.mark_memo = String::from("a \"note\"");
    assert_eq!(
        render_text_mark(&memo, &index),
        "<span title=\"a &quot;note&quot;\">word</span>"
    );
    let mut em = mark(MarkKind::Em, "e");
    em.mark_href = String::from("https://x.org");
    assert_eq!(
        render_text_mark(&em, &index),
        "<a href=\"https://x.org\" target=\"_blank\" class=\"link\"><em>e</em></a>"
    );
    let mut link = mark(MarkKind::Link, "site");
    link.mark_href = String::from("https://x.org");
    assert_eq!(
        render_text_mark(&link, &index),
        "<a href=\"https://x.org\" target=\"_blank\" class=\"link\">site</a>"
    );
}

#[test]
fn styled_inline_marks() {
    let index = NoteIndex::new();
    let mut s = mark(MarkKind::Strong, "w");
    s.style = String::from(
        "background-color: var(--b3-card-warning-background); color: var(--b3-card-warning-color);",
    );
    assert_eq!(render_text_mark(&s, &index), "<strong class=\"inline-warning-box\">w</strong>");
    let mut t = mark(MarkKind::Text, "c");
    t.style = String::from("background-color: #abc;");
    assert_eq!(
        render_text_mark(&t, &index),
        "<span class=\"inline-custom-box\" style=\"background-color: #abc;\">c</span>"
    );
    let mut ts = mark(MarkKind::TextStrong, "r");
    ts.style = String::from("color: red;");
    assert_eq!(render_text_mark(&ts, &index), "<strong style=\"color: red;\">r</strong>");
}

#[test]
fn language_attribute_from_decoding() {
    assert_eq!(
        symark::lang::language_attr("cHk=", &Some(String::from("py"))),
        " class=\"language-py\""
    );
    assert_eq!(symark::lang::language_attr("go", &None), " class=\"language-go\"");
    assert_eq!(symark::lang::decode_language("cHk="), Some(String::from("py")));
    assert_eq!(symark::lang::decode_language("c++"), None);
    assert_eq!(symark::lang::code_language(""), "");
}

#[test]
fn bold_link_mark() {
    let index = NoteIndex::new();
    let mut s = mark(MarkKind::Strong, "b&");
    s.id = String::from("m1");
    s.mark_href = String::from("https://x.org");
    assert_eq!(
        render_text_mark(&s, &index),
        "<a id=\"m1\" href=\"https://x.org\" target=\"_blank\" class=\"link\"><strong>b&amp;</strong></a>"
    );
    s.style = String::from("background-color: #abc;");
    assert_eq!(
        render_text_mark(&s, &index),
        "<a id=\"m1\" href=\"https://x.org\" target=\"_blank\" class=\"link\">\
<strong class=\"inline-custom-box\" style=\"background-color: #abc;\">b&amp;</strong></a>"
    );
}
