//! Renders a block tree to HTML: paragraphs, headings, lists, tables, code,
//! images, layout containers and transclusions.
use vstd::prelude::*;
use crate::lang::{code_language, code_language_attr};
use crate::marks::{id_attr, mark_html, push_escaped, push_id_attr, push_style_attrs, render_text_mark, style_attrs};
use crate::model::{Block, NodeKind, Note, NoteIndex, note_pos};
use crate::resolve::{block_in_notes, find_block_in_notes, locate_block, owner};
use crate::text::{
    chars_of, contains, escaped, find_chars, find_from, lemma_escape_safe, lemma_find_from_bounds,
    lemma_occurs_found, lemma_occurs_shift, lemma_script_escaped, occurs_at, push_char, same_text,
};

verus! {

/// How many transclusions may nest inside one another before further ones
/// are left unexpanded (a note that embeds itself would otherwise never end).
pub const EMBED_DEPTH: usize = 16;

/// A heading level clamped to 1..=6, as text.
pub open spec fn level_text(level: u8) -> Seq<char> {
    if level <= 1 {
        "1"@
    } else if level == 2 {
        "2"@
    } else if level == 3 {
        "3"@
    } else if level == 4 {
        "4"@
    } else if level == 5 {
        "5"@
    } else {
        "6"@
    }
}

/// Which children of a layout container a pass renders.
#[derive(Clone, Copy)]
pub enum Pick {
    /// All but the open, layout and close markers.
    Content,
    /// Nested layout containers.
    Nested,
    /// Content that is not a nested layout container.
    Rest,
}

pub open spec fn is_layout_marker(k: NodeKind) -> bool {
    k == NodeKind::SuperBlockOpenMarker || k == NodeKind::SuperBlockLayoutMarker || k
        == NodeKind::SuperBlockCloseMarker
}

pub open spec fn picked(p: Pick, b: Block) -> bool {
    match p {
        Pick::Content => !is_layout_marker(b.kind),
        Pick::Nested => b.kind == NodeKind::SuperBlock,
        Pick::Rest => !is_layout_marker(b.kind) && b.kind != NodeKind::SuperBlock,
    }
}

/// Some child is picked.
pub open spec fn any_picked(cs: Seq<Block>, p: Pick) -> bool {
    exists|i: int| 0 <= i < cs.len() && picked(p, #[trigger] cs[i])
}

/// The payload of the first layout marker among `cs[i..]`.
pub open spec fn layout_from(cs: Seq<Block>, i: int) -> Option<Seq<char>>
    decreases cs.len() - i,
{
    if i < 0 || i >= cs.len() {
        None
    } else if cs[i].kind == NodeKind::SuperBlockLayoutMarker {
        Some(cs[i].data@)
    } else {
        layout_from(cs, i + 1)
    }
}

/// A container lays out as a column exactly when its layout marker says `row`
/// (or it has none): the stored value is the inverse of the rendered one.
pub open spec fn is_column(cs: Seq<Block>) -> bool {
    match layout_from(cs, 0) {
        Some(d) => d == "row"@,
        None => true,
    }
}

/// The last value of a child of kind `k` among `cs`, empty if none.
pub open spec fn last_data(cs: Seq<Block>, k: NodeKind) -> Seq<char>
    decreases cs.len(),
{
    if cs.len() == 0 {
        Seq::empty()
    } else if cs.last().kind == k {
        cs.last().data@
    } else {
        last_data(cs.drop_last(), k)
    }
}

/// The escaped text of the code children of a code block.
pub open spec fn code_text(cs: Seq<Block>) -> Seq<char>
    decreases cs.len(),
{
    if cs.len() == 0 {
        Seq::empty()
    } else {
        code_text(cs.drop_last()) + if cs.last().kind == NodeKind::CodeBlockCode {
            escaped(cs.last().data@)
        } else {
            Seq::empty()
        }
    }
}

/// `" style=\"...\""` for a non-empty style.
pub open spec fn plain_style_attr(style: Seq<char>) -> Seq<char> {
    if style.len() == 0 {
        Seq::empty()
    } else {
        " style=\""@ + style + "\""@
    }
}

/// The `<img>` element of an image, with the id where no wrapper takes it.
pub open spec fn img_html(b: Block, with_id: bool) -> Seq<char> {
    "<img"@ + (if with_id {
        id_attr(b.id@)
    } else {
        Seq::empty()
    }) + " src=\""@ + last_data(b.children@, NodeKind::LinkDest) + "\" alt=\""@ + last_data(
        b.children@,
        NodeKind::LinkText,
    ) + "\""@ + plain_style_attr(b.style@) + "/>"@
}

/// An image: optionally inside a figure with a caption, optionally wrapped in
/// a styled div; the id goes to the outermost of figure, div and img.
pub open spec fn image_html(b: Block) -> Seq<char> {
    let cap = last_data(b.children@, NodeKind::LinkTitle);
    let has_cap = cap.len() > 0;
    if last_data(b.children@, NodeKind::LinkDest).len() == 0 {
        Seq::empty()
    } else {
        (if has_cap {
            "<figure"@ + id_attr(b.id@) + " class=\"image-with-caption\">"@
        } else {
            Seq::empty()
        }) + (if b.parent_style@.len() > 0 {
            "<div"@ + (if has_cap {
                Seq::empty()
            } else {
                id_attr(b.id@)
            }) + " style=\""@ + b.parent_style@ + "\">"@ + img_html(b, false) + "</div>"@
        } else {
            img_html(b, !has_cap)
        }) + (if has_cap {
            "<figcaption>"@ + escaped(cap) + "</figcaption>"@ + "</figure>"@
        } else {
            Seq::empty()
        })
    }
}

/// The first child of kind embed-script among `cs[i..]`.
pub open spec fn script_from(cs: Seq<Block>, i: int) -> Option<Block>
    decreases cs.len() - i,
{
    if i < 0 || i >= cs.len() {
        None
    } else if cs[i].kind == NodeKind::BlockQueryEmbedScript {
        Some(cs[i])
    } else {
        script_from(cs, i + 1)
    }
}

/// The identifier quoted after `id='` in a query, up to the next `'`.
pub open spec fn quoted_id(q: Seq<char>) -> Option<Seq<char>> {
    match find_from(q, "id='"@, 0) {
        Some(p) => match find_from(q, "'"@, p + 4) {
            Some(e) => Some(q.subrange(p + 4, e)),
            None => None,
        },
        None => None,
    }
}

/// The identifier that an embed's script names, if it has a script that names one.
pub open spec fn embed_target(b: Block) -> Option<Seq<char>> {
    match script_from(b.children@, 0) {
        Some(s) => quoted_id(s.data@),
        None => None,
    }
}

/// The page that a transcluded identifier comes from: the note's own page, or
/// the owning note's page with the block's anchor.
pub open spec fn source_url(notes: Seq<Note>, cid: Seq<char>) -> Seq<char> {
    if note_pos(notes, cid) is Some {
        cid + ".html"@
    } else {
        (match owner(notes, cid) {
            Some(j) => if 0 <= j < notes.len() {
                notes[j].id@
            } else {
                Seq::empty()
            },
            None => Seq::empty(),
        }) + ".html#"@ + cid
    }
}

/// The HTML of a sequence of blocks: each block's HTML in order.
pub open spec fn blocks_html(notes: Seq<Note>, bs: Seq<Block>, depth: nat) -> Seq<char>
    decreases depth, bs, 0nat,
{
    if bs.len() == 0 {
        Seq::empty()
    } else {
        blocks_html(notes, bs.drop_last(), depth) + block_html(notes, bs.last(), depth)
    }
}

/// The HTML of the children of `cs` that `p` picks.
pub open spec fn picked_html(notes: Seq<Note>, cs: Seq<Block>, depth: nat, p: Pick) -> Seq<char>
    decreases depth, cs, 0nat,
{
    if cs.len() == 0 {
        Seq::empty()
    } else {
        picked_html(notes, cs.drop_last(), depth, p) + if picked(p, cs.last()) {
            block_html(notes, cs.last(), depth)
        } else {
            Seq::empty()
        }
    }
}

/// The HTML of a list item's children, where a paragraph right after another
/// paragraph gives only its content.
pub open spec fn item_html(notes: Seq<Note>, cs: Seq<Block>, depth: nat) -> Seq<char>
    decreases depth, cs, 0nat,
{
    if cs.len() == 0 {
        Seq::empty()
    } else {
        let i = cs.len() - 1;
        item_html(notes, cs.drop_last(), depth) + if cs[i].kind == NodeKind::Paragraph && i > 0
            && cs[i - 1].kind == NodeKind::Paragraph {
            blocks_html(notes, cs[i].children@, depth)
        } else {
            block_html(notes, cs[i], depth)
        }
    }
}

/// `<div class="superblock superblock-col">` around `inner`.
pub open spec fn column_div(inner: Seq<char>) -> Seq<char> {
    "<div class=\"superblock superblock-col\">\n"@ + inner + "</div>\n"@
}

/// The body of a layout container. A row with nested containers renders them
/// directly, and the rest in one column; a row without renders all content in
/// one column; a column renders its content directly.
pub open spec fn superblock_body(notes: Seq<Note>, b: Block, depth: nat) -> Seq<char>
    decreases depth, b, 0nat,
{
    let cs = b.children@;
    if !is_column(cs) && any_picked(cs, Pick::Nested) {
        picked_html(notes, cs, depth, Pick::Nested) + if any_picked(cs, Pick::Rest) {
            column_div(picked_html(notes, cs, depth, Pick::Rest))
        } else {
            Seq::empty()
        }
    } else if !is_column(cs) {
        if any_picked(cs, Pick::Content) {
            column_div(picked_html(notes, cs, depth, Pick::Content))
        } else {
            Seq::empty()
        }
    } else {
        picked_html(notes, cs, depth, Pick::Content)
    }
}

/// A layout container.
pub open spec fn superblock_html(notes: Seq<Note>, b: Block, depth: nat) -> Seq<char>
    decreases depth, b, 1nat,
{
    "<div"@ + id_attr(b.id@) + " class=\"superblock superblock-"@ + (if is_column(b.children@) {
        "col"@
    } else {
        "row"@
    }) + "\">\n"@ + superblock_body(notes, b, depth) + "</div>\n"@
}

/// What a transclusion of `cid` shows: the block of that identifier, else the
/// whole note, else a notice; nothing once the nesting depth is spent.
pub open spec fn embedded_html(notes: Seq<Note>, b: Block, cid: Seq<char>, depth: nat) -> Seq<
    char,
>
    decreases depth, b, 0nat,
{
    if depth == 0 {
        Seq::empty()
    } else {
        match block_in_notes(notes, cid) {
            Some(t) => block_html(notes, t, (depth - 1) as nat),
            None => match note_pos(notes, cid) {
                Some(k) => if 0 <= k < notes.len() {
                    blocks_html(notes, notes[k].children@, (depth - 1) as nat)
                } else {
                    Seq::empty()
                },
                None => "<p><em>Transcluded content not found: "@ + cid + "</em></p>"@,
            },
        }
    }
}

/// A transclusion: a wrapper with a link to the source and the embedded
/// content; its children alone where the script names no identifier.
pub open spec fn embed_html(notes: Seq<Note>, b: Block, depth: nat) -> Seq<char>
    decreases depth, b, 1nat,
{
    match embed_target(b) {
        Some(cid) => "<div"@ + id_attr(b.id@) + " class=\"transcluded-block\">"@ + "<a href=\""@
            + source_url(notes, cid) + "\" class=\"source-link\">Go to source</a>"@
            + embedded_html(notes, b, cid, depth) + "</div>"@,
        None => blocks_html(notes, b.children@, depth),
    }
}

/// `open` + id + `mid` + children + `close`.
pub open spec fn wrapped(
    notes: Seq<Note>,
    b: Block,
    depth: nat,
    open: Seq<char>,
    mid: Seq<char>,
    close: Seq<char>,
) -> Seq<char>
    decreases depth, b, 0nat,
{
    open + id_attr(b.id@) + mid + blocks_html(notes, b.children@, depth) + close
}

/// A list item: a task item with its checkbox, or a plain item.
pub open spec fn list_item_html(notes: Seq<Note>, b: Block, depth: nat) -> Seq<char>
    decreases depth, b, 0nat,
{
    let cs = b.children@;
    match task_marker_from(cs, 0) {
        Some(m) => "<li"@ + id_attr(b.id@)
            + " style=\"position: relative; padding-left: 30px; margin-bottom: 12px; list-style: none; \">"@
            + (if m.task_checked {
            "<span class=\"task-checkbox-checked\"></span>"@
                + "<span class=\"task-complete\" style=\"text-decoration: line-through; color: #7f8c8d;\">"@
                + blocks_html(notes, cs, depth) + "</span>"@
        } else {
            "<span class=\"task-checkbox-unchecked\"></span>"@ + blocks_html(notes, cs, depth)
        }) + "</li>\n"@,
        None => "<li"@ + id_attr(b.id@) + ">"@ + item_html(notes, cs, depth) + "</li>\n"@,
    }
}

/// The first task marker among `cs[i..]`.
pub open spec fn task_marker_from(cs: Seq<Block>, i: int) -> Option<Block>
    decreases cs.len() - i,
{
    if i < 0 || i >= cs.len() {
        None
    } else if cs[i].kind == NodeKind::TaskListItemMarker {
        Some(cs[i])
    } else {
        task_marker_from(cs, i + 1)
    }
}

/// The HTML of one block.
pub open spec fn block_html(notes: Seq<Note>, b: Block, depth: nat) -> Seq<char>
    decreases depth, b, 2nat,
{
    match b.kind {
        NodeKind::SuperBlock => superblock_html(notes, b, depth),
        NodeKind::Paragraph => wrapped(
            notes,
            b,
            depth,
            "<p"@,
            (if b.style@.len() == 0 {
                Seq::empty()
            } else {
                style_attrs(b.style@, false)
            }) + ">"@,
            "</p>\n"@,
        ),
        NodeKind::Heading => wrapped(
            notes,
            b,
            depth,
            "<h"@ + level_text(b.heading_level),
            ">"@,
            "</h"@ + level_text(b.heading_level) + ">\n"@,
        ),
        NodeKind::List => if b.list_type == 1 {
            wrapped(notes, b, depth, "<ol"@, ">\n"@, "</ol>\n"@)
        } else {
            wrapped(notes, b, depth, "<ul"@, ">\n"@, "</ul>\n"@)
        },
        NodeKind::ListItem => list_item_html(notes, b, depth),
        NodeKind::TaskListItemMarker => Seq::empty(),
        NodeKind::Blockquote => wrapped(notes, b, depth, "<blockquote"@, ">"@, "</blockquote>\n"@),
        NodeKind::ThematicBreak => "<hr"@ + id_attr(b.id@) + ">\n"@,
        NodeKind::Table => wrapped(notes, b, depth, "<table"@, ">\n"@, "</table>\n"@),
        NodeKind::TableHead => wrapped(notes, b, depth, "<thead"@, ">\n"@, "</thead>\n"@),
        NodeKind::TableRow => wrapped(notes, b, depth, "<tr"@, ">\n"@, "</tr>\n"@),
        NodeKind::TableCell => if b.data@ == "th"@ {
            wrapped(notes, b, depth, "<th"@, ">"@, "</th>\n"@)
        } else {
            wrapped(notes, b, depth, "<td"@, ">"@, "</td>\n"@)
        },
        NodeKind::CodeBlock => "<pre"@ + id_attr(b.id@) + "><code"@ + code_language_attr(
            b.code_info@,
        ) + ">"@ + code_text(b.children@) + "</code></pre>\n"@,
        NodeKind::Text => if b.id@.len() == 0 {
            escaped(b.data@)
        } else {
            "<span id=\""@ + b.id@ + "\">"@ + escaped(b.data@) + "</span>"@
        },
        NodeKind::TextMark => mark_html(notes, b),
        NodeKind::Image => image_html(b),
        NodeKind::Br => "<br"@ + id_attr(b.id@) + ">"@,
        NodeKind::BlockQueryEmbed => embed_html(notes, b, depth),
        _ => blocks_html(notes, b.children@, depth),
    }
}

pub(crate) fn level_str(level: u8) -> (r: &'static str)
    ensures
        r@ == level_text(level),
{
    if level <= 1 {
        "1"
    } else if level == 2 {
        "2"
    } else if level == 3 {
        "3"
    } else if level == 4 {
        "4"
    } else if level == 5 {
        "5"
    } else {
        "6"
    }
}

fn is_picked(p: Pick, b: &Block) -> (r: bool)
    ensures
        r == picked(p, *b),
{
    let marker = b.kind == NodeKind::SuperBlockOpenMarker || b.kind
        == NodeKind::SuperBlockLayoutMarker || b.kind == NodeKind::SuperBlockCloseMarker;
    match p {
        Pick::Content => !marker,
        Pick::Nested => b.kind == NodeKind::SuperBlock,
        Pick::Rest => !marker && b.kind != NodeKind::SuperBlock,
    }
}

fn any_picked_exec(cs: &Vec<Block>, p: Pick) -> (r: bool)
    ensures
        r == any_picked(cs@, p),
{
    let mut i: usize = 0;
    while i < cs.len()
        invariant
            i <= cs@.len(),
            forall|j: int| 0 <= j < i ==> !picked(p, #[trigger] cs@[j]),
        decreases cs@.len() - i,
    {
        if is_picked(p, &cs[i]) {
            return true;
        }
        i = i + 1;
    }
    false
}

fn column_layout(cs: &Vec<Block>) -> (r: bool)
    ensures
        r == is_column(cs@),
{
    let mut i: usize = 0;
    while i < cs.len()
        invariant
            i <= cs@.len(),
            layout_from(cs@, 0) == layout_from(cs@, i as int),
        decreases cs@.len() - i,
    {
        if cs[i].kind == NodeKind::SuperBlockLayoutMarker {
            return same_text(cs[i].data.as_str(), "row");
        }
        i = i + 1;
    }
    true
}

fn last_data_exec<'a>(cs: &'a Vec<Block>, k: NodeKind) -> (r: &'a str)
    ensures
        r@ == last_data(cs@, k),
{
    proof {
        reveal_strlit("");
    }
    let mut cur: &str = "";
    let mut i: usize = 0;
    while i < cs.len()
        invariant
            i <= cs@.len(),
            cur@ == last_data(cs@.take(i as int), k),
        decreases cs@.len() - i,
    {
        proof {
            assert(cs@.take(i + 1).drop_last() =~= cs@.take(i as int));
            assert(cs@.take(i + 1).last() == cs@[i as int]);
        }
        if cs[i].kind == k {
            cur = cs[i].data.as_str();
        }
        i = i + 1;
    }
    assert(cs@.take(i as int) =~= cs@);
    cur
}

fn code_text_exec(cs: &Vec<Block>) -> (r: String)
    ensures
        r@ == code_text(cs@),
{
    let mut out = String::new();
    let mut i: usize = 0;
    while i < cs.len()
        invariant
            i <= cs@.len(),
            out@ == code_text(cs@.take(i as int)),
        decreases cs@.len() - i,
    {
        if cs[i].kind == NodeKind::CodeBlockCode {
            push_escaped(&mut out, cs[i].data.as_str());
        }
        proof {
            let next = cs@.take(i + 1);
            assert(next.drop_last() =~= cs@.take(i as int));
            assert(next.last() == cs@[i as int]);
            assert(out@ =~= code_text(next));
        }
        i = i + 1;
    }
    assert(cs@.take(i as int) =~= cs@);
    out
}

fn script_exec(cs: &Vec<Block>) -> (r: Option<&Block>)
    ensures
        match r {
            Some(s) => script_from(cs@, 0) == Some(*s),
            None => script_from(cs@, 0) is None,
        },
{
    let mut i: usize = 0;
    while i < cs.len()
        invariant
            i <= cs@.len(),
            script_from(cs@, 0) == script_from(cs@, i as int),
        decreases cs@.len() - i,
    {
        if cs[i].kind == NodeKind::BlockQueryEmbedScript {
            return Some(&cs[i]);
        }
        i = i + 1;
    }
    None
}

/// The identifier quoted after `id='` in a query script, up to the next `'`.
pub fn extract_quoted_id(query: &str) -> (r: Option<String>)
    ensures
        match r {
            Some(t) => quoted_id(query@) == Some(t@),
            None => quoted_id(query@) is None,
        },
{
    proof {
        reveal_strlit("id='");
        reveal_strlit("'");
    }
    let q = chars_of(query);
    let ql = q.len();
    let open = chars_of("id='");
    let quote = chars_of("'");
    let p = match find_chars(&q, &open, 0) {
        Some(p) => p,
        None => return None,
    };
    proof {
        lemma_find_from_bounds(q@, open@, 0);
        assert(open@.len() == 4);
        assert(p + 4 <= ql);
    }
    let e = match find_chars(&q, &quote, p + 4) {
        Some(e) => e,
        None => return None,
    };
    proof {
        lemma_find_from_bounds(q@, quote@, p + 4);
    }
    let mut out = String::new();
    let mut i: usize = p + 4;
    while i < e
        invariant
            p + 4 <= i <= e < q@.len(),
            out@ == q@.subrange(p + 4, i as int),
        decreases e - i,
    {
        push_char(&mut out, q[i]);
        assert(q@.subrange(p + 4, i + 1) =~= q@.subrange(p + 4, i as int).push(q@[i as int]));
        i = i + 1;
    }
    Some(out)
}

fn push_source_url(out: &mut String, index: &NoteIndex, cid: &str)
    ensures
        final(out)@ == old(out)@ + source_url(index.view(), cid@),
{
    let ghost start = out@;
    if index.position(cid).is_some() {
        out.append(cid);
        out.append(".html");
    } else {
        match locate_block(index, cid) {
            Some(j) => out.append(index.notes()[j].id.as_str()),
            None => {},
        }
        out.append(".html#");
        out.append(cid);
    }
    assert(out@ =~= start + source_url(index.view(), cid@));
}

/// Renders a sequence of blocks, letting transclusions nest `depth` deep.
pub fn render_blocks_at(blocks: &Vec<Block>, index: &NoteIndex, depth: usize) -> (r: String)
    ensures
        r@ == blocks_html(index.view(), blocks@, depth as nat),
    decreases depth, blocks@, 0nat,
{
    let mut out = String::new();
    let mut i: usize = 0;
    while i < blocks.len()
        invariant
            i <= blocks@.len(),
            out@ == blocks_html(index.view(), blocks@.take(i as int), depth as nat),
        decreases blocks@.len() - i,
    {
        let h = render_block_at(&blocks[i], index, depth);
        out.append(h.as_str());
        proof {
            let next = blocks@.take(i + 1);
            assert(next.drop_last() =~= blocks@.take(i as int));
            assert(next.last() == blocks@[i as int]);
        }
        i = i + 1;
    }
    assert(blocks@.take(i as int) =~= blocks@);
    out
}

fn render_picked(cs: &Vec<Block>, index: &NoteIndex, depth: usize, p: Pick) -> (r: String)
    ensures
        r@ == picked_html(index.view(), cs@, depth as nat, p),
    decreases depth, cs@, 0nat,
{
    let mut out = String::new();
    let mut i: usize = 0;
    while i < cs.len()
        invariant
            i <= cs@.len(),
            out@ == picked_html(index.view(), cs@.take(i as int), depth as nat, p),
        decreases cs@.len() - i,
    {
        if is_picked(p, &cs[i]) {
            let h = render_block_at(&cs[i], index, depth);
            out.append(h.as_str());
        }
        proof {
            let next = cs@.take(i + 1);
            assert(next.drop_last() =~= cs@.take(i as int));
            assert(next.last() == cs@[i as int]);
            assert(out@ =~= picked_html(index.view(), next, depth as nat, p));
        }
        i = i + 1;
    }
    assert(cs@.take(i as int) =~= cs@);
    out
}

fn render_item_children(cs: &Vec<Block>, index: &NoteIndex, depth: usize) -> (r: String)
    ensures
        r@ == item_html(index.view(), cs@, depth as nat),
    decreases depth, cs@, 0nat,
{
    let mut out = String::new();
    let mut last_was_paragraph = false;
    let mut i: usize = 0;
    while i < cs.len()
        invariant
            i <= cs@.len(),
            last_was_paragraph == (i > 0 && cs@[i - 1].kind == NodeKind::Paragraph),
            out@ == item_html(index.view(), cs@.take(i as int), depth as nat),
        decreases cs@.len() - i,
    {
        if cs[i].kind == NodeKind::Paragraph {
            if last_was_paragraph {
                let h = render_blocks_at(&cs[i].children, index, depth);
                out.append(h.as_str());
            } else {
                let h = render_block_at(&cs[i], index, depth);
                out.append(h.as_str());
                last_was_paragraph = true;
            }
        } else {
            let h = render_block_at(&cs[i], index, depth);
            out.append(h.as_str());
            last_was_paragraph = false;
        }
        proof {
            let next = cs@.take(i + 1);
            assert(next.drop_last() =~= cs@.take(i as int));
            assert(next[i as int] == cs@[i as int]);
            if i > 0 {
                assert(next[i - 1] == cs@[i - 1]);
            }
            assert(out@ =~= item_html(index.view(), next, depth as nat));
        }
        i = i + 1;
    }
    assert(cs@.take(i as int) =~= cs@);
    out
}

fn push_wrapped(
    out: &mut String,
    b: &Block,
    index: &NoteIndex,
    depth: usize,
    open: &str,
    mid: &str,
    close: &str,
)
    ensures
        final(out)@ == old(out)@ + wrapped(index.view(), *b, depth as nat, open@, mid@, close@),
    decreases depth, *b, 0nat,
{
    let ghost start = out@;
    out.append(open);
    push_id_attr(out, b.id.as_str());
    out.append(mid);
    let h = render_blocks_at(&b.children, index, depth);
    out.append(h.as_str());
    out.append(close);
    assert(out@ =~= start + wrapped(index.view(), *b, depth as nat, open@, mid@, close@));
}

fn render_superblock(b: &Block, index: &NoteIndex, depth: usize) -> (r: String)
    ensures
        r@ == superblock_html(index.view(), *b, depth as nat),
    decreases depth, *b, 1nat,
{
    let cs = &b.children;
    let column = column_layout(cs);
    let mut out = String::new();
    out.append("<div");
    push_id_attr(&mut out, b.id.as_str());
    out.append(" class=\"superblock superblock-");
    if column {
        out.append("col");
    } else {
        out.append("row");
    }
    out.append("\">\n");
    let body = render_superblock_body(b, index, depth);
    out.append(body.as_str());
    out.append("</div>\n");
    assert(out@ =~= superblock_html(index.view(), *b, depth as nat));
    out
}

fn render_superblock_body(b: &Block, index: &NoteIndex, depth: usize) -> (r: String)
    ensures
        r@ == superblock_body(index.view(), *b, depth as nat),
    decreases depth, *b, 0nat,
{
    let cs = &b.children;
    let column = column_layout(cs);
    let mut out = String::new();
    if !column && any_picked_exec(cs, Pick::Nested) {
        let nested = render_picked(cs, index, depth, Pick::Nested);
        out.append(nested.as_str());
        if any_picked_exec(cs, Pick::Rest) {
            let rest = render_picked(cs, index, depth, Pick::Rest);
            out.append("<div class=\"superblock superblock-col\">\n");
            out.append(rest.as_str());
            out.append("</div>\n");
        }
    } else if !column {
        if any_picked_exec(cs, Pick::Content) {
            let content = render_picked(cs, index, depth, Pick::Content);
            out.append("<div class=\"superblock superblock-col\">\n");
            out.append(content.as_str());
            out.append("</div>\n");
        }
    } else {
        let content = render_picked(cs, index, depth, Pick::Content);
        out.append(content.as_str());
    }
    assert(out@ =~= superblock_body(index.view(), *b, depth as nat));
    out
}

fn task_marker_exec(cs: &Vec<Block>) -> (r: Option<&Block>)
    ensures
        match r {
            Some(m) => task_marker_from(cs@, 0) == Some(*m),
            None => task_marker_from(cs@, 0) is None,
        },
{
    let mut i: usize = 0;
    while i < cs.len()
        invariant
            i <= cs@.len(),
            task_marker_from(cs@, 0) == task_marker_from(cs@, i as int),
        decreases cs@.len() - i,
    {
        if cs[i].kind == NodeKind::TaskListItemMarker {
            return Some(&cs[i]);
        }
        i = i + 1;
    }
    None
}

fn render_list_item(b: &Block, index: &NoteIndex, depth: usize) -> (r: String)
    ensures
        r@ == list_item_html(index.view(), *b, depth as nat),
    decreases depth, *b, 0nat,
{
    let cs = &b.children;
    let marker = task_marker_exec(cs);
    let mut out = String::new();
    out.append("<li");
    push_id_attr(&mut out, b.id.as_str());
    match marker {
        Some(m) => {
            out.append(
                " style=\"position: relative; padding-left: 30px; margin-bottom: 12px; list-style: none; \">",
            );
            let inner = render_blocks_at(cs, index, depth);
            if m.task_checked {
                out.append("<span class=\"task-checkbox-checked\"></span>");
                out.append(
                    "<span class=\"task-complete\" style=\"text-decoration: line-through; color: #7f8c8d;\">",
                );
                out.append(inner.as_str());
                out.append("</span>");
            } else {
                out.append("<span class=\"task-checkbox-unchecked\"></span>");
                out.append(inner.as_str());
            }
        },
        None => {
            out.append(">");
            let inner = render_item_children(cs, index, depth);
            out.append(inner.as_str());
        },
    }
    out.append("</li>\n");
    assert(out@ =~= list_item_html(index.view(), *b, depth as nat));
    out
}

fn render_image(b: &Block) -> (r: String)
    ensures
        r@ == image_html(*b),
{
    let src = last_data_exec(&b.children, NodeKind::LinkDest);
    let alt = last_data_exec(&b.children, NodeKind::LinkText);
    let cap = last_data_exec(&b.children, NodeKind::LinkTitle);
    let mut out = String::new();
    if src.is_empty() {
        return out;
    }
    let has_cap = !cap.is_empty();
    if has_cap {
        out.append("<figure");
        push_id_attr(&mut out, b.id.as_str());
        out.append(" class=\"image-with-caption\">");
    }
    let wrapper = !b.parent_style.as_str().is_empty();
    if wrapper {
        out.append("<div");
        if !has_cap {
            push_id_attr(&mut out, b.id.as_str());
        }
        out.append(" style=\"");
        out.append(b.parent_style.as_str());
        out.append("\">");
    }
    let ghost before_tag = out@;
    out.append("<img");
    if !wrapper && !has_cap {
        push_id_attr(&mut out, b.id.as_str());
    }
    out.append(" src=\"");
    out.append(src);
    out.append("\" alt=\"");
    out.append(alt);
    out.append("\"");
    if !b.style.as_str().is_empty() {
        out.append(" style=\"");
        out.append(b.style.as_str());
        out.append("\"");
    }
    out.append("/>");
    assert(out@ =~= before_tag + img_html(*b, !wrapper && !has_cap));
    if wrapper {
        out.append("</div>");
    }
    if has_cap {
        out.append("<figcaption>");
        push_escaped(&mut out, cap);
        out.append("</figcaption>");
        out.append("</figure>");
    }
    assert(out@ =~= image_html(*b));
    out
}

fn render_embedded(b: &Block, cid: &str, index: &NoteIndex, depth: usize) -> (r: String)
    ensures
        r@ == embedded_html(index.view(), *b, cid@, depth as nat),
    decreases depth, *b, 0nat,
{
    if depth == 0 {
        return String::new();
    }
    match find_block_in_notes(index, cid) {
        Some(t) => render_block_at(t, index, depth - 1),
        None => match index.get(cid) {
            Some(n) => render_blocks_at(&n.children, index, depth - 1),
            None => {
                let mut out = String::new();
                out.append("<p><em>Transcluded content not found: ");
                out.append(cid);
                out.append("</em></p>");
                out
            },
        },
    }
}

fn render_embed(b: &Block, index: &NoteIndex, depth: usize) -> (r: String)
    ensures
        r@ == embed_html(index.view(), *b, depth as nat),
    decreases depth, *b, 1nat,
{
    let target = match script_exec(&b.children) {
        Some(sc) => extract_quoted_id(sc.data.as_str()),
        None => None,
    };
    match target {
        Some(cid) => {
            let mut out = String::new();
            out.append("<div");
            push_id_attr(&mut out, b.id.as_str());
            out.append(" class=\"transcluded-block\">");
            out.append("<a href=\"");
            push_source_url(&mut out, index, cid.as_str());
            out.append("\" class=\"source-link\">Go to source</a>");
            let inner = render_embedded(b, cid.as_str(), index, depth);
            out.append(inner.as_str());
            out.append("</div>");
            assert(out@ =~= embed_html(index.view(), *b, depth as nat));
            out
        },
        None => render_blocks_at(&b.children, index, depth),
    }
}

/// Renders one block, letting transclusions nest `depth` deep.
pub fn render_block_at(block: &Block, index: &NoteIndex, depth: usize) -> (r: String)
    ensures
        r@ == block_html(index.view(), *block, depth as nat),
    decreases depth, *block, 2nat,
{
    let b = block;
    let mut out = String::new();
    match b.kind {
        NodeKind::SuperBlock => {
            return render_superblock(b, index, depth);
        },
        NodeKind::Paragraph => {
            let mut mid = String::new();
            if !b.style.as_str().is_empty() {
                push_style_attrs(&mut mid, b.style.as_str(), false);
            }
            mid.append(">");
            push_wrapped(&mut out, b, index, depth, "<p", mid.as_str(), "</p>\n");
        },
        NodeKind::Heading => {
            let l = level_str(b.heading_level);
            let mut open = String::new();
            open.append("<h");
            open.append(l);
            let mut close = String::new();
            close.append("</h");
            close.append(l);
            close.append(">\n");
            push_wrapped(&mut out, b, index, depth, open.as_str(), ">", close.as_str());
        },
        NodeKind::List => {
            if b.list_type == 1 {
                push_wrapped(&mut out, b, index, depth, "<ol", ">\n", "</ol>\n");
            } else {
                push_wrapped(&mut out, b, index, depth, "<ul", ">\n", "</ul>\n");
            }
        },
        NodeKind::ListItem => {
            return render_list_item(b, index, depth);
        },
        NodeKind::TaskListItemMarker => {},
        NodeKind::Blockquote => {
            push_wrapped(&mut out, b, index, depth, "<blockquote", ">", "</blockquote>\n");
        },
        NodeKind::ThematicBreak => {
            out.append("<hr");
            push_id_attr(&mut out, b.id.as_str());
            out.append(">\n");
        },
        NodeKind::Table => {
            push_wrapped(&mut out, b, index, depth, "<table", ">\n", "</table>\n");
        },
        NodeKind::TableHead => {
            push_wrapped(&mut out, b, index, depth, "<thead", ">\n", "</thead>\n");
        },
        NodeKind::TableRow => {
            push_wrapped(&mut out, b, index, depth, "<tr", ">\n", "</tr>\n");
        },
        NodeKind::TableCell => {
            if same_text(b.data.as_str(), "th") {
                push_wrapped(&mut out, b, index, depth, "<th", ">", "</th>\n");
            } else {
                push_wrapped(&mut out, b, index, depth, "<td", ">", "</td>\n");
            }
        },
        NodeKind::CodeBlock => {
            out.append("<pre");
            push_id_attr(&mut out, b.id.as_str());
            out.append("><code");
            let lang = code_language(b.code_info.as_str());
            out.append(lang.as_str());
            out.append(">");
            let code = code_text_exec(&b.children);
            out.append(code.as_str());
            out.append("</code></pre>\n");
        },
        NodeKind::Text => {
            if b.id.as_str().is_empty() {
                push_escaped(&mut out, b.data.as_str());
            } else {
                out.append("<span id=\"");
                out.append(b.id.as_str());
                out.append("\">");
                push_escaped(&mut out, b.data.as_str());
                out.append("</span>");
            }
        },
        NodeKind::TextMark => {
            return render_text_mark(b, index);
        },
        NodeKind::Image => {
            return render_image(b);
        },
        NodeKind::Br => {
            out.append("<br");
            push_id_attr(&mut out, b.id.as_str());
            out.append(">");
        },
        NodeKind::BlockQueryEmbed => {
            return render_embed(b, index, depth);
        },
        _ => {
            return render_blocks_at(&b.children, index, depth);
        },
    }
    assert(out@ =~= block_html(index.view(), *block, depth as nat));
    out
}

/// Renders a sequence of blocks to HTML.
pub fn render_blocks(blocks: &Vec<Block>, index: &NoteIndex) -> (r: String)
    ensures
        r@ == blocks_html(index.view(), blocks@, EMBED_DEPTH as nat),
{
    render_blocks_at(blocks, index, EMBED_DEPTH)
}

/// Renders one block to HTML.
pub fn render_block(block: &Block, index: &NoteIndex) -> (r: String)
    ensures
        r@ == block_html(index.view(), *block, EMBED_DEPTH as nat),
{
    render_block_at(block, index, EMBED_DEPTH)
}

/// `a` is a prefix of `a + b`.
pub proof fn lemma_prefix_of_concat(a: Seq<char>, b: Seq<char>)
    ensures
        a.is_prefix_of(a + b),
{
    assert((a + b).subrange(0, a.len() as int) =~= a);
}

/// The opening of the element that carries a block's id, for the kinds that
/// render as one element of their own.
pub open spec fn element_open(b: Block) -> Option<Seq<char>> {
    match b.kind {
        NodeKind::Paragraph => Some("<p"@),
        NodeKind::Heading => Some("<h"@ + level_text(b.heading_level)),
        NodeKind::List => Some(if b.list_type == 1 { "<ol"@ } else { "<ul"@ }),
        NodeKind::ListItem => Some("<li"@),
        NodeKind::Blockquote => Some("<blockquote"@),
        NodeKind::ThematicBreak => Some("<hr"@),
        NodeKind::Table => Some("<table"@),
        NodeKind::TableHead => Some("<thead"@),
        NodeKind::TableRow => Some("<tr"@),
        NodeKind::TableCell => Some(if b.data@ == "th"@ { "<th"@ } else { "<td"@ }),
        NodeKind::CodeBlock => Some("<pre"@),
        NodeKind::Br => Some("<br"@),
        NodeKind::SuperBlock => Some("<div"@),
        _ => None,
    }
}

/// A block that renders as an element of its own starts with that element's
/// opening tag carrying the block's id as its first attribute.
#[verifier::rlimit(60)]
pub proof fn lemma_id_on_element(notes: Seq<Note>, b: Block, depth: nat)
    requires
        b.id@.len() > 0,
        element_open(b) is Some,
    ensures
        (element_open(b)->0 + " id=\""@ + b.id@ + "\""@).is_prefix_of(block_html(notes, b, depth)),
{
    let p = element_open(b)->0 + " id=\""@ + b.id@ + "\""@;
    let h = block_html(notes, b, depth);
    assert(id_attr(b.id@) == " id=\""@ + b.id@ + "\""@);
    let rest = h.subrange(p.len() as int, h.len() as int);
    if b.kind == NodeKind::ListItem {
        match task_marker_from(b.children@, 0) {
            Some(m) => {
                assert(h =~= p + (h.subrange(p.len() as int, h.len() as int)));
            },
            None => {
                assert(h =~= p + (h.subrange(p.len() as int, h.len() as int)));
            },
        }
    } else {
        assert(h =~= p + (h.subrange(p.len() as int, h.len() as int)));
    }
    lemma_prefix_of_concat(p, rest);
}

/// An image with a source carries its id on the outermost element: the
/// figure when it has a caption, else the styled wrapper, else the `<img>`;
/// where a figure or wrapper takes the id, the `<img>` element has none.
pub proof fn lemma_image_id(b: Block)
    requires
        b.kind == NodeKind::Image,
        b.id@.len() > 0,
        last_data(b.children@, NodeKind::LinkDest).len() > 0,
    ensures
        ({
            let open = if last_data(b.children@, NodeKind::LinkTitle).len() > 0 {
                "<figure"@
            } else if b.parent_style@.len() > 0 {
                "<div"@
            } else {
                "<img"@
            };
            (open + " id=\""@ + b.id@ + "\""@).is_prefix_of(image_html(b))
        }),
        last_data(b.children@, NodeKind::LinkTitle).len() > 0 || b.parent_style@.len() > 0
            ==> exists|pre: Seq<char>, post: Seq<char>|
            image_html(b) == pre + img_html(b, false) + post,
        img_html(b, false) == "<img"@ + " src=\""@ + last_data(b.children@, NodeKind::LinkDest)
            + "\" alt=\""@ + last_data(b.children@, NodeKind::LinkText) + "\""@ + plain_style_attr(
            b.style@,
        ) + "/>"@,
{
    let open = if last_data(b.children@, NodeKind::LinkTitle).len() > 0 {
        "<figure"@
    } else if b.parent_style@.len() > 0 {
        "<div"@
    } else {
        "<img"@
    };
    let p = open + " id=\""@ + b.id@ + "\""@;
    let h = image_html(b);
    assert(id_attr(b.id@) == " id=\""@ + b.id@ + "\""@);
    assert(h =~= p + h.subrange(p.len() as int, h.len() as int));
    lemma_prefix_of_concat(p, h.subrange(p.len() as int, h.len() as int));
    let cap = last_data(b.children@, NodeKind::LinkTitle);
    let fig = if cap.len() > 0 {
        "<figure"@ + id_attr(b.id@) + " class=\"image-with-caption\">"@
    } else {
        Seq::empty()
    };
    let tail = if cap.len() > 0 {
        "<figcaption>"@ + escaped(cap) + "</figcaption>"@ + "</figure>"@
    } else {
        Seq::empty()
    };
    if b.parent_style@.len() > 0 {
        let pre = fig + "<div"@ + (if cap.len() > 0 {
            Seq::empty()
        } else {
            id_attr(b.id@)
        }) + " style=\""@ + b.parent_style@ + "\">"@;
        let post = "</div>"@ + tail;
        assert(h =~= pre + img_html(b, false) + post);
    } else if cap.len() > 0 {
        assert(h =~= fig + img_html(b, false) + tail);
    }
    assert(img_html(b, false) =~= "<img"@ + " src=\""@ + last_data(b.children@, NodeKind::LinkDest)
        + "\" alt=\""@ + last_data(b.children@, NodeKind::LinkText) + "\""@ + plain_style_attr(
        b.style@,
    ) + "/>"@);
}

/// The stored layout is inverted: a marker payload of exactly `row` renders
/// a column container, any other payload a row container.
pub proof fn lemma_layout_inversion(notes: Seq<Note>, b: Block, depth: nat, d: Seq<char>)
    requires
        b.kind == NodeKind::SuperBlock,
        layout_from(b.children@, 0) == Some(d),
    ensures
        d == "row"@ ==> ("<div"@ + id_attr(b.id@) + " class=\"superblock superblock-col\">\n"@).is_prefix_of(
            block_html(notes, b, depth),
        ),
        d != "row"@ ==> ("<div"@ + id_attr(b.id@) + " class=\"superblock superblock-row\">\n"@).is_prefix_of(
            block_html(notes, b, depth),
        ),
{
    let h = block_html(notes, b, depth);
    let tail = superblock_body(notes, b, depth) + "</div>\n"@;
    if d == "row"@ {
        let p = "<div"@ + id_attr(b.id@) + " class=\"superblock superblock-col\">\n"@;
        assert(" class=\"superblock superblock-col\">\n"@ =~= " class=\"superblock superblock-"@
            + "col"@ + "\">\n"@) by {
            reveal_strlit(" class=\"superblock superblock-col\">\n");
            reveal_strlit(" class=\"superblock superblock-");
            reveal_strlit("col");
            reveal_strlit("\">\n");
        }
        assert(h =~= p + tail);
        lemma_prefix_of_concat(p, tail);
    } else {
        let p = "<div"@ + id_attr(b.id@) + " class=\"superblock superblock-row\">\n"@;
        assert(" class=\"superblock superblock-row\">\n"@ =~= " class=\"superblock superblock-"@
            + "row"@ + "\">\n"@) by {
            reveal_strlit(" class=\"superblock superblock-row\">\n");
            reveal_strlit(" class=\"superblock superblock-");
            reveal_strlit("row");
            reveal_strlit("\">\n");
        }
        assert(h =~= p + tail);
        lemma_prefix_of_concat(p, tail);
    }
}

/// The HTML of the children other than task markers.
pub open spec fn unmarked_html(notes: Seq<Note>, cs: Seq<Block>, depth: nat) -> Seq<char>
    decreases cs.len(),
{
    if cs.len() == 0 {
        Seq::empty()
    } else {
        unmarked_html(notes, cs.drop_last(), depth) + if cs.last().kind
            == NodeKind::TaskListItemMarker {
            Seq::empty()
        } else {
            block_html(notes, cs.last(), depth)
        }
    }
}

proof fn lemma_markers_render_nothing(notes: Seq<Note>, cs: Seq<Block>, depth: nat)
    ensures
        blocks_html(notes, cs, depth) == unmarked_html(notes, cs, depth),
    decreases cs.len(),
{
    if cs.len() > 0 {
        lemma_markers_render_nothing(notes, cs.drop_last(), depth);
        let prev = blocks_html(notes, cs.drop_last(), depth);
        if cs.last().kind == NodeKind::TaskListItemMarker {
            assert(block_html(notes, cs.last(), depth) == Seq::<char>::empty());
            assert(prev + Seq::<char>::empty() =~= prev);
        }
    }
}

/// A list item holding a checked task marker renders as an `<li>` with the
/// checked indicator, then a completed-task span whose content is exactly
/// the HTML of the item's other children, in order; the marker adds nothing.
pub proof fn lemma_checked_task_item(notes: Seq<Note>, b: Block, depth: nat)
    requires
        b.kind == NodeKind::ListItem,
        task_marker_from(b.children@, 0) matches Some(m) && m.task_checked,
    ensures
        block_html(notes, b, depth) == "<li"@ + id_attr(b.id@)
            + " style=\"position: relative; padding-left: 30px; margin-bottom: 12px; list-style: none; \">"@
            + "<span class=\"task-checkbox-checked\"></span>"@
            + "<span class=\"task-complete\" style=\"text-decoration: line-through; color: #7f8c8d;\">"@
            + unmarked_html(notes, b.children@, depth) + "</span>"@ + "</li>\n"@,
{
    lemma_markers_render_nothing(notes, b.children@, depth);
    assert(block_html(notes, b, depth) =~= "<li"@ + id_attr(b.id@)
        + " style=\"position: relative; padding-left: 30px; margin-bottom: 12px; list-style: none; \">"@
        + "<span class=\"task-checkbox-checked\"></span>"@
        + "<span class=\"task-complete\" style=\"text-decoration: line-through; color: #7f8c8d;\">"@
        + unmarked_html(notes, b.children@, depth) + "</span>"@ + "</li>\n"@);
}

/// A plain-text block without id holding `<script>` renders with
/// `&lt;script&gt;` and never a raw `<script`.
pub proof fn lemma_text_block_escapes_script(notes: Seq<Note>, b: Block, depth: nat)
    requires
        b.kind == NodeKind::Text,
        b.id@.len() == 0,
        contains(b.data@, "<script>"@),
    ensures
        block_html(notes, b, depth) == escaped(b.data@),
        contains(block_html(notes, b, depth), "&lt;script&gt;"@),
        !contains(block_html(notes, b, depth), "<script"@),
{
    lemma_script_escaped(b.data@);
}

proof fn lemma_code_text_safe(cs: Seq<Block>)
    ensures
        forall|i: int| 0 <= i < code_text(cs).len() ==> #[trigger] code_text(cs)[i] != '<',
    decreases cs.len(),
{
    if cs.len() > 0 {
        lemma_code_text_safe(cs.drop_last());
        lemma_escape_safe(cs.last().data@);
        let a = code_text(cs.drop_last());
        let p = if cs.last().kind == NodeKind::CodeBlockCode {
            escaped(cs.last().data@)
        } else {
            Seq::empty()
        };
        assert forall|i: int| 0 <= i < code_text(cs).len() implies #[trigger] code_text(cs)[i]
            != '<' by {
            if i < a.len() {
                assert(code_text(cs)[i] == a[i]);
            } else {
                assert(code_text(cs)[i] == p[i - a.len()]);
            }
        }
    }
}

proof fn lemma_code_text_has(cs: Seq<Block>, j: int, n: Seq<char>, k: int)
    requires
        0 <= j < cs.len(),
        cs[j].kind == NodeKind::CodeBlockCode,
        occurs_at(escaped(cs[j].data@), n, k),
    ensures
        exists|m: int| occurs_at(code_text(cs), n, m),
    decreases cs.len(),
{
    let a = code_text(cs.drop_last());
    let p = if cs.last().kind == NodeKind::CodeBlockCode {
        escaped(cs.last().data@)
    } else {
        Seq::empty()
    };
    assert(code_text(cs) == a + p);
    if j == cs.len() - 1 {
        lemma_occurs_shift(p, n, k, a, Seq::empty());
        assert(a + p + Seq::<char>::empty() =~= a + p);
    } else {
        assert(cs.drop_last()[j] == cs[j]);
        lemma_code_text_has(cs.drop_last(), j, n, k);
        let m = choose|m: int| occurs_at(a, n, m);
        lemma_occurs_shift(a, n, m, Seq::empty(), p);
        assert(Seq::<char>::empty() + a + p =~= a + p);
    }
}

/// A code block without id or language whose code holds `<script>` renders
/// its code as `&lt;script&gt;`: the code element's content holds it and no
/// raw `<` at all.
pub proof fn lemma_code_block_escapes_script(notes: Seq<Note>, b: Block, depth: nat, j: int)
    requires
        b.kind == NodeKind::CodeBlock,
        b.id@.len() == 0,
        b.code_info@.len() == 0,
        0 <= j < b.children@.len(),
        b.children@[j].kind == NodeKind::CodeBlockCode,
        contains(b.children@[j].data@, "<script>"@),
    ensures
        block_html(notes, b, depth) == "<pre><code>"@ + code_text(b.children@)
            + "</code></pre>\n"@,
        contains(code_text(b.children@), "&lt;script&gt;"@),
        forall|i: int|
            0 <= i < code_text(b.children@).len() ==> #[trigger] code_text(b.children@)[i] != '<',
{
    reveal_strlit("<pre><code>");
    reveal_strlit("<pre");
    reveal_strlit("><code");
    reveal_strlit(">");
    assert(block_html(notes, b, depth) =~= "<pre><code>"@ + code_text(b.children@)
        + "</code></pre>\n"@);
    let d = b.children@[j].data@;
    lemma_script_escaped(d);
    let e = "&lt;script&gt;"@;
    lemma_find_from_bounds(escaped(d), e, 0);
    let k = find_from(escaped(d), e, 0)->0;
    lemma_code_text_has(b.children@, j, e, k);
    let m = choose|m: int| occurs_at(code_text(b.children@), e, m);
    lemma_occurs_found(code_text(b.children@), e, m, 0);
    lemma_code_text_safe(b.children@);
}

} // verus!
