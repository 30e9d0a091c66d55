//! Renders inline text marks: emphasis, links, code, tags, memos, math and
//! block references with their hover excerpt.
use vstd::prelude::*;
use crate::model::{Block, MarkKind, NodeKind, Note, NoteIndex, note_pos};
use crate::style::{get_style_class, keeps_style, style_class};
use crate::text::{escape_html, escaped, truncate_chars, truncated, underscore_spaces, underscored};

verus! {

/// Longest excerpt, in characters, shown under a block reference.
pub const EXCERPT_LIMIT: usize = 300;

/// ` id="..."` for a non-empty identifier, nothing otherwise.
pub open spec fn id_attr(id: Seq<char>) -> Seq<char> {
    if id.len() == 0 {
        Seq::empty()
    } else {
        " id=\""@ + id + "\""@
    }
}

/// Appends ` id="..."` when `id` is non-empty.
pub fn push_id_attr(out: &mut String, id: &str)
    ensures
        final(out)@ == old(out)@ + id_attr(id@),
{
    if id.is_empty() {
        assert(old(out)@ + id_attr(id@) =~= old(out)@);
    } else {
        out.append(" id=\"");
        out.append(id);
        out.append("\"");
    }
}

/// Appends `s` HTML-escaped.
pub fn push_escaped(out: &mut String, s: &str)
    ensures
        final(out)@ == old(out)@ + escaped(s@),
{
    let e = escape_html(s);
    out.append(e.as_str());
}

/// The attributes that a non-empty style gives: its class, and the raw style
/// where it must be kept or where no class applies.
pub open spec fn style_attrs(style: Seq<char>, inline: bool) -> Seq<char> {
    match style_class(style, inline) {
        Some(c) => " class=\""@ + c + "\""@ + if keeps_style(style) {
            " style=\""@ + style + "\""@
        } else {
            Seq::empty()
        },
        None => " style=\""@ + style + "\""@,
    }
}

/// `open`, the id, the style's attributes, `>`, the escaped text and `close`.
pub open spec fn styled_html(open: Seq<char>, close: Seq<char>, b: Block) -> Seq<char> {
    open + id_attr(b.id@) + style_attrs(b.style@, true) + ">"@ + escaped(b.mark_text@) + close
}

/// `open`, the id, `>`, the escaped text and `close`.
pub open spec fn simple_html(open: Seq<char>, close: Seq<char>, b: Block) -> Seq<char> {
    open + id_attr(b.id@) + ">"@ + escaped(b.mark_text@) + close
}

/// Bold text that is also a link: an anchor carrying the id around the
/// `<strong>` element, which keeps the style's class and raw style.
pub open spec fn strong_link_html(b: Block) -> Seq<char> {
    "<a"@ + id_attr(b.id@) + " href=\""@ + b.mark_href@ + "\" target=\"_blank\" class=\"link\"><strong"@
        + (if b.style@.len() == 0 {
        Seq::empty()
    } else {
        style_attrs(b.style@, true)
    }) + ">"@ + escaped(b.mark_text@) + "</strong></a>"@
}

/// The escaped text of the plain-text children of a paragraph, each followed by a space.
pub open spec fn paragraph_text(cs: Seq<Block>) -> Seq<char>
    decreases cs.len(),
{
    if cs.len() == 0 {
        Seq::empty()
    } else {
        paragraph_text(cs.drop_last()) + if cs.last().kind == NodeKind::Text {
            escaped(cs.last().data@) + " "@
        } else {
            Seq::empty()
        }
    }
}

/// The text of the paragraphs among `bs[i..]`, up to two paragraphs in all
/// counting the `count` already taken, joined by `<br>`.
pub open spec fn excerpt_from(bs: Seq<Block>, i: int, count: nat) -> Seq<char>
    decreases bs.len() - i,
{
    if i < 0 || i >= bs.len() || count >= 2 {
        Seq::empty()
    } else if bs[i].kind == NodeKind::Paragraph {
        (if count > 0 {
            "<br>"@
        } else {
            Seq::empty()
        }) + paragraph_text(bs[i].children@) + excerpt_from(bs, i + 1, count + 1)
    } else {
        excerpt_from(bs, i + 1, count)
    }
}

/// The hover excerpt of a note: its first two paragraphs, cut to the limit.
pub open spec fn note_excerpt(n: Note) -> Seq<char> {
    truncated(excerpt_from(n.children@, 0, 0), EXCERPT_LIMIT as nat)
}

/// The link text of a block reference: the mark's own text, else the note's
/// title, else the identifier.
pub open spec fn ref_title(b: Block, n: Note) -> Seq<char> {
    if b.mark_text@.len() > 0 {
        b.mark_text@
    } else if n.title@.len() > 0 {
        n.title@
    } else {
        b.mark_ref_id@
    }
}

/// The opening of a resolved block reference: wrapper and link.
pub open spec fn ref_link_html(b: Block, n: Note) -> Seq<char> {
    "<span"@ + id_attr(b.id@) + " class=\"tooltip\">"@ + "<a href=\""@ + b.mark_ref_id@
        + ".html\">"@ + escaped(ref_title(b, n)) + "</a>"@
}

/// The tooltip of a resolved block reference: the note's title and excerpt.
pub open spec fn ref_tooltip_html(n: Note) -> Seq<char> {
    "<span class=\"right bottom\">"@ + "<span class=\"tooltip-title\">"@ + escaped(n.title@)
        + "</span>"@ + "<span class=\"tooltip-excerpt\">"@ + note_excerpt(n) + "</span>"@
        + "<i></i></span></span>"@
}

/// A resolved block reference: a link with a tooltip of title and excerpt.
pub open spec fn block_ref_html(b: Block, n: Note) -> Seq<char> {
    ref_link_html(b, n) + ref_tooltip_html(n)
}

/// A block reference whose target is not in the index.
pub open spec fn missing_ref_html(b: Block) -> Seq<char> {
    "<span"@ + id_attr(b.id@) + " title=\"Missing reference: "@ + b.mark_ref_id@ + "\">"@
        + escaped(b.mark_text@) + "</span>"@
}

/// The HTML of an inline text mark.
pub open spec fn mark_html(notes: Seq<Note>, b: Block) -> Seq<char> {
    match b.mark {
        MarkKind::Link => "<a"@ + id_attr(b.id@) + " href=\""@ + b.mark_href@
            + "\" target=\"_blank\" class=\"link\">"@ + b.mark_text@ + "</a>"@,
        MarkKind::Code => simple_html("<code"@, "</code>"@, b),
        MarkKind::Strong => if b.mark_href@.len() > 0 {
            strong_link_html(b)
        } else if b.style@.len() == 0 {
            simple_html("<strong"@, "</strong>"@, b)
        } else {
            styled_html("<strong"@, "</strong>"@, b)
        },
        MarkKind::Em => if b.mark_href@.len() > 0 {
            "<a"@ + id_attr(b.id@) + " href=\""@ + b.mark_href@
                + "\" target=\"_blank\" class=\"link\"><em>"@ + escaped(b.mark_text@)
                + "</em></a>"@
        } else {
            simple_html("<em"@, "</em>"@, b)
        },
        MarkKind::Underline => simple_html("<u"@, "</u>"@, b),
        MarkKind::Strike => simple_html("<s"@, "</s>"@, b),
        MarkKind::Sub => simple_html("<sub"@, "</sub>"@, b),
        MarkKind::Sup => simple_html("<sup"@, "</sup>"@, b),
        MarkKind::Kbd => simple_html("<kbd"@, "</kbd>"@, b),
        MarkKind::Highlight => simple_html("<mark"@, "</mark>"@, b),
        MarkKind::Text => if b.style@.len() == 0 {
            escaped(b.mark_text@)
        } else {
            styled_html("<span"@, "</span>"@, b)
        },
        MarkKind::TextStrong => if b.style@.len() == 0 {
            escaped(b.mark_text@)
        } else {
            styled_html("<strong"@, "</strong>"@, b)
        },
        MarkKind::Tag => "<a"@ + id_attr(b.id@) + " href=\"tag_"@ + underscored(b.mark_text@)
            + ".html\" class=\"tag\"># "@ + b.mark_text@ + "</a>"@,
        MarkKind::InlineMath => "<span"@ + id_attr(b.id@) + " class=\"math-inline\">"@ + escaped(
            b.mark_text@,
        ) + "</span>"@,
        MarkKind::InlineMemo => "<span"@ + id_attr(b.id@) + " title=\""@ + escaped(b.mark_memo@)
            + "\">"@ + escaped(b.mark_text@) + "</span>"@,
        MarkKind::BlockRef => match note_pos(notes, b.mark_ref_id@) {
            Some(k) => if 0 <= k < notes.len() {
                block_ref_html(b, notes[k])
            } else {
                Seq::empty()
            },
            None => missing_ref_html(b),
        },
        MarkKind::Other => escaped(b.mark_text@),
    }
}

/// Appends the class and style attributes of a style.
pub fn push_style_attrs(out: &mut String, style: &str, inline: bool)
    ensures
        final(out)@ == old(out)@ + style_attrs(style@, inline),
{
    let ghost start = out@;
    let (class, keep) = get_style_class(style, inline);
    match class {
        Some(c) => {
            out.append(" class=\"");
            out.append(c.as_str());
            out.append("\"");
            if keep {
                out.append(" style=\"");
                out.append(style);
                out.append("\"");
            }
        },
        None => {
            out.append(" style=\"");
            out.append(style);
            out.append("\"");
        },
    }
    assert(out@ =~= start + style_attrs(style@, inline));
}

fn push_strong_link(out: &mut String, b: &Block)
    ensures
        final(out)@ == old(out)@ + strong_link_html(*b),
{
    let ghost start = out@;
    out.append("<a");
    push_id_attr(out, b.id.as_str());
    out.append(" href=\"");
    out.append(b.mark_href.as_str());
    out.append("\" target=\"_blank\" class=\"link\"><strong");
    if !b.style.as_str().is_empty() {
        push_style_attrs(out, b.style.as_str(), true);
    }
    out.append(">");
    push_escaped(out, b.mark_text.as_str());
    out.append("</strong></a>");
    assert(out@ =~= start + strong_link_html(*b));
}

fn push_simple(out: &mut String, open: &str, close: &str, b: &Block)
    ensures
        final(out)@ == old(out)@ + simple_html(open@, close@, *b),
{
    let ghost start = out@;
    out.append(open);
    push_id_attr(out, b.id.as_str());
    out.append(">");
    push_escaped(out, b.mark_text.as_str());
    out.append(close);
    assert(out@ =~= start + simple_html(open@, close@, *b));
}

fn push_styled(out: &mut String, open: &str, close: &str, b: &Block)
    ensures
        final(out)@ == old(out)@ + styled_html(open@, close@, *b),
{
    let ghost start = out@;
    out.append(open);
    push_id_attr(out, b.id.as_str());
    push_style_attrs(out, b.style.as_str(), true);
    out.append(">");
    push_escaped(out, b.mark_text.as_str());
    out.append(close);
    assert(out@ =~= start + styled_html(open@, close@, *b));
}

fn paragraph_text_exec(cs: &Vec<Block>) -> (r: String)
    ensures
        r@ == paragraph_text(cs@),
{
    let mut out = String::new();
    let mut i: usize = 0;
    while i < cs.len()
        invariant
            i <= cs@.len(),
            out@ == paragraph_text(cs@.take(i as int)),
        decreases cs@.len() - i,
    {
        if cs[i].kind == NodeKind::Text {
            push_escaped(&mut out, cs[i].data.as_str());
            out.append(" ");
        }
        proof {
            let next = cs@.take(i + 1);
            assert(next.drop_last() =~= cs@.take(i as int));
            assert(next.last() == cs@[i as int]);
            assert(out@ =~= paragraph_text(next));
        }
        i = i + 1;
    }
    assert(cs@.take(i as int) =~= cs@);
    out
}

/// The first two paragraphs of a note's top-level blocks, joined by `<br>`.
pub fn excerpt_of(bs: &Vec<Block>) -> (r: String)
    ensures
        r@ == excerpt_from(bs@, 0, 0),
{
    let mut out = String::new();
    let mut count: usize = 0;
    let mut i: usize = 0;
    while i < bs.len() && count < 2
        invariant
            i <= bs@.len(),
            count <= 2,
            out@ + excerpt_from(bs@, i as int, count as nat) == excerpt_from(bs@, 0, 0),
        decreases bs@.len() - i,
    {
        let ghost before = out@;
        if bs[i].kind == NodeKind::Paragraph {
            if count > 0 {
                out.append("<br>");
            }
            let t = paragraph_text_exec(&bs[i].children);
            out.append(t.as_str());
            assert(before + excerpt_from(bs@, i as int, count as nat) =~= out@ + excerpt_from(
                bs@,
                i + 1,
                (count + 1) as nat,
            ));
            count = count + 1;
        }
        i = i + 1;
    }
    assert(excerpt_from(bs@, i as int, count as nat) =~= Seq::<char>::empty());
    assert(out@ + Seq::<char>::empty() =~= out@);
    out
}

fn push_ref_link(out: &mut String, b: &Block, n: &Note)
    ensures
        final(out)@ == old(out)@ + ref_link_html(*b, *n),
{
    let ghost start = out@;
    let title: &str = if !b.mark_text.as_str().is_empty() {
        b.mark_text.as_str()
    } else if !n.title.as_str().is_empty() {
        n.title.as_str()
    } else {
        b.mark_ref_id.as_str()
    };
    out.append("<span");
    push_id_attr(out, b.id.as_str());
    out.append(" class=\"tooltip\">");
    out.append("<a href=\"");
    out.append(b.mark_ref_id.as_str());
    out.append(".html\">");
    push_escaped(out, title);
    out.append("</a>");
    assert(out@ =~= start + ref_link_html(*b, *n));
}

fn push_ref_tooltip(out: &mut String, n: &Note)
    ensures
        final(out)@ == old(out)@ + ref_tooltip_html(*n),
{
    let ghost start = out@;
    let raw = excerpt_of(&n.children);
    let excerpt = truncate_chars(raw.as_str(), EXCERPT_LIMIT);
    out.append("<span class=\"right bottom\">");
    out.append("<span class=\"tooltip-title\">");
    push_escaped(out, n.title.as_str());
    out.append("</span>");
    out.append("<span class=\"tooltip-excerpt\">");
    out.append(excerpt.as_str());
    out.append("</span>");
    out.append("<i></i></span></span>");
    assert(out@ =~= start + ref_tooltip_html(*n));
}

fn push_block_ref(out: &mut String, b: &Block, n: &Note)
    ensures
        final(out)@ == old(out)@ + block_ref_html(*b, *n),
{
    let ghost start = out@;
    push_ref_link(out, b, n);
    push_ref_tooltip(out, n);
    assert(out@ =~= start + block_ref_html(*b, *n));
}

/// Renders an inline text mark to HTML.
pub fn render_text_mark(block: &Block, index: &NoteIndex) -> (r: String)
    ensures
        r@ == mark_html(index.view(), *block),
{
    let b = block;
    let mut out = String::new();
    match b.mark {
        MarkKind::Link => {
            out.append("<a");
            push_id_attr(&mut out, b.id.as_str());
            out.append(" href=\"");
            out.append(b.mark_href.as_str());
            out.append("\" target=\"_blank\" class=\"link\">");
            out.append(b.mark_text.as_str());
            out.append("</a>");
        },
        MarkKind::Code => push_simple(&mut out, "<code", "</code>", b),
        MarkKind::Strong => {
            if !b.mark_href.as_str().is_empty() {
                push_strong_link(&mut out, b);
            } else if b.style.as_str().is_empty() {
                push_simple(&mut out, "<strong", "</strong>", b);
            } else {
                push_styled(&mut out, "<strong", "</strong>", b);
            }
        },
        MarkKind::Em => {
            if !b.mark_href.as_str().is_empty() {
                out.append("<a");
                push_id_attr(&mut out, b.id.as_str());
                out.append(" href=\"");
                out.append(b.mark_href.as_str());
                out.append("\" target=\"_blank\" class=\"link\"><em>");
                push_escaped(&mut out, b.mark_text.as_str());
                out.append("</em></a>");
            } else {
                push_simple(&mut out, "<em", "</em>", b);
            }
        },
        MarkKind::Underline => push_simple(&mut out, "<u", "</u>", b),
        MarkKind::Strike => push_simple(&mut out, "<s", "</s>", b),
        MarkKind::Sub => push_simple(&mut out, "<sub", "</sub>", b),
        MarkKind::Sup => push_simple(&mut out, "<sup", "</sup>", b),
        MarkKind::Kbd => push_simple(&mut out, "<kbd", "</kbd>", b),
        MarkKind::Highlight => push_simple(&mut out, "<mark", "</mark>", b),
        MarkKind::Text => {
            if b.style.as_str().is_empty() {
                push_escaped(&mut out, b.mark_text.as_str());
            } else {
                push_styled(&mut out, "<span", "</span>", b);
            }
        },
        MarkKind::TextStrong => {
            if b.style.as_str().is_empty() {
                push_escaped(&mut out, b.mark_text.as_str());
            } else {
                push_styled(&mut out, "<strong", "</strong>", b);
            }
        },
        MarkKind::Tag => {
            out.append("<a");
            push_id_attr(&mut out, b.id.as_str());
            out.append(" href=\"tag_");
            let u = underscore_spaces(b.mark_text.as_str());
            out.append(u.as_str());
            out.append(".html\" class=\"tag\"># ");
            out.append(b.mark_text.as_str());
            out.append("</a>");
        },
        MarkKind::InlineMath => {
            out.append("<span");
            push_id_attr(&mut out, b.id.as_str());
            out.append(" class=\"math-inline\">");
            push_escaped(&mut out, b.mark_text.as_str());
            out.append("</span>");
        },
        MarkKind::InlineMemo => {
            out.append("<span");
            push_id_attr(&mut out, b.id.as_str());
            out.append(" title=\"");
            push_escaped(&mut out, b.mark_memo.as_str());
            out.append("\">");
            push_escaped(&mut out, b.mark_text.as_str());
            out.append("</span>");
        },
        MarkKind::BlockRef => {
            match index.get(b.mark_ref_id.as_str()) {
                Some(n) => push_block_ref(&mut out, b, n),
                None => {
                    out.append("<span");
                    push_id_attr(&mut out, b.id.as_str());
                    out.append(" title=\"Missing reference: ");
                    out.append(b.mark_ref_id.as_str());
                    out.append("\">");
                    push_escaped(&mut out, b.mark_text.as_str());
                    out.append("</span>");
                },
            }
        },
        MarkKind::Other => push_escaped(&mut out, b.mark_text.as_str()),
    }
    assert(out@ =~= mark_html(index.view(), *block));
    out
}

/// A block-reference excerpt never exceeds the limit by more than the
/// ellipsis, and begins with the text it was cut from; being a sequence of
/// characters it is never cut inside one.
pub proof fn lemma_excerpt_bounded(n: Note)
    ensures
        note_excerpt(n).len() <= EXCERPT_LIMIT + 3,
        ({
            let full = excerpt_from(n.children@, 0, 0);
            let k = if full.len() <= EXCERPT_LIMIT {
                full.len()
            } else {
                EXCERPT_LIMIT as nat
            };
            note_excerpt(n).take(k as int) == full.take(k as int)
        }),
{
    reveal_strlit("...");
    let full = excerpt_from(n.children@, 0, 0);
    if full.len() > EXCERPT_LIMIT {
        let k = EXCERPT_LIMIT as int;
        assert(note_excerpt(n).take(k) =~= full.take(k));
    } else {
        assert(note_excerpt(n) == full);
    }
}

/// A block reference to an identifier that no note has renders as a span
/// marked as a missing reference, not as a link.
pub proof fn lemma_missing_reference(notes: Seq<Note>, b: Block)
    requires
        b.mark == MarkKind::BlockRef,
        note_pos(notes, b.mark_ref_id@) is None,
    ensures
        mark_html(notes, b) == missing_ref_html(b),
        ("<span"@ + id_attr(b.id@) + " title=\"Missing reference: "@ + b.mark_ref_id@).is_prefix_of(
            mark_html(notes, b),
        ),
{
    let p = "<span"@ + id_attr(b.id@) + " title=\"Missing reference: "@ + b.mark_ref_id@;
    let h = mark_html(notes, b);
    assert(h =~= p + h.subrange(p.len() as int, h.len() as int));
    assert(h.subrange(0, p.len() as int) =~= p);
}

} // verus!
