//! The table of contents of a note: its headings in document order, their
//! outline HTML, and rendering that gives every top-level heading an anchor.
use vstd::prelude::*;
use crate::marks::{mark_html, push_escaped, render_text_mark};
use crate::model::{Block, NodeKind, NoteIndex};
use crate::render::{block_html, level_text, render_block_at, EMBED_DEPTH};
use crate::text::{decimal, escaped, push_decimal};

verus! {

/// One heading of the outline.
#[derive(Debug)]
pub struct TocItem {
    pub id: String,
    pub text: String,
    pub level: u8,
}

/// An outline entry as values: identifier, text, level.
pub type TocEntry = (Seq<char>, Seq<char>, u8);

pub open spec fn entry_view(t: TocItem) -> TocEntry {
    (t.id@, t.text@, t.level)
}

pub open spec fn entries_view(ts: Seq<TocItem>) -> Seq<TocEntry> {
    ts.map_values(|t: TocItem| entry_view(t))
}

/// The counter after one more synthetic identifier; it stops at the largest value.
pub open spec fn bump(n: nat) -> nat {
    if n < usize::MAX {
        n + 1
    } else {
        n
    }
}

/// A level clamped to 1..=6.
pub open spec fn clamp_level(l: u8) -> u8 {
    if l < 1 {
        1
    } else if l > 6 {
        6
    } else {
        l
    }
}

/// `heading-n`.
pub open spec fn synthetic_id(n: nat) -> Seq<char> {
    "heading-"@ + decimal(n)
}

/// A heading's own identifier, or the synthetic one for counter value `n`.
pub open spec fn heading_id(b: Block, n: nat) -> Seq<char> {
    if b.id@.len() > 0 {
        b.id@
    } else {
        synthetic_id(n)
    }
}

/// The visible text of a heading: its plain-text and mark children's text.
pub open spec fn heading_text(cs: Seq<Block>) -> Seq<char>
    decreases cs.len(),
{
    if cs.len() == 0 {
        Seq::empty()
    } else {
        heading_text(cs.drop_last()) + if cs.last().kind == NodeKind::Text {
            cs.last().data@
        } else if cs.last().kind == NodeKind::TextMark {
            cs.last().mark_text@
        } else {
            Seq::empty()
        }
    }
}

/// The headings of `bs` and all their descendants in document order, with
/// the counter value after them, starting from counter `n`.
pub open spec fn toc_seq(bs: Seq<Block>, n: nat) -> (Seq<TocEntry>, nat)
    decreases bs, 0nat,
{
    if bs.len() == 0 {
        (Seq::empty(), n)
    } else {
        let (a, m) = toc_seq(bs.drop_last(), n);
        let (c, k) = toc_block(bs.last(), m);
        (a + c, k)
    }
}

/// The headings of one block and its descendants.
pub open spec fn toc_block(b: Block, n: nat) -> (Seq<TocEntry>, nat)
    decreases b, 1nat,
{
    let (head, m) = if b.kind == NodeKind::Heading {
        (seq![(heading_id(b, n), heading_text(b.children@), clamp_level(b.heading_level))], bump(n))
    } else {
        (Seq::empty(), n)
    };
    let (rest, k) = toc_seq(b.children@, m);
    (head + rest, k)
}

fn heading_text_exec(cs: &Vec<Block>) -> (r: String)
    ensures
        r@ == heading_text(cs@),
{
    let mut out = String::new();
    let mut i: usize = 0;
    while i < cs.len()
        invariant
            i <= cs@.len(),
            out@ == heading_text(cs@.take(i as int)),
        decreases cs@.len() - i,
    {
        if cs[i].kind == NodeKind::Text {
            out.append(cs[i].data.as_str());
        } else if cs[i].kind == NodeKind::TextMark {
            out.append(cs[i].mark_text.as_str());
        }
        proof {
            let next = cs@.take(i + 1);
            assert(next.drop_last() =~= cs@.take(i as int));
            assert(next.last() == cs@[i as int]);
            assert(out@ =~= heading_text(next));
        }
        i = i + 1;
    }
    assert(cs@.take(i as int) =~= cs@);
    out
}

fn heading_id_exec(b: &Block, n: usize) -> (r: String)
    ensures
        r@ == heading_id(*b, n as nat),
{
    if !b.id.as_str().is_empty() {
        b.id.clone()
    } else {
        let mut out = String::new();
        out.append("heading-");
        push_decimal(&mut out, n as u64);
        out
    }
}

fn clamp_exec(l: u8) -> (r: u8)
    ensures
        r == clamp_level(l),
{
    if l < 1 {
        1
    } else if l > 6 {
        6
    } else {
        l
    }
}

/// Appends the headings of `blocks` and all their descendants, in document
/// order, to `headings`, numbering those without an identifier from `id_counter`.
pub fn extract_toc_items(blocks: &Vec<Block>, headings: &mut Vec<TocItem>, id_counter: &mut usize)
    ensures
        entries_view(final(headings)@) == entries_view(old(headings)@) + toc_seq(
            blocks@,
            *old(id_counter) as nat,
        ).0,
        *final(id_counter) as nat == toc_seq(blocks@, *old(id_counter) as nat).1,
    decreases blocks@,
{
    let ghost h0 = headings@;
    let ghost n0 = *id_counter as nat;
    let mut i: usize = 0;
    while i < blocks.len()
        invariant
            i <= blocks@.len(),
            entries_view(headings@) == entries_view(h0) + toc_seq(blocks@.take(i as int), n0).0,
            *id_counter as nat == toc_seq(blocks@.take(i as int), n0).1,
        decreases blocks@.len() - i,
    {
        let b = &blocks[i];
        let ghost hb = headings@;
        let ghost nb = *id_counter as nat;
        if b.kind == NodeKind::Heading {
            let id = heading_id_exec(b, *id_counter);
            let text = heading_text_exec(&b.children);
            let level = clamp_exec(b.heading_level);
            headings.push(TocItem { id, text, level });
            if *id_counter < usize::MAX {
                *id_counter = *id_counter + 1;
            }
        }
        let ghost hm = headings@;
        let ghost nm = *id_counter as nat;
        extract_toc_items(&b.children, headings, id_counter);
        proof {
            let next = blocks@.take(i + 1);
            assert(next.drop_last() =~= blocks@.take(i as int));
            assert(next.last() == blocks@[i as int]);
            let (head, m) = if b.kind == NodeKind::Heading {
                (
                    seq![
                        (heading_id(*b, nb), heading_text(b.children@), clamp_level(b.heading_level)),
                    ],
                    bump(nb),
                )
            } else {
                (Seq::<TocEntry>::empty(), nb)
            };
            assert(entries_view(hm) =~= entries_view(hb) + head);
            assert(nm == m);
            let tb = toc_block(*b, nb);
            assert(tb == (head + toc_seq(b.children@, m).0, toc_seq(b.children@, m).1));
            assert(toc_seq(next, n0) == (toc_seq(blocks@.take(i as int), n0).0 + tb.0, tb.1));
            assert(entries_view(headings@) =~= entries_view(h0) + toc_seq(next, n0).0);
        }
        i = i + 1;
    }
    assert(blocks@.take(i as int) =~= blocks@);
}

/// One outline line: level-3 entries carry the subitem class.
pub open spec fn toc_line(t: TocItem) -> Seq<char> {
    "<li class=\"toc-item"@ + (if t.level == 3 {
        " toc-subitem"@
    } else {
        Seq::empty()
    }) + "\"><a class=\"toc-link\" href=\"#"@ + t.id@ + "\">"@ + t.text@ + "</a></li>\n"@
}

/// The outline lines of the level-2 and level-3 entries.
pub open spec fn toc_body(ts: Seq<TocItem>) -> Seq<char>
    decreases ts.len(),
{
    if ts.len() == 0 {
        Seq::empty()
    } else {
        toc_body(ts.drop_last()) + if 2 <= ts.last().level <= 3 {
            toc_line(ts.last())
        } else {
            Seq::empty()
        }
    }
}

/// The outline, or a placeholder line when no entry qualifies.
pub open spec fn toc_html(ts: Seq<TocItem>) -> Seq<char> {
    if toc_body(ts).len() == 0 {
        "<li class=\"toc-item\"><em>No headings found</em></li>\n"@
    } else {
        toc_body(ts)
    }
}

/// The outline HTML of level-2 and level-3 headings.
pub fn generate_toc_html(headings: &[TocItem]) -> (r: String)
    ensures
        r@ == toc_html(headings@),
{
    let mut out = String::new();
    let mut i: usize = 0;
    while i < headings.len()
        invariant
            i <= headings@.len(),
            out@ == toc_body(headings@.take(i as int)),
        decreases headings@.len() - i,
    {
        let h = &headings[i];
        if 2 <= h.level && h.level <= 3 {
            out.append("<li class=\"toc-item");
            if h.level == 3 {
                out.append(" toc-subitem");
            }
            out.append("\"><a class=\"toc-link\" href=\"#");
            out.append(h.id.as_str());
            out.append("\">");
            out.append(h.text.as_str());
            out.append("</a></li>\n");
        }
        proof {
            let next = headings@.take(i + 1);
            assert(next.drop_last() =~= headings@.take(i as int));
            assert(next.last() == headings@[i as int]);
            assert(out@ =~= toc_body(next));
        }
        i = i + 1;
    }
    assert(headings@.take(i as int) =~= headings@);
    if out.as_str().is_empty() {
        let mut p = String::new();
        p.append("<li class=\"toc-item\"><em>No headings found</em></li>\n");
        return p;
    }
    out
}

/// The inner HTML of a heading: text escaped, marks rendered, other blocks as blocks.
pub open spec fn heading_inner(notes: Seq<crate::model::Note>, cs: Seq<Block>) -> Seq<char>
    decreases cs.len(),
{
    if cs.len() == 0 {
        Seq::empty()
    } else {
        heading_inner(notes, cs.drop_last()) + if cs.last().kind == NodeKind::Text {
            escaped(cs.last().data@)
        } else if cs.last().kind == NodeKind::TextMark {
            mark_html(notes, cs.last())
        } else {
            block_html(notes, cs.last(), EMBED_DEPTH as nat)
        }
    }
}

/// One top-level block where headings always carry an anchor; the counter
/// advances only when a synthetic identifier is used.
pub open spec fn anchored_block(notes: Seq<crate::model::Note>, b: Block, n: nat) -> (
    Seq<char>,
    nat,
) {
    if b.kind == NodeKind::Heading {
        let lt = level_text(b.heading_level);
        (
            "<h"@ + lt + " id=\""@ + heading_id(b, n) + "\">"@ + heading_inner(notes, b.children@)
                + "</h"@ + lt + ">\n"@,
            if b.id@.len() > 0 {
                n
            } else {
                bump(n)
            },
        )
    } else {
        (block_html(notes, b, EMBED_DEPTH as nat), n)
    }
}

/// Top-level blocks rendered with anchored headings, and the counter after them.
pub open spec fn anchored_html(notes: Seq<crate::model::Note>, bs: Seq<Block>, n: nat) -> (
    Seq<char>,
    nat,
)
    decreases bs.len(),
{
    if bs.len() == 0 {
        (Seq::empty(), n)
    } else {
        let (a, m) = anchored_html(notes, bs.drop_last(), n);
        let (c, k) = anchored_block(notes, bs.last(), m);
        (a + c, k)
    }
}

fn heading_inner_exec(cs: &Vec<Block>, index: &NoteIndex) -> (r: String)
    ensures
        r@ == heading_inner(index.view(), cs@),
{
    let mut out = String::new();
    let mut i: usize = 0;
    while i < cs.len()
        invariant
            i <= cs@.len(),
            out@ == heading_inner(index.view(), cs@.take(i as int)),
        decreases cs@.len() - i,
    {
        if cs[i].kind == NodeKind::Text {
            push_escaped(&mut out, cs[i].data.as_str());
        } else if cs[i].kind == NodeKind::TextMark {
            let h = render_text_mark(&cs[i], index);
            out.append(h.as_str());
        } else {
            let h = render_block_at(&cs[i], index, EMBED_DEPTH);
            out.append(h.as_str());
        }
        proof {
            let next = cs@.take(i + 1);
            assert(next.drop_last() =~= cs@.take(i as int));
            assert(next.last() == cs@[i as int]);
            assert(out@ =~= heading_inner(index.view(), next));
        }
        i = i + 1;
    }
    assert(cs@.take(i as int) =~= cs@);
    out
}

/// Renders top-level blocks, giving each heading an `id`: its own, or
/// `heading-n` from a counter that starts at zero.
pub fn render_blocks_with_ids(blocks: &Vec<Block>, index: &NoteIndex) -> (r: String)
    ensures
        r@ == anchored_html(index.view(), blocks@, 0).0,
{
    let mut counter: usize = 0;
    let mut out = String::new();
    let mut i: usize = 0;
    while i < blocks.len()
        invariant
            i <= blocks@.len(),
            (out@, counter as nat) == anchored_html(index.view(), blocks@.take(i as int), 0),
        decreases blocks@.len() - i,
    {
        let b = &blocks[i];
        let ghost before = out@;
        let ghost nb = counter as nat;
        if b.kind == NodeKind::Heading {
            let l = crate::render::level_str(b.heading_level);
            let id = heading_id_exec(b, counter);
            if b.id.as_str().is_empty() && counter < usize::MAX {
                counter = counter + 1;
            }
            out.append("<h");
            out.append(l);
            out.append(" id=\"");
            out.append(id.as_str());
            out.append("\">");
            let inner = heading_inner_exec(&b.children, index);
            out.append(inner.as_str());
            out.append("</h");
            out.append(l);
            out.append(">\n");
        } else {
            let h = render_block_at(b, index, EMBED_DEPTH);
            out.append(h.as_str());
        }
        proof {
            let next = blocks@.take(i + 1);
            assert(next.drop_last() =~= blocks@.take(i as int));
            assert(next.last() == blocks@[i as int]);
            assert(out@ =~= before + anchored_block(index.view(), *b, nb).0);
        }
        i = i + 1;
    }
    assert(blocks@.take(i as int) =~= blocks@);
    out
}

} // verus!
