//! Text clean-up applied to assembled pages: tag lists without the `index`
//! tag, zero-width characters, and leftover template placeholders.
use vstd::prelude::*;
use crate::comment::{byte_len, utf8_width, utf8_width_exec};
use crate::model::{Block, NodeKind, Note, NoteIndex};
use crate::render::{blocks_html, render_blocks_at, EMBED_DEPTH};
use crate::text::{
    chars_of, contains, contains_text, escape_html, escaped, find_chars, find_from, lemma_find_from_bounds, occurs_at,
    occurs_at_exec, push_char, split_on, split_pieces, split_trimmed, string_of_range, strings_view,
    trim_text, trimmed, trimmed_pieces,
};

verus! {

/// The pieces other than `index`.
pub open spec fn kept_tags(ps: Seq<Seq<char>>) -> Seq<Seq<char>>
    decreases ps.len(),
{
    if ps.len() == 0 {
        Seq::empty()
    } else {
        kept_tags(ps.drop_last()) + if ps.last() != "index"@ {
            seq![ps.last()]
        } else {
            Seq::empty()
        }
    }
}

/// The pieces joined by `, `.
pub open spec fn joined(ps: Seq<Seq<char>>) -> Seq<char>
    decreases ps.len(),
{
    if ps.len() == 0 {
        Seq::empty()
    } else if ps.len() == 1 {
        ps[0]
    } else {
        joined(ps.drop_last()) + ", "@ + ps.last()
    }
}

/// A tag list without the `index` tag: comma-separated pieces, trimmed,
/// rejoined by `, `.
pub fn filter_index_tag(tags_str: &str) -> (r: String)
    ensures
        r@ == joined(kept_tags(trimmed_pieces(tags_str@))),
{
    let pieces = split_trimmed(tags_str);
    let ghost ps = trimmed_pieces(tags_str@);
    let mut out = String::new();
    let mut count: usize = 0;
    let mut i: usize = 0;
    while i < pieces.len()
        invariant
            i <= pieces@.len(),
            strings_view(pieces@) == ps,
            count as nat == kept_tags(ps.take(i as int)).len(),
            count <= i,
            out@ == joined(kept_tags(ps.take(i as int))),
        decreases pieces@.len() - i,
    {
        let ghost before = kept_tags(ps.take(i as int));
        let p = pieces[i].as_str();
        assert(ps[i as int] == pieces@[i as int]@);
        proof {
            assert(ps.take(i + 1).drop_last() =~= ps.take(i as int));
            assert(ps.take(i + 1).last() == ps[i as int]);
        }
        if !crate::text::same_text(p, "index") {
            if count > 0 {
                out.append(", ");
            }
            out.append(p);
            proof {
                let after = kept_tags(ps.take(i + 1));
                assert(after =~= before.push(p@));
                assert(after.drop_last() =~= before);
                if count == 0 {
                    assert(out@ =~= joined(after));
                }
            }
            count = count + 1;
        } else {
            assert(kept_tags(ps.take(i + 1)) =~= before);
        }
        i = i + 1;
    }
    assert(ps.take(i as int) =~= ps);
    out
}

/// A character that the clean-up removes.
pub open spec fn is_zero_width(c: char) -> bool {
    c == '\u{200B}' || c == '\u{200C}' || c == '\u{2060}' || c == '\u{200E}' || c == '\u{200F}'
}

/// A character that may begin an emoji sequence.
pub open spec fn is_emoji_start(c: char) -> bool {
    ('\u{1F000}' <= c && c <= '\u{1FFFF}') || ('\u{2600}' <= c && c <= '\u{27BF}') || ('\u{2300}'
        <= c && c <= '\u{23FF}') || ('\u{2700}' <= c && c <= '\u{27FF}') || ('\u{1F1E6}' <= c && c
        <= '\u{1F1FF}')
}

/// A skin-tone modifier or the emoji presentation selector.
pub open spec fn is_emoji_modifier(c: char) -> bool {
    ('\u{1F3FB}' <= c && c <= '\u{1F3FF}') || c == '\u{FE0F}'
}

/// The text from position `i` on with zero-width characters removed, except
/// inside an emoji sequence.
pub open spec fn without_zero_width(cs: Seq<char>, i: int) -> Seq<char>
    decreases cs.len() - i, 0nat,
{
    if i < 0 || i >= cs.len() {
        Seq::empty()
    } else if is_zero_width(cs[i]) {
        without_zero_width(cs, i + 1)
    } else if is_emoji_start(cs[i]) {
        seq![cs[i]] + emoji_tail(cs, i + 1)
    } else {
        seq![cs[i]] + without_zero_width(cs, i + 1)
    }
}

/// The rest of an emoji sequence from position `j`: a joiner keeps itself and
/// the character after it, modifiers keep themselves; anything else ends it.
pub open spec fn emoji_tail(cs: Seq<char>, j: int) -> Seq<char>
    decreases cs.len() - j, 1nat,
{
    if j < 0 || j >= cs.len() {
        Seq::empty()
    } else if cs[j] == '\u{200D}' {
        if j + 1 < cs.len() {
            seq![cs[j], cs[j + 1]] + emoji_tail(cs, j + 2)
        } else {
            seq![cs[j]]
        }
    } else if is_emoji_modifier(cs[j]) {
        seq![cs[j]] + emoji_tail(cs, j + 1)
    } else {
        without_zero_width(cs, j)
    }
}

/// Removes zero-width spaces, joiners' neighbours in emoji sequences excepted.
pub fn remove_zero_width_spaces(html: &str) -> (r: String)
    ensures
        r@ == without_zero_width(html@, 0),
{
    let cs = chars_of(html);
    let n = cs.len();
    let mut out = String::new();
    let mut in_tail = false;
    let mut i: usize = 0;
    while i < n
        invariant
            n == cs@.len(),
            i <= n,
            cs@ == html@,
            out@ + (if in_tail {
                emoji_tail(cs@, i as int)
            } else {
                without_zero_width(cs@, i as int)
            }) == without_zero_width(cs@, 0),
        decreases n - i, if in_tail { 1nat } else { 0nat },
    {
        let c = cs[i];
        let ghost before = out@;
        if in_tail {
            if c == '\u{200D}' {
                push_char(&mut out, c);
                if i + 1 < n {
                    push_char(&mut out, cs[i + 1]);
                    assert(before + emoji_tail(cs@, i as int) =~= out@ + emoji_tail(cs@, i + 2));
                    i = i + 2;
                } else {
                    assert(before + emoji_tail(cs@, i as int) =~= out@ + emoji_tail(cs@, i + 1));
                    i = i + 1;
                }
            } else if ('\u{1F3FB}' <= c && c <= '\u{1F3FF}') || c == '\u{FE0F}' {
                push_char(&mut out, c);
                assert(before + emoji_tail(cs@, i as int) =~= out@ + emoji_tail(cs@, i + 1));
                i = i + 1;
            } else {
                in_tail = false;
            }
        } else {
            if c == '\u{200B}' || c == '\u{200C}' || c == '\u{2060}' || c == '\u{200E}' || c
                == '\u{200F}' {
                i = i + 1;
            } else {
                push_char(&mut out, c);
                if ('\u{1F000}' <= c && c <= '\u{1FFFF}') || ('\u{2600}' <= c && c <= '\u{27BF}')
                    || ('\u{2300}' <= c && c <= '\u{23FF}') || ('\u{2700}' <= c && c <= '\u{27FF}')
                    || ('\u{1F1E6}' <= c && c <= '\u{1F1FF}') {
                    in_tail = true;
                    assert(before + without_zero_width(cs@, i as int) =~= out@ + emoji_tail(
                        cs@,
                        i + 1,
                    ));
                } else {
                    assert(before + without_zero_width(cs@, i as int) =~= out@
                        + without_zero_width(cs@, i + 1));
                }
                i = i + 1;
            }
        }
    }
    out
}

/// `h` from position `pos` on with each `{{...}}` removed; an opening `{{`
/// with no closing `}}` after it is kept.
pub open spec fn strip_placeholders(h: Seq<char>, pos: int) -> Seq<char>
    decreases h.len() - pos,
{
    if pos < 0 || pos > h.len() {
        Seq::empty()
    } else {
        match find_from(h, "{{"@, pos) {
            None => h.subrange(pos, h.len() as int),
            Some(s) => if s < pos || s + 2 > h.len() {
                Seq::empty()
            } else {
                h.subrange(pos, s) + match find_from(h, "}}"@, s) {
                    Some(e) => if e >= s && e + 2 <= h.len() {
                        strip_placeholders(h, e + 2)
                    } else {
                        Seq::empty()
                    },
                    None => "{{"@ + strip_placeholders(h, s + 2),
                }
            },
        }
    }
}

/// A line without its final carriage return.
pub open spec fn strip_cr(l: Seq<char>) -> Seq<char> {
    if l.len() > 0 && l.last() == '\r' {
        l.drop_last()
    } else {
        l
    }
}

/// An Open Graph or article meta line whose content is empty or a placeholder.
pub open spec fn is_empty_meta(l: Seq<char>) -> bool {
    let t = trimmed(l);
    (occurs_at(t, "<meta property=\"og:"@, 0) || occurs_at(t, "<meta property=\"article:"@, 0))
        && (contains(t, "content=\"\""@) || contains(t, "content=\"{{"@))
}

/// A line and its newline, or nothing for an empty meta line.
pub open spec fn emit_line(l: Seq<char>) -> Seq<char> {
    if is_empty_meta(l) {
        Seq::empty()
    } else {
        l + "\n"@
    }
}

/// The complete lines `ls` (each ended by a newline in the text), emitted.
pub open spec fn emit_lines(ls: Seq<Seq<char>>) -> Seq<char>
    decreases ls.len(),
{
    if ls.len() == 0 {
        Seq::empty()
    } else {
        emit_lines(ls.drop_last()) + emit_line(strip_cr(ls.last()))
    }
}

/// The lines of `t`, the empty meta lines left out, each ended by a newline.
pub open spec fn meta_cleaned(t: Seq<char>) -> Seq<char> {
    let ps = split_on(t, '\n');
    emit_lines(ps.drop_last()) + if ps.last().len() > 0 {
        emit_line(ps.last())
    } else {
        Seq::empty()
    }
}

fn strip_placeholders_exec(html: &str) -> (r: String)
    ensures
        r@ == strip_placeholders(html@, 0),
{
    proof {
        reveal_strlit("{{");
        reveal_strlit("}}");
    }
    let h = chars_of(html);
    let open = chars_of("{{");
    let close = chars_of("}}");
    let n = h.len();
    let mut out = String::new();
    let mut pos: usize = 0;
    loop
        invariant
            n == h@.len(),
            h@ == html@,
            open@ == "{{"@,
            close@ == "}}"@,
            open@.len() == 2,
            close@.len() == 2,
            pos <= n,
            out@ + strip_placeholders(h@, pos as int) == strip_placeholders(h@, 0),
        decreases n - pos,
    {
        let ghost before = out@;
        match find_chars(&h, &open, pos) {
            None => {
                let rest = string_of_range(&h, pos, n);
                out.append(rest.as_str());
                return out;
            },
            Some(s) => {
                proof {
                    lemma_find_from_bounds(h@, open@, pos as int);
                }
                let head = string_of_range(&h, pos, s);
                out.append(head.as_str());
                match find_chars(&h, &close, s) {
                    Some(e) => {
                        proof {
                            lemma_find_from_bounds(h@, close@, s as int);
                        }
                        assert(before + strip_placeholders(h@, pos as int) =~= out@
                            + strip_placeholders(h@, e + 2));
                        pos = e + 2;
                    },
                    None => {
                        out.append("{{");
                        assert(before + strip_placeholders(h@, pos as int) =~= out@
                            + strip_placeholders(h@, s + 2));
                        pos = s + 2;
                    },
                }
            },
        }
    }
}

fn is_empty_meta_exec(l: &str) -> (r: bool)
    ensures
        r == is_empty_meta(l@),
{
    let t = trim_text(l);
    let tc = chars_of(t.as_str());
    let og = chars_of("<meta property=\"og:");
    let article = chars_of("<meta property=\"article:");
    let is_og = og.len() <= tc.len() && occurs_at_exec(&tc, &og, 0);
    let is_article = article.len() <= tc.len() && occurs_at_exec(&tc, &article, 0);
    (is_og || is_article) && (contains_text(t.as_str(), "content=\"\"") || contains_text(
        t.as_str(),
        "content=\"{{",
    ))
}

fn push_line(out: &mut String, l: &str)
    ensures
        final(out)@ == old(out)@ + emit_line(l@),
{
    if !is_empty_meta_exec(l) {
        out.append(l);
        out.append("\n");
    } else {
        assert(old(out)@ + emit_line(l@) =~= old(out)@);
    }
}

fn without_cr(l: &str) -> (r: String)
    ensures
        r@ == strip_cr(l@),
{
    let cs = chars_of(l);
    if cs.len() > 0 && cs[cs.len() - 1] == '\r' {
        let r = string_of_range(&cs, 0, cs.len() - 1);
        assert(cs@.subrange(0, cs@.len() - 1) =~= cs@.drop_last());
        r
    } else {
        String::from_str(l)
    }
}

/// Removes leftover `{{...}}` placeholders, then drops Open Graph and
/// article meta lines left with empty content, ending every line with a newline.
pub fn cleanup_template_variables(html: &str) -> (r: String)
    ensures
        r@ == meta_cleaned(strip_placeholders(html@, 0)),
{
    let stripped = strip_placeholders_exec(html);
    let pieces = split_pieces(stripped.as_str(), '\n');
    let ghost ps = split_on(stripped@, '\n');
    proof {
        crate::text::lemma_split_nonempty(stripped@, '\n');
    }
    let last = pieces.len() - 1;
    let mut out = String::new();
    let mut k: usize = 0;
    while k < last
        invariant
            last + 1 == pieces@.len(),
            strings_view(pieces@) == ps,
            k <= last,
            out@ == emit_lines(ps.take(k as int)),
        decreases last - k,
    {
        let line = without_cr(pieces[k].as_str());
        assert(ps[k as int] == pieces@[k as int]@);
        push_line(&mut out, line.as_str());
        proof {
            assert(ps.take(k + 1).drop_last() =~= ps.take(k as int));
            assert(ps.take(k + 1).last() == ps[k as int]);
        }
        k = k + 1;
    }
    assert(ps.take(k as int) =~= ps.drop_last());
    assert(ps[last as int] == pieces@[last as int]@);
    if !pieces[last].as_str().is_empty() {
        push_line(&mut out, pieces[last].as_str());
    } else {
        assert(out@ + Seq::<char>::empty() =~= out@);
    }
    out
}

/// The pieces that are not empty.
pub open spec fn nonempty_pieces(ps: Seq<Seq<char>>) -> Seq<Seq<char>>
    decreases ps.len(),
{
    if ps.len() == 0 {
        Seq::empty()
    } else {
        nonempty_pieces(ps.drop_last()) + if ps.last().len() > 0 {
            seq![ps.last()]
        } else {
            Seq::empty()
        }
    }
}

/// A block of the older schema's paragraph type with text of its own.
pub open spec fn is_legacy_text(b: Block) -> bool {
    b.kind == NodeKind::LegacyParagraph && b.data@.len() > 0
}

/// The first legacy paragraph with text among `cs[i..]`, skipping those with identifier `skip`.
pub open spec fn legacy_from(cs: Seq<Block>, i: int, skip: Option<Seq<char>>) -> Option<int>
    decreases cs.len() - i,
{
    if i < 0 || i >= cs.len() {
        None
    } else if is_legacy_text(cs[i]) && skip != Some(cs[i].id@) {
        Some(i)
    } else {
        legacy_from(cs, i + 1, skip)
    }
}

/// The text of the first of `cs[i..]` that has some.
pub open spec fn first_data_from(cs: Seq<Block>, i: int) -> Option<Seq<char>>
    decreases cs.len() - i,
{
    if i < 0 || i >= cs.len() {
        None
    } else if cs[i].data@.len() > 0 {
        Some(cs[i].data@)
    } else {
        first_data_from(cs, i + 1)
    }
}

/// Among the first three blocks from position `i`, the first text found in
/// a block itself or else in one of its children.
pub open spec fn early_text_from(cs: Seq<Block>, i: int) -> Option<Seq<char>>
    decreases cs.len() - i,
{
    if i < 0 || i >= cs.len() || i >= 3 {
        None
    } else if cs[i].data@.len() > 0 {
        Some(cs[i].data@)
    } else {
        match first_data_from(cs[i].children@, 0) {
            Some(d) => Some(d),
            None => early_text_from(cs, i + 1),
        }
    }
}

/// The uncut excerpt of a note on a tag page: its first legacy paragraph
/// (with a second one when the first is short), else early text.
pub open spec fn tag_excerpt_text(cs: Seq<Block>) -> Seq<char> {
    match legacy_from(cs, 0, None) {
        Some(i) => {
            let t = escaped(cs[i].data@);
            if t.len() < 120 && cs.len() > 1 {
                match legacy_from(cs, 0, Some(cs[i].id@)) {
                    Some(j) => t + " "@ + escaped(cs[j].data@),
                    None => t,
                }
            } else {
                t
            }
        },
        None => match early_text_from(cs, 0) {
            Some(d) => escaped(d),
            None => Seq::empty(),
        },
    }
}

pub open spec fn is_break_char(c: char) -> bool {
    c == ' ' || c == '.' || c == ',' || c == ';'
}

/// The last position from `pos` down to 151 holding a break character, else 150.
pub open spec fn break_before(t: Seq<char>, pos: int) -> int
    decreases pos,
{
    if pos <= 150 {
        150
    } else if is_break_char(t[pos]) {
        pos
    } else {
        break_before(t, pos - 1)
    }
}

/// Text over 200 characters cut at a break near the 200th, with an ellipsis.
pub open spec fn cut_excerpt(t: Seq<char>) -> Seq<char> {
    if t.len() > 200 {
        t.take(break_before(t, 200)) + "..."@
    } else {
        t
    }
}

/// A note's excerpt on a tag page; where it has no text, its tags, else its title.
pub open spec fn tag_excerpt_of(n: Note) -> Seq<char> {
    let c = cut_excerpt(tag_excerpt_text(n.children@));
    if c.len() > 0 {
        c
    } else {
        let ts = nonempty_pieces(trimmed_pieces(n.tags@));
        if ts.len() > 0 {
            "Tagged with: "@ + joined(ts)
        } else {
            n.title@
        }
    }
}

fn legacy_exec(cs: &Vec<Block>, skip: Option<&str>) -> (r: Option<usize>)
    ensures
        match r {
            Some(k) => k < cs@.len() && legacy_from(cs@, 0, match skip {
                Some(x) => Some(x@),
                None => None,
            }) == Some(k as int),
            None => legacy_from(cs@, 0, match skip {
                Some(x) => Some(x@),
                None => None,
            }) is None,
        },
{
    let ghost sk: Option<Seq<char>> = match skip {
        Some(x) => Some(x@),
        None => None,
    };
    let mut i: usize = 0;
    while i < cs.len()
        invariant
            i <= cs@.len(),
            legacy_from(cs@, 0, sk) == legacy_from(cs@, i as int, sk),
            sk == match skip {
                Some(x) => Some(x@),
                None => None::<Seq<char>>,
            },
        decreases cs@.len() - i,
    {
        let b = &cs[i];
        let skipped = match skip {
            Some(x) => crate::text::same_text(b.id.as_str(), x),
            None => false,
        };
        if b.kind == NodeKind::LegacyParagraph && !b.data.as_str().is_empty() && !skipped {
            return Some(i);
        }
        i = i + 1;
    }
    None
}

fn first_data_exec(cs: &Vec<Block>) -> (r: Option<&str>)
    ensures
        match r {
            Some(d) => first_data_from(cs@, 0) == Some(d@),
            None => first_data_from(cs@, 0) is None,
        },
{
    let mut i: usize = 0;
    while i < cs.len()
        invariant
            i <= cs@.len(),
            first_data_from(cs@, 0) == first_data_from(cs@, i as int),
        decreases cs@.len() - i,
    {
        if !cs[i].data.as_str().is_empty() {
            return Some(cs[i].data.as_str());
        }
        i = i + 1;
    }
    None
}

fn early_text_exec(cs: &Vec<Block>) -> (r: Option<&str>)
    ensures
        match r {
            Some(d) => early_text_from(cs@, 0) == Some(d@),
            None => early_text_from(cs@, 0) is None,
        },
{
    let mut i: usize = 0;
    while i < cs.len() && i < 3
        invariant
            i <= cs@.len(),
            early_text_from(cs@, 0) == early_text_from(cs@, i as int),
        decreases cs@.len() - i,
    {
        if !cs[i].data.as_str().is_empty() {
            return Some(cs[i].data.as_str());
        }
        match first_data_exec(&cs[i].children) {
            Some(d) => {
                return Some(d);
            },
            None => {},
        }
        i = i + 1;
    }
    None
}

fn tag_excerpt_text_exec(cs: &Vec<Block>) -> (r: String)
    ensures
        r@ == tag_excerpt_text(cs@),
{
    match legacy_exec(cs, None) {
        Some(i) => {
            let mut t = escape_html(cs[i].data.as_str());
            let short = chars_of(t.as_str()).len() < 120;
            if short && cs.len() > 1 {
                match legacy_exec(cs, Some(cs[i].id.as_str())) {
                    Some(j) => {
                        let ghost t0 = t@;
                        t.append(" ");
                        let second = escape_html(cs[j].data.as_str());
                        t.append(second.as_str());
                        assert(t@ =~= t0 + " "@ + escaped(cs@[j as int].data@));
                    },
                    None => {},
                }
            }
            t
        },
        None => match early_text_exec(cs) {
            Some(d) => escape_html(d),
            None => String::new(),
        },
    }
}

fn cut_excerpt_exec(t: &str) -> (r: String)
    ensures
        r@ == cut_excerpt(t@),
{
    let cs = chars_of(t);
    if cs.len() <= 200 {
        return String::from_str(t);
    }
    let mut pos: usize = 200;
    let mut found = false;
    while pos > 150 && !found
        invariant
            150 <= pos <= 200 < cs@.len(),
            cs@ == t@,
            break_before(cs@, 200) == break_before(cs@, pos as int),
            found ==> is_break_char(cs@[pos as int]),
        decreases pos, if found { 0int } else { 1int },
    {
        let c = cs[pos];
        if c == ' ' || c == '.' || c == ',' || c == ';' {
            found = true;
        } else {
            pos = pos - 1;
        }
    }
    assert(break_before(cs@, pos as int) == pos);
    let mut out = string_of_range(&cs, 0, pos);
    out.append("...");
    assert(cs@.subrange(0, pos as int) =~= cs@.take(pos as int));
    out
}

fn nonempty_joined(ps: &Vec<String>) -> (r: String)
    ensures
        r@ == joined(nonempty_pieces(strings_view(ps@))),
{
    let ghost v = strings_view(ps@);
    let mut out = String::new();
    let mut count: usize = 0;
    let mut i: usize = 0;
    while i < ps.len()
        invariant
            i <= ps@.len(),
            v == strings_view(ps@),
            count as nat == nonempty_pieces(v.take(i as int)).len(),
            count <= i,
            out@ == joined(nonempty_pieces(v.take(i as int))),
        decreases ps@.len() - i,
    {
        let ghost before = nonempty_pieces(v.take(i as int));
        let p = ps[i].as_str();
        assert(v[i as int] == ps@[i as int]@);
        proof {
            assert(v.take(i + 1).drop_last() =~= v.take(i as int));
            assert(v.take(i + 1).last() == v[i as int]);
        }
        if !p.is_empty() {
            if count > 0 {
                out.append(", ");
            }
            out.append(p);
            proof {
                let after = nonempty_pieces(v.take(i + 1));
                assert(after =~= before.push(p@));
                assert(after.drop_last() =~= before);
                if count == 0 {
                    assert(out@ =~= joined(after));
                }
            }
            count = count + 1;
        } else {
            assert(nonempty_pieces(v.take(i + 1)) =~= before);
        }
        i = i + 1;
    }
    assert(v.take(i as int) =~= v);
    out
}

proof fn lemma_nonempty_pieces(ps: Seq<Seq<char>>)
    ensures
        forall|i: int|
            0 <= i < nonempty_pieces(ps).len() ==> (#[trigger] nonempty_pieces(ps)[i]).len() > 0,
    decreases ps.len(),
{
    if ps.len() > 0 {
        lemma_nonempty_pieces(ps.drop_last());
        let a = nonempty_pieces(ps.drop_last());
        assert forall|i: int| 0 <= i < nonempty_pieces(ps).len() implies (
        #[trigger] nonempty_pieces(ps)[i]).len() > 0 by {
            if i < a.len() {
                assert(nonempty_pieces(ps)[i] == a[i]);
            }
        }
    }
}

proof fn lemma_joined_nonempty(ps: Seq<Seq<char>>)
    requires
        forall|i: int| 0 <= i < ps.len() ==> (#[trigger] ps[i]).len() > 0,
    ensures
        (joined(ps).len() == 0) == (ps.len() == 0),
{
    if ps.len() > 1 {
        assert(ps.last() == ps[ps.len() - 1]);
    } else if ps.len() == 1 {
        assert(ps[0].len() > 0);
    }
}

/// The excerpt shown for a note on a tag page.
pub fn tag_excerpt(note: &Note) -> (r: String)
    ensures
        r@ == tag_excerpt_of(*note),
{
    let raw = tag_excerpt_text_exec(&note.children);
    let cut = cut_excerpt_exec(raw.as_str());
    if !cut.as_str().is_empty() {
        return cut;
    }
    let pieces = split_trimmed(note.tags.as_str());
    let tags = nonempty_joined(&pieces);
    proof {
        lemma_nonempty_pieces(strings_view(pieces@));
        lemma_joined_nonempty(nonempty_pieces(strings_view(pieces@)));
    }
    if !tags.as_str().is_empty() {
        let mut out = String::new();
        out.append("Tagged with: ");
        out.append(tags.as_str());
        return out;
    }
    note.title.clone()
}

/// Whether a `<` was seen after the last `>` in `s`.
pub open spec fn in_tag_after(s: Seq<char>) -> bool
    decreases s.len(),
{
    if s.len() == 0 {
        false
    } else if s.last() == '<' {
        true
    } else if s.last() == '>' {
        false
    } else {
        in_tag_after(s.drop_last())
    }
}

/// `s` without its markup: the characters outside `<...>`.
pub open spec fn stripped(s: Seq<char>) -> Seq<char>
    decreases s.len(),
{
    if s.len() == 0 {
        Seq::empty()
    } else {
        let p = s.drop_last();
        let c = s.last();
        if c == '<' || c == '>' || in_tag_after(p) {
            stripped(p)
        } else {
            stripped(p).push(c)
        }
    }
}

/// The plain text of a note's paragraphs from position `i`, appended to
/// `acc`; it stops once two paragraphs hold over 100 bytes.
pub open spec fn description_from(
    notes: Seq<Note>,
    bs: Seq<Block>,
    i: int,
    acc: Seq<char>,
    count: nat,
) -> Seq<char>
    decreases bs.len() - i,
{
    if i < 0 || i >= bs.len() {
        acc
    } else if bs[i].kind == NodeKind::Paragraph {
        let acc1 = (if count > 0 {
            acc.push(' ')
        } else {
            acc
        }) + stripped(blocks_html(notes, bs[i].children@, EMBED_DEPTH as nat));
        if count + 1 >= 2 && byte_len(acc1) > 100 {
            acc1
        } else {
            description_from(notes, bs, i + 1, acc1, count + 1)
        }
    } else {
        description_from(notes, bs, i + 1, acc, count)
    }
}

/// Escaped text of over 200 bytes cut to 196 characters (fewer only when
/// it has fewer), with an ellipsis.
pub open spec fn cut_description(e: Seq<char>) -> Seq<char> {
    if byte_len(e) > 200 {
        let k = if e.len() - 1 < 196 {
            e.len() - 1
        } else {
            196
        };
        e.take(k) + "..."@
    } else {
        e
    }
}

/// A note's meta description: the plain text of its first paragraphs, or
/// `fallback` where they hold none; escaped and cut.
pub open spec fn description_of(notes: Seq<Note>, n: Note, fallback: Seq<char>) -> Seq<char> {
    let d = description_from(notes, n.children@, 0, Seq::empty(), 0);
    cut_description(escaped(if d.len() == 0 {
        fallback
    } else {
        d
    }))
}

fn strip_markup(html: &str) -> (r: String)
    ensures
        r@ == stripped(html@),
{
    let cs = chars_of(html);
    let mut out = String::new();
    let mut in_tag = false;
    let mut i: usize = 0;
    while i < cs.len()
        invariant
            i <= cs@.len(),
            cs@ == html@,
            out@ == stripped(cs@.take(i as int)),
            in_tag == in_tag_after(cs@.take(i as int)),
        decreases cs@.len() - i,
    {
        let c = cs[i];
        proof {
            assert(cs@.take(i + 1).drop_last() =~= cs@.take(i as int));
            assert(cs@.take(i + 1).last() == c);
        }
        if c == '<' {
            in_tag = true;
        } else if c == '>' {
            in_tag = false;
        } else if !in_tag {
            push_char(&mut out, c);
        }
        i = i + 1;
    }
    assert(cs@.take(i as int) =~= html@);
    out
}

fn byte_len_exec(s: &str) -> (r: u128)
    ensures
        r as nat == byte_len(s@),
        r <= 4 * s@.len(),
{
    let cs = chars_of(s);
    let mut total: u128 = 0;
    let mut i: usize = 0;
    while i < cs.len()
        invariant
            i <= cs@.len(),
            cs@ == s@,
            total as nat == byte_len(cs@.take(i as int)),
            total <= 4 * i,
        decreases cs@.len() - i,
    {
        assert(cs@.take(i + 1).drop_last() =~= cs@.take(i as int));
        assert(cs@.take(i + 1).last() == cs@[i as int]);
        total = total + utf8_width_exec(cs[i]);
        i = i + 1;
    }
    assert(cs@.take(i as int) =~= s@);
    total
}

/// The meta description of a note's page.
pub fn page_description(note: &Note, index: &NoteIndex, fallback: &str) -> (r: String)
    ensures
        r@ == description_of(index.view(), *note, fallback@),
{
    let bs = &note.children;
    let ghost notes = index.view();
    let ghost whole = description_from(notes, bs@, 0, Seq::empty(), 0);
    let mut desc = String::new();
    let mut count: usize = 0;
    let mut i: usize = 0;
    let mut done = false;
    while i < bs.len() && !done
        invariant
            i <= bs@.len(),
            count <= i + 1,
            !done ==> count <= i,
            notes == index.view(),
            done ==> desc@ == whole,
            !done ==> description_from(notes, bs@, i as int, desc@, count as nat) == whole,
        decreases bs@.len() - i, if done { 0int } else { 1int },
    {
        if bs[i].kind == NodeKind::Paragraph {
            if count > 0 {
                push_char(&mut desc, ' ');
            }
            let html = render_blocks_at(&bs[i].children, index, EMBED_DEPTH);
            let plain = strip_markup(html.as_str());
            desc.append(plain.as_str());
            count = count + 1;
            if count >= 2 && byte_len_exec(desc.as_str()) > 100 {
                done = true;
            } else {
                i = i + 1;
            }
        } else {
            i = i + 1;
        }
    }
    let base = if desc.as_str().is_empty() {
        escape_html(fallback)
    } else {
        escape_html(desc.as_str())
    };
    if byte_len_exec(base.as_str()) > 200 {
        let cs = chars_of(base.as_str());
        let k: usize = if cs.len() - 1 < 196 {
            cs.len() - 1
        } else {
            196
        };
        let mut out = string_of_range(&cs, 0, k);
        out.append("...");
        assert(cs@.subrange(0, k as int) =~= cs@.take(k as int));
        out
    } else {
        base
    }
}

} // verus!
