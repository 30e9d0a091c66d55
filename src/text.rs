//! Character-level helpers shared by the renderers: HTML escaping, substring
//! search, excerpt truncation.
use vstd::prelude::*;

verus! {

/// Relies on String::push: appends one character.
#[verifier::external_body]
pub(crate) fn push_char(s: &mut String, c: char)
    ensures
        final(s)@ == old(s)@.push(c),
{
    s.push(c)
}

/// The characters of `s`, in order.
pub fn chars_of(s: &str) -> (r: Vec<char>)
    ensures
        r@ == s@,
{
    let mut out: Vec<char> = Vec::new();
    for c in it: s.chars()
        invariant
            out@ == it.seq().take(it.index() as int),
    {
        out.push(c);
    }
    out
}

/// The HTML entity (or the character itself) that stands for `c` in escaped text.
pub open spec fn escape_char(c: char) -> Seq<char> {
    if c == '&' {
        "&amp;"@
    } else if c == '<' {
        "&lt;"@
    } else if c == '>' {
        "&gt;"@
    } else if c == '"' {
        "&quot;"@
    } else if c == '\'' {
        "&#39;"@
    } else {
        seq![c]
    }
}

/// `s` with each of `& < > " '` replaced by its entity.
pub open spec fn escaped(s: Seq<char>) -> Seq<char>
    decreases s.len(),
{
    if s.len() == 0 {
        Seq::empty()
    } else {
        escaped(s.drop_last()) + escape_char(s.last())
    }
}

/// A character that escaping rewrites.
pub open spec fn is_html_special(c: char) -> bool {
    c == '&' || c == '<' || c == '>' || c == '"' || c == '\''
}

/// Escapes `& < > " '` as HTML entities.
pub fn escape_html(text: &str) -> (r: String)
    ensures
        r@ == escaped(text@),
{
    let cs = chars_of(text);
    let mut out = String::new();
    let mut i: usize = 0;
    while i < cs.len()
        invariant
            i <= cs@.len(),
            cs@ == text@,
            out@ == escaped(cs@.take(i as int)),
        decreases cs@.len() - i,
    {
        let c = cs[i];
        if c == '&' {
            out.append("&amp;");
        } else if c == '<' {
            out.append("&lt;");
        } else if c == '>' {
            out.append("&gt;");
        } else if c == '"' {
            out.append("&quot;");
        } else if c == '\'' {
            out.append("&#39;");
        } else {
            push_char(&mut out, c);
        }
        proof {
            assert(cs@.take(i + 1).drop_last() =~= cs@.take(i as int));
        }
        i = i + 1;
    }
    assert(cs@.take(i as int) =~= text@);
    out
}

/// Escaping leaves text without special characters unchanged, and its output
/// never holds a raw `<`, `>`, `"` or `'`.
pub proof fn lemma_escape_safe(s: Seq<char>)
    ensures
        (forall|i: int| 0 <= i < s.len() ==> !is_html_special(#[trigger] s[i]))
            ==> escaped(s) == s,
        forall|i: int|
            0 <= i < escaped(s).len() ==> {
                let c = #[trigger] escaped(s)[i];
                c != '<' && c != '>' && c != '"' && c != '\''
            },
    decreases s.len(),
{
    reveal_strlit("&amp;");
    reveal_strlit("&lt;");
    reveal_strlit("&gt;");
    reveal_strlit("&quot;");
    reveal_strlit("&#39;");
    if s.len() > 0 {
        lemma_escape_safe(s.drop_last());
        let a = escaped(s.drop_last());
        let b = escape_char(s.last());
        assert(escaped(s) == a + b);
        assert forall|i: int| 0 <= i < escaped(s).len() implies {
            let c = #[trigger] escaped(s)[i];
            c != '<' && c != '>' && c != '"' && c != '\''
        } by {
            if i < a.len() {
                assert(escaped(s)[i] == a[i]);
            } else {
                assert(escaped(s)[i] == b[i - a.len()]);
            }
        }
        if forall|i: int| 0 <= i < s.len() ==> !is_html_special(#[trigger] s[i]) {
            assert(!is_html_special(s[s.len() - 1]));
            assert forall|i: int| 0 <= i < s.drop_last().len() implies !is_html_special(
                #[trigger] s.drop_last()[i],
            ) by {
                assert(s.drop_last()[i] == s[i]);
            }
            assert(escaped(s) =~= s);
        }
    } else {
        assert(escaped(s) =~= s);
    }
}

/// `n` stands in `h` starting at position `i`.
pub open spec fn occurs_at(h: Seq<char>, n: Seq<char>, i: int) -> bool {
    0 <= i && i + n.len() <= h.len() && h.subrange(i, i + n.len()) == n
}

/// The first position at or after `i` where `n` stands in `h`.
pub open spec fn find_from(h: Seq<char>, n: Seq<char>, i: int) -> Option<int>
    decreases h.len() + 1 - i,
{
    if i < 0 || i + n.len() > h.len() {
        None
    } else if occurs_at(h, n, i) {
        Some(i)
    } else {
        find_from(h, n, i + 1)
    }
}

/// `n` occurs somewhere in `h`.
pub open spec fn contains(h: Seq<char>, n: Seq<char>) -> bool {
    find_from(h, n, 0) is Some
}

pub(crate) fn occurs_at_exec(h: &Vec<char>, n: &Vec<char>, i: usize) -> (r: bool)
    requires
        i + n@.len() <= h@.len(),
    ensures
        r == occurs_at(h@, n@, i as int),
{
    let hl = h.len();
    let mut j: usize = 0;
    while j < n.len()
        invariant
            hl == h@.len(),
            i + n@.len() <= h@.len(),
            j <= n@.len(),
            forall|k: int| 0 <= k < j ==> h@[i + k] == n@[k],
        decreases n@.len() - j,
    {
        if h[i + j] != n[j] {
            assert(h@.subrange(i as int, i + n@.len())[j as int] != n@[j as int]);
            return false;
        }
        j = j + 1;
    }
    assert(h@.subrange(i as int, i + n@.len()) =~= n@);
    true
}

/// The first position at or after `start` where `n` stands in `h`.
pub fn find_chars(h: &Vec<char>, n: &Vec<char>, start: usize) -> (r: Option<usize>)
    ensures
        match r {
            Some(k) => find_from(h@, n@, start as int) == Some(k as int),
            None => find_from(h@, n@, start as int) is None,
        },
{
    let mut i = start;
    while i <= h.len() && n.len() <= h.len() - i
        invariant
            find_from(h@, n@, start as int) == find_from(h@, n@, i as int),
            start <= i,
        decreases h@.len() + 1 - i,
    {
        if occurs_at_exec(h, n, i) {
            return Some(i);
        }
        if n.len() == 0 {
            assert(h@.subrange(i as int, i as int) =~= n@);
        }
        i = i + 1;
    }
    None
}

/// Where `n` is found from `i`, it stands there, at or after `i`.
pub proof fn lemma_find_from_bounds(h: Seq<char>, n: Seq<char>, i: int)
    ensures
        match find_from(h, n, i) {
            Some(k) => i <= k && k + n.len() <= h.len() && occurs_at(h, n, k),
            None => true,
        },
    decreases h.len() + 1 - i,
{
    if !(i < 0 || i + n.len() > h.len()) && !occurs_at(h, n, i) {
        lemma_find_from_bounds(h, n, i + 1);
    }
}

/// Whether `needle` occurs in `hay`.
pub fn contains_text(hay: &str, needle: &str) -> (r: bool)
    ensures
        r == contains(hay@, needle@),
{
    let h = chars_of(hay);
    let n = chars_of(needle);
    find_chars(&h, &n, 0).is_some()
}

/// Whether two texts hold the same characters.
pub fn same_text(a: &str, b: &str) -> (r: bool)
    ensures
        r == (a@ == b@),
{
    let x = chars_of(a);
    let y = chars_of(b);
    if x.len() != y.len() {
        return false;
    }
    let mut i: usize = 0;
    while i < x.len()
        invariant
            x@ == a@,
            y@ == b@,
            x@.len() == y@.len(),
            i <= x@.len(),
            forall|k: int| 0 <= k < i ==> x@[k] == y@[k],
        decreases x@.len() - i,
    {
        if x[i] != y[i] {
            assert(x@[i as int] != y@[i as int]);
            return false;
        }
        i = i + 1;
    }
    assert(x@ =~= y@);
    true
}

/// Text longer than `limit` characters cut to its first `limit` characters,
/// followed by an ellipsis.
pub open spec fn truncated(s: Seq<char>, limit: nat) -> Seq<char> {
    if s.len() > limit {
        s.take(limit as int) + "..."@
    } else {
        s
    }
}

/// Cuts text longer than `limit` characters to that many, followed by `...`.
pub fn truncate_chars(s: &str, limit: usize) -> (r: String)
    ensures
        r@ == truncated(s@, limit as nat),
        r@.len() <= limit + 3,
{
    proof {
        reveal_strlit("...");
    }
    let cs = chars_of(s);
    if cs.len() <= limit {
        return String::from_str(s);
    }
    let mut out = String::new();
    let mut i: usize = 0;
    while i < limit
        invariant
            i <= limit < cs@.len(),
            out@ == cs@.take(i as int),
        decreases limit - i,
    {
        push_char(&mut out, cs[i]);
        assert(cs@.take(i + 1) =~= cs@.take(i as int).push(cs@[i as int]));
        i = i + 1;
    }
    out.append("...");
    assert(cs@ == s@);
    out
}

/// `s` with every space replaced by an underscore.
pub open spec fn underscored(s: Seq<char>) -> Seq<char> {
    s.map_values(|c: char| if c == ' ' { '_' } else { c })
}

/// Replaces every space with an underscore.
pub fn underscore_spaces(s: &str) -> (r: String)
    ensures
        r@ == underscored(s@),
{
    let cs = chars_of(s);
    let mut out = String::new();
    let mut i: usize = 0;
    while i < cs.len()
        invariant
            i <= cs@.len(),
            out@ =~= underscored(cs@.take(i as int)),
        decreases cs@.len() - i,
    {
        let c = cs[i];
        if c == ' ' {
            push_char(&mut out, '_');
        } else {
            push_char(&mut out, c);
        }
        assert(underscored(cs@.take(i + 1)) =~= underscored(cs@.take(i as int)).push(
            if c == ' ' { '_' } else { c },
        ));
        i = i + 1;
    }
    assert(cs@.take(i as int) =~= s@);
    out
}

/// The decimal digit for `d` below ten.
pub open spec fn digit_char(d: nat) -> char {
    if d == 0 {
        '0'
    } else if d == 1 {
        '1'
    } else if d == 2 {
        '2'
    } else if d == 3 {
        '3'
    } else if d == 4 {
        '4'
    } else if d == 5 {
        '5'
    } else if d == 6 {
        '6'
    } else if d == 7 {
        '7'
    } else if d == 8 {
        '8'
    } else {
        '9'
    }
}

/// `n` written in decimal, without leading zeros.
pub open spec fn decimal(n: nat) -> Seq<char>
    decreases n,
{
    if n < 10 {
        seq![digit_char(n)]
    } else {
        decimal(n / 10).push(digit_char(n % 10))
    }
}

fn digit_exec(d: u64) -> (r: char)
    requires
        d < 10,
    ensures
        r == digit_char(d as nat),
{
    if d == 0 {
        '0'
    } else if d == 1 {
        '1'
    } else if d == 2 {
        '2'
    } else if d == 3 {
        '3'
    } else if d == 4 {
        '4'
    } else if d == 5 {
        '5'
    } else if d == 6 {
        '6'
    } else if d == 7 {
        '7'
    } else if d == 8 {
        '8'
    } else {
        '9'
    }
}

/// Appends `n` in decimal.
pub fn push_decimal(out: &mut String, n: u64)
    ensures
        final(out)@ == old(out)@ + decimal(n as nat),
    decreases n,
{
    let ghost start = out@;
    if n >= 10 {
        push_decimal(out, n / 10);
    }
    push_char(out, digit_exec(n % 10));
    assert(out@ =~= start + decimal(n as nat));
}

/// Whether a character has the Unicode White_Space property: tab through
/// carriage return, space, next line, no-break space, ogham space mark, the
/// spaces from en quad to hair space, line and paragraph separators, narrow
/// no-break space, medium mathematical space and ideographic space.
pub open spec fn white_space(c: char) -> bool {
    ('\u{0009}' <= c && c <= '\u{000D}') || c == '\u{0020}' || c == '\u{0085}' || c == '\u{00A0}'
        || c == '\u{1680}' || ('\u{2000}' <= c && c <= '\u{200A}') || c == '\u{2028}' || c
        == '\u{2029}' || c == '\u{202F}' || c == '\u{205F}' || c == '\u{3000}'
}

/// Whether a character has the Unicode White_Space property.
pub fn is_white_space(c: char) -> (r: bool)
    ensures
        r == white_space(c),
{
    ('\u{0009}' <= c && c <= '\u{000D}') || c == '\u{0020}' || c == '\u{0085}' || c == '\u{00A0}'
        || c == '\u{1680}' || ('\u{2000}' <= c && c <= '\u{200A}') || c == '\u{2028}' || c
        == '\u{2029}' || c == '\u{202F}' || c == '\u{205F}' || c == '\u{3000}'
}

/// `s` without its leading white space.
pub open spec fn trim_start(s: Seq<char>) -> Seq<char>
    decreases s.len(),
{
    if s.len() > 0 && white_space(s[0]) {
        trim_start(s.drop_first())
    } else {
        s
    }
}

/// `s` without its trailing white space.
pub open spec fn trim_end(s: Seq<char>) -> Seq<char>
    decreases s.len(),
{
    if s.len() > 0 && white_space(s.last()) {
        trim_end(s.drop_last())
    } else {
        s
    }
}

/// `s` without leading and trailing white space.
pub open spec fn trimmed(s: Seq<char>) -> Seq<char> {
    trim_end(trim_start(s))
}

/// The characters `cs[from..to]` as a string.
pub(crate) fn string_of_range(cs: &Vec<char>, from: usize, to: usize) -> (r: String)
    requires
        from <= to <= cs@.len(),
    ensures
        r@ == cs@.subrange(from as int, to as int),
{
    let mut out = String::new();
    let mut i = from;
    while i < to
        invariant
            from <= i <= to <= cs@.len(),
            out@ == cs@.subrange(from as int, i as int),
        decreases to - i,
    {
        push_char(&mut out, cs[i]);
        assert(cs@.subrange(from as int, i + 1) =~= cs@.subrange(from as int, i as int).push(
            cs@[i as int],
        ));
        i = i + 1;
    }
    out
}

/// `s` without leading and trailing white space.
pub fn trim_text(s: &str) -> (r: String)
    ensures
        r@ == trimmed(s@),
{
    let cs = chars_of(s);
    let mut i: usize = 0;
    assert(cs@.subrange(0, cs@.len() as int) =~= cs@);
    while i < cs.len() && is_white_space(cs[i])
        invariant
            i <= cs@.len(),
            trim_start(cs@) == trim_start(cs@.subrange(i as int, cs@.len() as int)),
        decreases cs@.len() - i,
    {
        assert(cs@.subrange(i as int, cs@.len() as int).drop_first() =~= cs@.subrange(
            i + 1,
            cs@.len() as int,
        ));
        i = i + 1;
    }
    assert(trim_start(cs@) == cs@.subrange(i as int, cs@.len() as int));
    let mut j: usize = cs.len();
    while j > i && is_white_space(cs[j - 1])
        invariant
            i <= j <= cs@.len(),
            trim_start(cs@) == cs@.subrange(i as int, cs@.len() as int),
            trimmed(cs@) == trim_end(cs@.subrange(i as int, j as int)),
        decreases j - i,
    {
        assert(cs@.subrange(i as int, j as int).drop_last() =~= cs@.subrange(i as int, j - 1));
        j = j - 1;
    }
    string_of_range(&cs, i, j)
}

/// The pieces of `s` between occurrences of `sep` (one piece when it holds none).
pub open spec fn split_on(s: Seq<char>, sep: char) -> Seq<Seq<char>>
    decreases s.len(),
{
    if s.len() == 0 {
        seq![Seq::empty()]
    } else {
        let p = split_on(s.drop_last(), sep);
        if s.last() == sep {
            p.push(Seq::empty())
        } else {
            p.update(p.len() - 1, p.last().push(s.last()))
        }
    }
}

/// There is always at least one piece.
pub proof fn lemma_split_nonempty(s: Seq<char>, sep: char)
    ensures
        split_on(s, sep).len() >= 1,
    decreases s.len(),
{
    if s.len() > 0 {
        lemma_split_nonempty(s.drop_last(), sep);
    }
}

/// The views of a list of strings.
pub open spec fn strings_view(v: Seq<String>) -> Seq<Seq<char>> {
    v.map_values(|t: String| t@)
}

/// The comma-separated pieces of `s`, each trimmed.
pub open spec fn trimmed_pieces(s: Seq<char>) -> Seq<Seq<char>> {
    split_on(s, ',').map_values(|p: Seq<char>| trimmed(p))
}

/// The pieces of `s` between occurrences of `sep`.
pub fn split_pieces(s: &str, sep: char) -> (r: Vec<String>)
    ensures
        strings_view(r@) == split_on(s@, sep),
{
    let cs = chars_of(s);
    let mut raw: Vec<String> = Vec::new();
    let mut cur = String::new();
    let mut i: usize = 0;
    while i < cs.len()
        invariant
            i <= cs@.len(),
            strings_view(raw@).push(cur@) == split_on(cs@.take(i as int), sep),
        decreases cs@.len() - i,
    {
        let ghost before = strings_view(raw@).push(cur@);
        proof {
            lemma_split_nonempty(cs@.take(i as int), sep);
            assert(cs@.take(i + 1).drop_last() =~= cs@.take(i as int));
            assert(cs@.take(i + 1).last() == cs@[i as int]);
        }
        if cs[i] == sep {
            let done = cur;
            raw.push(done);
            cur = String::new();
            assert(strings_view(raw@).push(cur@) =~= before.push(Seq::empty()));
        } else {
            push_char(&mut cur, cs[i]);
            assert(strings_view(raw@).push(cur@) =~= before.update(
                before.len() - 1,
                before.last().push(cs@[i as int]),
            ));
        }
        i = i + 1;
    }
    raw.push(cur);
    assert(cs@.take(i as int) =~= s@);
    assert(strings_view(raw@) =~= split_on(s@, sep));
    raw
}

/// Splits on commas and trims each piece.
pub fn split_trimmed(s: &str) -> (r: Vec<String>)
    ensures
        strings_view(r@) == trimmed_pieces(s@),
{
    let raw = split_pieces(s, ',');
    let mut out: Vec<String> = Vec::new();
    let mut k: usize = 0;
    while k < raw.len()
        invariant
            k <= raw@.len(),
            strings_view(raw@) == split_on(s@, ','),
            strings_view(out@) =~= trimmed_pieces(s@).take(k as int),
        decreases raw@.len() - k,
    {
        let t = trim_text(raw[k].as_str());
        let ghost prev = out@;
        let ghost tv = t@;
        out.push(t);
        assert(strings_view(out@) =~= strings_view(prev).push(tv));
        assert(strings_view(raw@)[k as int] == raw@[k as int]@);
        assert(trimmed_pieces(s@).len() == raw@.len());
        assert(trimmed_pieces(s@)[k as int] == trimmed(raw@[k as int]@));
        assert(strings_view(out@) =~= trimmed_pieces(s@).take(k + 1));
        k = k + 1;
    }
    out
}

/// Escaping works piece by piece.
pub proof fn lemma_escaped_concat(a: Seq<char>, b: Seq<char>)
    ensures
        escaped(a + b) == escaped(a) + escaped(b),
    decreases b.len(),
{
    if b.len() == 0 {
        assert(a + b =~= a);
        assert(escaped(a) + escaped(b) =~= escaped(a));
    } else {
        assert((a + b).drop_last() =~= a + b.drop_last());
        assert((a + b).last() == b.last());
        lemma_escaped_concat(a, b.drop_last());
        assert(escaped(a + b) =~= escaped(a) + escaped(b));
    }
}

/// An occurrence stays an occurrence when text is added around it.
pub proof fn lemma_occurs_shift(h: Seq<char>, n: Seq<char>, k: int, p: Seq<char>, q: Seq<char>)
    requires
        occurs_at(h, n, k),
    ensures
        occurs_at(p + h + q, n, p.len() + k),
{
    assert((p + h + q).subrange(p.len() + k, p.len() + k + n.len()) =~= h.subrange(k, k + n.len()));
}

/// A search from before an occurrence finds one.
pub proof fn lemma_occurs_found(h: Seq<char>, n: Seq<char>, k: int, i: int)
    requires
        occurs_at(h, n, k),
        0 <= i <= k,
    ensures
        find_from(h, n, i) is Some,
    decreases k - i,
{
    if i < k && !occurs_at(h, n, i) {
        lemma_occurs_found(h, n, k, i + 1);
    }
}

proof fn lemma_escaped_script_tag()
    ensures
        escaped("<script>"@) == "&lt;script&gt;"@,
{
    reveal_strlit("<script>");
    reveal_strlit("&lt;script&gt;");
    reveal_strlit("&lt;");
    reveal_strlit("&gt;");
    let lit = "<script>"@;
    assert(lit.take(1).drop_last() =~= lit.take(0));
    assert(escaped(lit.take(0)) =~= Seq::<char>::empty());
    assert(escaped(lit.take(1)) =~= "&lt;"@);
    assert(lit.take(2).drop_last() =~= lit.take(1));
    assert(escaped(lit.take(2)) =~= "&lt;"@ + lit.subrange(1, 2));
    assert(lit.take(3).drop_last() =~= lit.take(2));
    assert(escaped(lit.take(3)) =~= "&lt;"@ + lit.subrange(1, 3));
    assert(lit.take(4).drop_last() =~= lit.take(3));
    assert(escaped(lit.take(4)) =~= "&lt;"@ + lit.subrange(1, 4));
    assert(lit.take(5).drop_last() =~= lit.take(4));
    assert(escaped(lit.take(5)) =~= "&lt;"@ + lit.subrange(1, 5));
    assert(lit.take(6).drop_last() =~= lit.take(5));
    assert(escaped(lit.take(6)) =~= "&lt;"@ + lit.subrange(1, 6));
    assert(lit.take(7).drop_last() =~= lit.take(6));
    assert(escaped(lit.take(7)) =~= "&lt;"@ + lit.subrange(1, 7));
    assert(lit.take(8).drop_last() =~= lit.take(7));
    assert(lit.take(8) =~= lit);
    assert(escaped(lit) =~= "&lt;"@ + lit.subrange(1, 7) + "&gt;"@);
    assert(escaped(lit) =~= "&lt;script&gt;"@);
}

proof fn lemma_no_raw_lt_match(e: Seq<char>, n: Seq<char>)
    requires
        forall|i: int| 0 <= i < e.len() ==> #[trigger] e[i] != '<',
        n.len() > 0,
        n[0] == '<',
    ensures
        !contains(e, n),
{
    if contains(e, n) {
        lemma_find_from_bounds(e, n, 0);
        let j = find_from(e, n, 0)->0;
        assert(e.subrange(j, j + n.len())[0] == e[j]);
    }
}

/// Text holding `<script>` escapes to text holding `&lt;script&gt;` and no
/// raw `<script`.
pub proof fn lemma_script_escaped(s: Seq<char>)
    requires
        contains(s, "<script>"@),
    ensures
        contains(escaped(s), "&lt;script&gt;"@),
        !contains(escaped(s), "<script"@),
{
    reveal_strlit("<script>");
    reveal_strlit("<script");
    let lit = "<script>"@;
    lemma_find_from_bounds(s, lit, 0);
    let k = find_from(s, lit, 0)->0;
    let pre = s.take(k);
    let post = s.skip(k + 8);
    assert(s =~= pre + lit + post);
    lemma_escaped_concat(pre + lit, post);
    lemma_escaped_concat(pre, lit);
    lemma_escaped_script_tag();
    let e = "&lt;script&gt;"@;
    assert(occurs_at(escaped(lit), e, 0)) by {
        assert(escaped(lit).subrange(0, e.len() as int) =~= e);
    }
    lemma_occurs_shift(escaped(lit), e, 0, escaped(pre), escaped(post));
    assert(escaped(s) == escaped(pre) + escaped(lit) + escaped(post));
    lemma_occurs_found(escaped(s), e, escaped(pre).len() as int, 0);
    lemma_escape_safe(s);
    lemma_no_raw_lt_match(escaped(s), "<script"@);
}

} // verus!
