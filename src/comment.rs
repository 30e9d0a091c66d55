//! Places the generator's HTML comment inside a page: at a text position
//! between tags, outside comments, scripts and styles, nested at least three
//! deep and in the middle three fifths of the page; the position is drawn by
//! a seed taken from the page itself, deeper positions weighing more.
use vstd::prelude::*;
use crate::text::{chars_of, occurs_at, occurs_at_exec, push_char};

verus! {

/// The comment that is placed.
pub const GENERATOR_COMMENT: &'static str = "\n<!-- Generated with SyMark, a static site generator for SiYuan Note. Available at https://github.com/du82/symark -->\n";

/// How many bytes UTF-8 spends on `c`.
pub open spec fn utf8_width(c: char) -> nat {
    if (c as u32) < 0x80 {
        1
    } else if (c as u32) < 0x800 {
        2
    } else if (c as u32) < 0x10000 {
        3
    } else {
        4
    }
}

/// The UTF-8 length of a text.
pub open spec fn byte_len(cs: Seq<char>) -> nat
    decreases cs.len(),
{
    if cs.len() == 0 {
        0
    } else {
        byte_len(cs.drop_last()) + utf8_width(cs.last())
    }
}

/// The sum of the code points of a text.
pub open spec fn code_sum(cs: Seq<char>) -> nat
    decreases cs.len(),
{
    if cs.len() == 0 {
        0
    } else {
        code_sum(cs.drop_last()) + (cs.last() as u32) as nat
    }
}

/// The scanner's state: tag depth and which kind of region it is in.
#[derive(Clone, Copy)]
pub struct Scan {
    pub depth: usize,
    pub in_tag: bool,
    pub in_comment: bool,
    pub in_script: bool,
    pub in_style: bool,
}

/// The position of the last `<` before position `k`.
pub open spec fn last_lt_before(cs: Seq<char>, k: int) -> Option<int>
    decreases k,
{
    if k <= 0 || k > cs.len() {
        None
    } else if cs[k - 1] == '<' {
        Some(k - 1)
    } else {
        last_lt_before(cs, k - 1)
    }
}

/// A position as an integer.
pub open spec fn as_pos(o: Option<usize>) -> Option<int> {
    match o {
        Some(j) => Some(j as int),
        None => None,
    }
}

/// The depth after the tag that closes at position `k`: an opening tag
/// deepens, a closing tag (`</...`) rises, a self-closing one (`.../>`) keeps it.
pub open spec fn depth_after_tag(cs: Seq<char>, k: int, d: usize) -> usize {
    let ts = match last_lt_before(cs, k) {
        Some(j) => j,
        None => k,
    };
    let closing = ts + 1 <= k && cs[ts] == '<' && cs[ts + 1] == '/';
    let self_closing = ts < k && cs[k - 1] == '/';
    if !closing && !self_closing {
        (d + 1) as usize
    } else if closing {
        if d > 0 {
            (d - 1) as usize
        } else {
            d
        }
    } else {
        d
    }
}

/// The state after the character at position `k`.
pub open spec fn step(cs: Seq<char>, k: int, s: Scan) -> Scan {
    let c = cs[k];
    if c == '<' {
        if s.in_comment {
            s
        } else if occurs_at(cs, "<!--"@, k) {
            Scan { in_tag: true, in_comment: true, ..s }
        } else if occurs_at(cs, "<script"@, k) {
            Scan { in_tag: true, in_script: true, ..s }
        } else if occurs_at(cs, "<style"@, k) {
            Scan { in_tag: true, in_style: true, ..s }
        } else if occurs_at(cs, "</script>"@, k) {
            Scan { in_tag: true, in_script: false, ..s }
        } else if occurs_at(cs, "</style>"@, k) {
            Scan { in_tag: true, in_style: false, ..s }
        } else {
            Scan { in_tag: true, ..s }
        }
    } else if c == '>' {
        if s.in_comment && byte_len(cs.take(k)) > 2 && k >= 2 && cs[k - 1] == '-' && cs[k - 2]
            == '-' {
            Scan { in_comment: false, in_tag: false, ..s }
        } else if s.in_tag && !s.in_comment {
            if k > 0 {
                Scan { in_tag: false, depth: depth_after_tag(cs, k, s.depth), ..s }
            } else {
                Scan { in_tag: false, ..s }
            }
        } else {
            s
        }
    } else {
        s
    }
}

/// Position `k`, in state `s` after it, is a candidate.
pub open spec fn is_candidate(cs: Seq<char>, k: int, s: Scan) -> bool {
    let c = cs[k];
    let off = byte_len(cs.take(k));
    let total = byte_len(cs);
    !s.in_tag && !s.in_comment && !s.in_script && !s.in_style && (c == '\n' || c == ' ' || c
        == '>') && s.depth >= 3 && 5 * off > total && 5 * off < 4 * total
}

/// The candidates from position `k` on, from state `s`: (position, depth).
pub open spec fn candidates(cs: Seq<char>, k: int, s: Scan) -> Seq<(usize, usize)>
    decreases cs.len() - k,
{
    if k < 0 || k >= cs.len() {
        Seq::empty()
    } else {
        let s2 = step(cs, k, s);
        (if is_candidate(cs, k, s2) {
            seq![(k as usize, s2.depth)]
        } else {
            Seq::empty()
        }) + candidates(cs, k + 1, s2)
    }
}

pub open spec fn start_scan() -> Scan {
    Scan { depth: 0, in_tag: false, in_comment: false, in_script: false, in_style: false }
}

/// The total weight of candidates: each weighs its depth squared.
pub open spec fn weight(ps: Seq<(usize, usize)>) -> nat
    decreases ps.len(),
{
    if ps.len() == 0 {
        0
    } else {
        (ps[0].1 as nat) * (ps[0].1 as nat) + weight(ps.drop_first())
    }
}

/// The candidate whose share of the weight holds `idx`.
pub open spec fn pick(ps: Seq<(usize, usize)>, idx: nat) -> int
    decreases ps.len(),
{
    if ps.len() == 0 {
        0
    } else if idx < (ps[0].1 as nat) * (ps[0].1 as nat) {
        ps[0].0 as int
    } else {
        pick(ps.drop_first(), (idx - (ps[0].1 as nat) * (ps[0].1 as nat)) as nat)
    }
}

/// The first position from `k` on whose byte offset reaches `mid`.
pub open spec fn boundary_from(cs: Seq<char>, k: int, mid: nat) -> int
    decreases cs.len() - k,
{
    if k < 0 || k >= cs.len() || byte_len(cs.take(k)) >= mid {
        k
    } else {
        boundary_from(cs, k + 1, mid)
    }
}

/// The page with the comment placed: after the drawn candidate, or, when
/// there is none (or their weight exceeds a machine word), at the first
/// character boundary from the middle byte on.
pub open spec fn commented(cs: Seq<char>) -> Seq<char> {
    let ps = candidates(cs, 0, start_scan());
    let w = weight(ps);
    if 0 < w && w <= usize::MAX {
        let k = pick(ps, (byte_len(cs) + code_sum(cs)) % w);
        cs.take(k + 1) + GENERATOR_COMMENT@ + cs.skip(k + 1)
    } else {
        let j = boundary_from(cs, 0, byte_len(cs) / 2);
        cs.take(j) + GENERATOR_COMMENT@ + cs.skip(j)
    }
}

pub(crate) fn utf8_width_exec(c: char) -> (r: u128)
    ensures
        r as nat == utf8_width(c),
        1 <= r <= 4,
{
    if (c as u32) < 0x80 {
        1
    } else if (c as u32) < 0x800 {
        2
    } else if (c as u32) < 0x10000 {
        3
    } else {
        4
    }
}

fn starts_at(cs: &Vec<char>, lit: &str, k: usize) -> (r: bool)
    requires
        k < cs@.len(),
    ensures
        r == occurs_at(cs@, lit@, k as int),
{
    let l = chars_of(lit);
    if l.len() > cs.len() - k {
        return false;
    }
    occurs_at_exec(cs, &l, k)
}

fn step_exec(cs: &Vec<char>, k: usize, s: Scan, last_lt: Option<usize>, off: u128) -> (r: Scan)
    requires
        k < cs@.len(),
        s.depth <= k,
        as_pos(last_lt) == last_lt_before(cs@, k as int),
        off as nat == byte_len(cs@.take(k as int)),
    ensures
        r == step(cs@, k as int, s),
        r.depth <= k + 1,
{
    let n = cs.len();
    let c = cs[k];
    if c == '<' {
        if s.in_comment {
            s
        } else if starts_at(cs, "<!--", k) {
            Scan { in_tag: true, in_comment: true, ..s }
        } else if starts_at(cs, "<script", k) {
            Scan { in_tag: true, in_script: true, ..s }
        } else if starts_at(cs, "<style", k) {
            Scan { in_tag: true, in_style: true, ..s }
        } else if starts_at(cs, "</script>", k) {
            Scan { in_tag: true, in_script: false, ..s }
        } else if starts_at(cs, "</style>", k) {
            Scan { in_tag: true, in_style: false, ..s }
        } else {
            Scan { in_tag: true, ..s }
        }
    } else if c == '>' {
        if s.in_comment && off > 2 && k >= 2 && cs[k - 1] == '-' && cs[k - 2] == '-' {
            Scan { in_comment: false, in_tag: false, ..s }
        } else if s.in_tag && !s.in_comment {
            if k > 0 {
                let ts = match last_lt {
                    Some(j) => j,
                    None => k,
                };
                proof {
                    lemma_last_lt_bound(cs@, k as int);
                }
                let closing = ts + 1 <= k && cs[ts] == '<' && cs[ts + 1] == '/';
                let self_closing = ts < k && cs[k - 1] == '/';
                let d = if !closing && !self_closing {
                    s.depth + 1
                } else if closing {
                    if s.depth > 0 {
                        s.depth - 1
                    } else {
                        s.depth
                    }
                } else {
                    s.depth
                };
                Scan { in_tag: false, depth: d, ..s }
            } else {
                Scan { in_tag: false, ..s }
            }
        } else {
            s
        }
    } else {
        s
    }
}

proof fn lemma_byte_len_bound(cs: Seq<char>)
    ensures
        cs.len() <= byte_len(cs) <= 4 * cs.len(),
    decreases cs.len(),
{
    if cs.len() > 0 {
        lemma_byte_len_bound(cs.drop_last());
    }
}

proof fn lemma_last_lt_bound(cs: Seq<char>, k: int)
    ensures
        match last_lt_before(cs, k) {
            Some(j) => 0 <= j < k && cs[j] == '<',
            None => true,
        },
    decreases k,
{
    if k > 0 && k <= cs.len() && cs[k - 1] != '<' {
        lemma_last_lt_bound(cs, k - 1);
    }
}

proof fn lemma_code_sum_bound(cs: Seq<char>)
    ensures
        code_sum(cs) <= 0xFFFF_FFFF * cs.len(),
    decreases cs.len(),
{
    if cs.len() > 0 {
        lemma_code_sum_bound(cs.drop_last());
    }
}

fn push_range(out: &mut String, cs: &Vec<char>, from: usize, to: usize)
    requires
        from <= to <= cs@.len(),
    ensures
        final(out)@ == old(out)@ + cs@.subrange(from as int, to as int),
{
    let ghost start = out@;
    let mut i = from;
    while i < to
        invariant
            from <= i <= to <= cs@.len(),
            out@ == start + cs@.subrange(from as int, i as int),
        decreases to - i,
    {
        push_char(out, cs[i]);
        assert(cs@.subrange(from as int, i + 1) =~= cs@.subrange(from as int, i as int).push(
            cs@[i as int],
        ));
        assert(out@ =~= start + cs@.subrange(from as int, i + 1));
        i = i + 1;
    }
}

/// Inserts the generator comment into a page.
pub fn comment_processor(html: &str) -> (r: String)
    ensures
        r@ == commented(html@),
{
    let cs = chars_of(html);
    let n = cs.len();
    proof {
        lemma_byte_len_bound(cs@);
        lemma_code_sum_bound(cs@);
    }
    let mut total: u128 = 0;
    let mut codes: u128 = 0;
    let mut i: usize = 0;
    while i < n
        invariant
            n == cs@.len(),
            i <= n,
            total as nat == byte_len(cs@.take(i as int)),
            codes as nat == code_sum(cs@.take(i as int)),
            total <= 4 * i,
            codes <= 0xFFFF_FFFF * i,
        decreases n - i,
    {
        proof {
            assert(cs@.take(i + 1).drop_last() =~= cs@.take(i as int));
            assert(cs@.take(i + 1).last() == cs@[i as int]);
        }
        total = total + utf8_width_exec(cs[i]);
        codes = codes + (cs[i] as u32) as u128;
        i = i + 1;
    }
    assert(cs@.take(n as int) =~= cs@);
    let ghost all = candidates(cs@, 0, start_scan());
    let mut points: Vec<(usize, usize)> = Vec::new();
    let mut s = Scan { depth: 0, in_tag: false, in_comment: false, in_script: false, in_style: false };
    let mut last_lt: Option<usize> = None;
    let mut off: u128 = 0;
    let mut k: usize = 0;
    while k < n
        invariant
            n == cs@.len(),
            cs@ == html@,
            k <= n,
            total as nat == byte_len(cs@),
            codes as nat == code_sum(cs@),
            total <= 4 * n,
            codes <= 0xFFFF_FFFF * n,
            s.depth <= k,
            as_pos(last_lt) == last_lt_before(cs@, k as int),
            off as nat == byte_len(cs@.take(k as int)),
            off <= 4 * k,
            points@ + candidates(cs@, k as int, s) == all,
            forall|j: int| 0 <= j < points@.len() ==> (#[trigger] points@[j]).0 < k,
        decreases n - k,
    {
        let c = cs[k];
        let s2 = step_exec(&cs, k, s, last_lt, off);
        let ghost before = points@;
        let candidate = !s2.in_tag && !s2.in_comment && !s2.in_script && !s2.in_style && (c == '\n'
            || c == ' ' || c == '>') && s2.depth >= 3 && 5 * off > total && 5 * off < 4 * total;
        if candidate {
            points.push((k, s2.depth));
        }
        proof {
            assert(before + candidates(cs@, k as int, s) =~= points@ + candidates(
                cs@,
                k + 1,
                s2,
            ));
            assert(cs@.take(k + 1).drop_last() =~= cs@.take(k as int));
            assert(cs@.take(k + 1).last() == c);
        }
        if c == '<' {
            last_lt = Some(k);
        }
        off = off + utf8_width_exec(c);
        s = s2;
        k = k + 1;
    }
    assert(points@ =~= all);
    let mut w: u128 = 0;
    let mut j: usize = 0;
    let mut fits = true;
    assert(all.subrange(0, all.len() as int) =~= all);
    while fits && j < points.len()
        invariant
            points@ == all,
            j <= points@.len(),
            n == cs@.len(),
            cs@ == html@,
            all == candidates(cs@, 0, start_scan()),
            total as nat == byte_len(cs@),
            codes as nat == code_sum(cs@),
            total <= 4 * n,
            codes <= 0xFFFF_FFFF * n,
            forall|t: int| 0 <= t < points@.len() ==> (#[trigger] points@[t]).0 < n,
            fits ==> w as nat + weight(all.subrange(j as int, all.len() as int)) == weight(all),
            fits ==> w <= usize::MAX,
            !fits ==> weight(all) > usize::MAX,
        decreases points@.len() - j + if fits {
            1int
        } else {
            0int
        },
    {
        let d = points[j].1 as u128;
        assert(all.subrange(j as int, all.len() as int).drop_first() =~= all.subrange(
            j + 1,
            all.len() as int,
        ));
        assert(d * d <= 0xFFFF_FFFF_FFFF_FFFE_0000_0000_0000_0001) by (nonlinear_arith)
            requires
                d <= 0xFFFF_FFFF_FFFF_FFFF,
        ;
        if w + d * d > usize::MAX as u128 {
            fits = false;
        } else {
            w = w + d * d;
            j = j + 1;
        }
    }
    let mut out = String::new();
    if fits && w > 0 {
        assert(all.subrange(j as int, all.len() as int) =~= Seq::<(usize, usize)>::empty());
        let seed = total + codes;
        let mut idx = seed % w;
        let mut q: usize = 0;
        let ghost target = pick(all, ((byte_len(cs@) + code_sum(cs@)) % weight(all)) as nat);
        assert(w as nat == weight(all));
        assert(all.subrange(0, all.len() as int) =~= all);
        while q < points.len()
            invariant
                points@ == all,
                q <= points@.len(),
                idx < weight(all.subrange(q as int, all.len() as int)),
                pick(all.subrange(q as int, all.len() as int), idx as nat) == target,
                n == cs@.len(),
                cs@ == html@,
                out@ == Seq::<char>::empty(),
                all == candidates(cs@, 0, start_scan()),
                0 < weight(all) <= usize::MAX,
                target == pick(all, ((byte_len(cs@) + code_sum(cs@)) % weight(all)) as nat),
                forall|t: int| 0 <= t < points@.len() ==> (#[trigger] points@[t]).0 < n,
            decreases points@.len() - q,
        {
            let d = points[q].1 as u128;
            assert(d * d <= 0xFFFF_FFFF_FFFF_FFFE_0000_0000_0000_0001) by (nonlinear_arith)
                requires
                    d <= 0xFFFF_FFFF_FFFF_FFFF,
            ;
            assert(all.subrange(q as int, all.len() as int).drop_first() =~= all.subrange(
                q + 1,
                all.len() as int,
            ));
            assert(all.subrange(q as int, all.len() as int)[0] == points@[q as int]);
            if idx < d * d {
                let pos = points[q].0;
                proof {
                    let sub = all.subrange(q as int, all.len() as int);
                    assert((sub[0].1 as nat) * (sub[0].1 as nat) == (d * d) as nat);
                    assert(pick(sub, idx as nat) == sub[0].0 as int);
                    assert(target == pos as int);
                }
                push_range(&mut out, &cs, 0, pos + 1);
                out.append(GENERATOR_COMMENT);
                push_range(&mut out, &cs, pos + 1, n);
                assert(cs@.skip(pos + 1) =~= cs@.subrange(pos + 1, n as int));
                assert(cs@.take(pos + 1) =~= cs@.subrange(0, pos + 1));
                assert(out@ =~= cs@.take(pos + 1) + GENERATOR_COMMENT@ + cs@.skip(pos + 1));
                proof {
                    let hs = html@;
                    let ps = candidates(hs, 0, start_scan());
                    assert(ps == all);
                    let wt = weight(ps);
                    assert(0 < wt && wt <= usize::MAX);
                    let kk = pick(ps, (byte_len(hs) + code_sum(hs)) % wt);
                    assert(kk == target);
                    assert(commented(hs) == hs.take(kk + 1) + GENERATOR_COMMENT@ + hs.skip(kk + 1));
                }
                return out;
            }
            idx = idx - d * d;
            q = q + 1;
        }
        assert(false);
    }
    let mid = total / 2;
    let mut b: usize = 0;
    let mut boff: u128 = 0;
    assert(!(0 < weight(all) && weight(all) <= usize::MAX) ==> boundary_from(cs@, 0, (byte_len(cs@) / 2) as nat) == boundary_from(cs@, b as int, (byte_len(cs@) / 2) as nat));
    while b < n && boff < mid
        invariant
            n == cs@.len(),
            b <= n,
            boff as nat == byte_len(cs@.take(b as int)),
            boff <= 4 * b,
            mid as nat == byte_len(cs@) / 2,
            boundary_from(cs@, 0, mid as nat) == boundary_from(cs@, b as int, mid as nat),
        decreases n - b,
    {
        assert(cs@.take(b + 1).drop_last() =~= cs@.take(b as int));
        assert(cs@.take(b + 1).last() == cs@[b as int]);
        boff = boff + utf8_width_exec(cs[b]);
        b = b + 1;
    }
    push_range(&mut out, &cs, 0, b);
    out.append(GENERATOR_COMMENT);
    push_range(&mut out, &cs, b, n);
    assert(cs@.skip(b as int) =~= cs@.subrange(b as int, n as int));
    assert(cs@.take(b as int) =~= cs@.subrange(0, b as int));
    out
}

} // verus!
