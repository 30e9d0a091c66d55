//! Human-readable dates from compact (`20240131T1530...`) and ISO
//! (`2024-01-31T15:30...`) timestamps.
use vstd::prelude::*;
use crate::text::{chars_of, decimal, push_char, push_decimal};

verus! {

pub open spec fn is_digit(c: char) -> bool {
    '0' <= c && c <= '9'
}

pub open spec fn digit_value(c: char) -> nat {
    (c as u32 - '0' as u32) as nat
}

/// The value of a run of decimal digits.
pub open spec fn digits_value(s: Seq<char>) -> nat
    decreases s.len(),
{
    if s.len() == 0 {
        0
    } else {
        digits_value(s.drop_last()) * 10 + digit_value(s.last())
    }
}

pub open spec fn all_digits(s: Seq<char>) -> bool {
    forall|i: int| 0 <= i < s.len() ==> is_digit(#[trigger] s[i])
}

/// A short unsigned number: an optional `+`, then one or more digits.
pub open spec fn parse_number(s: Seq<char>) -> Option<nat> {
    let body = if s.len() > 0 && s[0] == '+' {
        s.drop_first()
    } else {
        s
    };
    if body.len() > 0 && all_digits(body) {
        Some(digits_value(body))
    } else {
        None
    }
}

pub open spec fn month_name(m: nat) -> Seq<char> {
    if m == 1 {
        "January"@
    } else if m == 2 {
        "February"@
    } else if m == 3 {
        "March"@
    } else if m == 4 {
        "April"@
    } else if m == 5 {
        "May"@
    } else if m == 6 {
        "June"@
    } else if m == 7 {
        "July"@
    } else if m == 8 {
        "August"@
    } else if m == 9 {
        "September"@
    } else if m == 10 {
        "October"@
    } else if m == 11 {
        "November"@
    } else if m == 12 {
        "December"@
    } else {
        "Unknown"@
    }
}

/// A day number with its English ordinal suffix.
pub open spec fn ordinal(d: nat) -> Seq<char> {
    decimal(d) + if d == 1 || d == 21 || d == 31 {
        "st"@
    } else if d == 2 || d == 22 {
        "nd"@
    } else if d == 3 || d == 23 {
        "rd"@
    } else {
        "th"@
    }
}

/// ` at h:mm AM` or ` at h:mm PM` on a twelve-hour clock.
pub open spec fn clock(hour: nat, minute: nat) -> Seq<char> {
    let h12: nat = if hour == 0 {
        12
    } else if hour > 12 {
        (hour - 12) as nat
    } else {
        hour
    };
    " at "@ + decimal(h12) + ":"@ + (if minute < 10 {
        "0"@
    } else {
        Seq::empty()
    }) + decimal(minute) + (if hour >= 12 {
        " PM"@
    } else {
        " AM"@
    })
}

/// A number of the date, or `fallback` where it does not parse.
pub open spec fn number_or(s: Seq<char>, fallback: nat) -> nat {
    match parse_number(s) {
        Some(v) => v,
        None => fallback,
    }
}

/// The readable form of a timestamp; text in neither format comes back as it is.
pub open spec fn naturalized(s: Seq<char>) -> Seq<char> {
    if s.len() == 0 {
        "Unknown date"@
    } else if s.len() >= 8 && all_digits(s.take(8)) {
        let base = month_name(digits_value(s.subrange(4, 6))) + " "@ + ordinal(
            digits_value(s.subrange(6, 8)),
        ) + ", "@ + s.subrange(0, 4);
        if s.len() >= 14 && s[8] == 'T' {
            base + clock(number_or(s.subrange(9, 11), 0), number_or(s.subrange(11, 13), 0))
        } else {
            base
        }
    } else if s.len() >= 10 && s[4] == '-' && s[7] == '-' {
        match (
            parse_number(s.subrange(0, 4)),
            parse_number(s.subrange(5, 7)),
            parse_number(s.subrange(8, 10)),
        ) {
            (Some(y), Some(m), Some(d)) => {
                let base = month_name(m) + " "@ + ordinal(d) + ", "@ + decimal(y);
                if s.len() >= 16 && s[10] == 'T' {
                    match (parse_number(s.subrange(11, 13)), parse_number(s.subrange(14, 16))) {
                        (Some(h), Some(mi)) => base + clock(h, mi),
                        _ => base,
                    }
                } else {
                    base
                }
            },
            _ => s,
        }
    } else {
        s
    }
}

fn digits_exec(cs: &Vec<char>, from: usize, to: usize) -> (r: Option<u32>)
    requires
        from <= to <= cs@.len(),
        to - from <= 4,
    ensures
        match r {
            Some(v) => all_digits(cs@.subrange(from as int, to as int)) && v as nat == digits_value(
                cs@.subrange(from as int, to as int),
            ),
            None => !all_digits(cs@.subrange(from as int, to as int)),
        },
{
    let mut v: u32 = 0;
    let mut i = from;
    while i < to
        invariant
            from <= i <= to <= cs@.len(),
            to - from <= 4,
            all_digits(cs@.subrange(from as int, i as int)),
            v as nat == digits_value(cs@.subrange(from as int, i as int)),
            v < 10000,
            i - from <= 4,
            v <= 9999 && (i == from ==> v == 0) && (i - from <= 3 ==> v < 1000) && (i - from <= 2
                ==> v < 100) && (i - from <= 1 ==> v < 10),
        decreases to - i,
    {
        let c = cs[i];
        if !('0' <= c && c <= '9') {
            assert(cs@.subrange(from as int, to as int)[i - from] == c);
            return None;
        }
        let d = (c as u32) - ('0' as u32);
        assert(cs@.subrange(from as int, i + 1).drop_last() =~= cs@.subrange(from as int, i as int));
        assert(cs@.subrange(from as int, i + 1).last() == c);
        v = v * 10 + d;
        i = i + 1;
    }
    Some(v)
}

fn parse_exec(cs: &Vec<char>, from: usize, to: usize) -> (r: Option<u32>)
    requires
        from <= to <= cs@.len(),
        to - from <= 4,
    ensures
        match r {
            Some(v) => parse_number(cs@.subrange(from as int, to as int)) == Some(v as nat),
            None => parse_number(cs@.subrange(from as int, to as int)) is None,
        },
{
    let ghost s = cs@.subrange(from as int, to as int);
    let start = if from < to && cs[from] == '+' {
        from + 1
    } else {
        from
    };
    assert(s.len() > 0 && s[0] == '+' ==> s.drop_first() =~= cs@.subrange(start as int, to as int));
    assert(!(s.len() > 0 && s[0] == '+') ==> s =~= cs@.subrange(start as int, to as int));
    if start == to {
        return None;
    }
    digits_exec(cs, start, to)
}

fn month_str(m: u32) -> (r: &'static str)
    ensures
        r@ == month_name(m as nat),
{
    if m == 1 {
        "January"
    } else if m == 2 {
        "February"
    } else if m == 3 {
        "March"
    } else if m == 4 {
        "April"
    } else if m == 5 {
        "May"
    } else if m == 6 {
        "June"
    } else if m == 7 {
        "July"
    } else if m == 8 {
        "August"
    } else if m == 9 {
        "September"
    } else if m == 10 {
        "October"
    } else if m == 11 {
        "November"
    } else if m == 12 {
        "December"
    } else {
        "Unknown"
    }
}

fn push_ordinal(out: &mut String, d: u32)
    ensures
        final(out)@ == old(out)@ + ordinal(d as nat),
{
    let ghost start = out@;
    push_decimal(out, d as u64);
    if d == 1 || d == 21 || d == 31 {
        out.append("st");
    } else if d == 2 || d == 22 {
        out.append("nd");
    } else if d == 3 || d == 23 {
        out.append("rd");
    } else {
        out.append("th");
    }
    assert(out@ =~= start + ordinal(d as nat));
}

fn push_clock(out: &mut String, hour: u32, minute: u32)
    ensures
        final(out)@ == old(out)@ + clock(hour as nat, minute as nat),
{
    let ghost start = out@;
    let h12: u32 = if hour == 0 {
        12
    } else if hour > 12 {
        hour - 12
    } else {
        hour
    };
    out.append(" at ");
    push_decimal(out, h12 as u64);
    out.append(":");
    if minute < 10 {
        out.append("0");
    }
    push_decimal(out, minute as u64);
    if hour >= 12 {
        out.append(" PM");
    } else {
        out.append(" AM");
    }
    assert(out@ =~= start + clock(hour as nat, minute as nat));
}

fn push_range(out: &mut String, cs: &Vec<char>, from: usize, to: usize)
    requires
        from <= to <= cs@.len(),
    ensures
        final(out)@ == old(out)@ + cs@.subrange(from as int, to as int),
{
    let ghost start = out@;
    let mut i = from;
    while i < to
        invariant
            from <= i <= to <= cs@.len(),
            out@ == start + cs@.subrange(from as int, i as int),
        decreases to - i,
    {
        push_char(out, cs[i]);
        assert(cs@.subrange(from as int, i + 1) =~= cs@.subrange(from as int, i as int).push(
            cs@[i as int],
        ));
        assert(out@ =~= start + cs@.subrange(from as int, i + 1));
        i = i + 1;
    }
}

/// A readable date such as `January 31st, 2024 at 3:30 PM`, from a compact
/// or ISO timestamp; other text is returned unchanged.
pub fn naturalize_date(date_str: &str) -> (r: String)
    ensures
        r@ == naturalized(date_str@),
{
    proof {
        reveal_strlit("Unknown date");
    }
    let cs = chars_of(date_str);
    let n = cs.len();
    let mut out = String::new();
    if n == 0 {
        out.append("Unknown date");
        return out;
    }
    if n >= 8 {
        if let Some(_) = digits_exec(&cs, 0, 4) {
            if let Some(month) = digits_exec(&cs, 4, 6) {
                if let Some(day) = digits_exec(&cs, 6, 8) {
                    proof {
                        let s = cs@;
                        assert forall|i: int| 0 <= i < 8 implies is_digit(#[trigger] s.take(8)[i]) by {
                            if i < 4 {
                                assert(s.subrange(0, 4)[i] == s[i]);
                            } else if i < 6 {
                                assert(s.subrange(4, 6)[i - 4] == s[i]);
                            } else {
                                assert(s.subrange(6, 8)[i - 6] == s[i]);
                            }
                        }
                    }
                    out.append(month_str(month));
                    out.append(" ");
                    push_ordinal(&mut out, day);
                    out.append(", ");
                    push_range(&mut out, &cs, 0, 4);
                    if n >= 14 && cs[8] == 'T' {
                        let hour = match parse_exec(&cs, 9, 11) {
                            Some(h) => h,
                            None => 0,
                        };
                        let minute = match parse_exec(&cs, 11, 13) {
                            Some(m) => m,
                            None => 0,
                        };
                        push_clock(&mut out, hour, minute);
                    }
                    assert(out@ =~= naturalized(date_str@));
                    return out;
                }
            }
        }
        proof {
            let s = cs@;
            if all_digits(s.take(8)) {
                assert(all_digits(s.subrange(0, 4))) by {
                    assert forall|i: int| 0 <= i < 4 implies is_digit(#[trigger] s.subrange(0, 4)[i]) by {
                        assert(s.take(8)[i] == s[i]);
                    }
                }
                assert(all_digits(s.subrange(4, 6))) by {
                    assert forall|i: int| 0 <= i < 2 implies is_digit(#[trigger] s.subrange(4, 6)[i]) by {
                        assert(s.take(8)[i + 4] == s[i + 4]);
                    }
                }
                assert(all_digits(s.subrange(6, 8))) by {
                    assert forall|i: int| 0 <= i < 2 implies is_digit(#[trigger] s.subrange(6, 8)[i]) by {
                        assert(s.take(8)[i + 6] == s[i + 6]);
                    }
                }
            }
        }
    }
    if n >= 10 && cs[4] == '-' && cs[7] == '-' {
        let y = parse_exec(&cs, 0, 4);
        let m = parse_exec(&cs, 5, 7);
        let d = parse_exec(&cs, 8, 10);
        if let (Some(year), Some(month), Some(day)) = (y, m, d) {
            out.append(month_str(month));
            out.append(" ");
            push_ordinal(&mut out, day);
            out.append(", ");
            push_decimal(&mut out, year as u64);
            if n >= 16 && cs[10] == 'T' {
                let h = parse_exec(&cs, 11, 13);
                let mi = parse_exec(&cs, 14, 16);
                if let (Some(hour), Some(minute)) = (h, mi) {
                    push_clock(&mut out, hour, minute);
                }
            }
            assert(out@ =~= naturalized(date_str@));
            return out;
        }
    }
    String::from_str(date_str)
}

} // verus!
