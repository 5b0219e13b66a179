//! Integer literals: the value of a literal's text as a 64-bit integer,
//! as `str::parse::<i64>` reads it.

use vstd::prelude::*;

use crate::text::chars_of;

verus! {

/// The value of a run of decimal digits.
pub open spec fn digits_value(s: Seq<char>) -> int
    decreases s.len(),
{
    if s.len() == 0 {
        0
    } else {
        digits_value(s.drop_last()) * 10 + (s.last() as int - '0' as int)
    }
}

pub open spec fn all_digits(s: Seq<char>) -> bool {
    forall|k: int| 0 <= k < s.len() ==> '0' <= #[trigger] s[k] <= '9'
}

/// The digits of a literal's text: without a leading `+` or `-`.
pub open spec fn literal_digits(s: Seq<char>) -> Seq<char> {
    if s.len() > 0 && (s[0] == '+' || s[0] == '-') {
        s.drop_first()
    } else {
        s
    }
}

/// The value `str::parse::<i64>` gives for `s`: an optional sign and at
/// least one decimal digit, within the range of `i64`; `None` otherwise.
pub open spec fn i64_literal(s: Seq<char>) -> Option<i64> {
    let body = literal_digits(s);
    let v = if s.len() > 0 && s[0] == '-' {
        -digits_value(body)
    } else {
        digits_value(body)
    };
    if body.len() == 0 || !all_digits(body) || v < i64::MIN || v > i64::MAX {
        None
    } else {
        Some(v as i64)
    }
}

proof fn lemma_digits_value_grows(s: Seq<char>, d: char)
    requires
        all_digits(s),
        '0' <= d <= '9',
    ensures
        digits_value(s.push(d)) >= digits_value(s),
        digits_value(s) >= 0,
    decreases s.len(),
{
    assert(s.push(d).drop_last() =~= s);
    if s.len() > 0 {
        assert(all_digits(s.drop_last()));
        lemma_digits_value_grows(s.drop_last(), s.last());
    }
}

/// The value of an integer literal's text (`i64_literal`).
pub fn parse_i64_literal(text: &str) -> (r: Option<i64>)
    ensures
        r == i64_literal(text@),
{
    let c = chars_of(text);
    let n = c.len();
    let mut start: usize = 0;
    let mut negative = false;
    if n > 0 && (c[0] == '+' || c[0] == '-') {
        negative = c[0] == '-';
        start = 1;
    }
    let ghost body = literal_digits(text@);
    proof {
        assert(body =~= c@.subrange(start as int, n as int));
    }
    if start == n {
        return None;
    }
    // The magnitude read so far, while it stays within 2^63.
    let mut acc: u64 = 0;
    let mut over = false;
    let mut i: usize = start;
    while i < n
        invariant
            start <= i <= n,
            n == c@.len(),
            body =~= c@.subrange(start as int, n as int),
            body == literal_digits(text@),
            c@ == text@,
            negative == (text@.len() > 0 && text@[0] == '-'),
            all_digits(c@.subrange(start as int, i as int)),
            !over ==> acc == digits_value(c@.subrange(start as int, i as int)),
            over ==> digits_value(c@.subrange(start as int, i as int)) > 0x8000_0000_0000_0000,
            acc <= 0x8000_0000_0000_0000,
        decreases n - i,
    {
        let ch = c[i];
        if !('0' <= ch && ch <= '9') {
            proof {
                assert(body[i - start] == ch);
                assert(!('0' <= body[i - start] <= '9'));
                assert(!all_digits(body));
            }
            return None;
        }
        let ghost prefix = c@.subrange(start as int, i as int);
        proof {
            assert(c@.subrange(start as int, i + 1) =~= prefix.push(ch));
            assert(prefix.push(ch).drop_last() =~= prefix);
            lemma_digits_value_grows(prefix, ch);
        }
        let d = (ch as u32 - '0' as u32) as u64;
        if !over {
            if acc > (0x8000_0000_0000_0000u64 - d) / 10 {
                over = true;
            } else {
                acc = acc * 10 + d;
            }
        }
        i = i + 1;
    }
    proof {
        assert(c@.subrange(start as int, n as int) =~= body);
    }
    if over {
        return None;
    }
    if negative {
        if acc == 0x8000_0000_0000_0000u64 {
            Some(i64::MIN)
        } else {
            Some(-(acc as i64))
        }
    } else if acc > 0x7fff_ffff_ffff_ffffu64 {
        None
    } else {
        Some(acc as i64)
    }
}

} // verus!
