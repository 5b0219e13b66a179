//! Editor positions (1-based line and column) in a document's text.

use vstd::prelude::*;

use crate::text::{char_utf8_width, chars_of, lemma_utf8_len_push, string_of_range, utf8_len, utf8_width};

verus! {

/// The first position at or after `from` that holds a newline.
pub open spec fn next_newline(cs: Seq<char>, from: int) -> Option<int>
    decreases cs.len() - from,
{
    if from >= cs.len() {
        None
    } else if cs[from] == '\n' {
        Some(from)
    } else {
        next_newline(cs, from + 1)
    }
}

/// Where the text after the `k`-th newline starts (`Some(0)` for `k == 0`);
/// `None` when the text has fewer than `k` newlines.
pub open spec fn line_start(cs: Seq<char>, k: nat) -> Option<int>
    decreases k,
{
    if k == 0 {
        Some(0)
    } else {
        match line_start(cs, (k - 1) as nat) {
            Some(s) => match next_newline(cs, s) {
                Some(p) => Some(p + 1),
                None => None,
            },
            None => None,
        }
    }
}

/// Where the line that starts at `s` ends: its newline, or the end of the text.
pub open spec fn line_end(cs: Seq<char>, s: int) -> int {
    match next_newline(cs, s) {
        Some(p) => p,
        None => cs.len() as int,
    }
}

/// The byte offset, in UTF-8, of character position `p`.
pub open spec fn byte_offset(cs: Seq<char>, p: int) -> int {
    utf8_len(cs.take(p)) as int
}

/// The byte index that a 1-based line and column point at: the byte offset
/// of the line's start plus the column less one, capped at the line's
/// number of characters. The line just after an unterminated last line
/// points at the end of the text. `None` for line or column 0 and for
/// lines past the text.
pub open spec fn line_col_index(cs: Seq<char>, line: int, col: int) -> Option<int> {
    if line <= 0 || col <= 0 {
        None
    } else {
        match line_start(cs, (line - 1) as nat) {
            Some(s) => Some(
                byte_offset(cs, s) + (if col - 1 < line_end(cs, s) - s {
                    col - 1
                } else {
                    line_end(cs, s) - s
                }),
            ),
            None => if line >= 2 && match line_start(cs, (line - 2) as nat) {
                Some(s) => s < cs.len(),
                None => false,
            } {
                Some(utf8_len(cs) as int)
            } else {
                None
            },
        }
    }
}

/// The first character position from `q` on whose byte offset is `b`;
/// `None` if the offsets pass `b` without meeting it.
pub open spec fn char_at_byte_from(cs: Seq<char>, q: int, b: int) -> Option<int>
    decreases cs.len() + 1 - q,
{
    if q > cs.len() || q < 0 {
        None
    } else if byte_offset(cs, q) == b {
        Some(q)
    } else if byte_offset(cs, q) > b {
        None
    } else {
        char_at_byte_from(cs, q + 1, b)
    }
}

/// The character position that starts at byte `b`, if `b` falls on a
/// character boundary.
pub open spec fn char_at_byte(cs: Seq<char>, b: int) -> Option<int> {
    char_at_byte_from(cs, 0, b)
}

/// An ASCII letter, digit or underscore.
pub open spec fn is_ident_char(c: char) -> bool {
    ('a' <= c && c <= 'z') || ('A' <= c && c <= 'Z') || ('0' <= c && c <= '9') || c == '_'
}

/// Where the run of identifier characters that ends at `q` starts.
pub open spec fn prefix_start(cs: Seq<char>, q: int) -> int
    decreases q,
{
    if q <= 0 {
        q
    } else if is_ident_char(cs[q - 1]) {
        prefix_start(cs, q - 1)
    } else {
        q
    }
}

/// Whether the byte index of a line and column, where there is one, falls
/// on a character boundary of the text.
pub open spec fn position_on_char_boundary(cs: Seq<char>, line: int, col: int) -> bool {
    match line_col_index(cs, line, col) {
        Some(b) => char_at_byte(cs, b).is_some(),
        None => true,
    }
}

/// The identifier characters just before a line and column.
pub open spec fn identifier_prefix(cs: Seq<char>, line: int, col: int) -> Option<Seq<char>> {
    match line_col_index(cs, line, col) {
        Some(b) => match char_at_byte(cs, b) {
            Some(q) => Some(cs.subrange(prefix_start(cs, q), q)),
            None => None,
        },
        None => None,
    }
}

proof fn lemma_byte_offset_step(cs: Seq<char>, p: int)
    requires
        0 <= p < cs.len(),
    ensures
        byte_offset(cs, p + 1) == byte_offset(cs, p) + utf8_width(cs[p]),
        utf8_width(cs[p]) >= 1,
{
    assert(cs.take(p + 1) =~= cs.take(p).push(cs[p]));
    lemma_utf8_len_push(cs.take(p), cs[p]);
}

proof fn lemma_next_newline_found(cs: Seq<char>, from: int)
    requires
        0 <= from,
    ensures
        match next_newline(cs, from) {
            Some(x) => from <= x < cs.len() && cs[x] == '\n',
            None => true,
        },
    decreases cs.len() - from,
{
    if from < cs.len() && cs[from] != '\n' {
        lemma_next_newline_found(cs, from + 1);
    }
}

proof fn lemma_line_start_none(cs: Seq<char>, j: nat, k: nat)
    requires
        j <= k,
        line_start(cs, j).is_none(),
    ensures
        line_start(cs, k).is_none(),
    decreases k - j,
{
    if j < k {
        lemma_line_start_none(cs, j, (k - 1) as nat);
    }
}

proof fn lemma_next_newline_skip(cs: Seq<char>, s: int, p: int)
    requires
        0 <= s <= p <= cs.len(),
        forall|k: int| s <= k < p ==> cs[k] != '\n',
    ensures
        next_newline(cs, s) == next_newline(cs, p),
    decreases p - s,
{
    if s < p {
        lemma_next_newline_skip(cs, s + 1, p);
    }
}

/// The byte index that a 1-based line and column point at (see
/// `line_col_index`).
fn line_col_to_index(cs: &[char], line: usize, col: usize) -> (r: Option<usize>)
    requires
        utf8_len(cs@) <= usize::MAX,
    ensures
        match line_col_index(cs@, line as int, col as int) {
            Some(b) => r.is_some() && r.unwrap() as int == b,
            None => r.is_none(),
        },
{
    if line == 0 || col == 0 {
        return None;
    }
    assert(cs@.take(cs@.len() as int) =~= cs@);
    let mut k: usize = 0;
    let mut s: usize = 0;
    let mut sb: usize = 0;
    assert(cs@.take(0) =~= Seq::<char>::empty());
    assert(vstd::utf8::encode_utf8(Seq::<char>::empty()) =~= Seq::<u8>::empty());
    while k + 1 < line
        invariant
            utf8_len(cs@) <= usize::MAX,
            cs@.take(cs@.len() as int) == cs@,
            k < line,
            line >= 1,
            col >= 1,
            s <= cs@.len(),
            line_start(cs@, k as nat) == Some(s as int),
            sb == byte_offset(cs@, s as int),
        decreases line - k,
    {
        let mut p: usize = s;
        let mut pb: usize = sb;
        while p < cs.len() && cs[p] != '\n'
            invariant
                utf8_len(cs@) <= usize::MAX,
                cs@.take(cs@.len() as int) == cs@,
                s <= p <= cs@.len(),
                pb == byte_offset(cs@, p as int),
                forall|j: int| s <= j < p ==> cs@[j] != '\n',
            decreases cs.len() - p,
        {
            proof {
                lemma_byte_offset_step(cs@, p as int);
                crate::text::lemma_utf8_len_prefix(cs@, p + 1);
            }
            pb = pb + char_utf8_width(cs[p]);
            p = p + 1;
        }
        proof {
            lemma_next_newline_skip(cs@, s as int, p as int);
        }
        if p == cs.len() {
            assert(next_newline(cs@, s as int).is_none());
            assert(line_start(cs@, (k + 1) as nat).is_none());
            if k + 2 == line && s < cs.len() {
                return Some(pb);
            }
            proof {
                lemma_line_start_none(cs@, (k + 1) as nat, (line - 1) as nat);
                if k + 2 != line {
                    lemma_line_start_none(cs@, (k + 1) as nat, (line - 2) as nat);
                }
            }
            return None;
        }
        assert(next_newline(cs@, p as int) == Some(p as int));
        proof {
            lemma_byte_offset_step(cs@, p as int);
            crate::text::lemma_utf8_len_prefix(cs@, p + 1);
        }
        s = p + 1;
        sb = pb + 1;
        k = k + 1;
    }
    let limit = col - 1;
    let mut p: usize = s;
    let mut pb: usize = sb;
    while p < cs.len() && cs[p] != '\n' && p - s < limit
        invariant
            utf8_len(cs@) <= usize::MAX,
            cs@.take(cs@.len() as int) == cs@,
            s <= p <= cs@.len(),
            pb == byte_offset(cs@, p as int),
            sb + (p - s) <= pb,
            p - s <= limit,
            forall|j: int| s <= j < p ==> cs@[j] != '\n',
        decreases cs.len() - p,
    {
        proof {
            lemma_byte_offset_step(cs@, p as int);
            crate::text::lemma_utf8_len_prefix(cs@, p + 1);
        }
        pb = pb + char_utf8_width(cs[p]);
        p = p + 1;
    }
    proof {
        lemma_next_newline_skip(cs@, s as int, p as int);
        lemma_next_newline_found(cs@, p as int);
        if p < cs.len() && cs@[p as int] == '\n' {
            assert(next_newline(cs@, p as int) == Some(p as int));
        }
    }
    Some(sb + (p - s))
}

/// The identifier characters just before a 1-based line and column of
/// `source`; `None` where the position is not in the text.
pub fn identifier_prefix_at_position(source: &str, line: usize, col: usize) -> (r: Option<String>)
    requires
        position_on_char_boundary(source@, line as int, col as int),
    ensures
        match identifier_prefix(source@, line as int, col as int) {
            Some(p) => r.is_some() && r.unwrap()@ == p,
            None => r.is_none(),
        },
{
    let bytes = source.as_bytes();
    let nbytes = bytes.len();
    assert(utf8_len(source@) == nbytes);
    let cs = chars_of(source);
    let index = match line_col_to_index(cs.as_slice(), line, col) {
        None => {
            return None;
        },
        Some(i) => i,
    };
    assert(cs@.take(cs@.len() as int) =~= cs@);
    let mut q: usize = 0;
    let mut qb: usize = 0;
    assert(cs@.take(0) =~= Seq::<char>::empty());
    assert(vstd::utf8::encode_utf8(Seq::<char>::empty()) =~= Seq::<u8>::empty());
    while q < cs.len() && qb < index
        invariant
            utf8_len(cs@) <= usize::MAX,
            cs@ == source@,
            cs@.take(cs@.len() as int) == cs@,
            q <= cs@.len(),
            qb == byte_offset(cs@, q as int),
            char_at_byte(cs@, index as int) == char_at_byte_from(cs@, q as int, index as int),
        decreases cs.len() - q,
    {
        proof {
            lemma_byte_offset_step(cs@, q as int);
            crate::text::lemma_utf8_len_prefix(cs@, q + 1);
        }
        qb = qb + char_utf8_width(cs[q]);
        q = q + 1;
    }
    assert(qb == index) by {
        if qb != index {
            if q < cs.len() {
                assert(char_at_byte_from(cs@, q as int, index as int).is_none());
            } else {
                assert(char_at_byte_from(cs@, q as int + 1, index as int).is_none());
            }
        }
    }
    assert(char_at_byte(cs@, index as int) == Some(q as int));
    let mut start: usize = q;
    while start > 0 && (('a' <= cs[start - 1] && cs[start - 1] <= 'z') || ('A' <= cs[start - 1]
        && cs[start - 1] <= 'Z') || ('0' <= cs[start - 1] && cs[start - 1] <= '9') || cs[start - 1]
        == '_')
        invariant
            start <= q <= cs@.len(),
            prefix_start(cs@, q as int) == prefix_start(cs@, start as int),
        decreases start,
    {
        start = start - 1;
    }
    Some(string_of_range(cs.as_slice(), start, q))
}

/// Tests `position_on_char_boundary` for `source`.
pub fn position_on_boundary(source: &str, line: usize, col: usize) -> (r: bool)
    ensures
        r == position_on_char_boundary(source@, line as int, col as int),
{
    let bytes = source.as_bytes();
    let nbytes = bytes.len();
    assert(utf8_len(source@) == nbytes);
    let cs = chars_of(source);
    let index = match line_col_to_index(cs.as_slice(), line, col) {
        None => {
            return true;
        },
        Some(i) => i,
    };
    assert(cs@.take(cs@.len() as int) =~= cs@);
    let mut q: usize = 0;
    let mut qb: usize = 0;
    assert(cs@.take(0) =~= Seq::<char>::empty());
    assert(vstd::utf8::encode_utf8(Seq::<char>::empty()) =~= Seq::<u8>::empty());
    while q < cs.len() && qb < index
        invariant
            utf8_len(cs@) <= usize::MAX,
            cs@ == source@,
            cs@.take(cs@.len() as int) == cs@,
            q <= cs@.len(),
            qb == byte_offset(cs@, q as int),
            char_at_byte(cs@, index as int) == char_at_byte_from(cs@, q as int, index as int),
        decreases cs.len() - q,
    {
        proof {
            lemma_byte_offset_step(cs@, q as int);
            crate::text::lemma_utf8_len_prefix(cs@, q + 1);
        }
        qb = qb + char_utf8_width(cs[q]);
        q = q + 1;
    }
    if qb == index {
        true
    } else {
        if q < cs.len() {
            assert(char_at_byte_from(cs@, q as int, index as int).is_none());
        } else {
            assert(char_at_byte_from(cs@, q as int + 1, index as int).is_none());
        }
        false
    }
}

} // verus!
