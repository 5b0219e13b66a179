//! String interpolation: a string literal whose text holds `{name}` is
//! read as the concatenation of its text pieces and `convert.to_str(name)`
//! for each interpolated name.

use vstd::prelude::*;

use crate::ast::Expr;
use crate::diagnostics::Span;
use crate::hir::BinaryOp;
use crate::text::{chars_of, push_char, to_owned_string};

verus! {

/// A piece of an interpolated string: literal text, or a name.
pub enum InterpPart {
    Text(Seq<char>),
    Name(Seq<char>),
}

/// A NUL character marks the character after it as plain text: what follows
/// it never opens an interpolation, and the NUL itself is dropped.
pub open spec fn is_escape(ch: char) -> bool {
    ch == '\u{0}'
}

/// A character that may start an interpolated name: an ASCII letter or `_`.
pub open spec fn starts_name(ch: char) -> bool {
    ('a' <= ch <= 'z') || ('A' <= ch <= 'Z') || ch == '_'
}

/// Whether an interpolation opens at `i`: a `{` followed by a character
/// that may start a name.
pub open spec fn opens_at(c: Seq<char>, i: int) -> bool {
    0 <= i && i + 1 < c.len() && c[i] == '{' && starts_name(c[i + 1])
}

/// Whether an interpolation opens at or after `i`, stepping over each NUL
/// and the character it marks.
pub open spec fn has_interp(c: Seq<char>, i: int) -> bool
    decreases c.len() - i,
{
    if i < 0 || i >= c.len() {
        false
    } else if is_escape(c[i]) {
        if i + 2 > c.len() {
            false
        } else {
            has_interp(c, i + 2)
        }
    } else if opens_at(c, i) {
        true
    } else {
        has_interp(c, i + 1)
    }
}

/// Unicode white space, as `char::is_whitespace` documents it (the
/// `White_Space` property).
pub open spec fn is_space(ch: char) -> bool {
    ('\u{9}' <= ch <= '\u{d}') || ch == ' ' || ch == '\u{85}' || ch == '\u{a0}' || ch == '\u{1680}'
        || ('\u{2000}' <= ch <= '\u{200a}') || ch == '\u{2028}' || ch == '\u{2029}' || ch
        == '\u{202f}' || ch == '\u{205f}' || ch == '\u{3000}'
}

/// The first position from `i` on that does not hold white space.
pub open spec fn lead_end(s: Seq<char>, i: int) -> int
    decreases s.len() - i,
{
    if 0 <= i < s.len() && is_space(s[i]) {
        lead_end(s, i + 1)
    } else {
        i
    }
}

/// The end of `s[lo..j]` once the white space at its end is dropped.
pub open spec fn trail_end(s: Seq<char>, lo: int, j: int) -> int
    decreases j - lo,
{
    if lo < j && j <= s.len() && is_space(s[j - 1]) {
        trail_end(s, lo, j - 1)
    } else {
        j
    }
}

/// `s` without the white space at its start and end.
pub open spec fn trim_space(s: Seq<char>) -> Seq<char> {
    let lo = lead_end(s, 0);
    s.subrange(lo, trail_end(s, lo, s.len() as int))
}

/// The parts so far, with the pending text added when there is any.
pub open spec fn flush(parts: Seq<InterpPart>, text: Seq<char>) -> Seq<InterpPart> {
    if text.len() == 0 {
        parts
    } else {
        parts.push(InterpPart::Text(text))
    }
}

/// The parts so far once a name is closed: the name without surrounding
/// white space, or, when nothing is left of it, no part and one more empty
/// interpolation.
pub open spec fn close_name(parts: Seq<InterpPart>, name: Seq<char>, empties: nat) -> (
    Seq<InterpPart>,
    nat,
) {
    if trim_space(name).len() == 0 {
        (parts, empties + 1)
    } else {
        (parts.push(InterpPart::Name(trim_space(name))), empties)
    }
}

/// The parts of `c` from `i` on and the number of empty interpolations,
/// given the pending text, the name being read (inside `{..}`), the parts
/// so far and the empty interpolations so far. A NUL takes the character
/// after it as text; a name runs to the next `}` or the end.
pub open spec fn interp_scan(
    c: Seq<char>,
    i: int,
    text: Seq<char>,
    name: Option<Seq<char>>,
    parts: Seq<InterpPart>,
    empties: nat,
) -> (Seq<InterpPart>, nat)
    decreases c.len() - i,
{
    if i < 0 || i >= c.len() {
        match name {
            Some(n) => close_name(flush(parts, text), n, empties),
            None => (flush(parts, text), empties),
        }
    } else {
        match name {
            Some(n) => if c[i] == '}' {
                let (p, e) = close_name(parts, n, empties);
                interp_scan(c, i + 1, text, None, p, e)
            } else {
                interp_scan(c, i + 1, text, Some(n.push(c[i])), parts, empties)
            },
            None => if is_escape(c[i]) && i + 1 < c.len() {
                interp_scan(c, i + 2, text.push(c[i + 1]), None, parts, empties)
            } else if opens_at(c, i) {
                interp_scan(c, i + 1, Seq::empty(), Some(Seq::empty()), flush(parts, text), empties)
            } else {
                interp_scan(c, i + 1, text.push(c[i]), None, parts, empties)
            },
        }
    }
}

/// The parts of a string literal's text and its number of empty
/// interpolations.
pub open spec fn interp_parts(c: Seq<char>) -> (Seq<InterpPart>, nat) {
    interp_scan(c, 0, Seq::empty(), None, Seq::empty(), 0)
}

/// Whether `e` is the expression for one part: a string literal of the
/// text, or `convert.to_str(name)`, every node at `span`.
pub open spec fn is_part_expr(e: Expr, part: InterpPart, span: Span) -> bool {
    match part {
        InterpPart::Text(t) => match e {
            Expr::String { value, span: s } => value@ == t && s == span,
            _ => false,
        },
        InterpPart::Name(n) => match e {
            Expr::Call { callee, args, span: s } => s == span && args@.len() == 1 && match args@[0] {
                Expr::Ident { name, span: s2 } => name@ == n && s2 == span,
                _ => false,
            } && match *callee {
                Expr::Member { object, field, span: s3 } => field@ == "to_str"@ && s3 == span
                    && match *object {
                    Expr::Ident { name, span: s4 } => name@ == "convert"@ && s4 == span,
                    _ => false,
                },
                _ => false,
            },
            _ => false,
        },
    }
}

/// Whether `e` joins the expressions of `parts` from the left with `+`,
/// every node at `span`.
pub open spec fn is_concat_of(e: Expr, parts: Seq<InterpPart>, span: Span) -> bool
    decreases parts.len(),
{
    if parts.len() == 0 {
        false
    } else if parts.len() == 1 {
        is_part_expr(e, parts[0], span)
    } else {
        match e {
            Expr::Binary { left, op, right, span: s } => op == BinaryOp::Add && s == span
                && is_part_expr(*right, parts.last(), span) && is_concat_of(
                *left,
                parts.drop_last(),
                span,
            ),
            _ => false,
        }
    }
}

proof fn lemma_trail_end_past_start(s: Seq<char>, lo: int, j: int)
    requires
        0 <= lo < j <= s.len(),
        !is_space(s[lo]),
    ensures
        trail_end(s, lo, j) > lo,
    decreases j - lo,
{
    if j - 1 > lo && is_space(s[j - 1]) {
        lemma_trail_end_past_start(s, lo, j - 1);
    }
}

proof fn lemma_trail_end_bounded(s: Seq<char>, lo: int, j: int)
    requires
        lo <= j <= s.len(),
    ensures
        lo <= trail_end(s, lo, j) <= j,
    decreases j - lo,
{
    if lo < j && is_space(s[j - 1]) {
        lemma_trail_end_bounded(s, lo, j - 1);
    }
}

proof fn lemma_name_not_blank(n: Seq<char>)
    requires
        n.len() > 0,
        starts_name(n[0]),
    ensures
        trim_space(n).len() > 0,
{
    let ch = n[0];
    assert(!is_space(ch)) by {
        assert(('a' <= ch <= 'z') || ('A' <= ch <= 'Z') || ch == '_');
    }
    assert(lead_end(n, 0) == 0);
    lemma_trail_end_past_start(n, 0, n.len() as int);
    assert(trail_end(n, 0, n.len() as int) <= n.len()) by {
        lemma_trail_end_bounded(n, 0, n.len() as int);
    }
}

proof fn lemma_scan_keeps_empties(
    c: Seq<char>,
    i: int,
    text: Seq<char>,
    name: Option<Seq<char>>,
    parts: Seq<InterpPart>,
    empties: nat,
)
    requires
        0 <= i,
        name matches Some(n) ==> (n.len() > 0 && starts_name(n[0])) || (n.len() == 0 && i
            < c.len() && starts_name(c[i])),
    ensures
        interp_scan(c, i, text, name, parts, empties).1 == empties,
    decreases c.len() - i,
{
    if i >= c.len() {
        match name {
            Some(n) => lemma_name_not_blank(n),
            None => {},
        }
    } else {
        match name {
            Some(n) => {
                if c[i] == '}' {
                    lemma_name_not_blank(n);
                    let (p, e) = close_name(parts, n, empties);
                    lemma_scan_keeps_empties(c, i + 1, text, None, p, e);
                } else {
                    let m = n.push(c[i]);
                    assert(m[0] == if n.len() > 0 { n[0] } else { c[i] });
                    lemma_scan_keeps_empties(c, i + 1, text, Some(m), parts, empties);
                }
            },
            None => {
                if is_escape(c[i]) && i + 1 < c.len() {
                    lemma_scan_keeps_empties(c, i + 2, text.push(c[i + 1]), None, parts, empties);
                } else if opens_at(c, i) {
                    lemma_scan_keeps_empties(
                        c,
                        i + 1,
                        Seq::empty(),
                        Some(Seq::empty()),
                        flush(parts, text),
                        empties,
                    );
                } else {
                    lemma_scan_keeps_empties(c, i + 1, text.push(c[i]), None, parts, empties);
                }
            },
        }
    }
}

/// An interpolated name always starts with a letter or `_`, so it is never
/// blank: reading a string never reports an empty interpolation.
pub proof fn lemma_no_empty_interpolation(c: Seq<char>)
    ensures
        interp_parts(c).1 == 0,
{
    lemma_scan_keeps_empties(c, 0, Seq::empty(), None, Seq::empty(), 0);
}

/// The exec form of a part.
pub enum Part {
    Text(String),
    Name(String),
}

impl View for Part {
    type V = InterpPart;

    open spec fn view(&self) -> InterpPart {
        match self {
            Part::Text(t) => InterpPart::Text(t@),
            Part::Name(n) => InterpPart::Name(n@),
        }
    }
}

pub open spec fn part_views(v: Seq<Part>) -> Seq<InterpPart> {
    v.map_values(|p: Part| p@)
}

/// Whether an interpolation opens anywhere in `c`, stepping over each NUL
/// and the character it marks.
pub fn has_interpolation(c: &Vec<char>) -> (r: bool)
    ensures
        r == has_interp(c@, 0),
{
    let mut i: usize = 0;
    while i < c.len()
        invariant
            has_interp(c@, i as int) == has_interp(c@, 0),
        decreases c.len() - i,
    {
        if c[i] == '\u{0}' {
            if c.len() - i < 2 {
                return false;
            }
            i = i + 2;
        } else if c[i] == '{' && i + 1 < c.len() && (('a' <= c[i + 1] && c[i + 1] <= 'z') || ('A'
            <= c[i + 1] && c[i + 1] <= 'Z') || c[i + 1] == '_') {
            return true;
        } else {
            i = i + 1;
        }
    }
    false
}

fn is_space_char(ch: char) -> (r: bool)
    ensures
        r == is_space(ch),
{
    ('\u{9}' <= ch && ch <= '\u{d}') || ch == ' ' || ch == '\u{85}' || ch == '\u{a0}' || ch
        == '\u{1680}' || ('\u{2000}' <= ch && ch <= '\u{200a}') || ch == '\u{2028}' || ch
        == '\u{2029}' || ch == '\u{202f}' || ch == '\u{205f}' || ch == '\u{3000}'
}

/// `s` without the white space at its start and end.
pub fn trim_chars(s: &Vec<char>) -> (r: String)
    ensures
        r@ == trim_space(s@),
{
    let mut lo: usize = 0;
    while lo < s.len() && is_space_char(s[lo])
        invariant
            lo <= s.len(),
            lead_end(s@, lo as int) == lead_end(s@, 0),
        decreases s.len() - lo,
    {
        lo = lo + 1;
    }
    let mut hi: usize = s.len();
    while lo < hi && is_space_char(s[hi - 1])
        invariant
            lo <= hi <= s.len(),
            trail_end(s@, lo as int, hi as int) == trail_end(s@, lo as int, s.len() as int),
        decreases hi - lo,
    {
        hi = hi - 1;
    }
    let mut out = String::new();
    let mut k: usize = lo;
    while k < hi
        invariant
            lo <= k <= hi <= s.len(),
            out@ == s@.subrange(lo as int, k as int),
        decreases hi - k,
    {
        push_char(&mut out, s[k]);
        proof {
            assert(s@.subrange(lo as int, k + 1) =~= s@.subrange(lo as int, k as int).push(s@[k as int]));
        }
        k = k + 1;
    }
    out
}

fn flush_text(parts: &mut Vec<Part>, text: &mut String)
    ensures
        part_views(final(parts)@) == flush(part_views(old(parts)@), old(text)@),
        final(text)@ == Seq::<char>::empty(),
{
    if !text.as_str().is_empty() {
        let t = to_owned_string(text.as_str());
        *text = String::new();
        parts.push(Part::Text(t));
        proof {
            assert(part_views(parts@) =~= part_views(old(parts)@).push(InterpPart::Text(old(text)@)));
        }
    } else {
        proof {
            assert(old(text)@.len() == 0);
        }
    }
}

fn close_name_exec(parts: &mut Vec<Part>, name: &Vec<char>, empties: &mut usize)
    requires
        *old(empties) < usize::MAX,
    ensures
        (part_views(final(parts)@), *final(empties) as nat) == close_name(
            part_views(old(parts)@),
            name@,
            *old(empties) as nat,
        ),
{
    let trimmed = trim_chars(name);
    if trimmed.as_str().is_empty() {
        *empties = *empties + 1;
    } else {
        parts.push(Part::Name(trimmed));
        proof {
            assert(part_views(parts@) =~= part_views(old(parts)@).push(
                InterpPart::Name(trim_space(name@)),
            ));
        }
    }
}

/// The parts of a string literal's text and its number of empty
/// interpolations (`interp_parts`).
pub fn scan_interp_parts(c: &Vec<char>) -> (r: (Vec<Part>, usize))
    ensures
        (part_views(r.0@), r.1 as nat) == interp_parts(c@),
{
    let mut i: usize = 0;
    let mut text = String::new();
    let mut in_name = false;
    let mut name: Vec<char> = Vec::new();
    let mut parts: Vec<Part> = Vec::new();
    let mut empties: usize = 0;
    proof {
        assert(part_views(parts@) =~= Seq::<InterpPart>::empty());
    }
    while i < c.len()
        invariant
            i <= c.len(),
            empties <= i,
            in_name ==> empties < i,
            interp_scan(
                c@,
                i as int,
                text@,
                if in_name { Some(name@) } else { None },
                part_views(parts@),
                empties as nat,
            ) == interp_parts(c@),
        decreases c.len() - i,
    {
        let ch = c[i];
        if in_name {
            if ch == '}' {
                close_name_exec(&mut parts, &name, &mut empties);
                in_name = false;
                name = Vec::new();
            } else {
                name.push(ch);
            }
            i = i + 1;
        } else if ch == '\u{0}' && i + 1 < c.len() {
            push_char(&mut text, c[i + 1]);
            i = i + 2;
        } else if ch == '{' && i + 1 < c.len() && (('a' <= c[i + 1] && c[i + 1] <= 'z') || ('A'
            <= c[i + 1] && c[i + 1] <= 'Z') || c[i + 1] == '_') {
            flush_text(&mut parts, &mut text);
            in_name = true;
            name = Vec::new();
            i = i + 1;
        } else {
            push_char(&mut text, ch);
            i = i + 1;
        }
    }
    if in_name {
        flush_text(&mut parts, &mut text);
        close_name_exec(&mut parts, &name, &mut empties);
    } else {
        flush_text(&mut parts, &mut text);
    }
    (parts, empties)
}

fn part_expr(part: &Part, span: Span) -> (r: Expr)
    ensures
        is_part_expr(r, part@, span),
{
    match part {
        Part::Text(t) => Expr::String { value: to_owned_string(t.as_str()), span },
        Part::Name(n) => Expr::Call {
            callee: Box::new(
                Expr::Member {
                    object: Box::new(Expr::Ident { name: to_owned_string("convert"), span }),
                    field: to_owned_string("to_str"),
                    span,
                },
            ),
            args: vec![Expr::Ident { name: to_owned_string(n.as_str()), span }],
            span,
        },
    }
}

/// The expressions of `parts` joined from the left with `+`
/// (`is_concat_of`); `None` when there are no parts.
pub fn concat_parts(parts: &Vec<Part>, span: Span) -> (r: Option<Expr>)
    ensures
        part_views(parts@).len() == 0 ==> r is None,
        part_views(parts@).len() > 0 ==> (r matches Some(e) && is_concat_of(e, part_views(parts@), span)),
{
    let mut acc: Option<Expr> = None;
    let mut k: usize = 0;
    while k < parts.len()
        invariant
            k <= parts.len(),
            k == 0 <==> acc is None,
            acc matches Some(e) ==> is_concat_of(e, part_views(parts@).take(k as int), span),
        decreases parts.len() - k,
    {
        let e = part_expr(&parts[k], span);
        let ghost pv = part_views(parts@).take(k + 1);
        proof {
            assert(pv.last() == parts@[k as int]@);
            assert(pv.drop_last() =~= part_views(parts@).take(k as int));
        }
        acc = match acc {
            None => {
                proof {
                    assert(pv.len() == 1);
                }
                Some(e)
            },
            Some(prev) => Some(
                Expr::Binary { left: Box::new(prev), op: BinaryOp::Add, right: Box::new(e), span },
            ),
        };
        k = k + 1;
    }
    proof {
        assert(part_views(parts@).take(parts.len() as int) =~= part_views(parts@));
    }
    acc
}

/// `s` with every NUL removed.
pub open spec fn without_nul(s: Seq<char>) -> Seq<char>
    decreases s.len(),
{
    if s.len() == 0 {
        s
    } else if is_escape(s.last()) {
        without_nul(s.drop_last())
    } else {
        without_nul(s.drop_last()).push(s.last())
    }
}

/// A string literal's text with every NUL removed (`without_nul`).
pub fn remove_nul(text: &str) -> (r: String)
    ensures
        r@ == without_nul(text@),
{
    let c = chars_of(text);
    let mut out = String::new();
    let mut i: usize = 0;
    while i < c.len()
        invariant
            i <= c.len(),
            c@ == text@,
            out@ == without_nul(c@.take(i as int)),
        decreases c.len() - i,
    {
        proof {
            assert(c@.take(i + 1).drop_last() =~= c@.take(i as int));
            assert(c@.take(i + 1).last() == c@[i as int]);
        }
        if c[i] != '\u{0}' {
            push_char(&mut out, c[i]);
        }
        i = i + 1;
    }
    proof {
        assert(c@.take(c.len() as int) =~= c@);
    }
    out
}

} // verus!
