use vstd::prelude::*;

use crate::order::views;
use crate::text::{chars_of, string_of, str_eq};

verus! {

/// Unicode `White_Space`, the set that `char::is_whitespace` tests.
pub open spec fn is_whitespace_spec(c: char) -> bool {
    let n = c as u32;
    ||| 9 <= n <= 13
    ||| n == 32
    ||| n == 0x85
    ||| n == 0xA0
    ||| n == 0x1680
    ||| 0x2000 <= n <= 0x200A
    ||| n == 0x2028
    ||| n == 0x2029
    ||| n == 0x202F
    ||| n == 0x205F
    ||| n == 0x3000
}

/// `char::is_whitespace`.
pub fn is_whitespace(c: char) -> (r: bool)
    ensures
        r == is_whitespace_spec(c),
{
    let n = c as u32;
    (9 <= n && n <= 13) || n == 32 || n == 0x85 || n == 0xA0 || n == 0x1680 || (0x2000 <= n && n
        <= 0x200A) || n == 0x2028 || n == 0x2029 || n == 0x202F || n == 0x205F || n == 0x3000
}

/// `\r\n` becomes `\n`, then every remaining `\r` becomes `\n`.
pub open spec fn normalize_newlines(s: Seq<char>) -> Seq<char>
    decreases s.len(),
{
    if s.len() == 0 {
        s
    } else if s[0] == '\r' && s.len() >= 2 && s[1] == '\n' {
        seq!['\n'] + normalize_newlines(s.skip(2))
    } else if s[0] == '\r' {
        seq!['\n'] + normalize_newlines(s.skip(1))
    } else {
        seq![s[0]] + normalize_newlines(s.skip(1))
    }
}

/// The pieces of `s` between `\n` characters (`str::split('\n')`): one more
/// piece than there are newlines.
pub open spec fn split_lines(s: Seq<char>) -> Seq<Seq<char>>
    decreases s.len(),
{
    if s.len() == 0 {
        seq![Seq::empty()]
    } else if s.last() == '\n' {
        split_lines(s.drop_last()).push(Seq::empty())
    } else {
        let p = split_lines(s.drop_last());
        p.update(p.len() - 1, p.last().push(s.last()))
    }
}

/// Each tab becomes two spaces.
pub open spec fn expand_tabs(l: Seq<char>) -> Seq<char>
    decreases l.len(),
{
    if l.len() == 0 {
        l
    } else if l.last() == '\t' {
        expand_tabs(l.drop_last()) + seq![' ', ' ']
    } else {
        expand_tabs(l.drop_last()).push(l.last())
    }
}

/// `l` without its trailing whitespace (`str::trim_end`).
pub open spec fn trim_end(l: Seq<char>) -> Seq<char>
    decreases l.len(),
{
    if l.len() > 0 && is_whitespace_spec(l.last()) {
        trim_end(l.drop_last())
    } else {
        l
    }
}

/// A line after tab expansion and trailing-whitespace removal.
pub open spec fn clean_line(l: Seq<char>) -> Seq<char> {
    trim_end(expand_tabs(l))
}

/// A blank line directly after another blank line is dropped.
pub open spec fn collapse_blank_runs(ls: Seq<Seq<char>>) -> Seq<Seq<char>>
    decreases ls.len(),
{
    if ls.len() == 0 {
        ls
    } else if ls.last().len() == 0 && ls.len() >= 2 && ls[ls.len() - 2].len() == 0 {
        collapse_blank_runs(ls.drop_last())
    } else {
        collapse_blank_runs(ls.drop_last()).push(ls.last())
    }
}

pub open spec fn strip_leading_blank(ls: Seq<Seq<char>>) -> Seq<Seq<char>>
    decreases ls.len(),
{
    if ls.len() > 0 && ls[0].len() == 0 {
        strip_leading_blank(ls.drop_first())
    } else {
        ls
    }
}

pub open spec fn strip_trailing_blank(ls: Seq<Seq<char>>) -> Seq<Seq<char>>
    decreases ls.len(),
{
    if ls.len() > 0 && ls.last().len() == 0 {
        strip_trailing_blank(ls.drop_last())
    } else {
        ls
    }
}

/// The lines joined with `\n` between them.
pub open spec fn join_lines(ls: Seq<Seq<char>>) -> Seq<char>
    decreases ls.len(),
{
    if ls.len() == 0 {
        Seq::empty()
    } else if ls.len() == 1 {
        ls[0]
    } else {
        join_lines(ls.drop_last()) + seq!['\n'] + ls.last()
    }
}

/// The lines of the formatted text.
pub open spec fn formatted_lines(s: Seq<char>) -> Seq<Seq<char>> {
    strip_trailing_blank(
        strip_leading_blank(
            collapse_blank_runs(split_lines(normalize_newlines(s)).map_values(|l| clean_line(l))),
        ),
    )
}

/// The formatted text: the formatted lines, each ended by `\n`; empty when
/// no line is left.
pub open spec fn format_spec(s: Seq<char>) -> Seq<char> {
    let ls = formatted_lines(s);
    if ls.len() == 0 {
        Seq::empty()
    } else {
        join_lines(ls).push('\n')
    }
}

/// A formatted line: no line break or tab in it, no whitespace at its end.
pub open spec fn line_is_clean(l: Seq<char>) -> bool {
    &&& forall|k: int| 0 <= k < l.len() ==> #[trigger] l[k] != '\n' && l[k] != '\r' && l[k] != '\t'
    &&& (l.len() == 0 || !is_whitespace_spec(l.last()))
}

pub open spec fn all_lines_clean(ls: Seq<Seq<char>>) -> bool {
    forall|i: int| 0 <= i < ls.len() ==> line_is_clean(#[trigger] ls[i])
}

/// No blank line follows another blank line.
pub open spec fn no_double_blank(ls: Seq<Seq<char>>) -> bool {
    forall|i: int, j: int|
        0 <= i && j == i + 1 && j < ls.len() ==> !(#[trigger] ls[i].len() == 0 && #[trigger] ls[j].len()
            == 0)
}

pub open spec fn free_of(s: Seq<char>, c: char) -> bool {
    forall|k: int| 0 <= k < s.len() ==> #[trigger] s[k] != c
}

proof fn lemma_normalize_no_cr(s: Seq<char>)
    ensures
        free_of(normalize_newlines(s), '\r'),
    decreases s.len(),
{
    if s.len() == 0 {
    } else if s[0] == '\r' && s.len() >= 2 && s[1] == '\n' {
        lemma_normalize_no_cr(s.skip(2));
        let r = normalize_newlines(s.skip(2));
        assert forall|k: int| 0 <= k < (seq!['\n'] + r).len() implies #[trigger] (seq!['\n'] + r)[k]
            != '\r' by {
            if k > 0 {
                assert((seq!['\n'] + r)[k] == r[k - 1]);
            }
        }
    } else {
        lemma_normalize_no_cr(s.skip(1));
        let r = normalize_newlines(s.skip(1));
        let h = if s[0] == '\r' {
            '\n'
        } else {
            s[0]
        };
        assert forall|k: int| 0 <= k < (seq![h] + r).len() implies #[trigger] (seq![h] + r)[k]
            != '\r' by {
            if k > 0 {
                assert((seq![h] + r)[k] == r[k - 1]);
            }
        }
    }
}

proof fn lemma_normalize_id(s: Seq<char>)
    requires
        free_of(s, '\r'),
    ensures
        normalize_newlines(s) == s,
    decreases s.len(),
{
    if s.len() > 0 {
        assert(s[0] != '\r');
        assert(free_of(s.skip(1), '\r')) by {
            assert forall|k: int| 0 <= k < s.skip(1).len() implies #[trigger] s.skip(1)[k] != '\r' by {
                assert(s.skip(1)[k] == s[k + 1]);
            }
        }
        lemma_normalize_id(s.skip(1));
        assert(seq![s[0]] + s.skip(1) =~= s);
    }
}

proof fn lemma_split_pieces(s: Seq<char>)
    requires
        free_of(s, '\r'),
    ensures
        split_lines(s).len() >= 1,
        forall|i: int|
            0 <= i < split_lines(s).len() ==> free_of(#[trigger] split_lines(s)[i], '\r') && free_of(
                split_lines(s)[i],
                '\n',
            ),
    decreases s.len(),
{
    if s.len() > 0 {
        assert(free_of(s.drop_last(), '\r')) by {
            assert forall|k: int| 0 <= k < s.drop_last().len() implies #[trigger] s.drop_last()[k]
                != '\r' by {
                assert(s.drop_last()[k] == s[k]);
            }
        }
        lemma_split_pieces(s.drop_last());
        let p = split_lines(s.drop_last());
        if s.last() != '\n' {
            let q = p.last().push(s.last());
            assert(p.last() == p[p.len() - 1]);
            assert forall|k: int| 0 <= k < q.len() implies #[trigger] q[k] != '\r' && q[k] != '\n' by {
                if k < q.len() - 1 {
                    assert(q[k] == p.last()[k]);
                }
            }
        }
    }
}

proof fn lemma_expand_tabs_clean(l: Seq<char>)
    requires
        free_of(l, '\r'),
        free_of(l, '\n'),
    ensures
        free_of(expand_tabs(l), '\r'),
        free_of(expand_tabs(l), '\n'),
        free_of(expand_tabs(l), '\t'),
    decreases l.len(),
{
    if l.len() > 0 {
        let d = l.drop_last();
        assert forall|k: int| 0 <= k < d.len() implies #[trigger] d[k] != '\r' && d[k] != '\n' by {
            assert(d[k] == l[k]);
        }
        lemma_expand_tabs_clean(d);
        let e = expand_tabs(d);
        let r = expand_tabs(l);
        assert forall|k: int| 0 <= k < r.len() implies #[trigger] r[k] != '\r' && r[k] != '\n'
            && r[k] != '\t' by {
            if k < e.len() {
                assert(r[k] == e[k]);
            }
        }
    }
}

proof fn lemma_trim_end_props(l: Seq<char>)
    ensures
        trim_end(l).len() <= l.len(),
        trim_end(l) == l.take(trim_end(l).len() as int),
        trim_end(l).len() == 0 || !is_whitespace_spec(trim_end(l).last()),
    decreases l.len(),
{
    if l.len() > 0 && is_whitespace_spec(l.last()) {
        lemma_trim_end_props(l.drop_last());
        let t = trim_end(l.drop_last());
        assert(l.drop_last().take(t.len() as int) =~= l.take(t.len() as int));
    } else {
        assert(l.take(l.len() as int) =~= l);
    }
}

proof fn lemma_clean_line_clean(l: Seq<char>)
    requires
        free_of(l, '\r'),
        free_of(l, '\n'),
    ensures
        line_is_clean(clean_line(l)),
{
    lemma_expand_tabs_clean(l);
    let e = expand_tabs(l);
    lemma_trim_end_props(e);
    let t = trim_end(e);
    assert forall|k: int| 0 <= k < t.len() implies #[trigger] t[k] != '\n' && t[k] != '\r' && t[k]
        != '\t' by {
        assert(t[k] == e.take(t.len() as int)[k]);
        assert(e.take(t.len() as int)[k] == e[k]);
    }
}

proof fn lemma_collapse_props(ls: Seq<Seq<char>>)
    requires
        all_lines_clean(ls),
    ensures
        all_lines_clean(collapse_blank_runs(ls)),
        no_double_blank(collapse_blank_runs(ls)),
        ls.len() > 0 ==> collapse_blank_runs(ls).len() > 0 && collapse_blank_runs(ls).last()
            == ls.last(),
    decreases ls.len(),
{
    if ls.len() > 0 {
        let d = ls.drop_last();
        assert forall|i: int| 0 <= i < d.len() implies line_is_clean(#[trigger] d[i]) by {
            assert(d[i] == ls[i]);
        }
        lemma_collapse_props(d);
        let c = collapse_blank_runs(d);
        if ls.last().len() == 0 && ls.len() >= 2 && ls[ls.len() - 2].len() == 0 {
            assert(d.last() == ls[ls.len() - 2]);
            assert(c.last() =~= ls.last());
        } else {
            let r = c.push(ls.last());
            assert(line_is_clean(ls[ls.len() - 1]));
            assert forall|i: int| 0 <= i < r.len() implies line_is_clean(#[trigger] r[i]) by {
                if i < c.len() {
                    assert(r[i] == c[i]);
                }
            }
            assert forall|i: int, j: int|
                0 <= i && j == i + 1 && j < r.len() implies !(#[trigger] r[i].len() == 0
                && #[trigger] r[j].len() == 0) by {
                if j < c.len() {
                    assert(r[i] == c[i] && r[j] == c[j]);
                } else {
                    assert(r[i] == c.last());
                    if d.len() > 0 {
                        assert(d.last() == ls[ls.len() - 2]);
                    }
                }
            }
        }
    }
}

proof fn lemma_strip_leading_props(ls: Seq<Seq<char>>)
    requires
        all_lines_clean(ls),
        no_double_blank(ls),
    ensures
        all_lines_clean(strip_leading_blank(ls)),
        no_double_blank(strip_leading_blank(ls)),
        strip_leading_blank(ls).len() > 0 ==> strip_leading_blank(ls)[0].len() > 0,
    decreases ls.len(),
{
    if ls.len() > 0 && ls[0].len() == 0 {
        let d = ls.drop_first();
        assert forall|i: int| 0 <= i < d.len() implies line_is_clean(#[trigger] d[i]) by {
            assert(d[i] == ls[i + 1]);
        }
        assert forall|i: int, j: int|
            0 <= i && j == i + 1 && j < d.len() implies !(#[trigger] d[i].len() == 0
            && #[trigger] d[j].len() == 0) by {
            assert(d[i] == ls[i + 1] && d[j] == ls[j + 1]);
        }
        lemma_strip_leading_props(d);
    }
}

proof fn lemma_strip_trailing_props(ls: Seq<Seq<char>>)
    requires
        all_lines_clean(ls),
        no_double_blank(ls),
        ls.len() > 0 ==> ls[0].len() > 0,
    ensures
        all_lines_clean(strip_trailing_blank(ls)),
        no_double_blank(strip_trailing_blank(ls)),
        strip_trailing_blank(ls).len() > 0 ==> strip_trailing_blank(ls)[0].len() > 0
            && strip_trailing_blank(ls).last().len() > 0,
    decreases ls.len(),
{
    if ls.len() > 0 && ls.last().len() == 0 {
        let d = ls.drop_last();
        assert forall|i: int| 0 <= i < d.len() implies line_is_clean(#[trigger] d[i]) by {
            assert(d[i] == ls[i]);
        }
        assert forall|i: int, j: int|
            0 <= i && j == i + 1 && j < d.len() implies !(#[trigger] d[i].len() == 0
            && #[trigger] d[j].len() == 0) by {
            assert(d[i] == ls[i] && d[j] == ls[j]);
        }
        if d.len() > 0 {
            assert(d[0] == ls[0]);
        }
        lemma_strip_trailing_props(d);
    }
}

/// The lines of any formatted text are clean, start and end non-blank, and
/// hold no two blank lines in a row.
proof fn lemma_formatted_lines_props(s: Seq<char>)
    ensures
        all_lines_clean(formatted_lines(s)),
        no_double_blank(formatted_lines(s)),
        formatted_lines(s).len() > 0 ==> formatted_lines(s)[0].len() > 0
            && formatted_lines(s).last().len() > 0,
{
    let n = normalize_newlines(s);
    lemma_normalize_no_cr(s);
    lemma_split_pieces(n);
    let pieces = split_lines(n);
    let cleaned = pieces.map_values(|l| clean_line(l));
    assert forall|i: int| 0 <= i < cleaned.len() implies line_is_clean(#[trigger] cleaned[i]) by {
        assert(cleaned[i] == clean_line(pieces[i]));
        lemma_clean_line_clean(pieces[i]);
    }
    lemma_collapse_props(cleaned);
    lemma_strip_leading_props(collapse_blank_runs(cleaned));
    lemma_strip_trailing_props(strip_leading_blank(collapse_blank_runs(cleaned)));
}

proof fn lemma_join_free_of(ls: Seq<Seq<char>>, c: char)
    requires
        c != '\n',
        forall|i: int| 0 <= i < ls.len() ==> free_of(#[trigger] ls[i], c),
    ensures
        free_of(join_lines(ls), c),
    decreases ls.len(),
{
    if ls.len() >= 2 {
        let d = ls.drop_last();
        assert forall|i: int| 0 <= i < d.len() implies free_of(#[trigger] d[i], c) by {
            assert(d[i] == ls[i]);
        }
        lemma_join_free_of(d, c);
        let j = join_lines(d);
        let r = join_lines(ls);
        assert(free_of(ls[ls.len() - 1], c));
        assert forall|k: int| 0 <= k < r.len() implies #[trigger] r[k] != c by {
            if k < j.len() {
                assert(r[k] == j[k]);
            } else if k > j.len() {
                assert(r[k] == ls.last()[k - j.len() - 1]);
            }
        }
    } else if ls.len() == 1 {
        assert(free_of(ls[0], c));
    }
}

proof fn lemma_split_no_newline(l: Seq<char>)
    requires
        free_of(l, '\n'),
    ensures
        split_lines(l) == seq![l],
    decreases l.len(),
{
    if l.len() > 0 {
        let d = l.drop_last();
        assert(free_of(d, '\n')) by {
            assert forall|k: int| 0 <= k < d.len() implies #[trigger] d[k] != '\n' by {
                assert(d[k] == l[k]);
            }
        }
        lemma_split_no_newline(d);
        assert(d.push(l.last()) =~= l);
        assert(seq![d].update(0, d.push(l.last())) =~= seq![l]);
    } else {
        assert(l =~= Seq::<char>::empty());
    }
}

proof fn lemma_split_after_newline(a: Seq<char>, b: Seq<char>)
    requires
        free_of(b, '\n'),
    ensures
        split_lines(a + seq!['\n'] + b) == split_lines(a).push(b),
    decreases b.len(),
{
    let x = a + seq!['\n'] + b;
    if b.len() == 0 {
        assert(x.drop_last() =~= a);
        assert(b =~= Seq::<char>::empty());
    } else {
        let d = b.drop_last();
        assert(free_of(d, '\n')) by {
            assert forall|k: int| 0 <= k < d.len() implies #[trigger] d[k] != '\n' by {
                assert(d[k] == b[k]);
            }
        }
        lemma_split_after_newline(a, d);
        assert(x.drop_last() =~= a + seq!['\n'] + d);
        assert(x.last() == b.last());
        assert(d.push(b.last()) =~= b);
        assert(split_lines(a).push(d).update(split_lines(a).len() as int, d.push(b.last()))
            =~= split_lines(a).push(b));
    }
}

proof fn lemma_split_join(ls: Seq<Seq<char>>)
    requires
        ls.len() >= 1,
        forall|i: int| 0 <= i < ls.len() ==> free_of(#[trigger] ls[i], '\n'),
    ensures
        split_lines(join_lines(ls)) == ls,
    decreases ls.len(),
{
    if ls.len() == 1 {
        assert(free_of(ls[0], '\n'));
        lemma_split_no_newline(ls[0]);
        assert(seq![ls[0]] =~= ls);
    } else {
        let d = ls.drop_last();
        assert forall|i: int| 0 <= i < d.len() implies free_of(#[trigger] d[i], '\n') by {
            assert(d[i] == ls[i]);
        }
        lemma_split_join(d);
        assert(free_of(ls[ls.len() - 1], '\n'));
        lemma_split_after_newline(join_lines(d), ls.last());
        assert(d.push(ls.last()) =~= ls);
    }
}

proof fn lemma_expand_tabs_id(l: Seq<char>)
    requires
        free_of(l, '\t'),
    ensures
        expand_tabs(l) == l,
    decreases l.len(),
{
    if l.len() > 0 {
        let d = l.drop_last();
        assert(free_of(d, '\t')) by {
            assert forall|k: int| 0 <= k < d.len() implies #[trigger] d[k] != '\t' by {
                assert(d[k] == l[k]);
            }
        }
        lemma_expand_tabs_id(d);
        assert(d.push(l.last()) =~= l);
    }
}

proof fn lemma_clean_line_id(l: Seq<char>)
    requires
        line_is_clean(l),
    ensures
        clean_line(l) == l,
{
    assert(free_of(l, '\t'));
    lemma_expand_tabs_id(l);
}

proof fn lemma_collapse_id(ls: Seq<Seq<char>>)
    requires
        no_double_blank(ls),
    ensures
        collapse_blank_runs(ls) == ls,
    decreases ls.len(),
{
    if ls.len() > 0 {
        let d = ls.drop_last();
        assert forall|i: int, j: int|
            0 <= i && j == i + 1 && j < d.len() implies !(#[trigger] d[i].len() == 0
            && #[trigger] d[j].len() == 0) by {
            assert(d[i] == ls[i] && d[j] == ls[j]);
        }
        lemma_collapse_id(d);
        if ls.len() >= 2 {
            assert(!(ls[ls.len() - 2].len() == 0 && ls[ls.len() - 1].len() == 0));
        }
        assert(d.push(ls.last()) =~= ls);
    }
}

/// Formatting is idempotent: formatted text is left as it is.
pub proof fn lemma_format_idempotent(s: Seq<char>)
    ensures
        format_spec(format_spec(s)) == format_spec(s),
{
    let ls = formatted_lines(s);
    lemma_formatted_lines_props(s);
    if ls.len() == 0 {
        let e = Seq::<char>::empty();
        assert(normalize_newlines(e) == e);
        let p = split_lines(e);
        let cleaned = p.map_values(|l| clean_line(l));
        assert(expand_tabs(e) == e);
        assert(cleaned =~= seq![e]);
        let none = Seq::<Seq<char>>::empty();
        assert(seq![e].drop_last() =~= none);
        assert(seq![e].last() == e);
        assert(collapse_blank_runs(none) == none);
        assert(none.push(e) =~= seq![e]);
        assert(collapse_blank_runs(seq![e]) =~= seq![e]);
        assert(seq![e].drop_first() =~= none);
        assert(seq![e][0].len() == 0);
        assert(strip_leading_blank(none) == none);
        assert(strip_leading_blank(seq![e]) =~= none);
    } else {
        let j = join_lines(ls);
        let x = j.push('\n');
        assert forall|i: int| 0 <= i < ls.len() implies free_of(#[trigger] ls[i], '\r') by {
            assert(line_is_clean(ls[i]));
        }
        assert forall|i: int| 0 <= i < ls.len() implies free_of(#[trigger] ls[i], '\n') by {
            assert(line_is_clean(ls[i]));
        }
        lemma_join_free_of(ls, '\r');
        assert(free_of(x, '\r')) by {
            assert forall|k: int| 0 <= k < x.len() implies #[trigger] x[k] != '\r' by {
                if k < j.len() {
                    assert(x[k] == j[k]);
                }
            }
        }
        lemma_normalize_id(x);
        assert(x.drop_last() =~= j);
        lemma_split_join(ls);
        let e = Seq::<char>::empty();
        let pieces = ls.push(e);
        assert(split_lines(x) == pieces);
        let cleaned = pieces.map_values(|l| clean_line(l));
        assert forall|i: int| 0 <= i < pieces.len() implies #[trigger] cleaned[i] == pieces[i] by {
            if i < ls.len() {
                lemma_clean_line_id(ls[i]);
            } else {
                assert(expand_tabs(e) == e);
            }
        }
        assert(cleaned =~= pieces);
        lemma_collapse_id(ls);
        assert(pieces.drop_last() =~= ls);
        assert(ls.last() == ls[ls.len() - 1]);
        assert(collapse_blank_runs(pieces) == pieces);
        assert(strip_leading_blank(pieces) == pieces);
        assert(strip_trailing_blank(pieces) == strip_trailing_blank(ls));
        assert(strip_trailing_blank(ls) == ls);
        assert(formatted_lines(x) == ls);
    }
}

fn normalize_newlines_exec(cs: &Vec<char>) -> (r: Vec<char>)
    ensures
        r@ == normalize_newlines(cs@),
{
    let n = cs.len();
    let mut out: Vec<char> = Vec::new();
    let mut i: usize = 0;
    assert(cs@.skip(0) =~= cs@);
    while i < n
        invariant
            n == cs@.len(),
            i <= n,
            normalize_newlines(cs@) == out@ + normalize_newlines(cs@.skip(i as int)),
        decreases n - i,
    {
        let ghost rest = cs@.skip(i as int);
        let ghost before = out@;
        if cs[i] == '\r' && i + 1 < n && cs[i + 1] == '\n' {
            assert(rest.skip(2) =~= cs@.skip(i + 2));
            out.push('\n');
            i = i + 2;
            assert(before + (seq!['\n'] + normalize_newlines(rest.skip(2))) =~= out@
                + normalize_newlines(cs@.skip(i as int)));
        } else if cs[i] == '\r' {
            assert(rest.skip(1) =~= cs@.skip(i + 1));
            out.push('\n');
            i = i + 1;
            assert(before + (seq!['\n'] + normalize_newlines(rest.skip(1))) =~= out@
                + normalize_newlines(cs@.skip(i as int)));
        } else {
            assert(rest.skip(1) =~= cs@.skip(i + 1));
            let c = cs[i];
            out.push(c);
            i = i + 1;
            assert(before + (seq![c] + normalize_newlines(rest.skip(1))) =~= out@
                + normalize_newlines(cs@.skip(i as int)));
        }
    }
    assert(cs@.skip(n as int) =~= Seq::<char>::empty());
    assert(out@ + Seq::<char>::empty() =~= out@);
    out
}

pub(crate) fn split_lines_exec(cs: &Vec<char>) -> (r: Vec<Vec<char>>)
    ensures
        views(r@) == split_lines(cs@),
{
    let n = cs.len();
    let mut lines: Vec<Vec<char>> = Vec::new();
    let mut cur: Vec<char> = Vec::new();
    let mut i: usize = 0;
    assert(cs@.take(0) =~= Seq::<char>::empty());
    assert(views(lines@).push(cur@) =~= split_lines(cs@.take(0)));
    while i < n
        invariant
            n == cs@.len(),
            i <= n,
            views(lines@).push(cur@) == split_lines(cs@.take(i as int)),
        decreases n - i,
    {
        let c = cs[i];
        assert(cs@.take(i + 1).drop_last() =~= cs@.take(i as int));
        assert(cs@.take(i + 1).last() == c);
        let ghost before = views(lines@);
        if c == '\n' {
            let done = cur;
            let ghost dv = done@;
            lines.push(done);
            cur = Vec::new();
            assert(views(lines@) =~= before.push(dv));
            assert(views(lines@).push(cur@) =~= before.push(dv).push(Seq::empty()));
        } else {
            let ghost old_cur = cur@;
            cur.push(c);
            assert(views(lines@) =~= before);
            assert(views(lines@).push(cur@) =~= before.push(old_cur).update(
                before.len() as int,
                old_cur.push(c),
            ));
        }
        i = i + 1;
    }
    assert(cs@.take(n as int) =~= cs@);
    let ghost before = views(lines@);
    let ghost cv = cur@;
    lines.push(cur);
    assert(views(lines@) =~= before.push(cv));
    lines
}

fn expand_tabs_exec(l: &Vec<char>) -> (r: Vec<char>)
    ensures
        r@ == expand_tabs(l@),
{
    let mut out: Vec<char> = Vec::new();
    let mut i: usize = 0;
    assert(l@.take(0) =~= Seq::<char>::empty());
    while i < l.len()
        invariant
            i <= l@.len(),
            out@ == expand_tabs(l@.take(i as int)),
        decreases l.len() - i,
    {
        let c = l[i];
        assert(l@.take(i + 1).drop_last() =~= l@.take(i as int));
        assert(l@.take(i + 1).last() == c);
        let ghost before = out@;
        if c == '\t' {
            out.push(' ');
            out.push(' ');
            assert(out@ =~= before + seq![' ', ' ']);
        } else {
            out.push(c);
        }
        i = i + 1;
    }
    assert(l@.take(l@.len() as int) =~= l@);
    out
}


fn trim_end_exec(l: Vec<char>) -> (r: Vec<char>)
    ensures
        r@ == trim_end(l@),
{
    let mut out = l;
    let ghost orig = out@;
    assert(orig.take(orig.len() as int) =~= orig);
    while out.len() > 0 && is_whitespace(out[out.len() - 1])
        invariant
            out@.len() <= orig.len(),
            out@ == orig.take(out@.len() as int),
            trim_end(orig) == trim_end(out@),
        decreases out.len(),
    {
        let ghost before = out@;
        out.pop();
        assert(out@ =~= before.drop_last());
        assert(out@ =~= orig.take(out@.len() as int));
    }
    out
}

fn clean_line_exec(l: &Vec<char>) -> (r: Vec<char>)
    ensures
        r@ == clean_line(l@),
{
    trim_end_exec(expand_tabs_exec(l))
}

/// The cleaned lines with runs of blank lines collapsed to one.
fn clean_and_collapse(lines: &Vec<Vec<char>>) -> (r: Vec<Vec<char>>)
    ensures
        views(r@) == collapse_blank_runs(views(lines@).map_values(|l| clean_line(l))),
{
    let ghost cleaned = views(lines@).map_values(|l| clean_line(l));
    let mut out: Vec<Vec<char>> = Vec::new();
    let mut prev_blank = false;
    let mut i: usize = 0;
    assert(cleaned.take(0) =~= Seq::<Seq<char>>::empty());
    assert(views(out@) =~= Seq::<Seq<char>>::empty());
    while i < lines.len()
        invariant
            i <= lines@.len(),
            cleaned == views(lines@).map_values(|l| clean_line(l)),
            cleaned.len() == lines@.len(),
            views(out@) == collapse_blank_runs(cleaned.take(i as int)),
            prev_blank == (i > 0 && cleaned[i - 1].len() == 0),
        decreases lines.len() - i,
    {
        let line = clean_line_exec(&lines[i]);
        assert(views(lines@)[i as int] == lines@[i as int]@);
        assert(cleaned[i as int] == line@);
        let ghost t = cleaned.take(i + 1);
        assert(t.drop_last() =~= cleaned.take(i as int));
        assert(t.last() == line@);
        if line.len() == 0 {
            if prev_blank {
                assert(t[t.len() - 2] == cleaned[i - 1]);
            } else {
                let ghost before = views(out@);
                out.push(line);
                assert(views(out@) =~= before.push(t.last()));
            }
            prev_blank = true;
        } else {
            let ghost before = views(out@);
            let ghost lv = line@;
            out.push(line);
            assert(views(out@) =~= before.push(lv));
            prev_blank = false;
        }
        i = i + 1;
    }
    assert(cleaned.take(lines@.len() as int) =~= cleaned);
    out
}

/// Drops the blank lines at both ends: the result is `ls[start..end]`.
fn strip_blank_ends(ls: &Vec<Vec<char>>) -> (r: (usize, usize))
    ensures
        r.0 <= r.1 <= ls@.len(),
        views(ls@).subrange(r.0 as int, r.1 as int) == strip_trailing_blank(
            strip_leading_blank(views(ls@)),
        ),
{
    let ghost v = views(ls@);
    let n = ls.len();
    let mut a: usize = 0;
    assert(v.skip(0) =~= v);
    while a < n && ls[a].len() == 0
        invariant
            n == v.len(),
            v == views(ls@),
            a <= n,
            strip_leading_blank(v) == strip_leading_blank(v.skip(a as int)),
        decreases n - a,
    {
        assert(v[a as int] == ls@[a as int]@);
        assert(v.skip(a as int).drop_first() =~= v.skip(a + 1));
        a = a + 1;
    }
    proof {
        if a < n {
            assert(v[a as int] == ls@[a as int]@);
        }
    }
    assert(strip_leading_blank(v.skip(a as int)) == v.skip(a as int));
    let ghost s = v.skip(a as int);
    let mut b: usize = n;
    assert(s.take(s.len() as int) =~= s);
    while b > a && ls[b - 1].len() == 0
        invariant
            n == v.len(),
            v == views(ls@),
            s == v.skip(a as int),
            a <= b <= n,
            strip_trailing_blank(s) == strip_trailing_blank(s.take(b - a)),
        decreases b,
    {
        assert(v[b - 1] == ls@[b - 1]@);
        assert(s.take(b - a).drop_last() =~= s.take(b - 1 - a));
        b = b - 1;
    }
    proof {
        if b > a {
            assert(v[b - 1] == ls@[b - 1]@);
            assert(s.take(b - a).last() == v[b - 1]);
        }
    }
    assert(s.take(b - a) =~= v.subrange(a as int, b as int));
    (a, b)
}

/// `ls[start..end]` joined with `\n`, followed by a final `\n`.
fn join_range_with_newline(ls: &Vec<Vec<char>>, start: usize, end: usize) -> (r: Vec<char>)
    requires
        start < end <= ls@.len(),
    ensures
        r@ == join_lines(views(ls@).subrange(start as int, end as int)).push('\n'),
{
    let ghost v = views(ls@).subrange(start as int, end as int);
    let mut out: Vec<char> = Vec::new();
    let mut k: usize = start;
    while k < end
        invariant
            start <= k <= end,
            end <= ls@.len(),
            v == views(ls@).subrange(start as int, end as int),
            k == start ==> out@.len() == 0,
            k > start ==> out@ == join_lines(v.take(k - start)),
        decreases end - k,
    {
        let ghost before = out@;
        assert(v[k - start] == ls@[k as int]@);
        let ghost t = v.take(k + 1 - start);
        assert(t.last() == ls@[k as int]@);
        if k > start {
            out.push('\n');
            assert(t.drop_last() =~= v.take(k - start));
        } else {
            assert(t.len() == 1);
        }
        let line = &ls[k];
        let mut j: usize = 0;
        let ghost mid = out@;
        while j < line.len()
            invariant
                j <= line@.len(),
                out@ == mid + line@.take(j as int),
            decreases line.len() - j,
        {
            out.push(line[j]);
            assert(line@.take(j + 1) =~= line@.take(j as int).push(line@[j as int]));
            assert(out@ =~= mid + line@.take(j + 1));
            j = j + 1;
        }
        assert(line@.take(line@.len() as int) =~= line@);
        proof {
            if k > start {
                assert(out@ =~= join_lines(t.drop_last()) + seq!['\n'] + t.last());
            } else {
                assert(out@ =~= t[0]);
            }
        }
        k = k + 1;
    }
    assert(v.take(end - start) =~= v);
    out.push('\n');
    out
}

/// Formats source text: line endings become `\n`, tabs become two spaces,
/// trailing whitespace is removed, runs of blank lines shrink to one, blank
/// lines at the start and end are dropped, and the text ends with one `\n`
/// (the empty string when nothing is left).
pub fn format_source(input: &str) -> (r: String)
    ensures
        r@ == format_spec(input@),
{
    let cs = chars_of(input);
    let normalized = normalize_newlines_exec(&cs);
    let lines = split_lines_exec(&normalized);
    let collapsed = clean_and_collapse(&lines);
    let (a, b) = strip_blank_ends(&collapsed);
    if a == b {
        return String::new();
    }
    let out = join_range_with_newline(&collapsed, a, b);
    string_of(out.as_slice())
}

/// Whether formatting would change the text.
pub fn needs_formatting(input: &str) -> (r: bool)
    ensures
        r == (format_spec(input@) != input@),
{
    let formatted = format_source(input);
    !str_eq(formatted.as_str(), input)
}

} // verus!
