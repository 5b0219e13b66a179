use vstd::prelude::*;

pub mod local_types;
pub mod value_class;

use crate::text::{chars_of, to_owned_string};

verus! {

/// What the object emitter is asked to produce.
#[derive(Debug, Clone)]
pub struct CodegenOptions {
    pub target: String,
    pub profile: String,
    pub debuginfo: String,
}

impl Default for CodegenOptions {
    /// Linux on x86-64, the `dev` profile, line-level debug information.
    fn default() -> (r: Self)
        ensures
            r.target@ == "x86_64-unknown-linux-gnu"@,
            r.profile@ == "dev"@,
            r.debuginfo@ == "line"@,
    {
        CodegenOptions {
            target: to_owned_string("x86_64-unknown-linux-gnu"),
            profile: to_owned_string("dev"),
            debuginfo: to_owned_string("line"),
        }
    }
}

/// The ASCII digits of a text, in order.
pub open spec fn ascii_digits(s: Seq<char>) -> Seq<char>
    decreases s.len(),
{
    if s.len() == 0 {
        s
    } else if '0' <= s.last() <= '9' {
        ascii_digits(s.drop_last()).push(s.last())
    } else {
        ascii_digits(s.drop_last())
    }
}

/// The number a string of decimal digits denotes.
pub open spec fn decimal_value(d: Seq<char>) -> int
    decreases d.len(),
{
    if d.len() == 0 {
        0
    } else {
        decimal_value(d.drop_last()) * 10 + (d.last() as int - '0' as int)
    }
}

/// The milliseconds of a duration literal: the number its digits form,
/// or zero when it has none or the number does not fit an `i64`.
pub open spec fn duration_millis(s: Seq<char>) -> int {
    let d = ascii_digits(s);
    if d.len() == 0 || decimal_value(d) > i64::MAX {
        0
    } else {
        decimal_value(d)
    }
}

proof fn lemma_decimal_value_mono(d: Seq<char>, k: int)
    requires
        0 <= k <= d.len(),
        forall|i: int| 0 <= i < d.len() ==> '0' <= #[trigger] d[i] <= '9',
    ensures
        0 <= decimal_value(d.take(k)) <= decimal_value(d),
    decreases d.len(),
{
    if k == d.len() {
        assert(d.take(k) =~= d);
        lemma_decimal_value_nonneg(d);
    } else {
        let e = d.drop_last();
        assert(e.take(k) =~= d.take(k));
        lemma_decimal_value_mono(e, k);
        lemma_decimal_value_nonneg(e);
    }
}

proof fn lemma_decimal_value_nonneg(d: Seq<char>)
    requires
        forall|i: int| 0 <= i < d.len() ==> '0' <= #[trigger] d[i] <= '9',
    ensures
        decimal_value(d) >= 0,
    decreases d.len(),
{
    if d.len() > 0 {
        lemma_decimal_value_nonneg(d.drop_last());
    }
}

proof fn lemma_ascii_digits_are_digits(s: Seq<char>)
    ensures
        forall|i: int| 0 <= i < ascii_digits(s).len() ==> '0' <= #[trigger] ascii_digits(s)[i] <= '9',
    decreases s.len(),
{
    if s.len() > 0 {
        lemma_ascii_digits_are_digits(s.drop_last());
        let p = ascii_digits(s.drop_last());
        if '0' <= s.last() <= '9' {
            assert forall|i: int| 0 <= i < p.push(s.last()).len() implies '0' <= #[trigger] p.push(
                s.last(),
            )[i] <= '9' by {
                if i < p.len() {
                    assert(p.push(s.last())[i] == p[i]);
                }
            }
        }
    }
}

/// The number of milliseconds written in a duration literal such as
/// `250ms`: its digits read as one decimal number, zero when there are
/// none or they overflow.
pub fn parse_duration_literal(duration_literal: &str) -> (r: i64)
    ensures
        r == duration_millis(duration_literal@),
{
    let cs = chars_of(duration_literal);
    let mut digits: Vec<char> = Vec::new();
    let mut i: usize = 0;
    assert(cs@.take(0) =~= Seq::<char>::empty());
    while i < cs.len()
        invariant
            i <= cs@.len(),
            digits@ == ascii_digits(cs@.take(i as int)),
        decreases cs.len() - i,
    {
        assert(cs@.take(i + 1).drop_last() =~= cs@.take(i as int));
        assert(cs@.take(i + 1).last() == cs@[i as int]);
        if '0' <= cs[i] && cs[i] <= '9' {
            digits.push(cs[i]);
        }
        i = i + 1;
    }
    assert(cs@.take(cs@.len() as int) =~= cs@);
    let ghost d = digits@;
    assert(d == ascii_digits(duration_literal@));
    if digits.len() == 0 {
        return 0;
    }
    proof {
        lemma_ascii_digits_are_digits(duration_literal@);
    }
    let mut acc: i64 = 0;
    let mut k: usize = 0;
    assert(d.take(0) =~= Seq::<char>::empty());
    while k < digits.len()
        invariant
            d == digits@,
            d == ascii_digits(duration_literal@),
            k <= d.len(),
            forall|i: int| 0 <= i < d.len() ==> '0' <= #[trigger] d[i] <= '9',
            acc == decimal_value(d.take(k as int)),
            acc >= 0,
        decreases digits.len() - k,
    {
        assert(d.take(k + 1).drop_last() =~= d.take(k as int));
        assert(d.take(k + 1).last() == d[k as int]);
        let v = (digits[k] as u32 - '0' as u32) as i64;
        assert(v == d[k as int] as int - '0' as int);
        assert(decimal_value(d.take(k + 1)) == acc * 10 + v);
        match acc.checked_mul(10) {
            Some(m) => match m.checked_add(v) {
                Some(n) => {
                    acc = n;
                },
                None => {
                    proof {
                        lemma_decimal_value_mono(d, k + 1);
                    }
                    return 0;
                },
            },
            None => {
                proof {
                    lemma_decimal_value_mono(d, k + 1);
                    assert(decimal_value(d.take(k + 1)) >= acc * 10) by (nonlinear_arith)
                        requires
                            decimal_value(d.take(k + 1)) == acc * 10 + v,
                            v >= 0,
                    ;
                }
                return 0;
            },
        }
        k = k + 1;
    }
    assert(d.take(d.len() as int) =~= d);
    acc
}

/// The fields (name, type) that a type definition lists, if `name` is
/// defined; definitions are looked up by their first entry.
pub open spec fn type_fields(
    defs: Seq<(Seq<char>, Seq<(Seq<char>, Seq<char>)>)>,
    name: Seq<char>,
) -> Option<Seq<(Seq<char>, Seq<char>)>>
    decreases defs.len(),
{
    if defs.len() == 0 {
        None
    } else if defs[0].0 == name {
        Some(defs[0].1)
    } else {
        type_fields(defs.drop_first(), name)
    }
}

/// The JSON codec schema of a type: its fields as `name:type` joined with
/// `;`, a field of a defined type giving that type's schema in braces (or
/// `Str` past the nesting limit). `None` for an undefined type or past a
/// nesting depth of 16.
pub open spec fn codec_schema(
    defs: Seq<(Seq<char>, Seq<(Seq<char>, Seq<char>)>)>,
    name: Seq<char>,
    depth: nat,
) -> Option<Seq<char>>
    decreases 17 - depth, 1nat, 0nat,
{
    if depth > 16 {
        None
    } else {
        match type_fields(defs, name) {
            None => None,
            Some(fields) => Some(codec_fields(defs, fields, depth)),
        }
    }
}

/// The schema text of a list of fields at a nesting depth.
pub open spec fn codec_fields(
    defs: Seq<(Seq<char>, Seq<(Seq<char>, Seq<char>)>)>,
    fields: Seq<(Seq<char>, Seq<char>)>,
    depth: nat,
) -> Seq<char>
    decreases 17 - depth, 0nat, fields.len(),
{
    if fields.len() == 0 {
        Seq::empty()
    } else {
        let before = codec_fields(defs, fields.drop_last(), depth);
        let (field, ty) = fields.last();
        let sep = if fields.len() > 1 {
            seq![';']
        } else {
            Seq::empty()
        };
        let nested = if type_fields(defs, ty).is_some() {
            let inner = if depth >= 16 {
                None
            } else {
                codec_schema(defs, ty, depth + 1)
            };
            match inner {
                Some(n) => seq!['{'] + n + seq!['}'],
                None => seq!['S', 't', 'r'],
            }
        } else {
            ty
        };
        before + sep + field + seq![':'] + nested
    }
}

pub open spec fn defs_view(defs: Seq<(String, Vec<(String, String)>)>) -> Seq<(Seq<char>, Seq<(Seq<char>, Seq<char>)>)> {
    defs.map_values(
        |d: (String, Vec<(String, String)>)| (d.0@, crate::pkg::resolve::pair_views(d.1@)),
    )
}

fn find_type(defs: &Vec<(String, Vec<(String, String)>)>, name: &str) -> (r: Option<usize>)
    ensures
        match type_fields(defs_view(defs@), name@) {
            Some(f) => r.is_some() && r.unwrap() < defs@.len() && crate::pkg::resolve::pair_views(
                defs@[r.unwrap() as int].1@,
            ) == f,
            None => r.is_none(),
        },
{
    let ghost dv = defs_view(defs@);
    let mut i: usize = 0;
    assert(dv.skip(0) =~= dv);
    while i < defs.len()
        invariant
            dv == defs_view(defs@),
            i <= dv.len(),
            type_fields(dv, name@) == type_fields(dv.skip(i as int), name@),
        decreases defs.len() - i,
    {
        assert(dv.skip(i as int)[0] == dv[i as int]);
        if crate::text::str_eq(defs[i].0.as_str(), name) {
            return Some(i);
        }
        assert(dv.skip(i as int).drop_first() =~= dv.skip(i + 1));
        i = i + 1;
    }
    None
}

fn codec_schema_at(defs: &Vec<(String, Vec<(String, String)>)>, name: &str, depth: usize) -> (r: Option<String>)
    requires
        depth <= 17,
    ensures
        match codec_schema(defs_view(defs@), name@, depth as nat) {
            Some(t) => r.is_some() && r.unwrap()@ == t,
            None => r.is_none(),
        },
    decreases 17 - depth,
{
    if depth > 16 {
        return None;
    }
    let k = match find_type(defs, name) {
        None => {
            return None;
        },
        Some(k) => k,
    };
    let fields = &defs[k].1;
    let ghost dv = defs_view(defs@);
    let ghost fv = crate::pkg::resolve::pair_views(fields@);
    let mut out = String::new();
    let mut i: usize = 0;
    assert(fv.take(0) =~= Seq::<(Seq<char>, Seq<char>)>::empty());
    while i < fields.len()
        invariant
            dv == defs_view(defs@),
            fv == crate::pkg::resolve::pair_views(fields@),
            depth <= 16,
            i <= fv.len(),
            out@ == codec_fields(dv, fv.take(i as int), depth as nat),
        decreases fields.len() - i,
    {
        let ghost before = out@;
        assert(fv.take(i + 1).drop_last() =~= fv.take(i as int));
        assert(fv.take(i + 1).last() == fv[i as int]);
        assert(fv[i as int] == (fields@[i as int].0@, fields@[i as int].1@));
        if i > 0 {
            crate::text::push_char(&mut out, ';');
        }
        crate::text::push_str(&mut out, fields[i].0.as_str());
        crate::text::push_char(&mut out, ':');
        let ty = fields[i].1.as_str();
        match find_type(defs, ty) {
            Some(_) => {
                let inner = if depth >= 16 {
                    None
                } else {
                    codec_schema_at(defs, ty, depth + 1)
                };
                match inner {
                    Some(n) => {
                        crate::text::push_char(&mut out, '{');
                        crate::text::push_str(&mut out, n.as_str());
                        crate::text::push_char(&mut out, '}');
                    },
                    None => {
                        crate::text::push_str(&mut out, "Str");
                        proof {
                            reveal_strlit("Str");
                        }
                    },
                }
            },
            None => {
                crate::text::push_str(&mut out, ty);
            },
        }
        assert(out@ =~= codec_fields(dv, fv.take(i + 1), depth as nat));
        i = i + 1;
    }
    assert(fv.take(fv.len() as int) =~= fv);
    Some(out)
}

/// The JSON codec schema of the type `name` (see `codec_schema`).
pub fn json_codec_schema(name: &str, type_defs: &Vec<(String, Vec<(String, String)>)>) -> (r: Option<
    String,
>)
    ensures
        match codec_schema(defs_view(type_defs@), name@, 0) {
            Some(t) => r.is_some() && r.unwrap()@ == t,
            None => r.is_none(),
        },
{
    codec_schema_at(type_defs, name, 0)
}

} // verus!
