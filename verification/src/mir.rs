use vstd::prelude::*;

pub mod lower;
pub mod optimize;
pub mod program;

use crate::fmt::{is_whitespace, is_whitespace_spec, trim_end};
use crate::text::{chars_equal, chars_of, string_of};

verus! {

/// A parameter of a lowered function.
#[derive(Debug, Clone, Default)]
pub struct MirParam {
    pub name: String,
    pub ty: MirType,
}

/// The value types of the mid-level representation.
#[derive(Debug, Clone, Copy, PartialEq, Eq, Structural, Default)]
pub enum MirType {
    I64,
    F64,
    Bool,
    Str,
    Bytes,
    Json,
    JsonBuilder,
    Result,
    Void,
    #[default]
    Unknown,
    /// Opaque pointer (closure env, closure value, etc.).
    Ptr,
}

/// How a `for` loop walks its collection.
#[derive(Debug, Clone, Copy, PartialEq, Eq, Structural)]
pub enum MirForIterKind {
    List,
    MapInt,
    MapStr,
    Unknown,
}

/// Which side of a contract a check belongs to.
#[derive(Debug, Clone, Copy, PartialEq, Eq, Structural)]
pub enum MirContractKind {
    Require,
    Ensure,
}

/// `s` with every whitespace character removed.
pub open spec fn without_whitespace(s: Seq<char>) -> Seq<char>
    decreases s.len(),
{
    if s.len() == 0 {
        s
    } else if is_whitespace_spec(s.last()) {
        without_whitespace(s.drop_last())
    } else {
        without_whitespace(s.drop_last()).push(s.last())
    }
}

/// `s` with every space removed.
pub open spec fn without_spaces(s: Seq<char>) -> Seq<char>
    decreases s.len(),
{
    if s.len() == 0 {
        s
    } else if s.last() == ' ' {
        without_spaces(s.drop_last())
    } else {
        without_spaces(s.drop_last()).push(s.last())
    }
}

pub open spec fn starts_with(s: Seq<char>, p: Seq<char>) -> bool {
    p.len() <= s.len() && s.subrange(0, p.len() as int) == p
}

/// `s` without its leading whitespace.
pub open spec fn trim_start(s: Seq<char>) -> Seq<char>
    decreases s.len(),
{
    if s.len() > 0 && is_whitespace_spec(s[0]) {
        trim_start(s.drop_first())
    } else {
        s
    }
}

pub open spec fn trim(s: Seq<char>) -> Seq<char> {
    trim_start(trim_end(s))
}

/// The type a (space-free) type name denotes.
pub open spec fn type_of_name(n: Seq<char>) -> MirType {
    if n == "Int"@ {
        MirType::I64
    } else if n == "Float"@ {
        MirType::F64
    } else if n == "Bool"@ {
        MirType::Bool
    } else if n == "Str"@ {
        MirType::Str
    } else if n == "Bytes"@ {
        MirType::Bytes
    } else if n == "Json"@ {
        MirType::Json
    } else if n == "JsonBuilder"@ {
        MirType::JsonBuilder
    } else if n == "Result"@ {
        MirType::Result
    } else if n == "Void"@ {
        MirType::Void
    } else if n == "Ptr"@ {
        MirType::Ptr
    } else if starts_with(n, "Result<"@) {
        MirType::Result
    } else {
        MirType::Unknown
    }
}

pub open spec fn parse_type_name_spec(raw: Seq<char>) -> MirType {
    type_of_name(without_spaces(raw))
}

pub open spec fn mir_type_name_spec(t: MirType) -> Seq<char> {
    match t {
        MirType::I64 => "I64"@,
        MirType::F64 => "F64"@,
        MirType::Bool => "Bool"@,
        MirType::Str => "Str"@,
        MirType::Bytes => "Bytes"@,
        MirType::Json => "Json"@,
        MirType::JsonBuilder => "JsonBuilder"@,
        MirType::Result => "Result"@,
        MirType::Void => "Void"@,
        MirType::Unknown => "Unknown"@,
        MirType::Ptr => "Ptr"@,
    }
}

pub open spec fn classify_for_iter_kind_spec(raw: Seq<char>) -> MirForIterKind {
    let n = without_spaces(raw);
    if starts_with(n, "List<"@) {
        MirForIterKind::List
    } else if starts_with(n, "Map<Int,"@) {
        MirForIterKind::MapInt
    } else if starts_with(n, "Map<Str,"@) {
        MirForIterKind::MapStr
    } else {
        MirForIterKind::Unknown
    }
}

/// Parenthesis balance of `s`: `(` counts one up, `)` one down.
pub open spec fn paren_depth(s: Seq<char>) -> int
    decreases s.len(),
{
    if s.len() == 0 {
        0
    } else if s.last() == '(' {
        paren_depth(s.drop_last()) + 1
    } else if s.last() == ')' {
        paren_depth(s.drop_last()) - 1
    } else {
        paren_depth(s.drop_last())
    }
}

/// The pieces of `s` between the commas that stand outside parentheses.
pub open spec fn top_level_pieces(s: Seq<char>) -> Seq<Seq<char>>
    decreases s.len(),
{
    if s.len() == 0 {
        seq![Seq::empty()]
    } else {
        let p = top_level_pieces(s.drop_last());
        if s.last() == ',' && paren_depth(s.drop_last()) == 0 {
            p.push(Seq::empty())
        } else {
            p.update(p.len() - 1, p.last().push(s.last()))
        }
    }
}

pub open spec fn split_fn_param_list_spec(s: Seq<char>) -> Seq<Seq<char>> {
    top_level_pieces(s).map_values(|p: Seq<char>| trim(p))
}

/// The index of the `)` that closes an already open `(`, scanning from `i`
/// with `depth` parentheses opened since.
pub open spec fn find_close(s: Seq<char>, i: int, depth: int) -> Option<int>
    decreases s.len() - i,
{
    if i < 0 || i >= s.len() {
        None
    } else if s[i] == '(' {
        find_close(s, i + 1, depth + 1)
    } else if s[i] == ')' {
        if depth > 0 {
            find_close(s, i + 1, depth - 1)
        } else {
            Some(i)
        }
    } else {
        find_close(s, i + 1, depth)
    }
}

/// The parameter and return types of a `fn(T1, T2, ...) -> R` type.
pub open spec fn parse_fn_mir_sig_spec(ty: Seq<char>) -> Option<(Seq<MirType>, MirType)> {
    let c = without_whitespace(ty);
    if !starts_with(c, "fn("@) {
        None
    } else {
        let rest = c.skip(3);
        match find_close(rest, 0, 0) {
            None => None,
            Some(i) => {
                let params = rest.subrange(0, i);
                let after = rest.skip(i + 1);
                if !starts_with(after, "->"@) {
                    None
                } else {
                    let ret = parse_type_name_spec(without_whitespace(after.skip(2)));
                    let ps = if params.len() == 0 {
                        Seq::empty()
                    } else {
                        split_fn_param_list_spec(params).map_values(
                            |p: Seq<char>| parse_type_name_spec(without_whitespace(p)),
                        )
                    };
                    Some((ps, ret))
                }
            },
        }
    }
}

fn without_whitespace_exec(s: &[char]) -> (r: Vec<char>)
    ensures
        r@ == without_whitespace(s@),
{
    let mut out: Vec<char> = Vec::new();
    let mut i: usize = 0;
    assert(s@.take(0) =~= Seq::<char>::empty());
    while i < s.len()
        invariant
            i <= s@.len(),
            out@ == without_whitespace(s@.take(i as int)),
        decreases s.len() - i,
    {
        assert(s@.take(i + 1).drop_last() =~= s@.take(i as int));
        assert(s@.take(i + 1).last() == s@[i as int]);
        if !is_whitespace(s[i]) {
            out.push(s[i]);
        }
        i = i + 1;
    }
    assert(s@.take(s@.len() as int) =~= s@);
    out
}

fn without_spaces_exec(s: &[char]) -> (r: Vec<char>)
    ensures
        r@ == without_spaces(s@),
{
    let mut out: Vec<char> = Vec::new();
    let mut i: usize = 0;
    assert(s@.take(0) =~= Seq::<char>::empty());
    while i < s.len()
        invariant
            i <= s@.len(),
            out@ == without_spaces(s@.take(i as int)),
        decreases s.len() - i,
    {
        assert(s@.take(i + 1).drop_last() =~= s@.take(i as int));
        assert(s@.take(i + 1).last() == s@[i as int]);
        if s[i] != ' ' {
            out.push(s[i]);
        }
        i = i + 1;
    }
    assert(s@.take(s@.len() as int) =~= s@);
    out
}

/// Whether `s` begins with the characters of `p`.
pub fn starts_with_str(s: &[char], p: &str) -> (r: bool)
    ensures
        r == starts_with(s@, p@),
{
    let pc = chars_of(p);
    if pc.len() > s.len() {
        return false;
    }
    let mut i: usize = 0;
    while i < pc.len()
        invariant
            pc@ == p@,
            pc@.len() <= s@.len(),
            i <= pc@.len(),
            forall|j: int| 0 <= j < i ==> s@[j] == pc@[j],
        decreases pc.len() - i,
    {
        if s[i] != pc[i] {
            assert(s@.subrange(0, pc@.len() as int)[i as int] != pc@[i as int]);
            return false;
        }
        i = i + 1;
    }
    assert(s@.subrange(0, pc@.len() as int) =~= pc@);
    true
}

fn type_of_name_exec(n: &[char]) -> (r: MirType)
    ensures
        r == type_of_name(n@),
{
    if chars_equal(n, "Int") {
        MirType::I64
    } else if chars_equal(n, "Float") {
        MirType::F64
    } else if chars_equal(n, "Bool") {
        MirType::Bool
    } else if chars_equal(n, "Str") {
        MirType::Str
    } else if chars_equal(n, "Bytes") {
        MirType::Bytes
    } else if chars_equal(n, "Json") {
        MirType::Json
    } else if chars_equal(n, "JsonBuilder") {
        MirType::JsonBuilder
    } else if chars_equal(n, "Result") {
        MirType::Result
    } else if chars_equal(n, "Void") {
        MirType::Void
    } else if chars_equal(n, "Ptr") {
        MirType::Ptr
    } else if starts_with_str(n, "Result<") {
        MirType::Result
    } else {
        MirType::Unknown
    }
}

/// The MIR type that a source type name denotes (spaces ignored); names
/// it does not know give `Unknown`.
pub fn parse_type_name(raw: &str) -> (r: MirType)
    ensures
        r == parse_type_name_spec(raw@),
{
    let cs = chars_of(raw);
    let n = without_spaces_exec(cs.as_slice());
    type_of_name_exec(n.as_slice())
}

fn parse_type_name_chars(raw: &[char]) -> (r: MirType)
    ensures
        r == parse_type_name_spec(raw@),
{
    let n = without_spaces_exec(raw);
    type_of_name_exec(n.as_slice())
}

/// The name of a MIR type.
pub fn mir_type_name(ty: &MirType) -> (r: &'static str)
    ensures
        r@ == mir_type_name_spec(*ty),
{
    match ty {
        MirType::I64 => "I64",
        MirType::F64 => "F64",
        MirType::Bool => "Bool",
        MirType::Str => "Str",
        MirType::Bytes => "Bytes",
        MirType::Json => "Json",
        MirType::JsonBuilder => "JsonBuilder",
        MirType::Result => "Result",
        MirType::Void => "Void",
        MirType::Unknown => "Unknown",
        MirType::Ptr => "Ptr",
    }
}

/// How a `for` loop over a value of the given source type walks it.
pub fn classify_for_iter_kind(raw_ty: &str) -> (r: MirForIterKind)
    ensures
        r == classify_for_iter_kind_spec(raw_ty@),
{
    let cs = chars_of(raw_ty);
    let n = without_spaces_exec(cs.as_slice());
    if starts_with_str(n.as_slice(), "List<") {
        MirForIterKind::List
    } else if starts_with_str(n.as_slice(), "Map<Int,") {
        MirForIterKind::MapInt
    } else if starts_with_str(n.as_slice(), "Map<Str,") {
        MirForIterKind::MapStr
    } else {
        MirForIterKind::Unknown
    }
}

/// Whether a source type is a function type `fn(...)` (whitespace ignored).
pub fn hir_expr_is_fn_type(ty: &str) -> (r: bool)
    ensures
        r == starts_with(without_whitespace(ty@), "fn("@),
{
    let cs = chars_of(ty);
    let compact = without_whitespace_exec(cs.as_slice());
    starts_with_str(compact.as_slice(), "fn(")
}

/// The MIR type of a parameter: function types are passed as pointers.
pub fn mir_param_ty_from_hir_raw(raw: &str) -> (r: MirType)
    ensures
        r == (if starts_with(without_whitespace(raw@), "fn("@) {
            MirType::Ptr
        } else {
            parse_type_name_spec(without_whitespace(raw@))
        }),
{
    let cs = chars_of(raw);
    let compact = without_whitespace_exec(cs.as_slice());
    if starts_with_str(compact.as_slice(), "fn(") {
        MirType::Ptr
    } else {
        parse_type_name_chars(compact.as_slice())
    }
}

pub fn trim_chars_pub(s: &[char]) -> (r: Vec<char>)
    ensures
        r@ == trim(s@),
{
    let mut b: usize = s.len();
    assert(s@.take(s@.len() as int) =~= s@);
    while b > 0 && is_whitespace(s[b - 1])
        invariant
            b <= s@.len(),
            trim_end(s@) == trim_end(s@.take(b as int)),
        decreases b,
    {
        assert(s@.take(b as int).drop_last() =~= s@.take(b - 1));
        b = b - 1;
    }
    let ghost t = s@.take(b as int);
    assert(trim_end(t) == t);
    let mut a: usize = 0;
    assert(t.skip(0) =~= t);
    while a < b && is_whitespace(s[a])
        invariant
            a <= b <= s@.len(),
            t == s@.take(b as int),
            trim_start(t) == trim_start(t.skip(a as int)),
        decreases b - a,
    {
        assert(t.skip(a as int).drop_first() =~= t.skip(a + 1));
        a = a + 1;
    }
    let r = crate::text::slice_range(s, a, b);
    assert(r@ =~= t.skip(a as int));
    r
}

/// The pieces of `s` at its top-level commas, each trimmed.
fn split_param_chars(s: &[char]) -> (r: Vec<Vec<char>>)
    ensures
        crate::order::views(r@) == split_fn_param_list_spec(s@),
{
    let ghost tp = |p: Seq<char>| trim(p);
    let mut out: Vec<Vec<char>> = Vec::new();
    let mut start: usize = 0;
    let mut opens: usize = 0;
    let mut closes: usize = 0;
    let mut i: usize = 0;
    assert(s@.take(0) =~= Seq::<char>::empty());
    assert(crate::order::views(out@) =~= top_level_pieces(s@.take(0)).drop_last().map_values(tp));
    while i < s.len()
        invariant
            start <= i <= s@.len(),
            opens <= i,
            closes <= i,
            paren_depth(s@.take(i as int)) == opens - closes,
            top_level_pieces(s@.take(i as int)).len() >= 1,
            crate::order::views(out@) == top_level_pieces(s@.take(i as int)).drop_last().map_values(
                tp,
            ),
            top_level_pieces(s@.take(i as int)).last() == s@.subrange(start as int, i as int),
            tp == (|p: Seq<char>| trim(p)),
        decreases s.len() - i,
    {
        let c = s[i];
        let ghost t = s@.take(i + 1);
        let ghost p = top_level_pieces(s@.take(i as int));
        assert(t.drop_last() =~= s@.take(i as int));
        assert(t.last() == c);
        if c == ',' && opens == closes {
            let piece = trim_chars_pub(crate::text::slice_range(s, start, i).as_slice());
            let ghost before = crate::order::views(out@);
            out.push(piece);
            assert(crate::order::views(out@) =~= before.push(trim(p.last())));
            assert(p.push(Seq::empty()).drop_last() =~= p);
            assert(p =~= p.drop_last().push(p.last()));
            assert(p.map_values(tp) =~= p.drop_last().map_values(tp).push(trim(p.last())));
            start = i + 1;
        } else {
            if c == '(' {
                opens = opens + 1;
            } else if c == ')' {
                closes = closes + 1;
            }
            let ghost q = p.update(p.len() - 1, p.last().push(c));
            assert(q.drop_last() =~= p.drop_last());
            assert(s@.subrange(start as int, i + 1) =~= s@.subrange(start as int, i as int).push(c));
        }
        i = i + 1;
    }
    assert(s@.take(s@.len() as int) =~= s@);
    let ghost p = top_level_pieces(s@);
    let piece = trim_chars_pub(crate::text::slice_range(s, start, s.len()).as_slice());
    let ghost before = crate::order::views(out@);
    out.push(piece);
    assert(crate::order::views(out@) =~= before.push(trim(p.last())));
    assert(p =~= p.drop_last().push(p.last()));
    assert(p.map_values(tp) =~= p.drop_last().map_values(tp).push(trim(p.last())));
    out
}

/// The parameters of a parameter list, split at the commas outside
/// parentheses and trimmed; always `Some`.
pub fn split_fn_param_list(s: &str) -> (r: Option<Vec<String>>)
    ensures
        r.is_some(),
        crate::order::views(r.unwrap()@) == split_fn_param_list_spec(s@),
{
    let cs = chars_of(s);
    let pieces = split_param_chars(cs.as_slice());
    let mut out: Vec<String> = Vec::new();
    let mut k: usize = 0;
    while k < pieces.len()
        invariant
            k <= pieces@.len(),
            crate::order::views(out@) == crate::order::views(pieces@).take(k as int),
        decreases pieces.len() - k,
    {
        let ghost before = crate::order::views(out@);
        out.push(string_of(pieces[k].as_slice()));
        assert(crate::order::views(out@) =~= before.push(pieces@[k as int]@));
        assert(crate::order::views(pieces@).take(k + 1) =~= crate::order::views(pieces@).take(
            k as int,
        ).push(pieces@[k as int]@));
        k = k + 1;
    }
    assert(crate::order::views(pieces@).take(pieces@.len() as int) =~= crate::order::views(pieces@));
    Some(out)
}

/// Finds the `)` that closes the parameter list of `rest` (what follows `fn(`).
fn find_close_exec(rest: &[char]) -> (r: Option<usize>)
    ensures
        match r {
            Some(i) => find_close(rest@, 0, 0) == Some(i as int) && i < rest@.len(),
            None => find_close(rest@, 0, 0).is_none(),
        },
{
    let mut depth: usize = 0;
    let mut i: usize = 0;
    while i < rest.len()
        invariant
            i <= rest@.len(),
            depth <= i,
            find_close(rest@, 0, 0) == find_close(rest@, i as int, depth as int),
        decreases rest.len() - i,
    {
        if rest[i] == '(' {
            depth = depth + 1;
        } else if rest[i] == ')' {
            if depth > 0 {
                depth = depth - 1;
            } else {
                return Some(i);
            }
        }
        i = i + 1;
    }
    None
}

/// Parses `fn(T1, T2, ...) -> R` (whitespace ignored) into the parameter
/// types and the return type; `None` when the text is not of that shape.
pub fn parse_fn_mir_sig(ty: &str) -> (r: Option<(Vec<MirType>, MirType)>)
    ensures
        match r {
            Some((ps, ret)) => parse_fn_mir_sig_spec(ty@) == Some((ps@, ret)),
            None => parse_fn_mir_sig_spec(ty@).is_none(),
        },
{
    let cs = chars_of(ty);
    let c = without_whitespace_exec(cs.as_slice());
    if !starts_with_str(c.as_slice(), "fn(") {
        return None;
    }
    assert("fn("@.len() == 3) by {
        reveal_strlit("fn(");
    }
    let rest = crate::text::slice_range(c.as_slice(), 3, c.len());
    assert(rest@ =~= c@.skip(3));
    let close = find_close_exec(rest.as_slice());
    let i = match close {
        Some(i) => i,
        None => {
            return None;
        },
    };
    let params = crate::text::slice_range(rest.as_slice(), 0, i);
    let after = crate::text::slice_range(rest.as_slice(), i + 1, rest.len());
    assert(after@ =~= rest@.skip(i + 1));
    if !starts_with_str(after.as_slice(), "->") {
        return None;
    }
    assert("->"@.len() == 2) by {
        reveal_strlit("->");
    }
    let ret_chars = crate::text::slice_range(after.as_slice(), 2, after.len());
    assert(ret_chars@ =~= after@.skip(2));
    let ret = parse_type_name_chars(without_whitespace_exec(ret_chars.as_slice()).as_slice());
    let ghost pspec = |p: Seq<char>| parse_type_name_spec(without_whitespace(p));
    let mut tys: Vec<MirType> = Vec::new();
    if params.len() > 0 {
        let pieces = split_param_chars(params.as_slice());
        let ghost pv = split_fn_param_list_spec(params@);
        let mut k: usize = 0;
        while k < pieces.len()
            invariant
                k <= pieces@.len(),
                crate::order::views(pieces@) == pv,
                tys@ == pv.take(k as int).map_values(pspec),
                pspec == (|p: Seq<char>| parse_type_name_spec(without_whitespace(p))),
            decreases pieces.len() - k,
        {
            let t = parse_type_name_chars(without_whitespace_exec(pieces[k].as_slice()).as_slice());
            assert(pv[k as int] == pieces@[k as int]@);
            tys.push(t);
            assert(pv.take(k + 1) =~= pv.take(k as int).push(pv[k as int]));
            assert(tys@ =~= pv.take(k + 1).map_values(pspec));
            k = k + 1;
        }
        assert(pv.take(pieces@.len() as int) =~= pv);
    } else {
        assert(tys@ =~= Seq::<MirType>::empty());
    }
    Some((tys, ret))
}

/// Every type except `I64` and `F64` survives a trip through its name.
pub proof fn lemma_type_name_round_trip(t: MirType)
    requires
        t != MirType::I64,
        t != MirType::F64,
    ensures
        parse_type_name_spec(mir_type_name_spec(t)) == t,
{
    reveal_strlit("Int");
    assert("Int"@ =~= seq!['I', 'n', 't']);
    reveal_strlit("Float");
    assert("Float"@ =~= seq!['F', 'l', 'o', 'a', 't']);
    reveal_strlit("Bool");
    assert("Bool"@ =~= seq!['B', 'o', 'o', 'l']);
    reveal_strlit("Str");
    assert("Str"@ =~= seq!['S', 't', 'r']);
    reveal_strlit("Bytes");
    assert("Bytes"@ =~= seq!['B', 'y', 't', 'e', 's']);
    reveal_strlit("Json");
    assert("Json"@ =~= seq!['J', 's', 'o', 'n']);
    reveal_strlit("JsonBuilder");
    assert("JsonBuilder"@ =~= seq!['J', 's', 'o', 'n', 'B', 'u', 'i', 'l', 'd', 'e', 'r']);
    reveal_strlit("Result");
    assert("Result"@ =~= seq!['R', 'e', 's', 'u', 'l', 't']);
    reveal_strlit("Void");
    assert("Void"@ =~= seq!['V', 'o', 'i', 'd']);
    reveal_strlit("Ptr");
    assert("Ptr"@ =~= seq!['P', 't', 'r']);
    reveal_strlit("Unknown");
    assert("Unknown"@ =~= seq!['U', 'n', 'k', 'n', 'o', 'w', 'n']);
    reveal_strlit("Result<");
    assert("Result<"@ =~= seq!['R', 'e', 's', 'u', 'l', 't', '<']);
    let n = mir_type_name_spec(t);
    assert(forall|k: int| 0 <= k < n.len() ==> n[k] != ' ');
    lemma_without_spaces_id(n);
    assert(without_spaces(n) == n);
}

proof fn lemma_without_spaces_id(s: Seq<char>)
    requires
        forall|k: int| 0 <= k < s.len() ==> s[k] != ' ',
    ensures
        without_spaces(s) == s,
    decreases s.len(),
{
    if s.len() > 0 {
        lemma_without_spaces_id(s.drop_last());
        assert(s.drop_last().push(s.last()) =~= s);
    }
}

} // verus!
