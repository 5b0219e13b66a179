use vstd::prelude::*;

use crate::mir::program::{MirExpr, MirFunction, MirStmt};
use crate::mir::{starts_with, starts_with_str, MirParam, MirType};
use crate::order::views;
use crate::text::{chars_of, push_str, str_eq, to_owned_string};

verus! {

/// The machine class of a value: what the code generator keeps it in.
#[derive(Debug, Clone, Copy, PartialEq, Eq, Structural)]
pub enum ValueClass {
    /// A byte: booleans.
    I8,
    /// A 64-bit integer.
    I64,
    /// A 64-bit float.
    F64,
    /// A pointer: strings, containers, results, closures.
    Ptr,
}

/// The class of a value of a MIR type.
pub open spec fn class_of_type(t: MirType) -> ValueClass {
    match t {
        MirType::F64 => ValueClass::F64,
        MirType::Bool => ValueClass::I8,
        MirType::Str | MirType::Json | MirType::JsonBuilder | MirType::Result | MirType::Bytes
        | MirType::Ptr => ValueClass::Ptr,
        _ => ValueClass::I64,
    }
}

/// The type bound to `name` in a list of (name, type) entries: the first one.
pub open spec fn type_of_name(entries: Seq<(String, MirType)>, name: Seq<char>) -> Option<MirType>
    decreases entries.len(),
{
    if entries.len() == 0 {
        None
    } else if entries[0].0@ == name {
        Some(entries[0].1)
    } else {
        type_of_name(entries.subrange(1, entries.len() as int), name)
    }
}

/// The names of a chain `a.b.c` of members on a variable.
pub open spec fn member_chain(e: MirExpr) -> Option<Seq<Seq<char>>>
    decreases e,
{
    match e {
        MirExpr::Var(n) => Some(seq![n@]),
        MirExpr::Member { object, field, object_type: _ } => match member_chain(*object) {
            Some(p) => Some(p.push(field@)),
            None => None,
        },
        _ => None,
    }
}

/// The parts joined with dots.
pub open spec fn join_dot(parts: Seq<Seq<char>>) -> Seq<char>
    decreases parts.len(),
{
    if parts.len() <= 1 {
        if parts.len() == 1 {
            parts[0]
        } else {
            Seq::empty()
        }
    } else {
        join_dot(parts.drop_last()) + seq!['.'] + parts.last()
    }
}

/// The namespaces of the standard library.
pub open spec fn is_stdlib_root(r: Seq<char>) -> bool {
    ||| r == "simd"@
    ||| r == "json"@
    ||| r == "bench"@
    ||| r == "time"@
    ||| r == "path"@
    ||| r == "fs"@
    ||| r == "net"@
    ||| r == "convert"@
    ||| r == "math"@
    ||| r == "str_builder"@
    ||| r == "text"@
    ||| r == "encoding"@
    ||| r == "log"@
    ||| r == "env"@
    ||| r == "cli"@
    ||| r == "regex"@
    ||| r == "http"@
}

/// The standard-library function a callee names: for `ns.….f` on a
/// standard namespace, the dotted namespace and the function's name.
pub open spec fn stdlib_target(callee: MirExpr) -> Option<(Seq<char>, Seq<char>)> {
    if callee is Member {
        match member_chain(callee) {
            Some(p) => if p.len() >= 2 && is_stdlib_root(p[0]) {
                Some((join_dot(p.drop_last()), p.last()))
            } else {
                None
            },
            None => None,
        }
    } else {
        None
    }
}

/// Standard-library functions that return a string.
pub open spec fn stdlib_returns_string(ns: Seq<char>, f: Seq<char>) -> bool {
    if ns == "path"@ {
        f == "join"@ || f == "parent"@ || f == "basename"@
    } else if ns == "fs"@ {
        f == "read_text"@
    } else if ns == "net"@ {
        f == "read"@ || f == "resolve"@
    } else if ns == "convert"@ {
        f == "to_str"@ || f == "to_str_f64"@ || f == "format_f64"@
    } else if ns == "text"@ {
        f == "trim"@ || f == "replace"@ || f == "to_lower"@ || f == "to_upper"@ || f == "split_part"@
    } else if ns == "encoding"@ {
        f == "hex_encode"@ || f == "hex_decode"@ || f == "base64_encode"@ || f == "base64_decode"@
            || f == "url_encode"@ || f == "url_decode"@
    } else if ns == "env"@ {
        f == "get"@ || f == "get_required"@
    } else if ns == "cli"@ {
        f == "arg"@
    } else if ns == "json"@ {
        starts_with(f, "encode_"@)
    } else if ns == "json.builder"@ {
        f == "finish"@
    } else if ns == "regex"@ {
        f == "replace_all"@
    } else if ns == "http"@ {
        f == "status_text"@ || f == "build_request_line"@ || f == "build_response"@ || f == "send"@
            || f == "response"@ || f == "get"@ || f == "post"@ || f == "request"@
    } else if ns == "bench"@ {
        f == "md5_hex"@ || f == "md5_bytes_hex"@ || f == "json_canonical"@ || f
            == "json_repeat_array"@ || f == "secp256k1"@ || f == "edigits"@ || f == "net_read"@
    } else {
        false
    }
}

/// The expression is a string by its form alone: a literal, a `+` with a
/// string side, a string-returning library call, or a slice of a string.
pub open spec fn known_string(e: MirExpr) -> bool
    decreases e,
{
    match e {
        MirExpr::Str(_) => true,
        MirExpr::Binary { left, op, right } => op@ == "Add"@ && (known_string(*left) || known_string(
            *right,
        )),
        MirExpr::Call { callee, args: _ } => match stdlib_target(*callee) {
            Some(t) => stdlib_returns_string(t.0, t.1),
            None => false,
        },
        MirExpr::Slice { object: _, start: _, end: _, object_is_str } => object_is_str,
        _ => false,
    }
}

/// Some statement of the block (or of a nested `if` or loop body) binds
/// or assigns `target`.
pub open spec fn assigns(stmts: Seq<MirStmt>, target: Seq<char>) -> bool
    decreases stmts,
{
    if stmts.len() == 0 {
        false
    } else {
        let rest = assigns(stmts.subrange(1, stmts.len() as int), target);
        match stmts[0] {
            MirStmt::Let { name, expr: _ } => name@ == target || rest,
            MirStmt::Assign { name, expr: _ } => name@ == target || rest,
            MirStmt::If { cond: _, then_body, else_body } => assigns(then_body@, target) || assigns(
                else_body@,
                target,
            ) || rest,
            MirStmt::For { var: _, iter: _, iter_kind: _, body } => assigns(body@, target) || rest,
            MirStmt::While { cond: _, body } => assigns(body@, target) || rest,
            MirStmt::Repeat { count: _, body } => assigns(body@, target) || rest,
            _ => rest,
        }
    }
}

/// Every binding or assignment of `target` in the block (nested `if` and
/// loop bodies included) gives it a known string.
pub open spec fn assigns_strings(stmts: Seq<MirStmt>, target: Seq<char>) -> bool
    decreases stmts,
{
    if stmts.len() == 0 {
        true
    } else {
        let rest = assigns_strings(stmts.subrange(1, stmts.len() as int), target);
        match stmts[0] {
            MirStmt::Let { name, expr } => (name@ == target ==> known_string(expr)) && rest,
            MirStmt::Assign { name, expr } => (name@ == target ==> known_string(expr)) && rest,
            MirStmt::If { cond: _, then_body, else_body } => assigns_strings(then_body@, target)
                && assigns_strings(else_body@, target) && rest,
            MirStmt::For { var: _, iter: _, iter_kind: _, body } => assigns_strings(body@, target)
                && rest,
            MirStmt::While { cond: _, body } => assigns_strings(body@, target) && rest,
            MirStmt::Repeat { count: _, body } => assigns_strings(body@, target) && rest,
            _ => rest,
        }
    }
}

/// Some parameter named `name` has type `ty`.
pub open spec fn has_param_of_type(params: Seq<crate::mir::MirParam>, name: Seq<char>, ty: MirType) -> bool {
    exists|k: int| 0 <= k < params.len() && #[trigger] params[k].name@ == name && params[k].ty == ty
}

fn has_param_of_type_exec(params: &Vec<MirParam>, name: &str, ty: MirType) -> (r: bool)
    ensures
        r == has_param_of_type(params@, name@, ty),
{
    let mut i: usize = 0;
    while i < params.len()
        invariant
            i <= params@.len(),
            forall|k: int| 0 <= k < i ==> !(#[trigger] params@[k].name@ == name@ && params@[k].ty == ty),
        decreases params.len() - i,
    {
        if str_eq(params[i].name.as_str(), name) && params[i].ty == ty {
            assert(params@[i as int].name@ == name@ && params@[i as int].ty == ty);
            return true;
        }
        i = i + 1;
    }
    false
}

/// The type of the first parameter named `name`.
pub open spec fn param_type(params: Seq<crate::mir::MirParam>, name: Seq<char>) -> Option<MirType>
    decreases params.len(),
{
    if params.len() == 0 {
        None
    } else if params[0].name@ == name {
        Some(params[0].ty)
    } else {
        param_type(params.subrange(1, params.len() as int), name)
    }
}

/// The variable holds a string in `owner`: a parameter of type `Str`, or,
/// when no parameter has the name, a local that is assigned and only ever
/// assigned known strings.
pub open spec fn var_known_string(owner: MirFunction, name: Seq<char>) -> bool {
    match param_type(owner.params@, name) {
        Some(t) => t == MirType::Str,
        None => assigns(owner.body@, name) && assigns_strings(owner.body@, name),
    }
}

/// The expression is a string in `owner`: by its form, as a string
/// variable, or as a `+` with such a side.
pub open spec fn owner_string(e: MirExpr, owner: MirFunction) -> bool
    decreases e,
{
    known_string(e) || match e {
        MirExpr::Var(n) => var_known_string(owner, n@),
        MirExpr::Binary { left, op, right } => op@ == "Add"@ && (owner_string(*left, owner)
            || owner_string(*right, owner)),
        _ => false,
    }
}

/// A standard-library function whose result is a float.
pub open spec fn stdlib_returns_float(ns: Seq<char>, f: Seq<char>) -> bool {
    ||| ns == "convert"@ && (f == "to_float"@ || f == "parse_f64"@ || f == "i64_to_f64"@ || f
        == "f64_from_bits"@)
    ||| ns == "math"@ && f == "sqrt"@
    ||| ns == "simd"@ && f == "f64x2_extract"@
}

/// A method called on a namespace variable whose result is a string.
pub open spec fn namespace_returns_string(ns: Seq<char>, f: Seq<char>) -> bool {
    ||| ns == "path"@ && (f == "join"@ || f == "parent"@ || f == "basename"@)
    ||| ns == "fs"@ && f == "read_text"@
    ||| ns == "net"@ && (f == "read"@ || f == "resolve"@)
    ||| ns == "convert"@ && (f == "to_str"@ || f == "to_str_f64"@ || f == "format_f64"@)
    ||| ns == "text"@ && (f == "trim"@ || f == "replace"@ || f == "to_lower"@ || f == "to_upper"@
        || f == "split_part"@)
    ||| ns == "encoding"@ && (f == "hex_encode"@ || f == "hex_decode"@ || f == "base64_encode"@ || f
        == "base64_decode"@ || f == "url_encode"@ || f == "url_decode"@)
    ||| ns == "env"@ && (f == "get"@ || f == "get_required"@)
    ||| ns == "cli"@ && f == "arg"@
    ||| ns == "json"@ && (starts_with(f, "encode_"@) || starts_with(f, "decode_"@) || f
        == "canonical"@ || f == "repeat_array"@)
    ||| ns == "regex"@ && f == "replace_all"@
    ||| ns == "http"@ && (f == "status_text"@ || f == "build_request_line"@ || f == "build_response"@
        || f == "send"@ || f == "response"@ || f == "get"@ || f == "post"@ || f == "request"@)
    ||| ns == "hash"@ && f == "md5_hex"@
    ||| ns == "crypto"@ && f == "secp256k1_bench"@
    ||| ns == "math"@ && f == "edigits"@
}

/// Methods whose result is an integer (a count, a flag or an element).
pub open spec fn integer_method(f: Seq<char>) -> bool {
    f == "get"@ || f == "len"@ || f == "append"@ || f == "set"@ || f == "contains"@ || f
        == "remove"@ || f == "recv"@ || f == "send"@ || f == "close"@
}

/// The key under which a library call's return type is registered.
pub open spec fn ns_call_key(ns: Seq<char>, f: Seq<char>) -> Seq<char> {
    "__ns_call__"@ + ns + seq!['.'] + f
}

/// The class of the value an expression computes in `owner`, given the
/// return types of the functions and the types of the locals known so far.
pub open spec fn value_class_spec(
    e: MirExpr,
    owner: MirFunction,
    fn_returns: Seq<(String, MirType)>,
    locals: Seq<(String, MirType)>,
) -> ValueClass
    decreases e, 2int,
{
    match e {
        MirExpr::Float(_) => ValueClass::F64,
        MirExpr::Bool(_) => ValueClass::I8,
        MirExpr::Str(_) => ValueClass::Ptr,
        MirExpr::Var(name) => match type_of_name(locals, name@) {
            Some(t) => class_of_type(t),
            None => if var_known_string(owner, name@) {
                ValueClass::Ptr
            } else if has_param_of_type(owner.params@, name@, MirType::F64) {
                ValueClass::F64
            } else if has_param_of_type(owner.params@, name@, MirType::Bool) {
                ValueClass::I8
            } else {
                ValueClass::I64
            },
        },
        MirExpr::Binary { left, op, right } => if op@ == "Add"@ {
            if owner_string(*left, owner) || owner_string(*right, owner) {
                ValueClass::Ptr
            } else if value_class_spec(*left, owner, fn_returns, locals) == ValueClass::F64
                || value_class_spec(*right, owner, fn_returns, locals) == ValueClass::F64 {
                ValueClass::F64
            } else {
                ValueClass::I64
            }
        } else if op@ == "Lt"@ || op@ == "Le"@ || op@ == "Gt"@ || op@ == "Ge"@ {
            ValueClass::I64
        } else if op@ == "Sub"@ || op@ == "Mul"@ || op@ == "Div"@ {
            if value_class_spec(*left, owner, fn_returns, locals) == ValueClass::F64
                || value_class_spec(*right, owner, fn_returns, locals) == ValueClass::F64 {
                ValueClass::F64
            } else {
                ValueClass::I64
            }
        } else {
            ValueClass::I64
        },
        MirExpr::List(_) => ValueClass::Ptr,
        MirExpr::MapLit(_) => ValueClass::Ptr,
        MirExpr::Slice { object: _, start: _, end: _, object_is_str } => if object_is_str {
            ValueClass::Ptr
        } else {
            ValueClass::I64
        },
        MirExpr::Async { expr } => value_class_spec(*expr, owner, fn_returns, locals),
        MirExpr::Await { expr } => value_class_spec(*expr, owner, fn_returns, locals),
        MirExpr::Call { callee, args } => call_class_spec(*callee, args@, owner, fn_returns, locals),
        MirExpr::Unary { op, expr } => if op@ == "Neg"@ {
            value_class_spec(*expr, owner, fn_returns, locals)
        } else {
            ValueClass::I64
        },
        MirExpr::Old { expr } => value_class_spec(*expr, owner, fn_returns, locals),
        MirExpr::ResultOk { expr: _ } => ValueClass::Ptr,
        MirExpr::ResultErr { expr: _ } => ValueClass::Ptr,
        _ => ValueClass::I64,
    }
}

/// Some argument is a float.
pub open spec fn any_float_arg(
    args: Seq<MirExpr>,
    owner: MirFunction,
    fn_returns: Seq<(String, MirType)>,
    locals: Seq<(String, MirType)>,
) -> bool
    decreases args, 0int,
{
    if args.len() == 0 {
        false
    } else {
        value_class_spec(args[0], owner, fn_returns, locals) == ValueClass::F64 || any_float_arg(
            args.subrange(1, args.len() as int),
            owner,
            fn_returns,
            locals,
        )
    }
}

/// The class of a call's result, by what is called: the first rule that
/// applies, in the order the code generator tests them.
pub open spec fn call_class_spec(
    callee: MirExpr,
    args: Seq<MirExpr>,
    owner: MirFunction,
    fn_returns: Seq<(String, MirType)>,
    locals: Seq<(String, MirType)>,
) -> ValueClass
    decreases args, 1int,
{
    let var = match callee {
        MirExpr::Var(n) => Some(n@),
        _ => None,
    };
    let target = stdlib_target(callee);
    let ns = match target {
        Some(t) => t.0,
        None => Seq::empty(),
    };
    let f = match target {
        Some(t) => t.1,
        None => Seq::empty(),
    };
    if var == Some("chan"@) {
        ValueClass::Ptr
    } else if var == Some("len"@) || var == Some("cpu_count"@) || var == Some("sorted_desc"@) {
        ValueClass::I64
    } else if var == Some("min"@) || var == Some("max"@) {
        if any_float_arg(args, owner, fn_returns, locals) {
            ValueClass::F64
        } else {
            ValueClass::I64
        }
    } else if var is Some && type_of_name(fn_returns, var->0) == Some(MirType::Str) {
        ValueClass::Ptr
    } else if var is Some && type_of_name(fn_returns, var->0) == Some(MirType::F64) {
        ValueClass::F64
    } else if target is Some && type_of_name(fn_returns, ns_call_key(ns, f)) is Some {
        class_of_type(type_of_name(fn_returns, ns_call_key(ns, f))->0)
    } else if target is Some && stdlib_returns_float(ns, f) {
        ValueClass::F64
    } else if var is Some && type_of_name(fn_returns, var->0) == Some(MirType::Bool) {
        ValueClass::I8
    } else if target is Some && ((ns == "json"@ && f == "from_map"@) || (
    ns == "json.builder"@ && f != "finish"@)) {
        ValueClass::Ptr
    } else {
        match callee {
            MirExpr::Member { object, field, object_type: _ } => if integer_method(field@) {
                ValueClass::I64
            } else if field@ == "sort_desc"@ || field@ == "take"@ {
                ValueClass::Ptr
            } else {
                match *object {
                    MirExpr::Var(ns) => if namespace_returns_string(ns@, field@) {
                        ValueClass::Ptr
                    } else {
                        ValueClass::I64
                    },
                    _ => ValueClass::I64,
                }
            },
            _ => ValueClass::I64,
        }
    }
}

fn class_of_type_exec(t: MirType) -> (r: ValueClass)
    ensures
        r == class_of_type(t),
{
    match t {
        MirType::F64 => ValueClass::F64,
        MirType::Bool => ValueClass::I8,
        MirType::Str | MirType::Json | MirType::JsonBuilder | MirType::Result | MirType::Bytes
        | MirType::Ptr => ValueClass::Ptr,
        _ => ValueClass::I64,
    }
}

fn type_of_name_exec(entries: &Vec<(String, MirType)>, name: &str) -> (r: Option<MirType>)
    ensures
        r == type_of_name(entries@, name@),
{
    let ghost s = entries@;
    let mut i: usize = 0;
    assert(s.subrange(0, s.len() as int) =~= s);
    while i < entries.len()
        invariant
            s == entries@,
            i <= s.len(),
            type_of_name(s, name@) == type_of_name(s.subrange(i as int, s.len() as int), name@),
        decreases entries.len() - i,
    {
        let ghost t = s.subrange(i as int, s.len() as int);
        assert(t[0] == s[i as int]);
        assert(t.subrange(1, t.len() as int) =~= s.subrange(i + 1, s.len() as int));
        if str_eq(entries[i].0.as_str(), name) {
            return Some(entries[i].1);
        }
        i = i + 1;
    }
    None
}

pub(crate) fn param_type_exec(params: &Vec<MirParam>, name: &str) -> (r: Option<MirType>)
    ensures
        r == param_type(params@, name@),
{
    let ghost s = params@;
    let mut i: usize = 0;
    assert(s.subrange(0, s.len() as int) =~= s);
    while i < params.len()
        invariant
            s == params@,
            i <= s.len(),
            param_type(s, name@) == param_type(s.subrange(i as int, s.len() as int), name@),
        decreases params.len() - i,
    {
        let ghost t = s.subrange(i as int, s.len() as int);
        assert(t[0] == s[i as int]);
        assert(t.subrange(1, t.len() as int) =~= s.subrange(i + 1, s.len() as int));
        if str_eq(params[i].name.as_str(), name) {
            return Some(params[i].ty);
        }
        i = i + 1;
    }
    None
}

fn member_chain_exec(e: &MirExpr) -> (r: Option<Vec<String>>)
    ensures
        match r {
            Some(v) => member_chain(*e) == Some(views(v@)),
            None => member_chain(*e).is_none(),
        },
    decreases e,
{
    match e {
        MirExpr::Var(n) => {
            let mut v: Vec<String> = Vec::new();
            v.push(to_owned_string(n.as_str()));
            assert(views(v@) =~= seq![n@]);
            Some(v)
        },
        MirExpr::Member { object, field, object_type: _ } => match member_chain_exec(object) {
            Some(mut v) => {
                let ghost before = views(v@);
                v.push(to_owned_string(field.as_str()));
                assert(views(v@) =~= before.push(field@));
                Some(v)
            },
            None => None,
        },
        _ => None,
    }
}

/// The first `n` parts joined with dots.
fn join_dot_exec(parts: &Vec<String>, n: usize) -> (r: String)
    requires
        n <= parts@.len(),
    ensures
        r@ == join_dot(views(parts@).take(n as int)),
{
    let ghost p = views(parts@);
    let mut out = String::new();
    let mut i: usize = 0;
    assert(p.take(0).len() == 0);
    proof {
        assert(out@ =~= Seq::<char>::empty());
    }
    while i < n
        invariant
            p == views(parts@),
            n <= p.len(),
            i <= n,
            out@ == join_dot(p.take(i as int)),
        decreases n - i,
    {
        let ghost q = p.take(i + 1);
        assert(q.drop_last() =~= p.take(i as int));
        assert(q.last() == parts@[i as int]@);
        if i > 0 {
            push_str(&mut out, ".");
            proof {
                reveal_strlit(".");
            }
        } else {
            assert(q.len() == 1);
            assert(out@ =~= Seq::<char>::empty());
        }
        push_str(&mut out, parts[i].as_str());
        proof {
            if i == 0 {
                assert(out@ =~= q[0]);
            } else {
                assert(out@ =~= join_dot(p.take(i as int)) + seq!['.'] + q.last());
            }
        }
        i = i + 1;
    }
    out
}

fn is_stdlib_root_exec(r: &str) -> (b: bool)
    ensures
        b == is_stdlib_root(r@),
{
    str_eq(r, "simd") || str_eq(r, "json") || str_eq(r, "bench") || str_eq(r, "time") || str_eq(
        r,
        "path",
    ) || str_eq(r, "fs") || str_eq(r, "net") || str_eq(r, "convert") || str_eq(r, "math") || str_eq(
        r,
        "str_builder",
    ) || str_eq(r, "text") || str_eq(r, "encoding") || str_eq(r, "log") || str_eq(r, "env")
        || str_eq(r, "cli") || str_eq(r, "regex") || str_eq(r, "http")
}

pub(crate) fn stdlib_target_exec(callee: &MirExpr) -> (r: Option<(String, String)>)
    ensures
        match r {
            Some(t) => stdlib_target(*callee) == Some((t.0@, t.1@)),
            None => stdlib_target(*callee).is_none(),
        },
{
    match callee {
        MirExpr::Member { .. } => {},
        _ => {
            return None;
        },
    }
    match member_chain_exec(callee) {
        None => None,
        Some(parts) => {
            let ghost p = views(parts@);
            if parts.len() < 2 || !is_stdlib_root_exec(parts[0].as_str()) {
                assert(parts.len() >= 2 ==> p[0] == parts@[0]@);
                return None;
            }
            assert(p[0] == parts@[0]@);
            let ns = join_dot_exec(&parts, parts.len() - 1);
            assert(p.take(p.len() - 1) =~= p.drop_last());
            let f = to_owned_string(parts[parts.len() - 1].as_str());
            assert(p.last() == parts@[parts.len() - 1]@);
            Some((ns, f))
        },
    }
}

fn starts_with_text(f: &str, p: &str) -> (r: bool)
    ensures
        r == starts_with(f@, p@),
{
    let cs = chars_of(f);
    starts_with_str(cs.as_slice(), p)
}

fn stdlib_returns_string_exec(ns: &str, f: &str) -> (r: bool)
    ensures
        r == stdlib_returns_string(ns@, f@),
{
    if str_eq(ns, "path") {
        str_eq(f, "join") || str_eq(f, "parent") || str_eq(f, "basename")
    } else if str_eq(ns, "fs") {
        str_eq(f, "read_text")
    } else if str_eq(ns, "net") {
        str_eq(f, "read") || str_eq(f, "resolve")
    } else if str_eq(ns, "convert") {
        str_eq(f, "to_str") || str_eq(f, "to_str_f64") || str_eq(f, "format_f64")
    } else if str_eq(ns, "text") {
        str_eq(f, "trim") || str_eq(f, "replace") || str_eq(f, "to_lower") || str_eq(f, "to_upper")
            || str_eq(f, "split_part")
    } else if str_eq(ns, "encoding") {
        str_eq(f, "hex_encode") || str_eq(f, "hex_decode") || str_eq(f, "base64_encode") || str_eq(
            f,
            "base64_decode",
        ) || str_eq(f, "url_encode") || str_eq(f, "url_decode")
    } else if str_eq(ns, "env") {
        str_eq(f, "get") || str_eq(f, "get_required")
    } else if str_eq(ns, "cli") {
        str_eq(f, "arg")
    } else if str_eq(ns, "json") {
        starts_with_text(f, "encode_")
    } else if str_eq(ns, "json.builder") {
        str_eq(f, "finish")
    } else if str_eq(ns, "regex") {
        str_eq(f, "replace_all")
    } else if str_eq(ns, "http") {
        str_eq(f, "status_text") || str_eq(f, "build_request_line") || str_eq(f, "build_response")
            || str_eq(f, "send") || str_eq(f, "response") || str_eq(f, "get") || str_eq(f, "post")
            || str_eq(f, "request")
    } else if str_eq(ns, "bench") {
        str_eq(f, "md5_hex") || str_eq(f, "md5_bytes_hex") || str_eq(f, "json_canonical") || str_eq(
            f,
            "json_repeat_array",
        ) || str_eq(f, "secp256k1") || str_eq(f, "edigits") || str_eq(f, "net_read")
    } else {
        false
    }
}

pub(crate) fn stdlib_returns_float_exec(ns: &str, f: &str) -> (r: bool)
    ensures
        r == stdlib_returns_float(ns@, f@),
{
    (str_eq(ns, "convert") && (str_eq(f, "to_float") || str_eq(f, "parse_f64") || str_eq(
        f,
        "i64_to_f64",
    ) || str_eq(f, "f64_from_bits"))) || (str_eq(ns, "math") && str_eq(f, "sqrt")) || (str_eq(
        ns,
        "simd",
    ) && str_eq(f, "f64x2_extract"))
}

fn namespace_returns_string_exec(ns: &str, f: &str) -> (r: bool)
    ensures
        r == namespace_returns_string(ns@, f@),
{
    (str_eq(ns, "path") && (str_eq(f, "join") || str_eq(f, "parent") || str_eq(f, "basename")))
        || (str_eq(ns, "fs") && str_eq(f, "read_text")) || (str_eq(ns, "net") && (str_eq(f, "read")
        || str_eq(f, "resolve"))) || (str_eq(ns, "convert") && (str_eq(f, "to_str") || str_eq(
        f,
        "to_str_f64",
    ) || str_eq(f, "format_f64"))) || (str_eq(ns, "text") && (str_eq(f, "trim") || str_eq(
        f,
        "replace",
    ) || str_eq(f, "to_lower") || str_eq(f, "to_upper") || str_eq(f, "split_part"))) || (str_eq(
        ns,
        "encoding",
    ) && (str_eq(f, "hex_encode") || str_eq(f, "hex_decode") || str_eq(f, "base64_encode")
        || str_eq(f, "base64_decode") || str_eq(f, "url_encode") || str_eq(f, "url_decode"))) || (
    str_eq(ns, "env") && (str_eq(f, "get") || str_eq(f, "get_required"))) || (str_eq(ns, "cli")
        && str_eq(f, "arg")) || (str_eq(ns, "json") && (starts_with_text(f, "encode_")
        || starts_with_text(f, "decode_") || str_eq(f, "canonical") || str_eq(f, "repeat_array")))
        || (str_eq(ns, "regex") && str_eq(f, "replace_all")) || (str_eq(ns, "http") && (str_eq(
        f,
        "status_text",
    ) || str_eq(f, "build_request_line") || str_eq(f, "build_response") || str_eq(f, "send")
        || str_eq(f, "response") || str_eq(f, "get") || str_eq(f, "post") || str_eq(f, "request")))
        || (str_eq(ns, "hash") && str_eq(f, "md5_hex")) || (str_eq(ns, "crypto") && str_eq(
        f,
        "secp256k1_bench",
    )) || (str_eq(ns, "math") && str_eq(f, "edigits"))
}

fn integer_method_exec(f: &str) -> (r: bool)
    ensures
        r == integer_method(f@),
{
    str_eq(f, "get") || str_eq(f, "len") || str_eq(f, "append") || str_eq(f, "set") || str_eq(
        f,
        "contains",
    ) || str_eq(f, "remove") || str_eq(f, "recv") || str_eq(f, "send") || str_eq(f, "close")
}

fn known_string_exec(e: &MirExpr) -> (r: bool)
    ensures
        r == known_string(*e),
    decreases e,
{
    match e {
        MirExpr::Str(_) => true,
        MirExpr::Binary { left, op, right } => str_eq(op.as_str(), "Add") && (known_string_exec(left)
            || known_string_exec(right)),
        MirExpr::Call { callee, args: _ } => match stdlib_target_exec(callee) {
            Some(t) => stdlib_returns_string_exec(t.0.as_str(), t.1.as_str()),
            None => false,
        },
        MirExpr::Slice { object: _, start: _, end: _, object_is_str } => *object_is_str,
        _ => false,
    }
}

fn assigns_exec(stmts: &Vec<MirStmt>, target: &str) -> (r: bool)
    ensures
        r == assigns(stmts@, target@),
    decreases stmts,
{
    let ghost s = stmts@;
    let mut i: usize = 0;
    assert(s.subrange(0, s.len() as int) =~= s);
    while i < stmts.len()
        invariant
            s == stmts@,
            i <= s.len(),
            assigns(s, target@) == assigns(s.subrange(i as int, s.len() as int), target@),
        decreases stmts.len() - i,
    {
        let ghost t = s.subrange(i as int, s.len() as int);
        assert(t[0] == s[i as int]);
        assert(t.subrange(1, t.len() as int) =~= s.subrange(i + 1, s.len() as int));
        let here = match &stmts[i] {
            MirStmt::Let { name, expr: _ } => str_eq(name.as_str(), target),
            MirStmt::Assign { name, expr: _ } => str_eq(name.as_str(), target),
            MirStmt::If { cond: _, then_body, else_body } => assigns_exec(then_body, target)
                || assigns_exec(else_body, target),
            MirStmt::For { var: _, iter: _, iter_kind: _, body } => assigns_exec(body, target),
            MirStmt::While { cond: _, body } => assigns_exec(body, target),
            MirStmt::Repeat { count: _, body } => assigns_exec(body, target),
            _ => false,
        };
        if here {
            return true;
        }
        i = i + 1;
    }
    false
}

fn assigns_strings_exec(stmts: &Vec<MirStmt>, target: &str) -> (r: bool)
    ensures
        r == assigns_strings(stmts@, target@),
    decreases stmts,
{
    let ghost s = stmts@;
    let mut i: usize = 0;
    assert(s.subrange(0, s.len() as int) =~= s);
    while i < stmts.len()
        invariant
            s == stmts@,
            i <= s.len(),
            assigns_strings(s, target@) == assigns_strings(s.subrange(i as int, s.len() as int), target@),
        decreases stmts.len() - i,
    {
        let ghost t = s.subrange(i as int, s.len() as int);
        assert(t[0] == s[i as int]);
        assert(t.subrange(1, t.len() as int) =~= s.subrange(i + 1, s.len() as int));
        let ok = match &stmts[i] {
            MirStmt::Let { name, expr } => !str_eq(name.as_str(), target) || known_string_exec(expr),
            MirStmt::Assign { name, expr } => !str_eq(name.as_str(), target) || known_string_exec(expr),
            MirStmt::If { cond: _, then_body, else_body } => assigns_strings_exec(then_body, target)
                && assigns_strings_exec(else_body, target),
            MirStmt::For { var: _, iter: _, iter_kind: _, body } => assigns_strings_exec(body, target),
            MirStmt::While { cond: _, body } => assigns_strings_exec(body, target),
            MirStmt::Repeat { count: _, body } => assigns_strings_exec(body, target),
            _ => true,
        };
        if !ok {
            return false;
        }
        i = i + 1;
    }
    true
}

fn var_known_string_exec(owner: &MirFunction, name: &str) -> (r: bool)
    ensures
        r == var_known_string(*owner, name@),
{
    match param_type_exec(&owner.params, name) {
        Some(t) => t == MirType::Str,
        None => assigns_exec(&owner.body, name) && assigns_strings_exec(&owner.body, name),
    }
}

fn owner_string_exec(e: &MirExpr, owner: &MirFunction) -> (r: bool)
    ensures
        r == owner_string(*e, *owner),
    decreases e,
{
    if known_string_exec(e) {
        return true;
    }
    match e {
        MirExpr::Var(n) => var_known_string_exec(owner, n.as_str()),
        MirExpr::Binary { left, op, right } => str_eq(op.as_str(), "Add") && (owner_string_exec(
            left,
            owner,
        ) || owner_string_exec(right, owner)),
        _ => false,
    }
}

/// The machine class of the value `expr` computes in `owner`, given the
/// return types of the functions (library calls registered under
/// `__ns_call__ns.f`) and the types of the locals known so far; the first
/// entry of a name counts.
pub fn value_class_for_expr(
    expr: &MirExpr,
    owner: &MirFunction,
    function_returns: &Vec<(String, MirType)>,
    locals_ty: &Vec<(String, MirType)>,
) -> (r: ValueClass)
    ensures
        r == value_class_spec(*expr, *owner, function_returns@, locals_ty@),
    decreases expr, 2int,
{
    match expr {
        MirExpr::Float(_) => ValueClass::F64,
        MirExpr::Bool(_) => ValueClass::I8,
        MirExpr::Str(_) => ValueClass::Ptr,
        MirExpr::Var(name) => match type_of_name_exec(locals_ty, name.as_str()) {
            Some(t) => class_of_type_exec(t),
            None => {
                if var_known_string_exec(owner, name.as_str()) {
                    ValueClass::Ptr
                } else {
                    if has_param_of_type_exec(&owner.params, name.as_str(), MirType::F64) {
                        ValueClass::F64
                    } else if has_param_of_type_exec(&owner.params, name.as_str(), MirType::Bool) {
                        ValueClass::I8
                    } else {
                        ValueClass::I64
                    }
                }
            },
        },
        MirExpr::Binary { left, op, right } => {
            let op = op.as_str();
            if str_eq(op, "Add") {
                if owner_string_exec(left, owner) || owner_string_exec(right, owner) {
                    ValueClass::Ptr
                } else if value_class_for_expr(left, owner, function_returns, locals_ty)
                    == ValueClass::F64 || value_class_for_expr(right, owner, function_returns, locals_ty)
                    == ValueClass::F64 {
                    ValueClass::F64
                } else {
                    ValueClass::I64
                }
            } else if str_eq(op, "Lt") || str_eq(op, "Le") || str_eq(op, "Gt") || str_eq(op, "Ge") {
                ValueClass::I64
            } else if str_eq(op, "Sub") || str_eq(op, "Mul") || str_eq(op, "Div") {
                if value_class_for_expr(left, owner, function_returns, locals_ty) == ValueClass::F64
                    || value_class_for_expr(right, owner, function_returns, locals_ty)
                    == ValueClass::F64 {
                    ValueClass::F64
                } else {
                    ValueClass::I64
                }
            } else {
                ValueClass::I64
            }
        },
        MirExpr::List(_) => ValueClass::Ptr,
        MirExpr::MapLit(_) => ValueClass::Ptr,
        MirExpr::Slice { object: _, start: _, end: _, object_is_str } => if *object_is_str {
            ValueClass::Ptr
        } else {
            ValueClass::I64
        },
        MirExpr::Async { expr } => value_class_for_expr(expr, owner, function_returns, locals_ty),
        MirExpr::Await { expr } => value_class_for_expr(expr, owner, function_returns, locals_ty),
        MirExpr::Call { callee, args } => call_class(callee, args, owner, function_returns, locals_ty),
        MirExpr::Unary { op, expr } => if str_eq(op.as_str(), "Neg") {
            value_class_for_expr(expr, owner, function_returns, locals_ty)
        } else {
            ValueClass::I64
        },
        MirExpr::Old { expr } => value_class_for_expr(expr, owner, function_returns, locals_ty),
        MirExpr::ResultOk { expr: _ } => ValueClass::Ptr,
        MirExpr::ResultErr { expr: _ } => ValueClass::Ptr,
        _ => ValueClass::I64,
    }
}

fn any_float_arg_exec(
    args: &Vec<MirExpr>,
    owner: &MirFunction,
    function_returns: &Vec<(String, MirType)>,
    locals_ty: &Vec<(String, MirType)>,
) -> (r: bool)
    ensures
        r == any_float_arg(args@, *owner, function_returns@, locals_ty@),
    decreases args@, 0int,
{
    let ghost s = args@;
    let mut i: usize = 0;
    assert(s.subrange(0, s.len() as int) =~= s);
    while i < args.len()
        invariant
            s == args@,
            i <= s.len(),
            any_float_arg(s, *owner, function_returns@, locals_ty@) == any_float_arg(
                s.subrange(i as int, s.len() as int),
                *owner,
                function_returns@,
                locals_ty@,
            ),
        decreases args.len() - i,
    {
        let ghost t = s.subrange(i as int, s.len() as int);
        assert(t[0] == s[i as int]);
        assert(t.subrange(1, t.len() as int) =~= s.subrange(i + 1, s.len() as int));
        if value_class_for_expr(&args[i], owner, function_returns, locals_ty) == ValueClass::F64 {
            return true;
        }
        i = i + 1;
    }
    false
}

fn call_class(
    callee: &MirExpr,
    args: &Vec<MirExpr>,
    owner: &MirFunction,
    function_returns: &Vec<(String, MirType)>,
    locals_ty: &Vec<(String, MirType)>,
) -> (r: ValueClass)
    ensures
        r == call_class_spec(*callee, args@, *owner, function_returns@, locals_ty@),
    decreases args@, 1int,
{
    let var: Option<&str> = match callee {
        MirExpr::Var(n) => Some(n.as_str()),
        _ => None,
    };
    let target = stdlib_target_exec(callee);
    let var_ret = match var {
        Some(n) => type_of_name_exec(function_returns, n),
        None => None,
    };
    let is_var = |name: &str| -> (b: bool)
        ensures
            b == (var is Some && var->0@ == name@),
        {
            match var {
                Some(n) => str_eq(n, name),
                None => false,
            }
        };
    if is_var("chan") {
        return ValueClass::Ptr;
    }
    if is_var("len") || is_var("cpu_count") || is_var("sorted_desc") {
        return ValueClass::I64;
    }
    if is_var("min") || is_var("max") {
        if any_float_arg_exec(args, owner, function_returns, locals_ty) {
            return ValueClass::F64;
        }
        return ValueClass::I64;
    }
    if var.is_some() && var_ret == Some(MirType::Str) {
        return ValueClass::Ptr;
    }
    if var.is_some() && var_ret == Some(MirType::F64) {
        return ValueClass::F64;
    }
    match &target {
        Some(t) => {
            let mut key = to_owned_string("__ns_call__");
            push_str(&mut key, t.0.as_str());
            push_str(&mut key, ".");
            push_str(&mut key, t.1.as_str());
            proof {
                reveal_strlit(".");
                assert(key@ =~= ns_call_key(t.0@, t.1@));
            }
            match type_of_name_exec(function_returns, key.as_str()) {
                Some(ty) => {
                    return class_of_type_exec(ty);
                },
                None => {},
            }
            if stdlib_returns_float_exec(t.0.as_str(), t.1.as_str()) {
                return ValueClass::F64;
            }
        },
        None => {},
    }
    if var.is_some() && var_ret == Some(MirType::Bool) {
        return ValueClass::I8;
    }
    match &target {
        Some(t) => {
            if (str_eq(t.0.as_str(), "json") && str_eq(t.1.as_str(), "from_map")) || (str_eq(
                t.0.as_str(),
                "json.builder",
            ) && !str_eq(t.1.as_str(), "finish")) {
                return ValueClass::Ptr;
            }
        },
        None => {},
    }
    match callee {
        MirExpr::Member { object, field, object_type: _ } => {
            if integer_method_exec(field.as_str()) {
                ValueClass::I64
            } else if str_eq(field.as_str(), "sort_desc") || str_eq(field.as_str(), "take") {
                ValueClass::Ptr
            } else {
                match &**object {
                    MirExpr::Var(ns) => if namespace_returns_string_exec(ns.as_str(), field.as_str()) {
                        ValueClass::Ptr
                    } else {
                        ValueClass::I64
                    },
                    _ => ValueClass::I64,
                }
            }
        },
        _ => ValueClass::I64,
    }
}

} // verus!
