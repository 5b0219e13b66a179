use vstd::prelude::*;

use crate::indexer::model::SymbolKind;
use crate::text::{chars_equal, chars_of, decimal, push_char, push_str, push_decimal};
use sha2::Digest;

verus! {

/// The SHA-256 digest of a byte string.
pub uninterp spec fn sha256(data: Seq<u8>) -> Seq<u8>;

/// `sha2::Sha256` fed with `data` (`new`, `update`, `finalize`); the
/// digest is named `sha256`, and is 32 bytes long (the output size of
/// `Sha256`). Nothing else about the hash function is stated.
#[verifier::external_body]
fn sha256_digest(data: &[u8]) -> (r: Vec<u8>)
    ensures
        r@ == sha256(data@),
        r@.len() == 32,
{
    let mut hasher = sha2::Sha256::new();
    hasher.update(data);
    hasher.finalize().to_vec()
}

/// The lowercase hexadecimal digit for `n < 16`.
pub open spec fn hex_digit(n: int) -> char {
    if n < 10 {
        ('0' as int + n) as char
    } else {
        ('a' as int + (n - 10)) as char
    }
}

/// Two lowercase hexadecimal digits per byte.
pub open spec fn hex_of(bytes: Seq<u8>) -> Seq<char>
    decreases bytes.len(),
{
    if bytes.len() == 0 {
        Seq::empty()
    } else {
        hex_of(bytes.drop_last()) + seq![
            hex_digit(bytes.last() as int / 16),
            hex_digit(bytes.last() as int % 16),
        ]
    }
}

fn hex_digit_exec(n: u8) -> (r: char)
    requires
        n < 16,
    ensures
        r == hex_digit(n as int),
{
    let table = ['0', '1', '2', '3', '4', '5', '6', '7', '8', '9', 'a', 'b', 'c', 'd', 'e', 'f'];
    let c = table[n as usize];
    assert(c == hex_digit(n as int)) by {
        assert(table@ == seq!['0', '1', '2', '3', '4', '5', '6', '7', '8', '9', 'a', 'b', 'c', 'd', 'e', 'f']);
    }
    c
}

/// The hash of a text: SHA-256 of its UTF-8 bytes, in lowercase hex.
pub open spec fn stable_hash_spec(input: Seq<char>) -> Seq<char> {
    hex_of(sha256(vstd::utf8::encode_utf8(input)))
}

/// SHA-256 of the text's UTF-8 bytes, as 64 lowercase hex digits.
pub fn stable_hash_hex(input: &str) -> (r: String)
    ensures
        r@ == stable_hash_spec(input@),
        r@.len() == 64,
{
    let digest = sha256_digest(input.as_bytes());
    let mut out = String::new();
    let mut i: usize = 0;
    assert(digest@.take(0) =~= Seq::<u8>::empty());
    while i < digest.len()
        invariant
            i <= digest@.len(),
            digest@.len() == 32,
            out@ == hex_of(digest@.take(i as int)),
            out@.len() == 2 * i,
        decreases digest.len() - i,
    {
        let b = digest[i];
        push_char(&mut out, hex_digit_exec(b / 16));
        push_char(&mut out, hex_digit_exec(b % 16));
        assert(digest@.take(i + 1).drop_last() =~= digest@.take(i as int));
        assert(digest@.take(i + 1).last() == b);
        assert(out@ =~= hex_of(digest@.take(i + 1)));
        i = i + 1;
    }
    assert(digest@.take(32) =~= digest@);
    out
}

/// The value of a hexadecimal digit.
pub open spec fn hex_value(c: char) -> int {
    if '0' <= c <= '9' {
        c as int - '0' as int
    } else if 'a' <= c <= 'f' {
        c as int - 'a' as int + 10
    } else if 'A' <= c <= 'F' {
        c as int - 'A' as int + 10
    } else {
        0
    }
}

/// The number that a string of hexadecimal digits denotes.
pub open spec fn hex_number(s: Seq<char>) -> int
    decreases s.len(),
{
    if s.len() == 0 {
        0
    } else {
        hex_number(s.drop_last()) * 16 + hex_value(s.last())
    }
}

pub open spec fn pow16(n: nat) -> int
    decreases n,
{
    if n == 0 {
        1
    } else {
        16 * pow16((n - 1) as nat)
    }
}

proof fn lemma_hex_number_bound(s: Seq<char>)
    ensures
        0 <= hex_number(s) < pow16(s.len()),
    decreases s.len(),
{
    if s.len() > 0 {
        lemma_hex_number_bound(s.drop_last());
        let n = hex_number(s.drop_last());
        let p = pow16(s.drop_last().len());
        let d = hex_value(s.last());
        assert(0 <= d < 16);
        assert(n * 16 + d < 16 * p) by (nonlinear_arith)
            requires
                0 <= n < p,
                0 <= d < 16,
        ;
        assert(n * 16 + d >= 0) by (nonlinear_arith)
            requires
                0 <= n,
                0 <= d,
        ;
    }
}

fn hex_value_exec(c: char) -> (r: u64)
    ensures
        r == hex_value(c),
{
    if '0' <= c && c <= '9' {
        (c as u32 - '0' as u32) as u64
    } else if 'a' <= c && c <= 'f' {
        (c as u32 - 'a' as u32 + 10) as u64
    } else if 'A' <= c && c <= 'F' {
        (c as u32 - 'A' as u32 + 10) as u64
    } else {
        0
    }
}

/// The debug name of a symbol kind.
pub open spec fn symbol_kind_name_spec(k: SymbolKind) -> Seq<char> {
    match k {
        SymbolKind::Function => "Function"@,
        SymbolKind::Param => "Param"@,
        SymbolKind::Local => "Local"@,
        SymbolKind::Contract => "Contract"@,
        SymbolKind::Effect => "Effect"@,
    }
}

fn symbol_kind_debug(k: SymbolKind) -> (r: &'static str)
    ensures
        r@ == symbol_kind_name_spec(k),
{
    match k {
        SymbolKind::Function => "Function",
        SymbolKind::Param => "Param",
        SymbolKind::Local => "Local",
        SymbolKind::Contract => "Contract",
        SymbolKind::Effect => "Effect",
    }
}

/// The text that a symbol id is derived from: `file|name|Kind|group|ordinal`.
pub open spec fn symbol_id_text(
    file: Seq<char>,
    name: Seq<char>,
    kind: SymbolKind,
    group: Seq<char>,
    ordinal: nat,
) -> Seq<char> {
    file + "|"@ + name + "|"@ + symbol_kind_name_spec(kind) + "|"@ + group + "|"@ + decimal(ordinal)
}

/// A symbol's id: the number that the first 16 hex digits of the hash of
/// `file|name|Kind|group|ordinal` denote.
pub fn stable_symbol_id(file: &str, name: &str, kind: SymbolKind, group: &str, ordinal: u64) -> (r:
    u64)
    ensures
        r == hex_number(
            stable_hash_spec(symbol_id_text(file@, name@, kind, group@, ordinal as nat)).take(16),
        ),
{
    let mut text = String::new();
    push_str(&mut text, file);
    push_str(&mut text, "|");
    push_str(&mut text, name);
    push_str(&mut text, "|");
    push_str(&mut text, symbol_kind_debug(kind));
    push_str(&mut text, "|");
    push_str(&mut text, group);
    push_str(&mut text, "|");
    push_decimal(&mut text, ordinal);
    assert(text@ =~= symbol_id_text(file@, name@, kind, group@, ordinal as nat));
    let hash = stable_hash_hex(text.as_str());
    let cs = chars_of(hash.as_str());
    let ghost h = cs@.take(16);
    let mut acc: u64 = 0;
    let mut i: usize = 0;
    assert(h.take(0) =~= Seq::<char>::empty());
    while i < 16
        invariant
            cs@.len() == 64,
            h == cs@.take(16),
            i <= 16,
            acc == hex_number(h.take(i as int)),
        decreases 16 - i,
    {
        proof {
            lemma_hex_number_bound(h.take(i as int));
            assert(pow16(i as nat) <= pow16(15)) by {
                lemma_pow16_mono(i as nat, 15);
            }
            assert(pow16(15) == 0x1000_0000_0000_0000) by {
                reveal_with_fuel(pow16, 16);
            }
        }
        let d = hex_value_exec(cs[i]);
        assert(h.take(i + 1).drop_last() =~= h.take(i as int));
        assert(h.take(i + 1).last() == cs@[i as int]);
        acc = acc * 16 + d;
        i = i + 1;
    }
    assert(h.take(16) =~= h);
    acc
}

proof fn lemma_pow16_mono(a: nat, b: nat)
    requires
        a <= b,
    ensures
        pow16(a) <= pow16(b),
    decreases b,
{
    if a < b {
        lemma_pow16_mono(a, (b - 1) as nat);
        lemma_pow16_pos((b - 1) as nat);
    }
}

proof fn lemma_pow16_pos(n: nat)
    ensures
        pow16(n) >= 1,
    decreases n,
{
    if n > 0 {
        lemma_pow16_pos((n - 1) as nat);
    }
}

/// The names that the language provides itself.
pub open spec fn is_builtin_spec(name: Seq<char>) -> bool {
    ||| name == "len"@
    ||| name == "min"@
    ||| name == "max"@
    ||| name == "sorted_desc"@
    ||| name == "sort_desc"@
    ||| name == "take"@
    ||| name == "cpu_count"@
    ||| name == "chan"@
    ||| name == "ok"@
    ||| name == "err"@
    ||| name == "print"@
    ||| name == "println"@
    ||| name == "true"@
    ||| name == "false"@
}

/// Whether `name` is one of the built-in identifiers.
pub fn is_builtin_ident(name: &str) -> (r: bool)
    ensures
        r == is_builtin_spec(name@),
{
    let cs = chars_of(name);
    let n = cs.as_slice();
    chars_equal(n, "len") || chars_equal(n, "min") || chars_equal(n, "max") || chars_equal(
        n,
        "sorted_desc",
    ) || chars_equal(n, "sort_desc") || chars_equal(n, "take") || chars_equal(n, "cpu_count")
        || chars_equal(n, "chan") || chars_equal(n, "ok") || chars_equal(n, "err") || chars_equal(
        n,
        "print",
    ) || chars_equal(n, "println") || chars_equal(n, "true") || chars_equal(n, "false")
}

/// The items of `a` that are not in `b`, in order.
pub open spec fn items_not_in(a: Seq<Seq<char>>, b: Seq<Seq<char>>) -> Seq<Seq<char>>
    decreases a.len(),
{
    if a.len() == 0 {
        a
    } else if b.contains(a.last()) {
        items_not_in(a.drop_last(), b)
    } else {
        items_not_in(a.drop_last(), b).push(a.last())
    }
}

/// The first function of the program with the given name.
pub open spec fn hir_function_named(
    fs: Seq<crate::hir::HirFunction>,
    name: Seq<char>,
) -> Option<crate::hir::HirFunction>
    decreases fs.len(),
{
    if fs.len() == 0 {
        None
    } else if fs[0].name@ == name {
        Some(fs[0])
    } else {
        hir_function_named(fs.subrange(1, fs.len() as int), name)
    }
}

/// What the index records of a function's effects: where the checked
/// program has the function, the effects it declares but does not show and
/// those it shows but does not declare; nothing when both are empty or the
/// program lacks the function.
pub open spec fn effect_mismatch_spec(
    function_name: Seq<char>,
    file: Seq<char>,
    hir: crate::hir::HirProgram,
) -> Option<crate::indexer::model::EffectMismatchView> {
    match hir_function_named(hir.functions@, function_name) {
        None => None,
        Some(f) => {
            let declared = crate::order::views(f.effects_declared@);
            let observed = crate::order::views(f.effects_observed@);
            let declared_only = items_not_in(declared, observed);
            let observed_only = items_not_in(observed, declared);
            if declared_only.len() == 0 && observed_only.len() == 0 {
                None
            } else {
                Some(
                    crate::indexer::model::EffectMismatchView {
                        function_name,
                        file,
                        declared_only,
                        observed_only,
                    },
                )
            }
        },
    }
}

fn strings_not_in(a: &Vec<String>, b: &Vec<String>) -> (r: Vec<String>)
    ensures
        crate::order::views(r@) == items_not_in(crate::order::views(a@), crate::order::views(b@)),
{
    let ghost va = crate::order::views(a@);
    let ghost vb = crate::order::views(b@);
    let mut out: Vec<String> = Vec::new();
    let mut i: usize = 0;
    assert(va.take(0) =~= Seq::<Seq<char>>::empty());
    assert(crate::order::views(out@) =~= Seq::<Seq<char>>::empty());
    while i < a.len()
        invariant
            va == crate::order::views(a@),
            vb == crate::order::views(b@),
            i <= a@.len(),
            crate::order::views(out@) == items_not_in(va.take(i as int), vb),
        decreases a.len() - i,
    {
        assert(va.take(i + 1).drop_last() =~= va.take(i as int));
        assert(va.take(i + 1).last() == a@[i as int]@);
        if !crate::hir::contains_name(b, a[i].as_str()) {
            let ghost before = crate::order::views(out@);
            out.push(crate::text::to_owned_string(a[i].as_str()));
            assert(crate::order::views(out@) =~= before.push(a@[i as int]@));
        }
        i = i + 1;
    }
    assert(va.take(a@.len() as int) =~= va);
    out
}

/// The effect mismatch of the function named `function_name` in the
/// checked program `hir`, for the index of `file`.
pub fn effect_mismatch_of(function_name: &str, file: &str, hir: &crate::hir::HirProgram) -> (r: Option<
    crate::indexer::model::EffectMismatch,
>)
    ensures
        match r {
            Some(m) => effect_mismatch_spec(function_name@, file@, *hir) == Some(m@),
            None => effect_mismatch_spec(function_name@, file@, *hir).is_none(),
        },
{
    let ghost fs = hir.functions@;
    let mut i: usize = 0;
    assert(fs.subrange(0, fs.len() as int) =~= fs);
    while i < hir.functions.len()
        invariant
            fs == hir.functions@,
            i <= fs.len(),
            hir_function_named(fs, function_name@) == hir_function_named(
                fs.subrange(i as int, fs.len() as int),
                function_name@,
            ),
        decreases hir.functions.len() - i,
    {
        let f = &hir.functions[i];
        let ghost t = fs.subrange(i as int, fs.len() as int);
        assert(t[0] == *f);
        assert(t.subrange(1, t.len() as int) =~= fs.subrange(i + 1, fs.len() as int));
        if crate::text::str_eq(f.name.as_str(), function_name) {
            let declared_only = strings_not_in(&f.effects_declared, &f.effects_observed);
            let observed_only = strings_not_in(&f.effects_observed, &f.effects_declared);
            if declared_only.len() == 0 && observed_only.len() == 0 {
                return None;
            }
            return Some(
                crate::indexer::model::EffectMismatch {
                    function_name: crate::text::to_owned_string(function_name),
                    file: crate::text::to_owned_string(file),
                    declared_only,
                    observed_only,
                },
            );
        }
        i = i + 1;
    }
    None
}

} // verus!
