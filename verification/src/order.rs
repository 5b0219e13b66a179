use vstd::prelude::*;

verus! {

/// Strict lexicographic order on byte sequences (a proper prefix sorts first).
pub open spec fn bytes_lt(a: Seq<u8>, b: Seq<u8>) -> bool
    decreases a.len(),
{
    if b.len() == 0 {
        false
    } else if a.len() == 0 {
        true
    } else if a[0] < b[0] {
        true
    } else if a[0] > b[0] {
        false
    } else {
        bytes_lt(a.drop_first(), b.drop_first())
    }
}

/// Strings order by their UTF-8 bytes, as `Ord for str` does.
pub open spec fn str_lt(a: Seq<char>, b: Seq<char>) -> bool {
    bytes_lt(vstd::utf8::encode_utf8(a), vstd::utf8::encode_utf8(b))
}

pub open spec fn str_le(a: Seq<char>, b: Seq<char>) -> bool {
    !str_lt(b, a)
}

pub proof fn lemma_bytes_lt_irreflexive(a: Seq<u8>)
    ensures
        !bytes_lt(a, a),
    decreases a.len(),
{
    if a.len() > 0 {
        lemma_bytes_lt_irreflexive(a.drop_first());
    }
}

pub proof fn lemma_bytes_lt_transitive(a: Seq<u8>, b: Seq<u8>, c: Seq<u8>)
    requires
        bytes_lt(a, b),
        bytes_lt(b, c),
    ensures
        bytes_lt(a, c),
    decreases a.len(),
{
    if a.len() > 0 && b.len() > 0 && c.len() > 0 && a[0] == b[0] && b[0] == c[0] {
        lemma_bytes_lt_transitive(a.drop_first(), b.drop_first(), c.drop_first());
    }
}

/// Any two byte sequences are ordered one way or the other, or are equal.
pub proof fn lemma_bytes_lt_trichotomy(a: Seq<u8>, b: Seq<u8>)
    ensures
        bytes_lt(a, b) || bytes_lt(b, a) || a == b,
    decreases a.len(),
{
    if a.len() > 0 && b.len() > 0 && a[0] == b[0] {
        lemma_bytes_lt_trichotomy(a.drop_first(), b.drop_first());
        if a.drop_first() == b.drop_first() {
            assert(a =~= seq![a[0]] + a.drop_first());
            assert(b =~= seq![b[0]] + b.drop_first());
        }
    } else if a.len() == 0 && b.len() == 0 {
        assert(a =~= b);
    }
}

pub proof fn lemma_str_le_total(a: Seq<char>, b: Seq<char>)
    ensures
        str_le(a, b) || str_le(b, a),
{
    let ea = vstd::utf8::encode_utf8(a);
    let eb = vstd::utf8::encode_utf8(b);
    if bytes_lt(ea, eb) && bytes_lt(eb, ea) {
        lemma_bytes_lt_transitive(ea, eb, ea);
        lemma_bytes_lt_irreflexive(ea);
    }
}

pub proof fn lemma_str_le_transitive(a: Seq<char>, b: Seq<char>, c: Seq<char>)
    requires
        str_le(a, b),
        str_le(b, c),
    ensures
        str_le(a, c),
{
    let ea = vstd::utf8::encode_utf8(a);
    let eb = vstd::utf8::encode_utf8(b);
    let ec = vstd::utf8::encode_utf8(c);
    if bytes_lt(ec, ea) {
        lemma_bytes_lt_trichotomy(eb, ea);
        if bytes_lt(eb, ea) {
        } else if eb == ea {
        } else {
            lemma_bytes_lt_transitive(ec, ea, eb);
        }
    }
}

/// Two strings neither of which sorts below the other are equal.
pub proof fn lemma_str_lt_eq(a: Seq<char>, b: Seq<char>)
    requires
        !str_lt(a, b),
        !str_lt(b, a),
    ensures
        a == b,
{
    let ea = vstd::utf8::encode_utf8(a);
    let eb = vstd::utf8::encode_utf8(b);
    lemma_bytes_lt_trichotomy(ea, eb);
    vstd::utf8::encode_utf8_decode_utf8(a);
    vstd::utf8::encode_utf8_decode_utf8(b);
}

pub proof fn lemma_str_lt_transitive(a: Seq<char>, b: Seq<char>, c: Seq<char>)
    requires
        str_lt(a, b),
        str_lt(b, c),
    ensures
        str_lt(a, c),
{
    lemma_bytes_lt_transitive(
        vstd::utf8::encode_utf8(a),
        vstd::utf8::encode_utf8(b),
        vstd::utf8::encode_utf8(c),
    );
}

pub proof fn lemma_str_lt_irreflexive(a: Seq<char>)
    ensures
        !str_lt(a, a),
{
    lemma_bytes_lt_irreflexive(vstd::utf8::encode_utf8(a));
}

/// Byte-wise comparison: `bytes_lt(a, b)`.
pub fn bytes_less(a: &[u8], b: &[u8]) -> (r: bool)
    ensures
        r == bytes_lt(a@, b@),
{
    let mut i: usize = 0;
    assert(a@.skip(0) =~= a@);
    assert(b@.skip(0) =~= b@);
    while i < a.len() && i < b.len()
        invariant
            i <= a@.len(),
            i <= b@.len(),
            bytes_lt(a@, b@) == bytes_lt(a@.skip(i as int), b@.skip(i as int)),
        decreases a.len() - i,
    {
        if a[i] < b[i] {
            return true;
        }
        if a[i] > b[i] {
            return false;
        }
        assert(a@.skip(i as int).drop_first() =~= a@.skip(i + 1));
        assert(b@.skip(i as int).drop_first() =~= b@.skip(i + 1));
        i = i + 1;
    }
    i < b.len()
}

/// `str_lt(a@, b@)`: the order of `Ord for str`.
pub fn str_less(a: &str, b: &str) -> (r: bool)
    ensures
        r == str_lt(a@, b@),
{
    bytes_less(a.as_bytes(), b.as_bytes())
}

/// One component of a sort key: text (ordered as `str`) or a number.
/// Numbers sort before text; keys compare component by component.
pub enum KeyAtom {
    Text(Seq<char>),
    Num(int),
}

pub open spec fn atom_lt(a: KeyAtom, b: KeyAtom) -> bool {
    match a {
        KeyAtom::Text(x) => match b {
            KeyAtom::Text(y) => str_lt(x, y),
            KeyAtom::Num(_) => false,
        },
        KeyAtom::Num(x) => match b {
            KeyAtom::Num(y) => x < y,
            KeyAtom::Text(_) => true,
        },
    }
}

/// Lexicographic order on keys; a proper prefix sorts first.
pub open spec fn key_lt(a: Seq<KeyAtom>, b: Seq<KeyAtom>) -> bool
    decreases a.len(),
{
    if a.len() == 0 || b.len() == 0 {
        a.len() == 0 && b.len() > 0
    } else if atom_lt(a[0], b[0]) {
        true
    } else if atom_lt(b[0], a[0]) {
        false
    } else {
        key_lt(a.drop_first(), b.drop_first())
    }
}

pub open spec fn key_le(a: Seq<KeyAtom>, b: Seq<KeyAtom>) -> bool {
    !key_lt(b, a)
}

proof fn lemma_str_lt_asym(x: Seq<char>, y: Seq<char>)
    ensures
        !(str_lt(x, y) && str_lt(y, x)),
{
    let ex = vstd::utf8::encode_utf8(x);
    let ey = vstd::utf8::encode_utf8(y);
    if bytes_lt(ex, ey) && bytes_lt(ey, ex) {
        lemma_bytes_lt_transitive(ex, ey, ex);
        lemma_bytes_lt_irreflexive(ex);
    }
}

proof fn lemma_str_lt_negtrans(x: Seq<char>, y: Seq<char>, z: Seq<char>)
    requires
        !str_lt(x, y),
        !str_lt(y, z),
    ensures
        !str_lt(x, z),
{
    lemma_str_le_transitive(z, y, x);
}

proof fn lemma_atom_asym(a: KeyAtom, b: KeyAtom)
    ensures
        !(atom_lt(a, b) && atom_lt(b, a)),
{
    if let KeyAtom::Text(x) = a {
        if let KeyAtom::Text(y) = b {
            lemma_str_lt_asym(x, y);
        }
    }
}

proof fn lemma_atom_negtrans(a: KeyAtom, b: KeyAtom, c: KeyAtom)
    requires
        !atom_lt(a, b),
        !atom_lt(b, c),
    ensures
        !atom_lt(a, c),
{
    if let KeyAtom::Text(x) = a {
        if let KeyAtom::Text(y) = b {
            if let KeyAtom::Text(z) = c {
                lemma_str_lt_negtrans(x, y, z);
            }
        }
    }
}

pub proof fn lemma_key_lt_asym(a: Seq<KeyAtom>, b: Seq<KeyAtom>)
    ensures
        !(key_lt(a, b) && key_lt(b, a)),
    decreases a.len(),
{
    if a.len() > 0 && b.len() > 0 {
        lemma_atom_asym(a[0], b[0]);
        lemma_key_lt_asym(a.drop_first(), b.drop_first());
    }
}

pub proof fn lemma_key_lt_negtrans(a: Seq<KeyAtom>, b: Seq<KeyAtom>, c: Seq<KeyAtom>)
    requires
        !key_lt(a, b),
        !key_lt(b, c),
    ensures
        !key_lt(a, c),
    decreases a.len(),
{
    if a.len() > 0 && b.len() > 0 && c.len() > 0 {
        let (x, y, z) = (a[0], b[0], c[0]);
        lemma_atom_asym(x, y);
        lemma_atom_asym(y, z);
        lemma_atom_asym(x, z);
        if !atom_lt(x, y) && !atom_lt(y, z) {
            lemma_atom_negtrans(x, y, z);
        }
        if !atom_lt(z, y) && !atom_lt(y, x) {
            lemma_atom_negtrans(z, y, x);
        }
        if !atom_lt(y, x) && !atom_lt(x, z) {
            lemma_atom_negtrans(y, x, z);
        }
        if !atom_lt(z, x) && !atom_lt(x, y) {
            lemma_atom_negtrans(z, x, y);
        }
        if !atom_lt(x, z) && !atom_lt(z, y) {
            lemma_atom_negtrans(x, z, y);
        }
        if !atom_lt(y, z) && !atom_lt(z, x) {
            lemma_atom_negtrans(y, z, x);
        }
        if !atom_lt(x, y) && !atom_lt(y, x) && !atom_lt(y, z) && !atom_lt(z, y) {
            lemma_key_lt_negtrans(a.drop_first(), b.drop_first(), c.drop_first());
        }
    }
}

pub proof fn lemma_key_le_total(a: Seq<KeyAtom>, b: Seq<KeyAtom>)
    ensures
        key_le(a, b) || key_le(b, a),
{
    lemma_key_lt_asym(a, b);
}

pub proof fn lemma_key_le_transitive(a: Seq<KeyAtom>, b: Seq<KeyAtom>, c: Seq<KeyAtom>)
    requires
        key_le(a, b),
        key_le(b, c),
    ensures
        key_le(a, c),
{
    lemma_key_lt_negtrans(c, b, a);
}

/// An executable key component.
pub enum KeyPart<'a> {
    Text(&'a str),
    Num(u64),
}

impl<'a> View for KeyPart<'a> {
    type V = KeyAtom;

    open spec fn view(&self) -> KeyAtom {
        match self {
            KeyPart::Text(s) => KeyAtom::Text(s@),
            KeyPart::Num(n) => KeyAtom::Num(*n as int),
        }
    }
}

fn atom_less(a: &KeyPart, b: &KeyPart) -> (r: bool)
    ensures
        r == atom_lt(a@, b@),
{
    match a {
        KeyPart::Text(x) => match b {
            KeyPart::Text(y) => str_less(x, y),
            KeyPart::Num(_) => false,
        },
        KeyPart::Num(x) => match b {
            KeyPart::Num(y) => *x < *y,
            KeyPart::Text(_) => true,
        },
    }
}

/// `key_lt` on executable keys.
pub fn key_less(a: &[KeyPart], b: &[KeyPart]) -> (r: bool)
    ensures
        r == key_lt(views(a@), views(b@)),
{
    let mut i: usize = 0;
    let ghost va = views(a@);
    let ghost vb = views(b@);
    assert(va.skip(0) =~= va);
    assert(vb.skip(0) =~= vb);
    while i < a.len() && i < b.len()
        invariant
            va == views(a@),
            vb == views(b@),
            i <= a@.len(),
            i <= b@.len(),
            key_lt(va, vb) == key_lt(va.skip(i as int), vb.skip(i as int)),
        decreases a.len() - i,
    {
        assert(va.skip(i as int)[0] == a@[i as int]@);
        assert(vb.skip(i as int)[0] == b@[i as int]@);
        if atom_less(&a[i], &b[i]) {
            return true;
        }
        if atom_less(&b[i], &a[i]) {
            return false;
        }
        assert(va.skip(i as int).drop_first() =~= va.skip(i + 1));
        assert(vb.skip(i as int).drop_first() =~= vb.skip(i + 1));
        i = i + 1;
    }
    i == a.len() && i < b.len()
}

/// The views of the items of a sequence.
pub open spec fn views<T: View>(s: Seq<T>) -> Seq<T::V> {
    s.map_values(|x: T| x@)
}

/// A total preorder on the views of `T`, with an executable test.
pub trait TotalPreorder<T: View> {
    spec fn le(a: T::V, b: T::V) -> bool;

    proof fn lemma_total(a: T::V, b: T::V)
        ensures
            Self::le(a, b) || Self::le(b, a),
    ;

    proof fn lemma_transitive(a: T::V, b: T::V, c: T::V)
        requires
            Self::le(a, b),
            Self::le(b, c),
        ensures
            Self::le(a, c),
    ;

    fn le_exec(a: &T, b: &T) -> (r: bool)
        ensures
            r == Self::le(a@, b@),
    ;
}

pub open spec fn sorted_by<T: View, C: TotalPreorder<T>>(s: Seq<T::V>) -> bool {
    forall|i: int, j: int| 0 <= i < j < s.len() ==> C::le(#[trigger] s[i], #[trigger] s[j])
}

/// `p` is a permutation of `0..n`.
pub open spec fn is_permutation(p: Seq<int>, n: nat) -> bool {
    &&& p.len() == n
    &&& forall|k: int| 0 <= k < p.len() ==> 0 <= #[trigger] p[k] < n
    &&& forall|k: int, l: int| 0 <= k < l < p.len() ==> #[trigger] p[k] != #[trigger] p[l]
}

/// `output` is `input` reordered by `p`, sorted by `C`, and items of equal
/// rank keep the order they had in `input`.
pub open spec fn stable_sort_witness<T: View, C: TotalPreorder<T>>(
    input: Seq<T::V>,
    output: Seq<T::V>,
    p: Seq<int>,
) -> bool {
    &&& output.len() == input.len()
    &&& is_permutation(p, input.len())
    &&& forall|k: int| 0 <= k < output.len() ==> #[trigger] output[k] == input[p[k]]
    &&& sorted_by::<T, C>(output)
    &&& forall|k: int, l: int|
        0 <= k < l < output.len() && C::le(#[trigger] output[l], #[trigger] output[k]) ==> p[k]
            < p[l]
}

/// `output` is the stable sort of `input` under `C`.
pub open spec fn is_stable_sort_of<T: View, C: TotalPreorder<T>>(
    input: Seq<T::V>,
    output: Seq<T::V>,
) -> bool {
    exists|p: Seq<int>| #[trigger] stable_sort_witness::<T, C>(input, output, p)
}

/// Stable sort (insertion sort) under the preorder `C`.
pub fn stable_sort<T: View, C: TotalPreorder<T>>(v: Vec<T>) -> (r: Vec<T>)
    ensures
        is_stable_sort_of::<T, C>(views(v@), views(r@)),
{
    let ghost input = views(v@);
    let mut src = v;
    let mut out: Vec<T> = Vec::new();
    let ghost mut p: Seq<int> = Seq::empty();
    let n = src.len();
    let mut i: usize = 0;
    while i < n
        invariant
            n == input.len(),
            i <= n,
            views(src@) == input.skip(i as int),
            src@.len() == n - i,
            out@.len() == i,
            p.len() == i,
            forall|k: int| 0 <= k < p.len() ==> 0 <= #[trigger] p[k] < i,
            forall|k: int, l: int| 0 <= k < l < p.len() ==> #[trigger] p[k] != #[trigger] p[l],
            forall|k: int| 0 <= k < out@.len() ==> #[trigger] views(out@)[k] == input[p[k]],
            sorted_by::<T, C>(views(out@)),
            forall|k: int, l: int|
                0 <= k < l < out@.len() && C::le(#[trigger] views(out@)[l], #[trigger] views(
                    out@,
                )[k]) ==> p[k] < p[l],
        decreases n - i,
    {
        let ghost src_before = src@;
        let x = src.remove(0);
        assert(views(src_before)[0] == src_before[0]@);
        assert(views(src_before)[0] == x@);
        assert(x@ == input[i as int]);
        assert forall|k: int| 0 <= k < views(src@).len() implies #[trigger] views(src@)[k]
            == input.skip(i + 1)[k] by {
            assert(views(src@)[k] == src@[k]@);
            assert(src@[k] == src_before[k + 1]);
            assert(views(src_before)[k + 1] == src_before[k + 1]@);
        }
        assert(views(src@) =~= input.skip(i + 1));
        let mut pos: usize = 0;
        while pos < out.len()
            invariant
                pos <= out@.len(),
                forall|j: int| 0 <= j < pos ==> C::le(#[trigger] views(out@)[j], x@),
            ensures
                pos <= out@.len(),
                forall|j: int| 0 <= j < pos ==> C::le(#[trigger] views(out@)[j], x@),
                pos < out@.len() ==> !C::le(views(out@)[pos as int], x@),
            decreases out.len() - pos,
        {
            if !C::le_exec(&out[pos], &x) {
                break;
            }
            pos = pos + 1;
        }
        let ghost old_out = views(out@);
        let ghost old_p = p;
        let ghost xv = x@;
        proof {
            if pos < old_out.len() {
                C::lemma_total(old_out[pos as int], xv);
            }
        }
        out.insert(pos, x);
        let ghost nv = views(out@);
        assert(nv =~= old_out.insert(pos as int, xv));
        proof {
            p = old_p.insert(pos as int, i as int);
        }
        assert forall|k: int| 0 <= k < p.len() implies 0 <= #[trigger] p[k] < i + 1 by {
            if k < pos {
                assert(p[k] == old_p[k]);
            } else if k > pos {
                assert(p[k] == old_p[k - 1]);
            }
        }
        assert forall|k: int, l: int| 0 <= k < l < p.len() implies #[trigger] p[k]
            != #[trigger] p[l] by {
            if k < pos && l < pos {
            } else if k < pos && l == pos {
            } else if k < pos {
                assert(p[l] == old_p[l - 1]);
            } else if k == pos {
                assert(p[l] == old_p[l - 1]);
            } else {
                assert(p[k] == old_p[k - 1]);
                assert(p[l] == old_p[l - 1]);
            }
        }
        assert forall|k: int| 0 <= k < nv.len() implies #[trigger] nv[k] == input[p[k]] by {
            if k < pos {
                assert(nv[k] == old_out[k]);
                assert(p[k] == old_p[k]);
            } else if k > pos {
                assert(nv[k] == old_out[k - 1]);
                assert(p[k] == old_p[k - 1]);
            }
        }
        assert forall|k: int, l: int| 0 <= k < l < nv.len() implies C::le(
            #[trigger] nv[k],
            #[trigger] nv[l],
        ) by {
            if k < pos && l < pos {
                assert(nv[k] == old_out[k] && nv[l] == old_out[l]);
            } else if k < pos && l == pos {
                assert(nv[k] == old_out[k]);
            } else if k < pos {
                assert(nv[k] == old_out[k] && nv[l] == old_out[l - 1]);
                assert(C::le(old_out[k], old_out[l - 1]));
            } else if k == pos {
                assert(nv[l] == old_out[l - 1]);
                if l - 1 > pos {
                    assert(C::le(old_out[pos as int], old_out[l - 1]));
                    C::lemma_transitive(xv, old_out[pos as int], old_out[l - 1]);
                }
            } else {
                assert(nv[k] == old_out[k - 1] && nv[l] == old_out[l - 1]);
                assert(C::le(old_out[k - 1], old_out[l - 1]));
            }
        }
        assert forall|k: int, l: int|
            0 <= k < l < nv.len() && C::le(#[trigger] nv[l], #[trigger] nv[k]) implies p[k]
            < p[l] by {
            if k < pos && l < pos {
                assert(nv[k] == old_out[k] && nv[l] == old_out[l]);
                assert(p[k] == old_p[k] && p[l] == old_p[l]);
            } else if k < pos && l == pos {
                assert(p[k] == old_p[k]);
            } else if k < pos {
                assert(nv[k] == old_out[k] && nv[l] == old_out[l - 1]);
                assert(p[k] == old_p[k] && p[l] == old_p[l - 1]);
            } else if k == pos {
                assert(nv[l] == old_out[l - 1]);
                if l - 1 > pos {
                    assert(C::le(old_out[pos as int], old_out[l - 1]));
                    C::lemma_transitive(old_out[pos as int], old_out[l - 1], xv);
                }
            } else {
                assert(nv[k] == old_out[k - 1] && nv[l] == old_out[l - 1]);
                assert(p[k] == old_p[k - 1] && p[l] == old_p[l - 1]);
            }
        }
        i = i + 1;
    }
    assert(views(src@).len() == 0);
    assert(stable_sort_witness::<T, C>(input, views(out@), p));
    out
}

/// Every index below `n` occurs in a permutation of `0..n`.
pub proof fn lemma_permutation_onto(p: Seq<int>, n: nat)
    requires
        is_permutation(p, n),
    ensures
        forall|i: int| 0 <= i < n ==> p.contains(i),
{
    assert(p.no_duplicates()) by {
        assert forall|k: int, l: int| 0 <= k < p.len() && 0 <= l < p.len() && k != l implies p[k] != p[l] by {
            if k < l {
                assert(p[k] != p[l]);
            } else {
                assert(p[l] != p[k]);
            }
        }
    }
    p.unique_seq_to_set();
    vstd::set_lib::lemma_int_range(0, n as int);
    let r = vstd::set_lib::set_int_range(0, n as int);
    vstd::seq_lib::seq_to_set_is_finite(p);
    assert(p.to_set().subset_of(r)) by {
        assert forall|x: int| p.to_set().contains(x) implies r.contains(x) by {
            let k = choose|k: int| 0 <= k < p.len() && p[k] == x;
            assert(0 <= p[k] < n);
        }
    }
    vstd::set_lib::lemma_subset_equality(p.to_set(), r);
    assert forall|i: int| 0 <= i < n implies p.contains(i) by {
        assert(r.contains(i));
        assert(p.to_set().contains(i));
    }
}

/// The order of input positions that a stable sort follows: by rank, then
/// by position.
pub open spec fn stable_before<T: View, C: TotalPreorder<T>>(input: Seq<T::V>, i: int, j: int) -> bool {
    ||| C::le(input[i], input[j]) && !C::le(input[j], input[i])
    ||| C::le(input[i], input[j]) && C::le(input[j], input[i]) && i < j
}

proof fn lemma_witness_increasing<T: View, C: TotalPreorder<T>>(input: Seq<T::V>, out: Seq<T::V>, p: Seq<int>)
    requires
        stable_sort_witness::<T, C>(input, out, p),
    ensures
        forall|k: int, l: int| 0 <= k < l < p.len() ==> stable_before::<T, C>(input, #[trigger] p[k], #[trigger] p[l]),
{
    assert forall|k: int, l: int| 0 <= k < l < p.len() implies stable_before::<T, C>(input, #[trigger] p[k], #[trigger] p[l]) by {
        assert(out[k] == input[p[k]]);
        assert(out[l] == input[p[l]]);
        assert(C::le(out[k], out[l]));
        if C::le(out[l], out[k]) {
            assert(p[k] < p[l]);
        }
    }
}

/// A stable sort has one result: two stable sorts of the same input under
/// the same preorder are equal.
pub proof fn lemma_stable_sort_unique<T: View, C: TotalPreorder<T>>(
    input: Seq<T::V>,
    out1: Seq<T::V>,
    out2: Seq<T::V>,
)
    requires
        is_stable_sort_of::<T, C>(input, out1),
        is_stable_sort_of::<T, C>(input, out2),
    ensures
        out1 == out2,
{
    let p1 = choose|p: Seq<int>| #[trigger] stable_sort_witness::<T, C>(input, out1, p);
    let p2 = choose|p: Seq<int>| #[trigger] stable_sort_witness::<T, C>(input, out2, p);
    lemma_witness_increasing::<T, C>(input, out1, p1);
    lemma_witness_increasing::<T, C>(input, out2, p2);
    lemma_permutation_onto(p1, input.len());
    lemma_permutation_onto(p2, input.len());
    let n = input.len() as int;
    assert forall|k: int| 0 <= k < n implies p1[k] == p2[k] by {
        lemma_positions_agree::<T, C>(input, p1, p2, k);
    }
    assert(out1 =~= out2) by {
        assert forall|k: int| 0 <= k < n implies out1[k] == out2[k] by {
            assert(out1[k] == input[p1[k]]);
            assert(out2[k] == input[p2[k]]);
        }
    }
}

proof fn lemma_stable_before_asym<T: View, C: TotalPreorder<T>>(input: Seq<T::V>, i: int, j: int)
    ensures
        !(stable_before::<T, C>(input, i, j) && stable_before::<T, C>(input, j, i)),
{
}


proof fn lemma_positions_agree<T: View, C: TotalPreorder<T>>(input: Seq<T::V>, p1: Seq<int>, p2: Seq<int>, k: int)
    requires
        is_permutation(p1, input.len()),
        is_permutation(p2, input.len()),
        forall|i: int| 0 <= i < input.len() ==> p1.contains(i),
        forall|i: int| 0 <= i < input.len() ==> p2.contains(i),
        forall|a: int, b: int| 0 <= a < b < p1.len() ==> stable_before::<T, C>(input, #[trigger] p1[a], #[trigger] p1[b]),
        forall|a: int, b: int| 0 <= a < b < p2.len() ==> stable_before::<T, C>(input, #[trigger] p2[a], #[trigger] p2[b]),
        0 <= k < input.len(),
    ensures
        p1[k] == p2[k],
    decreases k,
{
    let a = p1[k];
    let b = p2[k];
    if a != b {
        assert(0 <= a < input.len());
        assert(0 <= b < input.len());
        assert(p2.contains(a));
        assert(p1.contains(b));
        let m = choose|m: int| 0 <= m < p2.len() && p2[m] == a;
        let q = choose|q: int| 0 <= q < p1.len() && p1[q] == b;
        if m < k {
            lemma_positions_agree::<T, C>(input, p1, p2, m);
            assert(p1[m] == a);
            assert(p1[m] != p1[k]);
        }
        if q < k {
            lemma_positions_agree::<T, C>(input, p1, p2, q);
            assert(p2[q] == b);
            assert(p2[q] != p2[k]);
        }
        assert(m > k && q > k);
        assert(stable_before::<T, C>(input, p2[k], p2[m]));
        assert(stable_before::<T, C>(input, p1[k], p1[q]));
        lemma_stable_before_asym::<T, C>(input, a, b);
    }
}

/// Stable sorts under two preorders that agree on every pair of input
/// items give the same result.
pub proof fn lemma_stable_sorts_agree<T: View, C1: TotalPreorder<T>, C2: TotalPreorder<T>>(
    input: Seq<T::V>,
    out1: Seq<T::V>,
    out2: Seq<T::V>,
)
    requires
        forall|i: int, j: int|
            0 <= i < input.len() && 0 <= j < input.len() ==> (C1::le(#[trigger] input[i], #[trigger] input[j])
                <==> C2::le(input[i], input[j])),
        is_stable_sort_of::<T, C1>(input, out1),
        is_stable_sort_of::<T, C2>(input, out2),
    ensures
        out1 == out2,
{
    lemma_stable_sort_transfers::<T, C2, C1>(input, out2);
    lemma_stable_sort_unique::<T, C1>(input, out1, out2);
}

/// A stable sort under one preorder is a stable sort under any other
/// preorder that agrees with it on the input's items.
pub proof fn lemma_stable_sort_transfers<T: View, C1: TotalPreorder<T>, C2: TotalPreorder<T>>(
    input: Seq<T::V>,
    out: Seq<T::V>,
)
    requires
        forall|i: int, j: int|
            0 <= i < input.len() && 0 <= j < input.len() ==> (C1::le(#[trigger] input[i], #[trigger] input[j])
                <==> C2::le(input[i], input[j])),
        is_stable_sort_of::<T, C1>(input, out),
    ensures
        is_stable_sort_of::<T, C2>(input, out),
{
    let p = choose|p: Seq<int>| #[trigger] stable_sort_witness::<T, C1>(input, out, p);
    assert(stable_sort_witness::<T, C2>(input, out, p)) by {
        assert forall|k: int, l: int| 0 <= k < l < out.len() implies C2::le(#[trigger] out[k], #[trigger] out[l]) by {
            assert(out[k] == input[p[k]]);
            assert(out[l] == input[p[l]]);
            assert(C1::le(out[k], out[l]));
        }
        assert forall|k: int, l: int|
            0 <= k < l < out.len() && C2::le(#[trigger] out[l], #[trigger] out[k]) implies p[k] < p[l] by {
            assert(out[k] == input[p[k]]);
            assert(out[l] == input[p[l]]);
            assert(C1::le(out[l], out[k]));
        }
    }
}

} // verus!
