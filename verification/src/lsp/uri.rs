use vstd::prelude::*;

use crate::text::{chars_equal, chars_of, push_char, push_str};

verus! {

/// What `String::from_utf8_lossy` gives for bytes that are not valid UTF-8.
pub uninterp spec fn utf8_lossy(bytes: Seq<u8>) -> Seq<char>;

/// `String::from_utf8_lossy`: valid UTF-8 comes back as the text it
/// encodes; other input is named `utf8_lossy` (its replacement of invalid
/// sequences by U+FFFD is not written out).
#[verifier::external_body]
fn from_utf8_lossy(bytes: &[u8]) -> (r: String)
    ensures
        r@ == (if vstd::utf8::valid_utf8(bytes@) {
            vstd::utf8::decode_utf8(bytes@)
        } else {
            utf8_lossy(bytes@)
        }),
{
    String::from_utf8_lossy(bytes).to_string()
}

/// Bytes a URI keeps as they are: ASCII letters, digits and `/ _ - . ~ :`.
pub open spec fn kept_byte(b: u8) -> bool {
    ||| (48 <= b <= 57)
    ||| (65 <= b <= 90)
    ||| (97 <= b <= 122)
    ||| b == 47
    ||| b == 95
    ||| b == 45
    ||| b == 46
    ||| b == 126
    ||| b == 58
}

/// The uppercase hexadecimal digit (as a byte) for `n < 16`.
pub open spec fn upper_hex(n: int) -> u8 {
    if n < 10 {
        (48 + n) as u8
    } else {
        (55 + n) as u8
    }
}

/// Percent-encoding of bytes: kept bytes stay, every other byte becomes
/// `%` and two uppercase hex digits.
pub open spec fn percent_encoded(bytes: Seq<u8>) -> Seq<u8>
    decreases bytes.len(),
{
    if bytes.len() == 0 {
        Seq::empty()
    } else {
        let b = bytes[0];
        let head = if kept_byte(b) {
            seq![b]
        } else {
            seq![37u8, upper_hex(b as int / 16), upper_hex(b as int % 16)]
        };
        head + percent_encoded(bytes.skip(1))
    }
}

pub open spec fn is_hex_byte(b: u8) -> bool {
    (48 <= b <= 57) || (65 <= b <= 70) || (97 <= b <= 102)
}

pub open spec fn hex_byte_value(b: u8) -> int {
    if 48 <= b <= 57 {
        b - 48
    } else if 65 <= b <= 70 {
        b - 55
    } else {
        b - 87
    }
}

/// Percent-decoding of bytes: `%` and two hex digits become the byte they
/// denote; everything else stays.
pub open spec fn percent_decoded(bytes: Seq<u8>) -> Seq<u8>
    decreases bytes.len(),
{
    if bytes.len() == 0 {
        Seq::empty()
    } else if bytes.len() >= 3 && bytes[0] == 37 && is_hex_byte(bytes[1]) && is_hex_byte(bytes[2]) {
        seq![(hex_byte_value(bytes[1]) * 16 + hex_byte_value(bytes[2])) as u8] + percent_decoded(
            bytes.skip(3),
        )
    } else {
        seq![bytes[0]] + percent_decoded(bytes.skip(1))
    }
}

/// The text of ASCII bytes.
pub open spec fn ascii_text(bytes: Seq<u8>) -> Seq<char> {
    bytes.map_values(|b: u8| b as char)
}

pub open spec fn text_of_bytes(bytes: Seq<u8>) -> Seq<char> {
    if vstd::utf8::valid_utf8(bytes) {
        vstd::utf8::decode_utf8(bytes)
    } else {
        utf8_lossy(bytes)
    }
}

pub open spec fn file_scheme() -> Seq<char> {
    "file://"@
}

pub open spec fn path_to_uri_spec(path: Seq<char>) -> Seq<char> {
    if crate::mir::starts_with(path, file_scheme()) {
        path
    } else {
        file_scheme() + ascii_text(percent_encoded(vstd::utf8::encode_utf8(path)))
    }
}

pub open spec fn uri_to_path_spec(uri: Seq<char>) -> Seq<char> {
    if crate::mir::starts_with(uri, file_scheme()) {
        text_of_bytes(
            percent_decoded(vstd::utf8::encode_utf8(uri.skip(file_scheme().len() as int))),
        )
    } else {
        uri
    }
}

fn kept(b: u8) -> (r: bool)
    ensures
        r == kept_byte(b),
{
    (48 <= b && b <= 57) || (65 <= b && b <= 90) || (97 <= b && b <= 122) || b == 47 || b == 95
        || b == 45 || b == 46 || b == 126 || b == 58
}

fn upper_hex_exec(n: u8) -> (r: u8)
    requires
        n < 16,
    ensures
        r == upper_hex(n as int),
        r < 128,
{
    if n < 10 {
        48 + n
    } else {
        55 + n
    }
}

/// Percent-encodes the UTF-8 bytes of `input`.
pub fn percent_encode(input: &str) -> (r: String)
    ensures
        r@ == ascii_text(percent_encoded(vstd::utf8::encode_utf8(input@))),
{
    let bytes = input.as_bytes();
    let ghost b = bytes@;
    let mut out = String::new();
    let mut i: usize = 0;
    assert(b.skip(0) =~= b);
    assert(out@ =~= Seq::<char>::empty());
    while i < bytes.len()
        invariant
            b == bytes@,
            i <= b.len(),
            ascii_text(percent_encoded(b)) == out@ + ascii_text(percent_encoded(b.skip(i as int))),
        decreases bytes.len() - i,
    {
        let byte = bytes[i];
        let ghost rest = b.skip(i as int);
        assert(rest[0] == byte);
        assert(rest.skip(1) =~= b.skip(i + 1));
        let ghost tail = percent_encoded(b.skip(i + 1));
        let ghost before = out@;
        if kept(byte) {
            push_char(&mut out, byte as char);
            assert(ascii_text(seq![byte] + tail) =~= seq![byte as char] + ascii_text(tail));
            assert(before + (seq![byte as char] + ascii_text(tail)) =~= out@ + ascii_text(tail));
        } else {
            let hi = upper_hex_exec(byte / 16);
            let lo = upper_hex_exec(byte % 16);
            push_char(&mut out, '%');
            push_char(&mut out, hi as char);
            push_char(&mut out, lo as char);
            assert(ascii_text(seq![37u8, hi, lo] + tail) =~= seq!['%', hi as char, lo as char]
                + ascii_text(tail));
            assert(before + (seq!['%', hi as char, lo as char] + ascii_text(tail)) =~= out@
                + ascii_text(tail));
        }
        i = i + 1;
    }
    assert(b.skip(b.len() as int) =~= Seq::<u8>::empty());
    assert(out@ + ascii_text(Seq::<u8>::empty()) =~= out@);
    out
}

fn hex_byte(b: u8) -> (r: Option<u8>)
    ensures
        match r {
            Some(v) => is_hex_byte(b) && v == hex_byte_value(b),
            None => !is_hex_byte(b),
        },
{
    if 48 <= b && b <= 57 {
        Some(b - 48)
    } else if 65 <= b && b <= 70 {
        Some(b - 55)
    } else if 97 <= b && b <= 102 {
        Some(b - 87)
    } else {
        None
    }
}

/// Decodes `%XX` escapes in `input` and reads the bytes as UTF-8.
pub fn percent_decode(input: &str) -> (r: String)
    ensures
        r@ == text_of_bytes(percent_decoded(vstd::utf8::encode_utf8(input@))),
{
    let bytes = input.as_bytes();
    let ghost b = bytes@;
    let mut out: Vec<u8> = Vec::new();
    let mut idx: usize = 0;
    assert(b.skip(0) =~= b);
    while idx < bytes.len()
        invariant
            b == bytes@,
            idx <= b.len(),
            percent_decoded(b) == out@ + percent_decoded(b.skip(idx as int)),
        decreases bytes.len() - idx,
    {
        let ghost rest = b.skip(idx as int);
        let ghost before = out@;
        assert(rest[0] == b[idx as int]);
        if bytes[idx] == 37 && bytes.len() - idx > 2 {
            let h1 = hex_byte(bytes[idx + 1]);
            let h2 = hex_byte(bytes[idx + 2]);
            if let (Some(v1), Some(v2)) = (h1, h2) {
                assert(rest[1] == b[idx + 1] && rest[2] == b[idx + 2]);
                assert(rest.skip(3) =~= b.skip(idx + 3));
                let v = v1 * 16 + v2;
                out.push(v);
                idx = idx + 3;
                assert(before + (seq![v] + percent_decoded(rest.skip(3))) =~= out@
                    + percent_decoded(b.skip(idx as int)));
                continue;
            }
            assert(rest[1] == b[idx + 1] && rest[2] == b[idx + 2]);
        }
        assert(rest.skip(1) =~= b.skip(idx + 1));
        let c = bytes[idx];
        out.push(c);
        idx = idx + 1;
        assert(before + (seq![c] + percent_decoded(rest.skip(1))) =~= out@ + percent_decoded(
            b.skip(idx as int),
        ));
    }
    assert(b.skip(b.len() as int) =~= Seq::<u8>::empty());
    assert(out@ + percent_decoded(Seq::<u8>::empty()) =~= out@);
    from_utf8_lossy(out.as_slice())
}

/// The `file://` URI of a path; a path that already is one is kept.
pub fn path_to_uri(path: &str) -> (r: String)
    ensures
        r@ == path_to_uri_spec(path@),
{
    let cs = chars_of(path);
    proof {
        reveal_strlit("file://");
    }
    if crate::mir::starts_with_str(cs.as_slice(), "file://") {
        return crate::text::to_owned_string(path);
    }
    let mut out = String::new();
    push_str(&mut out, "file://");
    let enc = percent_encode(path);
    push_str(&mut out, enc.as_str());
    out
}

/// The path of a `file://` URI; anything else is kept as it is.
pub fn uri_to_path(uri: &str) -> (r: String)
    ensures
        r@ == uri_to_path_spec(uri@),
{
    let cs = chars_of(uri);
    if crate::mir::starts_with_str(cs.as_slice(), "file://") {
        assert(file_scheme().len() == 7) by {
            reveal_strlit("file://");
        }
        let raw = crate::text::string_of_range(cs.as_slice(), 7, cs.len());
        assert(raw@ =~= uri@.skip(7));
        return percent_decode(raw.as_str());
    }
    crate::text::to_owned_string(uri)
}

proof fn lemma_decode_encode(bytes: Seq<u8>)
    ensures
        percent_decoded(percent_encoded(bytes)) == bytes,
    decreases bytes.len(),
{
    if bytes.len() > 0 {
        let b = bytes[0];
        let tail = percent_encoded(bytes.skip(1));
        lemma_decode_encode(bytes.skip(1));
        if kept_byte(b) {
            let e = seq![b] + tail;
            assert(e[0] == b);
            assert(e.skip(1) =~= tail);
            assert(seq![b] + bytes.skip(1) =~= bytes);
        } else {
            let hi = upper_hex(b as int / 16);
            let lo = upper_hex(b as int % 16);
            let e = seq![37u8, hi, lo] + tail;
            assert(e[0] == 37 && e[1] == hi && e[2] == lo);
            assert(e.skip(3) =~= tail);
            assert(hex_byte_value(hi) * 16 + hex_byte_value(lo) == b);
            assert(seq![b] + bytes.skip(1) =~= bytes);
        }
    }
}

proof fn lemma_encoded_is_ascii(bytes: Seq<u8>)
    ensures
        forall|i: int| 0 <= i < percent_encoded(bytes).len() ==> #[trigger] percent_encoded(bytes)[i] < 128,
    decreases bytes.len(),
{
    if bytes.len() > 0 {
        lemma_encoded_is_ascii(bytes.skip(1));
        let b = bytes[0];
        let tail = percent_encoded(bytes.skip(1));
        let head = if kept_byte(b) {
            seq![b]
        } else {
            seq![37u8, upper_hex(b as int / 16), upper_hex(b as int % 16)]
        };
        assert forall|i: int| 0 <= i < (head + tail).len() implies #[trigger] (head + tail)[i] < 128 by {
            if i >= head.len() {
                assert((head + tail)[i] == tail[i - head.len()]);
            }
        }
    }
}

proof fn lemma_ascii_text_bytes(bytes: Seq<u8>)
    requires
        forall|i: int| 0 <= i < bytes.len() ==> #[trigger] bytes[i] < 128,
    ensures
        vstd::utf8::encode_utf8(ascii_text(bytes)) == bytes,
{
    let t = ascii_text(bytes);
    assert(vstd::utf8::is_ascii_chars(t)) by {
        assert forall|i: int| 0 <= i < t.len() implies '\0' <= #[trigger] t[i] <= '\u{7f}' by {
            assert(t[i] == bytes[i] as char);
        }
    }
    vstd::utf8::is_ascii_chars_encode_utf8(t);
    let e = vstd::utf8::encode_utf8(t);
    assert forall|i: int| 0 <= i < bytes.len() implies #[trigger] e[i] == bytes[i] by {
        assert(t[i] == bytes[i] as char);
        assert(t[i] as u8 == e[i]);
    }
    assert(e =~= bytes);
}

/// A path turned into a `file://` URI and back is the path again, for
/// every path that does not itself start with `file://`.
pub proof fn lemma_uri_round_trip(path: Seq<char>)
    requires
        !crate::mir::starts_with(path, file_scheme()),
    ensures
        uri_to_path_spec(path_to_uri_spec(path)) == path,
{
    let bytes = vstd::utf8::encode_utf8(path);
    let enc = percent_encoded(bytes);
    let uri = path_to_uri_spec(path);
    assert(file_scheme().len() == 7) by {
        reveal_strlit("file://");
    }
    assert(uri.subrange(0, 7) =~= file_scheme());
    assert(uri.skip(7) =~= ascii_text(enc));
    lemma_encoded_is_ascii(bytes);
    lemma_ascii_text_bytes(enc);
    lemma_decode_encode(bytes);
    vstd::utf8::encode_utf8_valid_utf8(path);
    vstd::utf8::encode_utf8_decode_utf8(path);
}

} // verus!
