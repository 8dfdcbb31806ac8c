//! Percent-decoding of request paths.
//!
//! Decoding comes before the segments are checked: a `..` written as
//! `%2e%2e` is a `..` by the time the resolver looks at it.

use vstd::prelude::*;
use vstd::utf8::{
    decode_first_scalar, decode_utf8, decode_utf8_split, encode_scalar, encode_utf8,
    encode_utf8_decode_utf8, encode_utf8_valid_utf8, has_width_1_encoding,
    is_char_boundary_iff_not_is_continuation_byte, pop_first_scalar,
    valid_utf8, valid_utf8_split,
};

verus! {

/// The value of an ASCII hexadecimal digit, either case; `None` for any
/// other byte.
pub open spec fn hex_digit(b: u8) -> Option<int> {
    if 0x30 <= b <= 0x39 {
        Some(b - 0x30)
    } else if 0x41 <= b <= 0x46 {
        Some(b - 0x41 + 10)
    } else if 0x61 <= b <= 0x66 {
        Some(b - 0x61 + 10)
    } else {
        None
    }
}

/// `bytes` begins with a `%` and two hexadecimal digits.
pub open spec fn escape_at_front(bytes: Seq<u8>) -> bool {
    bytes.len() >= 3 && bytes[0] == 0x25 && hex_digit(bytes[1]) is Some && hex_digit(
        bytes[2],
    ) is Some
}

/// The bytes that `bytes` stands for: each `%` that two hexadecimal digits
/// follow becomes, with them, the one byte they spell; every other byte
/// stands for itself.
pub open spec fn percent_decoded(bytes: Seq<u8>) -> Seq<u8>
    decreases bytes.len(),
{
    if bytes.len() == 0 {
        seq![]
    } else if escape_at_front(bytes) {
        seq![(hex_digit(bytes[1])->0 * 16 + hex_digit(bytes[2])->0) as u8] + percent_decoded(
            bytes.skip(3),
        )
    } else {
        seq![bytes[0]] + percent_decoded(bytes.skip(1))
    }
}

/// The text that a lossy UTF-8 conversion makes of `bytes`: the characters
/// that well-formed parts encode, and U+FFFD in place of each ill-formed
/// part.
pub uninterp spec fn utf8_lossy_text(bytes: Seq<u8>) -> Seq<char>;

/// The text that `bytes` are read as: what they encode where they are
/// well-formed UTF-8, and the lossy conversion where they are not.
pub open spec fn text_of_bytes(bytes: Seq<u8>) -> Seq<char> {
    if valid_utf8(bytes) {
        decode_utf8(bytes)
    } else {
        utf8_lossy_text(bytes)
    }
}

/// What a raw request path reads as: its UTF-8 bytes percent-decoded, and
/// the outcome taken as text again.
pub open spec fn decoded_text(raw: Seq<char>) -> Seq<char> {
    text_of_bytes(percent_decoded(encode_utf8(raw)))
}

/// Calls `percent_encoding::percent_decode` and collects what the iterator
/// yields. Trusted: the bytes are those that `percent_decoded` describes,
/// which is the crate's documented rule that any `%` followed by two
/// hexadecimal digits is decoded.
#[verifier::external_body]
fn percent_decode_bytes(input: &[u8]) -> (out: Vec<u8>)
    ensures
        out@ == percent_decoded(input@),
{
    percent_encoding::percent_decode(input).collect()
}

/// Calls `String::from_utf8_lossy`. Trusted: the text depends on the bytes
/// alone, and well-formed UTF-8 is decoded as it stands.
#[verifier::external_body]
fn utf8_lossy(bytes: &Vec<u8>) -> (text: String)
    ensures
        text@ == utf8_lossy_text(bytes@),
        valid_utf8(bytes@) ==> text@ == decode_utf8(bytes@),
{
    String::from_utf8_lossy(bytes).into_owned()
}

/// Percent-decodes a raw request path, lossily: bytes that are no UTF-8
/// become replacement characters, and the request goes on.
pub fn decode_request_path(raw: &str) -> (text: String)
    ensures
        text@ == decoded_text(raw@),
{
    let bytes = percent_decode_bytes(raw.as_bytes());
    utf8_lossy(&bytes)
}

/// An ASCII character that stands for itself in an encoded path: not `%`.
pub open spec fn is_plain_ascii(c: char) -> bool {
    '\0' <= c <= '\u{7f}' && c != '%'
}

/// The bytes of a text of ASCII characters.
pub open spec fn ascii_bytes(text: Seq<char>) -> Seq<u8> {
    text.map_values(|c: char| c as u8)
}

/// An ASCII character is encoded as the one byte of its own value.
pub proof fn lemma_encode_ascii(c: char)
    requires
        '\0' <= c <= '\u{7f}',
    ensures
        encode_scalar(c as u32) == seq![c as u8],
{
    let v = c as u32;
    assert((v & 0x7F) as u8 == v as u8) by (bit_vector)
        requires
            v < 0x80,
    ;
}

/// The encoding of two texts put together is their encodings put together.
pub proof fn lemma_encode_concat(a: Seq<char>, b: Seq<char>)
    ensures
        encode_utf8(a + b) == encode_utf8(a) + encode_utf8(b),
    decreases a.len(),
{
    if a.len() == 0 {
        assert(a + b =~= b);
        assert(encode_utf8(a) + encode_utf8(b) =~= encode_utf8(b));
    } else {
        assert((a + b).drop_first() =~= a.drop_first() + b);
        lemma_encode_concat(a.drop_first(), b);
        assert(encode_utf8(a + b) =~= encode_utf8(a) + encode_utf8(b));
    }
}

/// A text of ASCII characters is encoded as its bytes.
pub proof fn lemma_encode_ascii_text(text: Seq<char>)
    requires
        forall|i: int| 0 <= i < text.len() ==> '\0' <= #[trigger] text[i] <= '\u{7f}',
    ensures
        encode_utf8(text) == ascii_bytes(text),
    decreases text.len(),
{
    if text.len() == 0 {
        assert(encode_utf8(text) =~= ascii_bytes(text));
    } else {
        let rest = text.drop_first();
        assert forall|i: int| 0 <= i < rest.len() implies '\0' <= #[trigger] rest[i]
            <= '\u{7f}' by {
            assert(rest[i] == text[i + 1]);
        }
        lemma_encode_ascii_text(rest);
        lemma_encode_ascii(text[0]);
        assert(encode_utf8(text) =~= ascii_bytes(text));
    }
}

/// Decoding two byte texts put together decodes each, provided that the
/// second does not begin with a hexadecimal digit: no escape sequence then
/// reaches over the joint.
pub proof fn lemma_percent_concat(a: Seq<u8>, b: Seq<u8>)
    requires
        b.len() == 0 || hex_digit(b[0]) is None,
    ensures
        percent_decoded(a + b) == percent_decoded(a) + percent_decoded(b),
    decreases a.len(),
{
    let whole = a + b;
    if a.len() == 0 {
        assert(whole =~= b);
        assert(percent_decoded(a) + percent_decoded(b) =~= percent_decoded(b));
    } else if escape_at_front(whole) {
        if a.len() == 1 {
            assert(whole[1] == b[0]);
        } else if a.len() == 2 {
            assert(whole[2] == b[0]);
        }
        assert(a.len() >= 3);
        assert(whole[1] == a[1] && whole[2] == a[2]);
        assert(escape_at_front(a));
        assert(whole.skip(3) =~= a.skip(3) + b);
        lemma_percent_concat(a.skip(3), b);
        assert(percent_decoded(whole) =~= percent_decoded(a) + percent_decoded(b));
    } else {
        if a.len() >= 3 {
            assert(whole[1] == a[1] && whole[2] == a[2]);
        }
        assert(!escape_at_front(a));
        assert(whole.skip(1) =~= a.skip(1) + b);
        lemma_percent_concat(a.skip(1), b);
        assert(percent_decoded(whole) =~= percent_decoded(a) + percent_decoded(b));
    }
}

/// Bytes without a `%` in front of any text decode to themselves, before
/// what the text decodes to.
pub proof fn lemma_percent_plain_front(plain: Seq<u8>, rest: Seq<u8>)
    requires
        forall|i: int| 0 <= i < plain.len() ==> plain[i] != 0x25,
    ensures
        percent_decoded(plain + rest) == plain + percent_decoded(rest),
    decreases plain.len(),
{
    let whole = plain + rest;
    if plain.len() == 0 {
        assert(whole =~= rest);
        assert(plain + percent_decoded(rest) =~= percent_decoded(rest));
    } else {
        assert(whole[0] == plain[0]);
        assert(!escape_at_front(whole));
        assert(whole.skip(1) =~= plain.skip(1) + rest);
        assert forall|i: int| 0 <= i < plain.skip(1).len() implies plain.skip(1)[i] != 0x25 by {
            assert(plain.skip(1)[i] == plain[i + 1]);
        }
        lemma_percent_plain_front(plain.skip(1), rest);
        assert(percent_decoded(whole) =~= plain + percent_decoded(rest));
    }
}

/// Well-formed bytes that begin with ASCII bytes decode to the characters of
/// these, before what the rest decodes to; and the rest is well-formed.
pub proof fn lemma_decode_ascii_front(front: Seq<char>, rest: Seq<u8>)
    requires
        forall|i: int| 0 <= i < front.len() ==> '\0' <= #[trigger] front[i] <= '\u{7f}',
        valid_utf8(ascii_bytes(front) + rest),
    ensures
        valid_utf8(rest),
        decode_utf8(ascii_bytes(front) + rest) == front + decode_utf8(rest),
    decreases front.len(),
{
    let whole = ascii_bytes(front) + rest;
    if front.len() == 0 {
        assert(whole =~= rest);
        assert(front + decode_utf8(rest) =~= decode_utf8(rest));
    } else {
        let c = front[0];
        let tail = front.drop_first();
        assert(whole[0] == c as u8);
        assert('\0' <= c <= '\u{7f}');
        assert(pop_first_scalar(whole) =~= ascii_bytes(tail) + rest);
        assert forall|i: int| 0 <= i < tail.len() implies '\0' <= #[trigger] tail[i]
            <= '\u{7f}' by {
            assert(tail[i] == front[i + 1]);
        }
        lemma_decode_ascii_front(tail, rest);
        let b = whole[0];
        assert((b & 0x7F) as u32 == b as u32) by (bit_vector)
            requires
                b < 0x80,
        ;
        assert(decode_first_scalar(whole) as char == c);
        assert(decode_utf8(whole) =~= front + decode_utf8(rest));
    }
}

/// A run of plain ASCII characters that does not begin with a hexadecimal
/// digit comes through the decoding of a raw path as it is, where the
/// decoded bytes are well-formed: what precedes the run and what follows it
/// are decoded each for itself.
pub proof fn lemma_marker_survives(prefix: Seq<char>, marker: Seq<char>, suffix: Seq<char>)
    requires
        marker.len() > 0,
        forall|i: int| 0 <= i < marker.len() ==> is_plain_ascii(#[trigger] marker[i]),
        hex_digit(marker[0] as u8) is None,
        valid_utf8(percent_decoded(encode_utf8(prefix + marker + suffix))),
    ensures
        decoded_text(prefix + marker + suffix) == decoded_text(prefix) + marker + decoded_text(
            suffix,
        ),
{
    let raw = prefix + marker + suffix;
    let a = encode_utf8(prefix);
    let m = ascii_bytes(marker);
    let b = encode_utf8(suffix);
    assert forall|i: int| 0 <= i < marker.len() implies '\0' <= #[trigger] marker[i]
        <= '\u{7f}' by {
        assert(is_plain_ascii(marker[i]));
    }
    lemma_encode_concat(prefix + marker, suffix);
    lemma_encode_concat(prefix, marker);
    lemma_encode_ascii_text(marker);
    assert(encode_utf8(raw) =~= a + (m + b));
    assert((m + b)[0] == m[0]);
    assert(m[0] == marker[0] as u8);
    lemma_percent_concat(a, m + b);
    assert forall|i: int| 0 <= i < m.len() implies m[i] != 0x25 by {
        assert(is_plain_ascii(marker[i]));
        assert(m[i] == marker[i] as u8);
    }
    lemma_percent_plain_front(m, b);
    let x = percent_decoded(a);
    let y = percent_decoded(b);
    let d = percent_decoded(encode_utf8(raw));
    assert(d =~= x + (m + y));
    let cut = x.len() as int;
    assert(d[cut] == m[0]);
    assert(m[0] < 0x80) by {
        assert(is_plain_ascii(marker[0]));
    }
    is_char_boundary_iff_not_is_continuation_byte(d, cut);
    valid_utf8_split(d, cut);
    decode_utf8_split(d, cut);
    assert(d.subrange(0, cut) =~= x);
    assert(d.subrange(cut, d.len() as int) =~= m + y);
    lemma_decode_ascii_front(marker, y);
    assert(decode_utf8(d) =~= decode_utf8(x) + marker + decode_utf8(y));
}

/// No byte of the encoding of a character other than `%` is the byte of
/// `%`.
pub proof fn lemma_encoded_char_holds_no_percent(c: char)
    requires
        c != '%',
    ensures
        !encode_scalar(c as u32).contains(0x25u8),
{
    let v = c as u32;
    if has_width_1_encoding(v) {
        assert((v & 0x7F) as u8 == v as u8) by (bit_vector)
            requires
                v < 0x80,
        ;
    } else {
        assert(0xC0u8 | ((v >> 6) & 0x1F) as u8 != 0x25) by (bit_vector);
        assert(0xE0u8 | ((v >> 12) & 0x0F) as u8 != 0x25) by (bit_vector);
        assert(0xF0u8 | ((v >> 18) & 0x7) as u8 != 0x25) by (bit_vector);
        assert(0x80u8 | (v & 0x3F) as u8 != 0x25) by (bit_vector);
        assert(0x80u8 | ((v >> 6) & 0x3F) as u8 != 0x25) by (bit_vector);
        assert(0x80u8 | ((v >> 12) & 0x3F) as u8 != 0x25) by (bit_vector);
    }
    let e = encode_scalar(v);
    if e.contains(0x25u8) {
        let j = choose|j: int| 0 <= j < e.len() && e[j] == 0x25u8;
        assert(e[j] != 0x25u8);
    }
}

/// The encoding of a text without `%` holds no byte of `%`.
pub proof fn lemma_encoded_text_holds_no_percent(text: Seq<char>)
    requires
        !text.contains('%'),
    ensures
        !encode_utf8(text).contains(0x25u8),
    decreases text.len(),
{
    if text.len() > 0 {
        let rest = text.drop_first();
        assert(text[0] != '%') by {
            if text[0] == '%' {
                assert(text.contains('%'));
            }
        }
        assert(!rest.contains('%')) by {
            if rest.contains('%') {
                let j = choose|j: int| 0 <= j < rest.len() && rest[j] == '%';
                assert(text[j + 1] == '%');
            }
        }
        lemma_encoded_char_holds_no_percent(text[0]);
        lemma_encoded_text_holds_no_percent(rest);
        let head = encode_scalar(text[0] as u32);
        let tail = encode_utf8(rest);
        if (head + tail).contains(0x25u8) {
            let j = choose|j: int| 0 <= j < (head + tail).len() && (head + tail)[j] == 0x25u8;
            if j < head.len() {
                assert(head[j] == 0x25u8);
            } else {
                assert(tail[j - head.len()] == 0x25u8);
            }
        }
    }
}

/// A raw path without `%` reads as itself.
pub proof fn lemma_plain_text_decodes_to_itself(raw: Seq<char>)
    requires
        !raw.contains('%'),
    ensures
        decoded_text(raw) == raw,
{
    let bytes = encode_utf8(raw);
    lemma_encoded_text_holds_no_percent(raw);
    assert forall|i: int| 0 <= i < bytes.len() implies bytes[i] != 0x25 by {
        if bytes[i] == 0x25 {
            assert(bytes.contains(0x25u8));
        }
    }
    lemma_percent_plain_front(bytes, Seq::<u8>::empty());
    assert(bytes + Seq::<u8>::empty() =~= bytes);
    assert(percent_decoded(Seq::<u8>::empty()) =~= Seq::<u8>::empty());
    assert(percent_decoded(bytes) =~= bytes);
    encode_utf8_valid_utf8(raw);
    encode_utf8_decode_utf8(raw);
}

} // verus!
