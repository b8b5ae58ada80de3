use vstd::prelude::*;
use vstd::utf8::*;

verus! {

/// The bytes that percent-encoding leaves as they are: ASCII letters and
/// digits, `-`, `.`, `_` and `~`.
pub open spec fn is_unreserved(b: u8) -> bool {
    ||| 0x30 <= b <= 0x39
    ||| 0x41 <= b <= 0x5A
    ||| 0x61 <= b <= 0x7A
    ||| b == 0x2D
    ||| b == 0x2E
    ||| b == 0x5F
    ||| b == 0x7E
}

/// The upper-case hexadecimal digit of a value below sixteen.
pub open spec fn hex_digit(n: u8) -> u8 {
    if n < 10 {
        (0x30 + n) as u8
    } else {
        (0x41 - 10 + n) as u8
    }
}

/// The value of a hexadecimal digit of either case, if the byte is one.
pub open spec fn hex_value(b: u8) -> Option<u8> {
    if 0x30 <= b <= 0x39 {
        Some((b - 0x30) as u8)
    } else if 0x41 <= b <= 0x46 {
        Some((b - 0x41 + 10) as u8)
    } else if 0x61 <= b <= 0x66 {
        Some((b - 0x61 + 10) as u8)
    } else {
        None
    }
}

/// One byte in percent-encoded form: itself, or `%` and two hex digits.
pub open spec fn encode_byte(b: u8) -> Seq<u8> {
    if is_unreserved(b) {
        seq![b]
    } else {
        seq![0x25u8, hex_digit(b / 16), hex_digit(b % 16)]
    }
}

/// Percent-encoding of a byte string.
pub open spec fn percent_encode(bytes: Seq<u8>) -> Seq<u8>
    decreases bytes.len(),
{
    if bytes.len() == 0 {
        Seq::empty()
    } else {
        encode_byte(bytes[0]) + percent_encode(bytes.drop_first())
    }
}

/// True where a `%` at the head of `bytes` starts a well-formed escape.
pub open spec fn starts_with_escape(bytes: Seq<u8>) -> bool {
    &&& bytes.len() >= 3
    &&& bytes[0] == 0x25
    &&& hex_value(bytes[1]) is Some
    &&& hex_value(bytes[2]) is Some
}

/// Percent-decoding of a byte string. A `%` that is not followed by two
/// hexadecimal digits stands for itself.
pub open spec fn percent_decode(bytes: Seq<u8>) -> Seq<u8>
    decreases bytes.len(),
{
    if bytes.len() == 0 {
        Seq::empty()
    } else if starts_with_escape(bytes) {
        seq![(hex_value(bytes[1])->0 * 16 + hex_value(bytes[2])->0) as u8] + percent_decode(
            bytes.skip(3),
        )
    } else {
        seq![bytes[0]] + percent_decode(bytes.skip(1))
    }
}

/// The canonical encoded form of a plain text: the percent-encoding of its
/// UTF-8 bytes, read back as text.
pub open spec fn encoded_text(plain: Seq<char>) -> Seq<char> {
    decode_utf8(percent_encode(encode_utf8(plain)))
}

/// The plain text that an encoded text stands for, where its decoded bytes
/// are UTF-8.
pub open spec fn decoded_text(encoded: Seq<char>) -> Option<Seq<char>> {
    let bytes = percent_decode(encode_utf8(encoded));
    if valid_utf8(bytes) {
        Some(decode_utf8(bytes))
    } else {
        None
    }
}

/// A character that may occur in an encoded text.
pub open spec fn is_encoded_char(c: char) -> bool {
    (c as u32) < 0x80 && (is_unreserved(c as u8) || c == '%')
}

/// A character that percent-encoding leaves as it is.
pub open spec fn is_plain_char(c: char) -> bool {
    (c as u32) < 0x80 && is_unreserved(c as u8)
}

/// A text in canonical encoded form: unreserved ASCII characters and `%`.
pub open spec fn is_canonical(s: Seq<char>) -> bool {
    forall|i: int| 0 <= i < s.len() ==> is_encoded_char(#[trigger] s[i])
}

/// A text that percent-encoding leaves as it is.
pub open spec fn is_plain(s: Seq<char>) -> bool {
    forall|i: int| 0 <= i < s.len() ==> is_plain_char(#[trigger] s[i])
}

/// The text made of the given ASCII bytes.
pub open spec fn ascii_text(bytes: Seq<u8>) -> Seq<char> {
    Seq::new(bytes.len(), |i: int| bytes[i] as char)
}

pub open spec fn all_unreserved(bytes: Seq<u8>) -> bool {
    forall|i: int| 0 <= i < bytes.len() ==> is_unreserved(#[trigger] bytes[i])
}

pub open spec fn all_encoded_bytes(bytes: Seq<u8>) -> bool {
    forall|i: int|
        0 <= i < bytes.len() ==> (is_unreserved(#[trigger] bytes[i]) || bytes[i] == 0x25)
}

/// Bytes below 0x80 are UTF-8, and stand for the characters of the same values.
pub proof fn lemma_ascii_bytes(bytes: Seq<u8>)
    requires
        forall|i: int| 0 <= i < bytes.len() ==> #[trigger] bytes[i] < 0x80,
    ensures
        valid_utf8(bytes),
        decode_utf8(bytes) == ascii_text(bytes),
        encode_utf8(ascii_text(bytes)) == bytes,
{
    let cs = ascii_text(bytes);
    assert(is_ascii_chars(cs)) by {
        assert forall|i: int| 0 <= i < cs.len() implies '\0' <= #[trigger] cs[i] <= '\u{7f}' by {
            assert(bytes[i] < 0x80);
        }
    }
    is_ascii_chars_encode_utf8(cs);
    assert(encode_utf8(cs) =~= bytes) by {
        assert forall|i: int| 0 <= i < bytes.len() implies encode_utf8(cs)[i] == bytes[i] by {
            assert(bytes[i] < 0x80);
            assert(cs[i] as u8 == encode_utf8(cs)[i]);
        }
    }
    encode_utf8_valid_utf8(cs);
    encode_utf8_decode_utf8(cs);
}

/// Decoding undoes the encoding of one byte at the head of a string.
pub proof fn lemma_decode_encoded_byte(x: u8, t: Seq<u8>)
    ensures
        percent_decode(encode_byte(x) + t) == seq![x] + percent_decode(t),
{
    let s = encode_byte(x) + t;
    if is_unreserved(x) {
        assert(s[0] == x);
        assert(!starts_with_escape(s));
        assert(s.skip(1) =~= t);
    } else {
        assert(s[0] == 0x25u8);
        assert(s[1] == hex_digit(x / 16));
        assert(s[2] == hex_digit(x % 16));
        assert(hex_value(hex_digit(x / 16)) == Some(x / 16));
        assert(hex_value(hex_digit(x % 16)) == Some(x % 16));
        assert(starts_with_escape(s));
        assert(s.skip(3) =~= t);
        assert(((x / 16) * 16 + x % 16) as u8 == x);
    }
}

/// Decoding undoes encoding, on every byte string.
pub proof fn lemma_decode_encode_bytes(bytes: Seq<u8>)
    ensures
        percent_decode(percent_encode(bytes)) == bytes,
    decreases bytes.len(),
{
    if bytes.len() == 0 {
        assert(percent_decode(percent_encode(bytes)) =~= bytes);
    } else {
        let rest = bytes.drop_first();
        lemma_decode_encode_bytes(rest);
        lemma_decode_encoded_byte(bytes[0], percent_encode(rest));
        assert(seq![bytes[0]] + rest =~= bytes);
    }
}

/// The encoding of a byte string holds unreserved bytes and `%` only, and is
/// at least as long as the string; it has the same length only where every
/// byte of the string is unreserved, and it is then the string itself.
pub proof fn lemma_encode_shape(bytes: Seq<u8>)
    ensures
        all_encoded_bytes(percent_encode(bytes)),
        percent_encode(bytes).len() >= bytes.len(),
        percent_encode(bytes).len() == bytes.len() ==> all_unreserved(bytes),
        all_unreserved(bytes) ==> percent_encode(bytes) == bytes,
    decreases bytes.len(),
{
    if bytes.len() == 0 {
        assert(percent_encode(bytes) =~= bytes);
    } else {
        let rest = bytes.drop_first();
        let head = encode_byte(bytes[0]);
        let tail = percent_encode(rest);
        lemma_encode_shape(rest);
        let e = percent_encode(bytes);
        assert(e == head + tail);
        assert forall|i: int| 0 <= i < e.len() implies (is_unreserved(#[trigger] e[i]) || e[i]
            == 0x25) by {
            if i < head.len() {
                assert(e[i] == head[i]);
            } else {
                assert(e[i] == tail[i - head.len()]);
            }
        }
        if e.len() == bytes.len() {
            assert(head.len() == 1);
            assert(tail.len() == rest.len());
            assert forall|i: int| 0 <= i < bytes.len() implies is_unreserved(
                #[trigger] bytes[i],
            ) by {
                if i > 0 {
                    assert(bytes[i] == rest[i - 1]);
                }
            }
        }
        if all_unreserved(bytes) {
            assert(is_unreserved(bytes[0]));
            assert forall|i: int| 0 <= i < rest.len() implies is_unreserved(#[trigger] rest[i]) by {
                assert(rest[i] == bytes[i + 1]);
            }
            assert(tail == rest);
            assert(head + tail =~= bytes);
        }
    }
}

/// What the encoding of a text looks like: it is canonical, made of the
/// encoded bytes one for one, and its own UTF-8 bytes are those bytes.
pub proof fn lemma_encoded_text(plain: Seq<char>)
    ensures
        is_canonical(encoded_text(plain)),
        encoded_text(plain) == ascii_text(percent_encode(encode_utf8(plain))),
        encode_utf8(encoded_text(plain)) == percent_encode(encode_utf8(plain)),
{
    let e = percent_encode(encode_utf8(plain));
    lemma_encode_shape(encode_utf8(plain));
    assert forall|i: int| 0 <= i < e.len() implies #[trigger] e[i] < 0x80 by {
        assert(is_unreserved(e[i]) || e[i] == 0x25);
    }
    lemma_ascii_bytes(e);
    let t = encoded_text(plain);
    assert forall|i: int| 0 <= i < t.len() implies is_encoded_char(#[trigger] t[i]) by {
        assert(is_unreserved(e[i]) || e[i] == 0x25);
        assert(t[i] == e[i] as char);
    }
}

/// Decoding the encoding of a text gives the text back.
pub proof fn lemma_decode_encode_text(plain: Seq<char>)
    ensures
        decoded_text(encoded_text(plain)) == Some(plain),
{
    lemma_encoded_text(plain);
    lemma_decode_encode_bytes(encode_utf8(plain));
    encode_utf8_valid_utf8(plain);
    encode_utf8_decode_utf8(plain);
}

/// The UTF-8 bytes of a text are all unreserved exactly where each of its
/// characters is a plain one.
pub proof fn lemma_plain_bytes(s: Seq<char>)
    ensures
        all_unreserved(encode_utf8(s)) <==> is_plain(s),
    decreases s.len(),
{
    if s.len() == 0 {
    } else {
        let rest = s.drop_first();
        lemma_plain_bytes(rest);
        let first: char = s[0];
        let c = first as u32;
        let head = encode_scalar(c);
        let tail = encode_utf8(rest);
        let b = encode_utf8(s);
        assert(b == head + tail);
        char_is_scalar(first);
        lemma_scalar_head(c);
        lemma_low_char(first);
        if is_plain(s) {
            assert(is_plain_char(s[0]));
            assert(head[0] == s[0] as u8);
            assert forall|i: int| 0 <= i < rest.len() implies is_plain_char(#[trigger] rest[i]) by {
                assert(rest[i] == s[i + 1]);
            }
            assert forall|i: int| 0 <= i < b.len() implies is_unreserved(#[trigger] b[i]) by {
                if i < head.len() {
                    assert(b[i] == head[i]);
                } else {
                    assert(b[i] == tail[i - head.len()]);
                }
            }
        }
        if all_unreserved(b) {
            assert(b[0] == head[0]);
            assert(is_unreserved(b[0]));
            assert(c < 0x80);
            assert(head[0] == s[0] as u8);
            assert(is_plain_char(s[0]));
            assert forall|i: int| 0 <= i < tail.len() implies is_unreserved(#[trigger] tail[i]) by {
                assert(tail[i] == b[i + head.len()]);
            }
            assert forall|i: int| 0 <= i < s.len() implies is_plain_char(#[trigger] s[i]) by {
                if i > 0 {
                    assert(s[i] == rest[i - 1]);
                }
            }
        }
    }
}

/// A character below 0x80 is the same byte whichever way it is cast.
proof fn lemma_low_char(c: char)
    ensures
        (c as u32) < 0x80 ==> (c as u32) as u8 == c as u8,
{
}

/// The first byte of a scalar's UTF-8 encoding is the scalar itself where it
/// is below 0x80, and is 0xC0 or more otherwise.
proof fn lemma_scalar_head(c: u32)
    requires
        is_scalar(c),
    ensures
        encode_scalar(c).len() >= 1,
        c < 0x80 ==> encode_scalar(c) == seq![c as u8],
        c >= 0x80 ==> encode_scalar(c)[0] >= 0xC0,
{
    if has_width_1_encoding(c) {
        assert(leading_byte_width_1(c) == c as u8) by (bit_vector)
            requires
                has_width_1_encoding(c),
        ;
    } else if has_width_2_encoding(c) {
        assert(leading_byte_width_2(c) >= 0xC0) by (bit_vector);
    } else if has_width_3_encoding(c) {
        assert(leading_byte_width_3(c) >= 0xC0) by (bit_vector);
    } else {
        assert(leading_byte_width_4(c) >= 0xC0) by (bit_vector);
    }
}

/// A text is its own encoding exactly where each of its characters is plain.
pub proof fn lemma_self_encoded(s: Seq<char>)
    ensures
        encoded_text(s) == s <==> is_plain(s),
{
    let b = encode_utf8(s);
    lemma_encode_shape(b);
    lemma_encoded_text(s);
    lemma_plain_bytes(s);
    encode_utf8_decode_utf8(s);
    if encoded_text(s) == s {
        assert(percent_encode(b) == b);
    }
}

} // verus!

