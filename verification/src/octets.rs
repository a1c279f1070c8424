//! Base64 and UTF-8, the two encodings of a Basic credential.

use vstd::prelude::*;
use vstd::utf8::{decode_utf8, encode_utf8, valid_utf8};

verus! {

/// The symbol of a six-bit value in the standard alphabet (RFC 4648).
pub open spec fn base64_symbol(v: int) -> u8 {
    if v < 26 {
        ('A' as int + v) as u8
    } else if v < 52 {
        ('a' as int + (v - 26)) as u8
    } else if v < 62 {
        ('0' as int + (v - 52)) as u8
    } else if v == 62 {
        '+' as u8
    } else {
        '/' as u8
    }
}

/// The padded base64 text of some bytes: four symbols for each three bytes,
/// six bits a symbol, the last group filled up with `=`.
pub open spec fn base64_text(bytes: Seq<u8>) -> Seq<u8>
    decreases bytes.len(),
{
    let (a, b, c) = (bytes[0] as int, bytes[1] as int, bytes[2] as int);
    if bytes.len() == 0 {
        seq![]
    } else if bytes.len() == 1 {
        seq![base64_symbol(a / 4), base64_symbol(a % 4 * 16), '=' as u8, '=' as u8]
    } else if bytes.len() == 2 {
        seq![
            base64_symbol(a / 4),
            base64_symbol(a % 4 * 16 + b / 16),
            base64_symbol(b % 16 * 4),
            '=' as u8,
        ]
    } else {
        seq![
            base64_symbol(a / 4),
            base64_symbol(a % 4 * 16 + b / 16),
            base64_symbol(b % 16 * 4 + c / 64),
            base64_symbol(c % 64),
        ] + base64_text(bytes.skip(3))
    }
}

/// The base64 text of some bytes, as characters.
pub open spec fn base64_chars(bytes: Seq<u8>) -> Seq<char> {
    base64_text(bytes).map_values(|b: u8| b as char)
}

/// The bytes that `text` is the base64 text of, if there are any.
pub open spec fn base64_decoded(text: Seq<u8>) -> Option<Seq<u8>> {
    if exists|bytes: Seq<u8>| base64_text(bytes) == text {
        Some(choose|bytes: Seq<u8>| base64_text(bytes) == text)
    } else {
        None
    }
}

/// The text that `bytes` are the UTF-8 encoding of, if there is any.
pub open spec fn utf8_decoded(bytes: Seq<u8>) -> Option<Seq<char>> {
    if valid_utf8(bytes) {
        Some(decode_utf8(bytes))
    } else {
        None
    }
}

/// `base64::Engine::decode` of the engine `STANDARD`: the bytes whose padded
/// base64 text is the input. It fails on every input that is the base64 text of
/// no bytes, which includes missing or misplaced padding, a symbol outside the
/// alphabet, and unused low bits that are not zero.
#[verifier::external_body]
fn decode_standard(input: &[u8]) -> (r: Option<Vec<u8>>)
    ensures
        match r {
            Some(bytes) => base64_text(bytes@) == input@,
            None => forall|bytes: Seq<u8>| base64_text(bytes) != input@,
        },
{
    base64::Engine::decode(&base64::engine::general_purpose::STANDARD, input).ok()
}

/// `std::str::from_utf8`: the string whose UTF-8 encoding the bytes are. It
/// fails exactly on bytes that are not valid UTF-8.
#[verifier::external_body]
fn str_from_utf8(bytes: &[u8]) -> (r: Option<&str>)
    ensures
        match r {
            Some(s) => valid_utf8(bytes@) && encode_utf8(s@) == bytes@,
            None => !valid_utf8(bytes@),
        },
{
    std::str::from_utf8(bytes).ok()
}

/// Different values have different symbols, and no symbol is the padding.
proof fn lemma_symbol_distinct(v: int, w: int)
    requires
        0 <= v < 64,
        0 <= w < 64,
    ensures
        base64_symbol(v) == base64_symbol(w) ==> v == w,
        base64_symbol(v) != '=' as u8,
        base64_symbol(v) < 128,
        base64_symbol(w) < 128,
{
}

/// The length of a base64 text follows from that of the bytes.
proof fn lemma_text_len(bytes: Seq<u8>)
    ensures
        base64_text(bytes).len() == (bytes.len() + 2) / 3 * 4,
    decreases bytes.len(),
{
    if bytes.len() > 2 {
        lemma_text_len(bytes.skip(3));
    }
}

/// Different bytes have different base64 texts.
pub proof fn law_base64_is_injective(x: Seq<u8>, y: Seq<u8>)
    requires
        base64_text(x) == base64_text(y),
    ensures
        x == y,
    decreases x.len(),
{
    let (s, t) = (base64_text(x), base64_text(y));
    lemma_text_len(x);
    lemma_text_len(y);
    if x.len() > 0 {
        let (a, b, c) = (x[0] as int, x[1] as int, x[2] as int);
        let (d, e, f) = (y[0] as int, y[1] as int, y[2] as int);
        assert(s[0] == t[0] && s[1] == t[1] && s[2] == t[2] && s[3] == t[3]);
        lemma_symbol_distinct(a / 4, d / 4);
        lemma_symbol_distinct(a % 4 * 16, d % 4 * 16);
        lemma_symbol_distinct(a % 4 * 16 + b / 16, d % 4 * 16 + e / 16);
        lemma_symbol_distinct(b % 16 * 4, e % 16 * 4);
        lemma_symbol_distinct(b % 16 * 4 + c / 64, e % 16 * 4 + f / 64);
        lemma_symbol_distinct(c % 64, f % 64);
        if x.len() > 2 && y.len() > 2 {
            assert(s.skip(4) == base64_text(x.skip(3)));
            assert(t.skip(4) == base64_text(y.skip(3)));
            law_base64_is_injective(x.skip(3), y.skip(3));
            assert(x == seq![x[0], x[1], x[2]] + x.skip(3));
            assert(y == seq![y[0], y[1], y[2]] + y.skip(3));
        }
    }
}

/// Decoding the base64 text of some bytes gives these bytes back.
pub proof fn law_base64_reads_back(bytes: Seq<u8>)
    ensures
        base64_decoded(base64_text(bytes)) == Some(bytes),
{
    let text = base64_text(bytes);
    let found = choose|other: Seq<u8>| base64_text(other) == text;
    assert(base64_text(found) == text);
    law_base64_is_injective(found, bytes);
}

/// Base64 text is ASCII.
proof fn lemma_text_is_ascii(bytes: Seq<u8>)
    ensures
        forall|i: int| 0 <= i < base64_text(bytes).len() ==> #[trigger] base64_text(bytes)[i] < 128,
    decreases bytes.len(),
{
    if bytes.len() > 0 {
        let (a, b, c) = (bytes[0] as int, bytes[1] as int, bytes[2] as int);
        lemma_symbol_distinct(a / 4, a % 4 * 16);
        lemma_symbol_distinct(a % 4 * 16 + b / 16, b % 16 * 4);
        lemma_symbol_distinct(b % 16 * 4 + c / 64, c % 64);
        if bytes.len() > 2 {
            let rest = base64_text(bytes.skip(3));
            lemma_text_is_ascii(bytes.skip(3));
            assert forall|i: int| 0 <= i < base64_text(bytes).len() implies #[trigger] base64_text(
                bytes,
            )[i] < 128 by {
                if i >= 4 {
                    assert(base64_text(bytes)[i] == rest[i - 4]);
                }
            }
        }
    }
}

/// In UTF-8 the characters of a base64 text are its bytes.
pub proof fn law_base64_chars_encode(bytes: Seq<u8>)
    ensures
        encode_utf8(base64_chars(bytes)) == base64_text(bytes),
{
    let chars = base64_chars(bytes);
    lemma_text_is_ascii(bytes);
    assert forall|i: int| 0 <= i < chars.len() implies '\0' <= #[trigger] chars[i] <= '\u{7f}' by {
        assert(base64_text(bytes)[i] < 128);
    }
    vstd::utf8::is_ascii_chars_encode_utf8(chars);
}

/// Decodes padded base64 text of the standard alphabet.
pub fn base64_decode(text: &str) -> (r: Option<Vec<u8>>)
    ensures
        match r {
            Some(bytes) => base64_decoded(encode_utf8(text@)) == Some(bytes@),
            None => base64_decoded(encode_utf8(text@)) is None,
        },
{
    let r: Option<Vec<u8>> = decode_standard(text.as_bytes());
    proof {
        if r is Some {
            law_base64_reads_back(r->0@);
        }
    }
    r
}

/// Decodes UTF-8.
pub fn utf8_decode(bytes: &Vec<u8>) -> (r: Option<&str>)
    ensures
        match r {
            Some(s) => utf8_decoded(bytes@) == Some(s@),
            None => utf8_decoded(bytes@) is None,
        },
{
    let r: Option<&str> = str_from_utf8(bytes.as_slice());
    proof {
        broadcast use vstd::utf8::encode_utf8_decode_utf8;

    }
    r
}

/// The symbol of a value is the character at that place in the alphabet of
/// RFC 4648.
pub proof fn law_base64_alphabet(v: int)
    requires
        0 <= v < 64,
    ensures
        base64_symbol(v) as int
            == "ABCDEFGHIJKLMNOPQRSTUVWXYZabcdefghijklmnopqrstuvwxyz0123456789+/"@[v] as int,
{
    reveal_strlit("ABCDEFGHIJKLMNOPQRSTUVWXYZabcdefghijklmnopqrstuvwxyz0123456789+/");
}

/// Three bytes are four symbols, whose values are the digits of the bytes'
/// twenty-four bits in base sixty-four; what follows is encoded in the same way.
/// Two last bytes are three symbols and one equals sign, one last byte is two
/// symbols and two equals signs, and the unused bits are zero.
pub proof fn law_base64_groups(a: u8, b: u8, c: u8, rest: Seq<u8>)
    ensures
        base64_text(Seq::empty()) == Seq::<u8>::empty(),
        exists|p: int, q: int, r: int, s: int|
            {
                &&& 0 <= p < 64 && 0 <= q < 64 && 0 <= r < 64 && 0 <= s < 64
                &&& ((p * 64 + q) * 64 + r) * 64 + s == (a * 256 + b) * 256 + c
                &&& base64_text(seq![a, b, c] + rest) == seq![
                    #[trigger] base64_symbol(p),
                    #[trigger] base64_symbol(q),
                    #[trigger] base64_symbol(r),
                    #[trigger] base64_symbol(s),
                ] + base64_text(rest)
            },
        exists|p: int, q: int, r: int|
            {
                &&& 0 <= p < 64 && 0 <= q < 64 && 0 <= r < 64
                &&& (p * 64 + q) * 64 + r == (a * 256 + b) * 4
                &&& base64_text(seq![a, b]) == seq![
                    #[trigger] base64_symbol(p),
                    #[trigger] base64_symbol(q),
                    #[trigger] base64_symbol(r),
                    '=' as u8,
                ]
            },
        exists|p: int, q: int|
            {
                &&& 0 <= p < 64 && 0 <= q < 64
                &&& p * 64 + q == a * 16
                &&& base64_text(seq![a]) == seq![
                    #[trigger] base64_symbol(p),
                    #[trigger] base64_symbol(q),
                    '=' as u8,
                    '=' as u8,
                ]
            },
{
    let (x, y, z) = (a as int, b as int, c as int);
    let (p, q) = (x / 4, x % 4 * 16 + y / 16);
    assert((seq![a, b, c] + rest).skip(3) == rest);
    assert(base64_text(seq![a, b, c] + rest) == seq![
        base64_symbol(p),
        base64_symbol(q),
        base64_symbol(y % 16 * 4 + z / 64),
        base64_symbol(z % 64),
    ] + base64_text(rest));
    assert(base64_text(seq![a, b]) == seq![
        base64_symbol(p),
        base64_symbol(q),
        base64_symbol(y % 16 * 4),
        '=' as u8,
    ]);
    assert(base64_text(seq![a]) == seq![
        base64_symbol(p),
        base64_symbol(x % 4 * 16),
        '=' as u8,
        '=' as u8,
    ]);
}

/// A text decodes to some bytes exactly if it is their base64 text.
pub proof fn law_base64_decoded(text: Seq<u8>, bytes: Seq<u8>)
    ensures
        base64_decoded(text) == Some(bytes) <==> base64_text(bytes) == text,
{
    if base64_decoded(text) == Some(bytes) {
        let found = choose|other: Seq<u8>| base64_text(other) == text;
        assert(base64_text(found) == text);
    }
    if base64_text(bytes) == text {
        law_base64_reads_back(bytes);
    }
}

/// Bytes decode to a text exactly if they are its UTF-8 encoding.
pub proof fn law_utf8_decoded(bytes: Seq<u8>, text: Seq<char>)
    ensures
        utf8_decoded(bytes) == Some(text) <==> encode_utf8(text) == bytes,
{
    if utf8_decoded(bytes) == Some(text) {
        vstd::utf8::decode_utf8_encode_utf8(bytes);
    }
    if encode_utf8(text) == bytes {
        vstd::utf8::encode_utf8_valid_utf8(text);
        vstd::utf8::encode_utf8_decode_utf8(text);
    }
}

} // verus!
