//! Base64url (no padding) through the `base64` crate, and lowercase hex.
use vstd::prelude::*;
use base64::Engine;

verus! {

#[verifier::external_type_specification]
#[verifier::external_body]
pub struct ExDecodeError(base64::DecodeError);

/// The URL-safe base64 symbol of a six-bit value: `A`-`Z`, `a`-`z`, `0`-`9`,
/// `-`, `_`.
pub open spec fn b64_symbol(v: int) -> char {
    if v < 26 {
        (('A' as u32) + (v as u32)) as char
    } else if v < 52 {
        (('a' as u32) + ((v - 26) as u32)) as char
    } else if v < 62 {
        (('0' as u32) + ((v - 52) as u32)) as char
    } else if v == 62 {
        '-'
    } else {
        '_'
    }
}

/// Unpadded URL-safe base64 of `b`: each group of three bytes becomes four
/// symbols of six bits each, most significant first; a last group of one or
/// two bytes becomes two or three symbols, its unused low bits zero.
pub open spec fn b64url_encode(b: Seq<u8>) -> Seq<char>
    decreases b.len(),
{
    if b.len() == 0 {
        Seq::empty()
    } else if b.len() == 1 {
        seq![b64_symbol(b[0] as int / 4), b64_symbol((b[0] as int % 4) * 16)]
    } else if b.len() == 2 {
        seq![
            b64_symbol(b[0] as int / 4),
            b64_symbol((b[0] as int % 4) * 16 + b[1] as int / 16),
            b64_symbol((b[1] as int % 16) * 4),
        ]
    } else {
        seq![
            b64_symbol(b[0] as int / 4),
            b64_symbol((b[0] as int % 4) * 16 + b[1] as int / 16),
            b64_symbol((b[1] as int % 16) * 4 + b[2] as int / 64),
            b64_symbol(b[2] as int % 64),
        ] + b64url_encode(b.subrange(3, b.len() as int))
    }
}

/// Decoding unpadded URL-safe base64: the bytes whose encoding is `text`
/// (there is at most one, see [`lemma_b64url_encode_injective`]), or `None`
/// when `text` is no such encoding (a symbol outside the alphabet, padding,
/// a length of one more than a multiple of four, or unused bits set).
#[verifier::opaque]
pub open spec fn b64url_decode(text: Seq<char>) -> Option<Seq<u8>> {
    if exists|b: Seq<u8>| #[trigger] b64url_encode(b) == text {
        Some(choose|b: Seq<u8>| #[trigger] b64url_encode(b) == text)
    } else {
        None
    }
}

/// Length of an unpadded base64 encoding of `n` bytes (`base64::encoded_len`).
pub open spec fn b64_len(n: nat) -> nat {
    4 * (n / 3) + if n % 3 == 1 {
        2nat
    } else if n % 3 == 2 {
        3nat
    } else {
        0nat
    }
}

/// A symbol of the URL-safe base64 alphabet.
pub open spec fn is_b64url_char(c: char) -> bool {
    ('A' <= c && c <= 'Z') || ('a' <= c && c <= 'z') || ('0' <= c && c <= '9') || c == '-' || c
        == '_'
}

proof fn lemma_b64_symbol(v: int, w: int)
    requires
        0 <= v < 64,
        0 <= w < 64,
    ensures
        is_b64url_char(b64_symbol(v)),
        b64_symbol(v) == b64_symbol(w) ==> v == w,
{
}

/// Encoding `n` bytes gives `b64_len(n)` symbols, all of the URL-safe alphabet.
pub proof fn lemma_b64url_encode_shape(b: Seq<u8>)
    ensures
        b64url_encode(b).len() == b64_len(b.len()),
        forall|i: int| 0 <= i < b64url_encode(b).len() ==> is_b64url_char(#[trigger] b64url_encode(b)[i]),
    decreases b.len(),
{
    let e = b64url_encode(b);
    if b.len() == 0 {
    } else if b.len() == 1 {
        lemma_b64_symbol(b[0] as int / 4, 0);
        lemma_b64_symbol((b[0] as int % 4) * 16, 0);
    } else if b.len() == 2 {
        lemma_b64_symbol(b[0] as int / 4, 0);
        lemma_b64_symbol((b[0] as int % 4) * 16 + b[1] as int / 16, 0);
        lemma_b64_symbol((b[1] as int % 16) * 4, 0);
    } else {
        let t = b.subrange(3, b.len() as int);
        lemma_b64url_encode_shape(t);
        lemma_b64_symbol(b[0] as int / 4, 0);
        lemma_b64_symbol((b[0] as int % 4) * 16 + b[1] as int / 16, 0);
        lemma_b64_symbol((b[1] as int % 16) * 4 + b[2] as int / 64, 0);
        lemma_b64_symbol(b[2] as int % 64, 0);
        let head = seq![
            b64_symbol(b[0] as int / 4),
            b64_symbol((b[0] as int % 4) * 16 + b[1] as int / 16),
            b64_symbol((b[1] as int % 16) * 4 + b[2] as int / 64),
            b64_symbol(b[2] as int % 64),
        ];
        assert(e == head + b64url_encode(t));
        assert(b64_len(b.len()) == 4 + b64_len(t.len())) by {
            assert(b.len() / 3 == t.len() / 3 + 1);
            assert(b.len() % 3 == t.len() % 3);
        }
        assert forall|i: int| 0 <= i < e.len() implies is_b64url_char(#[trigger] e[i]) by {
            if i >= 4 {
                assert(e[i] == b64url_encode(t)[i - 4]);
            }
        }
    }
}

proof fn lemma_b64_len_injective(n: nat, m: nat)
    requires
        b64_len(n) == b64_len(m),
    ensures
        n == m,
{
    assert(n == 3 * (n / 3) + n % 3);
    assert(m == 3 * (m / 3) + m % 3);
}

/// Different bytes never share an encoding.
pub proof fn lemma_b64url_encode_injective(a: Seq<u8>, b: Seq<u8>)
    requires
        b64url_encode(a) == b64url_encode(b),
    ensures
        a == b,
    decreases a.len(),
{
    lemma_b64url_encode_shape(a);
    lemma_b64url_encode_shape(b);
    lemma_b64_len_injective(a.len(), b.len());
    let e = b64url_encode(a);
    if a.len() == 0 {
        assert(a =~= b);
    } else {
        let (a0, b0) = (a[0] as int, b[0] as int);
        lemma_b64_symbol(a0 / 4, b0 / 4);
        assert(e[0] == b64_symbol(a0 / 4) && e[0] == b64_symbol(b0 / 4));
        assert(a0 / 4 == b0 / 4);
        if a.len() == 1 {
            lemma_b64_symbol((a0 % 4) * 16, (b0 % 4) * 16);
            assert(e[1] == b64_symbol((a0 % 4) * 16) && e[1] == b64_symbol((b0 % 4) * 16));
            assert(a0 == b0);
            assert(a =~= b);
        } else {
            let (a1, b1) = (a[1] as int, b[1] as int);
            lemma_b64_symbol((a0 % 4) * 16 + a1 / 16, (b0 % 4) * 16 + b1 / 16);
            assert(e[1] == b64_symbol((a0 % 4) * 16 + a1 / 16) && e[1] == b64_symbol((b0 % 4) * 16 + b1 / 16));
            assert(a0 % 4 == b0 % 4 && a1 / 16 == b1 / 16);
            assert(a0 == b0);
            if a.len() == 2 {
                lemma_b64_symbol((a1 % 16) * 4, (b1 % 16) * 4);
                assert(e[2] == b64_symbol((a1 % 16) * 4) && e[2] == b64_symbol((b1 % 16) * 4));
                assert(a1 == b1);
                assert(a =~= b);
            } else {
                let (a2, b2) = (a[2] as int, b[2] as int);
                lemma_b64_symbol((a1 % 16) * 4 + a2 / 64, (b1 % 16) * 4 + b2 / 64);
                lemma_b64_symbol(a2 % 64, b2 % 64);
                assert(e[2] == b64_symbol((a1 % 16) * 4 + a2 / 64) && e[2] == b64_symbol((b1 % 16) * 4 + b2 / 64));
                assert(e[3] == b64_symbol(a2 % 64) && e[3] == b64_symbol(b2 % 64));
                assert(a1 % 16 == b1 % 16 && a2 / 64 == b2 / 64);
                assert(a1 == b1 && a2 == b2);
                let ta = a.subrange(3, a.len() as int);
                let tb = b.subrange(3, b.len() as int);
                assert(b64url_encode(ta) =~= e.subrange(4, e.len() as int));
                assert(b64url_encode(tb) =~= e.subrange(4, e.len() as int));
                lemma_b64url_encode_injective(ta, tb);
                assert(a =~= a.subrange(0, 3) + ta);
                assert(b =~= b.subrange(0, 3) + tb);
                assert(a.subrange(0, 3) =~= b.subrange(0, 3));
            }
        }
    }
}

/// Decoding an encoding gives the bytes back.
pub proof fn lemma_b64url_decode_encode(b: Seq<u8>)
    ensures
        b64url_decode(b64url_encode(b)) == Some(b),
{
    reveal(b64url_decode);
    let t = b64url_encode(b);
    assert(exists|c: Seq<u8>| #[trigger] b64url_encode(c) == t);
    let c = choose|c: Seq<u8>| #[trigger] b64url_encode(c) == t;
    lemma_b64url_encode_injective(c, b);
}

/// `base64::engine::general_purpose::URL_SAFE_NO_PAD.encode`. Claimed: the
/// result is the unpadded URL-safe base64 of `bytes` (see [`b64url_encode`]).
/// The crate panics when the encoded length overflows `usize`, which the
/// precondition rules out.
#[verifier::external_body]
fn engine_encode(bytes: &[u8]) -> (text: String)
    requires
        bytes@.len() <= usize::MAX / 2,
    ensures
        text@ == b64url_encode(bytes@),
{
    base64::engine::general_purpose::URL_SAFE_NO_PAD.encode(bytes)
}

/// Base64url text of `bytes`: its encoding, of the documented unpadded
/// length, in the URL-safe alphabet, decoding back to `bytes`.
pub(crate) fn b64url_encode_bytes(bytes: &[u8]) -> (text: String)
    requires
        bytes@.len() <= usize::MAX / 2,
    ensures
        text@ == b64url_encode(bytes@),
        text@.len() == b64_len(bytes@.len()),
        forall|i: int| 0 <= i < text@.len() ==> is_b64url_char(#[trigger] text@[i]),
        b64url_decode(text@) == Some(bytes@),
{
    let text = engine_encode(bytes);
    proof {
        lemma_b64url_encode_shape(bytes@);
        lemma_b64url_decode_encode(bytes@);
    }
    text
}

/// `r` is a successful decoding to `bytes`.
pub open spec fn decodes_to(r: Result<Vec<u8>, base64::DecodeError>, bytes: Seq<u8>) -> bool {
    r matches Ok(v) && v@ == bytes
}

/// `base64::engine::general_purpose::URL_SAFE_NO_PAD.decode`. Claimed: it
/// succeeds exactly on canonical unpadded encodings (the engine takes no
/// padding and rejects set unused bits), giving the bytes encoded.
#[verifier::external_body]
fn engine_decode(text: &str) -> (r: Result<Vec<u8>, base64::DecodeError>)
    ensures
        match r {
            Ok(v) => b64url_encode(v@) == text@,
            Err(_) => forall|b: Seq<u8>| #[trigger] b64url_encode(b) != text@,
        },
{
    base64::engine::general_purpose::URL_SAFE_NO_PAD.decode(text)
}

/// Decode base64url text (see [`b64url_decode`]); fails exactly when the
/// decoding is `None`, and gives back the bytes of any encoding.
pub(crate) fn b64url_decode_text(text: &str) -> (r: Result<Vec<u8>, base64::DecodeError>)
    ensures
        match r {
            Ok(v) => b64url_decode(text@) == Some(v@),
            Err(_) => b64url_decode(text@) is None,
        },
        forall|bytes: Seq<u8>| (text@ == #[trigger] b64url_encode(bytes)) ==> decodes_to(r, bytes),
{
    let r = engine_decode(text);
    proof {
        reveal(b64url_decode);
        match &r {
            Ok(v) => {
                lemma_b64url_decode_encode(v@);
                assert forall|bytes: Seq<u8>| (text@ == #[trigger] b64url_encode(bytes)) implies decodes_to(r, bytes) by {
                    lemma_b64url_encode_injective(v@, bytes);
                }
            },
            Err(_) => {},
        }
    }
    r
}

/// The `Display` text of a `base64::DecodeError`; nothing is claimed of it.
#[verifier::external_body]
pub(crate) fn decode_error_text(e: &base64::DecodeError) -> String {
    format!("{e}")
}

pub open spec fn hex_digit(v: u8) -> char {
    if v < 10 {
        (('0' as u32) + (v as u32)) as char
    } else {
        (('a' as u32) + (v as u32) - 10) as char
    }
}

/// Lowercase two-digit hex of every byte (`format!("{byte:02x}")` joined).
pub open spec fn hex_of(bytes: Seq<u8>) -> Seq<char>
    decreases bytes.len(),
{
    if bytes.len() == 0 {
        Seq::empty()
    } else {
        hex_of(bytes.drop_last()) + seq![
            hex_digit(bytes.last() / 16),
            hex_digit(bytes.last() % 16),
        ]
    }
}

fn hex_digit_of(v: u8) -> (c: char)
    requires
        v < 16,
    ensures
        c == hex_digit(v),
{
    if v < 10 {
        crate::text::char_from_ascii(48 + v)
    } else {
        crate::text::char_from_ascii(87 + v)
    }
}

/// Lowercase hex of `bytes`.
pub fn to_hex(bytes: &[u8]) -> (s: String)
    ensures
        s@ == hex_of(bytes@),
        s@.len() == 2 * bytes@.len(),
{
    let mut s = String::new();
    let mut i: usize = 0;
    while i < bytes.len()
        invariant
            i <= bytes@.len(),
            s@ == hex_of(bytes@.subrange(0, i as int)),
            s@.len() == 2 * i,
        decreases bytes.len() - i,
    {
        let b = bytes[i];
        crate::text::push_char(&mut s, hex_digit_of(b / 16));
        crate::text::push_char(&mut s, hex_digit_of(b % 16));
        proof {
            let next = bytes@.subrange(0, i + 1);
            assert(next.drop_last() =~= bytes@.subrange(0, i as int));
            assert(next.last() == b);
        }
        i = i + 1;
    }
    assert(bytes@.subrange(0, bytes@.len() as int) =~= bytes@);
    s
}

} // verus!
