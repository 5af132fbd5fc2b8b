//! The compact JSON text of the records this engine puts on the wire and
//! signs: string escaping and decimal numbers as serde_json writes them.
use vstd::prelude::*;
use crate::encoding::{hex_digit, is_b64url_char};
use crate::utf8::{lemma_utf8_len_ascii, utf8_len};
use crate::text::{chars_of, push_char, push_str};

verus! {

/// How serde_json writes one character inside a string literal.
pub open spec fn escape_char(c: char) -> Seq<char> {
    let u = c as u32;
    if c == '"' {
        seq!['\\', '"']
    } else if c == '\\' {
        seq!['\\', '\\']
    } else if u == 0x08 {
        seq!['\\', 'b']
    } else if u == 0x09 {
        seq!['\\', 't']
    } else if u == 0x0a {
        seq!['\\', 'n']
    } else if u == 0x0c {
        seq!['\\', 'f']
    } else if u == 0x0d {
        seq!['\\', 'r']
    } else if u < 0x20 {
        seq!['\\', 'u', '0', '0', hex_digit((u / 16) as u8), hex_digit((u % 16) as u8)]
    } else {
        seq![c]
    }
}

pub open spec fn escape_str(s: Seq<char>) -> Seq<char>
    decreases s.len(),
{
    if s.len() == 0 {
        Seq::empty()
    } else {
        escape_str(s.drop_last()) + escape_char(s.last())
    }
}

/// A JSON string literal holding `s`.
pub open spec fn json_string(s: Seq<char>) -> Seq<char> {
    seq!['"'] + escape_str(s) + seq!['"']
}

pub open spec fn digit_char(d: nat) -> char {
    ((('0' as u32) + d) as u32) as char
}

/// Decimal digits of `n`, no sign or leading zeros.
pub open spec fn decimal(n: nat) -> Seq<char>
    decreases n,
{
    if n < 10 {
        seq![digit_char(n)]
    } else {
        decimal(n / 10) + seq![digit_char(n % 10)]
    }
}

/// `true` / `false`.
pub open spec fn json_bool(b: bool) -> Seq<char> {
    if b {
        "true"@
    } else {
        "false"@
    }
}

fn push_escaped(out: &mut String, c: char)
    ensures
        final(out)@ == old(out)@ + escape_char(c),
{
    let u = c as u32;
    if c == '"' {
        push_char(out, '\\');
        push_char(out, '"');
    } else if c == '\\' {
        push_char(out, '\\');
        push_char(out, '\\');
    } else if u == 0x08 {
        push_char(out, '\\');
        push_char(out, 'b');
    } else if u == 0x09 {
        push_char(out, '\\');
        push_char(out, 't');
    } else if u == 0x0a {
        push_char(out, '\\');
        push_char(out, 'n');
    } else if u == 0x0c {
        push_char(out, '\\');
        push_char(out, 'f');
    } else if u == 0x0d {
        push_char(out, '\\');
        push_char(out, 'r');
    } else if u < 0x20 {
        push_char(out, '\\');
        push_char(out, 'u');
        push_char(out, '0');
        push_char(out, '0');
        let hi = (u / 16) as u8;
        let lo = (u % 16) as u8;
        push_char(out, hex_char(hi));
        push_char(out, hex_char(lo));
    } else {
        push_char(out, c);
    }
    assert(final(out)@ =~= old(out)@ + escape_char(c));
}

fn hex_char(v: u8) -> (c: char)
    requires
        v < 16,
    ensures
        c == hex_digit(v),
{
    if v < 10 {
        crate::text::char_from_ascii(48 + v)
    } else {
        crate::text::char_from_ascii(87 + v)
    }
}

/// Append `s` as a JSON string literal.
pub fn push_json_string(out: &mut String, s: &str)
    ensures
        final(out)@ == old(out)@ + json_string(s@),
{
    let chars = chars_of(s);
    let ghost start = out@;
    push_char(out, '"');
    let mut i: usize = 0;
    while i < chars.len()
        invariant
            i <= chars@.len(),
            chars@ == s@,
            out@ == start + seq!['"'] + escape_str(chars@.subrange(0, i as int)),
        decreases chars.len() - i,
    {
        let ghost before = out@;
        push_escaped(out, chars[i]);
        proof {
            let next = chars@.subrange(0, i + 1);
            assert(next.drop_last() =~= chars@.subrange(0, i as int));
            assert(next.last() == chars@[i as int]);
            assert(out@ =~= start + seq!['"'] + escape_str(next));
        }
        i = i + 1;
    }
    push_char(out, '"');
    assert(chars@.subrange(0, chars@.len() as int) =~= s@);
    assert(out@ =~= start + json_string(s@));
}

fn digit_of(d: u64) -> (c: char)
    requires
        d < 10,
    ensures
        c == digit_char(d as nat),
{
    crate::text::char_from_ascii(48 + d as u8)
}

/// Append the decimal digits of `n`.
pub fn push_decimal(out: &mut String, n: u64)
    ensures
        final(out)@ == old(out)@ + decimal(n as nat),
    decreases n,
{
    if n < 10 {
        push_char(out, digit_of(n));
        assert(final(out)@ =~= old(out)@ + decimal(n as nat));
    } else {
        push_decimal(out, n / 10);
        push_char(out, digit_of(n % 10));
        assert(final(out)@ =~= old(out)@ + decimal(n as nat));
    }
}

/// Append `true` or `false`.
pub fn push_bool(out: &mut String, b: bool)
    ensures
        final(out)@ == old(out)@ + json_bool(b),
{
    if b {
        push_str(out, "true");
    } else {
        push_str(out, "false");
    }
}

/// Printable ASCII that JSON carries unescaped.
pub open spec fn is_plain(s: Seq<char>) -> bool {
    forall|i: int|
        0 <= i < s.len() ==> {
            &&& 0x20 <= (#[trigger] s[i]) as u32
            &&& (s[i] as u32) < 0x7f
            &&& s[i] != '"'
            &&& s[i] != '\\'
        }
}

pub proof fn lemma_escape_plain(s: Seq<char>)
    requires
        is_plain(s),
    ensures
        escape_str(s) == s,
    decreases s.len(),
{
    if s.len() > 0 {
        let t = s.drop_last();
        assert(is_plain(t)) by {
            assert forall|i: int| 0 <= i < t.len() implies {
                &&& 0x20 <= (#[trigger] t[i]) as u32
                &&& (t[i] as u32) < 0x7f
                &&& t[i] != '"'
                &&& t[i] != '\\'
            } by {
                assert(t[i] == s[i]);
            }
        }
        lemma_escape_plain(t);
        let c = s.last();
        assert(0x20 <= c as u32 && (c as u32) < 0x7f && c != '"' && c != '\\');
        assert(escape_char(c) == seq![c]);
        assert(t + seq![c] =~= s);
    }
}

pub proof fn lemma_b64_plain(s: Seq<char>)
    requires
        forall|i: int| 0 <= i < s.len() ==> is_b64url_char(#[trigger] s[i]),
    ensures
        is_plain(s),
{
    assert forall|i: int| 0 <= i < s.len() implies {
        &&& 0x20 <= (#[trigger] s[i]) as u32
        &&& (s[i] as u32) < 0x7f
        &&& s[i] != '"'
        &&& s[i] != '\\'
    } by {
        assert(is_b64url_char(s[i]));
    }
}

pub open spec fn is_ascii_seq(s: Seq<char>) -> bool {
    forall|i: int| 0 <= i < s.len() ==> (#[trigger] s[i]) as u32 <= 0x7f
}

pub proof fn lemma_decimal(n: nat)
    ensures
        is_ascii_seq(decimal(n)),
        n < 10 ==> decimal(n).len() == 1,
        n < 100 ==> decimal(n).len() <= 2,
        n < 1000 ==> decimal(n).len() <= 3,
        n < 10000 ==> decimal(n).len() <= 4,
        n < 100000 ==> decimal(n).len() <= 5,
    decreases n,
{
    if n >= 10 {
        lemma_decimal(n / 10);
        let d = decimal(n / 10);
        let s = decimal(n);
        assert(s == d + seq![digit_char(n % 10)]);
        assert forall|i: int| 0 <= i < s.len() implies (#[trigger] s[i]) as u32 <= 0x7f by {
            if i < d.len() {
                assert(s[i] == d[i]);
            }
        }
    }
}

pub proof fn lemma_plain_len(s: Seq<char>)
    requires
        is_plain(s),
    ensures
        utf8_len(json_string(s)) == s.len() + 2,
{
    lemma_escape_plain(s);
    let j = json_string(s);
    assert forall|i: int| 0 <= i < j.len() implies (#[trigger] j[i]) as u32 <= 0x7f by {
        if 1 <= i < j.len() - 1 {
            assert(j[i] == s[i - 1]);
        }
    }
    lemma_utf8_len_ascii(j);
}

pub proof fn lemma_ascii_len(s: Seq<char>)
    requires
        is_ascii_seq(s),
    ensures
        utf8_len(s) == s.len(),
{
    lemma_utf8_len_ascii(s);
}

} // verus!
