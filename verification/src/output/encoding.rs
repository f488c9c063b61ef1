//! Standard Base64 with padding (RFC 4648, section 4): the encoding of a
//! byte sequence, its decoding, and the facts the viewer relies on.

use vstd::prelude::*;

verus! {

/// The character of a six-bit value in the standard alphabet.
pub open spec fn b64_char(v: int) -> char {
    if v < 26 {
        (65 + v) as char
    } else if v < 52 {
        (71 + v) as char
    } else if v < 62 {
        (v - 4) as char
    } else if v == 62 {
        '+'
    } else {
        '/'
    }
}

/// The six-bit value of a character of the standard alphabet.
pub open spec fn b64_value(c: char) -> int {
    let n = c as int;
    if 65 <= n <= 90 {
        n - 65
    } else if 97 <= n <= 122 {
        n - 71
    } else if 48 <= n <= 57 {
        n + 4
    } else if c == '+' {
        62
    } else {
        63
    }
}

/// A character of the standard Base64 alphabet, or the padding `=`.
pub open spec fn is_base64_char(c: char) -> bool {
    ('A' <= c && c <= 'Z') || ('a' <= c && c <= 'z') || ('0' <= c && c <= '9') || c == '+'
        || c == '/' || c == '='
}

/// Padded standard Base64 of a byte sequence: every three bytes become four
/// characters; a final one or two bytes become two or three characters and
/// `=` padding up to four.
pub open spec fn base64_encoding(b: Seq<u8>) -> Seq<char>
    decreases b.len(),
{
    if b.len() == 0 {
        seq![]
    } else {
        let b0 = b[0] as int;
        let b1 = if b.len() > 1 { b[1] as int } else { 0 };
        let b2 = if b.len() > 2 { b[2] as int } else { 0 };
        let c0 = b64_char(b0 / 4);
        let c1 = b64_char((b0 % 4) * 16 + b1 / 16);
        let c2 = if b.len() > 1 { b64_char((b1 % 16) * 4 + b2 / 64) } else { '=' };
        let c3 = if b.len() > 2 { b64_char(b2 % 64) } else { '=' };
        if b.len() <= 3 {
            seq![c0, c1, c2, c3]
        } else {
            seq![c0, c1, c2, c3] + base64_encoding(b.subrange(3, b.len() as int))
        }
    }
}

/// Decoding of padded standard Base64: each group of four characters gives
/// three bytes, one fewer for each `=` that ends the group.
pub open spec fn base64_decoding(s: Seq<char>) -> Seq<u8>
    decreases s.len(),
{
    if s.len() < 4 {
        seq![]
    } else {
        let v0 = b64_value(s[0]);
        let v1 = b64_value(s[1]);
        let v2 = b64_value(s[2]);
        let v3 = b64_value(s[3]);
        let x0 = (v0 * 4 + v1 / 16) as u8;
        let x1 = ((v1 % 16) * 16 + v2 / 4) as u8;
        let x2 = ((v2 % 4) * 64 + v3) as u8;
        let group = if s[2] == '=' {
            seq![x0]
        } else if s[3] == '=' {
            seq![x0, x1]
        } else {
            seq![x0, x1, x2]
        };
        group + base64_decoding(s.subrange(4, s.len() as int))
    }
}

/// Length of the padded Base64 encoding of `n` bytes.
pub open spec fn base64_len(n: nat) -> nat {
    4 * (n / 3) + (if n % 3 > 0 { 4nat } else { 0nat })
}

/// A six-bit value has a character of the alphabet, other than `=`, that
/// decodes back to it.
pub proof fn lemma_b64_char(v: int)
    requires
        0 <= v < 64,
    ensures
        b64_value(b64_char(v)) == v,
        is_base64_char(b64_char(v)),
        b64_char(v) != '=',
{
    if v < 26 {
        assert((65 + v) as char as int == 65 + v);
    } else if v < 52 {
        assert((71 + v) as char as int == 71 + v);
    } else if v < 62 {
        assert((v - 4) as char as int == v - 4);
    }
}

/// One group of up to three bytes decodes back from its four characters.
proof fn lemma_group(b0: int, b1: int, b2: int)
    requires
        0 <= b0 < 256,
        0 <= b1 < 256,
        0 <= b2 < 256,
    ensures
        ((b0 / 4) * 4 + ((b0 % 4) * 16 + b1 / 16) / 16) == b0,
        ((((b0 % 4) * 16 + b1 / 16) % 16) * 16 + ((b1 % 16) * 4 + b2 / 64) / 4) == b1,
        ((((b1 % 16) * 4 + b2 / 64) % 4) * 64 + b2 % 64) == b2,
        0 <= b0 / 4 < 64,
        0 <= (b0 % 4) * 16 + b1 / 16 < 64,
        0 <= (b1 % 16) * 4 + b2 / 64 < 64,
        0 <= b2 % 64 < 64,
{
}

/// The encoding has four characters per group of three bytes, padded.
pub proof fn lemma_base64_len(b: Seq<u8>)
    ensures
        base64_encoding(b).len() == base64_len(b.len()),
    decreases b.len(),
{
    if b.len() > 3 {
        lemma_base64_len(b.subrange(3, b.len() as int));
    }
}

/// Every character of an encoding is of the alphabet or the padding.
pub proof fn lemma_base64_alphabet(b: Seq<u8>)
    ensures
        forall|i: int| 0 <= i < base64_encoding(b).len() ==> is_base64_char(#[trigger] base64_encoding(b)[i]),
    decreases b.len(),
{
    if b.len() > 0 {
        let b0 = b[0] as int;
        let b1 = if b.len() > 1 { b[1] as int } else { 0 };
        let b2 = if b.len() > 2 { b[2] as int } else { 0 };
        lemma_group(b0, b1, b2);
        lemma_b64_char(b0 / 4);
        lemma_b64_char((b0 % 4) * 16 + b1 / 16);
        lemma_b64_char((b1 % 16) * 4 + b2 / 64);
        lemma_b64_char(b2 % 64);
        if b.len() > 3 {
            let rest = b.subrange(3, b.len() as int);
            lemma_base64_alphabet(rest);
            let e = base64_encoding(b);
            assert forall|i: int| 0 <= i < e.len() implies is_base64_char(#[trigger] e[i]) by {
                if i >= 4 {
                    assert(e[i] == base64_encoding(rest)[i - 4]);
                }
            }
        }
    }
}

/// Decoding an encoding gives the bytes back.
pub proof fn lemma_base64_roundtrip(b: Seq<u8>)
    ensures
        base64_decoding(base64_encoding(b)) == b,
    decreases b.len(),
{
    if b.len() == 0 {
        assert(base64_decoding(base64_encoding(b)) =~= b);
    } else {
        let b0 = b[0] as int;
        let b1 = if b.len() > 1 { b[1] as int } else { 0 };
        let b2 = if b.len() > 2 { b[2] as int } else { 0 };
        lemma_group(b0, b1, b2);
        lemma_b64_char(b0 / 4);
        lemma_b64_char((b0 % 4) * 16 + b1 / 16);
        lemma_b64_char((b1 % 16) * 4 + b2 / 64);
        lemma_b64_char(b2 % 64);
        let e = base64_encoding(b);
        if b.len() > 3 {
            let rest = b.subrange(3, b.len() as int);
            lemma_base64_roundtrip(rest);
            assert(e.subrange(4, e.len() as int) =~= base64_encoding(rest));
            assert(base64_decoding(e) =~= b);
        } else {
            let tail = e.subrange(4, e.len() as int);
            assert(tail.len() == 0);
            assert(base64_decoding(tail) =~= Seq::<u8>::empty());
            let x0 = (b64_value(e[0]) * 4 + b64_value(e[1]) / 16) as u8;
            let x1 = ((b64_value(e[1]) % 16) * 16 + b64_value(e[2]) / 4) as u8;
            let x2 = ((b64_value(e[2]) % 4) * 64 + b64_value(e[3])) as u8;
            assert(x0 == b[0]);
            if b.len() == 1 {
                assert(e[2] == '=');
                assert(base64_decoding(e) =~= seq![x0]);
            } else if b.len() == 2 {
                assert(x1 == b[1]);
                assert(e[2] != '=' && e[3] == '=');
                assert(base64_decoding(e) =~= seq![x0, x1]);
            } else {
                assert(x1 == b[1] && x2 == b[2]);
                assert(e[2] != '=' && e[3] != '=');
                assert(base64_decoding(e) =~= seq![x0, x1, x2]);
            }
            assert(base64_decoding(e) =~= b);
        }
    }
}

} // verus!
