//! Text building blocks: decimal rendering, padding and appending to a
//! `String` with exact specifications over character sequences.

use vstd::prelude::*;

verus! {

/// `String::push`: appends one character.
#[verifier::external_body]
pub(crate) fn push_char(s: &mut String, c: char)
    ensures
        final(s)@ == old(s)@.push(c),
{
    s.push(c);
}

/// The ASCII digit for a value in `0..10`.
pub open spec fn digit_char(d: int) -> char {
    (d + 48) as char
}

/// Decimal representation of a natural number, without leading zeros.
pub open spec fn dec(n: nat) -> Seq<char>
    decreases n,
{
    if n < 10 {
        seq![digit_char(n as int)]
    } else {
        dec(n / 10).push(digit_char((n % 10) as int))
    }
}

/// Decimal representation of an integer with an explicit sign, as `{:+}` prints it.
pub open spec fn signed_dec(n: int) -> Seq<char> {
    if n >= 0 {
        seq!['+'] + dec(n as nat)
    } else {
        seq!['-'] + dec((-n) as nat)
    }
}

/// `k` spaces.
pub open spec fn spaces(k: nat) -> Seq<char> {
    Seq::new(k, |i: int| ' ')
}

/// Right-aligned in a field of `w` characters (`{:>w}`).
pub open spec fn pad_left(s: Seq<char>, w: nat) -> Seq<char> {
    if s.len() < w {
        spaces((w - s.len()) as nat) + s
    } else {
        s
    }
}

/// Left-aligned in a field of `w` characters (`{:<w}`).
pub open spec fn pad_right(s: Seq<char>, w: nat) -> Seq<char> {
    if s.len() < w {
        s + spaces((w - s.len()) as nat)
    } else {
        s
    }
}

/// Centred in a field of `w` characters (`{:^w}`): the odd space goes right.
pub open spec fn pad_center(s: Seq<char>, w: nat) -> Seq<char> {
    if s.len() < w {
        let fill = (w - s.len()) as nat;
        spaces(fill / 2) + s + spaces((fill - fill / 2) as nat)
    } else {
        s
    }
}

/// Appends a string slice.
pub fn push_str(out: &mut String, s: &str)
    ensures
        final(out)@ == old(out)@ + s@,
{
    out.append(s);
}

/// Appends `k` spaces.
pub fn push_spaces(out: &mut String, k: usize)
    ensures
        final(out)@ == old(out)@ + spaces(k as nat),
{
    let ghost start = out@;
    let mut i: usize = 0;
    while i < k
        invariant
            i <= k,
            out@ == start + spaces(i as nat),
        decreases k - i,
    {
        push_char(out, ' ');
        i = i + 1;
        assert(out@ =~= start + spaces(i as nat));
    }
}

/// Appends the decimal digits of `n`.
pub fn push_dec(out: &mut String, n: u128)
    ensures
        final(out)@ == old(out)@ + dec(n as nat),
    decreases n,
{
    if n >= 10 {
        push_dec(out, n / 10);
    }
    let d: u8 = (n % 10) as u8;
    let c: char = (48u8 + d) as char;
    assert(c == digit_char((n % 10) as int));
    push_char(out, c);
    proof {
        if n < 10 {
            assert(old(out)@ + dec(n as nat) =~= old(out)@.push(c));
        } else {
            assert(old(out)@ + dec(n as nat) =~= (old(out)@ + dec((n / 10) as nat)).push(c));
        }
    }
}

/// The decimal digits of `n` as a new string.
pub fn dec_string(n: u64) -> (s: String)
    ensures
        s@ == dec(n as nat),
{
    let mut s = String::new();
    push_dec(&mut s, n as u128);
    assert(s@ =~= dec(n as nat));
    s
}

/// Magnitude of a signed 64-bit value, without overflow.
pub fn magnitude(n: i64) -> (m: u64)
    ensures
        m as int == (if n < 0 { -n } else { n as int }),
{
    if n < 0 {
        ((-(n + 1)) as u64) + 1
    } else {
        n as u64
    }
}

/// Appends `n` with an explicit sign (`{:+}`).
pub fn push_signed(out: &mut String, n: i64)
    ensures
        final(out)@ == old(out)@ + signed_dec(n as int),
{
    let ghost start = out@;
    if n >= 0 {
        push_char(out, '+');
    } else {
        push_char(out, '-');
    }
    push_dec(out, magnitude(n) as u128);
    assert(out@ =~= start + signed_dec(n as int));
}

/// Number of characters of a string slice.
pub fn char_count(s: &str) -> (n: usize)
    ensures
        n as int == s@.len(),
{
    s.unicode_len()
}

/// Appends `s` right-aligned in a field of `w` characters.
pub fn push_pad_left(out: &mut String, s: &str, w: usize)
    ensures
        final(out)@ == old(out)@ + pad_left(s@, w as nat),
{
    let ghost start = out@;
    let n = char_count(s);
    if n < w {
        push_spaces(out, w - n);
    }
    push_str(out, s);
    assert(out@ =~= start + pad_left(s@, w as nat));
}

/// Appends `s` left-aligned in a field of `w` characters.
pub fn push_pad_right(out: &mut String, s: &str, w: usize)
    ensures
        final(out)@ == old(out)@ + pad_right(s@, w as nat),
{
    let ghost start = out@;
    let n = char_count(s);
    push_str(out, s);
    if n < w {
        push_spaces(out, w - n);
    }
    assert(out@ =~= start + pad_right(s@, w as nat));
}

/// Appends `s` centred in a field of `w` characters.
pub fn push_pad_center(out: &mut String, s: &str, w: usize)
    ensures
        final(out)@ == old(out)@ + pad_center(s@, w as nat),
{
    let ghost start = out@;
    let n = char_count(s);
    if n < w {
        let fill = w - n;
        push_spaces(out, fill / 2);
        push_str(out, s);
        push_spaces(out, fill - fill / 2);
    } else {
        push_str(out, s);
    }
    assert(out@ =~= start + pad_center(s@, w as nat));
}

/// The characters of a string slice.
pub fn chars_of(s: &str) -> (v: Vec<char>)
    ensures
        v@ == s@,
{
    broadcast use vstd::string::group_string_axioms;

    let mut it = s.chars();
    let mut v: Vec<char> = Vec::new();
    loop
        invariant_except_break
            v@.len() <= s@.len(),
            vstd::std_specs::iter::IteratorSpec::remaining(&it) == s@.skip(v@.len() as int),
            v@ == s@.take(v@.len() as int),
        ensures
            v@ == s@,
        decreases s@.len() - v@.len(),
    {
        match it.next() {
            Some(c) => {
                assert(s@.skip(v@.len() as int)[0] == s@[v@.len() as int]);
                v.push(c);
                assert(v@ =~= s@.take(v@.len() as int));
                assert(s@.skip(v@.len() - 1).drop_first() =~= s@.skip(v@.len() as int));
            },
            None => {
                assert(s@.take(v@.len() as int) =~= s@);
                break;
            },
        }
    }
    v
}

} // verus!
