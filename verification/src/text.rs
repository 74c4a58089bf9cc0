//! String building with exact views: literal pieces, decimal and hexadecimal
//! renderings of integers, lowercase hex dumps of byte strings, and UTF-8
//! decoding of byte strings.

use vstd::prelude::*;
use vstd::utf8::{decode_utf8, valid_utf8};

verus! {

/// Appends one character to `out` (`String::push`); the standard library
/// documents that the character is added at the end.
#[verifier::external_body]
pub(crate) fn push_char(out: &mut String, c: char)
    ensures
        final(out)@ == old(out)@.push(c),
{
    out.push(c);
}

/// Views `bytes` as UTF-8 text (`std::str::from_utf8`). The standard
/// library documents that this succeeds exactly when the bytes are valid
/// UTF-8, and the text is then the characters the bytes encode.
#[verifier::external_body]
fn utf8_str(bytes: &[u8]) -> (r: Option<&str>)
    ensures
        r is Some <==> valid_utf8(bytes@),
        r matches Some(s) ==> s@ == decode_utf8(bytes@),
{
    std::str::from_utf8(bytes).ok()
}

/// Decodes `bytes` as UTF-8 into an owned string; `None` when they are not
/// valid UTF-8.
pub(crate) fn utf8_to_string(bytes: &[u8]) -> (r: Option<String>)
    ensures
        r is Some <==> valid_utf8(bytes@),
        r matches Some(s) ==> s@ == decode_utf8(bytes@),
{
    match utf8_str(bytes) {
        Some(s) => Some(owned(s)),
        None => None,
    }
}

/// An owned copy of a string slice.
pub fn owned(piece: &str) -> (r: String)
    ensures
        r@ == piece@,
{
    piece.to_owned()
}

/// The ASCII digit (or lowercase hex letter) for `d < 16`.
pub open spec fn digit_char(d: int) -> char {
    if d < 10 {
        (('0' as int) + d) as char
    } else {
        (('a' as int) + d - 10) as char
    }
}

/// Digits of `v` in base `radix`, most significant first, without leading
/// zeros (zero renders as a single `0`).
pub open spec fn digits(v: nat, radix: nat) -> Seq<char>
    recommends
        2 <= radix <= 16,
    decreases v,
{
    if radix < 2 || v < radix {
        seq![digit_char(v as int)]
    } else {
        proof {
            vstd::arithmetic::div_mod::lemma_div_decreases(v as int, radix as int);
        }
        digits(v / radix, radix).push(digit_char((v % radix) as int))
    }
}

/// Decimal rendering of `v` (what `{}` prints).
pub open spec fn decimal(v: nat) -> Seq<char> {
    digits(v, 10)
}

/// Lowercase hex rendering of `v` without prefix (what `{:x}` prints).
pub open spec fn hex(v: nat) -> Seq<char> {
    digits(v, 16)
}

/// `s` left-padded with `0` to at least `width` characters.
pub open spec fn zero_pad(s: Seq<char>, width: nat) -> Seq<char> {
    if s.len() >= width {
        s
    } else {
        Seq::new((width - s.len()) as nat, |i: int| '0') + s
    }
}

/// What `{:#x}` prints: `0x` followed by the lowercase hex digits.
pub open spec fn hex_prefixed(v: nat) -> Seq<char> {
    seq!['0', 'x'] + hex(v)
}

/// What `{:#0W$x}` prints: `0x` then the hex digits zero-padded so that
/// the whole rendering is at least `width` characters long.
pub open spec fn hex_prefixed_width(v: nat, width: nat) -> Seq<char> {
    seq!['0', 'x'] + zero_pad(hex(v), if width >= 2 { (width - 2) as nat } else { 0 })
}

fn digit_of(d: u64) -> (c: char)
    requires
        d < 16,
    ensures
        c == digit_char(d as int),
{
    if d < 10 {
        ((d as u8) + 48) as char
    } else {
        ((d as u8) + 87) as char
    }
}

/// Appends the base-`radix` digits of `v`.
pub fn push_digits(out: &mut String, v: u64, radix: u64)
    requires
        2 <= radix <= 16,
    ensures
        final(out)@ == old(out)@ + digits(v as nat, radix as nat),
    decreases v,
{
    if v < radix {
        push_char(out, digit_of(v));
    } else {
        proof {
            vstd::arithmetic::div_mod::lemma_div_decreases(v as int, radix as int);
        }
        push_digits(out, v / radix, radix);
        push_char(out, digit_of(v % radix));
        proof {
            let a = old(out)@;
            assert(a + digits((v / radix) as nat, radix as nat).push(digit_char((v % radix) as int))
                =~= (a + digits((v / radix) as nat, radix as nat)).push(digit_char((v % radix) as int)));
        }
    }
}

/// Appends the decimal rendering of `v`.
pub fn push_decimal(out: &mut String, v: u64)
    ensures
        final(out)@ == old(out)@ + decimal(v as nat),
{
    push_digits(out, v, 10);
}

/// Appends `0x` and the lowercase hex digits of `v`.
pub fn push_hex_prefixed(out: &mut String, v: u64)
    ensures
        final(out)@ == old(out)@ + hex_prefixed(v as nat),
{
    let ghost a = out@;
    out.append("0x");
    proof {
        reveal_strlit("0x");
    }
    push_digits(out, v, 16);
    assert(final(out)@ =~= a + hex_prefixed(v as nat));
}

/// Appends `0x` and the hex digits of `v` zero-padded so the rendering has
/// at least `width` characters.
pub fn push_hex_prefixed_width(out: &mut String, v: u64, width: usize)
    ensures
        final(out)@ == old(out)@ + hex_prefixed_width(v as nat, width as nat),
{
    let ghost a = out@;
    out.append("0x");
    proof {
        reveal_strlit("0x");
    }
    let ghost with_prefix = out@;
    let target: usize = if width >= 2 { width - 2 } else { 0 };
    let mut digits_text = String::new();
    push_digits(&mut digits_text, v, 16);
    let digit_count = digits_text.as_str().unicode_len();
    let mut pad: usize = if digit_count < target { target - digit_count } else { 0 };
    let ghost pad_total = pad;
    while pad > 0
        invariant
            pad <= pad_total,
            out@ == with_prefix + Seq::new((pad_total - pad) as nat, |i: int| '0'),
        decreases pad,
    {
        push_char(out, '0');
        pad = pad - 1;
        assert(out@ =~= with_prefix + Seq::new((pad_total - pad) as nat, |i: int| '0'));
    }
    out.append(digits_text.as_str());
    proof {
        let h = hex(v as nat);
        let w = if width >= 2 { (width - 2) as nat } else { 0nat };
        if h.len() >= w {
            assert(pad_total == 0);
            assert(zero_pad(h, w) == h);
        } else {
            assert(pad_total == w - h.len());
        }
        assert(final(out)@ =~= a + hex_prefixed_width(v as nat, width as nat));
    }
}

/// Lowercase two-digits-per-byte hex dump of `bytes`.
pub open spec fn hex_dump(bytes: Seq<u8>) -> Seq<char>
    decreases bytes.len(),
{
    if bytes.len() == 0 {
        Seq::empty()
    } else {
        hex_dump(bytes.drop_last()) + seq![
            digit_char((bytes.last() / 16) as int),
            digit_char((bytes.last() % 16) as int),
        ]
    }
}

/// Appends the lowercase hex dump of `bytes`.
pub fn push_hex_dump(out: &mut String, bytes: &[u8])
    ensures
        final(out)@ == old(out)@ + hex_dump(bytes@),
{
    let ghost a = out@;
    let mut i: usize = 0;
    while i < bytes.len()
        invariant
            i <= bytes@.len(),
            out@ == a + hex_dump(bytes@.subrange(0, i as int)),
        decreases bytes@.len() - i,
    {
        let b = bytes[i];
        push_char(out, digit_of((b / 16) as u64));
        push_char(out, digit_of((b % 16) as u64));
        proof {
            let pre = bytes@.subrange(0, i as int);
            let next = bytes@.subrange(0, i + 1);
            assert(next.drop_last() =~= pre);
            assert(next.last() == b);
        }
        i = i + 1;
        assert(out@ =~= a + hex_dump(bytes@.subrange(0, i as int)));
    }
    assert(bytes@.subrange(0, bytes@.len() as int) =~= bytes@);
}

/// The lowercase hex dump of `bytes` as a new string.
pub fn to_hex(bytes: &[u8]) -> (r: String)
    ensures
        r@ == hex_dump(bytes@),
{
    let mut out = String::new();
    push_hex_dump(&mut out, bytes);
    assert(out@ =~= hex_dump(bytes@));
    out
}


/// Whether `s` begins with `prefix`.
pub fn starts_with_text(s: &str, prefix: &str) -> (r: bool)
    ensures
        r == prefix@.is_prefix_of(s@),
{
    let n = prefix.unicode_len();
    let m = s.unicode_len();
    if n > m {
        return false;
    }
    let mut i: usize = 0;
    while i < n
        invariant
            n == prefix@.len(),
            m == s@.len(),
            n <= m,
            i <= n,
            forall|k: int| 0 <= k < i ==> prefix@[k] == s@[k],
        decreases n - i,
    {
        if prefix.get_char(i) != s.get_char(i) {
            return false;
        }
        i = i + 1;
    }
    true
}

/// `before`, the decimal rendering of `n`, then `after`.
pub fn msg_num(before: &str, n: u64, after: &str) -> (r: String)
    ensures
        r@ == before@ + decimal(n as nat) + after@,
{
    let mut out = owned(before);
    push_decimal(&mut out, n);
    out.append(after);
    out
}

/// `a`, decimal `n1`, `b`, then decimal `n2`.
pub fn msg_pair(a: &str, n1: u64, b: &str, n2: u64) -> (r: String)
    ensures
        r@ == a@ + decimal(n1 as nat) + b@ + decimal(n2 as nat),
{
    let mut out = msg_num(a, n1, b);
    push_decimal(&mut out, n2);
    out
}

/// `a`, decimal `n1`, `b`, decimal `n2`, then `c`.
pub fn msg_num2(a: &str, n1: u64, b: &str, n2: u64, c: &str) -> (r: String)
    ensures
        r@ == a@ + decimal(n1 as nat) + b@ + decimal(n2 as nat) + c@,
{
    let mut out = msg_num(a, n1, b);
    push_decimal(&mut out, n2);
    out.append(c);
    out
}

/// The characters of `s`, in order.
pub fn chars_of(s: &str) -> (r: Vec<char>)
    ensures
        r@ == s@,
{
    broadcast use vstd::string::axiom_spec_iter;
    let mut out: Vec<char> = Vec::new();
    for c in it: s.chars()
        invariant
            out@ == it.seq().subrange(0, it.index() as int),
            it.seq() == s@,
    {
        out.push(c);
    }
    out
}

} // verus!
