//! Text helpers: UTF-8 decoding and trailing-padding trimming.

use vstd::prelude::*;
use vstd::utf8::{decode_utf8, valid_utf8};

verus! {

/// Decode `bytes` as UTF-8 with `std::str::from_utf8`.
///
/// Trusted: `from_utf8` accepts exactly the byte strings that
/// `vstd::utf8::valid_utf8` describes, and the characters of the result are
/// their `decode_utf8` decoding.
#[verifier::external_body]
pub(crate) fn utf8_str(bytes: &[u8]) -> (r: Option<&str>)
    ensures
        r is Some <==> valid_utf8(bytes@),
        r matches Some(s) ==> s@ == decode_utf8(bytes@),
{
    std::str::from_utf8(bytes).ok()
}

/// `s` without its trailing spaces and NUL characters.
pub open spec fn trim_padding(s: Seq<char>) -> Seq<char>
    decreases s.len(),
{
    if s.len() > 0 && (s.last() == ' ' || s.last() == '\0') {
        trim_padding(s.drop_last())
    } else {
        s
    }
}

/// Trimming padding never makes a text longer.
pub proof fn lemma_trim_padding_len(s: Seq<char>)
    ensures
        trim_padding(s).len() <= s.len(),
    decreases s.len(),
{
    if s.len() > 0 && (s.last() == ' ' || s.last() == '\0') {
        lemma_trim_padding_len(s.drop_last());
    }
}

/// Decoding valid UTF-8 gives at most one character per byte.
pub proof fn lemma_decode_utf8_len(b: Seq<u8>)
    requires
        valid_utf8(b),
    ensures
        decode_utf8(b).len() <= b.len(),
    decreases b.len(),
{
    if b.len() > 0 {
        let k = vstd::utf8::length_of_first_scalar(b);
        assert(1 <= k <= b.len());
        lemma_decode_utf8_len(vstd::utf8::pop_first_scalar(b));
    }
}

/// Trimming a prefix of `s` that ends past the last non-padding character
/// gives the same result as trimming `s`.
proof fn lemma_trim_prefix(s: Seq<char>, k: int)
    requires
        0 <= k <= s.len(),
        forall|i: int| k <= i < s.len() ==> (s[i] == ' ' || s[i] == '\0'),
    ensures
        trim_padding(s) == trim_padding(s.subrange(0, k)),
    decreases s.len() - k,
{
    if k < s.len() {
        assert(s.drop_last() =~= s.subrange(0, s.len() - 1));
        lemma_trim_prefix(s.drop_last(), k);
        assert(s.drop_last().subrange(0, k) =~= s.subrange(0, k));
    } else {
        assert(s.subrange(0, k) =~= s);
    }
}

/// Copy `s` without its trailing spaces and NUL characters into a `String`.
pub(crate) fn trim_padding_owned(s: &str) -> (r: String)
    ensures
        r@ == trim_padding(s@),
{
    let n = s.unicode_len();
    let mut k = n;
    while k > 0 && (s.get_char(k - 1) == ' ' || s.get_char(k - 1) == '\0')
        invariant
            k <= n == s@.len(),
            forall|i: int| k <= i < s@.len() ==> (s@[i] == ' ' || s@[i] == '\0'),
        decreases k,
    {
        k -= 1;
    }
    proof {
        lemma_trim_prefix(s@, k as int);
        let t = s@.subrange(0, k as int);
        assert(t.len() == 0 || !(t.last() == ' ' || t.last() == '\0'));
    }
    String::from_str(s.substring_char(0, k))
}

/// `String::push` appends one character.
pub assume_specification[ String::push ](s: &mut String, ch: char)
    ensures
        final(s)@ == old(s)@.push(ch),
;

/// The lowercase hexadecimal digit of `d < 16`.
pub open spec fn hex_char(d: int) -> char {
    if d < 10 {
        (0x30 + d) as char
    } else {
        (0x61 + d - 10) as char
    }
}

/// `v` in lowercase hexadecimal, zero-padded to at least `min` digits
/// (no digits at all for `v == 0` with `min == 0`).
pub open spec fn hex_padded(v: nat, min: nat) -> Seq<char>
    decreases v, min,
{
    if v == 0 && min == 0 {
        Seq::empty()
    } else {
        hex_padded(v / 16, if min > 0 { (min - 1) as nat } else { 0 }).push(hex_char((v % 16) as int))
    }
}

/// Append `v` in lowercase hexadecimal, zero-padded to at least `min` digits.
pub(crate) fn push_hex(out: &mut String, v: u64, min: u32)
    ensures
        final(out)@ == old(out)@ + hex_padded(v as nat, min as nat),
    decreases v, min,
{
    if v == 0 && min == 0 {
        assert(old(out)@ + hex_padded(0, 0) =~= old(out)@);
        return;
    }
    let next_min = if min > 0 { min - 1 } else { 0 };
    push_hex(out, v / 16, next_min);
    let d = (v % 16) as u32;
    let c: char = if d < 10 { ((0x30 + d) as u8) as char } else { ((0x61 + d - 10) as u8) as char };
    assert(c == hex_char(d as int));
    out.push(c);
    assert(final(out)@ =~= old(out)@ + hex_padded(v as nat, min as nat));
}

/// The decimal digit of `d < 10`.
pub open spec fn decimal_char(d: int) -> char {
    (0x30 + d) as char
}

/// `v` in decimal, without leading zeros (`0` for zero).
pub open spec fn decimal(v: nat) -> Seq<char>
    decreases v,
{
    if v < 10 {
        seq![decimal_char(v as int)]
    } else {
        decimal(v / 10).push(decimal_char((v % 10) as int))
    }
}

/// Append `v` in decimal.
pub(crate) fn push_decimal(out: &mut String, v: u64)
    ensures
        final(out)@ == old(out)@ + decimal(v as nat),
    decreases v,
{
    if v >= 10 {
        push_decimal(out, v / 10);
    }
    let d = (v % 10) as u32;
    let c: char = ((0x30 + d) as u8) as char;
    assert(c == decimal_char(d as int));
    out.push(c);
    assert(final(out)@ =~= old(out)@ + decimal(v as nat));
}

/// A Unicode white-space character (the `White_Space` property, which
/// `char::is_whitespace` follows).
pub open spec fn is_white_space(c: char) -> bool {
    let u = c as int;
    ||| 0x09 <= u <= 0x0d
    ||| u == 0x20
    ||| u == 0x85
    ||| u == 0xa0
    ||| u == 0x1680
    ||| 0x2000 <= u <= 0x200a
    ||| u == 0x2028
    ||| u == 0x2029
    ||| u == 0x202f
    ||| u == 0x205f
    ||| u == 0x3000
}

/// Check one character with `is_white_space`.
fn white_space(c: char) -> (r: bool)
    ensures
        r == is_white_space(c),
{
    let u = c as u32;
    (0x09 <= u && u <= 0x0d) || u == 0x20 || u == 0x85 || u == 0xa0 || u == 0x1680
        || (0x2000 <= u && u <= 0x200a) || u == 0x2028 || u == 0x2029 || u == 0x202f
        || u == 0x205f || u == 0x3000
}

/// `s` without its trailing white space.
pub open spec fn trim_end(s: Seq<char>) -> Seq<char>
    decreases s.len(),
{
    if s.len() > 0 && is_white_space(s.last()) {
        trim_end(s.drop_last())
    } else {
        s
    }
}

/// Trimming a prefix of `s` that ends past the last non-space character
/// gives the same result as trimming `s`.
proof fn lemma_trim_end_prefix(s: Seq<char>, k: int)
    requires
        0 <= k <= s.len(),
        forall|i: int| k <= i < s.len() ==> is_white_space(s[i]),
    ensures
        trim_end(s) == trim_end(s.subrange(0, k)),
    decreases s.len() - k,
{
    if k < s.len() {
        assert(s.drop_last() =~= s.subrange(0, s.len() - 1));
        lemma_trim_end_prefix(s.drop_last(), k);
        assert(s.drop_last().subrange(0, k) =~= s.subrange(0, k));
    } else {
        assert(s.subrange(0, k) =~= s);
    }
}

/// Append `s` without its trailing white space to `out`.
pub(crate) fn push_trimmed_end(out: &mut String, s: &str)
    ensures
        final(out)@ == old(out)@ + trim_end(s@),
{
    let n = s.unicode_len();
    let mut k = n;
    while k > 0 && white_space(s.get_char(k - 1))
        invariant
            k <= n == s@.len(),
            forall|i: int| k <= i < s@.len() ==> is_white_space(s@[i]),
        decreases k,
    {
        k -= 1;
    }
    proof {
        lemma_trim_end_prefix(s@, k as int);
        let t = s@.subrange(0, k as int);
        assert(t.len() == 0 || !is_white_space(t.last()));
    }
    out.append(s.substring_char(0, k));
}

} // verus!
