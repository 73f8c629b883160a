//! Path safety for output file naming.
//!
//! Dirent names of pre-11.x images come from untrusted input. Output names
//! are built from the 8.3 fields only, with every byte outside printable
//! ASCII and every path separator replaced, and a leading dot neutralised;
//! a name that cannot be made safe falls back to `file_<offset>.bin`.

use vstd::prelude::*;

use crate::text::{hex_padded, push_hex};

verus! {

/// Maximum length of a sanitized 8.3 name component.
pub const MAX_SANITIZED_NAME_LEN: usize = 32;

/// True for a byte kept as is in an output name: printable ASCII other than
/// `/`, `\`, `:` and `*`.
pub open spec fn is_safe_byte(b: u8) -> bool {
    0x20 <= b < 0x7F && b != 0x2F && b != 0x5C && b != 0x3A && b != 0x2A
}

/// The character a name byte becomes: itself when safe, `_` otherwise.
pub open spec fn safe_char(b: u8) -> char {
    if is_safe_byte(b) {
        b as char
    } else {
        '_'
    }
}

/// A sanitized component: every byte mapped by [`safe_char`], a leading `.`
/// replaced by `_`, cut to [`MAX_SANITIZED_NAME_LEN`] characters; `None` for
/// no bytes.
pub open spec fn spec_sanitize_component(bytes: Seq<u8>) -> Option<Seq<char>> {
    if bytes.len() == 0 {
        None
    } else {
        let mapped = Seq::new(bytes.len(), |i: int| safe_char(bytes[i]));
        let fixed = if mapped[0] == '.' { mapped.update(0, '_') } else { mapped };
        Some(if fixed.len() > MAX_SANITIZED_NAME_LEN { fixed.subrange(0, MAX_SANITIZED_NAME_LEN as int) } else { fixed })
    }
}

/// `s` without its trailing spaces.
pub open spec fn trim_spaces(s: Seq<char>) -> Seq<char>
    decreases s.len(),
{
    if s.len() > 0 && s.last() == ' ' {
        trim_spaces(s.drop_last())
    } else {
        s
    }
}

/// True for an ASCII letter or digit.
pub open spec fn is_alnum(c: char) -> bool {
    ('0' <= c <= '9') || ('A' <= c <= 'Z') || ('a' <= c <= 'z')
}

/// The safe output name of the 8.3 pair: both parts sanitized and stripped
/// of trailing spaces; `None` when the name part has no ASCII letter or
/// digit; `NAME.EXT`, or `NAME` when the extension is empty.
pub open spec fn spec_sanitize_8_3(name: Seq<u8>, ext: Seq<u8>) -> Option<Seq<char>> {
    match (spec_sanitize_component(name), spec_sanitize_component(ext)) {
        (Some(n0), Some(e0)) => {
            let n = trim_spaces(n0);
            let e = trim_spaces(e0);
            if !(exists|i: int| 0 <= i < n.len() && is_alnum(#[trigger] n[i])) {
                None
            } else if e.len() == 0 {
                Some(n)
            } else {
                Some(n + seq!['.'] + e)
            }
        },
        _ => None,
    }
}

/// Sanitize one component of a name.
fn sanitize_component(bytes: &[u8]) -> (r: Option<Vec<char>>)
    ensures
        match spec_sanitize_component(bytes@) {
            Some(s) => r matches Some(v) && v@ == s,
            None => r is None,
        },
{
    if bytes.len() == 0 {
        return None;
    }
    let mut out: Vec<char> = Vec::new();
    let mut i: usize = 0;
    while i < bytes.len()
        invariant
            i <= bytes@.len(),
            out@ =~= Seq::new(i as nat, |k: int| safe_char(bytes@[k])),
        decreases bytes@.len() - i,
    {
        let b = bytes[i];
        let c = if 0x20 <= b && b < 0x7F && b != 0x2F && b != 0x5C && b != 0x3A && b != 0x2A {
            b as char
        } else {
            '_'
        };
        out.push(c);
        i += 1;
    }
    if out[0] == '.' {
        out.set(0, '_');
    }
    if out.len() > MAX_SANITIZED_NAME_LEN {
        out.truncate(MAX_SANITIZED_NAME_LEN);
    }
    Some(out)
}

/// Drop trailing spaces from `v`.
fn trim_trailing_spaces(v: &mut Vec<char>)
    ensures
        final(v)@ == trim_spaces(old(v)@),
{
    while v.len() > 0 && v[v.len() - 1] == ' '
        invariant
            trim_spaces(v@) == trim_spaces(old(v)@),
        decreases v@.len(),
    {
        let ghost before = v@;
        v.pop();
        assert(v@ =~= before.drop_last());
    }
}

/// Build a `String` from characters.
fn chars_to_string(chars: &Vec<char>) -> (s: String)
    ensures
        s@ == chars@,
{
    let mut s = String::new();
    let mut i: usize = 0;
    while i < chars.len()
        invariant
            i <= chars@.len(),
            s@ =~= chars@.subrange(0, i as int),
        decreases chars@.len() - i,
    {
        s.push(chars[i]);
        i += 1;
    }
    s
}

/// Sanitize a 8.3 (name, ext) pair into a filesystem-safe relative name.
///
/// Returns `None` when the name part has no ASCII letter or digit (the
/// caller then uses [`fallback_name`]).
pub fn sanitize_8_3(name: &[u8; 8], ext: &[u8; 3]) -> (r: Option<String>)
    ensures
        match spec_sanitize_8_3(name@, ext@) {
            Some(s) => r matches Some(v) && v@ == s,
            None => r is None,
        },
{
    let mut n = match sanitize_component(name.as_slice()) {
        Some(v) => v,
        None => return None,
    };
    let mut e = match sanitize_component(ext.as_slice()) {
        Some(v) => v,
        None => return None,
    };
    trim_trailing_spaces(&mut n);
    trim_trailing_spaces(&mut e);
    let mut any_alnum = false;
    let mut i: usize = 0;
    while i < n.len()
        invariant
            i <= n@.len(),
            any_alnum <==> exists|k: int| 0 <= k < i && is_alnum(#[trigger] n@[k]),
        decreases n@.len() - i,
    {
        let c = n[i];
        if ('0' <= c && c <= '9') || ('A' <= c && c <= 'Z') || ('a' <= c && c <= 'z') {
            any_alnum = true;
        }
        i += 1;
    }
    if !any_alnum {
        return None;
    }
    let mut out = chars_to_string(&n);
    if e.len() > 0 {
        out.push('.');
        let mut j: usize = 0;
        let ghost base = out@;
        while j < e.len()
            invariant
                j <= e@.len(),
                out@ =~= base + e@.subrange(0, j as int),
            decreases e@.len() - j,
        {
            out.push(e[j]);
            j += 1;
        }
        assert(e@.subrange(0, e@.len() as int) =~= e@);
    }
    Some(out)
}

/// The fallback name of a dirent at `dirent_offset`: `file_` followed by the
/// offset in lowercase hex, at least 8 digits, then `.bin`.
pub open spec fn spec_fallback_name(dirent_offset: u64) -> Seq<char> {
    seq!['f', 'i', 'l', 'e', '_'] + hex_padded(dirent_offset as nat, 8) + seq!['.', 'b', 'i', 'n']
}

/// Build a synthetic fallback name for a dirent whose 8.3 name is unusable.
pub fn fallback_name(dirent_offset: u64) -> (s: String)
    ensures
        s@ == spec_fallback_name(dirent_offset),
{
    let mut s = String::new();
    s.push('f');
    s.push('i');
    s.push('l');
    s.push('e');
    s.push('_');
    push_hex(&mut s, dirent_offset, 8);
    s.push('.');
    s.push('b');
    s.push('i');
    s.push('n');
    assert(s@ =~= spec_fallback_name(dirent_offset));
    s
}

/// True when `path` has a `..` component: two dots delimited by the start or
/// end of the path or by `/`.
pub open spec fn has_parent_component(path: Seq<char>) -> bool {
    exists|i: int| #[trigger] is_parent_component_at(path, i)
}

/// The component starting at `i` is `..`.
pub open spec fn is_parent_component_at(path: Seq<char>, i: int) -> bool {
    &&& 0 <= i
    &&& i + 2 <= path.len()
    &&& path[i] == '.'
    &&& path[i + 1] == '.'
    &&& (i == 0 || path[i - 1] == '/')
    &&& (i + 2 == path.len() || path[i + 2] == '/')
}

/// Test whether `path` contains `..` components that could escape its
/// parent. Absolute paths are not flagged: the caller resolves them against
/// a trusted base. Components are separated by `/`.
pub fn contains_parent_traversal(path: &str) -> (r: bool)
    ensures
        r == has_parent_component(path@),
{
    let n = path.unicode_len();
    let mut i: usize = 0;
    while n >= 2 && i <= n - 2
        invariant
            n == path@.len(),
            i <= n,
            forall|k: int| 0 <= k < i ==> !is_parent_component_at(path@, k),
        decreases n - i,
    {
        if path.get_char(i) == '.' && path.get_char(i + 1) == '.' && (i == 0 || path.get_char(i - 1) == '/')
            && (i + 2 == n || path.get_char(i + 2) == '/') {
            assert(is_parent_component_at(path@, i as int));
            return true;
        }
        i += 1;
    }
    assert forall|k: int| !is_parent_component_at(path@, k) by {
        if 0 <= k < i {
        }
    }
    false
}

/// A character allowed in an output name: printable ASCII other than `/`,
/// `\`, `:` and `*`.
pub open spec fn is_safe_name_char(c: char) -> bool {
    0x20 <= (c as int) < 0x7f && c != '/' && c != '\\' && c != ':' && c != '*'
}

/// A safe output name: not empty, not starting with `.`, and made of safe
/// characters only.
pub open spec fn is_safe_name(s: Seq<char>) -> bool {
    &&& s.len() > 0
    &&& s[0] != '.'
    &&& forall|i: int| 0 <= i < s.len() ==> is_safe_name_char(#[trigger] s[i])
}

/// A safe name has no `..` component, so it cannot leave the directory it
/// is written to.
pub proof fn lemma_safe_name_stays_inside(s: Seq<char>)
    requires
        is_safe_name(s),
    ensures
        !has_parent_component(s),
{
    assert forall|i: int| !#[trigger] is_parent_component_at(s, i) by {
        if is_parent_component_at(s, i) {
            if i > 0 {
                assert(is_safe_name_char(s[i - 1]));
            }
        }
    }
}

/// Trimming trailing spaces keeps a prefix.
proof fn lemma_trim_spaces_prefix(s: Seq<char>)
    ensures
        trim_spaces(s).len() <= s.len(),
        trim_spaces(s) =~= s.subrange(0, trim_spaces(s).len() as int),
    decreases s.len(),
{
    if s.len() > 0 && s.last() == ' ' {
        lemma_trim_spaces_prefix(s.drop_last());
    }
}

/// Every character of a sanitized component is safe, and it does not
/// start with `.`.
proof fn lemma_component_safe(bytes: Seq<u8>)
    ensures
        spec_sanitize_component(bytes) matches Some(c) ==> {
            &&& c.len() > 0
            &&& c[0] != '.'
            &&& forall|i: int| 0 <= i < c.len() ==> is_safe_name_char(#[trigger] c[i])
        },
{
    if bytes.len() > 0 {
        let mapped = Seq::new(bytes.len(), |i: int| safe_char(bytes[i]));
        assert forall|i: int| 0 <= i < mapped.len() implies is_safe_name_char(#[trigger] mapped[i]) by {
            let b = bytes[i];
            if is_safe_byte(b) {
                assert(mapped[i] == b as char);
            }
        }
    }
}

/// A sanitized 8.3 name is a safe name.
pub proof fn lemma_sanitized_name_is_safe(name: Seq<u8>, ext: Seq<u8>)
    ensures
        spec_sanitize_8_3(name, ext) matches Some(s) ==> is_safe_name(s),
{
    lemma_component_safe(name);
    lemma_component_safe(ext);
    match (spec_sanitize_component(name), spec_sanitize_component(ext)) {
        (Some(n0), Some(e0)) => {
            let n = trim_spaces(n0);
            let e = trim_spaces(e0);
            lemma_trim_spaces_prefix(n0);
            lemma_trim_spaces_prefix(e0);
            if exists|i: int| 0 <= i < n.len() && is_alnum(#[trigger] n[i]) {
                assert(n.len() > 0);
                assert(n[0] == n0[0]);
                assert forall|i: int| 0 <= i < n.len() implies is_safe_name_char(#[trigger] n[i]) by {
                    assert(n[i] == n0[i]);
                }
                assert forall|i: int| 0 <= i < e.len() implies is_safe_name_char(#[trigger] e[i]) by {
                    assert(e[i] == e0[i]);
                }
                let s = n + seq!['.'] + e;
                assert forall|i: int| 0 <= i < s.len() implies is_safe_name_char(#[trigger] s[i]) by {
                    if i < n.len() {
                        assert(s[i] == n[i]);
                    } else if i > n.len() {
                        assert(s[i] == e[i - n.len() - 1]);
                    }
                }
            }
        },
        _ => {},
    }
}

/// The hex digits of `hex_padded` are letters or digits.
proof fn lemma_hex_padded_alnum(v: nat, min: nat)
    ensures
        forall|i: int| 0 <= i < hex_padded(v, min).len() ==> is_alnum(#[trigger] hex_padded(v, min)[i]),
    decreases v, min,
{
    if !(v == 0 && min == 0) {
        let next = if min > 0 { (min - 1) as nat } else { 0 };
        lemma_hex_padded_alnum(v / 16, next);
        let d = (v % 16) as int;
        assert(is_alnum(crate::text::hex_char(d)));
        let prev = hex_padded(v / 16, next);
        assert(hex_padded(v, min) == prev.push(crate::text::hex_char(d)));
        assert forall|i: int| 0 <= i < hex_padded(v, min).len() implies is_alnum(#[trigger] hex_padded(v, min)[i]) by {
            if i < prev.len() {
                assert(hex_padded(v, min)[i] == prev[i]);
            }
        }
    }
}

/// A fallback name is a safe name.
pub proof fn lemma_fallback_name_is_safe(dirent_offset: u64)
    ensures
        is_safe_name(spec_fallback_name(dirent_offset)),
{
    let h = hex_padded(dirent_offset as nat, 8);
    lemma_hex_padded_alnum(dirent_offset as nat, 8);
    let s = spec_fallback_name(dirent_offset);
    assert forall|i: int| 0 <= i < s.len() implies is_safe_name_char(#[trigger] s[i]) by {
        if 5 <= i < 5 + h.len() {
            assert(s[i] == h[i - 5]);
            assert(is_alnum(h[i - 5]));
        }
    }
}

} // verus!
