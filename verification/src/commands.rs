//! Decisions of the command-line tools: how an extracted file is named,
//! which dirents a name pattern selects, how the compression byte is
//! described, and the sample block the benchmark decompresses.

use vstd::prelude::*;

use crate::fastlz::{spec_decompress, MAX_BLOCK_DECOMPRESSED};
use crate::ghostold::stream::WalkedEntry;
use crate::safety::{
    contains_parent_traversal, fallback_name, has_parent_component, is_safe_name, lemma_fallback_name_is_safe, lemma_sanitized_name_is_safe, sanitize_8_3,
    spec_fallback_name, spec_sanitize_8_3,
};

verus! {

/// The output file name of a dirent: its sanitized 8.3 name, or a name
/// made from the dirent's offset when nothing of the name is usable.
pub open spec fn spec_output_name(entry: WalkedEntry) -> Seq<char> {
    match spec_sanitize_8_3(entry.dirent.name@, entry.dirent.ext@) {
        Some(s) => s,
        None => spec_fallback_name(entry.dirent_offset),
    }
}

/// The output file name of a dirent; it is always a safe name.
pub fn output_name(entry: &WalkedEntry) -> (s: String)
    ensures
        s@ == spec_output_name(*entry),
        is_safe_name(s@),
{
    proof {
        lemma_sanitized_name_is_safe(entry.dirent.name@, entry.dirent.ext@);
        lemma_fallback_name_is_safe(entry.dirent_offset);
    }
    match sanitize_8_3(&entry.dirent.name, &entry.dirent.ext) {
        Some(n) => n,
        None => fallback_name(entry.dirent_offset),
    }
}

/// `needle` occurs in `hay` at position `i`.
pub open spec fn occurs_at(hay: Seq<char>, needle: Seq<char>, i: int) -> bool {
    0 <= i && i + needle.len() <= hay.len() && hay.subrange(i, i + needle.len()) == needle
}

/// `needle` occurs somewhere in `hay`.
pub open spec fn contains_text_spec(hay: Seq<char>, needle: Seq<char>) -> bool {
    exists|i: int| #[trigger] occurs_at(hay, needle, i)
}

/// True when `needle` occurs in `hay` (always for an empty `needle`).
pub fn contains_text(hay: &str, needle: &str) -> (r: bool)
    ensures
        r == contains_text_spec(hay@, needle@),
{
    let n = hay.unicode_len();
    let m = needle.unicode_len();
    if m > n {
        assert forall|i: int| !#[trigger] occurs_at(hay@, needle@, i) by {}
        return false;
    }
    let mut i: usize = 0;
    while i <= n - m
        invariant
            n == hay@.len(),
            m == needle@.len(),
            m <= n,
            i <= n - m + 1,
            forall|k: int| 0 <= k < i ==> !#[trigger] occurs_at(hay@, needle@, k),
        decreases n - m + 1 - i,
    {
        let mut j: usize = 0;
        while j < m && hay.get_char(i + j) == needle.get_char(j)
            invariant
                i + m <= n == hay@.len(),
                m == needle@.len(),
                j <= m,
                forall|t: int| 0 <= t < j ==> hay@[i + t] == needle@[t],
            decreases m - j,
        {
            j += 1;
        }
        if j == m {
            assert(hay@.subrange(i as int, i + m) =~= needle@);
            assert(occurs_at(hay@, needle@, i as int));
            return true;
        }
        assert(!occurs_at(hay@, needle@, i as int)) by {
            if occurs_at(hay@, needle@, i as int) {
                assert(hay@.subrange(i as int, i + m)[j as int] == needle@[j as int]);
            }
        }
        i += 1;
    }
    assert forall|k: int| !#[trigger] occurs_at(hay@, needle@, k) by {
        if 0 <= k && k + m <= n {
            assert(k < i);
        }
    }
    false
}

/// The upper-case form of `s`, by `str::to_uppercase`.
pub uninterp spec fn upper_case(s: Seq<char>) -> Seq<char>;

/// `str::to_uppercase`: the Unicode upper-case mapping of `s`, a function of
/// `s` alone, named `upper_case`.
#[verifier::external_body]
fn to_upper(s: &str) -> (r: String)
    ensures
        r@ == upper_case(s@),
{
    s.to_uppercase()
}

/// A dirent name is selected by a pattern when the pattern occurs in it,
/// both taken in upper case.
pub fn name_matches(name: &str, pattern: &str) -> (r: bool)
    ensures
        r == contains_text_spec(upper_case(name@), upper_case(pattern@)),
{
    let n = to_upper(name);
    let p = to_upper(pattern);
    contains_text(n.as_str(), p.as_str())
}

/// What the extract command does with one dirent.
#[derive(Debug, Clone, Copy, PartialEq, Eq, Structural)]
pub enum EntryAction {
    /// The name pattern does not select the dirent: it is skipped.
    SkipByPattern,
    /// The output path leaves the output directory: the command stops.
    Refuse,
    /// The output file exists and must not be overwritten: it is skipped.
    SkipExisting,
    /// The file is extracted.
    Extract,
}

/// The action for a dirent named `name`, written to `out_path`: a dirent
/// that `pattern` does not select is skipped; an output path with a `..`
/// component is refused; an existing file is skipped under `no_clobber`;
/// anything else is extracted.
pub open spec fn spec_entry_action(
    name: Seq<char>,
    pattern: Option<Seq<char>>,
    out_path: Seq<char>,
    no_clobber: bool,
    exists: bool,
) -> EntryAction {
    if pattern is Some && !contains_text_spec(upper_case(name), upper_case(pattern->0)) {
        EntryAction::SkipByPattern
    } else if has_parent_component(out_path) {
        EntryAction::Refuse
    } else if no_clobber && exists {
        EntryAction::SkipExisting
    } else {
        EntryAction::Extract
    }
}

/// The view of an optional pattern.
pub open spec fn pattern_view(pattern: Option<&str>) -> Option<Seq<char>> {
    match pattern {
        Some(p) => Some(p@),
        None => None,
    }
}

/// Decide what the extract command does with the dirent named `name`, whose
/// output path is `out_path` (`exists` tells whether a file is there).
pub fn entry_action(name: &str, pattern: Option<&str>, out_path: &str, no_clobber: bool, exists: bool) -> (a: EntryAction)
    ensures
        a == spec_entry_action(name@, pattern_view(pattern), out_path@, no_clobber, exists),
{
    if let Some(p) = pattern {
        if !name_matches(name, p) {
            return EntryAction::SkipByPattern;
        }
    }
    if contains_parent_traversal(out_path) {
        return EntryAction::Refuse;
    }
    if no_clobber && exists {
        return EntryAction::SkipExisting;
    }
    EntryAction::Extract
}

/// How the benchmark describes a compression byte.
pub open spec fn spec_compression_name(c: u8) -> Seq<char> {
    if c == 0 {
        "none"@
    } else if c == 2 {
        "fastlz"@
    } else if 3 <= c <= 9 {
        "zlib"@
    } else {
        "unknown"@
    }
}

/// `none`, `fastlz`, `zlib` or `unknown`.
pub fn compression_name(c: u8) -> (s: &'static str)
    ensures
        s@ == spec_compression_name(c),
{
    if c == 0 {
        "none"
    } else if c == 2 {
        "fastlz"
    } else if 3 <= c && c <= 9 {
        "zlib"
    } else {
        "unknown"
    }
}

/// `chunk` framed as an uncompressed FastLZ block: the escape byte 1, the
/// length in three little-endian bytes, then the bytes.
pub open spec fn spec_escape_sample(chunk: Seq<u8>) -> Seq<u8> {
    let n = chunk.len();
    seq![1u8, (n % 256) as u8, ((n / 256) % 256) as u8, ((n / 65536) % 256) as u8] + chunk
}

/// Frame `chunk` as an uncompressed FastLZ block.
pub fn escape_sample(chunk: &[u8]) -> (r: Vec<u8>)
    requires
        chunk@.len() <= MAX_BLOCK_DECOMPRESSED,
    ensures
        r@ == spec_escape_sample(chunk@),
{
    let n = chunk.len();
    let mut out: Vec<u8> = Vec::new();
    out.push(1u8);
    out.push((n % 256) as u8);
    out.push(((n / 256) % 256) as u8);
    out.push(((n / 65536) % 256) as u8);
    let mut i: usize = 0;
    while i < n
        invariant
            n == chunk@.len(),
            i <= n,
            out@ == spec_escape_sample(chunk@).subrange(0, 4 + i),
        decreases n - i,
    {
        out.push(chunk[i]);
        i += 1;
        assert(out@ =~= spec_escape_sample(chunk@).subrange(0, 4 + i));
    }
    assert(out@ =~= spec_escape_sample(chunk@));
    out
}

/// A block framed by `escape_sample` decompresses to the bytes it frames.
pub proof fn lemma_escape_sample_round_trip(chunk: Seq<u8>)
    requires
        chunk.len() <= MAX_BLOCK_DECOMPRESSED,
    ensures
        spec_decompress(spec_escape_sample(chunk), chunk.len() as int + 4) == Some(chunk),
{
    let s = spec_escape_sample(chunk);
    assert(s.subrange(4, chunk.len() as int + 4) =~= chunk);
}

} // verus!
