//! Spanned (multi-volume) images.
//!
//! Each physical `.gho`/`.ghs` file starts with a 512-byte file header. The
//! logical stream of a spanned image keeps the first file whole (parsers
//! expect its header at offset 0) and drops the 512-byte header at the
//! start of every continuation file.

use vstd::prelude::*;

use crate::ghost11::header::{looks_like_at, spec_looks_like_at};

verus! {

/// Size of the header stripped from each continuation span.
pub const SPAN_HEADER_SIZE: usize = 512;

/// Report whether `data` starts with a valid Norton Ghost file header:
/// at least 512 bytes, `FEEF` magic and file type 1 or 9.
pub fn looks_like_header(data: &[u8]) -> (r: bool)
    ensures
        r == spec_looks_like_at(data@, 0),
{
    looks_like_at(data, 0)
}

/// The part of span `i` that goes into the logical stream: the whole first
/// span, and every later span without its first 512 bytes.
pub open spec fn span_contribution(span: Seq<u8>, i: int) -> Seq<u8> {
    if i == 0 {
        span
    } else if span.len() <= SPAN_HEADER_SIZE {
        Seq::empty()
    } else {
        span.subrange(SPAN_HEADER_SIZE as int, span.len() as int)
    }
}

/// The logical stream of the first `k` spans.
pub open spec fn spec_concat(spans: Seq<Seq<u8>>, k: int) -> Seq<u8>
    decreases k,
{
    if k <= 0 {
        Seq::empty()
    } else {
        spec_concat(spans, k - 1) + span_contribution(spans[k - 1], k - 1)
    }
}

/// The contents of the spans, as byte sequences.
pub open spec fn spans_view(spans: Seq<Vec<u8>>) -> Seq<Seq<u8>> {
    spans.map_values(|v: Vec<u8>| v@)
}

/// Concatenate the contents of the span files of one image into its
/// logical stream: the first span whole, later spans without their
/// 512-byte header.
pub fn concatenate_spans(spans: &Vec<Vec<u8>>) -> (out: Vec<u8>)
    ensures
        out@ == spec_concat(spans_view(spans@), spans@.len() as int),
{
    let mut out: Vec<u8> = Vec::new();
    let mut i: usize = 0;
    while i < spans.len()
        invariant
            i <= spans@.len(),
            out@ == spec_concat(spans_view(spans@), i as int),
        decreases spans@.len() - i,
    {
        let span = &spans[i];
        let start: usize = if i == 0 {
            0
        } else if span.len() <= SPAN_HEADER_SIZE {
            span.len()
        } else {
            SPAN_HEADER_SIZE
        };
        let ghost before = out@;
        let mut j = start;
        while j < span.len()
            invariant
                start <= j <= span@.len(),
                out@ == before + span@.subrange(start as int, j as int),
            decreases span@.len() - j,
        {
            out.push(span[j]);
            j += 1;
            assert(out@ =~= before + span@.subrange(start as int, j as int));
        }
        proof {
            assert(spans_view(spans@)[i as int] == span@);
            assert(span@.subrange(0, span@.len() as int) =~= span@);
            assert(span@.subrange(span@.len() as int, span@.len() as int) =~= Seq::<u8>::empty());
            assert(out@ =~= spec_concat(spans_view(spans@), i as int + 1));
        }
        i += 1;
    }
    out
}

/// The logical stream starts with the whole first span, so the first
/// span's header stays at offset 0; every later span adds its bytes past
/// the header.
pub proof fn lemma_concat_keeps_first_span(spans: Seq<Seq<u8>>, k: int)
    requires
        1 <= k <= spans.len(),
    ensures
        spec_concat(spans, k).len() >= spans[0].len(),
        spec_concat(spans, k).subrange(0, spans[0].len() as int) == spans[0],
        k == 1 ==> spec_concat(spans, k) == spans[0],
        k >= 2 ==> spec_concat(spans, k) == spec_concat(spans, k - 1) + (if spans[k - 1].len() <= SPAN_HEADER_SIZE {
            Seq::<u8>::empty()
        } else {
            spans[k - 1].subrange(SPAN_HEADER_SIZE as int, spans[k - 1].len() as int)
        }),
    decreases k,
{
    if k == 1 {
        assert(spec_concat(spans, 0) =~= Seq::<u8>::empty());
        assert(spec_concat(spans, 1) =~= spans[0]);
        assert(spans[0].subrange(0, spans[0].len() as int) =~= spans[0]);
    } else {
        lemma_concat_keeps_first_span(spans, k - 1);
        let prev = spec_concat(spans, k - 1);
        let cur = spec_concat(spans, k);
        assert(cur.subrange(0, spans[0].len() as int) =~= prev.subrange(0, spans[0].len() as int));
    }
}

} // verus!
