//! Snapshot diff: what changed between the entries of an old and a new
//! image.
//!
//! - `+` added: the path is only in the new image
//! - `-` removed: the path is only in the old image
//! - `~` modified: the path is in both, with a different size or fingerprint
//! - `=` unchanged: the path is in both, with the same size and fingerprint
//!
//! Each image contributes a list of `(path, size, fingerprint)` entries; when
//! a path occurs more than once in one list, its last occurrence counts. The
//! nodes come out most-changed first (added and removed, then modified, then
//! unchanged) and by path within a rank.

use vstd::prelude::*;
use vstd::utf8::{decode_utf8, valid_utf8};

use crate::error::{fails_with, is_fault, Result};
use crate::ghost11::stream::{extract, payload_matches, payloads_match, spec_extract, ExtractResult};
use crate::ghostold::dirent::spec_display_name;
use crate::ghostold::stream::{spec_walk, spec_walk_fault, walk_dirents, WalkedEntry};
use crate::text::{decimal, push_decimal, push_trimmed_end, trim_end, utf8_str};
use crate::tui::time::now;

verus! {

/// What changed between OLD and NEW for one entry.
#[derive(Debug, Clone, Copy, PartialEq, Eq, Structural)]
pub enum ChangeKind {
    Added,
    Removed,
    Modified,
    Unchanged,
}

/// The one-character marker of a change kind.
pub open spec fn spec_marker(k: ChangeKind) -> Seq<char> {
    match k {
        ChangeKind::Added => "+"@,
        ChangeKind::Removed => "-"@,
        ChangeKind::Modified => "~"@,
        ChangeKind::Unchanged => "="@,
    }
}

/// The word for a change kind.
pub open spec fn spec_label(k: ChangeKind) -> Seq<char> {
    match k {
        ChangeKind::Added => "added"@,
        ChangeKind::Removed => "removed"@,
        ChangeKind::Modified => "modified"@,
        ChangeKind::Unchanged => "unchanged"@,
    }
}

impl ChangeKind {
    /// `+`, `-`, `~` or `=`.
    pub fn marker(self) -> (s: &'static str)
        ensures
            s@ == spec_marker(self),
    {
        match self {
            ChangeKind::Added => "+",
            ChangeKind::Removed => "-",
            ChangeKind::Modified => "~",
            ChangeKind::Unchanged => "=",
        }
    }

    /// `added`, `removed`, `modified` or `unchanged`.
    pub fn label(self) -> (s: &'static str)
        ensures
            s@ == spec_label(self),
    {
        match self {
            ChangeKind::Added => "added",
            ChangeKind::Removed => "removed",
            ChangeKind::Modified => "modified",
            ChangeKind::Unchanged => "unchanged",
        }
    }
}

/// `a` sorts strictly before `b`: the first differing character is smaller
/// in `a`, or `a` is a proper prefix of `b`. On UTF-8 text this is the byte
/// order of `String`.
pub open spec fn str_lt(a: Seq<char>, b: Seq<char>) -> bool
    decreases a.len(),
{
    if a.len() == 0 {
        b.len() > 0
    } else if b.len() == 0 {
        false
    } else if a[0] != b[0] {
        (a[0] as int) < (b[0] as int)
    } else {
        str_lt(a.drop_first(), b.drop_first())
    }
}

/// No text sorts before itself.
pub proof fn lemma_str_lt_irreflexive(a: Seq<char>)
    ensures
        !str_lt(a, a),
    decreases a.len(),
{
    if a.len() > 0 {
        lemma_str_lt_irreflexive(a.drop_first());
    }
}

/// Of two different texts, one sorts before the other, and not both ways.
pub proof fn lemma_str_lt_total(a: Seq<char>, b: Seq<char>)
    ensures
        a != b ==> (str_lt(a, b) || str_lt(b, a)),
        !(str_lt(a, b) && str_lt(b, a)),
    decreases a.len(),
{
    if a.len() > 0 && b.len() > 0 {
        if a[0] == b[0] {
            lemma_str_lt_total(a.drop_first(), b.drop_first());
            if a != b {
                assert(a =~= seq![a[0]] + a.drop_first());
                assert(b =~= seq![b[0]] + b.drop_first());
            }
        } else {
            assert((a[0] as int) != (b[0] as int));
        }
    } else if a.len() == 0 && b.len() == 0 {
        assert(a =~= b);
    }
}

/// The order of texts is transitive.
pub proof fn lemma_str_lt_transitive(a: Seq<char>, b: Seq<char>, c: Seq<char>)
    requires
        str_lt(a, b),
        str_lt(b, c),
    ensures
        str_lt(a, c),
    decreases a.len(),
{
    if a.len() > 0 && b.len() > 0 && c.len() > 0 && a[0] == b[0] && b[0] == c[0] {
        lemma_str_lt_transitive(a.drop_first(), b.drop_first(), c.drop_first());
    }
}

/// Compare two texts with `str_lt`.
fn str_less(a: &str, b: &str) -> (r: bool)
    ensures
        r == str_lt(a@, b@),
{
    let na = a.unicode_len();
    let nb = b.unicode_len();
    let mut i: usize = 0;
    assert(a@.skip(0) =~= a@);
    assert(b@.skip(0) =~= b@);
    while i < na && i < nb
        invariant
            na == a@.len(),
            nb == b@.len(),
            i <= na,
            i <= nb,
            str_lt(a@, b@) == str_lt(a@.skip(i as int), b@.skip(i as int)),
        decreases na - i,
    {
        let ca = a.get_char(i);
        let cb = b.get_char(i);
        proof {
            assert(a@.skip(i as int)[0] == ca);
            assert(b@.skip(i as int)[0] == cb);
            assert(a@.skip(i as int).drop_first() =~= a@.skip(i + 1));
            assert(b@.skip(i as int).drop_first() =~= b@.skip(i + 1));
        }
        if ca != cb {
            return (ca as u32) < (cb as u32);
        }
        i += 1;
    }
    i == na && i < nb
}

/// One entry of an image: path, size and (when known) fingerprint.
pub type DiffEntry = (String, u64, Option<u64>);

/// Size and fingerprint of the last entry for path `p` in `es`.
pub open spec fn last_entry(es: Seq<DiffEntry>, p: Seq<char>) -> Option<(u64, Option<u64>)>
    decreases es.len(),
{
    if es.len() == 0 {
        None
    } else if es.last().0@ == p {
        Some((es.last().1, es.last().2))
    } else {
        last_entry(es.drop_last(), p)
    }
}

/// The change for a path whose last old entry is `o` and last new entry `n`.
pub open spec fn classify(o: Option<(u64, Option<u64>)>, n: Option<(u64, Option<u64>)>) -> ChangeKind {
    match (o, n) {
        (Some(a), Some(b)) => if a == b { ChangeKind::Unchanged } else { ChangeKind::Modified },
        (Some(_), None) => ChangeKind::Removed,
        _ => ChangeKind::Added,
    }
}

/// The sort rank of a change: added and removed first, then modified, then
/// unchanged.
pub open spec fn rank(k: ChangeKind) -> int {
    match k {
        ChangeKind::Added => 0,
        ChangeKind::Removed => 0,
        ChangeKind::Modified => 1,
        ChangeKind::Unchanged => 2,
    }
}

/// One node of the diff. Paths are relative to the image root and use
/// forward slashes.
#[derive(Debug, Clone)]
pub struct DiffNode {
    pub path: String,
    pub kind: ChangeKind,
    pub old_size: Option<u64>,
    pub new_size: Option<u64>,
    pub old_fp: Option<u64>,
    pub new_fp: Option<u64>,
}

/// Node `x` sorts before node `y`: lower rank, or the same rank and a
/// smaller path.
pub open spec fn node_before(x: DiffNode, y: DiffNode) -> bool {
    rank(x.kind) < rank(y.kind) || (rank(x.kind) == rank(y.kind) && str_lt(x.path@, y.path@))
}

/// The size in an optional entry.
pub open spec fn entry_size(e: Option<(u64, Option<u64>)>) -> Option<u64> {
    match e {
        Some(x) => Some(x.0),
        None => None,
    }
}

/// The fingerprint in an optional entry.
pub open spec fn entry_fp(e: Option<(u64, Option<u64>)>) -> Option<u64> {
    match e {
        Some(x) => x.1,
        None => None,
    }
}

/// `n` is the node for its path: the path occurs in one of the lists, and
/// its change, sizes and fingerprints come from the last entries for it.
pub open spec fn node_of(n: DiffNode, old: Seq<DiffEntry>, new: Seq<DiffEntry>) -> bool {
    let o = last_entry(old, n.path@);
    let w = last_entry(new, n.path@);
    &&& (o is Some || w is Some)
    &&& n.kind == classify(o, w)
    &&& n.old_size == entry_size(o)
    &&& n.new_size == entry_size(w)
    &&& n.old_fp == entry_fp(o)
    &&& n.new_fp == entry_fp(w)
}

/// The number of nodes of kind `k` in `ns`.
pub open spec fn count_kind(ns: Seq<DiffNode>, k: ChangeKind) -> nat
    decreases ns.len(),
{
    if ns.len() == 0 {
        0
    } else {
        count_kind(ns.drop_last(), k) + if ns.last().kind == k { 1nat } else { 0nat }
    }
}

/// Per-kind numbers of nodes.
#[derive(Debug, Clone, Copy, PartialEq, Eq, Structural)]
pub struct Counts {
    pub added: usize,
    pub removed: usize,
    pub modified: usize,
    pub unchanged: usize,
}

impl Default for Counts {
    fn default() -> (c: Self)
        ensures
            c == (Counts { added: 0, removed: 0, modified: 0, unchanged: 0 }),
    {
        Counts { added: 0, removed: 0, modified: 0, unchanged: 0 }
    }
}

/// `c` holds the per-kind numbers of nodes of `ns`.
pub open spec fn counts_of(c: Counts, ns: Seq<DiffNode>) -> bool {
    &&& c.added == count_kind(ns, ChangeKind::Added)
    &&& c.removed == count_kind(ns, ChangeKind::Removed)
    &&& c.modified == count_kind(ns, ChangeKind::Modified)
    &&& c.unchanged == count_kind(ns, ChangeKind::Unchanged)
}

/// The nodes of the diff of `old` and `new`: strictly ordered by
/// `node_before`, each the node for its path, and one for every path that
/// occurs in either list.
pub open spec fn is_diff_of(ns: Seq<DiffNode>, old: Seq<DiffEntry>, new: Seq<DiffEntry>) -> bool {
    &&& forall|i: int, j: int| 0 <= i < j < ns.len() ==> node_before(#[trigger] ns[i], #[trigger] ns[j])
    &&& forall|i: int| 0 <= i < ns.len() ==> node_of(#[trigger] ns[i], old, new)
    &&& forall|p: Seq<char>| (#[trigger] last_entry(old, p) is Some || last_entry(new, p) is Some) ==>
        exists|i: int| 0 <= i < ns.len() && (#[trigger] ns[i]).path@ == p
}

/// The counts of a concatenation add up.
proof fn lemma_count_concat(a: Seq<DiffNode>, b: Seq<DiffNode>, k: ChangeKind)
    ensures
        count_kind(a + b, k) == count_kind(a, k) + count_kind(b, k),
    decreases b.len(),
{
    if b.len() == 0 {
        assert(a + b =~= a);
    } else {
        assert((a + b).drop_last() =~= a + b.drop_last());
        lemma_count_concat(a, b.drop_last(), k);
    }
}

/// Inserting a node adds one to the count of its kind.
proof fn lemma_count_insert(s: Seq<DiffNode>, pos: int, x: DiffNode, k: ChangeKind)
    requires
        0 <= pos <= s.len(),
    ensures
        count_kind(s.insert(pos, x), k) == count_kind(s, k) + if x.kind == k { 1nat } else { 0nat },
{
    let a = s.subrange(0, pos);
    let b = s.subrange(pos, s.len() as int);
    assert(s =~= a + b);
    assert(s.insert(pos, x) =~= (a + seq![x]) + b);
    lemma_count_concat(a, b, k);
    lemma_count_concat(a + seq![x], b, k);
    lemma_count_concat(a, seq![x], k);
    assert(seq![x].drop_last() =~= Seq::<DiffNode>::empty());
    assert(count_kind(seq![x], k) == count_kind(Seq::<DiffNode>::empty(), k) + if x.kind == k { 1nat } else { 0nat });
}

/// A count is at most the number of nodes.
proof fn lemma_count_le(s: Seq<DiffNode>, k: ChangeKind)
    ensures
        count_kind(s, k) <= s.len(),
    decreases s.len(),
{
    if s.len() > 0 {
        lemma_count_le(s.drop_last(), k);
    }
}

/// The last entry for `p` in `es`.
fn find_last(es: &[DiffEntry], p: &String) -> (r: Option<(u64, Option<u64>)>)
    ensures
        r == last_entry(es@, p@),
{
    let mut i: usize = es.len();
    assert(es@.subrange(0, i as int) =~= es@);
    while i > 0
        invariant
            i <= es@.len(),
            last_entry(es@, p@) == last_entry(es@.subrange(0, i as int), p@),
        decreases i,
    {
        let e = &es[i - 1];
        proof {
            assert(es@.subrange(0, i as int).drop_last() =~= es@.subrange(0, i - 1));
        }
        if e.0 == *p {
            return Some((e.1, e.2));
        }
        i -= 1;
    }
    None
}

/// Some string of `ps` is `p`.
pub open spec fn in_paths(ps: Seq<String>, p: Seq<char>) -> bool {
    exists|j: int| 0 <= j < ps.len() && (#[trigger] ps[j])@ == p
}

/// Some entry of `es` has path `p`.
pub open spec fn in_entries(es: Seq<DiffEntry>, p: Seq<char>) -> bool {
    exists|j: int| 0 <= j < es.len() && (#[trigger] es[j]).0@ == p
}

/// The strings of `ps` are pairwise different.
pub open spec fn distinct_paths(ps: Seq<String>) -> bool {
    forall|i: int, j: int| 0 <= i < j < ps.len() ==> (#[trigger] ps[i])@ != (#[trigger] ps[j])@
}

/// True when some string of `ps` equals `p`.
fn has_path(ps: &Vec<String>, p: &String) -> (r: bool)
    ensures
        r == in_paths(ps@, p@),
{
    let mut i: usize = 0;
    while i < ps.len()
        invariant
            i <= ps@.len(),
            forall|k: int| 0 <= k < i ==> (#[trigger] ps@[k])@ != p@,
        decreases ps@.len() - i,
    {
        if ps[i] == *p {
            return true;
        }
        i += 1;
    }
    false
}

/// Append to `ps` each path of `es` that it does not hold yet.
fn add_paths(ps: &mut Vec<String>, es: &[DiffEntry])
    requires
        distinct_paths(old(ps)@),
    ensures
        distinct_paths(final(ps)@),
        forall|i: int| 0 <= i < final(ps)@.len() ==>
            in_paths(old(ps)@, (#[trigger] final(ps)@[i])@) || in_entries(es@, final(ps)@[i]@),
        forall|p: Seq<char>| #[trigger] in_paths(final(ps)@, p) <==> (in_paths(old(ps)@, p) || in_entries(es@, p)),
{
    let ghost start = ps@;
    let mut k: usize = 0;
    assert forall|i: int| 0 <= i < ps@.len() implies in_paths(start, (#[trigger] ps@[i])@) by {
        assert(start[i]@ == ps@[i]@);
    }
    while k < es.len()
        invariant
            k <= es@.len(),
            start == old(ps)@,
            start.len() <= ps@.len(),
            forall|i: int| 0 <= i < start.len() ==> ps@[i] == start[i],
            distinct_paths(ps@),
            forall|i: int| 0 <= i < ps@.len() ==>
                in_paths(start, (#[trigger] ps@[i])@) || in_entries(es@, ps@[i]@),
            forall|j: int| 0 <= j < k ==> in_paths(ps@, (#[trigger] es@[j]).0@),
        decreases es@.len() - k,
    {
        let p = &es[k].0;
        if !has_path(ps, p) {
            let ghost before = ps@;
            ps.push(p.clone());
            proof {
                let last = ps@.len() - 1;
                assert(ps@[last]@ == es@[k as int].0@);
                assert(in_entries(es@, ps@[last]@));
                assert forall|i: int| 0 <= i < ps@.len() implies
                    in_paths(start, (#[trigger] ps@[i])@) || in_entries(es@, ps@[i]@) by {
                    if i < before.len() {
                        assert(ps@[i] == before[i]);
                    }
                }
                assert forall|j: int| 0 <= j < k + 1 implies in_paths(ps@, (#[trigger] es@[j]).0@) by {
                    if j < k {
                        assert(in_paths(before, es@[j].0@));
                        let i = choose|i: int| 0 <= i < before.len() && (#[trigger] before[i])@ == es@[j].0@;
                        assert(ps@[i] == before[i]);
                    } else {
                        assert(ps@[last]@ == es@[j].0@);
                    }
                }
            }
        }
        k += 1;
    }
    proof {
        assert forall|p: Seq<char>| #[trigger] in_paths(ps@, p) <==> (in_paths(start, p) || in_entries(es@, p)) by {
            if in_paths(ps@, p) {
                let i = choose|i: int| 0 <= i < ps@.len() && (#[trigger] ps@[i])@ == p;
                assert(in_paths(start, ps@[i]@) || in_entries(es@, ps@[i]@));
            }
            if in_paths(start, p) {
                let j = choose|j: int| 0 <= j < start.len() && (#[trigger] start[j])@ == p;
                assert(ps@[j] == start[j]);
            }
            if in_entries(es@, p) {
                let j = choose|j: int| 0 <= j < es@.len() && (#[trigger] es@[j]).0@ == p;
                assert(in_paths(ps@, es@[j].0@));
            }
        }
    }
}

/// The last entry for `p` is present exactly when some entry has path `p`.
proof fn lemma_last_entry_some(es: Seq<DiffEntry>, p: Seq<char>)
    ensures
        last_entry(es, p) is Some <==> in_entries(es, p),
    decreases es.len(),
{
    if es.len() > 0 {
        lemma_last_entry_some(es.drop_last(), p);
        if last_entry(es.drop_last(), p) is Some {
            let i = choose|i: int| 0 <= i < es.drop_last().len() && (#[trigger] es.drop_last()[i]).0@ == p;
            assert(es[i].0@ == p);
        }
        if es.last().0@ == p {
            assert(es[es.len() - 1].0@ == p);
        }
        if in_entries(es, p) {
            let i = choose|i: int| 0 <= i < es.len() && (#[trigger] es[i]).0@ == p;
            if i < es.len() - 1 {
                assert(es.drop_last()[i].0@ == p);
            }
        }
    }
}

/// Two nodes with different paths are ordered one way, never both.
proof fn lemma_node_total(x: DiffNode, y: DiffNode)
    ensures
        x.path@ != y.path@ ==> (node_before(x, y) || node_before(y, x)),
        !(node_before(x, y) && node_before(y, x)),
{
    lemma_str_lt_total(x.path@, y.path@);
}

/// The order of nodes is transitive.
proof fn lemma_node_transitive(x: DiffNode, y: DiffNode, z: DiffNode)
    requires
        node_before(x, y),
        node_before(y, z),
    ensures
        node_before(x, z),
{
    if rank(x.kind) == rank(y.kind) && rank(y.kind) == rank(z.kind) {
        lemma_str_lt_transitive(x.path@, y.path@, z.path@);
    }
}

/// The nodes of `ns` are in strictly increasing order.
pub open spec fn nodes_sorted(ns: Seq<DiffNode>) -> bool {
    forall|i: int, j: int| 0 <= i < j < ns.len() ==> node_before(#[trigger] ns[i], #[trigger] ns[j])
}

/// Some string among the first `n` of `ps` is `p`.
pub open spec fn in_paths_upto(ps: Seq<String>, n: int, p: Seq<char>) -> bool {
    exists|j: int| 0 <= j < n && (#[trigger] ps[j])@ == p
}

/// Some node of `ns` has path `p`.
pub open spec fn has_node(ns: Seq<DiffNode>, p: Seq<char>) -> bool {
    exists|k: int| 0 <= k < ns.len() && (#[trigger] ns[k]).path@ == p
}

/// Compare two nodes with `node_before`.
fn node_precedes(x: &DiffNode, y: &DiffNode) -> (r: bool)
    ensures
        r == node_before(*x, *y),
{
    let rx: u8 = match x.kind {
        ChangeKind::Added => 0,
        ChangeKind::Removed => 0,
        ChangeKind::Modified => 1,
        ChangeKind::Unchanged => 2,
    };
    let ry: u8 = match y.kind {
        ChangeKind::Added => 0,
        ChangeKind::Removed => 0,
        ChangeKind::Modified => 1,
        ChangeKind::Unchanged => 2,
    };
    rx < ry || (rx == ry && str_less(x.path.as_str(), y.path.as_str()))
}

/// True when two optional fingerprints are equal.
fn same_fp(a: Option<u64>, b: Option<u64>) -> (r: bool)
    ensures
        r == (a == b),
{
    match (a, b) {
        (Some(x), Some(y)) => x == y,
        (None, None) => true,
        _ => false,
    }
}

/// The change for a path from its last old and new entries.
fn classify_entries(o: Option<(u64, Option<u64>)>, w: Option<(u64, Option<u64>)>) -> (k: ChangeKind)
    ensures
        k == classify(o, w),
{
    match (o, w) {
        (Some(a), Some(b)) => if a.0 == b.0 && same_fp(a.1, b.1) {
            ChangeKind::Unchanged
        } else {
            ChangeKind::Modified
        },
        (Some(_), None) => ChangeKind::Removed,
        _ => ChangeKind::Added,
    }
}

/// The nodes and per-kind counts of the diff of `old` and `new`. Each path
/// that occurs in either list gets one node, built from its last entry in
/// each list; the nodes are ordered by rank, then by path.
pub fn diff_entries(old: &[DiffEntry], new: &[DiffEntry]) -> (r: (Vec<DiffNode>, Counts))
    ensures
        is_diff_of(r.0@, old@, new@),
        counts_of(r.1, r.0@),
{
    let mut paths: Vec<String> = Vec::new();
    add_paths(&mut paths, old);
    add_paths(&mut paths, new);
    let ghost all = paths@;
    assert forall|p: Seq<char>| #[trigger] in_paths(all, p) <==> (in_entries(old@, p) || in_entries(new@, p)) by {
        assert(!in_paths(Seq::<String>::empty(), p));
    }
    let mut nodes: Vec<DiffNode> = Vec::new();
    let mut counts = Counts::default();
    let n = paths.len();
    let mut i: usize = 0;
    while i < n
        invariant
            n == paths@.len(),
            all == paths@,
            i <= n,
            distinct_paths(all),
            forall|p: Seq<char>| #[trigger] in_paths(all, p) <==> (in_entries(old@, p) || in_entries(new@, p)),
            nodes@.len() == i,
            nodes_sorted(nodes@),
            forall|k: int| 0 <= k < nodes@.len() ==> node_of(#[trigger] nodes@[k], old@, new@),
            forall|k: int| 0 <= k < nodes@.len() ==> in_paths_upto(all, i as int, (#[trigger] nodes@[k]).path@),
            forall|j: int| 0 <= j < i ==> has_node(nodes@, (#[trigger] all[j])@),
            counts_of(counts, nodes@),
        decreases n - i,
    {
        let p = &paths[i];
        let o = find_last(old, p);
        let w = find_last(new, p);
        proof {
            assert(in_paths(all, all[i as int]@));
            lemma_last_entry_some(old@, p@);
            lemma_last_entry_some(new@, p@);
        }
        let kind = classify_entries(o, w);
        let node = DiffNode {
            path: p.clone(),
            kind,
            old_size: match o { Some(e) => Some(e.0), None => None },
            new_size: match w { Some(e) => Some(e.0), None => None },
            old_fp: match o { Some(e) => e.1, None => None },
            new_fp: match w { Some(e) => e.1, None => None },
        };
        proof {
            assert forall|k: int| 0 <= k < nodes@.len() implies nodes@[k].path@ != node.path@ by {
                let j = choose|j: int| 0 <= j < i && (#[trigger] all[j])@ == nodes@[k].path@;
                assert(all[j]@ != all[i as int]@);
            }
        }
        let mut pos: usize = 0;
        while pos < nodes.len() && !node_precedes(&node, &nodes[pos])
            invariant
                pos <= nodes@.len(),
                forall|k: int| 0 <= k < nodes@.len() ==> nodes@[k].path@ != node.path@,
                forall|k: int| 0 <= k < pos ==> node_before(#[trigger] nodes@[k], node),
            decreases nodes@.len() - pos,
        {
            proof {
                lemma_node_total(node, nodes@[pos as int]);
            }
            pos += 1;
        }
        proof {
            lemma_count_le(nodes@, ChangeKind::Added);
            lemma_count_le(nodes@, ChangeKind::Removed);
            lemma_count_le(nodes@, ChangeKind::Modified);
            lemma_count_le(nodes@, ChangeKind::Unchanged);
            lemma_count_insert(nodes@, pos as int, node, ChangeKind::Added);
            lemma_count_insert(nodes@, pos as int, node, ChangeKind::Removed);
            lemma_count_insert(nodes@, pos as int, node, ChangeKind::Modified);
            lemma_count_insert(nodes@, pos as int, node, ChangeKind::Unchanged);
        }
        match kind {
            ChangeKind::Added => counts.added = counts.added + 1,
            ChangeKind::Removed => counts.removed = counts.removed + 1,
            ChangeKind::Modified => counts.modified = counts.modified + 1,
            ChangeKind::Unchanged => counts.unchanged = counts.unchanged + 1,
        }
        let ghost before = nodes@;
        nodes.insert(pos, node);
        proof {
            assert(nodes@ == before.insert(pos as int, node));
            assert forall|a: int, b: int| 0 <= a < b < nodes@.len() implies node_before(#[trigger] nodes@[a], #[trigger] nodes@[b]) by {
                if a < pos && b < pos {
                    assert(nodes@[a] == before[a] && nodes@[b] == before[b]);
                } else if a < pos && b == pos {
                } else if a < pos {
                    assert(nodes@[a] == before[a] && nodes@[b] == before[b - 1]);
                } else if a == pos {
                    assert(nodes@[b] == before[b - 1]);
                    if b - 1 > pos {
                        lemma_node_transitive(node, before[pos as int], before[b - 1]);
                    }
                } else {
                    assert(nodes@[a] == before[a - 1] && nodes@[b] == before[b - 1]);
                }
            }
            assert forall|k: int| 0 <= k < nodes@.len() implies node_of(#[trigger] nodes@[k], old@, new@) by {
                if k < pos {
                    assert(nodes@[k] == before[k]);
                } else if k > pos {
                    assert(nodes@[k] == before[k - 1]);
                }
            }
            assert forall|k: int| 0 <= k < nodes@.len() implies in_paths_upto(all, i + 1, (#[trigger] nodes@[k]).path@) by {
                if k == pos {
                    assert(all[i as int]@ == nodes@[k].path@);
                } else {
                    let kk = if k < pos { k } else { k - 1 };
                    assert(nodes@[k] == before[kk]);
                    assert(in_paths_upto(all, i as int, before[kk].path@));
                    let j = choose|j: int| 0 <= j < i && (#[trigger] all[j])@ == before[kk].path@;
                    assert(all[j]@ == nodes@[k].path@);
                }
            }
            assert forall|j: int| 0 <= j < i + 1 implies has_node(nodes@, (#[trigger] all[j])@) by {
                if j == i {
                    assert(nodes@[pos as int].path@ == all[j]@);
                } else {
                    assert(has_node(before, all[j]@));
                    let k = choose|k: int| 0 <= k < before.len() && (#[trigger] before[k]).path@ == all[j]@;
                    if k < pos {
                        assert(nodes@[k] == before[k]);
                    } else {
                        assert(nodes@[k + 1] == before[k]);
                    }
                }
            }
        }
        i += 1;
    }
    proof {
        assert forall|p: Seq<char>| (#[trigger] last_entry(old@, p) is Some || last_entry(new@, p) is Some) implies
            exists|k: int| 0 <= k < nodes@.len() && (#[trigger] nodes@[k]).path@ == p by {
            lemma_last_entry_some(old@, p);
            lemma_last_entry_some(new@, p);
            assert(in_paths(all, p));
            let j = choose|j: int| 0 <= j < all.len() && (#[trigger] all[j])@ == p;
            assert(has_node(nodes@, all[j]@));
        }
    }
    (nodes, counts)
}

/// The text `Counts { +a -r ~m =u }` of per-kind numbers.
pub open spec fn spec_describe(c: Counts) -> Seq<char> {
    "Counts { +"@ + decimal(c.added as nat) + " -"@ + decimal(c.removed as nat) + " ~"@
        + decimal(c.modified as nat) + " ="@ + decimal(c.unchanged as nat) + " }"@
}

impl Counts {
    /// `Counts { +a -r ~m =u }`.
    pub fn describe(&self) -> (s: String)
        ensures
            s@ == spec_describe(*self),
    {
        let mut s = String::from_str("Counts { +");
        push_decimal(&mut s, self.added as u64);
        s.append(" -");
        push_decimal(&mut s, self.removed as u64);
        s.append(" ~");
        push_decimal(&mut s, self.modified as u64);
        s.append(" =");
        push_decimal(&mut s, self.unchanged as u64);
        s.append(" }");
        s
    }
}

/// The full diff between two images.
#[derive(Debug)]
pub struct Diff {
    pub old_path: String,
    pub new_path: String,
    pub nodes: Vec<DiffNode>,
    pub counts: Counts,
    pub built_at: std::time::Instant,
}

/// The first change (a node that is not unchanged) at index `from` or
/// after it.
pub open spec fn spec_next_change(nodes: Seq<DiffNode>, from: int) -> Option<int>
    decreases nodes.len() - from,
{
    if from < 0 || from >= nodes.len() {
        None
    } else if nodes[from].kind != ChangeKind::Unchanged {
        Some(from)
    } else {
        spec_next_change(nodes, from + 1)
    }
}

/// The last change among the nodes before index `before`.
pub open spec fn spec_prev_change(nodes: Seq<DiffNode>, before: int) -> Option<int>
    decreases before,
{
    if before <= 0 {
        None
    } else if before - 1 < nodes.len() && nodes[before - 1].kind != ChangeKind::Unchanged {
        Some(before - 1)
    } else {
        spec_prev_change(nodes, before - 1)
    }
}

/// Past the end of the nodes, the last change before `before` is the last
/// change of all.
proof fn lemma_prev_change_past_end(nodes: Seq<DiffNode>, before: int)
    requires
        before >= nodes.len(),
    ensures
        spec_prev_change(nodes, before) == spec_prev_change(nodes, nodes.len() as int),
    decreases before - nodes.len(),
{
    if before > nodes.len() {
        lemma_prev_change_past_end(nodes, before - 1);
    }
}

impl Diff {
    /// The first change at index `from` or after it.
    pub fn next_change(&self, from: usize) -> (r: Option<usize>)
        ensures
            r is None <==> spec_next_change(self.nodes@, from as int) is None,
            r matches Some(k) ==> spec_next_change(self.nodes@, from as int) == Some(k as int),
    {
        let mut i = from;
        while i < self.nodes.len()
            invariant
                from <= i,
                spec_next_change(self.nodes@, from as int) == spec_next_change(self.nodes@, i as int),
            decreases self.nodes@.len() - i,
        {
            if self.nodes[i].kind != ChangeKind::Unchanged {
                return Some(i);
            }
            i += 1;
        }
        None
    }

    /// The last change before index `before`.
    pub fn prev_change(&self, before: usize) -> (r: Option<usize>)
        ensures
            r is None <==> spec_prev_change(self.nodes@, before as int) is None,
            r matches Some(k) ==> spec_prev_change(self.nodes@, before as int) == Some(k as int),
    {
        let mut j = before;
        if j > self.nodes.len() {
            proof {
                lemma_prev_change_past_end(self.nodes@, before as int);
            }
            j = self.nodes.len();
        }
        while j > 0
            invariant
                j <= self.nodes@.len(),
                j <= before,
                spec_prev_change(self.nodes@, before as int) == spec_prev_change(self.nodes@, j as int),
            decreases j,
        {
            if self.nodes[j - 1].kind != ChangeKind::Unchanged {
                return Some(j - 1);
            }
            j -= 1;
        }
        None
    }
}

/// Build the diff of the image at `old_path`, whose entries are
/// `old_entries`, and the image at `new_path`, whose entries are
/// `new_entries`.
pub fn build_diff(old_path: &str, new_path: &str, old_entries: &[DiffEntry], new_entries: &[DiffEntry]) -> (d: Diff)
    ensures
        d.old_path@ == old_path@,
        d.new_path@ == new_path@,
        is_diff_of(d.nodes@, old_entries@, new_entries@),
        counts_of(d.counts, d.nodes@),
{
    let (nodes, counts) = diff_entries(old_entries, new_entries);
    Diff {
        old_path: String::from_str(old_path),
        new_path: String::from_str(new_path),
        nodes,
        counts,
        built_at: now(),
    }
}

/// The name of partition `i` in a diff: `partition_i`.
pub open spec fn partition_name(i: nat) -> Seq<char> {
    "partition_"@ + decimal(i)
}

/// The diff entries of an extracted 11.x image: one per partition, named
/// `partition_i`, with its decompressed size and no fingerprint.
pub fn entries_from_extract(extract: &ExtractResult) -> (r: Vec<DiffEntry>)
    ensures
        r@.len() == extract.partitions@.len(),
        forall|i: int| 0 <= i < r@.len() ==> {
            &&& (#[trigger] r@[i]).0@ == partition_name(i as nat)
            &&& r@[i].1 == extract.partitions@[i].decompressed_bytes
            &&& r@[i].2 is None
        },
{
    let mut out: Vec<DiffEntry> = Vec::new();
    let mut i: usize = 0;
    while i < extract.partitions.len()
        invariant
            i <= extract.partitions@.len(),
            out@.len() == i,
            forall|k: int| 0 <= k < i ==> {
                &&& (#[trigger] out@[k]).0@ == partition_name(k as nat)
                &&& out@[k].1 == extract.partitions@[k].decompressed_bytes
                &&& out@[k].2 is None
            },
        decreases extract.partitions@.len() - i,
    {
        let mut name = String::from_str("partition_");
        push_decimal(&mut name, i as u64);
        out.push((name, extract.partitions[i].decompressed_bytes, None));
        i += 1;
    }
    out
}

/// The diff entries of a pre-11.x image: one per dirent, named by its
/// display name, with its size and the fingerprint `fingerprints[i]` (none
/// past the end of `fingerprints`).
pub fn entries_from_dirents(entries: &[WalkedEntry], fingerprints: &[Option<u64>]) -> (r: Vec<DiffEntry>)
    ensures
        r@.len() == entries@.len(),
        forall|i: int| 0 <= i < r@.len() ==> {
            &&& (#[trigger] r@[i]).0@ == spec_display_name(entries@[i].dirent)
            &&& r@[i].1 == entries@[i].dirent.size as u64
            &&& r@[i].2 == (if i < fingerprints@.len() { fingerprints@[i] } else { None })
        },
{
    let mut out: Vec<DiffEntry> = Vec::new();
    let mut i: usize = 0;
    while i < entries.len()
        invariant
            i <= entries@.len(),
            out@.len() == i,
            forall|k: int| 0 <= k < i ==> {
                &&& (#[trigger] out@[k]).0@ == spec_display_name(entries@[k].dirent)
                &&& out@[k].1 == entries@[k].dirent.size as u64
                &&& out@[k].2 == (if k < fingerprints@.len() { fingerprints@[k] } else { None })
            },
        decreases entries@.len() - i,
    {
        let fp = if i < fingerprints.len() { fingerprints[i] } else { None };
        out.push((entries[i].dirent.display_name(), entries[i].dirent.size as u64, fp));
        i += 1;
    }
    out
}

/// Where the diff entries of an image come from.
pub enum DiffSource {
    /// An 11.x image: one entry per partition.
    Partitions(Vec<DiffEntry>),
    /// A pre-11.x image: its dirents, whose entries still need fingerprints.
    Dirents(Vec<WalkedEntry>),
}

/// The source of the diff entries of `image`: its partitions, named
/// `partition_i` with their decompressed sizes and no fingerprint, when it
/// decodes as an 11.x image; else its pre-11.x dirents, or the walk's error.
pub fn diff_source(image: &[u8]) -> (r: Result<DiffSource>)
    ensures
        spec_extract(image@) matches Ok((_, _, ps)) ==> (r matches Ok(DiffSource::Partitions(v)) && {
            &&& v@.len() == ps.len()
            &&& forall|i: int| 0 <= i < v@.len() ==> {
                &&& (#[trigger] v@[i]).0@ == partition_name(i as nat)
                &&& v@[i].1 == ps[i].data.len()
                &&& v@[i].2 is None
            }
        }),
        spec_extract(image@) is Err ==> match spec_walk(image@) {
            Ok(es) => r matches Ok(DiffSource::Dirents(v)) && v@ == es,
            Err(c) => fails_with(r, c),
        },
        spec_extract(image@) is Err ==> (spec_walk_fault(image@) matches Err(f) ==> (r matches Err(e) && is_fault(e, f))),
{
    let decoded = match extract(image) {
        Ok(x) => x,
        Err(_) => {
            return match walk_dirents(image) {
                Ok(es) => Ok(DiffSource::Dirents(es)),
                Err(e) => Err(e),
            };
        },
    };
    let ghost ps = spec_extract(image@)->Ok_0.2;
    let mut out: Vec<DiffEntry> = Vec::new();
    let mut i: usize = 0;
    while i < decoded.partitions.len()
        invariant
            i <= decoded.partitions@.len(),
            payloads_match(decoded.partitions@, ps),
            out@.len() == i,
            forall|k: int| 0 <= k < i ==> {
                &&& (#[trigger] out@[k]).0@ == partition_name(k as nat)
                &&& out@[k].1 == ps[k].data.len()
                &&& out@[k].2 is None
            },
        decreases decoded.partitions@.len() - i,
    {
        let mut name = String::from_str("partition_");
        push_decimal(&mut name, i as u64);
        proof {
            assert(payload_matches(decoded.partitions@[i as int], ps[i as int]));
        }
        out.push((name, decoded.partitions[i].decompressed_bytes, None));
        i += 1;
    }
    Ok(DiffSource::Partitions(out))
}

/// How many bytes of a file's stored data its fingerprint covers.
pub const FINGERPRINT_BYTES: usize = 65536;

/// The range of an image of `image_len` bytes whose hash fingerprints the
/// file of `entry`: the first `min(64 KiB, size)` bytes from its data start,
/// when it has data and the image holds all of them.
pub open spec fn spec_fingerprint_range(entry: WalkedEntry, image_len: int) -> Option<(usize, usize)> {
    match entry.data_start_offset {
        None => None,
        Some(s) => {
            let len = if entry.dirent.size < FINGERPRINT_BYTES { entry.dirent.size as int } else { FINGERPRINT_BYTES as int };
            if s + len <= image_len {
                Some((s as usize, (s + len) as usize))
            } else {
                None
            }
        },
    }
}

/// The range of the image bytes that fingerprint the file of `entry`.
pub fn fingerprint_range(entry: &WalkedEntry, image_len: usize) -> (r: Option<(usize, usize)>)
    ensures
        r == spec_fingerprint_range(*entry, image_len as int),
{
    let s = match entry.data_start_offset {
        Some(s) => s,
        None => return None,
    };
    let len: usize = if (entry.dirent.size as usize) < FINGERPRINT_BYTES { entry.dirent.size as usize } else { FINGERPRINT_BYTES };
    if s > image_len as u64 || (image_len as u64) - s < len as u64 {
        return None;
    }
    Some((s as usize, s as usize + len))
}

/// The kind of one line of a line diff.
#[derive(Debug, Clone, Copy, PartialEq, Eq, Structural)]
pub enum LineTag {
    Equal,
    Insert,
    Delete,
}

/// The line changes that `similar::TextDiff::from_lines` finds between
/// `old` and `new`, each with its tag and text (line ending included).
pub uninterp spec fn text_line_changes(old: Seq<char>, new: Seq<char>) -> Seq<(LineTag, Seq<char>)>;

/// The tags and texts of `cs`.
pub open spec fn changes_view(cs: Seq<(LineTag, String)>) -> Seq<(LineTag, Seq<char>)> {
    Seq::new(cs.len(), |i: int| (cs[i].0, cs[i].1@))
}

/// The line changes between `old` and `new`, from
/// `similar::TextDiff::from_lines(old, new).iter_all_changes()` (the default
/// configuration, with no deadline): a function of the two texts, named
/// `text_line_changes`.
#[verifier::external_body]
fn line_changes(old: &str, new: &str) -> (r: Vec<(LineTag, String)>)
    ensures
        changes_view(r@) == text_line_changes(old@, new@),
{
    let mut out = Vec::new();
    for change in similar::TextDiff::from_lines(old, new).iter_all_changes() {
        let tag = match change.tag() {
            similar::ChangeTag::Equal => LineTag::Equal,
            similar::ChangeTag::Insert => LineTag::Insert,
            similar::ChangeTag::Delete => LineTag::Delete,
        };
        out.push((tag, change.value().to_string()));
    }
    out
}

/// The marker of a line: space, `+` or `-`.
pub open spec fn line_marker(t: LineTag) -> char {
    match t {
        LineTag::Equal => ' ',
        LineTag::Insert => '+',
        LineTag::Delete => '-',
    }
}

/// The unified text of `cs`: per change, its marker, its text without
/// trailing white space, and a newline.
pub open spec fn render_changes(cs: Seq<(LineTag, Seq<char>)>) -> Seq<char>
    decreases cs.len(),
{
    if cs.len() == 0 {
        Seq::empty()
    } else {
        render_changes(cs.drop_last()) + seq![line_marker(cs.last().0)] + trim_end(cs.last().1) + seq!['\n']
    }
}

/// Write the unified text of `cs`.
pub fn render_line_changes(cs: &Vec<(LineTag, String)>) -> (s: String)
    ensures
        s@ == render_changes(changes_view(cs@)),
{
    let mut out = String::new();
    let mut i: usize = 0;
    while i < cs.len()
        invariant
            i <= cs@.len(),
            out@ == render_changes(changes_view(cs@).subrange(0, i as int)),
        decreases cs@.len() - i,
    {
        let marker = match cs[i].0 {
            LineTag::Equal => ' ',
            LineTag::Insert => '+',
            LineTag::Delete => '-',
        };
        out.push(marker);
        push_trimmed_end(&mut out, cs[i].1.as_str());
        out.push('\n');
        proof {
            let v = changes_view(cs@);
            assert(v.subrange(0, i + 1).drop_last() =~= v.subrange(0, i as int));
            assert(v.subrange(0, i + 1).last() == v[i as int]);
        }
        i += 1;
    }
    assert(changes_view(cs@).subrange(0, cs@.len() as int) =~= changes_view(cs@));
    out
}

/// A unified line diff of two files, when both are UTF-8 text; `None` for
/// binary content.
pub fn line_diff_text(old: &[u8], new: &[u8]) -> (r: Option<String>)
    ensures
        r is Some <==> (valid_utf8(old@) && valid_utf8(new@)),
        r matches Some(s) ==> s@ == render_changes(text_line_changes(decode_utf8(old@), decode_utf8(new@))),
{
    let old_text = match utf8_str(old) {
        Some(t) => t,
        None => return None,
    };
    let new_text = match utf8_str(new) {
        Some(t) => t,
        None => return None,
    };
    let changes = line_changes(old_text, new_text);
    Some(render_line_changes(&changes))
}

/// The per-kind counts of a diff add up to its number of nodes.
pub proof fn lemma_counts_total(c: Counts, ns: Seq<DiffNode>)
    requires
        counts_of(c, ns),
    ensures
        c.added + c.removed + c.modified + c.unchanged == ns.len(),
    decreases ns.len(),
{
    lemma_count_sum(ns);
}

/// Each node is of exactly one kind.
proof fn lemma_count_sum(ns: Seq<DiffNode>)
    ensures
        count_kind(ns, ChangeKind::Added) + count_kind(ns, ChangeKind::Removed) + count_kind(ns, ChangeKind::Modified)
            + count_kind(ns, ChangeKind::Unchanged) == ns.len(),
    decreases ns.len(),
{
    if ns.len() > 0 {
        lemma_count_sum(ns.drop_last());
    }
}

/// No two nodes of a diff have the same path.
pub proof fn lemma_diff_paths_distinct(ns: Seq<DiffNode>, old: Seq<DiffEntry>, new: Seq<DiffEntry>)
    requires
        is_diff_of(ns, old, new),
    ensures
        forall|i: int, j: int| 0 <= i < j < ns.len() ==> (#[trigger] ns[i]).path@ != (#[trigger] ns[j]).path@,
{
    assert forall|i: int, j: int| 0 <= i < j < ns.len() implies (#[trigger] ns[i]).path@ != (#[trigger] ns[j]).path@ by {
        assert(node_before(ns[i], ns[j]));
        if ns[i].path@ == ns[j].path@ {
            assert(node_of(ns[i], old, new));
            assert(node_of(ns[j], old, new));
            lemma_str_lt_irreflexive(ns[i].path@);
        }
    }
}

/// A path in both lists with equal last entries is unchanged; with
/// different ones, modified; only in the old list, removed; only in the
/// new list, added.
pub proof fn lemma_diff_kinds(ns: Seq<DiffNode>, old: Seq<DiffEntry>, new: Seq<DiffEntry>, i: int)
    requires
        is_diff_of(ns, old, new),
        0 <= i < ns.len(),
    ensures
        ({
            let o = last_entry(old, ns[i].path@);
            let w = last_entry(new, ns[i].path@);
            &&& (ns[i].kind == ChangeKind::Added) <==> (o is None && w is Some)
            &&& (ns[i].kind == ChangeKind::Removed) <==> (o is Some && w is None)
            &&& (ns[i].kind == ChangeKind::Unchanged) <==> (o is Some && o == w)
            &&& (ns[i].kind == ChangeKind::Modified) <==> (o is Some && w is Some && o != w)
        }),
{
    assert(node_of(ns[i], old, new));
}

} // verus!
