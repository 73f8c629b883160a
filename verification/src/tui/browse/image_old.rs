//! The pre-11.x dirent view of the browser.
//!
//! The flat dirent stream is turned into a tree with the "nearest preceding
//! directory" heuristic: every directory is a top-level entry (a sibling of
//! the previous one), and every file belongs to the most recent directory
//! before it, or to the root when there is none. Deeper nesting is
//! flattened.

use vstd::prelude::*;

use crate::ghostold::dirent::{spec_display_name, Dirent};
use crate::error::{fails_with, is_fault, Result};
use crate::ghostold::stream::{spec_walk, spec_walk_fault, walk_dirents, WalkedEntry};
use crate::tui::input::{clicked_row, clicked_row_in, is_row_step, row_step, row_step_of, Action};
use crate::tui::time::now;
use super::image11::{clamp, scroll_to, spec_scroll_to};

verus! {

/// A path into the dirent tree. Directories end with `/`; the root is the
/// empty path.
#[derive(Debug, Clone, PartialEq, Eq, Hash)]
pub struct TreePath(pub String);

/// The position of the last `/` among the first `k` characters of `s`.
pub open spec fn last_slash_before(s: Seq<char>, k: int) -> Option<int>
    decreases k,
{
    if k <= 0 {
        None
    } else if s[k - 1] == '/' {
        Some(k - 1)
    } else {
        last_slash_before(s, k - 1)
    }
}

/// The last component of `s`: what follows its last `/`, or `s` itself.
pub open spec fn spec_basename(s: Seq<char>) -> Seq<char> {
    match last_slash_before(s, s.len() as int) {
        Some(k) => s.subrange(k + 1, s.len() as int),
        None => s,
    }
}

/// The parent directory of `s`: `s` without its last character, cut after
/// its last `/`; the root when no `/` is left.
pub open spec fn spec_parent(s: Seq<char>) -> Seq<char> {
    let t = if s.len() == 0 { s } else { s.drop_last() };
    match last_slash_before(t, t.len() as int) {
        Some(k) => t.subrange(0, k).push('/'),
        None => Seq::empty(),
    }
}

/// Find the last `/` among the first `k` characters of `s`.
pub(crate) fn find_last_slash(s: &str, k: usize) -> (r: Option<usize>)
    requires
        k <= s@.len(),
    ensures
        r is None <==> last_slash_before(s@, k as int) is None,
        r matches Some(i) ==> last_slash_before(s@, k as int) == Some(i as int) && i < k,
{
    let mut j = k;
    while j > 0
        invariant
            j <= k <= s@.len(),
            last_slash_before(s@, k as int) == last_slash_before(s@, j as int),
        decreases j,
    {
        if s.get_char(j - 1) == '/' {
            return Some(j - 1);
        }
        j -= 1;
    }
    None
}

impl TreePath {
    /// The root path (empty).
    pub fn root() -> (p: Self)
        ensures
            p.0@ == Seq::<char>::empty(),
    {
        TreePath(String::new())
    }

    /// The path as a string.
    pub fn as_str(&self) -> (s: &str)
        ensures
            s@ == self.0@,
    {
        self.0.as_str()
    }

    /// Push a name (file or directory) onto the path.
    pub fn join(&self, name: &str) -> (p: Self)
        ensures
            p.0@ == self.0@ + name@,
    {
        let mut s = self.0.clone();
        s.append(name);
        TreePath(s)
    }

    /// Push a directory name onto the path, adding a trailing `/`.
    pub fn join_dir(&self, name: &str) -> (p: Self)
        ensures
            p.0@ == (self.0@ + name@).push('/'),
    {
        let mut s = self.0.clone();
        s.append(name);
        s.push('/');
        TreePath(s)
    }

    /// Last component of the path (empty for the root or a directory path).
    pub fn basename(&self) -> (b: &str)
        ensures
            b@ == spec_basename(self.0@),
    {
        let s = self.0.as_str();
        let n = s.unicode_len();
        match find_last_slash(s, n) {
            Some(k) => s.substring_char(k + 1, n),
            None => s,
        }
    }

    /// Parent directory path: `PROG/FILE.EXE` has parent `PROG/`, and
    /// `PROG/` has the root as parent.
    pub fn parent(&self) -> (p: TreePath)
        ensures
            p.0@ == spec_parent(self.0@),
    {
        let s = self.0.as_str();
        let n = s.unicode_len();
        let m = if n == 0 { 0 } else { n - 1 };
        let t = s.substring_char(0, m);
        proof {
            assert(t@ =~= (if s@.len() == 0 { s@ } else { s@.drop_last() }));
        }
        match find_last_slash(t, m) {
            Some(k) => {
                let mut out = String::from_str(t.substring_char(0, k));
                out.push('/');
                TreePath(out)
            },
            None => TreePath::root(),
        }
    }
}

/// With a `/` at `k` and none in `k + 1 .. m`, the last `/` before `m` is
/// at `k`; with none in `0 .. m`, there is none.
proof fn lemma_last_slash_at(s: Seq<char>, k: int, m: int)
    requires
        -1 <= k < m <= s.len(),
        k >= 0 ==> s[k] == '/',
        forall|i: int| k < i < m ==> s[i] != '/',
    ensures
        last_slash_before(s, m) == (if k >= 0 { Some(k) } else { None::<int> }),
    decreases m - k,
{
    if m > k + 1 {
        lemma_last_slash_at(s, k, m - 1);
    }
}

/// A name without `/`.
pub open spec fn plain_name(s: Seq<char>) -> bool {
    forall|i: int| 0 <= i < s.len() ==> s[i] != '/'
}

/// Joining a file name to a top-level directory path and taking the parent
/// gives the directory path back; the parent of a top-level directory is
/// the root; and the base name of the joined path is the file name.
pub proof fn lemma_join_parent(dir: Seq<char>, file: Seq<char>)
    requires
        plain_name(dir),
        plain_name(file),
        file.len() > 0,
    ensures
        spec_parent(dir.push('/') + file) == dir.push('/'),
        spec_parent(dir.push('/')) == Seq::<char>::empty(),
        spec_basename(dir.push('/') + file) == file,
{
    let d = dir.push('/');
    let p = d + file;
    let t = p.drop_last();
    lemma_last_slash_at(t, dir.len() as int, t.len() as int);
    assert(t.subrange(0, dir.len() as int) =~= dir);
    lemma_last_slash_at(p, dir.len() as int, p.len() as int);
    assert(p.subrange(dir.len() as int + 1, p.len() as int) =~= file);
    let t2 = d.drop_last();
    assert(t2 =~= dir);
    lemma_last_slash_at(t2, -1, t2.len() as int);
}

/// One node of the reconstructed dirent tree.
#[derive(Debug, Clone)]
pub struct DirentNode {
    pub dirent: Dirent,
    pub path: TreePath,
    pub size: u64,
}

/// A flat-to-hierarchical tree: each node lists the indices of its direct
/// children in insertion order.
#[derive(Debug, Clone)]
pub struct DirentTree {
    pub nodes: Vec<DirentNode>,
    pub children_of: Vec<Vec<usize>>,
}

impl Default for DirentTree {
    fn default() -> (t: Self)
        ensures
            t.nodes@.len() == 0,
            t.children_of@.len() == 0,
    {
        DirentTree { nodes: Vec::new(), children_of: Vec::new() }
    }
}

/// True when the attributes of `d` mark a directory.
pub open spec fn dirent_is_dir(d: Dirent) -> bool {
    d.attrs & 0x10u8 != 0
}

/// Every child index of a node is in the tree and after the node.
pub open spec fn tree_wf(t: DirentTree) -> bool {
    &&& t.children_of@.len() == t.nodes@.len()
    &&& t.nodes@.len() <= usize::MAX
    &&& forall|i: int, j: int| 0 <= i < t.children_of@.len() && 0 <= j < t.children_of@[i]@.len() ==>
        i < #[trigger] t.children_of@[i]@[j] < t.nodes@.len()
}

/// True when a path equal to `p` is in `paths`.
pub open spec fn path_listed(paths: Seq<TreePath>, p: Seq<char>) -> bool {
    exists|i: int| 0 <= i < paths.len() && (#[trigger] paths[i]).0@ == p
}

/// The rows shown for node `idx`: the node, then (for an expanded
/// directory) the rows of its children in order.
pub open spec fn spec_vis(t: DirentTree, idx: int, expanded: Seq<TreePath>) -> Seq<usize>
    decreases t.nodes@.len() - idx, 1int, 0int,
{
    if idx < 0 || idx >= t.nodes@.len() || t.children_of@.len() != t.nodes@.len() {
        Seq::empty()
    } else {
        let head = seq![idx as usize];
        if dirent_is_dir(t.nodes@[idx].dirent) && path_listed(expanded, t.nodes@[idx].path.0@) {
            head + spec_vis_children(t, idx, 0, expanded)
        } else {
            head
        }
    }
}

/// The rows of the children of node `p` from its `k`-th child on.
pub open spec fn spec_vis_children(t: DirentTree, p: int, k: int, expanded: Seq<TreePath>) -> Seq<usize>
    decreases t.nodes@.len() - p, 0int, t.children_of@[p]@.len() - k,
{
    if p < 0 || p >= t.nodes@.len() || t.children_of@.len() != t.nodes@.len() || k < 0 || k >= t.children_of@[p]@.len() {
        Seq::empty()
    } else {
        let c = t.children_of@[p]@[k] as int;
        if c <= p || c >= t.nodes@.len() {
            Seq::empty()
        } else {
            spec_vis(t, c, expanded) + spec_vis_children(t, p, k + 1, expanded)
        }
    }
}

/// True when some node among the first `p` lists node `i` as a child.
pub open spec fn listed_before(t: DirentTree, i: int, p: int) -> bool {
    exists|q: int, k: int|
        0 <= q < p && q < t.children_of@.len() && 0 <= k < t.children_of@[q]@.len()
            && #[trigger] t.children_of@[q]@[k] == i
}

/// True when node `i` is a child of some node, so that it is not a
/// top-level node.
pub open spec fn is_child_node(t: DirentTree, i: int) -> bool {
    listed_before(t, i, t.children_of@.len() as int)
}

/// The rows shown for the top-level nodes from `i` on, in order: each
/// node that is no node's child, followed by the rows below it.
pub open spec fn spec_visible_from(t: DirentTree, expanded: Seq<TreePath>, i: int) -> Seq<usize>
    decreases t.nodes@.len() - i,
{
    if i < 0 || i >= t.nodes@.len() {
        Seq::empty()
    } else if is_child_node(t, i) {
        spec_visible_from(t, expanded, i + 1)
    } else {
        spec_vis(t, i, expanded) + spec_visible_from(t, expanded, i + 1)
    }
}

/// The rows shown for the whole tree: every top-level node in order, each
/// followed by the rows below it.
pub open spec fn spec_visible(t: DirentTree, expanded: Seq<TreePath>) -> Seq<usize> {
    spec_visible_from(t, expanded, 0)
}

/// The first index of a node whose path is `p`.
pub open spec fn first_with_path(nodes: Seq<DirentNode>, p: Seq<char>, from: int) -> Option<int>
    decreases nodes.len() - from,
{
    if from < 0 || from >= nodes.len() {
        None
    } else if nodes[from].path.0@ == p {
        Some(from)
    } else {
        first_with_path(nodes, p, from + 1)
    }
}

/// The first node with a path is one of the nodes, from `from` on.
proof fn lemma_first_with_path_in_range(nodes: Seq<DirentNode>, p: Seq<char>, from: int)
    ensures
        first_with_path(nodes, p, from) matches Some(i) ==> from <= i < nodes.len() && nodes[i].path.0@ == p,
    decreases nodes.len() - from,
{
    if 0 <= from < nodes.len() && nodes[from].path.0@ != p {
        lemma_first_with_path_in_range(nodes, p, from + 1);
    }
}

/// Check whether a path equal to `p` is in `paths`.
fn is_listed(paths: &[TreePath], p: &TreePath) -> (r: bool)
    ensures
        r == path_listed(paths@, p.0@),
{
    let mut i: usize = 0;
    while i < paths.len()
        invariant
            i <= paths@.len(),
            forall|k: int| 0 <= k < i ==> paths@[k].0@ != p.0@,
        decreases paths@.len() - i,
    {
        if paths[i].0 == p.0 {
            return true;
        }
        i += 1;
    }
    false
}

impl DirentTree {
    /// Total number of nodes (files + directories) in the tree.
    pub fn len(&self) -> (n: usize)
        ensures
            n == self.nodes@.len(),
    {
        self.nodes.len()
    }

    /// True when the tree has no nodes.
    pub fn is_empty(&self) -> (r: bool)
        ensures
            r == (self.nodes@.len() == 0),
    {
        self.nodes.len() == 0
    }

    /// True when node `idx` exists and is a directory.
    pub fn is_dir(&self, idx: usize) -> (r: bool)
        ensures
            r == (idx < self.nodes@.len() && dirent_is_dir(self.nodes@[idx as int].dirent)),
    {
        idx < self.nodes.len() && self.nodes[idx].dirent.is_directory()
    }

    /// Look up the first node whose path is `path`.
    pub fn find(&self, path: &TreePath) -> (r: Option<usize>)
        ensures
            r == (match first_with_path(self.nodes@, path.0@, 0) {
                Some(i) => Some(i as usize),
                None => None::<usize>,
            }),
    {
        let mut i: usize = 0;
        while i < self.nodes.len()
            invariant
                i <= self.nodes@.len(),
                first_with_path(self.nodes@, path.0@, 0) == first_with_path(self.nodes@, path.0@, i as int),
            decreases self.nodes@.len() - i,
        {
            if self.nodes[i].path.0 == path.0 {
                return Some(i);
            }
            i += 1;
        }
        None
    }

    /// Append the rows of node `idx` to `out`.
    fn walk(&self, idx: usize, expanded: &[TreePath], out: &mut Vec<usize>)
        requires
            tree_wf(*self),
            idx < self.nodes@.len(),
        ensures
            final(out)@ == old(out)@ + spec_vis(*self, idx as int, expanded@),
        decreases self.nodes@.len() - idx,
    {
        let ghost start = out@;
        out.push(idx);
        if !self.is_dir(idx) {
            assert(final(out)@ =~= start + spec_vis(*self, idx as int, expanded@));
            return;
        }
        if !is_listed(expanded, &self.nodes[idx].path) {
            assert(final(out)@ =~= start + spec_vis(*self, idx as int, expanded@));
            return;
        }
        let children = &self.children_of[idx];
        let mut k: usize = 0;
        while k < children.len()
            invariant
                tree_wf(*self),
                idx < self.nodes@.len(),
                children == &self.children_of@[idx as int],
                k <= children@.len(),
                start.push(idx as usize) + spec_vis_children(*self, idx as int, 0, expanded@)
                    == out@ + spec_vis_children(*self, idx as int, k as int, expanded@),
            decreases children@.len() - k,
        {
            let c = children[k];
            let ghost before = out@;
            self.walk(c, expanded, out);
            assert(out@ + spec_vis_children(*self, idx as int, k + 1, expanded@)
                =~= before + spec_vis_children(*self, idx as int, k as int, expanded@));
            k += 1;
        }
        assert(spec_vis_children(*self, idx as int, k as int, expanded@) =~= Seq::<usize>::empty());
        assert(final(out)@ =~= start + spec_vis(*self, idx as int, expanded@));
    }

    /// Check that the tree is well formed: one child list per node, each
    /// child after its parent and inside the tree.
    pub fn well_formed(&self) -> (r: bool)
        ensures
            r == tree_wf(*self),
    {
        if self.children_of.len() != self.nodes.len() {
            return false;
        }
        let n = self.nodes.len();
        let mut i: usize = 0;
        while i < n
            invariant
                n == self.nodes@.len(),
                self.children_of@.len() == n,
                i <= n,
                forall|a: int, b: int| 0 <= a < i && 0 <= b < self.children_of@[a]@.len() ==>
                    a < #[trigger] self.children_of@[a]@[b] < n,
            decreases n - i,
        {
            let cs = &self.children_of[i];
            let mut j: usize = 0;
            while j < cs.len()
                invariant
                    n == self.nodes@.len(),
                    self.children_of@.len() == n,
                    i < n,
                    cs == &self.children_of@[i as int],
                    j <= cs@.len(),
                    forall|a: int, b: int| 0 <= a < i && 0 <= b < self.children_of@[a]@.len() ==>
                        a < #[trigger] self.children_of@[a]@[b] < n,
                    forall|b: int| 0 <= b < j ==> i < #[trigger] cs@[b] < n,
                decreases cs@.len() - j,
            {
                let c = cs[j];
                if !(i < c && c < n) {
                    assert(!(i < self.children_of@[i as int]@[j as int] < n));
                    return false;
                }
                j += 1;
            }
            assert forall|a: int, b: int| 0 <= a < i + 1 && 0 <= b < self.children_of@[a]@.len() implies
                a < #[trigger] self.children_of@[a]@[b] < n by {
                if a == i {
                    assert(cs@[b] == self.children_of@[a]@[b]);
                }
            }
            i += 1;
        }
        true
    }

    /// For each node, whether some node lists it as a child.
    fn child_marks(&self) -> (m: Vec<bool>)
        requires
            tree_wf(*self),
        ensures
            m@.len() == self.nodes@.len(),
            forall|i: int| 0 <= i < m@.len() ==> m@[i] == is_child_node(*self, i),
    {
        let n = self.nodes.len();
        let mut m: Vec<bool> = Vec::new();
        let mut i: usize = 0;
        while i < n
            invariant
                i <= n,
                m@.len() == i,
                forall|j: int| 0 <= j < i ==> !m@[j],
            decreases n - i,
        {
            m.push(false);
            i += 1;
        }
        let mut p: usize = 0;
        while p < self.children_of.len()
            invariant
                tree_wf(*self),
                n == self.nodes@.len(),
                m@.len() == n,
                p <= self.children_of@.len(),
                forall|j: int| 0 <= j < n ==> m@[j] == listed_before(*self, j, p as int),
            decreases self.children_of@.len() - p,
        {
            let cs = &self.children_of[p];
            let mut k: usize = 0;
            while k < cs.len()
                invariant
                    tree_wf(*self),
                    n == self.nodes@.len(),
                    m@.len() == n,
                    p < self.children_of@.len(),
                    cs == &self.children_of@[p as int],
                    k <= cs@.len(),
                    forall|j: int| 0 <= j < n ==> m@[j] == (listed_before(*self, j, p as int)
                        || exists|k2: int| 0 <= k2 < k && #[trigger] cs@[k2] == j),
                decreases cs@.len() - k,
            {
                let c = cs[k];
                assert(p < c < n);
                m.set(c, true);
                assert forall|j: int| 0 <= j < n implies m@[j] == (listed_before(*self, j, p as int)
                    || exists|k2: int| 0 <= k2 < k + 1 && #[trigger] cs@[k2] == j) by {
                    if j == c {
                        assert(cs@[k as int] == j);
                    } else if exists|k2: int| 0 <= k2 < k + 1 && #[trigger] cs@[k2] == j {
                        let k2 = choose|k2: int| 0 <= k2 < k + 1 && #[trigger] cs@[k2] == j;
                        assert(k2 < k);
                    }
                }
                k += 1;
            }
            assert forall|j: int| 0 <= j < n implies m@[j] == listed_before(*self, j, p + 1) by {
                if listed_before(*self, j, p + 1) && !listed_before(*self, j, p as int) {
                    let (q, k2) = choose|q: int, k2: int|
                        0 <= q < p + 1 && q < self.children_of@.len() && 0 <= k2 < self.children_of@[q]@.len()
                            && #[trigger] self.children_of@[q]@[k2] == j;
                    if q < p {
                        assert(listed_before(*self, j, p as int));
                    }
                    assert(cs@[k2] == j);
                }
                if exists|k2: int| 0 <= k2 < cs@.len() && #[trigger] cs@[k2] == j {
                    let k2 = choose|k2: int| 0 <= k2 < cs@.len() && #[trigger] cs@[k2] == j;
                    assert(self.children_of@[p as int]@[k2] == j);
                }
                if listed_before(*self, j, p as int) {
                    let (q, k2) = choose|q: int, k2: int|
                        0 <= q < p && q < self.children_of@.len() && 0 <= k2 < self.children_of@[q]@.len()
                            && #[trigger] self.children_of@[q]@[k2] == j;
                    assert(self.children_of@[q]@[k2] == j);
                }
            }
            p += 1;
        }
        m
    }

    /// The visible rows: every top-level node (one that is no node's
    /// child) in order and, through expanded directories, the nodes below
    /// it, directories before their contents.
    pub fn visible_indices(&self, expanded: &[TreePath]) -> (v: Vec<usize>)
        requires
            tree_wf(*self),
        ensures
            v@ == spec_visible(*self, expanded@),
    {
        let marks = self.child_marks();
        let mut out: Vec<usize> = Vec::new();
        let mut i: usize = 0;
        while i < self.nodes.len()
            invariant
                tree_wf(*self),
                marks@.len() == self.nodes@.len(),
                forall|j: int| 0 <= j < marks@.len() ==> marks@[j] == is_child_node(*self, j),
                i <= self.nodes@.len(),
                out@ + spec_visible_from(*self, expanded@, i as int) == spec_visible(*self, expanded@),
            decreases self.nodes@.len() - i,
        {
            let ghost before = out@;
            if !marks[i] {
                self.walk(i, expanded, &mut out);
            }
            assert(out@ + spec_visible_from(*self, expanded@, i + 1)
                =~= before + spec_visible_from(*self, expanded@, i as int));
            i += 1;
        }
        assert(spec_visible_from(*self, expanded@, i as int) =~= Seq::<usize>::empty());
        assert(out@ =~= spec_visible(*self, expanded@));
        out
    }
}

/// The index of the last directory among the first `i` entries.
pub open spec fn last_dir_before(es: Seq<WalkedEntry>, i: int) -> Option<int>
    decreases i,
{
    if i <= 0 {
        None
    } else if dirent_is_dir(es[i - 1].dirent) {
        Some(i - 1)
    } else {
        last_dir_before(es, i - 1)
    }
}

/// The first index from `j` on that holds a directory, or the length.
pub open spec fn dir_run_end(es: Seq<WalkedEntry>, j: int) -> int
    decreases es.len() - j,
{
    if j >= es.len() || j < 0 || dirent_is_dir(es[j].dirent) {
        j
    } else {
        dir_run_end(es, j + 1)
    }
}

/// The path of the directory at `j`: its name and a `/`.
pub open spec fn dir_path(es: Seq<WalkedEntry>, j: int) -> Seq<char> {
    spec_display_name(es[j].dirent).push('/')
}

/// The tree path of entry `i`: a directory sits under the root; a file
/// sits under the last directory before it, or under the root.
pub open spec fn node_path(es: Seq<WalkedEntry>, i: int) -> Seq<char> {
    if dirent_is_dir(es[i].dirent) {
        dir_path(es, i)
    } else {
        (match last_dir_before(es, i) {
            Some(j) => dir_path(es, j),
            None => Seq::empty(),
        }) + spec_display_name(es[i].dirent)
    }
}

/// The children of entry `i`: for a directory, the files between it and the
/// next directory; none for a file.
pub open spec fn node_children(es: Seq<WalkedEntry>, i: int) -> Seq<usize> {
    if dirent_is_dir(es[i].dirent) {
        Seq::new((dir_run_end(es, i + 1) - (i + 1)) as nat, |t: int| (i + 1 + t) as usize)
    } else {
        Seq::empty()
    }
}

/// The tree built from `es`: one node per entry, in order, with the path,
/// size (0 for directories) and children given above.
pub open spec fn is_tree_of(t: DirentTree, es: Seq<WalkedEntry>) -> bool {
    &&& t.nodes@.len() == es.len()
    &&& t.children_of@.len() == es.len()
    &&& forall|i: int| 0 <= i < es.len() ==> {
        &&& (#[trigger] t.nodes@[i]).dirent == es[i].dirent
        &&& t.nodes@[i].path.0@ == node_path(es, i)
        &&& t.nodes@[i].size == (if dirent_is_dir(es[i].dirent) { 0 } else { es[i].dirent.size as u64 })
        &&& t.children_of@[i]@ == node_children(es, i)
    }
}

/// When the entries from `a` up to `b` are files and `b` is a directory or
/// the end, the run of files from `a` ends at `b`.
proof fn lemma_dir_run_end(es: Seq<WalkedEntry>, a: int, b: int)
    requires
        0 <= a <= b <= es.len(),
        forall|t: int| a <= t < b ==> !dirent_is_dir(#[trigger] es[t].dirent),
        b == es.len() || dirent_is_dir(es[b].dirent),
    ensures
        dir_run_end(es, a) == b,
    decreases b - a,
{
    if a < b {
        lemma_dir_run_end(es, a + 1, b);
    }
}

/// The last directory before `i` is before every later file.
proof fn lemma_last_dir_files(es: Seq<WalkedEntry>, i: int)
    requires
        0 <= i <= es.len(),
    ensures
        match last_dir_before(es, i) {
            Some(j) => 0 <= j < i && dirent_is_dir(es[j].dirent) && forall|t: int| j < t < i ==> !dirent_is_dir(#[trigger] es[t].dirent),
            None => forall|t: int| 0 <= t < i ==> !dirent_is_dir(#[trigger] es[t].dirent),
        },
    decreases i,
{
    if i > 0 {
        lemma_last_dir_files(es, i - 1);
    }
}

/// Reconstruct a tree from the flat dirent stream with the "nearest
/// preceding directory" heuristic (see the module documentation).
#[verifier::spinoff_prover]
#[verifier::rlimit(40)]
pub fn build_dirent_tree(entries: &[WalkedEntry]) -> (t: DirentTree)
    ensures
        is_tree_of(t, entries@),
        tree_wf(t),
{
    let n = entries.len();
    let mut nodes: Vec<DirentNode> = Vec::with_capacity(n);
    let mut children_of: Vec<Vec<usize>> = Vec::with_capacity(n);
    let mut last_dir: Option<usize> = None;
    let mut last_dir_path = String::new();
    let mut run: Vec<usize> = Vec::new();
    let mut i: usize = 0;
    while i < n
        invariant
            n == entries@.len(),
            i <= n,
            nodes@.len() == i,
            children_of@.len() == i,
            match last_dir_before(entries@, i as int) {
                Some(j) => 0 <= j && last_dir == Some(j as usize),
                None => last_dir is None,
            },
            last_dir matches Some(j) ==> j < i && last_dir_path@ == dir_path(entries@, j as int),
            last_dir is None ==> last_dir_path@ == Seq::<char>::empty(),
            last_dir is None ==> run@.len() == 0,
            last_dir matches Some(j) ==> run@ == Seq::new((i - (j + 1)) as nat, |t: int| (j + 1 + t) as usize),
            forall|k: int| 0 <= k < i ==> {
                &&& (#[trigger] nodes@[k]).dirent == entries@[k].dirent
                &&& nodes@[k].path.0@ == node_path(entries@, k)
                &&& nodes@[k].size == (if dirent_is_dir(entries@[k].dirent) { 0 } else { entries@[k].dirent.size as u64 })
                &&& (last_dir != Some(k as usize) ==> children_of@[k]@ == node_children(entries@, k))
            },
        decreases n - i,
    {
        proof {
            lemma_last_dir_files(entries@, i as int);
        }
        let d = entries[i].dirent;
        let name = d.display_name();
        let ghost old_nodes = nodes@;
        let ghost old_children = children_of@;
        let ghost old_last = last_dir;
        if d.is_directory() {
            let ghost mut set_at: int = -1;
            if let Some(j) = last_dir {
                proof {
                    lemma_dir_run_end(entries@, j + 1, i as int);
                    assert(run@ =~= node_children(entries@, j as int));
                }
                let done = run;
                children_of.set(j, done);
                run = Vec::new();
                proof {
                    set_at = j as int;
                    assert(children_of@[set_at]@ == node_children(entries@, set_at));
                }
            }
            let ghost after_set = children_of@;
            let mut p = name;
            p.push('/');
            let p2 = p.clone();
            nodes.push(DirentNode { dirent: d, path: TreePath(p), size: 0 });
            children_of.push(Vec::new());
            last_dir = Some(i);
            last_dir_path = p2;
            proof {
                assert(run@ =~= Seq::new((i + 1 - (i + 1)) as nat, |t: int| (i + 1 + t) as usize));
                assert forall|k: int| 0 <= k < i + 1 implies {
                    &&& (#[trigger] nodes@[k]).dirent == entries@[k].dirent
                    &&& nodes@[k].path.0@ == node_path(entries@, k)
                    &&& nodes@[k].size == (if dirent_is_dir(entries@[k].dirent) { 0 } else { entries@[k].dirent.size as u64 })
                    &&& (last_dir != Some(k as usize) ==> children_of@[k]@ == node_children(entries@, k))
                } by {
                    if k < i {
                        assert(nodes@[k] == old_nodes[k]);
                        assert(children_of@[k] == after_set[k]);
                        if k == set_at {
                            assert(children_of@[k]@ == node_children(entries@, k));
                        } else {
                            assert(after_set[k] == old_children[k]);
                            assert(old_last != Some(k as usize));
                        }
                    } else {
                        assert(nodes@[k].path.0@ =~= node_path(entries@, k));
                    }
                }
            }
        } else {
            let mut p = last_dir_path.clone();
            p.append(name.as_str());
            nodes.push(DirentNode { dirent: d, path: TreePath(p), size: d.size as u64 });
            children_of.push(Vec::new());
            if let Some(j) = last_dir {
                run.push(i);
                proof {
                    assert(run@ =~= Seq::new((i + 1 - (j + 1)) as nat, |t: int| (j + 1 + t) as usize));
                }
            }
            proof {
                assert(last_dir_before(entries@, i + 1) == last_dir_before(entries@, i as int));
                assert forall|k: int| 0 <= k < i + 1 implies {
                    &&& (#[trigger] nodes@[k]).dirent == entries@[k].dirent
                    &&& nodes@[k].path.0@ == node_path(entries@, k)
                    &&& nodes@[k].size == (if dirent_is_dir(entries@[k].dirent) { 0 } else { entries@[k].dirent.size as u64 })
                    &&& (last_dir != Some(k as usize) ==> children_of@[k]@ == node_children(entries@, k))
                } by {
                    if k < i {
                        assert(nodes@[k] == old_nodes[k]);
                        assert(children_of@[k] == old_children[k]);
                    } else {
                        assert(nodes@[k].path.0@ =~= node_path(entries@, k));
                        assert(children_of@[k]@ =~= node_children(entries@, k));
                    }
                }
            }
        }
        i += 1;
    }
    let ghost pre_children = children_of@;
    if let Some(j) = last_dir {
        proof {
            lemma_last_dir_files(entries@, n as int);
            lemma_dir_run_end(entries@, j + 1, n as int);
            assert(run@ =~= node_children(entries@, j as int));
        }
        children_of.set(j, run);
    }
    let t = DirentTree { nodes, children_of };
    proof {
        assert forall|k: int| 0 <= k < n implies t.children_of@[k]@ == node_children(entries@, k) by {
            assert(nodes@[k].dirent == entries@[k].dirent);
            if last_dir != Some(k as usize) {
                assert(t.children_of@[k] == pre_children[k]);
            }
        }
        assert forall|a: int, b: int| 0 <= a < t.children_of@.len() && 0 <= b < t.children_of@[a]@.len() implies
            a < #[trigger] t.children_of@[a]@[b] < t.nodes@.len() by {
            assert(t.children_of@[a]@ == node_children(entries@, a));
            if dirent_is_dir(entries@[a].dirent) {
                lemma_dir_run_end_bound(entries@, a + 1);
            }
        }
        assert forall|k: int| 0 <= k < n implies {
            &&& (#[trigger] t.nodes@[k]).dirent == entries@[k].dirent
            &&& t.nodes@[k].path.0@ == node_path(entries@, k)
            &&& t.nodes@[k].size == (if dirent_is_dir(entries@[k].dirent) { 0 } else { entries@[k].dirent.size as u64 })
            &&& t.children_of@[k]@ == node_children(entries@, k)
        } by {
            assert(t.nodes@[k] == nodes@[k]);
        }
    }
    t
}

/// The run of files from `j` ends within the entries.
proof fn lemma_dir_run_end_bound(es: Seq<WalkedEntry>, j: int)
    requires
        0 <= j <= es.len(),
    ensures
        j <= dir_run_end(es, j) <= es.len(),
        forall|t: int| j <= t < dir_run_end(es, j) ==> !dirent_is_dir(#[trigger] es[t].dirent),
        dir_run_end(es, j) == es.len() || dirent_is_dir(es[dir_run_end(es, j)].dirent),
    decreases es.len() - j,
{
    if j < es.len() && !dirent_is_dir(es[j].dirent) {
        lemma_dir_run_end_bound(es, j + 1);
    }
}

/// In the tree built from `es`, node `j` lists node `i` as a child exactly
/// when `j` is a directory, `i` a file, and `j` the last directory before
/// `i`: a directory holds the files that follow it up to the next
/// directory, no node holds a directory, and a file before the first
/// directory has no parent. The children come in increasing order.
pub proof fn lemma_tree_parent(t: DirentTree, es: Seq<WalkedEntry>, j: int, i: int)
    requires
        is_tree_of(t, es),
        es.len() <= usize::MAX,
        0 <= j < es.len(),
        0 <= i < es.len(),
    ensures
        t.children_of@[j]@.contains(i as usize) <==> (dirent_is_dir(es[j].dirent) && !dirent_is_dir(es[i].dirent)
            && last_dir_before(es, i) == Some(j)),
        forall|a: int, b: int| 0 <= a < b < t.children_of@[j]@.len() ==>
            (#[trigger] t.children_of@[j]@[a]) < (#[trigger] t.children_of@[j]@[b]),
{
    assert(t.nodes@[j].dirent == es[j].dirent);
    assert(t.children_of@[j]@ == node_children(es, j));
    lemma_last_dir_files(es, i);
    if dirent_is_dir(es[j].dirent) {
        lemma_dir_run_end_bound(es, j + 1);
        let end = dir_run_end(es, j + 1);
        let c = node_children(es, j);
        if c.contains(i as usize) {
            let k = choose|k: int| 0 <= k < c.len() && c[k] == i as usize;
            assert(i == j + 1 + k);
            assert(!dirent_is_dir(es[i].dirent));
            match last_dir_before(es, i) {
                Some(m) => {
                    if m != j {
                        if m < j {
                            assert(!dirent_is_dir(es[j].dirent));
                        } else {
                            assert(j + 1 <= m < end);
                            assert(!dirent_is_dir(es[m].dirent));
                        }
                    }
                },
                None => {
                    assert(!dirent_is_dir(es[j].dirent));
                },
            }
        }
        if !dirent_is_dir(es[i].dirent) && last_dir_before(es, i) == Some(j) {
            if i >= end {
                assert(end < i);
                assert(dirent_is_dir(es[end].dirent));
            }
            assert(c[i - j - 1] == i as usize);
        }
    }
}

/// A copy of `p` with the same text.
fn copy_path(p: &TreePath) -> (q: TreePath)
    ensures
        q.0@ == p.0@,
{
    TreePath(p.0.clone())
}

/// Every row shown for node `idx` is a node at or after `idx`.
proof fn lemma_vis_bounded(t: DirentTree, idx: int, e: Seq<TreePath>)
    requires
        tree_wf(t),
        0 <= idx < t.nodes@.len(),
    ensures
        forall|k: int| 0 <= k < spec_vis(t, idx, e).len() ==>
            idx <= #[trigger] spec_vis(t, idx, e)[k] < t.nodes@.len(),
    decreases t.nodes@.len() - idx, 1int, 0int,
{
    if dirent_is_dir(t.nodes@[idx].dirent) && path_listed(e, t.nodes@[idx].path.0@) {
        lemma_vis_children_bounded(t, idx, 0, e);
        let head = seq![idx as usize];
        let rest = spec_vis_children(t, idx, 0, e);
        assert forall|k: int| 0 <= k < spec_vis(t, idx, e).len() implies
            idx <= #[trigger] spec_vis(t, idx, e)[k] < t.nodes@.len() by {
            if k >= 1 {
                assert(spec_vis(t, idx, e)[k] == rest[k - 1]);
            }
        }
    }
}

/// Every row shown for the children of node `p` from its `k`-th child on
/// is a node after `p`.
proof fn lemma_vis_children_bounded(t: DirentTree, p: int, k: int, e: Seq<TreePath>)
    requires
        tree_wf(t),
        0 <= p < t.nodes@.len(),
        0 <= k,
    ensures
        forall|m: int| 0 <= m < spec_vis_children(t, p, k, e).len() ==>
            p < #[trigger] spec_vis_children(t, p, k, e)[m] < t.nodes@.len(),
    decreases t.nodes@.len() - p, 0int, t.children_of@[p]@.len() - k,
{
    if k < t.children_of@[p]@.len() {
        let c = t.children_of@[p]@[k] as int;
        assert(p < c < t.nodes@.len());
        lemma_vis_bounded(t, c, e);
        lemma_vis_children_bounded(t, p, k + 1, e);
        let a = spec_vis(t, c, e);
        let b = spec_vis_children(t, p, k + 1, e);
        assert forall|m: int| 0 <= m < spec_vis_children(t, p, k, e).len() implies
            p < #[trigger] spec_vis_children(t, p, k, e)[m] < t.nodes@.len() by {
            if m < a.len() {
                assert(spec_vis_children(t, p, k, e)[m] == a[m]);
            } else {
                assert(spec_vis_children(t, p, k, e)[m] == b[m - a.len()]);
            }
        }
    }
}

/// Every visible row of a well-formed tree is one of its nodes.
pub proof fn lemma_visible_in_tree(t: DirentTree, e: Seq<TreePath>)
    requires
        tree_wf(t),
    ensures
        forall|k: int| 0 <= k < spec_visible(t, e).len() ==> #[trigger] spec_visible(t, e)[k] < t.nodes@.len(),
{
    lemma_visible_from_bounded(t, e, 0);
}

/// Node `x` hangs under an expanded directory: a directory whose path is
/// in `e` lists it as a child.
pub open spec fn under_expanded(t: DirentTree, e: Seq<TreePath>, x: int) -> bool {
    exists|p: int, k: int|
        0 <= p < t.children_of@.len() && 0 <= k < t.children_of@[p]@.len()
            && #[trigger] t.children_of@[p]@[k] == x
            && dirent_is_dir(t.nodes@[p].dirent) && path_listed(e, t.nodes@[p].path.0@)
}

/// Every row shown for node `idx` is `idx` itself or hangs under an
/// expanded directory.
proof fn lemma_vis_rows(t: DirentTree, idx: int, e: Seq<TreePath>)
    requires
        tree_wf(t),
        0 <= idx < t.nodes@.len(),
    ensures
        forall|m: int| 0 <= m < spec_vis(t, idx, e).len() ==>
            #[trigger] spec_vis(t, idx, e)[m] == idx || under_expanded(t, e, spec_vis(t, idx, e)[m] as int),
    decreases t.nodes@.len() - idx, 1int, 0int,
{
    if dirent_is_dir(t.nodes@[idx].dirent) && path_listed(e, t.nodes@[idx].path.0@) {
        lemma_vis_children_rows(t, idx, 0, e);
        let rest = spec_vis_children(t, idx, 0, e);
        assert forall|m: int| 0 <= m < spec_vis(t, idx, e).len() implies
            #[trigger] spec_vis(t, idx, e)[m] == idx || under_expanded(t, e, spec_vis(t, idx, e)[m] as int) by {
            if m >= 1 {
                assert(spec_vis(t, idx, e)[m] == rest[m - 1]);
            }
        }
    }
}

/// Every row shown for the children of the expanded directory `p`, from
/// its `k`-th child on, hangs under an expanded directory.
proof fn lemma_vis_children_rows(t: DirentTree, p: int, k: int, e: Seq<TreePath>)
    requires
        tree_wf(t),
        0 <= p < t.nodes@.len(),
        0 <= k,
        dirent_is_dir(t.nodes@[p].dirent),
        path_listed(e, t.nodes@[p].path.0@),
    ensures
        forall|m: int| 0 <= m < spec_vis_children(t, p, k, e).len() ==>
            under_expanded(t, e, #[trigger] spec_vis_children(t, p, k, e)[m] as int),
    decreases t.nodes@.len() - p, 0int, t.children_of@[p]@.len() - k,
{
    if k < t.children_of@[p]@.len() {
        let c = t.children_of@[p]@[k] as int;
        assert(p < c < t.nodes@.len());
        lemma_vis_rows(t, c, e);
        lemma_vis_children_rows(t, p, k + 1, e);
        let a = spec_vis(t, c, e);
        let b = spec_vis_children(t, p, k + 1, e);
        assert(under_expanded(t, e, c));
        assert forall|m: int| 0 <= m < spec_vis_children(t, p, k, e).len() implies
            under_expanded(t, e, #[trigger] spec_vis_children(t, p, k, e)[m] as int) by {
            if m < a.len() {
                assert(spec_vis_children(t, p, k, e)[m] == a[m]);
            } else {
                assert(spec_vis_children(t, p, k, e)[m] == b[m - a.len()]);
            }
        }
    }
}

/// Every row shown for the top-level nodes from `i` on is a top-level node
/// or hangs under an expanded directory.
#[verifier::spinoff_prover]
proof fn lemma_visible_from_rows(t: DirentTree, e: Seq<TreePath>, i: int)
    requires
        tree_wf(t),
        0 <= i,
    ensures
        forall|m: int| 0 <= m < spec_visible_from(t, e, i).len() ==>
            !is_child_node(t, #[trigger] spec_visible_from(t, e, i)[m] as int)
                || under_expanded(t, e, spec_visible_from(t, e, i)[m] as int),
    decreases t.nodes@.len() - i,
{
    if i < t.nodes@.len() {
        lemma_visible_from_rows(t, e, i + 1);
        if !is_child_node(t, i) {
            lemma_vis_rows(t, i, e);
            let a = spec_vis(t, i, e);
            let b = spec_visible_from(t, e, i + 1);
            assert forall|m: int| 0 <= m < spec_visible_from(t, e, i).len() implies
                !is_child_node(t, #[trigger] spec_visible_from(t, e, i)[m] as int)
                    || under_expanded(t, e, spec_visible_from(t, e, i)[m] as int) by {
                if m < a.len() {
                    assert(spec_visible_from(t, e, i)[m] == a[m]);
                } else {
                    assert(spec_visible_from(t, e, i)[m] == b[m - a.len()]);
                }
            }
        }
    }
}

/// A node is shown only when it is a top-level node or a child of a
/// directory that is expanded: the children of collapsed directories are
/// hidden.
pub proof fn lemma_visible_rows_reachable(t: DirentTree, e: Seq<TreePath>)
    requires
        tree_wf(t),
    ensures
        forall|m: int| 0 <= m < spec_visible(t, e).len() ==>
            !is_child_node(t, #[trigger] spec_visible(t, e)[m] as int)
                || under_expanded(t, e, spec_visible(t, e)[m] as int),
{
    lemma_visible_from_rows(t, e, 0);
}

/// Every top-level node (one that is no node's child) is shown, whatever
/// is expanded.
pub proof fn lemma_top_level_visible(t: DirentTree, e: Seq<TreePath>, i: int)
    requires
        tree_wf(t),
        0 <= i < t.nodes@.len(),
        !is_child_node(t, i),
    ensures
        spec_visible(t, e).contains(i as usize),
{
    lemma_visible_from_contains(t, e, 0, i);
}

/// The rows of the top-level nodes from `j` on show every top-level node
/// from `j` on.
proof fn lemma_visible_from_contains(t: DirentTree, e: Seq<TreePath>, j: int, i: int)
    requires
        tree_wf(t),
        0 <= j <= i < t.nodes@.len(),
        !is_child_node(t, i),
    ensures
        spec_visible_from(t, e, j).contains(i as usize),
    decreases i - j,
{
    let rest = spec_visible_from(t, e, j + 1);
    if j == i {
        let v = spec_vis(t, i, e);
        assert(v[0] == i as usize);
        assert(spec_visible_from(t, e, j) == v + rest);
        assert((v + rest)[0] == i as usize);
    } else {
        lemma_visible_from_contains(t, e, j + 1, i);
        let k = choose|k: int| 0 <= k < rest.len() && rest[k] == i as usize;
        if is_child_node(t, j) {
            assert(spec_visible_from(t, e, j) == rest);
        } else {
            let v = spec_vis(t, j, e);
            assert(spec_visible_from(t, e, j) == v + rest);
            assert((v + rest)[v.len() + k] == i as usize);
        }
    }
}

/// Every row shown for the top-level nodes from `i` on is a node of the tree.
proof fn lemma_visible_from_bounded(t: DirentTree, e: Seq<TreePath>, i: int)
    requires
        tree_wf(t),
        0 <= i,
    ensures
        forall|k: int| 0 <= k < spec_visible_from(t, e, i).len() ==>
            #[trigger] spec_visible_from(t, e, i)[k] < t.nodes@.len(),
    decreases t.nodes@.len() - i,
{
    if i < t.nodes@.len() {
        lemma_visible_from_bounded(t, e, i + 1);
        if !is_child_node(t, i) {
            lemma_vis_bounded(t, i, e);
            let a = spec_vis(t, i, e);
            let b = spec_visible_from(t, e, i + 1);
            assert forall|k: int| 0 <= k < spec_visible_from(t, e, i).len() implies
                #[trigger] spec_visible_from(t, e, i)[k] < t.nodes@.len() by {
                if k < a.len() {
                    assert(spec_visible_from(t, e, i)[k] == a[k]);
                } else {
                    assert(spec_visible_from(t, e, i)[k] == b[k - a.len()]);
                }
            }
        }
    }
}

/// The first position in `vis` whose node has the path `sel`, from `from` on.
pub open spec fn pos_of(t: DirentTree, vis: Seq<usize>, sel: Seq<char>, from: int) -> Option<int>
    decreases vis.len() - from,
{
    if from < 0 || from >= vis.len() {
        None
    } else if t.nodes@[vis[from] as int].path.0@ == sel {
        Some(from)
    } else {
        pos_of(t, vis, sel, from + 1)
    }
}

/// The row the cursor lands on among `len` rows: the current row `pos`
/// moved by `delta` and clamped, or the first row (moving down) or the last
/// row (moving up) when the selection is not shown.
pub open spec fn cursor_target(len: int, pos: Option<int>, delta: int) -> int {
    match pos {
        Some(p) => clamp(p + delta, 0, len - 1),
        None => if delta >= 0 { 0 } else { len - 1 },
    }
}

/// Holds of the paths other than `p`.
pub open spec fn other_paths(p: Seq<char>) -> spec_fn(TreePath) -> bool {
    |q: TreePath| q.0@ != p
}

/// The visible row a list action selects among `len` rows, the selection
/// being at row `pos` and the list scrolled by `scroll` rows: a row step
/// moves as `cursor_target` says, Home and End go to the first and last
/// row, a click picks the row under it; none for other actions, for a click
/// below the last row, or when no row is shown.
pub open spec fn list_target(len: int, pos: Option<int>, scroll: int, action: Action) -> Option<int> {
    if len == 0 {
        None
    } else if is_row_step(action) {
        Some(cursor_target(len, pos, row_step(action)))
    } else {
        match action {
            Action::Home => Some(0),
            Action::End => Some(len - 1),
            Action::Click { row, .. } => match clicked_row(row, scroll) {
                Some(k) => if k < len { Some(k) } else { None },
                None => None,
            },
            _ => None,
        }
    }
}

/// True for the actions that expand the selected directory.
pub open spec fn is_expand_action(action: Action) -> bool {
    action is Right || action is Enter || action is Expand
}

/// True for the actions that collapse the selected directory or go to its
/// parent.
pub open spec fn is_collapse_action(action: Action) -> bool {
    action is Left || action is Back || action is Collapse
}

/// The selection of `s` is a directory of its tree.
pub open spec fn selected_dir(s: ImageOldState) -> bool {
    first_with_path(s.tree.nodes@, s.selected.0@, 0) matches Some(i) && dirent_is_dir(s.tree.nodes@[i].dirent)
}

/// What `action` does to the pre-11.x view `a`, giving `b`. A list action
/// selects the row `list_target` names. An expand action adds a selected
/// directory to the expanded paths (once). A collapse action removes a
/// selected, expanded directory from them, and otherwise selects the
/// parent of the selection when that is not the root. Anything else
/// changes nothing; the tree, scroll and source stay.
pub open spec fn old_view_acted(a: ImageOldState, b: ImageOldState, action: Action) -> bool {
    let vis = spec_visible(a.tree, a.expanded@);
    let sel = a.selected.0@;
    &&& b.tree == a.tree
    &&& b.scroll == a.scroll
    &&& b.source_path == a.source_path
    &&& if is_expand_action(action) {
        &&& b.selected == a.selected
        &&& if selected_dir(a) && !path_listed(a.expanded@, sel) {
            &&& b.expanded@.len() == a.expanded@.len() + 1
            &&& b.expanded@.drop_last() == a.expanded@
            &&& b.expanded@.last().0@ == sel
        } else {
            b.expanded == a.expanded
        }
    } else if is_collapse_action(action) {
        if selected_dir(a) && path_listed(a.expanded@, sel) {
            &&& b.selected == a.selected
            &&& b.expanded@ == a.expanded@.filter(other_paths(sel))
        } else if spec_parent(sel).len() > 0 {
            &&& b.selected.0@ == spec_parent(sel)
            &&& b.expanded == a.expanded
        } else {
            &&& b.selected == a.selected
            &&& b.expanded == a.expanded
        }
    } else {
        &&& b.expanded == a.expanded
        &&& match list_target(vis.len() as int, pos_of(a.tree, vis, sel, 0), a.scroll as int, action) {
            Some(k) => 0 <= k < vis.len() && b.selected.0@ == a.tree.nodes@[vis[k] as int].path.0@,
            None => b.selected == a.selected,
        }
    }
}

/// All data the browser needs to render the pre-11.x image view.
#[derive(Debug)]
pub struct ImageOldState {
    pub source_path: String,
    pub tree: DirentTree,
    pub selected: TreePath,
    pub scroll: usize,
    pub expanded: Vec<TreePath>,
    pub last_loaded: std::time::Instant,
}

/// The view state is well formed when its tree is.
pub open spec fn state_wf(s: ImageOldState) -> bool {
    tree_wf(s.tree)
}

impl DirentTree {
    /// The position in `vis` of the first row whose node has the path `sel`.
    fn position_of(&self, vis: &Vec<usize>, sel: &TreePath) -> (r: Option<usize>)
        requires
            forall|k: int| 0 <= k < vis@.len() ==> #[trigger] vis@[k] < self.nodes@.len(),
        ensures
            match pos_of(*self, vis@, sel.0@, 0) {
                Some(p) => r matches Some(q) && q as int == p && q < vis@.len(),
                None => r is None,
            },
    {
        let mut i: usize = 0;
        while i < vis.len()
            invariant
                i <= vis@.len(),
                forall|k: int| 0 <= k < vis@.len() ==> #[trigger] vis@[k] < self.nodes@.len(),
                pos_of(*self, vis@, sel.0@, 0) == pos_of(*self, vis@, sel.0@, i as int),
            decreases vis@.len() - i,
        {
            if self.nodes[vis[i]].path.0 == sel.0 {
                return Some(i);
            }
            i += 1;
        }
        None
    }
}

impl ImageOldState {
    /// An empty view of the image at `source_path`: no nodes, the root
    /// selected and expanded.
    pub fn new(source_path: String) -> (s: Self)
        ensures
            s.source_path@ == source_path@,
            s.tree.nodes@.len() == 0,
            s.tree.children_of@.len() == 0,
            s.selected.0@ == Seq::<char>::empty(),
            s.scroll == 0,
            s.expanded@.len() == 1,
            s.expanded@[0].0@ == Seq::<char>::empty(),
            state_wf(s),
    {
        let mut expanded: Vec<TreePath> = Vec::new();
        expanded.push(TreePath::root());
        ImageOldState {
            source_path,
            tree: DirentTree::default(),
            selected: TreePath::root(),
            scroll: 0,
            expanded,
            last_loaded: now(),
        }
    }

    /// Load the directory of the image held in `image`: walk its dirents,
    /// rebuild the tree, and reset the selection, scroll and expansion. On
    /// an error nothing changes.
    pub fn load(&mut self, image: &[u8]) -> (r: Result<()>)
        ensures
            match spec_walk(image@) {
                Ok(es) => {
                    &&& r is Ok
                    &&& is_tree_of(final(self).tree, es)
                    &&& state_wf(*final(self))
                    &&& final(self).source_path == old(self).source_path
                    &&& final(self).selected.0@ == Seq::<char>::empty()
                    &&& final(self).scroll == 0
                    &&& final(self).expanded@.len() == 1
                    &&& final(self).expanded@[0].0@ == Seq::<char>::empty()
                },
                Err(c) => fails_with(r, c) && *final(self) == *old(self),
            },
            spec_walk_fault(image@) matches Err(f) ==> (r matches Err(e) && is_fault(e, f)),
    {
        let entries = match walk_dirents(image) {
            Ok(v) => v,
            Err(e) => return Err(e),
        };
        self.tree = build_dirent_tree(entries.as_slice());
        self.selected = TreePath::root();
        self.scroll = 0;
        let mut expanded: Vec<TreePath> = Vec::new();
        expanded.push(TreePath::root());
        self.expanded = expanded;
        self.last_loaded = now();
        Ok(())
    }

    /// Expand a directory (show its children); a path already expanded is
    /// not added twice.
    pub fn expand(&mut self, path: TreePath)
        ensures
            final(self).expanded@ == (if path_listed(old(self).expanded@, path.0@) {
                old(self).expanded@
            } else {
                old(self).expanded@.push(path)
            }),
            final(self).tree == old(self).tree,
            final(self).selected == old(self).selected,
            final(self).scroll == old(self).scroll,
            final(self).source_path == old(self).source_path,
    {
        if !is_listed(self.expanded.as_slice(), &path) {
            self.expanded.push(path);
        }
    }

    /// Collapse a directory (hide its children): every expanded path equal
    /// to `path` is dropped.
    pub fn collapse(&mut self, path: TreePath)
        ensures
            final(self).expanded@ == old(self).expanded@.filter(other_paths(path.0@)),
            final(self).tree == old(self).tree,
            final(self).selected == old(self).selected,
            final(self).scroll == old(self).scroll,
            final(self).source_path == old(self).source_path,
    {
        let ghost pred = other_paths(path.0@);
        let ghost all = self.expanded@;
        let ghost mut j: int = 0;
        let mut i: usize = 0;
        while i < self.expanded.len()
            invariant
                0 <= i <= self.expanded@.len(),
                0 <= j <= all.len(),
                self.expanded@.len() - i == all.len() - j,
                self.expanded@.subrange(0, i as int) == all.subrange(0, j).filter(pred),
                self.expanded@.subrange(i as int, self.expanded@.len() as int) == all.subrange(j, all.len() as int),
                self.tree == old(self).tree,
                self.selected == old(self).selected,
                self.scroll == old(self).scroll,
                self.source_path == old(self).source_path,
                all == old(self).expanded@,
                pred == other_paths(path.0@),
            decreases self.expanded@.len() - i,
        {
            let ghost cur = self.expanded@;
            proof {
                assert(all.subrange(0, j + 1).drop_last() =~= all.subrange(0, j));
                assert(all[j] == cur[i as int]) by {
                    assert(cur.subrange(i as int, cur.len() as int)[0] == cur[i as int]);
                }
            }
            if self.expanded[i].0 != path.0 {
                proof {
                    reveal_with_fuel(Seq::filter, 1);
                    assert(pred(all[j]));
                    let s1 = all.subrange(0, j + 1);
                    assert(s1.last() == all[j]);
                    assert(s1.filter(pred) == s1.drop_last().filter(pred).push(s1.last()));
                    assert(cur.subrange(0, i + 1) =~= cur.subrange(0, i as int).push(cur[i as int]));
                    assert(cur.subrange(0, i + 1) =~= all.subrange(0, j + 1).filter(pred));
                    let tail_c = cur.subrange(i as int, cur.len() as int);
                    let tail_a = all.subrange(j, all.len() as int);
                    assert forall|m: int| 0 <= m < cur.len() - (i + 1) implies
                        #[trigger] cur.subrange(i + 1, cur.len() as int)[m] == all.subrange(j + 1, all.len() as int)[m] by {
                        assert(tail_c[m + 1] == tail_a[m + 1]);
                    }
                    assert(cur.subrange(i + 1, cur.len() as int) =~= all.subrange(j + 1, all.len() as int));
                }
                i += 1;
            } else {
                self.expanded.remove(i);
                proof {
                    reveal_with_fuel(Seq::filter, 1);
                    assert(!pred(all[j]));
                    let s1 = all.subrange(0, j + 1);
                    assert(s1.last() == all[j]);
                    assert(s1.filter(pred) == s1.drop_last().filter(pred));
                    let tail_c = cur.subrange(i as int, cur.len() as int);
                    let tail_a = all.subrange(j, all.len() as int);
                    assert forall|m: int| 0 <= m < cur.len() - (i + 1) implies
                        #[trigger] self.expanded@.subrange(i as int, self.expanded@.len() as int)[m] == all.subrange(j + 1, all.len() as int)[m] by {
                        assert(tail_c[m + 1] == tail_a[m + 1]);
                    }
                    assert(self.expanded@.subrange(0, i as int) =~= cur.subrange(0, i as int));
                    assert(self.expanded@.subrange(0, i as int) =~= all.subrange(0, j + 1).filter(pred));
                    assert(self.expanded@.subrange(i as int, self.expanded@.len() as int)
                        =~= all.subrange(j + 1, all.len() as int));
                }
            }
            proof {
                j = j + 1;
            }
        }
        assert(self.expanded@ =~= self.expanded@.subrange(0, i as int));
        assert(all.subrange(0, j) =~= all);
    }

    /// Move the selection by `delta` rows among the visible rows, clamped
    /// to them; when the selection is not shown, go to the first row
    /// (moving down) or the last (moving up). Nothing moves when no row is
    /// shown.
    pub fn move_cursor(&mut self, delta: isize)
        requires
            state_wf(*old(self)),
        ensures
            ({
                let vis = spec_visible(old(self).tree, old(self).expanded@);
                if vis.len() == 0 {
                    *final(self) == *old(self)
                } else {
                    let k = cursor_target(vis.len() as int, pos_of(old(self).tree, vis, old(self).selected.0@, 0), delta as int);
                    &&& 0 <= k < vis.len()
                    &&& final(self).selected.0@ == old(self).tree.nodes@[vis[k] as int].path.0@
                    &&& final(self).tree == old(self).tree
                    &&& final(self).expanded == old(self).expanded
                    &&& final(self).scroll == old(self).scroll
                    &&& final(self).source_path == old(self).source_path
                }
            }),
    {
        let visible = self.tree.visible_indices(self.expanded.as_slice());
        if visible.len() == 0 {
            return;
        }
        proof {
            lemma_visible_in_tree(self.tree, self.expanded@);
        }
        let len = visible.len();
        let new_pos: usize = match self.tree.position_of(&visible, &self.selected) {
            Some(p) => {
                let target: i128 = p as i128 + delta as i128;
                if target < 0 {
                    0
                } else if target > (len - 1) as i128 {
                    len - 1
                } else {
                    target as usize
                }
            },
            None => if delta >= 0 { 0 } else { len - 1 },
        };
        let node = visible[new_pos];
        self.selected = copy_path(&self.tree.nodes[node].path);
    }

    /// Adjust the scroll so the selected row is inside a viewport of
    /// `viewport` rows; nothing changes when the selection is not shown.
    pub fn ensure_visible(&mut self, viewport: usize)
        requires
            state_wf(*old(self)),
        ensures
            ({
                let vis = spec_visible(old(self).tree, old(self).expanded@);
                final(self).scroll == (match pos_of(old(self).tree, vis, old(self).selected.0@, 0) {
                    Some(p) => spec_scroll_to(p, old(self).scroll as int, viewport as int),
                    None => old(self).scroll as int,
                })
            }),
            final(self).tree == old(self).tree,
            final(self).expanded == old(self).expanded,
            final(self).selected == old(self).selected,
            final(self).source_path == old(self).source_path,
    {
        let visible = self.tree.visible_indices(self.expanded.as_slice());
        proof {
            lemma_visible_in_tree(self.tree, self.expanded@);
        }
        if let Some(pos) = self.tree.position_of(&visible, &self.selected) {
            self.scroll = scroll_to(pos, self.scroll, viewport);
        }
    }

    /// Apply a browse action to the view: move the selection through the
    /// visible rows (arrows, page keys, wheel, Home, End, click), expand
    /// the selected directory, or collapse it or go to its parent.
    pub fn apply(&mut self, action: Action)
        requires
            state_wf(*old(self)),
        ensures
            old_view_acted(*old(self), *final(self), action),
            state_wf(*final(self)),
    {
        proof {
            lemma_first_with_path_in_range(self.tree.nodes@, self.selected.0@, 0);
        }
        match action {
            Action::Right | Action::Enter | Action::Expand => {
                let dir = match self.tree.find(&self.selected) {
                    Some(i) => self.tree.is_dir(i),
                    None => false,
                };
                if dir && !is_listed(self.expanded.as_slice(), &self.selected) {
                    let ghost before = self.expanded@;
                    let p = copy_path(&self.selected);
                    self.expand(p);
                    assert(self.expanded@.drop_last() =~= before);
                }
                return;
            },
            Action::Left | Action::Back | Action::Collapse => {
                let dir = match self.tree.find(&self.selected) {
                    Some(i) => self.tree.is_dir(i),
                    None => false,
                };
                if dir && is_listed(self.expanded.as_slice(), &self.selected) {
                    let p = copy_path(&self.selected);
                    self.collapse(p);
                    return;
                }
                let parent = self.selected.parent();
                if parent.0.as_str().unicode_len() > 0 {
                    self.selected = parent;
                }
                return;
            },
            _ => {},
        }
        let step = row_step_of(action);
        if step != 0 {
            self.move_cursor(step);
            return;
        }
        let visible = self.tree.visible_indices(self.expanded.as_slice());
        if visible.len() == 0 {
            return;
        }
        proof {
            lemma_visible_in_tree(self.tree, self.expanded@);
        }
        let len = visible.len();
        let target: Option<usize> = match action {
            Action::Home => Some(0),
            Action::End => Some(len - 1),
            Action::Click { row, .. } => clicked_row_in(row, self.scroll, len),
            _ => None,
        };
        if let Some(k) = target {
            let node = visible[k];
            self.selected = copy_path(&self.tree.nodes[node].path);
        }
    }

    /// Extract one file or directory to `out_path`. Not available in this
    /// version: always refused with a message saying so.
    pub fn extract_to(&self, entry: &DirentNode, out_path: &str) -> (r: core::result::Result<u64, String>)
        ensures
            r matches Err(m) && m@ == "extract is not yet implemented in v0.2 (planned for v0.3)"@,
    {
        Err(String::from_str("extract is not yet implemented in v0.2 (planned for v0.3)"))
    }
}

} // verus!
