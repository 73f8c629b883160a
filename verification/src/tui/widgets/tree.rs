//! Text of the dirent tree widget: per visible node an indented row with a
//! directory marker, the name and the size, and the style it is drawn in.

use vstd::prelude::*;

use crate::ghostold::dirent::spec_display_name;
use crate::tui::browse::image_old::{dirent_is_dir, DirentNode, DirentTree, TreePath};

verus! {

/// The number of `/` in `s`.
pub open spec fn count_slashes(s: Seq<char>) -> nat
    decreases s.len(),
{
    if s.len() == 0 {
        0
    } else {
        count_slashes(s.drop_last()) + if s.last() == '/' { 1nat } else { 0nat }
    }
}

/// The depth of a path: the number of `/` in it (0 for the root).
pub fn compute_depth(tree: &DirentTree, path: &TreePath) -> (d: usize)
    ensures
        d == count_slashes(path.0@),
{
    let s = path.0.as_str();
    let n = s.unicode_len();
    let mut d: usize = 0;
    let mut i: usize = 0;
    while i < n
        invariant
            i <= n == s@.len(),
            d == count_slashes(s@.subrange(0, i as int)),
            d <= i,
        decreases n - i,
    {
        proof {
            assert(s@.subrange(0, i + 1).drop_last() =~= s@.subrange(0, i as int));
        }
        if s.get_char(i) == '/' {
            d += 1;
        }
        i += 1;
    }
    assert(s@.subrange(0, n as int) =~= s@);
    d
}

/// How a row of the tree is drawn.
#[derive(Debug, Clone, Copy, PartialEq, Eq, Structural)]
pub enum RowStyle {
    Selected,
    Directory,
    VfatLong,
    Archive,
    Base,
}

/// The style of a node's row: the selection style when selected, else by
/// its attributes (directory, long-name entry, archive, plain).
pub open spec fn spec_row_style(node: DirentNode, is_selected: bool) -> RowStyle {
    if is_selected {
        RowStyle::Selected
    } else if dirent_is_dir(node.dirent) {
        RowStyle::Directory
    } else if node.dirent.attrs & 0x0fu8 == 0x0fu8 {
        RowStyle::VfatLong
    } else if node.dirent.attrs & 0x20u8 != 0 {
        RowStyle::Archive
    } else {
        RowStyle::Base
    }
}

/// The style of a node's row.
pub fn row_style(node: &DirentNode, is_selected: bool) -> (s: RowStyle)
    ensures
        s == spec_row_style(*node, is_selected),
{
    if is_selected {
        RowStyle::Selected
    } else if node.dirent.is_directory() {
        RowStyle::Directory
    } else if node.dirent.is_vfat_long() {
        RowStyle::VfatLong
    } else if node.dirent.is_file() {
        RowStyle::Archive
    } else {
        RowStyle::Base
    }
}

/// `n` spaces.
pub open spec fn spaces(n: nat) -> Seq<char>
    decreases n,
{
    if n == 0 {
        Seq::empty()
    } else {
        spaces((n - 1) as nat).push(' ')
    }
}

/// `s` padded with spaces on the right to at least `w` characters.
pub open spec fn pad_right(s: Seq<char>, w: nat) -> Seq<char> {
    if s.len() < w { s + spaces((w - s.len()) as nat) } else { s }
}

/// `s` padded with spaces on the left to at least `w` characters.
pub open spec fn pad_left(s: Seq<char>, w: nat) -> Seq<char> {
    if s.len() < w { spaces((w - s.len()) as nat) + s } else { s }
}

/// `n` copies of two spaces.
pub open spec fn indent(n: nat) -> Seq<char> {
    spaces(2 * n)
}

/// The text of the row of node `idx`: indent by depth, `[+]` for a
/// directory or ` . ` for a file, the name padded to 16 characters and the
/// size text right-aligned to 10.
pub open spec fn spec_row_text(t: DirentTree, idx: int, size_text: Seq<char>) -> Seq<char> {
    let node = t.nodes@[idx];
    indent(count_slashes(node.path.0@))
        + (if dirent_is_dir(node.dirent) { "[+]"@ } else { " . "@ })
        + seq![' '] + pad_right(spec_display_name(node.dirent), 16)
        + seq![' '] + pad_left(size_text, 10)
}

/// Append `n` spaces.
fn push_spaces(out: &mut String, n: usize)
    ensures
        final(out)@ == old(out)@ + spaces(n as nat),
{
    let mut i: usize = 0;
    while i < n
        invariant
            i <= n,
            out@ == old(out)@ + spaces(i as nat),
        decreases n - i,
    {
        out.push(' ');
        i += 1;
        assert(out@ =~= old(out)@ + spaces(i as nat));
    }
}

/// The text of the row of node `idx`, with `size_text` as its size.
pub fn build_row_text(tree: &DirentTree, idx: usize, size_text: &str) -> (s: String)
    requires
        idx < tree.nodes@.len(),
    ensures
        s@ == spec_row_text(*tree, idx as int, size_text@),
{
    let node = &tree.nodes[idx];
    let depth = compute_depth(tree, &node.path);
    let mut out = String::new();
    push_indent(&mut out, depth);
    if node.dirent.is_directory() {
        out.append("[+]");
    } else {
        out.append(" . ");
    }
    out.push(' ');
    let name = node.dirent.display_name();
    let name_len = name.as_str().unicode_len();
    out.append(name.as_str());
    if name_len < 16 {
        push_spaces(&mut out, 16 - name_len);
    }
    out.push(' ');
    let size_len = size_text.unicode_len();
    if size_len < 10 {
        push_spaces(&mut out, 10 - size_len);
    }
    out.append(size_text);
    out
}

/// Append `n` copies of two spaces.
fn push_indent(out: &mut String, n: usize)
    ensures
        final(out)@ == old(out)@ + indent(n as nat),
{
    let mut i: usize = 0;
    while i < n
        invariant
            i <= n,
            out@ == old(out)@ + spaces(2 * i as nat),
        decreases n - i,
    {
        out.push(' ');
        out.push(' ');
        assert(spaces(2 * (i + 1) as nat) =~= spaces(2 * i as nat).push(' ').push(' ')) by {
            assert(spaces((2 * i + 1) as nat) == spaces(2 * i as nat).push(' '));
        }
        i += 1;
        assert(out@ =~= old(out)@ + spaces(2 * i as nat));
    }
}

} // verus!
