//! The 11.x partition view of the browser: the partitions of an extracted
//! image, the filesystem detected in each, and the cursor.

use vstd::prelude::*;

use crate::ghost11::stream::{ExtractResult, PartitionSummary};
use super::fs_detect::{detect_fs, spec_detect_fs, FsKind};

verus! {

/// All data the browser needs to render the 11.x image view.
#[derive(Debug, Clone)]
pub struct Image11State {
    pub source_path: String,
    pub partitions: Vec<PartitionEntry>,
    pub selected: usize,
    pub scroll: usize,
}

/// One partition of the view.
#[derive(Debug, Clone)]
pub struct PartitionEntry {
    pub summary: PartitionSummary,
    pub fs: FsKind,
}

/// The filesystem of a partition whose first bytes are `boot` (`None` when
/// they could not be read).
pub open spec fn spec_partition_fs(boot: Option<Vec<u8>>) -> FsKind {
    match boot {
        Some(b) => spec_detect_fs(b@),
        None => FsKind::Unknown,
    }
}

/// `x` clamped to `lo..=hi`.
pub open spec fn clamp(x: int, lo: int, hi: int) -> int {
    if x < lo {
        lo
    } else if x > hi {
        hi
    } else {
        x
    }
}

/// The scroll offset that keeps row `selected` inside a viewport of
/// `viewport` rows starting at `scroll`, moving it as little as possible.
pub open spec fn spec_scroll_to(selected: int, scroll: int, viewport: int) -> int {
    if viewport == 0 {
        scroll
    } else if selected < scroll {
        selected
    } else if selected >= scroll + viewport {
        selected + 1 - viewport
    } else {
        scroll
    }
}

/// With a viewport of at least one row, the selected row is inside it
/// after scrolling, and a row already inside it does not scroll.
pub proof fn lemma_scroll_to_shows(selected: int, scroll: int, viewport: int)
    requires
        viewport > 0,
        0 <= selected,
        0 <= scroll,
    ensures
        spec_scroll_to(selected, scroll, viewport) <= selected < spec_scroll_to(selected, scroll, viewport) + viewport,
        0 <= spec_scroll_to(selected, scroll, viewport),
        scroll <= selected < scroll + viewport ==> spec_scroll_to(selected, scroll, viewport) == scroll,
{
}

/// The new scroll offset for `selected` in a viewport of `viewport` rows.
pub fn scroll_to(selected: usize, scroll: usize, viewport: usize) -> (s: usize)
    ensures
        s == spec_scroll_to(selected as int, scroll as int, viewport as int),
{
    if viewport == 0 {
        scroll
    } else if selected < scroll {
        selected
    } else if selected - scroll >= viewport {
        selected - (viewport - 1)
    } else {
        scroll
    }
}

impl Image11State {
    /// Build the view of an extracted image. `boot_sectors[i]` holds the
    /// first bytes (up to 512) of partition `i`, or `None` when they could
    /// not be read; a missing entry counts as `None`.
    pub fn load(source_path: String, extract_result: ExtractResult, boot_sectors: &Vec<Option<Vec<u8>>>) -> (s: Self)
        ensures
            s.source_path@ == source_path@,
            s.partitions@.len() == extract_result.partitions@.len(),
            forall|i: int| 0 <= i < s.partitions@.len() ==> {
                &&& (#[trigger] s.partitions@[i]).summary == extract_result.partitions@[i]
                &&& s.partitions@[i].fs == (if i < boot_sectors@.len() { spec_partition_fs(boot_sectors@[i]) } else { FsKind::Unknown })
            },
            s.selected == 0,
            s.scroll == 0,
    {
        let mut summaries = extract_result.partitions;
        let ghost all = summaries@;
        let n = summaries.len();
        let mut partitions: Vec<PartitionEntry> = Vec::new();
        let mut i: usize = 0;
        while summaries.len() > 0
            invariant
                i + summaries@.len() == all.len(),
                all.len() == n,
                summaries@ == all.subrange(i as int, all.len() as int),
                partitions@.len() == i,
                forall|k: int| 0 <= k < i ==> {
                    &&& (#[trigger] partitions@[k]).summary == all[k]
                    &&& partitions@[k].fs == (if k < boot_sectors@.len() { spec_partition_fs(boot_sectors@[k]) } else { FsKind::Unknown })
                },
            decreases summaries@.len(),
        {
            let summary = summaries.remove(0);
            let fs = if i < boot_sectors.len() {
                match &boot_sectors[i] {
                    Some(b) => detect_fs(b.as_slice()),
                    None => FsKind::Unknown,
                }
            } else {
                FsKind::Unknown
            };
            partitions.push(PartitionEntry { summary, fs });
            i += 1;
            assert(summaries@ =~= all.subrange(i as int, all.len() as int));
        }
        Image11State { source_path, partitions, selected: 0, scroll: 0 }
    }

    /// Selected partition's output path (if any).
    pub fn selected_output_path(&self) -> (r: Option<&String>)
        ensures
            self.selected < self.partitions@.len() ==> r == Some(&self.partitions@[self.selected as int].summary.output_path),
            self.selected >= self.partitions@.len() ==> r is None,
    {
        if self.selected < self.partitions.len() {
            Some(&self.partitions[self.selected].summary.output_path)
        } else {
            None
        }
    }

    /// The selected partition (if any).
    pub fn selected(&self) -> (r: Option<&PartitionEntry>)
        ensures
            self.selected < self.partitions@.len() ==> r == Some(&self.partitions@[self.selected as int]),
            self.selected >= self.partitions@.len() ==> r is None,
    {
        if self.selected < self.partitions.len() {
            Some(&self.partitions[self.selected])
        } else {
            None
        }
    }

    /// Move the cursor by `delta`, clamped to the valid range; nothing moves
    /// when there are no partitions.
    pub fn move_cursor(&mut self, delta: isize)
        ensures
            final(self).partitions == old(self).partitions,
            final(self).source_path == old(self).source_path,
            final(self).scroll == old(self).scroll,
            old(self).partitions@.len() == 0 ==> final(self).selected == old(self).selected,
            old(self).partitions@.len() > 0 ==> final(self).selected == clamp(
                old(self).selected + delta,
                0,
                old(self).partitions@.len() - 1,
            ),
    {
        if self.partitions.len() == 0 {
            return;
        }
        let last = self.partitions.len() - 1;
        let target: i128 = self.selected as i128 + delta as i128;
        self.selected = if target < 0 {
            0
        } else if target > last as i128 {
            last
        } else {
            target as usize
        };
    }

    /// Adjust the scroll so the selected row is visible in a viewport of
    /// `viewport` rows.
    pub fn ensure_visible(&mut self, viewport: usize)
        ensures
            final(self).partitions == old(self).partitions,
            final(self).source_path == old(self).source_path,
            final(self).selected == old(self).selected,
            final(self).scroll == spec_scroll_to(old(self).selected as int, old(self).scroll as int, viewport as int),
    {
        self.scroll = scroll_to(self.selected, self.scroll, viewport);
    }
}

} // verus!
