//! 56-byte FAT-style directory entry used by pre-11.x Ghost images.

use vstd::prelude::*;
use vstd::utf8::{decode_utf8, valid_utf8};

use crate::bytes::{le16, le32, read_le16, read_le32};
use crate::error::{Error, Result};
use crate::text::{lemma_decode_utf8_len, lemma_trim_padding_len, trim_padding, trim_padding_owned, utf8_str};

verus! {

/// Size of a dirent in bytes.
pub const DIRENT_SIZE: usize = 56;

/// FAT attribute: read-only.
pub const ATTR_READ_ONLY: u8 = 0x01;
/// FAT attribute: hidden.
pub const ATTR_HIDDEN: u8 = 0x02;
/// FAT attribute: system.
pub const ATTR_SYSTEM: u8 = 0x04;
/// FAT attribute: volume label.
pub const ATTR_VOLUME_ID: u8 = 0x08;
/// FAT attribute: directory.
pub const ATTR_DIRECTORY: u8 = 0x10;
/// FAT attribute: archive (regular file).
pub const ATTR_ARCHIVE: u8 = 0x20;
/// FAT attribute: VFAT long-name fragment (all four low bits set).
pub const ATTR_LFN: u8 = 0x0F;

/// One parsed directory entry.
#[derive(Debug, Clone, Copy, PartialEq, Eq)]
pub struct Dirent {
    /// 8-character name (space-padded).
    pub name: [u8; 8],
    /// 3-character extension (space-padded).
    pub ext: [u8; 3],
    /// FAT-style attributes.
    pub attrs: u8,
    /// File size in bytes (0 for directories).
    pub size: u32,
    /// First cluster (combined from cluster_hi / cluster_lo halves).
    pub cluster: u32,
    /// 16-bit FAT creation time.
    pub ctime: u16,
    /// 16-bit FAT creation date.
    pub cdate: u16,
    /// 16-bit FAT modification time.
    pub mtime: u16,
    /// 16-bit FAT modification date.
    pub mdate: u16,
    /// Last-access date.
    pub adate: u16,
}

/// The dirent stored in the first 56 bytes of `b`.
pub open spec fn spec_dirent(b: Seq<u8>) -> Dirent {
    Dirent {
        name: [b[0], b[1], b[2], b[3], b[4], b[5], b[6], b[7]],
        ext: [b[8], b[9], b[10]],
        attrs: b[11],
        size: le32(b, 28),
        cluster: (le16(b, 20) as int * 0x1_0000 + le16(b, 26) as int) as u32,
        ctime: le16(b, 14),
        cdate: le16(b, 16),
        mtime: le16(b, 22),
        mdate: le16(b, 24),
        adate: le16(b, 18),
    }
}

/// One half of a rendered 8.3 name: the bytes decoded as UTF-8 (or `?` when
/// they are not valid UTF-8), without trailing spaces and NULs.
pub open spec fn spec_name_part(b: Seq<u8>) -> Seq<char> {
    trim_padding(if valid_utf8(b) { decode_utf8(b) } else { seq!['?'] })
}

/// The rendered 8.3 name: `NAME.EXT`, or `NAME` when the extension is empty.
pub open spec fn spec_display_name(d: Dirent) -> Seq<char> {
    let n = spec_name_part(d.name@);
    let e = spec_name_part(d.ext@);
    if e.len() == 0 {
        n
    } else {
        n + seq!['.'] + e
    }
}

/// A rendered 8.3 name has at most twelve characters: eight of name, a
/// dot and three of extension.
pub proof fn lemma_display_name_short(d: Dirent)
    ensures
        spec_display_name(d).len() <= 12,
{
    let nb = d.name@;
    let eb = d.ext@;
    if valid_utf8(nb) {
        lemma_decode_utf8_len(nb);
    }
    if valid_utf8(eb) {
        lemma_decode_utf8_len(eb);
    }
    lemma_trim_padding_len(if valid_utf8(nb) { decode_utf8(nb) } else { seq!['?'] });
    lemma_trim_padding_len(if valid_utf8(eb) { decode_utf8(eb) } else { seq!['?'] });
}

/// Render one half of an 8.3 name.
fn name_part(b: &[u8]) -> (s: String)
    ensures
        s@ == spec_name_part(b@),
{
    match utf8_str(b) {
        Some(t) => trim_padding_owned(t),
        None => {
            let q = "?";
            proof {
                reveal_strlit("?");
            }
            trim_padding_owned(q)
        },
    }
}

impl Dirent {
    /// Parse a dirent from the first 56 bytes of `buf`.
    pub fn parse(buf: &[u8]) -> (r: Result<Self>)
        ensures
            buf@.len() < DIRENT_SIZE ==> r == Err::<Dirent, Error>(
                Error::Truncated { offset: 0, expected: DIRENT_SIZE, actual: buf@.len() as usize },
            ),
            buf@.len() >= DIRENT_SIZE ==> r == Ok::<Dirent, Error>(spec_dirent(buf@)),
    {
        if buf.len() < DIRENT_SIZE {
            return Err(Error::truncated(0, DIRENT_SIZE, buf.len()));
        }
        let name = [buf[0], buf[1], buf[2], buf[3], buf[4], buf[5], buf[6], buf[7]];
        let ext = [buf[8], buf[9], buf[10]];
        let attrs = buf[11];
        let ctime = read_le16(buf, 14);
        let cdate = read_le16(buf, 16);
        let adate = read_le16(buf, 18);
        let cluster_hi = read_le16(buf, 20);
        let mtime = read_le16(buf, 22);
        let mdate = read_le16(buf, 24);
        let cluster_lo = read_le16(buf, 26);
        let size = read_le32(buf, 28);
        let cluster = (cluster_hi as u32) * 0x1_0000 + (cluster_lo as u32);
        Ok(Dirent { name, ext, attrs, size, cluster, ctime, cdate, mtime, mdate, adate })
    }

    /// Render the 8.3 name as `NAME.EXT`, trimming trailing space and NUL
    /// padding; a half that is not valid UTF-8 renders as `?`.
    pub fn display_name(&self) -> (s: String)
        ensures
            s@ == spec_display_name(*self),
    {
        let n = name_part(self.name.as_slice());
        let e = name_part(self.ext.as_slice());
        if e.as_str().is_empty() {
            n
        } else {
            let mut out = n;
            let dot = ".";
            proof {
                reveal_strlit(".");
            }
            out.append(dot);
            out.append(e.as_str());
            out
        }
    }

    /// FAT attribute: directory.
    pub fn is_directory(&self) -> (r: bool)
        ensures
            r == (self.attrs & ATTR_DIRECTORY != 0),
    {
        self.attrs & ATTR_DIRECTORY != 0
    }

    /// FAT attribute: regular file (archive bit).
    pub fn is_file(&self) -> (r: bool)
        ensures
            r == (self.attrs & ATTR_ARCHIVE != 0),
    {
        self.attrs & ATTR_ARCHIVE != 0
    }

    /// FAT attribute: VFAT long-name fragment.
    pub fn is_vfat_long(&self) -> (r: bool)
        ensures
            r == (self.attrs & ATTR_LFN == ATTR_LFN),
    {
        self.attrs & ATTR_LFN == ATTR_LFN
    }
}

} // verus!
