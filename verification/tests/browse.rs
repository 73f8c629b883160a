use gho::ghost11::PartitionSummary;
use gho::ghostold::{make_entry, Dirent, WalkedEntry};
use gho::tui::browse::fs_detect::FsKind;
use gho::tui::browse::image11::{Image11State, PartitionEntry};
use gho::tui::browse::image_old::{build_dirent_tree, DirentTree, ImageOldState, TreePath};
use gho::tui::widgets::hex::{build_hex_lines, row_count};
use gho::tui::widgets::tree::{build_row_text, compute_depth, row_style, RowStyle};

fn summary(index: usize, compressed: u64, decompressed: u64, mbr_type: Option<u8>) -> PartitionSummary {
    PartitionSummary {
        index,
        mbr_type,
        compressed_bytes: compressed,
        decompressed_bytes: decompressed,
        output_path: format!("/tmp/p{index}.img"),
    }
}

fn state_two_partitions() -> Image11State {
    Image11State {
        source_path: "/tmp/test.gho".to_string(),
        partitions: vec![
            PartitionEntry { summary: summary(0, 1000, 4096, Some(0x07)), fs: FsKind::Ntfs },
            PartitionEntry { summary: summary(1, 50, 256, Some(0x82)), fs: FsKind::Swap },
        ],
        selected: 0,
        scroll: 0,
    }
}

fn fake_dirent(name: &str, ext: &str, attrs: u8, size: u32) -> Dirent {
    let mut buf = [0u8; 56];
    let n = name.as_bytes();
    let e = ext.as_bytes();
    let n_len = n.len().min(8);
    let e_len = e.len().min(3);
    buf[..n_len].copy_from_slice(&n[..n_len]);
    buf[8..8 + e_len].copy_from_slice(&e[..e_len]);
    buf[11] = attrs;
    buf[28..32].copy_from_slice(&size.to_le_bytes());
    Dirent::parse(&buf).unwrap()
}

fn entry(offset: u64, d: Dirent) -> WalkedEntry {
    make_entry(offset, d, None)
}

#[test]
fn cursor_move_clamps() {
    let mut s = state_two_partitions();
    s.move_cursor(-5);
    assert_eq!(s.selected, 0, "should not underflow");
    s.move_cursor(100);
    assert_eq!(s.selected, 1, "should clamp to last");
    s.move_cursor(-100);
    assert_eq!(s.selected, 0, "should clamp to first");
}

#[test]
fn ensure_visible_keeps_selected_on_screen() {
    let mut s = state_two_partitions();
    s.selected = 1;
    s.ensure_visible(2);
    assert_eq!(s.scroll, 0, "selected fits without scroll");
}

#[test]
fn ensure_visible_scrolls_down_to_selection() {
    let mut s = state_two_partitions();
    s.selected = 1;
    s.ensure_visible(1);
    assert_eq!(s.scroll, 1);
    s.selected = 0;
    s.ensure_visible(1);
    assert_eq!(s.scroll, 0);
}

#[test]
fn empty_state_handles_cursor_moves() {
    let mut s = Image11State { source_path: "/x".to_string(), partitions: vec![], selected: 0, scroll: 0 };
    s.move_cursor(5);
    assert_eq!(s.selected, 0);
}

#[test]
fn image11_load_detects_filesystems() {
    let mut ntfs_bs = vec![0u8; 512];
    ntfs_bs[0..8].copy_from_slice(b"NTFS    ");
    ntfs_bs[510] = 0x55;
    ntfs_bs[511] = 0xAA;
    let result = gho::ghost11::ExtractResult {
        header: gho::ghost11::FileHeader { file_type: 1, compression: 0, image_id: 0xDEAD_BEEF, encrypted: false },
        mbr_entries: vec![],
        partitions: vec![summary(0, 1024, 4096, Some(0x07)), summary(1, 50, 256, Some(0x82))],
    };
    let s = Image11State::load("/tmp/test.gho".to_string(), result, &vec![Some(ntfs_bs), None]);
    assert_eq!(s.partitions.len(), 2);
    assert_eq!(s.partitions[0].fs, FsKind::Ntfs);
    assert_eq!(s.partitions[1].fs, FsKind::Unknown);
    assert_eq!(s.selected_output_path().unwrap(), "/tmp/p0.img");
}

#[test]
fn tree_path_join_and_parent() {
    let p = TreePath::root();
    let q = p.join_dir("PROGRAM");
    let r = q.join("FILE.EXE");
    assert_eq!(r.as_str(), "PROGRAM/FILE.EXE");
    assert_eq!(r.parent().as_str(), "PROGRAM/");
    assert_eq!(r.parent().parent().as_str(), "");
    assert_eq!(r.basename(), "FILE.EXE");
}

#[test]
fn build_tree_empty() {
    let tree = build_dirent_tree(&[]);
    assert!(tree.is_empty());
}

#[test]
fn build_tree_chains_directories() {
    let entries = vec![
        entry(0, fake_dirent("PROG", "", 0x10, 0)),
        entry(1, fake_dirent("APP", "EXE", 0x20, 1234)),
        entry(2, fake_dirent("DATA", "", 0x10, 0)),
        entry(3, fake_dirent("INFO", "TXT", 0x20, 56)),
    ];
    let tree = build_dirent_tree(&entries);
    assert_eq!(tree.len(), 4);
    let prog_path = TreePath::root().join_dir("PROG");
    let prog_idx = tree.find(&prog_path).expect("PROG node");
    assert!(tree.is_dir(prog_idx));
    assert_eq!(tree.children_of[prog_idx].len(), 1);
    let app_idx = tree.children_of[prog_idx][0];
    assert_eq!(tree.nodes[app_idx].dirent.display_name(), "APP.EXE");
    assert_eq!(tree.nodes[app_idx].path.as_str(), "PROG/APP.EXE");
    assert_eq!(tree.nodes[app_idx].size, 1234);
    let data_idx = tree.find(&TreePath::root().join_dir("DATA")).unwrap();
    assert_eq!(tree.children_of[data_idx].len(), 1);
}

#[test]
fn build_tree_puts_leading_files_at_root() {
    let entries = vec![
        entry(0, fake_dirent("README", "TXT", 0x20, 10)),
        entry(1, fake_dirent("PROG", "", 0x10, 0)),
    ];
    let tree = build_dirent_tree(&entries);
    assert_eq!(tree.nodes[0].path.as_str(), "README.TXT");
    assert!(tree.children_of[1].is_empty());
}

#[test]
fn visible_indices_expands_root_only_by_default() {
    let entries = vec![
        entry(0, fake_dirent("PROG", "", 0x10, 0)),
        entry(1, fake_dirent("APP", "EXE", 0x20, 100)),
    ];
    let tree = build_dirent_tree(&entries);
    let visible = tree.visible_indices(&[TreePath::root()]);
    assert_eq!(visible.len(), 1, "only PROG visible, not APP.EXE");
    assert_eq!(tree.nodes[visible[0]].dirent.display_name(), "PROG");
    let prog_path = TreePath::root().join_dir("PROG");
    let visible = tree.visible_indices(&[TreePath::root(), prog_path.clone()]);
    assert_eq!(visible.len(), 2);
    assert_eq!(tree.nodes[visible[1]].dirent.display_name(), "APP.EXE");
}

#[test]
fn visible_indices_lists_every_top_level_node() {
    let entries = vec![
        entry(0, fake_dirent("PROG", "", 0x10, 0)),
        entry(1, fake_dirent("APP", "EXE", 0x20, 1234)),
        entry(2, fake_dirent("DATA", "", 0x10, 0)),
        entry(3, fake_dirent("INFO", "TXT", 0x20, 56)),
    ];
    let tree = build_dirent_tree(&entries);
    assert_eq!(tree.visible_indices(&[TreePath::root()]), vec![0, 2]);
    let data = TreePath::root().join_dir("DATA");
    assert_eq!(tree.visible_indices(&[TreePath::root(), data]), vec![0, 2, 3]);
    let prog = TreePath::root().join_dir("PROG");
    let data = TreePath::root().join_dir("DATA");
    assert_eq!(tree.visible_indices(&[TreePath::root(), prog, data]), vec![0, 1, 2, 3]);
}

#[test]
fn visible_indices_shows_leading_root_files() {
    let entries = vec![
        entry(0, fake_dirent("README", "TXT", 0x20, 10)),
        entry(1, fake_dirent("PROG", "", 0x10, 0)),
        entry(2, fake_dirent("APP", "EXE", 0x20, 100)),
    ];
    let tree = build_dirent_tree(&entries);
    assert_eq!(tree.visible_indices(&[TreePath::root()]), vec![0, 1]);
}

#[test]
fn image_old_cursor_expand_and_collapse() {
    let mut s = ImageOldState::new("/tmp/x.gho".to_string());
    s.tree = build_dirent_tree(&[
        entry(0, fake_dirent("PROG", "", 0x10, 0)),
        entry(1, fake_dirent("APP", "EXE", 0x20, 100)),
    ]);
    s.move_cursor(1);
    assert_eq!(s.selected.as_str(), "PROG/");
    s.expand(TreePath::root().join_dir("PROG"));
    s.expand(TreePath::root().join_dir("PROG"));
    assert_eq!(s.expanded.len(), 2);
    s.move_cursor(1);
    assert_eq!(s.selected.as_str(), "PROG/APP.EXE");
    s.move_cursor(5);
    assert_eq!(s.selected.as_str(), "PROG/APP.EXE");
    s.ensure_visible(1);
    assert_eq!(s.scroll, 1);
    s.collapse(TreePath::root().join_dir("PROG"));
    assert_eq!(s.expanded.len(), 1);
    s.move_cursor(-1);
    assert_eq!(s.selected.as_str(), "PROG/");
    assert!(s.extract_to(&s.tree.nodes[0], "/tmp/out").is_err());
}

#[test]
fn empty_data_returns_zero_rows() {
    assert_eq!(row_count(0), 0);
}

#[test]
fn row_count_rounds_up() {
    assert_eq!(row_count(1), 1);
    assert_eq!(row_count(16), 1);
    assert_eq!(row_count(17), 2);
    assert_eq!(row_count(32), 2);
}

#[test]
fn build_lines_respects_scroll() {
    let data: Vec<u8> = (0..=255).cycle().take(64).collect();
    let lines = build_hex_lines(&data, 16, 4, 80);
    assert_eq!(lines.len(), 3);
    assert_eq!(lines[0].offset, "00000010");
}

#[test]
fn printable_bytes_render_as_ascii() {
    let data: Vec<u8> = (b'A'..=b'Z').collect();
    let lines = build_hex_lines(&data, 0, 1, 80);
    assert_eq!(lines.len(), 1);
    assert!(lines[0].ascii.contains("ABCDEFGHIJKLMNOP"));
}

#[test]
fn non_printable_bytes_render_as_dot() {
    let data = vec![0x00u8, 0xFFu8, 0x7Fu8, 0x80u8];
    let lines = build_hex_lines(&data, 0, 1, 80);
    assert_eq!(lines[0].ascii, "....");
}

#[test]
fn hex_row_layout_is_exact() {
    let data: Vec<u8> = (0..20u8).collect();
    let lines = build_hex_lines(&data, 0, 10, 80);
    assert_eq!(lines.len(), 2);
    assert_eq!(lines[0].hex, " 00 01 02 03 04 05 06 07  08 09 0a 0b 0c 0d 0e 0f");
    assert_eq!(lines[1].offset, "00000010");
    assert_eq!(lines[1].hex, format!(" 10 11 12 13{} ", "   ".repeat(12)));
    let past = build_hex_lines(&data, 4096, 10, 80);
    assert_eq!(past.len(), 1);
    assert_eq!(past[0].offset, "00000010");
}

#[test]
fn depth_counts_separators() {
    let p = TreePath::root();
    assert_eq!(compute_depth(&DirentTree::default(), &p), 0);
    let q = p.join_dir("A");
    assert_eq!(compute_depth(&DirentTree::default(), &q), 1);
    let r = q.join_dir("B").join("C");
    assert_eq!(compute_depth(&DirentTree::default(), &r), 2);
}

#[test]
fn tree_row_text_and_style() {
    let tree = build_dirent_tree(&[
        entry(0, fake_dirent("PROG", "", 0x10, 0)),
        entry(1, fake_dirent("APP", "EXE", 0x20, 100)),
    ]);
    assert_eq!(build_row_text(&tree, 0, "0 B"), format!("  [+] PROG{} {}0 B", " ".repeat(12), " ".repeat(7)));
    assert_eq!(build_row_text(&tree, 1, "100 B"), format!("   .  APP.EXE{} {}100 B", " ".repeat(9), " ".repeat(5)));
    assert_eq!(row_style(&tree.nodes[0], false), RowStyle::Directory);
    assert_eq!(row_style(&tree.nodes[1], false), RowStyle::Archive);
    assert_eq!(row_style(&tree.nodes[1], true), RowStyle::Selected);
}
