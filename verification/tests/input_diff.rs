use gho::tui::diff::{
    build_diff, diff_entries, diff_source, entries_from_dirents, fingerprint_range, line_diff_text, ChangeKind, Counts,
    DiffSource,
};
use gho::tui::input::{map_key, map_mouse, KeyCode, KeyInput, MouseInput, MouseKind, MOD_ALT, MOD_CONTROL, MOD_SHIFT};
use gho::tui::Action;

fn k(c: char) -> KeyInput {
    KeyInput { code: KeyCode::Char(c), modifiers: 0 }
}

fn key(code: KeyCode, modifiers: u8) -> KeyInput {
    KeyInput { code, modifiers }
}

#[test]
fn quit_keys() {
    assert_eq!(map_key(k('q')), Action::Quit);
    assert_eq!(map_key(key(KeyCode::Esc, 0)), Action::Quit);
}

#[test]
fn ctrl_c_quits() {
    assert_eq!(map_key(key(KeyCode::Char('c'), MOD_CONTROL)), Action::Quit);
}

#[test]
fn movement_keys() {
    assert_eq!(map_key(key(KeyCode::Up, 0)), Action::Up);
    assert_eq!(map_key(key(KeyCode::Down, 0)), Action::Down);
    assert_eq!(map_key(k('j')), Action::Down);
    assert_eq!(map_key(k('k')), Action::Up);
}

#[test]
fn theme_toggle() {
    assert_eq!(map_key(k('t')), Action::ToggleTheme);
}

#[test]
fn help_keys() {
    assert_eq!(map_key(k('?')), Action::Help);
    assert_eq!(map_key(key(KeyCode::F(1), 0)), Action::Help);
}

#[test]
fn search_keys() {
    assert_eq!(map_key(key(KeyCode::Char('f'), MOD_CONTROL)), Action::Search);
    assert_eq!(map_key(key(KeyCode::Char('n'), MOD_CONTROL)), Action::SearchNext);
    assert_eq!(map_key(key(KeyCode::Char('p'), MOD_CONTROL | MOD_SHIFT)), Action::SearchPrev);
}

#[test]
fn diff_navigation_needs_a_modifier() {
    assert_eq!(map_key(k('n')), Action::Noop);
    assert_eq!(map_key(key(KeyCode::Char('n'), MOD_ALT)), Action::NextDiff);
    assert_eq!(map_key(key(KeyCode::Char('p'), MOD_SHIFT)), Action::PrevDiff);
    assert_eq!(map_key(key(KeyCode::BackTab, 0)), Action::SwitchSide);
    assert_eq!(map_key(key(KeyCode::Char('x'), MOD_CONTROL)), Action::Noop);
}

#[test]
fn mouse_events_map_to_cells() {
    let m = MouseInput { kind: MouseKind::LeftDown, column: 3, row: 7 };
    assert_eq!(map_mouse(m), Action::Click { column: 3, row: 7 });
    let m = MouseInput { kind: MouseKind::ScrollDown, column: 1, row: 2 };
    assert_eq!(map_mouse(m), Action::ScrollDown { column: 1, row: 2 });
    let m = MouseInput { kind: MouseKind::Other, column: 1, row: 2 };
    assert_eq!(map_mouse(m), Action::Noop);
}

#[test]
fn counts_added_removed_modified() {
    let old = vec![("A".to_string(), 1, None), ("B".to_string(), 2, None)];
    let new = vec![("A".to_string(), 1, None), ("C".to_string(), 3, None)];
    let (nodes, counts) = diff_entries(&old, &new);
    assert_eq!(counts.added, 1, "C is added");
    assert_eq!(counts.removed, 1, "B is removed");
    assert_eq!(counts.unchanged, 1, "A identical");
    assert_eq!(counts.modified, 0);
    assert_eq!(nodes.len(), 3);
}

#[test]
fn diff_orders_by_rank_then_path() {
    let old = vec![
        ("Z".to_string(), 1, None),
        ("M".to_string(), 5, Some(9)),
        ("B".to_string(), 2, None),
        ("B".to_string(), 3, None),
    ];
    let new = vec![("M".to_string(), 5, Some(8)), ("A".to_string(), 1, None), ("B".to_string(), 3, None)];
    let (nodes, counts) = diff_entries(&old, &new);
    let order: Vec<(&str, ChangeKind)> = nodes.iter().map(|n| (n.path.as_str(), n.kind)).collect();
    assert_eq!(
        order,
        vec![
            ("A", ChangeKind::Added),
            ("Z", ChangeKind::Removed),
            ("M", ChangeKind::Modified),
            ("B", ChangeKind::Unchanged),
        ]
    );
    assert_eq!(nodes[2].old_fp, Some(9));
    assert_eq!(nodes[2].new_fp, Some(8));
    assert_eq!(nodes[3].old_size, Some(3));
    assert_eq!(nodes[0].old_size, None);
    assert_eq!(counts.describe(), "Counts { +1 -1 ~1 =1 }");
}

#[test]
fn build_diff_keeps_paths() {
    let d = build_diff("old.gho", "new.gho", &[], &[("X".to_string(), 4, None)]);
    assert_eq!(d.old_path, "old.gho");
    assert_eq!(d.new_path, "new.gho");
    assert_eq!(d.nodes.len(), 1);
    assert_eq!(d.counts, Counts { added: 1, removed: 0, modified: 0, unchanged: 0 });
}

#[test]
fn diff_entries_from_dirents_use_display_names() {
    let mut buf = [0u8; 56];
    buf[0..8].copy_from_slice(b"A       ");
    buf[8..11].copy_from_slice(b"TXT");
    buf[28..32].copy_from_slice(&7u32.to_le_bytes());
    let d = gho::ghostold::Dirent::parse(&buf).unwrap();
    let e = gho::ghostold::make_entry(512, d, None);
    let rows = entries_from_dirents(&[e, e], &[Some(5)]);
    assert_eq!(rows, vec![("A.TXT".to_string(), 7, Some(5)), ("A.TXT".to_string(), 7, None)]);
}

#[test]
fn change_kind_markers() {
    assert_eq!(ChangeKind::Added.marker(), "+");
    assert_eq!(ChangeKind::Removed.marker(), "-");
    assert_eq!(ChangeKind::Modified.marker(), "~");
    assert_eq!(ChangeKind::Unchanged.marker(), "=");
    assert_eq!(ChangeKind::Modified.label(), "modified");
}

#[test]
fn line_diff_text_returns_none_for_binary() {
    assert!(line_diff_text(b"hello\xFFworld", b"hello\xFEworld").is_none());
}

#[test]
fn line_diff_text_returns_unified_diff_for_text() {
    let diff = line_diff_text(b"a\nb\nc\n", b"a\nB\nc\n").expect("text diff");
    assert!(diff.contains("-b"), "should mark deleted line");
    assert!(diff.contains("+B"), "should mark added line");
    assert_eq!(diff, " a\n-b\n+B\n c\n");
}

#[test]
fn line_diff_text_trims_trailing_space() {
    let diff = line_diff_text(b"x  \t\n", b"x  \t\n").unwrap();
    assert_eq!(diff, " x\n");
}

fn sized_entry(size: u32, data_start: Option<u64>) -> gho::ghostold::WalkedEntry {
    let mut buf = [0u8; 56];
    buf[0..8].copy_from_slice(b"F       ");
    buf[11] = 0x20;
    buf[28..32].copy_from_slice(&size.to_le_bytes());
    let d = gho::ghostold::Dirent::parse(&buf).unwrap();
    gho::ghostold::make_entry(512, d, data_start)
}

#[test]
fn fingerprint_range_takes_first_64_kib() {
    assert_eq!(fingerprint_range(&sized_entry(100, Some(578)), 1000), Some((578, 678)));
    assert_eq!(fingerprint_range(&sized_entry(200000, Some(578)), 70000), Some((578, 578 + 65536)));
    assert_eq!(fingerprint_range(&sized_entry(200000, Some(578)), 60000), None);
    assert_eq!(fingerprint_range(&sized_entry(0, None), 1000), None);
}

#[test]
fn diff_source_of_11x_image_lists_partitions() {
    let mut image = vec![0u8; 512];
    image[0] = 0xFE;
    image[1] = 0xEF;
    image[2] = 1;
    match diff_source(&image).unwrap() {
        DiffSource::Partitions(v) => assert!(v.is_empty()),
        DiffSource::Dirents(_) => panic!("expected partitions"),
    }
}

#[test]
fn diff_source_of_old_image_lists_dirents() {
    let mut image = vec![0u8; 512];
    image[0] = 0xFE;
    image[1] = 0xEF;
    image[2] = 1;
    image[3] = 0xFF;
    let mut rec = vec![0x04u8, 0x01, 0, 0];
    rec.extend_from_slice(&gho::ghostold::RECORD_MAGIC.to_le_bytes());
    rec.extend_from_slice(&56u16.to_le_bytes());
    let mut d = [0u8; 56];
    d[0..8].copy_from_slice(b"A       ");
    d[8..11].copy_from_slice(b"TXT");
    rec.extend_from_slice(&d);
    image.extend(rec);
    match diff_source(&image).unwrap() {
        DiffSource::Dirents(v) => {
            assert_eq!(v.len(), 1);
            assert_eq!(v[0].dirent.display_name(), "A.TXT");
        }
        DiffSource::Partitions(_) => panic!("expected dirents"),
    }
    assert!(diff_source(&[0u8; 10]).is_err());
}
