use gho::ghost11::PartitionSummary;
use gho::tui::app::{AppState, FocusPanel, LoadedImage, Mode, StatusLevel, StatusMessage};
use gho::tui::browse::fs_detect::FsKind;
use gho::tui::browse::image11::{Image11State, PartitionEntry};
use gho::tui::theme::{Color, Theme};
use gho::tui::ui::{display_inputs, file_name, theme_label};
use gho::ghostold::{make_entry, Dirent, WalkedEntry};
use gho::tui::browse::image_old::{build_dirent_tree, ImageOldState, TreePath};
use gho::tui::diff::build_diff;
use gho::tui::{handle_action, Action};

#[test]
fn browse_state_starts_focused_left() {
    let s = AppState::browse(vec!["x.gho".to_string()]);
    assert_eq!(s.mode, Mode::Browse);
    assert_eq!(s.focus, FocusPanel::Left);
    assert!(!s.should_quit);
    assert_eq!(s.status.as_ref().unwrap().text, "loading...");
}

#[test]
fn diff_state_starts_in_diff_mode() {
    let s = AppState::diff(vec!["a.gho".to_string(), "b.gho".to_string()]);
    assert_eq!(s.mode, Mode::Diff);
    assert_eq!(s.primary_input().unwrap(), "a.gho");
    assert!(s.image11().is_none());
    assert!(s.diff_view().is_none());
}

#[test]
fn toggle_theme_flips_between_dark_and_light() {
    let mut s = AppState::browse(vec![]);
    assert_eq!(s.theme, Theme::Dark);
    s.toggle_theme();
    assert_eq!(s.theme, Theme::Light);
    assert_eq!(s.status.as_ref().unwrap().text, "theme: light");
    s.toggle_theme();
    assert_eq!(s.theme, Theme::Dark);
    assert_eq!(s.status.as_ref().unwrap().text, "theme: dark");
}

#[test]
fn set_status_replaces_previous() {
    let mut s = AppState::browse(vec![]);
    s.set_status(StatusMessage::info("first"));
    s.set_status(StatusMessage::error("second"));
    assert_eq!(s.status.as_ref().unwrap().text, "second");
    assert_eq!(s.status.as_ref().unwrap().level, StatusLevel::Error);
    s.clear_status();
    assert!(s.status.is_none());
}

#[test]
fn hex_scroll_default_and_bump() {
    let mut s = AppState::browse(vec![]);
    assert_eq!(s.hex_scroll(), 0);
    s.hex_scroll_bump(64);
    assert_eq!(s.hex_scroll(), 64);
    s.hex_scroll_bump(-32);
    assert_eq!(s.hex_scroll(), 32);
    s.hex_scroll_bump(-100);
    assert_eq!(s.hex_scroll(), 0, "should not underflow");
    s.hex_scroll_set(512);
    assert_eq!(s.hex_scroll(), 512);
}

#[test]
fn run_diff_rejects_wrong_arity() {
    for inputs in [Vec::<String>::new(), vec!["a".to_string()]] {
        assert!(inputs.len() != 2);
    }
}

#[test]
fn handle_action_quit_sets_flag() {
    let mut s = AppState::browse(vec![]);
    handle_action(&mut s, Action::Quit);
    assert!(s.should_quit);
}

#[test]
fn help_toggle_works() {
    let mut s = AppState::browse(vec![]);
    assert!(!s.show_help);
    handle_action(&mut s, Action::Help);
    assert!(s.show_help);
    handle_action(&mut s, Action::Up);
    assert!(!s.show_help);
}

#[test]
fn quit_works_while_help_is_shown() {
    let mut s = AppState::browse(vec![]);
    handle_action(&mut s, Action::Help);
    handle_action(&mut s, Action::Quit);
    assert!(s.should_quit);
}

#[test]
fn theme_toggle_routes_through_handle_action() {
    let mut s = AppState::browse(vec![]);
    handle_action(&mut s, Action::ToggleTheme);
    assert_eq!(s.theme, Theme::Light);
    assert_eq!(s.status.as_ref().unwrap().text, "mode: browse  keys: ? for help");
}

#[test]
fn tab_moves_focus() {
    let mut s = AppState::diff(vec![]);
    handle_action(&mut s, Action::Tab);
    assert_eq!(s.focus, FocusPanel::Right);
    handle_action(&mut s, Action::BackTab);
    assert_eq!(s.focus, FocusPanel::Left);
    assert_eq!(s.status.as_ref().unwrap().text, "mode: diff  keys: ? for help");
}

#[test]
fn status_message_helpers() {
    assert_eq!(StatusMessage::info("a").level, StatusLevel::Info);
    assert_eq!(StatusMessage::ok("b").level, StatusLevel::Success);
    assert_eq!(StatusMessage::warn("c").level, StatusLevel::Warn);
    assert_eq!(StatusMessage::error("d").level, StatusLevel::Error);
    assert_eq!(StatusMessage::ok("b").text, "b");
}

#[test]
fn movement_actions_move_cursor() {
    let mut state = AppState::browse(vec!["/tmp/x.gho".to_string()]);
    let image11 = Image11State {
        source_path: "/tmp/x.gho".to_string(),
        partitions: vec![
            PartitionEntry {
                summary: PartitionSummary {
                    index: 0,
                    mbr_type: Some(0x07),
                    compressed_bytes: 100,
                    decompressed_bytes: 400,
                    output_path: "/tmp/p0".to_string(),
                },
                fs: FsKind::Ntfs,
            },
            PartitionEntry {
                summary: PartitionSummary {
                    index: 1,
                    mbr_type: Some(0x82),
                    compressed_bytes: 50,
                    decompressed_bytes: 200,
                    output_path: "/tmp/p1".to_string(),
                },
                fs: FsKind::Swap,
            },
        ],
        selected: 0,
        scroll: 0,
    };
    state.image = Some(LoadedImage::Ghost11(image11));
    handle_action(&mut state, Action::Down);
    assert_eq!(state.image11().unwrap().selected, 1);
    handle_action(&mut state, Action::Down);
    assert_eq!(state.image11().unwrap().selected, 1, "should clamp at last");
    handle_action(&mut state, Action::Up);
    assert_eq!(state.image11().unwrap().selected, 0);
    handle_action(&mut state, Action::Home);
    assert_eq!(state.image11().unwrap().selected, 0);
    handle_action(&mut state, Action::End);
    assert_eq!(state.image11().unwrap().selected, 1);
    handle_action(&mut state, Action::Up);
    assert_eq!(state.image11().unwrap().selected, 0);
    state.image11_mut().unwrap().selected = 1;
    assert_eq!(state.image11().unwrap().selected, 1);
    assert!(state.image_old_mut().is_none());
}

#[test]
fn theme_round_trip() {
    assert_eq!(Theme::Dark.next(), Theme::Light);
    assert_eq!(Theme::Light.next(), Theme::Dark);
    assert_eq!(Theme::Dark.next().next(), Theme::Dark);
}

#[test]
fn default_is_dark() {
    assert_eq!(Theme::default(), Theme::Dark);
}

#[test]
fn palettes_have_distinct_colours() {
    let dark = Theme::Dark.palette();
    let light = Theme::Light.palette();
    assert_ne!(format!("{:?}", dark.selection_bg), format!("{:?}", light.selection_bg));
    assert_eq!(dark.selection_bg, Color::Rgb(40, 44, 52));
    assert_eq!(light.border_focus, Color::Blue);
}

#[test]
fn display_inputs_shortens_to_filenames() {
    let inputs = vec!["/tmp/foo/bar.gho".to_string(), "/tmp/foo/baz.ghs".to_string()];
    assert_eq!(display_inputs(&inputs), "bar.gho, baz.ghs");
}

#[test]
fn display_inputs_keeps_paths_without_file_name() {
    let inputs = vec!["/".to_string(), "a/..".to_string(), "dir/./".to_string()];
    assert_eq!(display_inputs(&inputs), "/, a/.., dir");
    assert_eq!(display_inputs(&[]), "");
}

#[test]
fn file_name_follows_path_components() {
    assert_eq!(file_name("/tmp/foo/bar.gho"), Some("bar.gho"));
    assert_eq!(file_name("bar.gho"), Some("bar.gho"));
    assert_eq!(file_name("/tmp/foo/"), Some("foo"));
    assert_eq!(file_name("foo/."), Some("foo"));
    assert_eq!(file_name("."), None);
    assert_eq!(file_name(".."), None);
    assert_eq!(file_name("a/b/.."), None);
    assert_eq!(file_name(""), None);
    assert_eq!(file_name("/"), None);
    for p in ["/tmp/foo/bar.gho", "bar.gho", "/tmp/foo/", "foo/.", ".", "..", "a/b/..", "", "/", "./x", "a//b"] {
        let std_name = std::path::Path::new(p).file_name().map(|s| s.to_str().unwrap().to_string());
        assert_eq!(file_name(p).map(|s| s.to_string()), std_name, "path {p}");
    }
}

#[test]
fn theme_labels() {
    assert_eq!(theme_label(Theme::Dark), "dark");
    assert_eq!(theme_label(Theme::Light), "light");
}

#[test]
fn hex_scroll_bump_keeps_other_fields() {
    let mut s = AppState::browse(vec!["a.gho".to_string()]);
    s.show_help = true;
    s.diff_scroll = 7;
    let focus = s.focus;
    s.hex_scroll_bump(64);
    assert_eq!(s.hex_scroll(), 64);
    assert!(s.show_help);
    assert!(!s.should_quit);
    assert_eq!(s.focus, focus);
    assert_eq!(s.inputs, vec!["a.gho".to_string()]);
    assert_eq!(s.diff_scroll, 7);
}

fn eleven_partitions(n: usize) -> Image11State {
    let partitions = (0..n)
        .map(|i| PartitionEntry {
            summary: PartitionSummary {
                index: i,
                mbr_type: None,
                compressed_bytes: 10,
                decompressed_bytes: 8,
                output_path: format!("/tmp/p{i}"),
            },
            fs: FsKind::Unknown,
        })
        .collect();
    Image11State { source_path: "/tmp/x.gho".to_string(), partitions, selected: 0, scroll: 0 }
}

fn dirent(name: &str, ext: &str, attrs: u8, size: u32) -> Dirent {
    let mut buf = [0u8; 56];
    buf[..name.len()].copy_from_slice(name.as_bytes());
    buf[8..8 + ext.len()].copy_from_slice(ext.as_bytes());
    buf[11] = attrs;
    buf[28..32].copy_from_slice(&size.to_le_bytes());
    Dirent::parse(&buf).unwrap()
}

fn old_image_state() -> AppState {
    let entries: Vec<WalkedEntry> = vec![
        make_entry(0, dirent("PROG", "", 0x10, 0), None),
        make_entry(1, dirent("APP", "EXE", 0x20, 1234), None),
        make_entry(2, dirent("DATA", "", 0x10, 0), None),
        make_entry(3, dirent("INFO", "TXT", 0x20, 56), None),
    ];
    let mut view = ImageOldState::new("/tmp/old.gho".to_string());
    view.tree = build_dirent_tree(&entries);
    let mut state = AppState::browse(vec!["old.gho".to_string()]);
    state.image = Some(LoadedImage::GhostOld(view));
    state
}

fn selected_path(s: &AppState) -> String {
    s.image_old().unwrap().selected.as_str().to_string()
}

#[test]
fn page_keys_move_ten_rows_and_clamp() {
    let mut state = AppState::browse(vec![]);
    state.image = Some(LoadedImage::Ghost11(eleven_partitions(25)));
    handle_action(&mut state, Action::PageDown);
    assert_eq!(state.image11().unwrap().selected, 10);
    handle_action(&mut state, Action::PageDown);
    handle_action(&mut state, Action::PageDown);
    assert_eq!(state.image11().unwrap().selected, 24);
    handle_action(&mut state, Action::PageUp);
    assert_eq!(state.image11().unwrap().selected, 14);
    handle_action(&mut state, Action::ScrollUp { column: 0, row: 9 });
    assert_eq!(state.image11().unwrap().selected, 13);
    handle_action(&mut state, Action::ScrollDown { column: 0, row: 9 });
    assert_eq!(state.image11().unwrap().selected, 14);
}

#[test]
fn click_selects_the_row_under_the_pointer() {
    let mut state = AppState::browse(vec![]);
    state.image = Some(LoadedImage::Ghost11(eleven_partitions(5)));
    handle_action(&mut state, Action::Click { column: 3, row: 6 });
    assert_eq!(state.image11().unwrap().selected, 2);
    handle_action(&mut state, Action::Click { column: 3, row: 2 });
    assert_eq!(state.image11().unwrap().selected, 2, "a click above the list selects nothing");
    handle_action(&mut state, Action::Click { column: 3, row: 40 });
    assert_eq!(state.image11().unwrap().selected, 2, "a click below the last row selects nothing");
}

#[test]
fn right_panel_keys_scroll_the_hex_preview() {
    let mut state = AppState::browse(vec![]);
    state.image = Some(LoadedImage::Ghost11(eleven_partitions(5)));
    handle_action(&mut state, Action::Tab);
    handle_action(&mut state, Action::PageDown);
    assert_eq!(state.hex_scroll(), 160);
    handle_action(&mut state, Action::Down);
    assert_eq!(state.hex_scroll(), 176);
    handle_action(&mut state, Action::Up);
    assert_eq!(state.hex_scroll(), 160);
    handle_action(&mut state, Action::PageUp);
    handle_action(&mut state, Action::PageUp);
    assert_eq!(state.hex_scroll(), 0);
    assert_eq!(state.image11().unwrap().selected, 0, "the partition list does not move");
}

#[test]
fn pre11_keys_move_expand_and_collapse() {
    let mut state = old_image_state();
    handle_action(&mut state, Action::Down);
    assert_eq!(selected_path(&state), "PROG/");
    handle_action(&mut state, Action::Down);
    assert_eq!(selected_path(&state), "DATA/");
    handle_action(&mut state, Action::Enter);
    assert_eq!(state.image_old().unwrap().expanded.len(), 2);
    handle_action(&mut state, Action::Down);
    assert_eq!(selected_path(&state), "DATA/INFO.TXT");
    handle_action(&mut state, Action::Left);
    assert_eq!(selected_path(&state), "DATA/", "a file goes to its parent");
    handle_action(&mut state, Action::Left);
    assert_eq!(state.image_old().unwrap().expanded.len(), 1, "an expanded directory collapses");
    handle_action(&mut state, Action::Home);
    assert_eq!(selected_path(&state), "PROG/");
    handle_action(&mut state, Action::Right);
    handle_action(&mut state, Action::End);
    assert_eq!(selected_path(&state), "DATA/");
    handle_action(&mut state, Action::Click { column: 1, row: 5 });
    assert_eq!(selected_path(&state), "PROG/APP.EXE");
}

#[test]
fn diff_keys_jump_between_changes() {
    let d = build_diff(
        "a.gho",
        "b.gho",
        &[("A".to_string(), 1, None), ("B".to_string(), 2, None), ("C".to_string(), 3, None)],
        &[("A".to_string(), 1, None), ("B".to_string(), 5, None), ("D".to_string(), 4, None)],
    );
    let kinds: Vec<_> = d.nodes.iter().map(|n| n.kind).collect();
    let mut state = AppState::diff(vec!["a.gho".to_string(), "b.gho".to_string()]);
    state.image = Some(LoadedImage::Diff(d));
    let unchanged = kinds.iter().position(|k| *k == gho::tui::diff::ChangeKind::Unchanged).unwrap();
    assert_eq!(unchanged, kinds.len() - 1, "unchanged entries come last");
    handle_action(&mut state, Action::NextDiff);
    assert_eq!(state.diff_scroll, 1);
    handle_action(&mut state, Action::NextDiff);
    assert_eq!(state.diff_scroll, 2);
    handle_action(&mut state, Action::NextDiff);
    assert_eq!(state.diff_scroll, 2, "no change after the last one");
    handle_action(&mut state, Action::PrevDiff);
    assert_eq!(state.diff_scroll, 1);
    handle_action(&mut state, Action::PrevDiff);
    handle_action(&mut state, Action::PrevDiff);
    assert_eq!(state.diff_scroll, 0);
}
