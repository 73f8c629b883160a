//! Central state of the browser and how an action changes it.
//!
//! `AppState` holds everything a frame is drawn from: the mode (browse or
//! diff), the loaded view, focus, theme, the help overlay and the status
//! line.

use vstd::prelude::*;

use crate::tui::browse::image11::{clamp, Image11State};
use crate::tui::browse::image_old::{old_view_acted, state_wf, ImageOldState};
use crate::tui::diff::{spec_next_change, spec_prev_change, Diff, DiffNode};
use crate::tui::input::{clicked_row, clicked_row_in, is_row_step, row_step, row_step_of, Action};
use crate::tui::widgets::hex::BYTES_PER_ROW;
use crate::tui::theme::Theme;
use crate::tui::time::now;

verus! {

/// Which sub-app the browser is in.
#[derive(Debug, Clone, Copy, PartialEq, Eq, Structural)]
pub enum Mode {
    /// Single-image browser.
    Browse,
    /// Two-image snapshot diff.
    Diff,
}

/// Which panel has keyboard focus.
#[derive(Debug, Clone, Copy, PartialEq, Eq, Structural)]
pub enum FocusPanel {
    Left,
    Right,
}

/// Severity of a status message.
#[derive(Debug, Clone, Copy, PartialEq, Eq, Structural)]
pub enum StatusLevel {
    Info,
    Success,
    Warn,
    Error,
}

/// A status message shown in the bottom bar.
#[derive(Debug)]
pub struct StatusMessage {
    pub text: String,
    pub level: StatusLevel,
    pub set_at: std::time::Instant,
}

impl StatusMessage {
    /// An informational message.
    pub fn info(text: &str) -> (m: Self)
        ensures
            m.text@ == text@,
            m.level == StatusLevel::Info,
    {
        StatusMessage { text: String::from_str(text), level: StatusLevel::Info, set_at: now() }
    }

    /// A success message.
    pub fn ok(text: &str) -> (m: Self)
        ensures
            m.text@ == text@,
            m.level == StatusLevel::Success,
    {
        StatusMessage { text: String::from_str(text), level: StatusLevel::Success, set_at: now() }
    }

    /// A warning.
    pub fn warn(text: &str) -> (m: Self)
        ensures
            m.text@ == text@,
            m.level == StatusLevel::Warn,
    {
        StatusMessage { text: String::from_str(text), level: StatusLevel::Warn, set_at: now() }
    }

    /// An error message.
    pub fn error(text: &str) -> (m: Self)
        ensures
            m.text@ == text@,
            m.level == StatusLevel::Error,
    {
        StatusMessage { text: String::from_str(text), level: StatusLevel::Error, set_at: now() }
    }
}

/// The loaded view: an 11.x image, a pre-11.x image or a two-image diff.
#[derive(Debug)]
pub enum LoadedImage {
    Ghost11(Image11State),
    GhostOld(ImageOldState),
    Diff(Diff),
}

/// Top-level state of the browser.
#[derive(Debug)]
pub struct AppState {
    /// Current sub-app.
    pub mode: Mode,
    /// Theme selection.
    pub theme: Theme,
    /// Whether the help overlay is shown.
    pub show_help: bool,
    /// Whether the application exits on the next tick.
    pub should_quit: bool,
    /// Which panel has keyboard focus.
    pub focus: FocusPanel,
    /// The input paths given on the command line.
    pub inputs: Vec<String>,
    /// Current status message.
    pub status: Option<StatusMessage>,
    /// The loaded view, once an image is open.
    pub image: Option<LoadedImage>,
    /// Byte offset of the top row of the hex viewer.
    pub hex_scroll: usize,
    /// First visible row of the diff list.
    pub diff_scroll: usize,
}

/// Hex viewer's scroll byte offset at start: from the first byte.
pub const HEX_SCROLL_DEFAULT: usize = 0;

/// The state in which a session starts: dark theme, left focus, no help,
/// no view, scrolls at zero, and the status "loading...".
pub open spec fn is_fresh(s: AppState, mode: Mode, inputs: Seq<String>) -> bool {
    &&& s.mode == mode
    &&& s.theme == Theme::Dark
    &&& !s.show_help
    &&& !s.should_quit
    &&& s.focus == FocusPanel::Left
    &&& s.inputs@ == inputs
    &&& s.status matches Some(m) && m.text@ == "loading..."@ && m.level == StatusLevel::Info
    &&& s.image is None
    &&& s.hex_scroll == 0
    &&& s.diff_scroll == 0
}

/// The status text of a theme switch.
pub open spec fn theme_text(t: Theme) -> Seq<char> {
    match t {
        Theme::Dark => "theme: dark"@,
        Theme::Light => "theme: light"@,
    }
}

/// The status text set after an action in a mode.
pub open spec fn mode_text(m: Mode) -> Seq<char> {
    match m {
        Mode::Browse => "mode: browse  keys: ? for help"@,
        Mode::Diff => "mode: diff  keys: ? for help"@,
    }
}

/// Everything but the fields an action may change stays as it was.
pub open spec fn same_session(a: AppState, b: AppState) -> bool {
    &&& a.mode == b.mode
    &&& a.inputs == b.inputs
    &&& a.hex_scroll == b.hex_scroll
    &&& a.diff_scroll == b.diff_scroll
}

impl AppState {
    /// A fresh state for browsing `inputs`.
    pub fn browse(inputs: Vec<String>) -> (s: Self)
        ensures
            is_fresh(s, Mode::Browse, inputs@),
    {
        AppState {
            mode: Mode::Browse,
            theme: Theme::default(),
            show_help: false,
            should_quit: false,
            focus: FocusPanel::Left,
            inputs,
            status: Some(StatusMessage::info("loading...")),
            image: None,
            hex_scroll: 0,
            diff_scroll: 0,
        }
    }

    /// A fresh state for diffing `inputs` (old, new).
    pub fn diff(inputs: Vec<String>) -> (s: Self)
        ensures
            is_fresh(s, Mode::Diff, inputs@),
    {
        AppState {
            mode: Mode::Diff,
            theme: Theme::default(),
            show_help: false,
            should_quit: false,
            focus: FocusPanel::Left,
            inputs,
            status: Some(StatusMessage::info("loading...")),
            image: None,
            hex_scroll: 0,
            diff_scroll: 0,
        }
    }

    /// Switch to the other theme and say which one is on.
    pub fn toggle_theme(&mut self)
        ensures
            final(self).theme == old(self).theme.spec_next(),
            final(self).status matches Some(m) && m.text@ == theme_text(final(self).theme) && m.level == StatusLevel::Info,
            same_session(*final(self), *old(self)),
            final(self).show_help == old(self).show_help,
            final(self).should_quit == old(self).should_quit,
            final(self).focus == old(self).focus,
            final(self).image == old(self).image,
    {
        self.theme = self.theme.next();
        let text = match self.theme {
            Theme::Dark => "theme: dark",
            Theme::Light => "theme: light",
        };
        self.set_status(StatusMessage::info(text));
    }

    /// Replace the status message.
    pub fn set_status(&mut self, msg: StatusMessage)
        ensures
            final(self).status == Some(msg),
            same_session(*final(self), *old(self)),
            final(self).theme == old(self).theme,
            final(self).show_help == old(self).show_help,
            final(self).should_quit == old(self).should_quit,
            final(self).focus == old(self).focus,
            final(self).image == old(self).image,
    {
        self.status = Some(msg);
    }

    /// Clear the status message.
    pub fn clear_status(&mut self)
        ensures
            final(self).status is None,
            same_session(*final(self), *old(self)),
            final(self).theme == old(self).theme,
            final(self).show_help == old(self).show_help,
            final(self).should_quit == old(self).should_quit,
            final(self).focus == old(self).focus,
            final(self).image == old(self).image,
    {
        self.status = None;
    }

    /// Byte offset of the top row of the hex viewer.
    pub fn hex_scroll(&self) -> (r: usize)
        ensures
            r == self.hex_scroll,
    {
        self.hex_scroll
    }

    /// The first input path, if any.
    pub fn primary_input(&self) -> (r: Option<&String>)
        ensures
            self.inputs@.len() > 0 ==> r == Some(&self.inputs@[0]),
            self.inputs@.len() == 0 ==> r is None,
    {
        if self.inputs.len() > 0 {
            Some(&self.inputs[0])
        } else {
            None
        }
    }

    /// The 11.x view, when that is what is loaded.
    pub fn image11(&self) -> (r: Option<&Image11State>)
        ensures
            r == (match self.image {
                Some(LoadedImage::Ghost11(s)) => Some(&s),
                _ => None,
            }),
    {
        match &self.image {
            Some(LoadedImage::Ghost11(s)) => Some(s),
            _ => None,
        }
    }


    /// The 11.x view for changing, when that is what is loaded.
    pub fn image11_mut(&mut self) -> (r: Option<&mut Image11State>)
        ensures
            match old(self).image {
                Some(LoadedImage::Ghost11(s)) => r matches Some(v) && *v == s
                    && final(self).image == Some(LoadedImage::Ghost11(*final(v))),
                _ => r is None && *final(self) == *old(self),
            },
            same_session(*final(self), *old(self)),
            final(self).theme == old(self).theme,
            final(self).status == old(self).status,
            final(self).focus == old(self).focus,
            final(self).show_help == old(self).show_help,
            final(self).should_quit == old(self).should_quit,
    {
        match &mut self.image {
            Some(LoadedImage::Ghost11(s)) => Some(s),
            _ => None,
        }
    }

    /// The pre-11.x view for changing, when that is what is loaded.
    pub fn image_old_mut(&mut self) -> (r: Option<&mut ImageOldState>)
        ensures
            match old(self).image {
                Some(LoadedImage::GhostOld(s)) => r matches Some(v) && *v == s
                    && final(self).image == Some(LoadedImage::GhostOld(*final(v))),
                _ => r is None && *final(self) == *old(self),
            },
            same_session(*final(self), *old(self)),
            final(self).theme == old(self).theme,
            final(self).status == old(self).status,
            final(self).focus == old(self).focus,
            final(self).show_help == old(self).show_help,
            final(self).should_quit == old(self).should_quit,
    {
        match &mut self.image {
            Some(LoadedImage::GhostOld(s)) => Some(s),
            _ => None,
        }
    }

    /// The pre-11.x view, when that is what is loaded.
    pub fn image_old(&self) -> (r: Option<&ImageOldState>)
        ensures
            r == (match self.image {
                Some(LoadedImage::GhostOld(s)) => Some(&s),
                _ => None,
            }),
    {
        match &self.image {
            Some(LoadedImage::GhostOld(s)) => Some(s),
            _ => None,
        }
    }

    /// The diff view, when that is what is loaded.
    pub fn diff_view(&self) -> (r: Option<&Diff>)
        ensures
            r == (match self.image {
                Some(LoadedImage::Diff(d)) => Some(&d),
                _ => None,
            }),
    {
        match &self.image {
            Some(LoadedImage::Diff(d)) => Some(d),
            _ => None,
        }
    }

    /// Set the hex viewer's top byte offset.
    pub fn hex_scroll_set(&mut self, off: usize)
        ensures
            final(self).hex_scroll == off,
            final(self).mode == old(self).mode,
            final(self).theme == old(self).theme,
            final(self).image == old(self).image,
            final(self).status == old(self).status,
            final(self).show_help == old(self).show_help,
            final(self).should_quit == old(self).should_quit,
            final(self).focus == old(self).focus,
            final(self).inputs@ == old(self).inputs@,
            final(self).diff_scroll == old(self).diff_scroll,
    {
        self.hex_scroll = off;
    }

    /// Move the hex viewer's top byte offset by `delta`, stopping at zero.
    pub fn hex_scroll_bump(&mut self, delta: isize)
        requires
            old(self).hex_scroll + delta <= usize::MAX,
        ensures
            final(self).hex_scroll == (if old(self).hex_scroll + delta < 0 { 0 } else { old(self).hex_scroll + delta }),
            final(self).mode == old(self).mode,
            final(self).theme == old(self).theme,
            final(self).image == old(self).image,
            final(self).status == old(self).status,
            final(self).show_help == old(self).show_help,
            final(self).should_quit == old(self).should_quit,
            final(self).focus == old(self).focus,
            final(self).inputs@ == old(self).inputs@,
            final(self).diff_scroll == old(self).diff_scroll,
    {
        let target: i128 = self.hex_scroll as i128 + delta as i128;
        self.hex_scroll = if target < 0 { 0 } else { target as usize };
    }
}

/// Bytes the hex preview scrolls by for a page key: ten rows.
pub const HEX_PAGE_BYTES: usize = 160;

/// The bytes the hex preview scrolls by for `action`: a row for an arrow
/// key or the wheel, a page for a page key, up being negative; 0 for other
/// actions.
pub open spec fn hex_step(action: Action) -> int {
    match action {
        Action::Up => -(BYTES_PER_ROW as int),
        Action::ScrollUp { .. } => -(BYTES_PER_ROW as int),
        Action::Down => BYTES_PER_ROW as int,
        Action::ScrollDown { .. } => BYTES_PER_ROW as int,
        Action::PageUp => -(HEX_PAGE_BYTES as int),
        Action::PageDown => HEX_PAGE_BYTES as int,
        _ => 0,
    }
}

/// The partition cursor after `action` in an 11.x view with `len`
/// partitions whose cursor is at `selected` and whose list is scrolled by
/// `scroll` rows: the arrows, page keys and wheel move it and clamp it,
/// Home and End jump to the first and last partition, a click picks the
/// partition under it.
pub open spec fn moved_cursor(len: int, selected: int, scroll: int, action: Action) -> int {
    if len == 0 {
        selected
    } else if is_row_step(action) {
        clamp(selected + row_step(action), 0, len - 1)
    } else {
        match action {
            Action::Home => 0,
            Action::End => len - 1,
            Action::Click { row, .. } => match clicked_row(row, scroll) {
                Some(k) => if k < len { k } else { selected },
                None => selected,
            },
            _ => selected,
        }
    }
}

/// The first diff row after `action` with the list at row `scroll`: the next
/// change below it or the previous change above it, staying when there is
/// none.
pub open spec fn diff_scroll_after(nodes: Seq<DiffNode>, scroll: int, action: Action) -> int {
    match action {
        Action::NextDiff => match spec_next_change(nodes, scroll + 1) {
            Some(k) => k,
            None => scroll,
        },
        Action::PrevDiff => match spec_prev_change(nodes, scroll) {
            Some(k) => k,
            None => scroll,
        },
        _ => scroll,
    }
}

/// True when the keys scroll the hex preview: browse mode with the right
/// panel focused.
pub open spec fn hex_panel(s: AppState) -> bool {
    s.mode == Mode::Browse && s.focus == FocusPanel::Right
}

/// What `action` does to `old`, besides the status line: quit, toggle the
/// help, switch theme and move the focus; with the right panel focused in
/// browse mode, scroll the hex preview; otherwise move through the loaded
/// view (the partition list, the pre-11.x tree when it is well formed, or
/// the changes of a diff).
pub open spec fn acted(old: AppState, new: AppState, action: Action) -> bool {
    &&& new.mode == old.mode
    &&& new.inputs == old.inputs
    &&& new.should_quit == (old.should_quit || action == Action::Quit)
    &&& new.show_help == (if action == Action::Help { !old.show_help } else { old.show_help })
    &&& new.theme == (if action == Action::ToggleTheme { old.theme.spec_next() } else { old.theme })
    &&& new.focus == (match action {
        Action::Tab => FocusPanel::Right,
        Action::BackTab => FocusPanel::Left,
        _ => old.focus,
    })
    &&& new.hex_scroll == (if hex_panel(old) {
        clamp(old.hex_scroll + hex_step(action), 0, usize::MAX as int)
    } else {
        old.hex_scroll as int
    })
    &&& new.diff_scroll == (match old.image {
        Some(LoadedImage::Diff(d)) => if hex_panel(old) {
            old.diff_scroll as int
        } else {
            diff_scroll_after(d.nodes@, old.diff_scroll as int, action)
        },
        _ => old.diff_scroll as int,
    })
    &&& if hex_panel(old) {
        new.image == old.image
    } else {
        match (old.image, new.image) {
            (Some(LoadedImage::Ghost11(a)), Some(LoadedImage::Ghost11(b))) => {
                &&& b.partitions == a.partitions
                &&& b.source_path == a.source_path
                &&& b.scroll == a.scroll
                &&& b.selected == moved_cursor(a.partitions@.len() as int, a.selected as int, a.scroll as int, action)
            },
            (Some(LoadedImage::Ghost11(_)), _) => false,
            (Some(LoadedImage::GhostOld(a)), Some(LoadedImage::GhostOld(b))) => if state_wf(a) {
                old_view_acted(a, b, action)
            } else {
                b == a
            },
            (Some(LoadedImage::GhostOld(_)), _) => false,
            (o, n) => n == o,
        }
    }
}

/// The bytes `action` scrolls the hex preview by.
fn hex_step_of(action: Action) -> (r: isize)
    ensures
        r == hex_step(action),
{
    match action {
        Action::Up => -16,
        Action::ScrollUp { .. } => -16,
        Action::Down => 16,
        Action::ScrollDown { .. } => 16,
        Action::PageUp => -160,
        Action::PageDown => 160,
        _ => 0,
    }
}

/// `off` moved by `delta`, stopping at 0 and at `usize::MAX`.
fn scrolled(off: usize, delta: isize) -> (r: usize)
    ensures
        r == clamp(off + delta, 0, usize::MAX as int),
{
    let target: i128 = off as i128 + delta as i128;
    if target < 0 {
        0
    } else if target > usize::MAX as i128 {
        usize::MAX
    } else {
        target as usize
    }
}

/// Apply one user action to the state.
///
/// While the help overlay is shown, any action but help and quit only
/// dismisses it. Otherwise the action takes effect (see `acted`) and the
/// status line shows the mode and the help key.
pub fn handle_action(state: &mut AppState, action: Action)
    ensures
        ({
            if old(state).show_help && action != Action::Help && action != Action::Quit {
                &&& !final(state).show_help
                &&& same_session(*final(state), *old(state))
                &&& final(state).should_quit == old(state).should_quit
                &&& final(state).theme == old(state).theme
                &&& final(state).focus == old(state).focus
                &&& final(state).image == old(state).image
                &&& final(state).status == old(state).status
            } else {
                &&& acted(*old(state), *final(state), action)
                &&& final(state).status matches Some(m) && m.text@ == mode_text(old(state).mode) && m.level == StatusLevel::Info
            }
        }),
{
    if state.show_help && action != Action::Help && action != Action::Quit {
        state.show_help = false;
        return;
    }
    let on_hex = state.mode == Mode::Browse && state.focus == FocusPanel::Right;
    match action {
        Action::Quit => state.should_quit = true,
        Action::Help => state.show_help = !state.show_help,
        Action::ToggleTheme => state.toggle_theme(),
        Action::Tab => state.focus = FocusPanel::Right,
        Action::BackTab => state.focus = FocusPanel::Left,
        _ => {},
    }
    if on_hex {
        state.hex_scroll = scrolled(state.hex_scroll, hex_step_of(action));
    } else {
        let diff_target: Option<usize> = match &state.image {
            Some(LoadedImage::Diff(d)) => match action {
                Action::NextDiff => if state.diff_scroll < d.nodes.len() {
                    d.next_change(state.diff_scroll + 1)
                } else {
                    None
                },
                Action::PrevDiff => d.prev_change(state.diff_scroll),
                _ => None,
            },
            _ => None,
        };
        if let Some(k) = diff_target {
            state.diff_scroll = k;
        }
        match &mut state.image {
            Some(LoadedImage::Ghost11(view)) => {
                let len = view.partitions.len();
                if len > 0 {
                    let step = row_step_of(action);
                    if step != 0 {
                        view.move_cursor(step);
                    } else {
                        match action {
                            Action::Home => view.selected = 0,
                            Action::End => view.selected = len - 1,
                            Action::Click { row, .. } => {
                                if let Some(k) = clicked_row_in(row, view.scroll, len) {
                                    view.selected = k;
                                }
                            },
                            _ => {},
                        }
                    }
                }
            },
            Some(LoadedImage::GhostOld(view)) => {
                if view.tree.well_formed() {
                    view.apply(action);
                }
            },
            _ => {},
        }
    }
    let text = match state.mode {
        Mode::Browse => "mode: browse  keys: ? for help",
        Mode::Diff => "mode: diff  keys: ? for help",
    };
    state.set_status(StatusMessage::info(text));
}

} // verus!
