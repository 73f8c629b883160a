//! Semantic actions of the browser, and how key and mouse input maps to
//! them.

use vstd::prelude::*;

verus! {

/// User actions; the caller maps raw key and mouse events to these.
#[derive(Debug, Clone, Copy, PartialEq, Eq, Structural)]
pub enum Action {
    Quit,
    Help,
    ToggleTheme,
    Noop,
    Up,
    Down,
    Left,
    Right,
    PageUp,
    PageDown,
    Home,
    End,
    Enter,
    Back,
    Tab,
    BackTab,
    Expand,
    Collapse,
    Preview,
    Extract,
    NextDiff,
    PrevDiff,
    SwitchSide,
    Search,
    SearchNext,
    SearchPrev,
    Click { column: u16, row: u16 },
    ScrollUp { column: u16, row: u16 },
    ScrollDown { column: u16, row: u16 },
}

/// Rows a page key moves a list by.
pub const PAGE_ROWS: usize = 10;

/// Screen row of the first list row: below the three-row top bar and the
/// panel's top border.
pub const LIST_FIRST_ROW: u16 = 4;

/// True for the actions that move a list cursor by a number of rows: the
/// arrow keys, the page keys and the mouse wheel.
pub open spec fn is_row_step(action: Action) -> bool {
    ||| action is Up
    ||| action is Down
    ||| action is PageUp
    ||| action is PageDown
    ||| action is ScrollUp
    ||| action is ScrollDown
}

/// The rows a row-moving action moves by: one for an arrow key or the
/// wheel, ten for a page key, up being negative.
pub open spec fn row_step(action: Action) -> int {
    match action {
        Action::Up => -1,
        Action::ScrollUp { .. } => -1,
        Action::Down => 1,
        Action::ScrollDown { .. } => 1,
        Action::PageUp => -(PAGE_ROWS as int),
        Action::PageDown => PAGE_ROWS as int,
        _ => 0,
    }
}

/// The rows `action` moves a list by (0 for other actions).
pub fn row_step_of(action: Action) -> (r: isize)
    ensures
        r == row_step(action),
{
    match action {
        Action::Up => -1,
        Action::ScrollUp { .. } => -1,
        Action::Down => 1,
        Action::ScrollDown { .. } => 1,
        Action::PageUp => -10,
        Action::PageDown => 10,
        _ => 0,
    }
}

/// The list row under a click at screen row `row`, for a list scrolled by
/// `scroll` rows; none above the first list row.
pub open spec fn clicked_row(row: u16, scroll: int) -> Option<int> {
    if row >= LIST_FIRST_ROW {
        Some(row - LIST_FIRST_ROW + scroll)
    } else {
        None
    }
}

/// The list row under a click at screen row `row` when it is one of `len`
/// rows of a list scrolled by `scroll` rows.
pub fn clicked_row_in(row: u16, scroll: usize, len: usize) -> (r: Option<usize>)
    ensures
        r == (match clicked_row(row, scroll as int) {
            Some(k) => if k < len { Some(k as usize) } else { None::<usize> },
            None => None::<usize>,
        }),
{
    if row < LIST_FIRST_ROW {
        return None;
    }
    let k = (row - LIST_FIRST_ROW) as usize;
    if scroll < len && k < len - scroll {
        Some(k + scroll)
    } else {
        None
    }
}

/// A key, as far as the browser tells keys apart.
#[derive(Debug, Clone, Copy, PartialEq, Eq, Structural)]
pub enum KeyCode {
    Char(char),
    F(u8),
    Esc,
    Up,
    Down,
    Left,
    Right,
    PageUp,
    PageDown,
    Home,
    End,
    Enter,
    Backspace,
    Tab,
    BackTab,
    Other,
}

/// The shift modifier bit.
pub const MOD_SHIFT: u8 = 0x01;
/// The control modifier bit.
pub const MOD_CONTROL: u8 = 0x02;
/// The alt modifier bit.
pub const MOD_ALT: u8 = 0x04;

/// A key press: the key and the bits of the modifiers held with it.
#[derive(Debug, Clone, Copy, PartialEq, Eq, Structural)]
pub struct KeyInput {
    pub code: KeyCode,
    pub modifiers: u8,
}

/// The action of a key press. With control held: `c` quits, `f`, `n` and
/// `p` search; other keys do nothing.
pub open spec fn spec_map_key(key: KeyInput) -> Action {
    if key.modifiers & MOD_CONTROL != 0 {
        match key.code {
            KeyCode::Char('c') => Action::Quit,
            KeyCode::Char('f') => Action::Search,
            KeyCode::Char('n') => Action::SearchNext,
            KeyCode::Char('p') => Action::SearchPrev,
            _ => Action::Noop,
        }
    } else {
        match key.code {
            KeyCode::Char('q') | KeyCode::Esc => Action::Quit,
            KeyCode::Char('?') | KeyCode::F(1) => Action::Help,
            KeyCode::Char('t') => Action::ToggleTheme,
            KeyCode::Up | KeyCode::Char('k') => Action::Up,
            KeyCode::Down | KeyCode::Char('j') => Action::Down,
            KeyCode::Left | KeyCode::Char('h') => Action::Left,
            KeyCode::Right | KeyCode::Char('l') => Action::Right,
            KeyCode::PageUp => Action::PageUp,
            KeyCode::PageDown => Action::PageDown,
            KeyCode::Home => Action::Home,
            KeyCode::End => Action::End,
            KeyCode::Enter => Action::Enter,
            KeyCode::Backspace => Action::Back,
            KeyCode::Tab => Action::Tab,
            KeyCode::BackTab => Action::SwitchSide,
            KeyCode::F(3) => Action::Preview,
            KeyCode::F(4) => Action::Extract,
            KeyCode::Char('n') => if key.modifiers != 0 { Action::NextDiff } else { Action::Noop },
            KeyCode::Char('p') => if key.modifiers != 0 { Action::PrevDiff } else { Action::Noop },
            _ => Action::Noop,
        }
    }
}

/// Map a key press to an action.
pub fn map_key(key: KeyInput) -> (a: Action)
    ensures
        a == spec_map_key(key),
{
    if key.modifiers & MOD_CONTROL != 0 {
        return match key.code {
            KeyCode::Char('c') => Action::Quit,
            KeyCode::Char('f') => Action::Search,
            KeyCode::Char('n') => Action::SearchNext,
            KeyCode::Char('p') => Action::SearchPrev,
            _ => Action::Noop,
        };
    }
    match key.code {
        KeyCode::Char('q') | KeyCode::Esc => Action::Quit,
        KeyCode::Char('?') | KeyCode::F(1) => Action::Help,
        KeyCode::Char('t') => Action::ToggleTheme,
        KeyCode::Up | KeyCode::Char('k') => Action::Up,
        KeyCode::Down | KeyCode::Char('j') => Action::Down,
        KeyCode::Left | KeyCode::Char('h') => Action::Left,
        KeyCode::Right | KeyCode::Char('l') => Action::Right,
        KeyCode::PageUp => Action::PageUp,
        KeyCode::PageDown => Action::PageDown,
        KeyCode::Home => Action::Home,
        KeyCode::End => Action::End,
        KeyCode::Enter => Action::Enter,
        KeyCode::Backspace => Action::Back,
        KeyCode::Tab => Action::Tab,
        KeyCode::BackTab => Action::SwitchSide,
        KeyCode::F(3) => Action::Preview,
        KeyCode::F(4) => Action::Extract,
        KeyCode::Char('n') => if key.modifiers != 0 { Action::NextDiff } else { Action::Noop },
        KeyCode::Char('p') => if key.modifiers != 0 { Action::PrevDiff } else { Action::Noop },
        _ => Action::Noop,
    }
}

/// What a mouse event was, as far as the browser tells them apart.
#[derive(Debug, Clone, Copy, PartialEq, Eq, Structural)]
pub enum MouseKind {
    LeftDown,
    ScrollUp,
    ScrollDown,
    Other,
}

/// A mouse event and the cell it happened on.
#[derive(Debug, Clone, Copy, PartialEq, Eq, Structural)]
pub struct MouseInput {
    pub kind: MouseKind,
    pub column: u16,
    pub row: u16,
}

/// Map a mouse event to an action: a left click, or a scroll up or down,
/// at its cell.
pub fn map_mouse(mouse: MouseInput) -> (a: Action)
    ensures
        a == (match mouse.kind {
            MouseKind::LeftDown => Action::Click { column: mouse.column, row: mouse.row },
            MouseKind::ScrollUp => Action::ScrollUp { column: mouse.column, row: mouse.row },
            MouseKind::ScrollDown => Action::ScrollDown { column: mouse.column, row: mouse.row },
            MouseKind::Other => Action::Noop,
        }),
{
    match mouse.kind {
        MouseKind::LeftDown => Action::Click { column: mouse.column, row: mouse.row },
        MouseKind::ScrollUp => Action::ScrollUp { column: mouse.column, row: mouse.row },
        MouseKind::ScrollDown => Action::ScrollDown { column: mouse.column, row: mouse.row },
        MouseKind::Other => Action::Noop,
    }
}

} // verus!
