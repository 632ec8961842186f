//! Key parser: from single key presses to actions, with counts and chords.
use vstd::prelude::*;

use crate::navigator::Action;
use crate::number::{Real32, FIVE_SIXTHS, SIX_FIFTHS};
use crate::text::{self, digit, letter, push_decimal, push_str};
use crate::viewport::ZoomMode;

verus! {

/// Direction of an arrow key.
#[derive(Debug, Clone, Copy, PartialEq, Eq, Structural)]
pub enum ArrowDir {
    Left,
    Down,
    Up,
    Right,
}

/// Page-key direction used by `Ctrl-Shift-Page{Up,Down}`.
#[derive(Debug, Clone, Copy, PartialEq, Eq, Structural)]
pub enum PageDir {
    Up,
    Down,
}

/// A terminal-agnostic key event.
#[derive(Debug, Clone, Copy, PartialEq, Eq, Structural)]
pub enum Key {
    Char(char),
    Ctrl(char),
    Esc,
    Enter,
    Tab,
    BackTab,
    Backspace,
    Up,
    Down,
    Left,
    Right,
    PageUp,
    PageDown,
    Home,
    End,
    /// `Alt-<Arrow>`: focus move shortcut.
    AltArrow(ArrowDir),
    /// `Shift-Alt-<Arrow>`: window resize shortcut.
    ShiftAltArrow(ArrowDir),
    /// `Ctrl-PageUp` / `Ctrl-PageDown`: tab switching.
    CtrlPage(PageDir),
    /// `Ctrl-Shift-PageUp` / `Ctrl-Shift-PageDown`: reorder tabs.
    CtrlShiftPage(PageDir),
}

/// Active multi-key chord state.
#[derive(Debug, Clone, Copy, PartialEq, Eq, Structural)]
pub enum Leader {
    /// No chord has been started.
    Idle,
    /// `g` pressed: waiting for second letter (`g`, `t`, `T`).
    G,
    /// `Ctrl-w` pressed: waiting for a window command key.
    CtrlW,
    /// `m` pressed: waiting for a mark letter to set.
    M,
    /// `'` pressed: waiting for a mark letter to recall.
    Apostrophe,
}

#[derive(Debug, Clone, Copy, PartialEq, Eq, Structural)]
pub struct KeyParserState {
    /// Accumulated count prefix (e.g. 42 in `42G`).
    pub count: Option<usize>,
    pub leader: Leader,
}

impl Default for KeyParserState {
    fn default() -> (s: KeyParserState)
        ensures
            s == KeyParserState::cleared(),
    {
        KeyParserState { count: None, leader: Leader::Idle }
    }
}

impl KeyParserState {
    /// Nothing pending.
    pub open spec fn cleared() -> KeyParserState {
        KeyParserState { count: None, leader: Leader::Idle }
    }

    /// The status-bar hint: the count, then the chord's opening key.
    pub open spec fn spec_hint(self) -> Seq<char> {
        let count = match self.count {
            Some(n) => text::decimal(n as nat),
            None => Seq::empty(),
        };
        let opening = match self.leader {
            Leader::Idle => Seq::empty(),
            Leader::G => seq!['g'],
            Leader::CtrlW => "^W"@,
            Leader::M => seq!['m'],
            Leader::Apostrophe => seq!['\''],
        };
        count + opening
    }

    /// Whether a count or a chord is pending.
    pub fn active(&self) -> (b: bool)
        ensures
            b == (*self != KeyParserState::cleared()),
    {
        self.count.is_some() || self.leader != Leader::Idle
    }

    pub fn clear(&mut self)
        ensures
            *final(self) == KeyParserState::cleared(),
    {
        self.count = None;
        self.leader = Leader::Idle;
    }

    /// Short hint for the status bar (e.g. `42g` while mid-chord).
    pub fn hint(&self) -> (s: String)
        ensures
            s@ == self.spec_hint(),
    {
        let mut s: String = String::new();
        if let Some(c) = self.count {
            push_decimal(&mut s, c as u64);
        }
        match self.leader {
            Leader::Idle => {},
            Leader::G => s.push('g'),
            Leader::CtrlW => push_str(&mut s, "^W"),
            Leader::M => s.push('m'),
            Leader::Apostrophe => s.push('\''),
        }
        assert(s@ == self.spec_hint());
        s
    }
}

/// Window-manager operations.
#[derive(Debug, Clone, Copy, PartialEq, Eq, Structural)]
pub enum WindowOp {
    FocusLeft,
    FocusDown,
    FocusUp,
    FocusRight,
    /// Cycle focus through windows; `reverse` is `<C-w>W`.
    FocusCycle { reverse: bool },
    SplitHorizontal,
    SplitVertical,
    Close,
    Only,
    Equalize,
    /// Positive = grow, negative = shrink, in cell rows.
    ResizeVertical(i32),
    /// Positive = grow, negative = shrink, in cell columns.
    ResizeHorizontal(i32),
    NextTab(usize),
    PrevTab(usize),
    /// Reorder the current tab one position left (`:tabmove -1`).
    MoveTabLeft,
    /// Reorder the current tab one position right (`:tabmove +1`).
    MoveTabRight,
    AlternateBuffer,
}

/// Outcome of feeding a single key into the parser.
#[derive(Debug, Clone, Copy, PartialEq, Eq, Structural)]
pub enum KeyOutcome {
    /// Nothing produced: keep accumulating. Includes "state cleared".
    Pending,
    /// Produced an action, repeated `count` times.
    Action { action: Action, count: usize },
    /// Window / tab manipulation.
    Window(WindowOp),
    /// Enter command mode (open the `:` palette).
    OpenCommand,
    /// Open the search prompt. `forward` for `/`, else `?`.
    OpenSearch { forward: bool },
    /// Step through the active search results. `forward` for `n`, else `N`.
    SearchStep { forward: bool },
    /// Esc with nothing pending: cancel transient UI state.
    Cancel,
    /// Toggle the help overlay.
    ToggleHelp,
    /// Request to quit.
    Quit,
    /// `m{a-z}`: set a single-letter mark on the current viewport.
    SetMark(char),
    /// `'{a-z}`: jump to a previously-set mark.
    JumpMark(char),
    /// `<C-o>`: pop the back-stack.
    JumpBack,
    /// `<C-i>`.
    JumpForward,
    /// `t`: toggle the table of contents.
    ToggleToc,
}

/// What a key does outside of a chord.
pub enum Binding {
    /// An action, as often as the count says (once without a count).
    Repeat(Action),
    /// Something that ignores the count.
    Once(KeyOutcome),
    /// The page that the count names, or the last one.
    CountedPage,
    /// Window columns (or rows) by the count, two without one.
    Columns { grow: bool },
    Rows { grow: bool },
    /// The first key of a chord; the count waits for the second.
    Opens(Leader),
    Unbound,
}

/// An action done once.
pub open spec fn once(action: Action) -> Binding {
    Binding::Once(KeyOutcome::Action { action, count: 1 })
}

/// The key table.
pub open spec fn binding(key: Key) -> Binding {
    match key {
        Key::Char(':') => Binding::Once(KeyOutcome::OpenCommand),
        Key::Char('?') => Binding::Once(KeyOutcome::OpenSearch { forward: false }),
        Key::Char('/') => Binding::Once(KeyOutcome::OpenSearch { forward: true }),
        Key::Char('n') => Binding::Once(KeyOutcome::SearchStep { forward: true }),
        Key::Char('N') => Binding::Once(KeyOutcome::SearchStep { forward: false }),
        Key::Char('q') => Binding::Once(KeyOutcome::Quit),
        Key::Char('t') => Binding::Once(KeyOutcome::ToggleToc),
        Key::Ctrl('o') => Binding::Once(KeyOutcome::JumpBack),
        Key::Ctrl('i') => Binding::Once(KeyOutcome::JumpForward),
        Key::Char('j') => Binding::Repeat(Action::NextScreen),
        Key::Char('k') => Binding::Repeat(Action::PrevScreen),
        Key::Down => Binding::Repeat(Action::FineScrollDown),
        Key::Up => Binding::Repeat(Action::FineScrollUp),
        Key::Char('h') | Key::Left => Binding::Repeat(Action::ScrollLeft),
        Key::Char('l') | Key::Right => Binding::Repeat(Action::ScrollRight),
        Key::Ctrl('f') | Key::PageDown => Binding::Repeat(Action::NextPage),
        Key::Ctrl('b') | Key::PageUp => Binding::Repeat(Action::PrevPage),
        Key::Ctrl('d') => Binding::Repeat(Action::HalfScreenDown),
        Key::Ctrl('u') => Binding::Repeat(Action::HalfScreenUp),
        Key::Char('H') => once(Action::PageTop),
        Key::Char('M') => once(Action::PageMiddle),
        Key::Char('L') => once(Action::PageBottom),
        Key::Char('+') | Key::Char('=') => once(Action::ZoomBy(Real32 { bits: SIX_FIFTHS })),
        Key::Char('-') => once(Action::ZoomBy(Real32 { bits: FIVE_SIXTHS })),
        Key::Char('w') => once(Action::SetZoom(ZoomMode::FitWidth)),
        Key::Char('e') => once(Action::SetZoom(ZoomMode::FitHeight)),
        Key::Char('f') => once(Action::SetZoom(ZoomMode::FitPage)),
        Key::Char('r') => once(Action::RotateCw),
        Key::Char('R') => once(Action::RotateCcw),
        Key::Home => once(Action::FirstPage),
        Key::Char('G') | Key::End => Binding::CountedPage,
        Key::Char('g') => Binding::Opens(Leader::G),
        Key::Char('m') => Binding::Opens(Leader::M),
        Key::Char('\'') | Key::Char('`') => Binding::Opens(Leader::Apostrophe),
        Key::Ctrl('w') => Binding::Opens(Leader::CtrlW),
        Key::Ctrl('^') | Key::Ctrl('6') => Binding::Once(
            KeyOutcome::Window(WindowOp::AlternateBuffer),
        ),
        Key::AltArrow(d) => Binding::Once(
            KeyOutcome::Window(
                match d {
                    ArrowDir::Left => WindowOp::FocusLeft,
                    ArrowDir::Down => WindowOp::FocusDown,
                    ArrowDir::Up => WindowOp::FocusUp,
                    ArrowDir::Right => WindowOp::FocusRight,
                },
            ),
        ),
        Key::ShiftAltArrow(d) => match d {
            ArrowDir::Left => Binding::Columns { grow: false },
            ArrowDir::Right => Binding::Columns { grow: true },
            ArrowDir::Up => Binding::Rows { grow: false },
            ArrowDir::Down => Binding::Rows { grow: true },
        },
        Key::CtrlPage(PageDir::Up) => Binding::Once(KeyOutcome::Window(WindowOp::PrevTab(1))),
        Key::CtrlPage(PageDir::Down) => Binding::Once(KeyOutcome::Window(WindowOp::NextTab(1))),
        Key::CtrlShiftPage(PageDir::Up) => Binding::Once(KeyOutcome::Window(WindowOp::MoveTabLeft)),
        Key::CtrlShiftPage(PageDir::Down) => Binding::Once(
            KeyOutcome::Window(WindowOp::MoveTabRight),
        ),
        _ => Binding::Unbound,
    }
}

/// A count as a repetition: at least one.
pub open spec fn times(count: Option<usize>) -> usize {
    match count {
        Some(n) => if n < 1 {
            1
        } else {
            n
        },
        None => 1,
    }
}

/// A number of cells, growing or shrinking.
pub open spec fn cells(n: usize, grow: bool) -> i32 {
    if grow {
        n as i32
    } else {
        0i32.wrapping_sub(n as i32)
    }
}

/// The count after one more digit.
pub open spec fn count_after(count: Option<usize>, c: char) -> usize {
    let before: int = match count {
        Some(n) => n as int,
        None => 0,
    };
    let n = before * 10 + (c as int - '0' as int);
    if n > usize::MAX {
        usize::MAX
    } else {
        n as usize
    }
}

/// A digit continues a count, and any but 0 starts one.
pub open spec fn counts(count: Option<usize>, key: Key) -> bool {
    key matches Key::Char(c) && text::is_digit(c) && (c != '0' || count is Some)
}

/// The page index that a count names: pages are counted from 1.
pub open spec fn page_of(count: usize) -> usize {
    if count == 0 {
        0
    } else {
        (count - 1) as usize
    }
}

/// What the second key of a `g` chord means.
pub open spec fn after_g(count: Option<usize>, key: Key) -> KeyOutcome {
    let n = match count {
        Some(n) => n,
        None => 1,
    };
    match key {
        Key::Char('g') => KeyOutcome::Action { action: Action::GotoPage(page_of(n)), count: 1 },
        Key::Char('t') => KeyOutcome::Window(WindowOp::NextTab(n)),
        Key::Char('T') => KeyOutcome::Window(WindowOp::PrevTab(n)),
        _ => KeyOutcome::Pending,
    }
}

/// What the second key of a `Ctrl-w` chord means; Ctrl may still be held.
pub open spec fn after_ctrl_w(count: Option<usize>, key: Key) -> KeyOutcome {
    let n = times(count);
    let c = match key {
        Key::Char(c) => Some(c),
        Key::Ctrl(c) => Some(c),
        _ => None,
    };
    match c {
        Some('h') => KeyOutcome::Window(WindowOp::FocusLeft),
        Some('j') => KeyOutcome::Window(WindowOp::FocusDown),
        Some('k') => KeyOutcome::Window(WindowOp::FocusUp),
        Some('l') => KeyOutcome::Window(WindowOp::FocusRight),
        Some('w') => KeyOutcome::Window(WindowOp::FocusCycle { reverse: false }),
        Some('W') => KeyOutcome::Window(WindowOp::FocusCycle { reverse: true }),
        Some('s') => KeyOutcome::Window(WindowOp::SplitHorizontal),
        Some('v') => KeyOutcome::Window(WindowOp::SplitVertical),
        Some('c') => KeyOutcome::Window(WindowOp::Close),
        Some('o') => KeyOutcome::Window(WindowOp::Only),
        Some('=') => KeyOutcome::Window(WindowOp::Equalize),
        Some('+') => KeyOutcome::Window(WindowOp::ResizeVertical(cells(n, true))),
        Some('-') => KeyOutcome::Window(WindowOp::ResizeVertical(cells(n, false))),
        Some('>') => KeyOutcome::Window(WindowOp::ResizeHorizontal(cells(n, true))),
        Some('<') => KeyOutcome::Window(WindowOp::ResizeHorizontal(cells(n, false))),
        _ => KeyOutcome::Pending,
    }
}

/// What a bound key produces with that count pending.
pub open spec fn produced(b: Binding, count: Option<usize>) -> KeyOutcome {
    let resize = match count {
        Some(_) => times(count),
        None => 2,
    };
    match b {
        Binding::Repeat(action) => KeyOutcome::Action { action, count: times(count) },
        Binding::Once(outcome) => outcome,
        Binding::CountedPage => KeyOutcome::Action {
            action: match count {
                Some(n) => Action::GotoPage(page_of(n)),
                None => Action::LastPage,
            },
            count: 1,
        },
        Binding::Columns { grow } => KeyOutcome::Window(
            WindowOp::ResizeHorizontal(cells(resize, grow)),
        ),
        Binding::Rows { grow } => KeyOutcome::Window(WindowOp::ResizeVertical(cells(resize, grow))),
        Binding::Opens(_) => KeyOutcome::Pending,
        Binding::Unbound => KeyOutcome::Pending,
    }
}

/// State and outcome after one key. Esc drops what is pending, or cancels;
/// the second key of a chord ends it; a digit extends the count; any other
/// key uses the count up, unless it opens a chord.
pub open spec fn fed(s: KeyParserState, key: Key) -> (KeyParserState, KeyOutcome) {
    if key == Key::Esc {
        (
            KeyParserState::cleared(),
            if s == KeyParserState::cleared() {
                KeyOutcome::Cancel
            } else {
                KeyOutcome::Pending
            },
        )
    } else {
        match s.leader {
            Leader::G => (KeyParserState::cleared(), after_g(s.count, key)),
            Leader::CtrlW => (KeyParserState::cleared(), after_ctrl_w(s.count, key)),
            Leader::M => (
                KeyParserState::cleared(),
                match key {
                    Key::Char(c) => if text::is_letter(c) {
                        KeyOutcome::SetMark(c)
                    } else {
                        KeyOutcome::Pending
                    },
                    _ => KeyOutcome::Pending,
                },
            ),
            Leader::Apostrophe => (
                KeyParserState::cleared(),
                match key {
                    Key::Char(c) => if text::is_letter(c) {
                        KeyOutcome::JumpMark(c)
                    } else {
                        KeyOutcome::Pending
                    },
                    _ => KeyOutcome::Pending,
                },
            ),
            Leader::Idle => if counts(s.count, key) {
                (
                    KeyParserState { count: Some(count_after(s.count, key->Char_0)), ..s },
                    KeyOutcome::Pending,
                )
            } else {
                match binding(key) {
                    Binding::Opens(leader) => (
                        KeyParserState { leader, count: s.count },
                        KeyOutcome::Pending,
                    ),
                    b => (KeyParserState::cleared(), produced(b, s.count)),
                }
            },
        }
    }
}

impl KeyOutcome {
    fn action(action: Action, count: usize) -> (r: KeyOutcome)
        ensures
            r == (KeyOutcome::Action { action, count: times(Some(count)) }),
    {
        KeyOutcome::Action {
            action,
            count: if count < 1 {
                1
            } else {
                count
            },
        }
    }
}

pub struct KeyParser;

impl KeyParser {
    /// Feed one key; returns the outcome. The parser state lives with the
    /// caller so that the pending state can be displayed.
    pub fn feed(state: &mut KeyParserState, key: Key) -> (out: KeyOutcome)
        ensures
            (*final(state), out) == fed(*old(state), key),
    {
        if key == Key::Esc {
            if state.active() {
                state.clear();
                return KeyOutcome::Pending;
            }
            return KeyOutcome::Cancel;
        }
        match state.leader {
            Leader::G => return Self::feed_leader_g(state, key),
            Leader::CtrlW => return Self::feed_leader_ctrl_w(state, key),
            Leader::M => return Self::feed_leader_mark(state, key, true),
            Leader::Apostrophe => return Self::feed_leader_mark(state, key, false),
            Leader::Idle => {},
        }
        if let Key::Char(c) = key {
            if digit(c) && (c != '0' || state.count.is_some()) {
                let d: usize = (c as u32 - 48) as usize;
                let before: usize = match state.count {
                    Some(n) => n,
                    None => 0,
                };
                let wide: u128 = before as u128 * 10 + d as u128;
                state.count = Some(
                    if wide > usize::MAX as u128 {
                        usize::MAX
                    } else {
                        wide as usize
                    },
                );
                return KeyOutcome::Pending;
            }
        }
        match key {
            Key::Char('g') => {
                state.leader = Leader::G;
                return KeyOutcome::Pending;
            },
            Key::Char('m') => {
                state.leader = Leader::M;
                return KeyOutcome::Pending;
            },
            Key::Char('\'') | Key::Char('`') => {
                state.leader = Leader::Apostrophe;
                return KeyOutcome::Pending;
            },
            Key::Ctrl('w') => {
                // The count prefix is kept for the chord.
                state.leader = Leader::CtrlW;
                return KeyOutcome::Pending;
            },
            _ => {},
        }
        let count: Option<usize> = state.count;
        state.count = None;
        let n: usize = match count {
            Some(n) => n,
            None => 1,
        };
        match key {
            Key::Char(':') => KeyOutcome::OpenCommand,
            Key::Char('?') => KeyOutcome::OpenSearch { forward: false },
            Key::Char('/') => KeyOutcome::OpenSearch { forward: true },
            Key::Char('n') => KeyOutcome::SearchStep { forward: true },
            Key::Char('N') => KeyOutcome::SearchStep { forward: false },
            Key::Char('q') => KeyOutcome::Quit,
            Key::Char('j') => KeyOutcome::action(Action::NextScreen, n),
            Key::Char('k') => KeyOutcome::action(Action::PrevScreen, n),
            Key::Down => KeyOutcome::action(Action::FineScrollDown, n),
            Key::Up => KeyOutcome::action(Action::FineScrollUp, n),
            Key::Char('h') | Key::Left => KeyOutcome::action(Action::ScrollLeft, n),
            Key::Char('l') | Key::Right => KeyOutcome::action(Action::ScrollRight, n),
            Key::Char('G') | Key::End => match count {
                Some(n) => KeyOutcome::action(Action::GotoPage(n.saturating_sub(1)), 1),
                None => KeyOutcome::action(Action::LastPage, 1),
            },
            Key::Char('H') => KeyOutcome::action(Action::PageTop, 1),
            Key::Char('M') => KeyOutcome::action(Action::PageMiddle, 1),
            Key::Char('L') => KeyOutcome::action(Action::PageBottom, 1),
            Key::Char('+') | Key::Char('=') => KeyOutcome::action(
                Action::ZoomBy(Real32 { bits: SIX_FIFTHS }),
                1,
            ),
            Key::Char('-') => KeyOutcome::action(Action::ZoomBy(Real32 { bits: FIVE_SIXTHS }), 1),
            Key::Char('w') => KeyOutcome::action(Action::SetZoom(ZoomMode::FitWidth), 1),
            Key::Char('e') => KeyOutcome::action(Action::SetZoom(ZoomMode::FitHeight), 1),
            Key::Char('f') => KeyOutcome::action(Action::SetZoom(ZoomMode::FitPage), 1),
            Key::Char('r') => KeyOutcome::action(Action::RotateCw, 1),
            Key::Char('R') => KeyOutcome::action(Action::RotateCcw, 1),
            Key::Char('t') => KeyOutcome::ToggleToc,
            Key::Ctrl('o') => KeyOutcome::JumpBack,
            Key::Ctrl('i') => KeyOutcome::JumpForward,
            Key::Ctrl('^') | Key::Ctrl('6') => KeyOutcome::Window(WindowOp::AlternateBuffer),
            Key::Ctrl('f') | Key::PageDown => KeyOutcome::action(Action::NextPage, n),
            Key::Ctrl('b') | Key::PageUp => KeyOutcome::action(Action::PrevPage, n),
            Key::Ctrl('d') => KeyOutcome::action(Action::HalfScreenDown, n),
            Key::Ctrl('u') => KeyOutcome::action(Action::HalfScreenUp, n),
            Key::Home => KeyOutcome::action(Action::FirstPage, 1),
            Key::AltArrow(d) => KeyOutcome::Window(
                match d {
                    ArrowDir::Left => WindowOp::FocusLeft,
                    ArrowDir::Down => WindowOp::FocusDown,
                    ArrowDir::Up => WindowOp::FocusUp,
                    ArrowDir::Right => WindowOp::FocusRight,
                },
            ),
            Key::ShiftAltArrow(d) => {
                let by: usize = match count {
                    Some(n) => if n < 1 {
                        1
                    } else {
                        n
                    },
                    None => 2,
                };
                KeyOutcome::Window(
                    match d {
                        ArrowDir::Left => WindowOp::ResizeHorizontal(cells_of(by, false)),
                        ArrowDir::Right => WindowOp::ResizeHorizontal(cells_of(by, true)),
                        ArrowDir::Up => WindowOp::ResizeVertical(cells_of(by, false)),
                        ArrowDir::Down => WindowOp::ResizeVertical(cells_of(by, true)),
                    },
                )
            },
            Key::CtrlPage(d) => KeyOutcome::Window(
                match d {
                    PageDir::Up => WindowOp::PrevTab(1),
                    PageDir::Down => WindowOp::NextTab(1),
                },
            ),
            Key::CtrlShiftPage(d) => KeyOutcome::Window(
                match d {
                    PageDir::Up => WindowOp::MoveTabLeft,
                    PageDir::Down => WindowOp::MoveTabRight,
                },
            ),
            _ => KeyOutcome::Pending,
        }
    }

    /// After `g` has been pressed. Handles `gg`, `gt`, `gT`.
    fn feed_leader_g(state: &mut KeyParserState, key: Key) -> (out: KeyOutcome)
        ensures
            *final(state) == KeyParserState::cleared(),
            out == after_g(old(state).count, key),
    {
        let n: usize = match state.count {
            Some(n) => n,
            None => 1,
        };
        state.clear();
        match key {
            Key::Char('g') => KeyOutcome::action(Action::GotoPage(n.saturating_sub(1)), 1),
            Key::Char('t') => KeyOutcome::Window(WindowOp::NextTab(n)),
            Key::Char('T') => KeyOutcome::Window(WindowOp::PrevTab(n)),
            _ => KeyOutcome::Pending,
        }
    }

    /// After `m`, `'` or a backtick has been pressed. Consumes one letter;
    /// anything else aborts the chord.
    fn feed_leader_mark(state: &mut KeyParserState, key: Key, set: bool) -> (out: KeyOutcome)
        ensures
            *final(state) == KeyParserState::cleared(),
            out == (match key {
                Key::Char(c) => if !text::is_letter(c) {
                    KeyOutcome::Pending
                } else if set {
                    KeyOutcome::SetMark(c)
                } else {
                    KeyOutcome::JumpMark(c)
                },
                _ => KeyOutcome::Pending,
            }),
    {
        state.clear();
        match key {
            Key::Char(c) => if !letter(c) {
                KeyOutcome::Pending
            } else if set {
                KeyOutcome::SetMark(c)
            } else {
                KeyOutcome::JumpMark(c)
            },
            _ => KeyOutcome::Pending,
        }
    }

    /// After `Ctrl-w` has been pressed. Handles the vim window chord.
    fn feed_leader_ctrl_w(state: &mut KeyParserState, key: Key) -> (out: KeyOutcome)
        ensures
            *final(state) == KeyParserState::cleared(),
            out == after_ctrl_w(old(state).count, key),
    {
        let n: usize = match state.count {
            Some(n) => if n < 1 {
                1
            } else {
                n
            },
            None => 1,
        };
        state.clear();
        // Both plain and Ctrl forms work (`<C-w><C-l>` is `<C-w>l`).
        let c: char = match key {
            Key::Char(c) => c,
            Key::Ctrl(c) => c,
            _ => return KeyOutcome::Pending,
        };
        let op: WindowOp = match c {
            'h' => WindowOp::FocusLeft,
            'j' => WindowOp::FocusDown,
            'k' => WindowOp::FocusUp,
            'l' => WindowOp::FocusRight,
            'w' => WindowOp::FocusCycle { reverse: false },
            'W' => WindowOp::FocusCycle { reverse: true },
            's' => WindowOp::SplitHorizontal,
            'v' => WindowOp::SplitVertical,
            'c' => WindowOp::Close,
            'o' => WindowOp::Only,
            '=' => WindowOp::Equalize,
            '+' => WindowOp::ResizeVertical(cells_of(n, true)),
            '-' => WindowOp::ResizeVertical(cells_of(n, false)),
            '>' => WindowOp::ResizeHorizontal(cells_of(n, true)),
            '<' => WindowOp::ResizeHorizontal(cells_of(n, false)),
            _ => return KeyOutcome::Pending,
        };
        KeyOutcome::Window(op)
    }
}

fn cells_of(n: usize, grow: bool) -> (r: i32)
    ensures
        r == cells(n, grow),
{
    let m: i32 = #[verifier::truncate] (n as i32);
    if grow {
        m
    } else {
        0i32.wrapping_sub(m)
    }
}

/// Two Escs always leave the parser idle, and the second one cancels.
pub proof fn lemma_esc_clears(s: KeyParserState)
    ensures
        fed(s, Key::Esc).0 == KeyParserState::cleared(),
        fed(fed(s, Key::Esc).0, Key::Esc) == (KeyParserState::cleared(), KeyOutcome::Cancel),
{
}

/// A key that produces something leaves nothing pending.
pub proof fn lemma_outcome_clears(s: KeyParserState, key: Key)
    ensures
        fed(s, key).1 != KeyOutcome::Pending ==> fed(s, key).0 == KeyParserState::cleared(),
{
}

/// State after feeding a run of keys that produce nothing.
pub open spec fn fed_all(s: KeyParserState, keys: Seq<Key>) -> KeyParserState
    decreases keys.len(),
{
    if keys.len() == 0 {
        s
    } else {
        fed(fed_all(s, keys.drop_last()), keys.last()).0
    }
}

/// `keys` are the presses that type `s`.
pub open spec fn types(keys: Seq<Key>, s: Seq<char>) -> bool {
    keys.len() == s.len() && forall|i: int|
        0 <= i < s.len() ==> #[trigger] keys[i] == Key::Char(s[i])
}

/// Typing a number that does not start with 0 makes it the pending count,
/// up to the largest one that fits.
pub proof fn lemma_digits_make_the_count(keys: Seq<Key>, digits: Seq<char>)
    requires
        types(keys, digits),
        text::all_digits(digits),
        digits[0] != '0',
    ensures
        ({
            let n = text::digits_value(digits);
            fed_all(KeyParserState::cleared(), keys) == (KeyParserState {
                count: Some(
                    if n > usize::MAX {
                        usize::MAX
                    } else {
                        n as usize
                    },
                ),
                leader: Leader::Idle,
            })
        }),
    decreases digits.len(),
{
    let rest = digits.drop_last();
    let before = keys.drop_last();
    assert(types(before, rest)) by {
        assert forall|i: int| 0 <= i < rest.len() implies #[trigger] before[i] == Key::Char(
            rest[i],
        ) by {
            assert(keys[i] == Key::Char(digits[i]));
        }
    }
    assert(keys[keys.len() - 1] == Key::Char(digits.last()));
    assert(text::is_digit(digits[digits.len() - 1]));
    if rest.len() == 0 {
        assert(text::digits_value(rest) == 0);
        assert(fed_all(KeyParserState::cleared(), before) == KeyParserState::cleared());
        lemma_digit(KeyParserState::cleared(), digits.last());
    } else {
        assert forall|i: int| 0 <= i < rest.len() implies text::is_digit(#[trigger] rest[i]) by {
            assert(rest[i] == digits[i]);
        }
        lemma_digits_make_the_count(before, rest);
        lemma_digit(fed_all(KeyParserState::cleared(), before), digits.last());
    }
}

proof fn lemma_digit(s: KeyParserState, c: char)
    requires
        s.leader == Leader::Idle,
        text::is_digit(c),
        c != '0' || s.count is Some,
    ensures
        fed(s, Key::Char(c)).0 == (KeyParserState {
            count: Some(count_after(s.count, c)),
            leader: Leader::Idle,
        }),
{
}

} // verus!
