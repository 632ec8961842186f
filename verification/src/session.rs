//! The reader's modes: what each key press does in each of them.
//!
//! A key press changes the session and may ask for something: a change of the
//! workspace, or work outside. The session itself holds no document.
use vstd::prelude::*;

use crate::docstate::Bookmark;
use crate::keys::{self, ArrowDir, Key, KeyOutcome, KeyParser, KeyParserState, Leader, PageDir, WindowOp};
use crate::lists::{self, list_move, TocEntry, TocLine};
use crate::navigator::Action;
use crate::palette::{self, accept_completion, cycle_completion, Offer, PaletteCompletion};
use crate::screen;
use crate::text::{self, digit, from_chars, to_chars};

verus! {

/// How long a message stays, in nanoseconds.
pub const MESSAGE_NANOS: u64 = 2_000_000_000;

/// How far pages are rendered ahead until `:prefetch` says otherwise.
pub const PREFETCH_REACH: usize = 2;

/// A key of the keyboard.
#[derive(Debug, Clone, Copy, PartialEq, Eq, Structural)]
pub enum KeyCode {
    Char(char),
    Esc,
    Enter,
    Tab,
    BackTab,
    Backspace,
    Up,
    Down,
    Left,
    Right,
    PageUp,
    PageDown,
    Home,
    End,
    /// Any other key.
    Unknown,
}

/// A key press with its modifiers.
#[derive(Debug, Clone, Copy, PartialEq, Eq, Structural)]
pub struct KeyPress {
    pub code: KeyCode,
    pub ctrl: bool,
    pub alt: bool,
    pub shift: bool,
    /// A modifier other than these.
    pub more: bool,
}

impl KeyPress {
    /// No modifier, or only Shift.
    pub open spec fn is_plain(self) -> bool {
        !self.ctrl && !self.alt && !self.more
    }

    /// `Ctrl-c`.
    pub open spec fn is_interrupt(self) -> bool {
        self.code == KeyCode::Char('c') && self.ctrl
    }

    fn interrupt(self) -> (b: bool)
        ensures
            b == self.is_interrupt(),
    {
        self.ctrl && (match self.code {
            KeyCode::Char(c) => c == 'c',
            _ => false,
        })
    }
}

/// The direction of an arrow key.
pub open spec fn arrow(code: KeyCode) -> Option<ArrowDir> {
    match code {
        KeyCode::Left => Some(ArrowDir::Left),
        KeyCode::Right => Some(ArrowDir::Right),
        KeyCode::Up => Some(ArrowDir::Up),
        KeyCode::Down => Some(ArrowDir::Down),
        _ => None,
    }
}

/// The key that a key press stands for.
pub open spec fn key_of(k: KeyPress) -> Option<Key> {
    match k.code {
        KeyCode::Left | KeyCode::Right | KeyCode::Up | KeyCode::Down => {
            let d = arrow(k.code)->0;
            Some(
                if k.alt && k.shift {
                    Key::ShiftAltArrow(d)
                } else if k.alt {
                    Key::AltArrow(d)
                } else {
                    match d {
                        ArrowDir::Left => Key::Left,
                        ArrowDir::Right => Key::Right,
                        ArrowDir::Up => Key::Up,
                        ArrowDir::Down => Key::Down,
                    }
                },
            )
        },
        KeyCode::PageUp => Some(
            if k.ctrl && k.shift {
                Key::CtrlShiftPage(PageDir::Up)
            } else if k.ctrl {
                Key::CtrlPage(PageDir::Up)
            } else {
                Key::PageUp
            },
        ),
        KeyCode::PageDown => Some(
            if k.ctrl && k.shift {
                Key::CtrlShiftPage(PageDir::Down)
            } else if k.ctrl {
                Key::CtrlPage(PageDir::Down)
            } else {
                Key::PageDown
            },
        ),
        KeyCode::Esc => Some(Key::Esc),
        KeyCode::Enter => Some(Key::Enter),
        KeyCode::Tab => Some(Key::Tab),
        KeyCode::BackTab => Some(Key::BackTab),
        KeyCode::Backspace => Some(Key::Backspace),
        KeyCode::Home => Some(Key::Home),
        KeyCode::End => Some(Key::End),
        KeyCode::Char(c) => Some(
            if k.ctrl {
                Key::Ctrl(c)
            } else {
                Key::Char(c)
            },
        ),
        KeyCode::Unknown => None,
    }
}

/// The key that a key press stands for. Arrows with modifiers move the focus
/// or resize; page keys with modifiers switch or reorder tabs.
pub fn to_key(k: KeyPress) -> (r: Option<Key>)
    ensures
        r == key_of(k),
{
    let direction: Option<ArrowDir> = match k.code {
        KeyCode::Left => Some(ArrowDir::Left),
        KeyCode::Right => Some(ArrowDir::Right),
        KeyCode::Up => Some(ArrowDir::Up),
        KeyCode::Down => Some(ArrowDir::Down),
        _ => None,
    };
    if let Some(d) = direction {
        if k.alt {
            return Some(
                if k.shift {
                    Key::ShiftAltArrow(d)
                } else {
                    Key::AltArrow(d)
                },
            );
        }
    }
    match k.code {
        KeyCode::Left => Some(Key::Left),
        KeyCode::Right => Some(Key::Right),
        KeyCode::Up => Some(Key::Up),
        KeyCode::Down => Some(Key::Down),
        KeyCode::PageUp => if k.ctrl && k.shift {
            Some(Key::CtrlShiftPage(PageDir::Up))
        } else if k.ctrl {
            Some(Key::CtrlPage(PageDir::Up))
        } else {
            Some(Key::PageUp)
        },
        KeyCode::PageDown => if k.ctrl && k.shift {
            Some(Key::CtrlShiftPage(PageDir::Down))
        } else if k.ctrl {
            Some(Key::CtrlPage(PageDir::Down))
        } else {
            Some(Key::PageDown)
        },
        KeyCode::Esc => Some(Key::Esc),
        KeyCode::Enter => Some(Key::Enter),
        KeyCode::Tab => Some(Key::Tab),
        KeyCode::BackTab => Some(Key::BackTab),
        KeyCode::Backspace => Some(Key::Backspace),
        KeyCode::Home => Some(Key::Home),
        KeyCode::End => Some(Key::End),
        KeyCode::Char(c) => if k.ctrl {
            Some(Key::Ctrl(c))
        } else {
            Some(Key::Char(c))
        },
        KeyCode::Unknown => None,
    }
}

// ------------------------------ State ------------------------------

/// What the keys go to.
#[derive(Debug)]
pub enum Mode {
    Normal,
    /// The command palette. `chosen` is the row that Enter takes over.
    Command { input: String, chosen: Option<usize> },
    /// The search prompt, `/` forward and `?` backward.
    Search { input: String, forward: bool },
    Help,
    /// The table of contents of the focused document.
    Toc { entries: Vec<TocEntry>, selected: usize, pending: KeyParserState },
    /// The list of marks.
    Marks { marks: Vec<Bookmark>, selected: usize, pending: KeyParserState },
}

/// What a mode stands for.
#[verifier::ext_equal]
pub enum ModeView {
    Normal,
    Command { input: Seq<char>, chosen: Option<usize> },
    Search { input: Seq<char>, forward: bool },
    Help,
    Toc { lines: Seq<TocLine>, selected: usize, pending: KeyParserState },
    Marks { marks: Seq<Bookmark>, selected: usize, pending: KeyParserState },
}

impl View for Mode {
    type V = ModeView;

    open spec fn view(&self) -> ModeView {
        match self {
            Mode::Normal => ModeView::Normal,
            Mode::Command { input, chosen } => ModeView::Command { input: input@, chosen: *chosen },
            Mode::Search { input, forward } => ModeView::Search {
                input: input@,
                forward: *forward,
            },
            Mode::Help => ModeView::Help,
            Mode::Toc { entries, selected, pending } => ModeView::Toc {
                lines: lists::toc_lines(entries@),
                selected: *selected,
                pending: *pending,
            },
            Mode::Marks { marks, selected, pending } => ModeView::Marks {
                marks: marks@,
                selected: *selected,
                pending: *pending,
            },
        }
    }
}

impl ModeView {
    /// A list has a selected line.
    pub open spec fn valid(self) -> bool {
        match self {
            ModeView::Toc { lines, selected, .. } => selected < lines.len(),
            ModeView::Marks { marks, selected, .. } => selected < marks.len(),
            _ => true,
        }
    }
}

/// The reader's state apart from the workspace.
#[derive(Debug)]
pub struct Session {
    pub key_state: KeyParserState,
    pub mode: Mode,
    /// What of a chord has been typed.
    pub pending_hint: String,
    pub message: Option<String>,
    /// When the message goes, in nanoseconds.
    pub message_until: Option<u64>,
    /// The bars need drawing.
    pub chrome_dirty: bool,
    /// The whole screen needs drawing.
    pub full_repaint: bool,
    /// The terminal reports the mouse.
    pub mouse_enabled: bool,
    /// The cached frames no longer fit.
    pub stale_frames: bool,
    /// The cached pages no longer fit.
    pub stale_pages: bool,
    /// Pages to either side of the current one that are rendered ahead.
    pub prefetch_reach: usize,
}

/// What a session stands for.
#[verifier::ext_equal]
pub struct SessionView {
    pub key_state: KeyParserState,
    pub mode: ModeView,
    pub hint: Seq<char>,
    pub message: Option<Seq<char>>,
    pub until: Option<u64>,
    pub chrome_dirty: bool,
    pub full_repaint: bool,
    pub mouse_enabled: bool,
    pub stale_frames: bool,
    pub stale_pages: bool,
    pub prefetch_reach: usize,
}

impl View for Session {
    type V = SessionView;

    open spec fn view(&self) -> SessionView {
        SessionView {
            key_state: self.key_state,
            mode: self.mode@,
            hint: self.pending_hint@,
            message: screen::text_of(self.message),
            until: self.message_until,
            chrome_dirty: self.chrome_dirty,
            full_repaint: self.full_repaint,
            mouse_enabled: self.mouse_enabled,
            stale_frames: self.stale_frames,
            stale_pages: self.stale_pages,
            prefetch_reach: self.prefetch_reach,
        }
    }
}

impl SessionView {
    /// A list has a selected line.
    pub open spec fn valid(self) -> bool {
        self.mode.valid()
    }

    /// Back in normal mode, with everything to be drawn.
    pub open spec fn closed(self) -> SessionView {
        SessionView { mode: ModeView::Normal, full_repaint: true, ..self }
    }

    /// The cached frames no longer fit.
    pub open spec fn reframed(self) -> SessionView {
        SessionView { stale_frames: true, ..self }
    }

    /// Without the message, once its time is over.
    pub open spec fn expired(self, now: u64) -> SessionView {
        match self.until {
            Some(t) => if now >= t {
                SessionView { message: None, until: None, chrome_dirty: true, ..self }
            } else {
                self
            },
            None => self,
        }
    }

    /// A message in the status bar.
    pub open spec fn told(self, message: Seq<char>, now: u64) -> SessionView {
        SessionView {
            message: Some(message),
            until: Some(later(now)),
            chrome_dirty: true,
            ..self
        }
    }
}

/// When a message that comes now goes.
pub open spec fn later(now: u64) -> u64 {
    screen::smaller(now + MESSAGE_NANOS, u64::MAX as int) as u64
}

/// What a key press asks for.
#[derive(Debug)]
pub enum Request {
    Nothing,
    /// Leave the reader.
    Quit,
    /// Move in the directory that the focused window shows.
    Browse(Browse),
    Navigate { action: Action, count: usize },
    Window(WindowOp),
    /// Next or previous hit; without a search, `n` is night mode.
    SearchStep { forward: bool },
    /// Forget the search.
    DropSearch,
    /// Close the focused window, and leave the reader with the last one.
    CloseWindow,
    OpenToc,
    SetMark(char),
    JumpMark(char),
    JumpBack,
    JumpForward,
    /// Run a command line.
    Execute(String),
    /// Search the focused document.
    Search { query: String, forward: bool },
    /// Go to a place in the focused document.
    Goto { page: usize, x_off: i32, y_off: i32 },
    /// Delete the mark that is selected in the list of marks.
    DeleteMark(char),
}

/// A move in a directory.
#[derive(Debug, Clone, Copy, PartialEq, Eq, Structural)]
pub enum Browse {
    Down,
    Up,
    First,
    Last,
    /// Open what is selected.
    Activate,
    Parent,
}

/// What a request stands for.
#[verifier::ext_equal]
pub enum RequestView {
    Nothing,
    Quit,
    Browse(Browse),
    Navigate { action: Action, count: usize },
    Window(WindowOp),
    SearchStep { forward: bool },
    DropSearch,
    CloseWindow,
    OpenToc,
    SetMark(char),
    JumpMark(char),
    JumpBack,
    JumpForward,
    Execute(Seq<char>),
    Search { query: Seq<char>, forward: bool },
    Goto { page: usize, x_off: i32, y_off: i32 },
    DeleteMark(char),
}

impl View for Request {
    type V = RequestView;

    open spec fn view(&self) -> RequestView {
        match self {
            Request::Nothing => RequestView::Nothing,
            Request::Quit => RequestView::Quit,
            Request::Browse(b) => RequestView::Browse(*b),
            Request::Navigate { action, count } => RequestView::Navigate {
                action: *action,
                count: *count,
            },
            Request::Window(op) => RequestView::Window(*op),
            Request::SearchStep { forward } => RequestView::SearchStep { forward: *forward },
            Request::DropSearch => RequestView::DropSearch,
            Request::CloseWindow => RequestView::CloseWindow,
            Request::OpenToc => RequestView::OpenToc,
            Request::SetMark(c) => RequestView::SetMark(*c),
            Request::JumpMark(c) => RequestView::JumpMark(*c),
            Request::JumpBack => RequestView::JumpBack,
            Request::JumpForward => RequestView::JumpForward,
            Request::Execute(line) => RequestView::Execute(line@),
            Request::Search { query, forward } => RequestView::Search {
                query: query@,
                forward: *forward,
            },
            Request::Goto { page, x_off, y_off } => RequestView::Goto {
                page: *page,
                x_off: *x_off,
                y_off: *y_off,
            },
            Request::DeleteMark(c) => RequestView::DeleteMark(*c),
        }
    }
}

// ------------------------------ Normal mode ------------------------------

/// What a plain key does in a directory, apart from `g`.
pub open spec fn browse_key(code: KeyCode) -> Option<Browse> {
    match code {
        KeyCode::Char('j') | KeyCode::Down => Some(Browse::Down),
        KeyCode::Char('k') | KeyCode::Up => Some(Browse::Up),
        KeyCode::Char('G') => Some(Browse::Last),
        KeyCode::Enter | KeyCode::Char('l') | KeyCode::Right => Some(Browse::Activate),
        KeyCode::Backspace
        | KeyCode::Left
        | KeyCode::Char('h')
        | KeyCode::Char('-')
        | KeyCode::Char('u') => Some(Browse::Parent),
        _ => None,
    }
}

fn to_browse(code: KeyCode) -> (r: Option<Browse>)
    ensures
        r == browse_key(code),
{
    match code {
        KeyCode::Char('j') | KeyCode::Down => Some(Browse::Down),
        KeyCode::Char('k') | KeyCode::Up => Some(Browse::Up),
        KeyCode::Char('G') => Some(Browse::Last),
        KeyCode::Enter | KeyCode::Char('l') | KeyCode::Right => Some(Browse::Activate),
        KeyCode::Backspace
        | KeyCode::Left
        | KeyCode::Char('h')
        | KeyCode::Char('-')
        | KeyCode::Char('u') => Some(Browse::Parent),
        _ => None,
    }
}

/// A directory takes this key press for itself.
pub open spec fn browses(k: KeyPress) -> bool {
    k.is_plain() && (k.code == KeyCode::Char('g') || browse_key(k.code) is Some)
}

/// What a key press does in a directory that takes it.
pub open spec fn browsed(s: SessionView, k: KeyPress) -> (SessionView, RequestView) {
    match browse_key(k.code) {
        Some(Browse::Last) => (
            SessionView { key_state: KeyParserState::cleared(), ..s },
            RequestView::Browse(Browse::Last),
        ),
        Some(b) => (s, RequestView::Browse(b)),
        None => if s.key_state.leader == Leader::G {
            (
                SessionView {
                    key_state: KeyParserState::cleared(),
                    hint: KeyParserState::cleared().spec_hint(),
                    ..s
                },
                RequestView::Browse(Browse::First),
            )
        } else {
            let waiting = KeyParserState { leader: Leader::G, ..s.key_state };
            (
                SessionView { key_state: waiting, hint: waiting.spec_hint(), ..s },
                RequestView::Nothing,
            )
        },
    }
}

/// What the outcome of the key parser does.
pub open spec fn taken(s: SessionView, out: KeyOutcome) -> (SessionView, RequestView) {
    match out {
        KeyOutcome::Pending => (SessionView { chrome_dirty: true, ..s }, RequestView::Nothing),
        KeyOutcome::OpenCommand => (
            SessionView {
                mode: ModeView::Command { input: Seq::empty(), chosen: None },
                ..s
            },
            RequestView::Nothing,
        ),
        KeyOutcome::OpenSearch { forward } => (
            SessionView { mode: ModeView::Search { input: Seq::empty(), forward }, ..s },
            RequestView::Nothing,
        ),
        KeyOutcome::ToggleHelp => (
            SessionView { mode: ModeView::Help, ..s },
            RequestView::Nothing,
        ),
        KeyOutcome::SearchStep { forward } => (s, RequestView::SearchStep { forward }),
        KeyOutcome::Cancel => (s, RequestView::DropSearch),
        KeyOutcome::Quit => (s, RequestView::CloseWindow),
        KeyOutcome::Action { action, count } => (s, RequestView::Navigate { action, count }),
        KeyOutcome::Window(op) => (s, RequestView::Window(op)),
        KeyOutcome::ToggleToc => (s, RequestView::OpenToc),
        KeyOutcome::SetMark(c) => (s, RequestView::SetMark(c)),
        KeyOutcome::JumpMark(c) => (s, RequestView::JumpMark(c)),
        KeyOutcome::JumpBack => (s, RequestView::JumpBack),
        KeyOutcome::JumpForward => (s, RequestView::JumpForward),
    }
}

/// What a key press does in normal mode. `directory` says that the focused
/// window shows one.
pub open spec fn normal_key(s: SessionView, k: KeyPress, directory: bool) -> (
    SessionView,
    RequestView,
) {
    if k.is_interrupt() {
        (s, RequestView::Quit)
    } else if directory && browses(k) {
        browsed(s, k)
    } else {
        match key_of(k) {
            Some(key) => {
                let (state, out) = keys::fed(s.key_state, key);
                taken(SessionView { key_state: state, hint: state.spec_hint(), ..s }, out)
            },
            None => (s, RequestView::Nothing),
        }
    }
}

// ------------------------------ Prompts ------------------------------

/// A text without its last character.
pub open spec fn shortened(s: Seq<char>) -> Seq<char> {
    if s.len() == 0 {
        s
    } else {
        s.drop_last()
    }
}

/// The row of the palette that a key moves to: forward, backward or nowhere.
pub open spec fn palette_step(k: KeyPress) -> Option<bool> {
    match k.code {
        KeyCode::Tab | KeyCode::Down => Some(false),
        KeyCode::BackTab | KeyCode::Up => Some(true),
        KeyCode::Char('n') => if k.ctrl {
            Some(false)
        } else {
            None
        },
        KeyCode::Char('p') => if k.ctrl {
            Some(true)
        } else {
            None
        },
        _ => None,
    }
}

/// A row as the palette numbers it.
pub open spec fn row_number(i: Option<int>) -> Option<usize> {
    match i {
        Some(n) => Some(n as usize),
        None => None,
    }
}

/// What a key press does in the palette. `rows` is what the palette offers
/// for the input.
pub open spec fn command_key(
    s: SessionView,
    input: Seq<char>,
    chosen: Option<usize>,
    k: KeyPress,
    rows: Seq<Offer>,
) -> (SessionView, RequestView) {
    let typing = |text: Seq<char>, row: Option<usize>|
        (
            SessionView { mode: ModeView::Command { input: text, chosen: row }, ..s },
            RequestView::Nothing,
        );
    match palette_step(k) {
        Some(reverse) => typing(
            input,
            row_number(palette::cycled(rows.len() as int, chosen, reverse)),
        ),
        None => match k.code {
            KeyCode::Esc => (s.closed(), RequestView::Nothing),
            KeyCode::Enter => match chosen {
                Some(i) => typing(
                    if i < rows.len() {
                        palette::accepted(input, rows[i as int])
                    } else {
                        input
                    },
                    None,
                ),
                None => (
                    s.closed(),
                    if input.len() == 0 {
                        RequestView::Nothing
                    } else {
                        RequestView::Execute(input)
                    },
                ),
            },
            KeyCode::Backspace => if input.len() == 0 {
                (s, RequestView::Nothing)
            } else {
                typing(input.drop_last(), None)
            },
            KeyCode::Char(c) => if k.ctrl && c == 'c' {
                (s.closed(), RequestView::Nothing)
            } else {
                typing(input.push(c), None)
            },
            _ => (s, RequestView::Nothing),
        },
    }
}

/// What a key press does in the search prompt.
pub open spec fn search_key(s: SessionView, input: Seq<char>, forward: bool, k: KeyPress) -> (
    SessionView,
    RequestView,
) {
    let typing = |text: Seq<char>|
        (
            SessionView { mode: ModeView::Search { input: text, forward }, ..s },
            RequestView::Nothing,
        );
    match k.code {
        KeyCode::Esc => (s.closed(), RequestView::Nothing),
        KeyCode::Enter => (
            s.closed(),
            if input.len() == 0 {
                RequestView::Nothing
            } else {
                RequestView::Search { query: input, forward }
            },
        ),
        KeyCode::Backspace => typing(shortened(input)),
        KeyCode::Char(c) => if k.ctrl && c == 'c' {
            (s.closed(), RequestView::Nothing)
        } else {
            typing(input.push(c))
        },
        _ => (s, RequestView::Nothing),
    }
}

/// What a key press does while the help is shown.
pub open spec fn help_key(s: SessionView, k: KeyPress) -> (SessionView, RequestView) {
    if k.code == KeyCode::Esc || k.code == KeyCode::Char('q') {
        (s.closed(), RequestView::Nothing)
    } else {
        (s, RequestView::Nothing)
    }
}

// ------------------------------ Lists ------------------------------

/// A count with one more digit.
pub open spec fn counted(count: Option<usize>, c: char) -> usize {
    let before = match count {
        Some(n) => n as int,
        None => 0,
    };
    screen::smaller(before * 10 + (c as int - '0' as int), usize::MAX as int) as usize
}

/// The line that a count names, else `otherwise`.
pub open spec fn named_line(count: Option<usize>, total: int, otherwise: int) -> int {
    match count {
        Some(n) => screen::smaller(screen::less(n as int, 1), screen::less(total, 1)),
        None => otherwise,
    }
}

/// Where a key press leads in a list: the selected line, and what is pending.
/// `by_count` says that a count before `G` and `gg` names a line.
pub open spec fn list_key(
    selected: usize,
    pending: KeyParserState,
    total: int,
    code: KeyCode,
    by_count: bool,
) -> (usize, KeyParserState) {
    let count = keys::times(pending.count) as int;
    let none = KeyParserState::cleared();
    match code {
        KeyCode::Char('j') | KeyCode::Down => (
            lists::list_moved(selected as int, total, count) as usize,
            none,
        ),
        KeyCode::Char('k') | KeyCode::Up => (
            lists::list_moved(selected as int, total, -count) as usize,
            none,
        ),
        KeyCode::Char('G') | KeyCode::End => (
            named_line(
                if by_count {
                    pending.count
                } else {
                    None
                },
                total,
                screen::less(total, 1),
            ) as usize,
            none,
        ),
        KeyCode::Home => (0, none),
        KeyCode::Char('g') => if pending.leader == Leader::G {
            (
                named_line(
                    if by_count {
                        pending.count
                    } else {
                        None
                    },
                    total,
                    0,
                ) as usize,
                none,
            )
        } else {
            (selected, KeyParserState { leader: Leader::G, ..pending })
        },
        KeyCode::Char(c) => if text::is_digit(c) && (c != '0' || pending.count is Some) {
            (selected, KeyParserState { count: Some(counted(pending.count, c)), ..pending })
        } else {
            (selected, none)
        },
        _ => (selected, none),
    }
}

fn step_list(
    selected: usize,
    pending: KeyParserState,
    total: usize,
    code: KeyCode,
    by_count: bool,
) -> (r: (usize, KeyParserState))
    ensures
        r == list_key(selected, pending, total as int, code, by_count),
        selected < total ==> r.0 < total,
{
    let count: usize = match pending.count {
        Some(n) => if n < 1 {
            1
        } else {
            n
        },
        None => 1,
    };
    let none: KeyParserState = KeyParserState { count: None, leader: Leader::Idle };
    let last: usize = if total == 0 {
        0
    } else {
        total - 1
    };
    let named: Option<usize> = match pending.count {
        Some(n) => if by_count {
            let line: usize = if n == 0 {
                0
            } else {
                n - 1
            };
            Some(
                if line < last {
                    line
                } else {
                    last
                },
            )
        } else {
            None
        },
        None => None,
    };
    match code {
        KeyCode::Char('j') | KeyCode::Down => (list_move(selected, total, count, false), none),
        KeyCode::Char('k') | KeyCode::Up => (list_move(selected, total, count, true), none),
        KeyCode::Char('G') | KeyCode::End => (
            match named {
                Some(line) => line,
                None => last,
            },
            none,
        ),
        KeyCode::Home => (0, none),
        KeyCode::Char('g') => if pending.leader == Leader::G {
            (
                match named {
                    Some(line) => line,
                    None => 0,
                },
                none,
            )
        } else {
            (selected, KeyParserState { count: pending.count, leader: Leader::G })
        },
        KeyCode::Char(c) => if digit(c) && (c != '0' || pending.count.is_some()) {
            let before: usize = match pending.count {
                Some(n) => n,
                None => 0,
            };
            let wide: u128 = before as u128 * 10 + (c as u32 - 48) as u128;
            let next: usize = if wide > usize::MAX as u128 {
                usize::MAX
            } else {
                wide as usize
            };
            (selected, KeyParserState { count: Some(next), leader: pending.leader })
        } else {
            (selected, none)
        },
        _ => (selected, none),
    }
}

/// What a key press does in the table of contents.
pub open spec fn toc_key(
    s: SessionView,
    lines: Seq<TocLine>,
    selected: usize,
    pending: KeyParserState,
    k: KeyPress,
) -> (SessionView, RequestView) {
    let leaves = k.code == KeyCode::Esc || k.code == KeyCode::Char('q') || k.code == KeyCode::Char(
        't',
    );
    if (leaves && pending == KeyParserState::cleared()) || k.is_interrupt() {
        (s.closed(), RequestView::Nothing)
    } else if k.code == KeyCode::Enter {
        (
            s.closed(),
            RequestView::Goto { page: lines[selected as int].page as usize, x_off: 0, y_off: 0 },
        )
    } else {
        let (line, state) = list_key(selected, pending, lines.len() as int, k.code, true);
        (
            SessionView { mode: ModeView::Toc { lines, selected: line, pending: state }, ..s },
            RequestView::Nothing,
        )
    }
}

/// What a key press does in the list of marks.
pub open spec fn marks_key(
    s: SessionView,
    marks: Seq<Bookmark>,
    selected: usize,
    pending: KeyParserState,
    k: KeyPress,
) -> (SessionView, RequestView) {
    let leaves = k.code == KeyCode::Esc || k.code == KeyCode::Char('q');
    let here = marks[selected as int];
    if (leaves && pending == KeyParserState::cleared()) || k.is_interrupt() {
        (s.closed(), RequestView::Nothing)
    } else if k.code == KeyCode::Enter {
        (
            s.closed(),
            RequestView::Goto { page: here.page, x_off: here.x_off, y_off: here.y_off },
        )
    } else if k.code == KeyCode::Char('d') {
        (s, RequestView::DeleteMark(here.mark))
    } else {
        let (line, state) = list_key(selected, pending, marks.len() as int, k.code, false);
        (
            SessionView { mode: ModeView::Marks { marks, selected: line, pending: state }, ..s },
            RequestView::Nothing,
        )
    }
}

/// The list of marks without the selected one. Without any mark the list
/// closes.
pub open spec fn mark_gone(s: SessionView) -> SessionView {
    match s.mode {
        ModeView::Marks { marks, selected, pending } => {
            let rest = marks.remove(selected as int);
            if rest.len() == 0 {
                s.closed()
            } else {
                SessionView {
                    mode: ModeView::Marks {
                        marks: rest,
                        selected: if selected >= rest.len() {
                            (selected - 1) as usize
                        } else {
                            selected
                        },
                        pending,
                    },
                    ..s
                }
            }
        },
        _ => s,
    }
}

/// What a key press does.
pub open spec fn pressed(s: SessionView, k: KeyPress, directory: bool, rows: Seq<Offer>) -> (
    SessionView,
    RequestView,
) {
    match s.mode {
        ModeView::Normal => normal_key(s, k, directory),
        ModeView::Command { input, chosen } => command_key(s, input, chosen, k, rows),
        ModeView::Search { input, forward } => search_key(s, input, forward, k),
        ModeView::Help => help_key(s, k),
        ModeView::Toc { lines, selected, pending } => toc_key(s, lines, selected, pending, k),
        ModeView::Marks { marks, selected, pending } => marks_key(s, marks, selected, pending, k),
    }
}

fn drop_char(s: &str) -> (r: String)
    ensures
        r@ == shortened(s@),
{
    let cs: Vec<char> = to_chars(s);
    let n: usize = cs.len();
    let keep: usize = if n == 0 {
        0
    } else {
        n - 1
    };
    let r: String = from_chars(&cs, 0, keep);
    assert(r@ =~= shortened(s@));
    r
}

fn no_text(s: &str) -> (b: bool)
    ensures
        b == (s@.len() == 0),
{
    to_chars(s).len() == 0
}

fn to_palette_step(k: KeyPress) -> (r: Option<bool>)
    ensures
        r == palette_step(k),
{
    match k.code {
        KeyCode::Tab | KeyCode::Down => Some(false),
        KeyCode::BackTab | KeyCode::Up => Some(true),
        KeyCode::Char('n') => if k.ctrl {
            Some(false)
        } else {
            None
        },
        KeyCode::Char('p') => if k.ctrl {
            Some(true)
        } else {
            None
        },
        _ => None,
    }
}

impl Session {
    /// A session at the start: everything is to be drawn.
    pub fn new(mouse_enabled: bool) -> (s: Session)
        ensures
            s@ == (SessionView {
                key_state: KeyParserState::cleared(),
                mode: ModeView::Normal,
                hint: Seq::empty(),
                message: None,
                until: None,
                chrome_dirty: true,
                full_repaint: true,
                mouse_enabled,
                stale_frames: false,
                stale_pages: false,
                prefetch_reach: PREFETCH_REACH,
            }),
    {
        let s: Session = Session {
            key_state: KeyParserState::default(),
            mode: Mode::Normal,
            pending_hint: String::new(),
            message: None,
            message_until: None,
            chrome_dirty: true,
            full_repaint: true,
            mouse_enabled,
            stale_frames: false,
            stale_pages: false,
            prefetch_reach: PREFETCH_REACH,
        };
        assert(s.pending_hint@ =~= Seq::empty());
        s
    }

    /// Show a message for a while.
    pub fn set_message(&mut self, message: String, now: u64)
        ensures
            final(self)@ == old(self)@.told(message@, now),
    {
        self.message = Some(message);
        self.message_until = Some(now.saturating_add(MESSAGE_NANOS));
        self.chrome_dirty = true;
    }

    /// Take the message away once its time is over.
    pub fn expire(&mut self, now: u64)
        ensures
            final(self)@ == old(self)@.expired(now),
    {
        if let Some(t) = self.message_until {
            if now >= t {
                self.message = None;
                self.message_until = None;
                self.chrome_dirty = true;
            }
        }
    }

    /// Back to normal mode.
    fn close(&mut self)
        ensures
            final(self)@ == old(self)@.closed(),
    {
        self.mode = Mode::Normal;
        self.full_repaint = true;
    }

    fn on_browse_key(&mut self, k: KeyPress) -> (r: Request)
        requires
            browses(k),
        ensures
            (final(self)@, r@) == browsed(old(self)@, k),
    {
        match to_browse(k.code) {
            Some(Browse::Last) => {
                self.key_state.clear();
                Request::Browse(Browse::Last)
            },
            Some(b) => Request::Browse(b),
            None => {
                if self.key_state.leader == Leader::G {
                    self.key_state.clear();
                    self.pending_hint = self.key_state.hint();
                    Request::Browse(Browse::First)
                } else {
                    self.key_state.leader = Leader::G;
                    self.pending_hint = self.key_state.hint();
                    Request::Nothing
                }
            },
        }
    }

    fn take_outcome(&mut self, out: KeyOutcome) -> (r: Request)
        ensures
            (final(self)@, r@) == taken(old(self)@, out),
    {
        match out {
            KeyOutcome::Pending => {
                self.chrome_dirty = true;
                Request::Nothing
            },
            KeyOutcome::OpenCommand => {
                let input: String = String::new();
                assert(input@ =~= Seq::empty());
                self.mode = Mode::Command { input, chosen: None };
                Request::Nothing
            },
            KeyOutcome::OpenSearch { forward } => {
                let input: String = String::new();
                assert(input@ =~= Seq::empty());
                self.mode = Mode::Search { input, forward };
                Request::Nothing
            },
            KeyOutcome::ToggleHelp => {
                self.mode = Mode::Help;
                Request::Nothing
            },
            KeyOutcome::SearchStep { forward } => Request::SearchStep { forward },
            KeyOutcome::Cancel => Request::DropSearch,
            KeyOutcome::Quit => Request::CloseWindow,
            KeyOutcome::Action { action, count } => Request::Navigate { action, count },
            KeyOutcome::Window(op) => Request::Window(op),
            KeyOutcome::ToggleToc => Request::OpenToc,
            KeyOutcome::SetMark(c) => Request::SetMark(c),
            KeyOutcome::JumpMark(c) => Request::JumpMark(c),
            KeyOutcome::JumpBack => Request::JumpBack,
            KeyOutcome::JumpForward => Request::JumpForward,
        }
    }

    /// A key press in normal mode. A directory takes plain keys for itself;
    /// the rest goes through the key parser.
    pub fn handle_normal_key(&mut self, k: KeyPress, directory: bool) -> (r: Request)
        ensures
            (final(self)@, r@) == normal_key(old(self)@, k, directory),
    {
        if k.interrupt() {
            return Request::Quit;
        }
        let plain: bool = !k.ctrl && !k.alt && !k.more;
        if directory && plain && (k.code == KeyCode::Char('g') || to_browse(k.code).is_some()) {
            return self.on_browse_key(k);
        }
        match to_key(k) {
            Some(key) => {
                let out: KeyOutcome = KeyParser::feed(&mut self.key_state, key);
                self.pending_hint = self.key_state.hint();
                self.take_outcome(out)
            },
            None => Request::Nothing,
        }
    }

    /// A key press in the palette. Enter on a chosen row takes the row into
    /// the input; Enter on the input runs it.
    pub fn handle_command_key(&mut self, k: KeyPress, rows: &Vec<PaletteCompletion>) -> (r: Request)
        requires
            old(self).mode is Command,
        ensures
            (final(self)@, r@) == command_key(
                old(self)@,
                old(self)@.mode->Command_input,
                old(self)@.mode->chosen,
                k,
                palette::offers(rows@),
            ),
    {
        let (input, chosen): (String, Option<usize>) = match &self.mode {
            Mode::Command { input, chosen } => (input.clone(), *chosen),
            _ => {
                assert(false);
                (String::new(), None)
            },
        };
        if let Some(reverse) = to_palette_step(k) {
            let row: Option<usize> = cycle_completion(rows.len(), chosen, reverse);
            self.mode = Mode::Command { input, chosen: row };
            return Request::Nothing;
        }
        match k.code {
            KeyCode::Esc => {
                self.close();
                Request::Nothing
            },
            KeyCode::Enter => {
                if let Some(i) = chosen {
                    let text: String = if i < rows.len() {
                        assert(palette::offers(rows@)[i as int] == rows@[i as int]@);
                        accept_completion(input.as_str(), &rows[i])
                    } else {
                        input
                    };
                    self.mode = Mode::Command { input: text, chosen: None };
                    return Request::Nothing;
                }
                self.close();
                if no_text(input.as_str()) {
                    Request::Nothing
                } else {
                    Request::Execute(input)
                }
            },
            KeyCode::Backspace => {
                if !no_text(input.as_str()) {
                    self.mode = Mode::Command { input: drop_char(input.as_str()), chosen: None };
                }
                Request::Nothing
            },
            KeyCode::Char(c) => {
                if k.ctrl && c == 'c' {
                    self.close();
                } else {
                    let mut text: String = input;
                    text.push(c);
                    self.mode = Mode::Command { input: text, chosen: None };
                }
                Request::Nothing
            },
            _ => Request::Nothing,
        }
    }

    /// A key press in the search prompt.
    pub fn handle_search_key(&mut self, k: KeyPress) -> (r: Request)
        requires
            old(self).mode is Search,
        ensures
            (final(self)@, r@) == search_key(
                old(self)@,
                old(self)@.mode->Search_input,
                old(self)@.mode->forward,
                k,
            ),
    {
        let (input, forward): (String, bool) = match &self.mode {
            Mode::Search { input, forward } => (input.clone(), *forward),
            _ => {
                assert(false);
                (String::new(), false)
            },
        };
        match k.code {
            KeyCode::Esc => {
                self.close();
                Request::Nothing
            },
            KeyCode::Enter => {
                self.close();
                if no_text(input.as_str()) {
                    Request::Nothing
                } else {
                    Request::Search { query: input, forward }
                }
            },
            KeyCode::Backspace => {
                self.mode = Mode::Search { input: drop_char(input.as_str()), forward };
                Request::Nothing
            },
            KeyCode::Char(c) => {
                if k.ctrl && c == 'c' {
                    self.close();
                } else {
                    let mut text: String = input;
                    text.push(c);
                    self.mode = Mode::Search { input: text, forward };
                }
                Request::Nothing
            },
            _ => Request::Nothing,
        }
    }

    /// A key press while the help is shown.
    pub fn handle_help_key(&mut self, k: KeyPress) -> (r: Request)
        ensures
            (final(self)@, r@) == help_key(old(self)@, k),
    {
        if k.code == KeyCode::Esc || k.code == KeyCode::Char('q') {
            self.close();
        }
        Request::Nothing
    }

    /// A key press in the table of contents.
    pub fn handle_toc_key(&mut self, k: KeyPress) -> (r: Request)
        requires
            old(self).mode is Toc,
            old(self)@.valid(),
        ensures
            final(self)@.valid(),
            (final(self)@, r@) == toc_key(
                old(self)@,
                old(self)@.mode->lines,
                old(self)@.mode->Toc_selected,
                old(self)@.mode->Toc_pending,
                k,
            ),
    {
        let ghost before = self@;
        let leaves: bool = k.code == KeyCode::Esc || k.code == KeyCode::Char('q') || k.code
            == KeyCode::Char('t');
        if k.interrupt() {
            self.close();
            return Request::Nothing;
        }
        match &mut self.mode {
            Mode::Toc { entries, selected, pending } => {
                if leaves && !pending.active() {
                    self.close();
                    return Request::Nothing;
                }
                if k.code == KeyCode::Enter {
                    assert(before.mode->lines[*selected as int] == entries@[*selected as int]@);
                    let page: usize = entries[*selected].page;
                    self.close();
                    return Request::Goto { page, x_off: 0, y_off: 0 };
                }
                let (line, state): (usize, KeyParserState) = step_list(
                    *selected,
                    *pending,
                    entries.len(),
                    k.code,
                    true,
                );
                *selected = line;
                *pending = state;
            },
            _ => {
                assert(false);
            },
        }
        Request::Nothing
    }

    /// A key press in the list of marks.
    pub fn handle_marks_key(&mut self, k: KeyPress) -> (r: Request)
        requires
            old(self).mode is Marks,
            old(self)@.valid(),
        ensures
            final(self)@.valid(),
            (final(self)@, r@) == marks_key(
                old(self)@,
                old(self)@.mode->marks,
                old(self)@.mode->Marks_selected,
                old(self)@.mode->Marks_pending,
                k,
            ),
    {
        let leaves: bool = k.code == KeyCode::Esc || k.code == KeyCode::Char('q');
        if k.interrupt() {
            self.close();
            return Request::Nothing;
        }
        match &mut self.mode {
            Mode::Marks { marks, selected, pending } => {
                if leaves && !pending.active() {
                    self.close();
                    return Request::Nothing;
                }
                let here: Bookmark = marks[*selected];
                if k.code == KeyCode::Enter {
                    self.close();
                    return Request::Goto { page: here.page, x_off: here.x_off, y_off: here.y_off };
                }
                if k.code == KeyCode::Char('d') {
                    return Request::DeleteMark(here.mark);
                }
                let (line, state): (usize, KeyParserState) = step_list(
                    *selected,
                    *pending,
                    marks.len(),
                    k.code,
                    false,
                );
                *selected = line;
                *pending = state;
            },
            _ => {
                assert(false);
            },
        }
        Request::Nothing
    }

    /// Take the selected mark out of the list of marks.
    pub fn drop_mark(&mut self)
        requires
            old(self)@.valid(),
        ensures
            final(self)@.valid(),
            final(self)@ == mark_gone(old(self)@),
    {
        let mut emptied: bool = false;
        match &mut self.mode {
            Mode::Marks { marks, selected, .. } => {
                let _ = marks.remove(*selected);
                let n: usize = marks.len();
                if n == 0 {
                    emptied = true;
                } else if *selected >= n {
                    *selected -= 1;
                }
            },
            _ => {},
        }
        if emptied {
            self.close();
        }
    }

    /// A key press in the current mode. `directory` says that the focused
    /// window shows one, and `rows` is what the palette offers.
    pub fn on_key(&mut self, k: KeyPress, directory: bool, rows: &Vec<PaletteCompletion>) -> (r:
        Request)
        requires
            old(self)@.valid(),
        ensures
            final(self)@.valid(),
            (final(self)@, r@) == pressed(old(self)@, k, directory, palette::offers(rows@)),
    {
        match &self.mode {
            Mode::Normal => self.handle_normal_key(k, directory),
            Mode::Command { .. } => self.handle_command_key(k, rows),
            Mode::Search { .. } => self.handle_search_key(k),
            Mode::Help => self.handle_help_key(k),
            Mode::Toc { .. } => self.handle_toc_key(k),
            Mode::Marks { .. } => self.handle_marks_key(k),
        }
    }
}

/// Esc, without a count or a chord before it, leads to normal mode from
/// everywhere.
pub proof fn lemma_escape_leaves(s: SessionView, k: KeyPress, directory: bool, rows: Seq<Offer>)
    requires
        s.valid(),
        k.code == KeyCode::Esc,
        s.mode matches ModeView::Toc { pending, .. } ==> pending == KeyParserState::cleared(),
        s.mode matches ModeView::Marks { pending, .. } ==> pending == KeyParserState::cleared(),
    ensures
        pressed(s, k, directory, rows).0.mode == ModeView::Normal,
{
}

/// A chosen row is taken over before it runs: no command runs from the palette
/// while a row is chosen.
pub proof fn lemma_rows_are_reviewed(
    s: SessionView,
    input: Seq<char>,
    row: usize,
    k: KeyPress,
    directory: bool,
    rows: Seq<Offer>,
)
    requires
        s.mode == (ModeView::Command { input, chosen: Some(row) }),
    ensures
        !(pressed(s, k, directory, rows).1 is Execute),
        k.code == KeyCode::Enter && row < rows.len() ==> pressed(s, k, directory, rows).0.mode == (
        ModeView::Command { input: palette::accepted(input, rows[row as int]), chosen: None }),
{
}

} // verus!
