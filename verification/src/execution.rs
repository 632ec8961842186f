//! Running commands, and showing what they ask for.
use vstd::prelude::*;

use crate::buffer::Buffer;
use crate::commands::{ColorPalette, ParsedCommand};
use crate::control::{self, Tools};
use crate::dispatch;
use crate::docstate::Bookmark;
use crate::document::{MatchRect, Outline, PageMetrics, PageSize, PdfRect};
use crate::keys::KeyParserState;
use crate::lists::{self, flatten_outline, initial_line, mark_entries, TocEntry, TocLine};
use crate::messages::{self, about_mark, prefixed, search_string};
use crate::number::Real32;
use crate::reading::{self, focused_buffer};
use crate::searching;
use crate::session::{Mode, ModeView, Session, SessionView};
use crate::sixel_write::ColorMode;
use crate::text::{self, owned, push_decimal, push_str};
use crate::viewport::Viewport;
use crate::window::Window;
use crate::workspace::{CacheSettings, Source, Workspace, WorkspaceError};

verus! {

/// What a command leaves to the caller.
#[derive(Debug, Clone, Copy, PartialEq, Eq, Structural)]
pub enum Chore {
    Nothing,
    /// Switch the page cache.
    PagesOn(bool),
    /// Set how many pages the page cache holds.
    PagesRoom(usize),
    /// Switch the frame cache.
    FramesOn(bool),
    /// Set how many frames the frame cache holds.
    FramesRoom(usize),
    /// Copy the page to the clipboard.
    CopyPage,
    /// Open the document's text in an editor.
    OpenText,
    /// Read the outline of the document and show it.
    ListToc,
}

impl SessionView {
    /// Everything is to be drawn, unless a list covers it.
    pub open spec fn repainted(self) -> SessionView {
        match self.mode {
            ModeView::Toc { .. } | ModeView::Marks { .. } => self,
            _ => SessionView { full_repaint: true, ..self },
        }
    }
}

// ------------------------------ Lists ------------------------------

/// The table of contents is shown, with the line of the current page selected.
pub open spec fn toc_shown<D>(
    s: SessionView,
    ws: Workspace<D>,
    outline: Seq<Outline>,
    now: u64,
) -> SessionView {
    let lines = lists::flattened(outline, 0);
    match focused_buffer(ws) {
        Some(Buffer::Pdf(_)) => if lines.len() == 0 {
            s.told("document has no outline"@, now)
        } else {
            SessionView {
                mode: ModeView::Toc {
                    lines,
                    selected: lists::line_for(
                        lines,
                        ws.focus_now().viewport.page_idx as int,
                    ) as usize,
                    pending: KeyParserState::cleared(),
                },
                ..s
            }
        },
        _ => s.told("not a PDF buffer"@, now),
    }
}

/// The list of marks is shown.
pub open spec fn marks_shown<D>(s: SessionView, ws: Workspace<D>, now: u64) -> SessionView {
    match focused_buffer(ws) {
        Some(Buffer::Pdf(p)) => {
            let marks = lists::by_letter(p.state.bookmarks@);
            if marks.len() == 0 {
                s.told("no marks set (use m{a-z} to set one)"@, now)
            } else {
                SessionView {
                    mode: ModeView::Marks {
                        marks,
                        selected: 0,
                        pending: KeyParserState::cleared(),
                    },
                    ..s
                }
            }
        },
        _ => s.told("not a PDF buffer"@, now),
    }
}

impl Session {
    /// Show the table of contents of the focused document.
    pub fn enter_toc_mode<D>(&mut self, ws: &Workspace<D>, outline: &Vec<Outline>, now: u64)
        requires
            ws.live(),
            old(self)@.valid(),
        ensures
            final(self)@.valid(),
            final(self)@ == toc_shown(old(self)@, *ws, outline@, now),
    {
        let here: Window = ws.focused_window();
        if ws.buffer_pdf(here.buffer).is_none() {
            self.set_message(owned("not a PDF buffer"), now);
            return ;
        }
        let mut entries: Vec<TocEntry> = Vec::new();
        let ghost none = lists::toc_lines(entries@);
        flatten_outline(outline, 0, &mut entries);
        proof {
            assert(none =~= Seq::<TocLine>::empty());
            assert(lists::toc_lines(entries@) =~= lists::flattened(outline@, 0));
            lists::lemma_line_for(
                lists::toc_lines(entries@),
                here.viewport.page_idx as int,
            );
        }
        if entries.len() == 0 {
            self.set_message(owned("document has no outline"), now);
            return ;
        }
        let selected: usize = initial_line(&entries, here.viewport.page_idx);
        self.mode = Mode::Toc { entries, selected, pending: KeyParserState::default() };
    }

    /// Show the marks of the focused document.
    pub fn enter_marks_mode<D>(&mut self, ws: &Workspace<D>, now: u64)
        requires
            ws.live(),
            old(self)@.valid(),
        ensures
            final(self)@.valid(),
            final(self)@ == marks_shown(old(self)@, *ws, now),
    {
        match ws.buffer_pdf(ws.focused_window().buffer) {
            None => {
                self.set_message(owned("not a PDF buffer"), now);
            },
            Some(p) => {
                let marks: Vec<Bookmark> = mark_entries(&p.state.bookmarks);
                if marks.len() == 0 {
                    self.set_message(owned("no marks set (use m{a-z} to set one)"), now);
                } else {
                    self.mode =
                    Mode::Marks { marks, selected: 0, pending: KeyParserState::default() };
                }
            },
        }
    }
}

// ------------------------------ Search ------------------------------

/// A search of the focused document, with a message.
pub open spec fn search_carried<
    D: PageMetrics,
    F: Fn(Real32, Real32) -> Real32,
    S: Fn(u16, Real32) -> u16,
    N: Fn(Real32, i32, u16) -> Real32,
    P: Fn(PageSize, Viewport, PdfRect) -> Option<(i32, i32)>,
>(
    s: SessionView,
    t: SessionView,
    a: Workspace<D>,
    b: Workspace<D>,
    query: Seq<char>,
    hits: Seq<MatchRect>,
    forward: bool,
    tools: &Tools<F, S, N, P>,
    caches: CacheSettings,
    now: u64,
) -> bool {
    match focused_buffer(a) {
        Some(Buffer::Pdf(_)) => exists|x: Result<(), WorkspaceError>|
            {
                &&& #[trigger] searching::search_result(
                    a,
                    b,
                    query,
                    hits,
                    forward,
                    &tools.spot,
                    &tools.times,
                    caches,
                    x,
                )
                &&& t == (match x {
                    Ok(_) => s.reframed().told(
                        messages::search_words(query, control::counts(b).0, control::counts(b).1),
                        now,
                    ),
                    Err(e) => s.reframed().told("search: "@ + e.words(), now),
                })
            },
        _ => t == s && b == a,
    }
}

impl Session {
    /// Search the focused document. `hits` are the hits of `query` on all
    /// pages, in page order.
    pub fn run_search<
        D: PageMetrics,
        F: Fn(Real32, Real32) -> Real32,
        S: Fn(u16, Real32) -> u16,
        N: Fn(Real32, i32, u16) -> Real32,
        P: Fn(PageSize, Viewport, PdfRect) -> Option<(i32, i32)>,
    >(
        &mut self,
        ws: &mut Workspace<D>,
        query: &str,
        hits: Vec<MatchRect>,
        forward: bool,
        tools: &Tools<F, S, N, P>,
        caches: CacheSettings,
        now: u64,
    )
        requires
            old(self)@.valid(),
            old(ws).live(),
            tools.ready(),
        ensures
            final(self)@.valid(),
            final(ws).live(),
            search_carried(
                old(self)@,
                final(self)@,
                *old(ws),
                *final(ws),
                query@,
                hits@,
                forward,
                tools,
                caches,
                now,
            ),
    {
        let ghost a = *ws;
        if ws.buffer_pdf(ws.focused_window().buffer).is_none() {
            return ;
        }
        let x = ws.run_search(owned(query), hits, forward, &tools.spot, &tools.times, caches);
        assert(searching::search_result(
            a,
            *ws,
            query@,
            hits@,
            forward,
            &tools.spot,
            &tools.times,
            caches,
            x,
        ));
        self.stale_frames = true;
        match x {
            Ok(_) => {
                let (current, total): (usize, usize) = ws.hit_counts();
                self.set_message(search_string(query, current, total), now);
            },
            Err(e) => self.set_message(prefixed("search: ", &e), now),
        }
    }
}

// ------------------------------ Commands ------------------------------

/// A name and whether it is on.
pub open spec fn switch_words(name: Seq<char>, on: bool) -> Seq<char> {
    name + (if on {
        " on"@
    } else {
        " off"@
    })
}

fn switch_string(name: &str, on: bool) -> (s: String)
    ensures
        s@ == switch_words(name@, on),
{
    let mut s: String = owned(name);
    push_str(
        &mut s,
        if on {
            " on"
        } else {
            " off"
        },
    );
    s
}

fn count_string(name: &str, n: usize) -> (s: String)
    ensures
        s@ == name@ + text::decimal(n as nat),
{
    let mut s: String = owned(name);
    push_decimal(&mut s, n as u64);
    s
}

/// The commands that change only the session or a cache, and what they leave
/// to the caller. `on` says whether the page and the frame cache are on.
pub open spec fn settled(s: SessionView, cmd: ParsedCommand, on: (bool, bool), now: u64) -> Option<
    (SessionView, Chore),
> {
    match cmd {
        ParsedCommand::Help => Some((SessionView { mode: ModeView::Help, ..s }, Chore::Nothing)),
        ParsedCommand::CacheSet(b) => Some(
            (s.told(switch_words("RCache"@, b), now), Chore::PagesOn(b)),
        ),
        ParsedCommand::CacheToggle => Some(
            (s.told(switch_words("RCache"@, !on.0), now), Chore::PagesOn(!on.0)),
        ),
        ParsedCommand::CacheSize(n) => Some(
            (s.told("RCache size "@ + text::decimal(n as nat), now), Chore::PagesRoom(n)),
        ),
        ParsedCommand::ECacheSet(b) => Some(
            (s.told(switch_words("ECache"@, b), now), Chore::FramesOn(b)),
        ),
        ParsedCommand::ECacheToggle => Some(
            (s.told(switch_words("ECache"@, !on.1), now), Chore::FramesOn(!on.1)),
        ),
        ParsedCommand::ECacheSize(n) => Some(
            (s.told("ECache size "@ + text::decimal(n as nat), now), Chore::FramesRoom(n)),
        ),
        ParsedCommand::Prefetch(n) => Some(
            (
                (SessionView { prefetch_reach: n, ..s }).told(
                    "prefetch "@ + text::decimal(n as nat),
                    now,
                ),
                Chore::Nothing,
            ),
        ),
        ParsedCommand::CopyPage => Some((s, Chore::CopyPage)),
        ParsedCommand::OpenTextEditor => Some((s, Chore::OpenText)),
        ParsedCommand::ToggleToc => Some((s, Chore::ListToc)),
        _ => None,
    }
}

/// Whether the mouse is on after a command, for the commands that say so.
pub open spec fn mouse_wanted(cmd: ParsedCommand, on: bool) -> Option<bool> {
    match cmd {
        ParsedCommand::MouseSet(b) => Some(b),
        ParsedCommand::MouseToggle => Some(!on),
        _ => None,
    }
}

/// The sixel palette that a command names.
pub open spec fn palette_mode(p: ColorPalette) -> ColorMode {
    match p {
        ColorPalette::XTerm256 => ColorMode::XTerm256,
        ColorPalette::Grayscale => ColorMode::Grayscale,
    }
}

/// The message for a sixel palette.
pub open spec fn palette_words(p: ColorPalette) -> Seq<char> {
    match p {
        ColorPalette::XTerm256 => "colors xterm256"@,
        ColorPalette::Grayscale => "colors gray"@,
    }
}

/// What a command comes to in the workspace and the session, before the screen
/// is drawn. `source` is what the path that it names leads to.
pub open spec fn ran<
    D: PageMetrics,
    F: Fn(Real32, Real32) -> Real32,
    S: Fn(u16, Real32) -> u16,
    N: Fn(Real32, i32, u16) -> Real32,
    P: Fn(PageSize, Viewport, PdfRect) -> Option<(i32, i32)>,
>(
    s: SessionView,
    t: SessionView,
    a: Workspace<D>,
    b: Workspace<D>,
    cmd: ParsedCommand,
    source: Option<Source<D>>,
    tools: &Tools<F, S, N, P>,
    caches: CacheSettings,
    now: u64,
) -> bool {
    match cmd {
        ParsedCommand::Reset => exists|x: Result<(), WorkspaceError>|
            {
                &&& #[trigger] searching::reset_result(a, b, &tools.times, caches, x)
                &&& t == (match x {
                    Ok(_) => SessionView { stale_pages: true, stale_frames: true, ..s },
                    Err(e) => s.told(e.words(), now),
                })
            },
        ParsedCommand::ToggleMarks => b == a && t == marks_shown(s, a, now),
        ParsedCommand::DeleteMark(c) => exists|found: bool|
            {
                &&& #[trigger] reading::mark_deleted(a, b, c, found)
                &&& t == s.told(
                    if found {
                        "mark '"@ + seq![c] + "' deleted"@
                    } else {
                        "no mark '"@ + seq![c] + "'"@
                    },
                    now,
                )
            },
        ParsedCommand::JumpBack => exists|x: Result<bool, WorkspaceError>|
            {
                &&& #[trigger] reading::went_back(a, b, &tools.times, caches, x)
                &&& t == control::jump_told(s, x, "jump list empty"@, "back: "@, false, now)
            },
        ParsedCommand::JumpForward => exists|x: Result<bool, WorkspaceError>|
            {
                &&& #[trigger] reading::went_forward(a, b, &tools.times, caches, x)
                &&& t == control::jump_told(s, x, "no forward jump"@, "forward: "@, false, now)
            },
        ParsedCommand::MouseSet(_) | ParsedCommand::MouseToggle => {
            let on = mouse_wanted(cmd, s.mouse_enabled)->0;
            &&& reading::mouse_kept(a, b, Some(on))
            &&& t == (SessionView { mouse_enabled: on, ..s }).told(switch_words("mouse"@, on), now)
        },
        ParsedCommand::Colors(p) => {
            &&& searching::focus_set(
                a,
                b,
                Window { color_mode: palette_mode(p), dirty: true, ..a.focus_now() },
            )
            &&& t == s.told(palette_words(p), now)
        },
        _ => exists|x: Result<(), WorkspaceError>|
            {
                &&& #[trigger] dispatch::command_result(
                    a,
                    b,
                    cmd,
                    source,
                    &tools.times,
                    &tools.nudged,
                    caches,
                    x,
                )
                &&& t == (match x {
                    Ok(_) => s,
                    Err(e) => s.told(e.words(), now),
                })
            },
    }
}

impl Session {
    fn settle(&mut self, cmd: &ParsedCommand, on: (bool, bool), now: u64) -> (r: Option<Chore>)
        requires
            old(self)@.valid(),
        ensures
            final(self)@.valid(),
            match settled(old(self)@, *cmd, on, now) {
                Some((t, chore)) => r == Some(chore) && final(self)@ == t,
                None => r is None && final(self)@ == old(self)@,
            },
    {
        match cmd {
            ParsedCommand::Help => {
                self.mode = Mode::Help;
                Some(Chore::Nothing)
            },
            ParsedCommand::CacheSet(b) => {
                self.set_message(switch_string("RCache", *b), now);
                Some(Chore::PagesOn(*b))
            },
            ParsedCommand::CacheToggle => {
                self.set_message(switch_string("RCache", !on.0), now);
                Some(Chore::PagesOn(!on.0))
            },
            ParsedCommand::CacheSize(n) => {
                self.set_message(count_string("RCache size ", *n), now);
                Some(Chore::PagesRoom(*n))
            },
            ParsedCommand::ECacheSet(b) => {
                self.set_message(switch_string("ECache", *b), now);
                Some(Chore::FramesOn(*b))
            },
            ParsedCommand::ECacheToggle => {
                self.set_message(switch_string("ECache", !on.1), now);
                Some(Chore::FramesOn(!on.1))
            },
            ParsedCommand::ECacheSize(n) => {
                self.set_message(count_string("ECache size ", *n), now);
                Some(Chore::FramesRoom(*n))
            },
            ParsedCommand::Prefetch(n) => {
                self.prefetch_reach = *n;
                self.set_message(count_string("prefetch ", *n), now);
                Some(Chore::Nothing)
            },
            ParsedCommand::CopyPage => Some(Chore::CopyPage),
            ParsedCommand::OpenTextEditor => Some(Chore::OpenText),
            ParsedCommand::ToggleToc => Some(Chore::ListToc),
            _ => None,
        }
    }

    fn run<
        D: PageMetrics,
        F: Fn(Real32, Real32) -> Real32,
        S: Fn(u16, Real32) -> u16,
        N: Fn(Real32, i32, u16) -> Real32,
        P: Fn(PageSize, Viewport, PdfRect) -> Option<(i32, i32)>,
    >(
        &mut self,
        ws: &mut Workspace<D>,
        cmd: ParsedCommand,
        source: Option<Source<D>>,
        tools: &Tools<F, S, N, P>,
        caches: CacheSettings,
        now: u64,
    )
        requires
            old(self)@.valid(),
            old(ws).live(),
            old(ws).win_ids.upcoming < u32::MAX,
            old(ws).buf_ids.upcoming < u32::MAX,
            tools.ready(),
        ensures
            final(self)@.valid(),
            final(ws).inv(),
            ran(
                old(self)@,
                final(self)@,
                *old(ws),
                *final(ws),
                cmd,
                source,
                tools,
                caches,
                now,
            ),
    {
        let ghost a = *ws;
        let ghost s = self@;
        match cmd {
            ParsedCommand::Reset => {
                let x = ws.reset_view(&tools.times, caches);
                assert(searching::reset_result(a, *ws, &tools.times, caches, x));
                match x {
                    Ok(_) => {
                        self.stale_pages = true;
                        self.stale_frames = true;
                    },
                    Err(e) => self.set_message(e.message(), now),
                }
            },
            ParsedCommand::ToggleMarks => {
                self.enter_marks_mode(ws, now);
            },
            ParsedCommand::DeleteMark(c) => {
                let found: bool = ws.delete_bookmark(c);
                assert(reading::mark_deleted(a, *ws, c, found));
                if found {
                    self.set_message(about_mark("mark '", c, "' deleted"), now);
                } else {
                    self.set_message(about_mark("no mark '", c, "'"), now);
                }
            },
            ParsedCommand::JumpBack => {
                let x = ws.jump_back(&tools.times, caches);
                assert(reading::went_back(a, *ws, &tools.times, caches, x));
                self.tell_jump(&x, owned("jump list empty"), "back: ", false, now);
            },
            ParsedCommand::JumpForward => {
                let x = ws.jump_forward(&tools.times, caches);
                assert(reading::went_forward(a, *ws, &tools.times, caches, x));
                self.tell_jump(&x, owned("no forward jump"), "forward: ", false, now);
            },
            ParsedCommand::MouseSet(on) => {
                self.mouse_enabled = on;
                ws.set_mouse_pref(Some(on));
                self.set_message(switch_string("mouse", on), now);
            },
            ParsedCommand::MouseToggle => {
                let on: bool = !self.mouse_enabled;
                self.mouse_enabled = on;
                ws.set_mouse_pref(Some(on));
                self.set_message(switch_string("mouse", on), now);
            },
            ParsedCommand::Colors(p) => match p {
                ColorPalette::XTerm256 => {
                    ws.set_colors(ColorMode::XTerm256);
                    self.set_message(owned("colors xterm256"), now);
                },
                ColorPalette::Grayscale => {
                    ws.set_colors(ColorMode::Grayscale);
                    self.set_message(owned("colors gray"), now);
                },
            },
            other => {
                let x = ws.apply_command(other, source, &tools.times, &tools.nudged, caches);
                assert(dispatch::command_result(
                    a,
                    *ws,
                    cmd,
                    source,
                    &tools.times,
                    &tools.nudged,
                    caches,
                    x,
                ));
                if let Err(e) = x {
                    self.set_message(e.message(), now);
                }
            },
        }
    }

    /// Run a command. `source` is what the path that it names leads to, and
    /// `on` says whether the page and the frame cache are on.
    pub fn execute_command<
        D: PageMetrics,
        F: Fn(Real32, Real32) -> Real32,
        S: Fn(u16, Real32) -> u16,
        N: Fn(Real32, i32, u16) -> Real32,
        P: Fn(PageSize, Viewport, PdfRect) -> Option<(i32, i32)>,
    >(
        &mut self,
        ws: &mut Workspace<D>,
        cmd: ParsedCommand,
        source: Option<Source<D>>,
        on: (bool, bool),
        tools: &Tools<F, S, N, P>,
        caches: CacheSettings,
        now: u64,
    ) -> (r: Chore)
        requires
            old(self)@.valid(),
            old(ws).live(),
            old(ws).win_ids.upcoming < u32::MAX,
            old(ws).buf_ids.upcoming < u32::MAX,
            tools.ready(),
        ensures
            final(self)@.valid(),
            final(ws).inv(),
            match settled(old(self)@, cmd, on, now) {
                Some((t, chore)) => {
                    &&& r == chore
                    &&& final(self)@ == t.repainted()
                    &&& *final(ws) == *old(ws)
                },
                None => {
                    &&& r == Chore::Nothing
                    &&& exists|t: SessionView|
                        #[trigger] ran(
                            old(self)@,
                            t,
                            *old(ws),
                            *final(ws),
                            cmd,
                            source,
                            tools,
                            caches,
                            now,
                        ) && final(self)@ == t.repainted()
                },
            },
    {
        let ghost s = self@;
        let ghost a = *ws;
        let r: Chore = match self.settle(&cmd, on, now) {
            Some(chore) => chore,
            None => {
                self.run(ws, cmd, source, tools, caches, now);
                assert(ran(s, self@, a, *ws, cmd, source, tools, caches, now));
                Chore::Nothing
            },
        };
        match &self.mode {
            Mode::Toc { .. } | Mode::Marks { .. } => {},
            _ => {
                self.full_repaint = true;
            },
        }
        r
    }
}

} // verus!
