//! What requests, commands and events come to.
use vstd::prelude::*;

use crate::browsing;
use crate::buffer::{Buffer, PdfBuffer};
use crate::commands::{ColorPalette, ParsedCommand};
use crate::control::{self, Tools};
use crate::document::{PageMetrics, PageSize, PdfRect};
use crate::events::{self, Event, ResponseView, Scene};
use crate::execution::{self, Chore};
use crate::explorer::ExplorerBuffer;
use crate::navigator::Action;
use crate::number::Real32;
use crate::palette::Offer;
use crate::pool;
use crate::reading;
use crate::session::{Browse, KeyPress, ModeView, RequestView, SessionView};
use crate::sixel_write::ColorMode;
use crate::viewport::Viewport;
use crate::workspace::{CacheSettings, Workspace, WorkspaceError};

verus! {

/// The browser in a slot of the pool.
pub open spec fn browser<D>(ws: Workspace<D>, slot: int) -> ExplorerBuffer {
    ws.pool.slots@[slot].buf->Explorer_0
}

/// Asking for the next entry of a directory selects the one below and for the
/// one before the one above, to an end at most; the first and the last are the
/// ends. The entries stay.
pub proof fn lemma_browsing<
    D: PageMetrics,
    F: Fn(Real32, Real32) -> Real32,
    S: Fn(u16, Real32) -> u16,
    N: Fn(Real32, i32, u16) -> Real32,
    P: Fn(PageSize, Viewport, PdfRect) -> Option<(i32, i32)>,
>(
    s: SessionView,
    t: SessionView,
    a: Workspace<D>,
    b: Workspace<D>,
    ask: Browse,
    tools: &Tools<F, S, N, P>,
    caches: CacheSettings,
    now: u64,
    r: Result<bool, WorkspaceError>,
    slot: int,
)
    requires
        control::carried(s, t, a, b, RequestView::Browse(ask), tools, caches, now, r),
        pool::slot_at(a.pool.slots@, a.focus_now().buffer) == Some(slot),
        0 <= slot < a.pool.slots@.len(),
        a.pool.slots@[slot].buf is Explorer,
        browser(a, slot).selected < browser(a, slot).entries@.len(),
    ensures
        ({
            let i = browser(a, slot).selected;
            let j = browser(b, slot).selected;
            let n = browser(a, slot).entries@.len();
            &&& browser(b, slot).entries == browser(a, slot).entries
            &&& ask == Browse::Down && i + 1 < n ==> j == i + 1
            &&& ask == Browse::Down && i + 1 == n ==> j == i
            &&& ask == Browse::Up && i > 0 ==> j == i - 1
            &&& ask == Browse::Up && i == 0 ==> j == 0
            &&& ask == Browse::First ==> j == 0
            &&& ask == Browse::Last ==> j == n - 1
            &&& ask == Browse::Activate || ask == Browse::Parent ==> r == Ok::<
                bool,
                WorkspaceError,
            >(false) && b == a
        }),
{
    let e = browser(a, slot);
    assert(e.entries.len() == e.entries@.len());
    match ask {
        Browse::Down => {
            assert(browsing::browser_after(a, b.pool.slots@, browsing::moved(e, 1)));
        },
        Browse::Up => {
            assert(browsing::browser_after(a, b.pool.slots@, browsing::moved(e, -1isize)));
        },
        Browse::First => {
            assert(browsing::browser_after(
                a,
                b.pool.slots@,
                ExplorerBuffer { selected: 0, ..e },
            ));
        },
        Browse::Last => {
            assert(browsing::browser_after(a, b.pool.slots@, browsing::at_last(e)));
        },
        _ => {},
    }
}

/// Each request that moves through the document does what it says: back goes
/// back, forward goes forward, a mark is set or reached or deleted, a place is
/// jumped to, an action is taken as often as its count says.
pub proof fn lemma_requests<
    D: PageMetrics,
    F: Fn(Real32, Real32) -> Real32,
    S: Fn(u16, Real32) -> u16,
    N: Fn(Real32, i32, u16) -> Real32,
    P: Fn(PageSize, Viewport, PdfRect) -> Option<(i32, i32)>,
>(
    s: SessionView,
    t: SessionView,
    a: Workspace<D>,
    b: Workspace<D>,
    req: RequestView,
    tools: &Tools<F, S, N, P>,
    caches: CacheSettings,
    now: u64,
    r: Result<bool, WorkspaceError>,
)
    requires
        control::carried(s, t, a, b, req, tools, caches, now, r),
    ensures
        req == RequestView::Nothing || req == RequestView::Quit || req == RequestView::JumpBack
            || req == RequestView::JumpForward || req == RequestView::DropSearch || req is SetMark
            || req is JumpMark || req is DeleteMark || req is Window ==> r == Ok::<
            bool,
            WorkspaceError,
        >(true),
        req is Navigate || req is Goto || req == RequestView::CloseWindow || req is SearchStep
            ==> r != Ok::<bool, WorkspaceError>(false),
        req == RequestView::OpenToc || req is Execute || req is Search ==> r == Ok::<
            bool,
            WorkspaceError,
        >(false) && b == a && t == s,
        req == RequestView::Nothing ==> t == s && b == a,
        req == RequestView::Quit ==> b.quit_requested && b.tabs == a.tabs,
        req == RequestView::JumpBack ==> exists|x: Result<bool, WorkspaceError>| #[trigger]
            reading::went_back(a, b, &tools.times, caches, x),
        req == RequestView::JumpForward ==> exists|x: Result<bool, WorkspaceError>| #[trigger]
            reading::went_forward(a, b, &tools.times, caches, x),
        req matches RequestView::SetMark(c) ==> exists|x: Result<(), WorkspaceError>| #[trigger]
            reading::mark_set(a, b, c, x),
        req matches RequestView::JumpMark(c) ==> exists|x: Result<bool, WorkspaceError>| #[trigger]
            reading::mark_reached(a, b, c, &tools.times, caches, x),
        req matches RequestView::DeleteMark(c) ==> exists|found: bool| #[trigger]
            reading::mark_deleted(a, b, c, found),
        req matches RequestView::Goto { page, x_off, y_off } ==> reading::jumped_to(
            a,
            b,
            page,
            x_off,
            y_off,
            &tools.times,
            caches,
            reading::without_flag(r),
        ),
        req matches RequestView::Navigate { action, count } ==> reading::nav_result(
            a,
            b,
            action,
            count,
            &tools.times,
            caches,
            reading::without_flag(r),
        ),
        req matches RequestView::Window(op) ==> exists|x: Result<(), WorkspaceError>| #[trigger]
            crate::dispatch::op_result(a, b, op, &tools.share, &tools.nudged, x),
        req matches RequestView::SearchStep { forward } ==> {
            &&& control::searching_now(a) ==> exists|x: Result<bool, WorkspaceError>| #[trigger]
                crate::searching::step_result(
                    a,
                    b,
                    forward,
                    &tools.spot,
                    &tools.times,
                    caches,
                    x,
                )
            &&& !control::searching_now(a) && !forward ==> b == a
            &&& !control::searching_now(a) && forward ==> reading::nav_result(
                a,
                b,
                Action::ToggleNight,
                1,
                &tools.times,
                caches,
                reading::without_flag(r),
            )
        },
{
}

/// The hit that has focus is counted from 1.
pub proof fn lemma_hit_count<D>(ws: Workspace<D>, p: PdfBuffer<D>, i: usize)
    requires
        reading::focused_buffer(ws) == Some(Buffer::Pdf(p)),
        p.search.current == Some(i),
    ensures
        control::counts(ws) == ((i + 1) as nat, p.search.matches@.len()),
{
}

/// What a command of the session leaves to the caller.
pub open spec fn chore_of(s: SessionView, cmd: ParsedCommand, on: (bool, bool), now: u64) -> Chore {
    let done = execution::settled(s, cmd, on, now)->0;
    done.1
}

/// What a command of the session makes of it.
pub open spec fn settled_as(
    s: SessionView,
    cmd: ParsedCommand,
    on: (bool, bool),
    now: u64,
) -> SessionView {
    let done = execution::settled(s, cmd, on, now)->0;
    done.0
}

/// The cache commands switch their own cache on, off or round, and set its
/// room; the mouse command likewise; the palettes are those of their names.
pub proof fn lemma_switch_commands(
    s: SessionView,
    on: (bool, bool),
    b: bool,
    n: usize,
    now: u64,
)
    ensures
        chore_of(s, ParsedCommand::CacheSet(b), on, now) == Chore::PagesOn(b),
        chore_of(s, ParsedCommand::ECacheSet(b), on, now) == Chore::FramesOn(b),
        chore_of(s, ParsedCommand::CacheToggle, (b, on.1), now) == Chore::PagesOn(
            !b,
        ),
        chore_of(s, ParsedCommand::ECacheToggle, (on.0, b), now) == Chore::FramesOn(
            !b,
        ),
        chore_of(s, ParsedCommand::CacheSize(n), on, now) == Chore::PagesRoom(n),
        chore_of(s, ParsedCommand::ECacheSize(n), on, now) == Chore::FramesRoom(n),
        settled_as(s, ParsedCommand::Prefetch(n), on, now).prefetch_reach == n,
        settled_as(s, ParsedCommand::Help, on, now).mode == ModeView::Help,
        chore_of(s, ParsedCommand::CopyPage, on, now) == Chore::CopyPage,
        chore_of(s, ParsedCommand::OpenTextEditor, on, now) == Chore::OpenText,
        chore_of(s, ParsedCommand::ToggleToc, on, now) == Chore::ListToc,
        execution::mouse_wanted(ParsedCommand::MouseSet(b), on.0) == Some(b),
        execution::mouse_wanted(ParsedCommand::MouseToggle, b) == Some(!b),
        execution::palette_mode(ColorPalette::XTerm256) == ColorMode::XTerm256,
        execution::palette_mode(ColorPalette::Grayscale) == ColorMode::Grayscale,
{
}

/// `:back` and `:forward` go where their keys go, `:marks` lists the marks,
/// `:delmark` deletes the mark that it names and `:colors` sets the palette of
/// the focused window.
pub proof fn lemma_commands_run<
    D: PageMetrics,
    F: Fn(Real32, Real32) -> Real32,
    S: Fn(u16, Real32) -> u16,
    N: Fn(Real32, i32, u16) -> Real32,
    P: Fn(PageSize, Viewport, PdfRect) -> Option<(i32, i32)>,
>(
    s: SessionView,
    t: SessionView,
    a: Workspace<D>,
    b: Workspace<D>,
    cmd: ParsedCommand,
    tools: &Tools<F, S, N, P>,
    caches: CacheSettings,
    now: u64,
)
    requires
        execution::ran(s, t, a, b, cmd, None, tools, caches, now),
    ensures
        cmd == ParsedCommand::JumpBack ==> exists|x: Result<bool, WorkspaceError>| #[trigger]
            reading::went_back(a, b, &tools.times, caches, x),
        cmd == ParsedCommand::JumpForward ==> exists|x: Result<bool, WorkspaceError>| #[trigger]
            reading::went_forward(a, b, &tools.times, caches, x),
        cmd == ParsedCommand::Reset ==> exists|x: Result<(), WorkspaceError>| #[trigger]
            crate::searching::reset_result(a, b, &tools.times, caches, x),
        cmd matches ParsedCommand::DeleteMark(c) ==> exists|found: bool| #[trigger]
            reading::mark_deleted(a, b, c, found),
        cmd matches ParsedCommand::MouseSet(on) ==> t.mouse_enabled == on && reading::mouse_kept(
            a,
            b,
            Some(on),
        ),
        cmd == ParsedCommand::MouseToggle ==> t.mouse_enabled == !s.mouse_enabled,
        cmd == ParsedCommand::ToggleMarks ==> b == a && (t.mode matches ModeView::Marks {
            marks,
            selected,
            ..
        } ==> s.mode == t.mode || crate::lists::alphabetical(marks) && selected == 0),
        cmd matches ParsedCommand::Nav(action) ==> exists|x: Result<(), WorkspaceError>| #[trigger]
            reading::nav_result(a, b, action, 1, &tools.times, caches, x),
{
    if let Some(Buffer::Pdf(p)) = reading::focused_buffer(a) {
        crate::lists::lemma_by_letter(p.state.bookmarks@);
    }
    if let ParsedCommand::Nav(action) = cmd {
        let x = choose|x: Result<(), WorkspaceError>| #[trigger]
            crate::dispatch::command_result(
                a,
                b,
                cmd,
                None,
                &tools.times,
                &tools.nudged,
                caches,
                x,
            );
        assert(reading::nav_result(a, b, action, 1, &tools.times, caches, x));
    }
}

/// The terminal's size is measured again after it changed and everything is
/// drawn anew; a click counts only in normal mode with the mouse on; a key is
/// pressed in the mode that the session is in.
pub proof fn lemma_events(
    s: SessionView,
    scene: Scene,
    rows: Seq<Offer>,
    k: KeyPress,
    col: u16,
    row: u16,
)
    ensures
        events::answered(s, Event::Resize { cols: col, rows: row }, scene, rows).1 == (
        ResponseView::Measure { cols: col, rows: row }),
        events::answered(s, Event::Resize { cols: col, rows: row }, scene, rows).0.full_repaint,
        events::answered(s, Event::Resize { cols: col, rows: row }, scene, rows).0.stale_pages,
        events::answered(s, Event::Resize { cols: col, rows: row }, scene, rows).0.stale_frames,
        events::answered(s, Event::FocusGained, scene, rows).0.full_repaint,
        events::answered(s, Event::Ignored, scene, rows) == (s, ResponseView::Nothing),
        events::answered(s, Event::Click { col, row }, scene, rows).1 is Point <==> s.mouse_enabled
            && s.mode == ModeView::Normal,
        events::answered(s, Event::Key(k), scene, rows).1 == ResponseView::Ask(
            crate::session::pressed(s, k, scene.directory, rows).1,
        ),
{
}

/// A jump that leads somewhere says nothing and redraws where asked to; one that
/// leads nowhere, or fails, says so.
pub proof fn lemma_jump_told(
    s: SessionView,
    nowhere: Seq<char>,
    prefix: Seq<char>,
    repaint: bool,
    now: u64,
    e: WorkspaceError,
)
    ensures
        control::jump_told(s, Ok(true), nowhere, prefix, repaint, now) == (SessionView {
            full_repaint: repaint || s.full_repaint,
            ..s
        }),
        control::jump_told(s, Ok(false), nowhere, prefix, repaint, now).message == Some(nowhere),
        control::jump_told(s, Err(e), nowhere, prefix, repaint, now).message == Some(
            prefix + e.words(),
        ),
{
}

/// A switch says whether it is on.
pub proof fn lemma_switch_told(name: Seq<char>)
    ensures
        execution::switch_words(name, true) == name + " on"@,
        execution::switch_words(name, false) == name + " off"@,
        execution::palette_words(ColorPalette::XTerm256) == "colors xterm256"@,
        execution::palette_words(ColorPalette::Grayscale) == "colors gray"@,
{
}

/// A message stays for two seconds, as far as time can be counted.
pub proof fn lemma_message_time(s: SessionView, message: Seq<char>, now: u64)
    ensures
        s.told(message, now).message == Some(message),
        now <= u64::MAX - 2_000_000_000 ==> s.told(message, now).until == Some(
            (now + 2_000_000_000) as u64,
        ),
        s.told(message, now).mode == s.mode,
        s.told(message, now).chrome_dirty,
        s.told(message, now).full_repaint == s.full_repaint,
        now <= u64::MAX - 2_000_000_000 ==> {
            &&& forall|t: u64|
                t < now + 2_000_000_000 ==> (#[trigger] s.told(message, now).expired(t)).message
                    == Some(message)
            &&& forall|t: u64|
                t >= now + 2_000_000_000 ==> (#[trigger] s.told(message, now).expired(t)).message
                    is None
        },
{
}

} // verus!
