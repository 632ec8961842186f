//! What the terminal reports, and what the reader does about it.
use vstd::prelude::*;

use crate::document::{PageMetrics, PageSize};
use crate::messages::prefixed;
use crate::number::Real32;
use crate::painting::{self, click, Click};
use crate::palette::{self, Offer, PaletteCompletion};
use crate::reading;
use crate::session::{self, KeyPress, ModeView, Request, RequestView, Session, SessionView};
use crate::terminal::TermGeom;
use crate::viewport::Viewport;
use crate::window::{CellRect, WindowId};
use crate::workspace::{CacheSettings, Tab, Workspace, WorkspaceError};

verus! {

/// What the terminal reports.
#[derive(Debug, Clone, Copy, PartialEq, Eq, Structural)]
pub enum Event {
    /// The terminal has another size.
    Resize { cols: u16, rows: u16 },
    /// A key went down, or repeats.
    Key(KeyPress),
    /// The left mouse button went down on a cell.
    Click { col: u16, row: u16 },
    /// The terminal came to the front.
    FocusGained,
    /// Anything else.
    Ignored,
}

/// What the reader does about an event.
#[derive(Debug)]
pub enum Response {
    Nothing,
    /// Measure the terminal again and lay out the windows.
    Measure { cols: u16, rows: u16 },
    /// Carry out a request.
    Ask(Request),
    /// Carry out a click.
    Point(Click),
}

/// What a response stands for.
pub enum ResponseView {
    Nothing,
    Measure { cols: u16, rows: u16 },
    Ask(RequestView),
    Point(Click),
}

impl View for Response {
    type V = ResponseView;

    open spec fn view(&self) -> ResponseView {
        match self {
            Response::Nothing => ResponseView::Nothing,
            Response::Measure { cols, rows } => ResponseView::Measure { cols: *cols, rows: *rows },
            Response::Ask(r) => ResponseView::Ask(r@),
            Response::Point(c) => ResponseView::Point(*c),
        }
    }
}

/// Where the windows are, and which one has the focus.
#[derive(Debug)]
pub struct Scene {
    pub layout: Vec<(WindowId, CellRect)>,
    pub focused: WindowId,
    /// The focused window shows a directory.
    pub directory: bool,
    pub geom: TermGeom,
}

/// What an event does to the session, and what it leads to.
pub open spec fn answered(s: SessionView, ev: Event, scene: Scene, rows: Seq<Offer>) -> (
    SessionView,
    ResponseView,
) {
    match ev {
        Event::Resize { cols, rows } => (
            SessionView { stale_pages: true, stale_frames: true, full_repaint: true, ..s },
            ResponseView::Measure { cols, rows },
        ),
        Event::Key(k) => {
            let (t, r) = session::pressed(s, k, scene.directory, rows);
            (t, ResponseView::Ask(r))
        },
        Event::Click { col, row } => (
            s,
            if s.mouse_enabled && s.mode == ModeView::Normal {
                ResponseView::Point(
                    painting::click_for(scene.layout@, scene.focused, col, row, scene.geom),
                )
            } else {
                ResponseView::Nothing
            },
        ),
        Event::FocusGained => (SessionView { full_repaint: true, ..s }, ResponseView::Nothing),
        Event::Ignored => (s, ResponseView::Nothing),
    }
}

/// What a click in the scene comes to.
pub open spec fn click_carried<D: PageMetrics, P, Q, F>(
    s: SessionView,
    t: SessionView,
    a: Workspace<D>,
    b: Workspace<D>,
    c: Click,
    point: &P,
    landing: &Q,
    times: &F,
    caches: CacheSettings,
    now: u64,
) -> bool where
    P: Fn(Viewport, PageSize, i32, i32) -> (Real32, Real32),
    Q: Fn(Viewport, PageSize, Real32, Real32) -> (i32, i32),
    F: Fn(Real32, Real32) -> Real32,
 {
    match c {
        Click::Nothing => t == s && b == a,
        Click::Focus(id) => {
            &&& t == SessionView { full_repaint: true, ..s }
            &&& b.same_but_tabs(a)
            &&& b.tabs@ == (if a.tab_now().tree.has(id) {
                a.tabs@.update(
                    a.current_tab as int,
                    Tab { tree: a.tab_now().tree.dirtied(), focused: id },
                )
            } else {
                a.tabs@
            })
        },
        Click::Follow { window, x, y } => exists|r: Result<(), WorkspaceError>|
            {
                &&& #[trigger] reading::click_result(
                    a,
                    b,
                    window,
                    x,
                    y,
                    point,
                    landing,
                    times,
                    caches,
                    r,
                )
                &&& t == (match r {
                    Ok(_) => SessionView { full_repaint: true, ..s },
                    Err(e) => s.told("link: "@ + e.words(), now),
                })
            },
    }
}

impl Session {
    /// Take in an event. `rows` is what the palette offers for its input.
    pub fn on_event(&mut self, ev: Event, scene: &Scene, rows: &Vec<PaletteCompletion>) -> (r:
        Response)
        requires
            old(self)@.valid(),
        ensures
            final(self)@.valid(),
            (final(self)@, r@) == answered(old(self)@, ev, *scene, palette::offers(rows@)),
    {
        match ev {
            Event::Resize { cols, rows } => {
                self.on_resize();
                Response::Measure { cols, rows }
            },
            Event::Key(k) => Response::Ask(self.on_key(k, scene.directory, rows)),
            Event::Click { col, row } => if self.takes_clicks() {
                Response::Point(click(&scene.layout, scene.focused, col, row, scene.geom))
            } else {
                Response::Nothing
            },
            Event::FocusGained => {
                self.on_focus_gained();
                Response::Nothing
            },
            Event::Ignored => Response::Nothing,
        }
    }

    /// Carry out a click: focus a window, or follow a link in the focused one.
    /// `point` maps a pixel of a page to points, and `landing` a point of a
    /// page to offsets.
    pub fn handle_mouse<D: PageMetrics, P, Q, F>(
        &mut self,
        ws: &mut Workspace<D>,
        c: Click,
        point: &P,
        landing: &Q,
        times: &F,
        caches: CacheSettings,
        now: u64,
    ) where
        P: Fn(Viewport, PageSize, i32, i32) -> (Real32, Real32),
        Q: Fn(Viewport, PageSize, Real32, Real32) -> (i32, i32),
        F: Fn(Real32, Real32) -> Real32,

        requires
            old(self)@.valid(),
            old(ws).live(),
            forall|v: Viewport, s: PageSize, a: i32, b: i32| call_requires(point, (v, s, a, b)),
            forall|v: Viewport, s: PageSize, a: Real32, b: Real32|
                call_requires(landing, (v, s, a, b)),
            forall|a: Real32, b: Real32| call_requires(times, (a, b)),
        ensures
            final(self)@.valid(),
            final(ws).live(),
            click_carried(
                old(self)@,
                final(self)@,
                *old(ws),
                *final(ws),
                c,
                point,
                landing,
                times,
                caches,
                now,
            ),
    {
        let ghost a = *ws;
        match c {
            Click::Nothing => {},
            Click::Focus(id) => {
                ws.set_focus_window(id);
                self.full_repaint = true;
            },
            Click::Follow { window, x, y } => {
                let r = ws.click_at(window, x, y, point, landing, times, caches);
                assert(reading::click_result(
                    a,
                    *ws,
                    window,
                    x,
                    y,
                    point,
                    landing,
                    times,
                    caches,
                    r,
                ));
                match r {
                    Ok(_) => {
                        self.full_repaint = true;
                    },
                    Err(e) => self.set_message(prefixed("link: ", &e), now),
                }
            },
        }
    }
}

} // verus!
