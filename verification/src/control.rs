//! Carrying out what key presses and commands ask for.
use vstd::prelude::*;

use crate::browsing;
use crate::buffer::Buffer;
use crate::commands::ParsedCommand;
use crate::dispatch;
use crate::document::{PageMetrics, PageSize, PdfRect};
use crate::keys::WindowOp;
use crate::messages::{self, about_mark, hit_string, prefixed};
use crate::navigator::Action;
use crate::number::Real32;
use crate::reading::{self, focused_buffer};
use crate::searching;
use crate::session::{self, Browse, Request, RequestView, Session, SessionView};
use crate::text::owned;
use crate::viewport::Viewport;
use crate::workspace::{CacheSettings, Workspace, WorkspaceError};

verus! {

/// Arithmetic on measurements, which the caller supplies.
pub struct Tools<F, S, N, P> {
    /// A zoom times a factor.
    pub times: F,
    /// The first part of an extent that is split at a ratio.
    pub share: S,
    /// A ratio moved by some of the cells of an extent.
    pub nudged: N,
    /// Where a rectangle begins on the page as it is drawn, in pixels.
    pub spot: P,
}

impl<
    F: Fn(Real32, Real32) -> Real32,
    S: Fn(u16, Real32) -> u16,
    N: Fn(Real32, i32, u16) -> Real32,
    P: Fn(PageSize, Viewport, PdfRect) -> Option<(i32, i32)>,
> Tools<F, S, N, P> {
    /// The tools take everything.
    pub open spec fn ready(&self) -> bool {
        &&& forall|a: Real32, b: Real32| call_requires(self.times, (a, b))
        &&& forall|n: u16, ratio: Real32| call_requires(self.share, (n, ratio))
        &&& forall|x: Real32, d: i32, n: u16| call_requires(self.nudged, (x, d, n))
        &&& forall|s: PageSize, v: Viewport, b: PdfRect| call_requires(self.spot, (s, v, b))
    }
}

/// The focused document is searched.
pub open spec fn searching_now<D>(ws: Workspace<D>) -> bool {
    focused_buffer(ws) matches Some(Buffer::Pdf(p)) && p.search.active()
}

/// The number of the focused hit, and how many there are.
pub open spec fn counts<D>(ws: Workspace<D>) -> (nat, nat) {
    match focused_buffer(ws) {
        Some(Buffer::Pdf(p)) => (
            match p.search.current {
                Some(i) => (i + 1) as nat,
                None => 0,
            },
            p.search.matches@.len(),
        ),
        _ => (0, 0),
    }
}

/// What a jump that may lead nowhere leaves in the session.
pub open spec fn jump_told(
    s: SessionView,
    r: Result<bool, WorkspaceError>,
    nowhere: Seq<char>,
    prefix: Seq<char>,
    repaint: bool,
    now: u64,
) -> SessionView {
    match r {
        Ok(true) => SessionView { full_repaint: repaint || s.full_repaint, ..s },
        Ok(false) => s.told(nowhere, now),
        Err(e) => s.told(prefix + e.words(), now),
    }
}

/// A window key, with a message where it fails.
pub open spec fn op_carried<
    D: PageMetrics,
    F: Fn(Real32, Real32) -> Real32,
    S: Fn(u16, Real32) -> u16,
    N: Fn(Real32, i32, u16) -> Real32,
    P: Fn(PageSize, Viewport, PdfRect) -> Option<(i32, i32)>,
>(
    s: SessionView,
    t: SessionView,
    a: Workspace<D>,
    b: Workspace<D>,
    op: WindowOp,
    tools: &Tools<F, S, N, P>,
    caches: CacheSettings,
    now: u64,
    r: Result<bool, WorkspaceError>,
) -> bool {
    let done = r == Ok::<_, WorkspaceError>(true);
    done && exists|x: Result<(), WorkspaceError>|
        {
            &&& #[trigger] dispatch::op_result(a, b, op, &tools.share, &tools.nudged, x)
            &&& t == (match x {
                Ok(_) => s,
                Err(e) => s.told(e.words(), now),
            })
        }
}

/// A step to another hit; without a search, `n` is night mode.
pub open spec fn step_carried<
    D: PageMetrics,
    F: Fn(Real32, Real32) -> Real32,
    S: Fn(u16, Real32) -> u16,
    N: Fn(Real32, i32, u16) -> Real32,
    P: Fn(PageSize, Viewport, PdfRect) -> Option<(i32, i32)>,
>(
    s: SessionView,
    t: SessionView,
    a: Workspace<D>,
    b: Workspace<D>,
    forward: bool,
    tools: &Tools<F, S, N, P>,
    caches: CacheSettings,
    now: u64,
    r: Result<bool, WorkspaceError>,
) -> bool {
    let done = r == Ok::<_, WorkspaceError>(true);
    if searching_now(a) {
        exists|x: Result<bool, WorkspaceError>|
            {
                &&& #[trigger] searching::step_result(
                    a,
                    b,
                    forward,
                    &tools.spot,
                    &tools.times,
                    caches,
                    x,
                )
                &&& match x {
                    Ok(true) => done && t == s.reframed().told(
                        messages::hit_words(counts(b).0, counts(b).1),
                        now,
                    ),
                    Ok(false) => done && t == s.reframed().told("no matches"@, now),
                    Err(_) => r == x && t == s.reframed(),
                }
            }
    } else if forward {
        &&& t == s
        &&& r != Ok::<_, WorkspaceError>(false)
        &&& reading::nav_result(
            a,
            b,
            Action::ToggleNight,
            1,
            &tools.times,
            caches,
            reading::without_flag(r),
        )
    } else {
        done && t == s && b == a
    }
}

/// The search is forgotten.
pub open spec fn drop_carried<
    D: PageMetrics,
    F: Fn(Real32, Real32) -> Real32,
    S: Fn(u16, Real32) -> u16,
    N: Fn(Real32, i32, u16) -> Real32,
    P: Fn(PageSize, Viewport, PdfRect) -> Option<(i32, i32)>,
>(
    s: SessionView,
    t: SessionView,
    a: Workspace<D>,
    b: Workspace<D>,
    tools: &Tools<F, S, N, P>,
    caches: CacheSettings,
    now: u64,
    r: Result<bool, WorkspaceError>,
) -> bool {
    let done = r == Ok::<_, WorkspaceError>(true);
    done && exists|cleared: bool|
        {
            &&& #[trigger] searching::search_dropped(a, b, cleared)
            &&& t == (if cleared {
                s.reframed().told("search cleared"@, now)
            } else {
                s
            })
        }
}

/// A mark is set.
pub open spec fn mark_carried<
    D: PageMetrics,
    F: Fn(Real32, Real32) -> Real32,
    S: Fn(u16, Real32) -> u16,
    N: Fn(Real32, i32, u16) -> Real32,
    P: Fn(PageSize, Viewport, PdfRect) -> Option<(i32, i32)>,
>(
    s: SessionView,
    t: SessionView,
    a: Workspace<D>,
    b: Workspace<D>,
    c: char,
    tools: &Tools<F, S, N, P>,
    caches: CacheSettings,
    now: u64,
    r: Result<bool, WorkspaceError>,
) -> bool {
    let done = r == Ok::<_, WorkspaceError>(true);
    done && exists|x: Result<(), WorkspaceError>|
        {
            &&& #[trigger] reading::mark_set(a, b, c, x)
            &&& t == s.told(
                match x {
                    Ok(_) => "mark '"@ + seq![c] + "' set"@,
                    Err(e) => "mark: "@ + e.words(),
                },
                now,
            )
        }
}

/// A jump to a mark.
pub open spec fn mark_jump_carried<
    D: PageMetrics,
    F: Fn(Real32, Real32) -> Real32,
    S: Fn(u16, Real32) -> u16,
    N: Fn(Real32, i32, u16) -> Real32,
    P: Fn(PageSize, Viewport, PdfRect) -> Option<(i32, i32)>,
>(
    s: SessionView,
    t: SessionView,
    a: Workspace<D>,
    b: Workspace<D>,
    c: char,
    tools: &Tools<F, S, N, P>,
    caches: CacheSettings,
    now: u64,
    r: Result<bool, WorkspaceError>,
) -> bool {
    let done = r == Ok::<_, WorkspaceError>(true);
    done && exists|x: Result<bool, WorkspaceError>|
        {
            &&& #[trigger] reading::mark_reached(a, b, c, &tools.times, caches, x)
            &&& t == jump_told(
                s,
                x,
                "mark '"@ + seq![c] + "' not set"@,
                "jump-mark: "@,
                true,
                now,
            )
        }
}

/// A jump back.
pub open spec fn back_carried<
    D: PageMetrics,
    F: Fn(Real32, Real32) -> Real32,
    S: Fn(u16, Real32) -> u16,
    N: Fn(Real32, i32, u16) -> Real32,
    P: Fn(PageSize, Viewport, PdfRect) -> Option<(i32, i32)>,
>(
    s: SessionView,
    t: SessionView,
    a: Workspace<D>,
    b: Workspace<D>,
    tools: &Tools<F, S, N, P>,
    caches: CacheSettings,
    now: u64,
    r: Result<bool, WorkspaceError>,
) -> bool {
    let done = r == Ok::<_, WorkspaceError>(true);
    done && exists|x: Result<bool, WorkspaceError>|
        {
            &&& #[trigger] reading::went_back(a, b, &tools.times, caches, x)
            &&& t == jump_told(s, x, "jump list empty"@, "back: "@, true, now)
        }
}

/// A jump forward.
pub open spec fn forward_carried<
    D: PageMetrics,
    F: Fn(Real32, Real32) -> Real32,
    S: Fn(u16, Real32) -> u16,
    N: Fn(Real32, i32, u16) -> Real32,
    P: Fn(PageSize, Viewport, PdfRect) -> Option<(i32, i32)>,
>(
    s: SessionView,
    t: SessionView,
    a: Workspace<D>,
    b: Workspace<D>,
    tools: &Tools<F, S, N, P>,
    caches: CacheSettings,
    now: u64,
    r: Result<bool, WorkspaceError>,
) -> bool {
    let done = r == Ok::<_, WorkspaceError>(true);
    done && exists|x: Result<bool, WorkspaceError>|
        {
            &&& #[trigger] reading::went_forward(a, b, &tools.times, caches, x)
            &&& t == jump_told(s, x, "no forward jump"@, "forward: "@, true, now)
        }
}

/// A mark of the list is deleted.
pub open spec fn delete_carried<
    D: PageMetrics,
    F: Fn(Real32, Real32) -> Real32,
    S: Fn(u16, Real32) -> u16,
    N: Fn(Real32, i32, u16) -> Real32,
    P: Fn(PageSize, Viewport, PdfRect) -> Option<(i32, i32)>,
>(
    s: SessionView,
    t: SessionView,
    a: Workspace<D>,
    b: Workspace<D>,
    c: char,
    tools: &Tools<F, S, N, P>,
    caches: CacheSettings,
    now: u64,
    r: Result<bool, WorkspaceError>,
) -> bool {
    let done = r == Ok::<_, WorkspaceError>(true);
    done && exists|found: bool|
        {
            &&& #[trigger] reading::mark_deleted(a, b, c, found)
            &&& t == (if found {
                session::mark_gone(s)
            } else {
                s
            })
        }
}

/// What a request comes to in the workspace `a` and the session `s`. `Ok(false)`
/// leaves it to the caller, who has to supply something.
pub open spec fn carried<
    D: PageMetrics,
    F: Fn(Real32, Real32) -> Real32,
    S: Fn(u16, Real32) -> u16,
    N: Fn(Real32, i32, u16) -> Real32,
    P: Fn(PageSize, Viewport, PdfRect) -> Option<(i32, i32)>,
>(
    s: SessionView,
    t: SessionView,
    a: Workspace<D>,
    b: Workspace<D>,
    req: RequestView,
    tools: &Tools<F, S, N, P>,
    caches: CacheSettings,
    now: u64,
    r: Result<bool, WorkspaceError>,
) -> bool {
    let done = r == Ok::<_, WorkspaceError>(true);
    match req {
        RequestView::Nothing => done && t == s && b == a,
        RequestView::Quit => done && t == s && b == (Workspace { quit_requested: true, ..a }),
        RequestView::Browse(Browse::Down) => done && t == s && browsing::selection_moved(a, b, 1),
        RequestView::Browse(Browse::Up) => done && t == s && browsing::selection_moved(a, b, -1isize as isize),
        RequestView::Browse(Browse::First) => done && t == s && browsing::first_selected(a, b),
        RequestView::Browse(Browse::Last) => done && t == s && browsing::last_selected(a, b),
        RequestView::Navigate { action, count } => {
            &&& t == s
            &&& r != Ok::<_, WorkspaceError>(false)
            &&& reading::nav_result(
                a,
                b,
                action,
                count,
                &tools.times,
                caches,
                reading::without_flag(r),
            )
        },
        RequestView::Window(op) => op_carried(s, t, a, b, op, tools, caches, now, r),
        RequestView::SearchStep { forward } => step_carried(s, t, a, b, forward, tools, caches, now, r),
        RequestView::DropSearch => drop_carried(s, t, a, b, tools, caches, now, r),
        RequestView::CloseWindow => {
            &&& t == s
            &&& r != Ok::<_, WorkspaceError>(false)
            &&& dispatch::command_result(
                a,
                b,
                ParsedCommand::CloseWindow,
                None,
                &tools.times,
                &tools.nudged,
                caches,
                reading::without_flag(r),
            )
        },
        RequestView::SetMark(c) => mark_carried(s, t, a, b, c, tools, caches, now, r),
        RequestView::JumpMark(c) => mark_jump_carried(s, t, a, b, c, tools, caches, now, r),
        RequestView::JumpBack => back_carried(s, t, a, b, tools, caches, now, r),
        RequestView::JumpForward => forward_carried(s, t, a, b, tools, caches, now, r),
        RequestView::Goto { page, x_off, y_off } => {
            &&& t == s
            &&& r != Ok::<_, WorkspaceError>(false)
            &&& reading::jumped_to(
                a,
                b,
                page,
                x_off,
                y_off,
                &tools.times,
                caches,
                reading::without_flag(r),
            )
        },
        RequestView::DeleteMark(c) => delete_carried(s, t, a, b, c, tools, caches, now, r),
        RequestView::Browse(_)
        | RequestView::OpenToc
        | RequestView::Execute(_)
        | RequestView::Search { .. } => r == Ok::<_, WorkspaceError>(false) && t == s && b == a,
    }
}

fn flagged(r: Result<(), WorkspaceError>) -> (f: Result<bool, WorkspaceError>)
    ensures
        reading::without_flag(f) == r,
        f != Ok::<_, WorkspaceError>(false),
{
    match r {
        Ok(u) => {
            assert(u == ());
            Ok(true)
        },
        Err(e) => Err(e),
    }
}

impl Session {
    /// Tell the outcome of a jump that may lead nowhere.
    pub(crate) fn tell_jump(
        &mut self,
        r: &Result<bool, WorkspaceError>,
        nowhere: String,
        prefix: &str,
        repaint: bool,
        now: u64,
    )
        ensures
            final(self)@ == jump_told(old(self)@, *r, nowhere@, prefix@, repaint, now),
    {
        match r {
            Ok(true) => {
                self.full_repaint = repaint || self.full_repaint;
            },
            Ok(false) => self.set_message(nowhere, now),
            Err(e) => self.set_message(prefixed(prefix, e), now),
        }
    }

    fn carry_op<
        D: PageMetrics,
        F: Fn(Real32, Real32) -> Real32,
        S: Fn(u16, Real32) -> u16,
        N: Fn(Real32, i32, u16) -> Real32,
        P: Fn(PageSize, Viewport, PdfRect) -> Option<(i32, i32)>,
    >(
        &mut self,
        ws: &mut Workspace<D>,
        op: WindowOp,
        tools: &Tools<F, S, N, P>,
        caches: CacheSettings,
        now: u64,
    ) -> (r: Result<bool, WorkspaceError>)
        requires
            old(self)@.valid(),
            old(ws).live(),
            old(ws).win_ids.upcoming < u32::MAX,
            old(ws).buf_ids.upcoming < u32::MAX,
            tools.ready(),
        ensures
            final(self)@.valid(),
            final(ws).inv(),
            op_carried(
                old(self)@,
                final(self)@,
                *old(ws),
                *final(ws),
                op,
                tools,
                caches,
                now,
                r,
            ),
    {
        let ghost a = *ws;
        let x = ws.apply_window_op(op, &tools.share, &tools.nudged);
        assert(dispatch::op_result(a, *ws, op, &tools.share, &tools.nudged, x));
        if let Err(e) = x {
            self.set_message(e.message(), now);
        }
        Ok(true)
    }

    fn carry_step<
        D: PageMetrics,
        F: Fn(Real32, Real32) -> Real32,
        S: Fn(u16, Real32) -> u16,
        N: Fn(Real32, i32, u16) -> Real32,
        P: Fn(PageSize, Viewport, PdfRect) -> Option<(i32, i32)>,
    >(
        &mut self,
        ws: &mut Workspace<D>,
        forward: bool,
        tools: &Tools<F, S, N, P>,
        caches: CacheSettings,
        now: u64,
    ) -> (r: Result<bool, WorkspaceError>)
        requires
            old(self)@.valid(),
            old(ws).live(),
            old(ws).win_ids.upcoming < u32::MAX,
            old(ws).buf_ids.upcoming < u32::MAX,
            tools.ready(),
        ensures
            final(self)@.valid(),
            final(ws).inv(),
            step_carried(
                old(self)@,
                final(self)@,
                *old(ws),
                *final(ws),
                forward,
                tools,
                caches,
                now,
                r,
            ),
    {
        let ghost a = *ws;
        if ws.is_searching() {
            let x = ws.step_search(forward, &tools.spot, &tools.times, caches);
            assert(searching::step_result(
                a,
                *ws,
                forward,
                &tools.spot,
                &tools.times,
                caches,
                x,
            ));
            self.stale_frames = true;
            match x {
                Ok(true) => {
                    let (current, total): (usize, usize) = ws.hit_counts();
                    self.set_message(hit_string(current, total), now);
                    Ok(true)
                },
                Ok(false) => {
                    self.set_message(owned("no matches"), now);
                    Ok(true)
                },
                Err(e) => Err(e),
            }
        } else if forward {
            flagged(ws.apply_nav(Action::ToggleNight, 1, &tools.times, caches))
        } else {
            Ok(true)
        }
    }

    fn carry_drop<
        D: PageMetrics,
        F: Fn(Real32, Real32) -> Real32,
        S: Fn(u16, Real32) -> u16,
        N: Fn(Real32, i32, u16) -> Real32,
        P: Fn(PageSize, Viewport, PdfRect) -> Option<(i32, i32)>,
    >(
        &mut self,
        ws: &mut Workspace<D>,
        tools: &Tools<F, S, N, P>,
        caches: CacheSettings,
        now: u64,
    ) -> (r: Result<bool, WorkspaceError>)
        requires
            old(self)@.valid(),
            old(ws).live(),
            old(ws).win_ids.upcoming < u32::MAX,
            old(ws).buf_ids.upcoming < u32::MAX,
            tools.ready(),
        ensures
            final(self)@.valid(),
            final(ws).inv(),
            drop_carried(
                old(self)@,
                final(self)@,
                *old(ws),
                *final(ws),
                tools,
                caches,
                now,
                r,
            ),
    {
        let ghost a = *ws;
        let cleared: bool = ws.drop_search();
        assert(searching::search_dropped(a, *ws, cleared));
        if cleared {
            self.stale_frames = true;
            self.set_message(owned("search cleared"), now);
        }
        Ok(true)
    }

    fn carry_mark<
        D: PageMetrics,
        F: Fn(Real32, Real32) -> Real32,
        S: Fn(u16, Real32) -> u16,
        N: Fn(Real32, i32, u16) -> Real32,
        P: Fn(PageSize, Viewport, PdfRect) -> Option<(i32, i32)>,
    >(
        &mut self,
        ws: &mut Workspace<D>,
        c: char,
        tools: &Tools<F, S, N, P>,
        caches: CacheSettings,
        now: u64,
    ) -> (r: Result<bool, WorkspaceError>)
        requires
            old(self)@.valid(),
            old(ws).live(),
            old(ws).win_ids.upcoming < u32::MAX,
            old(ws).buf_ids.upcoming < u32::MAX,
            tools.ready(),
        ensures
            final(self)@.valid(),
            final(ws).inv(),
            mark_carried(
                old(self)@,
                final(self)@,
                *old(ws),
                *final(ws),
                c,
                tools,
                caches,
                now,
                r,
            ),
    {
        let ghost a = *ws;
        let x = ws.set_bookmark(c);
        assert(reading::mark_set(a, *ws, c, x));
        match x {
            Ok(()) => self.set_message(about_mark("mark '", c, "' set"), now),
            Err(e) => self.set_message(prefixed("mark: ", &e), now),
        }
        Ok(true)
    }

    fn carry_mark_jump<
        D: PageMetrics,
        F: Fn(Real32, Real32) -> Real32,
        S: Fn(u16, Real32) -> u16,
        N: Fn(Real32, i32, u16) -> Real32,
        P: Fn(PageSize, Viewport, PdfRect) -> Option<(i32, i32)>,
    >(
        &mut self,
        ws: &mut Workspace<D>,
        c: char,
        tools: &Tools<F, S, N, P>,
        caches: CacheSettings,
        now: u64,
    ) -> (r: Result<bool, WorkspaceError>)
        requires
            old(self)@.valid(),
            old(ws).live(),
            old(ws).win_ids.upcoming < u32::MAX,
            old(ws).buf_ids.upcoming < u32::MAX,
            tools.ready(),
        ensures
            final(self)@.valid(),
            final(ws).inv(),
            mark_jump_carried(
                old(self)@,
                final(self)@,
                *old(ws),
                *final(ws),
                c,
                tools,
                caches,
                now,
                r,
            ),
    {
        let ghost a = *ws;
        let x = ws.jump_bookmark(c, &tools.times, caches);
        assert(reading::mark_reached(a, *ws, c, &tools.times, caches, x));
        self.tell_jump(&x, about_mark("mark '", c, "' not set"), "jump-mark: ", true, now);
        Ok(true)
    }

    fn carry_back<
        D: PageMetrics,
        F: Fn(Real32, Real32) -> Real32,
        S: Fn(u16, Real32) -> u16,
        N: Fn(Real32, i32, u16) -> Real32,
        P: Fn(PageSize, Viewport, PdfRect) -> Option<(i32, i32)>,
    >(
        &mut self,
        ws: &mut Workspace<D>,
        tools: &Tools<F, S, N, P>,
        caches: CacheSettings,
        now: u64,
    ) -> (r: Result<bool, WorkspaceError>)
        requires
            old(self)@.valid(),
            old(ws).live(),
            old(ws).win_ids.upcoming < u32::MAX,
            old(ws).buf_ids.upcoming < u32::MAX,
            tools.ready(),
        ensures
            final(self)@.valid(),
            final(ws).inv(),
            back_carried(
                old(self)@,
                final(self)@,
                *old(ws),
                *final(ws),
                tools,
                caches,
                now,
                r,
            ),
    {
        let ghost a = *ws;
        let x = ws.jump_back(&tools.times, caches);
        assert(reading::went_back(a, *ws, &tools.times, caches, x));
        self.tell_jump(&x, owned("jump list empty"), "back: ", true, now);
        Ok(true)
    }

    fn carry_forward<
        D: PageMetrics,
        F: Fn(Real32, Real32) -> Real32,
        S: Fn(u16, Real32) -> u16,
        N: Fn(Real32, i32, u16) -> Real32,
        P: Fn(PageSize, Viewport, PdfRect) -> Option<(i32, i32)>,
    >(
        &mut self,
        ws: &mut Workspace<D>,
        tools: &Tools<F, S, N, P>,
        caches: CacheSettings,
        now: u64,
    ) -> (r: Result<bool, WorkspaceError>)
        requires
            old(self)@.valid(),
            old(ws).live(),
            old(ws).win_ids.upcoming < u32::MAX,
            old(ws).buf_ids.upcoming < u32::MAX,
            tools.ready(),
        ensures
            final(self)@.valid(),
            final(ws).inv(),
            forward_carried(
                old(self)@,
                final(self)@,
                *old(ws),
                *final(ws),
                tools,
                caches,
                now,
                r,
            ),
    {
        let ghost a = *ws;
        let x = ws.jump_forward(&tools.times, caches);
        assert(reading::went_forward(a, *ws, &tools.times, caches, x));
        self.tell_jump(&x, owned("no forward jump"), "forward: ", true, now);
        Ok(true)
    }

    fn carry_delete<
        D: PageMetrics,
        F: Fn(Real32, Real32) -> Real32,
        S: Fn(u16, Real32) -> u16,
        N: Fn(Real32, i32, u16) -> Real32,
        P: Fn(PageSize, Viewport, PdfRect) -> Option<(i32, i32)>,
    >(
        &mut self,
        ws: &mut Workspace<D>,
        c: char,
        tools: &Tools<F, S, N, P>,
        caches: CacheSettings,
        now: u64,
    ) -> (r: Result<bool, WorkspaceError>)
        requires
            old(self)@.valid(),
            old(ws).live(),
            old(ws).win_ids.upcoming < u32::MAX,
            old(ws).buf_ids.upcoming < u32::MAX,
            tools.ready(),
        ensures
            final(self)@.valid(),
            final(ws).inv(),
            delete_carried(
                old(self)@,
                final(self)@,
                *old(ws),
                *final(ws),
                c,
                tools,
                caches,
                now,
                r,
            ),
    {
        let ghost a = *ws;
        let found: bool = ws.delete_bookmark(c);
        assert(reading::mark_deleted(a, *ws, c, found));
        if found {
            self.drop_mark();
        }
        Ok(true)
    }

    /// Carry out a request on the workspace. `Ok(false)` where the caller has
    /// to supply something first: a directory, a file, an outline, hits.
    pub fn carry_out<
        D: PageMetrics,
        F: Fn(Real32, Real32) -> Real32,
        S: Fn(u16, Real32) -> u16,
        N: Fn(Real32, i32, u16) -> Real32,
        P: Fn(PageSize, Viewport, PdfRect) -> Option<(i32, i32)>,
    >(
        &mut self,
        ws: &mut Workspace<D>,
        req: &Request,
        tools: &Tools<F, S, N, P>,
        caches: CacheSettings,
        now: u64,
    ) -> (r: Result<bool, WorkspaceError>)
        requires
            old(self)@.valid(),
            old(ws).live(),
            old(ws).win_ids.upcoming < u32::MAX,
            old(ws).buf_ids.upcoming < u32::MAX,
            tools.ready(),
        ensures
            final(self)@.valid(),
            final(ws).inv(),
            carried(
                old(self)@,
                final(self)@,
                *old(ws),
                *final(ws),
                req@,
                tools,
                caches,
                now,
                r,
            ),
    {
        match req {
            Request::Nothing => Ok(true),
            Request::Quit => {
                ws.quit_requested = true;
                Ok(true)
            },
            Request::Browse(Browse::Down) => {
                ws.explorer_move(1);
                Ok(true)
            },
            Request::Browse(Browse::Up) => {
                ws.explorer_move(-1);
                Ok(true)
            },
            Request::Browse(Browse::First) => {
                ws.explorer_first();
                Ok(true)
            },
            Request::Browse(Browse::Last) => {
                ws.explorer_last();
                Ok(true)
            },
            Request::Navigate { action, count } => flagged(
                ws.apply_nav(*action, *count, &tools.times, caches),
            ),
            Request::Window(op) => self.carry_op(ws, *op, tools, caches, now),
            Request::SearchStep { forward } => self.carry_step(ws, *forward, tools, caches, now),
            Request::DropSearch => self.carry_drop(ws, tools, caches, now),
            Request::CloseWindow => flagged(
                ws.apply_command(
                    ParsedCommand::CloseWindow,
                    None,
                    &tools.times,
                    &tools.nudged,
                    caches,
                ),
            ),
            Request::SetMark(c) => self.carry_mark(ws, *c, tools, caches, now),
            Request::JumpMark(c) => self.carry_mark_jump(ws, *c, tools, caches, now),
            Request::JumpBack => self.carry_back(ws, tools, caches, now),
            Request::JumpForward => self.carry_forward(ws, tools, caches, now),
            Request::Goto { page, x_off, y_off } => flagged(
                ws.jump_to_page(*page, *x_off, *y_off, &tools.times, caches),
            ),
            Request::DeleteMark(c) => self.carry_delete(ws, *c, tools, caches, now),
            Request::Browse(_)
            | Request::OpenToc
            | Request::Execute(_)
            | Request::Search { .. } => Ok(false),
        }
    }
}

} // verus!
