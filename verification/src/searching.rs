//! Searching in the focused window, and changes of how it shows its page.
use vstd::prelude::*;

use crate::browsing;
use crate::buffer::{self, Buffer, PdfBuffer};
use crate::document::{MatchRect, PageError, PageMetrics, PageSize, PdfRect};
use crate::navigator::Action;
use crate::number::{Real32, ONE};
use crate::opening;
use crate::pool::{self, Slot};
use crate::reading::{self, focused_buffer};
use crate::sixel_write::ColorMode;
use crate::viewport::{self, Rotation, Viewport, ZoomMode};
use crate::window::Window;
use crate::workspace::{CacheSettings, Workspace, WorkspaceError};

verus! {

// ------------------------------ Hits ------------------------------

/// Only the search of the focused document may differ.
pub open spec fn search_edited<D>(before: Workspace<D>, after: Workspace<D>) -> bool {
    let i = pool::slot_at(before.pool.slots@, before.focus_now().buffer)->0;
    &&& after.same_frame(before)
    &&& after.tabs == before.tabs
    &&& before.pool.slots@[i].buf matches Buffer::Pdf(p)
    &&& after.pool.slots@[i].buf matches Buffer::Pdf(q)
    &&& q.same_but_search(p)
    &&& q.search.valid()
    &&& after.pool.slots@ == before.pool.slots@.update(
        i,
        Slot { buf: Buffer::Pdf(q), ..before.pool.slots@[i] },
    )
}

/// The document that the focused window shows.
pub open spec fn focused_pdf<D>(ws: Workspace<D>) -> PdfBuffer<D> {
    focused_buffer(ws)->0->Pdf_0
}

/// The hit that has the focus.
pub open spec fn current_hit<D>(p: PdfBuffer<D>) -> Option<MatchRect> {
    match p.search.current {
        Some(i) => Some(p.search.matches@[i as int]),
        None => None,
    }
}

/// The hits of a query are the search of the focused document.
pub open spec fn found<D>(
    before: Workspace<D>,
    after: Workspace<D>,
    query: Seq<char>,
    hits: Seq<MatchRect>,
    forward: bool,
) -> bool {
    let p = focused_pdf(before);
    let q = focused_pdf(after);
    &&& search_edited(before, after)
    &&& focused_buffer(after) matches Some(Buffer::Pdf(_))
    &&& q.search.query@ == query
    &&& q.search.forward == forward
    &&& q.search.version == p.search.version.wrapping_add(1)
    &&& query.len() == 0 ==> q.search.matches@.len() == 0 && q.search.current is None
    &&& query.len() > 0 ==> q.search.matches@ == hits && buffer::lands_on(
        hits,
        before.focus_now().viewport.page_idx,
        forward,
        q.search.current,
    )
}

/// The next hit of the focused document has the focus.
pub open spec fn hit_stepped<D>(before: Workspace<D>, after: Workspace<D>, forward: bool) -> bool {
    let p = focused_pdf(before);
    let q = focused_pdf(after);
    let n = p.search.matches@.len() as int;
    &&& search_edited(before, after)
    &&& focused_buffer(after) matches Some(Buffer::Pdf(_))
    &&& q.search.query == p.search.query
    &&& q.search.matches == p.search.matches
    &&& q.search.forward == p.search.forward
    &&& q.search.version == p.search.version.wrapping_add(1)
    &&& q.search.current == Some(buffer::next_hit(p.search.current, n, forward) as usize)
}

/// An offset that brings `at` to a third of the screen, within the scroll
/// range.
pub open spec fn brought_near(at: i32, screen: u32, range: (int, int)) -> int {
    viewport::clamped(at - screen as int / 3, range.0, range.1)
}

fn bring_near(at: i32, screen: u32, range: (i32, i32)) -> (off: i32)
    ensures
        off == brought_near(at, screen, (range.0 as int, range.1 as int)),
{
    let target: i64 = at as i64 - (screen / 3) as i64;
    if target < range.0 as i64 {
        range.0
    } else if target > range.1 as i64 {
        range.1
    } else {
        target as i32
    }
}

/// The offsets of the focused window at which a hit is near. `spot` is where
/// a rectangle begins, in pixels of the page under the window's zoom and
/// rotation; `None` where the page is not drawn.
pub open spec fn hit_offsets<D: PageMetrics, P: Fn(PageSize, Viewport, PdfRect) -> Option<(i32, i32)>>(
    ws: Workspace<D>,
    m: MatchRect,
    spot: &P,
    r: Result<(i32, i32), PageError>,
) -> bool {
    let v = ws.focus_now().viewport;
    match focused_buffer(ws) {
        Some(Buffer::Pdf(p)) => match p.pdf.native(m.page_idx as nat) {
            Err(e) => r == Err::<(i32, i32), _>(e),
            Ok(size) => exists|at: Option<(i32, i32)>|
                {
                    &&& #[trigger] call_ensures(spot, (size, v, m.rect), at)
                    &&& match at {
                        None => r == Ok::<(i32, i32), PageError>((0i32, 0i32)),
                        Some(xy) => match p.pdf.composed(m.page_idx as nat, v.spec_look()) {
                            Err(e) => r == Err::<(i32, i32), _>(e),
                            Ok(extent) => r matches Ok(off) && {
                                &&& off.0 == brought_near(xy.0, v.screen_w, v.x_bounds(extent.0))
                                &&& off.1 == brought_near(xy.1, v.screen_h, v.y_bounds(extent.1))
                            },
                        },
                    }
                },
        },
        _ => r == Ok::<(i32, i32), PageError>((0i32, 0i32)),
    }
}

/// The focused window goes to a hit.
pub open spec fn went_to_hit<
    D: PageMetrics,
    P: Fn(PageSize, Viewport, PdfRect) -> Option<(i32, i32)>,
    F: Fn(Real32, Real32) -> Real32,
>(
    before: Workspace<D>,
    after: Workspace<D>,
    m: MatchRect,
    spot: &P,
    times: &F,
    caches: CacheSettings,
    r: Result<(), WorkspaceError>,
) -> bool {
    exists|o: Result<(i32, i32), PageError>|
        {
            &&& #[trigger] hit_offsets(before, m, spot, o)
            &&& match o {
                Ok(off) => reading::jumped_to(
                    before,
                    after,
                    m.page_idx,
                    off.0,
                    off.1,
                    times,
                    caches,
                    r,
                ),
                Err(e) => r == Err::<(), _>(WorkspaceError::Page(e)) && after == before,
            }
        }
}

/// What a search comes to: the hits are kept, and the window goes to the
/// first one.
pub open spec fn search_result<
    D: PageMetrics,
    P: Fn(PageSize, Viewport, PdfRect) -> Option<(i32, i32)>,
    F: Fn(Real32, Real32) -> Real32,
>(
    before: Workspace<D>,
    after: Workspace<D>,
    query: Seq<char>,
    hits: Seq<MatchRect>,
    forward: bool,
    spot: &P,
    times: &F,
    caches: CacheSettings,
    r: Result<(), WorkspaceError>,
) -> bool {
    match focused_buffer(before) {
        Some(Buffer::Pdf(_)) => exists|mid: Workspace<D>|
            {
                &&& #[trigger] found(before, mid, query, hits, forward)
                &&& match current_hit(focused_pdf(mid)) {
                    Some(m) => went_to_hit(mid, after, m, spot, times, caches, r),
                    None => r is Ok && browsing::focus_dirtied(mid, after) && after.pool.slots@
                        == mid.pool.slots@,
                }
            },
        _ => r is Ok && after == before,
    }
}

/// What a step to another hit comes to; `Ok(false)` where there is none.
pub open spec fn step_result<
    D: PageMetrics,
    P: Fn(PageSize, Viewport, PdfRect) -> Option<(i32, i32)>,
    F: Fn(Real32, Real32) -> Real32,
>(
    before: Workspace<D>,
    after: Workspace<D>,
    forward: bool,
    spot: &P,
    times: &F,
    caches: CacheSettings,
    r: Result<bool, WorkspaceError>,
) -> bool {
    match focused_buffer(before) {
        Some(Buffer::Pdf(p)) => if p.search.matches@.len() == 0 {
            r == Ok::<_, WorkspaceError>(false) && reading::unmoved(before, after)
        } else {
            &&& r != Ok::<_, WorkspaceError>(false)
            &&& exists|mid: Workspace<D>|
                {
                    &&& #[trigger] hit_stepped(before, mid, forward)
                    &&& went_to_hit(
                        mid,
                        after,
                        current_hit(focused_pdf(mid))->0,
                        spot,
                        times,
                        caches,
                        reading::without_flag(r),
                    )
                }
        },
        _ => r == Ok::<_, WorkspaceError>(false) && after == before,
    }
}

/// What forgetting the search comes to.
pub open spec fn search_dropped<D>(
    before: Workspace<D>,
    after: Workspace<D>,
    cleared: bool,
) -> bool {
    match focused_buffer(before) {
        Some(Buffer::Pdf(p)) => {
            &&& cleared == (p.search.query@.len() > 0)
            &&& if cleared {
                exists|mid: Workspace<D>|
                    {
                        &&& #[trigger] search_edited(before, mid)
                        &&& focused_buffer(mid) matches Some(Buffer::Pdf(q))
                        &&& q.search.idle()
                        &&& q.search.version == p.search.version.wrapping_add(1)
                        &&& q.search.forward == p.search.forward
                        &&& browsing::focus_dirtied(mid, after)
                        &&& after.pool.slots@ == mid.pool.slots@
                    }
            } else {
                reading::unmoved(before, after)
            }
        },
        _ => !cleared && after == before,
    }
}

proof fn lemma_search_edited<D>(before: Workspace<D>, after: Workspace<D>)
    requires
        before.live(),
        focused_buffer(before) matches Some(Buffer::Pdf(_)),
        search_edited(before, after),
    ensures
        after.live(),
        after.focus_now() == before.focus_now(),
        focused_buffer(after) matches Some(Buffer::Pdf(q)) && q == after.pool.slots@[pool::slot_at(
            before.pool.slots@,
            before.focus_now().buffer,
        )->0].buf->Pdf_0,
{
    let id = before.focus_now().buffer;
    let i = pool::slot_at(before.pool.slots@, id)->0;
    reading::lemma_held(before, id);
    reading::lemma_edited_inv(before, after, i);
}

impl<D: PageMetrics> Workspace<D> {
    /// The offsets of the focused window at which a hit is near.
    fn match_to_offsets<P: Fn(PageSize, Viewport, PdfRect) -> Option<(i32, i32)>>(
        &self,
        m: &MatchRect,
        spot: &P,
    ) -> (r: Result<(i32, i32), PageError>)
        requires
            self.live(),
            forall|s: PageSize, v: Viewport, b: PdfRect| call_requires(spot, (s, v, b)),
        ensures
            hit_offsets(*self, *m, spot, r),
    {
        let here: Window = self.focused_window();
        match self.buffer_pdf(here.buffer) {
            None => Ok((0, 0)),
            Some(p) => match p.pdf.page_size(m.page_idx) {
                Err(e) => Err(e),
                Ok(size) => {
                    let at: Option<(i32, i32)> = spot(size, here.viewport, m.rect);
                    assert(call_ensures(spot, (size, here.viewport, m.rect), at));
                    match at {
                        None => Ok((0, 0)),
                        Some(xy) => match p.pdf.composed_page_size(
                            m.page_idx,
                            here.viewport.look(),
                        ) {
                            Err(e) => Err(e),
                            Ok(extent) => {
                                let xs: (i32, i32) = here.viewport.x_range(extent.0);
                                let ys: (i32, i32) = here.viewport.y_range(extent.1);
                                Ok(
                                    (
                                        bring_near(xy.0, here.viewport.screen_w, xs),
                                        bring_near(xy.1, here.viewport.screen_h, ys),
                                    ),
                                )
                            },
                        },
                    }
                },
            },
        }
    }

    fn go_to_hit<
        P: Fn(PageSize, Viewport, PdfRect) -> Option<(i32, i32)>,
        F: Fn(Real32, Real32) -> Real32,
    >(&mut self, m: MatchRect, spot: &P, times: &F, caches: CacheSettings) -> (r: Result<
        (),
        WorkspaceError,
    >)
        requires
            old(self).live(),
            forall|s: PageSize, v: Viewport, b: PdfRect| call_requires(spot, (s, v, b)),
            forall|a: Real32, b: Real32| call_requires(times, (a, b)),
        ensures
            final(self).live(),
            went_to_hit(*old(self), *final(self), m, spot, times, caches, r),
    {
        let o = self.match_to_offsets(&m, spot);
        assert(hit_offsets(*self, m, spot, o));
        match o {
            Ok(off) => self.jump_to_page(m.page_idx, off.0, off.1, times, caches),
            Err(e) => Err(WorkspaceError::Page(e)),
        }
    }

    /// Search the focused document and go to the first hit. `hits` are the
    /// hits of `query` on all pages, in page order.
    pub fn run_search<
        P: Fn(PageSize, Viewport, PdfRect) -> Option<(i32, i32)>,
        F: Fn(Real32, Real32) -> Real32,
    >(
        &mut self,
        query: String,
        hits: Vec<MatchRect>,
        forward: bool,
        spot: &P,
        times: &F,
        caches: CacheSettings,
    ) -> (r: Result<(), WorkspaceError>)
        requires
            old(self).live(),
            forall|s: PageSize, v: Viewport, b: PdfRect| call_requires(spot, (s, v, b)),
            forall|a: Real32, b: Real32| call_requires(times, (a, b)),
        ensures
            final(self).live(),
            search_result(
                *old(self),
                *final(self),
                query@,
                hits@,
                forward,
                spot,
                times,
                caches,
                r,
            ),
    {
        let ghost before = *self;
        let here: Window = self.focused_window();
        proof {
            reading::lemma_held(before, here.buffer);
        }
        let i: usize = match self.pool.find(here.buffer) {
            None => {
                return Ok(());
            },
            Some(i) => i,
        };
        if self.pool.slots[i].buf.is_explorer() {
            return Ok(());
        }
        let mut target: Option<MatchRect> = None;
        if let Buffer::Pdf(p) = &mut self.pool.slots[i].buf {
            p.run_search(query, hits, here.viewport.page_idx, forward);
            if let Some(k) = p.search.current {
                target = Some(p.search.matches[k]);
            }
        }
        proof {
            assert(self.pool.slots@ =~= before.pool.slots@.update(
                i as int,
                self.pool.slots@[i as int],
            ));
            assert(search_edited(before, *self));
            lemma_search_edited(before, *self);
            assert(found(before, *self, query@, hits@, forward));
        }
        match target {
            Some(m) => self.go_to_hit(m, spot, times, caches),
            None => {
                self.dirty_focus();
                Ok(())
            },
        }
    }

    /// Go to the next or the previous hit. `false` where there is none.
    pub fn step_search<
        P: Fn(PageSize, Viewport, PdfRect) -> Option<(i32, i32)>,
        F: Fn(Real32, Real32) -> Real32,
    >(&mut self, forward: bool, spot: &P, times: &F, caches: CacheSettings) -> (r: Result<
        bool,
        WorkspaceError,
    >)
        requires
            old(self).live(),
            forall|s: PageSize, v: Viewport, b: PdfRect| call_requires(spot, (s, v, b)),
            forall|a: Real32, b: Real32| call_requires(times, (a, b)),
        ensures
            final(self).live(),
            step_result(*old(self), *final(self), forward, spot, times, caches, r),
    {
        let ghost before = *self;
        let here: Window = self.focused_window();
        proof {
            reading::lemma_held(before, here.buffer);
        }
        let i: usize = match self.pool.find(here.buffer) {
            None => {
                return Ok(false);
            },
            Some(i) => i,
        };
        if self.pool.slots[i].buf.is_explorer() {
            return Ok(false);
        }
        let mut target: Option<MatchRect> = None;
        let mut total: usize = 0;
        if let Buffer::Pdf(p) = &mut self.pool.slots[i].buf {
            total = p.search.matches.len();
            target = p.step_search(forward);
        }
        proof {
            assert(self.pool.slots@ =~= before.pool.slots@.update(
                i as int,
                self.pool.slots@[i as int],
            ));
            assert(search_edited(before, *self));
            lemma_search_edited(before, *self);
        }
        match target {
            None => {
                assert(self.pool.slots@ =~= before.pool.slots@);
                Ok(false)
            },
            Some(m) => {
                let ghost mid = *self;
                assert(hit_stepped(before, mid, forward));
                proof {
                    let p = focused_pdf(before);
                    assert(p.search.matches@.len() == total);
                    assert(0 <= buffer::next_hit(p.search.current, total as int, forward) < total);
                    assert(current_hit(focused_pdf(mid)) == Some(m));
                }
                match self.go_to_hit(m, spot, times, caches) {
                    Ok(()) => Ok(true),
                    Err(e) => Err(e),
                }
            },
        }
    }

    /// Which hit has the focus, counted from one, and how many there are.
    pub fn hit_counts(&self) -> (r: (usize, usize))
        requires
            self.live(),
        ensures
            match focused_buffer(*self) {
                Some(Buffer::Pdf(p)) => {
                    &&& r.0 == (match p.search.current {
                        Some(i) => i + 1,
                        None => 0,
                    })
                    &&& r.1 == p.search.matches@.len()
                },
                _ => r == (0usize, 0usize),
            },
    {
        let here: Window = self.focused_window();
        proof {
            reading::lemma_held(*self, here.buffer);
        }
        match self.buffer_pdf(here.buffer) {
            Some(p) => {
                let n: usize = p.search.matches.len();
                (
                    match p.search.current {
                        Some(i) => i + 1,
                        None => 0,
                    },
                    n,
                )
            },
            None => (0, 0),
        }
    }

    /// Whether the focused document is searched.
    pub fn is_searching(&self) -> (b: bool)
        requires
            self.live(),
        ensures
            b == (focused_buffer(*self) matches Some(Buffer::Pdf(p)) && p.search.active()),
    {
        match self.buffer_pdf(self.focused_window().buffer) {
            Some(p) => p.search.is_active(),
            None => false,
        }
    }

    /// Forget the search of the focused document; whether there was one.
    pub fn drop_search(&mut self) -> (cleared: bool)
        requires
            old(self).live(),
        ensures
            final(self).live(),
            search_dropped(*old(self), *final(self), cleared),
    {
        let ghost before = *self;
        let here: Window = self.focused_window();
        proof {
            reading::lemma_held(before, here.buffer);
        }
        let i: usize = match self.pool.find(here.buffer) {
            None => {
                return false;
            },
            Some(i) => i,
        };
        if self.pool.slots[i].buf.is_explorer() {
            return false;
        }
        let mut cleared: bool = false;
        if let Buffer::Pdf(p) = &mut self.pool.slots[i].buf {
            cleared = p.clear_search();
        }
        proof {
            assert(self.pool.slots@ =~= before.pool.slots@.update(
                i as int,
                self.pool.slots@[i as int],
            ));
            assert(search_edited(before, *self));
            lemma_search_edited(before, *self);
        }
        if cleared {
            self.dirty_focus();
        } else {
            assert(self.pool.slots@ =~= before.pool.slots@);
        }
        cleared
    }
}

// ------------------------------ The view ------------------------------

/// The focused window with the usual resolution and quality.
pub open spec fn plain_view(w: Window) -> Window {
    Window {
        viewport: Viewport {
            render_dpi: None,
            render_quality: Real32 { bits: ONE },
            ..w.viewport
        },
        dirty: true,
        ..w
    }
}

/// Only the focused window differs; it is `w`.
pub open spec fn focus_set<D>(before: Workspace<D>, after: Workspace<D>, w: Window) -> bool {
    &&& after.same_but_tabs(before)
    &&& after.tabs@ == opening::with_focus(before, w)
}

/// What beginning with a page, counted from one, comes to.
pub open spec fn started_on<D: PageMetrics>(
    before: Workspace<D>,
    after: Workspace<D>,
    page: usize,
) -> bool {
    match focused_buffer(before) {
        Some(Buffer::Pdf(p)) => if p.pdf.pages() == 0 {
            after == before
        } else {
            focus_set(
                before,
                after,
                Window {
                    viewport: Viewport {
                        page_idx: viewport::clamped(page - 1, 0, p.pdf.pages() - 1) as usize,
                        ..before.focus_now().viewport
                    },
                    ..before.focus_now()
                },
            )
        },
        _ => after == before,
    }
}

/// What going back to the usual view comes to: resolution and quality, then
/// rotation, then zoom.
pub open spec fn reset_result<D: PageMetrics, F: Fn(Real32, Real32) -> Real32>(
    before: Workspace<D>,
    after: Workspace<D>,
    times: &F,
    caches: CacheSettings,
    r: Result<(), WorkspaceError>,
) -> bool {
    exists|a: Workspace<D>, b: Workspace<D>, turned: Result<(), WorkspaceError>|
        {
            &&& #[trigger] focus_set(before, a, plain_view(before.focus_now()))
            &&& #[trigger] reading::nav_result(
                a,
                b,
                Action::SetRotation(Rotation::R0),
                1,
                times,
                caches,
                turned,
            )
            &&& match turned {
                Ok(_) => reading::nav_result(
                    b,
                    after,
                    Action::SetZoom(ZoomMode::FitWidth),
                    1,
                    times,
                    caches,
                    r,
                ),
                Err(_) => r == turned && after == b,
            }
        }
}

impl<D: PageMetrics> Workspace<D> {
    /// The usual resolution, quality, rotation and zoom in the focused window.
    pub fn reset_view<F: Fn(Real32, Real32) -> Real32>(
        &mut self,
        times: &F,
        caches: CacheSettings,
    ) -> (r: Result<(), WorkspaceError>)
        requires
            old(self).live(),
            forall|a: Real32, b: Real32| call_requires(times, (a, b)),
        ensures
            final(self).live(),
            reset_result(*old(self), *final(self), times, caches, r),
    {
        let ghost before = *self;
        let mut w: Window = self.focused_window();
        w.viewport.render_dpi = None;
        w.viewport.render_quality = Real32 { bits: ONE };
        w.dirty = true;
        self.edit_focus(w);
        let ghost a = *self;
        assert(focus_set(before, a, plain_view(before.focus_now())));
        let turned = self.apply_nav(Action::SetRotation(Rotation::R0), 1, times, caches);
        let ghost b = *self;
        assert(reading::nav_result(
            a,
            b,
            Action::SetRotation(Rotation::R0),
            1,
            times,
            caches,
            turned,
        ));
        match turned {
            Ok(_) => self.apply_nav(Action::SetZoom(ZoomMode::FitWidth), 1, times, caches),
            Err(e) => Err(e),
        }
    }

    /// Pick the sixel palette of the focused window.
    pub fn set_colors(&mut self, mode: ColorMode)
        requires
            old(self).live(),
        ensures
            final(self).live(),
            focus_set(
                *old(self),
                *final(self),
                Window { color_mode: mode, dirty: true, ..old(self).focus_now() },
            ),
    {
        let mut w: Window = self.focused_window();
        w.color_mode = mode;
        w.dirty = true;
        self.edit_focus(w);
    }

    /// Begin with a page, counted from one, where the focused window shows a
    /// document.
    pub fn start_on(&mut self, page: usize)
        requires
            old(self).live(),
        ensures
            final(self).live(),
            started_on(*old(self), *final(self), page),
    {
        let mut w: Window = self.focused_window();
        let n: usize = match self.buffer_pdf(w.buffer) {
            Some(p) => p.pdf.page_count(),
            None => 0,
        };
        if n > 0 {
            let idx: usize = if page == 0 {
                0
            } else {
                page - 1
            };
            w.viewport.page_idx = if idx < n {
                idx
            } else {
                n - 1
            };
            self.edit_focus(w);
        }
    }
}

} // verus!
