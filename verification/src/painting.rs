//! When and how windows are painted, and what is rendered ahead.
use vstd::prelude::*;

use crate::buffer::{Buffer, BufferId};
use crate::cache::{CacheKey, RenderCache};
use crate::document::{PageError, PageMetrics, PageSize};
use crate::number::Real32;
use crate::pool;
use crate::reading::focused_buffer;
use crate::renderer::{self, Highlights, Scales};
use crate::screen::{self, rows_covered};
use crate::session::{Mode, ModeView, Session, SessionView};
use crate::terminal::TermGeom;
use crate::timings::FrameTiming;
use crate::viewport::Viewport;
use crate::window::{self, CellRect, Window, WindowId};
use crate::workspace::{self, Tab, Workspace};

verus! {

// ------------------------------ Windows to paint ------------------------------

/// How a window is painted.
#[derive(Debug, Clone, Copy, PartialEq, Eq, Structural)]
pub struct PaintJob {
    pub window: WindowId,
    pub rect: CellRect,
    /// The window shows a directory.
    pub directory: bool,
    /// The rectangle that it leaves, which is to be blanked.
    pub leaves: Option<CellRect>,
}

/// The window shows something else than what is on screen.
pub open spec fn outdated(w: Window, rect: CellRect) -> bool {
    w.dirty || w.last_rect != Some(rect)
}

/// How a window of the current tab is painted in a rectangle; `None` where
/// what is on screen will do.
pub open spec fn job_for<D>(ws: Workspace<D>, id: WindowId, rect: CellRect) -> Option<PaintJob> {
    match window::position(ws.tab_now().tree.leaves(), id) {
        Some(k) => {
            let w = ws.tab_now().tree.leaves()[k];
            if outdated(w, rect) {
                Some(
                    PaintJob {
                        window: id,
                        rect,
                        directory: pool::slot_at(ws.pool.slots@, w.buffer) matches Some(i)
                            && ws.pool.slots@[i].buf is Explorer,
                        leaves: if w.last_rect == Some(rect) {
                            None
                        } else {
                            w.last_rect
                        },
                    },
                )
            } else {
                None
            }
        },
        None => None,
    }
}

impl<D> Workspace<D> {
    /// How a window is painted in a rectangle; `None` where what is on screen
    /// will do.
    pub fn paint_job(&self, id: WindowId, rect: CellRect) -> (r: Option<PaintJob>)
        requires
            self.live(),
        ensures
            r == job_for(*self, id, rect),
    {
        match self.current_tab().tree.find(id) {
            None => None,
            Some(w) => {
                let moved: bool = match w.last_rect {
                    Some(prev) => prev != rect,
                    None => true,
                };
                if !w.dirty && !moved {
                    return None;
                }
                let directory: bool = match self.buffer(w.buffer) {
                    Some(b) => b.is_explorer(),
                    None => false,
                };
                let leaves: Option<CellRect> = if moved {
                    w.last_rect
                } else {
                    None
                };
                Some(PaintJob { window: id, rect, directory, leaves })
            },
        }
    }

    /// Change a window of the current tab in what does not matter to the pool.
    fn edit_window(&mut self, w: Window)
        requires
            old(self).live(),
            window::position(old(self).tab_now().tree.leaves(), w.id) matches Some(k) ==> {
                let was = old(self).tab_now().tree.leaves()[k];
                w.buffer == was.buffer && w.alternate == was.alternate
            },
        ensures
            final(self).live(),
            window_set(*old(self), *final(self), w),
    {
        let ghost before = *self;
        let cur: usize = self.current_tab;
        proof {
            window::lemma_position(before.tab_now().tree.leaves(), w.id);
            assert(workspace::tab_ok(
                before.tabs@[cur as int],
                before.win_ids.upcoming,
                before.buf_ids.upcoming,
            ));
        }
        let mut found: bool = false;
        if let Some(place) = self.tabs[cur].tree.find_mut(w.id) {
            *place = w;
            found = true;
        }
        proof {
            match window::position(before.tab_now().tree.leaves(), w.id) {
                Some(k) => {
                    let t = Tab {
                        tree: before.tab_now().tree.with_leaf(k, w),
                        focused: before.tab_now().focused,
                    };
                    assert(self.tabs@ =~= before.tabs@.update(cur as int, t));
                    before.tab_now().tree.lemma_with_leaf(k, w);
                    workspace::lemma_tab_same(
                        before.tab_now(),
                        t,
                        before.win_ids.upcoming,
                        before.buf_ids.upcoming,
                    );
                    workspace::lemma_inv_same_tab(before, *self, t);
                },
                None => {
                    assert(self.tabs@ =~= before.tabs@);
                    workspace::lemma_inv_same_tab(before, *self, before.tab_now());
                },
            }
        }
    }
}

/// Only that window of the current tab differs; it is `w`.
pub open spec fn window_set<D>(before: Workspace<D>, after: Workspace<D>, w: Window) -> bool {
    &&& after.same_but_tabs(before)
    &&& after.tabs@ == (match window::position(before.tab_now().tree.leaves(), w.id) {
        Some(k) => before.tabs@.update(
            before.current_tab as int,
            Tab {
                tree: before.tab_now().tree.with_leaf(k, w),
                focused: before.tab_now().focused,
            },
        ),
        None => before.tabs@,
    })
}

/// A page that was painted.
#[derive(Debug, Clone, Copy)]
pub struct Painted {
    pub timing: FrameTiming,
    /// Dots per inch of what is shown.
    pub dpi: Real32,
    /// Height of the frame in pixels.
    pub pixel_height: u32,
    /// Height of a cell in pixels.
    pub cell_px_h: u16,
}

/// A window with a frame on screen.
pub open spec fn with_frame(w: Window, rect: CellRect, p: Painted) -> Window {
    Window {
        last_timing: Some(p.timing),
        last_dpi: p.dpi,
        last_sixel_rows: (((p.pixel_height + p.cell_px_h - 1) / p.cell_px_h as int)
            % 0x1_0000) as u16,
        last_rect: Some(rect),
        dirty: false,
        ..w
    }
}

/// A window with a directory on screen.
pub open spec fn with_list(w: Window, rect: CellRect) -> Window {
    Window { last_rect: Some(rect), dirty: false, ..w }
}

/// The window of that id in the current tab.
pub open spec fn window_now<D>(ws: Workspace<D>, id: WindowId) -> Option<Window> {
    match window::position(ws.tab_now().tree.leaves(), id) {
        Some(k) => Some(ws.tab_now().tree.leaves()[k]),
        None => None,
    }
}

impl<D> Workspace<D> {
    /// Note that a page was painted.
    pub fn note_painted(&mut self, id: WindowId, rect: CellRect, p: Painted)
        requires
            old(self).live(),
            p.cell_px_h > 0,
        ensures
            final(self).live(),
            match window_now(*old(self), id) {
                Some(w) => window_set(*old(self), *final(self), with_frame(w, rect, p)),
                None => *final(self) == *old(self),
            },
    {
        let found: Option<Window> = match self.current_tab().tree.find(id) {
            Some(w) => Some(*w),
            None => None,
        };
        proof {
            window::lemma_position(self.tab_now().tree.leaves(), id);
        }
        if let Some(was) = found {
            let mut w: Window = was;
            w.last_timing = Some(p.timing);
            w.last_dpi = p.dpi;
            w.last_sixel_rows = rows_covered(p.pixel_height, p.cell_px_h);
            w.last_rect = Some(rect);
            w.dirty = false;
            self.edit_window(w);
        }
    }

    /// Note that a directory was painted.
    pub fn note_listed(&mut self, id: WindowId, rect: CellRect)
        requires
            old(self).live(),
        ensures
            final(self).live(),
            match window_now(*old(self), id) {
                Some(w) => window_set(*old(self), *final(self), with_list(w, rect)),
                None => *final(self) == *old(self),
            },
    {
        let found: Option<Window> = match self.current_tab().tree.find(id) {
            Some(w) => Some(*w),
            None => None,
        };
        proof {
            window::lemma_position(self.tab_now().tree.leaves(), id);
        }
        if let Some(was) = found {
            let mut w: Window = was;
            w.last_rect = Some(rect);
            w.dirty = false;
            self.edit_window(w);
        }
    }

    /// Note that the screen was cleared.
    pub fn note_cleared(&mut self)
        requires
            old(self).live(),
        ensures
            final(self).live(),
            final(self).same_but_tabs(*old(self)),
            final(self).tabs@ == old(self).tabs@.update(
                old(self).current_tab as int,
                Tab {
                    tree: old(self).tab_now().tree.wiped(),
                    focused: old(self).tab_now().focused,
                },
            ),
    {
        let ghost before = *self;
        let cur: usize = self.current_tab;
        self.tabs[cur].tree.wipe();
        proof {
            let t = Tab {
                tree: before.tab_now().tree.wiped(),
                focused: before.tab_now().focused,
            };
            assert(workspace::tab_ok(
                before.tabs@[cur as int],
                before.win_ids.upcoming,
                before.buf_ids.upcoming,
            ));
            before.tab_now().tree.lemma_wiped();
            workspace::lemma_tab_same(
                before.tab_now(),
                t,
                before.win_ids.upcoming,
                before.buf_ids.upcoming,
            );
            workspace::lemma_inv_same_tab(before, *self, t);
        }
    }
}

/// A window that was painted in a rectangle is not painted there again.
pub proof fn lemma_painted_once<D>(
    before: Workspace<D>,
    after: Workspace<D>,
    id: WindowId,
    rect: CellRect,
    p: Painted,
)
    requires
        before.live(),
        window_now(before, id) matches Some(w) && window_set(
            before,
            after,
            with_frame(w, rect, p),
        ),
    ensures
        job_for(after, id, rect) is None,
{
    let leaves = before.tab_now().tree.leaves();
    let w = window_now(before, id)->0;
    let now = with_frame(w, rect, p);
    window::lemma_position(leaves, id);
    let k = window::position(leaves, id)->0;
    before.tab_now().tree.lemma_with_leaf(k, now);
    assert(after.tab_now().tree.leaves() == leaves.update(k, now));
    window::lemma_position(leaves.update(k, now), id);
    assert(leaves.update(k, now)[k].id == id);
    assert forall|j: int| 0 <= j < k implies (#[trigger] leaves.update(k, now)[j]).id != id by {
        assert(leaves.update(k, now)[j] == leaves[j]);
    }
}

/// After the screen was cleared every window is painted.
pub proof fn lemma_cleared_paints_all<D>(
    before: Workspace<D>,
    after: Workspace<D>,
    id: WindowId,
    rect: CellRect,
)
    requires
        before.live(),
        window_now(before, id) is Some,
        after.current_tab == before.current_tab,
        after.tabs@ == before.tabs@.update(
            before.current_tab as int,
            Tab { tree: before.tab_now().tree.wiped(), focused: before.tab_now().focused },
        ),
    ensures
        job_for(after, id, rect) is Some,
{
    let leaves = before.tab_now().tree.leaves();
    let now = after.tab_now().tree.leaves();
    before.tab_now().tree.lemma_wiped();
    window::lemma_position(leaves, id);
    window::lemma_position(now, id);
    let k = window::position(leaves, id)->0;
    assert(now[k].id == leaves[k].id);
}

/// The hits to mark on the page that a window shows: none where it is not
/// searched.
pub open spec fn marks_for<D: PageMetrics>(
    ws: Workspace<D>,
    w: Window,
    r: Result<Option<Highlights>, PageError>,
) -> bool {
    match pool::slot_at(ws.pool.slots@, w.buffer) {
        Some(i) => match ws.pool.slots@[i].buf {
            Buffer::Pdf(p) => match p.pdf.native(w.viewport.page_idx as nat) {
                Err(e) => r == Err::<Option<Highlights>, _>(e),
                Ok(size) => if p.search.active() {
                    r matches Ok(Some(h)) && {
                        &&& h.page_size == Some(size)
                        &&& h.rects@ == renderer::rects_on(
                            p.search.matches@,
                            w.viewport.page_idx,
                        )
                        &&& h.current == renderer::place_on(
                            p.search.matches@,
                            w.viewport.page_idx,
                            p.search.current,
                        )
                    }
                } else {
                    r matches Ok(None)
                },
            },
            Buffer::Explorer(_) => r matches Ok(None),
        },
        None => r matches Ok(None),
    }
}

impl<D: PageMetrics> Workspace<D> {
    /// The hits to mark on the page that a window shows.
    pub fn page_marks(&self, w: &Window) -> (r: Result<Option<Highlights>, PageError>)
        ensures
            marks_for(*self, *w, r),
    {
        match self.buffer_pdf(w.buffer) {
            None => Ok(None),
            Some(p) => match p.pdf.page_size(w.viewport.page_idx) {
                Err(e) => Err(e),
                Ok(size) => if p.search.is_active() {
                    Ok(
                        Some(
                            Highlights::from_matches(
                                &p.search.matches,
                                w.viewport.page_idx,
                                size,
                                p.search.current,
                            ),
                        ),
                    )
                } else {
                    Ok(None)
                },
            },
        }
    }
}

// ------------------------------ Routes ------------------------------

/// How a frame comes about.
#[derive(Debug, Clone, Copy, PartialEq, Eq, Structural)]
pub enum Route {
    /// Not now: input is waiting, and the frame would take long.
    Postpone,
    /// Through the frame cache.
    Cached,
    /// Past the frame cache, since hits are marked on the page.
    Fresh,
}

/// How a frame comes about. `marked` says that hits are marked on the page,
/// `cached` that the frame cache has the frame, and `waiting` that input waits.
pub fn route(marked: bool, cached: bool, waiting: bool) -> (r: Route)
    ensures
        (r == Route::Postpone) == (waiting && (marked || !cached)),
        (r == Route::Fresh) == (marked && !waiting),
{
    if (marked || !cached) && waiting {
        Route::Postpone
    } else if marked {
        Route::Fresh
    } else {
        Route::Cached
    }
}

/// The larger of `a - b` and nothing.
pub open spec fn at_least_zero(n: int) -> int {
    if n < 0 {
        0
    } else {
        n
    }
}

/// Time spent on rendering: what composing and encoding do not account for.
/// Nothing where the page was cached, or where the frame cache had the frame.
pub fn render_time(route: Route, hot: bool, total: u64, compose: u64, encode: u64) -> (t: u64)
    ensures
        t == (if hot || (route == Route::Cached && compose == 0) {
            0
        } else {
            at_least_zero(total - (compose + encode))
        }),
{
    if hot || (route == Route::Cached && compose == 0) {
        0
    } else {
        let spent: u128 = compose as u128 + encode as u128;
        if spent > total as u128 {
            0
        } else {
            total - spent as u64
        }
    }
}

/// The time of a frame by stages; what the stages do not account for is left
/// over.
pub fn frame_timing(total: u64, render: u64, compose: u64, encode: u64, write: u64) -> (t:
    FrameTiming)
    ensures
        t == (FrameTiming {
            render,
            compose,
            encode,
            write,
            other: at_least_zero(total - (render + compose + encode + write)) as u64,
        }),
{
    let spent: u128 = render as u128 + compose as u128 + encode as u128 + write as u128;
    let other: u64 = if spent > total as u128 {
        0
    } else {
        total - spent as u64
    };
    FrameTiming { render, compose, encode, write, other }
}

/// The stages of a frame add up to its time, where they do not exceed it.
pub proof fn lemma_stages_add_up(total: u64, render: u64, compose: u64, encode: u64, write: u64)
    requires
        render + compose + encode + write <= total,
    ensures
        (FrameTiming {
            render,
            compose,
            encode,
            write,
            other: at_least_zero(total - (render + compose + encode + write)) as u64,
        }).spec_total() == total,
{
}

// ------------------------------ Ahead ------------------------------

/// A page to render ahead, and where it goes in the page cache.
#[derive(Debug, Clone, Copy)]
pub struct PrefetchRequest {
    pub viewport: Viewport,
    pub key: CacheKey,
}

/// The first page to consider.
pub open spec fn first_ahead(page: int, reach: int) -> int {
    at_least_zero(page - reach)
}

/// The page after the last one to consider.
pub open spec fn end_ahead(page: int, reach: int, count: int) -> int {
    if page + reach < count - 1 {
        page + reach + 1
    } else {
        count
    }
}

/// The view of a page from its first pixel.
pub open spec fn view_of_page(v: Viewport, page: int) -> Viewport {
    Viewport { page_idx: page as usize, x_off: 0, y_off: 0, ..v }
}

/// The place of a page in the page cache.
pub open spec fn cache_key(buffer: BufferId, v: Viewport, k: Scales) -> CacheKey {
    CacheKey {
        buffer,
        page_idx: v.page_idx,
        display_scale_q: k.display.in_256ths() as u32,
        raster_scale_q: k.raster.in_256ths() as u32,
        rotation: v.rotation,
    }
}

/// The requests for the pages from `from` up to `to`: those that have a size
/// and are not cached, without the current one.
pub open spec fn ahead<D: PageMetrics, S: Fn(Viewport, PageSize) -> Scales>(
    doc: &D,
    cache: &RenderCache,
    buffer: BufferId,
    v: Viewport,
    scales: &S,
    from: int,
    to: int,
    out: Seq<PrefetchRequest>,
) -> bool
    decreases to - from,
{
    if from >= to {
        out.len() == 0
    } else {
        let page = to - 1;
        let w = view_of_page(v, page);
        if page == v.page_idx {
            ahead(doc, cache, buffer, v, scales, from, page, out)
        } else {
            match doc.native(page as nat) {
                Err(_) => ahead(doc, cache, buffer, v, scales, from, page, out),
                Ok(size) => exists|k: Scales|
                    {
                        &&& #[trigger] call_ensures(scales, (w, size), k)
                        &&& if cache.hit(cache_key(buffer, w, k)) is Some {
                            ahead(doc, cache, buffer, v, scales, from, page, out)
                        } else {
                            &&& out.len() > 0
                            &&& out.last() == (PrefetchRequest {
                                viewport: w,
                                key: cache_key(buffer, w, k),
                            })
                            &&& ahead(
                                doc,
                                cache,
                                buffer,
                                v,
                                scales,
                                from,
                                page,
                                out.drop_last(),
                            )
                        }
                    },
            }
        }
    }
}

/// Only other pages of the range are rendered ahead, and none that is cached.
pub proof fn lemma_ahead_is_near<D: PageMetrics, S: Fn(Viewport, PageSize) -> Scales>(
    doc: &D,
    cache: &RenderCache,
    buffer: BufferId,
    v: Viewport,
    scales: &S,
    from: int,
    to: int,
    out: Seq<PrefetchRequest>,
    i: int,
)
    requires
        0 <= from,
        to <= usize::MAX,
        ahead(doc, cache, buffer, v, scales, from, to, out),
        0 <= i < out.len(),
    ensures
        from <= out[i].viewport.page_idx < to,
        out[i].viewport.page_idx != v.page_idx,
        out[i].viewport.spec_look() == v.spec_look(),
        cache.hit(out[i].key) is None,
    decreases to - from,
{
    if from < to {
        let page = to - 1;
        let last = out.len() - 1;
        if page == v.page_idx || doc.native(page as nat) is Err {
            lemma_ahead_is_near(doc, cache, buffer, v, scales, from, page, out, i);
        } else if ahead(doc, cache, buffer, v, scales, from, page, out) {
            lemma_ahead_is_near(doc, cache, buffer, v, scales, from, page, out, i);
        } else if i < last {
            lemma_ahead_is_near(doc, cache, buffer, v, scales, from, page, out.drop_last(), i);
        }
    }
}

impl<D: PageMetrics> Workspace<D> {
    /// The pages up to `reach` around the focused window's page that are to be
    /// rendered ahead, in page order.
    pub fn prefetches<S: Fn(Viewport, PageSize) -> Scales>(
        &self,
        cache: &RenderCache,
        scales: &S,
        reach: usize,
    ) -> (out: Vec<PrefetchRequest>)
        requires
            self.live(),
            cache.inv(),
            forall|v: Viewport, s: PageSize| call_requires(scales, (v, s)),
        ensures
            match focused_buffer(*self) {
                Some(Buffer::Pdf(p)) => if !cache.on() {
                    out@.len() == 0
                } else {
                    let v = self.focus_now().viewport;
                    ahead(
                        &p.pdf,
                        cache,
                        self.focus_now().buffer,
                        v,
                        scales,
                        first_ahead(v.page_idx as int, reach as int),
                        end_ahead(v.page_idx as int, reach as int, p.pdf.pages() as int),
                        out@,
                    )
                },
                _ => out@.len() == 0,
            },
    {
        let mut out: Vec<PrefetchRequest> = Vec::new();
        if !cache.enabled() {
            return out;
        }
        let here: Window = self.focused_window();
        let doc: &D = match self.buffer_pdf(here.buffer) {
            None => {
                return out;
            },
            Some(p) => &p.pdf,
        };
        let count: usize = doc.page_count();
        let page: usize = here.viewport.page_idx;
        let from: usize = if page < reach {
            0
        } else {
            page - reach
        };
        let to: usize = if count > 0 && page < count - 1 && reach < count - 1 - page {
            page + reach + 1
        } else {
            count
        };
        assert(to == end_ahead(page as int, reach as int, count as int));
        let mut idx: usize = from;
        assert(ahead(
            doc,
            cache,
            here.buffer,
            here.viewport,
            scales,
            from as int,
            idx as int,
            out@,
        ));
        while idx < to
            invariant
                from <= idx,
                idx <= to || idx == from,
                cache.inv(),
                forall|v: Viewport, s: PageSize| call_requires(scales, (v, s)),
                ahead(
                    doc,
                    cache,
                    here.buffer,
                    here.viewport,
                    scales,
                    from as int,
                    idx as int,
                    out@,
                ),
            decreases to - idx,
        {
            let ghost sofar = out@;
            let mut w: Viewport = here.viewport;
            w.page_idx = idx;
            w.x_off = 0;
            w.y_off = 0;
            assert(w == view_of_page(here.viewport, idx as int));
            if idx != here.viewport.page_idx {
                if let Ok(size) = doc.page_size(idx) {
                    let k: Scales = scales(w, size);
                    assert(call_ensures(scales, (w, size), k));
                    let key: CacheKey = CacheKey::new(
                        here.buffer,
                        idx,
                        k.display,
                        k.raster,
                        w.rotation,
                    );
                    assert(key == cache_key(here.buffer, w, k));
                    if !cache.contains(&key) {
                        out.push(PrefetchRequest { viewport: w, key });
                        assert(out@.drop_last() =~= sofar);
                    }
                }
            }
            idx += 1;
            assert(ahead(
                doc,
                cache,
                here.buffer,
                here.viewport,
                scales,
                from as int,
                idx as int,
                out@,
            ));
        }
        out
    }

    /// How many steps to either side of the focused window's frame are
    /// encoded ahead. The frame cache then holds them and the frame itself.
    pub fn refill_radius(&self, frames_on: bool, room: usize) -> (r: Option<usize>)
        requires
            self.live(),
        ensures
            match focused_buffer(*self) {
                Some(Buffer::Pdf(p)) => r == (if frames_on && p.pdf.pages() > 0 && room > 2 {
                    Some((((room - 1) / 2) as usize))
                } else {
                    None
                }),
                _ => r is None,
            },
            r matches Some(radius) ==> 2 * radius + 1 <= room,
    {
        if !frames_on {
            return None;
        }
        match self.buffer_pdf(self.focused_window().buffer) {
            None => None,
            Some(p) => {
                if p.pdf.page_count() == 0 || room <= 2 {
                    None
                } else {
                    Some((room - 1) / 2)
                }
            },
        }
    }
}

// ------------------------------ Mouse ------------------------------

/// What a click asks for.
#[derive(Debug, Clone, Copy, PartialEq, Eq, Structural)]
pub enum Click {
    Nothing,
    /// Focus a window.
    Focus(WindowId),
    /// Follow a link under a pixel of the focused window.
    Follow { window: WindowId, x: i32, y: i32 },
}

/// The cell lies in the rectangle.
pub open spec fn cell_in(rect: CellRect, col: u16, row: u16) -> bool {
    rect.col <= col < rect.end_col() && rect.row <= row < rect.end_row()
}

/// The position of the first rectangle that holds a cell.
pub open spec fn place_at(layout: Seq<(WindowId, CellRect)>, col: u16, row: u16) -> Option<int>
    decreases layout.len(),
{
    if layout.len() == 0 {
        None
    } else if cell_in(layout[0].1, col, row) {
        Some(0)
    } else {
        match place_at(layout.skip(1), col, row) {
            Some(i) => Some(i + 1),
            None => None,
        }
    }
}

/// `place_at` finds the first such rectangle, or that there is none.
pub proof fn lemma_place_at(layout: Seq<(WindowId, CellRect)>, col: u16, row: u16)
    ensures
        place_at(layout, col, row) matches Some(i) ==> {
            &&& 0 <= i < layout.len()
            &&& cell_in(layout[i].1, col, row)
            &&& forall|j: int| 0 <= j < i ==> !cell_in((#[trigger] layout[j]).1, col, row)
        },
        place_at(layout, col, row) is None ==> forall|j: int|
            0 <= j < layout.len() ==> !cell_in((#[trigger] layout[j]).1, col, row),
    decreases layout.len(),
{
    if layout.len() > 0 && !cell_in(layout[0].1, col, row) {
        let rest = layout.skip(1);
        lemma_place_at(rest, col, row);
        assert forall|j: int| 1 <= j < layout.len() implies layout[j] == rest[j - 1] by {}
    }
}

/// The pixel in the middle of a cell, as far as pixels can be counted.
pub open spec fn mid_pixel(cell: int, first: int, extent: u16) -> int {
    screen::smaller((cell - first) * extent + extent as int / 2, i32::MAX as int)
}

/// What a click on a cell asks for: the focus, or in the focused window the
/// link that lies there.
pub open spec fn click_for(
    layout: Seq<(WindowId, CellRect)>,
    focused: WindowId,
    col: u16,
    row: u16,
    geom: TermGeom,
) -> Click {
    match place_at(layout, col, row) {
        None => Click::Nothing,
        Some(i) => {
            let (id, rect) = layout[i];
            if id != focused {
                Click::Focus(id)
            } else {
                Click::Follow {
                    window: id,
                    x: mid_pixel(col as int, rect.col as int, geom.cell_px_w) as i32,
                    y: mid_pixel(row as int, rect.row as int, geom.cell_px_h) as i32,
                }
            }
        },
    }
}

fn middle(cell: u16, first: u16, extent: u16) -> (p: i32)
    requires
        first <= cell,
    ensures
        p == mid_pixel(cell as int, first as int, extent),
{
    let n: u64 = (cell - first) as u64;
    proof {
        assert(0 <= n * extent <= 0xFFFF * 0xFFFF) by (nonlinear_arith)
            requires
                0 <= n <= 0xFFFF,
                0 <= extent <= 0xFFFF,
        ;
    }
    let p: u64 = n * extent as u64 + extent as u64 / 2;
    if p > 0x7FFF_FFFF {
        0x7FFF_FFFF
    } else {
        p as i32
    }
}

/// What a click on a cell asks for.
pub fn click(
    layout: &Vec<(WindowId, CellRect)>,
    focused: WindowId,
    col: u16,
    row: u16,
    geom: TermGeom,
) -> (r: Click)
    ensures
        r == click_for(layout@, focused, col, row, geom),
{
    let n: usize = layout.len();
    let mut i: usize = 0;
    assert(layout@.skip(0) =~= layout@);
    proof {
        lemma_place_at(layout@, col, row);
    }
    while i < n
        invariant
            i <= n == layout@.len(),
            forall|j: int| 0 <= j < i ==> !cell_in((#[trigger] layout@[j]).1, col, row),
        decreases n - i,
    {
        let (id, rect): (WindowId, CellRect) = layout[i];
        let inside: bool = rect.col <= col && col < rect.right() && rect.row <= row && row
            < rect.bottom();
        if inside {
            proof {
                lemma_place_at(layout@, col, row);
                assert(cell_in(layout@[i as int].1, col, row));
                assert(place_at(layout@, col, row) == Some(i as int));
            }
            if id != focused {
                return Click::Focus(id);
            }
            return Click::Follow {
                window: id,
                x: middle(col, rect.col, geom.cell_px_w),
                y: middle(row, rect.row, geom.cell_px_h),
            };
        }
        i += 1;
    }
    proof {
        lemma_place_at(layout@, col, row);
    }
    Click::Nothing
}

// ------------------------------ Events ------------------------------

impl Session {
    /// The terminal has another size: nothing that was drawn fits.
    pub fn on_resize(&mut self)
        ensures
            final(self)@ == (SessionView {
                stale_pages: true,
                stale_frames: true,
                full_repaint: true,
                ..old(self)@
            }),
    {
        self.stale_pages = true;
        self.stale_frames = true;
        self.full_repaint = true;
    }

    /// The terminal is in front again and may have lost the picture.
    pub fn on_focus_gained(&mut self)
        ensures
            final(self)@ == (SessionView { full_repaint: true, ..old(self)@ }),
    {
        self.full_repaint = true;
    }

    /// Whether clicks count: not while a prompt or a list is open.
    pub fn takes_clicks(&self) -> (b: bool)
        ensures
            b == (self@.mouse_enabled && self@.mode == ModeView::Normal),
    {
        self.mouse_enabled && (match self.mode {
            Mode::Normal => true,
            _ => false,
        })
    }

    /// How long to wait for input, in milliseconds: shorter while a message is
    /// to go.
    pub fn poll_millis(&self) -> (ms: u64)
        ensures
            ms == (if self@.until is Some {
                200u64
            } else {
                1000u64
            }),
    {
        if self.message_until.is_some() {
            200
        } else {
            1000
        }
    }

    /// Begin a frame; whether the screen is to be cleared first.
    pub fn begin_frame(&mut self) -> (clear: bool)
        ensures
            clear == old(self)@.full_repaint,
            final(self)@ == (SessionView {
                full_repaint: false,
                chrome_dirty: old(self)@.chrome_dirty || old(self)@.full_repaint,
                ..old(self)@
            }),
    {
        let clear: bool = self.full_repaint;
        if clear {
            self.full_repaint = false;
            self.chrome_dirty = true;
        }
        clear
    }
}

} // verus!
