//! What counts, jumps, marks, hits and clicks come to.
use vstd::prelude::*;

use crate::buffer::{self, Buffer, JumpEntry};
use crate::document::{MatchRect, PageLink, PageMetrics};
use crate::navigator::{self, Action};
use crate::navigator_laws;
use crate::number::Real32;
use crate::reading;
use crate::searching;
use crate::viewport::{self, Rotation, Viewport, ZoomMode};
use crate::window;
use crate::workspace::{self, CacheSettings, Workspace, WorkspaceError};

verus! {

/// The hit after one is the next in the list, and after the last the first;
/// backward the one before, and before the first the last. A search without a
/// hit yet starts at the first, or backward at the last.
pub proof fn lemma_hits_in_order(i: usize, total: int)
    requires
        i < total <= usize::MAX,
    ensures
        i + 1 < total ==> buffer::next_hit(Some(i), total, true) == i + 1,
        i + 1 == total ==> buffer::next_hit(Some(i), total, true) == 0,
        i > 0 ==> buffer::next_hit(Some(i), total, false) == i - 1,
        i == 0 ==> buffer::next_hit(Some(i), total, false) == total - 1,
        buffer::next_hit(None, total, true) == 0,
        buffer::next_hit(None, total, false) == total - 1,
{
}

/// Hits are listed by page.
pub open spec fn by_page(hits: Seq<MatchRect>) -> bool {
    forall|i: int, j: int|
        0 <= i < j < hits.len() ==> (#[trigger] hits[i]).page_idx <= (#[trigger] hits[j]).page_idx
}

/// A new search lands on a hit of the nearest page that has one, from the page
/// that is shown on in the direction of the search; past the end it starts
/// over at the other one. It lands nowhere only where there is no hit.
pub proof fn lemma_search_lands(
    hits: Seq<MatchRect>,
    from: usize,
    forward: bool,
    r: Option<usize>,
    j: int,
)
    requires
        by_page(hits),
        buffer::lands_on(hits, from, forward, r),
        0 <= j < hits.len(),
    ensures
        r matches Some(k) && k < hits.len() && {
            let page = hits[k as int].page_idx;
            &&& forward && hits[j].page_idx >= from ==> from <= page <= hits[j].page_idx && k <= j
            &&& !forward && hits[j].page_idx <= from ==> hits[j].page_idx <= page <= from && k >= j
            &&& forward && page < from ==> k == 0
            &&& !forward && page > from ==> k == hits.len() - 1
        },
{
    let k = r->0;
    assert(hits[j].page_idx == hits[j].page_idx && hits[k as int].page_idx
        == hits[k as int].page_idx);
}

/// A search lands on the first hit of the page that is shown or of one after
/// it, backward on the last of that page or of one before it; where there is
/// none it starts over.
pub proof fn lemma_search_lands_on_nearest(
    hits: Seq<MatchRect>,
    from: usize,
    k: usize,
    l: usize,
)
    requires
        k < hits.len(),
        l < hits.len(),
        hits[k as int].page_idx >= from,
        forall|j: int| 0 <= j < k ==> (#[trigger] hits[j]).page_idx < from,
        hits[l as int].page_idx <= from,
        forall|j: int| l < j < hits.len() ==> (#[trigger] hits[j]).page_idx > from,
    ensures
        forall|r: Option<usize>| #[trigger]
            buffer::lands_on(hits, from, true, r) <==> r == Some(k),
        forall|r: Option<usize>| #[trigger]
            buffer::lands_on(hits, from, false, r) <==> r == Some(l),
{
    assert(buffer::lands_on(hits, from, true, Some(k)));
    assert(buffer::lands_on(hits, from, false, Some(l)));
    assert forall|r: Option<usize>| #[trigger]
        buffer::lands_on(hits, from, true, r) implies r == Some(k) by {
        lemma_search_lands_once(hits, from, true, r, Some(k));
    }
    assert forall|r: Option<usize>| #[trigger]
        buffer::lands_on(hits, from, false, r) implies r == Some(l) by {
        lemma_search_lands_once(hits, from, false, r, Some(l));
    }
}

/// Where no hit is left in its direction a search starts over: forward with the
/// first hit of all, backward with the last.
pub proof fn lemma_search_starts_over(hits: Seq<MatchRect>, from: usize)
    requires
        0 < hits.len() <= usize::MAX,
    ensures
        (forall|j: int| 0 <= j < hits.len() ==> (#[trigger] hits[j]).page_idx < from)
            ==> buffer::lands_on(hits, from, true, Some(0)),
        (forall|j: int| 0 <= j < hits.len() ==> (#[trigger] hits[j]).page_idx > from)
            ==> buffer::lands_on(hits, from, false, Some((hits.len() - 1) as usize)),
        !buffer::lands_on(hits, from, true, None) && !buffer::lands_on(hits, from, false, None),
{
}

/// A step to another hit focuses the next one of the list, or the one before,
/// around the ends, and the hits stay.
pub proof fn lemma_hit_stepped<D: PageMetrics>(
    before: Workspace<D>,
    after: Workspace<D>,
    i: usize,
    forward: bool,
)
    requires
        searching::hit_stepped(before, after, forward),
        searching::focused_pdf(before).search.current == Some(i),
        i < searching::focused_pdf(before).search.matches@.len() <= usize::MAX,
    ensures
        ({
            let hits = searching::focused_pdf(before).search.matches@;
            let n = hits.len() as int;
            let to: int = if forward {
                if i + 1 < n {
                    i + 1
                } else {
                    0
                }
            } else if i > 0 {
                i - 1
            } else {
                n - 1
            };
            &&& searching::focused_pdf(after).search.matches@ == hits
            &&& searching::current_hit(searching::focused_pdf(after)) == Some(hits[to])
        }),
{
}

/// A search lands on one hit.
pub proof fn lemma_search_lands_once(
    hits: Seq<MatchRect>,
    from: usize,
    forward: bool,
    r: Option<usize>,
    s: Option<usize>,
)
    requires
        buffer::lands_on(hits, from, forward, r),
        buffer::lands_on(hits, from, forward, s),
    ensures
        r == s,
{
    if let Some(k) = r {
        if let Some(l) = s {
            assert(hits[k as int].page_idx == hits[k as int].page_idx);
            assert(hits[l as int].page_idx == hits[l as int].page_idx);
        }
    }
}

/// Going to a place on the page leaves it on screen, a third of the screen
/// from its start unless the page ends before that.
pub proof fn lemma_brought_on_screen(at: i32, page: int, screen: u32)
    requires
        1 <= screen <= i32::MAX,
        screen < page <= i32::MAX,
        0 <= at < page,
    ensures
        ({
            let off = searching::brought_near(
                at,
                screen,
                viewport::scroll_range(page as i32, screen as i32),
            );
            &&& 0 <= off <= page - screen
            &&& 0 <= at - off < screen
            &&& at - off != screen as int / 3 ==> off == 0 || off == page - screen
            &&& off == 0 ==> at <= screen as int / 3
            &&& off == page - screen ==> at - off >= screen as int / 3
        }),
{
    viewport::lemma_scroll_range(page as i32, screen as i32);
}

/// A jump list keeps the last hundred places, the latest on top.
pub proof fn lemma_jump_list(stack: Seq<JumpEntry>, e: JumpEntry, i: int)
    requires
        stack.len() <= 100,
        0 <= i < stack.len(),
    ensures
        ({
            let longer = buffer::pushed(stack, e);
            &&& longer.last() == e
            &&& stack.len() < 100 ==> longer.len() == stack.len() + 1 && longer[i] == stack[i]
            &&& stack.len() == 100 ==> longer.len() == 100 && (i > 0 ==> longer[i - 1] == stack[i])
        }),
{
}

/// The place that is remembered is the page and the offsets, and jumping there
/// names them.
pub proof fn lemma_place_remembered(v: Viewport)
    ensures
        reading::entry_of(v).page_idx == v.page_idx,
        reading::entry_of(v).x_off == v.x_off,
        reading::entry_of(v).y_off == v.y_off,
{
}

/// The jump lists of the document that the focused window shows.
pub open spec fn lists<D>(ws: Workspace<D>, slot: int) -> (Seq<JumpEntry>, Seq<JumpEntry>) {
    let p = ws.pool.slots@[slot].buf->Pdf_0;
    (p.back_stack@, p.forward_stack@)
}

/// Going to a page, to the first or to the last is remembered: the place that
/// is left comes on top of the list to go back by, and there is no way forward
/// any more. Scrolling, turning pages and looks leave both lists alone.
pub proof fn lemma_what_is_remembered<D: PageMetrics, F: Fn(Real32, Real32) -> Real32>(
    before: Workspace<D>,
    after: Workspace<D>,
    action: Action,
    count: usize,
    times: &F,
    caches: CacheSettings,
    r: Result<(), WorkspaceError>,
    slot: int,
)
    requires
        before.live(),
        0 <= slot < before.pool.slots@.len(),
        crate::pool::slot_at(before.pool.slots@, before.focus_now().buffer) == Some(slot),
        before.pool.slots@[slot].buf is Pdf,
        reading::nav_result(before, after, action, count, times, caches, r),
    ensures
        ({
            let (back, forward) = lists(before, slot);
            let (back_now, forward_now) = lists(after, slot);
            let v = before.focus_now().viewport;
            if action is GotoPage || action is FirstPage || action is LastPage {
                &&& back_now.len() > 0
                &&& back_now.last() == (JumpEntry {
                    page_idx: v.page_idx,
                    x_off: v.x_off,
                    y_off: v.y_off,
                })
                &&& forward_now.len() == 0
            } else {
                back_now == back && forward_now == forward
            }
        }),
{
    let i = slot;
    assert(after.pool.slots@[i] == before.pool.slots@.update(i, after.pool.slots@[i])[i]);
}

/// A count of nothing means once.
pub proof fn lemma_counts(count: usize)
    ensures
        count > 0 ==> reading::at_least_once(count) == count,
        count == 0 ==> reading::at_least_once(count) == 1,
{
}

/// Turning on `n` pages leads `n` pages on, and turning back as many back, as
/// far as there are pages.
pub proof fn lemma_counted_turns<D: PageMetrics, F: Fn(Real32, Real32) -> Real32>(
    doc: &D,
    v: Viewport,
    times: &F,
    n: nat,
    w: Viewport,
)
    requires
        v.page_idx < doc.pages() <= usize::MAX,
        1 <= v.screen_w <= i32::MAX,
        1 <= v.screen_h <= i32::MAX,
    ensures
        reading::repeated(doc, v, Action::NextPage, times, n, w, None) ==> {
            &&& w.page_idx == (if v.page_idx + n < doc.pages() {
                v.page_idx + n
            } else {
                doc.pages() - 1
            })
            &&& navigator_laws::same_view(v, w)
        },
        reading::repeated(doc, v, Action::PrevPage, times, n, w, None) ==> {
            &&& w.page_idx == (if n <= v.page_idx {
                v.page_idx - n
            } else {
                0
            })
            &&& navigator_laws::same_view(v, w)
        },
    decreases n,
{
    if n > 0 {
        if reading::repeated(doc, v, Action::NextPage, times, n, w, None) {
            let mid = choose|mid: Viewport|
                {
                    &&& reading::repeated(doc, v, Action::NextPage, times, (n - 1) as nat, mid, None)
                    &&& #[trigger] reading::stepped(doc, mid, Action::NextPage, times, w, None)
                };
            lemma_counted_turns(doc, v, times, (n - 1) as nat, mid);
            reveal(reading::stepped);
            let product = choose|product: Real32|
                w == (#[trigger] navigator::moved(doc, mid, Action::NextPage, product)).0;
            navigator_laws::lemma_pages(doc, mid, 0, product);
        }
        if reading::repeated(doc, v, Action::PrevPage, times, n, w, None) {
            let mid = choose|mid: Viewport|
                {
                    &&& reading::repeated(doc, v, Action::PrevPage, times, (n - 1) as nat, mid, None)
                    &&& #[trigger] reading::stepped(doc, mid, Action::PrevPage, times, w, None)
                };
            lemma_counted_turns(doc, v, times, (n - 1) as nat, mid);
            reveal(reading::stepped);
            let product = choose|product: Real32|
                w == (#[trigger] navigator::moved(doc, mid, Action::PrevPage, product)).0;
            navigator_laws::lemma_pages(doc, mid, 0, product);
        }
    }
}

/// The pixel of the page under a pixel of the screen: what the page is
/// scrolled by comes on top, and outside the page there is none.
pub proof fn lemma_page_under_screen(v: Viewport, extent: (u32, u32), x: i32, y: i32)
    requires
        extent.0 <= i32::MAX,
        extent.1 <= i32::MAX,
    ensures
        match v.page_pixel(extent, x, y) {
            Some((px, py)) => {
                &&& px == x + v.x_off && py == y + v.y_off
                &&& 0 <= px < extent.0 && 0 <= py < extent.1
            },
            None => x + v.x_off < 0 || x + v.x_off >= extent.0 || y + v.y_off < 0 || y + v.y_off
                >= extent.1,
        },
        v.page_pixel(extent, x, y) is Some && x < i32::MAX && v.x_off > i32::MIN
            ==> v.page_pixel(extent, x, y) == (Viewport { x_off: (v.x_off - 1) as i32, ..v }).page_pixel(
            extent,
            (x + 1) as i32,
            y,
        ),
        v.page_pixel(extent, x, y) is Some && y < i32::MAX && v.y_off > i32::MIN
            ==> v.page_pixel(extent, x, y) == (Viewport { y_off: (v.y_off - 1) as i32, ..v }).page_pixel(
            extent,
            x,
            (y + 1) as i32,
        ),
{
}

/// The link under a point is one whose rectangle the point lies in, edges
/// counted, and of several the first; no link means that it lies in none.
pub proof fn lemma_link_under_point(
    links: Seq<PageLink>,
    x: Real32,
    y: Real32,
    r: Option<PageLink>,
    j: int,
)
    requires
        reading::hits(links, x, y, r),
        0 <= j < links.len(),
        !x.nan() && !y.nan(),
        !links[j].bounds.x0.nan() && !links[j].bounds.x1.nan(),
        !links[j].bounds.y0.nan() && !links[j].bounds.y1.nan(),
    ensures
        ({
            let b = links[j].bounds;
            let inside = b.x0.rank() <= x.rank() <= b.x1.rank() && b.y0.rank() <= y.rank()
                <= b.y1.rank();
            &&& r is None ==> !inside
            &&& inside ==> (r matches Some(l) && exists|i: int|
                0 <= i <= j && #[trigger] links[i] == l)
        }),
        r matches Some(l) ==> links.contains(l) && l.bounds.x0.rank() <= x.rank()
            <= l.bounds.x1.rank() && l.bounds.y0.rank() <= y.rank() <= l.bounds.y1.rank(),
{
    assert(links[j] == links[j]);
    if let Some(l) = r {
        let i = choose|i: int|
            {
                &&& 0 <= i < links.len()
                &&& #[trigger] links[i] == l
                &&& l.bounds.holds(x, y)
                &&& forall|k: int| 0 <= k < i ==> !(#[trigger] links[k]).bounds.holds(x, y)
            };
        assert(links[i] == l);
    }
}

/// The order of numbers by rank is theirs: of two positive ones the larger bits
/// are larger, of two negative ones the smaller, and what is negative comes
/// before what is not.
pub proof fn lemma_rank_orders(a: Real32, b: Real32)
    requires
        !a.nan() && !b.nan(),
    ensures
        a.bits < 0x8000_0000 && b.bits < 0x8000_0000 ==> (a.rank() < b.rank() <==> a.bits < b.bits),
        a.bits > 0x8000_0000 && b.bits > 0x8000_0000 ==> (a.rank() < b.rank() <==> a.bits > b.bits),
        a.bits > 0x8000_0000 && b.bits < 0x8000_0000 ==> a.rank() < b.rank(),
        a.bits == 0x8000_0000 ==> a.rank() == 0,
        a.bits == 0 ==> a.rank() == 0,
{
}

/// Only letters can be marks.
pub proof fn lemma_mark_letters(c: char)
    ensures
        reading::is_mark(c) <==> ('a' <= c <= 'z' || 'A' <= c <= 'Z'),
{
}

/// Going back to the usual view gives, where it succeeds, a page that stands
/// upright and fills the width, at the usual resolution and quality, seen from
/// its start; the page is the same.
pub proof fn lemma_reset<D: PageMetrics, F: Fn(Real32, Real32) -> Real32>(
    before: Workspace<D>,
    after: Workspace<D>,
    times: &F,
    caches: CacheSettings,
)
    requires
        before.live(),
        reading::focused_buffer(before) matches Some(Buffer::Pdf(_)),
        searching::reset_result(before, after, times, caches, Ok(())),
    ensures
        ({
            let v = before.focus_now().viewport;
            let now = after.focus_now().viewport;
            &&& now.rotation == Rotation::R0
            &&& now.zoom == ZoomMode::FitWidth
            &&& now.render_dpi is None
            &&& now.render_quality == (Real32 { bits: 0x3F80_0000 })
            &&& now.page_idx == v.page_idx
            &&& now.night_mode == v.night_mode
            &&& now.screen_w == v.screen_w && now.screen_h == v.screen_h
        }),
{
    let (a, b, turned) = choose|
        a: Workspace<D>,
        b: Workspace<D>,
        turned: Result<(), WorkspaceError>,
    |
        {
            &&& #[trigger] searching::focus_set(
                before,
                a,
                searching::plain_view(before.focus_now()),
            )
            &&& #[trigger] reading::nav_result(
                a,
                b,
                Action::SetRotation(Rotation::R0),
                1,
                times,
                caches,
                turned,
            )
            &&& match turned {
                Ok(_) => reading::nav_result(
                    b,
                    after,
                    Action::SetZoom(ZoomMode::FitWidth),
                    1,
                    times,
                    caches,
                    Ok(()),
                ),
                Err(_) => Ok::<(), WorkspaceError>(()) == turned && after == b,
            }
        };
    workspace::lemma_focus(before);
    lemma_focus_kept(before, a, searching::plain_view(before.focus_now()));
    lemma_one_action(a, b, Action::SetRotation(Rotation::R0), times, caches);
    lemma_one_action(b, after, Action::SetZoom(ZoomMode::FitWidth), times, caches);
}

/// Beginning with page N, counted from 1, shows that page; zero means the first
/// page too, and a number past the end the last page.
pub proof fn lemma_starting_page<D: PageMetrics>(
    before: Workspace<D>,
    after: Workspace<D>,
    page: usize,
    p: buffer::PdfBuffer<D>,
)
    requires
        before.live(),
        reading::focused_buffer(before) == Some(Buffer::Pdf(p)),
        0 < p.pdf.pages() <= usize::MAX,
        searching::started_on(before, after, page),
    ensures
        1 <= page <= p.pdf.pages() ==> after.focus_now().viewport.page_idx == page - 1,
        page == 0 ==> after.focus_now().viewport.page_idx == 0,
        page > p.pdf.pages() ==> after.focus_now().viewport.page_idx == p.pdf.pages() - 1,
{
    workspace::lemma_focus(before);
    let here = before.focus_now();
    let w = window::Window {
        viewport: Viewport {
            page_idx: viewport::clamped(page - 1, 0, p.pdf.pages() - 1) as usize,
            ..here.viewport
        },
        ..here
    };
    lemma_focus_kept(before, after, w);
}

/// The focused window was replaced by one with the same id.
pub open spec fn placed_in<D>(before: Workspace<D>, after: Workspace<D>, w: window::Window) -> bool {
    &&& before.tabs@.len() > 0 && before.current_tab < before.tabs@.len()
    &&& before.tab_now().tree.has(before.tab_now().focused)
    &&& w.id == before.tab_now().focused
    &&& after.current_tab == before.current_tab
    &&& after.tabs@ == crate::opening::with_focus(before, w)
}

proof fn lemma_focus_kept<D>(before: Workspace<D>, after: Workspace<D>, w: window::Window)
    requires
        placed_in(before, after, w),
    ensures
        after.focus_now() == w,
        after.tabs@.len() > 0 && after.current_tab < after.tabs@.len(),
        after.tab_now().tree.has(after.tab_now().focused),
        after.tab_now().focused == before.tab_now().focused,
{
    let t = before.tab_now();
    let x = t.tree.leaves();
    window::lemma_position(x, t.focused);
    let i = before.focus_at();
    t.tree.lemma_with_leaf(i, w);
    let y = t.tree.with_leaf(i, w).leaves();
    assert forall|j: int| 0 <= j < x.len() implies (#[trigger] y[j]).id == x[j].id by {}
    window::lemma_position_same(y, x, t.focused);
}

proof fn lemma_one_action<D: PageMetrics, F: Fn(Real32, Real32) -> Real32>(
    a: Workspace<D>,
    b: Workspace<D>,
    action: Action,
    times: &F,
    caches: CacheSettings,
)
    requires
        a.tabs@.len() > 0 && a.current_tab < a.tabs@.len(),
        a.tab_now().tree.has(a.tab_now().focused),
        reading::focused_buffer(a) matches Some(Buffer::Pdf(_)),
        action == Action::SetRotation(Rotation::R0) || action == Action::SetZoom(
            ZoomMode::FitWidth,
        ),
        reading::nav_result(a, b, action, 1, times, caches, Ok(())),
    ensures
        b.tabs@.len() > 0 && b.current_tab < b.tabs@.len(),
        b.tab_now().tree.has(b.tab_now().focused),
        reading::focused_buffer(b) matches Some(Buffer::Pdf(_)),
        ({
            let v = a.focus_now().viewport;
            let now = b.focus_now().viewport;
            &&& now.page_idx == v.page_idx
            &&& now.night_mode == v.night_mode
            &&& now.render_dpi == v.render_dpi
            &&& now.render_quality == v.render_quality
            &&& now.screen_w == v.screen_w && now.screen_h == v.screen_h
            &&& if action is SetZoom {
                now.zoom == ZoomMode::FitWidth && now.rotation == v.rotation
            } else {
                now.rotation == Rotation::R0 && now.zoom == v.zoom
            }
        }),
{
    let here = a.focus_now();
    let slots = a.pool.slots@;
    let i = crate::pool::slot_at(slots, here.buffer)->0;
    crate::pool::lemma_slot_at(slots, here.buffer);
    let p = slots[i].buf->Pdf_0;
    let (v, e) = choose|v: Viewport, e: Option<crate::document::PageError>|
        {
            &&& #[trigger] reading::repeated(&p.pdf, here.viewport, action, times, 1, v, e)
            &&& e is None
            &&& b.tabs@ == crate::opening::with_focus(
                a,
                window::Window { viewport: v, dirty: true, ..here },
            )
        };
    window::lemma_position(a.tab_now().tree.leaves(), a.tab_now().focused);
    let w = window::Window { viewport: v, dirty: true, ..here };
    lemma_focus_kept(a, b, w);
    reveal_with_fuel(reading::repeated, 2);
    reveal(reading::stepped);
    let product = choose|product: Real32|
        v == (#[trigger] navigator::moved(&p.pdf, here.viewport, action, product)).0;
    navigator_laws::lemma_looks(
        &p.pdf,
        here.viewport,
        ZoomMode::FitWidth,
        Rotation::R0,
        1,
        1,
        product,
    );
    let now = b.pool.slots@;
    assert(now == slots.update(i, now[i]));
    assert(now[i].id() == slots[i].id());
    crate::pool::lemma_slot_at(now, here.buffer);
    assert(crate::pool::slot_at(now, here.buffer) == Some(i)) by {
        assert forall|j: int| 0 <= j < i implies (#[trigger] now[j]).id() != here.buffer by {
            assert(now[j] == slots[j]);
        }
    }
}

} // verus!
