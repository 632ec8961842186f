//! Where the actions lead, in pixels and pages.
use vstd::prelude::*;

use crate::document::PageMetrics;
use crate::navigator::{self, Action};
use crate::number::Real32;
use crate::viewport::{self, Rotation, Viewport, ZoomMode};

verus! {

/// The page of `v` fills `w` by `h` pixels, and they and the screen can be
/// counted by signed offsets.
pub open spec fn fills<D: PageMetrics>(doc: &D, v: Viewport, w: int, h: int) -> bool {
    &&& v.page_idx < doc.pages() <= usize::MAX
    &&& doc.composed(v.page_idx as nat, v.spec_look()) matches Ok(e) && e.0 == w && e.1 == h
    &&& 0 <= w <= i32::MAX
    &&& 0 <= h <= i32::MAX
    &&& 1 <= v.screen_w <= i32::MAX
    &&& 1 <= v.screen_h <= i32::MAX
}

/// An offset along an axis: a page that is longer than the screen covers it, a
/// shorter one has equal margins, to within a pixel.
pub open spec fn placed(off: int, page: int, screen: int) -> bool {
    if page > screen {
        0 <= off <= page - screen
    } else {
        off <= 0 && 0 <= (screen - page + off) - (-off) <= 1
    }
}

/// The offset at which the first pixel of the page shows, or the only one.
pub open spec fn at_start(off: int, page: int, screen: int) -> bool {
    placed(off, page, screen) && (page > screen ==> off == 0)
}

/// The offset at which the last pixel of the page shows, or the only one.
pub open spec fn at_end(off: int, page: int, screen: int) -> bool {
    placed(off, page, screen) && (page > screen ==> off + screen == page)
}

/// Both offsets are ones that the page has.
pub open spec fn shown(v: Viewport, w: int, h: int) -> bool {
    placed(v.x_off as int, w, v.screen_w as int) && placed(v.y_off as int, h, v.screen_h as int)
}

/// `now` shows another page, or another place of the page, and is the same
/// otherwise.
pub open spec fn same_view(v: Viewport, now: Viewport) -> bool {
    now == (Viewport { page_idx: now.page_idx, x_off: now.x_off, y_off: now.y_off, ..v })
}

/// Only the offset along x differs.
pub open spec fn slid(v: Viewport, now: Viewport) -> bool {
    now == (Viewport { x_off: now.x_off, ..v })
}

/// Only the offset along y differs.
pub open spec fn rolled(v: Viewport, now: Viewport) -> bool {
    now == (Viewport { y_off: now.y_off, ..v })
}

/// `step` is `tenths` tenths of a screen, to within half a pixel, and at least
/// one pixel.
pub open spec fn tenths_of(step: int, tenths: int, screen: int) -> bool {
    if tenths * screen < 5 {
        step == 1
    } else {
        -5 <= 10 * step - tenths * screen <= 5
    }
}

/// Nine tenths of a screen, or less where the page ends: how far a step
/// towards larger offsets goes.
pub open spec fn advanced(before: int, now: int, most: int, tenths: int, screen: int) -> bool {
    &&& now <= most
    &&& now == most || tenths_of(now - before, tenths, screen)
    &&& now > before || before == most
    &&& now == most ==> exists|step: int|
        before + step >= most && #[trigger] tenths_of(step, tenths, screen)
}

/// The same towards smaller offsets.
pub open spec fn receded(before: int, now: int, least: int, tenths: int, screen: int) -> bool {
    &&& now >= least
    &&& now == least || tenths_of(before - now, tenths, screen)
    &&& now < before || before == least
    &&& now == least ==> exists|step: int|
        before - step <= least && #[trigger] tenths_of(step, tenths, screen)
}

proof fn lemma_screen_step(screen: u32)
    requires
        1 <= screen,
    ensures
        tenths_of(navigator::screen_step(screen), 9, screen as int),
{
    assert((100 - navigator::SCROLL_OVERLAP) * screen == 90 * screen) by (nonlinear_arith)
        requires
            navigator::SCROLL_OVERLAP == 10,
    ;
}

proof fn lemma_fine_step(screen: u32)
    requires
        1 <= screen,
    ensures
        tenths_of(navigator::fine_step(screen), 1, screen as int),
{
}

/// Scrolling right shows what lies further right, scrolling left what lies
/// further left: by nine tenths of the screen, to the edge of the page at
/// most, and nothing else changes.
pub proof fn lemma_scroll_sideways<D: PageMetrics>(
    doc: &D,
    v: Viewport,
    w: int,
    h: int,
    product: Real32,
)
    requires
        fills(doc, v, w, h),
        shown(v, w, h),
    ensures
        ({
            let (right, r) = navigator::moved(doc, v, Action::ScrollRight, product);
            &&& r is Ok
            &&& slid(v, right)
            &&& if w > v.screen_w {
                advanced(v.x_off as int, right.x_off as int, w - v.screen_w, 9, v.screen_w as int)
            } else {
                right == v
            }
        }),
        ({
            let (left, r) = navigator::moved(doc, v, Action::ScrollLeft, product);
            &&& r is Ok
            &&& slid(v, left)
            &&& if w > v.screen_w {
                receded(v.x_off as int, left.x_off as int, 0, 9, v.screen_w as int)
            } else {
                left == v
            }
        }),
{
    viewport::lemma_scroll_range(w as i32, v.screen_w as i32);
    lemma_screen_step(v.screen_w);
}

/// Scrolling right by less than to the edge and then left shows the same again.
pub proof fn lemma_sideways_and_back<D: PageMetrics>(
    doc: &D,
    v: Viewport,
    w: int,
    h: int,
    product: Real32,
)
    requires
        fills(doc, v, w, h),
        shown(v, w, h),
    ensures
        ({
            let right = navigator::moved(doc, v, Action::ScrollRight, product).0;
            right.x_off < w - v.screen_w ==> navigator::moved(
                doc,
                right,
                Action::ScrollLeft,
                product,
            ).0 == v
        }),
        ({
            let left = navigator::moved(doc, v, Action::ScrollLeft, product).0;
            left.x_off > 0 ==> navigator::moved(doc, left, Action::ScrollRight, product).0 == v
        }),
{
    viewport::lemma_scroll_range(w as i32, v.screen_w as i32);
    lemma_screen_step(v.screen_w);
}

/// The whole page is on screen.
pub open spec fn fits(v: Viewport, w: int, h: int) -> bool {
    w <= v.screen_w && h <= v.screen_h
}

/// The next page, seen from its start, where there is one; else nothing
/// changes.
pub open spec fn turned_on<D: PageMetrics>(doc: &D, v: Viewport, now: Viewport) -> bool {
    if v.page_idx + 1 < doc.pages() {
        &&& now.page_idx == v.page_idx + 1
        &&& same_view(v, now)
        &&& doc.composed(now.page_idx as nat, v.spec_look()) matches Ok(e) ==> (e.0 <= i32::MAX
            && e.1 <= i32::MAX ==> at_start(now.y_off as int, e.1 as int, v.screen_h as int)
            && placed(now.x_off as int, e.0 as int, v.screen_w as int))
    } else {
        now == v
    }
}

/// The page before, seen from its end, where there is one; else nothing
/// changes.
pub open spec fn turned_back<D: PageMetrics>(doc: &D, v: Viewport, now: Viewport) -> bool {
    if v.page_idx > 0 {
        &&& now.page_idx == v.page_idx - 1
        &&& same_view(v, now)
        &&& doc.composed(now.page_idx as nat, v.spec_look()) matches Ok(e) ==> (e.0 <= i32::MAX
            && e.1 <= i32::MAX ==> at_end(now.y_off as int, e.1 as int, v.screen_h as int)
            && placed(now.x_off as int, e.0 as int, v.screen_w as int))
    } else {
        now == v
    }
}

proof fn lemma_next_page<D: PageMetrics>(doc: &D, v: Viewport, w: int, h: int)
    requires
        fills(doc, v, w, h),
    ensures
        turned_on(doc, v, navigator::page_after(doc, v).0),
        turned_back(doc, v, navigator::page_before(doc, v, navigator::Anchor::End).0),
{
    if v.page_idx + 1 < doc.pages() {
        if let Ok(e) = doc.composed((v.page_idx + 1) as nat, v.spec_look()) {
            if e.0 <= i32::MAX && e.1 <= i32::MAX {
                viewport::lemma_scroll_range(e.0 as i32, v.screen_w as i32);
                viewport::lemma_scroll_range(e.1 as i32, v.screen_h as i32);
            }
        }
    }
    if v.page_idx > 0 {
        if let Ok(e) = doc.composed((v.page_idx - 1) as nat, v.spec_look()) {
            if e.0 <= i32::MAX && e.1 <= i32::MAX {
                viewport::lemma_scroll_range(e.0 as i32, v.screen_w as i32);
                viewport::lemma_scroll_range(e.1 as i32, v.screen_h as i32);
            }
        }
    }
}

/// A step down shows what lies further down: by nine tenths of the screen, or
/// one tenth for a fine step, to the page's end at most. Where the end is on
/// screen already, the next page comes. A step up is the mirror image.
pub proof fn lemma_steps<D: PageMetrics>(
    doc: &D,
    v: Viewport,
    w: int,
    h: int,
    fine: bool,
    product: Real32,
)
    requires
        fills(doc, v, w, h),
        shown(v, w, h),
    ensures
        ({
            let down = navigator::moved(
                doc,
                v,
                if fine {
                    Action::FineScrollDown
                } else {
                    Action::NextScreen
                },
                product,
            ).0;
            let tenths: int = if fine {
                1
            } else {
                9
            };
            if h > v.screen_h && v.y_off < h - v.screen_h {
                rolled(v, down) && advanced(
                    v.y_off as int,
                    down.y_off as int,
                    h - v.screen_h,
                    tenths,
                    v.screen_h as int,
                )
            } else {
                turned_on(doc, v, down)
            }
        }),
        ({
            let up = navigator::moved(
                doc,
                v,
                if fine {
                    Action::FineScrollUp
                } else {
                    Action::PrevScreen
                },
                product,
            ).0;
            let tenths: int = if fine {
                1
            } else {
                9
            };
            if h > v.screen_h && v.y_off > 0 {
                rolled(v, up) && receded(
                    v.y_off as int,
                    up.y_off as int,
                    0,
                    tenths,
                    v.screen_h as int,
                )
            } else {
                turned_back(doc, v, up)
            }
        }),
{
    viewport::lemma_scroll_range(w as i32, v.screen_w as i32);
    viewport::lemma_scroll_range(h as i32, v.screen_h as i32);
    lemma_screen_step(v.screen_h);
    lemma_fine_step(v.screen_h);
    lemma_next_page(doc, v, w, h);
}

/// On a long page, a step down that stops short of the end is undone by the
/// same step up, and the other way round.
#[verifier::rlimit(60)]
pub proof fn lemma_step_and_back<D: PageMetrics>(
    doc: &D,
    v: Viewport,
    w: int,
    h: int,
    down: Action,
    up: Action,
    product: Real32,
)
    requires
        fills(doc, v, w, h),
        shown(v, w, h),
        h > v.screen_h,
        (down == Action::NextScreen && up == Action::PrevScreen) || (down == Action::FineScrollDown
            && up == Action::FineScrollUp) || (down == Action::HalfScreenDown && up
            == Action::HalfScreenUp),
    ensures
        ({
            let low = navigator::moved(doc, v, down, product).0;
            low.page_idx == v.page_idx && low.y_off < h - v.screen_h ==> navigator::moved(
                doc,
                low,
                up,
                product,
            ).0 == v
        }),
        ({
            let high = navigator::moved(doc, v, up, product).0;
            high.page_idx == v.page_idx && high.y_off > 0 ==> navigator::moved(
                doc,
                high,
                down,
                product,
            ).0 == v
        }),
{
    viewport::lemma_scroll_range(w as i32, v.screen_w as i32);
    viewport::lemma_scroll_range(h as i32, v.screen_h as i32);
    lemma_screen_step(v.screen_h);
    lemma_fine_step(v.screen_h);
    if v.page_idx > 0 {
        assert(v.page_idx - 1 != v.page_idx);
    }
}

/// Half a screen down shows what lies half a screen further down. Where that
/// would pass the page's end, the next page comes if there is one, else the
/// view stops at the end. A page that fits gives way at once. Half a screen up
/// is the mirror image, and shows a page that fits from its start.
pub proof fn lemma_half_screens<D: PageMetrics>(
    doc: &D,
    v: Viewport,
    w: int,
    h: int,
    product: Real32,
)
    requires
        fills(doc, v, w, h),
        shown(v, w, h),
    ensures
        ({
            let down = navigator::moved(doc, v, Action::HalfScreenDown, product).0;
            let half: int = if v.screen_h < 2 {
                1
            } else {
                v.screen_h as int / 2
            };
            if fits(v, w, h) {
                turned_on(doc, v, down)
            } else if h <= v.screen_h || v.y_off + half > h - v.screen_h {
                if v.page_idx + 1 < doc.pages() {
                    turned_on(doc, v, down)
                } else {
                    rolled(v, down) && at_end(down.y_off as int, h, v.screen_h as int)
                }
            } else {
                rolled(v, down) && down.y_off == v.y_off + half
            }
        }),
        ({
            let up = navigator::moved(doc, v, Action::HalfScreenUp, product).0;
            let half: int = if v.screen_h < 2 {
                1
            } else {
                v.screen_h as int / 2
            };
            if fits(v, w, h) {
                &&& v.page_idx == 0 ==> up == v
                &&& v.page_idx > 0 ==> up.page_idx == v.page_idx - 1 && same_view(v, up)
            } else if h <= v.screen_h || v.y_off - half < 0 {
                if v.page_idx > 0 {
                    turned_back(doc, v, up)
                } else {
                    rolled(v, up) && at_start(up.y_off as int, h, v.screen_h as int)
                }
            } else {
                rolled(v, up) && up.y_off == v.y_off - half
            }
        }),
{
    viewport::lemma_scroll_range(w as i32, v.screen_w as i32);
    viewport::lemma_scroll_range(h as i32, v.screen_h as i32);
    lemma_next_page(doc, v, w, h);
}

/// `now` is at page `target`, or as near to it as pages go, at its start;
/// nothing changes where there are no pages.
pub open spec fn gone_to<D: PageMetrics>(doc: &D, v: Viewport, now: Viewport, target: int) -> bool {
    if doc.pages() == 0 {
        now == v
    } else {
        &&& same_view(v, now)
        &&& now.page_idx == (if target < 0 {
            0
        } else if target >= doc.pages() {
            doc.pages() - 1
        } else {
            target
        })
        &&& doc.composed(now.page_idx as nat, v.spec_look()) matches Ok(e) ==> (e.0 <= i32::MAX
            && e.1 <= i32::MAX ==> at_start(now.y_off as int, e.1 as int, v.screen_h as int)
            && placed(now.x_off as int, e.0 as int, v.screen_w as int))
    }
}

proof fn lemma_on_page<D: PageMetrics>(doc: &D, v: Viewport, target: int)
    requires
        doc.pages() <= usize::MAX,
        0 <= target,
        1 <= v.screen_w <= i32::MAX,
        1 <= v.screen_h <= i32::MAX,
    ensures
        gone_to(doc, v, navigator::on_page(doc, v, target, navigator::Anchor::Start).0, target),
{
    if doc.pages() > 0 {
        let page = if target < doc.pages() {
            target
        } else {
            doc.pages() - 1
        };
        if let Ok(e) = doc.composed(page as nat, v.spec_look()) {
            if e.0 <= i32::MAX && e.1 <= i32::MAX {
                viewport::lemma_scroll_range(e.0 as i32, v.screen_w as i32);
                viewport::lemma_scroll_range(e.1 as i32, v.screen_h as i32);
            }
        }
    }
}

/// The actions that go to a page: one on, one back, the first, the last, and
/// the one that is asked for, counted from 0. Each shows the start of its page,
/// or of the nearest page that there is.
pub proof fn lemma_pages<D: PageMetrics>(doc: &D, v: Viewport, page: usize, product: Real32)
    requires
        v.page_idx < doc.pages() <= usize::MAX,
        1 <= v.screen_w <= i32::MAX,
        1 <= v.screen_h <= i32::MAX,
    ensures
        gone_to(doc, v, navigator::moved(doc, v, Action::NextPage, product).0, v.page_idx + 1),
        gone_to(doc, v, navigator::moved(doc, v, Action::PrevPage, product).0, v.page_idx - 1),
        gone_to(doc, v, navigator::moved(doc, v, Action::FirstPage, product).0, 0),
        gone_to(doc, v, navigator::moved(doc, v, Action::LastPage, product).0, doc.pages() - 1),
        gone_to(doc, v, navigator::moved(doc, v, Action::GotoPage(page), product).0, page as int),
{
    lemma_on_page(doc, v, v.page_idx + 1);
    lemma_on_page(doc, v, 0);
    lemma_on_page(doc, v, doc.pages() - 1);
    lemma_on_page(doc, v, page as int);
    if v.page_idx > 0 {
        lemma_on_page(doc, v, v.page_idx - 1);
    }
}

/// The top, the middle and the bottom of the page: its first pixel at the top
/// of the screen, its last one at the bottom, or as much of it above the
/// screen as below, to within a pixel.
pub proof fn lemma_anchors<D: PageMetrics>(
    doc: &D,
    v: Viewport,
    w: int,
    h: int,
    product: Real32,
)
    requires
        fills(doc, v, w, h),
        shown(v, w, h),
    ensures
        ({
            let top = navigator::moved(doc, v, Action::PageTop, product).0;
            rolled(v, top) && at_start(top.y_off as int, h, v.screen_h as int)
        }),
        ({
            let bottom = navigator::moved(doc, v, Action::PageBottom, product).0;
            rolled(v, bottom) && at_end(bottom.y_off as int, h, v.screen_h as int)
        }),
        ({
            let middle = navigator::moved(doc, v, Action::PageMiddle, product).0;
            &&& rolled(v, middle)
            &&& placed(middle.y_off as int, h, v.screen_h as int)
            &&& h > v.screen_h ==> 0 <= (h - v.screen_h - middle.y_off) - middle.y_off <= 1
        }),
{
    viewport::lemma_scroll_range(w as i32, v.screen_w as i32);
    viewport::lemma_scroll_range(h as i32, v.screen_h as i32);
}

/// The view `asked` is as wanted, but for the offsets: they are at the start
/// of the page, where its extent can be had.
pub open spec fn restarted<D: PageMetrics>(doc: &D, asked: Viewport, now: Viewport) -> bool {
    &&& same_view(asked, now)
    &&& now.page_idx == asked.page_idx
    &&& match doc.composed(asked.page_idx as nat, asked.spec_look()) {
        Ok(e) => e.0 <= i32::MAX && e.1 <= i32::MAX && asked.screen_w <= i32::MAX && asked.screen_h
            <= i32::MAX ==> at_start(now.x_off as int, e.0 as int, asked.screen_w as int)
            && at_start(now.y_off as int, e.1 as int, asked.screen_h as int),
        Err(_) => now == asked,
    }
}

proof fn lemma_snapped<D: PageMetrics>(doc: &D, asked: Viewport)
    ensures
        restarted(doc, asked, navigator::snapped_on(doc, asked).0),
{
    if let Ok(e) = doc.composed(asked.page_idx as nat, asked.spec_look()) {
        if e.0 <= i32::MAX && e.1 <= i32::MAX && asked.screen_w <= i32::MAX && asked.screen_h
            <= i32::MAX {
            viewport::lemma_scroll_range(e.0 as i32, asked.screen_w as i32);
            viewport::lemma_scroll_range(e.1 as i32, asked.screen_h as i32);
        }
    }
}

/// A rotation by quarters of a turn, clockwise.
pub open spec fn clockwise(r: Rotation) -> Rotation {
    match r {
        Rotation::R0 => Rotation::R90,
        Rotation::R90 => Rotation::R180,
        Rotation::R180 => Rotation::R270,
        Rotation::R270 => Rotation::R0,
    }
}

/// Zoom, rotation and screen are what was asked for, a turn clockwise is one
/// turn on and a turn counter-clockwise takes it back; the view starts anew at
/// the start of the page.
pub proof fn lemma_looks<D: PageMetrics>(
    doc: &D,
    v: Viewport,
    zoom: ZoomMode,
    rotation: Rotation,
    width: u32,
    height: u32,
    product: Real32,
)
    ensures
        restarted(
            doc,
            Viewport { zoom, ..v },
            navigator::moved(doc, v, Action::SetZoom(zoom), product).0,
        ),
        restarted(
            doc,
            Viewport { rotation, ..v },
            navigator::moved(doc, v, Action::SetRotation(rotation), product).0,
        ),
        restarted(
            doc,
            Viewport { rotation: clockwise(v.rotation), ..v },
            navigator::moved(doc, v, Action::RotateCw, product).0,
        ),
        ({
            let back = navigator::moved(doc, v, Action::RotateCcw, product).0;
            &&& clockwise(back.rotation) == v.rotation
            &&& restarted(doc, Viewport { rotation: back.rotation, ..v }, back)
        }),
        1 <= width && 1 <= height ==> restarted(
            doc,
            Viewport { screen_w: width, screen_h: height, ..v },
            navigator::moved(doc, v, Action::Resize(width, height), product).0,
        ),
{
    lemma_snapped(doc, Viewport { zoom, ..v });
    lemma_snapped(doc, Viewport { rotation, ..v });
    lemma_snapped(doc, Viewport { rotation: navigator::turned(v.rotation, 1), ..v });
    lemma_snapped(doc, Viewport { rotation: navigator::turned(v.rotation, 3), ..v });
    lemma_snapped(doc, Viewport { screen_w: width, screen_h: height, ..v });
}

/// A relative zoom by a positive factor sets the zoom to the product, kept
/// between a tenth and ten; another factor changes nothing.
pub proof fn lemma_zoom_by<D: PageMetrics>(doc: &D, v: Viewport, factor: Real32, product: Real32)
    ensures
        ({
            let now = navigator::moved(doc, v, Action::ZoomBy(factor), product).0;
            if !factor.nan() && 0 < factor.bits < 0x8000_0000 {
                &&& now.zoom is Custom
                &&& restarted(doc, Viewport { zoom: now.zoom, ..v }, now)
                &&& 0x3DCC_CCCD <= product.bits <= 0x4120_0000 ==> now.zoom == ZoomMode::Custom(
                    product,
                )
                &&& 0x4120_0000 < product.bits <= 0x7F80_0000 ==> now.zoom == ZoomMode::Custom(
                    Real32 { bits: 0x4120_0000 },
                )
                &&& product.bits < 0x3DCC_CCCD ==> now.zoom == ZoomMode::Custom(
                    Real32 { bits: 0x3DCC_CCCD },
                )
            } else {
                now == v
            }
        }),
{
    let zoom = ZoomMode::Custom(
        product.clamped(Real32 { bits: 0x3DCC_CCCD }, Real32 { bits: 0x4120_0000 }),
    );
    lemma_snapped(doc, Viewport { zoom, ..v });
}

/// Night mode, resolution and quality are set, toggling turns night into day
/// and day into night, and nothing else changes.
pub proof fn lemma_settings<D: PageMetrics>(
    doc: &D,
    v: Viewport,
    on: bool,
    dpi: Option<Real32>,
    quality: Real32,
    product: Real32,
)
    ensures
        navigator::moved(doc, v, Action::SetNight(on), product).0 == (Viewport {
            night_mode: on,
            ..v
        }),
        navigator::moved(doc, v, Action::ToggleNight, product).0 == (Viewport {
            night_mode: !v.night_mode,
            ..v
        }),
        navigator::moved(doc, v, Action::SetRenderDpi(dpi), product).0 == (Viewport {
            render_dpi: dpi,
            ..v
        }),
        0x3DCC_CCCD <= quality.bits <= 0x4000_0000 ==> navigator::moved(
            doc,
            v,
            Action::SetRenderQuality(quality),
            product,
        ).0 == (Viewport { render_quality: quality, ..v }),
        0x4000_0000 < quality.bits <= 0x7F80_0000 ==> navigator::moved(
            doc,
            v,
            Action::SetRenderQuality(quality),
            product,
        ).0 == (Viewport { render_quality: Real32 { bits: 0x4000_0000 }, ..v }),
        quality.bits < 0x3DCC_CCCD ==> navigator::moved(
            doc,
            v,
            Action::SetRenderQuality(quality),
            product,
        ).0 == (Viewport { render_quality: Real32 { bits: 0x3DCC_CCCD }, ..v }),
        navigator::moved(doc, v, Action::Nothing, product).0 == v,
{
}

/// A jump leads to exactly the place that is named, where the page has it.
pub proof fn lemma_jump_lands<D: PageMetrics>(
    doc: &D,
    v: Viewport,
    to: Viewport,
    w: int,
    h: int,
    product: Real32,
)
    requires
        same_view(v, to),
        fills(doc, to, w, h),
        shown(to, w, h),
    ensures
        navigator::moved(
            doc,
            v,
            Action::JumpTo { page_idx: to.page_idx, x_off: to.x_off, y_off: to.y_off },
            product,
        ).0 == to,
{
    viewport::lemma_scroll_range(w as i32, v.screen_w as i32);
    viewport::lemma_scroll_range(h as i32, v.screen_h as i32);
}

} // verus!
