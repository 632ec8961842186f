//! Movement: from a viewport and an action to the next viewport.
use vstd::prelude::*;

use crate::document::{PageError, PageMetrics};
use crate::number::{Real32, ONE, ONE_TENTH, TEN, TWO};
use crate::viewport::{self, clamp_i32, Rotation, Viewport, ZoomMode};

verus! {

/// Percentage of the screen kept visible when a scroll moves by one screen.
pub const SCROLL_OVERLAP: u32 = 10;

#[derive(Debug, Clone, Copy, PartialEq, Eq, Structural)]
pub enum Action {
    NextScreen,
    PrevScreen,
    /// A tenth of a screen.
    FineScrollDown,
    FineScrollUp,
    NextPage,
    PrevPage,
    HalfScreenDown,
    HalfScreenUp,
    ScrollLeft,
    ScrollRight,
    PageTop,
    PageMiddle,
    PageBottom,
    FirstPage,
    LastPage,
    GotoPage(usize),
    /// Restore a remembered position.
    JumpTo { page_idx: usize, x_off: i32, y_off: i32 },
    SetZoom(ZoomMode),
    ZoomBy(Real32),
    RotateCw,
    RotateCcw,
    SetRotation(Rotation),
    SetNight(bool),
    ToggleNight,
    SetRenderDpi(Option<Real32>),
    SetRenderQuality(Real32),
    Resize(u32, u32),
    /// No-op. Convenient for Esc, repeated stateless keys, etc.
    Nothing,
}

/// Where on a page to land.
#[derive(Debug, Clone, Copy, PartialEq, Eq, Structural)]
pub enum Anchor {
    Start,
    Middle,
    End,
}

/// Outcome of a move: the viewport afterwards, and the error if the page's
/// extent could not be had.
pub type Moved = (Viewport, Result<(), PageError>);

/// One screen minus the overlap, rounded to the nearest pixel (halves up),
/// and at least one pixel.
pub open spec fn screen_step(screen: u32) -> int {
    let s = ((100 - SCROLL_OVERLAP) * screen + 50) / 100;
    if s < 1 {
        1
    } else {
        s
    }
}

/// A tenth of a screen, rounded to the nearest pixel (halves up), and at least
/// one pixel.
pub open spec fn fine_step(screen: u32) -> int {
    let s = (screen + 5) / 10;
    if s < 1 {
        1
    } else {
        s
    }
}

/// Half a screen, and at least one pixel.
pub open spec fn half_step(screen: u32) -> int {
    let s = viewport::half_towards_zero(screen as i32 as int);
    if s < 1 {
        1
    } else {
        s
    }
}

/// `v` with its offsets at the start of a page of that extent.
pub open spec fn snapped(v: Viewport, extent: (u32, u32)) -> Viewport {
    Viewport { x_off: v.x_bounds(extent.0).0 as i32, y_off: v.y_bounds(extent.1).0 as i32, ..v }
}

/// `v` with its offsets at the start of its page.
pub open spec fn snapped_on<D: PageMetrics>(doc: &D, v: Viewport) -> Moved {
    match doc.composed(v.page_idx as nat, v.spec_look()) {
        Ok(extent) => (snapped(v, extent), Ok(())),
        Err(e) => (v, Err(e)),
    }
}

/// `v` at an anchor of a page of that extent: x keeps its place where it can.
pub open spec fn anchored(v: Viewport, extent: (u32, u32), anchor: Anchor) -> Viewport {
    let (xmin, xmax) = v.x_bounds(extent.0);
    let (ymin, ymax) = v.y_bounds(extent.1);
    Viewport {
        x_off: viewport::clamped(v.x_off as int, xmin, xmax) as i32,
        y_off: (match anchor {
            Anchor::Start => ymin,
            Anchor::End => ymax,
            Anchor::Middle => viewport::half_towards_zero(ymin + ymax),
        }) as i32,
        ..v
    }
}

pub open spec fn anchored_on<D: PageMetrics>(doc: &D, v: Viewport, anchor: Anchor) -> Moved {
    match doc.composed(v.page_idx as nat, v.spec_look()) {
        Ok(extent) => (anchored(v, extent, anchor), Ok(())),
        Err(e) => (v, Err(e)),
    }
}

/// `v` on the page nearest to `page` that exists; nothing happens in an empty
/// document.
pub open spec fn on_page<D: PageMetrics>(doc: &D, v: Viewport, page: int, anchor: Anchor) -> Moved {
    if doc.pages() == 0 {
        (v, Ok(()))
    } else {
        let target = if page < doc.pages() {
            page
        } else {
            doc.pages() - 1
        };
        anchored_on(doc, Viewport { page_idx: target as usize, ..v }, anchor)
    }
}

/// One page further where there is one.
pub open spec fn page_after<D: PageMetrics>(doc: &D, v: Viewport) -> Moved {
    if v.page_idx + 1 < doc.pages() {
        on_page(doc, v, v.page_idx + 1, Anchor::Start)
    } else {
        (v, Ok(()))
    }
}

/// One page back where there is one.
pub open spec fn page_before<D: PageMetrics>(doc: &D, v: Viewport, anchor: Anchor) -> Moved {
    if v.page_idx > 0 {
        on_page(doc, v, v.page_idx - 1, anchor)
    } else {
        (v, Ok(()))
    }
}

/// A page that fits, or whose end is on screen, gives way to the next one;
/// otherwise the view moves down by `step`, at most to the page's end.
pub open spec fn scrolled_down<D: PageMetrics>(doc: &D, v: Viewport, step: int) -> Moved {
    match doc.composed(v.page_idx as nat, v.spec_look()) {
        Err(e) => (v, Err(e)),
        Ok(extent) => {
            let ymax = v.y_bounds(extent.1).1;
            if (extent.0 <= v.screen_w && extent.1 <= v.screen_h) || v.y_off >= ymax {
                page_after(doc, v)
            } else {
                let y = v.y_off + step;
                (Viewport { y_off: (if y < ymax { y } else { ymax }) as i32, ..v }, Ok(()))
            }
        },
    }
}

/// A page that fits, or whose start is on screen, gives way to the end of the
/// one before; otherwise the view moves up by `step`, at most to the page's
/// start.
pub open spec fn scrolled_up<D: PageMetrics>(doc: &D, v: Viewport, step: int) -> Moved {
    match doc.composed(v.page_idx as nat, v.spec_look()) {
        Err(e) => (v, Err(e)),
        Ok(extent) => {
            let ymin = v.y_bounds(extent.1).0;
            if (extent.0 <= v.screen_w && extent.1 <= v.screen_h) || v.y_off <= ymin {
                page_before(doc, v, Anchor::End)
            } else {
                let y = v.y_off - step;
                (Viewport { y_off: (if y > ymin { y } else { ymin }) as i32, ..v }, Ok(()))
            }
        },
    }
}

/// Half a screen down or up; past the page's end (start) the view moves on to
/// the neighbouring page, where there is one.
pub open spec fn half_screen_moved<D: PageMetrics>(doc: &D, v: Viewport, down: bool) -> Moved {
    match doc.composed(v.page_idx as nat, v.spec_look()) {
        Err(e) => (v, Err(e)),
        Ok(extent) => {
            let (ymin, ymax) = v.y_bounds(extent.1);
            let step = half_step(v.screen_h);
            let target = if down {
                v.y_off + step
            } else {
                v.y_off - step
            };
            if extent.0 <= v.screen_w && extent.1 <= v.screen_h {
                if down {
                    page_after(doc, v)
                } else {
                    page_before(doc, v, Anchor::Start)
                }
            } else if down && target > ymax && v.page_idx + 1 < doc.pages() {
                page_after(doc, v)
            } else if !down && target < ymin && v.page_idx > 0 {
                page_before(doc, v, Anchor::End)
            } else {
                (Viewport { y_off: viewport::clamped(target, ymin, ymax) as i32, ..v }, Ok(()))
            }
        },
    }
}

/// One screen left or right within the page.
pub open spec fn sideways<D: PageMetrics>(doc: &D, v: Viewport, right: bool) -> Moved {
    match doc.composed(v.page_idx as nat, v.spec_look()) {
        Err(e) => (v, Err(e)),
        Ok(extent) => {
            let (xmin, xmax) = v.x_bounds(extent.0);
            let step = screen_step(v.screen_w);
            let target = if right {
                v.x_off + step
            } else {
                v.x_off - step
            };
            (Viewport { x_off: viewport::clamped(target, xmin, xmax) as i32, ..v }, Ok(()))
        },
    }
}

/// A remembered position, with page and offsets forced into range.
pub open spec fn jumped<D: PageMetrics>(doc: &D, v: Viewport, page: int, x_off: i32, y_off: i32) -> Moved {
    if doc.pages() == 0 {
        (v, Ok(()))
    } else {
        let target = if page < doc.pages() {
            page
        } else {
            doc.pages() - 1
        };
        let w = Viewport { page_idx: target as usize, ..v };
        match doc.composed(target as nat, v.spec_look()) {
            Err(e) => (w, Err(e)),
            Ok(extent) => (
                Viewport {
                    x_off: viewport::clamped(
                        x_off as int,
                        v.x_bounds(extent.0).0,
                        v.x_bounds(extent.0).1,
                    ) as i32,
                    y_off: viewport::clamped(
                        y_off as int,
                        v.y_bounds(extent.1).0,
                        v.y_bounds(extent.1).1,
                    ) as i32,
                    ..w
                },
                Ok(()),
            ),
        }
    }
}

/// The multiplier that a relative zoom starts from.
pub open spec fn zoom_base(zoom: ZoomMode) -> Real32 {
    match zoom {
        ZoomMode::Custom(m) => m,
        _ => Real32 { bits: ONE },
    }
}

/// Where `action` takes `v`. `product` is the zoom base times the factor of a
/// relative zoom; no other action looks at it.
pub open spec fn moved<D: PageMetrics>(
    doc: &D,
    v: Viewport,
    action: Action,
    product: Real32,
) -> Moved {
    match action {
        Action::Nothing => (v, Ok(())),
        Action::Resize(w, h) => snapped_on(
            doc,
            Viewport {
                screen_w: (if w < 1 { 1 } else { w }),
                screen_h: (if h < 1 { 1 } else { h }),
                ..v
            },
        ),
        Action::NextScreen => scrolled_down(doc, v, screen_step(v.screen_h)),
        Action::PrevScreen => scrolled_up(doc, v, screen_step(v.screen_h)),
        Action::FineScrollDown => scrolled_down(doc, v, fine_step(v.screen_h)),
        Action::FineScrollUp => scrolled_up(doc, v, fine_step(v.screen_h)),
        Action::NextPage => on_page(doc, v, v.page_idx + 1, Anchor::Start),
        Action::PrevPage => on_page(
            doc,
            v,
            if v.page_idx > 0 {
                v.page_idx - 1
            } else {
                0
            },
            Anchor::Start,
        ),
        Action::HalfScreenDown => half_screen_moved(doc, v, true),
        Action::HalfScreenUp => half_screen_moved(doc, v, false),
        Action::ScrollLeft => sideways(doc, v, false),
        Action::ScrollRight => sideways(doc, v, true),
        Action::PageTop => anchored_on(doc, v, Anchor::Start),
        Action::PageMiddle => anchored_on(doc, v, Anchor::Middle),
        Action::PageBottom => anchored_on(doc, v, Anchor::End),
        Action::FirstPage => on_page(doc, v, 0, Anchor::Start),
        Action::LastPage => on_page(doc, v, doc.pages() - 1, Anchor::Start),
        Action::GotoPage(page) => on_page(doc, v, page as int, Anchor::Start),
        Action::JumpTo { page_idx, x_off, y_off } => jumped(doc, v, page_idx as int, x_off, y_off),
        Action::SetZoom(zoom) => snapped_on(doc, Viewport { zoom, ..v }),
        Action::ZoomBy(factor) => if factor.positive() {
            snapped_on(
                doc,
                Viewport {
                    zoom: ZoomMode::Custom(
                        product.clamped(Real32 { bits: ONE_TENTH }, Real32 { bits: TEN }),
                    ),
                    ..v
                },
            )
        } else {
            (v, Ok(()))
        },
        Action::RotateCw => snapped_on(doc, Viewport { rotation: turned(v.rotation, 1), ..v }),
        Action::RotateCcw => snapped_on(doc, Viewport { rotation: turned(v.rotation, 3), ..v }),
        Action::SetRotation(rotation) => snapped_on(doc, Viewport { rotation, ..v }),
        Action::SetNight(night_mode) => (Viewport { night_mode, ..v }, Ok(())),
        Action::ToggleNight => (Viewport { night_mode: !v.night_mode, ..v }, Ok(())),
        Action::SetRenderDpi(render_dpi) => (Viewport { render_dpi, ..v }, Ok(())),
        Action::SetRenderQuality(q) => (
            Viewport {
                render_quality: q.clamped(Real32 { bits: ONE_TENTH }, Real32 { bits: TWO }),
                ..v
            },
            Ok(()),
        ),
    }
}

/// `r` turned clockwise by that many quarters.
pub open spec fn turned(r: Rotation, quarters: int) -> Rotation {
    let q = (r.quarters() + quarters) % 4;
    if q == 0 {
        Rotation::R0
    } else if q == 1 {
        Rotation::R90
    } else if q == 2 {
        Rotation::R180
    } else {
        Rotation::R270
    }
}

pub struct Navigator;

impl Navigator {
    /// Apply an action against a document and mutate `viewport`.
    ///
    /// `times` multiplies two numbers; only a relative zoom calls it. Where
    /// the page's extent cannot be had, the error is returned and the part of
    /// the viewport that did not depend on it has changed.
    pub fn apply<D: PageMetrics, F: Fn(Real32, Real32) -> Real32>(
        doc: &D,
        viewport: &mut Viewport,
        action: Action,
        times: &F,
    ) -> (r: Result<(), PageError>)
        requires
            forall|a: Real32, b: Real32| call_requires(times, (a, b)),
        ensures
            exists|product: Real32|
                {
                    &&& (action matches Action::ZoomBy(factor) ==> factor.positive()
                        ==> call_ensures(times, (zoom_base(old(viewport).zoom), factor), product))
                    &&& (*final(viewport), r) == #[trigger] moved(
                        doc,
                        *old(viewport),
                        action,
                        product,
                    )
                },
    {
        let ghost v = *viewport;
        let mut product: Real32 = Real32 { bits: ONE };
        let r = match action {
            Action::Nothing => Ok(()),
            Action::Resize(w, h) => {
                viewport.screen_w = if w < 1 {
                    1
                } else {
                    w
                };
                viewport.screen_h = if h < 1 {
                    1
                } else {
                    h
                };
                // Zoom re-derives from the screen size; reset the offsets so
                // that a resize does not leave the view off the page.
                snap_to_zoom_anchor(doc, viewport)
            },
            Action::NextScreen => next_screen(doc, viewport),
            Action::PrevScreen => prev_screen(doc, viewport),
            Action::FineScrollDown => scroll_down(doc, viewport, fine_step_of(viewport.screen_h)),
            Action::FineScrollUp => scroll_up(doc, viewport, fine_step_of(viewport.screen_h)),
            Action::NextPage => goto_page(
                doc,
                viewport,
                viewport.page_idx.saturating_add(1),
                Anchor::Start,
            ),
            Action::PrevPage => goto_page(
                doc,
                viewport,
                viewport.page_idx.saturating_sub(1),
                Anchor::Start,
            ),
            Action::HalfScreenDown => half_screen(doc, viewport, true),
            Action::HalfScreenUp => half_screen(doc, viewport, false),
            Action::ScrollLeft => scroll_horiz(doc, viewport, false),
            Action::ScrollRight => scroll_horiz(doc, viewport, true),
            Action::PageTop => goto_anchor(doc, viewport, Anchor::Start),
            Action::PageMiddle => goto_anchor(doc, viewport, Anchor::Middle),
            Action::PageBottom => goto_anchor(doc, viewport, Anchor::End),
            Action::FirstPage => goto_page(doc, viewport, 0, Anchor::Start),
            Action::LastPage => goto_page(
                doc,
                viewport,
                doc.page_count().saturating_sub(1),
                Anchor::Start,
            ),
            Action::GotoPage(page) => goto_page(doc, viewport, page, Anchor::Start),
            Action::JumpTo { page_idx, x_off, y_off } => jump_to(
                doc,
                viewport,
                page_idx,
                x_off,
                y_off,
            ),
            Action::SetZoom(zoom) => {
                viewport.zoom = zoom;
                snap_to_zoom_anchor(doc, viewport)
            },
            Action::ZoomBy(factor) => {
                if factor.is_positive() {
                    let base: Real32 = match viewport.zoom {
                        ZoomMode::Custom(m) => m,
                        _ => Real32 { bits: ONE },
                    };
                    product = times(base, factor);
                    viewport.zoom =
                    ZoomMode::Custom(
                        product.clamp(Real32 { bits: ONE_TENTH }, Real32 { bits: TEN }),
                    );
                    snap_to_zoom_anchor(doc, viewport)
                } else {
                    Ok(())
                }
            },
            Action::RotateCw => {
                viewport.rotation = viewport.rotation.cw();
                snap_to_zoom_anchor(doc, viewport)
            },
            Action::RotateCcw => {
                viewport.rotation = viewport.rotation.ccw();
                snap_to_zoom_anchor(doc, viewport)
            },
            Action::SetRotation(rotation) => {
                viewport.rotation = rotation;
                snap_to_zoom_anchor(doc, viewport)
            },
            Action::SetNight(b) => {
                viewport.night_mode = b;
                Ok(())
            },
            Action::ToggleNight => {
                viewport.night_mode = !viewport.night_mode;
                Ok(())
            },
            Action::SetRenderDpi(dpi) => {
                viewport.render_dpi = dpi;
                Ok(())
            },
            Action::SetRenderQuality(q) => {
                viewport.render_quality =
                q.clamp(Real32 { bits: ONE_TENTH }, Real32 { bits: TWO });
                Ok(())
            },
        };
        assert((*viewport, r) == moved(doc, v, action, product));
        r
    }
}

fn step_of(screen: u32) -> (s: i64)
    ensures
        s == screen_step(screen),
        1 <= s <= u32::MAX,
{
    assert((100 - SCROLL_OVERLAP) * screen == 90 * screen) by (nonlinear_arith)
        requires
            SCROLL_OVERLAP == 10,
    ;
    let s: i64 = (90 * (screen as i64) + 50) / 100;
    if s < 1 {
        1
    } else {
        s
    }
}

fn fine_step_of(screen: u32) -> (s: i64)
    ensures
        s == fine_step(screen),
        1 <= s <= u32::MAX,
{
    let s: i64 = (screen as i64 + 5) / 10;
    if s < 1 {
        1
    } else {
        s
    }
}

/// After any zoom or rotation change, pin to the top-left of the page content
/// (or the centered offset for dimensions that fit).
fn snap_to_zoom_anchor<D: PageMetrics>(doc: &D, viewport: &mut Viewport) -> (r: Result<
    (),
    PageError,
>)
    ensures
        (*final(viewport), r) == snapped_on(doc, *old(viewport)),
{
    match doc.composed_page_size(viewport.page_idx, viewport.look()) {
        Ok(extent) => {
            let (xmin, _) = viewport.x_range(extent.0);
            let (ymin, _) = viewport.y_range(extent.1);
            viewport.x_off = xmin;
            viewport.y_off = ymin;
            Ok(())
        },
        Err(e) => Err(e),
    }
}

fn next_screen<D: PageMetrics>(doc: &D, viewport: &mut Viewport) -> (r: Result<(), PageError>)
    ensures
        (*final(viewport), r) == scrolled_down(
            doc,
            *old(viewport),
            screen_step(old(viewport).screen_h),
        ),
{
    scroll_down(doc, viewport, step_of(viewport.screen_h))
}

fn prev_screen<D: PageMetrics>(doc: &D, viewport: &mut Viewport) -> (r: Result<(), PageError>)
    ensures
        (*final(viewport), r) == scrolled_up(
            doc,
            *old(viewport),
            screen_step(old(viewport).screen_h),
        ),
{
    scroll_up(doc, viewport, step_of(viewport.screen_h))
}

fn scroll_down<D: PageMetrics>(doc: &D, viewport: &mut Viewport, step: i64) -> (r: Result<
    (),
    PageError,
>)
    requires
        1 <= step <= u32::MAX,
    ensures
        (*final(viewport), r) == scrolled_down(doc, *old(viewport), step as int),
{
    match doc.composed_page_size(viewport.page_idx, viewport.look()) {
        Err(e) => Err(e),
        Ok(extent) => {
            let (_, ymax) = viewport.y_range(extent.1);
            if viewport.page_fits(extent) || viewport.y_off >= ymax {
                return next_page_if_any(doc, viewport);
            }
            let y: i64 = viewport.y_off as i64 + step;
            viewport.y_off = if y < ymax as i64 {
                y as i32
            } else {
                ymax
            };
            Ok(())
        },
    }
}

fn scroll_up<D: PageMetrics>(doc: &D, viewport: &mut Viewport, step: i64) -> (r: Result<
    (),
    PageError,
>)
    requires
        1 <= step <= u32::MAX,
    ensures
        (*final(viewport), r) == scrolled_up(doc, *old(viewport), step as int),
{
    match doc.composed_page_size(viewport.page_idx, viewport.look()) {
        Err(e) => Err(e),
        Ok(extent) => {
            let (ymin, _) = viewport.y_range(extent.1);
            if viewport.page_fits(extent) || viewport.y_off <= ymin {
                return prev_page_if_any(doc, viewport, Anchor::End);
            }
            let y: i64 = viewport.y_off as i64 - step;
            viewport.y_off = if y > ymin as i64 {
                y as i32
            } else {
                ymin
            };
            Ok(())
        },
    }
}

fn half_screen<D: PageMetrics>(doc: &D, viewport: &mut Viewport, down: bool) -> (r: Result<
    (),
    PageError,
>)
    ensures
        (*final(viewport), r) == half_screen_moved(doc, *old(viewport), down),
{
    match doc.composed_page_size(viewport.page_idx, viewport.look()) {
        Err(e) => Err(e),
        Ok(extent) => {
            let (ymin, ymax) = viewport.y_range(extent.1);
            if viewport.page_fits(extent) {
                // No vertical scroll room: half a page acts like a page.
                return if down {
                    next_page_if_any(doc, viewport)
                } else {
                    prev_page_if_any(doc, viewport, Anchor::Start)
                };
            }
            let screen: i32 = #[verifier::truncate] (viewport.screen_h as i32);
            let step: i64 = if screen < 2 {
                1
            } else {
                (screen / 2) as i64
            };
            let target: i64 = if down {
                viewport.y_off as i64 + step
            } else {
                viewport.y_off as i64 - step
            };
            if down && target > ymax as i64 && viewport.page_idx.saturating_add(1)
                < doc.page_count() {
                next_page_if_any(doc, viewport)
            } else if !down && target < ymin as i64 && viewport.page_idx > 0 {
                prev_page_if_any(doc, viewport, Anchor::End)
            } else {
                viewport.y_off = if target < ymin as i64 {
                    ymin
                } else if target > ymax as i64 {
                    ymax
                } else {
                    target as i32
                };
                Ok(())
            }
        },
    }
}

fn scroll_horiz<D: PageMetrics>(doc: &D, viewport: &mut Viewport, right: bool) -> (r: Result<
    (),
    PageError,
>)
    ensures
        (*final(viewport), r) == sideways(doc, *old(viewport), right),
{
    match doc.composed_page_size(viewport.page_idx, viewport.look()) {
        Err(e) => Err(e),
        Ok(extent) => {
            let (xmin, xmax) = viewport.x_range(extent.0);
            let step: i64 = step_of(viewport.screen_w);
            let target: i64 = if right {
                viewport.x_off as i64 + step
            } else {
                viewport.x_off as i64 - step
            };
            viewport.x_off = if target < xmin as i64 {
                xmin
            } else if target > xmax as i64 {
                xmax
            } else {
                target as i32
            };
            Ok(())
        },
    }
}

fn goto_anchor<D: PageMetrics>(doc: &D, viewport: &mut Viewport, anchor: Anchor) -> (r: Result<
    (),
    PageError,
>)
    ensures
        (*final(viewport), r) == anchored_on(doc, *old(viewport), anchor),
{
    match doc.composed_page_size(viewport.page_idx, viewport.look()) {
        Ok(extent) => {
            apply_anchor(viewport, extent, anchor);
            Ok(())
        },
        Err(e) => Err(e),
    }
}

fn goto_page<D: PageMetrics>(
    doc: &D,
    viewport: &mut Viewport,
    page_idx: usize,
    anchor: Anchor,
) -> (r: Result<(), PageError>)
    ensures
        (*final(viewport), r) == on_page(doc, *old(viewport), page_idx as int, anchor),
        page_idx == usize::MAX ==> (*final(viewport), r) == on_page(
            doc,
            *old(viewport),
            usize::MAX + 1,
            anchor,
        ),
{
    let count: usize = doc.page_count();
    if count == 0 {
        return Ok(());
    }
    viewport.page_idx = if page_idx < count {
        page_idx
    } else {
        count - 1
    };
    goto_anchor(doc, viewport, anchor)
}

fn next_page_if_any<D: PageMetrics>(doc: &D, viewport: &mut Viewport) -> (r: Result<(), PageError>)
    ensures
        (*final(viewport), r) == page_after(doc, *old(viewport)),
{
    if viewport.page_idx.saturating_add(1) < doc.page_count() {
        goto_page(doc, viewport, viewport.page_idx + 1, Anchor::Start)
    } else {
        Ok(())
    }
}

fn prev_page_if_any<D: PageMetrics>(doc: &D, viewport: &mut Viewport, anchor: Anchor) -> (r: Result<
    (),
    PageError,
>)
    ensures
        (*final(viewport), r) == page_before(doc, *old(viewport), anchor),
{
    if viewport.page_idx > 0 {
        goto_page(doc, viewport, viewport.page_idx - 1, anchor)
    } else {
        Ok(())
    }
}

fn jump_to<D: PageMetrics>(
    doc: &D,
    viewport: &mut Viewport,
    page_idx: usize,
    x_off: i32,
    y_off: i32,
) -> (r: Result<(), PageError>)
    ensures
        (*final(viewport), r) == jumped(doc, *old(viewport), page_idx as int, x_off, y_off),
{
    let count: usize = doc.page_count();
    if count == 0 {
        return Ok(());
    }
    viewport.page_idx = if page_idx < count {
        page_idx
    } else {
        count - 1
    };
    match doc.composed_page_size(viewport.page_idx, viewport.look()) {
        Ok(extent) => {
            viewport.x_off = x_off;
            viewport.y_off = y_off;
            viewport.clamp_offsets(extent);
            Ok(())
        },
        Err(e) => Err(e),
    }
}

fn apply_anchor(viewport: &mut Viewport, extent: (u32, u32), anchor: Anchor)
    ensures
        *final(viewport) == anchored(*old(viewport), extent, anchor),
{
    let (xmin, xmax) = viewport.x_range(extent.0);
    let (ymin, ymax) = viewport.y_range(extent.1);
    // Keep the current x offset if it is in range.
    viewport.x_off = clamp_i32(viewport.x_off, xmin, xmax);
    viewport.y_off = match anchor {
        Anchor::Start => ymin,
        Anchor::End => ymax,
        Anchor::Middle => {
            let sum: i64 = ymin as i64 + ymax as i64;
            if sum >= 0 {
                (sum / 2) as i32
            } else {
                (-((-sum) / 2)) as i32
            }
        },
    };
}

/// Page and offsets are ones that the document has.
pub open spec fn in_bounds<D: PageMetrics>(doc: &D, v: Viewport) -> bool {
    &&& v.page_idx < doc.pages()
    &&& doc.composed(v.page_idx as nat, v.spec_look()) matches Ok(extent) ==> {
        &&& v.x_bounds(extent.0).0 <= v.x_off <= v.x_bounds(extent.0).1
        &&& v.y_bounds(extent.1).0 <= v.y_off <= v.y_bounds(extent.1).1
    }
}

/// All extents that `doc` reports fit the signed offsets.
pub open spec fn small_extents<D: PageMetrics>(doc: &D) -> bool {
    forall|page: nat, look: viewport::Look|
        (#[trigger] doc.composed(page, look)) matches Ok(extent) ==> extent.0 <= i32::MAX
            && extent.1 <= i32::MAX
}

/// No action leaves the document: a viewport on an existing page stays on an
/// existing page, whether or not the action succeeds.
pub proof fn lemma_stays_on_a_page<D: PageMetrics>(
    doc: &D,
    v: Viewport,
    action: Action,
    product: Real32,
)
    requires
        v.page_idx < doc.pages(),
        doc.pages() <= usize::MAX,
    ensures
        moved(doc, v, action, product).0.page_idx < doc.pages(),
{
}

/// The limits under which offsets stay in range.
pub open spec fn sized<D: PageMetrics>(doc: &D, v: Viewport) -> bool {
    &&& doc.pages() <= usize::MAX
    &&& small_extents(doc)
    &&& v.screen_w <= i32::MAX
    &&& v.screen_h <= i32::MAX
}

proof fn lemma_anchor_in_bounds<D: PageMetrics>(doc: &D, v: Viewport, anchor: Anchor)
    requires
        sized(doc, v),
        v.page_idx < doc.pages(),
        anchored_on(doc, v, anchor).1 is Ok,
    ensures
        in_bounds(doc, anchored_on(doc, v, anchor).0),
{
    broadcast use viewport::lemma_scroll_range_ordered;

}

proof fn lemma_snap_in_bounds<D: PageMetrics>(doc: &D, v: Viewport)
    requires
        sized(doc, v),
        v.page_idx < doc.pages(),
        snapped_on(doc, v).1 is Ok,
    ensures
        in_bounds(doc, snapped_on(doc, v).0),
{
    broadcast use viewport::lemma_scroll_range_ordered;

}

proof fn lemma_on_page_in_bounds<D: PageMetrics>(doc: &D, v: Viewport, page: int, anchor: Anchor)
    requires
        sized(doc, v),
        0 <= page,
        doc.pages() > 0,
        on_page(doc, v, page, anchor).1 is Ok,
    ensures
        in_bounds(doc, on_page(doc, v, page, anchor).0),
{
    let target = if page < doc.pages() {
        page
    } else {
        doc.pages() - 1
    };
    lemma_anchor_in_bounds(doc, Viewport { page_idx: target as usize, ..v }, anchor);
}

proof fn lemma_scroll_in_bounds<D: PageMetrics>(doc: &D, v: Viewport, down: bool)
    requires
        sized(doc, v),
        in_bounds(doc, v),
    ensures
        forall|step: int|
            1 <= step && (#[trigger] scrolled_down(doc, v, step)).1 is Ok ==> in_bounds(
                doc,
                scrolled_down(doc, v, step).0,
            ),
        forall|step: int|
            1 <= step && (#[trigger] scrolled_up(doc, v, step)).1 is Ok ==> in_bounds(
                doc,
                scrolled_up(doc, v, step).0,
            ),
        half_screen_moved(doc, v, down).1 is Ok ==> in_bounds(
            doc,
            half_screen_moved(doc, v, down).0,
        ),
        sideways(doc, v, down).1 is Ok ==> in_bounds(doc, sideways(doc, v, down).0),
{
    broadcast use viewport::lemma_scroll_range_ordered;

    if on_page(doc, v, v.page_idx + 1, Anchor::Start).1 is Ok {
        lemma_on_page_in_bounds(doc, v, v.page_idx + 1, Anchor::Start);
    }
    if v.page_idx > 0 {
        if on_page(doc, v, v.page_idx - 1, Anchor::Start).1 is Ok {
            lemma_on_page_in_bounds(doc, v, v.page_idx - 1, Anchor::Start);
        }
        if on_page(doc, v, v.page_idx - 1, Anchor::End).1 is Ok {
            lemma_on_page_in_bounds(doc, v, v.page_idx - 1, Anchor::End);
        }
    }
}

proof fn lemma_jump_in_bounds<D: PageMetrics>(
    doc: &D,
    v: Viewport,
    page: int,
    x_off: i32,
    y_off: i32,
)
    requires
        sized(doc, v),
        0 <= page,
        doc.pages() > 0,
        jumped(doc, v, page, x_off, y_off).1 is Ok,
    ensures
        in_bounds(doc, jumped(doc, v, page, x_off, y_off).0),
{
    broadcast use viewport::lemma_scroll_range_ordered;

}

/// Every action that succeeds keeps the view inside its page's scroll range,
/// on screens and pages whose pixel extents fit the signed offsets.
#[verifier::rlimit(60)]
pub proof fn lemma_stays_in_bounds<D: PageMetrics>(
    doc: &D,
    v: Viewport,
    action: Action,
    product: Real32,
)
    requires
        in_bounds(doc, v),
        sized(doc, v),
        action matches Action::Resize(w, h) ==> w <= i32::MAX && h <= i32::MAX,
        moved(doc, v, action, product).1 is Ok,
    ensures
        in_bounds(doc, moved(doc, v, action, product).0),
{
    match action {
        Action::NextScreen | Action::PrevScreen | Action::FineScrollDown | Action::FineScrollUp
        | Action::HalfScreenDown | Action::ScrollRight => lemma_scroll_in_bounds(doc, v, true),
        Action::HalfScreenUp | Action::ScrollLeft => lemma_scroll_in_bounds(doc, v, false),
        Action::NextPage => lemma_on_page_in_bounds(doc, v, v.page_idx + 1, Anchor::Start),
        Action::PrevPage => lemma_on_page_in_bounds(
            doc,
            v,
            if v.page_idx > 0 {
                v.page_idx - 1
            } else {
                0
            },
            Anchor::Start,
        ),
        Action::FirstPage => lemma_on_page_in_bounds(doc, v, 0, Anchor::Start),
        Action::LastPage => lemma_on_page_in_bounds(doc, v, doc.pages() - 1, Anchor::Start),
        Action::GotoPage(page) => lemma_on_page_in_bounds(doc, v, page as int, Anchor::Start),
        Action::JumpTo { page_idx, x_off, y_off } => lemma_jump_in_bounds(
            doc,
            v,
            page_idx as int,
            x_off,
            y_off,
        ),
        Action::PageTop => lemma_anchor_in_bounds(doc, v, Anchor::Start),
        Action::PageMiddle => lemma_anchor_in_bounds(doc, v, Anchor::Middle),
        Action::PageBottom => lemma_anchor_in_bounds(doc, v, Anchor::End),
        Action::Resize(w, h) => lemma_snap_in_bounds(
            doc,
            Viewport {
                screen_w: (if w < 1 { 1 } else { w }),
                screen_h: (if h < 1 { 1 } else { h }),
                ..v
            },
        ),
        Action::SetZoom(zoom) => lemma_snap_in_bounds(doc, Viewport { zoom, ..v }),
        Action::ZoomBy(factor) => {
            if factor.positive() {
                let zoom = ZoomMode::Custom(
                    product.clamped(Real32 { bits: ONE_TENTH }, Real32 { bits: TEN }),
                );
                lemma_snap_in_bounds(doc, Viewport { zoom, ..v });
            }
        },
        Action::RotateCw => lemma_snap_in_bounds(
            doc,
            Viewport { rotation: turned(v.rotation, 1), ..v },
        ),
        Action::RotateCcw => lemma_snap_in_bounds(
            doc,
            Viewport { rotation: turned(v.rotation, 3), ..v },
        ),
        Action::SetRotation(rotation) => lemma_snap_in_bounds(doc, Viewport { rotation, ..v }),
        _ => {},
    }
}

/// Moving never changes what page extents depend on: only zoom, rotation and
/// resize actions do.
#[verifier::rlimit(60)]
pub proof fn lemma_movement_keeps_the_look<D: PageMetrics>(
    doc: &D,
    v: Viewport,
    action: Action,
    product: Real32,
)
    requires
        !(action is SetZoom || action is ZoomBy || action is RotateCw || action is RotateCcw
            || action is SetRotation || action is Resize),
    ensures
        moved(doc, v, action, product).0.spec_look() == v.spec_look(),
{
    match action {
        Action::NextScreen => {
            assert(moved(doc, v, action, product).0.spec_look() == v.spec_look());
        },
        Action::PrevScreen => {
            assert(moved(doc, v, action, product).0.spec_look() == v.spec_look());
        },
        Action::HalfScreenDown => {
            assert(half_screen_moved(doc, v, true).0.spec_look() == v.spec_look());
        },
        Action::HalfScreenUp => {
            assert(half_screen_moved(doc, v, false).0.spec_look() == v.spec_look());
        },
        _ => {},
    }
}

/// A step down, of a screen or a tenth of one, is progress: on a page that can be measured the view moves
/// further down, or on to the next page, or it is at the end of the last one.
pub proof fn lemma_next_screen_progresses<D: PageMetrics>(
    doc: &D,
    v: Viewport,
    action: Action,
    product: Real32,
)
    requires
        action == Action::NextScreen || action == Action::FineScrollDown,
        in_bounds(doc, v),
        doc.pages() <= usize::MAX,
        moved(doc, v, action, product).1 is Ok,
    ensures
        ({
            let w = moved(doc, v, action, product).0;
            ||| w.page_idx == v.page_idx && w.y_off > v.y_off
            ||| w.page_idx == v.page_idx + 1
            ||| w == v && v.page_idx + 1 == doc.pages()
        }),
{
    broadcast use viewport::lemma_scroll_range_ordered;

}

/// A step up, of a screen or a tenth of one, is progress: on a page that can be measured the view moves
/// further up, or back to the page before, or it is at the start of the first.
pub proof fn lemma_prev_screen_progresses<D: PageMetrics>(
    doc: &D,
    v: Viewport,
    action: Action,
    product: Real32,
)
    requires
        action == Action::PrevScreen || action == Action::FineScrollUp,
        in_bounds(doc, v),
        doc.pages() <= usize::MAX,
        moved(doc, v, action, product).1 is Ok,
    ensures
        ({
            let w = moved(doc, v, action, product).0;
            ||| w.page_idx == v.page_idx && w.y_off < v.y_off
            ||| w.page_idx == v.page_idx - 1
            ||| w == v && v.page_idx == 0
        }),
{
    broadcast use viewport::lemma_scroll_range_ordered;

}

/// A quarter turn one way and back leaves the rotation as it was, and so do
/// four turns the same way.
pub proof fn lemma_turns_cancel(r: Rotation)
    ensures
        turned(turned(r, 1), 3) == r,
        turned(turned(r, 3), 1) == r,
        turned(turned(turned(turned(r, 1), 1), 1), 1) == r,
{
}

/// Toggling night mode twice restores the viewport.
pub proof fn lemma_night_toggle_cancels<D: PageMetrics>(doc: &D, v: Viewport, product: Real32)
    ensures
        moved(
            doc,
            moved(doc, v, Action::ToggleNight, product).0,
            Action::ToggleNight,
            product,
        ).0 == v,
{
}

} // verus!
