//! What a frame shows of its page.
use vstd::prelude::*;

use crate::cache::CachedPage;
use crate::document::{Document, MatchRect, PageError, PageSize};
use crate::picture::Image;
use crate::renderer::{self, Scales, Spot, Tint};
use crate::viewport::Viewport;

verus! {

/// A channel of a pixel of a page, by its place among the bytes.
pub open spec fn byte(p: Image, px: int, py: int, c: int) -> u8 {
    p.data@[4 * (py * p.width + px) + c]
}

/// The pixel lies on the page.
pub open spec fn on_page(p: Image, px: int, py: int) -> bool {
    0 <= px < p.width && 0 <= py < p.height
}

/// Every pixel of a page shows in the frame as far left and up of its own
/// place as the view is scrolled: in its own colours by day, in the opposite
/// ones at night. Around the page the frame is black by day and dark grey at
/// night.
pub proof fn lemma_frame_shows_page(p: Image, v: Viewport, px: int, py: int)
    ensures
        ({
            let x = px - v.x_off;
            let y = py - v.y_off;
            &&& on_page(p, px, py) && !v.night_mode ==> forall|c: int|
                0 <= c < 4 ==> #[trigger] renderer::frame_channel(p, v, x, y, c) == byte(
                    p,
                    px,
                    py,
                    c,
                )
            &&& on_page(p, px, py) && v.night_mode ==> forall|c: int|
                0 <= c < 3 ==> #[trigger] renderer::frame_channel(p, v, x, y, c) + byte(
                    p,
                    px,
                    py,
                    c,
                ) == 255
            &&& on_page(p, px, py) ==> renderer::frame_channel(p, v, x, y, 3) == byte(p, px, py, 3)
            &&& !on_page(p, px, py) ==> forall|c: int|
                0 <= c < 4 ==> #[trigger] renderer::frame_channel(p, v, x, y, c) == (if c == 3 {
                    255
                } else if v.night_mode {
                    40
                } else {
                    0int
                })
        }),
{
}

/// Scrolling moves the picture and nothing else: what stood at a place stands
/// further left and up by as much as the view moved right and down.
pub proof fn lemma_frame_moves(p: Image, v: Viewport, w: Viewport, x: int, y: int, c: int)
    requires
        w == (Viewport { x_off: w.x_off, y_off: w.y_off, ..v }),
    ensures
        renderer::frame_channel(p, w, x - (w.x_off - v.x_off), y - (w.y_off - v.y_off), c)
            == renderer::frame_channel(p, v, x, y, c),
{
}

/// A frame is as large as the screen, and has a pixel where there is none.
pub proof fn lemma_frame_extent(v: Viewport)
    ensures
        v.screen_w >= 1 ==> renderer::frame_width(v) == v.screen_w,
        v.screen_h >= 1 ==> renderer::frame_height(v) == v.screen_h,
        v.screen_w == 0 ==> renderer::frame_width(v) == 1,
        v.screen_h == 0 ==> renderer::frame_height(v) == 1,
{
}

/// The pixel of a page lies in the rectangle between two corners.
pub open spec fn covers(s: Spot, px: int, py: int) -> bool {
    &&& s.x0 <= px < s.x1 || s.x1 <= px < s.x0
    &&& s.y0 <= py < s.y1 || s.y1 <= py < s.y0
}

/// A pixel of the frame is in a spot exactly where the pixel of the page that
/// shows there is.
pub proof fn lemma_spot_is_on_the_page(s: Spot, v: Viewport, x: int, y: int)
    ensures
        renderer::in_spot(s, v, x, y) <==> covers(s, x + v.x_off, y + v.y_off),
{
}

/// What tinting makes of a colour.
pub open spec fn coloured(t: Tint, c: int, value: u8) -> u8 {
    t.table@[256 * c + value]
}

/// Where no hit lies, the frame keeps its colours. A pixel of exactly one hit
/// gets that hit's tint: the strong one for the current hit, the plain one for
/// another. The alpha channel stays.
pub proof fn lemma_tint(
    value: u8,
    spots: Seq<Spot>,
    current: Option<usize>,
    v: Viewport,
    plain: Tint,
    strong: Tint,
    px: int,
    py: int,
    c: int,
    k: int,
)
    requires
        0 <= c < 4,
        spots.len() <= usize::MAX,
    ensures
        ({
            let x = px - v.x_off;
            let y = py - v.y_off;
            let r = renderer::tinted(value, spots, current, v, plain, strong, x, y, c);
            &&& c == 3 ==> r == value
            &&& (forall|i: int| 0 <= i < spots.len() ==> !covers(#[trigger] spots[i], px, py)) ==> r
                == value
            &&& c < 3 && 0 <= k < spots.len() && covers(spots[k], px, py) && (forall|i: int|
                0 <= i < spots.len() && i != k ==> !covers(#[trigger] spots[i], px, py)) ==> r
                == coloured(
                if current == Some(k as usize) {
                    strong
                } else {
                    plain
                },
                c,
                value,
            )
        }),
    decreases spots.len(),
{
    let x = px - v.x_off;
    let y = py - v.y_off;
    if spots.len() > 0 {
        let fewer = spots.drop_last();
        let n = spots.len() - 1;
        lemma_spot_is_on_the_page(spots[n], v, x, y);
        assert(spots.last() == spots[n]);
        assert(forall|i: int| 0 <= i < n ==> fewer[i] == spots[i]);
        lemma_tint(value, fewer, current, v, plain, strong, px, py, c, k);
        if 0 <= k < n {
            lemma_tint(value, fewer, current, v, plain, strong, px, py, c, k);
        }
    }
}

/// One more hit tints what the ones before it left, there and nowhere else.
pub proof fn lemma_one_more_hit(
    value: u8,
    spots: Seq<Spot>,
    s: Spot,
    current: Option<usize>,
    v: Viewport,
    plain: Tint,
    strong: Tint,
    px: int,
    py: int,
    c: int,
)
    requires
        0 <= c < 3,
        spots.len() < usize::MAX,
    ensures
        ({
            let x = px - v.x_off;
            let y = py - v.y_off;
            let before = renderer::tinted(value, spots, current, v, plain, strong, x, y, c);
            renderer::tinted(value, spots.push(s), current, v, plain, strong, x, y, c) == (
            if !covers(s, px, py) {
                before
            } else if current == Some(spots.len() as usize) {
                coloured(strong, c, before)
            } else {
                coloured(plain, c, before)
            })
        }),
{
    assert(spots.push(s).drop_last() =~= spots);
    lemma_spot_is_on_the_page(s, v, px - v.x_off, py - v.y_off);
}

/// Read by the pixels of the page, the tint does not depend on how far the
/// view is scrolled.
pub proof fn lemma_tint_stays_on_the_page(
    value: u8,
    spots: Seq<Spot>,
    current: Option<usize>,
    v: Viewport,
    w: Viewport,
    plain: Tint,
    strong: Tint,
    px: int,
    py: int,
    c: int,
)
    ensures
        renderer::tinted(
            value,
            spots,
            current,
            v,
            plain,
            strong,
            px - v.x_off,
            py - v.y_off,
            c,
        ) == renderer::tinted(
            value,
            spots,
            current,
            w,
            plain,
            strong,
            px - w.x_off,
            py - w.y_off,
            c,
        ),
    decreases spots.len(),
{
    if spots.len() > 0 {
        lemma_tint_stays_on_the_page(
            value,
            spots.drop_last(),
            current,
            v,
            w,
            plain,
            strong,
            px,
            py,
            c,
        );
    }
}

proof fn lemma_rects(matches: Seq<MatchRect>, page: usize, i: int)
    requires
        0 <= i < matches.len(),
        matches[i].page_idx == page,
    ensures
        renderer::rects_on(matches.take(i), page).len() < renderer::rects_on(matches, page).len(),
        renderer::rects_on(matches, page)[renderer::rects_on(matches.take(i), page).len() as int]
            == matches[i].rect,
        renderer::rects_on(matches.take(i), page).len() <= i,
    decreases matches.len(),
{
    let fewer = matches.drop_last();
    lemma_rects_few(matches.take(i), page);
    if i == matches.len() - 1 {
        assert(matches.take(i) =~= fewer);
    } else {
        assert(fewer.take(i) =~= matches.take(i));
        lemma_rects(fewer, page, i);
    }
}

proof fn lemma_rects_few(matches: Seq<MatchRect>, page: usize)
    ensures
        renderer::rects_on(matches, page).len() <= matches.len(),
        (forall|i: int| 0 <= i < matches.len() ==> (#[trigger] matches[i]).page_idx != page)
            ==> renderer::rects_on(matches, page).len() == 0,
    decreases matches.len(),
{
    if matches.len() > 0 {
        let fewer = matches.drop_last();
        lemma_rects_few(fewer, page);
        assert(forall|i: int| 0 <= i < fewer.len() ==> fewer[i] == matches[i]);
        assert(matches.last() == matches[matches.len() - 1]);
    }
}

/// The highlights of a page are exactly the hits on it: each of them is there,
/// none of another page is, and the current hit keeps its rectangle.
pub proof fn lemma_highlights(matches: Seq<MatchRect>, page: usize, i: int)
    requires
        0 <= i < matches.len() <= usize::MAX,
    ensures
        matches[i].page_idx == page ==> {
            let at = renderer::place_on(matches, page, Some(i as usize));
            &&& at matches Some(k)
            &&& k < renderer::rects_on(matches, page).len()
            &&& renderer::rects_on(matches, page)[k as int] == matches[i].rect
        },
        matches[i].page_idx != page ==> renderer::place_on(matches, page, Some(i as usize)) is None,
        (forall|j: int| 0 <= j < matches.len() ==> (#[trigger] matches[j]).page_idx != page)
            ==> renderer::rects_on(matches, page).len() == 0,
        renderer::rects_on(matches, page).len() <= matches.len(),
{
    lemma_rects_few(matches, page);
    if matches[i].page_idx == page {
        lemma_rects(matches, page, i);
    }
}

/// What is rasterised is the page and the rotation of the viewport, at the
/// scale that was reckoned for them. A raster that has the extent on screen
/// already is shown as it is.
pub proof fn lemma_raster_is_shown<D, S, G>(
    doc: &D,
    v: Viewport,
    scales: &S,
    scaled: &G,
    k: Scales,
    size: PageSize,
    raw: Image,
    r: Result<CachedPage, PageError>,
) where
    D: Document,
    S: Fn(Viewport, PageSize) -> Scales,
    G: Fn(u32, Scales) -> u32,

    requires
        renderer::rendered(doc, v, scales, scaled, r),
        doc.native(v.page_idx as nat) == Ok::<PageSize, PageError>(size),
        forall|other: Scales| call_ensures(scales, (v, size), other) ==> other == k,
        k.close,
        doc.raster(v.page_idx as nat, k.raster, v.rotation) == Ok::<Image, PageError>(raw),
        doc.composed(v.page_idx as nat, v.spec_look()) == Ok::<(u32, u32), PageError>(
            (raw.width, raw.height),
        ),
    ensures
        r == Ok::<CachedPage, PageError>(
            CachedPage {
                page_idx: v.page_idx,
                rotation: v.rotation,
                display_scale: k.display,
                image: raw,
            },
        ),
{
}

} // verus!
