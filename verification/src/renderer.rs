//! From pages to frames: rasterising, cropping, padding, night mode and
//! search highlights.
use image::imageops::{resize, FilterType};
use image::RgbaImage;
use vstd::prelude::*;

use crate::cache::CachedPage;
use crate::document::{Document, MatchRect, PageError, PageSize, PdfRect};
use crate::number::Real32;
use crate::picture::{self, Image};
use crate::viewport::Viewport;

verus! {

/// Colour of the padding around a page.
#[derive(Debug, Clone, Copy, PartialEq, Eq, Structural)]
pub struct PadColor(pub u8, pub u8, pub u8, pub u8);

impl PadColor {
    /// A channel of the colour.
    pub open spec fn channel(self, c: int) -> u8 {
        if c == 0 {
            self.0
        } else if c == 1 {
            self.1
        } else if c == 2 {
            self.2
        } else {
            self.3
        }
    }

    /// Dark grey at night, else black.
    pub fn for_viewport(v: &Viewport) -> (p: PadColor)
        ensures
            p == pad_color(v.night_mode),
    {
        if v.night_mode {
            PadColor(0x28, 0x28, 0x28, 0xFF)
        } else {
            PadColor(0, 0, 0, 0xFF)
        }
    }
}

pub open spec fn pad_color(night: bool) -> PadColor {
    if night {
        PadColor(0x28, 0x28, 0x28, 0xFF)
    } else {
        PadColor(0, 0, 0, 0xFF)
    }
}

/// Time spent rasterising, in nanoseconds.
#[derive(Debug, Clone, Copy, PartialEq, Eq, Structural)]
pub struct RenderTiming {
    pub render: u64,
}

/// Time spent composing, in nanoseconds.
#[derive(Debug, Clone, Copy, PartialEq, Eq, Structural)]
pub struct ComposeTiming {
    pub compose: u64,
}

/// A page and the frame composed from it.
#[derive(Debug)]
pub struct RenderedFrame {
    pub page: CachedPage,
    pub composed: Image,
}

/// The scales of a page under a viewport.
#[derive(Debug, Clone, Copy, PartialEq, Eq, Structural)]
pub struct Scales {
    /// Screen pixels per point.
    pub display: Real32,
    /// Pixels per point to rasterise at.
    pub raster: Real32,
    /// The two are as good as the same.
    pub close: bool,
}

// ------------------------------ Resizing ------------------------------

/// How the pixels of a resized picture are taken from the old one.
#[derive(Debug, Clone, Copy, PartialEq, Eq, Structural)]
pub enum Sampling {
    /// The nearest pixel.
    Nearest,
    /// The pixels around, weighted by their distance.
    Triangle,
}

/// The bytes of a picture after `image::imageops::resize`.
pub uninterp spec fn resampled(
    sampling: Sampling,
    data: Seq<u8>,
    width: u32,
    height: u32,
    new_width: u32,
    new_height: u32,
) -> Seq<u8>;

/// Up to this many pixels of an old side, and up to this many of a new one,
/// the triangle filter finds a pixel that weighs on every new pixel.
pub const OLD_SIDE: u32 = 0x40_0000;

pub const NEW_SIDE: u32 = 0x80_0000;

/// On every pixel of the new side, some pixel of the old side weighs. The
/// triangle filter holds positions in single precision. Where both sides are
/// longer than this, its positions can fall so far beside the old pixels that
/// none of them does.
pub open spec fn weighed(side: u32, new_side: u32) -> bool {
    side <= OLD_SIDE || new_side <= NEW_SIDE
}

/// The filter can work out every pixel, and resizing needs no more memory than
/// can be addressed. The first pass holds sixteen bytes for every pixel of the
/// old width and the new height.
pub open spec fn resizable(
    width: u32,
    height: u32,
    new_width: u32,
    new_height: u32,
    sampling: Sampling,
) -> bool {
    &&& 1 <= width
    &&& 1 <= height
    &&& 1 <= new_width
    &&& 1 <= new_height
    &&& sampling == Sampling::Triangle ==> weighed(width, new_width) && weighed(height, new_height)
    &&& 16 * (width * new_height) <= usize::MAX / 2
    &&& 4 * (new_width * new_height) <= usize::MAX / 2
}

/// Calls `image::imageops::resize` with the filter that is asked for on a copy
/// of the picture. The result has the new extent, its bytes depend on the
/// filter, the picture and the extents alone, and a picture that has the
/// extent already stays as it is. With the triangle filter the sides are
/// `weighed`, because on other ones it can find that no pixel weighs anything,
/// on which the call panics. What a filter computes is not said.
#[verifier::external_body]
fn resample(p: &Image, new_width: u32, new_height: u32, sampling: Sampling) -> (r: Image)
    requires
        p.sound(),
        resizable(p.width, p.height, new_width, new_height, sampling),
    ensures
        r.width == new_width,
        r.height == new_height,
        r.sound(),
        r.data@ == resampled(sampling, p.data@, p.width, p.height, new_width, new_height),
        p.width == new_width && p.height == new_height ==> r.data@ == p.data@,
{
    let source = RgbaImage::from_raw(p.width, p.height, p.data.clone()).unwrap();
    let filter = match sampling {
        Sampling::Nearest => FilterType::Nearest,
        Sampling::Triangle => FilterType::Triangle,
    };
    let out = resize(&source, new_width, new_height, filter);
    Image { width: new_width, height: new_height, data: out.into_raw() }
}

fn can_weigh(side: u32, new_side: u32) -> (b: bool)
    ensures
        b == weighed(side, new_side),
{
    side <= OLD_SIDE || new_side <= NEW_SIDE
}

fn can_resize(width: u32, height: u32, new_width: u32, new_height: u32, sampling: Sampling) -> (b:
    bool)
    ensures
        b == resizable(width, height, new_width, new_height, sampling),
{
    let most: u128 = (usize::MAX / 2) as u128;
    proof {
        assert(0 <= width * new_height <= 0xFFFF_FFFF * 0xFFFF_FFFF) by (nonlinear_arith)
            requires
                0 <= width <= 0xFFFF_FFFF,
                0 <= new_height <= 0xFFFF_FFFF,
        ;
        assert(0 <= new_width * new_height <= 0xFFFF_FFFF * 0xFFFF_FFFF) by (nonlinear_arith)
            requires
                0 <= new_width <= 0xFFFF_FFFF,
                0 <= new_height <= 0xFFFF_FFFF,
        ;
    }
    width >= 1 && height >= 1 && new_width >= 1 && new_height >= 1 && (sampling
        != Sampling::Triangle || (can_weigh(width, new_width) && can_weigh(height, new_height)))
        && 16 * (width as u128 * new_height as u128) <= most && 4 * (new_width as u128
        * new_height as u128) <= most
}

/// `r` is the picture brought to an extent, or an error where a picture is too
/// large to resize.
pub open spec fn brought(
    p: Image,
    width: u32,
    height: u32,
    sampling: Sampling,
    r: Result<Image, PageError>,
) -> bool {
    if p.width == width && p.height == height {
        r == Ok::<Image, PageError>(p)
    } else if !resizable(p.width, p.height, width, height, sampling) {
        r == Err::<Image, _>(PageError::TooLarge)
    } else {
        r matches Ok(q) && q.width == width && q.height == height && q.sound() && q.data@
            == resampled(sampling, p.data@, p.width, p.height, width, height)
    }
}

/// Bring a picture to an extent.
pub fn bring(p: Image, width: u32, height: u32, sampling: Sampling) -> (r: Result<
    Image,
    PageError,
>)
    requires
        p.sound(),
    ensures
        brought(p, width, height, sampling, r),
{
    if p.width == width && p.height == height {
        Ok(p)
    } else if !can_resize(p.width, p.height, width, height, sampling) {
        Err(PageError::TooLarge)
    } else {
        Ok(resample(&p, width, height, sampling))
    }
}

// ------------------------------ Composing ------------------------------

/// Width and height of the frame for a viewport.
pub open spec fn frame_width(v: Viewport) -> u32 {
    if v.screen_w < 1 {
        1
    } else {
        v.screen_w
    }
}

pub open spec fn frame_height(v: Viewport) -> u32 {
    if v.screen_h < 1 {
        1
    } else {
        v.screen_h
    }
}

/// A channel of a frame: the page moved by the offsets, with its colours
/// inverted at night, and padding where there is no page.
pub open spec fn frame_channel(p: Image, v: Viewport, x: int, y: int, c: int) -> u8 {
    let px = x + v.x_off;
    let py = y + v.y_off;
    if 0 <= px < p.width && 0 <= py < p.height {
        if v.night_mode && c < 3 {
            (255 - p.at(px, py, c)) as u8
        } else {
            p.at(px, py, c)
        }
    } else {
        pad_color(v.night_mode).channel(c)
    }
}

/// `out` is the frame of a page under a viewport.
pub open spec fn is_frame(out: Image, p: Image, v: Viewport) -> bool {
    &&& out.width == frame_width(v)
    &&& out.height == frame_height(v)
    &&& out.sound()
    &&& forall|x: int, y: int, c: int|
        0 <= x < out.width && 0 <= y < out.height && 0 <= c < 4 ==> #[trigger] out.at(x, y, c)
            == frame_channel(p, v, x, y, c)
}

// ------------------------------ Highlights ------------------------------

/// Search hits to tint. The current one stands out.
#[derive(Debug)]
pub struct Highlights {
    pub page_size: Option<PageSize>,
    pub rects: Vec<PdfRect>,
    /// Which of `rects` is the current one.
    pub current: Option<usize>,
}

/// The rectangles of the hits on a page, in order.
pub open spec fn rects_on(matches: Seq<MatchRect>, page_idx: usize) -> Seq<PdfRect>
    decreases matches.len(),
{
    if matches.len() == 0 {
        Seq::empty()
    } else if matches.last().page_idx == page_idx {
        rects_on(matches.drop_last(), page_idx).push(matches.last().rect)
    } else {
        rects_on(matches.drop_last(), page_idx)
    }
}

/// The place among the hits of its page of the hit at `i`.
pub open spec fn place_on(matches: Seq<MatchRect>, page_idx: usize, i: Option<usize>) -> Option<
    usize,
> {
    match i {
        Some(k) => if k < matches.len() && matches[k as int].page_idx == page_idx {
            Some(rects_on(matches.take(k as int), page_idx).len() as usize)
        } else {
            None
        },
        None => None,
    }
}

impl Highlights {
    /// No highlights.
    pub fn none() -> (h: Highlights)
        ensures
            h.page_size is None,
            h.rects@.len() == 0,
            h.current is None,
    {
        Highlights { page_size: None, rects: Vec::new(), current: None }
    }

    /// The hits on one page.
    pub fn from_matches(
        matches: &Vec<MatchRect>,
        page_idx: usize,
        page_size: PageSize,
        current_global: Option<usize>,
    ) -> (h: Highlights)
        ensures
            h.page_size == Some(page_size),
            h.rects@ == rects_on(matches@, page_idx),
            h.current == place_on(matches@, page_idx, current_global),
    {
        let mut rects: Vec<PdfRect> = Vec::new();
        let mut current: Option<usize> = None;
        let mut i: usize = 0;
        assert(matches@.take(0) =~= Seq::empty());
        while i < matches.len()
            invariant
                i <= matches@.len(),
                rects@ == rects_on(matches@.take(i as int), page_idx),
                current == (match current_global {
                    Some(k) => if k < i {
                        place_on(matches@, page_idx, current_global)
                    } else {
                        None
                    },
                    None => None,
                }),
            decreases matches@.len() - i,
        {
            let ghost t = matches@.take(i + 1);
            assert(t.drop_last() =~= matches@.take(i as int));
            assert(t.last() == matches@[i as int]);
            let m: MatchRect = matches[i];
            if m.page_idx == page_idx {
                if let Some(k) = current_global {
                    if k == i {
                        current = Some(rects.len());
                    }
                }
                rects.push(m.rect);
            }
            i += 1;
        }
        assert(matches@.take(i as int) =~= matches@);
        Highlights { page_size: Some(page_size), rects, current }
    }

    pub fn is_empty(&self) -> (b: bool)
        ensures
            b == (self.rects@.len() == 0),
    {
        self.rects.len() == 0
    }
}

/// Two corners of a rectangle in pixels of the page as it is displayed.
#[derive(Debug, Clone, Copy, PartialEq, Eq, Structural)]
pub struct Spot {
    pub x0: i32,
    pub y0: i32,
    pub x1: i32,
    pub y1: i32,
}

/// What tinting makes of each value of each of the three colours: the entry
/// for value `v` of colour `c` is at `256 * c + v`.
#[derive(Debug)]
pub struct Tint {
    pub table: Vec<u8>,
}

impl Tint {
    pub open spec fn complete(self) -> bool {
        self.table@.len() == 768
    }

    pub open spec fn of(self, c: int, v: u8) -> u8 {
        self.table@[256 * c + v]
    }
}

/// A pixel of the frame lies in a spot.
pub open spec fn in_spot(s: Spot, v: Viewport, x: int, y: int) -> bool {
    let (lo_x, hi_x) = if s.x0 <= s.x1 {
        (s.x0, s.x1)
    } else {
        (s.x1, s.x0)
    };
    let (lo_y, hi_y) = if s.y0 <= s.y1 {
        (s.y0, s.y1)
    } else {
        (s.y1, s.y0)
    };
    &&& lo_x - v.x_off <= x < hi_x - v.x_off
    &&& lo_y - v.y_off <= y < hi_y - v.y_off
}

/// A channel after the spots were tinted one after the other; `current` is
/// the place of the one with the stronger tint.
pub open spec fn tinted(
    value: u8,
    spots: Seq<Spot>,
    current: Option<usize>,
    v: Viewport,
    plain: Tint,
    strong: Tint,
    x: int,
    y: int,
    c: int,
) -> u8
    decreases spots.len(),
{
    if spots.len() == 0 || c == 3 {
        value
    } else {
        let before = tinted(value, spots.drop_last(), current, v, plain, strong, x, y, c);
        if in_spot(spots.last(), v, x, y) {
            if current == Some((spots.len() - 1) as usize) {
                strong.of(c, before)
            } else {
                plain.of(c, before)
            }
        } else {
            before
        }
    }
}

/// A frame of that extent has a number of bytes.
pub open spec fn composable(v: Viewport) -> bool {
    picture::byte_count(frame_width(v), frame_height(v)) <= usize::MAX
}

pub struct Renderer;

impl Renderer {
    /// Rasterise the page of a viewport and bring the picture to the extent
    /// that the page has on screen, so that everything that reckons with that
    /// extent agrees.
    ///
    /// `scales` gives the scales of a page; `scaled` is a number of pixels
    /// times the display scale over the raster scale, rounded, and at least
    /// one.
    pub fn render_page<D, S, G>(doc: &D, viewport: &Viewport, scales: &S, scaled: &G) -> (r: Result<
        CachedPage,
        PageError,
    >) where
        D: Document,
        S: Fn(Viewport, PageSize) -> Scales,
        G: Fn(u32, Scales) -> u32,

        requires
            forall|v: Viewport, s: PageSize| call_requires(scales, (v, s)),
            forall|n: u32, k: Scales| call_requires(scaled, (n, k)),
        ensures
            rendered(doc, *viewport, scales, scaled, r),
            r matches Ok(page) ==> page.image.sound(),
    {
        let page_idx: usize = viewport.page_idx;
        let size: PageSize = match doc.page_size(page_idx) {
            Err(e) => {
                return Err(e);
            },
            Ok(s) => s,
        };
        let k: Scales = scales(*viewport, size);
        let raw: Image = match doc.render_page(page_idx, k.raster, viewport.rotation) {
            Err(e) => {
                return Err(e);
            },
            Ok(p) => p,
        };
        let ghost the_raw = raw;
        let ghost (raw_w, raw_h) = (raw.width, raw.height);
        let made: Result<Image, PageError> = if k.close {
            Ok(raw)
        } else {
            let w: u32 = scaled(raw.width, k);
            let h: u32 = scaled(raw.height, k);
            let made = bring(raw, w, h, Sampling::Nearest);
            assert(call_ensures(scaled, (raw_w, k), w) && call_ensures(scaled, (raw_h, k), h)
                && brought(the_raw, w, h, Sampling::Nearest, made));
            made
        };
        let ghost mid = made;
        assert(reconciled(the_raw, k, scaled, mid));
        let p: Image = match made {
            Err(e) => {
                return Err(e);
            },
            Ok(p) => p,
        };
        let extent: (u32, u32) = match doc.composed_page_size(page_idx, viewport.look()) {
            Err(e) => {
                return Err(e);
            },
            Ok(e) => e,
        };
        let fitted: Result<Image, PageError> = bring(
            p,
            extent.0,
            extent.1,
            Sampling::Triangle,
        );
        match fitted {
            Err(e) => Err(e),
            Ok(image) => Ok(
                CachedPage {
                    page_idx,
                    rotation: viewport.rotation,
                    display_scale: k.display,
                    image,
                },
            ),
        }
    }

    /// Rasterise the page of a viewport and compose the frame. A frame that
    /// no memory could hold is refused.
    pub fn render<D, S, G>(doc: &D, viewport: &Viewport, scales: &S, scaled: &G) -> (r: Result<
        RenderedFrame,
        PageError,
    >) where
        D: Document,
        S: Fn(Viewport, PageSize) -> Scales,
        G: Fn(u32, Scales) -> u32,

        requires
            forall|v: Viewport, s: PageSize| call_requires(scales, (v, s)),
            forall|n: u32, k: Scales| call_requires(scaled, (n, k)),
        ensures
            match r {
                Ok(f) => {
                    &&& composable(*viewport)
                    &&& rendered(doc, *viewport, scales, scaled, Ok(f.page))
                    &&& is_frame(f.composed, f.page.image, *viewport)
                },
                Err(e) => if composable(*viewport) {
                    rendered(doc, *viewport, scales, scaled, Err(e))
                } else {
                    e == PageError::TooLarge
                },
            },
    {
        let width: u32 = if viewport.screen_w < 1 {
            1
        } else {
            viewport.screen_w
        };
        let height: u32 = if viewport.screen_h < 1 {
            1
        } else {
            viewport.screen_h
        };
        proof {
            assert(0 <= width * height <= 0xFFFF_FFFF * 0xFFFF_FFFF) by (nonlinear_arith)
                requires
                    0 <= width <= 0xFFFF_FFFF,
                    0 <= height <= 0xFFFF_FFFF,
            ;
        }
        if 4 * (width as u128 * height as u128) > usize::MAX as u128 {
            return Err(PageError::TooLarge);
        }
        match Self::render_page(doc, viewport, scales, scaled) {
            Err(e) => Err(e),
            Ok(page) => {
                let composed: Image = Self::compose(&page, viewport);
                Ok(RenderedFrame { page, composed })
            },
        }
    }

    /// Crop the page to the screen, pad it where it does not reach, and
    /// invert it at night.
    pub fn compose(page: &CachedPage, viewport: &Viewport) -> (out: Image)
        requires
            page.image.sound(),
            composable(*viewport),
        ensures
            is_frame(out, page.image, *viewport),
    {
        let p: &Image = &page.image;
        let v: Viewport = *viewport;
        let pad: PadColor = PadColor::for_viewport(viewport);
        let width: u32 = if v.screen_w < 1 {
            1
        } else {
            v.screen_w
        };
        let height: u32 = if v.screen_h < 1 {
            1
        } else {
            v.screen_h
        };
        let mut data: Vec<u8> = Vec::new();
        let mut y: u32 = 0;
        proof {
            assert(0 * width == 0) by (nonlinear_arith);
        }
        while y < height
            invariant
                y <= height,
                p.sound(),
                pad == pad_color(v.night_mode),
                picture::byte_count(width, height) <= usize::MAX,
                data@.len() == 4 * (y * width),
                forall|a: int, b: int, c: int|
                    0 <= a < width && 0 <= b < y && 0 <= c < 4 ==> data@[#[trigger] picture::byte_at(
                        width,
                        a,
                        b,
                        c,
                    )] == frame_channel(*p, v, a, b, c),
            decreases height - y,
        {
            let py: i64 = y as i64 + v.y_off as i64;
            let row_in: bool = py >= 0 && py < p.height as i64;
            let mut x: u32 = 0;
            while x < width
                invariant
                    x <= width,
                    y < height,
                    p.sound(),
                    pad == pad_color(v.night_mode),
                    picture::byte_count(width, height) <= usize::MAX,
                    py == y + v.y_off,
                    row_in == (0 <= py < p.height),
                    data@.len() == 4 * (y * width + x),
                    forall|a: int, b: int, c: int|
                        0 <= a < width && 0 <= b < height && 0 <= c < 4 && (b < y || (b == y && a
                            < x)) ==> data@[#[trigger] picture::byte_at(width, a, b, c)]
                            == frame_channel(*p, v, a, b, c),
                decreases width - x,
            {
                let ghost sofar = data@;
                let px: i64 = x as i64 + v.x_off as i64;
                if row_in && px >= 0 && px < p.width as i64 {
                    proof {
                        picture::lemma_byte_at(p.width, p.height, px as int, py as int, 3);
                        assert(py * p.width + px <= 0xFFFF_FFFF * 0xFFFF_FFFF + 0xFFFF_FFFF)
                            by (nonlinear_arith)
                            requires
                                0 <= py <= 0xFFFF_FFFF,
                                0 <= p.width <= 0xFFFF_FFFF,
                                0 <= px <= 0xFFFF_FFFF,
                        ;
                        assert(0 <= py * p.width) by (nonlinear_arith)
                            requires
                                0 <= py,
                                0 <= p.width,
                        ;
                    }
                    let n: usize = p.data.len();
                    let at: usize = 4 * (py as usize * p.width as usize + px as usize);
                    if v.night_mode {
                        data.push(255 - p.data[at]);
                        data.push(255 - p.data[at + 1]);
                        data.push(255 - p.data[at + 2]);
                    } else {
                        data.push(p.data[at]);
                        data.push(p.data[at + 1]);
                        data.push(p.data[at + 2]);
                    }
                    data.push(p.data[at + 3]);
                } else {
                    data.push(pad.0);
                    data.push(pad.1);
                    data.push(pad.2);
                    data.push(pad.3);
                }
                proof {
                    assert forall|a: int, b: int, c: int|
                        0 <= a < width && 0 <= b < height && 0 <= c < 4 && (b < y || (b == y && a
                            < x + 1)) implies data@[#[trigger] picture::byte_at(width, a, b, c)]
                        == frame_channel(*p, v, a, b, c) by {
                        if b == y && a == x {
                            assert(picture::byte_at(width, a, b, c) == sofar.len() + c);
                        } else {
                            lemma_earlier(width, a, b, x as int, y as int, c);
                            assert(data@[picture::byte_at(width, a, b, c)]
                                == sofar[picture::byte_at(width, a, b, c)]);
                        }
                    }
                }
                x += 1;
            }
            proof {
                assert((y + 1) * width == y * width + width) by (nonlinear_arith);
            }
            y += 1;
        }
        let out = Image { width, height, data };
        proof {
            assert(height * width == width * height) by (nonlinear_arith);
            assert forall|x: int, y: int, c: int|
                0 <= x < out.width && 0 <= y < out.height && 0 <= c < 4 implies #[trigger] out.at(
                x,
                y,
                c,
            ) == frame_channel(*p, v, x, y, c) by {
                assert(out.at(x, y, c) == out.data@[picture::byte_at(width, x, y, c)]);
            }
        }
        out
    }
}

/// A place between two bounds, bounds included.
pub open spec fn between(n: int, lo: int, hi: int) -> int {
    if n < lo {
        lo
    } else if n > hi {
        hi
    } else {
        n
    }
}

fn bounded(n: i64, lo: u32, hi: u32) -> (r: u32)
    requires
        lo <= hi,
    ensures
        r == between(n as int, lo as int, hi as int),
{
    if n < lo as i64 {
        lo
    } else if n > hi as i64 {
        hi
    } else {
        n as u32
    }
}

/// The picture shows what the first `k` spots make of `start`.
spec fn tinted_upto(
    data: Seq<u8>,
    start: Image,
    spots: Seq<Spot>,
    k: int,
    current: Option<usize>,
    v: Viewport,
    plain: Tint,
    strong: Tint,
) -> bool {
    &&& data.len() == start.data@.len()
    &&& forall|x: int, y: int, c: int|
        0 <= x < start.width && 0 <= y < start.height && 0 <= c < 4
            ==> data[#[trigger] picture::byte_at(start.width, x, y, c)] == tinted(
            start.at(x, y, c),
            spots.take(k),
            current,
            v,
            plain,
            strong,
            x,
            y,
            c,
        )
}

/// The same in the middle of a spot: done up to column `x` of row `y`.
spec fn tinted_within(
    data: Seq<u8>,
    start: Image,
    spots: Seq<Spot>,
    k: int,
    current: Option<usize>,
    v: Viewport,
    plain: Tint,
    strong: Tint,
    x: int,
    y: int,
) -> bool {
    &&& data.len() == start.data@.len()
    &&& forall|a: int, b: int, c: int|
        0 <= a < start.width && 0 <= b < start.height && 0 <= c < 4
            ==> data[#[trigger] picture::byte_at(start.width, a, b, c)] == tinted(
            start.at(a, b, c),
            spots.take(
                if b < y || (b == y && a < x) {
                    k + 1
                } else {
                    k
                },
            ),
            current,
            v,
            plain,
            strong,
            a,
            b,
            c,
        )
}

/// Tinting one more spot changes only what lies in it.
proof fn lemma_tint_step(
    value: u8,
    spots: Seq<Spot>,
    k: int,
    current: Option<usize>,
    v: Viewport,
    plain: Tint,
    strong: Tint,
    x: int,
    y: int,
    c: int,
)
    requires
        0 <= k < spots.len(),
        k <= usize::MAX,
        0 <= c < 4,
    ensures
        ({
            let before = tinted(value, spots.take(k), current, v, plain, strong, x, y, c);
            tinted(value, spots.take(k + 1), current, v, plain, strong, x, y, c) == (if c < 3
                && in_spot(spots[k], v, x, y) {
                if current == Some(k as usize) {
                    strong.of(c, before)
                } else {
                    plain.of(c, before)
                }
            } else {
                before
            })
        }),
{
    let t = spots.take(k + 1);
    assert(t.drop_last() =~= spots.take(k));
    assert(t.last() == spots[k]);
}

impl Renderer {
    /// Tint the spots one after the other. `current` is the place of the one
    /// with the stronger tint.
    pub fn draw_highlights(
        out: &mut Image,
        viewport: &Viewport,
        spots: &Vec<Spot>,
        current: Option<usize>,
        plain: &Tint,
        strong: &Tint,
    )
        requires
            old(out).sound(),
            plain.complete(),
            strong.complete(),
        ensures
            final(out).width == old(out).width,
            final(out).height == old(out).height,
            final(out).sound(),
            forall|x: int, y: int, c: int|
                0 <= x < old(out).width && 0 <= y < old(out).height && 0 <= c < 4
                    ==> #[trigger] final(out).at(x, y, c) == tinted(
                    old(out).at(x, y, c),
                    spots@,
                    current,
                    *viewport,
                    *plain,
                    *strong,
                    x,
                    y,
                    c,
                ),
    {
        let ghost start = *out;
        let v: Viewport = *viewport;
        let mut k: usize = 0;
        proof {
            assert(spots@.take(0) =~= Seq::empty());
            assert(tinted_upto(out.data@, start, spots@, 0, current, v, *plain, *strong)) by {
                assert forall|x: int, y: int, c: int|
                    0 <= x < start.width && 0 <= y < start.height && 0 <= c < 4 implies out.data@[
                #[trigger] picture::byte_at(start.width, x, y, c)] == tinted(
                    start.at(x, y, c),
                    spots@.take(0),
                    current,
                    v,
                    *plain,
                    *strong,
                    x,
                    y,
                    c,
                ) by {
                    assert(out.data@[picture::byte_at(start.width, x, y, c)] == start.at(x, y, c));
                }
            }
        }
        while k < spots.len()
            invariant
                k <= spots@.len(),
                start.sound(),
                plain.complete(),
                strong.complete(),
                out.width == start.width,
                out.height == start.height,
                tinted_upto(out.data@, start, spots@, k as int, current, v, *plain, *strong),
            decreases spots@.len() - k,
        {
            let strongly: bool = match current {
                Some(i) => i == k,
                None => false,
            };
            let table: &Vec<u8> = if strongly {
                &strong.table
            } else {
                &plain.table
            };
            Self::tint_spot(
                out,
                v,
                spots,
                k,
                current,
                plain,
                strong,
                table,
                Ghost(start),
            );
            k += 1;
        }
        proof {
            assert(spots@.take(k as int) =~= spots@);
            assert forall|x: int, y: int, c: int|
                0 <= x < start.width && 0 <= y < start.height && 0 <= c < 4 implies #[trigger] out.at(
                x,
                y,
                c,
            ) == tinted(start.at(x, y, c), spots@, current, v, *plain, *strong, x, y, c) by {
                assert(out.at(x, y, c) == out.data@[picture::byte_at(start.width, x, y, c)]);
            }
        }
    }

    fn tint_spot(
        out: &mut Image,
        v: Viewport,
        spots: &Vec<Spot>,
        k: usize,
        current: Option<usize>,
        plain: &Tint,
        strong: &Tint,
        table: &Vec<u8>,
        Ghost(start): Ghost<Image>,
    )
        requires
            k < spots@.len(),
            start.sound(),
            plain.complete(),
            strong.complete(),
            *table == (if current == Some(k) {
                strong.table
            } else {
                plain.table
            }),
            old(out).width == start.width,
            old(out).height == start.height,
            tinted_upto(old(out).data@, start, spots@, k as int, current, v, *plain, *strong),
        ensures
            final(out).width == start.width,
            final(out).height == start.height,
            tinted_upto(final(out).data@, start, spots@, k + 1, current, v, *plain, *strong),
    {
        let s: Spot = spots[k];
        let width: u32 = out.width;
        let height: u32 = out.height;
        let (left, right) = if s.x0 <= s.x1 {
            (s.x0, s.x1)
        } else {
            (s.x1, s.x0)
        };
        let (top, bottom) = if s.y0 <= s.y1 {
            (s.y0, s.y1)
        } else {
            (s.y1, s.y0)
        };
        let lo_x: u32 = bounded(left as i64 - v.x_off as i64, 0, width);
        let hi_x: u32 = bounded(right as i64 - v.x_off as i64, 0, width);
        let lo_y: u32 = bounded(top as i64 - v.y_off as i64, 0, height);
        let hi_y: u32 = bounded(bottom as i64 - v.y_off as i64, 0, height);
        let mut y: u32 = lo_y;
        proof {
            assert forall|a: int, b: int, c: int|
                0 <= a < width && 0 <= b < height && 0 <= c < 4 implies out.data@[
            #[trigger] picture::byte_at(width, a, b, c)] == tinted(
                start.at(a, b, c),
                spots@.take(
                    if b < lo_y || (b == lo_y && a < 0) {
                        k + 1
                    } else {
                        k as int
                    },
                ),
                current,
                v,
                *plain,
                *strong,
                a,
                b,
                c,
            ) by {
                lemma_tint_step(
                    start.at(a, b, c),
                    spots@,
                    k as int,
                    current,
                    v,
                    *plain,
                    *strong,
                    a,
                    b,
                    c,
                );
            }
            assert(tinted_within(
                out.data@,
                start,
                spots@,
                k as int,
                current,
                v,
                *plain,
                *strong,
                0,
                lo_y as int,
            ));
        }
        while y < hi_y
            invariant
                lo_y <= y,
                lo_y <= hi_y ==> y <= hi_y,
                hi_y <= height,
                lo_x <= width,
                hi_x <= width,
                k < spots@.len(),
                s == spots@[k as int],
                start.sound(),
                table@.len() == 768,
                *table == (if current == Some(k) {
                    strong.table
                } else {
                    plain.table
                }),
                out.width == start.width == width,
                out.height == start.height == height,
                forall|a: int, b: int|
                    0 <= a < width && 0 <= b < height ==> (#[trigger] in_spot(s, v, a, b) <==> (
                    lo_x <= a < hi_x && lo_y <= b < hi_y)),
                tinted_within(
                    out.data@,
                    start,
                    spots@,
                    k as int,
                    current,
                    v,
                    *plain,
                    *strong,
                    0,
                    y as int,
                ),
            decreases hi_y - y,
        {
            let mut x: u32 = lo_x;
            proof {
                lemma_within_moves(
                    out.data@,
                    start,
                    spots@,
                    k as int,
                    current,
                    v,
                    *plain,
                    *strong,
                    0,
                    y as int,
                    lo_x as int,
                    y as int,
                );
            }
            while x < hi_x
                invariant
                    lo_x <= x,
                    lo_x <= hi_x ==> x <= hi_x,
                    lo_y <= y < hi_y <= height,
                    hi_x <= width,
                    k < spots@.len(),
                    s == spots@[k as int],
                    start.sound(),
                    table@.len() == 768,
                    *table == (if current == Some(k) {
                        strong.table
                    } else {
                        plain.table
                    }),
                    out.width == start.width == width,
                    out.height == start.height == height,
                    forall|a: int, b: int|
                        0 <= a < width && 0 <= b < height ==> (#[trigger] in_spot(s, v, a, b) <==> (
                        lo_x <= a < hi_x && lo_y <= b < hi_y)),
                    tinted_within(
                        out.data@,
                        start,
                        spots@,
                        k as int,
                        current,
                        v,
                        *plain,
                        *strong,
                        x as int,
                        y as int,
                    ),
                decreases hi_x - x,
            {
                let ghost before = out.data@;
                proof {
                    picture::lemma_byte_at(width, height, x as int, y as int, 3);
                    assert(0 <= y * width) by (nonlinear_arith)
                        requires
                            0 <= y,
                            0 <= width,
                    ;
                }
                let n: usize = out.data.len();
                let at: usize = 4 * (y as usize * width as usize + x as usize);
                let r: u8 = table[out.data[at] as usize];
                let g: u8 = table[256 + out.data[at + 1] as usize];
                let b: u8 = table[512 + out.data[at + 2] as usize];
                out.data[at] = r;
                out.data[at + 1] = g;
                out.data[at + 2] = b;
                proof {
                    assert(in_spot(s, v, x as int, y as int));
                    assert(at == picture::byte_at(width, x as int, y as int, 0));
                    assert forall|a: int, q: int, c: int|
                        0 <= a < width && 0 <= q < height && 0 <= c < 4 implies out.data@[
                    #[trigger] picture::byte_at(width, a, q, c)] == tinted(
                        start.at(a, q, c),
                        spots@.take(
                            if q < y || (q == y && a < x + 1) {
                                k + 1
                            } else {
                                k as int
                            },
                        ),
                        current,
                        v,
                        *plain,
                        *strong,
                        a,
                        q,
                        c,
                    ) by {
                        let i = picture::byte_at(width, a, q, c);
                        picture::lemma_byte_at(width, height, a, q, c);
                        lemma_tint_step(
                            start.at(a, q, c),
                            spots@,
                            k as int,
                            current,
                            v,
                            *plain,
                            *strong,
                            a,
                            q,
                            c,
                        );
                        if a == x && q == y {
                            assert(i == at + c);
                            assert(before[i] == before[picture::byte_at(width, a, q, c)]);
                        } else {
                            lemma_bytes_differ(width, a, q, c, x as int, y as int, 0);
                            lemma_bytes_differ(width, a, q, c, x as int, y as int, 1);
                            lemma_bytes_differ(width, a, q, c, x as int, y as int, 2);
                            assert(out.data@[i] == before[i]);
                        }
                    }
                }
                x += 1;
            }
            proof {
                lemma_within_moves(
                    out.data@,
                    start,
                    spots@,
                    k as int,
                    current,
                    v,
                    *plain,
                    *strong,
                    x as int,
                    y as int,
                    0,
                    y + 1,
                );
            }
            y += 1;
        }
        proof {
            lemma_within_moves(
                out.data@,
                start,
                spots@,
                k as int,
                current,
                v,
                *plain,
                *strong,
                0,
                y as int,
                0,
                height as int,
            );
        }
    }

    /// The frame with its highlights. `spots` are where they lie on the page.
    pub fn compose_with_highlights(
        page: &CachedPage,
        viewport: &Viewport,
        spots: &Vec<Spot>,
        current: Option<usize>,
        plain: &Tint,
        strong: &Tint,
    ) -> (out: Image)
        requires
            page.image.sound(),
            composable(*viewport),
            plain.complete(),
            strong.complete(),
        ensures
            out.width == frame_width(*viewport),
            out.height == frame_height(*viewport),
            out.sound(),
            forall|x: int, y: int, c: int|
                0 <= x < out.width && 0 <= y < out.height && 0 <= c < 4 ==> #[trigger] out.at(
                    x,
                    y,
                    c,
                ) == tinted(
                    frame_channel(page.image, *viewport, x, y, c),
                    spots@,
                    current,
                    *viewport,
                    *plain,
                    *strong,
                    x,
                    y,
                    c,
                ),
    {
        let mut out: Image = Self::compose(page, viewport);
        let ghost plainly = out;
        Self::draw_highlights(&mut out, viewport, spots, current, plain, strong);
        proof {
            assert forall|x: int, y: int, c: int|
                0 <= x < out.width && 0 <= y < out.height && 0 <= c < 4 implies #[trigger] out.at(
                x,
                y,
                c,
            ) == tinted(
                frame_channel(page.image, *viewport, x, y, c),
                spots@,
                current,
                *viewport,
                *plain,
                *strong,
                x,
                y,
                c,
            ) by {
                assert(plainly.at(x, y, c) == frame_channel(page.image, *viewport, x, y, c));
            }
        }
        out
    }
}

/// Two channels of the picture are at two places.
proof fn lemma_bytes_differ(width: u32, a: int, b: int, c: int, x: int, y: int, d: int)
    requires
        0 <= a < width,
        0 <= x < width,
        0 <= b,
        0 <= y,
        0 <= c < 4,
        0 <= d < 4,
        a != x || b != y || c != d,
    ensures
        picture::byte_at(width, a, b, c) != picture::byte_at(width, x, y, d),
{
    let m = b * width + a;
    let n = y * width + x;
    vstd::arithmetic::div_mod::lemma_fundamental_div_mod_converse(m, width as int, b, a);
    vstd::arithmetic::div_mod::lemma_fundamental_div_mod_converse(n, width as int, y, x);
}

/// Between two points of the walk over a spot lies nothing of it.
proof fn lemma_within_moves(
    data: Seq<u8>,
    start: Image,
    spots: Seq<Spot>,
    k: int,
    current: Option<usize>,
    v: Viewport,
    plain: Tint,
    strong: Tint,
    x: int,
    y: int,
    x2: int,
    y2: int,
)
    requires
        0 <= k < spots.len(),
        k <= usize::MAX,
        tinted_within(data, start, spots, k, current, v, plain, strong, x, y),
        y < y2 || (y == y2 && x <= x2),
        forall|a: int, b: int|
            0 <= a < start.width && 0 <= b < start.height && (b > y || (b == y && a >= x)) && (b
                < y2 || (b == y2 && a < x2)) ==> !#[trigger] in_spot(spots[k], v, a, b),
    ensures
        tinted_within(data, start, spots, k, current, v, plain, strong, x2, y2),
        y2 >= start.height ==> tinted_upto(data, start, spots, k + 1, current, v, plain, strong),
{
    assert forall|a: int, b: int, c: int|
        0 <= a < start.width && 0 <= b < start.height && 0 <= c < 4 implies data[
    #[trigger] picture::byte_at(start.width, a, b, c)] == tinted(
        start.at(a, b, c),
        spots.take(
            if b < y2 || (b == y2 && a < x2) {
                k + 1
            } else {
                k
            },
        ),
        current,
        v,
        plain,
        strong,
        a,
        b,
        c,
    ) by {
        lemma_tint_step(start.at(a, b, c), spots, k, current, v, plain, strong, a, b, c);
        if (b > y || (b == y && a >= x)) && (b < y2 || (b == y2 && a < x2)) {
            assert(!in_spot(spots[k], v, a, b));
        }
    }
    if y2 >= start.height {
        assert forall|a: int, b: int, c: int|
            0 <= a < start.width && 0 <= b < start.height && 0 <= c < 4 implies data[
        #[trigger] picture::byte_at(start.width, a, b, c)] == tinted(
            start.at(a, b, c),
            spots.take(k + 1),
            current,
            v,
            plain,
            strong,
            a,
            b,
            c,
        ) by {}
    }
}

/// A byte of an earlier pixel comes before the bytes of a later one.
proof fn lemma_earlier(width: u32, a: int, b: int, x: int, y: int, c: int)
    requires
        0 <= a < width,
        0 <= b <= y,
        0 <= x,
        b < y || a < x,
        0 <= c < 4,
    ensures
        0 <= picture::byte_at(width, a, b, c) < 4 * (y * width + x),
{
    assert(b * width + a < y * width + x) by (nonlinear_arith)
        requires
            b < y || (b == y && a < x),
            0 <= a < width,
            0 <= x,
            0 <= b <= y,
    ;
    assert(0 <= b * width) by (nonlinear_arith)
        requires
            0 <= b,
            0 <= width,
    ;
}

/// The picture brought from the raster scale to the display scale. The raster
/// was made at a chosen scale, so the nearest pixel is good enough.
pub open spec fn reconciled<G: Fn(u32, Scales) -> u32>(
    raw: Image,
    k: Scales,
    scaled: &G,
    r: Result<Image, PageError>,
) -> bool {
    if k.close {
        r == Ok::<Image, PageError>(raw)
    } else {
        exists|w: u32, h: u32|
            {
                &&& #[trigger] call_ensures(scaled, (raw.width, k), w)
                &&& #[trigger] call_ensures(scaled, (raw.height, k), h)
                &&& brought(raw, w, h, Sampling::Nearest, r)
            }
    }
}

/// What rasterising the page of a viewport comes to.
pub open spec fn rendered<D, S, G>(
    doc: &D,
    v: Viewport,
    scales: &S,
    scaled: &G,
    r: Result<CachedPage, PageError>,
) -> bool where
    D: Document,
    S: Fn(Viewport, PageSize) -> Scales,
    G: Fn(u32, Scales) -> u32,
 {
    let page = v.page_idx as nat;
    match doc.native(page) {
        Err(e) => r == Err::<CachedPage, _>(e),
        Ok(size) => exists|k: Scales|
            #[trigger] call_ensures(scales, (v, size), k) && match doc.raster(
                page,
                k.raster,
                v.rotation,
            ) {
                Err(e) => r == Err::<CachedPage, _>(e),
                Ok(raw) => exists|mid: Result<Image, PageError>|
                    #[trigger] reconciled(raw, k, scaled, mid) && match mid {
                        Err(e) => r == Err::<CachedPage, _>(e),
                        Ok(p) => match doc.composed(page, v.spec_look()) {
                            Err(e) => r == Err::<CachedPage, _>(e),
                            Ok(extent) => exists|last: Result<Image, PageError>|
                                #[trigger] brought(
                                    p,
                                    extent.0,
                                    extent.1,
                                    Sampling::Triangle,
                                    last,
                                ) && match last {
                                    Err(e) => r == Err::<CachedPage, _>(e),
                                    Ok(image) => r == Ok::<_, PageError>(
                                        CachedPage {
                                            page_idx: v.page_idx,
                                            rotation: v.rotation,
                                            display_scale: k.display,
                                            image,
                                        },
                                    ),
                                },
                        },
                    },
            },
    }
}

/// A rasterised page has exactly the extent that the page has on screen.
pub proof fn lemma_rendered_extent<D, S, G>(
    doc: &D,
    v: Viewport,
    scales: &S,
    scaled: &G,
    r: Result<CachedPage, PageError>,
) where
    D: Document,
    S: Fn(Viewport, PageSize) -> Scales,
    G: Fn(u32, Scales) -> u32,

    requires
        rendered(doc, v, scales, scaled, r),
        r is Ok,
    ensures
        doc.composed(v.page_idx as nat, v.spec_look()) == Ok::<_, PageError>(
            (r->Ok_0.image.width, r->Ok_0.image.height),
        ),
        r->Ok_0.page_idx == v.page_idx,
        r->Ok_0.rotation == v.rotation,
{
}

/// Night mode inverts the colours of the page and nothing else of it, and the
/// inverse of the inverse is the colour itself.
pub proof fn lemma_night_inverts(p: Image, v: Viewport, x: int, y: int, c: int)
    requires
        0 <= x + v.x_off < p.width,
        0 <= y + v.y_off < p.height,
        0 <= c < 4,
    ensures
        ({
            let day = frame_channel(p, Viewport { night_mode: false, ..v }, x, y, c);
            let night = frame_channel(p, Viewport { night_mode: true, ..v }, x, y, c);
            if c < 3 {
                night == 255 - day && day == 255 - night
            } else {
                night == day
            }
        }),
{
}

} // verus!
