//! View state: which page, where on it, how large, how rotated.
use vstd::prelude::*;

use crate::document::PageSize;
use crate::number::{Real32, ONE};
use crate::text::{owned, push_str};

verus! {

#[derive(Debug, Clone, Copy, PartialEq, Eq, Structural)]
pub enum ZoomMode {
    FitWidth,
    FitHeight,
    FitPage,
    /// Multiplier on fit-width. 1.0 = 100%.
    Custom(Real32),
}

impl ZoomMode {
    /// The name of a zoom; `percent` stands for one that fits nothing.
    pub open spec fn spec_label(self, percent: Seq<char>) -> Seq<char> {
        match self {
            ZoomMode::FitWidth => "fit-w"@,
            ZoomMode::FitHeight => "fit-h"@,
            ZoomMode::FitPage => "fit-p"@,
            ZoomMode::Custom(_) => percent + "%"@,
        }
    }

    /// The name of the zoom in the status bar. `percent` is the multiplier in
    /// hundredths, rounded, as text.
    pub fn label(self, percent: &str) -> (s: String)
        ensures
            s@ == self.spec_label(percent@),
    {
        match self {
            ZoomMode::FitWidth => owned("fit-w"),
            ZoomMode::FitHeight => owned("fit-h"),
            ZoomMode::FitPage => owned("fit-p"),
            ZoomMode::Custom(_) => {
                let mut s: String = owned(percent);
                push_str(&mut s, "%");
                s
            },
        }
    }
}

#[derive(Debug, Clone, Copy, PartialEq, Eq, Structural, Hash)]
pub enum Rotation {
    R0,
    R90,
    R180,
    R270,
}

impl Rotation {
    /// Clockwise quarter turns.
    pub open spec fn quarters(self) -> int {
        match self {
            Rotation::R0 => 0,
            Rotation::R90 => 1,
            Rotation::R180 => 2,
            Rotation::R270 => 3,
        }
    }

    pub fn degrees(self) -> (d: u32)
        ensures
            d == 90 * self.quarters(),
    {
        match self {
            Rotation::R0 => 0,
            Rotation::R90 => 90,
            Rotation::R180 => 180,
            Rotation::R270 => 270,
        }
    }

    /// Snap an angle in degrees down to its quadrant.
    pub fn from_degrees(deg: i32) -> (r: Rotation)
        ensures
            r.quarters() == (deg as int % 360) / 90,
    {
        let wide: i64 = deg as i64 + 2_147_483_880;
        assert(wide as int % 360 == deg as int % 360);
        let d: i64 = wide % 360;
        if d < 90 {
            Rotation::R0
        } else if d < 180 {
            Rotation::R90
        } else if d < 270 {
            Rotation::R180
        } else {
            Rotation::R270
        }
    }

    /// A quarter turn clockwise.
    pub fn cw(self) -> (r: Rotation)
        ensures
            r.quarters() == (self.quarters() + 1) % 4,
    {
        Rotation::from_degrees(self.degrees() as i32 + 90)
    }

    /// A quarter turn counter-clockwise.
    pub fn ccw(self) -> (r: Rotation)
        ensures
            r.quarters() == (self.quarters() + 3) % 4,
    {
        Rotation::from_degrees(self.degrees() as i32 - 90)
    }

    /// The page size as seen after rotation.
    pub fn apply_to_size(self, size: PageSize) -> (r: PageSize)
        ensures
            r == (if self.quarters() % 2 == 0 {
                size
            } else {
                (PageSize { width: size.height, height: size.width })
            }),
    {
        match self {
            Rotation::R0 | Rotation::R180 => size,
            Rotation::R90 | Rotation::R270 => PageSize {
                width: size.height,
                height: size.width,
            },
        }
    }
}

/// What decides how many pixels a page fills: zoom, rotation and screen.
#[derive(Debug, Clone, Copy, PartialEq, Eq, Structural)]
pub struct Look {
    pub zoom: ZoomMode,
    pub rotation: Rotation,
    pub screen_w: u32,
    pub screen_h: u32,
}

/// View state that drives rendering.
#[derive(Debug, Clone, Copy, PartialEq, Eq, Structural)]
pub struct Viewport {
    pub page_idx: usize,
    /// Top-left scroll offset in composed-image pixels. Negative when the
    /// page is smaller than the screen along that axis, which centers the
    /// page with padding around it.
    pub x_off: i32,
    pub y_off: i32,
    pub zoom: ZoomMode,
    pub rotation: Rotation,
    /// Screen pixel dims of the image that is composed.
    pub screen_w: u32,
    pub screen_h: u32,
    pub night_mode: bool,
    /// Raster DPI override. `None` means "rasterise at display scale".
    pub render_dpi: Option<Real32>,
    /// Multiplier on the transmitted image density, 0.1 to 2.0.
    pub render_quality: Real32,
}

/// `n / 2`, rounded towards zero.
pub open spec fn half_towards_zero(n: int) -> int {
    if n >= 0 {
        n / 2
    } else {
        -((-n) / 2)
    }
}

/// Scroll bounds (smallest, largest offset) of a page along one axis: the
/// single centering offset where the page fits, else everything from the
/// page's start to its end.
#[verifier::opaque]
pub open spec fn scroll_range(page: i32, screen: i32) -> (int, int) {
    let d: i32 = page.wrapping_sub(screen);
    if page <= screen {
        (half_towards_zero(d as int), half_towards_zero(d as int))
    } else {
        (0, d as int)
    }
}

/// `v` forced into `[lo, hi]`.
pub open spec fn clamped(v: int, lo: int, hi: int) -> int {
    if v < lo {
        lo
    } else if v > hi {
        hi
    } else {
        v
    }
}

/// Force `v` into `[lo, hi]`.
pub fn clamp_i32(v: i32, lo: i32, hi: i32) -> (r: i32)
    ensures
        r == clamped(v as int, lo as int, hi as int),
{
    if v < lo {
        lo
    } else if v > hi {
        hi
    } else {
        v
    }
}

fn axis_range(page: i32, screen: i32) -> (r: (i32, i32))
    ensures
        r.0 == scroll_range(page, screen).0,
        r.1 == scroll_range(page, screen).1,
{
    reveal(scroll_range);
    let d: i32 = page.wrapping_sub(screen);
    if page <= screen {
        let off: i32 = if d >= 0 {
            d / 2
        } else {
            (-((-(d as i64)) / 2)) as i32
        };
        (off, off)
    } else {
        (0, d)
    }
}

/// On pages and screens of at most `i32::MAX` pixels the scroll range is
/// never empty. A page that fits has one offset, which leaves the two margins
/// equal to within a pixel; a larger page can be scrolled exactly from its
/// first pixel to its last, so it covers the whole screen at every offset.
pub proof fn lemma_scroll_range(page: i32, screen: i32)
    requires
        0 <= page,
        0 <= screen,
    ensures
        scroll_range(page, screen).0 <= scroll_range(page, screen).1,
        page <= screen ==> {
            let off = scroll_range(page, screen).0;
            &&& off == scroll_range(page, screen).1
            &&& off <= 0
            &&& 0 <= (screen - page + off) - (-off) <= 1
        },
        page > screen ==> scroll_range(page, screen) == (0int, page - screen),
        forall|off: int|
            page > screen && scroll_range(page, screen).0 <= off <= scroll_range(
                page,
                screen,
            ).1 ==> 0 <= off && #[trigger] (off + screen) <= page,
{
    reveal(scroll_range);
}

/// Both bounds are offsets, and they are in order where no extent is negative.
pub broadcast proof fn lemma_scroll_range_ordered(page: i32, screen: i32)
    ensures
        i32::MIN <= (#[trigger] scroll_range(page, screen)).0 <= i32::MAX,
        i32::MIN <= scroll_range(page, screen).1 <= i32::MAX,
        0 <= page && 0 <= screen ==> scroll_range(page, screen).0 <= scroll_range(page, screen).1,
{
    reveal(scroll_range);
}

impl Default for Viewport {
    fn default() -> (v: Viewport)
        ensures
            v == (Viewport {
                page_idx: 0,
                x_off: 0,
                y_off: 0,
                zoom: ZoomMode::FitWidth,
                rotation: Rotation::R0,
                screen_w: 800,
                screen_h: 600,
                night_mode: false,
                render_dpi: None,
                render_quality: Real32 { bits: ONE },
            }),
    {
        Viewport {
            page_idx: 0,
            x_off: 0,
            y_off: 0,
            zoom: ZoomMode::FitWidth,
            rotation: Rotation::R0,
            screen_w: 800,
            screen_h: 600,
            night_mode: false,
            render_dpi: None,
            render_quality: Real32 { bits: ONE },
        }
    }
}

impl Viewport {
    pub open spec fn spec_look(self) -> Look {
        Look {
            zoom: self.zoom,
            rotation: self.rotation,
            screen_w: self.screen_w,
            screen_h: self.screen_h,
        }
    }

    /// Scroll bounds along x for a page of `page_w` pixels.
    pub open spec fn x_bounds(self, page_w: u32) -> (int, int) {
        scroll_range(page_w as i32, self.screen_w as i32)
    }

    /// Scroll bounds along y for a page of `page_h` pixels.
    pub open spec fn y_bounds(self, page_h: u32) -> (int, int) {
        scroll_range(page_h as i32, self.screen_h as i32)
    }

    /// The part of the state that page extents depend on.
    pub fn look(&self) -> (l: Look)
        ensures
            l == self.spec_look(),
    {
        Look {
            zoom: self.zoom,
            rotation: self.rotation,
            screen_w: self.screen_w,
            screen_h: self.screen_h,
        }
    }

    /// Horizontal scroll bounds: (min_off, max_off).
    ///
    /// If the page fits along x, the range holds only the centered (negative)
    /// offset, so narrow pages sit centred with padding.
    pub fn x_range(&self, page_w: u32) -> (r: (i32, i32))
        ensures
            r.0 == self.x_bounds(page_w).0,
            r.1 == self.x_bounds(page_w).1,
    {
        axis_range(#[verifier::truncate] (page_w as i32), #[verifier::truncate] (self.screen_w as i32))
    }

    /// Vertical scroll bounds: (min_off, max_off).
    pub fn y_range(&self, page_h: u32) -> (r: (i32, i32))
        ensures
            r.0 == self.y_bounds(page_h).0,
            r.1 == self.y_bounds(page_h).1,
    {
        axis_range(#[verifier::truncate] (page_h as i32), #[verifier::truncate] (self.screen_h as i32))
    }

    /// Whether a page of that extent fits entirely inside the screen.
    pub fn page_fits(&self, extent: (u32, u32)) -> (b: bool)
        ensures
            b == (extent.0 <= self.screen_w && extent.1 <= self.screen_h),
    {
        extent.0 <= self.screen_w && extent.1 <= self.screen_h
    }

    /// Clamp the offsets into their scroll ranges for a page of that extent.
    pub fn clamp_offsets(&mut self, extent: (u32, u32))
        ensures
            *final(self) == (Viewport {
                x_off: clamped(
                    old(self).x_off as int,
                    old(self).x_bounds(extent.0).0,
                    old(self).x_bounds(extent.0).1,
                ) as i32,
                y_off: clamped(
                    old(self).y_off as int,
                    old(self).y_bounds(extent.1).0,
                    old(self).y_bounds(extent.1).1,
                ) as i32,
                ..*old(self)
            }),
    {
        let (xmin, xmax) = self.x_range(extent.0);
        let (ymin, ymax) = self.y_range(extent.1);
        self.x_off = clamp_i32(self.x_off, xmin, xmax);
        self.y_off = clamp_i32(self.y_off, ymin, ymax);
    }

    /// The pixel of the page that lies under a pixel of the screen.
    pub open spec fn page_pixel(self, extent: (u32, u32), x: i32, y: i32) -> Option<(i32, i32)> {
        let px = x + self.x_off;
        let py = y + self.y_off;
        if 0 <= px < extent.0 && 0 <= py < extent.1 && extent.0 <= i32::MAX && extent.1
            <= i32::MAX {
            Some((px as i32, py as i32))
        } else {
            None
        }
    }

    /// The pixel of a page of that extent that lies under a pixel of the
    /// screen; `None` in the padding outside the page.
    pub fn screen_to_page_pixel(&self, extent: (u32, u32), x: i32, y: i32) -> (r: Option<
        (i32, i32),
    >)
        ensures
            r == self.page_pixel(extent, x, y),
    {
        let px: i64 = x as i64 + self.x_off as i64;
        let py: i64 = y as i64 + self.y_off as i64;
        let most: u32 = i32::MAX as u32;
        if px < 0 || py < 0 || px >= extent.0 as i64 || py >= extent.1 as i64 || extent.0 > most
            || extent.1 > most {
            None
        } else {
            Some((px as i32, py as i32))
        }
    }
}

} // verus!
