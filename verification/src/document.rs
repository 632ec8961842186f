//! What the reader needs to know of a document.
use vstd::prelude::*;

use crate::picture::Image;
use crate::number::Real32;
use crate::viewport::{Look, Rotation};

verus! {

/// Native page size in points.
#[derive(Debug, Clone, Copy, PartialEq, Eq, Structural)]
pub struct PageSize {
    pub width: Real32,
    pub height: Real32,
}

/// A rectangle on a page, in points.
#[derive(Debug, Clone, Copy, PartialEq, Eq, Structural)]
pub struct PdfRect {
    pub x0: Real32,
    pub y0: Real32,
    pub x1: Real32,
    pub y1: Real32,
}

impl PdfRect {
    /// The point lies in the rectangle, its edges included.
    pub open spec fn holds(self, x: Real32, y: Real32) -> bool {
        &&& self.x0.at_most(x)
        &&& x.at_most(self.x1)
        &&& self.y0.at_most(y)
        &&& y.at_most(self.y1)
    }

    pub fn contains(&self, x: Real32, y: Real32) -> (b: bool)
        ensures
            b == self.holds(x, y),
    {
        self.x0.is_at_most(x) && x.is_at_most(self.x1) && self.y0.is_at_most(y) && y.is_at_most(
            self.y1,
        )
    }
}

/// One search hit.
#[derive(Debug, Clone, Copy, PartialEq, Eq, Structural)]
pub struct MatchRect {
    pub page_idx: usize,
    pub rect: PdfRect,
}

/// A link within the document.
#[derive(Debug, Clone, Copy, PartialEq, Eq)]
pub struct PageLink {
    pub bounds: PdfRect,
    pub dest_page: usize,
    /// Where on the page, in points.
    pub dest_point: Option<(Real32, Real32)>,
}

/// One entry of a table of contents.
#[derive(Debug)]
pub struct Outline {
    pub title: String,
    pub page: Option<usize>,
    pub children: Vec<Outline>,
}

/// Why a page has no size.
#[derive(Debug, PartialEq, Eq)]
pub enum PageError {
    /// There is no such page; `count` pages exist.
    OutOfRange { page_idx: usize, count: usize },
    /// The snapshot was taken for another zoom, rotation or screen.
    OtherLook,
    /// The document could not produce the page, and why.
    Unreadable(String),
    /// A picture of the page is too large to make.
    TooLarge,
}

/// The navigation-relevant subset of a document: how many pages there are,
/// how big each one is, and how many pixels each one fills on screen.
pub trait PageMetrics {
    /// Number of pages.
    closed spec fn pages(&self) -> nat {
        arbitrary()
    }

    /// Native size of a page.
    closed spec fn native(&self, page: nat) -> Result<PageSize, PageError> {
        arbitrary()
    }

    /// Pixel extent (width, height) of a page drawn under a look.
    closed spec fn composed(&self, page: nat, look: Look) -> Result<(u32, u32), PageError> {
        arbitrary()
    }

    fn page_count(&self) -> (n: usize)
        ensures
            n == self.pages(),
    ;

    fn page_size(&self, page_idx: usize) -> (size: Result<PageSize, PageError>)
        ensures
            size == self.native(page_idx as nat),
    ;

    fn composed_page_size(&self, page_idx: usize, look: Look) -> (size: Result<
        (u32, u32),
        PageError,
    >)
        ensures
            size == self.composed(page_idx as nat, look),
    ;
}

/// A document that can be displayed.
pub trait Document: PageMetrics {
    /// The picture of a page at a number of pixels per point.
    closed spec fn raster(&self, page: nat, scale: Real32, rotation: Rotation) -> Result<
        Image,
        PageError,
    > {
        arbitrary()
    }

    /// Rasterise a page. The picture is opaque.
    fn render_page(&self, page_idx: usize, scale: Real32, rotation: Rotation) -> (r: Result<
        Image,
        PageError,
    >)
        ensures
            r == self.raster(page_idx as nat, scale, rotation),
            r matches Ok(p) ==> p.sound(),
    ;
}

/// A snapshot of a document's page geometry under one look. It carries no
/// document handle, so a background worker can navigate with it.
#[derive(Debug)]
pub struct PageInfo {
    look: Look,
    sizes: Vec<PageSize>,
    composed: Vec<(u32, u32)>,
}

impl PageInfo {
    /// Every page has both extents.
    #[verifier::type_invariant]
    spec fn paired(self) -> bool {
        self.sizes@.len() == self.composed@.len()
    }

    pub closed spec fn view_look(&self) -> Look {
        self.look
    }

    /// Page `i` of `m` can be measured under `look`.
    pub open spec fn measurable<M: PageMetrics>(m: &M, look: Look, i: nat) -> bool {
        m.native(i) is Ok && m.composed(i, look) is Ok
    }

    /// The error that measuring page `i` of `m` stops with.
    pub open spec fn failure<M: PageMetrics>(m: &M, look: Look, i: nat) -> PageError {
        match m.native(i) {
            Err(e) => e,
            Ok(_) => match m.composed(i, look) {
                Err(e) => e,
                Ok(_) => arbitrary(),
            },
        }
    }

    /// Pull the dimensions of every page. Fails with the error of the first
    /// page that cannot be measured.
    pub fn from_metrics<M: PageMetrics>(m: &M, look: Look) -> (r: Result<PageInfo, PageError>)
        ensures
            r is Ok <==> forall|i: nat| i < m.pages() ==> #[trigger] Self::measurable(m, look, i),
            r matches Ok(info) ==> {
                &&& info.view_look() == look
                &&& info.pages() == m.pages()
                &&& forall|i: nat|
                    i < m.pages() ==> #[trigger] info.native(i) == m.native(i)
                &&& forall|i: nat|
                    i < m.pages() ==> #[trigger] info.composed(i, look) == m.composed(i, look)
            },
            r matches Err(e) ==> exists|k: nat|
                {
                    &&& k < m.pages()
                    &&& !#[trigger] Self::measurable(m, look, k)
                    &&& forall|i: nat| i < k ==> #[trigger] Self::measurable(m, look, i)
                    &&& e == Self::failure(m, look, k)
                },
    {
        let n: usize = m.page_count();
        let mut sizes: Vec<PageSize> = Vec::new();
        let mut composed: Vec<(u32, u32)> = Vec::new();
        let mut i: usize = 0;
        while i < n
            invariant
                i <= n,
                n == m.pages(),
                sizes@.len() == i,
                composed@.len() == i,
                forall|j: nat| j < i ==> #[trigger] Self::measurable(m, look, j),
                forall|j: nat| j < i ==> #[trigger] m.native(j) == Ok::<PageSize, PageError>(
                    sizes@[j as int],
                ),
                forall|j: nat|
                    j < i ==> #[trigger] m.composed(j, look) == Ok::<(u32, u32), PageError>(
                        composed@[j as int],
                    ),
            decreases n - i,
        {
            match m.page_size(i) {
                Ok(size) => sizes.push(size),
                Err(e) => {
                    assert(!Self::measurable(m, look, i as nat));
                    return Err(e);
                },
            }
            match m.composed_page_size(i, look) {
                Ok(extent) => composed.push(extent),
                Err(e) => {
                    assert(!Self::measurable(m, look, i as nat));
                    return Err(e);
                },
            }
            assert(Self::measurable(m, look, i as nat));
            i += 1;
        }
        let info = PageInfo { look, sizes, composed };
        assert forall|j: nat| j < m.pages() implies #[trigger] info.native(j) == m.native(j) by {
            assert(Self::measurable(m, look, j));
        }
        Ok(info)
    }
}

impl PageMetrics for PageInfo {
    closed spec fn pages(&self) -> nat {
        self.sizes@.len()
    }

    closed spec fn native(&self, page: nat) -> Result<PageSize, PageError> {
        if page < self.sizes@.len() {
            Ok(self.sizes@[page as int])
        } else {
            Err(PageError::OutOfRange { page_idx: page as usize, count: self.sizes@.len() as usize })
        }
    }

    closed spec fn composed(&self, page: nat, look: Look) -> Result<(u32, u32), PageError> {
        if page >= self.sizes@.len() {
            Err(PageError::OutOfRange { page_idx: page as usize, count: self.sizes@.len() as usize })
        } else if look != self.look {
            Err(PageError::OtherLook)
        } else {
            Ok(self.composed@[page as int])
        }
    }

    fn page_count(&self) -> (n: usize) {
        self.sizes.len()
    }

    fn page_size(&self, page_idx: usize) -> (size: Result<PageSize, PageError>) {
        if page_idx < self.sizes.len() {
            Ok(self.sizes[page_idx])
        } else {
            Err(PageError::OutOfRange { page_idx, count: self.sizes.len() })
        }
    }

    fn composed_page_size(&self, page_idx: usize, look: Look) -> (size: Result<
        (u32, u32),
        PageError,
    >) {
        proof {
            use_type_invariant(self);
        }
        if page_idx >= self.sizes.len() {
            Err(PageError::OutOfRange { page_idx, count: self.sizes.len() })
        } else if look != self.look {
            Err(PageError::OtherLook)
        } else {
            Ok(self.composed[page_idx])
        }
    }
}

} // verus!
