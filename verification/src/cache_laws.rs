//! What the caches keep and what is prepared ahead.
use std::sync::Arc;

use vstd::prelude::*;

use crate::buffer::BufferId;
use crate::cache::{self, CacheKey, CachedPage};
use crate::document::PageMetrics;
use crate::ecache_fill::{self, RefillRequest};
use crate::encoded_cache::{self, EncodedFrame, FrameKey};
use crate::navigator::{self, Action};
use crate::number::{Real32, ONE};
use crate::picture;

verus! {

/// The distance of a page of the document that is read is the number of pages
/// between, whichever side it is on.
pub proof fn lemma_distance(key: CacheKey, page: usize)
    ensures
        key.page_idx >= page ==> cache::distance(key, Some((key.buffer, page))) == key.page_idx
            - page,
        key.page_idx <= page ==> cache::distance(key, Some((key.buffer, page))) == page
            - key.page_idx,
        cache::distance(key, None) == 0,
{
}

/// Of two pages of the document that is read the nearer one stays where the
/// further one does, and a page of it stays before any of another document.
pub proof fn lemma_nearest_pages_stay(
    a: Seq<(CacheKey, Arc<CachedPage>)>,
    b: Seq<(CacheKey, Arc<CachedPage>)>,
    buffer: BufferId,
    page: usize,
    cap: int,
    near: CacheKey,
    far: CacheKey,
)
    requires
        cache::trimmed(a, b, Some((buffer, page)), cap),
        cache::lookup(a, near) is Some,
        near.buffer == buffer,
        near.page_idx < u64::MAX / 2,
        page < u64::MAX / 2,
        far.buffer == buffer ==> {
            let n = near.page_idx - page;
            let f = far.page_idx - page;
            (if n < 0 {
                -n
            } else {
                n
            }) < (if f < 0 {
                -f
            } else {
                f
            })
        },
        cache::lookup(b, far) is Some,
    ensures
        cache::lookup(b, near) == cache::lookup(a, near),
{
    if cache::lookup(b, near) is None {
        assert(cache::distance(near, Some((buffer, page))) >= cache::distance(
            far,
            Some((buffer, page)),
        ));
    }
}

/// As many pages stay as there is room for, and all where there is.
pub proof fn lemma_room_is_used(
    a: Seq<(CacheKey, Arc<CachedPage>)>,
    b: Seq<(CacheKey, Arc<CachedPage>)>,
    focus: Option<(BufferId, usize)>,
    cap: int,
)
    requires
        cache::trimmed(a, b, focus, cap),
        0 <= cap,
    ensures
        a.len() <= cap ==> b.len() == a.len(),
        a.len() > cap ==> b.len() == cap,
{
}

/// A frame that is asked for comes to the front; the others keep their order.
pub proof fn lemma_asked_comes_first(
    entries: Seq<(FrameKey, Arc<EncodedFrame>)>,
    i: int,
)
    requires
        0 <= i < entries.len(),
    ensures
        ({
            let now = encoded_cache::to_front(entries, i);
            &&& now.len() == entries.len()
            &&& now[0] == entries[i]
            &&& forall|j: int| 0 <= j < i ==> #[trigger] entries[j] == now[j + 1]
            &&& forall|j: int| i < j < entries.len() ==> #[trigger] entries[j] == now[j]
        }),
{
}

/// In a full list a new frame takes the place of the one that was asked for
/// longest ago; the others move back by one.
pub proof fn lemma_oldest_goes(
    entries: Seq<(FrameKey, Arc<EncodedFrame>)>,
    cap: int,
    key: FrameKey,
    frame: Arc<EncodedFrame>,
)
    requires
        1 <= cap,
        entries.len() <= cap,
        forall|j: int| 0 <= j < entries.len() ==> (#[trigger] entries[j]).0 != key,
    ensures
        ({
            let now = encoded_cache::put_in(entries, cap, key, frame);
            &&& now[0] == (key, frame)
            &&& entries.len() < cap ==> now.len() == entries.len() + 1
            &&& entries.len() == cap ==> now.len() == cap
            &&& forall|j: int| 1 <= j < now.len() ==> #[trigger] now[j] == entries[j - 1]
        }),
{
    encoded_cache::lemma_place(entries, key);
}

/// A list that gets less room keeps the frames that were asked for last, in
/// their order.
pub proof fn lemma_latest_stay(entries: Seq<(FrameKey, Arc<EncodedFrame>)>, cap: nat, i: int)
    requires
        0 <= i < entries.len(),
    ensures
        ({
            let now = encoded_cache::shortened(entries, cap);
            &&& now.len() <= cap || now == entries
            &&& entries.len() >= cap ==> now.len() == cap
            &&& i < cap ==> now.len() > i && now[i] == entries[i]
        }),
        encoded_cache::at_least_one(0) == 1,
        forall|n: usize| n > 0 ==> #[trigger] encoded_cache::at_least_one(n) == n,
{
}

/// The frames that are encoded ahead are those that stepping on leads to, the
/// next one first, and then those that stepping back leads to.
pub proof fn lemma_ahead_then_behind(req: RefillRequest)
    requires
        req.radius > 0,
    ensures
        ({
            let doc = &req.page_info;
            let v = req.viewport;
            let product = Real32 { bits: ONE };
            let on = navigator::moved(doc, v, Action::NextScreen, product);
            let back = navigator::moved(doc, v, Action::PrevScreen, product);
            let moves_on = on.1 is Ok && (on.0.page_idx != v.page_idx || on.0.x_off != v.x_off
                || on.0.y_off != v.y_off);
            let moves_back = back.1 is Ok && (back.0.page_idx != v.page_idx || back.0.x_off
                != v.x_off || back.0.y_off != v.y_off);
            let list = ecache_fill::targets(req);
            doc.pages() > 0 ==> {
                &&& moves_on ==> list.len() > 0 && list[0] == on.0
                &&& !moves_on && moves_back ==> list.len() > 0 && list[0] == back.0
                &&& !moves_on && !moves_back ==> list.len() == 0
                &&& moves_back ==> list.contains(back.0)
            }
        }),
{
    let doc = &req.page_info;
    let v = req.viewport;
    let n = req.radius as nat;
    let x = ecache_fill::walked(doc, v, true, n);
    let y = ecache_fill::walked(doc, v, false, n);
    let list = ecache_fill::targets(req);
    if doc.pages() > 0 && ecache_fill::step(doc, v, false) is Some {
        assert(y[0] == ecache_fill::step(doc, v, false)->0);
        assert(list[x.len() as int] == y[0]);
    }
}

/// Pixels are stored row by row, each from left to right, with red, green,
/// blue and alpha one after the other.
pub proof fn lemma_bytes_in_order(width: u32, x: int, y: int, c: int)
    ensures
        picture::byte_at(width, 0, 0, c) == c,
        picture::byte_at(width, x, y, c + 1) == picture::byte_at(width, x, y, c) + 1,
        picture::byte_at(width, x + 1, y, c) == picture::byte_at(width, x, y, c) + 4,
        picture::byte_at(width, 0, y + 1, c) == picture::byte_at(width, width as int, y, c),
{
    assert((y + 1) * width == y * width + width) by (nonlinear_arith);
    assert(0 * width == 0) by (nonlinear_arith);
}

/// One sample stands for a gray, three for red, green and blue, and a fourth
/// for alpha; without it a pixel is opaque.
pub proof fn lemma_samples(samples: Seq<u8>, first: int)
    ensures
        forall|c: int|
            0 <= c < 3 ==> #[trigger] picture::expanded(samples, 1, first, c) == samples[first],
        forall|c: int|
            0 <= c < 3 ==> #[trigger] picture::expanded(samples, 3, first, c) == samples[first + c],
        forall|c: int|
            0 <= c < 4 ==> #[trigger] picture::expanded(samples, 4, first, c) == samples[first + c],
        picture::expanded(samples, 1, first, 3) == 255,
        picture::expanded(samples, 3, first, 3) == 255,
{
}

/// Frames of different palettes are told apart.
pub proof fn lemma_palettes_told_apart(
    a: crate::sixel_write::ColorMode,
    b: crate::sixel_write::ColorMode,
)
    ensures
        a.spec_tag() == b.spec_tag() <==> a == b,
{
}

} // verus!
