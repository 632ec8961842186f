//! Which frames to encode ahead.
//!
//! After every paint the frames that the user is most likely to ask for next
//! are encoded: those that `j` and `k` lead to. They are found by running the
//! navigator itself forward and backward, so they are the very frames that
//! those keys will ask for.
//!
//! A page that is not rasterised yet is skipped: rendering is not done here.
use std::sync::Arc;

use vstd::prelude::*;

use crate::buffer::BufferId;
use crate::cache::{CacheKey, CachedPage, RenderCache};
use crate::document::{PageInfo, PageMetrics};
use crate::encoded_cache::{self, ComposedEncodedCache, EncodedKey};
use crate::navigator::{self, Action, Navigator};
use crate::number::{Real32, ONE};
use crate::sixel_write::ColorMode;
use crate::viewport::Viewport;

verus! {

/// A request to encode ahead.
#[derive(Debug)]
pub struct RefillRequest {
    pub buffer: BufferId,
    /// The focused window's viewport when the request was made.
    pub viewport: Viewport,
    pub color_mode: ColorMode,
    /// Page extents, for running the navigator without the document.
    pub page_info: PageInfo,
    /// How many steps to walk in either direction.
    pub radius: usize,
    /// Number of the request; later ones have larger numbers.
    pub generation: u64,
}

impl RefillRequest {
    pub fn new(
        buffer: BufferId,
        viewport: Viewport,
        color_mode: ColorMode,
        page_info: PageInfo,
        radius: usize,
    ) -> (r: RefillRequest)
        ensures
            r.buffer == buffer,
            r.viewport == viewport,
            r.color_mode == color_mode,
            r.page_info == page_info,
            r.radius == radius,
            r.generation == 0,
    {
        RefillRequest { buffer, viewport, color_mode, page_info, radius, generation: 0 }
    }

    /// Whether no later request has been made. `latest` is the number of the
    /// latest one.
    pub fn still_current(&self, latest: u64) -> (b: bool)
        ensures
            b == (self.generation >= latest),
    {
        self.generation >= latest
    }
}

/// Two viewports show the same part of the same page.
pub open spec fn same_place(a: Viewport, b: Viewport) -> bool {
    a.page_idx == b.page_idx && a.x_off == b.x_off && a.y_off == b.y_off
}

/// Where one more step leads: nowhere where it fails or does not move.
pub open spec fn step<D: PageMetrics>(doc: &D, v: Viewport, forward: bool) -> Option<Viewport> {
    let m = navigator::moved(
        doc,
        v,
        if forward {
            Action::NextScreen
        } else {
            Action::PrevScreen
        },
        Real32 { bits: ONE },
    );
    if m.1 is Err || same_place(m.0, v) {
        None
    } else {
        Some(m.0)
    }
}

/// The viewports that up to `radius` steps lead to, in order.
pub open spec fn walked<D: PageMetrics>(
    doc: &D,
    v: Viewport,
    forward: bool,
    radius: nat,
) -> Seq<Viewport>
    decreases radius,
{
    if radius == 0 {
        Seq::empty()
    } else {
        match step(doc, v, forward) {
            None => Seq::empty(),
            Some(w) => seq![w] + walked(doc, w, forward, (radius - 1) as nat),
        }
    }
}

/// Take one step.
pub fn walk_step<D: PageMetrics>(doc: &D, v: Viewport, forward: bool) -> (r: Option<Viewport>)
    ensures
        r == step(doc, v, forward),
{
    let mut w: Viewport = v;
    let times = |a: Real32, b: Real32| -> (p: Real32) { a };
    let action: Action = if forward {
        Action::NextScreen
    } else {
        Action::PrevScreen
    };
    let e = Navigator::apply(doc, &mut w, action, &times);
    if e.is_err() || (w.page_idx == v.page_idx && w.x_off == v.x_off && w.y_off == v.y_off) {
        None
    } else {
        Some(w)
    }
}

/// Walk `radius` steps in one direction, stopping where a step leads nowhere.
pub fn walk<D: PageMetrics>(doc: &D, start: Viewport, forward: bool, radius: usize) -> (out: Vec<
    Viewport,
>)
    ensures
        out@ == walked(doc, start, forward, radius as nat),
{
    let mut out: Vec<Viewport> = Vec::new();
    let mut v: Viewport = start;
    let mut left: usize = radius;
    let ghost whole = walked(doc, start, forward, radius as nat);
    assert(out@ + walked(doc, v, forward, left as nat) =~= whole);
    while left > 0
        invariant
            out@ + walked(doc, v, forward, left as nat) == whole,
        ensures
            out@ == whole,
        decreases left,
    {
        match walk_step(doc, v, forward) {
            None => {
                assert(walked(doc, v, forward, left as nat) =~= Seq::empty());
                assert(out@ =~= whole);
                break ;
            },
            Some(w) => {
                let ghost sofar = out@;
                out.push(w);
                assert(sofar + (seq![w] + walked(doc, w, forward, (left - 1) as nat)) =~= out@
                    + walked(doc, w, forward, (left - 1) as nat));
                v = w;
                left -= 1;
                assert(left == 0 ==> out@ =~= whole);
            },
        }
    }
    out
}

/// The frames that a request asks for: forward first, then backward.
pub open spec fn targets(req: RefillRequest) -> Seq<Viewport> {
    if req.page_info.pages() == 0 {
        Seq::empty()
    } else {
        walked(&req.page_info, req.viewport, true, req.radius as nat) + walked(
            &req.page_info,
            req.viewport,
            false,
            req.radius as nat,
        )
    }
}

/// Plan a request.
pub fn plan(req: &RefillRequest) -> (out: Vec<Viewport>)
    ensures
        out@ == targets(*req),
{
    if req.page_info.page_count() == 0 {
        return Vec::new();
    }
    let mut out: Vec<Viewport> = walk(&req.page_info, req.viewport, true, req.radius);
    let mut back: Vec<Viewport> = walk(&req.page_info, req.viewport, false, req.radius);
    out.append(&mut back);
    out
}

/// The page to encode a predicted frame from: where the frame cache is on and
/// lacks the frame, and the page is rasterised already.
pub fn fill_source(
    rcache: &RenderCache,
    ecache: &mut ComposedEncodedCache,
    rkey: &CacheKey,
    ekey: &EncodedKey,
) -> (r: Option<Arc<CachedPage>>)
    requires
        rcache.inv(),
        old(ecache).inv(),
    ensures
        final(ecache).inv(),
        final(ecache).same_but_frames(old(ecache)),
        if !old(ecache).on() || rcache.hit(*rkey) is None {
            r is None && final(ecache).frames() == old(ecache).frames()
        } else {
            &&& final(ecache).frames() == encoded_cache::asked(old(ecache), *ekey)
            &&& r == (if encoded_cache::hit(old(ecache), *ekey) is Some {
                None
            } else {
                rcache.hit(*rkey)
            })
        },
{
    if !ecache.enabled() {
        return None;
    }
    match rcache.get(rkey) {
        None => None,
        Some(page) => {
            if ecache.get(ekey).is_some() {
                None
            } else {
                Some(page)
            }
        },
    }
}

/// The first frame that is encoded ahead is the one that the next step asks
/// for, and each later one the one after that.
pub proof fn lemma_walk_predicts<D: PageMetrics>(
    doc: &D,
    v: Viewport,
    forward: bool,
    radius: nat,
    i: int,
)
    requires
        0 <= i < walked(doc, v, forward, radius).len(),
    ensures
        step(
            doc,
            if i == 0 {
                v
            } else {
                walked(doc, v, forward, radius)[i - 1]
            },
            forward,
        ) == Some(walked(doc, v, forward, radius)[i]),
        walked(doc, v, forward, radius).len() <= radius,
    decreases radius,
{
    if radius > 0 {
        if let Some(w) = step(doc, v, forward) {
            let rest = walked(doc, w, forward, (radius - 1) as nat);
            if rest.len() > 0 {
                lemma_walk_predicts(doc, w, forward, (radius - 1) as nat, 0);
            }
            if i > 0 {
                lemma_walk_predicts(doc, w, forward, (radius - 1) as nat, i - 1);
                assert(walked(doc, v, forward, radius)[i] == rest[i - 1]);
                if i > 1 {
                    assert(walked(doc, v, forward, radius)[i - 1] == rest[i - 2]);
                }
            }
        }
    }
}

} // verus!
