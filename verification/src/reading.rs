//! Moving through what the focused window shows: navigation, jumps, marks,
//! links and the directory browser.
use vstd::prelude::*;

use crate::buffer::{self, Buffer, BufferId, JumpEntry, PdfBuffer};
use crate::docstate::{self, Bookmark, DocState, DocView, NumeralTexts};
use crate::docstate_laws;
use crate::document::{PageError, PageLink, PageMetrics, PageSize};
use crate::navigator::{self, Action, Navigator};
use crate::number::Real32;
use crate::opening;
use crate::pool::{self, Slot};
use crate::viewport::Viewport;
use crate::window::{self, Window, WindowId};
use crate::workspace::{self, CacheSettings, Tab, Workspace, WorkspaceError};

verus! {

/// The state of a document with the viewport and the cache settings written
/// into it.
pub open spec fn synced(st: DocState, v: Viewport, caches: CacheSettings) -> DocState {
    DocState {
        last_page: v.page_idx,
        zoom: v.zoom,
        rotation: v.rotation,
        scroll_x: v.x_off,
        scroll_y: v.y_off,
        night_mode: v.night_mode,
        render_dpi: v.render_dpi,
        render_quality: v.render_quality,
        cache_enabled: caches.enabled,
        cache_size: Some(caches.pages),
        ecache_size: Some(caches.frames),
        ..st
    }
}

/// The pool with a window's viewport written into the state of its document.
pub open spec fn slots_synced<D>(
    slots: Seq<Slot<D>>,
    w: Window,
    caches: CacheSettings,
) -> Seq<Slot<D>> {
    match pool::slot_at(slots, w.buffer) {
        Some(i) => match slots[i].buf {
            Buffer::Pdf(p) => slots.update(
                i,
                Slot {
                    buf: Buffer::Pdf(
                        PdfBuffer { state: synced(p.state, w.viewport, caches), ..p },
                    ),
                    ..slots[i]
                },
            ),
            Buffer::Explorer(_) => slots,
        },
        None => slots,
    }
}

/// The pool with the viewports of all these windows written, one after the
/// other.
pub open spec fn all_synced<D>(
    slots: Seq<Slot<D>>,
    leaves: Seq<Window>,
    caches: CacheSettings,
) -> Seq<Slot<D>>
    decreases leaves.len(),
{
    if leaves.len() == 0 {
        slots
    } else {
        slots_synced(all_synced(slots, leaves.drop_last(), caches), leaves.last(), caches)
    }
}

/// A position to come back to.
pub open spec fn entry_of(v: Viewport) -> JumpEntry {
    JumpEntry { page_idx: v.page_idx, x_off: v.x_off, y_off: v.y_off }
}

fn jump_entry(v: &Viewport) -> (e: JumpEntry)
    ensures
        e == entry_of(*v),
{
    JumpEntry { page_idx: v.page_idx, x_off: v.x_off, y_off: v.y_off }
}

/// The moves over a long distance, which are remembered.
pub open spec fn is_jump(action: Action) -> bool {
    action is GotoPage || action is FirstPage || action is LastPage
}

/// Is this a jump motion worth remembering? Only long-distance moves count,
/// not continuous scrolling.
fn is_jump_action(action: Action) -> (b: bool)
    ensures
        b == is_jump(action),
{
    match action {
        Action::GotoPage(_) => true,
        Action::FirstPage => true,
        Action::LastPage => true,
        _ => false,
    }
}

/// One step of an action, with `times` multiplying for a relative zoom.
#[verifier::opaque]
pub open spec fn stepped<D: PageMetrics, F: Fn(Real32, Real32) -> Real32>(
    doc: &D,
    v: Viewport,
    action: Action,
    times: &F,
    w: Viewport,
    r: Option<PageError>,
) -> bool {
    exists|product: Real32|
        {
            &&& (action matches Action::ZoomBy(factor) ==> factor.positive() ==> call_ensures(
                times,
                (navigator::zoom_base(v.zoom), factor),
                product,
            ))
            &&& w == (#[trigger] navigator::moved(doc, v, action, product)).0
            &&& r == failure(navigator::moved(doc, v, action, product).1)
        }
}

/// The error of a result, where it is one.
pub open spec fn failure(r: Result<(), PageError>) -> Option<PageError> {
    match r {
        Ok(_) => None,
        Err(e) => Some(e),
    }
}

/// An action taken `n` times, or up to the first failure.
pub open spec fn repeated<D: PageMetrics, F: Fn(Real32, Real32) -> Real32>(
    doc: &D,
    v: Viewport,
    action: Action,
    times: &F,
    n: nat,
    w: Viewport,
    r: Option<PageError>,
) -> bool
    decreases n,
{
    if n == 0 {
        w == v && r is None
    } else {
        ||| {
            &&& r is Some
            &&& repeated(doc, v, action, times, (n - 1) as nat, w, r)
        }
        ||| exists|mid: Viewport|
            {
                &&& repeated(doc, v, action, times, (n - 1) as nat, mid, None)
                &&& #[trigger] stepped(doc, mid, action, times, w, r)
            }
    }
}

fn step<D: PageMetrics, F: Fn(Real32, Real32) -> Real32>(
    doc: &D,
    v: &mut Viewport,
    action: Action,
    times: &F,
) -> (r: Option<PageError>)
    requires
        forall|a: Real32, b: Real32| call_requires(times, (a, b)),
    ensures
        stepped(doc, *old(v), action, times, *final(v), r),
{
    let r = Navigator::apply(doc, v, action, times);
    reveal(stepped);
    match r {
        Ok(_) => None,
        Err(e) => Some(e),
    }
}

/// A failure ends the repetition.
proof fn lemma_failure_stands<D: PageMetrics, F: Fn(Real32, Real32) -> Real32>(
    doc: &D,
    v: Viewport,
    action: Action,
    times: &F,
    n: nat,
    m: nat,
    w: Viewport,
    r: Option<PageError>,
)
    requires
        repeated(doc, v, action, times, n, w, r),
        r is Some,
        n <= m,
    ensures
        repeated(doc, v, action, times, m, w, r),
    decreases m,
{
    if n < m {
        lemma_failure_stands(doc, v, action, times, n, (m - 1) as nat, w, r);
    }
}

/// Take an action `n` times, or up to the first failure.
pub(crate) fn repeat<D: PageMetrics, F: Fn(Real32, Real32) -> Real32>(
    doc: &D,
    v: &mut Viewport,
    action: Action,
    n: usize,
    times: &F,
) -> (e: Option<PageError>)
    requires
        forall|a: Real32, b: Real32| call_requires(times, (a, b)),
    ensures
        repeated(doc, *old(v), action, times, n as nat, *final(v), e),
{
    let ghost start = *v;
    let mut e: Option<PageError> = None;
    let mut k: usize = 0;
    while k < n && e.is_none()
        invariant
            k <= n,
            forall|a: Real32, b: Real32| call_requires(times, (a, b)),
            repeated(doc, start, action, times, k as nat, *v, e),
        decreases n - k,
    {
        let ghost mid = *v;
        e = step(doc, v, action, times);
        k += 1;
        assert(stepped(doc, mid, action, times, *v, e));
    }
    proof {
        if e is Some {
            lemma_failure_stands(doc, start, action, times, k as nat, n as nat, *v, e);
        }
    }
    e
}

/// At least one.
pub open spec fn at_least_once(count: usize) -> nat {
    if count == 0 {
        1
    } else {
        count as nat
    }
}

/// Only the document at `i` may differ, in its state and its jump lists,
/// which are these.
pub open spec fn document_after<D>(
    slots: Seq<Slot<D>>,
    i: int,
    after: Seq<Slot<D>>,
    state: DocState,
    back: Seq<JumpEntry>,
    forward: Seq<JumpEntry>,
) -> bool {
    &&& after == slots.update(i, after[i])
    &&& after[i].key == slots[i].key
    &&& after[i].refs == slots[i].refs
    &&& slots[i].buf matches Buffer::Pdf(p) && after[i].buf matches Buffer::Pdf(q) && {
        &&& q.id == p.id
        &&& q.path == p.path
        &&& q.pdf == p.pdf
        &&& q.link_cache == p.link_cache
        &&& q.search == p.search
        &&& q.state == state
        &&& q.back_stack@ == back
        &&& q.forward_stack@ == forward
    }
}

/// An action on the focused document, whose jump lists become `back` and
/// `forward`. The document's state follows the viewport where it succeeds.
pub open spec fn travelled<D: PageMetrics, F: Fn(Real32, Real32) -> Real32>(
    before: Workspace<D>,
    after: Workspace<D>,
    action: Action,
    count: nat,
    times: &F,
    caches: CacheSettings,
    back: Seq<JumpEntry>,
    forward: Seq<JumpEntry>,
    r: Result<(), WorkspaceError>,
) -> bool {
    let here = before.focus_now();
    let i = pool::slot_at(before.pool.slots@, here.buffer)->0;
    &&& after.same_frame(before)
    &&& before.pool.slots@[i].buf matches Buffer::Pdf(p) && exists|
        v: Viewport,
        e: Option<PageError>,
    |
        {
            &&& #[trigger] repeated(&p.pdf, here.viewport, action, times, count, v, e)
            &&& match e {
                None => {
                    &&& r is Ok
                    &&& after.tabs@ == opening::with_focus(
                        before,
                        Window { viewport: v, dirty: true, ..here },
                    )
                    &&& document_after(
                        before.pool.slots@,
                        i,
                        after.pool.slots@,
                        synced(p.state, v, caches),
                        back,
                        forward,
                    )
                },
                Some(x) => {
                    &&& r == Err::<(), _>(WorkspaceError::Page(x))
                    &&& after.tabs@ == opening::with_focus(before, Window { viewport: v, ..here })
                    &&& document_after(
                        before.pool.slots@,
                        i,
                        after.pool.slots@,
                        p.state,
                        back,
                        forward,
                    )
                },
            }
        }
}

/// What the focused window shows: nothing, a directory or a document.
pub open spec fn focused_buffer<D>(ws: Workspace<D>) -> Option<Buffer<D>> {
    match pool::slot_at(ws.pool.slots@, ws.focus_now().buffer) {
        Some(i) => Some(ws.pool.slots@[i].buf),
        None => None,
    }
}

impl<D> Workspace<D> {
    /// Nothing but the windows of the current tab and what buffers hold may
    /// differ.
    pub open spec fn same_frame(self, other: Workspace<D>) -> bool {
        &&& self.current_tab == other.current_tab
        &&& self.win_ids == other.win_ids
        &&& self.buf_ids == other.buf_ids
        &&& self.closed == other.closed
        &&& self.same_rest(other)
    }
}

/// Changing what a buffer holds keeps everything in order.
pub proof fn lemma_edited_inv<D>(before: Workspace<D>, after: Workspace<D>, i: int)
    requires
        before.inv(),
        after.same_frame(before),
        after.tabs == before.tabs,
        0 <= i < before.pool.slots@.len(),
        after.pool.slots@ == before.pool.slots@.update(i, after.pool.slots@[i]),
        after.pool.slots@[i].key == before.pool.slots@[i].key,
        after.pool.slots@[i].refs == before.pool.slots@[i].refs,
        after.pool.slots@[i].id() == before.pool.slots@[i].id(),
        after.pool.slots@[i].buf is Pdf <==> before.pool.slots@[i].buf is Pdf,
        after.pool.slots@[i].buf matches Buffer::Pdf(p) ==> p.search.valid(),
    ensures
        after.inv(),
        pool::slot_at(after.pool.slots@, before.pool.slots@[i].id()) == Some(i),
{
    let slots = before.pool.slots@;
    let buf = after.pool.slots@[i].buf;
    workspace::lemma_counts_edited(
        slots,
        workspace::shown_count(before.tabs@),
        before.buf_ids.upcoming,
        i,
        buf,
    );
    assert(after.pool.slots@ =~= slots.update(i, Slot { buf, ..slots[i] }));
    let id = slots[i].id();
    pool::lemma_slot_at(after.pool.slots@, id);
    let k = pool::slot_at(after.pool.slots@, id)->0;
    if k < i {
        assert(after.pool.slots@[k] == slots[k]);
        assert(slots[k].id().0 < slots[i].id().0);
    }
}

/// What is known of the buffer that a window shows.
pub(crate) proof fn lemma_held<D>(ws: Workspace<D>, id: BufferId)
    requires
        ws.inv(),
    ensures
        pool::slot_at(ws.pool.slots@, id) matches Some(i) ==> {
            &&& 0 <= i < ws.pool.slots@.len()
            &&& ws.pool.slots@[i].id() == id
            &&& ws.pool.slots@[i].buf matches Buffer::Pdf(p) ==> p.search.valid()
        },
{
    pool::lemma_slot_at(ws.pool.slots@, id);
}

impl<D> Workspace<D> {
    /// Write a window's viewport into the state of its document.
    fn sync_window(&mut self, w: Window, caches: CacheSettings)
        requires
            old(self).inv(),
        ensures
            final(self).inv(),
            final(self).same_frame(*old(self)),
            final(self).tabs == old(self).tabs,
            final(self).pool.slots@ == slots_synced(old(self).pool.slots@, w, caches),
    {
        let ghost before = *self;
        proof {
            lemma_held(before, w.buffer);
        }
        if let Some(i) = self.pool.find(w.buffer) {
            if let Buffer::Pdf(p) = &mut self.pool.slots[i].buf {
                p.state.last_page = w.viewport.page_idx;
                p.state.zoom = w.viewport.zoom;
                p.state.rotation = w.viewport.rotation;
                p.state.scroll_x = w.viewport.x_off;
                p.state.scroll_y = w.viewport.y_off;
                p.state.night_mode = w.viewport.night_mode;
                p.state.render_dpi = w.viewport.render_dpi;
                p.state.render_quality = w.viewport.render_quality;
                p.state.cache_enabled = caches.enabled;
                p.state.cache_size = Some(caches.pages);
                p.state.ecache_size = Some(caches.frames);
            }
            proof {
                assert(self.pool.slots@ =~= slots_synced(before.pool.slots@, w, caches));
                lemma_edited_inv(before, *self, i as int);
            }
        }
    }

    /// Copy a window's viewport back into the state of its document. Nothing
    /// happens for directories and unknown windows. All tabs are searched.
    pub fn sync_buffer_state_from_window(&mut self, window: WindowId, caches: CacheSettings)
        requires
            old(self).inv(),
        ensures
            final(self).inv(),
            final(self).same_frame(*old(self)),
            final(self).tabs == old(self).tabs,
            final(self).pool.slots@ == (match window::position(
                workspace::all_leaves(old(self).tabs@),
                window,
            ) {
                Some(i) => slots_synced(
                    old(self).pool.slots@,
                    workspace::all_leaves(old(self).tabs@)[i],
                    caches,
                ),
                None => old(self).pool.slots@,
            }),
    {
        let windows: Vec<Window> = self.all_windows();
        proof {
            window::lemma_position(windows@, window);
        }
        let n: usize = windows.len();
        let mut i: usize = 0;
        while i < n && windows[i].id != window
            invariant
                i <= n == windows@.len(),
                forall|j: int| 0 <= j < i ==> (#[trigger] windows@[j]).id != window,
            decreases n - i,
        {
            i += 1;
        }
        if i < n {
            self.sync_window(windows[i], caches);
        }
    }

    /// Copy every window's viewport back into the state of its document. Of
    /// windows that share one, the last has its way.
    pub fn sync_all(&mut self, caches: CacheSettings)
        requires
            old(self).inv(),
        ensures
            final(self).inv(),
            final(self).same_frame(*old(self)),
            final(self).tabs == old(self).tabs,
            final(self).pool.slots@ == all_synced(
                old(self).pool.slots@,
                workspace::all_leaves(old(self).tabs@),
                caches,
            ),
    {
        let ghost before = *self;
        let windows: Vec<Window> = self.all_windows();
        let mut i: usize = 0;
        assert(windows@.take(0) =~= Seq::empty());
        while i < windows.len()
            invariant
                i <= windows@.len(),
                self.inv(),
                self.same_frame(before),
                self.tabs == before.tabs,
                self.pool.slots@ == all_synced(
                    before.pool.slots@,
                    windows@.take(i as int),
                    caches,
                ),
            decreases windows@.len() - i,
        {
            let ghost t = windows@.take(i + 1);
            assert(t.drop_last() =~= windows@.take(i as int));
            assert(t.last() == windows@[i as int]);
            self.sync_window(windows[i], caches);
            i += 1;
        }
        assert(windows@.take(i as int) =~= windows@);
    }

    /// Remember where the focused window is. Later positions that were left
    /// by going back are forgotten.
    fn push_back_stack(&mut self)
        requires
            old(self).live(),
        ensures
            final(self).live(),
            final(self).same_frame(*old(self)),
            final(self).tabs == old(self).tabs,
            match focused_buffer(*old(self)) {
                Some(Buffer::Pdf(p)) => document_after(
                    old(self).pool.slots@,
                    pool::slot_at(old(self).pool.slots@, old(self).focus_now().buffer)->0,
                    final(self).pool.slots@,
                    p.state,
                    buffer::pushed(p.back_stack@, entry_of(old(self).focus_now().viewport)),
                    Seq::empty(),
                ),
                _ => final(self).pool.slots@ == old(self).pool.slots@,
            },
    {
        let ghost before = *self;
        let here: Window = self.focused_window();
        proof {
            lemma_held(before, here.buffer);
        }
        if let Some(i) = self.pool.find(here.buffer) {
            let e: JumpEntry = jump_entry(&here.viewport);
            if let Buffer::Pdf(p) = &mut self.pool.slots[i].buf {
                p.push_jump(e);
                assert(p.forward_stack@ =~= Seq::empty());
            }
            proof {
                lemma_edited_inv(before, *self, i as int);
            }
        }
    }

    /// Set a mark at the focused window's position.
    pub fn set_bookmark(&mut self, mark: char) -> (r: Result<(), WorkspaceError>)
        requires
            old(self).live(),
        ensures
            final(self).live(),
            mark_set(*old(self), *final(self), mark, r),
    {
        let ghost before = *self;
        if !((mark >= 'a' && mark <= 'z') || (mark >= 'A' && mark <= 'Z')) {
            return Err(WorkspaceError::NotALetter);
        }
        let here: Window = self.focused_window();
        proof {
            lemma_held(before, here.buffer);
        }
        match self.pool.find(here.buffer) {
            None => Err(WorkspaceError::NotAPdf),
            Some(i) => {
                let mut done: bool = false;
                if let Buffer::Pdf(p) = &mut self.pool.slots[i].buf {
                    p.state.set_bookmark(
                        mark,
                        here.viewport.page_idx,
                        here.viewport.x_off,
                        here.viewport.y_off,
                    );
                    done = true;
                }
                proof {
                    lemma_edited_inv(before, *self, i as int);
                }
                if done {
                    Ok(())
                } else {
                    assert(self.pool.slots@ =~= before.pool.slots@);
                    Err(WorkspaceError::NotAPdf)
                }
            },
        }
    }

    /// Delete a mark of the focused document; whether there was one.
    pub fn delete_bookmark(&mut self, mark: char) -> (found: bool)
        requires
            old(self).live(),
        ensures
            final(self).live(),
            mark_deleted(*old(self), *final(self), mark, found),
    {
        let ghost before = *self;
        let here: Window = self.focused_window();
        proof {
            lemma_held(before, here.buffer);
        }
        match self.pool.find(here.buffer) {
            None => false,
            Some(i) => {
                let mut found: bool = false;
                if let Buffer::Pdf(p) = &mut self.pool.slots[i].buf {
                    found = p.state.delete_bookmark(mark);
                }
                proof {
                    lemma_edited_inv(before, *self, i as int);
                    if before.pool.slots@[i as int].buf is Explorer {
                        assert(self.pool.slots@ =~= before.pool.slots@);
                    }
                }
                found
            },
        }
    }

    /// Keep whether the mouse is wanted in the focused document's state.
    pub fn set_mouse_pref(&mut self, enabled: Option<bool>)
        requires
            old(self).live(),
        ensures
            final(self).live(),
            mouse_kept(*old(self), *final(self), enabled),
    {
        let ghost before = *self;
        let here: Window = self.focused_window();
        proof {
            lemma_held(before, here.buffer);
        }
        if let Some(i) = self.pool.find(here.buffer) {
            if let Buffer::Pdf(p) = &mut self.pool.slots[i].buf {
                p.state.mouse_enabled = enabled;
            }
            proof {
                lemma_edited_inv(before, *self, i as int);
                if before.pool.slots@[i as int].buf is Explorer {
                    assert(self.pool.slots@ =~= before.pool.slots@);
                } else {
                    assert(self.pool.slots@[i as int].buf->Pdf_0.state@ =~= (DocView {
                        mouse_enabled: enabled,
                        ..before.pool.slots@[i as int].buf->Pdf_0.state@
                    }));
                }
            }
        }
    }
}

/// A letter that a mark can have.
pub open spec fn is_mark(c: char) -> bool {
    ('a' <= c && c <= 'z') || ('A' <= c && c <= 'Z')
}

/// Only the state of the focused document may differ, and it stands for that.
pub open spec fn state_after<D>(before: Workspace<D>, after: Workspace<D>, state: DocView) -> bool {
    let i = pool::slot_at(before.pool.slots@, before.focus_now().buffer)->0;
    let was = before.pool.slots@;
    let now = after.pool.slots@;
    &&& now == was.update(i, now[i])
    &&& now[i].key == was[i].key
    &&& now[i].refs == was[i].refs
    &&& was[i].buf matches Buffer::Pdf(p) && now[i].buf matches Buffer::Pdf(q) && {
        &&& q == (PdfBuffer { state: q.state, ..p })
        &&& q.state@ == state
    }
}

/// A change of the jump lists before a move counts as part of it.
proof fn lemma_travelled_after<D: PageMetrics, F: Fn(Real32, Real32) -> Real32>(
    before: Workspace<D>,
    mid: Workspace<D>,
    after: Workspace<D>,
    action: Action,
    count: nat,
    times: &F,
    caches: CacheSettings,
    back: Seq<JumpEntry>,
    forward: Seq<JumpEntry>,
    r: Result<(), WorkspaceError>,
)
    requires
        before.live(),
        mid.live(),
        focused_buffer(before) matches Some(Buffer::Pdf(p)) && document_after(
            before.pool.slots@,
            pool::slot_at(before.pool.slots@, before.focus_now().buffer)->0,
            mid.pool.slots@,
            p.state,
            back,
            forward,
        ),
        mid.same_frame(before),
        mid.tabs == before.tabs,
        travelled(mid, after, action, count, times, caches, back, forward, r),
    ensures
        travelled(before, after, action, count, times, caches, back, forward, r),
{
    let here = before.focus_now();
    let id = here.buffer;
    let was = before.pool.slots@;
    let now = mid.pool.slots@;
    let i = pool::slot_at(was, id)->0;
    pool::lemma_slot_at(was, id);
    pool::lemma_slot_at(now, id);
    assert(now[i].id() == id);
    assert forall|j: int| 0 <= j < i implies (#[trigger] now[j]).id() != id by {
        assert(now[j] == was[j]);
    }
    assert(pool::slot_at(now, id) == Some(i));
    let p = was[i].buf->Pdf_0;
    let q = now[i].buf->Pdf_0;
    let (v, e) = choose|v: Viewport, e: Option<PageError>|
        {
            &&& #[trigger] repeated(&q.pdf, here.viewport, action, times, count, v, e)
            &&& match e {
                None => {
                    &&& r is Ok
                    &&& after.tabs@ == opening::with_focus(
                        mid,
                        Window { viewport: v, dirty: true, ..here },
                    )
                    &&& document_after(
                        now,
                        i,
                        after.pool.slots@,
                        synced(q.state, v, caches),
                        back,
                        forward,
                    )
                },
                Some(x) => {
                    &&& r == Err::<(), _>(WorkspaceError::Page(x))
                    &&& after.tabs@ == opening::with_focus(mid, Window { viewport: v, ..here })
                    &&& document_after(now, i, after.pool.slots@, q.state, back, forward)
                },
            }
        };
    assert(repeated(&p.pdf, here.viewport, action, times, count, v, e));
    assert(after.pool.slots@ =~= was.update(i, after.pool.slots@[i]));
}

impl<D: PageMetrics> Workspace<D> {
    /// Take an action on the focused document.
    fn travel<F: Fn(Real32, Real32) -> Real32>(
        &mut self,
        action: Action,
        count: usize,
        times: &F,
        caches: CacheSettings,
    ) -> (r: Result<(), WorkspaceError>)
        requires
            old(self).live(),
            focused_buffer(*old(self)) matches Some(Buffer::Pdf(_)),
            forall|a: Real32, b: Real32| call_requires(times, (a, b)),
        ensures
            final(self).live(),
            focused_buffer(*old(self)) matches Some(Buffer::Pdf(p)) && travelled(
                *old(self),
                *final(self),
                action,
                at_least_once(count),
                times,
                caches,
                p.back_stack@,
                p.forward_stack@,
                r,
            ),
    {
        let ghost before = *self;
        let here: Window = self.focused_window();
        let n: usize = if count == 0 {
            1
        } else {
            count
        };
        let ghost i = pool::slot_at(before.pool.slots@, here.buffer)->0;
        let ghost p = before.pool.slots@[i].buf->Pdf_0;
        let mut v: Viewport = here.viewport;
        let mut e: Option<PageError> = None;
        proof {
            workspace::lemma_focus(before);
            lemma_held(before, here.buffer);
        }
        if let Some(buf) = self.buffer_pdf(here.buffer) {
            e = repeat(&buf.pdf, &mut v, action, n, times);
        }
        assert(repeated(&p.pdf, here.viewport, action, times, n as nat, v, e));
        match e {
            Some(x) => {
                self.edit_focus(Window { viewport: v, ..here });
                assert(self.pool.slots@ =~= before.pool.slots@.update(i, self.pool.slots@[i]));
                Err(WorkspaceError::Page(x))
            },
            None => {
                let w = Window { viewport: v, dirty: true, ..here };
                self.edit_focus(w);
                self.sync_window(w, caches);
                assert(self.pool.slots@ =~= before.pool.slots@.update(i, self.pool.slots@[i]));
                Ok(())
            },
        }
    }

    /// Take a navigation action `count` times in the focused window. Jumps
    /// are remembered; in a directory nothing happens.
    pub fn apply_nav<F: Fn(Real32, Real32) -> Real32>(
        &mut self,
        action: Action,
        count: usize,
        times: &F,
        caches: CacheSettings,
    ) -> (r: Result<(), WorkspaceError>)
        requires
            old(self).live(),
            forall|a: Real32, b: Real32| call_requires(times, (a, b)),
        ensures
            final(self).live(),
            nav_result(*old(self), *final(self), action, count, times, caches, r),
    {
        let here: Window = self.focused_window();
        match self.pool.get(here.buffer) {
            None => {
                return Err(WorkspaceError::BufferGone(here.buffer));
            },
            Some(b) => {
                if b.is_explorer() {
                    return Ok(());
                }
            },
        }
        if is_jump_action(action) {
            self.jump(action, count, times, caches)
        } else {
            self.travel(action, count, times, caches)
        }
    }

    /// Take an action on the focused document and remember where it started.
    fn jump<F: Fn(Real32, Real32) -> Real32>(
        &mut self,
        action: Action,
        count: usize,
        times: &F,
        caches: CacheSettings,
    ) -> (r: Result<(), WorkspaceError>)
        requires
            old(self).live(),
            focused_buffer(*old(self)) matches Some(Buffer::Pdf(_)),
            forall|a: Real32, b: Real32| call_requires(times, (a, b)),
        ensures
            final(self).live(),
            focused_buffer(*old(self)) matches Some(Buffer::Pdf(p)) && travelled(
                *old(self),
                *final(self),
                action,
                at_least_once(count),
                times,
                caches,
                buffer::pushed(p.back_stack@, entry_of(old(self).focus_now().viewport)),
                Seq::empty(),
                r,
            ),
    {
        let ghost before = *self;
        self.push_back_stack();
        let ghost mid = *self;
        proof {
            lemma_still_a_document(before, mid);
        }
        let r = self.travel(action, count, times, caches);
        proof {
            let p = focused_buffer(before)->0->Pdf_0;
            lemma_travelled_after(
                before,
                mid,
                *self,
                action,
                at_least_once(count),
                times,
                caches,
                buffer::pushed(p.back_stack@, entry_of(before.focus_now().viewport)),
                Seq::empty(),
                r,
            );
        }
        r
    }

    /// Jump to a place, remembering where it started.
    pub fn jump_to_page<F: Fn(Real32, Real32) -> Real32>(
        &mut self,
        page: usize,
        x_off: i32,
        y_off: i32,
        times: &F,
        caches: CacheSettings,
    ) -> (r: Result<(), WorkspaceError>)
        requires
            old(self).live(),
            forall|a: Real32, b: Real32| call_requires(times, (a, b)),
        ensures
            final(self).live(),
            jumped_to(*old(self), *final(self), page, x_off, y_off, times, caches, r),
    {
        let here: Window = self.focused_window();
        match self.pool.get(here.buffer) {
            None => {
                return Err(WorkspaceError::BufferGone(here.buffer));
            },
            Some(b) => {
                if b.is_explorer() {
                    return Ok(());
                }
            },
        }
        self.jump(Action::JumpTo { page_idx: page, x_off, y_off }, 1, times, caches)
    }

    /// Go back to the position remembered last; the current one becomes the
    /// next one forward. `false` where none is remembered.
    pub fn jump_back<F: Fn(Real32, Real32) -> Real32>(
        &mut self,
        times: &F,
        caches: CacheSettings,
    ) -> (r: Result<bool, WorkspaceError>)
        requires
            old(self).live(),
            forall|a: Real32, b: Real32| call_requires(times, (a, b)),
        ensures
            final(self).live(),
            went_back(*old(self), *final(self), times, caches, r),
    {
        let ghost before = *self;
        let here: Window = self.focused_window();
        let e: JumpEntry = jump_entry(&here.viewport);
        proof {
            lemma_held(before, here.buffer);
        }
        let mut target: Option<JumpEntry> = None;
        if let Some(i) = self.pool.find(here.buffer) {
            if let Buffer::Pdf(p) = &mut self.pool.slots[i].buf {
                target = p.step_back(e);
            }
            proof {
                assert(self.pool.slots@ =~= before.pool.slots@.update(
                    i as int,
                    self.pool.slots@[i as int],
                ));
                lemma_edited_inv(before, *self, i as int);
                if target is None {
                    assert(self.pool.slots@ =~= before.pool.slots@);
                }
            }
        }
        match target {
            None => Ok(false),
            Some(t) => {
                let ghost mid = *self;
                let action = Action::JumpTo { page_idx: t.page_idx, x_off: t.x_off, y_off: t.y_off };
                let r = self.travel(action, 1, times, caches);
                proof {
                    let p = focused_buffer(before)->0->Pdf_0;
                    lemma_travelled_after(
                        before,
                        mid,
                        *self,
                        action,
                        1,
                        times,
                        caches,
                        p.back_stack@.drop_last(),
                        p.forward_stack@.push(entry_of(before.focus_now().viewport)),
                        r,
                    );
                }
                match r {
                    Ok(()) => Ok(true),
                    Err(x) => Err(x),
                }
            },
        }
    }

    /// The counterpart of `jump_back`.
    pub fn jump_forward<F: Fn(Real32, Real32) -> Real32>(
        &mut self,
        times: &F,
        caches: CacheSettings,
    ) -> (r: Result<bool, WorkspaceError>)
        requires
            old(self).live(),
            forall|a: Real32, b: Real32| call_requires(times, (a, b)),
        ensures
            final(self).live(),
            went_forward(*old(self), *final(self), times, caches, r),
    {
        let ghost before = *self;
        let here: Window = self.focused_window();
        let e: JumpEntry = jump_entry(&here.viewport);
        proof {
            lemma_held(before, here.buffer);
        }
        let mut target: Option<JumpEntry> = None;
        if let Some(i) = self.pool.find(here.buffer) {
            if let Buffer::Pdf(p) = &mut self.pool.slots[i].buf {
                target = p.step_forward(e);
            }
            proof {
                assert(self.pool.slots@ =~= before.pool.slots@.update(
                    i as int,
                    self.pool.slots@[i as int],
                ));
                lemma_edited_inv(before, *self, i as int);
                if target is None {
                    assert(self.pool.slots@ =~= before.pool.slots@);
                }
            }
        }
        match target {
            None => Ok(false),
            Some(t) => {
                let ghost mid = *self;
                let action = Action::JumpTo { page_idx: t.page_idx, x_off: t.x_off, y_off: t.y_off };
                let r = self.travel(action, 1, times, caches);
                proof {
                    let p = focused_buffer(before)->0->Pdf_0;
                    lemma_travelled_after(
                        before,
                        mid,
                        *self,
                        action,
                        1,
                        times,
                        caches,
                        p.back_stack@.push(entry_of(before.focus_now().viewport)),
                        p.forward_stack@.drop_last(),
                        r,
                    );
                }
                match r {
                    Ok(()) => Ok(true),
                    Err(x) => Err(x),
                }
            },
        }
    }

    /// Jump to a mark of the focused document. `false` where it is not set.
    pub fn jump_bookmark<F: Fn(Real32, Real32) -> Real32>(
        &mut self,
        mark: char,
        times: &F,
        caches: CacheSettings,
    ) -> (r: Result<bool, WorkspaceError>)
        requires
            old(self).live(),
            forall|a: Real32, b: Real32| call_requires(times, (a, b)),
        ensures
            final(self).live(),
            mark_reached(*old(self), *final(self), mark, times, caches, r),
    {
        let here: Window = self.focused_window();
        let target: Option<Bookmark> = match self.buffer_pdf(here.buffer) {
            None => None,
            Some(p) => match p.state.find_bookmark(mark) {
                Some(b) => Some(*b),
                None => None,
            },
        };
        match target {
            None => Ok(false),
            Some(b) => match self.jump_to_page(b.page, b.x_off, b.y_off, times, caches) {
                Ok(()) => Ok(true),
                Err(x) => Err(x),
            },
        }
    }

    /// Give a window of the current tab another size. `false` where there is
    /// no such window, it has that size, or what it showed is gone.
    pub fn resync_window_viewport<F: Fn(Real32, Real32) -> Real32>(
        &mut self,
        window: WindowId,
        img_w: u32,
        img_h: u32,
        times: &F,
    ) -> (r: Result<bool, WorkspaceError>)
        requires
            old(self).live(),
            forall|a: Real32, b: Real32| call_requires(times, (a, b)),
        ensures
            final(self).live(),
            final(self).same_but_tabs(*old(self)),
            resynced(*old(self), *final(self), window, img_w, img_h, r),
    {
        let ghost before = *self;
        let cur: usize = self.current_tab;
        let mut w: Window = match self.tabs[cur].tree.find(window) {
            None => {
                return Ok(false);
            },
            Some(w) => *w,
        };
        let ghost was = w;
        let ghost at = window::position(before.tab_now().tree.leaves(), window)->0;
        proof {
            window::lemma_position(before.tab_now().tree.leaves(), window);
        }
        if w.viewport.screen_w == img_w && w.viewport.screen_h == img_h {
            return Ok(false);
        }
        let r: Result<bool, WorkspaceError> = match self.pool.get(w.buffer) {
            None => {
                return Ok(false);
            },
            Some(Buffer::Explorer(_)) => {
                w.viewport.screen_w = if img_w < 1 {
                    1
                } else {
                    img_w
                };
                w.viewport.screen_h = if img_h < 1 {
                    1
                } else {
                    img_h
                };
                Ok(true)
            },
            Some(Buffer::Pdf(p)) => {
                let e = Navigator::apply(
                    &p.pdf,
                    &mut w.viewport,
                    Action::Resize(img_w, img_h),
                    times,
                );
                match e {
                    Ok(()) => Ok(true),
                    Err(x) => Err(WorkspaceError::Page(x)),
                }
            },
        };
        if let Some(place) = self.tabs[cur].tree.find_mut(window) {
            *place = w;
        }
        proof {
            let t = Tab {
                tree: before.tab_now().tree.with_leaf(at, w),
                focused: before.tab_now().focused,
            };
            assert(self.tabs@ =~= before.tabs@.update(cur as int, t));
            before.tab_now().tree.lemma_with_leaf(at, w);
            assert(workspace::tab_ok(
                before.tabs@[cur as int],
                before.win_ids.upcoming,
                before.buf_ids.upcoming,
            ));
            workspace::lemma_tab_same(
                before.tab_now(),
                t,
                before.win_ids.upcoming,
                before.buf_ids.upcoming,
            );
            workspace::lemma_inv_same_tab(before, *self, t);
        }
        r
    }

    /// Follow the link under a pixel of a window, where there is one.
    ///
    /// `point` is the point of a page, in points, that a pixel of it lies on;
    /// `landing` is the offsets that show such a point. Links of a page that
    /// are not stored are not followed.
    pub fn click_at<P, Q, F>(
        &mut self,
        id: WindowId,
        x: i32,
        y: i32,
        point: &P,
        landing: &Q,
        times: &F,
        caches: CacheSettings,
    ) -> (r: Result<(), WorkspaceError>) where
        P: Fn(Viewport, PageSize, i32, i32) -> (Real32, Real32),
        Q: Fn(Viewport, PageSize, Real32, Real32) -> (i32, i32),
        F: Fn(Real32, Real32) -> Real32,

        requires
            old(self).live(),
            forall|v: Viewport, s: PageSize, a: i32, b: i32| call_requires(point, (v, s, a, b)),
            forall|v: Viewport, s: PageSize, a: Real32, b: Real32|
                call_requires(landing, (v, s, a, b)),
            forall|a: Real32, b: Real32| call_requires(times, (a, b)),
        ensures
            final(self).live(),
            click_result(*old(self), *final(self), id, x, y, point, landing, times, caches, r),
    {
        match self.link_under(id, x, y, point, landing) {
            Err(e) => Err(e),
            Ok(None) => Ok(()),
            Ok(Some((page, x_off, y_off))) => self.jump_to_page(page, x_off, y_off, times, caches),
        }
    }

    /// Where the link under a pixel of a window leads.
    fn link_under<P, Q>(&self, id: WindowId, x: i32, y: i32, point: &P, landing: &Q) -> (r: Result<
        Option<(usize, i32, i32)>,
        WorkspaceError,
    >) where
        P: Fn(Viewport, PageSize, i32, i32) -> (Real32, Real32),
        Q: Fn(Viewport, PageSize, Real32, Real32) -> (i32, i32),

        requires
            self.live(),
            forall|v: Viewport, s: PageSize, a: i32, b: i32| call_requires(point, (v, s, a, b)),
            forall|v: Viewport, s: PageSize, a: Real32, b: Real32|
                call_requires(landing, (v, s, a, b)),
        ensures
            clicked(*self, id, x, y, point, landing, r),
    {
        let cur: usize = self.current_tab;
        let w: Window = match self.tabs[cur].tree.find(id) {
            None => {
                return Ok(None);
            },
            Some(w) => *w,
        };
        let p: &PdfBuffer<D> = match self.buffer_pdf(w.buffer) {
            None => {
                return Ok(None);
            },
            Some(p) => p,
        };
        let page: usize = w.viewport.page_idx;
        let size: PageSize = match p.pdf.page_size(page) {
            Err(e) => {
                return Err(WorkspaceError::Page(e));
            },
            Ok(s) => s,
        };
        let extent: (u32, u32) = match p.pdf.composed_page_size(page, w.viewport.look()) {
            Err(e) => {
                return Err(WorkspaceError::Page(e));
            },
            Ok(e) => e,
        };
        let (px, py) = match w.viewport.screen_to_page_pixel(extent, x, y) {
            None => {
                return Ok(None);
            },
            Some(at) => at,
        };
        let at: (Real32, Real32) = point(w.viewport, size, px, py);
        let hit: Option<PageLink> = match p.links_for(page) {
            None => None,
            Some(links) => link_hit(links, at.0, at.1),
        };
        assert(hits(links_of(*p, page), at.0, at.1, hit));
        let link: PageLink = match hit {
            None => {
                return Ok(None);
            },
            Some(l) => l,
        };
        match link.dest_point {
            None => Ok(Some((link.dest_page, 0, 0))),
            Some((u, v)) => match p.pdf.page_size(link.dest_page) {
                Err(e) => Err(WorkspaceError::Page(e)),
                Ok(s) => {
                    let vp = Viewport { page_idx: link.dest_page, ..w.viewport };
                    let offs: (i32, i32) = landing(vp, s, u, v);
                    Ok(Some((link.dest_page, offs.0, offs.1)))
                },
            },
        }
    }
}

/// The link that a point lies on is the first whose rectangle holds it.
pub open spec fn hits(links: Seq<PageLink>, x: Real32, y: Real32, r: Option<PageLink>) -> bool {
    match r {
        Some(l) => exists|i: int|
            {
                &&& 0 <= i < links.len()
                &&& #[trigger] links[i] == l
                &&& l.bounds.holds(x, y)
                &&& forall|j: int| 0 <= j < i ==> !(#[trigger] links[j]).bounds.holds(x, y)
            },
        None => forall|j: int| 0 <= j < links.len() ==> !(#[trigger] links[j]).bounds.holds(x, y),
    }
}

/// Find the link whose bounds hold a point.
pub fn link_hit(links: &Vec<PageLink>, x: Real32, y: Real32) -> (r: Option<PageLink>)
    ensures
        hits(links@, x, y, r),
{
    let mut i: usize = 0;
    while i < links.len()
        invariant
            i <= links@.len(),
            forall|j: int| 0 <= j < i ==> !(#[trigger] links@[j]).bounds.holds(x, y),
        decreases links@.len() - i,
    {
        if links[i].bounds.contains(x, y) {
            assert(links@[i as int].bounds.holds(x, y));
            return Some(links[i]);
        }
        i += 1;
    }
    None
}

/// Where a click leads: nowhere, to a page and offsets, or to an error.
pub open spec fn clicked<D: PageMetrics, P, Q>(
    ws: Workspace<D>,
    id: WindowId,
    x: i32,
    y: i32,
    point: &P,
    landing: &Q,
    r: Result<Option<(usize, i32, i32)>, WorkspaceError>,
) -> bool where
    P: Fn(Viewport, PageSize, i32, i32) -> (Real32, Real32),
    Q: Fn(Viewport, PageSize, Real32, Real32) -> (i32, i32),
 {
    let leaves = ws.tab_now().tree.leaves();
    match window::position(leaves, id) {
        None => r == Ok::<Option<(usize, i32, i32)>, WorkspaceError>(None),
        Some(k) => {
            let w = leaves[k];
            match pool::slot_at(ws.pool.slots@, w.buffer) {
                None => r == Ok::<Option<(usize, i32, i32)>, WorkspaceError>(None),
                Some(i) => match ws.pool.slots@[i].buf {
                    Buffer::Explorer(_) => r == Ok::<Option<(usize, i32, i32)>, WorkspaceError>(
                        None,
                    ),
                    Buffer::Pdf(p) => clicked_page(p, w.viewport, x, y, point, landing, r),
                },
            }
        },
    }
}

/// What a click comes to: a jump where a link lies under it.
pub open spec fn click_result<D: PageMetrics, P, Q, F>(
    before: Workspace<D>,
    after: Workspace<D>,
    id: WindowId,
    x: i32,
    y: i32,
    point: &P,
    landing: &Q,
    times: &F,
    caches: CacheSettings,
    r: Result<(), WorkspaceError>,
) -> bool where
    P: Fn(Viewport, PageSize, i32, i32) -> (Real32, Real32),
    Q: Fn(Viewport, PageSize, Real32, Real32) -> (i32, i32),
    F: Fn(Real32, Real32) -> Real32,
 {
    exists|hit: Result<Option<(usize, i32, i32)>, WorkspaceError>|
        #[trigger] clicked(before, id, x, y, point, landing, hit) && match hit {
            Err(e) => r == Err::<(), _>(e) && after == before,
            Ok(None) => r is Ok && after == before,
            Ok(Some((page, x_off, y_off))) => jumped_to(
                before,
                after,
                page,
                x_off,
                y_off,
                times,
                caches,
                r,
            ),
        }
}

/// Where a click on a page leads.
pub open spec fn clicked_page<D: PageMetrics, P, Q>(
    p: PdfBuffer<D>,
    view: Viewport,
    x: i32,
    y: i32,
    point: &P,
    landing: &Q,
    r: Result<Option<(usize, i32, i32)>, WorkspaceError>,
) -> bool where
    P: Fn(Viewport, PageSize, i32, i32) -> (Real32, Real32),
    Q: Fn(Viewport, PageSize, Real32, Real32) -> (i32, i32),
 {
    let page = view.page_idx as nat;
    match (p.pdf.native(page), p.pdf.composed(page, view.spec_look())) {
        (Err(e), _) => r == Err::<Option<(usize, i32, i32)>, _>(WorkspaceError::Page(e)),
        (Ok(_), Err(e)) => r == Err::<Option<(usize, i32, i32)>, _>(WorkspaceError::Page(e)),
        (Ok(size), Ok(extent)) => match view.page_pixel(extent, x, y) {
            None => r == Ok::<Option<(usize, i32, i32)>, WorkspaceError>(None),
            Some(px) => exists|at: (Real32, Real32), hit: Option<PageLink>|
                {
                    &&& #[trigger] call_ensures(point, (view, size, px.0, px.1), at)
                    &&& #[trigger] hits(links_of(p, view.page_idx), at.0, at.1, hit)
                    &&& match hit {
                        None => r == Ok::<Option<(usize, i32, i32)>, WorkspaceError>(None),
                        Some(l) => follows(p, view, l, landing, r),
                    }
                },
        },
    }
}

/// The links of a page that are stored.
pub open spec fn links_of<D>(p: PdfBuffer<D>, page: usize) -> Seq<PageLink> {
    match buffer::links_at(p.link_cache@, page) {
        Some(i) => p.link_cache@[i].1@,
        None => Seq::empty(),
    }
}

/// Where a link leads.
pub open spec fn follows<D: PageMetrics, Q>(
    p: PdfBuffer<D>,
    view: Viewport,
    l: PageLink,
    landing: &Q,
    r: Result<Option<(usize, i32, i32)>, WorkspaceError>,
) -> bool where Q: Fn(Viewport, PageSize, Real32, Real32) -> (i32, i32) {
    match l.dest_point {
        None => r == Ok::<_, WorkspaceError>(Some((l.dest_page, 0i32, 0i32))),
        Some(at) => match p.pdf.native(l.dest_page as nat) {
            Err(e) => r == Err::<Option<(usize, i32, i32)>, _>(WorkspaceError::Page(e)),
            Ok(size) => exists|offs: (i32, i32)|
                {
                    &&& #[trigger] call_ensures(
                        landing,
                        (Viewport { page_idx: l.dest_page, ..view }, size, at.0, at.1),
                        offs,
                    )
                    &&& r == Ok::<_, WorkspaceError>(Some((l.dest_page, offs.0, offs.1)))
                },
        },
    }
}

/// Nothing has changed.
pub open spec fn unmoved<D>(before: Workspace<D>, after: Workspace<D>) -> bool {
    &&& after.same_frame(before)
    &&& after.tabs == before.tabs
    &&& after.pool.slots@ == before.pool.slots@
}

/// What setting a mark comes to.
pub open spec fn mark_set<D>(
    before: Workspace<D>,
    after: Workspace<D>,
    mark: char,
    r: Result<(), WorkspaceError>,
) -> bool {
    &&& after.same_frame(before)
    &&& after.tabs == before.tabs
    &&& if !is_mark(mark) {
        r == Err::<(), _>(WorkspaceError::NotALetter) && after.pool == before.pool
    } else {
        match focused_buffer(before) {
            Some(Buffer::Pdf(p)) => {
                let v = before.focus_now().viewport;
                &&& r is Ok
                &&& state_after(
                    before,
                    after,
                    DocView {
                        bookmarks: docstate::bookmarked(
                            p.state@.bookmarks,
                            Bookmark {
                                mark,
                                page: v.page_idx,
                                x_off: v.x_off,
                                y_off: v.y_off,
                            },
                        ),
                        ..p.state@
                    },
                )
            },
            _ => r == Err::<(), _>(WorkspaceError::NotAPdf) && after.pool.slots@
                == before.pool.slots@,
        }
    }
}

/// What deleting a mark comes to.
pub open spec fn mark_deleted<D>(
    before: Workspace<D>,
    after: Workspace<D>,
    mark: char,
    found: bool,
) -> bool {
    &&& after.same_frame(before)
    &&& after.tabs == before.tabs
    &&& match focused_buffer(before) {
        Some(Buffer::Pdf(p)) => {
            &&& found == (docstate::marked_at(p.state@.bookmarks, mark) is Some)
            &&& state_after(
                before,
                after,
                DocView {
                    bookmarks: docstate::unmarked(p.state@.bookmarks, mark),
                    ..p.state@
                },
            )
        },
        _ => !found && after.pool.slots@ == before.pool.slots@,
    }
}

/// What keeping the wish for a mouse comes to.
pub open spec fn mouse_kept<D>(
    before: Workspace<D>,
    after: Workspace<D>,
    enabled: Option<bool>,
) -> bool {
    &&& after.same_frame(before)
    &&& after.tabs == before.tabs
    &&& match focused_buffer(before) {
        Some(Buffer::Pdf(p)) => state_after(
            before,
            after,
            DocView { mouse_enabled: enabled, ..p.state@ },
        ),
        _ => after.pool.slots@ == before.pool.slots@,
    }
}

/// What going back comes to.
pub open spec fn went_back<D: PageMetrics, F: Fn(Real32, Real32) -> Real32>(
    before: Workspace<D>,
    after: Workspace<D>,
    times: &F,
    caches: CacheSettings,
    r: Result<bool, WorkspaceError>,
) -> bool {
    match focused_buffer(before) {
        Some(Buffer::Pdf(p)) => if p.back_stack@.len() == 0 {
            r == Ok::<_, WorkspaceError>(false) && unmoved(before, after)
        } else {
            let e = p.back_stack@.last();
            &&& r != Ok::<_, WorkspaceError>(false)
            &&& travelled(
                before,
                after,
                Action::JumpTo { page_idx: e.page_idx, x_off: e.x_off, y_off: e.y_off },
                1,
                times,
                caches,
                p.back_stack@.drop_last(),
                p.forward_stack@.push(entry_of(before.focus_now().viewport)),
                without_flag(r),
            )
        },
        _ => r == Ok::<_, WorkspaceError>(false) && unmoved(before, after),
    }
}

/// What going forward comes to.
pub open spec fn went_forward<D: PageMetrics, F: Fn(Real32, Real32) -> Real32>(
    before: Workspace<D>,
    after: Workspace<D>,
    times: &F,
    caches: CacheSettings,
    r: Result<bool, WorkspaceError>,
) -> bool {
    match focused_buffer(before) {
        Some(Buffer::Pdf(p)) => if p.forward_stack@.len() == 0 {
            r == Ok::<_, WorkspaceError>(false) && unmoved(before, after)
        } else {
            let e = p.forward_stack@.last();
            &&& r != Ok::<_, WorkspaceError>(false)
            &&& travelled(
                before,
                after,
                Action::JumpTo { page_idx: e.page_idx, x_off: e.x_off, y_off: e.y_off },
                1,
                times,
                caches,
                p.back_stack@.push(entry_of(before.focus_now().viewport)),
                p.forward_stack@.drop_last(),
                without_flag(r),
            )
        },
        _ => r == Ok::<_, WorkspaceError>(false) && unmoved(before, after),
    }
}

/// What jumping to a mark comes to.
pub open spec fn mark_reached<D: PageMetrics, F: Fn(Real32, Real32) -> Real32>(
    before: Workspace<D>,
    after: Workspace<D>,
    mark: char,
    times: &F,
    caches: CacheSettings,
    r: Result<bool, WorkspaceError>,
) -> bool {
    match focused_buffer(before) {
        Some(Buffer::Pdf(p)) => match docstate::marked_at(p.state@.bookmarks, mark) {
            Some(i) => {
                let b = p.state@.bookmarks[i];
                &&& r != Ok::<_, WorkspaceError>(false)
                &&& jumped_to(
                    before,
                    after,
                    b.page,
                    b.x_off,
                    b.y_off,
                    times,
                    caches,
                    without_flag(r),
                )
            },
            None => r == Ok::<_, WorkspaceError>(false) && after == before,
        },
        _ => r == Ok::<_, WorkspaceError>(false) && after == before,
    }
}

/// A result without what it says on success.
pub open spec fn without_flag(r: Result<bool, WorkspaceError>) -> Result<(), WorkspaceError> {
    match r {
        Ok(_) => Ok(()),
        Err(e) => Err(e),
    }
}

/// What a navigation action comes to.
pub open spec fn nav_result<D: PageMetrics, F: Fn(Real32, Real32) -> Real32>(
    before: Workspace<D>,
    after: Workspace<D>,
    action: Action,
    count: usize,
    times: &F,
    caches: CacheSettings,
    r: Result<(), WorkspaceError>,
) -> bool {
    match focused_buffer(before) {
        None => r == Err::<(), _>(WorkspaceError::BufferGone(before.focus_now().buffer)) && after
            == before,
        Some(Buffer::Explorer(_)) => r is Ok && after == before,
        Some(Buffer::Pdf(p)) => travelled(
            before,
            after,
            action,
            at_least_once(count),
            times,
            caches,
            if is_jump(action) {
                buffer::pushed(p.back_stack@, entry_of(before.focus_now().viewport))
            } else {
                p.back_stack@
            },
            if is_jump(action) {
                Seq::empty()
            } else {
                p.forward_stack@
            },
            r,
        ),
    }
}

/// A jump to a place from where the focused window is.
pub open spec fn jumped_to<D: PageMetrics, F: Fn(Real32, Real32) -> Real32>(
    before: Workspace<D>,
    after: Workspace<D>,
    page: usize,
    x_off: i32,
    y_off: i32,
    times: &F,
    caches: CacheSettings,
    r: Result<(), WorkspaceError>,
) -> bool {
    match focused_buffer(before) {
        None => r == Err::<(), _>(WorkspaceError::BufferGone(before.focus_now().buffer)) && after
            == before,
        Some(Buffer::Explorer(_)) => r is Ok && after == before,
        Some(Buffer::Pdf(p)) => travelled(
            before,
            after,
            Action::JumpTo { page_idx: page, x_off, y_off },
            1,
            times,
            caches,
            buffer::pushed(p.back_stack@, entry_of(before.focus_now().viewport)),
            Seq::empty(),
            r,
        ),
    }
}

/// A window after its size was set.
pub open spec fn resynced<D: PageMetrics>(
    before: Workspace<D>,
    after: Workspace<D>,
    window: WindowId,
    img_w: u32,
    img_h: u32,
    r: Result<bool, WorkspaceError>,
) -> bool {
    let t = before.tab_now();
    match window::position(t.tree.leaves(), window) {
        None => r == Ok::<_, WorkspaceError>(false) && after.tabs@ == before.tabs@,
        Some(k) => {
            let w = t.tree.leaves()[k];
            let v = w.viewport;
            if v.screen_w == img_w && v.screen_h == img_h {
                r == Ok::<_, WorkspaceError>(false) && after.tabs@ == before.tabs@
            } else {
                match pool::slot_at(before.pool.slots@, w.buffer) {
                    None => r == Ok::<_, WorkspaceError>(false) && after.tabs@ == before.tabs@,
                    Some(i) => {
                        let m: navigator::Moved = match before.pool.slots@[i].buf {
                            Buffer::Pdf(p) => navigator::moved(
                                &p.pdf,
                                v,
                                Action::Resize(img_w, img_h),
                                Real32 { bits: 0 },
                            ),
                            Buffer::Explorer(_) => (
                                Viewport {
                                    screen_w: (if img_w < 1 {
                                        1
                                    } else {
                                        img_w
                                    }),
                                    screen_h: (if img_h < 1 {
                                        1
                                    } else {
                                        img_h
                                    }),
                                    ..v
                                },
                                Ok(()),
                            ),
                        };
                        &&& after.tabs@ == before.tabs@.update(
                            before.current_tab as int,
                            Tab {
                                tree: t.tree.with_leaf(k, Window { viewport: m.0, ..w }),
                                focused: t.focused,
                            },
                        )
                        &&& r == (match m.1 {
                            Ok(()) => Ok::<_, WorkspaceError>(true),
                            Err(e) => Err(WorkspaceError::Page(e)),
                        })
                    },
                }
            }
        },
    }
}

/// After a change of jump lists the focused buffer is still a document.
proof fn lemma_still_a_document<D>(before: Workspace<D>, mid: Workspace<D>)
    requires
        before.live(),
        mid.tabs == before.tabs,
        mid.current_tab == before.current_tab,
        focused_buffer(before) matches Some(Buffer::Pdf(p)) && exists|
            st: DocState,
            back: Seq<JumpEntry>,
            forward: Seq<JumpEntry>,
        |
            #[trigger] document_after(
                before.pool.slots@,
                pool::slot_at(before.pool.slots@, before.focus_now().buffer)->0,
                mid.pool.slots@,
                st,
                back,
                forward,
            ),
    ensures
        focused_buffer(mid) matches Some(Buffer::Pdf(q)) && q
            == mid.pool.slots@[pool::slot_at(
            before.pool.slots@,
            before.focus_now().buffer,
        )->0].buf->Pdf_0,
{
    let id = before.focus_now().buffer;
    let was = before.pool.slots@;
    let now = mid.pool.slots@;
    let i = pool::slot_at(was, id)->0;
    pool::lemma_slot_at(was, id);
    pool::lemma_slot_at(now, id);
    assert(now[i].id() == id);
    assert forall|j: int| 0 <= j < i implies (#[trigger] now[j]).id() != id by {
        assert(now[j] == was[j]);
    }
    assert(pool::slot_at(now, id) == Some(i));
}

/// A reader's place survives: once the state of a document is written down
/// with the viewport of a window and read back, a window that opens the
/// document shows that viewport, on the screen that it then has.
pub proof fn lemma_place_survives<D: PageMetrics>(
    left: PdfBuffer<D>,
    again: PdfBuffer<D>,
    v: Viewport,
    caches: CacheSettings,
    screen: Viewport,
    t: NumeralTexts,
    singles: Seq<Real32>,
)
    requires
        v.page_idx < left.pdf.pages(),
        again.pdf.pages() == left.pdf.pages(),
        docstate_laws::savable(synced(left.state, v, caches)@),
        docstate_laws::singles_of(
            synced(left.state, v, caches)@,
            docstate::kept(synced(left.state, v, caches)@, t),
            singles,
        ),
        again.state@ == docstate::held(
            docstate::kept(synced(left.state, v, caches)@, t),
            singles,
        ),
    ensures
        opening::view_of(again, screen) == (Viewport {
            screen_w: screen.screen_w,
            screen_h: screen.screen_h,
            ..v
        }),
{
    docstate_laws::lemma_state_survives(synced(left.state, v, caches)@, t, singles);
}

} // verus!
