//! Where jumps lead back to.
use vstd::prelude::*;

use crate::buffer::{self, Buffer, BufferId, JumpEntry};
use crate::docstate::{self, Bookmark, DocState};
use crate::document::{PageError, PageMetrics};
use crate::navigator::{self, Action};
use crate::number::Real32;
use crate::opening;
use crate::pool::{self, Slot};
use crate::reading::{self, focused_buffer};
use crate::viewport::Viewport;
use crate::window::{self, Window};
use crate::workspace::{self, CacheSettings, Workspace, WorkspaceError};

verus! {

/// A jump to the place of a viewport that lies within its page restores that
/// viewport, from anywhere in the document under the same zoom and screen.
pub proof fn lemma_jump_restores<D: PageMetrics>(
    doc: &D,
    from: Viewport,
    v: Viewport,
    product: Real32,
)
    requires
        navigator::in_bounds(doc, v),
        doc.composed(v.page_idx as nat, v.spec_look()) is Ok,
        from == (Viewport { page_idx: from.page_idx, x_off: from.x_off, y_off: from.y_off, ..v }),
    ensures
        navigator::moved(
            doc,
            from,
            Action::JumpTo { page_idx: v.page_idx, x_off: v.x_off, y_off: v.y_off },
            product,
        ) == (v, Ok::<(), PageError>(())),
{
    assert(from.spec_look() == v.spec_look());
}

/// A jump keeps all of a viewport but its place.
proof fn lemma_jump_keeps<D: PageMetrics, F: Fn(Real32, Real32) -> Real32>(
    doc: &D,
    from: Viewport,
    e: JumpEntry,
    times: &F,
    v: Viewport,
    r: Option<PageError>,
)
    requires
        reading::repeated(
            doc,
            from,
            Action::JumpTo { page_idx: e.page_idx, x_off: e.x_off, y_off: e.y_off },
            times,
            1,
            v,
            r,
        ),
    ensures
        v == (Viewport { page_idx: v.page_idx, x_off: v.x_off, y_off: v.y_off, ..from }),
        exists|product: Real32|
            #[trigger] navigator::moved(
                doc,
                from,
                Action::JumpTo { page_idx: e.page_idx, x_off: e.x_off, y_off: e.y_off },
                product,
            ).0 == v && reading::failure(
                navigator::moved(
                    doc,
                    from,
                    Action::JumpTo { page_idx: e.page_idx, x_off: e.x_off, y_off: e.y_off },
                    product,
                ).1,
            ) == r,
{
    reveal_with_fuel(reading::repeated, 2);
    reveal(reading::stepped);
}

/// The focused window is the one that took its place.
proof fn lemma_focus_replaced<D>(a: Workspace<D>, b: Workspace<D>, w: Window)
    requires
        a.live(),
        w.id == a.focus_now().id,
        b.current_tab == a.current_tab,
        b.tabs@ == opening::with_focus(a, w),
    ensures
        b.focus_now() == w,
{
    workspace::lemma_focus(a);
    let t = a.tab_now().tree;
    let k = a.focus_at();
    t.lemma_with_leaf(k, w);
    let now = t.with_leaf(k, w).leaves();
    assert forall|i: int| 0 <= i < now.len() implies (#[trigger] now[i]).id == t.leaves()[i].id by {
        if i != k {
            assert(now[i] == t.leaves()[i]);
        }
    }
    window::lemma_position_same(now, t.leaves(), a.tab_now().focused);
}

/// The document that a move was made in is found again.
proof fn lemma_document_stays<D>(
    was: Seq<Slot<D>>,
    now: Seq<Slot<D>>,
    id: BufferId,
    state: DocState,
    back: Seq<JumpEntry>,
    forward: Seq<JumpEntry>,
)
    requires
        pool::slot_at(was, id) is Some,
        reading::document_after(was, pool::slot_at(was, id)->0, now, state, back, forward),
    ensures
        pool::slot_at(now, id) == pool::slot_at(was, id),
{
    let i = pool::slot_at(was, id)->0;
    pool::lemma_slot_at(was, id);
    pool::lemma_slot_at(now, id);
    assert(now[i].id() == id);
    assert forall|j: int| 0 <= j < i implies (#[trigger] now[j]).id() != id by {
        assert(now[j] == was[j]);
    }
}

/// The document in the focused window counts the viewport's page and draws it,
/// and the viewport lies within it.
pub open spec fn fits<D: PageMetrics>(ws: Workspace<D>, v: Viewport) -> bool {
    focused_buffer(ws) matches Some(Buffer::Pdf(p)) && navigator::in_bounds(&p.pdf, v)
        && p.pdf.composed(v.page_idx as nat, v.spec_look()) is Ok
}

/// Two viewports differ in their place alone.
pub open spec fn elsewhere(from: Viewport, v: Viewport) -> bool {
    from == (Viewport { page_idx: from.page_idx, x_off: from.x_off, y_off: from.y_off, ..v })
}

/// A jump of the focused window to the place of a viewport that fits.
proof fn lemma_travel_restores<D: PageMetrics, F: Fn(Real32, Real32) -> Real32>(
    b: Workspace<D>,
    c: Workspace<D>,
    v: Viewport,
    times: &F,
    caches: CacheSettings,
    back: Seq<JumpEntry>,
    forward: Seq<JumpEntry>,
    r: Result<(), WorkspaceError>,
)
    requires
        b.live(),
        fits(b, v),
        elsewhere(b.focus_now().viewport, v),
        reading::travelled(
            b,
            c,
            Action::JumpTo { page_idx: v.page_idx, x_off: v.x_off, y_off: v.y_off },
            1,
            times,
            caches,
            back,
            forward,
            r,
        ),
    ensures
        r is Ok,
        c.focus_now().buffer == b.focus_now().buffer,
        c.focus_now().viewport == v,
        pool::slot_at(c.pool.slots@, b.focus_now().buffer) == pool::slot_at(
            b.pool.slots@,
            b.focus_now().buffer,
        ),
        focused_buffer(c) matches Some(Buffer::Pdf(q)) && focused_buffer(b) matches Some(
            Buffer::Pdf(p),
        ) && {
            &&& q.pdf == p.pdf
            &&& q.back_stack@ == back
            &&& q.forward_stack@ == forward
        },
{
    let here = b.focus_now();
    let slots = b.pool.slots@;
    let i = pool::slot_at(slots, here.buffer)->0;
    let p = slots[i].buf->Pdf_0;
    let action = Action::JumpTo { page_idx: v.page_idx, x_off: v.x_off, y_off: v.y_off };
    assert forall|w: Viewport, x: Option<PageError>| #[trigger]
        reading::repeated(&p.pdf, here.viewport, action, times, 1, w, x) implies w == v
        && x is None by {
        lemma_jump_keeps(&p.pdf, here.viewport, reading::entry_of(v), times, w, x);
        let product = choose|product: Real32|
            #[trigger] navigator::moved(&p.pdf, here.viewport, action, product).0 == w
                && reading::failure(
                navigator::moved(&p.pdf, here.viewport, action, product).1,
            ) == x;
        lemma_jump_restores(&p.pdf, here.viewport, v, product);
    }
    lemma_focus_replaced(b, c, Window { viewport: v, dirty: true, ..here });
    lemma_document_stays(
        slots,
        c.pool.slots@,
        here.buffer,
        reading::synced(p.state, v, caches),
        back,
        forward,
    );
}

/// What a jump does, wherever it leads.
proof fn lemma_travel_keeps<D: PageMetrics, F: Fn(Real32, Real32) -> Real32>(
    a: Workspace<D>,
    b: Workspace<D>,
    e: JumpEntry,
    times: &F,
    caches: CacheSettings,
    back: Seq<JumpEntry>,
    forward: Seq<JumpEntry>,
)
    requires
        a.live(),
        focused_buffer(a) matches Some(Buffer::Pdf(_)),
        reading::travelled(
            a,
            b,
            Action::JumpTo { page_idx: e.page_idx, x_off: e.x_off, y_off: e.y_off },
            1,
            times,
            caches,
            back,
            forward,
            Ok(()),
        ),
    ensures
        b.focus_now().buffer == a.focus_now().buffer,
        elsewhere(b.focus_now().viewport, a.focus_now().viewport),
        focused_buffer(b) matches Some(Buffer::Pdf(q)) && focused_buffer(a) matches Some(
            Buffer::Pdf(p),
        ) && {
            &&& q.pdf == p.pdf
            &&& q.back_stack@ == back
            &&& q.forward_stack@ == forward
        },
{
    let here = a.focus_now();
    let was = a.pool.slots@;
    let i = pool::slot_at(was, here.buffer)->0;
    let p = was[i].buf->Pdf_0;
    let v = choose|v: Viewport|
        {
            &&& #[trigger] reading::repeated(
                &p.pdf,
                here.viewport,
                Action::JumpTo { page_idx: e.page_idx, x_off: e.x_off, y_off: e.y_off },
                times,
                1,
                v,
                None,
            )
            &&& b.tabs@ == opening::with_focus(a, Window { viewport: v, dirty: true, ..here })
            &&& reading::document_after(
                was,
                i,
                b.pool.slots@,
                reading::synced(p.state, v, caches),
                back,
                forward,
            )
        };
    lemma_jump_keeps(&p.pdf, here.viewport, e, times, v, None);
    lemma_focus_replaced(a, b, Window { viewport: v, dirty: true, ..here });
    lemma_document_stays(
        was,
        b.pool.slots@,
        here.buffer,
        reading::synced(p.state, v, caches),
        back,
        forward,
    );
}

/// A result that is not refused and not idle is a success.
proof fn lemma_done(r: Result<bool, WorkspaceError>)
    requires
        r != Ok::<_, WorkspaceError>(false),
        reading::without_flag(r) is Ok,
    ensures
        r == Ok::<_, WorkspaceError>(true),
{
    match r {
        Ok(found) => {
            assert(found);
        },
        Err(_) => {},
    }
}

/// After a jump, going back puts the reader exactly where they were.
pub proof fn lemma_jump_and_back<D: PageMetrics, F: Fn(Real32, Real32) -> Real32>(
    a: Workspace<D>,
    b: Workspace<D>,
    c: Workspace<D>,
    page: usize,
    x_off: i32,
    y_off: i32,
    times: &F,
    there: CacheSettings,
    back: CacheSettings,
    r: Result<bool, WorkspaceError>,
)
    requires
        a.live(),
        b.live(),
        fits(a, a.focus_now().viewport),
        reading::jumped_to(a, b, page, x_off, y_off, times, there, Ok(())),
        reading::went_back(b, c, times, back, r),
    ensures
        r == Ok::<_, WorkspaceError>(true),
        c.focus_now().buffer == a.focus_now().buffer,
        c.focus_now().viewport == a.focus_now().viewport,
{
    let v = a.focus_now().viewport;
    let p = focused_buffer(a)->0->Pdf_0;
    let stack = buffer::pushed(p.back_stack@, reading::entry_of(v));
    assert(stack.last() == reading::entry_of(v));
    lemma_travel_keeps(
        a,
        b,
        JumpEntry { page_idx: page, x_off, y_off },
        times,
        there,
        stack,
        Seq::empty(),
    );
    lemma_travel_restores(
        b,
        c,
        v,
        times,
        back,
        stack.drop_last(),
        Seq::<JumpEntry>::empty().push(reading::entry_of(b.focus_now().viewport)),
        reading::without_flag(r),
    );
    lemma_done(r);
}

/// A viewport at another place.
pub open spec fn moved_to(v: Viewport, e: JumpEntry) -> Viewport {
    Viewport { page_idx: e.page_idx, x_off: e.x_off, y_off: e.y_off, ..v }
}

/// Going back and then forward again returns to where it started. Where the
/// place between still fits, both jump lists are as they were.
pub proof fn lemma_back_and_forward<D: PageMetrics, F: Fn(Real32, Real32) -> Real32>(
    a: Workspace<D>,
    b: Workspace<D>,
    c: Workspace<D>,
    times: &F,
    back: CacheSettings,
    forth: CacheSettings,
    r: Result<bool, WorkspaceError>,
)
    requires
        a.live(),
        b.live(),
        fits(a, a.focus_now().viewport),
        reading::went_back(a, b, times, back, Ok(true)),
        reading::went_forward(b, c, times, forth, r),
    ensures
        r == Ok::<_, WorkspaceError>(true),
        c.focus_now().buffer == a.focus_now().buffer,
        c.focus_now().viewport == a.focus_now().viewport,
        focused_buffer(c) matches Some(Buffer::Pdf(q)) && focused_buffer(a) matches Some(
            Buffer::Pdf(p),
        ) && {
            &&& q.forward_stack@ == p.forward_stack@
            &&& fits(a, moved_to(a.focus_now().viewport, p.back_stack@.last())) ==> q.back_stack@
                == p.back_stack@
        },
{
    let v = a.focus_now().viewport;
    let p = focused_buffer(a)->0->Pdf_0;
    let e = p.back_stack@.last();
    let older = p.back_stack@.drop_last();
    let ahead = p.forward_stack@.push(reading::entry_of(v));
    lemma_travel_keeps(a, b, e, times, back, older, ahead);
    assert(ahead.last() == reading::entry_of(v));
    if fits(a, moved_to(v, e)) {
        lemma_travel_restores(a, b, moved_to(v, e), times, back, older, ahead, Ok(()));
        assert(older.push(e) =~= p.back_stack@);
    }
    lemma_travel_restores(
        b,
        c,
        v,
        times,
        forth,
        older.push(reading::entry_of(b.focus_now().viewport)),
        ahead.drop_last(),
        reading::without_flag(r),
    );
    assert(ahead.drop_last() =~= p.forward_stack@);
    lemma_done(r);
}

/// A mark that was set leads back to where the reader was when it was set,
/// from anywhere in the document under the same zoom and screen.
pub proof fn lemma_mark_returns<D: PageMetrics, F: Fn(Real32, Real32) -> Real32>(
    a: Workspace<D>,
    b: Workspace<D>,
    m: Workspace<D>,
    c: Workspace<D>,
    mark: char,
    times: &F,
    caches: CacheSettings,
    r: Result<bool, WorkspaceError>,
)
    requires
        a.live(),
        b.live(),
        m.live(),
        fits(a, a.focus_now().viewport),
        docstate::marks_differ(focused_buffer(a)->0->Pdf_0.state@.bookmarks),
        reading::mark_set(a, b, mark, Ok(())),
        focused_buffer(m) matches Some(Buffer::Pdf(q)) && focused_buffer(b) matches Some(
            Buffer::Pdf(p),
        ) && q.pdf == p.pdf && q.state@.bookmarks == p.state@.bookmarks,
        elsewhere(m.focus_now().viewport, a.focus_now().viewport),
        reading::mark_reached(m, c, mark, times, caches, r),
    ensures
        r == Ok::<_, WorkspaceError>(true),
        c.focus_now().buffer == m.focus_now().buffer,
        c.focus_now().viewport == a.focus_now().viewport,
{
    let v = a.focus_now().viewport;
    let p = focused_buffer(a)->0->Pdf_0;
    let mark_at = Bookmark { mark, page: v.page_idx, x_off: v.x_off, y_off: v.y_off };
    let id = a.focus_now().buffer;
    let i = pool::slot_at(a.pool.slots@, id)->0;
    pool::lemma_slot_at(a.pool.slots@, id);
    pool::lemma_slot_at(b.pool.slots@, id);
    assert forall|j: int| 0 <= j < i implies (#[trigger] b.pool.slots@[j]).id() != id by {
        assert(b.pool.slots@[j] == a.pool.slots@[j]);
    }
    assert(b.pool.slots@[i].id() == id);
    docstate::lemma_set_then_find(p.state@.bookmarks, mark_at, mark);
    let q = focused_buffer(m)->0->Pdf_0;
    lemma_travel_restores(
        m,
        c,
        v,
        times,
        caches,
        buffer::pushed(q.back_stack@, reading::entry_of(m.focus_now().viewport)),
        Seq::empty(),
        reading::without_flag(r),
    );
    lemma_done(r);
}

} // verus!
