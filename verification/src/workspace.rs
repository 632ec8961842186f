//! Top-level state of the reader: buffers, tabs, windows and focus.
//!
//! This is what owns "what's on screen". Reading files and directories is
//! left to the caller, which hands in what it found.
use vstd::prelude::*;

use crate::buffer::{Buffer, BufferId, BufferIdSource, PdfBuffer};
use crate::docstate::DocState;
use crate::document::PageError;
use crate::explorer::DirItem;
use crate::number::Real32;
use crate::pool::{self, BufferPool, Slot};
use crate::viewport::Viewport;
use crate::window::{self, CellRect, Window, WindowId, WindowIdSource, WindowTree};

verus! {

/// One tab: an independent split tree with its own focused window.
#[derive(Debug)]
pub struct Tab {
    pub tree: WindowTree,
    pub focused: WindowId,
}

/// A document that was read from disk.
#[derive(Debug)]
pub struct LoadedPdf<D> {
    pub path: String,
    pub pdf: D,
    pub state: DocState,
}

/// What a path leads to.
#[derive(Debug)]
pub enum Source<D> {
    /// A document. `key` is its resolved path; `loaded` is the document, or
    /// the words for why it cannot be had. Where it is open already, `loaded`
    /// does not matter.
    Pdf { key: String, loaded: Result<LoadedPdf<D>, String> },
    /// A directory and what was found in it: nothing where it could not be
    /// read.
    Dir { cwd: String, items: Vec<DirItem> },
}

/// Whether and how much the caches keep.
#[derive(Debug, Clone, Copy, PartialEq, Eq, Structural)]
pub struct CacheSettings {
    pub enabled: bool,
    pub pages: usize,
    pub frames: usize,
}

/// Why a request was not carried out.
#[derive(Debug, PartialEq, Eq)]
pub enum WorkspaceError {
    /// The command is not for the workspace.
    Passthrough,
    NoAlternate,
    NoSuchBuffer(usize),
    NoBuffers,
    /// The file could not be opened, and why.
    CannotOpen(String),
    /// What a path leads to was not handed in, or is of the other kind.
    NotSupplied,
    /// The window shows a buffer that is gone.
    BufferGone(BufferId),
    NotALetter,
    NotAPdf,
    /// The page's extent could not be had.
    Page(PageError),
}

/// The full terminal state.
#[derive(Debug)]
pub struct Workspace<D> {
    pub pool: BufferPool<D>,
    pub tabs: Vec<Tab>,
    pub current_tab: usize,
    pub win_ids: WindowIdSource,
    pub buf_ids: BufferIdSource,
    /// Buffers that no window shows any more, for the caller to save and drop.
    pub closed: Vec<Buffer<D>>,
    /// Cache sizes that the document opened last asks for.
    pub resize_pages: Option<usize>,
    pub resize_frames: Option<usize>,
    /// Set to leave the event loop.
    pub quit_requested: bool,
    /// Transient message for the status bar.
    pub message: Option<String>,
    /// The rectangle that was laid out last.
    pub last_rect: CellRect,
}

// ------------------------------ Counting ------------------------------

/// Number of windows that show a buffer.
pub open spec fn showing(leaves: Seq<Window>, id: BufferId) -> nat
    decreases leaves.len(),
{
    if leaves.len() == 0 {
        0
    } else {
        showing(leaves.drop_last(), id) + (if leaves.last().buffer == id {
            1nat
        } else {
            0nat
        })
    }
}

/// Number of windows of all tabs.
pub open spec fn total(tabs: Seq<Tab>) -> nat
    decreases tabs.len(),
{
    if tabs.len() == 0 {
        0
    } else {
        total(tabs.drop_last()) + tabs.last().tree.leaves().len()
    }
}

/// Number of windows of all tabs that show a buffer.
pub open spec fn shown(tabs: Seq<Tab>, id: BufferId) -> nat
    decreases tabs.len(),
{
    if tabs.len() == 0 {
        0
    } else {
        shown(tabs.drop_last(), id) + showing(tabs.last().tree.leaves(), id)
    }
}

pub(crate) proof fn lemma_showing_concat(a: Seq<Window>, b: Seq<Window>, id: BufferId)
    ensures
        showing(a + b, id) == showing(a, id) + showing(b, id),
    decreases b.len(),
{
    if b.len() == 0 {
        assert(a + b == a);
    } else {
        assert((a + b).drop_last() == a + b.drop_last());
        assert((a + b).last() == b.last());
        lemma_showing_concat(a, b.drop_last(), id);
    }
}

pub(crate) proof fn lemma_showing_one(w: Window, id: BufferId)
    ensures
        showing(seq![w], id) == (if w.buffer == id {
            1nat
        } else {
            0nat
        }),
{
    assert(seq![w].drop_last() == Seq::<Window>::empty());
    reveal_with_fuel(showing, 2);
}

pub(crate) proof fn lemma_showing_insert(s: Seq<Window>, i: int, w: Window, id: BufferId)
    requires
        0 <= i <= s.len(),
    ensures
        showing(s.insert(i, w), id) == showing(s, id) + showing(seq![w], id),
{
    assert(s == s.take(i) + s.skip(i));
    assert(s.insert(i, w) == s.take(i) + seq![w] + s.skip(i));
    lemma_showing_concat(s.take(i), s.skip(i), id);
    lemma_showing_concat(s.take(i), seq![w], id);
    lemma_showing_concat(s.take(i) + seq![w], s.skip(i), id);
}

pub(crate) proof fn lemma_showing_remove(s: Seq<Window>, i: int, id: BufferId)
    requires
        0 <= i < s.len(),
    ensures
        showing(s, id) == showing(s.remove(i), id) + showing(seq![s[i]], id),
{
    assert(s.remove(i).insert(i, s[i]) == s);
    lemma_showing_insert(s.remove(i), i, s[i], id);
}

pub(crate) proof fn lemma_showing_update(s: Seq<Window>, i: int, w: Window, id: BufferId)
    requires
        0 <= i < s.len(),
    ensures
        showing(s.update(i, w), id) + showing(seq![s[i]], id) == showing(s, id) + showing(
            seq![w],
            id,
        ),
{
    lemma_showing_remove(s, i, id);
    assert(s.remove(i).insert(i, w) == s.update(i, w));
    lemma_showing_insert(s.remove(i), i, w, id);
}

/// Only the buffers count.
pub(crate) proof fn lemma_showing_same(a: Seq<Window>, b: Seq<Window>, id: BufferId)
    requires
        a.len() == b.len(),
        forall|i: int| 0 <= i < a.len() ==> (#[trigger] a[i]).buffer == b[i].buffer,
    ensures
        showing(a, id) == showing(b, id),
    decreases a.len(),
{
    if a.len() > 0 {
        let x = a.drop_last();
        let y = b.drop_last();
        assert forall|i: int| 0 <= i < x.len() implies (#[trigger] x[i]).buffer == y[i].buffer by {
            assert(x[i] == a[i] && y[i] == b[i]);
        }
        lemma_showing_same(x, y, id);
        assert(a[a.len() - 1].buffer == b[a.len() - 1].buffer);
    }
}

pub(crate) proof fn lemma_showing_bound(a: Seq<Window>, id: BufferId)
    ensures
        showing(a, id) <= a.len(),
    decreases a.len(),
{
    if a.len() > 0 {
        lemma_showing_bound(a.drop_last(), id);
    }
}

pub(crate) proof fn lemma_shown_bound(tabs: Seq<Tab>, id: BufferId)
    ensures
        shown(tabs, id) <= total(tabs),
    decreases tabs.len(),
{
    if tabs.len() > 0 {
        lemma_shown_bound(tabs.drop_last(), id);
        lemma_showing_bound(tabs.last().tree.leaves(), id);
    }
}

pub(crate) proof fn lemma_sums_concat(a: Seq<Tab>, b: Seq<Tab>, id: BufferId)
    ensures
        shown(a + b, id) == shown(a, id) + shown(b, id),
        total(a + b) == total(a) + total(b),
    decreases b.len(),
{
    if b.len() == 0 {
        assert(a + b == a);
    } else {
        assert((a + b).drop_last() == a + b.drop_last());
        assert((a + b).last() == b.last());
        lemma_sums_concat(a, b.drop_last(), id);
    }
}

pub(crate) proof fn lemma_sums_one(t: Tab, id: BufferId)
    ensures
        shown(seq![t], id) == showing(t.tree.leaves(), id),
        total(seq![t]) == t.tree.leaves().len(),
{
    assert(seq![t].drop_last() == Seq::<Tab>::empty());
    reveal_with_fuel(shown, 2);
    reveal_with_fuel(total, 2);
}

pub(crate) proof fn lemma_sums_insert(tabs: Seq<Tab>, i: int, t: Tab, id: BufferId)
    requires
        0 <= i <= tabs.len(),
    ensures
        shown(tabs.insert(i, t), id) == shown(tabs, id) + showing(t.tree.leaves(), id),
        total(tabs.insert(i, t)) == total(tabs) + t.tree.leaves().len(),
{
    assert(tabs == tabs.take(i) + tabs.skip(i));
    assert(tabs.insert(i, t) == tabs.take(i) + seq![t] + tabs.skip(i));
    lemma_sums_concat(tabs.take(i), tabs.skip(i), id);
    lemma_sums_concat(tabs.take(i), seq![t], id);
    lemma_sums_concat(tabs.take(i) + seq![t], tabs.skip(i), id);
    lemma_sums_one(t, id);
}

pub(crate) proof fn lemma_sums_remove(tabs: Seq<Tab>, i: int, id: BufferId)
    requires
        0 <= i < tabs.len(),
    ensures
        shown(tabs, id) == shown(tabs.remove(i), id) + showing(tabs[i].tree.leaves(), id),
        total(tabs) == total(tabs.remove(i)) + tabs[i].tree.leaves().len(),
{
    assert(tabs.remove(i).insert(i, tabs[i]) == tabs);
    lemma_sums_insert(tabs.remove(i), i, tabs[i], id);
}

pub(crate) proof fn lemma_sums_update(tabs: Seq<Tab>, i: int, t: Tab, id: BufferId)
    requires
        0 <= i < tabs.len(),
    ensures
        shown(tabs.update(i, t), id) + showing(tabs[i].tree.leaves(), id) == shown(tabs, id)
            + showing(t.tree.leaves(), id),
        total(tabs.update(i, t)) + tabs[i].tree.leaves().len() == total(tabs)
            + t.tree.leaves().len(),
{
    lemma_sums_remove(tabs, i, id);
    assert(tabs.remove(i).insert(i, t) == tabs.update(i, t));
    lemma_sums_insert(tabs.remove(i), i, t, id);
}

/// The windows of all tabs, in order.
pub open spec fn all_leaves(tabs: Seq<Tab>) -> Seq<Window>
    decreases tabs.len(),
{
    if tabs.len() == 0 {
        Seq::empty()
    } else {
        all_leaves(tabs.drop_last()) + tabs.last().tree.leaves()
    }
}

pub(crate) proof fn lemma_all_leaves(tabs: Seq<Tab>, id: BufferId)
    ensures
        showing(all_leaves(tabs), id) == shown(tabs, id),
        all_leaves(tabs).len() == total(tabs),
    decreases tabs.len(),
{
    if tabs.len() > 0 {
        lemma_all_leaves(tabs.drop_last(), id);
        lemma_showing_concat(all_leaves(tabs.drop_last()), tabs.last().tree.leaves(), id);
    }
}

/// The pool after none of these windows shows its buffer any more.
pub open spec fn released_by<D>(slots: Seq<Slot<D>>, leaves: Seq<Window>) -> Seq<Slot<D>>
    decreases leaves.len(),
{
    if leaves.len() == 0 {
        slots
    } else {
        pool::released(released_by(slots, leaves.drop_last()), leaves.last().buffer)
    }
}

/// The buffers that go with them, in the order in which they go.
pub open spec fn gone_by<D>(slots: Seq<Slot<D>>, leaves: Seq<Window>) -> Seq<Buffer<D>>
    decreases leaves.len(),
{
    if leaves.len() == 0 {
        Seq::empty()
    } else {
        let rest = leaves.drop_last();
        match pool::leaving(released_by(slots, rest), leaves.last().buffer) {
            Some(b) => gone_by(slots, rest).push(b),
            None => gone_by(slots, rest),
        }
    }
}

// ------------------------------ Invariant ------------------------------

/// The pool is in order, and counts what `count` says.
pub open spec fn pool_counts<D>(
    slots: Seq<Slot<D>>,
    count: spec_fn(BufferId) -> int,
    upcoming: u32,
) -> bool {
    &&& forall|i: int, j: int|
        0 <= i < j < slots.len() ==> (#[trigger] slots[i]).id().0 < (#[trigger] slots[j]).id().0
    &&& forall|i: int|
        0 <= i < slots.len() ==> {
            let s = #[trigger] slots[i];
            &&& 1 <= s.id().0 < upcoming
            &&& s.refs > 0
            &&& s.refs == count(s.id())
            &&& s.key is Some <==> s.buf is Pdf
            &&& s.buf matches Buffer::Pdf(p) ==> p.search.valid()
        }
    &&& forall|i: int, j: int|
        0 <= i < slots.len() && 0 <= j < slots.len() && i != j ==> match (
            (#[trigger] slots[i]).key,
            (#[trigger] slots[j]).key,
        ) {
            (Some(a), Some(b)) => a@ != b@,
            _ => true,
        }
}

/// A tab holds its focused window, window ids are used once, and no id is one
/// that is still to be handed out.
pub open spec fn tab_ok(t: Tab, windows: u32, buffers: u32) -> bool {
    &&& t.tree.has(t.focused)
    &&& window::distinct(t.tree.leaves())
    &&& forall|i: int|
        0 <= i < t.tree.leaves().len() ==> {
            let w = #[trigger] t.tree.leaves()[i];
            &&& w.id.0 < windows
            &&& w.buffer.0 < buffers
            &&& w.alternate matches Some(b) ==> b.0 < buffers
        }
}

/// How often a buffer is shown.
pub open spec fn shown_count(tabs: Seq<Tab>) -> spec_fn(BufferId) -> int {
    |id: BufferId| shown(tabs, id) as int
}

impl<D> Workspace<D> {
    /// Every tab is in order, the current tab exists unless the reader is to
    /// quit, and each buffer is counted once per window that shows it.
    pub open spec fn inv(self) -> bool {
        &&& self.tabs@.len() == 0 ==> self.quit_requested
        &&& self.tabs@.len() > 0 ==> self.current_tab < self.tabs@.len()
        &&& forall|i: int|
            0 <= i < self.tabs@.len() ==> tab_ok(
                #[trigger] self.tabs@[i],
                self.win_ids.upcoming,
                self.buf_ids.upcoming,
            )
        &&& total(self.tabs@) < self.win_ids.upcoming
        &&& 1 <= self.buf_ids.upcoming
        &&& pool_counts(self.pool.slots@, shown_count(self.tabs@), self.buf_ids.upcoming)
        &&& self.last_rect.on_grid()
    }

    /// There is a current tab.
    pub open spec fn live(self) -> bool {
        self.inv() && self.tabs@.len() > 0
    }

    /// The current tab.
    pub open spec fn tab_now(self) -> Tab {
        self.tabs@[self.current_tab as int]
    }

    /// Position of the focused window in the current tab.
    pub open spec fn focus_at(self) -> int {
        window::position(self.tab_now().tree.leaves(), self.tab_now().focused)->0
    }

    /// The focused window.
    pub open spec fn focus_now(self) -> Window {
        self.tab_now().tree.leaves()[self.focus_at()]
    }

    /// Nothing but tabs, buffers and the focus may differ.
    pub open spec fn same_rest(self, other: Workspace<D>) -> bool {
        &&& self.quit_requested == other.quit_requested
        &&& self.message == other.message
        &&& self.last_rect == other.last_rect
        &&& self.resize_pages == other.resize_pages
        &&& self.resize_frames == other.resize_frames
    }

    /// Nothing but the buffers and the request for cache sizes may differ.
    pub open spec fn same_screen(self, other: Workspace<D>) -> bool {
        &&& self.tabs == other.tabs
        &&& self.current_tab == other.current_tab
        &&& self.win_ids == other.win_ids
        &&& self.same_notes(other)
        &&& self.quit_requested == other.quit_requested
    }

    /// Message and layout are the same.
    pub open spec fn same_notes(self, other: Workspace<D>) -> bool {
        &&& self.message == other.message
        &&& self.last_rect == other.last_rect
    }

    /// No cache size was asked for.
    pub open spec fn same_sizes(self, other: Workspace<D>) -> bool {
        &&& self.resize_pages == other.resize_pages
        &&& self.resize_frames == other.resize_frames
    }

    /// Nothing but the tabs may differ.
    pub open spec fn same_but_tabs(self, other: Workspace<D>) -> bool {
        &&& self.same_rest(other)
        &&& self.pool == other.pool
        &&& self.closed == other.closed
        &&& self.win_ids == other.win_ids
        &&& self.buf_ids == other.buf_ids
        &&& self.current_tab == other.current_tab
    }
}

pub(crate) proof fn lemma_focus<D>(ws: Workspace<D>)
    requires
        ws.live(),
    ensures
        0 <= ws.focus_at() < ws.tab_now().tree.leaves().len(),
        ws.focus_now().id == ws.tab_now().focused,
        window::position(ws.tab_now().tree.leaves(), ws.tab_now().focused) == Some(ws.focus_at()),
        ws.focus_now().buffer.0 < ws.buf_ids.upcoming,
{
    assert(tab_ok(ws.tabs@[ws.current_tab as int], ws.win_ids.upcoming, ws.buf_ids.upcoming));
    window::lemma_position(ws.tab_now().tree.leaves(), ws.tab_now().focused);
}

/// Counting depends only on how often buffers are shown.
pub(crate) proof fn lemma_counts_same<D>(
    slots: Seq<Slot<D>>,
    a: spec_fn(BufferId) -> int,
    b: spec_fn(BufferId) -> int,
    upcoming: u32,
)
    requires
        pool_counts(slots, a, upcoming),
        forall|id: BufferId| #[trigger] a(id) == b(id),
    ensures
        pool_counts(slots, b, upcoming),
{
    assert forall|i: int| 0 <= i < slots.len() implies {
        let s = #[trigger] slots[i];
        s.refs == b(s.id())
    } by {
        assert(a(slots[i].id()) == b(slots[i].id()));
    }
}

pub(crate) proof fn lemma_counts_acquired<D>(
    slots: Seq<Slot<D>>,
    a: spec_fn(BufferId) -> int,
    b: spec_fn(BufferId) -> int,
    upcoming: u32,
    id: BufferId,
)
    requires
        pool_counts(slots, a, upcoming),
        forall|x: BufferId|
            #[trigger] b(x) == a(x) + (if x == id {
                1int
            } else {
                0int
            }),
        a(id) < usize::MAX,
    ensures
        pool_counts(pool::acquired(slots, id), b, upcoming),
{
    pool::lemma_slot_at(slots, id);
    let now = pool::acquired(slots, id);
    assert forall|i: int| 0 <= i < now.len() implies {
        let s = #[trigger] now[i];
        &&& s.id() == slots[i].id()
        &&& s.key == slots[i].key
        &&& s.buf == slots[i].buf
        &&& s.refs > 0
        &&& s.refs == b(s.id())
    } by {
        assert(slots[i].refs == a(slots[i].id()));
        assert(b(slots[i].id()) == a(slots[i].id()) + (if slots[i].id() == id {
            1int
        } else {
            0int
        }));
    }
}

pub(crate) proof fn lemma_counts_released<D>(
    slots: Seq<Slot<D>>,
    a: spec_fn(BufferId) -> int,
    b: spec_fn(BufferId) -> int,
    upcoming: u32,
    id: BufferId,
)
    requires
        pool_counts(slots, a, upcoming),
        forall|x: BufferId|
            #[trigger] b(x) == a(x) - (if x == id {
                1int
            } else {
                0int
            }),
    ensures
        pool_counts(pool::released(slots, id), b, upcoming),
{
    pool::lemma_slot_at(slots, id);
    let now = pool::released(slots, id);
    match pool::slot_at(slots, id) {
        None => {
            assert forall|i: int| 0 <= i < now.len() implies {
                let s = #[trigger] now[i];
                s.refs == b(s.id())
            } by {
                assert(slots[i].refs == a(slots[i].id()));
                assert(b(slots[i].id()) == a(slots[i].id()));
            }
        },
        Some(k) => {
            if slots[k].refs <= 1 {
                assert forall|i: int| 0 <= i < now.len() implies #[trigger] now[i] == slots[if i < k {
                    i
                } else {
                    i + 1
                }] by {}
                assert forall|i: int| 0 <= i < now.len() implies {
                    let s = #[trigger] now[i];
                    &&& 1 <= s.id().0 < upcoming
                    &&& s.refs > 0
                    &&& s.refs == b(s.id())
                    &&& s.key is Some <==> s.buf is Pdf
                    &&& s.buf matches Buffer::Pdf(p) ==> p.search.valid()
                } by {
                    let m = if i < k {
                        i
                    } else {
                        i + 1
                    };
                    assert(slots[m].refs == a(slots[m].id()));
                    assert(slots[m].id() != slots[k].id());
                    assert(b(slots[m].id()) == a(slots[m].id()));
                }
            } else {
                assert forall|i: int| 0 <= i < now.len() implies {
                    let s = #[trigger] now[i];
                    &&& s.id() == slots[i].id()
                    &&& s.key == slots[i].key
                    &&& s.buf == slots[i].buf
                    &&& s.refs > 0
                    &&& s.refs == b(s.id())
                } by {
                    assert(slots[i].refs == a(slots[i].id()));
                    assert(b(slots[i].id()) == a(slots[i].id()) - (if slots[i].id() == id {
                        1int
                    } else {
                        0int
                    }));
                }
            }
        },
    }
}

pub(crate) proof fn lemma_counts_released_by<D>(
    slots: Seq<Slot<D>>,
    a: spec_fn(BufferId) -> int,
    b: spec_fn(BufferId) -> int,
    upcoming: u32,
    leaves: Seq<Window>,
)
    requires
        pool_counts(slots, a, upcoming),
        forall|x: BufferId| #[trigger] b(x) == a(x) - showing(leaves, x),
    ensures
        pool_counts(released_by(slots, leaves), b, upcoming),
    decreases leaves.len(),
{
    if leaves.len() == 0 {
        assert forall|x: BufferId| #[trigger] a(x) == b(x) by {
            assert(b(x) == a(x) - showing(leaves, x));
        }
        lemma_counts_same(slots, a, b, upcoming);
    } else {
        let rest = leaves.drop_last();
        let mid = |x: BufferId| a(x) - showing(rest, x);
        lemma_counts_released_by(slots, a, mid, upcoming, rest);
        let id = leaves.last().buffer;
        assert forall|x: BufferId|
            #[trigger] b(x) == mid(x) - (if x == id {
                1int
            } else {
                0int
            }) by {
            assert(b(x) == a(x) - showing(leaves, x));
        }
        lemma_counts_released(released_by(slots, rest), mid, b, upcoming, id);
    }
}

/// A later limit allows as much.
pub(crate) proof fn lemma_counts_grow<D>(
    slots: Seq<Slot<D>>,
    a: spec_fn(BufferId) -> int,
    upcoming: u32,
    later: u32,
)
    requires
        pool_counts(slots, a, upcoming),
        upcoming <= later,
    ensures
        pool_counts(slots, a, later),
{
    assert forall|i: int| 0 <= i < slots.len() implies 1 <= (#[trigger] slots[i]).id().0
        < later by {
        assert(slots[i].id().0 < upcoming);
    }
}

/// Changing what a buffer holds does not change how it is counted.
pub(crate) proof fn lemma_counts_edited<D>(
    slots: Seq<Slot<D>>,
    a: spec_fn(BufferId) -> int,
    upcoming: u32,
    i: int,
    buf: Buffer<D>,
)
    requires
        pool_counts(slots, a, upcoming),
        0 <= i < slots.len(),
        buf.spec_id() == slots[i].id(),
        buf is Pdf <==> slots[i].buf is Pdf,
        buf matches Buffer::Pdf(p) ==> p.search.valid(),
    ensures
        pool_counts(slots.update(i, Slot { buf, ..slots[i] }), a, upcoming),
{
    let now = slots.update(i, Slot { buf, ..slots[i] });
    assert forall|k: int| 0 <= k < now.len() implies {
        let s = #[trigger] now[k];
        &&& s.id() == slots[k].id()
        &&& s.key == slots[k].key
        &&& s.refs == slots[k].refs
        &&& s.key is Some <==> s.buf is Pdf
        &&& s.buf matches Buffer::Pdf(p) ==> p.search.valid()
        &&& s.refs == a(s.id())
        &&& 1 <= s.id().0 < upcoming
        &&& s.refs > 0
    } by {
        assert(slots[k].refs == a(slots[k].id()));
    }
}

pub(crate) proof fn lemma_counts_opened<D>(
    slots: Seq<Slot<D>>,
    a: spec_fn(BufferId) -> int,
    b: spec_fn(BufferId) -> int,
    upcoming: u32,
    slot: Slot<D>,
)
    requires
        pool_counts(slots, a, upcoming),
        1 <= upcoming < u32::MAX,
        slot.id() == BufferId(upcoming),
        slot.refs == 1,
        slot.key is Some <==> slot.buf is Pdf,
        slot.buf matches Buffer::Pdf(p) ==> p.search.valid(),
        slot.key matches Some(k) ==> pool::key_at(slots, k@) is None,
        a(slot.id()) == 0,
        forall|x: BufferId|
            #[trigger] b(x) == a(x) + (if x == slot.id() {
                1int
            } else {
                0int
            }),
    ensures
        pool_counts(slots.push(slot), b, (upcoming + 1) as u32),
{
    let now = slots.push(slot);
    if let Some(k) = slot.key {
        pool::lemma_key_at(slots, k@);
    }
    assert forall|i: int| 0 <= i < now.len() implies {
        let s = #[trigger] now[i];
        &&& 1 <= s.id().0 < upcoming + 1
        &&& s.refs > 0
        &&& s.refs == b(s.id())
        &&& s.key is Some <==> s.buf is Pdf
        &&& s.buf matches Buffer::Pdf(p) ==> p.search.valid()
    } by {
        assert(b(now[i].id()) == a(now[i].id()) + (if now[i].id() == slot.id() {
            1int
        } else {
            0int
        }));
        if i < slots.len() {
            assert(now[i] == slots[i]);
        }
    }
    assert forall|i: int, j: int|
        0 <= i < now.len() && 0 <= j < now.len() && i != j implies match (
        (#[trigger] now[i]).key,
        (#[trigger] now[j]).key,
    ) {
        (Some(x), Some(y)) => x@ != y@,
        _ => true,
    } by {
        if i < slots.len() {
            assert(now[i] == slots[i]);
        }
        if j < slots.len() {
            assert(now[j] == slots[j]);
        }
        if i == slots.len() && j < slots.len() {
            assert(slot.key matches Some(k) ==> !slots[j].is_at(k@));
        }
        if j == slots.len() && i < slots.len() {
            assert(slot.key matches Some(k) ==> !slots[i].is_at(k@));
        }
    }
}

/// No window shows a buffer whose id has not been handed out.
pub(crate) proof fn lemma_unshown(tabs: Seq<Tab>, windows: u32, buffers: u32, id: BufferId)
    requires
        forall|i: int| 0 <= i < tabs.len() ==> tab_ok(#[trigger] tabs[i], windows, buffers),
        id.0 >= buffers,
    ensures
        shown(tabs, id) == 0,
    decreases tabs.len(),
{
    if tabs.len() > 0 {
        let rest = tabs.drop_last();
        assert forall|i: int| 0 <= i < rest.len() implies tab_ok(
            #[trigger] rest[i],
            windows,
            buffers,
        ) by {
            assert(rest[i] == tabs[i]);
        }
        lemma_unshown(rest, windows, buffers, id);
        assert(tab_ok(tabs[tabs.len() - 1], windows, buffers));
        lemma_unshown_in(tabs.last().tree.leaves(), id);
    }
}

pub(crate) proof fn lemma_unshown_in(leaves: Seq<Window>, id: BufferId)
    requires
        forall|i: int| 0 <= i < leaves.len() ==> (#[trigger] leaves[i]).buffer != id,
    ensures
        showing(leaves, id) == 0,
    decreases leaves.len(),
{
    if leaves.len() > 0 {
        let rest = leaves.drop_last();
        assert forall|i: int| 0 <= i < rest.len() implies (#[trigger] rest[i]).buffer != id by {
            assert(rest[i] == leaves[i]);
        }
        lemma_unshown_in(rest, id);
        assert(leaves[leaves.len() - 1].buffer != id);
    }
}

/// Larger limits allow as much.
pub(crate) proof fn lemma_tabs_grow(tabs: Seq<Tab>, w1: u32, b1: u32, w2: u32, b2: u32)
    requires
        forall|i: int| 0 <= i < tabs.len() ==> tab_ok(#[trigger] tabs[i], w1, b1),
        w1 <= w2,
        b1 <= b2,
    ensures
        forall|i: int| 0 <= i < tabs.len() ==> tab_ok(#[trigger] tabs[i], w2, b2),
{
    assert forall|i: int| 0 <= i < tabs.len() implies tab_ok(#[trigger] tabs[i], w2, b2) by {
        let t = tabs[i];
        assert(tab_ok(t, w1, b1));
        assert forall|k: int| 0 <= k < t.tree.leaves().len() implies {
            let w = #[trigger] t.tree.leaves()[k];
            &&& w.id.0 < w2
            &&& w.buffer.0 < b2
            &&& w.alternate matches Some(b) ==> b.0 < b2
        } by {
            assert(t.tree.leaves()[k].id.0 < w1);
        }
    }
}

/// A tab whose windows have the same ids and buffers is as good.
pub(crate) proof fn lemma_tab_same(t: Tab, u: Tab, windows: u32, buffers: u32)
    requires
        tab_ok(t, windows, buffers),
        u.tree.leaves().len() == t.tree.leaves().len(),
        forall|i: int|
            0 <= i < t.tree.leaves().len() ==> {
                let x = #[trigger] u.tree.leaves()[i];
                let y = t.tree.leaves()[i];
                x.id == y.id && x.buffer == y.buffer && x.alternate == y.alternate
            },
        t.tree.has(u.focused),
    ensures
        tab_ok(u, windows, buffers),
        forall|id: BufferId|
            #[trigger] showing(u.tree.leaves(), id) == showing(t.tree.leaves(), id),
{
    let x = u.tree.leaves();
    let y = t.tree.leaves();
    window::lemma_position_same(x, y, u.focused);
    assert forall|i: int, j: int|
        0 <= i < x.len() && 0 <= j < x.len() && i != j implies #[trigger] x[i].id
        != #[trigger] x[j].id by {
        assert(y[i].id != y[j].id);
    }
    assert forall|i: int| 0 <= i < x.len() implies {
        let w = #[trigger] x[i];
        &&& w.id.0 < windows
        &&& w.buffer.0 < buffers
        &&& w.alternate matches Some(b) ==> b.0 < buffers
    } by {
        assert(y[i].id.0 < windows);
    }
    assert forall|id: BufferId| #[trigger] showing(x, id) == showing(y, id) by {
        lemma_showing_same(x, y, id);
    }
}

/// The tab with every window marked for a repaint.
pub open spec fn dirtied(t: Tab) -> Tab {
    Tab { tree: t.tree.dirtied(), focused: t.focused }
}

pub(crate) proof fn lemma_dirtied_ok(t: Tab, windows: u32, buffers: u32)
    requires
        tab_ok(t, windows, buffers),
    ensures
        tab_ok(dirtied(t), windows, buffers),
        forall|id: BufferId|
            #[trigger] showing(dirtied(t).tree.leaves(), id) == showing(t.tree.leaves(), id),
        dirtied(t).tree.leaves().len() == t.tree.leaves().len(),
{
    t.tree.lemma_dirtied();
    lemma_tab_same(t, dirtied(t), windows, buffers);
}

/// Replacing a tab by one that shows the same keeps everything in order.
pub(crate) proof fn lemma_inv_same_tab<D>(before: Workspace<D>, after: Workspace<D>, t: Tab)
    requires
        before.inv(),
        before.tabs@.len() > 0,
        after.same_but_tabs(before),
        after.tabs@ == before.tabs@.update(before.current_tab as int, t),
        tab_ok(t, before.win_ids.upcoming, before.buf_ids.upcoming),
        forall|id: BufferId|
            #[trigger] showing(t.tree.leaves(), id) == showing(
                before.tab_now().tree.leaves(),
                id,
            ),
        t.tree.leaves().len() == before.tab_now().tree.leaves().len(),
    ensures
        after.inv(),
{
    let c = before.current_tab as int;
    lemma_sums_update(before.tabs@, c, t, BufferId(0));
    assert forall|id: BufferId| #[trigger]
        shown_count(before.tabs@)(id) == shown_count(after.tabs@)(id) by {
        lemma_sums_update(before.tabs@, c, t, id);
        assert(showing(t.tree.leaves(), id) == showing(before.tab_now().tree.leaves(), id));
    }
    lemma_counts_same(
        before.pool.slots@,
        shown_count(before.tabs@),
        shown_count(after.tabs@),
        before.buf_ids.upcoming,
    );
    assert forall|i: int| 0 <= i < after.tabs@.len() implies tab_ok(
        #[trigger] after.tabs@[i],
        after.win_ids.upcoming,
        after.buf_ids.upcoming,
    ) by {
        if i != c {
            assert(after.tabs@[i] == before.tabs@[i]);
        }
    }
}

impl Tab {
    /// A tab whose first window has the focus.
    pub fn new(tree: WindowTree) -> (t: Tab)
        ensures
            t.tree == tree,
            t.focused == tree.leaves()[0].id,
    {
        let focused: WindowId = tree.first_id();
        Tab { tree, focused }
    }
}

impl<D> Workspace<D> {
    /// The current tab.
    pub fn current_tab(&self) -> (t: &Tab)
        requires
            self.live(),
        ensures
            *t == self.tab_now(),
    {
        &self.tabs[self.current_tab]
    }

    pub fn tab_count(&self) -> (n: usize)
        ensures
            n == self.tabs@.len(),
    {
        self.tabs.len()
    }

    pub fn current_tab_index(&self) -> (n: usize)
        ensures
            n == self.current_tab,
    {
        self.current_tab
    }

    pub fn tab(&self, idx: usize) -> (r: Option<&Tab>)
        ensures
            r == (if idx < self.tabs@.len() {
                Some(&self.tabs@[idx as int])
            } else {
                None
            }),
    {
        if idx < self.tabs.len() {
            Some(&self.tabs[idx])
        } else {
            None
        }
    }

    /// The focused window of the current tab.
    pub fn focused_window(&self) -> (w: Window)
        requires
            self.live(),
        ensures
            w == self.focus_now(),
    {
        proof {
            lemma_focus(*self);
        }
        let tab: &Tab = &self.tabs[self.current_tab];
        match tab.tree.find(tab.focused) {
            Some(w) => *w,
            None => {
                assert(false);
                Window::new(WindowId(0), BufferId(0), Viewport::default())
            },
        }
    }

    pub fn buffer(&self, id: BufferId) -> (r: Option<&Buffer<D>>)
        ensures
            match pool::slot_at(self.pool.slots@, id) {
                Some(i) => r == Some(&self.pool.slots@[i].buf),
                None => r is None,
            },
    {
        self.pool.get(id)
    }

    pub fn buffer_pdf(&self, id: BufferId) -> (r: Option<&PdfBuffer<D>>)
        ensures
            match pool::slot_at(self.pool.slots@, id) {
                Some(i) => match self.pool.slots@[i].buf {
                    Buffer::Pdf(p) => r == Some(&p),
                    Buffer::Explorer(_) => r is None,
                },
                None => r is None,
            },
    {
        match self.pool.get(id) {
            Some(b) => b.as_pdf(),
            None => None,
        }
    }

    /// The buffer with that id, for changing it in place.
    pub fn buffer_mut(&mut self, id: BufferId) -> (r: Option<&mut Buffer<D>>)
        ensures
            match pool::slot_at(old(self).pool.slots@, id) {
                Some(i) => {
                    &&& r matches Some(b)
                    &&& *b == old(self).pool.slots@[i].buf
                    &&& final(self).pool.slots@ == old(self).pool.slots@.update(
                        i,
                        Slot { buf: *final(b), ..old(self).pool.slots@[i] },
                    )
                    &&& *final(self) == (Workspace { pool: final(self).pool, ..*old(self) })
                },
                None => r is None && *final(self) == *old(self),
            },
    {
        self.pool.get_mut(id)
    }

    /// The document with that id, for changing it in place.
    pub fn buffer_pdf_mut(&mut self, id: BufferId) -> (r: Option<&mut PdfBuffer<D>>)
        ensures
            match pool::slot_at(old(self).pool.slots@, id) {
                Some(i) => match old(self).pool.slots@[i].buf {
                    Buffer::Pdf(p) => {
                        &&& r matches Some(q)
                        &&& *q == p
                        &&& final(self).pool.slots@ == old(self).pool.slots@.update(
                            i,
                            Slot { buf: Buffer::Pdf(*final(q)), ..old(self).pool.slots@[i] },
                        )
                        &&& *final(self) == (Workspace { pool: final(self).pool, ..*old(self) })
                    },
                    Buffer::Explorer(_) => r is None && final(self).pool.slots@
                        == old(self).pool.slots@ && *final(self) == (Workspace {
                        pool: final(self).pool,
                        ..*old(self)
                    }),
                },
                None => r is None && *final(self) == *old(self),
            },
    {
        proof {
            pool::lemma_slot_at(self.pool.slots@, id);
        }
        match self.pool.get_mut(id) {
            Some(b) => b.as_pdf_mut(),
            None => None,
        }
    }

    /// The current tab, for changing it in place.
    pub fn current_tab_mut(&mut self) -> (t: &mut Tab)
        requires
            old(self).live(),
        ensures
            *t == old(self).tab_now(),
            final(self).same_but_tabs(*old(self)),
            final(self).tabs@ == old(self).tabs@.update(old(self).current_tab as int, *final(t)),
    {
        &mut self.tabs[self.current_tab]
    }

    /// The focused window, for changing it in place.
    pub fn focused_window_mut(&mut self) -> (w: &mut Window)
        requires
            old(self).live(),
        ensures
            *w == old(self).focus_now(),
            final(self).same_but_tabs(*old(self)),
            final(self).tabs@ == old(self).tabs@.update(
                old(self).current_tab as int,
                Tab {
                    tree: old(self).tab_now().tree.with_leaf(old(self).focus_at(), *final(w)),
                    focused: old(self).tab_now().focused,
                },
            ),
    {
        proof {
            lemma_focus(*self);
        }
        let tab: &mut Tab = &mut self.tabs[self.current_tab];
        let id: WindowId = tab.focused;
        match tab.tree.find_mut(id) {
            Some(w) => w,
            None => vstd::pervasive::unreached(),
        }
    }

    /// Whether the focused window shows a directory.
    pub fn focused_is_explorer(&self) -> (b: bool)
        requires
            self.live(),
        ensures
            b == (pool::slot_at(self.pool.slots@, self.focus_now().buffer) matches Some(i)
                && self.pool.slots@[i].buf is Explorer),
    {
        match self.pool.get(self.focused_window().buffer) {
            Some(b) => b.is_explorer(),
            None => false,
        }
    }

    /// Lay out the current tab in `rect`.
    pub fn layout<F: Fn(u16, Real32) -> u16>(&mut self, rect: CellRect, share: &F) -> (out: Vec<
        (WindowId, CellRect),
    >)
        requires
            old(self).live(),
            rect.on_grid(),
            forall|total: u16, ratio: Real32| call_requires(share, (total, ratio)),
        ensures
            final(self).live(),
            *final(self) == (Workspace { last_rect: rect, ..*old(self) }),
            old(self).tab_now().tree.laid_out(rect, share, out@),
    {
        self.last_rect = rect;
        self.tabs[self.current_tab].tree.layout(rect, share)
    }

    /// Mark every window of the current tab for a repaint.
    pub fn mark_all_dirty(&mut self)
        requires
            old(self).live(),
        ensures
            final(self).live(),
            final(self).same_but_tabs(*old(self)),
            final(self).tabs@ == old(self).tabs@.update(
                old(self).current_tab as int,
                dirtied(old(self).tab_now()),
            ),
    {
        let ghost before = *self;
        let idx: usize = self.current_tab;
        self.tabs[idx].tree.mark_all_dirty();
        proof {
            assert(tab_ok(
                before.tabs@[before.current_tab as int],
                before.win_ids.upcoming,
                before.buf_ids.upcoming,
            ));
            lemma_dirtied_ok(
                before.tab_now(),
                before.win_ids.upcoming,
                before.buf_ids.upcoming,
            );
            lemma_inv_same_tab(before, *self, dirtied(before.tab_now()));
        }
    }

    /// Focus a window of the current tab. Nothing happens where there is no
    /// such window.
    pub fn set_focus_window(&mut self, id: WindowId)
        requires
            old(self).live(),
        ensures
            final(self).live(),
            final(self).same_but_tabs(*old(self)),
            final(self).tabs@ == (if old(self).tab_now().tree.has(id) {
                old(self).tabs@.update(
                    old(self).current_tab as int,
                    Tab { tree: old(self).tab_now().tree.dirtied(), focused: id },
                )
            } else {
                old(self).tabs@
            }),
    {
        let ghost before = *self;
        let idx: usize = self.current_tab;
        if self.tabs[idx].tree.find(id).is_some() {
            self.tabs[idx].focused = id;
            self.tabs[idx].tree.mark_all_dirty();
            proof {
                let t = Tab { tree: before.tab_now().tree.dirtied(), focused: id };
                assert(tab_ok(
                    before.tabs@[before.current_tab as int],
                    before.win_ids.upcoming,
                    before.buf_ids.upcoming,
                ));
                before.tab_now().tree.lemma_dirtied();
                lemma_tab_same(
                    before.tab_now(),
                    t,
                    before.win_ids.upcoming,
                    before.buf_ids.upcoming,
                );
                assert(self.tabs@ =~= before.tabs@.update(before.current_tab as int, t));
                lemma_inv_same_tab(before, *self, t);
            }
        }
    }

    /// Set the screen of every window of the current tab to its rectangle.
    pub fn propagate_geometry<F: Fn(u16, Real32) -> u16>(
        &mut self,
        cell_px_w: u16,
        cell_px_h: u16,
        rect: CellRect,
        share: &F,
    )
        requires
            old(self).live(),
            rect.on_grid(),
            forall|total: u16, ratio: Real32| call_requires(share, (total, ratio)),
        ensures
            final(self).live(),
            final(self).same_but_tabs(*old(self)),
            exists|out: Seq<(WindowId, CellRect)>|
                #[trigger] old(self).tab_now().tree.laid_out(rect, share, out)
                    && final(self).tabs@ == old(self).tabs@.update(
                    old(self).current_tab as int,
                    Tab {
                        tree: old(self).tab_now().tree.fitted(out, cell_px_w, cell_px_h),
                        focused: old(self).tab_now().focused,
                    },
                ),
    {
        let ghost before = *self;
        let idx: usize = self.current_tab;
        let layout: Vec<(WindowId, CellRect)> = self.tabs[idx].tree.layout(rect, share);
        self.tabs[idx].tree.fit(&layout, cell_px_w, cell_px_h);
        proof {
            let t = Tab {
                tree: before.tab_now().tree.fitted(layout@, cell_px_w, cell_px_h),
                focused: before.tab_now().focused,
            };
            assert(tab_ok(
                before.tabs@[before.current_tab as int],
                before.win_ids.upcoming,
                before.buf_ids.upcoming,
            ));
            before.tab_now().tree.lemma_fitted(layout@, cell_px_w, cell_px_h);
            lemma_tab_same(before.tab_now(), t, before.win_ids.upcoming, before.buf_ids.upcoming);
            lemma_inv_same_tab(before, *self, t);
        }
    }
}

} // verus!
