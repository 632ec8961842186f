//! Opening documents and directories, and switching windows between buffers.
use vstd::prelude::*;

use crate::buffer::{Buffer, BufferId, BufferIdSource, PdfBuffer};
use crate::commands::SplitDirection;
use crate::document::PageMetrics;
use crate::explorer::{self, DirItem, ExplorerBuffer};
use crate::messages;
use crate::pool::{self, BufferPool, Slot};
use crate::splits::{self, wrap};
use crate::viewport::Viewport;
use crate::window::{self, Axis, CellRect, Window, WindowId, WindowIdSource, WindowTree};
use crate::workspace::{self, LoadedPdf, Source, Tab, Workspace, WorkspaceError};

verus! {

/// A document right after it was opened.
pub open spec fn is_new_document<D>(
    s: Slot<D>,
    id: BufferId,
    key: Seq<char>,
    l: LoadedPdf<D>,
) -> bool {
    &&& s.refs == 1
    &&& s.is_at(key)
    &&& s.buf matches Buffer::Pdf(p) && {
        &&& p.id == id
        &&& p.path == l.path
        &&& p.pdf == l.pdf
        &&& p.state == l.state
        &&& p.back_stack@.len() == 0
        &&& p.forward_stack@.len() == 0
        &&& p.link_cache@.len() == 0
        &&& p.search.idle()
        &&& p.search.version == 0
    }
}

/// A directory browser right after it was opened.
pub open spec fn is_new_browser<D>(
    s: Slot<D>,
    id: BufferId,
    cwd: Seq<char>,
    items: Seq<DirItem>,
) -> bool {
    &&& s.refs == 1
    &&& s.key is None
    &&& s.buf matches Buffer::Explorer(e) && {
        &&& e.id == id
        &&& e.cwd@ == cwd
        &&& explorer::shows(e.list(), cwd, items)
        &&& e.selected == 0
    }
}

/// Whether asking for a file succeeds: it is open already or was read.
pub open spec fn can_open<D>(ws: Workspace<D>, source: Source<D>) -> bool {
    source matches Source::Pdf { key, loaded } && (pool::key_at(ws.pool.slots@, key@) is Some
        || loaded is Ok)
}

/// The words for why a file cannot be opened.
pub open spec fn refusal<D>(source: Source<D>) -> Seq<char> {
    match source {
        Source::Dir { cwd, .. } => messages::not_a_document(cwd@),
        Source::Pdf { loaded, .. } => match loaded {
            Err(why) => why@,
            Ok(_) => Seq::empty(),
        },
    }
}

/// `r` says why the file cannot be opened.
pub open spec fn refused<D>(source: Source<D>, r: Result<(), WorkspaceError>) -> bool {
    r matches Err(WorkspaceError::CannotOpen(why)) && why@ == refusal(source)
}

/// The buffer that asking for a file leads to.
pub open spec fn opened_id<D>(ws: Workspace<D>, source: Source<D>) -> BufferId {
    match source {
        Source::Pdf { key, .. } => match pool::key_at(ws.pool.slots@, key@) {
            Some(i) => ws.pool.slots@[i].id(),
            None => BufferId(ws.buf_ids.upcoming),
        },
        Source::Dir { .. } => BufferId(ws.buf_ids.upcoming),
    }
}

/// `slots` and `upcoming` are the pool and the next id after a file was asked
/// for with success: it is counted once more where it is open, else it is
/// added.
pub open spec fn opened<D>(
    ws: Workspace<D>,
    source: Source<D>,
    slots: Seq<Slot<D>>,
    upcoming: u32,
) -> bool {
    source matches Source::Pdf { key, loaded } && match pool::key_at(ws.pool.slots@, key@) {
        Some(i) => {
            &&& slots == pool::acquired(ws.pool.slots@, ws.pool.slots@[i].id())
            &&& upcoming == ws.buf_ids.upcoming
        },
        None => {
            &&& upcoming == ws.buf_ids.upcoming + 1
            &&& slots.len() == ws.pool.slots@.len() + 1
            &&& slots.drop_last() == ws.pool.slots@
            &&& loaded matches Ok(l) && is_new_document(
                slots.last(),
                BufferId(ws.buf_ids.upcoming),
                key@,
                l,
            )
        },
    }
}

/// `slots` and `upcoming` are the pool and the next id after a directory was
/// opened.
pub open spec fn browsed<D>(
    ws: Workspace<D>,
    cwd: Seq<char>,
    items: Seq<DirItem>,
    slots: Seq<Slot<D>>,
    upcoming: u32,
) -> bool {
    &&& upcoming == ws.buf_ids.upcoming + 1
    &&& slots.len() == ws.pool.slots@.len() + 1
    &&& slots.drop_last() == ws.pool.slots@
    &&& is_new_browser(slots.last(), BufferId(ws.buf_ids.upcoming), cwd, items)
}

/// Nothing came of asking for a file, but an id was used up.
pub open spec fn failed<D>(before: Workspace<D>, after: Workspace<D>) -> bool {
    &&& after.same_screen(before)
    &&& after.same_sizes(before)
    &&& after.pool == before.pool
    &&& after.closed == before.closed
    &&& after.buf_ids.upcoming == before.buf_ids.upcoming + 1
}

/// The page cache size that is asked for once `id` is open.
pub open spec fn wanted_pages<D>(slots: Seq<Slot<D>>, id: BufferId, before: Option<usize>) -> Option<
    usize,
> {
    match pool::slot_at(slots, id) {
        Some(i) => match slots[i].buf {
            Buffer::Pdf(p) => if p.state.cache_size is Some {
                p.state.cache_size
            } else {
                before
            },
            Buffer::Explorer(_) => before,
        },
        None => before,
    }
}

/// The frame cache size that is asked for once `id` is open.
pub open spec fn wanted_frames<D>(slots: Seq<Slot<D>>, id: BufferId, before: Option<usize>) -> Option<
    usize,
> {
    match pool::slot_at(slots, id) {
        Some(i) => match slots[i].buf {
            Buffer::Pdf(p) => if p.state.ecache_size is Some {
                p.state.ecache_size
            } else {
                before
            },
            Buffer::Explorer(_) => before,
        },
        None => before,
    }
}

/// Where the saved state of a document puts the reader, on a screen like that
/// of `template`.
pub open spec fn view_of<D: PageMetrics>(p: PdfBuffer<D>, template: Viewport) -> Viewport {
    Viewport {
        page_idx: if p.pdf.pages() == 0 {
            0
        } else if p.state.last_page < p.pdf.pages() {
            p.state.last_page
        } else {
            (p.pdf.pages() - 1) as usize
        },
        x_off: p.state.scroll_x,
        y_off: p.state.scroll_y,
        zoom: p.state.zoom,
        rotation: p.state.rotation,
        screen_w: template.screen_w,
        screen_h: template.screen_h,
        night_mode: p.state.night_mode,
        render_dpi: p.state.render_dpi,
        render_quality: p.state.render_quality,
    }
}

fn saved_view<D: PageMetrics>(p: &PdfBuffer<D>, template: Viewport) -> (v: Viewport)
    ensures
        v == view_of(*p, template),
{
    let n: usize = p.pdf.page_count();
    let page_idx: usize = if n == 0 {
        0
    } else if p.state.last_page < n {
        p.state.last_page
    } else {
        n - 1
    };
    Viewport {
        page_idx,
        x_off: p.state.scroll_x,
        y_off: p.state.scroll_y,
        zoom: p.state.zoom,
        rotation: p.state.rotation,
        screen_w: template.screen_w,
        screen_h: template.screen_h,
        night_mode: p.state.night_mode,
        render_dpi: p.state.render_dpi,
        render_quality: p.state.render_quality,
    }
}

/// The viewport for a window that begins to show `id`.
pub open spec fn fresh_view<D: PageMetrics>(
    slots: Seq<Slot<D>>,
    id: BufferId,
    template: Viewport,
) -> Viewport {
    match pool::slot_at(slots, id) {
        Some(i) => match slots[i].buf {
            Buffer::Pdf(p) => view_of(p, template),
            Buffer::Explorer(_) => template,
        },
        None => template,
    }
}

/// The window put where the saved state of its document says.
pub open spec fn seeded<D: PageMetrics>(slots: Seq<Slot<D>>, w: Window) -> Window {
    match pool::slot_at(slots, w.buffer) {
        Some(i) => match slots[i].buf {
            Buffer::Pdf(p) => Window { viewport: view_of(p, w.viewport), dirty: true, ..w },
            Buffer::Explorer(_) => w,
        },
        None => w,
    }
}

/// The tabs with the focused window of the current one replaced.
pub open spec fn with_focus<D>(ws: Workspace<D>, w: Window) -> Seq<Tab> {
    ws.tabs@.update(
        ws.current_tab as int,
        Tab {
            tree: ws.tab_now().tree.with_leaf(ws.focus_at(), w),
            focused: ws.tab_now().focused,
        },
    )
}

/// The buffers to save after `id` was released.
pub open spec fn closed_after<D>(
    closed: Seq<Buffer<D>>,
    slots: Seq<Slot<D>>,
    id: BufferId,
) -> Seq<Buffer<D>> {
    match pool::leaving(slots, id) {
        Some(b) => closed.push(b),
        None => closed,
    }
}

/// Place of a buffer in a list.
pub open spec fn place(ids: Seq<BufferId>, id: BufferId) -> Option<int>
    decreases ids.len(),
{
    if ids.len() == 0 {
        None
    } else if ids[0] == id {
        Some(0)
    } else {
        match place(ids.skip(1), id) {
            Some(i) => Some(i + 1),
            None => None,
        }
    }
}

pub(crate) proof fn lemma_place(ids: Seq<BufferId>, id: BufferId)
    ensures
        place(ids, id) matches Some(i) ==> {
            &&& 0 <= i < ids.len()
            &&& ids[i] == id
            &&& forall|j: int| 0 <= j < i ==> #[trigger] ids[j] != id
        },
        place(ids, id) is None ==> forall|j: int| 0 <= j < ids.len() ==> #[trigger] ids[j] != id,
    decreases ids.len(),
{
    if ids.len() > 0 && ids[0] != id {
        let rest = ids.skip(1);
        lemma_place(rest, id);
        assert forall|j: int| 1 <= j < ids.len() implies ids[j] == rest[j - 1] by {}
    }
}

fn find_place(ids: &Vec<BufferId>, id: BufferId) -> (r: Option<usize>)
    ensures
        match place(ids@, id) {
            Some(i) => r matches Some(k) && k == i && i < ids@.len(),
            None => r is None,
        },
{
    proof {
        lemma_place(ids@, id);
    }
    let n: usize = ids.len();
    let mut i: usize = 0;
    while i < n
        invariant
            i <= n == ids@.len(),
            forall|j: int| 0 <= j < i ==> #[trigger] ids@[j] != id,
        decreases n - i,
    {
        if ids[i] == id {
            proof {
                lemma_place(ids@, id);
            }
            return Some(i);
        }
        i += 1;
    }
    proof {
        lemma_place(ids@, id);
    }
    None
}

/// The document that `:b n` means: the one whose id is `n`, else the `n`-th.
pub open spec fn numbered(ids: Seq<BufferId>, n: usize) -> Option<BufferId> {
    let k = if n > 0 {
        n - 1
    } else {
        0
    };
    if n <= u32::MAX && place(ids, BufferId(n as u32)) is Some {
        Some(BufferId(n as u32))
    } else if k < ids.len() {
        Some(ids[k])
    } else {
        None
    }
}

/// Every document in the list is in the pool.
proof fn lemma_documents<D>(slots: Seq<Slot<D>>)
    ensures
        forall|k: int|
            0 <= k < pool::document_ids(slots).len() ==> pool::slot_at(
                slots,
                #[trigger] pool::document_ids(slots)[k],
            ) is Some,
    decreases slots.len(),
{
    if slots.len() > 0 {
        let rest = slots.drop_last();
        let ids = pool::document_ids(slots);
        lemma_documents(rest);
        assert forall|k: int| 0 <= k < ids.len() implies pool::slot_at(
            slots,
            #[trigger] ids[k],
        ) is Some by {
            pool::lemma_slot_at(slots, ids[k]);
            if k < pool::document_ids(rest).len() {
                assert(ids[k] == pool::document_ids(rest)[k]);
                pool::lemma_slot_at(rest, ids[k]);
                let i = pool::slot_at(rest, ids[k])->0;
                assert(slots[i] == rest[i]);
            } else {
                assert(ids[k] == slots[slots.len() - 1].id());
            }
        }
    }
}

/// A buffer is shown by fewer windows than ids were handed out.
pub(crate) proof fn lemma_refs_small<D>(ws: Workspace<D>, id: BufferId)
    requires
        ws.inv(),
    ensures
        workspace::shown(ws.tabs@, id) < u32::MAX,
        pool::slot_at(ws.pool.slots@, id) matches Some(i) ==> 0 < ws.pool.slots@[i].refs < u32::MAX,
{
    workspace::lemma_shown_bound(ws.tabs@, id);
    pool::lemma_slot_at(ws.pool.slots@, id);
    if let Some(i) = pool::slot_at(ws.pool.slots@, id) {
        assert(ws.pool.slots@[i].refs == workspace::shown_count(ws.tabs@)(
            ws.pool.slots@[i].id(),
        ));
    }
}

/// There are fewer tabs than ids were handed out.
pub(crate) proof fn lemma_tabs_few(tabs: Seq<Tab>)
    ensures
        tabs.len() <= workspace::total(tabs),
    decreases tabs.len(),
{
    if tabs.len() > 0 {
        lemma_tabs_few(tabs.drop_last());
        tabs.last().tree.lemma_some_leaf();
    }
}

/// Counting a buffer once more and once less changes nothing.
proof fn lemma_acquire_release<D>(slots: Seq<Slot<D>>, id: BufferId)
    requires
        pool::slot_at(slots, id) matches Some(i) ==> 0 < slots[i].refs < usize::MAX,
    ensures
        pool::released(pool::acquired(slots, id), id) == slots,
        pool::leaving(pool::acquired(slots, id), id) is None,
{
    let more = pool::acquired(slots, id);
    pool::lemma_slot_at(slots, id);
    pool::lemma_slot_at(more, id);
    if let Some(i) = pool::slot_at(slots, id) {
        assert(more[i].id() == id);
        assert forall|j: int| 0 <= j < i implies (#[trigger] more[j]).id() != id by {
            assert(more[j] == slots[j]);
        }
        assert(pool::slot_at(more, id) == Some(i));
        assert(pool::released(more, id) =~= slots);
    }
}

/// The document at a path is found under its id.
proof fn lemma_key_is_slot<D>(ws: Workspace<D>, i: int)
    requires
        ws.inv(),
        0 <= i < ws.pool.slots@.len(),
    ensures
        pool::slot_at(ws.pool.slots@, ws.pool.slots@[i].id()) == Some(i),
{
    let slots = ws.pool.slots@;
    let id = slots[i].id();
    pool::lemma_slot_at(slots, id);
    let k = pool::slot_at(slots, id)->0;
    if k < i {
        assert(slots[k].id().0 < slots[i].id().0);
    }
}

/// A file is never opened under the id of a window's directory browser.
pub(crate) proof fn lemma_not_the_browser<D>(ws: Workspace<D>, source: Source<D>)
    requires
        ws.live(),
        pool::slot_at(ws.pool.slots@, ws.focus_now().buffer) matches Some(i)
            && ws.pool.slots@[i].buf is Explorer,
    ensures
        opened_id(ws, source) != ws.focus_now().buffer,
{
    let slots = ws.pool.slots@;
    workspace::lemma_focus(ws);
    if let Source::Pdf { key, .. } = source {
        pool::lemma_key_at(slots, key@);
        if let Some(k) = pool::key_at(slots, key@) {
            lemma_key_is_slot(ws, k);
            assert(slots[k].key is Some);
        }
    }
}

impl<D> Workspace<D> {
    /// Count a file once more, opening it where it is not open. Where it cannot
    /// be opened, the words say why; an id is used up then, too.
    pub(crate) fn open_file(&mut self, source: Source<D>) -> (r: Result<BufferId, String>)
        requires
            old(self).inv(),
            old(self).buf_ids.upcoming < u32::MAX,
        ensures
            r is Ok <==> can_open(*old(self), source),
            r matches Err(why) ==> {
                &&& why@ == refusal(source)
                &&& final(self).inv()
                &&& failed(*old(self), *final(self))
            },
            r matches Ok(id) ==> {
                &&& id == opened_id(*old(self), source)
                &&& id.0 < final(self).buf_ids.upcoming
                &&& opened(
                    *old(self),
                    source,
                    final(self).pool.slots@,
                    final(self).buf_ids.upcoming,
                )
                &&& final(self).same_screen(*old(self))
                &&& final(self).same_sizes(*old(self))
                &&& final(self).closed == old(self).closed
                &&& workspace::pool_counts(
                    final(self).pool.slots@,
                    splits::counted_more(final(self).tabs@, id),
                    final(self).buf_ids.upcoming,
                )
                &&& forall|i: int|
                    0 <= i < final(self).tabs@.len() ==> workspace::tab_ok(
                        #[trigger] final(self).tabs@[i],
                        final(self).win_ids.upcoming,
                        final(self).buf_ids.upcoming,
                    )
            },
    {
        let ghost before = *self;
        match source {
            Source::Dir { cwd, .. } => {
                self.use_up_id();
                Err(messages::about_directory(cwd.as_str()))
            },
            Source::Pdf { key, loaded } => {
                proof {
                    pool::lemma_key_at(before.pool.slots@, key@);
                }
                match self.pool.find_key(key.as_str()) {
                    Some(i) => {
                        let id: BufferId = self.pool.slots[i].buf.id();
                        proof {
                            lemma_key_is_slot(before, i as int);
                            lemma_refs_small(before, id);
                            lemma_counted_once_more(before, id);
                        }
                        self.pool.acquire(id);
                        Ok(id)
                    },
                    None => match loaded {
                        Err(why) => {
                            self.use_up_id();
                            Err(why)
                        },
                        Ok(l) => {
                            let id: BufferId = self.buf_ids.next();
                            let buf: PdfBuffer<D> = PdfBuffer::open(id, l.path, l.pdf, l.state);
                            let slot = Slot { buf: Buffer::Pdf(buf), key: Some(key), refs: 1 };
                            proof {
                                lemma_added(before, slot);
                            }
                            self.pool.slots.push(slot);
                            assert(self.pool.slots@.drop_last() =~= before.pool.slots@);
                            Ok(id)
                        },
                    },
                }
            },
        }
    }

    fn use_up_id(&mut self)
        requires
            old(self).inv(),
            old(self).buf_ids.upcoming < u32::MAX,
        ensures
            final(self).inv(),
            failed(*old(self), *final(self)),
    {
        let ghost before = *self;
        self.buf_ids.next();
        proof {
            workspace::lemma_tabs_grow(
                before.tabs@,
                before.win_ids.upcoming,
                before.buf_ids.upcoming,
                self.win_ids.upcoming,
                self.buf_ids.upcoming,
            );
            workspace::lemma_counts_grow(
                before.pool.slots@,
                workspace::shown_count(before.tabs@),
                before.buf_ids.upcoming,
                self.buf_ids.upcoming,
            );
        }
    }

    /// Open a directory browser.
    pub(crate) fn open_dir(&mut self, cwd: String, items: Vec<DirItem>) -> (id: BufferId)
        requires
            old(self).inv(),
            old(self).buf_ids.upcoming < u32::MAX,
        ensures
            id == BufferId(old(self).buf_ids.upcoming),
            browsed(
                *old(self),
                cwd@,
                items@,
                final(self).pool.slots@,
                final(self).buf_ids.upcoming,
            ),
            final(self).same_screen(*old(self)),
            final(self).same_sizes(*old(self)),
            final(self).closed == old(self).closed,
            workspace::pool_counts(
                final(self).pool.slots@,
                splits::counted_more(final(self).tabs@, id),
                final(self).buf_ids.upcoming,
            ),
            forall|i: int|
                0 <= i < final(self).tabs@.len() ==> workspace::tab_ok(
                    #[trigger] final(self).tabs@[i],
                    final(self).win_ids.upcoming,
                    final(self).buf_ids.upcoming,
                ),
    {
        let ghost before = *self;
        let id: BufferId = self.buf_ids.next();
        let buf: ExplorerBuffer = ExplorerBuffer::open(id, cwd, &items);
        let slot = Slot { buf: Buffer::Explorer(buf), key: None, refs: 1 };
        proof {
            lemma_added(before, slot);
        }
        self.pool.slots.push(slot);
        assert(self.pool.slots@.drop_last() =~= before.pool.slots@);
        id
    }

    /// Ask for the cache sizes that a document was saved with.
    pub(crate) fn apply_cache_sizes_from(&mut self, id: BufferId)
        ensures
            final(self).same_screen(*old(self)),
            final(self).pool == old(self).pool,
            final(self).closed == old(self).closed,
            final(self).buf_ids == old(self).buf_ids,
            final(self).resize_pages == wanted_pages(
                old(self).pool.slots@,
                id,
                old(self).resize_pages,
            ),
            final(self).resize_frames == wanted_frames(
                old(self).pool.slots@,
                id,
                old(self).resize_frames,
            ),
    {
        let mut pages: Option<usize> = self.resize_pages;
        let mut frames: Option<usize> = self.resize_frames;
        if let Some(p) = self.buffer_pdf(id) {
            if p.state.cache_size.is_some() {
                pages = p.state.cache_size;
            }
            if p.state.ecache_size.is_some() {
                frames = p.state.ecache_size;
            }
        }
        self.resize_pages = pages;
        self.resize_frames = frames;
    }
}

/// The pool counts a buffer that is counted once more.
proof fn lemma_counted_once_more<D>(ws: Workspace<D>, id: BufferId)
    requires
        ws.inv(),
    ensures
        workspace::pool_counts(
            pool::acquired(ws.pool.slots@, id),
            splits::counted_more(ws.tabs@, id),
            ws.buf_ids.upcoming,
        ),
{
    lemma_refs_small(ws, id);
    let a = workspace::shown_count(ws.tabs@);
    let b = splits::counted_more(ws.tabs@, id);
    assert forall|x: BufferId|
        #[trigger] b(x) == a(x) + (if x == id {
            1int
        } else {
            0int
        }) by {}
    workspace::lemma_counts_acquired(ws.pool.slots@, a, b, ws.buf_ids.upcoming, id);
}

/// A buffer under a new id, counted once, fits the pool.
proof fn lemma_added<D>(ws: Workspace<D>, slot: Slot<D>)
    requires
        ws.inv(),
        ws.buf_ids.upcoming < u32::MAX,
        slot.id() == BufferId(ws.buf_ids.upcoming),
        slot.refs == 1,
        slot.key is Some <==> slot.buf is Pdf,
        slot.buf matches Buffer::Pdf(p) ==> p.search.valid(),
        slot.key matches Some(k) ==> pool::key_at(ws.pool.slots@, k@) is None,
    ensures
        workspace::pool_counts(
            ws.pool.slots@.push(slot),
            splits::counted_more(ws.tabs@, slot.id()),
            (ws.buf_ids.upcoming + 1) as u32,
        ),
        forall|i: int|
            0 <= i < ws.tabs@.len() ==> workspace::tab_ok(
                #[trigger] ws.tabs@[i],
                ws.win_ids.upcoming,
                (ws.buf_ids.upcoming + 1) as u32,
            ),
{
    let a = workspace::shown_count(ws.tabs@);
    let b = splits::counted_more(ws.tabs@, slot.id());
    workspace::lemma_unshown(ws.tabs@, ws.win_ids.upcoming, ws.buf_ids.upcoming, slot.id());
    assert forall|x: BufferId|
        #[trigger] b(x) == a(x) + (if x == slot.id() {
            1int
        } else {
            0int
        }) by {}
    workspace::lemma_counts_opened(ws.pool.slots@, a, b, ws.buf_ids.upcoming, slot);
    workspace::lemma_tabs_grow(
        ws.tabs@,
        ws.win_ids.upcoming,
        ws.buf_ids.upcoming,
        ws.win_ids.upcoming,
        (ws.buf_ids.upcoming + 1) as u32,
    );
}

/// Everything is in order but that `id` is counted once more than it is
/// shown.
pub open spec fn counted_for<D>(ws: Workspace<D>, id: BufferId) -> bool {
    &&& ws.tabs@.len() > 0
    &&& ws.current_tab < ws.tabs@.len()
    &&& forall|i: int|
        0 <= i < ws.tabs@.len() ==> workspace::tab_ok(
            #[trigger] ws.tabs@[i],
            ws.win_ids.upcoming,
            ws.buf_ids.upcoming,
        )
    &&& workspace::total(ws.tabs@) < ws.win_ids.upcoming
    &&& 1 <= ws.buf_ids.upcoming
    &&& id.0 < ws.buf_ids.upcoming
    &&& ws.last_rect.on_grid()
    &&& workspace::pool_counts(
        ws.pool.slots@,
        splits::counted_more(ws.tabs@, id),
        ws.buf_ids.upcoming,
    )
}

/// Pointing the focused window elsewhere keeps everything in order.
proof fn lemma_refocused_ok<D>(ws: Workspace<D>, w: Window)
    requires
        counted_for(ws, w.buffer),
        w.id == ws.tab_now().focused,
        w.alternate matches Some(b) ==> b.0 < ws.buf_ids.upcoming,
    ensures
        ({
            let tabs = with_focus(ws, w);
            &&& workspace::total(tabs) == workspace::total(ws.tabs@)
            &&& forall|i: int|
                0 <= i < tabs.len() ==> workspace::tab_ok(
                    #[trigger] tabs[i],
                    ws.win_ids.upcoming,
                    ws.buf_ids.upcoming,
                )
            &&& workspace::pool_counts(
                pool::released(ws.pool.slots@, ws.focus_now().buffer),
                workspace::shown_count(tabs),
                ws.buf_ids.upcoming,
            )
        }),
{
    let cur = ws.current_tab as int;
    let tabs = with_focus(ws, w);
    let t = tabs[cur];
    let was = ws.tab_now().tree.leaves();
    let now = t.tree.leaves();
    let at = ws.focus_at();
    let old_id = ws.focus_now().buffer;
    assert(workspace::tab_ok(ws.tabs@[cur], ws.win_ids.upcoming, ws.buf_ids.upcoming));
    window::lemma_position(was, ws.tab_now().focused);
    ws.tab_now().tree.lemma_with_leaf(at, w);
    assert(now == was.update(at, w));
    workspace::lemma_sums_update(ws.tabs@, cur, t, old_id);
    let a = splits::counted_more(ws.tabs@, w.buffer);
    let b = workspace::shown_count(tabs);
    assert forall|x: BufferId|
        #[trigger] b(x) == a(x) - (if x == old_id {
            1int
        } else {
            0int
        }) by {
        workspace::lemma_sums_update(ws.tabs@, cur, t, x);
        workspace::lemma_showing_update(was, at, w, x);
        workspace::lemma_showing_one(was[at], x);
        workspace::lemma_showing_one(w, x);
    }
    workspace::lemma_counts_released(ws.pool.slots@, a, b, ws.buf_ids.upcoming, old_id);
    assert forall|i: int| 0 <= i < now.len() implies (#[trigger] now[i]).id == was[i].id by {}
    window::lemma_position_same(now, was, t.focused);
    assert forall|i: int, j: int|
        0 <= i < now.len() && 0 <= j < now.len() && i != j implies #[trigger] now[i].id
        != #[trigger] now[j].id by {
        assert(was[i].id != was[j].id);
    }
    assert forall|i: int| 0 <= i < tabs.len() implies workspace::tab_ok(
        #[trigger] tabs[i],
        ws.win_ids.upcoming,
        ws.buf_ids.upcoming,
    ) by {
        if i != cur {
            assert(tabs[i] == ws.tabs@[i]);
        }
    }
}

impl<D> Workspace<D> {
    /// Replace the focused window by one that differs in what it shows. What
    /// it shows now has been counted; what it showed is released.
    fn refocus(&mut self, w: Window)
        requires
            counted_for(*old(self), w.buffer),
            w.id == old(self).tab_now().focused,
            w.alternate matches Some(b) ==> b.0 < old(self).buf_ids.upcoming,
        ensures
            final(self).live(),
            final(self).same_rest(*old(self)),
            final(self).current_tab == old(self).current_tab,
            final(self).win_ids == old(self).win_ids,
            final(self).buf_ids == old(self).buf_ids,
            final(self).tabs@ == with_focus(*old(self), w),
            final(self).pool.slots@ == pool::released(
                old(self).pool.slots@,
                old(self).focus_now().buffer,
            ),
            final(self).closed@ == closed_after(
                old(self).closed@,
                old(self).pool.slots@,
                old(self).focus_now().buffer,
            ),
    {
        let ghost before = *self;
        let cur: usize = self.current_tab;
        let focused: WindowId = self.tabs[cur].focused;
        proof {
            assert(workspace::tab_ok(
                before.tabs@[cur as int],
                before.win_ids.upcoming,
                before.buf_ids.upcoming,
            ));
            lemma_refocused_ok(before, w);
        }
        let mut left: BufferId = BufferId(0);
        if let Some(place) = self.tabs[cur].tree.find_mut(focused) {
            left = place.buffer;
            *place = w;
        }
        assert(self.tabs@ =~= with_focus(before, w));
        self.release(left);
    }

    /// Change the focused window in what does not matter to the pool.
    pub(crate) fn edit_focus(&mut self, w: Window)
        requires
            old(self).live(),
            w.id == old(self).focus_now().id,
            w.buffer == old(self).focus_now().buffer,
            w.alternate == old(self).focus_now().alternate,
        ensures
            final(self).live(),
            final(self).same_but_tabs(*old(self)),
            final(self).tabs@ == with_focus(*old(self), w),
    {
        let ghost before = *self;
        let cur: usize = self.current_tab;
        let focused: WindowId = self.tabs[cur].focused;
        proof {
            workspace::lemma_focus(before);
            assert(workspace::tab_ok(
                before.tabs@[cur as int],
                before.win_ids.upcoming,
                before.buf_ids.upcoming,
            ));
        }
        if let Some(place) = self.tabs[cur].tree.find_mut(focused) {
            *place = w;
        }
        assert(self.tabs@ =~= with_focus(before, w));
        proof {
            let t = with_focus(before, w)[cur as int];
            before.tab_now().tree.lemma_with_leaf(before.focus_at(), w);
            workspace::lemma_tab_same(
                before.tab_now(),
                t,
                before.win_ids.upcoming,
                before.buf_ids.upcoming,
            );
            workspace::lemma_inv_same_tab(before, *self, t);
        }
    }
}

impl<D: PageMetrics> Workspace<D> {
    /// A reader with one document in one window of one tab, at the place where
    /// the document was left. `viewport` gives the screen.
    pub fn with_pdf(key: String, loaded: LoadedPdf<D>, viewport: Viewport) -> (ws: Workspace<D>)
        ensures
            ws.live(),
            ws.tabs@ == seq![first_tab(fresh_view(ws.pool.slots@, BufferId(1), viewport))],
            ws.pool.slots@.len() == 1,
            is_new_document(ws.pool.slots@[0], BufferId(1), key@, loaded),
            ws.resize_pages == loaded.state.cache_size,
            ws.resize_frames == loaded.state.ecache_size,
            ws.untouched(),
    {
        let pages: Option<usize> = loaded.state.cache_size;
        let frames: Option<usize> = loaded.state.ecache_size;
        let mut buf_ids: BufferIdSource = BufferIdSource::new();
        let id: BufferId = buf_ids.next();
        let buf: PdfBuffer<D> = PdfBuffer::open(id, loaded.path, loaded.pdf, loaded.state);
        let view: Viewport = saved_view(&buf, viewport);
        let slot = Slot { buf: Buffer::Pdf(buf), key: Some(key), refs: 1 };
        let mut ws: Workspace<D> = Self::bootstrap(slot, buf_ids, view);
        ws.resize_pages = pages;
        ws.resize_frames = frames;
        ws
    }

    /// A reader with one directory browser. `items` is what was found in
    /// `cwd`.
    pub fn with_explorer(cwd: String, items: Vec<DirItem>, viewport: Viewport) -> (ws: Workspace<D>)
        ensures
            ws.live(),
            ws.tabs@ == seq![first_tab(viewport)],
            ws.pool.slots@.len() == 1,
            is_new_browser(ws.pool.slots@[0], BufferId(1), cwd@, items@),
            ws.resize_pages is None,
            ws.resize_frames is None,
            ws.untouched(),
    {
        let mut buf_ids: BufferIdSource = BufferIdSource::new();
        let id: BufferId = buf_ids.next();
        let buf: ExplorerBuffer = ExplorerBuffer::open(id, cwd, &items);
        Self::bootstrap(
            Slot { buf: Buffer::Explorer(buf), key: None, refs: 1 },
            buf_ids,
            viewport,
        )
    }

    /// No message, nothing to save, and no wish to quit.
    pub open spec fn untouched(self) -> bool {
        &&& self.current_tab == 0
        &&& self.win_ids.upcoming == 2
        &&& self.buf_ids.upcoming == 2
        &&& self.closed@.len() == 0
        &&& !self.quit_requested
        &&& self.message is None
        &&& self.last_rect == (CellRect { col: 0, row: 0, cols: 0, rows: 0 })
    }

    fn bootstrap(slot: Slot<D>, buf_ids: BufferIdSource, viewport: Viewport) -> (ws: Workspace<D>)
        requires
            slot.id() == BufferId(1),
            slot.refs == 1,
            slot.key is Some <==> slot.buf is Pdf,
            slot.buf matches Buffer::Pdf(p) ==> p.search.valid(),
            buf_ids.upcoming == 2,
        ensures
            ws.live(),
            ws.tabs@ == seq![first_tab(viewport)],
            ws.pool.slots@ == seq![slot],
            ws.resize_pages is None,
            ws.resize_frames is None,
            ws.untouched(),
    {
        let ghost the_slot = slot;
        let mut win_ids: WindowIdSource = WindowIdSource::new();
        let w: Window = Window::new(win_ids.next(), BufferId(1), viewport);
        let tab: Tab = Tab::new(WindowTree::leaf(w));
        let mut tabs: Vec<Tab> = Vec::new();
        tabs.push(tab);
        let mut slots: Vec<Slot<D>> = Vec::new();
        slots.push(slot);
        let ws = Workspace {
            pool: BufferPool { slots },
            tabs,
            current_tab: 0,
            win_ids,
            buf_ids,
            closed: Vec::new(),
            resize_pages: None,
            resize_frames: None,
            quit_requested: false,
            message: None,
            last_rect: CellRect { col: 0, row: 0, cols: 0, rows: 0 },
        };
        proof {
            let t = first_tab(viewport);
            assert(ws.tabs@ =~= seq![t]);
            assert(ws.pool.slots@ =~= seq![the_slot]);
            assert(t.tree.leaves() =~= seq![w]);
            reveal_with_fuel(window::position, 2);
            workspace::lemma_sums_one(t, BufferId(1));
            workspace::lemma_showing_one(w, BufferId(1));
            assert(workspace::shown_count(ws.tabs@)(BufferId(1)) == 1);
            assert(workspace::tab_ok(ws.tabs@[0], 2, 2));
        }
        ws
    }

    /// The viewport for a window that begins to show `id`.
    fn fresh_viewport_for(&self, id: BufferId, template: Viewport) -> (v: Viewport)
        ensures
            v == fresh_view(self.pool.slots@, id, template),
    {
        match self.buffer_pdf(id) {
            None => template,
            Some(p) => saved_view(p, template),
        }
    }

    /// Point the focused window at another buffer, at the place that was
    /// saved for it. The buffer has been counted.
    fn show(&mut self, w: Window)
        requires
            counted_for(*old(self), w.buffer),
            w.id == old(self).tab_now().focused,
            w.alternate matches Some(b) ==> b.0 < old(self).buf_ids.upcoming,
        ensures
            final(self).live(),
            final(self).same_rest(*old(self)),
            final(self).current_tab == old(self).current_tab,
            final(self).win_ids == old(self).win_ids,
            final(self).buf_ids == old(self).buf_ids,
            final(self).tabs@ == with_focus(*old(self), seeded(final(self).pool.slots@, w)),
            final(self).pool.slots@ == pool::released(
                old(self).pool.slots@,
                old(self).focus_now().buffer,
            ),
            final(self).closed@ == closed_after(
                old(self).closed@,
                old(self).pool.slots@,
                old(self).focus_now().buffer,
            ),
    {
        let ghost before = *self;
        self.refocus(w);
        let ghost mid = *self;
        proof {
            assert(workspace::tab_ok(
                before.tabs@[before.current_tab as int],
                before.win_ids.upcoming,
                before.buf_ids.upcoming,
            ));
            window::lemma_position(before.tab_now().tree.leaves(), before.tab_now().focused);
            lemma_focus_replaced(before, mid, w);
        }
        if self.buffer_pdf(w.buffer).is_some() {
            let viewport: Viewport = self.fresh_viewport_for(w.buffer, w.viewport);
            let s = Window { viewport, dirty: true, ..w };
            self.edit_focus(s);
            proof {
                lemma_replaced_twice(before.tab_now().tree, before.focus_at(), w, s);
                assert(self.tabs@ =~= with_focus(before, s));
            }
        }
    }

    /// Open a file in a new window beside the focused one, or show the
    /// focused buffer there too.
    pub fn split_focused(&mut self, axis: Axis, file: Option<Source<D>>) -> (r: Result<
        (),
        WorkspaceError,
    >)
        requires
            old(self).live(),
            old(self).win_ids.upcoming < u32::MAX,
            old(self).buf_ids.upcoming < u32::MAX,
        ensures
            final(self).live(),
            split_result(*old(self), *final(self), axis, file, r),
    {
        let ghost before = *self;
        let here: Window = self.focused_window();
        proof {
            workspace::lemma_focus(before);
        }
        match file {
            None => {
                proof {
                    lemma_refs_small(before, here.buffer);
                    lemma_counted_once_more(before, here.buffer);
                }
                self.pool.acquire(here.buffer);
                self.insert_window(axis, here.buffer, here.viewport);
                Ok(())
            },
            Some(source) => match self.open_file(source) {
                Err(why) => Err(WorkspaceError::CannotOpen(why)),
                Ok(id) => {
                    self.apply_cache_sizes_from(id);
                    let viewport: Viewport = if id == here.buffer {
                        here.viewport
                    } else {
                        self.fresh_viewport_for(id, here.viewport)
                    };
                    self.insert_window(axis, id, viewport);
                    Ok(())
                },
            },
        }
    }

    /// Open a file in a new tab, or show the focused buffer there too.
    pub fn new_tab(&mut self, file: Option<Source<D>>) -> (r: Result<(), WorkspaceError>)
        requires
            old(self).live(),
            old(self).win_ids.upcoming < u32::MAX,
            old(self).buf_ids.upcoming < u32::MAX,
        ensures
            final(self).live(),
            tab_result(*old(self), *final(self), file, r),
    {
        let ghost before = *self;
        let here: Window = self.focused_window();
        proof {
            workspace::lemma_focus(before);
            lemma_tabs_few(before.tabs@);
        }
        match file {
            None => {
                proof {
                    lemma_refs_small(before, here.buffer);
                    lemma_counted_once_more(before, here.buffer);
                }
                self.pool.acquire(here.buffer);
                let viewport: Viewport = self.fresh_viewport_for(here.buffer, here.viewport);
                self.insert_tab(here.buffer, viewport);
                Ok(())
            },
            Some(source) => match self.open_file(source) {
                Err(why) => Err(WorkspaceError::CannotOpen(why)),
                Ok(id) => {
                    self.apply_cache_sizes_from(id);
                    let viewport: Viewport = self.fresh_viewport_for(id, here.viewport);
                    self.insert_tab(id, viewport);
                    Ok(())
                },
            },
        }
    }

    /// Open a file in the focused window. A directory is browsed there.
    pub fn edit_focused(&mut self, source: Source<D>) -> (r: Result<(), WorkspaceError>)
        requires
            old(self).live(),
            old(self).win_ids.upcoming < u32::MAX,
            old(self).buf_ids.upcoming < u32::MAX,
        ensures
            final(self).live(),
            edit_result(*old(self), *final(self), source, r),
    {
        let ghost before = *self;
        let ghost wanted = source;
        match source {
            Source::Dir { cwd, items } => self.explore(None, cwd, items),
            Source::Pdf { key, loaded } => {
                let here: Window = self.focused_window();
                proof {
                    workspace::lemma_focus(before);
                }
                match self.open_file(Source::Pdf { key, loaded }) {
                    Err(why) => Err(WorkspaceError::CannotOpen(why)),
                    Ok(id) => {
                        self.apply_cache_sizes_from(id);
                        if here.buffer == id {
                            proof {
                                lemma_refs_small(before, id);
                                lemma_acquire_release(before.pool.slots@, id);
                                pool::lemma_slot_at(before.pool.slots@, id);
                                lemma_same_document(before, self.pool.slots@, id);
                            }
                            self.release(id);
                            return Ok(());
                        }
                        let ghost slots = self.pool.slots@;
                        let mut w: Window = here;
                        w.load(id);
                        self.show(w);
                        assert(took_in(before, slots, *self, wanted));
                        Ok(())
                    },
                }
            },
        }
    }

    /// Open a file in the focused window, which shows another buffer.
    pub(crate) fn open_in_focus(&mut self, source: Source<D>) -> (r: Result<(), WorkspaceError>)
        requires
            old(self).live(),
            old(self).buf_ids.upcoming < u32::MAX,
            can_open(*old(self), source) ==> opened_id(*old(self), source)
                != old(self).focus_now().buffer,
        ensures
            final(self).live(),
            if !can_open(*old(self), source) {
                refused(source, r) && failed(*old(self), *final(self))
            } else {
                r is Ok && loaded_with(*old(self), *final(self), source)
            },
    {
        let ghost before = *self;
        let ghost wanted = source;
        let here: Window = self.focused_window();
        proof {
            workspace::lemma_focus(before);
        }
        match self.open_file(source) {
            Err(why) => Err(WorkspaceError::CannotOpen(why)),
            Ok(id) => {
                self.apply_cache_sizes_from(id);
                let ghost slots = self.pool.slots@;
                let mut w: Window = here;
                w.load(id);
                self.show(w);
                assert(took_in(before, slots, *self, wanted));
                Ok(())
            },
        }
    }

    /// Browse a directory, in a new window where a split is asked for, else
    /// in the focused one.
    pub fn explore(
        &mut self,
        split: Option<SplitDirection>,
        cwd: String,
        items: Vec<DirItem>,
    ) -> (r: Result<(), WorkspaceError>)
        requires
            old(self).live(),
            old(self).win_ids.upcoming < u32::MAX,
            old(self).buf_ids.upcoming < u32::MAX,
        ensures
            final(self).live(),
            r is Ok,
            browsing(*old(self), *final(self), split, cwd@, items@),
    {
        let ghost before = *self;
        let here: Window = self.focused_window();
        proof {
            workspace::lemma_focus(before);
        }
        let id: BufferId = self.open_dir(cwd, items);
        match split {
            Some(direction) => {
                let axis: Axis = axis_of(direction);
                self.insert_window(axis, id, here.viewport);
            },
            None => {
                let mut w: Window = here;
                w.load(id);
                self.refocus(w);
                self.mark_all_dirty();
            },
        }
        Ok(())
    }

    /// Show the buffer that the focused window showed before.
    pub fn alternate_buffer(&mut self) -> (r: Result<(), WorkspaceError>)
        requires
            old(self).live(),
        ensures
            final(self).live(),
            alternate_result(*old(self), *final(self), r),
    {
        let ghost before = *self;
        let here: Window = self.focused_window();
        proof {
            workspace::lemma_focus(before);
            assert(workspace::tab_ok(
                before.tabs@[before.current_tab as int],
                before.win_ids.upcoming,
                before.buf_ids.upcoming,
            ));
        }
        match here.alternate {
            None => Err(WorkspaceError::NoAlternate),
            Some(b) => {
                proof {
                    lemma_refs_small(before, b);
                    lemma_counted_once_more(before, b);
                }
                self.pool.acquire(b);
                self.show(Window { alternate: Some(here.buffer), buffer: b, dirty: true, ..here });
                Ok(())
            },
        }
    }

    /// Show an open buffer in the focused window.
    fn swap_focused_to(&mut self, target: BufferId)
        requires
            old(self).live(),
            pool::slot_at(old(self).pool.slots@, target) is Some,
        ensures
            final(self).live(),
            if old(self).focus_now().buffer == target {
                *final(self) == *old(self)
            } else {
                switched(*old(self), *final(self), old(self).focus_now().loaded(target))
            },
    {
        let ghost before = *self;
        let here: Window = self.focused_window();
        proof {
            workspace::lemma_focus(before);
            pool::lemma_slot_at(before.pool.slots@, target);
        }
        if here.buffer == target {
            return ;
        }
        proof {
            lemma_refs_small(before, target);
            lemma_counted_once_more(before, target);
        }
        self.pool.acquire(target);
        let mut w: Window = here;
        w.load(target);
        self.show(w);
    }

    /// Show the document that is meant by a number.
    pub fn show_buffer_n(&mut self, n: usize) -> (r: Result<(), WorkspaceError>)
        requires
            old(self).live(),
        ensures
            final(self).live(),
            number_result(*old(self), *final(self), n, r),
    {
        let ids: Vec<BufferId> = self.pool.pdf_ids();
        proof {
            lemma_documents(self.pool.slots@);
        }
        if n <= u32::MAX as usize {
            let id = BufferId(n as u32);
            proof {
                lemma_place(ids@, id);
            }
            if find_place(&ids, id).is_some() {
                self.swap_focused_to(id);
                return Ok(());
            }
        }
        let k: usize = if n > 0 {
            n - 1
        } else {
            0
        };
        if k < ids.len() {
            self.swap_focused_to(ids[k]);
            Ok(())
        } else {
            Err(WorkspaceError::NoSuchBuffer(n))
        }
    }

    /// Show the document after the focused one in the order of their ids, or
    /// `dir` places after it, going round.
    pub fn cycle_buffer(&mut self, dir: i32) -> (r: Result<(), WorkspaceError>)
        requires
            old(self).live(),
        ensures
            final(self).live(),
            cycle_result(*old(self), *final(self), dir as int, r),
    {
        let ids: Vec<BufferId> = self.pool.pdf_ids();
        proof {
            lemma_documents(self.pool.slots@);
        }
        if ids.len() == 0 {
            return Err(WorkspaceError::NoBuffers);
        }
        let here: Window = self.focused_window();
        let at: usize = match find_place(&ids, here.buffer) {
            Some(i) => i,
            None => 0,
        };
        proof {
            lemma_place(ids@, here.buffer);
        }
        let to: usize = wrap(at, dir as i64, ids.len());
        self.swap_focused_to(ids[to]);
        Ok(())
    }
}

/// What asking for a split comes to.
pub open spec fn split_result<D: PageMetrics>(
    before: Workspace<D>,
    after: Workspace<D>,
    axis: Axis,
    file: Option<Source<D>>,
    r: Result<(), WorkspaceError>,
) -> bool {
    match file {
        None => r is Ok && shared(before, after, axis),
        Some(source) => if can_open(before, source) {
            r is Ok && split_with(before, after, axis, source)
        } else {
            refused(source, r) && failed(before, after)
        },
    }
}

/// What asking for a tab comes to.
pub open spec fn tab_result<D: PageMetrics>(
    before: Workspace<D>,
    after: Workspace<D>,
    file: Option<Source<D>>,
    r: Result<(), WorkspaceError>,
) -> bool {
    match file {
        None => r is Ok && tab_shared(before, after),
        Some(source) => if can_open(before, source) {
            r is Ok && tab_with(before, after, source)
        } else {
            refused(source, r) && failed(before, after)
        },
    }
}

/// What asking for a file in the focused window comes to.
pub open spec fn edit_result<D: PageMetrics>(
    before: Workspace<D>,
    after: Workspace<D>,
    source: Source<D>,
    r: Result<(), WorkspaceError>,
) -> bool {
    match source {
        Source::Dir { cwd, items } => r is Ok && browsing(before, after, None, cwd@, items@),
        Source::Pdf { .. } => if !can_open(before, source) {
            refused(source, r) && failed(before, after)
        } else if opened_id(before, source) == before.focus_now().buffer {
            r is Ok && reopened(before, after)
        } else {
            r is Ok && loaded_with(before, after, source)
        },
    }
}

/// What asking for the alternate buffer comes to.
pub open spec fn alternate_result<D: PageMetrics>(
    before: Workspace<D>,
    after: Workspace<D>,
    r: Result<(), WorkspaceError>,
) -> bool {
    match before.focus_now().alternate {
        None => r == Err::<(), _>(WorkspaceError::NoAlternate) && after
            == before,
        Some(b) => r is Ok && switched(
            before,
            after,
            Window {
                alternate: Some(before.focus_now().buffer),
                buffer: b,
                dirty: true,
                ..before.focus_now()
            },
        ),
    }
}

/// What asking for a numbered buffer comes to.
pub open spec fn number_result<D: PageMetrics>(
    before: Workspace<D>,
    after: Workspace<D>,
    n: usize,
    r: Result<(), WorkspaceError>,
) -> bool {
    match numbered(pool::document_ids(before.pool.slots@), n) {
        None => r == Err::<(), _>(WorkspaceError::NoSuchBuffer(n)) && after
            == before,
        Some(id) => r is Ok && (if before.focus_now().buffer == id {
            after == before
        } else {
            switched(before, after, before.focus_now().loaded(id))
        }),
    }
}

/// What asking for the next document comes to.
pub open spec fn cycle_result<D: PageMetrics>(
    before: Workspace<D>,
    after: Workspace<D>,
    dir: int,
    r: Result<(), WorkspaceError>,
) -> bool {
    ({
        let ids = pool::document_ids(before.pool.slots@);
        let at: int = match place(ids, before.focus_now().buffer) {
            Some(i) => i,
            None => 0,
        };
        if ids.len() == 0 {
            r == Err::<(), _>(WorkspaceError::NoBuffers) && after == before
        } else {
            let id = ids[splits::wrapped(at, dir, ids.len() as int)];
            &&& r is Ok
            &&& if before.focus_now().buffer == id {
                after == before
            } else {
                switched(before, after, before.focus_now().loaded(id))
            }
        }
    })
}

/// The split axis that a command asks for.
pub open spec fn axis_for(direction: SplitDirection) -> Axis {
    match direction {
        SplitDirection::Horizontal => Axis::Horizontal,
        SplitDirection::Vertical => Axis::Vertical,
    }
}

pub(crate) fn axis_of(direction: SplitDirection) -> (axis: Axis)
    ensures
        axis == axis_for(direction),
{
    match direction {
        SplitDirection::Horizontal => Axis::Horizontal,
        SplitDirection::Vertical => Axis::Vertical,
    }
}

/// The only tab of a new reader.
pub open spec fn first_tab(viewport: Viewport) -> Tab {
    Tab {
        tree: WindowTree::Leaf(Window::fresh(WindowId(1), BufferId(1), viewport)),
        focused: WindowId(1),
    }
}

/// The tabs after a split that shows `id` in the new window.
pub open spec fn split_showing<D>(
    before: Workspace<D>,
    after: Workspace<D>,
    axis: Axis,
    id: BufferId,
    viewport: Viewport,
) -> bool {
    &&& after.tabs@ == before.tabs@.update(
        before.current_tab as int,
        splits::split_tab(
            before.tab_now(),
            axis,
            Window::fresh(WindowId(before.win_ids.upcoming), id, viewport),
        ),
    )
    &&& after.win_ids.upcoming == before.win_ids.upcoming + 1
    &&& after.current_tab == before.current_tab
    &&& after.closed == before.closed
    &&& after.quit_requested == before.quit_requested
    &&& after.same_notes(before)
}

/// The focused buffer is shown in a new window, at the same place.
pub open spec fn shared<D>(before: Workspace<D>, after: Workspace<D>, axis: Axis) -> bool {
    let here = before.focus_now();
    &&& split_showing(before, after, axis, here.buffer, here.viewport)
    &&& after.pool.slots@ == pool::acquired(before.pool.slots@, here.buffer)
    &&& after.buf_ids == before.buf_ids
    &&& after.same_sizes(before)
}

/// The buffers, ids and size requests after a file was opened.
pub open spec fn took_in<D>(before: Workspace<D>, slots: Seq<Slot<D>>, after: Workspace<D>, source: Source<D>) -> bool {
    let id = opened_id(before, source);
    &&& opened(before, source, slots, after.buf_ids.upcoming)
    &&& after.resize_pages == wanted_pages(slots, id, before.resize_pages)
    &&& after.resize_frames == wanted_frames(slots, id, before.resize_frames)
}

/// A file is shown in a new window.
pub open spec fn split_with<D: PageMetrics>(
    before: Workspace<D>,
    after: Workspace<D>,
    axis: Axis,
    source: Source<D>,
) -> bool {
    let id = opened_id(before, source);
    let here = before.focus_now();
    &&& took_in(before, after.pool.slots@, after, source)
    &&& split_showing(
        before,
        after,
        axis,
        id,
        if id == here.buffer {
            here.viewport
        } else {
            fresh_view(after.pool.slots@, id, here.viewport)
        },
    )
}

/// The tabs after one was added that shows `id`.
pub open spec fn tab_showing<D>(
    before: Workspace<D>,
    after: Workspace<D>,
    id: BufferId,
    viewport: Viewport,
) -> bool {
    &&& after.tabs@ == before.tabs@.push(
        splits::new_tab(WindowId(before.win_ids.upcoming), id, viewport),
    )
    &&& after.win_ids.upcoming == before.win_ids.upcoming + 1
    &&& after.current_tab == before.tabs@.len()
    &&& after.closed == before.closed
    &&& after.quit_requested == before.quit_requested
    &&& after.same_notes(before)
}

/// The focused buffer is shown in a new tab, at the place saved for it.
pub open spec fn tab_shared<D: PageMetrics>(before: Workspace<D>, after: Workspace<D>) -> bool {
    let here = before.focus_now();
    &&& tab_showing(
        before,
        after,
        here.buffer,
        fresh_view(after.pool.slots@, here.buffer, here.viewport),
    )
    &&& after.pool.slots@ == pool::acquired(before.pool.slots@, here.buffer)
    &&& after.buf_ids == before.buf_ids
    &&& after.same_sizes(before)
}

/// A file is shown in a new tab.
pub open spec fn tab_with<D: PageMetrics>(
    before: Workspace<D>,
    after: Workspace<D>,
    source: Source<D>,
) -> bool {
    let id = opened_id(before, source);
    &&& took_in(before, after.pool.slots@, after, source)
    &&& tab_showing(
        before,
        after,
        id,
        fresh_view(after.pool.slots@, id, before.focus_now().viewport),
    )
}

/// The file is the one that the window shows: only sizes are asked for.
pub open spec fn reopened<D>(before: Workspace<D>, after: Workspace<D>) -> bool {
    let id = before.focus_now().buffer;
    &&& after.same_screen(before)
    &&& after.pool.slots@ == before.pool.slots@
    &&& after.closed@ == before.closed@
    &&& after.buf_ids == before.buf_ids
    &&& after.resize_pages == wanted_pages(before.pool.slots@, id, before.resize_pages)
    &&& after.resize_frames == wanted_frames(before.pool.slots@, id, before.resize_frames)
}

/// The focused window, seeded from what it shows now, in place of what it was.
/// `slots` is the pool before the buffer that it showed was released.
pub open spec fn showed<D: PageMetrics>(
    before: Workspace<D>,
    slots: Seq<Slot<D>>,
    after: Workspace<D>,
    w: Window,
) -> bool {
    &&& after.tabs@ == with_focus(before, seeded(after.pool.slots@, w))
    &&& after.pool.slots@ == pool::released(slots, before.focus_now().buffer)
    &&& after.closed@ == closed_after(before.closed@, slots, before.focus_now().buffer)
    &&& after.current_tab == before.current_tab
    &&& after.win_ids == before.win_ids
    &&& after.quit_requested == before.quit_requested
    &&& after.same_notes(before)
}

/// A file is shown in the focused window.
pub open spec fn loaded_with<D: PageMetrics>(
    before: Workspace<D>,
    after: Workspace<D>,
    source: Source<D>,
) -> bool {
    exists|slots: Seq<Slot<D>>|
        {
            &&& #[trigger] took_in(before, slots, after, source)
            &&& showed(
                before,
                slots,
                after,
                before.focus_now().loaded(opened_id(before, source)),
            )
        }
}

/// An open buffer is shown in the focused window.
pub open spec fn switched<D: PageMetrics>(before: Workspace<D>, after: Workspace<D>, w: Window) -> bool {
    &&& showed(before, pool::acquired(before.pool.slots@, w.buffer), after, w)
    &&& after.buf_ids == before.buf_ids
    &&& after.same_sizes(before)
}

/// A directory is browsed.
pub open spec fn browsing<D>(
    before: Workspace<D>,
    after: Workspace<D>,
    split: Option<SplitDirection>,
    cwd: Seq<char>,
    items: Seq<DirItem>,
) -> bool {
    let id = BufferId(before.buf_ids.upcoming);
    let here = before.focus_now();
    &&& after.same_sizes(before)
    &&& match split {
        Some(direction) => {
            &&& split_showing(before, after, axis_for(direction), id, here.viewport)
            &&& browsed(before, cwd, items, after.pool.slots@, after.buf_ids.upcoming)
        },
        None => {
            &&& after.tabs@ == splits::repainted(
                with_focus(before, here.loaded(id)),
                before.current_tab as int,
            )
            &&& exists|slots: Seq<Slot<D>>|
                {
                    &&& #[trigger] browsed(before, cwd, items, slots, after.buf_ids.upcoming)
                    &&& after.pool.slots@ == pool::released(slots, here.buffer)
                    &&& after.closed@ == closed_after(before.closed@, slots, here.buffer)
                }
            &&& after.current_tab == before.current_tab
            &&& after.win_ids == before.win_ids
            &&& after.quit_requested == before.quit_requested
            &&& after.same_notes(before)
        },
    }
}

/// After the focused window was replaced, it is found where it was.
pub(crate) proof fn lemma_focus_replaced<D>(before: Workspace<D>, after: Workspace<D>, w: Window)
    requires
        before.tabs@.len() > 0,
        before.current_tab < before.tabs@.len(),
        workspace::tab_ok(before.tab_now(), before.win_ids.upcoming, before.buf_ids.upcoming),
        after.tabs@ == with_focus(before, w),
        after.current_tab == before.current_tab,
        w.id == before.tab_now().focused,
    ensures
        after.focus_at() == before.focus_at(),
        after.focus_now() == w,
        after.tab_now().focused == before.tab_now().focused,
{
    let was = before.tab_now().tree.leaves();
    window::lemma_position(was, before.tab_now().focused);
    before.tab_now().tree.lemma_with_leaf(before.focus_at(), w);
    let now = after.tab_now().tree.leaves();
    assert(now == was.update(before.focus_at(), w));
    assert forall|i: int| 0 <= i < now.len() implies (#[trigger] now[i]).id == was[i].id by {}
    window::lemma_position_same(now, was, before.tab_now().focused);
}

/// The later of two replacements stands.
pub(crate) proof fn lemma_replaced_twice(tree: WindowTree, i: int, w: Window, v: Window)
    requires
        0 <= i < tree.leaves().len(),
    ensures
        tree.with_leaf(i, w).with_leaf(i, v) == tree.with_leaf(i, v),
    decreases tree,
{
    match tree {
        WindowTree::Leaf(_) => {},
        WindowTree::Split { a, b, .. } => {
            let n = a.leaves().len();
            if i < n {
                lemma_replaced_twice(*a, i, w, v);
                a.lemma_with_leaf(i, w);
            } else {
                lemma_replaced_twice(*b, i - n, w, v);
            }
        },
    }
}

/// Counting a document once more does not change what it holds.
proof fn lemma_same_document<D>(ws: Workspace<D>, slots: Seq<Slot<D>>, id: BufferId)
    requires
        slots == pool::acquired(ws.pool.slots@, id),
    ensures
        forall|before: Option<usize>|
            #[trigger] wanted_pages(slots, id, before) == wanted_pages(
                ws.pool.slots@,
                id,
                before,
            ),
        forall|before: Option<usize>|
            #[trigger] wanted_frames(slots, id, before) == wanted_frames(
                ws.pool.slots@,
                id,
                before,
            ),
{
    let was = ws.pool.slots@;
    pool::lemma_slot_at(was, id);
    pool::lemma_slot_at(slots, id);
    if let Some(i) = pool::slot_at(was, id) {
        assert(slots[i].id() == id);
        assert forall|j: int| 0 <= j < i implies (#[trigger] slots[j]).id() != id by {
            assert(slots[j] == was[j]);
        }
        assert(pool::slot_at(slots, id) == Some(i));
    }
}

} // verus!
