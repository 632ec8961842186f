//! Where entries, links, searches and clicks lead.
use vstd::prelude::*;

use crate::browsing;
use crate::buffer::{self, Buffer, PdfBuffer};
use crate::commands;
use crate::document::{MatchRect, PageError, PageLink, PageMetrics, PageSize};
use crate::encoded_cache::{self, ComposedEncodedCache, EncodedKey};
use crate::events;
use crate::execution;
use crate::explorer::{self, DirItem, ExplorerBuffer, ExplorerKind};
use crate::keys::KeyParserState;
use crate::lists;
use crate::number::Real32;
use crate::opening;
use crate::painting::{self, Click};
use crate::palette;
use crate::paths;
use crate::pool;
use crate::renderer;
use crate::reading;
use crate::searching;
use crate::session::{ModeView, SessionView};
use crate::text;
use crate::viewport::Viewport;
use crate::window::{CellRect, Window};
use crate::workspace::{CacheSettings, Workspace, WorkspaceError};

verus! {

/// Opening an entry of a directory leads to what has its name there, the way up
/// to the directory's parent, and only documents are no directories.
pub proof fn lemma_entry_leads_to<D: PageMetrics>(ws: Workspace<D>, e: ExplorerBuffer)
    requires
        reading::focused_buffer(ws) == Some(Buffer::<D>::Explorer(e)),
    ensures
        e.selected >= e.entries@.len() ==> browsing::target(ws) is None,
        e.selected < e.entries@.len() ==> {
            let entry = e.entries@[e.selected as int];
            &&& entry.kind == ExplorerKind::Dir ==> browsing::target(ws) == Some(
                (commands::joined(e.cwd@, entry.name@), true),
            )
            &&& entry.kind == ExplorerKind::Pdf ==> browsing::target(ws) == Some(
                (commands::joined(e.cwd@, entry.name@), false),
            )
            &&& entry.kind == ExplorerKind::ParentDir && paths::parent(e.cwd@) is Some
                ==> browsing::target(ws) == Some((paths::parent(e.cwd@)->0, true))
        },
{
}

/// A path below a directory has one slash between; an absolute one stands
/// alone.
pub proof fn lemma_joined(base: Seq<char>, rest: Seq<char>)
    requires
        rest.len() > 0,
    ensures
        rest[0] == '/' ==> commands::joined(base, rest) == rest,
        rest[0] != '/' && base.len() > 0 && base.last() == '/' ==> commands::joined(base, rest)
            == base + rest,
        rest[0] != '/' && base.len() > 0 && base.last() != '/' ==> commands::joined(base, rest)
            == base + seq!['/'] + rest,
        rest[0] != '/' && base.len() == 0 ==> commands::joined(base, rest) == rest,
{
    assert(base.push('/') + rest =~= base + seq!['/'] + rest);
    if base.len() == 0 {
        assert(base + rest =~= rest);
    }
}

/// Entering a directory selects its first entry; going up selects the directory
/// that was left, where it is listed.
pub proof fn lemma_selection_follows(
    e: ExplorerBuffer,
    now: ExplorerBuffer,
    cwd: Seq<char>,
    items: Seq<DirItem>,
    i: int,
)
    requires
        0 <= i < now.list().len(),
    ensures
        browsing::entered(e, now, cwd, items) ==> now.selected == 0 && now.cwd@ == cwd,
        browsing::went_up(e, now, cwd, items) && paths::file_name(e.cwd@) == Some(now.list()[i].0)
            ==> now.cwd@ == cwd && now.selected <= i && now.list()[now.selected as int].0
            == now.list()[i].0,
{
    if let Some(child) = paths::file_name(e.cwd@) {
        explorer::lemma_position(now.list(), child);
    }
}

/// When a directory is listed again the entry of the same name stays selected,
/// and the first where it is gone.
pub proof fn lemma_same_entry_selected(
    e: ExplorerBuffer,
    list: Seq<(Seq<char>, ExplorerKind)>,
    i: int,
)
    requires
        e.selected < e.entries@.len(),
        0 <= i < list.len(),
    ensures
        list[i].0 == e.entries@[e.selected as int].name@ ==> list[e.reselected(list)].0
            == e.entries@[e.selected as int].name@ && 0 <= e.reselected(list) <= i,
        (forall|j: int|
            0 <= j < list.len() ==> (#[trigger] list[j]).0 != e.entries@[e.selected as int].name@)
            ==> e.reselected(list) == 0,
{
    explorer::lemma_position(list, e.entries@[e.selected as int].name@);
}

/// A directory is shown under its last part in square brackets and a document
/// under its file name.
pub proof fn lemma_shown_names(path: Seq<char>, name: Seq<char>)
    requires
        paths::file_name(path) == Some(name),
    ensures
        explorer::bracketed_name(path) == seq!['['] + name + seq![']'],
        buffer::shown_name(path) == name,
{
}

/// A frame that is found is the one under its key, and it comes to the front;
/// a cache that is off finds nothing.
pub proof fn lemma_frame_asked(c: &ComposedEncodedCache, key: EncodedKey, i: int)
    requires
        0 <= i < c.frames().len(),
        c.frames()[i].0 == key.numbers(),
        forall|j: int| 0 <= j < i ==> (#[trigger] c.frames()[j]).0 != key.numbers(),
    ensures
        c.on() ==> encoded_cache::hit(c, key) == Some(c.frames()[i].1),
        c.on() ==> encoded_cache::asked(c, key)[0] == c.frames()[i],
        c.on() ==> encoded_cache::asked(c, key).len() == c.frames().len(),
        !c.on() ==> encoded_cache::hit(c, key) is None,
        !c.on() ==> encoded_cache::asked(c, key) == c.frames(),
{
    encoded_cache::lemma_place(c.frames(), key.numbers());
    assert(encoded_cache::place(c.frames(), key.numbers()) == Some(i));
}

/// A click on another window gives it focus; a click on a link jumps to where
/// the link leads.
pub proof fn lemma_clicks<D: PageMetrics, P, Q, F>(
    s: SessionView,
    t: SessionView,
    a: Workspace<D>,
    b: Workspace<D>,
    c: Click,
    point: &P,
    landing: &Q,
    times: &F,
    caches: CacheSettings,
    now: u64,
) where
    P: Fn(Viewport, PageSize, i32, i32) -> (Real32, Real32),
    Q: Fn(Viewport, PageSize, Real32, Real32) -> (i32, i32),
    F: Fn(Real32, Real32) -> Real32,

    requires
        a.live(),
        events::click_carried(s, t, a, b, c, point, landing, times, caches, now),
    ensures
        c == Click::Nothing ==> t == s && b == a,
        c matches Click::Focus(id) ==> {
            &&& t.full_repaint
            &&& a.tab_now().tree.has(id) ==> b.tab_now().focused == id
            &&& b.pool == a.pool
        },
        c matches Click::Follow { window, x, y } ==> exists|r: Result<(), WorkspaceError>| #[trigger]
            reading::click_result(a, b, window, x, y, point, landing, times, caches, r),
{
}

/// A click is looked up in the window that it hits: the pixel of its page under
/// the click decides, and outside the page there is nothing.
pub proof fn lemma_click_on_page<D: PageMetrics, P, Q>(
    p: PdfBuffer<D>,
    view: Viewport,
    x: i32,
    y: i32,
    point: &P,
    landing: &Q,
    r: Result<Option<(usize, i32, i32)>, WorkspaceError>,
    size: PageSize,
    extent: (u32, u32),
) where
    P: Fn(Viewport, PageSize, i32, i32) -> (Real32, Real32),
    Q: Fn(Viewport, PageSize, Real32, Real32) -> (i32, i32),

    requires
        reading::clicked_page(p, view, x, y, point, landing, r),
        p.pdf.native(view.page_idx as nat) == Ok::<PageSize, PageError>(size),
        p.pdf.composed(view.page_idx as nat, view.spec_look()) == Ok::<(u32, u32), PageError>(
            extent,
        ),
        extent.0 <= i32::MAX && extent.1 <= i32::MAX,
    ensures
        !(0 <= x + view.x_off < extent.0 && 0 <= y + view.y_off < extent.1) ==> r == Ok::<
            Option<(usize, i32, i32)>,
            WorkspaceError,
        >(None),
        0 <= x + view.x_off < extent.0 && 0 <= y + view.y_off < extent.1 ==> exists|
            at: (Real32, Real32),
            hit: Option<PageLink>,
        |
            {
                &&& #[trigger] call_ensures(
                    point,
                    (view, size, (x + view.x_off) as i32, (y + view.y_off) as i32),
                    at,
                )
                &&& #[trigger] reading::hits(reading::links_of(p, view.page_idx), at.0, at.1, hit)
                &&& hit is None ==> r == Ok::<Option<(usize, i32, i32)>, WorkspaceError>(None)
                &&& hit matches Some(l) ==> reading::follows(p, view, l, landing, r)
            },
{
}

/// A link leads to its page: to the place that it names there, seen in the same
/// view, or to the top where it names none.
pub proof fn lemma_link_leads_to<D: PageMetrics, Q>(
    p: PdfBuffer<D>,
    view: Viewport,
    l: PageLink,
    landing: &Q,
    r: Result<Option<(usize, i32, i32)>, WorkspaceError>,
) where Q: Fn(Viewport, PageSize, Real32, Real32) -> (i32, i32)
    requires
        reading::follows(p, view, l, landing, r),
    ensures
        l.dest_point is None ==> r == Ok::<_, WorkspaceError>(Some((l.dest_page, 0i32, 0i32))),
        r matches Ok(Some((page, _, _))) ==> page == l.dest_page,
        !(r matches Ok(None)),
        l.dest_point matches Some(at) ==> (p.pdf.native(l.dest_page as nat) matches Ok(size)
            ==> exists|offs: (i32, i32)|
            {
                &&& #[trigger] call_ensures(
                    landing,
                    (Viewport { page_idx: l.dest_page, ..view }, size, at.0, at.1),
                    offs,
                )
                &&& r == Ok::<_, WorkspaceError>(Some((l.dest_page, offs.0, offs.1)))
            }),
{
}

/// The links of a page are those that were stored for it.
pub proof fn lemma_links_of_page<D>(p: PdfBuffer<D>, i: int)
    requires
        0 <= i < p.link_cache@.len(),
        forall|j: int|
            0 <= j < i ==> (#[trigger] p.link_cache@[j]).0 != p.link_cache@[i].0,
    ensures
        reading::links_of(p, p.link_cache@[i].0) == p.link_cache@[i].1@,
{
    lemma_links_at(p.link_cache@, i);
}

proof fn lemma_links_at(cache: Seq<(usize, Vec<PageLink>)>, i: int)
    requires
        0 <= i < cache.len(),
        forall|j: int| 0 <= j < i ==> (#[trigger] cache[j]).0 != cache[i].0,
    ensures
        buffer::links_at(cache, cache[i].0) == Some(i),
    decreases cache.len(),
{
    if i > 0 {
        assert(cache[0].0 != cache[i].0);
        let rest = cache.skip(1);
        assert(rest[i - 1] == cache[i]);
        assert forall|j: int| 0 <= j < i - 1 implies (#[trigger] rest[j]).0 != rest[i - 1].0 by {
            assert(rest[j] == cache[j + 1]);
        }
        lemma_links_at(rest, i - 1);
    }
}

/// A search keeps what was searched for, in which direction and what was found,
/// and focuses the hit that it lands on; searching for nothing forgets the
/// hits.
pub proof fn lemma_search_kept<D: PageMetrics>(
    before: Workspace<D>,
    after: Workspace<D>,
    query: Seq<char>,
    hits: Seq<MatchRect>,
    forward: bool,
)
    requires
        searching::found(before, after, query, hits, forward),
    ensures
        ({
            let q = searching::focused_pdf(after);
            &&& q.search.query@ == query
            &&& q.search.forward == forward
            &&& query.len() == 0 ==> q.search.matches@.len() == 0 && q.search.current is None
            &&& query.len() > 0 ==> q.search.matches@ == hits && (hits.len() > 0
                ==> q.search.current is Some)
            &&& query.len() > 0 && q.search.current is Some && !forward ==> {
                let k = q.search.current->0 as int;
                let here = before.focus_now().viewport.page_idx;
                hits[k].page_idx <= here || k == hits.len() - 1
            }
            &&& query.len() > 0 && q.search.current is Some && forward ==> {
                let k = q.search.current->0 as int;
                let here = before.focus_now().viewport.page_idx;
                hits[k].page_idx >= here || k == 0
            }
        }),
{
}

/// The table of contents opens on a document that has one, and says so where
/// there is none.
pub proof fn lemma_toc_opens<D>(
    s: SessionView,
    ws: Workspace<D>,
    outline: Seq<crate::document::Outline>,
    now: u64,
)
    requires
        reading::focused_buffer(ws) matches Some(Buffer::Pdf(_)),
    ensures
        lists::flattened(outline, 0).len() > 0 ==> (execution::toc_shown(
            s,
            ws,
            outline,
            now,
        ).mode matches ModeView::Toc { lines, selected, pending } && lines == lists::flattened(
            outline,
            0,
        ) && selected == lists::line_for(
            lines,
            ws.focus_now().viewport.page_idx as int,
        ) as usize && pending == KeyParserState::cleared()),
        lists::flattened(outline, 0).len() == 0 ==> execution::toc_shown(
            s,
            ws,
            outline,
            now,
        ).mode == s.mode,
{
}

/// After a command everything is drawn anew, unless a list covers it.
pub proof fn lemma_drawn_after_command(s: SessionView)
    ensures
        s.mode == ModeView::Normal ==> s.repainted().full_repaint,
        s.repainted().mode == s.mode,
        s.mode is Toc || s.mode is Marks ==> s.repainted() == s,
{
}

/// The argument of a command that takes a path begins after its name and the
/// space; no other command has one.
pub proof fn lemma_path_argument(name: Seq<char>, arg: Seq<char>)
    requires
        name.len() > 0,
        forall|i: int| 0 <= i < name.len() ==> !text::is_white(#[trigger] name[i]),
    ensures
        palette::path_commands().contains(name) ==> palette::path_argument(
            name + seq![' '] + arg,
        ) == Some(name.len() as int + 1),
        !palette::path_commands().contains(name) ==> palette::path_argument(
            name + seq![' '] + arg,
        ) is None,
        palette::path_argument(name) is None,
{
    let tail = seq![' '] + arg;
    assert(name + seq![' '] + arg =~= name + tail);
    assert(tail[0] == ' ');
    crate::commands_laws::lemma_word_len(name, tail);
    assert((name + tail).take(name.len() as int) =~= name);
    let none = Seq::<char>::empty();
    crate::commands_laws::lemma_word_len(name, none);
    assert(name + none =~= name);
}

/// The commands that take a path.
pub proof fn lemma_path_commands()
    ensures
        forall|k: int|
            0 <= k < 16 ==> palette::path_commands().contains(#[trigger] palette::path_commands()[k]),
        palette::path_commands().len() == 16,
        palette::path_commands()[0] == "edit"@ && palette::path_commands()[1] == "e"@,
        palette::path_commands()[2] == "open"@ && palette::path_commands()[3] == "o"@,
        palette::path_commands()[4] == "split"@ && palette::path_commands()[5] == "sp"@,
        palette::path_commands()[6] == "vsplit"@ && palette::path_commands()[7] == "vsp"@,
        palette::path_commands()[8] == "tabnew"@ && palette::path_commands()[9] == "tabe"@,
        palette::path_commands()[10] == "Explore"@ && palette::path_commands()[11] == "Ex"@,
        palette::path_commands()[12] == "Sexplore"@ && palette::path_commands()[13] == "Sex"@,
        palette::path_commands()[14] == "Vexplore"@ && palette::path_commands()[15] == "Vex"@,
{
}

/// The directory to list for a path: the current one where the path names none,
/// the home directory for a tilde, else the one that is named.
pub proof fn lemma_listed_dir(dir: Seq<char>, h: Seq<char>)
    requires
        dir.len() > 0,
        dir[0] != '~',
    ensures
        palette::expanded_dir(Seq::empty(), Some(h)) == seq!['.', '/'],
        palette::expanded_dir(seq!['~'], Some(h)) == h,
        palette::expanded_dir(dir, Some(h)) == dir,
        palette::expanded_dir(dir, None) == dir,
{
    reveal_strlit("./");
    reveal_strlit("~");
    reveal_strlit("~/");
    assert("./"@ =~= seq!['.', '/']);
    assert("~"@ =~= seq!['~']);
    assert("~"@[0] == '~' && "~/"@[0] == '~');
    assert(seq!['~'].len() == 1);
    if "~/"@.is_prefix_of(dir) {
        assert(dir.subrange(0, 2)[0] == "~/"@[0]);
    }
}

/// A new reader has one tab with one window, which has focus.
pub proof fn lemma_first_tab(v: Viewport)
    ensures
        opening::first_tab(v).tree.leaves().len() == 1,
        opening::first_tab(v).tree.leaves()[0].id == opening::first_tab(v).focused,
        opening::first_tab(v).tree.leaves()[0].viewport == v,
        opening::first_tab(v).tree.leaves()[0].dirty,
        opening::first_tab(v).tree.leaves()[0].last_rect is None,
        opening::first_tab(v).tree.leaves()[0].alternate is None,
{
}

/// What is written into the states of the documents: of the last window on
/// each, in the order of the windows.
pub proof fn lemma_state_follows_window<D>(
    slots: Seq<pool::Slot<D>>,
    w: Window,
    caches: CacheSettings,
    i: int,
)
    requires
        pool::slot_at(slots, w.buffer) == Some(i),
        0 <= i < slots.len(),
        slots[i].buf is Pdf,
    ensures
        ({
            let now = reading::slots_synced(slots, w, caches);
            &&& now.len() == slots.len()
            &&& now[i].buf->Pdf_0.state.last_page == w.viewport.page_idx
            &&& now[i].buf->Pdf_0.state.scroll_x == w.viewport.x_off
            &&& now[i].buf->Pdf_0.state.scroll_y == w.viewport.y_off
            &&& now[i].refs == slots[i].refs && now[i].key == slots[i].key
            &&& forall|j: int| 0 <= j < slots.len() && j != i ==> #[trigger] now[j] == slots[j]
            &&& forall|x: Seq<Window>|
                x.len() > 0 && x.last() == w && reading::all_synced(slots, x.drop_last(), caches)
                    == slots ==> #[trigger] reading::all_synced(slots, x, caches) == now
        }),
{
}

/// Painting a directory leaves its rectangle and nothing to be drawn.
pub proof fn lemma_listed_once(w: Window, rect: CellRect)
    ensures
        painting::with_list(w, rect).last_rect == Some(rect),
        !painting::with_list(w, rect).dirty,
        !painting::outdated(painting::with_list(w, rect), rect),
        w.dirty ==> painting::outdated(w, rect),
        w.last_rect != Some(rect) ==> painting::outdated(w, rect),
{
}

/// The marks of a document are listed from the first on; where there are none a
/// message says so and the mode stays.
pub proof fn lemma_marks_listed<D>(s: SessionView, ws: Workspace<D>, p: PdfBuffer<D>, now: u64)
    requires
        reading::focused_buffer(ws) == Some(Buffer::Pdf(p)),
    ensures
        ({
            let t = execution::marks_shown(s, ws, now);
            let marks = lists::by_letter(p.state.bookmarks@);
            &&& marks.len() == 0 ==> t.mode == s.mode && t.message == Some(
                "no marks set (use m{a-z} to set one)"@,
            )
            &&& marks.len() > 0 ==> t.message == s.message && (t.mode matches ModeView::Marks {
                marks: shown,
                selected,
                ..
            } && shown == marks && selected == 0)
        }),
{
}

/// Above the root there is nothing to open.
pub proof fn lemma_nothing_above_root<D>(ws: Workspace<D>, e: ExplorerBuffer)
    requires
        reading::focused_buffer(ws) == Some(Buffer::<D>::Explorer(e)),
        e.selected < e.entries@.len(),
        e.entries@[e.selected as int].kind == ExplorerKind::ParentDir,
        e.cwd@ == seq!['/'],
    ensures
        browsing::target(ws) is None,
{
    lemma_root_has_no_parent();
}

/// The root has no parent.
pub proof fn lemma_root_has_no_parent()
    ensures
        paths::parent(seq!['/']) is None,
{
    reveal_with_fuel(paths::trim_tail, 3);
    reveal_with_fuel(paths::last_part, 3);
}

/// While a search is active the hits of a window's page are highlighted, with
/// the current one where it is on that page; otherwise there is nothing to
/// highlight.
pub proof fn lemma_hits_highlighted<D: PageMetrics>(
    ws: Workspace<D>,
    w: Window,
    r: Result<Option<renderer::Highlights>, PageError>,
    j: int,
    p: PdfBuffer<D>,
    size: PageSize,
    i: int,
)
    requires
        painting::marks_for(ws, w, r),
        pool::slot_at(ws.pool.slots@, w.buffer) == Some(j),
        ws.pool.slots@[j].buf == Buffer::Pdf(p),
        p.pdf.native(w.viewport.page_idx as nat) == Ok::<PageSize, PageError>(size),
    ensures
        r is Ok,
        r->Ok_0 is Some <==> p.search.active(),
        r matches Ok(Some(h)) ==> {
            &&& h.page_size == Some(size)
            &&& 0 <= i < h.rects@.len() ==> exists|k: int|
                0 <= k < p.search.matches@.len() && (#[trigger] p.search.matches@[k]).page_idx
                    == w.viewport.page_idx && p.search.matches@[k].rect == h.rects@[i]
            &&& p.search.current is None ==> h.current is None
        },
{
    if let Ok(Some(h)) = r {
        if 0 <= i < h.rects@.len() {
            lemma_rects_are_hits(p.search.matches@, w.viewport.page_idx, i);
        }
    }
}

/// What is highlighted on a page are hits of that page.
pub proof fn lemma_rects_are_hits(hits: Seq<MatchRect>, page: usize, i: int)
    requires
        0 <= i < renderer::rects_on(hits, page).len(),
    ensures
        exists|k: int|
            0 <= k < hits.len() && (#[trigger] hits[k]).page_idx == page && hits[k].rect
                == renderer::rects_on(hits, page)[i],
    decreases hits.len(),
{
    let less = hits.drop_last();
    let rest = renderer::rects_on(less, page);
    if i < rest.len() {
        lemma_rects_are_hits(less, page, i);
        let k = choose|k: int|
            0 <= k < less.len() && (#[trigger] less[k]).page_idx == page && less[k].rect
                == rest[i];
        assert(hits[k] == less[k]);
    } else {
        assert(hits[hits.len() - 1].page_idx == page);
    }
}

/// A window on a directory takes the size of its place, and the other windows
/// keep theirs.
pub proof fn lemma_directory_resized<D: PageMetrics>(
    a: Workspace<D>,
    b: Workspace<D>,
    id: crate::window::WindowId,
    width: u32,
    height: u32,
    r: Result<bool, WorkspaceError>,
    k: int,
    j: int,
    e: ExplorerBuffer,
)
    requires
        a.live(),
        width > 0,
        height > 0,
        crate::window::position(a.tab_now().tree.leaves(), id) == Some(k),
        pool::slot_at(a.pool.slots@, a.tab_now().tree.leaves()[k].buffer) == Some(j),
        a.pool.slots@[j].buf == Buffer::<D>::Explorer(e),
        reading::resynced(a, b, id, width, height, r),
        b.current_tab == a.current_tab,
    ensures
        ({
            let v = a.tab_now().tree.leaves()[k].viewport;
            let now = b.tab_now().tree.leaves();
            &&& now.len() == a.tab_now().tree.leaves().len()
            &&& now[k].viewport.screen_w == width
            &&& now[k].viewport.screen_h == height
            &&& r == Ok::<bool, WorkspaceError>(v.screen_w != width || v.screen_h != height)
            &&& forall|i: int|
                0 <= i < now.len() && i != k ==> #[trigger] now[i]
                    == a.tab_now().tree.leaves()[i]
        }),
{
    let t = a.tab_now();
    crate::window::lemma_position(t.tree.leaves(), id);
    let w = t.tree.leaves()[k];
    t.tree.lemma_with_leaf(
        k,
        Window { viewport: Viewport { screen_w: width, screen_h: height, ..w.viewport }, ..w },
    );
}

/// A search keeps what was typed and which way it goes, and with hits one of
/// them is the current one; where nothing was typed there are none.
pub proof fn lemma_searched<D: PageMetrics>(
    a: Workspace<D>,
    mid: Workspace<D>,
    query: Seq<char>,
    hits: Seq<MatchRect>,
    forward: bool,
)
    requires
        searching::found(a, mid, query, hits, forward),
    ensures
        searching::focused_pdf(mid).search.query@ == query,
        searching::focused_pdf(mid).search.forward == forward,
        query.len() == 0 ==> searching::focused_pdf(mid).search.matches@.len() == 0
            && searching::current_hit(searching::focused_pdf(mid)) is None,
        query.len() > 0 && hits.len() > 0 ==> (searching::current_hit(
            searching::focused_pdf(mid),
        ) matches Some(m) && hits.contains(m)),
{
    if query.len() > 0 && hits.len() > 0 {
        let q = searching::focused_pdf(mid);
        let i = q.search.current->0;
        assert(hits[i as int] == hits[i as int]);
    }
}

/// A click whose target cannot be found out fails and changes nothing; one that
/// hits nothing changes nothing either.
pub proof fn lemma_click_without_target<D: PageMetrics, P, Q, F>(
    a: Workspace<D>,
    b: Workspace<D>,
    id: crate::window::WindowId,
    x: i32,
    y: i32,
    point: &P,
    landing: &Q,
    times: &F,
    caches: CacheSettings,
    r: Result<(), WorkspaceError>,
) where
    P: Fn(Viewport, PageSize, i32, i32) -> (Real32, Real32),
    Q: Fn(Viewport, PageSize, Real32, Real32) -> (i32, i32),
    F: Fn(Real32, Real32) -> Real32,

    requires
        reading::click_result(a, b, id, x, y, point, landing, times, caches, r),
    ensures
        (forall|hit: Result<Option<(usize, i32, i32)>, WorkspaceError>| #[trigger]
            reading::clicked(a, id, x, y, point, landing, hit) ==> hit is Err) ==> r is Err && b
            == a,
        (forall|hit: Result<Option<(usize, i32, i32)>, WorkspaceError>| #[trigger]
            reading::clicked(a, id, x, y, point, landing, hit) ==> hit == Ok::<
                Option<(usize, i32, i32)>,
                WorkspaceError,
            >(None)) ==> r is Ok && b == a,
{
}

/// A search in a directory does nothing, and one in a document is told of: by
/// what was found, or by why it failed.
pub proof fn lemma_search_told<
    D: PageMetrics,
    F: Fn(Real32, Real32) -> Real32,
    S: Fn(u16, Real32) -> u16,
    N: Fn(Real32, i32, u16) -> Real32,
    P: Fn(PageSize, Viewport, crate::document::PdfRect) -> Option<(i32, i32)>,
>(
    s: SessionView,
    t: SessionView,
    a: Workspace<D>,
    b: Workspace<D>,
    query: Seq<char>,
    hits: Seq<MatchRect>,
    forward: bool,
    tools: &crate::control::Tools<F, S, N, P>,
    caches: CacheSettings,
    now: u64,
)
    requires
        execution::search_carried(s, t, a, b, query, hits, forward, tools, caches, now),
    ensures
        reading::focused_buffer(a) matches Some(Buffer::Explorer(_)) ==> t == s && b == a,
        reading::focused_buffer(a) matches Some(Buffer::Pdf(_)) ==> {
            &&& t.stale_frames
            &&& t.chrome_dirty
            &&& t.message == Some(
                crate::messages::search_words(
                    query,
                    crate::control::counts(b).0,
                    crate::control::counts(b).1,
                ),
            ) || (t.message matches Some(m) && "search: "@.is_prefix_of(m))
        },
{
    if let Some(Buffer::Pdf(_)) = reading::focused_buffer(a) {
        let x = choose|x: Result<(), WorkspaceError>|
            {
                &&& #[trigger] searching::search_result(
                    a,
                    b,
                    query,
                    hits,
                    forward,
                    &tools.spot,
                    &tools.times,
                    caches,
                    x,
                )
                &&& t == (match x {
                    Ok(_) => s.reframed().told(
                        crate::messages::search_words(
                            query,
                            crate::control::counts(b).0,
                            crate::control::counts(b).1,
                        ),
                        now,
                    ),
                    Err(e) => s.reframed().told("search: "@ + e.words(), now),
                })
            };
        if let Err(e) = x {
            let m = "search: "@ + e.words();
            assert(m.take("search: "@.len() as int) =~= "search: "@);
        }
    }
}

} // verus!
